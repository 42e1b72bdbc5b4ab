use iznik_kit::generate::{chosen, ModelGenerator, RegistryOperation};

const ROUNDS: usize = 500;
const OPERATIONS: usize = 20;
const SEED: u64 = 0x2026_0828_1102_5555;
const OTHER_SEED: u64 = 0x2026_0828_1102_6666;

fn kind(operation: &RegistryOperation) -> &'static str {
    match operation {
        RegistryOperation::CreateSession { .. } => "CreateSession",
        RegistryOperation::CreateTab { .. } => "CreateTab",
        RegistryOperation::CreatePane { .. } => "CreatePane",
        RegistryOperation::ClosePane { .. } => "ClosePane",
        RegistryOperation::MovePane { .. } => "MovePane",
        RegistryOperation::RenameSession { .. } => "RenameSession",
        RegistryOperation::RenameTab { .. } => "RenameTab",
        RegistryOperation::CloseTab { .. } => "CloseTab",
        RegistryOperation::CloseSession { .. } => "CloseSession",
        RegistryOperation::ReorderTabs { .. } => "ReorderTabs",
        RegistryOperation::SetLayout { .. } => "SetLayout",
    }
}

#[test]
fn generate_a_chooser_wraps_onto_what_there_is() {
    let held = ["first", "second", "third"];
    assert_eq!(chosen(&held, 0), Some(&"first"), "the first");
    assert_eq!(chosen(&held, 2), Some(&"third"), "the last");
    assert_eq!(chosen(&held, 3), Some(&"first"), "round again");
    assert_eq!(chosen(&held, 4_000), Some(&"second"), "far round again");
    let empty: [&str; 0] = [];
    assert_eq!(chosen(&empty, 0), None, "nothing to choose from");
}

#[test]
fn generate_operations_cover_every_kind() {
    let mut generator = ModelGenerator::new(SEED);
    let operations = generator.operations(OPERATIONS.saturating_mul(ROUNDS));
    assert_eq!(operations.len(), OPERATIONS.saturating_mul(ROUNDS), "as many as asked for");
    let mut kinds: Vec<&str> = operations.iter().map(kind).collect();
    kinds.sort_unstable();
    kinds.dedup();
    assert_eq!(kinds.len(), 11, "the kinds drawn were {kinds:?}");
}

#[test]
fn generate_the_same_seed_draws_the_same_operations() {
    let mut first = ModelGenerator::new(SEED);
    let mut second = ModelGenerator::new(SEED);
    let mut other = ModelGenerator::new(OTHER_SEED);
    let drawn = first.operations(OPERATIONS);
    assert_eq!(drawn, second.operations(OPERATIONS), "one seed, one sequence");
    assert_ne!(drawn, other.operations(OPERATIONS), "another seed, another sequence");
}

#[test]
fn generate_a_seed_of_zero_still_draws_every_kind() {
    let mut generator = ModelGenerator::new(0);
    let operations = generator.operations(OPERATIONS.saturating_mul(ROUNDS));
    let mut kinds: Vec<&str> = operations.iter().map(kind).collect();
    kinds.sort_unstable();
    kinds.dedup();
    assert_eq!(kinds.len(), 11, "a seed of zero drew {kinds:?}");
}
