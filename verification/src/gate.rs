//! The five gates in order — format, lint, documentation, test and claims —
//! each with the command it runs, the environment it adds and the deadline
//! that catches it hanging. Running them is the caller's.
use vstd::prelude::*;

use crate::text::{chars_of, extend_str, spells, string_of};

verus! {

/// The program every gate runs.
pub const PROGRAM: &'static str = "cargo";

/// The format gate's deadline, in seconds: five minutes.
pub const FORMAT_DEADLINE: u64 = 300;

/// The lint gate's deadline, in seconds: fifteen minutes.
pub const LINT_DEADLINE: u64 = 900;

/// The documentation gate's deadline, in seconds: ten minutes.
pub const DOCUMENTATION_DEADLINE: u64 = 600;

/// The test gate's deadline, in seconds: fifteen minutes.
pub const TEST_DEADLINE: u64 = 900;

/// The claims gate's deadline, in seconds: fifteen minutes.
pub const CLAIMS_DEADLINE: u64 = 900;

/// The five gates.
#[derive(Clone, Copy, Debug, PartialEq, Eq, Structural)]
pub enum Gate {
    /// `cargo fmt --all --check`.
    Format,
    /// `cargo clippy` over every target with warnings denied.
    Lint,
    /// `cargo doc` over the workspace with warnings denied.
    Documentation,
    /// `cargo nextest run` over the workspace.
    Test,
    /// `cargo xtask claims verify`.
    Claims,
}

/// The gates in the order `check` runs them.
pub open spec fn gate_order() -> Seq<Gate> {
    seq![Gate::Format, Gate::Lint, Gate::Documentation, Gate::Test, Gate::Claims]
}

/// The gates in the order `check` runs them.
pub fn gates() -> (order: Vec<Gate>)
    ensures
        order@ == gate_order(),
{
    let order = vec![Gate::Format, Gate::Lint, Gate::Documentation, Gate::Test, Gate::Claims];
    assert(order@ =~= gate_order());
    order
}

/// A gate's name, as `xtask gate <name>` spells it.
pub open spec fn gate_name(gate: Gate) -> Seq<char> {
    match gate {
        Gate::Format => "format"@,
        Gate::Lint => "lint"@,
        Gate::Documentation => "documentation"@,
        Gate::Test => "test"@,
        Gate::Claims => "claims"@,
    }
}

/// The arguments a gate hands to [`PROGRAM`].
pub open spec fn gate_arguments(gate: Gate) -> Seq<Seq<char>> {
    match gate {
        Gate::Format => seq!["fmt"@, "--all"@, "--check"@],
        Gate::Lint => seq![
            "clippy"@,
            "--workspace"@,
            "--all-targets"@,
            "--locked"@,
            "--"@,
            "-D"@,
            "warnings"@,
        ],
        Gate::Documentation => seq![
            "doc"@,
            "--workspace"@,
            "--no-deps"@,
            "--document-private-items"@,
            "--locked"@,
        ],
        Gate::Test => seq!["nextest"@, "run"@, "--workspace"@, "--locked"@],
        Gate::Claims => seq!["xtask"@, "claims"@, "verify"@],
    }
}

/// The texts of some string slices.
pub open spec fn texts_of(words: Seq<&str>) -> Seq<Seq<char>> {
    words.map_values(|word: &str| word@)
}

impl Gate {
    /// Its name.
    pub fn name(self) -> (named: &'static str)
        ensures
            named@ == gate_name(self),
    {
        match self {
            Gate::Format => "format",
            Gate::Lint => "lint",
            Gate::Documentation => "documentation",
            Gate::Test => "test",
            Gate::Claims => "claims",
        }
    }

    /// The one called `name`, if there is one.
    pub fn parse(name: &str) -> (gate: Option<Gate>)
        ensures
            match gate {
                Some(found) => gate_name(found) == name@,
                None => forall|other: Gate| gate_name(other) != name@,
            },
    {
        let order = gates();
        let named = chars_of(name);
        let mut index: usize = 0;
        while index < order.len()
            invariant
                index <= order@.len(),
                order@ == gate_order(),
                named@ == name@,
                forall|earlier: int| 0 <= earlier < index ==> gate_name(#[trigger] order@[earlier]) != name@,
            decreases order@.len() - index,
        {
            let gate = order[index];
            let spelled = gate.name();
            if spells(named.as_slice(), spelled) {
                return Some(gate);
            }
            index = index + 1;
        }
        proof {
            assert forall|other: Gate| gate_name(other) != name@ by {
                match other {
                    Gate::Format => assert(order@[0] == other),
                    Gate::Lint => assert(order@[1] == other),
                    Gate::Documentation => assert(order@[2] == other),
                    Gate::Test => assert(order@[3] == other),
                    Gate::Claims => assert(order@[4] == other),
                }
            }
        }
        None
    }

    /// The arguments it hands to [`PROGRAM`].
    pub fn arguments(self) -> (words: Vec<&'static str>)
        ensures
            texts_of(words@) == gate_arguments(self),
    {
        let words = match self {
            Gate::Format => vec!["fmt", "--all", "--check"],
            Gate::Lint => vec!["clippy", "--workspace", "--all-targets", "--locked", "--", "-D", "warnings"],
            Gate::Documentation => vec!["doc", "--workspace", "--no-deps", "--document-private-items", "--locked"],
            Gate::Test => vec!["nextest", "run", "--workspace", "--locked"],
            Gate::Claims => vec!["xtask", "claims", "verify"],
        };
        assert(texts_of(words@) =~= gate_arguments(self));
        words
    }

    /// The whole command it runs: the program first, then its
    /// arguments.
    pub fn command(self) -> (words: Vec<&'static str>)
        ensures
            texts_of(words@) == seq![PROGRAM@] + gate_arguments(self),
    {
        let mut words = vec![PROGRAM];
        let rest = self.arguments();
        let mut index: usize = 0;
        while index < rest.len()
            invariant
                index <= rest@.len(),
                texts_of(rest@) == gate_arguments(self),
                texts_of(words@) == seq![PROGRAM@] + texts_of(rest@).subrange(0, index as int),
            decreases rest@.len() - index,
        {
            let ghost before = words@;
            words.push(rest[index]);
            assert(texts_of(words@) =~= texts_of(before).push(rest@[index as int]@));
            assert(texts_of(rest@).subrange(0, index + 1) =~= texts_of(rest@).subrange(0, index as int).push(rest@[index as int]@));
            assert(texts_of(words@) =~= seq![PROGRAM@] + texts_of(rest@).subrange(0, index + 1));
            index = index + 1;
        }
        assert(texts_of(rest@).subrange(0, rest@.len() as int) =~= texts_of(rest@));
        words
    }

    /// The environment variables its command runs with, beyond the
    /// inherited environment: rustdoc warnings are errors for the
    /// documentation gate, and nothing is added to the others.
    pub fn environment(self) -> (pairs: Vec<(&'static str, &'static str)>)
        ensures
            self == Gate::Documentation ==> pairs@.len() == 1 && pairs@[0].0@ == "RUSTDOCFLAGS"@
                && pairs@[0].1@ == "-D warnings"@,
            self != Gate::Documentation ==> pairs@.len() == 0,
    {
        match self {
            Gate::Documentation => vec![("RUSTDOCFLAGS", "-D warnings")],
            _ => Vec::new(),
        }
    }

    /// How long it may run, in seconds, before it is ended and
    /// reported as hung.
    pub fn deadline(self) -> (seconds: u64)
        ensures
            seconds == (match self {
                Gate::Format => FORMAT_DEADLINE,
                Gate::Lint => LINT_DEADLINE,
                Gate::Documentation => DOCUMENTATION_DEADLINE,
                Gate::Test => TEST_DEADLINE,
                Gate::Claims => CLAIMS_DEADLINE,
            }),
    {
        match self {
            Gate::Format => FORMAT_DEADLINE,
            Gate::Lint => LINT_DEADLINE,
            Gate::Documentation => DOCUMENTATION_DEADLINE,
            Gate::Test => TEST_DEADLINE,
            Gate::Claims => CLAIMS_DEADLINE,
        }
    }
}

/// What a command line asks of the gates: every one in order, one by name,
/// or nothing it can act on.
pub enum Asked {
    /// `check`: the doctor, then every gate.
    Check,
    /// `gate <name>`: that gate alone.
    One(Gate),
    /// Anything else.
    Usage,
}

/// What a command line, the subcommand first, asks of the gates.
pub fn asked(arguments: &[String]) -> (asking: Asked)
    ensures
        arguments@.len() == 1 && arguments@[0]@ == "check"@ ==> asking is Check,
        arguments@.len() == 2 && arguments@[0]@ == "gate"@ ==> match asking {
            Asked::One(gate) => gate_name(gate) == arguments@[1]@,
            Asked::Usage => forall|other: Gate| gate_name(other) != arguments@[1]@,
            Asked::Check => false,
        },
        !(arguments@.len() == 1 && arguments@[0]@ == "check"@) && !(arguments@.len() == 2
            && arguments@[0]@ == "gate"@) ==> asking is Usage,
{
    if arguments.len() == 1 && spells(chars_of(arguments[0].as_str()).as_slice(), "check") {
        return Asked::Check;
    }
    if arguments.len() == 2 && spells(chars_of(arguments[0].as_str()).as_slice(), "gate") {
        return match Gate::parse(arguments[1].as_str()) {
            Some(gate) => Asked::One(gate),
            None => Asked::Usage,
        };
    }
    Asked::Usage
}

/// The usage line.
pub open spec fn usage_text() -> Seq<char> {
    "usage: xtask check | xtask gate <format | lint | documentation | test | claims>"@
}

/// The usage line: every gate's name, in order.
pub fn usage_line() -> (said: String)
    ensures
        said@ == "usage: xtask check | xtask gate <"@ + gate_name(Gate::Format) + " | "@ + gate_name(Gate::Lint)
            + " | "@ + gate_name(Gate::Documentation) + " | "@ + gate_name(Gate::Test) + " | "@ + gate_name(
            Gate::Claims,
        ) + ">"@,
{
    let order = gates();
    let mut held: Vec<char> = Vec::new();
    extend_str(&mut held, "usage: xtask check | xtask gate <");
    let mut index: usize = 0;
    while index < order.len()
        invariant
            index <= order@.len(),
            order@ == gate_order(),
            held@ == "usage: xtask check | xtask gate <"@ + gate_names(order@.subrange(0, index as int)),
        decreases order@.len() - index,
    {
        assert(order@.subrange(0, index + 1).drop_last() =~= order@.subrange(0, index as int));
        if index > 0 {
            extend_str(&mut held, " | ");
        } else {
            assert(order@.subrange(0, 1) =~= seq![order@[0]]);
        }
        extend_str(&mut held, order[index].name());
        index = index + 1;
    }
    extend_str(&mut held, ">");
    assert(order@.subrange(0, 5) =~= order@);
    assert(order@.subrange(0, 4).drop_last() =~= order@.subrange(0, 3));
    assert(order@.subrange(0, 3).drop_last() =~= order@.subrange(0, 2));
    assert(order@.subrange(0, 2).drop_last() =~= order@.subrange(0, 1));
    assert(order@.subrange(0, 5).drop_last() =~= order@.subrange(0, 4));
    assert(order@.subrange(0, 1) =~= seq![Gate::Format]);
    assert(gate_names(order@.subrange(0, 1)) == gate_name(Gate::Format));
    assert(gate_names(order@.subrange(0, 2)) == gate_name(Gate::Format) + " | "@ + gate_name(Gate::Lint));
    assert(gate_names(order@.subrange(0, 3)) == gate_names(order@.subrange(0, 2)) + " | "@ + gate_name(Gate::Documentation));
    assert(gate_names(order@.subrange(0, 4)) == gate_names(order@.subrange(0, 3)) + " | "@ + gate_name(Gate::Test));
    assert(gate_names(order@) == gate_names(order@.subrange(0, 4)) + " | "@ + gate_name(Gate::Claims));
    assert(held@ =~= "usage: xtask check | xtask gate <"@ + gate_name(Gate::Format) + " | "@ + gate_name(Gate::Lint)
        + " | "@ + gate_name(Gate::Documentation) + " | "@ + gate_name(Gate::Test) + " | "@ + gate_name(Gate::Claims) + ">"@);
    string_of(held.as_slice())
}

/// The names of some gates, with ` | ` between each two.
pub open spec fn gate_names(order: Seq<Gate>) -> Seq<char>
    decreases order.len(),
{
    if order.len() == 0 {
        Seq::empty()
    } else if order.len() == 1 {
        gate_name(order[0])
    } else {
        gate_names(order.drop_last()) + " | "@ + gate_name(order.last())
    }
}


/// No two gates share a name, so reading a gate's name back gives that gate.
pub proof fn lemma_names_distinct(first: Gate, second: Gate)
    ensures
        gate_name(first) == gate_name(second) ==> first == second,
{
    reveal_strlit("format");
    reveal_strlit("lint");
    reveal_strlit("documentation");
    reveal_strlit("test");
    reveal_strlit("claims");
    if gate_name(first) == gate_name(second) {
        assert(gate_name(first)[0] == gate_name(second)[0]);
    }
}

/// What each gate runs, argument by argument: formatting only checked, never
/// written; clippy over every target with warnings denied, so a warning
/// fails the lint gate; documentation of the workspace alone, private items
/// too; the tests through nextest; and the claims through the xtask. Every
/// gate but formatting and the claims builds against the lockfile as it
/// stands.
pub proof fn lemma_gate_commands()
    ensures
        gate_arguments(Gate::Format) == seq!["fmt"@, "--all"@, "--check"@],
        gate_arguments(Gate::Lint) == seq![
            "clippy"@,
            "--workspace"@,
            "--all-targets"@,
            "--locked"@,
            "--"@,
            "-D"@,
            "warnings"@,
        ],
        gate_arguments(Gate::Lint).subrange(4, 7) == seq!["--"@, "-D"@, "warnings"@],
        gate_arguments(Gate::Documentation) == seq![
            "doc"@,
            "--workspace"@,
            "--no-deps"@,
            "--document-private-items"@,
            "--locked"@,
        ],
        gate_arguments(Gate::Test) == seq!["nextest"@, "run"@, "--workspace"@, "--locked"@],
        gate_arguments(Gate::Claims) == seq!["xtask"@, "claims"@, "verify"@],
        forall|gate: Gate|
            gate != Gate::Format && gate != Gate::Claims ==> #[trigger] gate_arguments(gate).contains("--locked"@)
                && gate_arguments(gate).contains("--workspace"@),
{
    let lint = gate_arguments(Gate::Lint);
    assert(lint.subrange(4, 7) =~= seq!["--"@, "-D"@, "warnings"@]);
    assert(lint[3] == "--locked"@ && lint[1] == "--workspace"@);
    let documentation = gate_arguments(Gate::Documentation);
    assert(documentation[4] == "--locked"@ && documentation[1] == "--workspace"@);
    let test = gate_arguments(Gate::Test);
    assert(test[3] == "--locked"@ && test[2] == "--workspace"@);
}

} // verus!
