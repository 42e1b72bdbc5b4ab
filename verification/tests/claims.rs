use iznik_kit::claims::registry::{load, Claim, ClaimsFile, Proof, RawClaim, RegistryError, ScenarioClaims};
use iznik_kit::claims::selection::{branch_tasks, select, Selection, SelectionError};
use iznik_kit::claims::verify::{
    command_line, interpret, is_deferred, is_this_platform, parse_report, plan, verify, Status, TestCase,
};
use iznik_kit::claims::{count, render};

const ROOT: &str = "/r";

fn raw(id: &str) -> RawClaim {
    RawClaim {
        id: id.to_owned(),
        statement: format!("{id} holds"),
        scenario: None,
        test: None,
        display: None,
        because: None,
        platform: None,
        profile: None,
    }
}

fn scenario(id: &str, name: &str) -> RawClaim {
    RawClaim { scenario: Some(name.to_owned()), ..raw(id) }
}

fn test(id: &str, name: &str) -> RawClaim {
    RawClaim { test: Some(name.to_owned()), because: Some("a unit test proves it".to_owned()), ..raw(id) }
}

fn file(task: &str, raws: Vec<RawClaim>) -> ClaimsFile {
    ClaimsFile { path: format!("{ROOT}/regression/claims/{task}.toml"), read: Ok(raws) }
}

fn tasks(held: &[&str]) -> Vec<String> {
    held.iter().map(|task| task.to_string()).collect()
}

fn present() -> Vec<String> {
    tasks(&["regression/scenarios/alpha/boot.toml", "docs/notes/soak.md"])
}

fn claim(task: &str, id: &str, proof: Proof, platform: Option<&str>) -> Claim {
    Claim {
        task: task.to_owned(),
        id: id.to_owned(),
        statement: format!("{id} holds"),
        proof,
        platform: platform.map(str::to_owned),
        profile: None,
    }
}

#[test]
fn claims_a_sound_registry_holds_every_claim_in_order() {
    let files = vec![
        file("alpha", vec![scenario("alpha-boots", "boot"), test("alpha-parses", "iznik-kit::text::parses")]),
        file("beta", vec![RawClaim { display: Some("docs/notes/soak.md".to_owned()), because: Some("a person reads it".to_owned()), ..raw("beta-soaks") }]),
    ];
    let scenarios = vec![ScenarioClaims { task: "alpha".to_owned(), path: "boot.toml".to_owned(), claims: tasks(&["alpha-boots"]) }];
    let registry = load(ROOT, &tasks(&["alpha", "beta"]), &files, &present(), &scenarios).expect("sound");
    let ids: Vec<&str> = registry.claims().iter().map(|claim| claim.id.as_str()).collect();
    assert_eq!(ids, vec!["alpha-boots", "alpha-parses", "beta-soaks"]);
    assert_eq!(registry.tasks(), vec!["alpha", "beta"]);
    assert_eq!(registry.claims_of("alpha").len(), 2);
    assert!(matches!(registry.claims()[0].proof, Proof::Scenario { .. }));
}

#[test]
fn claims_an_id_declared_twice_is_refused_naming_both_files() {
    let files = vec![file("alpha", vec![scenario("same", "boot")]), file("beta", vec![scenario("same", "boot")])];
    match load(ROOT, &tasks(&["alpha", "beta"]), &files, &present(), &[]) {
        Err(error @ RegistryError::DuplicateId { .. }) => assert_eq!(
            error.message(),
            "claim `same` is declared in both /r/regression/claims/alpha.toml and /r/regression/claims/beta.toml"
        ),
        other => panic!("expected a duplicate, got {other:?}"),
    }
}

#[test]
fn claims_a_file_named_for_no_task_is_refused() {
    let files = vec![file("gamma", vec![scenario("gamma-boots", "boot")])];
    match load(ROOT, &tasks(&["alpha"]), &files, &present(), &[]) {
        Err(error @ RegistryError::UnknownTask { .. }) => {
            assert_eq!(error.message(), "/r/regression/claims/gamma.toml is named for no task under docs/plans")
        }
        other => panic!("expected an unknown task, got {other:?}"),
    }
}

#[test]
fn claims_every_proof_is_exactly_one_of_three() {
    let neither = vec![file("alpha", vec![raw("bare")])];
    assert!(matches!(load(ROOT, &tasks(&["alpha"]), &neither, &present(), &[]), Err(RegistryError::NeitherProof { .. })));
    let both = vec![file("alpha", vec![RawClaim { test: Some("a::b::c".to_owned()), ..scenario("two", "boot") }])];
    assert!(matches!(load(ROOT, &tasks(&["alpha"]), &both, &present(), &[]), Err(RegistryError::BothProofs { .. })));
    let unexplained = vec![file("alpha", vec![RawClaim { because: None, ..test("why", "a::b::c") }])];
    match load(ROOT, &tasks(&["alpha"]), &unexplained, &present(), &[]) {
        Err(error @ RegistryError::TestWithoutBecause { .. }) => {
            assert_eq!(error.message(), "claim `why` of task `alpha` has a test proof but no `because`")
        }
        other => panic!("expected a test without because, got {other:?}"),
    }
}

#[test]
fn claims_a_scenario_that_is_not_there_is_named_by_its_path() {
    let files = vec![file("alpha", vec![scenario("alpha-gone", "gone")])];
    match load(ROOT, &tasks(&["alpha"]), &files, &present(), &[]) {
        Err(error @ RegistryError::ScenarioFileMissing { .. }) => assert_eq!(
            error.message(),
            "claim `alpha-gone` of task `alpha` names scenario /r/regression/scenarios/alpha/gone.toml, which does not exist"
        ),
        other => panic!("expected a missing scenario, got {other:?}"),
    }
}

#[test]
fn claims_a_display_record_must_be_a_note_that_exists() {
    let files = vec![file("alpha", vec![RawClaim { display: Some("../notes.md".to_owned()), because: Some("read".to_owned()), ..raw("alpha-shows") }])];
    match load(ROOT, &tasks(&["alpha"]), &files, &present(), &[]) {
        Err(error @ RegistryError::DisplayRecord { .. }) => assert_eq!(
            error.message(),
            "claim `alpha-shows` of task `alpha` has an invalid display record: `../notes.md` must be an existing Markdown file under docs/notes with only normal relative path components"
        ),
        other => panic!("expected an invalid record, got {other:?}"),
    }
}

#[test]
fn claims_a_scenario_naming_an_undeclared_claim_is_refused() {
    let files = vec![file("alpha", vec![scenario("alpha-boots", "boot")])];
    let scenarios = vec![ScenarioClaims { task: "alpha".to_owned(), path: "boot.toml".to_owned(), claims: tasks(&["alpha-boots", "alpha-ghost"]) }];
    match load(ROOT, &tasks(&["alpha"]), &files, &present(), &scenarios) {
        Err(error @ RegistryError::ScenarioClaimUndeclared { .. }) => assert_eq!(
            error.message(),
            "scenario boot.toml of task `alpha` names claim `alpha-ghost`, which is declared nowhere"
        ),
        other => panic!("expected an undeclared claim, got {other:?}"),
    }
}

#[test]
fn claims_a_selection_is_sorted_and_unique() {
    let ids = select(&Selection::Tasks(tasks(&["b", "a", "b"])), &[], &Ok(Vec::new())).expect("named");
    assert_eq!(ids, vec!["a", "b"]);
    let every = select(&Selection::Everything, &tasks(&["z", "y"]), &Ok(Vec::new())).expect("every");
    assert_eq!(every, vec!["y", "z"]);
    let refused = select(&Selection::CurrentBranch, &[], &Err(SelectionError::Git { detail: "no repository".to_owned() }));
    assert!(matches!(refused, Err(SelectionError::Git { .. })));
}

#[test]
fn claims_a_branch_that_changes_code_must_change_a_claims_file() {
    let changed = "crates/iznik-kit/src/lib.rs\nREADME.md\n";
    match branch_tasks(changed, true) {
        Err(error @ SelectionError::ProductCodeWithoutClaims { .. }) => {
            assert_eq!(error.message(), "the branch changes code but declares no claims: crates/iznik-kit/src/lib.rs")
        }
        other => panic!("expected a refusal, got {other:?}"),
    }
    assert_eq!(branch_tasks(changed, false).expect("no registry"), Vec::<String>::new());
    let declared = "crates/iznik-kit/src/lib.rs\n regression/claims/alpha.toml \nregression/claims/deep/beta.toml\n";
    assert_eq!(branch_tasks(declared, true).expect("declared"), vec!["alpha"]);
    assert_eq!(branch_tasks("xtask/src/main.rs\ndocs/readme.md\n", false).expect("no registry"), Vec::<String>::new());
}

#[test]
fn claims_a_report_is_read_case_by_case() {
    let xml = r#"<testsuites><testsuite name="s"><testcase name="scenario::alpha::boot" classname="iznik-regression::regression_scenarios" time="1"/>
<testcase name="parses" classname="iznik-kit::text"><failure message="no"/></testcase>
<testcase name="a &amp; b" classname="x::y"></testcase><testcase classname="no-name"/></testsuite></testsuites>"#;
    let cases = parse_report(xml);
    let read: Vec<(String, String, bool)> = cases.iter().map(|case| (case.classname.clone(), case.name.clone(), case.passed)).collect();
    assert_eq!(
        read,
        vec![
            ("iznik-regression::regression_scenarios".to_owned(), "scenario::alpha::boot".to_owned(), true),
            ("iznik-kit::text".to_owned(), "parses".to_owned(), false),
            ("x::y".to_owned(), "a & b".to_owned(), true),
        ]
    );
}

#[test]
fn claims_outcomes_follow_the_cases_and_the_platform() {
    let claims = vec![
        claim("alpha", "boots", Proof::Scenario { name: "boot".to_owned() }, None),
        claim("alpha", "parses", Proof::Test { name: "iznik-kit::text::parses".to_owned(), because: "b".to_owned() }, None),
        claim("alpha", "absent", Proof::Test { name: "iznik-kit::text::absent".to_owned(), because: "b".to_owned() }, None),
        claim("alpha", "mac", Proof::Test { name: "iznik-kit::text::mac".to_owned(), because: "b".to_owned() }, Some("darwin")),
    ];
    let cases = vec![
        TestCase { classname: "iznik-regression::regression_scenarios".to_owned(), name: "scenario::alpha::boot".to_owned(), passed: true },
        TestCase { classname: "iznik-kit::text".to_owned(), name: "parses".to_owned(), passed: false },
    ];
    let statuses: Vec<Status> = interpret(&claims, &cases, "linux").into_iter().map(|outcome| outcome.status).collect();
    assert_eq!(
        statuses,
        vec![
            Status::Proven,
            Status::Failed { detail: "parses failed".to_owned() },
            Status::Missing,
            Status::Deferred { reason: "needs platform `darwin`, but this is `linux`".to_owned() },
        ]
    );
    assert!(is_this_platform("darwin", "macos"));
    assert!(!is_this_platform("macos", "linux"));
    assert_eq!(is_deferred(&claims[3], "macos"), None);
}

#[test]
fn claims_a_report_holds_when_nothing_failed_or_went_missing() {
    let claims = vec![claim("alpha", "boots", Proof::Scenario { name: "boot".to_owned() }, None)];
    let proven = TestCase { classname: "iznik-regression::regression_scenarios".to_owned(), name: "scenario::alpha::boot".to_owned(), passed: true };
    let files = vec![file("alpha", vec![scenario("boots", "boot")])];
    let registry = load(ROOT, &tasks(&["alpha"]), &files, &present(), &[]).expect("sound");
    let report = verify(&registry, &tasks(&["alpha"]), &[proven], "linux");
    assert!(report.holds());
    assert_eq!(count(&report, "proven"), 1);
    let missing = verify(&registry, &tasks(&["alpha"]), &[], "linux");
    assert!(!missing.holds());
    let none = verify(&registry, &tasks(&["beta"]), &[], "linux");
    assert!(none.outcomes.is_empty());
    assert!(render(&report).contains("boots"));
    let _ = claims;
}

#[test]
fn claims_a_plan_groups_atoms_by_profile() {
    let mut release = claim("alpha", "fast", Proof::Test { name: "iznik-kit::bench::fast".to_owned(), because: "b".to_owned() }, None);
    release.profile = Some("release".to_owned());
    let claims = vec![
        claim("alpha", "boots", Proof::Scenario { name: "boot".to_owned() }, None),
        claim("alpha", "parses", Proof::Test { name: "iznik-kit::text::parses".to_owned(), because: "b".to_owned() }, None),
        release,
    ];
    let invocations = plan(&claims);
    assert_eq!(invocations.len(), 2);
    assert_eq!(invocations[0].profile, None);
    assert_eq!(
        invocations[0].filter,
        "test(=scenario::alpha::boot) | package(iznik-kit) & binary(text) & test(=parses)"
    );
    assert_eq!(invocations[0].packages, vec!["iznik-kit", "iznik-regression"]);
    assert_eq!(invocations[1].profile, Some("release".to_owned()));
    assert_eq!(
        command_line(&invocations[1]),
        vec![
            "nextest", "run", "--locked", "--run-ignored", "all", "--profile", "claims", "-E",
            "package(iznik-kit) & binary(bench) & test(=fast)", "--cargo-profile", "release", "--package", "iznik-kit",
        ]
    );
}

#[test]
fn claims_the_trunk_selects_nothing_and_refuses_nothing() {
    assert_eq!(branch_tasks("", true).expect("an empty diff"), Vec::<String>::new());
    assert_eq!(branch_tasks("\n\n", true).expect("blank lines"), Vec::<String>::new());
}

#[test]
fn claims_the_first_refusal_is_the_one_reported() {
    let files = vec![
        file("alpha", vec![test("alpha-one", "iznik-kit::a::one"), raw("alpha-two")]),
        file("gamma", vec![test("gamma-one", "iznik-kit::g::one")]),
    ];
    match load(ROOT, &tasks(&["alpha"]), &files, &present(), &[]) {
        Err(RegistryError::NeitherProof { task, id }) => assert_eq!((task.as_str(), id.as_str()), ("alpha", "alpha-two")),
        other => panic!("expected the first file's refusal, got {other:?}"),
    }
    let later = vec![
        file("alpha", vec![scenario("alpha-lost", "missing")]),
        file("beta", vec![RawClaim { display: Some("docs/notes/absent.md".to_owned()), because: Some("by eye".to_owned()), ..raw("beta-eyes") }]),
    ];
    match load(ROOT, &tasks(&["alpha", "beta"]), &later, &present(), &[]) {
        Err(RegistryError::ScenarioFileMissing { id, .. }) => assert_eq!(id, "alpha-lost"),
        other => panic!("expected the missing scenario first, got {other:?}"),
    }
}
