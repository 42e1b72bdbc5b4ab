//! The proofs of the selected claims as nextest runs them, and their report
//! read back into a verdict per claim: [`plan`] turns claims into the
//! invocations that prove them, [`command_line`] is one invocation's exact
//! argument list, and [`interpret_report`] reads a `JUnit` report against a
//! set of claims. Running nextest is the caller's.
use vstd::prelude::*;

use crate::claims::registry::{Claim, Proof, RegistryError, registry_message};
use crate::claims::selection::{SelectionError, joined_with, selection_message, sorted_unique, join};
use crate::text::{
    insert_sorted, precedes,
    chars_of, contains, extend, extend_str, find, holds, lemma_find, replace_all, replaced,
    split_all, split_at_first, split_on, split_once, string_of, strictly_sorted, trim_end,
    trimmed_end, views_of, ends_with, finishes_with, spells,
};

verus! {

/// The package that holds every scenario, as a nextest test.
pub const REGRESSION_PACKAGE: &'static str = "iznik-regression";

/// The `package::binary` a scenario's test case carries as its class.
pub const REGRESSION_BINARY: &'static str = "iznik-regression::regression_scenarios";

/// The `JUnit` report nextest writes under the `claims` profile, relative to
/// the repository root.
pub const REPORT_PATH: &'static str = "target/nextest/claims/claims.xml";

/// The nextest profile the proofs run under.
pub const CLAIMS_PROFILE: &'static str = "claims";

/// The program every invocation runs.
pub const PROGRAM: &'static str = "cargo";

/// Nextest's exit code when tests ran and some failed.
pub const NEXTEST_TEST_FAILURE: i32 = 100;

/// The verdict on one claim.
#[derive(Clone, Debug, PartialEq, Eq)]
pub enum Status {
    /// Its proof ran and passed.
    Proven,
    /// Its proof ran and failed.
    Failed {
        /// What failed.
        detail: String,
    },
    /// Its proof did not appear in the report — an unproven claim.
    Missing,
    /// Its proof could not run here and was not attempted.
    Deferred {
        /// Why it was deferred.
        reason: String,
    },
}

/// The verdict on one claim, with what it claims.
#[derive(Clone, Debug)]
pub struct Outcome {
    /// The task that declares it.
    pub task: String,
    /// The claim's id.
    pub id: String,
    /// The claim's statement.
    pub statement: String,
    /// The verdict.
    pub status: Status,
}

/// Every claim's verdict.
#[derive(Clone, Debug)]
pub struct Report {
    /// One outcome per claim considered.
    pub outcomes: Vec<Outcome>,
}

impl Report {
    /// Whether every claim is proven or deferred — the report a gate passes
    /// on.
    pub fn holds(&self) -> (passes: bool)
        ensures
            passes == forall|index: int| 0 <= index < self.outcomes@.len() ==> (#[trigger] self.outcomes@[index].status is Proven
                || self.outcomes@[index].status is Deferred),
    {
        let mut index: usize = 0;
        while index < self.outcomes.len()
            invariant
                index <= self.outcomes@.len(),
                forall|at: int| 0 <= at < index ==> (#[trigger] self.outcomes@[at].status is Proven || self.outcomes@[at].status is Deferred),
            decreases self.outcomes@.len() - index,
        {
            match &self.outcomes[index].status {
                Status::Proven => {},
                Status::Deferred { .. } => {},
                _ => {
                    return false;
                },
            }
            index = index + 1;
        }
        true
    }
}

/// One nextest run: a filterset over the packages the proofs name, under a
/// cargo profile when the proofs ask for one.
#[derive(Clone, Debug)]
pub struct Invocation {
    /// The cargo build profile, when the proofs need a non-default one.
    pub profile: Option<String>,
    /// The `-E` filterset: the proofs' atoms, unioned.
    pub filter: String,
    /// The packages the proofs name, each passed as `--package`.
    pub packages: Vec<String>,
}

/// Why a verification could not be carried out — not why a claim failed,
/// which is a [`Status`], but why the run itself could not reach a verdict.
#[derive(Debug)]
pub enum VerifyError {
    /// The registry could not be loaded.
    Registry(RegistryError),
    /// The selection could not be made.
    Selection(SelectionError),
    /// The binaries could not be staged for the scenarios.
    Staging {
        /// What went wrong.
        detail: String,
    },
    /// Nextest could not be run.
    Nextest {
        /// What went wrong.
        detail: String,
    },
    /// The report could not be read.
    Report {
        /// What went wrong.
        detail: String,
    },
}

/// What a verification error says.
pub open spec fn verify_message(error: VerifyError) -> Seq<char> {
    match error {
        VerifyError::Registry(source) => "the registry: "@ + registry_message(source),
        VerifyError::Selection(source) => "the selection: "@ + selection_message(source),
        VerifyError::Staging { detail } => "staging: "@ + detail@,
        VerifyError::Nextest { detail } => "nextest: "@ + detail@,
        VerifyError::Report { detail } => "the report: "@ + detail@,
    }
}

impl VerifyError {
    /// What went wrong, in words.
    pub fn message(&self) -> (said: String)
        ensures
            said@ == verify_message(*self),
    {
        let mut held: Vec<char> = Vec::new();
        match self {
            VerifyError::Registry(source) => {
                extend_str(&mut held, "the registry: ");
                extend_str(&mut held, source.message().as_str());
            },
            VerifyError::Selection(source) => {
                extend_str(&mut held, "the selection: ");
                extend_str(&mut held, source.message().as_str());
            },
            VerifyError::Staging { detail } => {
                extend_str(&mut held, "staging: ");
                extend_str(&mut held, detail.as_str());
            },
            VerifyError::Nextest { detail } => {
                extend_str(&mut held, "nextest: ");
                extend_str(&mut held, detail.as_str());
            },
            VerifyError::Report { detail } => {
                extend_str(&mut held, "the report: ");
                extend_str(&mut held, detail.as_str());
            },
        }
        string_of(held.as_slice())
    }
}

/// A test proof's `package::binary::test` split into its three parts, the
/// test name keeping any `::` of its own, and a missing part empty.
pub open spec fn test_parts(name: Seq<char>) -> (Seq<char>, Seq<char>, Seq<char>) {
    match split_once(name, "::"@) {
        None => (name, Seq::empty(), Seq::empty()),
        Some((package, rest)) => match split_once(rest, "::"@) {
            None => (package, rest, Seq::empty()),
            Some((binary, test)) => (package, binary, test),
        },
    }
}

/// A test proof's path split into its package, binary and test.
pub fn split_test(name: &str) -> (parts: (String, String, String))
    ensures
        (parts.0@, parts.1@, parts.2@) == test_parts(name@),
{
    let characters = chars_of(name);
    let separator = chars_of("::");
    match split_at_first(characters.as_slice(), separator.as_slice()) {
        None => (name.to_owned(), string_of(Vec::<char>::new().as_slice()), string_of(Vec::<char>::new().as_slice())),
        Some((package, rest)) => match split_at_first(rest.as_slice(), separator.as_slice()) {
            None => (string_of(package.as_slice()), string_of(rest.as_slice()), string_of(Vec::<char>::new().as_slice())),
            Some((binary, test)) => (string_of(package.as_slice()), string_of(binary.as_slice()), string_of(test.as_slice())),
        },
    }
}

/// The filterset atom that runs a claim's proof, and the package it is in.
pub open spec fn atom_of(claim: Claim) -> (Seq<char>, Seq<char>) {
    match claim.proof {
        Proof::Test { name, because } => {
            let (package, binary, test) = test_parts(name@);
            ("package("@ + package + ") & binary("@ + binary + ") & test(="@ + test + ")"@, package)
        },
        Proof::Scenario { name } => ("test(=scenario::"@ + claim.task@ + "::"@ + name@ + ")"@, REGRESSION_PACKAGE@),
        Proof::Display { record, because } => (Seq::empty(), Seq::empty()),
    }
}

/// The filterset atom that runs a claim's proof, and the package it is in.
pub fn proof_atom(claim: &Claim) -> (atom: (String, String))
    requires
        !(claim.proof is Display),
    ensures
        (atom.0@, atom.1@) == atom_of(*claim),
{
    let declared = &claim.proof;
    match declared {
        Proof::Scenario { name } => {
            let mut held: Vec<char> = Vec::new();
            extend_str(&mut held, "test(=scenario::");
            extend_str(&mut held, claim.task.as_str());
            extend_str(&mut held, "::");
            extend_str(&mut held, name.as_str());
            extend_str(&mut held, ")");
            (string_of(held.as_slice()), REGRESSION_PACKAGE.to_owned())
        },
        Proof::Test { name, .. } => {
            let (package, binary, test) = split_test(name.as_str());
            let mut held: Vec<char> = Vec::new();
            extend_str(&mut held, "package(");
            extend_str(&mut held, package.as_str());
            extend_str(&mut held, ") & binary(");
            extend_str(&mut held, binary.as_str());
            extend_str(&mut held, ") & test(=");
            extend_str(&mut held, test.as_str());
            extend_str(&mut held, ")");
            (string_of(held.as_slice()), package)
        },
        Proof::Display { .. } => (string_of(Vec::<char>::new().as_slice()), string_of(Vec::<char>::new().as_slice())),
    }
}

/// The `(classname, name)` a claim's proof appears under in the report.
pub open spec fn case_of(claim: Claim) -> (Seq<char>, Seq<char>) {
    match claim.proof {
        Proof::Scenario { name } => (REGRESSION_BINARY@, "scenario::"@ + claim.task@ + "::"@ + name@),
        Proof::Test { name, because } => {
            let (package, binary, test) = test_parts(name@);
            (package + "::"@ + binary, test)
        },
        Proof::Display { record, because } => (Seq::empty(), Seq::empty()),
    }
}

/// The `(classname, name)` a claim's proof appears under in the report.
pub fn expected_case(claim: &Claim) -> (case: (String, String))
    ensures
        (case.0@, case.1@) == case_of(*claim),
{
    let declared = &claim.proof;
    match declared {
        Proof::Scenario { name } => {
            let mut held: Vec<char> = Vec::new();
            extend_str(&mut held, "scenario::");
            extend_str(&mut held, claim.task.as_str());
            extend_str(&mut held, "::");
            extend_str(&mut held, name.as_str());
            (REGRESSION_BINARY.to_owned(), string_of(held.as_slice()))
        },
        Proof::Test { name, .. } => {
            let (package, binary, test) = split_test(name.as_str());
            let mut held: Vec<char> = Vec::new();
            extend_str(&mut held, package.as_str());
            extend_str(&mut held, "::");
            extend_str(&mut held, binary.as_str());
            (string_of(held.as_slice()), test)
        },
        Proof::Display { .. } => (string_of(Vec::<char>::new().as_slice()), string_of(Vec::<char>::new().as_slice())),
    }
}


/// What a platform is called where a claim names it, beside what the
/// machine calls itself: `darwin` is the platform Rust calls `macos`.
pub open spec fn platform_matches(platform: Seq<char>, running: Seq<char>) -> bool {
    platform == running || (platform == "darwin"@ && running == "macos"@)
}

/// Whether a platform, named as a claims file names it, is the one running,
/// given what the running one calls itself.
pub fn is_this_platform(platform: &str, running: &str) -> (this: bool)
    ensures
        this == platform_matches(platform@, running@),
{
    let named = chars_of(platform);
    let actual = chars_of(running);
    crate::text::same_chars(named.as_slice(), actual.as_slice()) || (spells(named.as_slice(), "darwin")
        && spells(actual.as_slice(), "macos"))
}

/// Why a claim is deferred on a machine: its platform is not this one, or
/// its proof is a display measurement, which the automated gate never runs.
pub open spec fn deferral(claim: Claim, running: Seq<char>) -> Option<Seq<char>> {
    match claim.platform {
        Some(platform) if !platform_matches(platform@, running) => Some(
            "needs platform `"@ + platform@ + "`, but this is `"@ + running + "`"@,
        ),
        _ => match claim.proof {
            Proof::Display { record, because } => Some(because@),
            _ => None,
        },
    }
}

/// Why a claim is deferred on a machine, when it is.
pub fn is_deferred(claim: &Claim, running: &str) -> (reason: Option<String>)
    ensures
        match deferral(*claim, running@) {
            None => reason is None,
            Some(why) => reason matches Some(held) && held@ == why,
        },
{
    match &claim.platform {
        Some(platform) => {
            if !is_this_platform(platform.as_str(), running) {
                let mut held: Vec<char> = Vec::new();
                extend_str(&mut held, "needs platform `");
                extend_str(&mut held, platform.as_str());
                extend_str(&mut held, "`, but this is `");
                extend_str(&mut held, running);
                extend_str(&mut held, "`");
                return Some(string_of(held.as_slice()));
            }
        },
        None => {},
    }
    let declared = &claim.proof;
    match declared {
        Proof::Display { because, .. } => Some(because.clone()),
        _ => None,
    }
}

/// One test case as the `JUnit` report records it.
#[derive(Clone, Debug)]
pub struct TestCase {
    /// The `package::binary` the case belongs to.
    pub classname: String,
    /// The test's name within its binary.
    pub name: String,
    /// Whether it passed.
    pub passed: bool,
}

/// A text with the five XML entities decoded, `&amp;` last so that a
/// decoded ampersand is not decoded again.
pub open spec fn decoded_entities(text: Seq<char>) -> Seq<char> {
    replace_all(
        replace_all(
            replace_all(replace_all(replace_all(text, "&lt;"@, "<"@), "&gt;"@, ">"@), "&quot;"@, "\""@),
            "&apos;"@,
            "'"@,
        ),
        "&amp;"@,
        "&"@,
    )
}

/// A text with the five XML entities decoded.
pub fn decode_entities(text: &[char]) -> (decoded: Vec<char>)
    ensures
        decoded@ == decoded_entities(text@),
{
    proof {
        reveal_strlit("&lt;");
        reveal_strlit("&gt;");
        reveal_strlit("&quot;");
        reveal_strlit("&apos;");
        reveal_strlit("&amp;");
    }
    let step = replaced(text, chars_of("&lt;").as_slice(), chars_of("<").as_slice());
    let step = replaced(step.as_slice(), chars_of("&gt;").as_slice(), chars_of(">").as_slice());
    let step = replaced(step.as_slice(), chars_of("&quot;").as_slice(), chars_of("\"").as_slice());
    let step = replaced(step.as_slice(), chars_of("&apos;").as_slice(), chars_of("'").as_slice());
    replaced(step.as_slice(), chars_of("&amp;").as_slice(), chars_of("&").as_slice())
}

/// The value of a `key="value"` attribute in an element's open tag,
/// decoded; the space before the key keeps `name` from matching inside
/// `classname`.
pub open spec fn attribute_of(tag: Seq<char>, key: Seq<char>) -> Option<Seq<char>> {
    match split_once(tag, " "@ + key + "=\""@) {
        None => None,
        Some((before, after)) => match split_once(after, "\""@) {
            None => None,
            Some((value, rest)) => Some(decoded_entities(value)),
        },
    }
}

/// The value of an attribute in an element's open tag, decoded.
pub fn attribute(tag: &[char], key: &str) -> (value: Option<String>)
    ensures
        match attribute_of(tag@, key@) {
            None => value is None,
            Some(found) => value matches Some(held) && held@ == found,
        },
{
    let mut needle: Vec<char> = Vec::new();
    extend_str(&mut needle, " ");
    extend_str(&mut needle, key);
    extend_str(&mut needle, "=\"");
    match split_at_first(tag, needle.as_slice()) {
        None => None,
        Some((_before, after)) => match split_at_first(after.as_slice(), chars_of("\"").as_slice()) {
            None => None,
            Some((value, _rest)) => Some(string_of(decode_entities(value.as_slice()).as_slice())),
        },
    }
}

/// The case one piece of a report after a `<testcase` records, if it names
/// one: its name and class, and whether it passed — closed at once, or
/// holding no `<failure` or `<error` before its end.
pub open spec fn case_in(chunk: Seq<char>) -> Option<(Seq<char>, Seq<char>, bool)> {
    match split_once(chunk, ">"@) {
        None => None,
        Some((tag, after)) => match (attribute_of(tag, "name"@), attribute_of(tag, "classname"@)) {
            (Some(name), Some(classname)) => {
                let content = split_on(after, "</testcase>"@)[0];
                let passed = ends_with(trim_end(tag), "/"@) || !(contains(content, "<failure"@)
                    || contains(content, "<error"@));
                Some((classname, name, passed))
            },
            _ => None,
        },
    }
}

/// The cases some pieces of a report record, in order.
pub open spec fn cases_in(chunks: Seq<Seq<char>>) -> Seq<(Seq<char>, Seq<char>, bool)>
    decreases chunks.len(),
{
    if chunks.len() == 0 {
        Seq::empty()
    } else {
        match case_in(chunks.last()) {
            Some(case) => cases_in(chunks.drop_last()).push(case),
            None => cases_in(chunks.drop_last()),
        }
    }
}

/// Every test case a `JUnit` report records, in order.
pub open spec fn report_cases(xml: Seq<char>) -> Seq<(Seq<char>, Seq<char>, bool)> {
    cases_in(split_on(xml, "<testcase"@).drop_first())
}

/// The view of a test case.
pub open spec fn case_view(case: TestCase) -> (Seq<char>, Seq<char>, bool) {
    (case.classname@, case.name@, case.passed)
}

/// Every test case in a `JUnit` report: a self-closing `<testcase/>` passed,
/// and one with a `<failure>` or `<error>` in it failed.
pub fn parse_report(xml: &str) -> (cases: Vec<TestCase>)
    ensures
        cases@.map_values(|case: TestCase| case_view(case)) == report_cases(xml@),
{
    proof {
        reveal_strlit("<testcase");
        reveal_strlit(">");
        reveal_strlit("</testcase>");
        reveal_strlit("/");
    }
    let pieces = split_all(chars_of(xml).as_slice(), chars_of("<testcase").as_slice());
    let ghost every = split_on(xml@, "<testcase"@);
    let ghost chunks = every.drop_first();
    let mut cases: Vec<TestCase> = Vec::new();
    let mut index: usize = 1;
    while index < pieces.len()
        invariant
            1 <= index <= pieces@.len() || pieces@.len() == 0,
            pieces@.len() == every.len(),
            chunks == every.drop_first(),
            forall|at: int| 0 <= at < pieces@.len() ==> #[trigger] pieces@[at]@ == every[at],
            cases@.map_values(|case: TestCase| case_view(case)) == cases_in(chunks.subrange(0, index - 1)),
        decreases pieces@.len() - index,
    {
        let ghost before = chunks.subrange(0, index - 1);
        assert(chunks.subrange(0, index as int).drop_last() =~= before);
        assert(chunks.subrange(0, index as int).last() == pieces@[index as int]@);
        let chunk = &pieces[index];
        match split_at_first(chunk.as_slice(), chars_of(">").as_slice()) {
            None => {},
            Some((tag, after)) => {
                match (attribute(tag.as_slice(), "name"), attribute(tag.as_slice(), "classname")) {
                    (Some(name), Some(classname)) => {
                        let closed = finishes_with(trimmed_end(tag.as_slice()).as_slice(), chars_of("/").as_slice());
                        let passed = if closed {
                            true
                        } else {
                            proof {
                                reveal_strlit("</testcase>");
                            }
                            let parts = split_all(after.as_slice(), chars_of("</testcase>").as_slice());
                            assert(parts@.len() > 0);
                            let content = &parts[0];
                            !(holds(content.as_slice(), chars_of("<failure").as_slice()) || holds(
                                content.as_slice(),
                                chars_of("<error").as_slice(),
                            ))
                        };
                        let ghost kept = cases@;
                        cases.push(TestCase { classname, name, passed });
                        assert(cases@.map_values(|case: TestCase| case_view(case)) =~= kept.map_values(|case: TestCase| case_view(case)).push(case_view(cases@.last())));
                    },
                    _ => {},
                }
            },
        }
        index = index + 1;
    }
    proof {
        if pieces@.len() > 0 {
            assert(chunks.subrange(0, chunks.len() as int) =~= chunks);
        } else {
            assert(chunks =~= Seq::<Seq<char>>::empty());
        }
    }
    cases
}


/// The first case recorded under a class and a name.
pub open spec fn first_case(cases: Seq<(Seq<char>, Seq<char>, bool)>, classname: Seq<char>, name: Seq<char>) -> Option<(Seq<char>, Seq<char>, bool)>
    decreases cases.len(),
{
    if cases.len() == 0 {
        None
    } else if cases[0].0 == classname && cases[0].1 == name {
        Some(cases[0])
    } else {
        first_case(cases.drop_first(), classname, name)
    }
}

/// The verdict on one claim given the cases that ran on a machine: deferred
/// when it is deferred there, else proven or failed by the first case that
/// proves it, or missing when none did.
pub enum Verdict {
    /// Proven.
    Proven,
    /// Failed, with what failed.
    Failed(Seq<char>),
    /// Missing.
    Missing,
    /// Deferred, with why.
    Deferred(Seq<char>),
}

/// What a claim's verdict is.
pub open spec fn verdict_of(claim: Claim, cases: Seq<(Seq<char>, Seq<char>, bool)>, running: Seq<char>) -> Verdict {
    match deferral(claim, running) {
        Some(reason) => Verdict::Deferred(reason),
        None => {
            let (classname, name) = case_of(claim);
            match first_case(cases, classname, name) {
                None => Verdict::Missing,
                Some(case) => if case.2 {
                    Verdict::Proven
                } else {
                    Verdict::Failed(case.1 + " failed"@)
                },
            }
        },
    }
}

/// Whether a status says a verdict.
pub open spec fn says(status: Status, verdict: Verdict) -> bool {
    match (status, verdict) {
        (Status::Proven, Verdict::Proven) => true,
        (Status::Missing, Verdict::Missing) => true,
        (Status::Failed { detail }, Verdict::Failed(what)) => detail@ == what,
        (Status::Deferred { reason }, Verdict::Deferred(why)) => reason@ == why,
        _ => false,
    }
}

/// One claim's status.
pub fn status_of(claim: &Claim, cases: &[TestCase], running: &str) -> (status: Status)
    ensures
        says(status, verdict_of(*claim, cases@.map_values(|case: TestCase| case_view(case)), running@)),
{
    match is_deferred(claim, running) {
        Some(reason) => {
            return Status::Deferred { reason };
        },
        None => {},
    }
    let (classname, name) = expected_case(claim);
    let ghost every = cases@.map_values(|case: TestCase| case_view(case));
    let mut index: usize = 0;
    assert(every.subrange(0, every.len() as int) =~= every);
    while index < cases.len()
        invariant
            index <= cases@.len(),
            every == cases@.map_values(|case: TestCase| case_view(case)),
            deferral(*claim, running@) is None,
            (classname@, name@) == case_of(*claim),
            first_case(every, classname@, name@) == first_case(every.subrange(index as int, every.len() as int), classname@, name@),
        decreases cases@.len() - index,
    {
        let ghost rest = every.subrange(index as int, every.len() as int);
        assert(rest.drop_first() =~= every.subrange(index + 1, every.len() as int));
        assert(rest[0] == case_view(cases@[index as int]));
        if cases[index].classname == classname && cases[index].name == name {
            if cases[index].passed {
                return Status::Proven;
            }
            let mut held: Vec<char> = Vec::new();
            extend_str(&mut held, cases[index].name.as_str());
            extend_str(&mut held, " failed");
            return Status::Failed { detail: string_of(held.as_slice()) };
        }
        index = index + 1;
    }
    assert(every.subrange(index as int, every.len() as int) =~= Seq::<(Seq<char>, Seq<char>, bool)>::empty());
    Status::Missing
}

/// Whether an outcome is a claim's, with its verdict.
pub open spec fn outcome_for(outcome: Outcome, claim: Claim, cases: Seq<(Seq<char>, Seq<char>, bool)>, running: Seq<char>) -> bool {
    &&& outcome.task == claim.task
    &&& outcome.id == claim.id
    &&& outcome.statement == claim.statement
    &&& says(outcome.status, verdict_of(claim, cases, running))
}

/// The verdict on each claim, given the test cases that ran.
pub fn interpret(claims: &[Claim], cases: &[TestCase], running: &str) -> (outcomes: Vec<Outcome>)
    ensures
        outcomes@.len() == claims@.len(),
        forall|index: int| 0 <= index < claims@.len() ==> outcome_for(#[trigger] outcomes@[index], claims@[index], cases@.map_values(|case: TestCase| case_view(case)), running@),
{
    let mut outcomes: Vec<Outcome> = Vec::new();
    let mut index: usize = 0;
    while index < claims.len()
        invariant
            index <= claims@.len(),
            outcomes@.len() == index,
            forall|at: int| 0 <= at < index ==> outcome_for(#[trigger] outcomes@[at], claims@[at], cases@.map_values(|case: TestCase| case_view(case)), running@),
        decreases claims@.len() - index,
    {
        let claim = &claims[index];
        outcomes.push(
            Outcome {
                task: claim.task.clone(),
                id: claim.id.clone(),
                statement: claim.statement.clone(),
                status: status_of(claim, cases, running),
            },
        );
        index = index + 1;
    }
    outcomes
}

/// Reads a `JUnit` report against a set of claims and gives their verdicts
/// on a machine that calls itself `running`.
pub fn interpret_report(claims: &[Claim], report: &str, running: &str) -> (outcomes: Vec<Outcome>)
    ensures
        outcomes@.len() == claims@.len(),
        forall|index: int| 0 <= index < claims@.len() ==> outcome_for(#[trigger] outcomes@[index], claims@[index], report_cases(report@), running@),
{
    let cases = parse_report(report);
    interpret(claims, cases.as_slice(), running)
}

/// A `--package` flag before each package.
pub open spec fn package_flags(packages: Seq<Seq<char>>) -> Seq<Seq<char>>
    decreases packages.len(),
{
    if packages.len() == 0 {
        Seq::empty()
    } else {
        package_flags(packages.drop_last()) + seq!["--package"@, packages.last()]
    }
}

/// The argument list of one invocation, after the program name.
pub open spec fn arguments_of(profile: Option<Seq<char>>, filter: Seq<char>, packages: Seq<Seq<char>>) -> Seq<Seq<char>> {
    seq!["nextest"@, "run"@, "--locked"@, "--run-ignored"@, "all"@, "--profile"@, CLAIMS_PROFILE@, "-E"@, filter]
        + (match profile {
        Some(named) => seq!["--cargo-profile"@, named],
        None => Seq::empty(),
    }) + package_flags(packages)
}

/// The argument list of one invocation, after the program name.
pub fn command_line(invocation: &Invocation) -> (arguments: Vec<String>)
    ensures
        views_of(arguments@) == arguments_of(
            match invocation.profile {
                Some(named) => Some(named@),
                None => None,
            },
            invocation.filter@,
            views_of(invocation.packages@),
        ),
{
    let mut arguments: Vec<String> = Vec::new();
    arguments.push("nextest".to_owned());
    arguments.push("run".to_owned());
    arguments.push("--locked".to_owned());
    arguments.push("--run-ignored".to_owned());
    arguments.push("all".to_owned());
    arguments.push("--profile".to_owned());
    arguments.push(CLAIMS_PROFILE.to_owned());
    arguments.push("-E".to_owned());
    arguments.push(invocation.filter.clone());
    let ghost head = views_of(arguments@);
    match &invocation.profile {
        Some(profile) => {
            arguments.push("--cargo-profile".to_owned());
            arguments.push(profile.clone());
        },
        None => {},
    }
    let ghost fixed = views_of(arguments@);
    let ghost packages = views_of(invocation.packages@);
    assert(packages.subrange(0, 0) =~= Seq::<Seq<char>>::empty());
    assert(fixed + package_flags(Seq::<Seq<char>>::empty()) =~= fixed);
    let mut index: usize = 0;
    while index < invocation.packages.len()
        invariant
            index <= invocation.packages@.len(),
            packages == views_of(invocation.packages@),
            views_of(arguments@) == fixed + package_flags(packages.subrange(0, index as int)),
        decreases invocation.packages@.len() - index,
    {
        let ghost before = views_of(arguments@);
        arguments.push("--package".to_owned());
        arguments.push(invocation.packages[index].clone());
        assert(views_of(arguments@) =~= before + seq!["--package"@, packages[index as int]]);
        assert(packages.subrange(0, index + 1).last() == packages[index as int]);
        assert(packages.subrange(0, index + 1).drop_last() =~= packages.subrange(0, index as int));
        assert(views_of(arguments@) =~= fixed + package_flags(packages.subrange(0, index + 1)));
        index = index + 1;
    }
    assert(packages.subrange(0, packages.len() as int) =~= packages);
    assert(views_of(arguments@) =~= arguments_of(
        match invocation.profile {
            Some(named) => Some(named@),
            None => None,
        },
        invocation.filter@,
        packages,
    ));
    arguments
}


/// The cargo profile a claim's proof runs under, as text.
pub open spec fn profile_key(claim: Claim) -> Option<Seq<char>> {
    match claim.profile {
        Some(named) => Some(named@),
        None => None,
    }
}

/// The order invocations come in: the default profile first, then the
/// named ones in the order `str` compares in.
pub open spec fn key_before(first: Option<Seq<char>>, second: Option<Seq<char>>) -> bool {
    match (first, second) {
        (None, Some(named)) => true,
        (Some(left), Some(right)) => precedes(left, right),
        _ => false,
    }
}

/// The atoms of the claims under one profile, in order.
pub open spec fn group_atoms(claims: Seq<Claim>, key: Option<Seq<char>>) -> Seq<Seq<char>>
    decreases claims.len(),
{
    if claims.len() == 0 {
        Seq::empty()
    } else if profile_key(claims.last()) == key {
        group_atoms(claims.drop_last(), key).push(atom_of(claims.last()).0)
    } else {
        group_atoms(claims.drop_last(), key)
    }
}

/// The packages the claims under one profile name, in order.
pub open spec fn group_packages(claims: Seq<Claim>, key: Option<Seq<char>>) -> Seq<Seq<char>>
    decreases claims.len(),
{
    if claims.len() == 0 {
        Seq::empty()
    } else if profile_key(claims.last()) == key {
        group_packages(claims.drop_last(), key).push(atom_of(claims.last()).1)
    } else {
        group_packages(claims.drop_last(), key)
    }
}

/// The profile of an invocation, as text.
pub open spec fn invocation_key(invocation: Invocation) -> Option<Seq<char>> {
    match invocation.profile {
        Some(named) => Some(named@),
        None => None,
    }
}

/// Whether an invocation runs the proofs of the claims under its profile:
/// their atoms unioned in order, and their packages sorted and unique.
pub open spec fn invocation_for(invocation: Invocation, claims: Seq<Claim>) -> bool {
    let key = invocation_key(invocation);
    &&& invocation.filter@ == joined_with(group_atoms(claims, key), " | "@)
    &&& strictly_sorted(views_of(invocation.packages@))
    &&& views_of(invocation.packages@).to_set() == group_packages(claims, key).to_set()
}

/// The invocations of one profile's claims.
fn invocation_of(claims: &[Claim], key: &Option<String>) -> (invocation: Invocation)
    requires
        forall|index: int| 0 <= index < claims@.len() ==> !(#[trigger] claims@[index].proof is Display),
    ensures
        invocation.profile == *key,
        invocation_for(invocation, claims@),
{
    let ghost wanted = match key {
        Some(named) => Some(named@),
        None => None::<Seq<char>>,
    };
    let mut atoms: Vec<String> = Vec::new();
    let mut packages: Vec<String> = Vec::new();
    let mut index: usize = 0;
    while index < claims.len()
        invariant
            index <= claims@.len(),
            forall|at: int| 0 <= at < claims@.len() ==> !(#[trigger] claims@[at].proof is Display),
            views_of(atoms@) == group_atoms(claims@.subrange(0, index as int), wanted),
            views_of(packages@) == group_packages(claims@.subrange(0, index as int), wanted),
            wanted == (match key {
                Some(named) => Some(named@),
                None => None::<Seq<char>>,
            }),
        decreases claims@.len() - index,
    {
        let ghost before = claims@.subrange(0, index as int);
        assert(claims@.subrange(0, index + 1).drop_last() =~= before);
        let claim = &claims[index];
        let same = match (&claim.profile, key) {
            (None, None) => true,
            (Some(mine), Some(theirs)) => *mine == *theirs,
            _ => false,
        };
        assert(same == (profile_key(*claim) == wanted));
        if same {
            let (atom, package) = proof_atom(claim);
            let ghost kept_atoms = atoms@;
            let ghost kept_packages = packages@;
            atoms.push(atom);
            packages.push(package);
            assert(views_of(atoms@) =~= views_of(kept_atoms).push(atom_of(*claim).0));
            assert(views_of(packages@) =~= views_of(kept_packages).push(atom_of(*claim).1));
        }
        index = index + 1;
    }
    assert(claims@.subrange(0, claims@.len() as int) =~= claims@);
    let filter = join(atoms.as_slice(), " | ");
    let key_copy = match key {
        Some(named) => Some(named.clone()),
        None => None,
    };
    Invocation {
        profile: key_copy,
        filter: string_of(filter.as_slice()),
        packages: sorted_unique(packages),
    }
}

/// The nextest invocations that prove a set of runnable claims: one for the
/// default profile and one for each named cargo profile the claims ask for,
/// the default first and the named ones in order.
pub fn plan(claims: &[Claim]) -> (invocations: Vec<Invocation>)
    requires
        forall|index: int| 0 <= index < claims@.len() ==> !(#[trigger] claims@[index].proof is Display),
    ensures
        forall|earlier: int, later: int| 0 <= earlier < later < invocations@.len() ==> key_before(
            invocation_key(#[trigger] invocations@[earlier]),
            invocation_key(#[trigger] invocations@[later]),
        ),
        invocations@.map_values(|invocation: Invocation| invocation_key(invocation)).to_set()
            == claims@.map_values(|claim: Claim| profile_key(claim)).to_set(),
        forall|index: int| 0 <= index < invocations@.len() ==> invocation_for(#[trigger] invocations@[index], claims@),
{
    let ghost keys_of_claims = claims@.map_values(|claim: Claim| profile_key(claim));
    let mut named: Vec<String> = Vec::new();
    let mut plain = false;
    let mut index: usize = 0;
    while index < claims.len()
        invariant
            index <= claims@.len(),
            keys_of_claims == claims@.map_values(|claim: Claim| profile_key(claim)),
            strictly_sorted(views_of(named@)),
            plain == exists|at: int| 0 <= at < index && #[trigger] claims@[at].profile is None,
            forall|text: Seq<char>| views_of(named@).to_set().contains(text) <==> exists|at: int|
                0 <= at < index && #[trigger] profile_key(claims@[at]) == Some(text),
        decreases claims@.len() - index,
    {
        let ghost before = views_of(named@);
        match &claims[index].profile {
            Some(profile) => {
                insert_sorted(&mut named, profile.clone());
                assert forall|text: Seq<char>| views_of(named@).to_set().contains(text) <==> exists|at: int|
                    0 <= at < index + 1 && #[trigger] profile_key(claims@[at]) == Some(text) by {
                    if text == profile@ {
                        assert(profile_key(claims@[index as int]) == Some(text));
                    }
                }
            },
            None => {
                plain = true;
            },
        }
        index = index + 1;
    }
    let mut invocations: Vec<Invocation> = Vec::new();
    if plain {
        invocations.push(invocation_of(claims, &None));
    }
    let mut at: usize = 0;
    while at < named.len()
        invariant
            at <= named@.len(),
            forall|index: int| 0 <= index < claims@.len() ==> !(#[trigger] claims@[index].proof is Display),
            strictly_sorted(views_of(named@)),
            invocations@.len() == at + (if plain { 1int } else { 0int }),
            plain ==> invocation_key(invocations@[0]) is None,
            forall|index: int| (if plain { 1int } else { 0int }) <= index < invocations@.len() ==> invocation_key(#[trigger] invocations@[index])
                == Some(views_of(named@)[index - (if plain { 1int } else { 0int })]),
            forall|index: int| 0 <= index < invocations@.len() ==> invocation_for(#[trigger] invocations@[index], claims@),
        decreases named@.len() - at,
    {
        let key = Some(named[at].clone());
        invocations.push(invocation_of(claims, &key));
        at = at + 1;
    }
    proof {
        let offset = if plain { 1int } else { 0int };
        let ordered = views_of(named@);
        assert forall|earlier: int, later: int| 0 <= earlier < later < invocations@.len() implies key_before(
            invocation_key(#[trigger] invocations@[earlier]),
            invocation_key(#[trigger] invocations@[later]),
        ) by {
            if earlier >= offset {
                assert(precedes(ordered[earlier - offset], ordered[later - offset]));
            }
        }
        let keys = invocations@.map_values(|invocation: Invocation| invocation_key(invocation));
        assert forall|key: Option<Seq<char>>| keys.to_set().contains(key) <==> keys_of_claims.to_set().contains(key) by {
            if keys.to_set().contains(key) {
                let position = choose|position: int| 0 <= position < keys.len() && keys[position] == key;
                if position < offset {
                    let at = choose|at: int| 0 <= at < claims@.len() && #[trigger] claims@[at].profile is None;
                    assert(keys_of_claims[at] == key);
                } else {
                    let text = ordered[position - offset];
                    assert(ordered.to_set().contains(text));
                    let at = choose|at: int| 0 <= at < claims@.len() && #[trigger] profile_key(claims@[at]) == Some(text);
                    assert(keys_of_claims[at] == key);
                }
            }
            if keys_of_claims.to_set().contains(key) {
                let at = choose|at: int| 0 <= at < keys_of_claims.len() && keys_of_claims[at] == key;
                match key {
                    None => {
                        assert(claims@[at].profile is None);
                        assert(keys[0] == key);
                    },
                    Some(text) => {
                        assert(profile_key(claims@[at]) == Some(text));
                        assert(ordered.to_set().contains(text));
                        let position = choose|position: int| 0 <= position < ordered.len() && ordered[position] == text;
                        assert(keys[position + offset] == key);
                    },
                }
            }
        }
        assert(keys.to_set() =~= keys_of_claims.to_set());
    }
    invocations
}


/// The claims of the selected tasks, in registry order.
pub fn selected(claims: &[Claim], tasks: &[String]) -> (chosen: Vec<Claim>)
    ensures
        chosen@ == claims@.filter(|claim: Claim| views_of(tasks@).contains(claim.task@)),
{
    let mut chosen: Vec<Claim> = Vec::new();
    let mut index: usize = 0;
    while index < claims.len()
        invariant
            index <= claims@.len(),
            chosen@ == claims@.subrange(0, index as int).filter(|claim: Claim| views_of(tasks@).contains(claim.task@)),
        decreases claims@.len() - index,
    {
        let ghost before = claims@.subrange(0, index as int);
        proof {
            reveal(Seq::filter);
            assert(claims@.subrange(0, index + 1).drop_last() =~= before);
        }
        let mut wanted = false;
        let mut at: usize = 0;
        while at < tasks.len()
            invariant
                at <= tasks@.len(),
                index < claims@.len(),
                wanted == exists|earlier: int| 0 <= earlier < at && #[trigger] tasks@[earlier]@ == claims@[index as int].task@,
            decreases tasks@.len() - at,
        {
            if tasks[at] == claims[index].task {
                wanted = true;
            }
            at = at + 1;
        }
        proof {
            if wanted {
                let earlier = choose|earlier: int| 0 <= earlier < tasks@.len() && #[trigger] tasks@[earlier]@ == claims@[index as int].task@;
                assert(views_of(tasks@)[earlier] == claims@[index as int].task@);
            } else {
                if views_of(tasks@).contains(claims@[index as int].task@) {
                    let earlier = choose|earlier: int| 0 <= earlier < views_of(tasks@).len() && views_of(tasks@)[earlier] == claims@[index as int].task@;
                    assert(tasks@[earlier]@ == claims@[index as int].task@);
                }
            }
        }
        if wanted {
            chosen.push(claims[index].copied());
        }
        index = index + 1;
    }
    assert(claims@.subrange(0, claims@.len() as int) =~= claims@);
    chosen
}

/// The claims that can run on a machine: those not deferred there.
pub fn runnable(claims: &[Claim], running: &str) -> (able: Vec<Claim>)
    ensures
        able@ == claims@.filter(|claim: Claim| deferral(claim, running@) is None),
        forall|index: int| 0 <= index < able@.len() ==> !(#[trigger] able@[index].proof is Display),
{
    let mut able: Vec<Claim> = Vec::new();
    let mut index: usize = 0;
    while index < claims.len()
        invariant
            index <= claims@.len(),
            able@ == claims@.subrange(0, index as int).filter(|claim: Claim| deferral(claim, running@) is None),
            forall|at: int| 0 <= at < able@.len() ==> !(#[trigger] able@[at].proof is Display),
        decreases claims@.len() - index,
    {
        proof {
            reveal(Seq::filter);
            assert(claims@.subrange(0, index + 1).drop_last() =~= claims@.subrange(0, index as int));
        }
        if is_deferred(&claims[index], running).is_none() {
            able.push(claims[index].copied());
        }
        index = index + 1;
    }
    assert(claims@.subrange(0, claims@.len() as int) =~= claims@);
    able
}

/// Whether any claim's proof is a scenario, which is what needs the
/// binaries staged.
pub fn needs_staging(claims: &[Claim]) -> (needs: bool)
    ensures
        needs == exists|index: int| 0 <= index < claims@.len() && #[trigger] claims@[index].proof is Scenario,
{
    let mut index: usize = 0;
    while index < claims.len()
        invariant
            index <= claims@.len(),
            forall|at: int| 0 <= at < index ==> !(#[trigger] claims@[at].proof is Scenario),
        decreases claims@.len() - index,
    {
        let declared = &claims[index].proof;
        if let Proof::Scenario { .. } = declared {
            return true;
        }
        index = index + 1;
    }
    false
}

/// The report on the claims of the selected tasks: each claim of the
/// registry whose task is among them, in the registry's order, with the
/// outcome its proof's case in the test run gives it here. The test run is
/// the one [`plan`] lays out for the [`runnable`] among those claims, and
/// there is none when none is runnable.
pub fn verify(registry: &crate::claims::registry::Registry, tasks: &[String], cases: &[TestCase], running: &str) -> (report: Report)
    ensures
        ({
            let chosen = registry@.filter(|claim: Claim| views_of(tasks@).contains(claim.task@));
            &&& report.outcomes@.len() == chosen.len()
            &&& forall|index: int| 0 <= index < chosen.len() ==> outcome_for(#[trigger] report.outcomes@[index], chosen[index], cases@.map_values(|case: TestCase| case_view(case)), running@)
        }),
{
    let chosen = selected(registry.claims(), tasks);
    Report { outcomes: interpret(chosen.as_slice(), cases, running) }
}

} // verus!
