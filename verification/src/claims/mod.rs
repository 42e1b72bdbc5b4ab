//! The claims registry: what a task claims about runtime behavior, the proof
//! that establishes each claim, which tasks a run covers, and how the proofs'
//! report is read back into a verdict per claim and said.
use vstd::prelude::*;

pub mod registry;
pub mod selection;
pub mod verify;

use crate::claims::selection::Selection;
use crate::claims::verify::{Outcome, Report, Status};
use crate::text::{chars_of, decimal, decimal_chars, extend, extend_str, spells, string_of, views_of};

verus! {

/// A task id: the stem of a claims file, and how a selection names a task.
pub type TaskId = String;

/// The word a status is reported with.
pub open spec fn status_word(status: Status) -> Seq<char> {
    match status {
        Status::Proven => "proven"@,
        Status::Failed { detail } => "failed"@,
        Status::Missing => "missing"@,
        Status::Deferred { reason } => "deferred"@,
    }
}

/// The word a status is reported with.
pub fn word(status: &Status) -> (said: &'static str)
    ensures
        said@ == status_word(*status),
{
    match status {
        Status::Proven => "proven",
        Status::Failed { .. } => "failed",
        Status::Missing => "missing",
        Status::Deferred { .. } => "deferred",
    }
}

/// One claim's line, with a failure's or a deferral's reason indented under
/// it.
pub open spec fn outcome_text(outcome: Outcome) -> Seq<char> {
    let head = status_word(outcome.status) + ": "@ + outcome.id@ + " — "@ + outcome.statement@ + " ("@
        + outcome.task@ + ")"@;
    match outcome.status {
        Status::Failed { detail } => head + "\n    "@ + detail@,
        Status::Deferred { reason } => head + "\n    "@ + reason@,
        _ => head,
    }
}

/// One claim's line, with a failure's or a deferral's reason indented under
/// it.
pub fn render_outcome(outcome: &Outcome) -> (said: String)
    ensures
        said@ == outcome_text(*outcome),
{
    let mut held: Vec<char> = Vec::new();
    extend_str(&mut held, word(&outcome.status));
    extend_str(&mut held, ": ");
    extend_str(&mut held, outcome.id.as_str());
    extend_str(&mut held, " — ");
    extend_str(&mut held, outcome.statement.as_str());
    extend_str(&mut held, " (");
    extend_str(&mut held, outcome.task.as_str());
    extend_str(&mut held, ")");
    match &outcome.status {
        Status::Failed { detail } => {
            extend_str(&mut held, "\n    ");
            extend_str(&mut held, detail.as_str());
        },
        Status::Deferred { reason } => {
            extend_str(&mut held, "\n    ");
            extend_str(&mut held, reason.as_str());
        },
        _ => {},
    }
    string_of(held.as_slice())
}

/// How many outcomes have a status the given word is reported with.
pub open spec fn counted(outcomes: Seq<Outcome>, named: Seq<char>) -> nat
    decreases outcomes.len(),
{
    if outcomes.len() == 0 {
        0
    } else {
        counted(outcomes.drop_last(), named) + if status_word(outcomes.last().status) == named {
            1nat
        } else {
            0nat
        }
    }
}

/// How many outcomes have a status the given word is reported with.
pub fn count(report: &Report, named: &str) -> (many: usize)
    ensures
        many == counted(report.outcomes@, named@),
{
    let mut many: usize = 0;
    let mut index: usize = 0;
    while index < report.outcomes.len()
        invariant
            index <= report.outcomes@.len(),
            many == counted(report.outcomes@.subrange(0, index as int), named@),
            many <= index,
        decreases report.outcomes@.len() - index,
    {
        assert(report.outcomes@.subrange(0, index + 1).drop_last() =~= report.outcomes@.subrange(0, index as int));
        if spells(chars_of(word(&report.outcomes[index].status)).as_slice(), named) {
            many = many + 1;
        }
        index = index + 1;
    }
    assert(report.outcomes@.subrange(0, report.outcomes@.len() as int) =~= report.outcomes@);
    many
}

/// The lines of some outcomes, one after another with line breaks between.
pub open spec fn outcome_lines(outcomes: Seq<Outcome>) -> Seq<char>
    decreases outcomes.len(),
{
    if outcomes.len() == 0 {
        Seq::empty()
    } else if outcomes.len() == 1 {
        outcome_text(outcomes[0])
    } else {
        outcome_lines(outcomes.drop_last()) + "\n"@ + outcome_text(outcomes.last())
    }
}

/// The whole report as text: one line per claim and a summary, or that
/// nothing was selected.
pub open spec fn report_text(outcomes: Seq<Outcome>) -> Seq<char> {
    if outcomes.len() == 0 {
        "claims: no claims selected"@
    } else {
        outcome_lines(outcomes) + "\nclaims: "@ + decimal(counted(outcomes, "proven"@)) + " proven, "@
            + decimal(counted(outcomes, "failed"@)) + " failed, "@ + decimal(counted(outcomes, "missing"@))
            + " missing, "@ + decimal(counted(outcomes, "deferred"@)) + " deferred"@
    }
}

/// The whole report as text.
pub fn render(report: &Report) -> (said: String)
    ensures
        said@ == report_text(report.outcomes@),
{
    if report.outcomes.len() == 0 {
        return "claims: no claims selected".to_owned();
    }
    let mut held: Vec<char> = Vec::new();
    let mut index: usize = 0;
    while index < report.outcomes.len()
        invariant
            index <= report.outcomes@.len(),
            held@ == outcome_lines(report.outcomes@.subrange(0, index as int)),
        decreases report.outcomes@.len() - index,
    {
        assert(report.outcomes@.subrange(0, index + 1).drop_last() =~= report.outcomes@.subrange(0, index as int));
        if index > 0 {
            extend_str(&mut held, "\n");
        } else {
            assert(report.outcomes@.subrange(0, 1) =~= seq![report.outcomes@[0]]);
        }
        extend_str(&mut held, render_outcome(&report.outcomes[index]).as_str());
        index = index + 1;
    }
    assert(report.outcomes@.subrange(0, report.outcomes@.len() as int) =~= report.outcomes@);
    extend_str(&mut held, "\nclaims: ");
    extend(&mut held, decimal_chars(count(report, "proven") as u64).as_slice());
    extend_str(&mut held, " proven, ");
    extend(&mut held, decimal_chars(count(report, "failed") as u64).as_slice());
    extend_str(&mut held, " failed, ");
    extend(&mut held, decimal_chars(count(report, "missing") as u64).as_slice());
    extend_str(&mut held, " missing, ");
    extend(&mut held, decimal_chars(count(report, "deferred") as u64).as_slice());
    extend_str(&mut held, " deferred");
    string_of(held.as_slice())
}

/// Every task id named by a `--task <id>` on a command line, in order: each
/// `--task` takes the argument after it, which is not read as a flag.
pub open spec fn tasks_named(arguments: Seq<Seq<char>>) -> Seq<Seq<char>>
    decreases arguments.len(),
{
    if arguments.len() == 0 {
        Seq::empty()
    } else if arguments[0] == "--task"@ && arguments.len() >= 2 {
        seq![arguments[1]] + tasks_named(arguments.subrange(2, arguments.len() as int))
    } else {
        tasks_named(arguments.drop_first())
    }
}

/// Every task id named by a `--task <id>` on the command line, in order.
pub fn task_arguments(arguments: &[String]) -> (tasks: Vec<String>)
    ensures
        views_of(tasks@) == tasks_named(views_of(arguments@)),
{
    let ghost every = views_of(arguments@);
    let mut tasks: Vec<String> = Vec::new();
    let mut index: usize = 0;
    assert(every.subrange(0, every.len() as int) =~= every);
    while index < arguments.len()
        invariant
            index <= arguments@.len(),
            every == views_of(arguments@),
            tasks_named(every) == views_of(tasks@) + tasks_named(every.subrange(index as int, every.len() as int)),
        decreases arguments@.len() - index,
    {
        let ghost rest = every.subrange(index as int, every.len() as int);
        assert(rest[0] == arguments@[index as int]@);
        if spells(chars_of(arguments[index].as_str()).as_slice(), "--task") && index + 1 < arguments.len() {
            assert(rest[1] == arguments@[index + 1]@);
            assert(rest.subrange(2, rest.len() as int) =~= every.subrange(index + 2, every.len() as int));
            let ghost kept = tasks@;
            tasks.push(arguments[index + 1].clone());
            assert(views_of(tasks@) =~= views_of(kept) + seq![rest[1]]);
            index = index + 2;
        } else {
            assert(rest.drop_first() =~= every.subrange(index + 1, every.len() as int));
            index = index + 1;
        }
    }
    assert(every.subrange(index as int, every.len() as int) =~= Seq::<Seq<char>>::empty());
    assert(views_of(tasks@) + Seq::<Seq<char>>::empty() =~= views_of(tasks@));
    tasks
}

/// The argument that follows the first `--root`, when there is one.
pub open spec fn root_named(arguments: Seq<Seq<char>>) -> Option<Seq<char>>
    decreases arguments.len(),
{
    if arguments.len() == 0 {
        None
    } else if arguments[0] == "--root"@ {
        if arguments.len() >= 2 {
            Some(arguments[1])
        } else {
            None
        }
    } else {
        root_named(arguments.drop_first())
    }
}

/// The value following `--root`, when the command line carries one.
pub fn root_argument(arguments: &[String]) -> (root: Option<String>)
    ensures
        match root_named(views_of(arguments@)) {
            None => root is None,
            Some(named) => root matches Some(held) && held@ == named,
        },
{
    let ghost every = views_of(arguments@);
    let mut index: usize = 0;
    assert(every.subrange(0, every.len() as int) =~= every);
    while index < arguments.len()
        invariant
            index <= arguments@.len(),
            every == views_of(arguments@),
            root_named(every) == root_named(every.subrange(index as int, every.len() as int)),
        decreases arguments@.len() - index,
    {
        let ghost rest = every.subrange(index as int, every.len() as int);
        assert(rest[0] == arguments@[index as int]@);
        if spells(chars_of(arguments[index].as_str()).as_slice(), "--root") {
            if index + 1 < arguments.len() {
                assert(rest[1] == arguments@[index + 1]@);
                return Some(arguments[index + 1].clone());
            }
            return None;
        }
        assert(rest.drop_first() =~= every.subrange(index + 1, every.len() as int));
        index = index + 1;
    }
    None
}

/// The selection `verify` covers: the named tasks, or the current branch
/// when none are named.
pub fn verify_selection(arguments: &[String]) -> (selection: Selection)
    ensures
        tasks_named(views_of(arguments@)).len() == 0 ==> selection is CurrentBranch,
        tasks_named(views_of(arguments@)).len() > 0 ==> (selection matches Selection::Tasks(tasks)
            && views_of(tasks@) == tasks_named(views_of(arguments@))),
{
    let tasks = task_arguments(arguments);
    if tasks.len() == 0 {
        Selection::CurrentBranch
    } else {
        Selection::Tasks(tasks)
    }
}


/// Every outcome is counted under exactly one of the four words a summary
/// gives.
pub proof fn lemma_counts_cover(outcomes: Seq<Outcome>)
    ensures
        counted(outcomes, "proven"@) + counted(outcomes, "failed"@) + counted(outcomes, "missing"@)
            + counted(outcomes, "deferred"@) == outcomes.len(),
    decreases outcomes.len(),
{
    reveal_strlit("proven");
    reveal_strlit("failed");
    reveal_strlit("missing");
    reveal_strlit("deferred");
    assert("proven"@[0] == 'p' && "failed"@[0] == 'f' && "missing"@[0] == 'm' && "deferred"@[0] == 'd');
    assert("proven"@ != "failed"@ && "proven"@ != "missing"@ && "proven"@ != "deferred"@);
    assert("failed"@ != "missing"@ && "failed"@ != "deferred"@ && "missing"@ != "deferred"@);
    if outcomes.len() > 0 {
        lemma_counts_cover(outcomes.drop_last());
    }
}

} // verus!
