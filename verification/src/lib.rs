//! The verified core of the iznik tooling: the generators, decoders, readers
//! and judges that the test kit and the task runner are built from, and the
//! routing of the task runner's command line.
use vstd::prelude::*;

pub mod claims;
pub mod distribution;
pub mod doctor;
pub mod gate;
pub mod generate;
pub mod golden;
pub mod header;
pub mod metrics;
pub mod paths;
pub mod policy;
pub mod pty;
pub mod soak;
pub mod text;
pub mod vt;

use crate::claims::selection::{join, joined_with};
use crate::gate::texts_of;
use crate::text::{chars_of, extend, extend_str, spells, string_of, views_of};

verus! {

/// The exit code of a command line the task runner cannot act on: a
/// subcommand it does not know, or a flag it cannot parse.
pub const USAGE_EXIT_CODE: u8 = 2;

/// The flag every subcommand answers with the line that says what it takes.
pub const HELP_FLAG: &'static str = "--help";

/// Whether a command line asks what a command takes rather than asking it
/// to do the work: the flag anywhere in it.
pub fn asked_for_help(arguments: &[String]) -> (asked: bool)
    ensures
        asked == views_of(arguments@).contains(HELP_FLAG@),
{
    let mut index: usize = 0;
    while index < arguments.len()
        invariant
            index <= arguments@.len(),
            forall|at: int| 0 <= at < index ==> #[trigger] arguments@[at]@ != HELP_FLAG@,
        decreases arguments@.len() - index,
    {
        if spells(chars_of(arguments[index].as_str()).as_slice(), HELP_FLAG) {
            assert(views_of(arguments@)[index as int] == HELP_FLAG@);
            return true;
        }
        index = index + 1;
    }
    proof {
        if views_of(arguments@).contains(HELP_FLAG@) {
            let at = choose|at: int| 0 <= at < views_of(arguments@).len() && views_of(arguments@)[at] == HELP_FLAG@;
            assert(arguments@[at]@ == HELP_FLAG@);
        }
    }
    false
}

/// The subcommands the task runner routes, in the order `--help` lists them.
pub open spec fn subcommands() -> Seq<Seq<char>> {
    seq![
        "check"@,
        "gate"@,
        "doctor"@,
        "policy"@,
        "claims"@,
        "regression"@,
        "distribution"@,
        "header"@,
        "soak"@,
    ]
}

/// Where the task runner sends a command line.
#[derive(Clone, Copy, Debug, PartialEq, Eq, Structural)]
pub enum Route {
    /// `check` or `gate`.
    Gates,
    /// `doctor`.
    Doctor,
    /// `policy`.
    Policy,
    /// `claims`.
    Claims,
    /// `regression`.
    Regression,
    /// `distribution`.
    Distribution,
    /// `header`.
    Header,
    /// `soak`.
    Soak,
    /// `--help`: the usage line, and success.
    Help,
    /// Anything else: the usage line, and the usage exit code.
    Usage,
}

/// Where a first argument sends a command line.
pub open spec fn route_of(first: Option<Seq<char>>) -> Route {
    match first {
        None => Route::Usage,
        Some(word) => if word == "check"@ || word == "gate"@ {
            Route::Gates
        } else if word == "doctor"@ {
            Route::Doctor
        } else if word == "policy"@ {
            Route::Policy
        } else if word == "claims"@ {
            Route::Claims
        } else if word == "regression"@ {
            Route::Regression
        } else if word == "distribution"@ {
            Route::Distribution
        } else if word == "header"@ {
            Route::Header
        } else if word == "soak"@ {
            Route::Soak
        } else if word == HELP_FLAG@ {
            Route::Help
        } else {
            Route::Usage
        },
    }
}

/// Where the first argument of a command line sends it; only the first is
/// looked at.
pub fn route(first: Option<&str>) -> (routed: Route)
    ensures
        routed == route_of(match first {
            Some(word) => Some(word@),
            None => None,
        }),
{
    match first {
        None => Route::Usage,
        Some(word) => {
            let held = chars_of(word);
            let text = held.as_slice();
            if spells(text, "check") || spells(text, "gate") {
                Route::Gates
            } else if spells(text, "doctor") {
                Route::Doctor
            } else if spells(text, "policy") {
                Route::Policy
            } else if spells(text, "claims") {
                Route::Claims
            } else if spells(text, "regression") {
                Route::Regression
            } else if spells(text, "distribution") {
                Route::Distribution
            } else if spells(text, "header") {
                Route::Header
            } else if spells(text, "soak") {
                Route::Soak
            } else if spells(text, HELP_FLAG) {
                Route::Help
            } else {
                Route::Usage
            }
        },
    }
}

/// The usage line: the program and every subcommand it knows.
pub fn usage_line() -> (said: String)
    ensures
        said@ == "usage: xtask <"@ + joined_with(subcommands(), " | "@) + "> [arguments]"@,
{
    let words = vec![
        "check".to_owned(),
        "gate".to_owned(),
        "doctor".to_owned(),
        "policy".to_owned(),
        "claims".to_owned(),
        "regression".to_owned(),
        "distribution".to_owned(),
        "header".to_owned(),
        "soak".to_owned(),
    ];
    assert(views_of(words@) =~= subcommands());
    let mut held: Vec<char> = Vec::new();
    extend_str(&mut held, "usage: xtask <");
    extend(&mut held, join(words.as_slice(), " | ").as_slice());
    extend_str(&mut held, "> [arguments]");
    string_of(held.as_slice())
}

/// The repository root: the parent of the task runner's own directory,
/// which the build knows; the directory itself when it has no parent.
pub open spec fn repository_root_of(manifest_directory: Seq<char>) -> Seq<char> {
    match crate::paths::parent_of(manifest_directory) {
        Some(parent) => parent,
        None => manifest_directory,
    }
}

/// The repository root, from the task runner's own directory: its parent,
/// not the current directory, which is wherever the person invoking cargo
/// happens to be.
pub fn repository_root(manifest_directory: &str) -> (root: String)
    ensures
        root@ == repository_root_of(manifest_directory@),
{
    match crate::paths::parent(manifest_directory) {
        Some(parent) => parent,
        None => manifest_directory.to_owned(),
    }
}

} // verus!
