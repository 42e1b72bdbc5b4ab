//! The soak: hours of the whole stack against two hosts with faults, with
//! both sides weighed and no byte of the held pane allowed to go missing.
//! What a run decides and reports lives here; standing the fixture up and
//! running commands in it is the caller's.
use vstd::prelude::*;

pub mod commands;
pub mod report;
pub mod steps;

use crate::soak::report::{
    growth, pouring, readable, side_name, Report, Sample,
};
use crate::text::{
    chars_of, decimal, decimal_chars, extend, extend_str, parse_unsigned, parsed, spells, string_of,
    trim, trimmed, starts_with, begins_with,
};

verus! {

/// How much either side may grow, per hour, after the warmup: four
/// mebibytes.
pub const SOAK_GROWTH_CEILING_PER_HOUR: u64 = 4 * 1024 * 1024;

/// How many sides a soak weighs: the held client, the daemon whose pane it
/// holds, and the daemon where sessions are made and unmade.
pub const SIDES: usize = 3;

/// How many bytes three of them stand for, and how many characters carry
/// them: base 64 is four characters to three bytes.
pub const BASE64_BYTES: u64 = 3;

/// The other half of that ratio.
pub const BASE64_CHARACTERS: u64 = 4;

/// What a terminal puts after every line: a carriage return and a line feed.
pub const ENDING: u64 = 2;

/// The base the digits of a number are counted in.
pub const TEN: u64 = 10;

/// How many seconds are in an hour, for turning a growth into a rate.
pub const SECONDS_PER_HOUR: u64 = 3600;

/// And in a minute, for saying a duration the way a report says one.
pub const SECONDS_PER_MINUTE: u64 = 60;

/// The fewest samples after the warmup that a growth is read from.
pub const LEAST_SAMPLES: usize = 2;


/// What this subcommand takes.
pub const USAGE: &'static str = "usage: xtask soak [--duration <minutes>] [--warmup <minutes>]";

/// How many lines a round's flood is.
pub const FLOOD_LINES: u64 = 30_000;

/// What share of a soak's rounds have to finish for it to have been one:
/// half of them.
pub const FINISHED_SHARE: usize = 2;

/// How long a run has to have left after its warmup, in seconds, before it
/// is held to having measured anything: four minutes.
pub const MEASURABLE_SPAN: u64 = 240;

/// Why a soak could not be run, or did not pass.
#[derive(Debug)]
pub enum SoakError {
    /// The fixture would not stand up, or a command in it failed.
    Fixture {
        /// What went wrong, in words.
        detail: String,
    },
    /// This build's artifacts could not be staged for the containers.
    Staging {
        /// What went wrong, in words.
        detail: String,
    },
    /// The command line could not be read.
    Usage {
        /// What was wrong with it.
        detail: String,
    },
    /// A side grew past the ceiling after the warmup.
    Grew {
        /// Which side.
        side: String,
        /// By how much an hour, in bytes.
        rate: u64,
    },
    /// A soak ran but proved nothing.
    Lost {
        /// What was wrong.
        detail: String,
    },
    /// A soak that ran and did not pass, with what it measured while it did.
    Judged {
        /// The run.
        report: Box<Report>,
        /// And what was wrong with it.
        source: Box<SoakError>,
    },
}

/// What a soak error says.
pub open spec fn soak_message(error: SoakError) -> Seq<char>
    decreases error,
{
    match error {
        SoakError::Fixture { detail } => detail@,
        SoakError::Staging { detail } => detail@,
        SoakError::Lost { detail } => detail@,
        SoakError::Usage { detail } => detail@ + "\n"@ + USAGE@,
        SoakError::Grew { side, rate } => "the "@ + side@ + " grew by "@ + decimal(rate as nat)
            + " bytes an hour after the warmup, and "@ + decimal(
            SOAK_GROWTH_CEILING_PER_HOUR as nat,
        ) + " is the most it may"@,
        SoakError::Judged { report, source } => soak_message(*source),
    }
}

impl SoakError {
    /// What went wrong, in words.
    pub fn message(&self) -> (said: String)
        ensures
            said@ == soak_message(*self),
        decreases self,
    {
        match self {
            SoakError::Fixture { detail } => detail.clone(),
            SoakError::Staging { detail } => detail.clone(),
            SoakError::Lost { detail } => detail.clone(),
            SoakError::Usage { detail } => {
                let mut held: Vec<char> = Vec::new();
                extend_str(&mut held, detail.as_str());
                extend_str(&mut held, "\n");
                extend_str(&mut held, USAGE);
                string_of(held.as_slice())
            },
            SoakError::Grew { side, rate } => {
                let mut held: Vec<char> = Vec::new();
                extend_str(&mut held, "the ");
                extend_str(&mut held, side.as_str());
                extend_str(&mut held, " grew by ");
                let shown = decimal_chars(*rate);
                extend(&mut held, shown.as_slice());
                extend_str(&mut held, " bytes an hour after the warmup, and ");
                let shown = decimal_chars(SOAK_GROWTH_CEILING_PER_HOUR);
                extend(&mut held, shown.as_slice());
                extend_str(&mut held, " is the most it may");
                string_of(held.as_slice())
            },
            SoakError::Judged { report, source } => source.message(),
        }
    }
}

/// Why a soak did not pass, as a judgement says it.
pub ghost enum Refusal {
    /// It proved nothing, for this reason.
    Lost { detail: Seq<char> },
    /// A side grew past the ceiling, by this much an hour.
    Grew { side: Seq<char>, rate: u64 },
}

/// A count of rounds doubled, held at the largest `usize`.
pub open spec fn doubled(count: usize) -> int {
    if count * FINISHED_SHARE > usize::MAX {
        usize::MAX as int
    } else {
        count * FINISHED_SHARE
    }
}

/// What the held client is owed: a round's flood for every flood poured,
/// held at the largest `u64`.
pub open spec fn owed(floods: usize) -> int {
    let each = pouring(FLOOD_LINES as nat);
    if each * floods > u64::MAX {
        u64::MAX as int
    } else {
        each * floods
    }
}

/// What one side's series says of a run: nothing wrong; never weighed;
/// nothing measured after the warmup of a run long enough to measure; or
/// grown past the ceiling.
pub open spec fn side_verdict(report: Report, side: int) -> Option<Refusal> {
    let samples = report.series(side);
    let name = side_name(side);
    let measurable = report.duration - report.warmup >= MEASURABLE_SPAN;
    if samples.len() == 0 {
        Some(Refusal::Lost { detail: "the "@ + name + " was never weighed at all"@ })
    } else {
        match growth(samples, report.warmup) {
            None => if measurable {
                Some(
                    Refusal::Lost {
                        detail: "the "@ + name + " has "@ + decimal(samples.len())
                            + " samples and none of them measure anything after the warmup"@,
                    },
                )
            } else {
                None
            },
            Some(rate) => if rate > SOAK_GROWTH_CEILING_PER_HOUR {
                Some(Refusal::Grew { side: name, rate })
            } else {
                None
            },
        }
    }
}

/// The first side, from `side` on, whose series refuses the run.
pub open spec fn sides_verdict(report: Report, side: int) -> Option<Refusal>
    decreases SIDES - side,
{
    if side < 0 || side >= SIDES {
        None
    } else {
        match side_verdict(report, side) {
            Some(refusal) => Some(refusal),
            None => sides_verdict(report, side + 1),
        }
    }
}

/// Whether a soak proved anything, and what it proved: fewer than half the
/// rounds finished or churned, the held client gone, deaf, short of what
/// its pane was made to say or sent other than exactly one screen, and then
/// each side in turn.
pub open spec fn verdict(report: Report, refused: Seq<char>, living: bool) -> Option<Refusal> {
    if doubled(report.drops) < report.rounds {
        Some(
            Refusal::Lost {
                detail: "only "@ + decimal(report.drops as nat) + " of "@ + decimal(
                    report.rounds as nat,
                ) + " rounds finished; the last to fail said: "@ + refused,
            },
        )
    } else if doubled(report.churn) < report.rounds {
        Some(
            Refusal::Lost {
                detail: "only "@ + decimal(report.churn as nat) + " of "@ + decimal(
                    report.rounds as nat,
                ) + " rounds churned a session, so what the second daemon weighs is idle"@,
            },
        )
    } else if !living {
        Some(
            Refusal::Lost {
                detail: "the held client was gone before the end, so what it heard is not the run"@,
            },
        )
    } else if report.heard.deliveries == 0 {
        Some(
            Refusal::Lost {
                detail: "the held client heard nothing, so nothing it heard was whole"@,
            },
        )
    } else if report.heard.bytes < owed(report.floods) {
        Some(
            Refusal::Lost {
                detail: "the held client heard "@ + decimal(report.heard.bytes as nat)
                    + " bytes of the "@ + decimal(owed(report.floods) as nat)
                    + " its pane was made to say"@,
            },
        )
    } else if report.heard.screens != 1 {
        Some(
            Refusal::Lost {
                detail: "the held client was sent "@ + decimal(report.heard.screens as nat)
                    + " screens and exactly one is right: the first is its attachment, and any after it are bytes it was not carried on from"@,
            },
        )
    } else {
        sides_verdict(report, 0)
    }
}

/// A lost run, for a reason in characters.
fn lost(detail: Vec<char>) -> (error: SoakError)
    ensures
        error matches SoakError::Lost { detail: told } && told@ == detail@,
{
    SoakError::Lost { detail: string_of(detail.as_slice()) }
}

/// Whether a soak proved anything, and what it proved.
///
/// [`SoakError::Lost`] when too few rounds finished or churned, when the
/// held client was gone, heard nothing, heard less than it was owed or was
/// sent other than one screen, or when a side was never weighed or measured
/// nothing after the warmup; [`SoakError::Grew`] when a side grew past the
/// ceiling after the warmup.
pub fn judged(report: &Report, refused: &str, living: bool) -> (judgement: Result<(), SoakError>)
    requires
        readable(*report),
    ensures
        match verdict(*report, refused@, living) {
            None => judgement is Ok,
            Some(Refusal::Lost { detail }) => judgement matches Err(SoakError::Lost { detail: told })
                && told@ == detail,
            Some(Refusal::Grew { side, rate }) => judgement matches Err(
                SoakError::Grew { side: named, rate: grew },
            ) && named@ == side && grew == rate,
        },
        report.drops * 2 < report.rounds || report.churn * 2 < report.rounds || !living
            || report.heard.deliveries == 0 || report.heard.screens != 1 ==> judgement matches Err(SoakError::Lost { .. }),
        judgement is Ok ==> report.drops * 2 >= report.rounds && report.churn * 2 >= report.rounds && living
            && report.heard.deliveries > 0 && report.heard.screens == 1,
{
    proof {
        lemma_judged_reasons(*report, refused@, living);
    }
    let drops = report.drops.checked_mul(FINISHED_SHARE).unwrap_or(usize::MAX);
    if drops < report.rounds {
        let mut said: Vec<char> = Vec::new();
        extend_str(&mut said, "only ");
        extend(&mut said, decimal_chars(report.drops as u64).as_slice());
        extend_str(&mut said, " of ");
        extend(&mut said, decimal_chars(report.rounds as u64).as_slice());
        extend_str(&mut said, " rounds finished; the last to fail said: ");
        extend_str(&mut said, refused);
        return Err(lost(said));
    }
    let churn = report.churn.checked_mul(FINISHED_SHARE).unwrap_or(usize::MAX);
    if churn < report.rounds {
        let mut said: Vec<char> = Vec::new();
        extend_str(&mut said, "only ");
        extend(&mut said, decimal_chars(report.churn as u64).as_slice());
        extend_str(&mut said, " of ");
        extend(&mut said, decimal_chars(report.rounds as u64).as_slice());
        extend_str(
            &mut said,
            " rounds churned a session, so what the second daemon weighs is idle",
        );
        return Err(lost(said));
    }
    if !living {
        let mut said: Vec<char> = Vec::new();
        extend_str(
            &mut said,
            "the held client was gone before the end, so what it heard is not the run",
        );
        return Err(lost(said));
    }
    if report.heard.deliveries == 0 {
        let mut said: Vec<char> = Vec::new();
        extend_str(&mut said, "the held client heard nothing, so nothing it heard was whole");
        return Err(lost(said));
    }
    let owing = crate::text::saturating_product(
        crate::soak::report::poured(FLOOD_LINES),
        report.floods as u64,
    );
    if report.heard.bytes < owing {
        let mut said: Vec<char> = Vec::new();
        extend_str(&mut said, "the held client heard ");
        extend(&mut said, decimal_chars(report.heard.bytes).as_slice());
        extend_str(&mut said, " bytes of the ");
        extend(&mut said, decimal_chars(owing).as_slice());
        extend_str(&mut said, " its pane was made to say");
        return Err(lost(said));
    }
    if report.heard.screens != 1 {
        let mut said: Vec<char> = Vec::new();
        extend_str(&mut said, "the held client was sent ");
        extend(&mut said, decimal_chars(report.heard.screens).as_slice());
        extend_str(
            &mut said,
            " screens and exactly one is right: the first is its attachment, and any after it are bytes it was not carried on from",
        );
        return Err(lost(said));
    }
    let sides = report.weighed();
    let measurable = report.duration.saturating_sub(report.warmup) >= MEASURABLE_SPAN;
    let mut index: usize = 0;
    while index < SIDES
        invariant
            index <= SIDES,
            readable(*report),
            forall|side: int|
                0 <= side < SIDES ==> (#[trigger] sides@[side]).0@ == side_name(side)
                    && sides@[side].1@ == report.series(side),
            measurable == (report.duration - report.warmup >= MEASURABLE_SPAN),
            verdict(*report, refused@, living) == sides_verdict(*report, index as int),
        decreases SIDES - index,
    {
        let (name, samples) = sides[index];
        assert(crate::soak::report::summable(report.series(index as int), report.warmup));
        if samples.len() == 0 {
            let mut said: Vec<char> = Vec::new();
            extend_str(&mut said, "the ");
            extend_str(&mut said, name);
            extend_str(&mut said, " was never weighed at all");
            return Err(lost(said));
        }
        match crate::soak::report::grown(samples.as_slice(), report.warmup) {
            None => {
                if measurable {
                    let mut said: Vec<char> = Vec::new();
                    extend_str(&mut said, "the ");
                    extend_str(&mut said, name);
                    extend_str(&mut said, " has ");
                    extend(&mut said, decimal_chars(samples.len() as u64).as_slice());
                    extend_str(
                        &mut said,
                        " samples and none of them measure anything after the warmup",
                    );
                    return Err(lost(said));
                }
            },
            Some(rate) => {
                if rate > SOAK_GROWTH_CEILING_PER_HOUR {
                    let side = name.to_owned();
                    return Err(SoakError::Grew { side, rate });
                }
            },
        }
        index = index + 1;
    }
    Ok(())
}


/// How long a soak runs when nobody says, in seconds: six hours.
pub const SOAK_DURATION: u64 = 21_600;

/// How much of that is not measured, in seconds: ten minutes.
pub const SOAK_WARMUP: u64 = 600;

/// The most minutes either flag takes: a year.
pub const LONGEST_MINUTES: u64 = 525_600;

/// How often both sides are weighed at most, in seconds.
pub const SAMPLE_INTERVAL: u64 = 60;

/// The fewest samples any soak takes, however short it is.
pub const FEWEST_SAMPLES: u64 = 4;

/// What reading the flags of a command line from `at` on makes of a
/// duration and a warmup, in seconds: each flag takes the number of minutes
/// after it, held at a year, and only `--duration` and `--warmup` are
/// flags; or what was wrong.
pub open spec fn flags_read(
    arguments: Seq<Seq<char>>,
    at: int,
    duration: u64,
    warmup: u64,
) -> Result<(u64, u64), Seq<char>>
    decreases arguments.len() - at,
{
    if at < 0 || at >= arguments.len() {
        Ok((duration, warmup))
    } else {
        let named = arguments[at];
        let value = if at + 1 < arguments.len() {
            parsed(arguments[at + 1], u64::MAX as nat)
        } else {
            None
        };
        match value {
            None => Err(named + " takes a number of minutes"@),
            Some(asked) => {
                let minutes = if asked > LONGEST_MINUTES {
                    LONGEST_MINUTES as nat
                } else {
                    asked
                };
                let seconds = (minutes * SECONDS_PER_MINUTE) as u64;
                if named == "--duration"@ {
                    flags_read(arguments, at + 2, seconds, warmup)
                } else if named == "--warmup"@ {
                    flags_read(arguments, at + 2, duration, seconds)
                } else {
                    Err(named + " is not a flag this takes"@)
                }
            },
        }
    }
}

/// The duration and warmup, in seconds, that a command line asks for: the
/// flags after the subcommand read over six hours and ten minutes, and a
/// warmup that leaves nothing of the run refused.
pub open spec fn asking(arguments: Seq<Seq<char>>) -> Result<(u64, u64), Seq<char>> {
    match flags_read(arguments, 1, SOAK_DURATION, SOAK_WARMUP) {
        Err(why) => Err(why),
        Ok((duration, warmup)) => if warmup >= duration {
            Err(
                "a warmup of "@ + decimal((warmup / SECONDS_PER_MINUTE) as nat)
                    + " minutes leaves nothing of a soak of "@ + decimal(
                    (duration / SECONDS_PER_MINUTE) as nat,
                ) + " to measure"@,
            )
        } else {
            Ok((duration, warmup))
        },
    }
}

/// A usage error, for a reason in characters.
fn refused_usage(detail: Vec<char>) -> (error: SoakError)
    ensures
        error matches SoakError::Usage { detail: told } && told@ == detail@,
{
    SoakError::Usage { detail: string_of(detail.as_slice()) }
}

/// The duration and warmup a command line asks for, in seconds.
///
/// [`SoakError::Usage`] for a flag this does not know or a number it cannot
/// read, and for a warmup that leaves nothing of the run.
pub fn asked_for(arguments: &[String]) -> (asked: Result<(u64, u64), SoakError>)
    ensures
        match asking(arguments@.map_values(|held: String| held@)) {
            Ok(pair) => asked == Ok::<(u64, u64), SoakError>(pair),
            Err(why) => asked matches Err(SoakError::Usage { detail }) && detail@ == why,
        },
{
    proof {
        reveal_strlit("--duration");
        reveal_strlit("--warmup");
    }
    let ghost every = arguments@.map_values(|held: String| held@);
    let mut duration: u64 = SOAK_DURATION;
    let mut warmup: u64 = SOAK_WARMUP;
    let mut at: usize = 1;
    while at < arguments.len()
        invariant
            every == arguments@.map_values(|held: String| held@),
            flags_read(every, 1, SOAK_DURATION, SOAK_WARMUP) == flags_read(every, at as int, duration, warmup),
        decreases arguments@.len() - at,
    {
        let named = chars_of(arguments[at].as_str());
        assert(named@ == every[at as int]);
        let value = if at + 1 < arguments.len() {
            let held = chars_of(arguments[at + 1].as_str());
            assert(held@ == every[at + 1]);
            parse_unsigned(held.as_slice(), u64::MAX)
        } else {
            None
        };
        let asked = match value {
            None => {
                let mut said: Vec<char> = Vec::new();
                extend(&mut said, named.as_slice());
                extend_str(&mut said, " takes a number of minutes");
                return Err(refused_usage(said));
            },
            Some(asked) => asked,
        };
        let minutes = if asked > LONGEST_MINUTES {
            LONGEST_MINUTES
        } else {
            asked
        };
        let seconds = minutes * SECONDS_PER_MINUTE;
        if spells(named.as_slice(), "--duration") {
            duration = seconds;
        } else if spells(named.as_slice(), "--warmup") {
            warmup = seconds;
        } else {
            let mut said: Vec<char> = Vec::new();
            extend(&mut said, named.as_slice());
            extend_str(&mut said, " is not a flag this takes");
            return Err(refused_usage(said));
        }
        at = if at + 2 < arguments.len() {
            at + 2
        } else {
            arguments.len()
        };
    }
    assert(flags_read(every, at as int, duration, warmup) == Ok::<(u64, u64), Seq<char>>((duration, warmup)));
    if warmup >= duration {
        let mut said: Vec<char> = Vec::new();
        extend_str(&mut said, "a warmup of ");
        extend(&mut said, decimal_chars(crate::soak::report::minutes(warmup)).as_slice());
        extend_str(&mut said, " minutes leaves nothing of a soak of ");
        extend(&mut said, decimal_chars(crate::soak::report::minutes(duration)).as_slice());
        extend_str(&mut said, " to measure");
        return Err(refused_usage(said));
    }
    Ok((duration, warmup))
}

/// How often a soak of this length, in seconds, weighs both sides: never
/// longer than a minute, and never so long that a run takes fewer than four
/// samples.
pub fn interval_for(duration: u64) -> (interval: u64)
    ensures
        interval == (if duration / FEWEST_SAMPLES < SAMPLE_INTERVAL {
            duration / FEWEST_SAMPLES
        } else {
            SAMPLE_INTERVAL
        }),
{
    let quarter = duration / FEWEST_SAMPLES;
    if quarter < SAMPLE_INTERVAL {
        quarter
    } else {
        SAMPLE_INTERVAL
    }
}


/// What the held client calls the pane as it stands.
pub const SCREEN: &'static str = "screen";

/// How many of the held client's lines are read back at a time.
pub const LINES_AT_ONCE: u64 = 10_000;

/// Where the driver's step description is written in a container.
pub const STEP_INPUT: &'static str = "/tmp/iznik-soak-step.toml";

/// The driver, in every container.
pub const DRIVER: &'static str = "/iznik/bin/iznik-regression";

/// A count a command printed: its number, or none when it printed no
/// number.
pub open spec fn count_of(said: Seq<char>) -> nat {
    match parsed(trim(said), u64::MAX as nat) {
        Some(value) => value,
        None => 0,
    }
}

/// A count a command printed, read as a number and not as anything that is
/// not a zero: a census that answered with a warning or with nothing found
/// nothing.
pub fn counted(said: &str) -> (count: u64)
    ensures
        count == count_of(said@),
{
    let characters = chars_of(said);
    let held = trimmed(characters.as_slice());
    match parse_unsigned(held.as_slice(), u64::MAX) {
        Some(value) => value,
        None => 0,
    }
}

/// Whether the held client is still running, from what its census printed.
pub fn alive(said: &str) -> (living: bool)
    ensures
        living == (count_of(said@) > 0),
{
    counted(said) > 0
}

/// Where the held client stands, from the first line it wrote.
#[derive(Debug)]
pub enum Attendance {
    /// It has attached: its first word is the pane as it stands.
    Attached,
    /// It has said nothing yet.
    Waiting,
    /// It said something else first.
    Refused(SoakError),
}

/// Where the held client stands after writing `said` as its first line:
/// attached when the line begins with the screen, still waiting when there
/// is no line, and refused when the line is anything else.
pub fn attendance(said: &str) -> (stands: Attendance)
    ensures
        starts_with(trim(said@), SCREEN@) ==> stands is Attached,
        !starts_with(trim(said@), SCREEN@) && trim(said@).len() == 0 ==> stands is Waiting,
        !starts_with(trim(said@), SCREEN@) && trim(said@).len() > 0 ==> (stands matches Attendance::Refused(SoakError::Lost { detail })
            && detail@ == "the held client's first word was not the pane as it stands: "@ + trim(said@)),
{
    let characters = chars_of(said);
    let first = trimmed(characters.as_slice());
    let screen = chars_of(SCREEN);
    if begins_with(first.as_slice(), screen.as_slice()) {
        return Attendance::Attached;
    }
    if first.len() == 0 {
        return Attendance::Waiting;
    }
    let mut told: Vec<char> = Vec::new();
    extend_str(&mut told, "the held client's first word was not the pane as it stands: ");
    extend(&mut told, first.as_slice());
    Attendance::Refused(SoakError::Lost { detail: string_of(told.as_slice()) })
}

/// Why a soak stopped waiting for the held client, with what it said about
/// why it never attached.
pub fn never_attached(trouble: &str) -> (error: SoakError)
    ensures
        error matches SoakError::Lost { detail } && detail@
            == "the held client never attached to the pane; it said: "@ + trim(trouble@),
{
    let characters = chars_of(trouble);
    let mut told: Vec<char> = Vec::new();
    extend_str(&mut told, "the held client never attached to the pane; it said: ");
    extend(&mut told, trimmed(characters.as_slice()).as_slice());
    SoakError::Lost { detail: string_of(told.as_slice()) }
}

/// The last line of the window of the held client's lines that starts at
/// `from`: a window's worth later, held at the largest `u64`.
pub fn window_end(from: u64) -> (to: u64)
    ensures
        to == (if from + LINES_AT_ONCE > u64::MAX {
            u64::MAX - 1
        } else {
            from + LINES_AT_ONCE - 1
        }),
{
    from.saturating_add(LINES_AT_ONCE).saturating_sub(1)
}

/// The command that reads the held client's lines from `from` to `to`.
pub fn window_command(from: u64, to: u64) -> (command: String)
    ensures
        command@ == "sed -n '"@ + decimal(from as nat) + ","@ + decimal(to as nat) + "p;"@
            + decimal(to as nat) + "q' "@ + crate::soak::commands::TAIL_OUTPUT@,
{
    let mut held: Vec<char> = Vec::new();
    extend_str(&mut held, "sed -n '");
    extend(&mut held, decimal_chars(from).as_slice());
    extend_str(&mut held, ",");
    extend(&mut held, decimal_chars(to).as_slice());
    extend_str(&mut held, "p;");
    extend(&mut held, decimal_chars(to).as_slice());
    extend_str(&mut held, "q' ");
    extend_str(&mut held, crate::soak::commands::TAIL_OUTPUT);
    string_of(held.as_slice())
}

/// A command of the tool, with this build's servers where it can find them.
pub fn tool(rest: &str) -> (command: String)
    ensures
        command@ == "IZNIK_ARTIFACTS_DIRECTORY="@ + crate::soak::commands::ARTIFACTS@ + " "@
            + crate::soak::commands::TOOL@ + " "@ + rest@,
{
    let mut held: Vec<char> = Vec::new();
    extend_str(&mut held, "IZNIK_ARTIFACTS_DIRECTORY=");
    extend_str(&mut held, crate::soak::commands::ARTIFACTS);
    extend_str(&mut held, " ");
    extend_str(&mut held, crate::soak::commands::TOOL);
    extend_str(&mut held, " ");
    extend_str(&mut held, rest);
    string_of(held.as_slice())
}

/// The command that writes a step where the driver reads it.
pub fn step_writing(step: &str) -> (command: String)
    ensures
        command@ == "cat > "@ + STEP_INPUT@ + " <<'SOAK'\n"@ + step@ + "\nSOAK\n"@,
{
    let mut held: Vec<char> = Vec::new();
    extend_str(&mut held, "cat > ");
    extend_str(&mut held, STEP_INPUT);
    extend_str(&mut held, " <<'SOAK'\n");
    extend_str(&mut held, step);
    extend_str(&mut held, "\nSOAK\n");
    string_of(held.as_slice())
}

/// The command that runs the step written there.
pub fn step_running() -> (command: String)
    ensures
        command@ == "IZNIK_ARTIFACTS_DIRECTORY="@ + crate::soak::commands::ARTIFACTS@ + " "@
            + DRIVER@ + " step < "@ + STEP_INPUT@,
{
    let mut held: Vec<char> = Vec::new();
    extend_str(&mut held, "IZNIK_ARTIFACTS_DIRECTORY=");
    extend_str(&mut held, crate::soak::commands::ARTIFACTS);
    extend_str(&mut held, " ");
    extend_str(&mut held, DRIVER);
    extend_str(&mut held, " step < ");
    extend_str(&mut held, STEP_INPUT);
    string_of(held.as_slice())
}

/// What the driver answered a step with: accepted when it reports an exit
/// of zero, and refused with what it said otherwise.
pub fn step_answered(said: &str) -> (answered: Result<String, SoakError>)
    ensures
        crate::text::contains(said@, "\"exit\":0"@) ==> (answered matches Ok(held) && held@ == said@),
        !crate::text::contains(said@, "\"exit\":0"@) ==> (answered matches Err(SoakError::Lost { detail })
            && detail@ == said@),
{
    let characters = chars_of(said);
    let exited = chars_of("\"exit\":0");
    if crate::text::holds(characters.as_slice(), exited.as_slice()) {
        Ok(said.to_owned())
    } else {
        Err(SoakError::Lost { detail: said.to_owned() })
    }
}

/// A round begun: one more attempted.
pub fn round_begun(report: &mut Report)
    ensures
        final(report).rounds == (if old(report).rounds + 1 > usize::MAX {
            usize::MAX as int
        } else {
            old(report).rounds + 1
        }),
        *final(report) == (Report { rounds: final(report).rounds, ..*old(report) }),
{
    report.rounds = report.rounds.saturating_add(1);
}

/// A round's flood poured: it counts against what the held client is owed,
/// whatever becomes of the rest of the round.
pub fn round_flooded(report: &mut Report)
    ensures
        final(report).floods == (if old(report).floods + 1 > usize::MAX {
            usize::MAX as int
        } else {
            old(report).floods + 1
        }),
        *final(report) == (Report { floods: final(report).floods, ..*old(report) }),
{
    report.floods = report.floods.saturating_add(1);
}

/// A cut seen to have stopped the daemon.
pub fn round_cut(report: &mut Report)
    ensures
        final(report).cuts == (if old(report).cuts + 1 > usize::MAX {
            usize::MAX as int
        } else {
            old(report).cuts + 1
        }),
        *final(report) == (Report { cuts: final(report).cuts, ..*old(report) }),
{
    report.cuts = report.cuts.saturating_add(1);
}

/// A session made and unmade.
pub fn round_churned(report: &mut Report)
    ensures
        final(report).churn == (if old(report).churn + 1 > usize::MAX {
            usize::MAX as int
        } else {
            old(report).churn + 1
        }),
        *final(report) == (Report { churn: final(report).churn, ..*old(report) }),
{
    report.churn = report.churn.saturating_add(1);
}

/// A round ended, finished or not, after `failing` rounds that failed one
/// after another: a finished round counts as a drop made good and ends the
/// run of failures; one that did not finish lengthens it, and the longest
/// such run is kept. Answers with the run of failures now.
pub fn round_ended(report: &mut Report, failing: usize, finished: bool) -> (run: usize)
    ensures
        finished ==> run == 0 && final(report).drops == (if old(report).drops + 1 > usize::MAX {
            usize::MAX as int
        } else {
            old(report).drops + 1
        }) && *final(report) == (Report { drops: final(report).drops, ..*old(report) }),
        !finished ==> run == (if failing + 1 > usize::MAX {
            usize::MAX as int
        } else {
            failing + 1
        }) && final(report).streak == (if run > old(report).streak {
            run
        } else {
            old(report).streak
        }) && *final(report) == (Report { streak: final(report).streak, ..*old(report) }),
{
    if finished {
        report.drops = report.drops.saturating_add(1);
        0
    } else {
        let run = failing.saturating_add(1);
        if run > report.streak {
            report.streak = run;
        }
        run
    }
}

/// When the next weighing is due, if one is due `at` seconds in: none while
/// the clock is short of `due`, and otherwise an interval from now.
pub fn weighing_due(at: u64, due: u64, interval: u64) -> (next: Option<u64>)
    ensures
        at < due ==> next is None,
        at >= due ==> next == Some((if at + interval > u64::MAX {
            u64::MAX as int
        } else {
            at + interval
        }) as u64),
{
    if at < due {
        None
    } else {
        Some(at.saturating_add(interval))
    }
}

/// A weighing kept in its series when it found the side, which a size of
/// zero says it did not. Answers whether it was kept.
pub fn weighing_kept(series: &mut Vec<Sample>, sample: Sample) -> (kept: bool)
    ensures
        kept == (sample.bytes > 0),
        kept ==> final(series)@ == old(series)@.push(sample),
        !kept ==> final(series)@ == old(series)@,
{
    if sample.bytes > 0 {
        series.push(sample);
        true
    } else {
        false
    }
}


/// Whatever flags are read, a duration and a warmup are never longer than a
/// year.
proof fn lemma_flags_bounded(arguments: Seq<Seq<char>>, at: int, duration: u64, warmup: u64)
    requires
        duration <= LONGEST_MINUTES * SECONDS_PER_MINUTE,
        warmup <= LONGEST_MINUTES * SECONDS_PER_MINUTE,
    ensures
        flags_read(arguments, at, duration, warmup) matches Ok((read_duration, read_warmup)) ==> (
        read_duration <= LONGEST_MINUTES * SECONDS_PER_MINUTE && read_warmup <= LONGEST_MINUTES
            * SECONDS_PER_MINUTE),
    decreases arguments.len() - at,
{
    if 0 <= at < arguments.len() && at + 1 < arguments.len() {
        match parsed(arguments[at + 1], u64::MAX as nat) {
            Some(asked) => {
                let minutes = if asked > LONGEST_MINUTES {
                    LONGEST_MINUTES as nat
                } else {
                    asked
                };
                let seconds = (minutes * SECONDS_PER_MINUTE) as u64;
                lemma_flags_bounded(arguments, at + 2, seconds, warmup);
                lemma_flags_bounded(arguments, at + 2, duration, seconds);
            },
            None => {},
        }
    }
}

/// A command line a soak accepts leaves something of the run after the
/// warmup, and asks for no more than a year of either.
pub proof fn lemma_asked_leaves_a_run(arguments: Seq<Seq<char>>)
    ensures
        asking(arguments) matches Ok((duration, warmup)) ==> (warmup < duration && duration
            <= LONGEST_MINUTES * SECONDS_PER_MINUTE),
{
    lemma_flags_bounded(arguments, 1, SOAK_DURATION, SOAK_WARMUP);
}

/// Each side in turn passes when no side from there on refuses, and the side
/// whose growth refuses the run is one of them.
proof fn lemma_sides_verdict(report: Report, side: int)
    requires
        0 <= side <= SIDES,
    ensures
        sides_verdict(report, side) is None ==> forall|later: int|
            side <= later < SIDES ==> #[trigger] side_verdict(report, later) is None,
        sides_verdict(report, side) matches Some(Refusal::Grew { side: named, rate }) ==> exists|later: int|
            side <= later < SIDES && #[trigger] side_verdict(report, later) == Some(Refusal::Grew { side: named, rate }),
    decreases SIDES - side,
{
    if side < SIDES {
        lemma_sides_verdict(report, side + 1);
        if sides_verdict(report, side) is None {
            assert forall|later: int| side <= later < SIDES implies #[trigger] side_verdict(report, later) is None by {
                if later > side {
                    assert(sides_verdict(report, side + 1) is None);
                }
            }
        }
        match sides_verdict(report, side) {
            Some(Refusal::Grew { side: named, rate }) => {
                if side_verdict(report, side) is None {
                    let later = choose|later: int|
                        side + 1 <= later < SIDES && #[trigger] side_verdict(report, later) == Some(Refusal::Grew { side: named, rate });
                    assert(side <= later < SIDES);
                } else {
                    assert(side_verdict(report, side) == Some(Refusal::Grew { side: named, rate }));
                }
            },
            _ => {},
        }
    }
}

/// What a judgement says of a soak, in terms of the report: fewer than half
/// the rounds finished is refused as lost with their count; half finished
/// but fewer than half churned a session is refused as lost with the count
/// of those that churned; a held client gone, deaf, short of what it was
/// owed or sent other than one screen is refused as lost; a run that passes
/// had at least half its rounds finish and churn, a living client that
/// heard what it was owed on exactly one screen, and every side weighed,
/// grown no more than the ceiling after the warmup, and measured after it
/// unless the run was too short to measure; and a run refused for
/// growth names a side that grew past the ceiling by the rate it names.
pub proof fn lemma_judged_reasons(report: Report, refused: Seq<char>, living: bool)
    ensures
        report.drops * 2 < report.rounds ==> verdict(report, refused, living) == Some(
            Refusal::Lost {
                detail: "only "@ + decimal(report.drops as nat) + " of "@ + decimal(report.rounds as nat)
                    + " rounds finished; the last to fail said: "@ + refused,
            },
        ),
        report.drops * 2 >= report.rounds && report.churn * 2 < report.rounds ==> verdict(report, refused, living)
            == Some(
            Refusal::Lost {
                detail: "only "@ + decimal(report.churn as nat) + " of "@ + decimal(report.rounds as nat)
                    + " rounds churned a session, so what the second daemon weighs is idle"@,
            },
        ),
        (report.drops * 2 < report.rounds || report.churn * 2 < report.rounds || !living || report.heard.deliveries == 0
            || report.heard.bytes < owed(report.floods) || report.heard.screens != 1) ==> verdict(
            report,
            refused,
            living,
        ) matches Some(Refusal::Lost { .. }),
        verdict(report, refused, living) is None ==> {
            &&& report.drops * 2 >= report.rounds
            &&& report.churn * 2 >= report.rounds
            &&& living
            &&& report.heard.deliveries > 0
            &&& report.heard.bytes >= owed(report.floods)
            &&& report.heard.screens == 1
            &&& forall|side: int|
                0 <= side < SIDES ==> (#[trigger] report.series(side)).len() > 0 && (growth(report.series(side), report.warmup) matches Some(rate)
                    ==> rate <= SOAK_GROWTH_CEILING_PER_HOUR) && (growth(report.series(side), report.warmup) is None
                    ==> report.duration - report.warmup < MEASURABLE_SPAN)
        },
        verdict(report, refused, living) matches Some(Refusal::Grew { side: named, rate }) ==> exists|side: int|
            0 <= side < SIDES && side_name(side) == named && #[trigger] growth(report.series(side), report.warmup) == Some(rate)
                && rate > SOAK_GROWTH_CEILING_PER_HOUR,
{
    lemma_sides_verdict(report, 0);
    if verdict(report, refused, living) is None {
        assert forall|side: int| 0 <= side < SIDES implies (#[trigger] report.series(side)).len() > 0 && (growth(report.series(side), report.warmup) matches Some(rate)
            ==> rate <= SOAK_GROWTH_CEILING_PER_HOUR) && (growth(report.series(side), report.warmup) is None
            ==> report.duration - report.warmup < MEASURABLE_SPAN) by {
            assert(side_verdict(report, side) is None);
        }
    }
    match verdict(report, refused, living) {
        Some(Refusal::Grew { side: named, rate }) => {
            let side = choose|side: int| 0 <= side < SIDES && #[trigger] side_verdict(report, side) == Some(Refusal::Grew { side: named, rate });
            assert(growth(report.series(side), report.warmup) == Some(rate));
        },
        _ => {},
    }
}

} // verus!
