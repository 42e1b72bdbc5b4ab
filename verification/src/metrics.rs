//! Resident memory and CPU time of a process, read from what `ps` answers:
//! the one reading behind every memory ceiling and every "costs no CPU"
//! assertion. Running `ps` is the caller's; what its answer means is here.
use vstd::prelude::*;

use crate::text::{
    chars_of, decimal, extend, extend_str, find_char, find_last_char, first_index, last_index,
    parse_unsigned, parsed, slice_of, string_of, trim, trimmed,
};

verus! {

/// The bytes in the kibibyte `ps` reports resident memory in.
pub const KIBIBYTE: u64 = 1024;

/// The seconds in a minute of a clock field.
pub const SECONDS_PER_MINUTE: u64 = 60;

/// The seconds in an hour of a clock field.
pub const SECONDS_PER_HOUR: u64 = 3600;

/// The digits a fraction of a second is padded to: nanoseconds.
pub const FRACTION_DIGITS: usize = 9;

/// The nanoseconds in a second.
pub const NANOSECONDS_PER_SECOND: u32 = 1_000_000_000;

/// What `ps` said when it was asked about a process: whether it exited
/// successfully, and its two streams as text.
#[derive(Clone, Debug)]
pub struct Reply {
    /// Whether it exited with success.
    pub succeeded: bool,
    /// What it printed on standard output.
    pub stdout: String,
    /// What it printed on standard error.
    pub stderr: String,
}

/// Why a metric could not be read.
#[derive(Debug)]
pub enum MetricsError {
    /// `ps` could not be run, or said nothing about the process: an unknown
    /// process id lands here.
    Read {
        /// The process asked about.
        process_id: u32,
        /// What the operating system said, or what `ps` said instead of a
        /// number.
        detail: String,
    },
    /// `ps` answered with something that is not the number asked for.
    Parse {
        /// The process asked about.
        process_id: u32,
        /// What was wrong.
        detail: String,
    },
}

/// The CPU time a process has used: whole seconds and the nanoseconds past
/// them.
#[derive(Clone, Copy, Debug, PartialEq, Eq)]
pub struct CpuTime {
    /// Whole seconds.
    pub seconds: u64,
    /// Nanoseconds past them, below a second's worth.
    pub nanoseconds: u32,
}

/// The sentence a metrics error is reported with.
pub open spec fn error_message(error: MetricsError) -> Seq<char> {
    match error {
        MetricsError::Read { process_id, detail } => "process "@ + decimal(process_id as nat)
            + ": could not be read: "@ + detail@,
        MetricsError::Parse { process_id, detail } => "process "@ + decimal(process_id as nat)
            + ": is not as expected: "@ + detail@,
    }
}

impl MetricsError {
    /// What went wrong, naming the process.
    pub fn message(&self) -> (said: String)
        ensures
            said@ == error_message(*self),
    {
        let mut held: Vec<char> = Vec::new();
        extend_str(&mut held, "process ");
        match self {
            MetricsError::Read { process_id, detail } => {
                let digits = crate::text::decimal_chars(*process_id as u64);
                extend(&mut held, digits.as_slice());
                extend_str(&mut held, ": could not be read: ");
                extend_str(&mut held, detail.as_str());
            },
            MetricsError::Parse { process_id, detail } => {
                let digits = crate::text::decimal_chars(*process_id as u64);
                extend(&mut held, digits.as_slice());
                extend_str(&mut held, ": is not as expected: ");
                extend_str(&mut held, detail.as_str());
            },
        }
        string_of(held.as_slice())
    }
}

/// What a reply answers: the trimmed standard output when `ps` succeeded and
/// said something, else what it said on standard error, or that there is no
/// such process when it said nothing there either.
pub open spec fn answer_of(reply: Reply) -> Result<Seq<char>, Seq<char>> {
    if reply.succeeded && trim(reply.stdout@).len() > 0 {
        Ok(trim(reply.stdout@))
    } else if trim(reply.stderr@).len() == 0 {
        Err("no such process"@)
    } else {
        Err(trim(reply.stderr@))
    }
}

/// What a reply answers about a process, or the read error naming it.
fn answered(process_id: u32, reply: &Reply) -> (answer: Result<Vec<char>, MetricsError>)
    ensures
        match answer_of(*reply) {
            Ok(said) => answer matches Ok(held) && held@ == said,
            Err(detail) => answer matches Err(MetricsError::Read { process_id: named, detail: told })
                && named == process_id && told@ == detail,
        },
{
    let out = chars_of(reply.stdout.as_str());
    let said = trimmed(out.as_slice());
    if reply.succeeded && said.len() > 0 {
        return Ok(said);
    }
    let err = chars_of(reply.stderr.as_str());
    let complaint = trimmed(err.as_slice());
    let detail = if complaint.len() == 0 {
        "no such process".to_owned()
    } else {
        string_of(complaint.as_slice())
    };
    Err(MetricsError::Read { process_id, detail })
}

/// The detail of a reading that is not as expected: the reading quoted, and
/// what it has none of.
pub open spec fn lacking(printed: Seq<char>, what: Seq<char>) -> Seq<char> {
    "`"@ + printed + "` has no "@ + what
}

/// A parse error naming the process, quoting the reading and saying what it
/// lacks.
fn unreadable(process_id: u32, printed: &[char], what: &str) -> (error: MetricsError)
    ensures
        error matches MetricsError::Parse { process_id: named, detail } && named == process_id
            && detail@ == lacking(printed@, what@),
{
    let mut held: Vec<char> = Vec::new();
    extend_str(&mut held, "`");
    extend(&mut held, printed);
    extend_str(&mut held, "` has no ");
    extend_str(&mut held, what);
    MetricsError::Parse { process_id, detail: string_of(held.as_slice()) }
}

/// The resident memory a reply reports, in bytes: the kibibytes it printed,
/// times a kibibyte, saturating.
pub open spec fn resident_of(said: Seq<char>) -> Option<u64> {
    match parsed(said, u64::MAX as nat) {
        Some(kibibytes) => Some(
            if kibibytes * KIBIBYTE > u64::MAX {
                u64::MAX
            } else {
                (kibibytes * KIBIBYTE) as u64
            },
        ),
        None => None,
    }
}

/// The resident memory of a process in bytes, from what `ps -o rss=` said
/// about it.
///
/// [`MetricsError::Read`] for an unknown process, and
/// [`MetricsError::Parse`] for a reading that is not a number.
pub fn resident_memory(process_id: u32, reply: &Reply) -> (memory: Result<u64, MetricsError>)
    ensures
        match answer_of(*reply) {
            Err(detail) => memory matches Err(MetricsError::Read { process_id: named, detail: told })
                && named == process_id && told@ == detail,
            Ok(said) => match resident_of(said) {
                Some(bytes) => memory == Ok::<u64, MetricsError>(bytes),
                None => memory matches Err(MetricsError::Parse { process_id: named, detail })
                    && named == process_id && detail@ == "`"@ + said
                    + "` is not a number of kibibytes"@,
            },
        },
{
    let said = answered(process_id, reply)?;
    match parse_unsigned(said.as_slice(), u64::MAX) {
        Some(kibibytes) => Ok(crate::text::saturating_product(kibibytes, KIBIBYTE)),
        None => {
            let mut held: Vec<char> = Vec::new();
            extend_str(&mut held, "`");
            extend(&mut held, said.as_slice());
            extend_str(&mut held, "` is not a number of kibibytes");
            Err(MetricsError::Parse { process_id, detail: string_of(held.as_slice()) })
        },
    }
}

/// The field after the last `:` of a text, and what stands before that `:`
/// when there is one.
pub open spec fn split_last_colon(text: Seq<char>) -> (Seq<char>, Option<Seq<char>>) {
    let at = last_index(text, ':');
    if at < 0 {
        (text, None)
    } else {
        (text.subrange(at + 1, text.len() as int), Some(text.subrange(0, at)))
    }
}

/// A number a clock field holds, or `None`.
pub open spec fn field_value(field: Seq<char>) -> Option<nat> {
    parsed(trim(field), u64::MAX as nat)
}

/// A sum or product held at the largest `u64`.
pub open spec fn saturated(value: nat) -> nat {
    if value > u64::MAX {
        u64::MAX as nat
    } else {
        value
    }
}

/// The fraction of a second padded on the right with zeros to nine digits.
pub open spec fn padded(fraction: Seq<char>) -> Seq<char> {
    if fraction.len() < FRACTION_DIGITS {
        fraction + Seq::new((FRACTION_DIGITS - fraction.len()) as nat, |index: int| '0')
    } else {
        fraction
    }
}

/// What a clock as `ps` prints one reads as — `HH:MM:SS.ss`, minutes and
/// hours omitted while zero — in whole seconds and nanoseconds; or what it
/// has none of.
pub open spec fn clock_reading(printed: Seq<char>) -> Result<(nat, nat), Seq<char>> {
    let dot = first_index(printed, '.');
    let whole = if dot < 0 {
        printed
    } else {
        printed.subrange(0, dot)
    };
    let fraction = if dot < 0 {
        Seq::<char>::empty()
    } else {
        printed.subrange(dot + 1, printed.len() as int)
    };
    let (last, before) = split_last_colon(whole);
    match field_value(last) {
        None => Err("seconds"@),
        Some(seconds) => {
            let minutes_part = match before {
                None => Ok((0nat, None::<Seq<char>>)),
                Some(rest) => {
                    let (field, earlier) = split_last_colon(rest);
                    match field_value(field) {
                        None => Err("minutes"@),
                        Some(minutes) => Ok((minutes, earlier)),
                    }
                },
            };
            match minutes_part {
                Err(what) => Err(what),
                Ok((minutes, before_minutes)) => {
                    let hours_part = match before_minutes {
                        None => Ok((0nat, None::<Seq<char>>)),
                        Some(rest) => {
                            let (field, earlier) = split_last_colon(rest);
                            match field_value(field) {
                                None => Err("hours"@),
                                Some(hours) => Ok((hours, earlier)),
                            }
                        },
                    };
                    match hours_part {
                        Err(what) => Err(what),
                        Ok((hours, before_hours)) => {
                            if before_hours is Some {
                                Err("clock of hours, minutes and seconds"@)
                            } else {
                                let total = saturated(
                                    saturated(seconds + saturated(minutes * 60)) + saturated(
                                        hours * 3600,
                                    ),
                                );
                                if fraction.len() > FRACTION_DIGITS {
                                    Err("fraction of a second"@)
                                } else {
                                match parsed(padded(fraction), u32::MAX as nat) {
                                    None => Err("fraction of a second"@),
                                    Some(nanoseconds) => {
                                        if total + nanoseconds / 1_000_000_000 > u64::MAX {
                                            Err("duration a clock can hold"@)
                                        } else {
                                            Ok(
                                                (
                                                    total + nanoseconds / 1_000_000_000,
                                                    nanoseconds % 1_000_000_000,
                                                ),
                                            )
                                        }
                                    },
                                }
                                }
                            }
                        },
                    }
                },
            }
        },
    }
}

/// The last `:`-separated field of a text, and what stands before it.
fn split_last_field(text: &[char]) -> (split: (Vec<char>, Option<Vec<char>>))
    ensures
        split.0@ == split_last_colon(text@).0,
        match split_last_colon(text@).1 {
            None => split.1 is None,
            Some(rest) => split.1 matches Some(held) && held@ == rest,
        },
{
    match find_last_char(text, ':') {
        None => (slice_of(text, 0, text.len()), None),
        Some(at) => (slice_of(text, at + 1, text.len()), Some(slice_of(text, 0, at))),
    }
}

/// A clock field's number, trimmed.
fn field_number(field: &[char]) -> (value: Option<u64>)
    ensures
        match value {
            Some(found) => field_value(field@) == Some(found as nat),
            None => field_value(field@) is None,
        },
{
    let held = trimmed(field);
    assert(held@ == trim(field@));
    parse_unsigned(held.as_slice(), u64::MAX)
}

/// A clock as `ps` prints one turned into seconds and nanoseconds.
///
/// [`MetricsError::Parse`] when a field is not a number, there are more
/// fields than hours, minutes and seconds, the fraction is not a number or
/// has more digits than a second has nanoseconds, or the time is longer than
/// a clock can hold.
pub fn clock(process_id: u32, printed: &[char]) -> (time: Result<CpuTime, MetricsError>)
    ensures
        match clock_reading(printed@) {
            Ok((seconds, nanoseconds)) => time matches Ok(held) && held.seconds == seconds
                && held.nanoseconds == nanoseconds,
            Err(what) => time matches Err(MetricsError::Parse { process_id: named, detail })
                && named == process_id && detail@ == lacking(printed@, what),
        },
{
    proof {
        reveal_strlit("seconds");
        reveal_strlit("minutes");
        reveal_strlit("hours");
    }
    let (whole, fraction) = match find_char(printed, '.') {
        None => (slice_of(printed, 0, printed.len()), Vec::new()),
        Some(dot) => (slice_of(printed, 0, dot), slice_of(printed, dot + 1, printed.len())),
    };
    assert(printed@.subrange(0, printed@.len() as int) =~= printed@);
    let (last, before) = split_last_field(whole.as_slice());
    let seconds = match field_number(last.as_slice()) {
        None => return Err(unreadable(process_id, printed, "seconds")),
        Some(value) => value,
    };
    let mut minutes: u64 = 0;
    let mut hours: u64 = 0;
    let mut beyond = false;
    match before {
        None => {},
        Some(rest) => {
            let (field, earlier) = split_last_field(rest.as_slice());
            minutes = match field_number(field.as_slice()) {
                None => return Err(unreadable(process_id, printed, "minutes")),
                Some(value) => value,
            };
            match earlier {
                None => {},
                Some(rest) => {
                    let (field, earlier) = split_last_field(rest.as_slice());
                    hours = match field_number(field.as_slice()) {
                        None => return Err(unreadable(process_id, printed, "hours")),
                        Some(value) => value,
                    };
                    beyond = earlier.is_some();
                },
            }
        },
    }
    if beyond {
        return Err(unreadable(process_id, printed, "clock of hours, minutes and seconds"));
    }
    let total = seconds.saturating_add(crate::text::saturating_product(minutes, SECONDS_PER_MINUTE)).saturating_add(
        crate::text::saturating_product(hours, SECONDS_PER_HOUR),
    );
    if fraction.len() > FRACTION_DIGITS {
        return Err(unreadable(process_id, printed, "fraction of a second"));
    }
    let mut digits = fraction;
    let ghost given = digits@;
    while digits.len() < FRACTION_DIGITS
        invariant
            digits@.len() <= FRACTION_DIGITS || digits@ == given,
            given.len() < FRACTION_DIGITS ==> digits@ == given + Seq::new(
                (digits@.len() - given.len()) as nat,
                |index: int| '0',
            ),
            given.len() >= FRACTION_DIGITS ==> digits@ == given,
            digits@.len() >= given.len(),
        decreases FRACTION_DIGITS - digits@.len(),
    {
        digits.push('0');
        assert(digits@ =~= given + Seq::new(
            (digits@.len() - given.len()) as nat,
            |index: int| '0',
        ));
    }
    assert(digits@ == padded(given));
    let nanoseconds = match parse_unsigned(digits.as_slice(), u32::MAX as u64) {
        None => return Err(unreadable(process_id, printed, "fraction of a second")),
        Some(value) => value as u32,
    };
    let carried = (nanoseconds / NANOSECONDS_PER_SECOND) as u64;
    if total > u64::MAX - carried {
        return Err(unreadable(process_id, printed, "duration a clock can hold"));
    }
    Ok(CpuTime { seconds: total + carried, nanoseconds: nanoseconds % NANOSECONDS_PER_SECOND })
}

/// The CPU time a process has used in user and kernel mode, from what
/// `ps -o time=` said about it.
///
/// [`MetricsError::Read`] for an unknown process, and
/// [`MetricsError::Parse`] for a reading that is not a clock.
pub fn cpu_time(process_id: u32, reply: &Reply) -> (time: Result<CpuTime, MetricsError>)
    ensures
        match answer_of(*reply) {
            Err(detail) => time matches Err(MetricsError::Read { process_id: named, detail: told })
                && named == process_id && told@ == detail,
            Ok(said) => match clock_reading(said) {
                Ok((seconds, nanoseconds)) => time matches Ok(held) && held.seconds == seconds
                    && held.nanoseconds == nanoseconds,
                Err(what) => time matches Err(MetricsError::Parse { process_id: named, detail })
                    && named == process_id && detail@ == lacking(said, what),
            },
        },
{
    let said = answered(process_id, reply)?;
    clock(process_id, said.as_slice())
}

} // verus!
