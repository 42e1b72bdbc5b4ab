//! What a soak measured, and what reading it says: the series both sides
//! were weighed into, what the held client heard, the growth read out of a
//! series, and the report a person is given. Arithmetic over numbers that
//! something else went and got.
use vstd::prelude::*;

use crate::text::{
    chars_of, decimal, decimal_chars, extend, extend_str, lines, lines_of, parse_unsigned, parsed,
    spells, string_of, words, words_of,
};
use crate::soak::{
    BASE64_BYTES, BASE64_CHARACTERS, ENDING, LEAST_SAMPLES, SECONDS_PER_HOUR, SECONDS_PER_MINUTE,
    SIDES, SOAK_GROWTH_CEILING_PER_HOUR, TEN,
};

verus! {

/// One weighing of one side.
#[derive(Clone, Copy, Debug, PartialEq, Eq, Structural)]
pub struct Sample {
    /// How far into the soak it was taken, in whole seconds.
    pub at: u64,
    /// What was weighed, in bytes.
    pub bytes: u64,
}

/// What the held client heard, and whether it heard it whole.
#[derive(Clone, Copy, Debug)]
pub struct Heard {
    /// How many deliveries it took.
    pub deliveries: u64,
    /// How many bytes those were.
    pub bytes: u64,
    /// How many times it was sent the pane as it stands rather than carried
    /// on from where it was. One is the attachment; every one after it is a
    /// reconnection the host could not resume.
    pub screens: u64,
    /// The byte the next delivery has to begin at, once one has been read;
    /// nothing after a screen, which moves where the client is.
    pub expected: Option<u64>,
    /// The byte the client attached at.
    pub attached: Option<u64>,
}

impl Default for Heard {
    /// Nothing heard yet.
    fn default() -> (heard: Heard)
        ensures
            heard.deliveries == 0 && heard.bytes == 0 && heard.screens == 0,
            heard.expected is None && heard.attached is None,
    {
        Heard { deliveries: 0, bytes: 0, screens: 0, expected: None, attached: None }
    }
}

/// What a soak found.
#[derive(Clone, Debug)]
pub struct Report {
    /// What machine it ran on.
    pub machine: String,
    /// How long it ran, in seconds.
    pub duration: u64,
    /// How much of that was not measured, in seconds.
    pub warmup: u64,
    /// How many rounds were attempted.
    pub rounds: usize,
    /// How many floods were poured.
    pub floods: usize,
    /// How many cuts were made and seen to have stopped the daemon.
    pub cuts: usize,
    /// The longest run of rounds that failed one after another.
    pub streak: usize,
    /// How many rounds finished.
    pub drops: usize,
    /// How many sessions were made and unmade.
    pub churn: usize,
    /// What the held client heard across every drop.
    pub heard: Heard,
    /// What the held client weighed.
    pub client: Vec<Sample>,
    /// The daemon on the host it watches.
    pub server: Vec<Sample>,
    /// The daemon on the host where sessions are made and unmade.
    pub churned: Vec<Sample>,
}

/// The names the three series are reported under, in order.
pub open spec fn side_name(side: int) -> Seq<char> {
    if side == 0 {
        "held client"@
    } else if side == 1 {
        "daemon it watches"@
    } else {
        "daemon it churns"@
    }
}

impl Report {
    /// The series of one side, in the order [`Report::weighed`] gives them.
    pub open spec fn series(self, side: int) -> Seq<Sample> {
        if side == 0 {
            self.client@
        } else if side == 1 {
            self.server@
        } else {
            self.churned@
        }
    }

    /// Every series this soak took, with the name it is reported under.
    pub fn weighed(&self) -> (sides: [(&str, &Vec<Sample>); SIDES])
        ensures
            forall|side: int|
                0 <= side < SIDES ==> (#[trigger] sides@[side]).0@ == side_name(side)
                    && sides@[side].1@ == self.series(side),
    {
        proof {
            reveal_strlit("held client");
            reveal_strlit("daemon it watches");
            reveal_strlit("daemon it churns");
        }
        [("held client", &self.client), ("daemon it watches", &self.server), (
            "daemon it churns",
            &self.churned,
        )]
    }
}

/// A duration given in seconds, as the whole minutes a report says.
pub fn minutes(seconds: u64) -> (whole: u64)
    ensures
        whole == seconds / SECONDS_PER_MINUTE,
{
    seconds / SECONDS_PER_MINUTE
}

/// How many bytes some base 64 stands for, from how many characters carry it
/// and how many of those are padding: three bytes for every four characters,
/// less the padding, each step held at the ends of a `u64`.
pub open spec fn decoded_size(characters: u64, padding: u64) -> u64 {
    let carried = if characters * BASE64_BYTES > u64::MAX {
        u64::MAX as int
    } else {
        characters * BASE64_BYTES
    };
    let bytes = carried / (BASE64_CHARACTERS as int);
    if bytes < padding {
        0
    } else {
        (bytes - padding) as u64
    }
}

/// How many bytes some base 64 stands for.
fn decoded_length(characters: u64, padding: u64) -> (bytes: u64)
    ensures
        bytes == decoded_size(characters, padding),
{
    let carried = crate::text::saturating_product(characters, BASE64_BYTES);
    (carried / BASE64_CHARACTERS).saturating_sub(padding)
}


/// A number held at the ends of an `i128`, as saturating arithmetic leaves
/// it.
pub open spec fn clamped(value: int) -> int {
    if value > i128::MAX {
        i128::MAX as int
    } else if value < i128::MIN {
        i128::MIN as int
    } else {
        value
    }
}

/// The sum of one measure over the samples taken at or after the warmup.
pub open spec fn total(samples: Seq<Sample>, warmup: u64, measure: spec_fn(Sample) -> int) -> int
    decreases samples.len(),
{
    if samples.len() == 0 {
        0
    } else {
        total(samples.drop_last(), warmup, measure) + if samples.last().at >= warmup {
            measure(samples.last())
        } else {
            0
        }
    }
}

/// How many samples were taken at or after the warmup.
pub open spec fn measured_count(samples: Seq<Sample>, warmup: u64) -> int {
    total(samples, warmup, |held: Sample| 1int)
}

/// The seconds a sample was taken at.
pub open spec fn seconds_of(held: Sample) -> int {
    held.at as int
}

/// The bytes a sample weighed.
pub open spec fn bytes_of(held: Sample) -> int {
    held.bytes as int
}

/// Seconds times bytes, held at the ends of an `i128`.
pub open spec fn across_of(held: Sample) -> int {
    clamped(held.at * held.bytes)
}

/// Seconds squared, held at the ends of an `i128`.
pub open spec fn along_of(held: Sample) -> int {
    clamped(held.at * held.at)
}

/// Whether the sums a growth is read from fit an `i128`; summing past it
/// overflows.
pub open spec fn summable(samples: Seq<Sample>, warmup: u64) -> bool {
    &&& total(samples, warmup, |held: Sample| seconds_of(held)) <= i128::MAX
    &&& total(samples, warmup, |held: Sample| bytes_of(held)) <= i128::MAX
    &&& total(samples, warmup, |held: Sample| across_of(held)) <= i128::MAX
    &&& total(samples, warmup, |held: Sample| along_of(held)) <= i128::MAX
}

/// How much a series grew an hour after the warmup: the slope of the
/// ordinary least-squares line through the samples at or after the warmup,
/// times an hour, in whole numbers held at the ends of an `i128` at every
/// step. Nothing with fewer than two such samples or no spread in time, and
/// nothing below zero: a line that falls is a process that shrank.
pub open spec fn growth(samples: Seq<Sample>, warmup: u64) -> Option<u64> {
    let many = measured_count(samples, warmup);
    if many < LEAST_SAMPLES {
        None
    } else {
        let timed = total(samples, warmup, |held: Sample| seconds_of(held));
        let what = total(samples, warmup, |held: Sample| bytes_of(held));
        let across = total(samples, warmup, |held: Sample| across_of(held));
        let along = total(samples, warmup, |held: Sample| along_of(held));
        let over = clamped(clamped(many * along) - clamped(timed * timed));
        if over <= 0 {
            None
        } else {
            let rise = clamped(clamped(many * across) - clamped(timed * what));
            let hourly = clamped(rise * SECONDS_PER_HOUR);
            if hourly <= 0 {
                Some(0)
            } else if hourly / over > u64::MAX {
                Some(u64::MAX)
            } else {
                Some((hourly / over) as u64)
            }
        }
    }
}

/// A sum of measures that are never negative is at least any of its
/// prefix sums.
proof fn lemma_total_prefix(
    samples: Seq<Sample>,
    warmup: u64,
    measure: spec_fn(Sample) -> int,
    length: int,
)
    requires
        0 <= length <= samples.len(),
        forall|held: Sample| #[trigger] measure(held) >= 0,
    ensures
        0 <= total(samples.subrange(0, length), warmup, measure) <= total(samples, warmup, measure),
    decreases samples.len() - length,
{
    if length < samples.len() {
        lemma_total_prefix(samples, warmup, measure, length + 1);
        assert(samples.subrange(0, length + 1).drop_last() =~= samples.subrange(0, length));
    } else {
        assert(samples.subrange(0, length) =~= samples);
    }
    lemma_total_nonnegative(samples.subrange(0, length), warmup, measure);
}

/// A sum of measures that are never negative is never negative.
proof fn lemma_total_nonnegative(samples: Seq<Sample>, warmup: u64, measure: spec_fn(Sample) -> int)
    requires
        forall|held: Sample| #[trigger] measure(held) >= 0,
    ensures
        total(samples, warmup, measure) >= 0,
    decreases samples.len(),
{
    if samples.len() > 0 {
        lemma_total_nonnegative(samples.drop_last(), warmup, measure);
    }
}

/// A product held at the ends of an `i128`.
fn saturating_times(left: i128, right: i128) -> (product: i128)
    ensures
        product == clamped(left * right),
{
    match left.checked_mul(right) {
        Some(value) => value,
        None => {
            if (left < 0) == (right < 0) {
                assert(left * right >= 0) by (nonlinear_arith)
                    requires
                        (left < 0) == (right < 0),
                ;
                i128::MAX
            } else {
                assert(left * right <= 0) by (nonlinear_arith)
                    requires
                        (left < 0) != (right < 0),
                ;
                i128::MIN
            }
        },
    }
}

/// A difference held at the ends of an `i128`.
fn saturating_less(left: i128, right: i128) -> (difference: i128)
    ensures
        difference == clamped(left - right),
{
    match left.checked_sub(right) {
        Some(value) => value,
        None => if right < 0 {
            i128::MAX
        } else {
            i128::MIN
        },
    }
}

/// How much a series grew an hour after the warmup, when it grew at all.
///
/// The slope of the line that fits the samples at or after the warmup best,
/// taken over every one of them, in whole numbers throughout; nothing for
/// fewer than two such samples, and nothing below zero.
pub fn grown(samples: &[Sample], warmup: u64) -> (rate: Option<u64>)
    requires
        summable(samples@, warmup),
    ensures
        rate == growth(samples@, warmup),
{
    let ghost seconds = |held: Sample| seconds_of(held);
    let ghost bytes = |held: Sample| bytes_of(held);
    let ghost across = |held: Sample| across_of(held);
    let ghost along = |held: Sample| along_of(held);
    let ghost counted = |held: Sample| 1int;
    let mut many: usize = 0;
    let mut timed: i128 = 0;
    let mut what: i128 = 0;
    let mut across_sum: i128 = 0;
    let mut along_sum: i128 = 0;
    let mut index: usize = 0;
    while index < samples.len()
        invariant
            index <= samples@.len(),
            summable(samples@, warmup),
            many == total(samples@.subrange(0, index as int), warmup, counted),
            many <= index,
            timed == total(samples@.subrange(0, index as int), warmup, seconds),
            what == total(samples@.subrange(0, index as int), warmup, bytes),
            across_sum == total(samples@.subrange(0, index as int), warmup, across),
            along_sum == total(samples@.subrange(0, index as int), warmup, along),
            seconds == (|held: Sample| seconds_of(held)),
            bytes == (|held: Sample| bytes_of(held)),
            across == (|held: Sample| across_of(held)),
            along == (|held: Sample| along_of(held)),
            counted == (|held: Sample| 1int),
        decreases samples@.len() - index,
    {
        let held = samples[index];
        let ghost before = samples@.subrange(0, index as int);
        let ghost after = samples@.subrange(0, index + 1);
        assert(after.drop_last() =~= before);
        proof {
            lemma_total_prefix(samples@, warmup, seconds, index + 1);
            lemma_total_prefix(samples@, warmup, bytes, index + 1);
            lemma_total_prefix(samples@, warmup, across, index + 1);
            lemma_total_prefix(samples@, warmup, along, index + 1);
            lemma_total_nonnegative(before, warmup, counted);
        }
        if held.at >= warmup {
            let at = held.at as i128;
            let weight = held.bytes as i128;
            many = many + 1;
            timed = timed + at;
            what = what + weight;
            across_sum = across_sum + saturating_times(at, weight);
            along_sum = along_sum + saturating_times(at, at);
        }
        index = index + 1;
    }
    assert(samples@.subrange(0, samples@.len() as int) =~= samples@);
    if many < LEAST_SAMPLES {
        return None;
    }
    let count = many as i128;
    let over = saturating_less(saturating_times(count, along_sum), saturating_times(timed, timed));
    if over <= 0 {
        return None;
    }
    let rise = saturating_less(saturating_times(count, across_sum), saturating_times(timed, what));
    let hourly = saturating_times(rise, SECONDS_PER_HOUR as i128);
    if hourly <= 0 {
        return Some(0);
    }
    let quotient = hourly / over;
    if quotient > u64::MAX as i128 {
        Some(u64::MAX)
    } else {
        Some(quotient as u64)
    }
}


/// How many numbers have one digit: one to nine, which is where counting the
/// bytes of a flood starts and every decade after it is ten times as many.
pub const ONE_DIGIT_NUMBERS: u64 = 9;

/// Ten to a power.
pub open spec fn power_of_ten(exponent: nat) -> nat
    decreases exponent,
{
    if exponent == 0 {
        1
    } else {
        10 * power_of_ten((exponent - 1) as nat)
    }
}

/// How many decimal digits a number is written with.
pub open spec fn figures(number: nat) -> nat
    decreases number,
{
    if number < 10 {
        1
    } else {
        1 + figures(number / 10)
    }
}

/// How many bytes `seq 1 <lines>` says through a terminal: the digits of
/// every number from one to that, and the two bytes that end each line.
pub open spec fn said_by(lines: nat) -> nat
    decreases lines,
{
    if lines == 0 {
        0
    } else {
        said_by((lines - 1) as nat) + figures(lines) + (ENDING as nat)
    }
}

/// What [`poured`] gives: those bytes, held at the largest `u64`.
pub open spec fn pouring(lines: nat) -> u64 {
    if said_by(lines) > u64::MAX {
        u64::MAX
    } else {
        said_by(lines) as u64
    }
}

/// Ten to the eighteenth and nineteenth powers.
proof fn lemma_power_of_ten_values()
    ensures
        power_of_ten(18) == 1_000_000_000_000_000_000nat,
        power_of_ten(19) == 10_000_000_000_000_000_000nat,
{
    reveal_with_fuel(power_of_ten, 20);
}

/// A larger power of ten is no smaller.
proof fn lemma_power_of_ten_grows(low: nat, high: nat)
    requires
        low <= high,
    ensures
        1 <= power_of_ten(low) <= power_of_ten(high),
    decreases high,
{
    if low < high {
        lemma_power_of_ten_grows(low, (high - 1) as nat);
    } else if high > 0 {
        lemma_power_of_ten_grows(0, (high - 1) as nat);
    }
}

/// Every number from one power of ten up to the next has as many digits as
/// that power's exponent plus one.
proof fn lemma_figures(number: nat, digits: nat)
    requires
        digits >= 1,
        power_of_ten((digits - 1) as nat) <= number < power_of_ten(digits),
    ensures
        figures(number) == digits,
    decreases digits,
{
    if digits > 1 {
        let lower = power_of_ten((digits - 2) as nat);
        assert(power_of_ten((digits - 1) as nat) == 10 * lower);
        assert(power_of_ten(digits) == 10 * power_of_ten((digits - 1) as nat));
        assert(lower <= number / 10 < power_of_ten((digits - 1) as nat));
        lemma_power_of_ten_grows(0, (digits - 2) as nat);
        lemma_figures(number / 10, (digits - 1) as nat);
    } else {
        assert(power_of_ten(1) == 10) by {
            reveal_with_fuel(power_of_ten, 2);
        }
    }
}

/// The bytes a run of numbers that all have as many digits says.
proof fn lemma_block(first: nat, last: nat, digits: nat)
    requires
        digits >= 1,
        1 <= first <= last + 1,
        power_of_ten((digits - 1) as nat) <= first,
        last < power_of_ten(digits),
    ensures
        said_by(last) == said_by((first - 1) as nat) + (last + 1 - first) * (digits + ENDING),
    decreases last + 1 - first,
{
    if last + 1 > first {
        lemma_block(first, (last - 1) as nat, digits);
        lemma_figures(last, digits);
        let width = digits + ENDING;
        let before = (last - 1) as nat;
        assert(said_by(before) == said_by((first - 1) as nat) + (before + 1 - first) * width);
        assert(said_by(last) == said_by(before) + figures(last) + ENDING);
        assert(before + 1 - first == last - first);
        assert((last - first) * width + width == (last + 1 - first) * width) by (nonlinear_arith);
    } else {
        assert(last + 1 - first == 0);
        assert((last + 1 - first) * (digits + ENDING) == 0) by (nonlinear_arith)
            requires
                last + 1 - first == 0,
        ;
    }
}

/// Every line says at least three bytes: a digit and the two that end it.
proof fn lemma_said_by_at_least(lines: nat)
    ensures
        said_by(lines) >= 3 * lines,
    decreases lines,
{
    if lines > 0 {
        lemma_said_by_at_least((lines - 1) as nat);
    }
}

/// More lines say no fewer bytes.
proof fn lemma_said_by_grows(fewer: nat, more: nat)
    requires
        fewer <= more,
    ensures
        said_by(fewer) <= said_by(more),
    decreases more,
{
    if fewer < more {
        lemma_said_by_grows(fewer, (more - 1) as nat);
    }
}

/// How many bytes `seq 1 <lines>` says through a pseudoterminal: the digits
/// of every number from one to that, and the carriage return and line feed
/// after each, held at the largest `u64`.
pub fn poured(lines: u64) -> (said: u64)
    ensures
        said == pouring(lines as nat),
{
    let mut said: u64 = 0;
    let mut digits: u64 = 1;
    let mut lowest: u64 = 1;
    let mut wide: u64 = ONE_DIGIT_NUMBERS;
    proof {
        lemma_power_of_ten_values();
    }
    while lowest <= lines && wide > 0
        invariant
            1 <= digits <= 20,
            lowest == power_of_ten((digits - 1) as nat),
            wide > 0 ==> wide == 9 * lowest,
            wide == 0 ==> digits == 20,
            power_of_ten(18) == 1_000_000_000_000_000_000nat,
            power_of_ten(19) == 10_000_000_000_000_000_000nat,
            said == pouring(if lowest - 1 <= lines {
                (lowest - 1) as nat
            } else {
                lines as nat
            }),
        decreases 21 - digits,
    {
        proof {
            if digits >= 20 {
                lemma_power_of_ten_grows(19, (digits - 1) as nat);
            }
            if digits <= 19 {
                lemma_power_of_ten_grows((digits - 1) as nat, 18);
            }
        }
        let highest = lowest.saturating_add(wide).saturating_sub(1);
        let highest = if highest < lines {
            highest
        } else {
            lines
        };
        let many = highest.saturating_sub(lowest).saturating_add(1);
        proof {
            assert(power_of_ten(digits as nat) == 10 * lowest);
            lemma_block(lowest as nat, highest as nat, digits as nat);
        }
        let block = crate::text::saturating_product(many, digits.saturating_add(ENDING));
        said = said.saturating_add(block);
        lowest = lowest.saturating_add(wide);
        wide = match wide.checked_mul(TEN) {
            Some(value) => value,
            None => 0,
        };
        digits = digits.saturating_add(1);
        proof {
            if wide == 0 {
                if digits <= 19 {
                    lemma_power_of_ten_grows((digits - 1) as nat, 18);
                }
            }
        }
    }
    proof {
        if wide == 0 && lowest <= lines {
            lemma_said_by_at_least((lowest - 1) as nat);
            lemma_said_by_grows((lowest - 1) as nat, lines as nat);
        }
    }
    said
}


/// What one line the held client printed does to what it heard: nothing for
/// a line with no word, or with fewer than four that is not a detachment;
/// a screen counted, where it attached kept and the reckoning restarted; an
/// output delivery counted and checked against where the last one ended;
/// or the words for why the stream cannot be read on.
pub open spec fn heard_line(heard: Heard, line: Seq<char>) -> Result<Heard, Seq<char>> {
    let fields = words(line);
    if fields.len() == 0 {
        Ok(heard)
    } else if fields[0] == "detached"@ {
        Err("the pane was detached, so the held client stopped listening"@)
    } else if fields.len() < 4 {
        Ok(heard)
    } else {
        match (
            parsed(fields[1], u64::MAX as nat),
            parsed(fields[2], u64::MAX as nat),
            parsed(fields[3], u64::MAX as nat),
        ) {
            (Some(at), Some(long), Some(padding)) => {
                if fields[0] == "screen"@ {
                    Ok(
                        Heard {
                            screens: if heard.screens + 1 > u64::MAX {
                                u64::MAX
                            } else {
                                (heard.screens + 1) as u64
                            },
                            attached: if heard.attached is None {
                                Some(at as u64)
                            } else {
                                heard.attached
                            },
                            expected: None,
                            ..heard
                        },
                    )
                } else if fields[0] != "output"@ {
                    Ok(heard)
                } else if heard.expected is Some && heard.expected->0 != at {
                    Err(
                        "the pane's stream jumped from "@ + decimal(heard.expected->0 as nat)
                            + " to "@ + decimal(at)
                            + ", so this client's own accounting of what it has taken is broken"@,
                    )
                } else {
                    let size = decoded_size(long as u64, padding as u64);
                    Ok(
                        Heard {
                            deliveries: if heard.deliveries + 1 > u64::MAX {
                                u64::MAX
                            } else {
                                (heard.deliveries + 1) as u64
                            },
                            bytes: if heard.bytes + size > u64::MAX {
                                u64::MAX
                            } else {
                                (heard.bytes + size) as u64
                            },
                            expected: Some(
                                if at + size > u64::MAX {
                                    u64::MAX
                                } else {
                                    (at + size) as u64
                                },
                            ),
                            ..heard
                        },
                    )
                }
            },
            _ => Err("a delivery said a number that is not one: "@ + line),
        }
    }
}

/// What a run of lines does to what was heard: each read in turn, and the
/// reading stopped at the first line that cannot be read on from, with what
/// was heard before it and the words for why.
pub open spec fn heard_lines(heard: Heard, said: Seq<Seq<char>>) -> (Heard, Option<Seq<char>>)
    decreases said.len(),
{
    if said.len() == 0 {
        (heard, None)
    } else {
        match heard_line(heard, said[0]) {
            Ok(next) => heard_lines(next, said.drop_first()),
            Err(why) => (heard, Some(why)),
        }
    }
}

/// One line the held client printed, read into what it heard.
fn hear_line(heard: Heard, line: &[char]) -> (read: Result<Heard, Vec<char>>)
    ensures
        match heard_line(heard, line@) {
            Ok(next) => read == Ok::<Heard, Vec<char>>(next),
            Err(why) => read matches Err(said) && said@ == why,
        },
{
    proof {
        reveal_strlit("detached");
        reveal_strlit("screen");
        reveal_strlit("output");
    }
    let fields = words_of(line);
    if fields.len() == 0 {
        return Ok(heard);
    }
    if spells(fields[0].as_slice(), "detached") {
        let mut said: Vec<char> = Vec::new();
        extend_str(&mut said, "the pane was detached, so the held client stopped listening");
        return Err(said);
    }
    if fields.len() < 4 {
        return Ok(heard);
    }
    let at = parse_unsigned(fields[1].as_slice(), u64::MAX);
    let long = parse_unsigned(fields[2].as_slice(), u64::MAX);
    let padding = parse_unsigned(fields[3].as_slice(), u64::MAX);
    match (at, long, padding) {
        (Some(at), Some(long), Some(padding)) => {
            if spells(fields[0].as_slice(), "screen") {
                let attached = match heard.attached {
                    None => Some(at),
                    Some(held) => Some(held),
                };
                return Ok(
                    Heard {
                        screens: heard.screens.saturating_add(1),
                        attached,
                        expected: None,
                        ..heard
                    },
                );
            }
            if !spells(fields[0].as_slice(), "output") {
                return Ok(heard);
            }
            match heard.expected {
                Some(wanted) => {
                    if wanted != at {
                        let mut said: Vec<char> = Vec::new();
                        extend_str(&mut said, "the pane's stream jumped from ");
                        let shown = decimal_chars(wanted);
                        extend(&mut said, shown.as_slice());
                        extend_str(&mut said, " to ");
                        let shown = decimal_chars(at);
                        extend(&mut said, shown.as_slice());
                        extend_str(
                            &mut said,
                            ", so this client's own accounting of what it has taken is broken",
                        );
                        return Err(said);
                    }
                },
                None => {},
            }
            let size = decoded_length(long, padding);
            Ok(
                Heard {
                    deliveries: heard.deliveries.saturating_add(1),
                    bytes: heard.bytes.saturating_add(size),
                    expected: Some(at.saturating_add(size)),
                    ..heard
                },
            )
        },
        _ => {
            let mut said: Vec<char> = Vec::new();
            extend_str(&mut said, "a delivery said a number that is not one: ");
            extend(&mut said, line);
            Err(said)
        },
    }
}

/// Reads another window of what the held client printed into what it heard.
///
/// Each line is `kind at characters padding`; an output delivery has to
/// begin where the one before it ended, a screen restarts that reckoning,
/// and a detachment ends the stream. What was heard before a line that
/// cannot be read on from is kept, and the words for why are the error.
pub fn heard_more(heard: &mut Heard, said: &str) -> (read: Result<(), String>)
    ensures
        *final(heard) == heard_lines(*old(heard), lines(said@)).0,
        match heard_lines(*old(heard), lines(said@)).1 {
            None => read is Ok,
            Some(why) => read matches Err(told) && told@ == why,
        },
{
    let ghost start = *heard;
    let characters = chars_of(said);
    let all = lines_of(characters.as_slice());
    let ghost every = lines(said@);
    assert(all@.len() == every.len());
    let mut index: usize = 0;
    assert(every.subrange(0, every.len() as int) =~= every);
    while index < all.len()
        invariant
            index <= all@.len() == every.len(),
            every == lines(said@),
            start == *old(heard),
            forall|at: int| 0 <= at < all@.len() ==> #[trigger] all@[at]@ == every[at],
            heard_lines(start, every) == heard_lines(
                *heard,
                every.subrange(index as int, every.len() as int),
            ),
        decreases all@.len() - index,
    {
        let ghost rest = every.subrange(index as int, every.len() as int);
        assert(rest[0] == all@[index as int]@);
        assert(rest.drop_first() =~= every.subrange(index + 1, every.len() as int));
        match hear_line(*heard, all[index].as_slice()) {
            Ok(next) => {
                *heard = next;
            },
            Err(why) => {
                return Err(string_of(why.as_slice()));
            },
        }
        index = index + 1;
    }
    Ok(())
}


/// The most rows one series is shown in.
pub const MOST_ROWS: usize = 60;

/// How far apart the rows of a series are picked: far enough that the picks
/// after the first, and the last sample put after them, fit in one row less
/// than [`MOST_ROWS`] with the first; never less than one.
pub open spec fn stride_for(length: nat) -> nat {
    let needed = if length <= 1 {
        0
    } else {
        (length - 1 + MOST_ROWS - 2) / (MOST_ROWS - 1) as int
    };
    if needed > 1 {
        needed as nat
    } else {
        1
    }
}

/// Every `stride`th sample from `start` on.
pub open spec fn every_stride(samples: Seq<Sample>, start: int, stride: int) -> Seq<Sample>
    decreases (if start < samples.len() {
        samples.len() - start
    } else {
        0
    }),
{
    if stride <= 0 || start < 0 || start >= samples.len() {
        seq![]
    } else {
        seq![samples[start]] + every_stride(samples, start + stride, stride)
    }
}

/// What [`shown`] gives: every `stride`th sample from the first, and the
/// last one after them unless it is already the row they end on.
pub open spec fn shown_rows(samples: Seq<Sample>) -> Seq<Sample> {
    let rows = every_stride(samples, 0, stride_for(samples.len()) as int);
    if samples.len() > 0 && (rows.len() == 0 || rows.last() != samples.last()) {
        rows.push(samples.last())
    } else {
        rows
    }
}

/// Every `stride`th sample, and always the last one, in the series' order,
/// so that a series of any length is shown in at most [`MOST_ROWS`] rows: a
/// series that fits is shown whole, and a longer one from its first sample
/// to its last.
pub fn shown(samples: &[Sample]) -> (rows: Vec<Sample>)
    ensures
        rows@ == shown_rows(samples@),
        rows@.len() <= MOST_ROWS,
        samples@.len() > 0 ==> rows@[0] == samples@[0] && rows@.last() == samples@.last(),
        samples@.len() <= MOST_ROWS ==> rows@ == samples@,
        forall|index: int| 0 <= index < rows@.len() ==> samples@.contains(#[trigger] rows@[index]),
        picked_in_order(rows@, samples@),
{
    proof {
        lemma_shown_rows(samples@);
    }
    let needed = if samples.len() <= 1 {
        0
    } else {
        let after = samples.len() - 1;
        after / (MOST_ROWS - 1) + if after % (MOST_ROWS - 1) == 0 {
            0
        } else {
            1
        }
    };
    assert(needed == (if samples@.len() <= 1 {
        0
    } else {
        (samples@.len() - 1 + MOST_ROWS - 2) / (MOST_ROWS - 1) as int
    }));
    let stride = if needed > 1 {
        needed
    } else {
        1
    };
    let mut rows: Vec<Sample> = Vec::new();
    let mut index: usize = 0;
    let ghost all = every_stride(samples@, 0, stride as int);
    while index < samples.len()
        invariant
            stride >= 1,
            stride == stride_for(samples@.len()),
            all == every_stride(samples@, 0, stride as int),
            index <= samples@.len() ==> all == rows@ + every_stride(samples@, index as int, stride as int),
            index > samples@.len() ==> all == rows@,
        decreases samples@.len() - index,
    {
        rows.push(samples[index]);
        assert(every_stride(samples@, index as int, stride as int) == seq![samples@[index as int]]
            + every_stride(samples@, index + stride, stride as int));
        assert(rows@ + every_stride(samples@, index + stride, stride as int) =~= all);
        if samples.len() - index <= stride {
            assert(every_stride(samples@, index + stride, stride as int) =~= seq![]);
            index = samples.len();
            assert(every_stride(samples@, index as int, stride as int) =~= seq![]);
        } else {
            index = index + stride;
        }
    }
    assert(every_stride(samples@, index as int, stride as int) =~= seq![]);
    assert(rows@ =~= all);
    if samples.len() > 0 {
        let last = samples[samples.len() - 1];
        if rows.len() == 0 || rows[rows.len() - 1] != last {
            rows.push(last);
        }
    }
    rows
}


/// The top of a report: the machine, the clock, the rounds, the cuts, the
/// churn, what the held client heard, and the ceiling.
pub open spec fn report_head(report: Report) -> Seq<char> {
    "# Soak report\n\n- **Machine:** "@ + report.machine@ + "\n- **Duration:** "@ + decimal(
        (report.duration / SECONDS_PER_MINUTE) as nat,
    ) + " minutes\n- **Warmup:** "@ + decimal((report.warmup / SECONDS_PER_MINUTE) as nat)
        + " minutes\n- **Rounds:** "@ + decimal(report.rounds as nat) + " attempted, "@ + decimal(
        report.drops as nat,
    ) + " finished, "@ + decimal(report.floods as nat) + " flooded, longest run of failures "@
        + decimal(report.streak as nat) + "\n- **Cuts:** "@ + decimal(report.cuts as nat)
        + ", each seen to have stopped the daemon it named\n- **Pane churn:** "@ + decimal(
        report.churn as nat,
    ) + " sessions made and unmade\n- **Held client:** "@ + decimal(
        report.heard.deliveries as nat,
    ) + " deliveries, "@ + decimal(report.heard.bytes as nat) + " bytes, "@ + decimal(
        report.heard.screens as nat,
    ) + " screens, attached at byte "@ + decimal(
        (match report.heard.attached {
            Some(at) => at,
            None => 0,
        }) as nat,
    ) + "\n- **Growth ceiling:** "@ + decimal(SOAK_GROWTH_CEILING_PER_HOUR as nat)
        + " bytes an hour, after the warmup\n\n"@
}

/// The table rows of some samples, one line each.
pub open spec fn table_rows(rows: Seq<Sample>) -> Seq<char>
    decreases rows.len(),
{
    if rows.len() == 0 {
        Seq::empty()
    } else {
        table_rows(rows.drop_last()) + "| "@ + decimal(rows.last().at as nat) + "s | "@ + decimal(
            rows.last().bytes as nat,
        ) + " |\n"@
    }
}

/// One side's part of a report: its table, a note when the table leaves
/// samples out, and what grew after the warmup.
pub open spec fn side_section(name: Seq<char>, samples: Seq<Sample>, warmup: u64) -> Seq<char> {
    let rows = shown_rows(samples);
    "\n## The "@ + name + ", in bytes\n\n| At | Resident |\n|---|---|\n"@ + table_rows(rows) + (if rows.len()
        < samples.len() {
        "\nOf "@ + decimal(samples.len()) + " samples this shows "@ + decimal(rows.len())
            + ", evenly spaced and ending on the last. The growth below is read from every one of them.\n"@
    } else {
        Seq::empty()
    }) + "\nGrowth after the warmup: "@ + (match growth(samples, warmup) {
        Some(rate) => decimal(rate as nat) + " bytes an hour"@,
        None => "nothing measured after the warmup"@,
    }) + ".\n"@
}

/// The report as the note a soak commits.
pub open spec fn report_text(report: Report) -> Seq<char> {
    report_head(report) + side_section(side_name(0), report.series(0), report.warmup)
        + side_section(side_name(1), report.series(1), report.warmup) + side_section(
        side_name(2),
        report.series(2),
        report.warmup,
    )
}

/// Whether every series of a report can have its growth read.
pub open spec fn readable(report: Report) -> bool {
    forall|side: int| 0 <= side < SIDES ==> summable(#[trigger] report.series(side), report.warmup)
}

/// Appends a number's decimal digits.
fn extend_decimal(held: &mut Vec<char>, value: u64)
    ensures
        final(held)@ == old(held)@ + decimal(value as nat),
{
    let shown = decimal_chars(value);
    extend(held, shown.as_slice());
}

/// Appends one side's part of a report.
fn extend_side(held: &mut Vec<char>, name: &str, samples: &[Sample], warmup: u64)
    requires
        summable(samples@, warmup),
    ensures
        final(held)@ == old(held)@ + side_section(name@, samples@, warmup),
{
    let rows = shown(samples);
    let ghost start = held@;
    extend_str(held, "\n## The ");
    extend_str(held, name);
    extend_str(held, ", in bytes\n\n| At | Resident |\n|---|---|\n");
    let ghost before_rows = held@;
    let mut index: usize = 0;
    while index < rows.len()
        invariant
            index <= rows@.len(),
            held@ == before_rows + table_rows(rows@.subrange(0, index as int)),
        decreases rows@.len() - index,
    {
        assert(rows@.subrange(0, index + 1).drop_last() =~= rows@.subrange(0, index as int));
        extend_str(held, "| ");
        extend_decimal(held, rows[index].at);
        extend_str(held, "s | ");
        extend_decimal(held, rows[index].bytes);
        extend_str(held, " |\n");
        index = index + 1;
    }
    assert(rows@.subrange(0, rows@.len() as int) =~= rows@);
    let ghost after_rows = held@;
    if rows.len() < samples.len() {
        extend_str(held, "\nOf ");
        extend_decimal(held, samples.len() as u64);
        extend_str(held, " samples this shows ");
        extend_decimal(held, rows.len() as u64);
        extend_str(
            held,
            ", evenly spaced and ending on the last. The growth below is read from every one of them.\n",
        );
    }
    let ghost after_note = held@;
    extend_str(held, "\nGrowth after the warmup: ");
    match grown(samples, warmup) {
        Some(rate) => {
            extend_decimal(held, rate);
            extend_str(held, " bytes an hour");
        },
        None => {
            extend_str(held, "nothing measured after the warmup");
        },
    }
    extend_str(held, ".\n");
    assert(held@ =~= start + side_section(name@, samples@, warmup));
}

/// The report as the note a soak commits: the run's figures, then each
/// side's table of samples and the growth read from it.
pub fn rendered(report: &Report) -> (said: String)
    requires
        readable(*report),
    ensures
        said@ == report_text(*report),
{
    proof {
        assert(summable(report.series(0), report.warmup));
        assert(summable(report.series(1), report.warmup));
        assert(summable(report.series(2), report.warmup));
    }
    let mut held: Vec<char> = Vec::new();
    extend_str(&mut held, "# Soak report\n\n- **Machine:** ");
    extend_str(&mut held, report.machine.as_str());
    extend_str(&mut held, "\n- **Duration:** ");
    extend_decimal(&mut held, minutes(report.duration));
    extend_str(&mut held, " minutes\n- **Warmup:** ");
    extend_decimal(&mut held, minutes(report.warmup));
    extend_str(&mut held, " minutes\n- **Rounds:** ");
    extend_decimal(&mut held, report.rounds as u64);
    extend_str(&mut held, " attempted, ");
    extend_decimal(&mut held, report.drops as u64);
    extend_str(&mut held, " finished, ");
    extend_decimal(&mut held, report.floods as u64);
    extend_str(&mut held, " flooded, longest run of failures ");
    extend_decimal(&mut held, report.streak as u64);
    extend_str(&mut held, "\n- **Cuts:** ");
    extend_decimal(&mut held, report.cuts as u64);
    extend_str(&mut held, ", each seen to have stopped the daemon it named\n- **Pane churn:** ");
    extend_decimal(&mut held, report.churn as u64);
    extend_str(&mut held, " sessions made and unmade\n- **Held client:** ");
    extend_decimal(&mut held, report.heard.deliveries);
    extend_str(&mut held, " deliveries, ");
    extend_decimal(&mut held, report.heard.bytes);
    extend_str(&mut held, " bytes, ");
    extend_decimal(&mut held, report.heard.screens);
    extend_str(&mut held, " screens, attached at byte ");
    let attached = match report.heard.attached {
        Some(at) => at,
        None => 0,
    };
    extend_decimal(&mut held, attached);
    extend_str(&mut held, "\n- **Growth ceiling:** ");
    extend_decimal(&mut held, SOAK_GROWTH_CEILING_PER_HOUR);
    extend_str(&mut held, " bytes an hour, after the warmup\n\n");
    assert(held@ =~= report_head(*report));
    extend_side(&mut held, "held client", report.client.as_slice(), report.warmup);
    extend_side(&mut held, "daemon it watches", report.server.as_slice(), report.warmup);
    extend_side(&mut held, "daemon it churns", report.churned.as_slice(), report.warmup);
    proof {
        reveal_strlit("held client");
        reveal_strlit("daemon it watches");
        reveal_strlit("daemon it churns");
    }
    assert(held@ =~= report_text(*report));
    string_of(held.as_slice())
}


/// Whether the sums a growth is read from fit an `i128`, found by summing.
pub fn sums_fit(samples: &[Sample], warmup: u64) -> (fit: bool)
    ensures
        fit == summable(samples@, warmup),
{
    let ghost seconds = |held: Sample| seconds_of(held);
    let ghost bytes = |held: Sample| bytes_of(held);
    let ghost across = |held: Sample| across_of(held);
    let ghost along = |held: Sample| along_of(held);
    let mut timed: i128 = 0;
    let mut what: i128 = 0;
    let mut across_sum: i128 = 0;
    let mut along_sum: i128 = 0;
    let mut index: usize = 0;
    while index < samples.len()
        invariant
            index <= samples@.len(),
            timed == total(samples@.subrange(0, index as int), warmup, seconds),
            what == total(samples@.subrange(0, index as int), warmup, bytes),
            across_sum == total(samples@.subrange(0, index as int), warmup, across),
            along_sum == total(samples@.subrange(0, index as int), warmup, along),
            seconds == (|held: Sample| seconds_of(held)),
            bytes == (|held: Sample| bytes_of(held)),
            across == (|held: Sample| across_of(held)),
            along == (|held: Sample| along_of(held)),
        decreases samples@.len() - index,
    {
        let held = samples[index];
        let ghost before = samples@.subrange(0, index as int);
        let ghost after = samples@.subrange(0, index + 1);
        assert(after.drop_last() =~= before);
        proof {
            lemma_total_prefix(samples@, warmup, seconds, index + 1);
            lemma_total_prefix(samples@, warmup, bytes, index + 1);
            lemma_total_prefix(samples@, warmup, across, index + 1);
            lemma_total_prefix(samples@, warmup, along, index + 1);
        }
        if held.at >= warmup {
            let at = held.at as i128;
            let weight = held.bytes as i128;
            let sums = (
                timed.checked_add(at),
                what.checked_add(weight),
                across_sum.checked_add(saturating_times(at, weight)),
                along_sum.checked_add(saturating_times(at, at)),
            );
            match sums {
                (Some(a), Some(b), Some(c), Some(d)) => {
                    timed = a;
                    what = b;
                    across_sum = c;
                    along_sum = d;
                },
                _ => {
                    return false;
                },
            }
        }
        index = index + 1;
    }
    assert(samples@.subrange(0, samples@.len() as int) =~= samples@);
    true
}

/// Whether every series of a report can have its growth read, found by
/// summing.
pub fn report_fits(report: &Report) -> (fit: bool)
    ensures
        fit == readable(*report),
{
    let fit = sums_fit(report.client.as_slice(), report.warmup) && sums_fit(
        report.server.as_slice(),
        report.warmup,
    ) && sums_fit(report.churned.as_slice(), report.warmup);
    proof {
        if fit {
            assert forall|side: int| 0 <= side < SIDES implies summable(
                #[trigger] report.series(side),
                report.warmup,
            ) by {}
        } else {
            if !summable(report.series(0), report.warmup) {
            } else if !summable(report.series(1), report.warmup) {
                assert(!summable(report.series(1), report.warmup));
            } else {
                assert(!summable(report.series(2), report.warmup));
            }
        }
    }
    fit
}


/// Reading what the held client printed a window at a time reckons the same
/// as reading it all at once: each window carries on from where the one
/// before it left off, and a window that cannot be read on from ends the
/// reading there.
pub proof fn lemma_reading_in_windows(heard: Heard, first: Seq<Seq<char>>, second: Seq<Seq<char>>)
    ensures
        heard_lines(heard, first + second) == (match heard_lines(heard, first) {
            (after, None) => heard_lines(after, second),
            (after, Some(why)) => (after, Some(why)),
        }),
    decreases first.len(),
{
    if first.len() == 0 {
        assert(first + second =~= second);
    } else {
        assert((first + second)[0] == first[0]);
        assert((first + second).drop_first() =~= first.drop_first() + second);
        match heard_line(heard, first[0]) {
            Ok(next) => {
                lemma_reading_in_windows(next, first.drop_first(), second);
            },
            Err(why) => {},
        }
    }
}

/// A stream the held client printed, read window by window in order, each
/// window but the last ending a line, is reckoned as if it were read whole:
/// [`heard_more`] on two windows gives what it gives on the two together,
/// and a window that cannot be read on from ends the reading there.
pub proof fn lemma_heard_in_windows(heard: Heard, first: Seq<char>, second: Seq<char>)
    requires
        first.len() == 0 || first.last() == '\n',
    ensures
        heard_lines(heard, lines(first + second)) == (match heard_lines(heard, lines(first)) {
            (after, None) => heard_lines(after, lines(second)),
            (after, Some(why)) => (after, Some(why)),
        }),
{
    crate::text::lemma_lines_split(first, second);
    lemma_reading_in_windows(heard, lines(first), lines(second));
}

/// The samples taken at or after the warmup.
pub open spec fn after_warmup(samples: Seq<Sample>, warmup: u64) -> Seq<Sample> {
    samples.filter(|held: Sample| held.at >= warmup)
}

/// What a series sums to after the warmup is what its samples taken after
/// the warmup sum to.
proof fn lemma_total_after_warmup(samples: Seq<Sample>, warmup: u64, measure: spec_fn(Sample) -> int)
    ensures
        total(after_warmup(samples, warmup), warmup, measure) == total(samples, warmup, measure),
    decreases samples.len(),
{
    reveal(Seq::filter);
    if samples.len() > 0 {
        lemma_total_after_warmup(samples.drop_last(), warmup, measure);
        let kept = after_warmup(samples.drop_last(), warmup);
        if samples.last().at >= warmup {
            assert(after_warmup(samples, warmup) == kept.push(samples.last()));
            assert(kept.push(samples.last()).drop_last() =~= kept);
        } else {
            assert(after_warmup(samples, warmup) == kept);
        }
    }
}

/// Nothing before the warmup is looked at: a series grows as its samples
/// taken at or after the warmup do, and its sums fit exactly when theirs do.
pub proof fn lemma_growth_after_warmup(samples: Seq<Sample>, warmup: u64)
    ensures
        growth(after_warmup(samples, warmup), warmup) == growth(samples, warmup),
        summable(after_warmup(samples, warmup), warmup) == summable(samples, warmup),
{
    lemma_total_after_warmup(samples, warmup, |held: Sample| 1int);
    lemma_total_after_warmup(samples, warmup, |held: Sample| seconds_of(held));
    lemma_total_after_warmup(samples, warmup, |held: Sample| bytes_of(held));
    lemma_total_after_warmup(samples, warmup, |held: Sample| across_of(held));
    lemma_total_after_warmup(samples, warmup, |held: Sample| along_of(held));
}

/// A measure that is one value on every sample after the warmup sums to that
/// value once for each of them.
proof fn lemma_total_constant(samples: Seq<Sample>, warmup: u64, measure: spec_fn(Sample) -> int, value: int)
    requires
        forall|index: int|
            0 <= index < samples.len() && samples[index].at >= warmup ==> #[trigger] measure(samples[index])
                == value,
    ensures
        total(samples, warmup, measure) == value * measured_count(samples, warmup),
    decreases samples.len(),
{
    if samples.len() > 0 {
        let before = samples.drop_last();
        assert forall|index: int|
            0 <= index < before.len() && before[index].at >= warmup implies #[trigger] measure(before[index])
                == value by {
            assert(before[index] == samples[index]);
        }
        lemma_total_constant(before, warmup, measure, value);
        let counted = measured_count(before, warmup);
        assert(measured_count(samples, warmup) == counted + if samples.last().at >= warmup {
            1int
        } else {
            0int
        });
        if samples.last().at >= warmup {
            assert(measure(samples[samples.len() - 1]) == value);
            assert(value * (counted + 1) == value * counted + value) by (nonlinear_arith);
        }
    }
}

/// A series whose samples after the warmup were all taken at one instant
/// shows no growth: a line through them has no slope to read.
pub proof fn lemma_one_instant_no_growth(samples: Seq<Sample>, warmup: u64, instant: u64)
    requires
        forall|index: int|
            0 <= index < samples.len() && samples[index].at >= warmup ==> #[trigger] samples[index].at
                == instant,
    ensures
        growth(samples, warmup) is None,
{
    let seconds = |held: Sample| seconds_of(held);
    let along = |held: Sample| along_of(held);
    let square = clamped(instant * instant);
    assert forall|index: int|
        0 <= index < samples.len() && samples[index].at >= warmup implies #[trigger] seconds(samples[index])
            == instant as int by {
        assert(samples[index].at == instant);
    }
    assert forall|index: int|
        0 <= index < samples.len() && samples[index].at >= warmup implies #[trigger] along(samples[index])
            == square by {
        assert(samples[index].at == instant);
    }
    lemma_total_constant(samples, warmup, seconds, instant as int);
    lemma_total_constant(samples, warmup, along, square);
    let many = measured_count(samples, warmup);
    if many >= LEAST_SAMPLES {
        let timed = instant * many;
        let spread = square * many;
        assert(total(samples, warmup, |held: Sample| seconds_of(held)) == timed);
        assert(total(samples, warmup, |held: Sample| along_of(held)) == spread);
        if instant * instant <= i128::MAX {
            assert(many * spread == timed * timed) by (nonlinear_arith)
                requires
                    timed == instant * many,
                    spread == square * many,
                    square == instant * instant,
            ;
        } else {
            assert(square == i128::MAX);
            assert(many * spread > i128::MAX) by (nonlinear_arith)
                requires
                    spread == square * many,
                    square == i128::MAX,
                    many >= 2,
            ;
            assert(timed * timed > i128::MAX) by (nonlinear_arith)
                requires
                    timed == instant * many,
                    instant * instant > i128::MAX,
                    many >= 2,
                    instant >= 0,
            ;
        }
    }
}

/// A sample taken before the warmup changes nothing a growth is read from.
pub proof fn lemma_warmup_ignored(samples: Seq<Sample>, early: Sample, warmup: u64)
    requires
        early.at < warmup,
    ensures
        growth(samples.push(early), warmup) == growth(samples, warmup),
        summable(samples.push(early), warmup) == summable(samples, warmup),
{
    assert(samples.push(early).drop_last() =~= samples);
    assert(measured_count(samples.push(early), warmup) == measured_count(samples, warmup));
}

/// One more line says no fewer bytes, and exactly its digits and its ending
/// more while the count has not reached the largest `u64`.
pub proof fn lemma_pouring_step(lines: nat)
    ensures
        pouring(lines) <= pouring(lines + 1),
        said_by(lines + 1) <= u64::MAX ==> pouring(lines + 1) == pouring(lines) + figures(
            lines + 1,
        ) + ENDING,
{
    assert(said_by(lines + 1) == said_by(lines) + figures(lines + 1) + ENDING);
}


/// How many samples picking every `stride`th from `start` on gives.
proof fn lemma_every_stride_length(samples: Seq<Sample>, start: int, stride: int)
    requires
        stride >= 1,
        0 <= start,
    ensures
        every_stride(samples, start, stride).len() == (if start >= samples.len() {
            0
        } else {
            (samples.len() - 1 - start) / stride + 1
        }),
    decreases (if start < samples.len() {
        samples.len() - start
    } else {
        0
    }),
{
    if start < samples.len() {
        lemma_every_stride_length(samples, start + stride, stride);
        let rest = samples.len() - 1 - start;
        if start + stride >= samples.len() {
            assert(rest / stride == 0) by (nonlinear_arith)
                requires
                    0 <= rest < stride,
            ;
        } else {
            assert(rest / stride == (rest - stride) / stride + 1) by (nonlinear_arith)
                requires
                    rest >= stride,
                    stride >= 1,
            ;
        }
    }
}

/// The picks every `stride`th sample from `start` on makes are the samples
/// `stride` apart from `start`.
proof fn lemma_every_stride_at(samples: Seq<Sample>, start: int, stride: int)
    requires
        stride >= 1,
        0 <= start,
    ensures
        forall|index: int| 0 <= index < every_stride(samples, start, stride).len() ==> #[trigger] every_stride(samples, start, stride)[index]
            == samples[start + index * stride],
    decreases (if start < samples.len() {
        samples.len() - start
    } else {
        0
    }),
{
    if start < samples.len() {
        lemma_every_stride_at(samples, start + stride, stride);
        let picks = every_stride(samples, start, stride);
        let rest = every_stride(samples, start + stride, stride);
        assert forall|index: int| 0 <= index < every_stride(samples, start, stride).len() implies #[trigger] every_stride(
            samples,
            start,
            stride,
        )[index] == samples[start + index * stride] by {
            assert(picks.len() == 1 + rest.len());
            if index > 0 {
                assert(picks[index] == rest[index - 1]);
                assert(start + stride + (index - 1) * stride == start + index * stride) by (nonlinear_arith);
            } else {
                assert(index * stride == 0) by (nonlinear_arith)
                    requires
                        index == 0,
                ;
            }
        }
    } else {
        assert(every_stride(samples, start, stride).len() == 0);
    }
}

/// Whether some rows are samples of a series picked in the series' order:
/// each at a place of its own, each later row from later in the series.
pub open spec fn picked_in_order(rows: Seq<Sample>, samples: Seq<Sample>) -> bool {
    exists|places: Seq<int>|
        #![trigger places.len()]
        places.len() == rows.len() && (forall|index: int|
            0 <= index < rows.len() ==> 0 <= #[trigger] places[index] < samples.len() && rows[index] == samples[places[index]])
            && (forall|earlier: int, later: int|
            0 <= earlier < later < rows.len() ==> #[trigger] places[earlier] < #[trigger] places[later])
}

/// A series is shown in at most [`MOST_ROWS`] rows, from its first sample to
/// its last, each row one of its samples; a series that fits is shown whole.
pub proof fn lemma_shown_rows(samples: Seq<Sample>)
    ensures
        shown_rows(samples).len() <= MOST_ROWS,
        samples.len() > 0 ==> shown_rows(samples)[0] == samples[0] && shown_rows(samples).last() == samples.last(),
        samples.len() == 0 ==> shown_rows(samples).len() == 0,
        samples.len() <= MOST_ROWS ==> shown_rows(samples) == samples,
        forall|index: int| 0 <= index < shown_rows(samples).len() ==> samples.contains(#[trigger] shown_rows(samples)[index]),
        picked_in_order(shown_rows(samples), samples),
{
    let stride = stride_for(samples.len()) as int;
    let picks = every_stride(samples, 0, stride);
    lemma_every_stride_length(samples, 0, stride);
    lemma_every_stride_at(samples, 0, stride);
    if samples.len() > 0 {
        let after = samples.len() - 1;
        let count = after / stride;
        assert(picks.len() == count + 1);
        assert(picks[0] == samples[0 + 0 * stride]);
        assert(0 * stride == 0) by (nonlinear_arith);
        assert(picks.last() == samples[0 + count * stride]);
        let needed = (after + 58) / 59;
        assert(stride >= needed);
        assert(59 * stride >= after) by (nonlinear_arith)
            requires
                needed == (after + 58) / 59,
                stride >= needed,
                after >= 0,
        ;
        if after % stride == 0 {
            assert(count * stride == after) by (nonlinear_arith)
                requires
                    stride >= 1,
                    count == after / stride,
                    after % stride == 0,
            ;
            assert(count <= 59) by (nonlinear_arith)
                requires
                    stride >= 1,
                    count * stride == after,
                    59 * stride >= after,
            ;
            assert(picks.last() == samples.last());
        } else {
            assert(count <= 58) by (nonlinear_arith)
                requires
                    stride >= 1,
                    count == after / stride,
                    after % stride != 0,
                    59 * stride >= after,
            ;
        }
        if samples.len() <= MOST_ROWS {
            assert(stride == 1);
            assert forall|index: int| 0 <= index < picks.len() implies #[trigger] picks[index] == samples[index] by {
                assert(index * 1 == index) by (nonlinear_arith);
            }
            assert(picks =~= samples);
        }
        assert forall|index: int| 0 <= index < shown_rows(samples).len() implies samples.contains(#[trigger] shown_rows(samples)[index]) by {
            if index < picks.len() {
                assert(shown_rows(samples)[index] == picks[index]);
                assert(samples[0 + index * stride] == picks[index]);
                assert(0 <= index * stride <= after) by (nonlinear_arith)
                    requires
                        0 <= index <= count,
                        count == after / stride,
                        stride >= 1,
                        after >= 0,
                ;
            } else {
                assert(shown_rows(samples)[index] == samples[after as int]);
            }
        }
        let rows = shown_rows(samples);
        let strided = Seq::new(picks.len(), |index: int| index * stride);
        let places = if rows.len() > picks.len() {
            strided.push(after)
        } else {
            strided
        };
        assert forall|index: int| 0 <= index < picks.len() implies 0 <= #[trigger] strided[index] <= count * stride by {
            assert(0 <= index * stride <= count * stride) by (nonlinear_arith)
                requires
                    0 <= index <= count,
                    stride >= 1,
            ;
        }
        assert(count * stride <= after) by (nonlinear_arith)
            requires
                count == after / stride,
                stride >= 1,
                after >= 0,
        ;
        if rows.len() > picks.len() {
            assert(picks.last() != samples.last());
            assert(count * stride != after);
        }
        assert forall|index: int| 0 <= index < rows.len() implies 0 <= #[trigger] places[index] < samples.len()
            && rows[index] == samples[places[index]] by {
            if index < picks.len() {
                assert(places[index] == strided[index]);
                assert(rows[index] == picks[index]);
                assert(picks[index] == samples[0 + index * stride]);
            } else {
                assert(places[index] == after);
            }
        }
        assert forall|earlier: int, later: int| 0 <= earlier < later < rows.len() implies #[trigger] places[earlier]
            < #[trigger] places[later] by {
            if later < picks.len() {
                assert(earlier * stride < later * stride) by (nonlinear_arith)
                    requires
                        earlier < later,
                        stride >= 1,
                ;
            } else {
                assert(places[earlier] == strided[earlier]);
            }
        }
        assert(places.len() == rows.len());
    } else {
        let places = Seq::<int>::empty();
        assert(places.len() == shown_rows(samples).len());
    }
}

} // verus!
