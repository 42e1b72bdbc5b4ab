//! The steps a soak writes for the driver to run. Each is one client of its
//! own, made and ended inside the step, with its own credit window.
use vstd::prelude::*;

use crate::soak::commands::WATCHED;
use crate::soak::FLOOD_LINES;
use crate::text::{
    decimal, decimal_chars, extend, extend_str, is_digit, lemma_decimal_one_to_one,
    lemma_decimal_reads_back, lemma_digits_then_rest, string_of,
};

verus! {

/// How many lines are poured through the pane before anything is measured:
/// enough to fill the ring a pane keeps.
pub const OPENING_FLOOD_LINES: u64 = 800_000;

/// How long any one thing a round waits for may take, in milliseconds.
pub const PATIENCE: u64 = 120_000;

/// How long one round's step may take, in seconds: four minutes.
pub const STEP_DEADLINE: u64 = 240;

/// How long the step that waits for the opening flood may take, in seconds:
/// twenty minutes.
pub const SETTLING_DEADLINE: u64 = 1200;

/// The same, in the milliseconds that step waits for its line.
pub const SETTLING_MILLISECONDS: u64 = 1_200_000;

/// One step of the driver around a list of actions, under a deadline of its
/// own given in seconds and given again, in milliseconds, as its patience.
pub open spec fn step_text(id: Seq<char>, deadline: u64, actions: Seq<char>) -> Seq<char> {
    "scenario = \"soak\"\nid = \""@ + id + "\"\ncontainer = \"engine\"\ntimeout_seconds = "@ + decimal(
        deadline as nat,
    ) + "\n\n[manager]\npatience_milliseconds = "@ + decimal((deadline * 1000) as nat)
        + "\nactions = [\n"@ + actions + "]\n"@
}

/// One step of the driver, around a list of actions, under a deadline of its
/// own.
fn step_of(id: &str, deadline: u64, actions: &[char]) -> (step: String)
    requires
        deadline <= SETTLING_DEADLINE,
    ensures
        step@ == step_text(id@, deadline, actions@),
{
    let mut held: Vec<char> = Vec::new();
    extend_str(&mut held, "scenario = \"soak\"\nid = \"");
    extend_str(&mut held, id);
    extend_str(&mut held, "\"\ncontainer = \"engine\"\ntimeout_seconds = ");
    extend(&mut held, decimal_chars(deadline).as_slice());
    extend_str(&mut held, "\n\n[manager]\npatience_milliseconds = ");
    extend(&mut held, decimal_chars(deadline * 1000).as_slice());
    extend_str(&mut held, "\nactions = [\n");
    extend(&mut held, actions);
    extend_str(&mut held, "]\n");
    string_of(held.as_slice())
}

/// The actions of [`opening_step`].
pub open spec fn opening_actions() -> Seq<char> {
    "  { kind = \"add_host\", alias = \""@ + WATCHED@ + "\" },\n  { kind = \"await_state\", alias = \""@ + WATCHED@ + "\", is = \"connected\" },\n  { kind = \"create_session\", alias = \""@ + WATCHED@ + "\", name = \"soak\" },\n  { kind = \"await_delta\", alias = \""@ + WATCHED@ + "\", generation = 1 },\n  { kind = \"input\", alias = \""@ + WATCHED@ + "\", pane = 1, text = \"seq 1 "@ + decimal(OPENING_FLOOD_LINES as nat) + "\\n\" },\n"@
}

/// The step that makes the pane the soak holds open and fills its ring.
pub fn opening_step() -> (step: String)
    ensures
        step@ == step_text("opening"@, STEP_DEADLINE, opening_actions()),
{
    let mut actions: Vec<char> = Vec::new();
    extend_str(&mut actions, "  { kind = \"add_host\", alias = \"");
    extend_str(&mut actions, WATCHED);
    extend_str(&mut actions, "\" },\n  { kind = \"await_state\", alias = \"");
    extend_str(&mut actions, WATCHED);
    extend_str(&mut actions, "\", is = \"connected\" },\n  { kind = \"create_session\", alias = \"");
    extend_str(&mut actions, WATCHED);
    extend_str(&mut actions, "\", name = \"soak\" },\n  { kind = \"await_delta\", alias = \"");
    extend_str(&mut actions, WATCHED);
    extend_str(&mut actions, "\", generation = 1 },\n  { kind = \"input\", alias = \"");
    extend_str(&mut actions, WATCHED);
    extend_str(&mut actions, "\", pane = 1, text = \"seq 1 ");
    extend(&mut actions, decimal_chars(OPENING_FLOOD_LINES).as_slice());
    extend_str(&mut actions, "\\n\" },\n");
    step_of("opening", STEP_DEADLINE, actions.as_slice())
}

/// The actions of [`settling_step`].
pub open spec fn settling_actions() -> Seq<char> {
    "  { kind = \"add_host\", alias = \""@ + WATCHED@ + "\" },\n  { kind = \"await_state\", alias = \""@ + WATCHED@ + "\", is = \"connected\" },\n  { kind = \"subscribe\", alias = \""@ + WATCHED@ + "\", pane = 1 },\n  { kind = \"input\", alias = \""@ + WATCHED@ + "\", pane = 1, text = \"echo settled\\n\" },\n  { kind = \"await_bytes\", alias = \""@ + WATCHED@ + "\", pane = 1, contains = \"settled\", within_milliseconds = "@ + decimal(SETTLING_MILLISECONDS as nat) + " },\n"@
}

/// The step that waits for that flood to be over: its own client, which
/// subscribes after the flood and waits for a line echoed behind it.
pub fn settling_step() -> (step: String)
    ensures
        step@ == step_text("settling"@, SETTLING_DEADLINE, settling_actions()),
{
    let mut actions: Vec<char> = Vec::new();
    extend_str(&mut actions, "  { kind = \"add_host\", alias = \"");
    extend_str(&mut actions, WATCHED);
    extend_str(&mut actions, "\" },\n  { kind = \"await_state\", alias = \"");
    extend_str(&mut actions, WATCHED);
    extend_str(&mut actions, "\", is = \"connected\" },\n  { kind = \"subscribe\", alias = \"");
    extend_str(&mut actions, WATCHED);
    extend_str(&mut actions, "\", pane = 1 },\n  { kind = \"input\", alias = \"");
    extend_str(&mut actions, WATCHED);
    extend_str(&mut actions, "\", pane = 1, text = \"echo settled\\n\" },\n  { kind = \"await_bytes\", alias = \"");
    extend_str(&mut actions, WATCHED);
    extend_str(&mut actions, "\", pane = 1, contains = \"settled\", within_milliseconds = ");
    extend(&mut actions, decimal_chars(SETTLING_MILLISECONDS).as_slice());
    extend_str(&mut actions, " },\n");
    step_of("settling", SETTLING_DEADLINE, actions.as_slice())
}

/// The actions of [`flooding_step`].
pub open spec fn flooding_actions(round: usize) -> Seq<char> {
    "  { kind = \"add_host\", alias = \""@ + WATCHED@ + "\" },\n  { kind = \"await_state\", alias = \""@ + WATCHED@ + "\", is = \"connected\" },\n  { kind = \"subscribe\", alias = \""@ + WATCHED@ + "\", pane = 1 },\n  { kind = \"input\", alias = \""@ + WATCHED@ + "\", pane = 1, text = \"seq 1 "@ + decimal(FLOOD_LINES as nat) + "\\n\" },\n  { kind = \"input\", alias = \""@ + WATCHED@ + "\", pane = 1, text = \"echo flooded-"@ + decimal(round as nat) + "\\n\" },\n  { kind = \"await_bytes\", alias = \""@ + WATCHED@ + "\", pane = 1, contains = \"flooded-"@ + decimal(round as nat) + "\", within_milliseconds = "@ + decimal(PATIENCE as nat) + " },\n"@
}

/// A round's flood: poured through the pane and waited for by the line
/// echoed behind it.
pub fn flooding_step(round: usize) -> (step: String)
    ensures
        step@ == step_text("flooding"@, STEP_DEADLINE, flooding_actions(round)),
{
    let mut actions: Vec<char> = Vec::new();
    extend_str(&mut actions, "  { kind = \"add_host\", alias = \"");
    extend_str(&mut actions, WATCHED);
    extend_str(&mut actions, "\" },\n  { kind = \"await_state\", alias = \"");
    extend_str(&mut actions, WATCHED);
    extend_str(&mut actions, "\", is = \"connected\" },\n  { kind = \"subscribe\", alias = \"");
    extend_str(&mut actions, WATCHED);
    extend_str(&mut actions, "\", pane = 1 },\n  { kind = \"input\", alias = \"");
    extend_str(&mut actions, WATCHED);
    extend_str(&mut actions, "\", pane = 1, text = \"seq 1 ");
    extend(&mut actions, decimal_chars(FLOOD_LINES).as_slice());
    extend_str(&mut actions, "\\n\" },\n  { kind = \"input\", alias = \"");
    extend_str(&mut actions, WATCHED);
    extend_str(&mut actions, "\", pane = 1, text = \"echo flooded-");
    extend(&mut actions, decimal_chars(round as u64).as_slice());
    extend_str(&mut actions, "\\n\" },\n  { kind = \"await_bytes\", alias = \"");
    extend_str(&mut actions, WATCHED);
    extend_str(&mut actions, "\", pane = 1, contains = \"flooded-");
    extend(&mut actions, decimal_chars(round as u64).as_slice());
    extend_str(&mut actions, "\", within_milliseconds = ");
    extend(&mut actions, decimal_chars(PATIENCE).as_slice());
    extend_str(&mut actions, " },\n");
    step_of("flooding", STEP_DEADLINE, actions.as_slice())
}

/// The actions of [`recovery_step`].
pub open spec fn recovery_actions(round: usize) -> Seq<char> {
    "  { kind = \"add_host\", alias = \""@ + WATCHED@ + "\" },\n  { kind = \"await_state\", alias = \""@ + WATCHED@ + "\", is = \"connected\" },\n  { kind = \"subscribe\", alias = \""@ + WATCHED@ + "\", pane = 1 },\n  { kind = \"input\", alias = \""@ + WATCHED@ + "\", pane = 1, text = \"echo round-"@ + decimal(round as nat) + "\\n\" },\n  { kind = \"await_bytes\", alias = \""@ + WATCHED@ + "\", pane = 1, contains = \"round-"@ + decimal(round as nat) + "\", within_milliseconds = "@ + decimal(PATIENCE as nat) + " },\n"@
}

/// What proves the host is still there after the link was cut: a client of
/// its own, and a line that has to come back.
pub fn recovery_step(round: usize) -> (step: String)
    ensures
        step@ == step_text("recovery"@, STEP_DEADLINE, recovery_actions(round)),
{
    let mut actions: Vec<char> = Vec::new();
    extend_str(&mut actions, "  { kind = \"add_host\", alias = \"");
    extend_str(&mut actions, WATCHED);
    extend_str(&mut actions, "\" },\n  { kind = \"await_state\", alias = \"");
    extend_str(&mut actions, WATCHED);
    extend_str(&mut actions, "\", is = \"connected\" },\n  { kind = \"subscribe\", alias = \"");
    extend_str(&mut actions, WATCHED);
    extend_str(&mut actions, "\", pane = 1 },\n  { kind = \"input\", alias = \"");
    extend_str(&mut actions, WATCHED);
    extend_str(&mut actions, "\", pane = 1, text = \"echo round-");
    extend(&mut actions, decimal_chars(round as u64).as_slice());
    extend_str(&mut actions, "\\n\" },\n  { kind = \"await_bytes\", alias = \"");
    extend_str(&mut actions, WATCHED);
    extend_str(&mut actions, "\", pane = 1, contains = \"round-");
    extend(&mut actions, decimal_chars(round as u64).as_slice());
    extend_str(&mut actions, "\", within_milliseconds = ");
    extend(&mut actions, decimal_chars(PATIENCE).as_slice());
    extend_str(&mut actions, " },\n");
    step_of("recovery", STEP_DEADLINE, actions.as_slice())
}

/// A step's text gives back the actions it was made around.
proof fn lemma_step_actions(id: Seq<char>, deadline: u64, first: Seq<char>, second: Seq<char>)
    requires
        step_text(id, deadline, first) == step_text(id, deadline, second),
    ensures
        first == second,
{
    let head = "scenario = \"soak\"\nid = \""@ + id + "\"\ncontainer = \"engine\"\ntimeout_seconds = "@ + decimal(
        deadline as nat,
    ) + "\n\n[manager]\npatience_milliseconds = "@ + decimal((deadline * 1000) as nat)
        + "\nactions = [\n"@;
    let whole = step_text(id, deadline, first);
    assert(whole =~= head + first + "]\n"@);
    assert(step_text(id, deadline, second) =~= head + second + "]\n"@);
    assert(first =~= whole.subrange(head.len() as int, (head.len() + first.len()) as int));
    assert(second =~= whole.subrange(head.len() as int, (head.len() + second.len()) as int));
}

/// What a flooding step's actions say before the round's number.
spec fn flooding_head() -> Seq<char> {
    "  { kind = \"add_host\", alias = \""@ + WATCHED@ + "\" },\n  { kind = \"await_state\", alias = \""@ + WATCHED@ + "\", is = \"connected\" },\n  { kind = \"subscribe\", alias = \""@ + WATCHED@ + "\", pane = 1 },\n  { kind = \"input\", alias = \""@ + WATCHED@ + "\", pane = 1, text = \"seq 1 "@ + decimal(FLOOD_LINES as nat) + "\\n\" },\n  { kind = \"input\", alias = \""@ + WATCHED@ + "\", pane = 1, text = \"echo flooded-"@
}

/// What a flooding step's actions say after the round's number first comes.
spec fn flooding_tail(round: usize) -> Seq<char> {
    "\\n\" },\n  { kind = \"await_bytes\", alias = \""@ + WATCHED@ + "\", pane = 1, contains = \"flooded-"@ + decimal(round as nat) + "\", within_milliseconds = "@ + decimal(PATIENCE as nat) + " },\n"@
}

proof fn lemma_flooding_split(round: usize)
    ensures
        flooding_actions(round) == flooding_head() + decimal(round as nat) + flooding_tail(round),
        flooding_tail(round).len() > 0,
        !is_digit(flooding_tail(round)[0]),
{
    reveal_strlit("\\n\" },\n  { kind = \"await_bytes\", alias = \"");
    assert(flooding_actions(round) =~= flooding_head() + decimal(round as nat) + flooding_tail(round));
}

/// Two rounds are given two different flooding steps: the round's number is
/// written into the step and can be read back from it.
pub proof fn lemma_flooding_steps_differ(first: usize, second: usize)
    requires
        first != second,
    ensures
        step_text("flooding"@, STEP_DEADLINE, flooding_actions(first)) != step_text(
            "flooding"@,
            STEP_DEADLINE,
            flooding_actions(second),
        ),
{
    if step_text("flooding"@, STEP_DEADLINE, flooding_actions(first)) == step_text(
        "flooding"@,
        STEP_DEADLINE,
        flooding_actions(second),
    ) {
        lemma_step_actions("flooding"@, STEP_DEADLINE, flooding_actions(first), flooding_actions(second));
        lemma_flooding_split(first);
        lemma_flooding_split(second);
        lemma_decimal_reads_back(first as nat);
        lemma_decimal_reads_back(second as nat);
        lemma_digits_then_rest(
            flooding_head(),
            decimal(first as nat),
            flooding_tail(first),
            decimal(second as nat),
            flooding_tail(second),
        );
        lemma_decimal_one_to_one(first as nat, second as nat);
    }
}

/// What a recovery step's actions say before the round's number.
spec fn recovery_head() -> Seq<char> {
    "  { kind = \"add_host\", alias = \""@ + WATCHED@ + "\" },\n  { kind = \"await_state\", alias = \""@ + WATCHED@ + "\", is = \"connected\" },\n  { kind = \"subscribe\", alias = \""@ + WATCHED@ + "\", pane = 1 },\n  { kind = \"input\", alias = \""@ + WATCHED@ + "\", pane = 1, text = \"echo round-"@
}

/// What a recovery step's actions say after the round's number first comes.
spec fn recovery_tail(round: usize) -> Seq<char> {
    "\\n\" },\n  { kind = \"await_bytes\", alias = \""@ + WATCHED@ + "\", pane = 1, contains = \"round-"@ + decimal(round as nat) + "\", within_milliseconds = "@ + decimal(PATIENCE as nat) + " },\n"@
}

proof fn lemma_recovery_split(round: usize)
    ensures
        recovery_actions(round) == recovery_head() + decimal(round as nat) + recovery_tail(round),
        recovery_tail(round).len() > 0,
        !is_digit(recovery_tail(round)[0]),
{
    reveal_strlit("\\n\" },\n  { kind = \"await_bytes\", alias = \"");
    assert(recovery_actions(round) =~= recovery_head() + decimal(round as nat) + recovery_tail(round));
}

/// Two rounds are given two different recovery steps: the round's number is
/// written into the step and can be read back from it.
pub proof fn lemma_recovery_steps_differ(first: usize, second: usize)
    requires
        first != second,
    ensures
        step_text("recovery"@, STEP_DEADLINE, recovery_actions(first)) != step_text(
            "recovery"@,
            STEP_DEADLINE,
            recovery_actions(second),
        ),
{
    if step_text("recovery"@, STEP_DEADLINE, recovery_actions(first)) == step_text(
        "recovery"@,
        STEP_DEADLINE,
        recovery_actions(second),
    ) {
        lemma_step_actions("recovery"@, STEP_DEADLINE, recovery_actions(first), recovery_actions(second));
        lemma_recovery_split(first);
        lemma_recovery_split(second);
        lemma_decimal_reads_back(first as nat);
        lemma_decimal_reads_back(second as nat);
        lemma_digits_then_rest(
            recovery_head(),
            decimal(first as nat),
            recovery_tail(first),
            decimal(second as nat),
            recovery_tail(second),
        );
        lemma_decimal_one_to_one(first as nat, second as nat);
    }
}

} // verus!
