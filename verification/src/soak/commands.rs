//! What a soak asks the containers to do: shell fragments for `dash` and
//! `mawk`, a census of processes, a client started and stopped, a link cut
//! and made good again, and what their answers mean.
use vstd::prelude::*;

use crate::soak::report::Sample;
use crate::soak::SoakError;
use crate::text::{
    chars_of, contains, decimal, decimal_chars, extend, extend_str, holds, parse_unsigned, parsed,
    replace_all, replaced, spells, string_of, trim, trimmed,
};

verus! {

/// Where the held client writes what it hears.
pub const TAIL_OUTPUT: &'static str = "/tmp/iznik-soak-tail.lines";

/// Where the program that compacts it on the way there lives.
pub const TAIL_FILTER: &'static str = "/tmp/iznik-soak-compact.awk";

/// What tells that program to read a line at a time.
pub const UNBUFFERED: &'static str = "-W interactive";

/// How many tenths of a second the held client is given to finish writing
/// after it is interrupted.
pub const STOP_ATTEMPTS: u64 = 100;

/// Where the held client's standard error goes.
pub const TAIL_TROUBLE: &'static str = "/tmp/iznik-soak-tail.err";

/// Where this build's servers are, in every container.
pub const ARTIFACTS: &'static str = "/iznik/distribution";

/// The command-line tool, in every container.
pub const TOOL: &'static str = "/iznik/bin/iznik";

/// The host the held client watches.
pub const WATCHED: &'static str = "host0";

/// What the held client is called where a container can see it.
pub const CLIENT_PROCESS: &'static str = "iznik";

/// And the daemon on a host.
pub const SERVER_PROCESS: &'static str = "iznik-server";

/// What the cut says when the lock does not name the daemon.
pub const NOT_THE_DAEMON: &'static str = "not-the-daemon";

/// The word before the state the cut reads.
pub const WAS: &'static str = "stopped:";

/// What that state has to be: a stopped process.
pub const STOPPED: &'static str = "stopped:T";

/// How long the daemon is stopped for, in seconds.
pub const DROP_SECONDS: u64 = 20;

/// How many bytes are in a kibibyte, which is what `/proc` counts in.
pub const KIBIBYTE: u64 = 1024;

/// What the held client's output is reduced to as it is written: for every
/// line, its kind, the byte it starts at, how many characters of base 64
/// carry it and how many of those are padding.
pub const COMPACT: &'static str = "{ kind = \"none\"; if (match($0, /\"kind\":\"[a-zA-Z_]+\"/)) { kind = substr($0, RSTART + 8, RLENGTH - 9) } at = 0; if (match($0, /\"sequence\":[0-9]+/)) { at = substr($0, RSTART + 11, RLENGTH - 11) } long = 0; padding = 0; if (match($0, /\"bytes\":\"[^\"]*\"/)) { held = substr($0, RSTART + 9, RLENGTH - 10); long = length(held); while (substr(held, length(held), 1) == \"=\") { padding = padding + 1; held = substr(held, 1, length(held) - 1) } } print kind, at, long, padding; fflush() }";

/// What a side weighs, read out of `/proc`: the total resident size of every
/// process whose name is `NAME` and that is not a `--stdio` relay.
pub const WEIGH: &'static str = "for held in /proc/[0-9]*; do if grep -qsx NAME \"$held/comm\" && ! grep -qsa -- --stdio \"$held/cmdline\"; then awk '/VmRSS/{print $2}' \"$held/status\"; fi; done | awk '{total += $1} END {print total + 0}'";

/// And what the held client weighs: the processes named `CLIENT` that are
/// tailing a pane.
pub const WEIGH_CLIENT: &'static str = "for held in /proc/[0-9]*; do if grep -qsx CLIENT \"$held/comm\" && grep -qsa -- tail \"$held/cmdline\"; then awk '/VmRSS/{print $2}' \"$held/status\"; fi; done | awk '{total += $1} END {print total + 0}'";

/// The text of [`running`].
pub open spec fn running_text(process: Seq<char>) -> Seq<char> {
    "found=0; for held in /proc/[0-9]*; do if grep -qsx "@ + process + " \"$held/comm\" && grep -qsa -- tail \"$held/cmdline\" && ! awk '/^State:/{print $2}' \"$held/status\" 2>/dev/null | grep -qx Z; then found=$((found + 1)); fi; done; printf '%s\\n' \"$found\""@
}

/// A command that says how many processes answer to a name, are tailing a
/// pane and are not zombies.
pub fn running(process: &str) -> (command: String)
    ensures
        command@ == running_text(process@),
{
    let mut held: Vec<char> = Vec::new();
    extend_str(&mut held, "found=0; for held in /proc/[0-9]*; do if grep -qsx ");
    extend_str(&mut held, process);
    extend_str(&mut held, " \"$held/comm\" && grep -qsa -- tail \"$held/cmdline\" && ! awk '/^State:/{print $2}' \"$held/status\" 2>/dev/null | grep -qx Z; then found=$((found + 1)); fi; done; printf '%s\\n' \"$found\"");
    string_of(held.as_slice())
}

/// The text of [`tail_command`].
pub open spec fn tail_command_text() -> Seq<char> {
    "cat > "@ + TAIL_FILTER@ + " <<'COMPACT'\n"@ + COMPACT@ + "\nCOMPACT\n{ IZNIK_ARTIFACTS_DIRECTORY="@ + ARTIFACTS@ + " nohup "@ + TOOL@ + " tail "@ + WATCHED@ + " 1 | awk "@ + UNBUFFERED@ + " -f "@ + TAIL_FILTER@ + " > "@ + TAIL_OUTPUT@ + "; } 2> "@ + TAIL_TROUBLE@ + " &"@
}

/// The command that starts the held client: its output compacted on the way
/// to a file, a line at a time, and its complaints kept beside it.
pub fn tail_command() -> (command: String)
    ensures
        command@ == tail_command_text(),
{
    let mut held: Vec<char> = Vec::new();
    extend_str(&mut held, "cat > ");
    extend_str(&mut held, TAIL_FILTER);
    extend_str(&mut held, " <<'COMPACT'\n");
    extend_str(&mut held, COMPACT);
    extend_str(&mut held, "\nCOMPACT\n{ IZNIK_ARTIFACTS_DIRECTORY=");
    extend_str(&mut held, ARTIFACTS);
    extend_str(&mut held, " nohup ");
    extend_str(&mut held, TOOL);
    extend_str(&mut held, " tail ");
    extend_str(&mut held, WATCHED);
    extend_str(&mut held, " 1 | awk ");
    extend_str(&mut held, UNBUFFERED);
    extend_str(&mut held, " -f ");
    extend_str(&mut held, TAIL_FILTER);
    extend_str(&mut held, " > ");
    extend_str(&mut held, TAIL_OUTPUT);
    extend_str(&mut held, "; } 2> ");
    extend_str(&mut held, TAIL_TROUBLE);
    extend_str(&mut held, " &");
    string_of(held.as_slice())
}

/// The text of [`stop_tail`].
pub open spec fn stop_tail_text() -> Seq<char> {
    "for held in /proc/[0-9]*; do if grep -qsx "@ + CLIENT_PROCESS@ + " \"$held/comm\"; then kill -INT \"${held#/proc/}\"; fi; done; for _ in $(seq 1 "@ + decimal(STOP_ATTEMPTS as nat) + "); do if ! pidof awk "@ + CLIENT_PROCESS@ + " > /dev/null 2>&1; then break; fi; sleep 0.1; done"@
}

/// And the command that stops it: interrupted, then waited for until it and
/// its filter have gone.
pub fn stop_tail() -> (command: String)
    ensures
        command@ == stop_tail_text(),
{
    let mut held: Vec<char> = Vec::new();
    extend_str(&mut held, "for held in /proc/[0-9]*; do if grep -qsx ");
    extend_str(&mut held, CLIENT_PROCESS);
    extend_str(&mut held, " \"$held/comm\"; then kill -INT \"${held#/proc/}\"; fi; done; for _ in $(seq 1 ");
    extend(&mut held, decimal_chars(STOP_ATTEMPTS).as_slice());
    extend_str(&mut held, "); do if ! pidof awk ");
    extend_str(&mut held, CLIENT_PROCESS);
    extend_str(&mut held, " > /dev/null 2>&1; then break; fi; sleep 0.1; done");
    string_of(held.as_slice())
}

/// The text of [`cut`].
pub open spec fn cut_text() -> Seq<char> {
    "if [ -n \"$XDG_RUNTIME_DIR\" ]; then lock=\"$XDG_RUNTIME_DIR/iznik/server.lock\"; else lock=\"${TMPDIR:-/tmp}/iznik-$(id -u)/server.lock\"; fi; held=$(cat \"$lock\"); if ! grep -qsx "@ + SERVER_PROCESS@ + " \"/proc/$held/comm\" || grep -qsa -- --stdio \"/proc/$held/cmdline\"; then printf '"@ + NOT_THE_DAEMON@ + " %s\\n' \"$held\" >&2; exit 1; fi; kill -STOP \"$held\"; sleep "@ + decimal(DROP_SECONDS as nat) + "; printf '"@ + WAS@ + "%s\\n' \"$(awk '/^State:/{print $2}' \"/proc/$held/status\")\"; kill -CONT \"$held\""@
}

/// How the link to every client on a host is cut and made good again: the
/// daemon the lock names, checked to be the daemon and not a relay, stopped
/// for the drop and its state said on the way out, then continued.
pub fn cut() -> (command: String)
    ensures
        command@ == cut_text(),
{
    let mut held: Vec<char> = Vec::new();
    extend_str(&mut held, "if [ -n \"$XDG_RUNTIME_DIR\" ]; then lock=\"$XDG_RUNTIME_DIR/iznik/server.lock\"; else lock=\"${TMPDIR:-/tmp}/iznik-$(id -u)/server.lock\"; fi; held=$(cat \"$lock\"); if ! grep -qsx ");
    extend_str(&mut held, SERVER_PROCESS);
    extend_str(&mut held, " \"/proc/$held/comm\" || grep -qsa -- --stdio \"/proc/$held/cmdline\"; then printf '");
    extend_str(&mut held, NOT_THE_DAEMON);
    extend_str(&mut held, " %s\\n' \"$held\" >&2; exit 1; fi; kill -STOP \"$held\"; sleep ");
    extend(&mut held, decimal_chars(DROP_SECONDS).as_slice());
    extend_str(&mut held, "; printf '");
    extend_str(&mut held, WAS);
    extend_str(&mut held, "%s\\n' \"$(awk '/^State:/{print $2}' \"/proc/$held/status\")\"; kill -CONT \"$held\"");
    string_of(held.as_slice())
}

/// The text of [`revive`].
pub open spec fn revive_text() -> Seq<char> {
    "for held in /proc/[0-9]*; do if grep -qsx "@ + SERVER_PROCESS@ + " \"$held/comm\"; then kill -CONT \"${held#/proc/}\"; fi; done"@
}

/// And how a daemon left stopped is started again.
pub fn revive() -> (command: String)
    ensures
        command@ == revive_text(),
{
    let mut held: Vec<char> = Vec::new();
    extend_str(&mut held, "for held in /proc/[0-9]*; do if grep -qsx ");
    extend_str(&mut held, SERVER_PROCESS);
    extend_str(&mut held, " \"$held/comm\"; then kill -CONT \"${held#/proc/}\"; fi; done");
    string_of(held.as_slice())
}


/// The census a side is weighed with: the held client's for the client's
/// name, the daemon's for any other, with the name put where the census
/// holds its place.
pub open spec fn census_text(process: Seq<char>) -> Seq<char> {
    if process == CLIENT_PROCESS@ {
        replace_all(WEIGH_CLIENT@, "CLIENT"@, process)
    } else {
        replace_all(WEIGH@, "NAME"@, process)
    }
}

/// The census a side is weighed with.
pub fn census(process: &str) -> (command: String)
    ensures
        command@ == census_text(process@),
{
    proof {
        reveal_strlit("CLIENT");
        reveal_strlit("NAME");
    }
    let name = chars_of(process);
    let client = chars_of(CLIENT_PROCESS);
    let chosen = if crate::text::same_chars(name.as_slice(), client.as_slice()) {
        let template = chars_of(WEIGH_CLIENT);
        let place = chars_of("CLIENT");
        replaced(template.as_slice(), place.as_slice(), name.as_slice())
    } else {
        let template = chars_of(WEIGH);
        let place = chars_of("NAME");
        replaced(template.as_slice(), place.as_slice(), name.as_slice())
    };
    string_of(chosen.as_slice())
}

/// The bytes a census answer weighs: the kibibytes it printed, or none when
/// it printed no number, times a kibibyte, held at the largest `u64`.
pub open spec fn weight_of(said: Seq<char>) -> u64 {
    let kibibytes: nat = match parsed(trim(said), u64::MAX as nat) {
        Some(value) => value,
        None => 0,
    };
    if kibibytes * KIBIBYTE > u64::MAX {
        u64::MAX
    } else {
        (kibibytes * KIBIBYTE) as u64
    }
}

/// What one side weighs, from what its census printed, as a sample taken
/// `at` seconds into the soak.
pub fn weighed(said: &str, at: u64) -> (sample: Sample)
    ensures
        sample.at == at,
        sample.bytes == weight_of(said@),
{
    let characters = chars_of(said);
    let held = trimmed(characters.as_slice());
    let kibibytes = match parse_unsigned(held.as_slice(), u64::MAX) {
        Some(value) => value,
        None => 0,
    };
    Sample { at, bytes: crate::text::saturating_product(kibibytes, KIBIBYTE) }
}

/// What machine a soak ran on, from what the engine said of it: refused when
/// a part of it is missing, which shows as nothing between two commas.
pub fn machine(said: &str) -> (named: Result<String, SoakError>)
    ensures
        !contains(trim(said@), ", ,"@) ==> (named matches Ok(held) && held@ == trim(said@)),
        contains(trim(said@), ", ,"@) ==> (named matches Err(SoakError::Lost { detail })
            && detail@ == "the machine would not say what processor it has: "@ + trim(said@)),
{
    let characters = chars_of(said);
    let held = trimmed(characters.as_slice());
    let gap = chars_of(", ,");
    if holds(held.as_slice(), gap.as_slice()) {
        let mut told: Vec<char> = Vec::new();
        extend_str(&mut told, "the machine would not say what processor it has: ");
        extend(&mut told, held.as_slice());
        return Err(SoakError::Lost { detail: string_of(told.as_slice()) });
    }
    Ok(string_of(held.as_slice()))
}

/// Whether a cut was seen to stop the daemon: what it printed names the
/// stopped state, or the cut is refused with what it said.
pub fn cut_seen(said: &str) -> (seen: Result<(), SoakError>)
    ensures
        contains(said@, STOPPED@) ==> seen is Ok,
        !contains(said@, STOPPED@) ==> (seen matches Err(SoakError::Lost { detail })
            && detail@ == "the cut did not stop the daemon; it said: "@ + trim(said@)),
{
    let characters = chars_of(said);
    let stopped = chars_of(STOPPED);
    if holds(characters.as_slice(), stopped.as_slice()) {
        return Ok(());
    }
    let mut told: Vec<char> = Vec::new();
    extend_str(&mut told, "the cut did not stop the daemon; it said: ");
    extend(&mut told, trimmed(characters.as_slice()).as_slice());
    Err(SoakError::Lost { detail: string_of(told.as_slice()) })
}

} // verus!
