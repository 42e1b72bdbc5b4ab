//! The decisions of the pseudoterminal harness: how a child ended, what
//! went wrong and how it reads, and reading until quiet rather than until a
//! clock. A read that comes back empty and succeeds, the worst failure in
//! this domain, is impossible: a cap with nothing received is an error
//! carrying whatever was seen. The harness itself, the pseudoterminal, the
//! child and the clock, stands around these decisions and feeds them.
use vstd::prelude::*;

use crate::text::{extend, extend_str, string_of};

verus! {

/// How a child ended.
#[derive(Clone, Debug, PartialEq, Eq)]
pub enum ExitStatus {
    /// It exited with this code.
    Exited(u32),
    /// A signal ended it; the name is the platform's description of the
    /// signal, as `Terminated` or `Killed`.
    Signalled(String),
}

/// How a child ended, from what waiting for it said: the signal's name
/// when a signal ended it, the exit code otherwise.
pub fn exit_status(signal: Option<String>, code: u32) -> (status: ExitStatus)
    ensures
        match signal {
            Some(name) => status == ExitStatus::Signalled(name),
            None => status == ExitStatus::Exited(code),
        },
{
    match signal {
        Some(name) => ExitStatus::Signalled(name),
        None => ExitStatus::Exited(code),
    }
}

/// Why the harness could not do what was asked.
#[derive(Clone, Debug)]
pub enum PtyError {
    /// The pseudoterminal could not be opened or the child could not start.
    Spawn {
        /// The program asked for.
        program: String,
        /// What went wrong.
        detail: String,
    },
    /// Bytes could not be written to the child.
    Write {
        /// What the operating system said.
        detail: String,
    },
    /// The cap elapsed before the child fell quiet.
    Timeout {
        /// The bytes seen before the cap, escaped for a message.
        received: String,
    },
    /// The child closed its terminal having produced nothing; a child that
    /// produced something and then closed is a success carrying it.
    Closed {
        /// The bytes seen before the close, escaped for a message.
        received: String,
    },
    /// The terminal could not be resized.
    Resize {
        /// What went wrong.
        detail: String,
    },
    /// The child could not be waited for.
    Wait {
        /// What the operating system said.
        detail: String,
    },
}

/// How a harness error reads.
pub open spec fn pty_message(error: PtyError) -> Seq<char> {
    match error {
        PtyError::Spawn { program, detail } => "`"@ + program@ + "` could not be spawned on a pseudoterminal: "@ + detail@,
        PtyError::Write { detail } => "the child could not be written to: "@ + detail@,
        PtyError::Timeout { received } => "the cap elapsed before the child fell quiet; received `"@ + received@ + "`"@,
        PtyError::Closed { received } => "the child closed its terminal; received `"@ + received@ + "`"@,
        PtyError::Resize { detail } => "the terminal could not be resized: "@ + detail@,
        PtyError::Wait { detail } => "the child could not be waited for: "@ + detail@,
    }
}

impl PtyError {
    /// How the error reads.
    pub fn message(&self) -> (said: String)
        ensures
            said@ == pty_message(*self),
    {
        proof {
            reveal_strlit("`");
            reveal_strlit("` could not be spawned on a pseudoterminal: ");
            reveal_strlit("the child could not be written to: ");
            reveal_strlit("the cap elapsed before the child fell quiet; received `");
            reveal_strlit("the child closed its terminal; received `");
            reveal_strlit("the terminal could not be resized: ");
            reveal_strlit("the child could not be waited for: ");
        }
        let mut held: Vec<char> = Vec::new();
        match self {
            PtyError::Spawn { program, detail } => {
                extend_str(&mut held, "`");
                extend_str(&mut held, program.as_str());
                extend_str(&mut held, "` could not be spawned on a pseudoterminal: ");
                extend_str(&mut held, detail.as_str());
            },
            PtyError::Write { detail } => {
                extend_str(&mut held, "the child could not be written to: ");
                extend_str(&mut held, detail.as_str());
            },
            PtyError::Timeout { received } => {
                extend_str(&mut held, "the cap elapsed before the child fell quiet; received `");
                extend_str(&mut held, received.as_str());
                extend_str(&mut held, "`");
            },
            PtyError::Closed { received } => {
                extend_str(&mut held, "the child closed its terminal; received `");
                extend_str(&mut held, received.as_str());
                extend_str(&mut held, "`");
            },
            PtyError::Resize { detail } => {
                extend_str(&mut held, "the terminal could not be resized: ");
                extend_str(&mut held, detail.as_str());
            },
            PtyError::Wait { detail } => {
                extend_str(&mut held, "the child could not be waited for: ");
                extend_str(&mut held, detail.as_str());
            },
        }
        string_of(held.as_slice())
    }
}

/// A hexadecimal digit, lowercase.
pub open spec fn hex_digit(value: int) -> char {
    if value < 10 {
        ('0' as int + value) as char
    } else {
        ('a' as int + value - 10) as char
    }
}

/// One byte as `u8::escape_ascii` shows it: tab, return, newline,
/// backslash and both quotes escaped with a backslash, the rest of
/// printable ASCII as itself, any other byte as `\x` and two lowercase
/// hexadecimal digits.
pub open spec fn escape_byte(byte: u8) -> Seq<char> {
    if byte == 9 {
        seq!['\\', 't']
    } else if byte == 13 {
        seq!['\\', 'r']
    } else if byte == 10 {
        seq!['\\', 'n']
    } else if byte == 92 {
        seq!['\\', '\\']
    } else if byte == 39 {
        seq!['\\', '\'']
    } else if byte == 34 {
        seq!['\\', '"']
    } else if 0x20 <= byte <= 0x7e {
        seq![byte as char]
    } else {
        seq!['\\', 'x', hex_digit((byte / 16) as int), hex_digit((byte % 16) as int)]
    }
}

/// The first bytes of a message as it shows them.
pub open spec fn escaped_upto(bytes: Seq<u8>, count: int) -> Seq<char>
    decreases count,
{
    if count <= 0 || count > bytes.len() {
        Seq::empty()
    } else {
        escaped_upto(bytes, count - 1) + escape_byte(bytes[count - 1])
    }
}

/// Bytes as a message shows them.
pub open spec fn escaped_of(bytes: Seq<u8>) -> Seq<char> {
    escaped_upto(bytes, bytes.len() as int)
}

/// A hexadecimal digit, lowercase.
fn hex(value: u8) -> (digit: char)
    requires
        value < 16,
    ensures
        digit == hex_digit(value as int),
{
    if value < 10 {
        ((48u8 + value) as char)
    } else {
        ((87u8 + value) as char)
    }
}

/// Bytes as a message shows them.
pub fn escaped(bytes: &[u8]) -> (shown: String)
    ensures
        shown@ == escaped_of(bytes@),
{
    let mut held: Vec<char> = Vec::new();
    let mut index: usize = 0;
    while index < bytes.len()
        invariant
            index <= bytes@.len(),
            held@ == escaped_upto(bytes@, index as int),
        decreases bytes@.len() - index,
    {
        let byte = bytes[index];
        let piece: Vec<char> = if byte == 9 {
            vec!['\\', 't']
        } else if byte == 13 {
            vec!['\\', 'r']
        } else if byte == 10 {
            vec!['\\', 'n']
        } else if byte == 92 {
            vec!['\\', '\\']
        } else if byte == 39 {
            vec!['\\', '\'']
        } else if byte == 34 {
            vec!['\\', '"']
        } else if 0x20 <= byte && byte <= 0x7e {
            vec![byte as char]
        } else {
            vec!['\\', 'x', hex(byte / 16), hex(byte % 16)]
        };
        assert(piece@ =~= escape_byte(byte));
        extend(&mut held, piece.as_slice());
        index = index + 1;
    }
    string_of(held.as_slice())
}

/// How long the next wait for output lasts, and whether it is a wait for
/// quiet: once something has arrived and the quiet fits in what is left of
/// the cap, the quiet; otherwise all that is left. Nothing when nothing is
/// left of the cap.
pub open spec fn wait_of(received: nat, quiet: u64, remaining: u64) -> Option<(u64, bool)> {
    if remaining == 0 {
        None
    } else {
        let quiet_wait = received > 0 && quiet <= remaining;
        Some((if quiet_wait { quiet } else { remaining }, quiet_wait))
    }
}

/// How long the next wait for output lasts, in milliseconds, and whether it
/// is a wait for quiet; nothing when the cap has elapsed.
pub fn next_wait(received: &[u8], quiet: u64, remaining: u64) -> (wait: Option<(u64, bool)>)
    ensures
        wait == wait_of(received@.len(), quiet, remaining),
{
    if remaining == 0 {
        return None;
    }
    let quiet_wait = received.len() > 0 && quiet <= remaining;
    Some((if quiet_wait { quiet } else { remaining }, quiet_wait))
}

/// What one wait for output brought.
#[derive(Clone, Debug)]
pub enum Arrival {
    /// A chunk of output.
    Chunk(Vec<u8>),
    /// Nothing, for the whole wait.
    Silence,
    /// The child closed its terminal.
    Closed,
}

/// Where reading stands after one wait.
#[derive(Clone, Debug)]
pub enum Listening {
    /// Keep reading, with this much received.
    Continue(Vec<u8>),
    /// The child fell quiet, or closed, having produced this.
    Quiet(Vec<u8>),
    /// Reading failed.
    Failed(PtyError),
}

/// What a wait's arrival makes of what was received: a chunk is added and
/// reading goes on; silence through a wait for quiet ends it, and through a
/// wait for the rest of the cap is a timeout; a close ends it, unless
/// nothing was received.
pub open spec fn listening_of(received: Seq<u8>, quiet_wait: bool, arrival: Arrival) -> (Option<Seq<u8>>, Option<Seq<u8>>, Option<PtyError>) {
    match arrival {
        Arrival::Chunk(chunk) => (Some(received + chunk@), None, None),
        Arrival::Silence => if quiet_wait {
            (None, Some(received), None)
        } else {
            (None, None, Some(PtyError::Timeout { received: arbitrary() }))
        },
        Arrival::Closed => if received.len() == 0 {
            (None, None, Some(PtyError::Closed { received: arbitrary() }))
        } else {
            (None, Some(received), None)
        },
    }
}

/// Whether a step of reading is what [`listening_of`] says, the messages
/// of its errors carrying the escaped bytes received (none for a close).
pub open spec fn listened_as(found: Listening, received: Seq<u8>, quiet_wait: bool, arrival: Arrival) -> bool {
    let expected = listening_of(received, quiet_wait, arrival);
    match found {
        Listening::Continue(held) => expected.0 == Some(held@),
        Listening::Quiet(held) => expected.1 == Some(held@),
        Listening::Failed(PtyError::Timeout { received: shown }) => expected.2 is Some && expected.2->0 is Timeout
            && shown@ == escaped_of(received),
        Listening::Failed(PtyError::Closed { received: shown }) => expected.2 is Some && expected.2->0 is Closed
            && shown@ == Seq::<char>::empty(),
        Listening::Failed(_) => false,
    }
}

/// What a wait's arrival makes of what was received.
pub fn listened(received: Vec<u8>, quiet_wait: bool, arrival: Arrival) -> (found: Listening)
    ensures
        listened_as(found, received@, quiet_wait, arrival),
{
    match arrival {
        Arrival::Chunk(chunk) => {
            let mut held = received;
            let mut index: usize = 0;
            let ghost start = held@;
            while index < chunk.len()
                invariant
                    index <= chunk@.len(),
                    held@ == start + chunk@.subrange(0, index as int),
                decreases chunk@.len() - index,
            {
                held.push(chunk[index]);
                assert(chunk@.subrange(0, index + 1) =~= chunk@.subrange(0, index as int).push(chunk@[index as int]));
                index = index + 1;
            }
            assert(chunk@.subrange(0, chunk@.len() as int) =~= chunk@);
            Listening::Continue(held)
        },
        Arrival::Silence => if quiet_wait {
            Listening::Quiet(received)
        } else {
            Listening::Failed(PtyError::Timeout { received: escaped(received.as_slice()) })
        },
        Arrival::Closed => if received.len() == 0 {
            Listening::Failed(PtyError::Closed { received: String::new() })
        } else {
            Listening::Quiet(received)
        },
    }
}

/// The error when the cap has elapsed: a timeout carrying what was seen.
pub fn timed_out(received: &[u8]) -> (error: PtyError)
    ensures
        error matches PtyError::Timeout { received: shown } && shown@ == escaped_of(received@),
{
    PtyError::Timeout { received: escaped(received) }
}

/// An empty success is impossible: whenever reading ends quiet after a
/// wait that [`wait_of`] laid out, it carries at least one byte.
pub proof fn lemma_no_empty_success(received: Seq<u8>, quiet: u64, remaining: u64, arrival: Arrival)
    requires
        wait_of(received.len(), quiet, remaining) is Some,
    ensures
        match wait_of(received.len(), quiet, remaining) {
            Some((wait, quiet_wait)) => listening_of(received, quiet_wait, arrival).1 matches Some(held) ==> held.len() > 0,
            None => true,
        },
{
}

} // verus!
