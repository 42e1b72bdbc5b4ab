//! Every prerequisite of a working checkout — the pinned toolchain,
//! cargo-nextest, podman on netavark, zig, both musl cross-compilers and git —
//! with the probe that finds it, what the probe has to print, and how to
//! install it; and what a probe's answer means. Running the probes is the
//! caller's.
use vstd::prelude::*;

use crate::gate::texts_of;
use crate::text::{
    chars_of, contains, extend, extend_str, holds, string_of, trim, trimmed,
};
use crate::claims::selection::{join, joined_with};

verus! {

/// What this subcommand takes, which is nothing.
pub const USAGE: &'static str = "usage: xtask doctor";

/// How long a probe may take, in seconds.
pub const PROBE_DEADLINE: u64 = 30;

/// The file that pins the toolchain, relative to the repository root.
pub const TOOLCHAIN_FILE: &'static str = "rust-toolchain.toml";

/// One prerequisite: what it is, how it is probed, what the probe must
/// print, and how to install it.
#[derive(Clone, Debug)]
pub struct Prerequisite {
    /// The name a person knows it by.
    pub name: String,
    /// The program the probe runs.
    pub program: &'static str,
    /// The arguments the probe hands it.
    pub arguments: Vec<&'static str>,
    /// Text the probe's standard output must contain, when running is not
    /// enough.
    pub expected_output: Option<String>,
    /// How to install it.
    pub install: String,
}

/// The probe of a prerequisite as a command line: the program and its
/// arguments, a space between each two.
pub open spec fn probe_text(prerequisite: Prerequisite) -> Seq<char> {
    joined_with(seq![prerequisite.program@] + texts_of(prerequisite.arguments@), " "@)
}

impl Prerequisite {
    /// The probe as a command line, for messages.
    pub fn probe_line(&self) -> (line: String)
        ensures
            line@ == probe_text(*self),
    {
        let mut words: Vec<String> = Vec::new();
        words.push(self.program.to_owned());
        let mut index: usize = 0;
        while index < self.arguments.len()
            invariant
                index <= self.arguments@.len(),
                crate::text::views_of(words@) == seq![self.program@] + texts_of(self.arguments@).subrange(0, index as int),
            decreases self.arguments@.len() - index,
        {
            let ghost before = words@;
            words.push(self.arguments[index].to_owned());
            assert(crate::text::views_of(words@) =~= crate::text::views_of(before).push(self.arguments@[index as int]@));
            assert(texts_of(self.arguments@).subrange(0, index + 1) =~= texts_of(self.arguments@).subrange(0, index as int).push(self.arguments@[index as int]@));
            index = index + 1;
        }
        assert(texts_of(self.arguments@).subrange(0, self.arguments@.len() as int) =~= texts_of(self.arguments@));
        string_of(join(words.as_slice(), " ").as_slice())
    }
}

/// A prerequisite that is not there: its name, why, and how to install it.
#[derive(Clone, Debug)]
pub struct Missing {
    /// The prerequisite's name.
    pub name: String,
    /// What the probe found.
    pub reason: String,
    /// How to install it.
    pub install: String,
}

impl Missing {
    /// The name, why, and on the next line how to install it.
    pub fn message(&self) -> (said: String)
        ensures
            said@ == self.name@ + ": "@ + self.reason@ + "\n  install: "@ + self.install@,
    {
        let mut held: Vec<char> = Vec::new();
        extend_str(&mut held, self.name.as_str());
        extend_str(&mut held, ": ");
        extend_str(&mut held, self.reason.as_str());
        extend_str(&mut held, "\n  install: ");
        extend_str(&mut held, self.install.as_str());
        string_of(held.as_slice())
    }
}

/// Why the doctor could not examine the machine at all.
#[derive(Debug)]
pub enum DoctorError {
    /// The pinned toolchain could not be read from `rust-toolchain.toml`.
    Toolchain {
        /// The file.
        path: String,
        /// What was wrong with it.
        detail: String,
    },
}

impl DoctorError {
    /// The file and what was wrong with it.
    pub fn message(&self) -> (said: String)
        ensures
            said@ == (match self {
                DoctorError::Toolchain { path, detail } => path@ + ": "@ + detail@,
            }),
    {
        match self {
            DoctorError::Toolchain { path, detail } => {
                let mut held: Vec<char> = Vec::new();
                extend_str(&mut held, path.as_str());
                extend_str(&mut held, ": ");
                extend_str(&mut held, detail.as_str());
                string_of(held.as_slice())
            },
        }
    }
}

/// What `toml` makes of a toolchain file: the text at `toolchain.channel`
/// when there is a string there, nothing when there is not, or what the
/// parser said.
pub uninterp spec fn toml_channel(text: Seq<char>) -> Result<Option<Seq<char>>, Seq<char>>;

/// Parses a toolchain file with `toml::from_str` into a `toml::Table` and
/// picks the string at `toolchain.channel`; on a parse error, the error's
/// `Display` text. Its contract says only that the answer is `toml`'s for
/// this text.
#[verifier::external_body]
fn parsed_channel(text: &str) -> (channel: Result<Option<String>, String>)
    ensures
        match toml_channel(text@) {
            Ok(None) => channel == Ok::<Option<String>, String>(None),
            Ok(Some(found)) => channel matches Ok(Some(held)) && held@ == found,
            Err(said) => channel matches Err(held) && held@ == said,
        },
{
    match toml::from_str::<toml::Table>(text) {
        Ok(table) => Ok(table.get("toolchain").and_then(|held| held.get("channel")).and_then(toml::Value::as_str).map(str::to_owned)),
        Err(error) => Err(error.to_string()),
    }
}

/// The channel a toolchain file pins, from what `toml` made of it.
pub open spec fn channel_reading(path: Seq<char>, reading: Result<Option<Seq<char>>, Seq<char>>) -> Result<Seq<char>, (Seq<char>, Seq<char>)> {
    match reading {
        Ok(Some(channel)) => Ok(channel),
        Ok(None) => Err((path, "no toolchain.channel"@)),
        Err(said) => Err((path, said)),
    }
}

/// The channel a toolchain file pins, given what `toml` made of its text.
pub fn channel_from(path: &str, reading: Result<Option<String>, String>) -> (channel: Result<String, DoctorError>)
    ensures
        match channel_reading(
            path@,
            match reading {
                Ok(Some(found)) => Ok(Some(found@)),
                Ok(None) => Ok(None),
                Err(said) => Err(said@),
            },
        ) {
            Ok(found) => channel matches Ok(held) && held@ == found,
            Err((named, detail)) => channel matches Err(DoctorError::Toolchain { path: told, detail: why })
                && told@ == named && why@ == detail,
        },
{
    match reading {
        Ok(Some(found)) => Ok(found),
        Ok(None) => Err(DoctorError::Toolchain { path: path.to_owned(), detail: "no toolchain.channel".to_owned() }),
        Err(said) => Err(DoctorError::Toolchain { path: path.to_owned(), detail: said }),
    }
}

/// The channel the toolchain file at `path` pins, from its text.
///
/// [`DoctorError::Toolchain`] when the text does not parse or names no
/// channel.
pub fn pinned_channel(path: &str, text: &str) -> (channel: Result<String, DoctorError>)
    ensures
        match channel_reading(path@, toml_channel(text@)) {
            Ok(found) => channel matches Ok(held) && held@ == found,
            Err((named, detail)) => channel matches Err(DoctorError::Toolchain { path: told, detail: why })
                && told@ == named && why@ == detail,
        },
{
    channel_from(path, parsed_channel(text))
}


/// Whether a prerequisite is the one described: its name, program,
/// arguments, expected output and install hint.
pub open spec fn described(
    prerequisite: Prerequisite,
    name: Seq<char>,
    program: Seq<char>,
    arguments: Seq<Seq<char>>,
    expected: Option<Seq<char>>,
    install: Seq<char>,
) -> bool {
    &&& prerequisite.name@ == name
    &&& prerequisite.program@ == program
    &&& texts_of(prerequisite.arguments@) == arguments
    &&& match (prerequisite.expected_output, expected) {
        (None, None) => true,
        (Some(held), Some(wanted)) => held@ == wanted,
        _ => false,
    }
    &&& prerequisite.install@ == install
}

/// The prerequisites, in the order they are listed for a working checkout,
/// the toolchain's expected version the channel the repository pins.
pub fn prerequisites(channel: &str) -> (listed: Vec<Prerequisite>)
    ensures
        listed@.len() == 7,
        described(listed@[0], "rust toolchain "@ + channel@, "cargo"@, seq!["--version"@], Some(channel@),
            "rustup toolchain install "@ + channel@ + "; rustup does it on first use inside this repository"@),
        described(listed@[1], "cargo-nextest"@, "cargo"@, seq!["nextest"@, "--version"@], None,
            "cargo install cargo-nextest --locked"@),
        described(listed@[2], "podman with the netavark network backend"@, "podman"@,
            seq!["info"@, "--format"@, "{{.Host.NetworkBackend}}"@], Some("netavark"@),
            PODMAN_INSTALL@),
        described(listed@[3], "zig"@, "zig"@, seq!["version"@], None,
            "install zig from https://ziglang.org/download/ and put it on PATH"@),
        described(listed@[4], "x86_64-linux-musl-gcc"@, "x86_64-linux-musl-gcc"@, seq!["--version"@], None,
            "install a musl cross-compiler under that name: a musl.cc toolchain, or a shim over `zig cc -target x86_64-linux-musl`"@),
        described(listed@[5], "aarch64-linux-musl-gcc"@, "aarch64-linux-musl-gcc"@, seq!["--version"@], None,
            "install a musl cross-compiler under that name: a musl.cc toolchain, or a shim over `zig cc -target aarch64-linux-musl`"@),
        described(listed@[6], "git"@, "git"@, seq!["--version"@], None,
            "install git from your distribution (Debian and Ubuntu: apt install git)"@),
{
    let mut name: Vec<char> = Vec::new();
    extend_str(&mut name, "rust toolchain ");
    extend_str(&mut name, channel);
    let mut install: Vec<char> = Vec::new();
    extend_str(&mut install, "rustup toolchain install ");
    extend_str(&mut install, channel);
    extend_str(&mut install, "; rustup does it on first use inside this repository");
    let listed = vec![
        Prerequisite {
            name: string_of(name.as_slice()),
            program: "cargo",
            arguments: vec!["--version"],
            expected_output: Some(channel.to_owned()),
            install: string_of(install.as_slice()),
        },
        Prerequisite {
            name: "cargo-nextest".to_owned(),
            program: "cargo",
            arguments: vec!["nextest", "--version"],
            expected_output: None,
            install: "cargo install cargo-nextest --locked".to_owned(),
        },
        Prerequisite {
            name: "podman with the netavark network backend".to_owned(),
            program: "podman",
            arguments: vec!["info", "--format", "{{.Host.NetworkBackend}}"],
            expected_output: Some("netavark".to_owned()),
            install: PODMAN_INSTALL.to_owned(),
        },
        Prerequisite {
            name: "zig".to_owned(),
            program: "zig",
            arguments: vec!["version"],
            expected_output: None,
            install: "install zig from https://ziglang.org/download/ and put it on PATH".to_owned(),
        },
        Prerequisite {
            name: "x86_64-linux-musl-gcc".to_owned(),
            program: "x86_64-linux-musl-gcc",
            arguments: vec!["--version"],
            expected_output: None,
            install: "install a musl cross-compiler under that name: a musl.cc toolchain, or a shim over `zig cc -target x86_64-linux-musl`".to_owned(),
        },
        Prerequisite {
            name: "aarch64-linux-musl-gcc".to_owned(),
            program: "aarch64-linux-musl-gcc",
            arguments: vec!["--version"],
            expected_output: None,
            install: "install a musl cross-compiler under that name: a musl.cc toolchain, or a shim over `zig cc -target aarch64-linux-musl`".to_owned(),
        },
        Prerequisite {
            name: "git".to_owned(),
            program: "git",
            arguments: vec!["--version"],
            expected_output: None,
            install: "install git from your distribution (Debian and Ubuntu: apt install git)".to_owned(),
        },
    ];
    proof {
        assert(texts_of(listed@[0].arguments@) =~= seq!["--version"@]);
        assert(texts_of(listed@[1].arguments@) =~= seq!["nextest"@, "--version"@]);
        assert(texts_of(listed@[2].arguments@) =~= seq!["info"@, "--format"@, "{{.Host.NetworkBackend}}"@]);
        assert(texts_of(listed@[3].arguments@) =~= seq!["version"@]);
        assert(texts_of(listed@[4].arguments@) =~= seq!["--version"@]);
        assert(texts_of(listed@[5].arguments@) =~= seq!["--version"@]);
        assert(texts_of(listed@[6].arguments@) =~= seq!["--version"@]);
    }
    listed
}

/// How podman and netavark are installed.
pub const PODMAN_INSTALL: &'static str = "install podman and netavark from your distribution (Debian and Ubuntu: apt install podman netavark); if podman reports another backend, set network_backend = \"netavark\" in containers.conf";

/// What a probe said on its standard error, ready to append to a reason;
/// nothing when it said nothing.
pub open spec fn said_text(stderr_tail: Seq<char>) -> Seq<char> {
    if trim(stderr_tail).len() == 0 {
        Seq::empty()
    } else {
        "; it said: "@ + trim(stderr_tail)
    }
}

/// What a probe said on its standard error, ready to append to a reason.
pub fn said(stderr_tail: &str) -> (appended: String)
    ensures
        appended@ == said_text(stderr_tail@),
{
    let trimmed_tail = trimmed(chars_of(stderr_tail).as_slice());
    if trimmed_tail.len() == 0 {
        return string_of(Vec::<char>::new().as_slice());
    }
    let mut held: Vec<char> = Vec::new();
    extend_str(&mut held, "; it said: ");
    extend(&mut held, trimmed_tail.as_slice());
    string_of(held.as_slice())
}

/// Why a probe could not be run to an answer, as the process runner says it.
#[derive(Clone, Debug)]
pub enum ProbeFailure {
    /// The program is not on `PATH`.
    NotFound {
        /// The program.
        program: String,
    },
    /// The program could not be started for another reason.
    Spawn {
        /// The program.
        program: String,
        /// What the operating system said.
        detail: String,
    },
    /// The program did not finish within its deadline.
    TimedOut {
        /// The deadline, as the runner prints a duration.
        deadline: String,
        /// The end of what it said on standard error.
        stderr_tail: String,
    },
    /// The program exited unsuccessfully.
    Failed {
        /// Its exit status, as the runner prints one.
        status: String,
        /// The end of what it said on standard error.
        stderr_tail: String,
    },
    /// The program could not be watched to its end.
    Wait {
        /// What went wrong.
        detail: String,
    },
}

/// What a failed probe means to a person, with what the probe said.
pub open spec fn description(prerequisite: Prerequisite, failure: ProbeFailure) -> Seq<char> {
    match failure {
        ProbeFailure::NotFound { program } => "`"@ + program@ + "` is not on PATH"@,
        ProbeFailure::Spawn { program, detail } => "`"@ + program@ + "` could not be started: "@ + detail@,
        ProbeFailure::TimedOut { deadline, stderr_tail } => "`"@ + probe_text(prerequisite)
            + "` did not finish within "@ + deadline@ + said_text(stderr_tail@),
        ProbeFailure::Failed { status, stderr_tail } => "`"@ + probe_text(prerequisite) + "` failed with "@
            + status@ + said_text(stderr_tail@),
        ProbeFailure::Wait { detail } => "`"@ + probe_text(prerequisite)
            + "` could not be watched to its end: "@ + detail@,
    }
}

/// What a failed probe means to a person, with what the probe said.
pub fn describe(prerequisite: &Prerequisite, failure: &ProbeFailure) -> (reason: String)
    ensures
        reason@ == description(*prerequisite, *failure),
{
    let mut held: Vec<char> = Vec::new();
    extend_str(&mut held, "`");
    match failure {
        ProbeFailure::NotFound { program } => {
            extend_str(&mut held, program.as_str());
            extend_str(&mut held, "` is not on PATH");
        },
        ProbeFailure::Spawn { program, detail } => {
            extend_str(&mut held, program.as_str());
            extend_str(&mut held, "` could not be started: ");
            extend_str(&mut held, detail.as_str());
        },
        ProbeFailure::TimedOut { deadline, stderr_tail } => {
            extend_str(&mut held, prerequisite.probe_line().as_str());
            extend_str(&mut held, "` did not finish within ");
            extend_str(&mut held, deadline.as_str());
            extend_str(&mut held, said(stderr_tail.as_str()).as_str());
        },
        ProbeFailure::Failed { status, stderr_tail } => {
            extend_str(&mut held, prerequisite.probe_line().as_str());
            extend_str(&mut held, "` failed with ");
            extend_str(&mut held, status.as_str());
            extend_str(&mut held, said(stderr_tail.as_str()).as_str());
        },
        ProbeFailure::Wait { detail } => {
            extend_str(&mut held, prerequisite.probe_line().as_str());
            extend_str(&mut held, "` could not be watched to its end: ");
            extend_str(&mut held, detail.as_str());
        },
    }
    string_of(held.as_slice())
}

/// What a probe that ran means: present when nothing is expected of its
/// output or its output holds what is, and otherwise why not.
pub open spec fn output_verdict(prerequisite: Prerequisite, output: Seq<char>) -> Result<(), Seq<char>> {
    match prerequisite.expected_output {
        None => Ok(()),
        Some(expected) => if contains(output, expected@) {
            Ok(())
        } else {
            Err("`"@ + probe_text(prerequisite) + "` reports "@ + trim(output) + " rather than "@ + expected@)
        },
    }
}

/// What a probe that ran means, from what it printed.
pub fn judge_output(prerequisite: &Prerequisite, output: &str) -> (verdict: Result<(), String>)
    ensures
        match output_verdict(*prerequisite, output@) {
            Ok(()) => verdict is Ok,
            Err(why) => verdict matches Err(told) && told@ == why,
        },
{
    match &prerequisite.expected_output {
        None => Ok(()),
        Some(expected) => {
            let printed = chars_of(output);
            if holds(printed.as_slice(), chars_of(expected.as_str()).as_slice()) {
                return Ok(());
            }
            let mut held: Vec<char> = Vec::new();
            extend_str(&mut held, "`");
            extend_str(&mut held, prerequisite.probe_line().as_str());
            extend_str(&mut held, "` reports ");
            extend(&mut held, trimmed(printed.as_slice()).as_slice());
            extend_str(&mut held, " rather than ");
            extend_str(&mut held, expected.as_str());
            Err(string_of(held.as_slice()))
        },
    }
}

/// Every prerequisite with its probe's verdict, in order: present, as it
/// was given, or missing with the reason.
pub fn examine(prerequisites: Vec<Prerequisite>, verdicts: Vec<Result<(), String>>) -> (examined: Vec<Result<Prerequisite, Missing>>)
    requires
        prerequisites@.len() == verdicts@.len(),
    ensures
        examined@.len() == prerequisites@.len(),
        forall|index: int| 0 <= index < examined@.len() ==> match (#[trigger] verdicts@[index], examined@[index]) {
            (Ok(()), Ok(present)) => present == prerequisites@[index],
            (Err(reason), Err(absent)) => absent.name == prerequisites@[index].name && absent.reason == reason
                && absent.install == prerequisites@[index].install,
            _ => false,
        },
{
    let mut pending = prerequisites;
    let mut examined: Vec<Result<Prerequisite, Missing>> = Vec::new();
    let mut index: usize = 0;
    while index < verdicts.len()
        invariant
            index <= verdicts@.len(),
            prerequisites@.len() == verdicts@.len(),
            pending@ == prerequisites@.subrange(index as int, prerequisites@.len() as int),
            examined@.len() == index,
            forall|at: int| 0 <= at < index ==> match (#[trigger] verdicts@[at], examined@[at]) {
                (Ok(()), Ok(present)) => present == prerequisites@[at],
                (Err(reason), Err(absent)) => absent.name == prerequisites@[at].name && absent.reason == reason
                    && absent.install == prerequisites@[at].install,
                _ => false,
            },
        decreases verdicts@.len() - index,
    {
        let prerequisite = pending.remove(0);
        assert(prerequisite == prerequisites@[index as int]);
        assert(pending@ =~= prerequisites@.subrange(index + 1, prerequisites@.len() as int));
        let outcome = match &verdicts[index] {
            Ok(()) => Ok(prerequisite),
            Err(reason) => Err(Missing { name: prerequisite.name, reason: reason.clone(), install: prerequisite.install }),
        };
        examined.push(outcome);
        index = index + 1;
    }
    examined
}

/// The prerequisites found missing, in order.
pub open spec fn missing_of(examined: Seq<Result<Prerequisite, Missing>>) -> Seq<Missing>
    decreases examined.len(),
{
    if examined.len() == 0 {
        Seq::empty()
    } else {
        match examined.last() {
            Ok(present) => missing_of(examined.drop_last()),
            Err(absent) => missing_of(examined.drop_last()).push(absent),
        }
    }
}

/// Every prerequisite that is missing, in order.
pub fn missing(examined: &Vec<Result<Prerequisite, Missing>>) -> (absent: Vec<Missing>)
    ensures
        absent@ == missing_of(examined@),
{
    let mut absent: Vec<Missing> = Vec::new();
    let mut index: usize = 0;
    while index < examined.len()
        invariant
            index <= examined@.len(),
            absent@ == missing_of(examined@.subrange(0, index as int)),
        decreases examined@.len() - index,
    {
        assert(examined@.subrange(0, index + 1).drop_last() =~= examined@.subrange(0, index as int));
        match &examined[index] {
            Ok(_) => {},
            Err(held) => {
                let copy = Missing { name: held.name.clone(), reason: held.reason.clone(), install: held.install.clone() };
                absent.push(copy);
            },
        }
        index = index + 1;
    }
    assert(examined@.subrange(0, examined@.len() as int) =~= examined@);
    absent
}

} // verus!
