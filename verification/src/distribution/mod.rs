//! Release artifacts: which triples are built and how, what their headers
//! say, the digest and the manifest written beside each, and the protocol
//! version a manifest carries. Building and writing files is the caller's.
use vstd::prelude::*;

pub mod launch;
pub mod linux;
pub mod shape;

use crate::golden::{encoded, hex};
use crate::claims::selection::{join, joined_with};
use crate::gate::texts_of;
use crate::text::{
    chars_of, decimal, decimal_chars, extend, extend_str, lines, lines_of, parse_unsigned, parsed,
    slice_of, starts_with, begins_with, string_of, trim, trim_end, trimmed, views_of,
};

verus! {

/// The most one artifact may weigh: twenty-four mebibytes.
pub const ARTIFACT_SIZE_CEILING: u64 = 24 * 1024 * 1024;

/// The binary that is distributed.
pub const BINARY: &'static str = "iznik-server";

/// Where artifacts are put, under cargo's target directory.
pub const DISTRIBUTION_DIRECTORY: &'static str = "distribution";

/// The checksum file beside every artifact.
pub const CHECKSUMS: &'static str = "SHA256SUMS";

/// The manifest beside it.
pub const MANIFEST: &'static str = "manifest.toml";

/// The flag the subcommand takes.
pub const TARGET_FLAG: &'static str = "--target";

/// Where the protocol version is declared.
pub const PROTOCOL_SOURCE: &'static str = "crates/iznik-protocol/src/message.rs";

/// The line it is declared on.
pub const PROTOCOL_DECLARATION: &'static str = "pub const PROTOCOL_VERSION: u16 = ";

/// Why an artifact could not be made.
#[derive(Debug)]
pub enum DistributionError {
    /// The triple is not one this knows how to build.
    UnknownTarget {
        /// What was asked for.
        target: String,
    },
    /// The build failed, or the toolchain for it is not there.
    Build {
        /// What was asked for.
        target: String,
        /// What the build said.
        detail: String,
    },
    /// A file could not be read, written or copied.
    Io {
        /// The file.
        path: String,
        /// What the operating system said.
        detail: String,
    },
    /// The artifact is bigger than the ceiling.
    Oversize {
        /// How big it is.
        bytes: u64,
        /// What it may be.
        ceiling: u64,
    },
    /// A file this reads does not hold what it was read for.
    Unreadable {
        /// The file.
        path: String,
        /// What it was read for, as a person would say it.
        wanted: String,
    },
}

/// What a distribution error says.
pub open spec fn distribution_message(error: DistributionError) -> Seq<char> {
    match error {
        DistributionError::UnknownTarget { target } => target@ + ": not a target this builds for"@,
        DistributionError::Build { target, detail } => target@ + ": "@ + detail@,
        DistributionError::Io { path, detail } => path@ + ": "@ + detail@,
        DistributionError::Oversize { bytes, ceiling } => "the artifact is "@ + decimal(bytes as nat)
            + " bytes, over the "@ + decimal(ceiling as nat) + " ceiling"@,
        DistributionError::Unreadable { path, wanted } => path@ + ": does not hold "@ + wanted@,
    }
}

impl DistributionError {
    /// What went wrong, in words.
    pub fn message(&self) -> (said: String)
        ensures
            said@ == distribution_message(*self),
    {
        let mut held: Vec<char> = Vec::new();
        match self {
            DistributionError::UnknownTarget { target } => {
                extend_str(&mut held, target.as_str());
                extend_str(&mut held, ": not a target this builds for");
            },
            DistributionError::Build { target, detail } => {
                extend_str(&mut held, target.as_str());
                extend_str(&mut held, ": ");
                extend_str(&mut held, detail.as_str());
            },
            DistributionError::Io { path, detail } => {
                extend_str(&mut held, path.as_str());
                extend_str(&mut held, ": ");
                extend_str(&mut held, detail.as_str());
            },
            DistributionError::Oversize { bytes, ceiling } => {
                extend_str(&mut held, "the artifact is ");
                extend(&mut held, decimal_chars(*bytes).as_slice());
                extend_str(&mut held, " bytes, over the ");
                extend(&mut held, decimal_chars(*ceiling).as_slice());
                extend_str(&mut held, " ceiling");
            },
            DistributionError::Unreadable { path, wanted } => {
                extend_str(&mut held, path.as_str());
                extend_str(&mut held, ": does not hold ");
                extend_str(&mut held, wanted.as_str());
            },
        }
        string_of(held.as_slice())
    }
}

/// One built artifact.
#[derive(Clone, Debug)]
pub struct Artifact {
    /// The triple it was built for.
    pub target: String,
    /// Where it is.
    pub path: String,
    /// Its `SHA256` digest, in hexadecimal.
    pub digest: String,
    /// How many bytes it is.
    pub bytes: u64,
}

/// The `SHA256` digest of some bytes, as `sha2` computes it.
pub uninterp spec fn sha256(data: Seq<u8>) -> Seq<u8>;

/// The `SHA256` digest of some bytes, by `sha2::Sha256::digest`: thirty-two
/// bytes, the ones `sha2` computes for these bytes.
#[verifier::external_body]
fn sha256_of(data: &[u8]) -> (digest: Vec<u8>)
    ensures
        digest@ == sha256(data@),
        digest@.len() == 32,
{
    <sha2::Sha256 as sha2::Digest>::digest(data).to_vec()
}

/// The `SHA256` of an artifact's bytes, in lowercase hexadecimal.
pub fn digest_of(data: &[u8]) -> (digest: String)
    ensures
        digest@ == encoded(sha256(data@)),
        digest@.len() == 64,
{
    let raw = sha256_of(data);
    hex(raw.as_slice())
}

/// Which family of triples a target belongs to, which decides how it is
/// built.
#[derive(Clone, Copy, Debug, PartialEq, Eq, Structural)]
pub enum Platform {
    /// The Linux musl targets.
    Linux,
    /// The Apple targets.
    Darwin,
    /// The Windows targets.
    Windows,
}

/// The Apple triples this builds for.
pub open spec fn darwin_targets() -> Seq<Seq<char>> {
    seq!["aarch64-apple-darwin"@, "x86_64-apple-darwin"@]
}

/// The Windows triples this builds for.
pub open spec fn windows_targets() -> Seq<Seq<char>> {
    seq!["x86_64-pc-windows-msvc"@, "aarch64-pc-windows-msvc"@]
}

/// Which family a triple belongs to, if any.
pub open spec fn platform_of(target: Seq<char>) -> Option<Platform> {
    if crate::distribution::linux::linux_targets().contains(target) {
        Some(Platform::Linux)
    } else if darwin_targets().contains(target) {
        Some(Platform::Darwin)
    } else if windows_targets().contains(target) {
        Some(Platform::Windows)
    } else {
        None
    }
}

/// Whether some characters are one of some texts.
fn among(text: &[char], choices: &[&str]) -> (found: bool)
    ensures
        found == texts_of(choices@).contains(text@),
{
    let mut index: usize = 0;
    while index < choices.len()
        invariant
            index <= choices@.len(),
            forall|at: int| 0 <= at < index ==> #[trigger] choices@[at]@ != text@,
        decreases choices@.len() - index,
    {
        if crate::text::spells(text, choices[index]) {
            assert(texts_of(choices@)[index as int] == text@);
            return true;
        }
        index = index + 1;
    }
    proof {
        if texts_of(choices@).contains(text@) {
            let at = choose|at: int| 0 <= at < texts_of(choices@).len() && texts_of(choices@)[at] == text@;
            assert(choices@[at]@ == text@);
        }
    }
    false
}

/// Which family a triple belongs to: [`DistributionError::UnknownTarget`]
/// for one this does not build.
pub fn platform(target: &str) -> (family: Result<Platform, DistributionError>)
    ensures
        match platform_of(target@) {
            Some(found) => family == Ok::<Platform, DistributionError>(found),
            None => family matches Err(DistributionError::UnknownTarget { target: named }) && named@ == target@,
        },
        family is Ok <==> every_target().contains(target@),
        family == Ok::<Platform, DistributionError>(Platform::Darwin) <==> darwin_targets().contains(target@),
{
    proof {
        lemma_platform_families(target@);
    }
    let text = chars_of(target);
    let linux = crate::distribution::linux::targets();
    let darwin = vec!["aarch64-apple-darwin", "x86_64-apple-darwin"];
    let windows = vec!["x86_64-pc-windows-msvc", "aarch64-pc-windows-msvc"];
    assert(texts_of(darwin@) =~= darwin_targets());
    assert(texts_of(windows@) =~= windows_targets());
    if among(text.as_slice(), linux.as_slice()) {
        Ok(Platform::Linux)
    } else if among(text.as_slice(), darwin.as_slice()) {
        Ok(Platform::Darwin)
    } else if among(text.as_slice(), windows.as_slice()) {
        Ok(Platform::Windows)
    } else {
        Err(DistributionError::UnknownTarget { target: target.to_owned() })
    }
}

/// The triples of the three families are all different.
proof fn lemma_targets_differ()
    ensures
        forall|index: int, other: int|
            0 <= index < every_target().len() && 0 <= other < every_target().len() && index != other
                ==> #[trigger] every_target()[index] != #[trigger] every_target()[other],
{
    reveal_strlit("x86_64-unknown-linux-musl");
    reveal_strlit("aarch64-unknown-linux-musl");
    reveal_strlit("aarch64-apple-darwin");
    reveal_strlit("x86_64-apple-darwin");
    reveal_strlit("x86_64-pc-windows-msvc");
    reveal_strlit("aarch64-pc-windows-msvc");
    let every = every_target();
    assert(every =~= seq![
        "x86_64-unknown-linux-musl"@,
        "aarch64-unknown-linux-musl"@,
        "aarch64-apple-darwin"@,
        "x86_64-apple-darwin"@,
        "x86_64-pc-windows-msvc"@,
        "aarch64-pc-windows-msvc"@,
    ]);
    assert forall|index: int, other: int|
        0 <= index < every.len() && 0 <= other < every.len() && index != other implies #[trigger] every[index]
            != #[trigger] every[other] by {
        assert(every[index].len() != every[other].len());
    }
}

/// Every triple the usage line names is built, and nothing else is: each
/// belongs to exactly the family whose list holds it, the Linux triples
/// built as Linux, the Apple ones as Darwin and the Windows ones as Windows.
pub proof fn lemma_platform_families(target: Seq<char>)
    ensures
        platform_of(target) is Some <==> every_target().contains(target),
        platform_of(target) == Some(Platform::Linux) <==> crate::distribution::linux::linux_targets().contains(target),
        platform_of(target) == Some(Platform::Darwin) <==> darwin_targets().contains(target),
        platform_of(target) == Some(Platform::Windows) <==> windows_targets().contains(target),
{
    lemma_targets_differ();
    let linux = crate::distribution::linux::linux_targets();
    let every = every_target();
    assert(every[0] == linux[0] && every[1] == linux[1]);
    assert(every[2] == darwin_targets()[0] && every[3] == darwin_targets()[1]);
    assert(every[4] == windows_targets()[0] && every[5] == windows_targets()[1]);
    if every.contains(target) {
        let index = choose|index: int| 0 <= index < every.len() && every[index] == target;
        if index < 2 {
            assert(linux.contains(target));
        } else if index < 4 {
            assert(darwin_targets()[index - 2] == target);
        } else {
            assert(windows_targets()[index - 4] == target);
        }
    }
    if linux.contains(target) {
        let index = choose|index: int| 0 <= index < linux.len() && linux[index] == target;
        assert(every[index] == target);
    }
    if darwin_targets().contains(target) {
        let index = choose|index: int| 0 <= index < 2 && darwin_targets()[index] == target;
        assert(every[index + 2] == target);
        assert(!linux.contains(target)) by {
            if linux.contains(target) {
                let other = choose|other: int| 0 <= other < linux.len() && linux[other] == target;
                assert(every[other] == every[index + 2]);
            }
        }
    }
    if windows_targets().contains(target) {
        let index = choose|index: int| 0 <= index < 2 && windows_targets()[index] == target;
        assert(every[index + 4] == target);
        assert(!linux.contains(target)) by {
            if linux.contains(target) {
                let other = choose|other: int| 0 <= other < linux.len() && linux[other] == target;
                assert(every[other] == every[index + 4]);
            }
        }
        assert(!darwin_targets().contains(target)) by {
            if darwin_targets().contains(target) {
                let other = choose|other: int| 0 <= other < 2 && darwin_targets()[other] == target;
                assert(every[other + 2] == every[index + 4]);
            }
        }
    }
}

/// Whether an artifact of so many bytes is within the ceiling:
/// [`DistributionError::Oversize`] when it is not.
pub fn within_ceiling(bytes: u64) -> (checked: Result<(), DistributionError>)
    ensures
        bytes <= ARTIFACT_SIZE_CEILING ==> checked is Ok,
        bytes > ARTIFACT_SIZE_CEILING ==> (checked matches Err(DistributionError::Oversize { bytes: told, ceiling })
            && told == bytes && ceiling == ARTIFACT_SIZE_CEILING),
{
    if bytes > ARTIFACT_SIZE_CEILING {
        Err(DistributionError::Oversize { bytes, ceiling: ARTIFACT_SIZE_CEILING })
    } else {
        Ok(())
    }
}

/// The checksum line beside an artifact, in the shape `sha256sum -c` reads:
/// the digest, two spaces, the binary's name.
pub open spec fn checksum_text(digest: Seq<char>) -> Seq<char> {
    digest + "  "@ + BINARY@ + "\n"@
}

/// The checksum line beside an artifact, in the shape `sha256sum -c` reads:
/// the digest, two spaces, the binary's name.
pub fn checksum_line(digest: &str) -> (line: String)
    ensures
        line@ == checksum_text(digest@),
{
    let mut held: Vec<char> = Vec::new();
    extend_str(&mut held, digest);
    extend_str(&mut held, "  ");
    extend_str(&mut held, BINARY);
    extend_str(&mut held, "\n");
    string_of(held.as_slice())
}

/// The manifest beside an artifact.
pub open spec fn manifest_text(crate_version: Seq<char>, protocol: u16, artifact: Artifact) -> Seq<char> {
    "crate_version = \""@ + crate_version + "\"\nprotocol_version = "@ + decimal(protocol as nat)
        + "\ntarget = \""@ + artifact.target@ + "\"\nbinary = \""@ + BINARY@ + "\"\nbytes = "@ + decimal(
        artifact.bytes as nat,
    ) + "\nsha256 = \""@ + artifact.digest@ + "\"\n"@
}

/// The manifest beside an artifact: the crate's version, the protocol it
/// speaks, the triple, the binary, its size and its digest.
pub fn manifest(crate_version: &str, protocol: u16, artifact: &Artifact) -> (said: String)
    ensures
        said@ == manifest_text(crate_version@, protocol, *artifact),
{
    let mut held: Vec<char> = Vec::new();
    extend_str(&mut held, "crate_version = \"");
    extend_str(&mut held, crate_version);
    extend_str(&mut held, "\"\nprotocol_version = ");
    extend(&mut held, decimal_chars(protocol as u64).as_slice());
    extend_str(&mut held, "\ntarget = \"");
    extend_str(&mut held, artifact.target.as_str());
    extend_str(&mut held, "\"\nbinary = \"");
    extend_str(&mut held, BINARY);
    extend_str(&mut held, "\"\nbytes = ");
    extend(&mut held, decimal_chars(artifact.bytes).as_slice());
    extend_str(&mut held, "\nsha256 = \"");
    extend_str(&mut held, artifact.digest.as_str());
    extend_str(&mut held, "\"\n");
    string_of(held.as_slice())
}


/// The checksum file and the manifest beside an artifact name one digest:
/// the checksum line begins with it, and the manifest's last line gives it
/// as `sha256`.
pub proof fn lemma_sums_and_manifest_agree(crate_version: Seq<char>, protocol: u16, artifact: Artifact)
    ensures
        starts_with(checksum_text(artifact.digest@), artifact.digest@),
        crate::text::ends_with(manifest_text(crate_version, protocol, artifact), "sha256 = \""@ + artifact.digest@ + "\"\n"@),
{
    let sums = checksum_text(artifact.digest@);
    assert(sums.subrange(0, artifact.digest@.len() as int) =~= artifact.digest@);
    let said = manifest_text(crate_version, protocol, artifact);
    let tail = "sha256 = \""@ + artifact.digest@ + "\"\n"@;
    let head = "crate_version = \""@ + crate_version + "\"\nprotocol_version = "@ + decimal(protocol as nat)
        + "\ntarget = \""@ + artifact.target@ + "\"\nbinary = \""@ + BINARY@ + "\"\nbytes = "@ + decimal(
        artifact.bytes as nat,
    ) + "\n"@;
    reveal_strlit("\nsha256 = \"");
    reveal_strlit("sha256 = \"");
    reveal_strlit("\n");
    assert("\nsha256 = \""@ =~= "\n"@ + "sha256 = \""@);
    assert(said =~= head + tail);
    assert(said.subrange(said.len() - tail.len(), said.len() as int) =~= tail);
}

/// A text without the copies of one character at its end./// A text without the copies of one character at its end.
pub open spec fn without_trailing(text: Seq<char>, edge: char) -> Seq<char>
    decreases text.len(),
{
    if text.len() > 0 && text.last() == edge {
        without_trailing(text.drop_last(), edge)
    } else {
        text
    }
}

/// The protocol version a source declares: on the first line that, trimmed,
/// begins with the declaration, what follows it less the semicolons that end
/// it, trimmed, read as a `u16`.
pub open spec fn declared_protocol(every: Seq<Seq<char>>) -> Option<nat>
    decreases every.len(),
{
    if every.len() == 0 {
        None
    } else if starts_with(trim(every[0]), PROTOCOL_DECLARATION@) {
        let rest = trim(every[0]).subrange(PROTOCOL_DECLARATION@.len() as int, trim(every[0]).len() as int);
        parsed(trim(without_trailing(rest, ';')), u16::MAX as nat)
    } else {
        declared_protocol(every.drop_first())
    }
}

/// What a protocol version that cannot be found was wanted as.
pub open spec fn protocol_wanted() -> Seq<char> {
    "the protocol version, declared as `"@ + PROTOCOL_DECLARATION@ + "`"@
}

/// The protocol version the distributed binary speaks, read from the source
/// that declares it, given as `path` and its text.
///
/// [`DistributionError::Unreadable`] when the declaration is not where this
/// expects it.
pub fn protocol_version(path: &str, source: &str) -> (version: Result<u16, DistributionError>)
    ensures
        match declared_protocol(lines(source@)) {
            Some(found) => version matches Ok(value) && value == found,
            None => version matches Err(DistributionError::Unreadable { path: named, wanted }) && named@ == path@
                && wanted@ == protocol_wanted(),
        },
{
    let every = lines_of(chars_of(source).as_slice());
    let ghost all = lines(source@);
    let declaration = chars_of(PROTOCOL_DECLARATION);
    let mut index: usize = 0;
    assert(all.subrange(0, all.len() as int) =~= all);
    while index < every.len()
        invariant
            index <= every@.len(),
            every@.len() == all.len(),
            all == lines(source@),
            declaration@ == PROTOCOL_DECLARATION@,
            forall|at: int| 0 <= at < every@.len() ==> #[trigger] every@[at]@ == all[at],
            declared_protocol(all) == declared_protocol(all.subrange(index as int, all.len() as int)),
        decreases every@.len() - index,
    {
        let ghost rest = all.subrange(index as int, all.len() as int);
        assert(rest.drop_first() =~= all.subrange(index + 1, all.len() as int));
        assert(rest[0] == every@[index as int]@);
        let line = trimmed(every[index].as_slice());
        if begins_with(line.as_slice(), declaration.as_slice()) {
            let after = slice_of(line.as_slice(), declaration.len(), line.len());
            let mut end = after.len();
            assert(after@.subrange(0, after@.len() as int) =~= after@);
            while end > 0 && after[end - 1] == ';'
                invariant
                    end <= after@.len(),
                    without_trailing(after@, ';') == without_trailing(after@.subrange(0, end as int), ';'),
                decreases end,
            {
                assert(after@.subrange(0, end as int).drop_last() =~= after@.subrange(0, end - 1));
                end = end - 1;
            }
            let kept = slice_of(after.as_slice(), 0, end);
            let number = trimmed(kept.as_slice());
            match parse_unsigned(number.as_slice(), u16::MAX as u64) {
                Some(value) => {
                    return Ok(value as u16);
                },
                None => {
                    return Err(protocol_unreadable(path));
                },
            }
        }
        index = index + 1;
    }
    Err(protocol_unreadable(path))
}

/// The refusal for a source whose protocol version cannot be found.
fn protocol_unreadable(path: &str) -> (error: DistributionError)
    ensures
        error matches DistributionError::Unreadable { path: named, wanted } && named@ == path@
            && wanted@ == protocol_wanted(),
{
    let mut wanted: Vec<char> = Vec::new();
    extend_str(&mut wanted, "the protocol version, declared as `");
    extend_str(&mut wanted, PROTOCOL_DECLARATION);
    extend_str(&mut wanted, "`");
    DistributionError::Unreadable { path: path.to_owned(), wanted: string_of(wanted.as_slice()) }
}


/// Every triple this builds for, in the order a usage line lists them.
pub open spec fn every_target() -> Seq<Seq<char>> {
    crate::distribution::linux::linux_targets() + darwin_targets() + windows_targets()
}

/// What the subcommand takes: the one triple to build for.
pub open spec fn usage_text() -> Seq<char> {
    "usage: xtask distribution "@ + TARGET_FLAG@ + " <"@ + joined_with(every_target(), " | "@) + ">"@
}

/// What the subcommand takes, every triple it builds for named.
pub fn usage_line() -> (said: String)
    ensures
        said@ == usage_text(),
{
    let linux = crate::distribution::linux::targets();
    let mut triples: Vec<String> = Vec::new();
    let mut index: usize = 0;
    while index < linux.len()
        invariant
            index <= linux@.len(),
            texts_of(linux@) == crate::distribution::linux::linux_targets(),
            views_of(triples@) == texts_of(linux@).subrange(0, index as int),
        decreases linux@.len() - index,
    {
        let ghost before = triples@;
        triples.push(linux[index].to_owned());
        assert(views_of(triples@) =~= views_of(before).push(linux@[index as int]@));
        assert(texts_of(linux@).subrange(0, index + 1) =~= texts_of(linux@).subrange(0, index as int).push(linux@[index as int]@));
        index = index + 1;
    }
    assert(texts_of(linux@).subrange(0, linux@.len() as int) =~= texts_of(linux@));
    let ghost before = triples@;
    triples.push("aarch64-apple-darwin".to_owned());
    triples.push("x86_64-apple-darwin".to_owned());
    triples.push("x86_64-pc-windows-msvc".to_owned());
    triples.push("aarch64-pc-windows-msvc".to_owned());
    assert(views_of(triples@) =~= every_target());
    let mut held: Vec<char> = Vec::new();
    extend_str(&mut held, "usage: xtask distribution ");
    extend_str(&mut held, TARGET_FLAG);
    extend_str(&mut held, " <");
    extend(&mut held, join(triples.as_slice(), " | ").as_slice());
    extend_str(&mut held, ">");
    string_of(held.as_slice())
}

/// What a command line, after its subcommand, asks to be built: the triple
/// after the last `--target`; or why it cannot be acted on — a flag other
/// than `--target`, a `--target` with nothing after it, or no target at all.
pub open spec fn target_asked(arguments: Seq<Seq<char>>, wanted: Option<Seq<char>>) -> Result<Seq<char>, Seq<char>>
    decreases arguments.len(),
{
    if arguments.len() == 0 {
        match wanted {
            Some(target) => Ok(target),
            None => Err(usage_text()),
        }
    } else if arguments[0] != TARGET_FLAG@ {
        Err(arguments[0] + ": unknown flag"@)
    } else if arguments.len() < 2 {
        Err(TARGET_FLAG@ + ": a triple must follow"@)
    } else {
        target_asked(arguments.subrange(2, arguments.len() as int), Some(arguments[1]))
    }
}

/// The triple a command line asks to be built, or the refusal to print.
pub fn asked_target(arguments: &[String]) -> (asked: Result<String, String>)
    ensures
        arguments@.len() > 0 ==> match target_asked(views_of(arguments@).drop_first(), None) {
            Ok(target) => asked matches Ok(found) && found@ == target,
            Err(why) => asked matches Err(told) && told@ == why,
        },
        arguments@.len() == 0 ==> (asked matches Err(told) && told@ == usage_text()),
{
    if arguments.len() == 0 {
        return Err(usage_line());
    }
    let ghost every = views_of(arguments@).drop_first();
    let mut wanted: Option<String> = None;
    let mut index: usize = 1;
    assert(every.subrange(0, every.len() as int) =~= every);
    while index < arguments.len()
        invariant
            1 <= index <= arguments@.len(),
            every == views_of(arguments@).drop_first(),
            target_asked(every, None) == target_asked(every.subrange(index - 1, every.len() as int), match wanted {
                Some(held) => Some(held@),
                None => None,
            }),
        decreases arguments@.len() - index,
    {
        let ghost rest = every.subrange(index - 1, every.len() as int);
        assert(rest[0] == arguments@[index as int]@);
        if !crate::text::spells(chars_of(arguments[index].as_str()).as_slice(), TARGET_FLAG) {
            let mut told: Vec<char> = Vec::new();
            extend_str(&mut told, arguments[index].as_str());
            extend_str(&mut told, ": unknown flag");
            return Err(string_of(told.as_slice()));
        }
        if index + 1 >= arguments.len() {
            let mut told: Vec<char> = Vec::new();
            extend_str(&mut told, TARGET_FLAG);
            extend_str(&mut told, ": a triple must follow");
            return Err(string_of(told.as_slice()));
        }
        assert(rest[1] == arguments@[index + 1]@);
        assert(rest.subrange(2, rest.len() as int) =~= every.subrange(index + 1, every.len() as int));
        wanted = Some(arguments[index + 1].clone());
        index = index + 2;
    }
    assert(every.subrange(index - 1, every.len() as int) =~= Seq::<Seq<char>>::empty());
    match wanted {
        Some(target) => Ok(target),
        None => Err(usage_line()),
    }
}

/// The workspace root: one directory above the task runner's own, or `.`
/// when that has no parent.
pub open spec fn workspace_root_of(manifest_directory: Seq<char>) -> Seq<char> {
    match crate::paths::parent_of(manifest_directory) {
        Some(parent) => parent,
        None => "."@,
    }
}

/// A name for what `serde_json` makes of `cargo metadata`'s output: the
/// string at its `target_directory`, when the output parses and holds one.
pub uninterp spec fn json_target_directory(metadata: Seq<u8>) -> Option<Seq<char>>;

/// Parses `cargo metadata`'s output with `serde_json::from_slice` and picks
/// the string at `target_directory` with `get` and `as_str`; nothing when
/// the output does not parse or holds no such string. Its contract says only
/// that the answer is `serde_json`'s for these bytes.
#[verifier::external_body]
fn metadata_target_directory(metadata: &[u8]) -> (found: Option<String>)
    ensures
        match json_target_directory(metadata@) {
            None => found is None,
            Some(directory) => found matches Some(held) && held@ == directory,
        },
{
    match serde_json::from_slice::<serde_json::Value>(metadata) {
        Ok(value) => value.get("target_directory").and_then(serde_json::Value::as_str).map(str::to_owned),
        Err(_unparsed) => None,
    }
}

/// Where a build's target directory is: what `CARGO_TARGET_DIR` names, else
/// what cargo reported in its metadata, else `target` under the root.
pub open spec fn target_directory_of(variable: Option<Seq<char>>, metadata: Option<Seq<u8>>, root: Seq<char>) -> Seq<char> {
    match variable {
        Some(named) => named,
        None => match metadata {
            Some(printed) => match json_target_directory(printed) {
                Some(reported) => reported,
                None => crate::paths::path_join(root, "target"@),
            },
            None => crate::paths::path_join(root, "target"@),
        },
    }
}

/// Cargo's target directory, from the value of `CARGO_TARGET_DIR` when it is
/// set, what `cargo metadata` printed when it ran, and the root: the
/// variable's, else the one cargo reports, else `target` under the root.
pub fn target_directory(variable: Option<&str>, metadata: Option<&[u8]>, root: &str) -> (directory: String)
    ensures
        directory@ == target_directory_of(
            match variable {
                Some(named) => Some(named@),
                None => None,
            },
            match metadata {
                Some(printed) => Some(printed@),
                None => None,
            },
            root@,
        ),
{
    match variable {
        Some(named) => named.to_owned(),
        None => {
            let reported = match metadata {
                Some(printed) => metadata_target_directory(printed),
                None => None,
            };
            match reported {
                Some(directory) => directory,
                None => crate::paths::join_path(root, "target"),
            }
        },
    }
}

/// The workspace root, from the task runner's own directory.
pub fn workspace_root(manifest_directory: &str) -> (root: String)
    ensures
        root@ == workspace_root_of(manifest_directory@),
{
    match crate::paths::parent(manifest_directory) {
        Some(parent) => parent,
        None => ".".to_owned(),
    }
}

/// The value that follows the first occurrence of a flag on a command line,
/// if the flag is there and something follows it.
pub open spec fn flag_value_of(arguments: Seq<String>, flag: Seq<char>) -> Option<Seq<char>> {
    if exists|index: int| 0 <= index < arguments.len() - 1 && #[trigger] arguments[index]@ == flag {
        let first = choose|index: int| 0 <= index < arguments.len() - 1 && #[trigger] arguments[index]@ == flag
            && forall|before: int| 0 <= before < index ==> #[trigger] arguments[before]@ != flag;
        Some(arguments[first + 1]@)
    } else {
        None
    }
}

/// The value that follows a flag on a command line.
pub fn flag_value(arguments: &[String], flag: &str) -> (value: Option<String>)
    ensures
        match flag_value_of(arguments@, flag@) {
            None => value is None,
            Some(found) => value matches Some(held) && held@ == found,
        },
{
    let mut index: usize = 0;
    while arguments.len() > 0 && index < arguments.len() - 1
        invariant
            index <= arguments@.len(),
            forall|before: int| 0 <= before < index ==> #[trigger] arguments@[before]@ != flag@,
        decreases arguments@.len() - index,
    {
        if crate::text::spells(chars_of(arguments[index].as_str()).as_slice(), flag) {
            proof {
                let first = choose|at: int| 0 <= at < arguments@.len() - 1 && #[trigger] arguments@[at]@ == flag@
                    && forall|before: int| 0 <= before < at ==> #[trigger] arguments@[before]@ != flag@;
                assert(0 <= index < arguments@.len() - 1 && arguments@[index as int]@ == flag@
                    && forall|before: int| 0 <= before < index ==> #[trigger] arguments@[before]@ != flag@);
                if first < index {
                    assert(arguments@[first]@ != flag@);
                }
                if first > index {
                    assert(arguments@[index as int]@ != flag@);
                }
            }
            return Some(arguments[index + 1].clone());
        }
        index = index + 1;
    }
    proof {
        if exists|at: int| 0 <= at < arguments@.len() - 1 && #[trigger] arguments@[at]@ == flag@ {
            let at = choose|at: int| 0 <= at < arguments@.len() - 1 && #[trigger] arguments@[at]@ == flag@;
            assert(arguments@[at]@ != flag@);
        }
    }
    None
}

} // verus!
