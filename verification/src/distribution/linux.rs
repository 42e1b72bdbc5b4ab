//! The two Linux musl targets: where their binary lands, and the flags that
//! make two builds of one commit agree — what the workspace configures for
//! the target, and the remapping of every path that differs from machine to
//! machine.
use vstd::prelude::*;

use crate::distribution::{BINARY, DistributionError};
use crate::gate::texts_of;
use crate::paths::{join_path, path_join};
use crate::text::{extend, extend_str, string_of, views_of};

verus! {

/// The triples this builds for.
pub open spec fn linux_targets() -> Seq<Seq<char>> {
    seq!["x86_64-unknown-linux-musl"@, "aarch64-unknown-linux-musl"@]
}

/// The triples this builds for, in order.
pub fn targets() -> (triples: Vec<&'static str>)
    ensures
        texts_of(triples@) == linux_targets(),
{
    let triples = vec!["x86_64-unknown-linux-musl", "aarch64-unknown-linux-musl"];
    assert(texts_of(triples@) =~= linux_targets());
    triples
}

/// The profile the artifacts are built under.
pub const PROFILE: &'static str = "release";

/// How long a release build may take, in seconds: half an hour.
pub const BUILD_DEADLINE: u64 = 1800;

/// The workspace's cargo configuration, relative to the root.
pub const CARGO_CONFIG: &'static str = ".cargo/config.toml";

/// What the checkout's path is remapped to.
pub const REMAPPED: &'static str = ".";

/// What the registry's sources are remapped to.
pub const REMAPPED_REGISTRY: &'static str = "registry";

/// Where cargo unpacks what it downloads, under `CARGO_HOME`.
pub const REGISTRY_SOURCES: &'static str = "registry/src";

/// Where cargo keeps what it took from a git remote, under `CARGO_HOME`.
pub const GIT_CHECKOUTS: &'static str = "git/checkouts";

/// What those checkouts are remapped to.
pub const REMAPPED_CHECKOUTS: &'static str = "checkouts";

/// The variable the flags are given in.
pub const ENCODED_VARIABLE: &'static str = "CARGO_ENCODED_RUSTFLAGS";

/// The variable that names cargo's target directory.
pub const TARGET_DIRECTORY_VARIABLE: &'static str = "CARGO_TARGET_DIR";

/// The variable the encoded one is preferred to, removed from a build.
pub const FLAGS_VARIABLE: &'static str = "RUSTFLAGS";

/// What separates the flags in the encoded form.
pub const ENCODED_SEPARATOR: char = '\u{1f}';

/// Where cargo puts the binary for a target under the release profile, in
/// the target directory the build was given.
pub fn built_at(target_directory: &str, target: &str) -> (path: String)
    ensures
        path@ == path_join(path_join(path_join(target_directory@, target@), PROFILE@), BINARY@),
{
    let first = join_path(target_directory, target);
    let second = join_path(first.as_str(), PROFILE);
    join_path(second.as_str(), BINARY)
}

/// A remapping flag: one path prefix rewritten to another name.
pub open spec fn remap(from: Seq<char>, to: Seq<char>) -> Seq<char> {
    "--remap-path-prefix="@ + from + "="@ + to
}

/// A remapping flag.
fn remapping(from: &str, to: &str) -> (flag: String)
    ensures
        flag@ == remap(from@, to@),
{
    let mut held: Vec<char> = Vec::new();
    extend_str(&mut held, "--remap-path-prefix=");
    extend_str(&mut held, from);
    extend_str(&mut held, "=");
    extend_str(&mut held, to);
    string_of(held.as_slice())
}

/// Texts joined with a character between each two.
pub open spec fn separated(texts: Seq<Seq<char>>, separator: char) -> Seq<char>
    decreases texts.len(),
{
    if texts.len() == 0 {
        Seq::empty()
    } else if texts.len() == 1 {
        texts[0]
    } else {
        separated(texts.drop_last(), separator).push(separator) + texts.last()
    }
}

/// The flags a build needs, in order: the configured ones, the checkout's
/// path remapped, and, where cargo keeps its downloads, the registry and
/// the git checkouts remapped.
pub open spec fn flag_list(root: Seq<char>, configured: Seq<Seq<char>>, home: Option<Seq<char>>) -> Seq<Seq<char>> {
    configured + seq![remap(root, REMAPPED@)] + match home {
        Some(place) => seq![
            remap(path_join(place, REGISTRY_SOURCES@), REMAPPED_REGISTRY@),
            remap(path_join(place, GIT_CHECKOUTS@), REMAPPED_CHECKOUTS@),
        ],
        None => Seq::empty(),
    }
}

/// The flags a build needs, encoded: separated by a unit separator, so that
/// a flag with a space in it stays one flag. `configured` is what the
/// workspace configures for the target and `home` where cargo keeps what it
/// downloads, when that is known.
pub fn rustflags(root: &str, configured: Vec<String>, home: Option<&str>) -> (flags: String)
    ensures
        flags@ == separated(
            flag_list(
                root@,
                views_of(configured@),
                match home {
                    Some(place) => Some(place@),
                    None => None,
                },
            ),
            ENCODED_SEPARATOR,
        ),
{
    let mut every = configured;
    every.push(remapping(root, REMAPPED));
    match home {
        Some(place) => {
            let registry = join_path(place, REGISTRY_SOURCES);
            let checkouts = join_path(place, GIT_CHECKOUTS);
            every.push(remapping(registry.as_str(), REMAPPED_REGISTRY));
            every.push(remapping(checkouts.as_str(), REMAPPED_CHECKOUTS));
        },
        None => {},
    }
    let ghost all = views_of(every@);
    assert(all =~= flag_list(
        root@,
        views_of(configured@),
        match home {
            Some(place) => Some(place@),
            None => None,
        },
    ));
    let mut held: Vec<char> = Vec::new();
    let mut index: usize = 0;
    while index < every.len()
        invariant
            index <= every@.len(),
            all == views_of(every@),
            held@ == separated(all.subrange(0, index as int), ENCODED_SEPARATOR),
        decreases every@.len() - index,
    {
        assert(all.subrange(0, index + 1).drop_last() =~= all.subrange(0, index as int));
        if index > 0 {
            held.push(ENCODED_SEPARATOR);
        } else {
            assert(all.subrange(0, 1) =~= seq![all[0]]);
        }
        extend(&mut held, crate::text::chars_of(every[index].as_str()).as_slice());
        index = index + 1;
    }
    assert(all.subrange(0, all.len() as int) =~= all);
    string_of(held.as_slice())
}


/// A rustflags value as a cargo configuration holds it: absent; present but
/// not an array; or an array, each element the string it is when it is one.
pub type FlagValue = Option<Option<Vec<Option<String>>>>;

/// The text of a rustflags value.
pub open spec fn flag_value_view(value: FlagValue) -> Option<Option<Seq<Option<Seq<char>>>>> {
    match value {
        None => None,
        Some(None) => Some(None),
        Some(Some(items)) => Some(Some(items@.map_values(|item: Option<String>| match item {
            Some(text) => Some(text@),
            None => None,
        }))),
    }
}

/// What `toml` makes of a cargo configuration for a target: the values at
/// `build.rustflags` and `target.<target>.rustflags`, or nothing when it
/// does not parse as a table.
pub uninterp spec fn toml_rustflags(text: Seq<char>, target: Seq<char>) -> Option<(Option<Option<Seq<Option<Seq<char>>>>>, Option<Option<Seq<Option<Seq<char>>>>>)>;

/// Parses a cargo configuration with `str::parse::<toml::Table>` and gives
/// the values at `build.rustflags` and `target.<target>.rustflags`, each as
/// an array of `as_str` of its elements when it is an array; nothing when
/// the text does not parse. Its contract says only that the answer is
/// `toml`'s for this text and target.
#[verifier::external_body]
fn rustflag_values(text: &str, target: &str) -> (values: Option<(FlagValue, FlagValue)>)
    ensures
        match (values, toml_rustflags(text@, target@)) {
            (None, None) => true,
            (Some((build, targeted)), Some((build_view, targeted_view))) => flag_value_view(build) == build_view
                && flag_value_view(targeted) == targeted_view,
            _ => false,
        },
{
    let config = text.parse::<toml::Table>().ok()?;
    let shape = |value: Option<&toml::Value>| value.map(|held| held.as_array().map(|items| items.iter().map(|item| item.as_str().map(str::to_owned)).collect()));
    let build = shape(config.get("build").and_then(|table| table.get("rustflags")));
    let targeted = shape(config.get("target").and_then(|table| table.get(target)).and_then(|table| table.get("rustflags")));
    Some((build, targeted))
}

/// The strings of a rustflags value, in order: none unless it is an array.
pub open spec fn flag_strings(value: Option<Option<Seq<Option<Seq<char>>>>>) -> Seq<Seq<char>> {
    match value {
        Some(Some(items)) => strings_of(items),
        _ => Seq::empty(),
    }
}

/// The strings among some elements, in order.
pub open spec fn strings_of(items: Seq<Option<Seq<char>>>) -> Seq<Seq<char>>
    decreases items.len(),
{
    if items.len() == 0 {
        Seq::empty()
    } else {
        match items.last() {
            Some(text) => strings_of(items.drop_last()).push(text),
            None => strings_of(items.drop_last()),
        }
    }
}

/// Appends the strings of a rustflags value.
fn push_strings(flags: &mut Vec<String>, value: &FlagValue)
    ensures
        views_of(final(flags)@) == views_of(old(flags)@) + flag_strings(flag_value_view(*value)),
{
    match value {
        Some(Some(items)) => {
            let ghost every = items@.map_values(|item: Option<String>| match item {
                Some(text) => Some(text@),
                None => None,
            });
            let ghost start = views_of(flags@);
            let mut index: usize = 0;
            while index < items.len()
                invariant
                    index <= items@.len(),
                    every == items@.map_values(|item: Option<String>| match item {
                        Some(text) => Some(text@),
                        None => None,
                    }),
                    views_of(flags@) == start + strings_of(every.subrange(0, index as int)),
                decreases items@.len() - index,
            {
                assert(every.subrange(0, index + 1).drop_last() =~= every.subrange(0, index as int));
                match &items[index] {
                    Some(text) => {
                        let ghost before = flags@;
                        flags.push(text.clone());
                        assert(views_of(flags@) =~= views_of(before).push(text@));
                    },
                    None => {},
                }
                index = index + 1;
            }
            assert(every.subrange(0, every.len() as int) =~= every);
        },
        _ => {
            assert(views_of(flags@) =~= views_of(flags@) + Seq::<Seq<char>>::empty());
        },
    }
}

/// What a configuration's flags were wanted as, when it does not parse.
pub open spec fn flags_wanted() -> Seq<char> {
    "a table of build and target flags"@
}

/// The flags the cargo configuration at `path`, with the text given, sets
/// for every build and for a target, in that order.
///
/// [`DistributionError::Unreadable`] when the text is not a table.
pub fn configured(path: &str, text: &str, target: &str) -> (flags: Result<Vec<String>, DistributionError>)
    ensures
        match toml_rustflags(text@, target@) {
            None => flags matches Err(DistributionError::Unreadable { path: named, wanted }) && named@ == path@
                && wanted@ == flags_wanted(),
            Some((build, targeted)) => flags matches Ok(found) && views_of(found@) == flag_strings(build)
                + flag_strings(targeted),
        },
{
    match rustflag_values(text, target) {
        None => Err(DistributionError::Unreadable { path: path.to_owned(), wanted: "a table of build and target flags".to_owned() }),
        Some((build, targeted)) => {
            let mut flags: Vec<String> = Vec::new();
            assert(views_of(flags@) =~= Seq::<Seq<char>>::empty());
            push_strings(&mut flags, &build);
            push_strings(&mut flags, &targeted);
            Ok(flags)
        },
    }
}

} // verus!
