//! The resolved package set equals the allowlist in `policy/dependencies.md`
//! in both directions, every version requirement in every workspace
//! manifest is an exact pin, `iznik-protocol` declares no dependencies, and
//! no crate has a build script. A dependency nobody declared fails the
//! build; so does a listed one nothing uses.
use vstd::prelude::*;

use crate::paths::path_join;
use crate::policy::{
    Fault, PolicyError, Violation, faults_of, relative, relative_of, report, toml_package_name,
};
use crate::text::{
    chars_of, extend, extend_str, in_order, insert_sorted, lines, split_once, starts_with,
    strictly_sorted, string_of, trim, trim_start, views_of,
};

verus! {

/// The allowlist, relative to the root.
pub const ALLOWLIST: &'static str = "policy/dependencies.md";

/// The heading under which the allowlist's entries are read.
pub const ALLOWLIST_HEADING: &'static str = "## Workspace";

/// The crate that declares no `[dependencies]`.
pub const DEPENDENCY_FREE_CRATE: &'static str = "iznik-protocol";

/// The rule a resolved package absent from the allowlist breaks.
pub const UNDECLARED_RULE: &'static str = "dependency-undeclared";

/// The rule an allowlisted package nothing resolves breaks.
pub const UNUSED_RULE: &'static str = "dependency-unused";

/// The rule a version requirement that is not an exact pin breaks.
pub const PIN_RULE: &'static str = "dependency-pin";

/// The rule a `[dependencies]` table on the dependency-free crate breaks.
pub const DEPENDENCY_FREE_RULE: &'static str = "dependency-free-crate";

/// The rule a build script breaks.
pub const BUILD_SCRIPT_RULE: &'static str = "build-script";

/// The dependency tables a manifest may carry, in the order they are read.
pub open spec fn dependency_tables() -> Seq<Seq<char>> {
    seq!["dependencies"@, "dev-dependencies"@, "build-dependencies"@]
}

/// A name for what `serde_json` makes of `cargo metadata`'s output: the
/// entries of its `workspace_members` array, each the text it holds when
/// it is a string, or what the parser said.
pub uninterp spec fn json_members(metadata: Seq<u8>) -> Result<Seq<Option<Seq<char>>>, Seq<char>>;

/// A name for what `serde_json` makes of `cargo metadata`'s output: the
/// `id` and `name` of each entry of its `packages` array, each the text it
/// holds when it is a string, or what the parser said.
pub uninterp spec fn json_packages(metadata: Seq<u8>) -> Result<Seq<(Option<Seq<char>>, Option<Seq<char>>)>, Seq<char>>;

/// The view of optional strings.
pub open spec fn optional_views(entries: Seq<Option<String>>) -> Seq<Option<Seq<char>>> {
    entries.map_values(|entry: Option<String>| match entry {
        Some(held) => Some(held@),
        None => None,
    })
}

/// Parses `cargo metadata`'s output with `serde_json::from_slice` and lists
/// the entries of its `workspace_members` array, each as its string when
/// it is one; on a parse error, the error's `Display` text. Its contract
/// says only that the answer is `serde_json`'s for these bytes.
#[verifier::external_body]
fn metadata_members(metadata: &[u8]) -> (members: Result<Vec<Option<String>>, String>)
    ensures
        match json_members(metadata@) {
            Ok(found) => members matches Ok(held) && optional_views(held@) == found,
            Err(said) => members matches Err(held) && held@ == said,
        },
{
    match serde_json::from_slice::<serde_json::Value>(metadata) {
        Ok(value) => Ok(value.get("workspace_members").and_then(serde_json::Value::as_array).into_iter().flatten()
            .map(|entry| entry.as_str().map(str::to_owned)).collect()),
        Err(error) => Err(error.to_string()),
    }
}

/// Parses `cargo metadata`'s output with `serde_json::from_slice` and lists
/// the `id` and `name` of each entry of its `packages` array, each as its
/// string when it is one; on a parse error, the error's `Display` text.
/// Its contract says only that the answer is `serde_json`'s for these
/// bytes.
#[verifier::external_body]
fn metadata_packages(metadata: &[u8]) -> (packages: Result<Vec<(Option<String>, Option<String>)>, String>)
    ensures
        match json_packages(metadata@) {
            Ok(found) => packages matches Ok(held) && held@.map_values(|entry: (Option<String>, Option<String>)|
                (match entry.0 { Some(id) => Some(id@), None => None }, match entry.1 { Some(name) => Some(name@), None => None })) == found,
            Err(said) => packages matches Err(held) && held@ == said,
        },
{
    match serde_json::from_slice::<serde_json::Value>(metadata) {
        Ok(value) => Ok(value.get("packages").and_then(serde_json::Value::as_array).into_iter().flatten()
            .map(|entry| (entry.get("id").and_then(serde_json::Value::as_str).map(str::to_owned),
                entry.get("name").and_then(serde_json::Value::as_str).map(str::to_owned))).collect()),
        Err(error) => Err(error.to_string()),
    }
}

/// The names of the packages resolved for a workspace, its own members
/// left out: each package with a name whose id is no member's.
pub open spec fn resolved_names(members: Seq<Option<Seq<char>>>, packages: Seq<(Option<Seq<char>>, Option<Seq<char>>)>) -> Set<Seq<char>> {
    Set::new(|name: Seq<char>| exists|index: int| 0 <= index < packages.len() && #[trigger] packages[index].1 == Some(name)
        && match packages[index].0 {
            Some(id) => !members.contains(Some(id)),
            None => true,
        })
}

/// The names `cargo metadata` resolves for a workspace, or what its parser
/// said of the output.
pub open spec fn resolved_reading(metadata: Seq<u8>) -> Result<Set<Seq<char>>, Seq<char>> {
    match json_members(metadata) {
        Err(said) => Err(said),
        Ok(members) => match json_packages(metadata) {
            Err(said) => Err(said),
            Ok(packages) => Ok(resolved_names(members, packages)),
        },
    }
}

/// Whether a list of optional texts holds a text.
fn holds_member(members: &Vec<Option<String>>, wanted: &String) -> (found: bool)
    ensures
        found == optional_views(members@).contains(Some(wanted@)),
{
    let mut index: usize = 0;
    while index < members.len()
        invariant
            index <= members@.len(),
            forall|at: int| 0 <= at < index ==> #[trigger] optional_views(members@)[at] != Some(wanted@),
        decreases members@.len() - index,
    {
        match &members[index] {
            Some(member) => {
                if crate::text::same_chars(chars_of(member.as_str()).as_slice(), chars_of(wanted.as_str()).as_slice()) {
                    assert(optional_views(members@)[index as int] == Some(wanted@));
                    return true;
                }
            },
            None => {},
        }
        index = index + 1;
    }
    proof {
        if optional_views(members@).contains(Some(wanted@)) {
            let at = choose|at: int| 0 <= at < optional_views(members@).len() && optional_views(members@)[at] == Some(wanted@);
        }
    }
    false
}

/// The names of the packages `cargo metadata` resolves for the workspace,
/// its own members left out, in increasing order; or what the parser said
/// of the output.
pub fn resolved_packages(metadata: &[u8]) -> (resolved: Result<Vec<String>, String>)
    ensures
        match resolved_reading(metadata@) {
            Err(said) => resolved matches Err(held) && held@ == said,
            Ok(names) => resolved matches Ok(held) && strictly_sorted(views_of(held@)) && views_of(held@).to_set() == names,
        },
{
    let members = match metadata_members(metadata) {
        Ok(members) => members,
        Err(said) => return Err(said),
    };
    let packages = match metadata_packages(metadata) {
        Ok(packages) => packages,
        Err(said) => return Err(said),
    };
    let ghost found = packages@.map_values(|entry: (Option<String>, Option<String>)|
        (match entry.0 { Some(id) => Some(id@), None => None }, match entry.1 { Some(name) => Some(name@), None => None }));
    let ghost member_views = optional_views(members@);
    let mut names: Vec<String> = Vec::new();
    let mut index: usize = 0;
    while index < packages.len()
        invariant
            index <= packages@.len(),
            found.len() == packages@.len(),
            found == packages@.map_values(|entry: (Option<String>, Option<String>)|
                (match entry.0 { Some(id) => Some(id@), None => None }, match entry.1 { Some(name) => Some(name@), None => None })),
            member_views == optional_views(members@),
            strictly_sorted(views_of(names@)),
            views_of(names@).to_set() == resolved_names(member_views, found.subrange(0, index as int)),
        decreases packages@.len() - index,
    {
        let ghost before = views_of(names@).to_set();
        let ghost shorter = found.subrange(0, index as int);
        let ghost longer = found.subrange(0, index + 1);
        let (id, name) = &packages[index];
        let outside = match id {
            Some(id) => !holds_member(&members, id),
            None => true,
        };
        assert(found[index as int] == (match id { Some(held) => Some(held@), None => None }, match name { Some(held) => Some(held@), None => None }));
        match name {
            Some(name) => {
                if outside {
                    insert_sorted(&mut names, name.clone());
                    assert(resolved_names(member_views, longer) =~= resolved_names(member_views, shorter).insert(name@)) by {
                        assert(longer[index as int] == found[index as int]);
                        assert(longer[index as int].1 == Some(name@));
                        assert(match longer[index as int].0 { Some(id) => !member_views.contains(Some(id)), None => true });
                        assert(resolved_names(member_views, longer).contains(name@));
                        assert forall|text: Seq<char>| resolved_names(member_views, longer).contains(text) implies resolved_names(member_views, shorter).insert(name@).contains(text) by {
                            let at = choose|at: int| 0 <= at < longer.len() && #[trigger] longer[at].1 == Some(text)
                                && match longer[at].0 { Some(id) => !member_views.contains(Some(id)), None => true };
                            if at < index {
                                assert(shorter[at] == longer[at]);
                            }
                        }
                        assert forall|text: Seq<char>| resolved_names(member_views, shorter).contains(text) implies resolved_names(member_views, longer).contains(text) by {
                            let at = choose|at: int| 0 <= at < shorter.len() && #[trigger] shorter[at].1 == Some(text)
                                && match shorter[at].0 { Some(id) => !member_views.contains(Some(id)), None => true };
                            assert(longer[at] == shorter[at]);
                        }
                    }
                } else {
                    assert(resolved_names(member_views, longer) =~= resolved_names(member_views, shorter)) by {
                        assert forall|text: Seq<char>| resolved_names(member_views, longer).contains(text) implies resolved_names(member_views, shorter).contains(text) by {
                            let at = choose|at: int| 0 <= at < longer.len() && #[trigger] longer[at].1 == Some(text)
                                && match longer[at].0 { Some(id) => !member_views.contains(Some(id)), None => true };
                            if at < index {
                                assert(shorter[at] == longer[at]);
                            }
                        }
                        assert forall|text: Seq<char>| resolved_names(member_views, shorter).contains(text) implies resolved_names(member_views, longer).contains(text) by {
                            let at = choose|at: int| 0 <= at < shorter.len() && #[trigger] shorter[at].1 == Some(text)
                                && match shorter[at].0 { Some(id) => !member_views.contains(Some(id)), None => true };
                            assert(longer[at] == shorter[at]);
                        }
                    }
                }
            },
            None => {
                assert(resolved_names(member_views, longer) =~= resolved_names(member_views, shorter)) by {
                    assert forall|text: Seq<char>| resolved_names(member_views, longer).contains(text) implies resolved_names(member_views, shorter).contains(text) by {
                        let at = choose|at: int| 0 <= at < longer.len() && #[trigger] longer[at].1 == Some(text)
                            && match longer[at].0 { Some(id) => !member_views.contains(Some(id)), None => true };
                        if at < index {
                            assert(shorter[at] == longer[at]);
                        }
                    }
                    assert forall|text: Seq<char>| resolved_names(member_views, shorter).contains(text) implies resolved_names(member_views, longer).contains(text) by {
                        let at = choose|at: int| 0 <= at < shorter.len() && #[trigger] shorter[at].1 == Some(text)
                            && match shorter[at].0 { Some(id) => !member_views.contains(Some(id)), None => true };
                        assert(longer[at] == shorter[at]);
                    }
                }
            },
        }
        index = index + 1;
    }
    assert(found.subrange(0, found.len() as int) =~= found);
    Ok(names)
}

/// The package an allowlist line lists: the backticked name after `- `.
pub open spec fn allowlist_entry(line: Seq<char>) -> Option<Seq<char>> {
    let started = trim_start(line);
    if starts_with(started, "- `"@) {
        match split_once(started.subrange(3, started.len() as int), "`"@) {
            Some((name, justification)) => Some(name),
            None => None,
        }
    } else {
        None
    }
}

/// Whether the first lines of the allowlist leave the reading under its
/// heading, and the names listed under it so far.
pub open spec fn allowlist_state(all: Seq<Seq<char>>, count: int) -> (bool, Set<Seq<char>>)
    decreases count,
{
    if count <= 0 {
        (false, Set::empty())
    } else {
        let before = allowlist_state(all, count - 1);
        let line = all[count - 1];
        if starts_with(line, "## "@) {
            (trim(line) == ALLOWLIST_HEADING@, before.1)
        } else if !before.0 {
            before
        } else {
            match allowlist_entry(line) {
                Some(name) => (true, before.1.insert(name)),
                None => before,
            }
        }
    }
}

/// The backticked names under the allowlist's heading.
pub open spec fn allowlisted_names(text: Seq<char>) -> Set<Seq<char>> {
    allowlist_state(lines(text), lines(text).len() as int).1
}

/// The backticked names under the allowlist's heading, in increasing
/// order.
pub fn allowlisted_packages(text: &str) -> (names: Vec<String>)
    ensures
        strictly_sorted(views_of(names@)),
        views_of(names@).to_set() == allowlisted_names(text@),
{
    let all = crate::text::lines_of(chars_of(text).as_slice());
    let ghost every = lines(text@);
    let mut names: Vec<String> = Vec::new();
    let mut under = false;
    let mut index: usize = 0;
    assert(views_of(names@).to_set() =~= Set::<Seq<char>>::empty());
    while index < all.len()
        invariant
            index <= all@.len(),
            all@.len() == every.len(),
            every == lines(text@),
            forall|at: int| 0 <= at < all@.len() ==> #[trigger] all@[at]@ == every[at],
            strictly_sorted(views_of(names@)),
            allowlist_state(every, index as int) == (under, views_of(names@).to_set()),
        decreases all@.len() - index,
    {
        proof {
            reveal_strlit("## ");
            reveal_strlit("- `");
            reveal_strlit("`");
        }
        let line = all[index].as_slice();
        assert(line@ == every[index as int]);
        let heading_mark = chars_of("## ");
        if crate::text::begins_with(line, heading_mark.as_slice()) {
            let trimmed = crate::text::trimmed(line);
            under = crate::text::spells(trimmed.as_slice(), ALLOWLIST_HEADING);
        } else if under {
            let started = crate::text::trimmed_start(line);
            let entry_mark = chars_of("- `");
            if crate::text::begins_with(started.as_slice(), entry_mark.as_slice()) {
                let rest = crate::text::slice_of(started.as_slice(), 3, started.len());
                let tick = chars_of("`");
                match crate::text::split_at_first(rest.as_slice(), tick.as_slice()) {
                    Some((name, justification)) => {
                        let ghost before = views_of(names@).to_set();
                        insert_sorted(&mut names, string_of(name.as_slice()));
                    },
                    None => {},
                }
            }
        }
        index = index + 1;
    }
    names
}

/// A name for what `toml` makes of a manifest's text: whether its top-level
/// table holds a key, or what the parser said.
pub uninterp spec fn toml_has_key(text: Seq<char>, key: Seq<char>) -> Result<bool, Seq<char>>;

/// Parses a manifest with `toml::from_str` into a `toml::Table` and says
/// whether it holds a key; on a parse error, the error's `Display` text.
/// Its contract says only that the answer is `toml`'s for this text and key.
#[verifier::external_body]
fn has_key(text: &str, key: &str) -> (found: Result<bool, String>)
    ensures
        match toml_has_key(text@, key@) {
            Ok(held) => found == Ok::<bool, String>(held),
            Err(said) => found matches Err(held) && held@ == said,
        },
{
    match toml::from_str::<toml::Table>(text) {
        Ok(table) => Ok(table.get(key).is_some()),
        Err(error) => Err(error.to_string()),
    }
}

/// A name for what `toml` makes of a manifest's text: the entries of one
/// of its dependency tables, each with its version requirement (the string
/// itself, or the string at its `version`), nothing when there is no such
/// table, or what the parser said.
pub uninterp spec fn toml_requirements(text: Seq<char>, table: Seq<char>) -> Result<Option<Seq<(Seq<char>, Option<Seq<char>>)>>, Seq<char>>;

/// The views of dependency entries.
pub open spec fn entry_views(entries: Seq<(String, Option<String>)>) -> Seq<(Seq<char>, Option<Seq<char>>)> {
    entries.map_values(|entry: (String, Option<String>)| (entry.0@, match entry.1 {
        Some(requirement) => Some(requirement@),
        None => None,
    }))
}

/// Parses a manifest with `toml::from_str` into a `toml::Table` and lists
/// the entries of one dependency table in the table's order, each with its
/// requirement when it is a string or has one at `version`; on a parse
/// error, the error's `Display` text. Its contract says only that the
/// answer is `toml`'s for this text and table.
#[verifier::external_body]
fn table_requirements(text: &str, table: &str) -> (entries: Result<Option<Vec<(String, Option<String>)>>, String>)
    ensures
        match toml_requirements(text@, table@) {
            Ok(None) => entries matches Ok(None),
            Ok(Some(found)) => entries matches Ok(Some(held)) && entry_views(held@) == found,
            Err(said) => entries matches Err(held) && held@ == said,
        },
{
    match toml::from_str::<toml::Table>(text) {
        Ok(manifest) => Ok(manifest.get(table).and_then(toml::Value::as_table).map(|dependencies| dependencies.iter()
            .map(|(dependency, entry)| (dependency.clone(), entry.as_str()
                .or_else(|| entry.get("version").and_then(toml::Value::as_str)).map(str::to_owned))).collect())),
        Err(error) => Err(error.to_string()),
    }
}

/// What one member's manifest check reads: its directory, the text of its
/// manifest, and whether it has a `build.rs`.
#[derive(Clone, Debug)]
pub struct MemberManifest {
    /// The member's directory.
    pub directory: String,
    /// The text of its `Cargo.toml`.
    pub manifest: String,
    /// Whether a `build.rs` exists beside it.
    pub build_script: bool,
}

/// What a requirement that is no exact pin is told.
pub open spec fn pin_detail(table: Seq<char>, dependency: Seq<char>, requirement: Seq<char>) -> Seq<char> {
    "`"@ + table + "."@ + dependency + " = \""@ + requirement + "\"` is not an exact `=` pin"@
}

/// The requirements among the first entries of one table that are no exact
/// pins.
pub open spec fn pin_faults(reported: Seq<char>, table: Seq<char>, entries: Seq<(Seq<char>, Option<Seq<char>>)>, count: int) -> Seq<Fault>
    decreases count,
{
    if count <= 0 {
        Seq::empty()
    } else {
        let before = pin_faults(reported, table, entries, count - 1);
        match entries[count - 1].1 {
            Some(requirement) => if starts_with(requirement, "="@) {
                before
            } else {
                before.push((reported, None, PIN_RULE@, pin_detail(table, entries[count - 1].0, requirement)))
            },
            None => before,
        }
    }
}

/// The unpinned requirements of the first dependency tables of a manifest,
/// or what the parser said.
pub open spec fn tables_outcome(text: Seq<char>, reported: Seq<char>, count: int) -> Result<Seq<Fault>, Seq<char>>
    decreases count,
{
    if count <= 0 {
        Ok(Seq::empty())
    } else {
        match tables_outcome(text, reported, count - 1) {
            Err(said) => Err(said),
            Ok(before) => match toml_requirements(text, dependency_tables()[count - 1]) {
                Err(said) => Err(said),
                Ok(None) => Ok(before),
                Ok(Some(entries)) => Ok(before + pin_faults(reported, dependency_tables()[count - 1], entries, entries.len() as int)),
            },
        }
    }
}

/// What one member's manifest is found wanting in (a `[dependencies]`
/// table on the dependency-free crate, unpinned requirements, a build
/// script), or what the parser said of it.
pub open spec fn manifest_outcome(root: Seq<char>, member: MemberManifest) -> Result<Seq<Fault>, Seq<char>> {
    let reported = relative_of(root, path_join(member.directory@, "Cargo.toml"@));
    let text = member.manifest@;
    match toml_package_name(text) {
        Err(said) => Err(said),
        Ok(named) => {
            let name = match named {
                Some(name) => name,
                None => Seq::empty(),
            };
            match toml_has_key(text, "dependencies"@) {
                Err(said) => Err(said),
                Ok(declares) => {
                    let free = if name == DEPENDENCY_FREE_CRATE@ && declares {
                        seq![(reported, None, DEPENDENCY_FREE_RULE@, "`iznik-protocol` declares `[dependencies]`; by rule it has none"@)]
                    } else {
                        Seq::<Fault>::empty()
                    };
                    match tables_outcome(text, reported, 3) {
                        Err(said) => Err(said),
                        Ok(pins) => {
                            let built = if member.build_script {
                                seq![(relative_of(root, path_join(member.directory@, "build.rs"@)), None, BUILD_SCRIPT_RULE@,
                                    "no workspace crate has a build script"@)]
                            } else {
                                Seq::<Fault>::empty()
                            };
                            Ok(free + pins + built)
                        },
                    }
                },
            }
        },
    }
}

/// The requirements of one dependency table that are no exact `=` pins,
/// each reported against the manifest, given the table's entries as `toml`
/// read them.
pub fn check_pins(reported: &str, table: &str, entries: &[(String, Option<String>)], violations: &mut Vec<Violation>)
    ensures
        faults_of(final(violations)@) == faults_of(old(violations)@) + pin_faults(
            reported@,
            table@,
            entry_views(entries@),
            entries@.len() as int,
        ),
{
    proof {
        reveal_strlit("`");
        reveal_strlit(".");
        reveal_strlit(" = \"");
        reveal_strlit("\"` is not an exact `=` pin");
        reveal_strlit("=");
    }
    let ghost views = entry_views(entries@);
    let ghost before = faults_of(violations@);
    let mut at: usize = 0;
    while at < entries.len()
        invariant
            at <= entries@.len(),
            views == entry_views(entries@),
            faults_of(violations@) == before + pin_faults(reported@, table@, views, at as int),
        decreases entries@.len() - at,
    {
        let (dependency, requirement) = &entries[at];
        assert(views[at as int] == (dependency@, match requirement { Some(held) => Some(held@), None => None }));
        match requirement {
            Some(requirement) => {
                let equals = chars_of("=");
                if !crate::text::begins_with(chars_of(requirement.as_str()).as_slice(), equals.as_slice()) {
                    let mut detail: Vec<char> = Vec::new();
                    extend_str(&mut detail, "`");
                    extend_str(&mut detail, table);
                    extend_str(&mut detail, ".");
                    extend_str(&mut detail, dependency.as_str());
                    extend_str(&mut detail, " = \"");
                    extend_str(&mut detail, requirement.as_str());
                    extend_str(&mut detail, "\"` is not an exact `=` pin");
                    report(violations, Violation {
                        path: reported.to_owned(),
                        line: None,
                        rule: PIN_RULE,
                        detail: string_of(detail.as_slice()),
                    });
                }
            },
            None => {},
        }
        at = at + 1;
    }
    assert(faults_of(violations@) =~= faults_of(old(violations)@) + pin_faults(reported@, table@, entry_views(entries@), entries@.len() as int));
}

/// One member's manifest: every requirement pinned, no `[dependencies]` on
/// the dependency-free crate, no build script.
///
/// [`PolicyError::Parse`] when the manifest is not TOML.
pub fn check_manifest(root: &str, member: &MemberManifest, violations: &mut Vec<Violation>) -> (checked: Result<(), PolicyError>)
    ensures
        match manifest_outcome(root@, *member) {
            Err(said) => checked matches Err(PolicyError::Parse { path, detail }) && path@ == path_join(member.directory@, "Cargo.toml"@)
                && detail@ == said,
            Ok(faults) => checked is Ok && faults_of(final(violations)@) == faults_of(old(violations)@) + faults,
        },
{
    proof {
        reveal_strlit("dependencies");
        reveal_strlit("dev-dependencies");
        reveal_strlit("build-dependencies");
    }
    let ghost start = faults_of(violations@);
    let manifest_path = crate::paths::join_path(member.directory.as_str(), "Cargo.toml");
    let reported = relative(root, manifest_path.as_str());
    let text = member.manifest.as_str();
    let name = match crate::policy::parsed_package_name(text) {
        Err(said) => return Err(PolicyError::Parse { path: manifest_path, detail: said }),
        Ok(Some(name)) => name,
        Ok(None) => String::new(),
    };
    proof {
        reveal_strlit("");
    }
    let declares = match has_key(text, "dependencies") {
        Err(said) => return Err(PolicyError::Parse { path: manifest_path, detail: said }),
        Ok(declares) => declares,
    };
    if crate::text::spells(chars_of(name.as_str()).as_slice(), DEPENDENCY_FREE_CRATE) && declares {
        report(violations, Violation {
            path: reported.clone(),
            line: None,
            rule: DEPENDENCY_FREE_RULE,
            detail: "`iznik-protocol` declares `[dependencies]`; by rule it has none".to_owned(),
        });
    }
    let ghost freed = faults_of(violations@);
    let tables = vec!["dependencies", "dev-dependencies", "build-dependencies"];
    assert(tables@.map_values(|table: &'static str| table@) =~= dependency_tables());
    let mut index: usize = 0;
    while index < tables.len()
        invariant
            index <= tables@.len(),
            tables@.len() == 3,
            tables@.map_values(|table: &'static str| table@) == dependency_tables(),
            reported@ == relative_of(root@, manifest_path@),
            manifest_path@ == path_join(member.directory@, "Cargo.toml"@),
            text@ == member.manifest@,
            toml_package_name(text@) is Ok,
            toml_has_key(text@, "dependencies"@) is Ok,
            tables_outcome(text@, reported@, index as int) matches Ok(pins) && faults_of(violations@) == freed + pins,
        decreases tables@.len() - index,
    {
        let table = tables[index];
        assert(dependency_tables()[index as int] == table@);
        let entries = match table_requirements(text, table) {
            Err(said) => {
                proof {
                    lemma_tables_failure_stays(text@, reported@, index + 1, 3);
                }
                return Err(PolicyError::Parse { path: manifest_path, detail: said });
            },
            Ok(None) => {
                index = index + 1;
                continue;
            },
            Ok(Some(entries)) => entries,
        };
        check_pins(reported.as_str(), table, entries.as_slice(), violations);
        index = index + 1;
    }
    if member.build_script {
        let script = crate::paths::join_path(member.directory.as_str(), "build.rs");
        report(violations, Violation {
            path: relative(root, script.as_str()),
            line: None,
            rule: BUILD_SCRIPT_RULE,
            detail: "no workspace crate has a build script".to_owned(),
        });
    }
    Ok(())
}

/// Once the first tables fail, every longer run of them fails the same way.
proof fn lemma_tables_failure_stays(text: Seq<char>, reported: Seq<char>, count: int, total: int)
    requires
        0 <= count <= total,
        tables_outcome(text, reported, count) is Err,
    ensures
        tables_outcome(text, reported, total) == tables_outcome(text, reported, count),
    decreases total - count,
{
    if count < total {
        lemma_tables_failure_stays(text, reported, count + 1, total);
    }
}

/// The faults of names listed one way and not the other, in increasing
/// order, each told with its rule.
pub open spec fn listing_faults(path: Seq<char>, names: Seq<Seq<char>>, undeclared: bool) -> Seq<Fault> {
    names.map_values(|name: Seq<char>| if undeclared {
        (path, None, UNDECLARED_RULE@, "`"@ + name + "` is resolved but not listed under `## Workspace`"@)
    } else {
        (path, None, UNUSED_RULE@, "`"@ + name + "` is listed but nothing resolves it"@)
    })
}

/// What the first members' manifests are found wanting in, or the manifest
/// path and parser's words of the first that cannot be read.
pub open spec fn members_outcome(root: Seq<char>, members: Seq<MemberManifest>, count: int) -> Result<Seq<Fault>, (Seq<char>, Seq<char>)>
    decreases count,
{
    if count <= 0 {
        Ok(Seq::empty())
    } else {
        match members_outcome(root, members, count - 1) {
            Err(failed) => Err(failed),
            Ok(before) => match manifest_outcome(root, members[count - 1]) {
                Err(said) => Err((path_join(members[count - 1].directory@, "Cargo.toml"@), said)),
                Ok(faults) => Ok(before + faults),
            },
        }
    }
}

/// The resolved packages the allowlist does not list, then the listed ones
/// nothing resolves, each in increasing order.
pub open spec fn listing_part(path: Seq<char>, resolved: Set<Seq<char>>, allowed: Set<Seq<char>>) -> Seq<Fault> {
    listing_faults(path, in_order(resolved.difference(allowed)), true) + listing_faults(
        path,
        in_order(allowed.difference(resolved)),
        false,
    )
}

/// The names listed under the allowlist's heading are finitely many.
proof fn lemma_allowlist_finite(all: Seq<Seq<char>>, count: int)
    ensures
        allowlist_state(all, count).1.finite(),
    decreases count,
{
    if count > 0 {
        lemma_allowlist_finite(all, count - 1);
    }
}

/// The packages metadata resolves are finitely many: each is the name of
/// one of its packages.
proof fn lemma_resolved_finite(members: Seq<Option<Seq<char>>>, packages: Seq<(Option<Seq<char>>, Option<Seq<char>>)>)
    ensures
        resolved_names(members, packages).finite(),
{
    let named = packages.map_values(
        |package: (Option<Seq<char>>, Option<Seq<char>>)| match package.1 {
            Some(name) => name,
            None => Seq::empty(),
        },
    );
    let resolved = resolved_names(members, packages);
    assert forall|name: Seq<char>| #[trigger] resolved.contains(name) implies named.to_set().contains(name) by {
        let index = choose|index: int| 0 <= index < packages.len() && #[trigger] packages[index].1 == Some(name)
            && match packages[index].0 {
                Some(id) => !members.contains(Some(id)),
                None => true,
            };
        assert(named[index] == name);
    }
    vstd::seq_lib::seq_to_set_is_finite(named);
    vstd::set_lib::lemma_set_subset_finite(named.to_set(), resolved);
}

/// The resolved packages equal the allowlist in both directions exactly when
/// the check finds no package resolved but not listed and none listed but
/// not resolved.
pub proof fn lemma_allowlist_both_ways(path: Seq<char>, metadata: Seq<u8>, allowlist: Seq<char>)
    requires
        resolved_reading(metadata) is Ok,
    ensures
        listing_part(path, resolved_reading(metadata)->Ok_0, allowlisted_names(allowlist)).len() == 0
            <==> resolved_reading(metadata)->Ok_0 == allowlisted_names(allowlist),
{
    let resolved = resolved_reading(metadata)->Ok_0;
    let allowed = allowlisted_names(allowlist);
    match json_members(metadata) {
        Ok(members) => match json_packages(metadata) {
            Ok(packages) => lemma_resolved_finite(members, packages),
            Err(said) => {},
        },
        Err(said) => {},
    }
    lemma_allowlist_finite(lines(allowlist), lines(allowlist).len() as int);
    let unlisted = resolved.difference(allowed);
    let unused = allowed.difference(resolved);
    crate::text::lemma_in_order_of(unlisted);
    crate::text::lemma_in_order_of(unused);
    let first = in_order(unlisted);
    let second = in_order(unused);
    if resolved == allowed {
        assert(unlisted =~= Set::<Seq<char>>::empty());
        assert(unused =~= Set::<Seq<char>>::empty());
        if first.len() > 0 {
            assert(first.to_set().contains(first[0]));
        }
        if second.len() > 0 {
            assert(second.to_set().contains(second[0]));
        }
    }
    if listing_part(path, resolved, allowed).len() == 0 {
        assert forall|name: Seq<char>| resolved.contains(name) <==> allowed.contains(name) by {
            if resolved.contains(name) && !allowed.contains(name) {
                assert(first.to_set().contains(name));
                let at = choose|at: int| 0 <= at < first.len() && first[at] == name;
            }
            if allowed.contains(name) && !resolved.contains(name) {
                assert(second.to_set().contains(name));
                let at = choose|at: int| 0 <= at < second.len() && second[at] == name;
            }
        }
        assert(resolved =~= allowed);
    }
}

/// What a tree is found wanting in: resolved packages the allowlist does
/// not list and listed ones nothing resolves (each in increasing order),
/// then each member's manifest; or the path and words of the first thing
/// that cannot be read.
pub open spec fn dependencies_outcome(root: Seq<char>, metadata: Seq<u8>, allowlist: Seq<char>, members: Seq<MemberManifest>) -> Result<Seq<Fault>, (Seq<char>, Seq<char>)> {
    match resolved_reading(metadata) {
        Err(said) => Err((path_join(root, "Cargo.toml"@), "cargo metadata: "@ + said)),
        Ok(resolved) => {
            let allowed = allowlisted_names(allowlist);
            let path = relative_of(root, path_join(root, ALLOWLIST@));
            let listed = listing_part(path, resolved, allowed);
            match members_outcome(root, members, members.len() as int) {
                Err(failed) => Err(failed),
                Ok(faults) => Ok(listed + faults),
            }
        },
    }
}

/// Reports names listed one way and not the other.
fn report_listing(path: &str, names: &Vec<String>, undeclared: bool, violations: &mut Vec<Violation>)
    ensures
        faults_of(final(violations)@) == faults_of(old(violations)@) + listing_faults(path@, views_of(names@), undeclared),
{
    let ghost start = faults_of(violations@);
    let mut index: usize = 0;
    while index < names.len()
        invariant
            index <= names@.len(),
            faults_of(violations@) == start + listing_faults(path@, views_of(names@).subrange(0, index as int), undeclared),
        decreases names@.len() - index,
    {
        proof {
            reveal_strlit("`");
            reveal_strlit("` is resolved but not listed under `## Workspace`");
            reveal_strlit("` is listed but nothing resolves it");
        }
        let mut detail: Vec<char> = Vec::new();
        extend_str(&mut detail, "`");
        extend_str(&mut detail, names[index].as_str());
        if undeclared {
            extend_str(&mut detail, "` is resolved but not listed under `## Workspace`");
        } else {
            extend_str(&mut detail, "` is listed but nothing resolves it");
        }
        report(violations, Violation {
            path: path.to_owned(),
            line: None,
            rule: if undeclared { UNDECLARED_RULE } else { UNUSED_RULE },
            detail: string_of(detail.as_slice()),
        });
        assert(views_of(names@).subrange(0, index + 1) =~= views_of(names@).subrange(0, index as int).push(names@[index as int]@));
        assert(listing_faults(path@, views_of(names@).subrange(0, index + 1), undeclared) =~= listing_faults(path@, views_of(names@).subrange(0, index as int), undeclared).push(
            listing_faults(path@, seq![names@[index as int]@], undeclared)[0]));
        index = index + 1;
    }
    assert(views_of(names@).subrange(0, names@.len() as int) =~= views_of(names@));
}

/// The dependencies check, from what `cargo metadata` printed, the text of
/// the allowlist, and each member's manifest.
///
/// [`PolicyError::Parse`] when the metadata is not what cargo prints or a
/// manifest is not TOML.
pub fn check(root: &str, metadata: &[u8], allowlist: &str, members: &[MemberManifest]) -> (found: Result<Vec<Violation>, PolicyError>)
    ensures
        match dependencies_outcome(root@, metadata@, allowlist@, members@) {
            Err((path, detail)) => found matches Err(PolicyError::Parse { path: told, detail: said }) && told@ == path
                && said@ == detail,
            Ok(faults) => found matches Ok(violations) && faults_of(violations@) == faults,
        },
{
    proof {
        reveal_strlit("cargo metadata: ");
    }
    let resolved = match resolved_packages(metadata) {
        Ok(resolved) => resolved,
        Err(said) => {
            let mut detail: Vec<char> = Vec::new();
            extend_str(&mut detail, "cargo metadata: ");
            extend_str(&mut detail, said.as_str());
            return Err(PolicyError::Parse { path: crate::paths::join_path(root, "Cargo.toml"), detail: string_of(detail.as_slice()) });
        },
    };
    let allowed = allowlisted_packages(allowlist);
    let path = relative(root, crate::paths::join_path(root, ALLOWLIST).as_str());
    let mut violations: Vec<Violation> = Vec::new();
    assert(faults_of(violations@) =~= Seq::<Fault>::empty());
    let undeclared = crate::text::sorted_difference(resolved.as_slice(), allowed.as_slice());
    report_listing(path.as_str(), &undeclared, true, &mut violations);
    let unused = crate::text::sorted_difference(allowed.as_slice(), resolved.as_slice());
    report_listing(path.as_str(), &unused, false, &mut violations);
    let ghost listed = faults_of(violations@);
    let mut index: usize = 0;
    assert(listed + Seq::<Fault>::empty() =~= listed);
    while index < members.len()
        invariant
            index <= members@.len(),
            resolved_reading(metadata@) is Ok,
            members_outcome(root@, members@, index as int) matches Ok(faults) && faults_of(violations@) == listed + faults,
        decreases members@.len() - index,
    {
        let ghost before = faults_of(violations@);
        match check_manifest(root, &members[index], &mut violations) {
            Err(error) => {
                proof {
                    lemma_members_failure_stays(root@, members@, index + 1, members@.len() as int);
                }
                return Err(error);
            },
            Ok(()) => {},
        }
        index = index + 1;
    }
    Ok(violations)
}

/// Once the first members fail, every longer run of them fails the same
/// way.
proof fn lemma_members_failure_stays(root: Seq<char>, members: Seq<MemberManifest>, count: int, total: int)
    requires
        0 <= count <= total,
        members_outcome(root, members, count) is Err,
    ensures
        members_outcome(root, members, total) == members_outcome(root, members, count),
    decreases total - count,
{
    if count < total {
        lemma_members_failure_stays(root, members, count + 1, total);
    }
}

} // verus!
