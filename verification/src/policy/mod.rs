//! The policy checks clippy cannot express: whole-word names from a
//! committed vocabulary, no magic numbers, file length, documentation
//! placement, link integrity, the dependency allowlist, the blocking-call
//! boundary, the unsafe boundary, and the absence of `allow`, `expect` and
//! `cfg(test)`. Each check is a function from what a tree holds (the texts
//! of its files, and what a parser found in its sources) to the violations
//! in it.
use vstd::prelude::*;

use crate::paths::{components, joined, lies_under, path_extension, path_join, stripped_of};
use crate::text::{
    begins_with, chars_of, decimal, decimal_chars, extend, extend_str, lines, lines_of,
    starts_with, string_of, trim, trim_start, trimmed, trimmed_start,
};

pub mod attributes;
pub mod blocking;
pub mod dependencies;
pub mod documentation;
pub mod length;
pub mod lexicon;
pub mod links;
pub mod literals;
pub mod unsafe_boundary;

verus! {

/// The synthetic trees with deliberate violations, relative to the root. No
/// check reads them as part of the tree it is given: they are what the
/// tree's checks are proven against.
pub const FIXTURES: &'static str = "xtask/tests/fixtures";

/// The directories whose sources the source-level checks read, relative to
/// the root.
pub open spec fn source_root_names() -> Seq<Seq<char>> {
    seq!["crates"@, "xtask"@]
}

/// The directories whose sources the source-level checks read.
pub fn source_roots() -> (roots: Vec<&'static str>)
    ensures
        roots@.map_values(|root: &'static str| root@) == source_root_names(),
{
    let roots = vec!["crates", "xtask"];
    assert(roots@.map_values(|root: &'static str| root@) =~= source_root_names());
    roots
}

/// The crate roots, relative to a crate's directory: a library's and a
/// binary's, each a crate root when present.
pub open spec fn crate_root_names() -> Seq<Seq<char>> {
    seq!["src/lib.rs"@, "src/main.rs"@]
}

/// The crate roots, relative to a crate's directory.
pub fn crate_roots() -> (roots: Vec<&'static str>)
    ensures
        roots@.map_values(|root: &'static str| root@) == crate_root_names(),
{
    let roots = vec!["src/lib.rs", "src/main.rs"];
    assert(roots@.map_values(|root: &'static str| root@) =~= crate_root_names());
    roots
}

/// The directories at the root that hold no source: the build output and
/// the repository's own data.
pub open spec fn unscanned_names() -> Seq<Seq<char>> {
    seq!["target"@, ".git"@]
}

/// One rule broken at one place.
#[derive(Clone, Debug, PartialEq, Eq)]
pub struct Violation {
    /// The file, relative to the root.
    pub path: String,
    /// The line, when the rule is about a line.
    pub line: Option<usize>,
    /// The rule broken.
    pub rule: &'static str,
    /// What is wrong, in a sentence.
    pub detail: String,
}

/// What a violation says: its path, line, rule and detail.
pub type Fault = (Seq<char>, Option<usize>, Seq<char>, Seq<char>);

impl View for Violation {
    type V = Fault;

    open spec fn view(&self) -> Fault {
        (self.path@, self.line, self.rule@, self.detail@)
    }
}

/// What a list of violations says.
pub open spec fn faults_of(found: Seq<Violation>) -> Seq<Fault> {
    found.map_values(|violation: Violation| violation@)
}

/// One file and its text.
#[derive(Clone, Debug)]
pub struct SourceText {
    /// The file.
    pub path: String,
    /// Its text.
    pub text: String,
}

/// Adds one violation to a list.
pub fn report(violations: &mut Vec<Violation>, violation: Violation)
    ensures
        faults_of(final(violations)@) == faults_of(old(violations)@).push(violation@),
{
    let ghost before = violations@;
    violations.push(violation);
    assert(faults_of(violations@) =~= faults_of(before).push(violation@));
}

/// How a violation reads: `path:line: rule: detail`, or `path: rule: detail`
/// when the rule is about no line.
pub open spec fn violation_text(violation: Violation) -> Seq<char> {
    match violation.line {
        Some(line) => violation.path@ + ":"@ + decimal(line as nat) + ": "@ + violation.rule@ + ": "@ + violation.detail@,
        None => violation.path@ + ": "@ + violation.rule@ + ": "@ + violation.detail@,
    }
}

impl Violation {
    /// How the violation reads.
    pub fn message(&self) -> (said: String)
        ensures
            said@ == violation_text(*self),
    {
        let mut held: Vec<char> = Vec::new();
        extend_str(&mut held, self.path.as_str());
        match self.line {
            Some(line) => {
                extend_str(&mut held, ":");
                let shown = decimal_chars(line as u64);
                extend(&mut held, shown.as_slice());
            },
            None => {},
        }
        extend_str(&mut held, ": ");
        extend_str(&mut held, self.rule);
        extend_str(&mut held, ": ");
        extend_str(&mut held, self.detail.as_str());
        proof {
            reveal_strlit(":");
            reveal_strlit(": ");
        }
        string_of(held.as_slice())
    }
}

/// Why a check could not run to completion (an unreadable file, a file that
/// does not parse, a tool that failed) as distinct from a violation it
/// found.
#[derive(Clone, Debug)]
pub enum PolicyError {
    /// A file or directory could not be read.
    Io {
        /// The path.
        path: String,
        /// What the operating system said.
        detail: String,
    },
    /// A file is not what its kind requires.
    Parse {
        /// The path.
        path: String,
        /// What the parser said.
        detail: String,
    },
    /// A tool the check runs did not complete.
    Process {
        /// What went wrong.
        detail: String,
    },
}

/// How a policy error reads.
pub open spec fn policy_message(error: PolicyError) -> Seq<char> {
    match error {
        PolicyError::Io { path, detail } => path@ + ": "@ + detail@,
        PolicyError::Parse { path, detail } => path@ + ": "@ + detail@,
        PolicyError::Process { detail } => detail@,
    }
}

impl PolicyError {
    /// How the error reads.
    pub fn message(&self) -> (said: String)
        ensures
            said@ == policy_message(*self),
    {
        proof {
            reveal_strlit(": ");
        }
        match self {
            PolicyError::Io { path, detail } | PolicyError::Parse { path, detail } => {
                let mut held: Vec<char> = Vec::new();
                extend_str(&mut held, path.as_str());
                extend_str(&mut held, ": ");
                extend_str(&mut held, detail.as_str());
                string_of(held.as_slice())
            },
            PolicyError::Process { detail } => detail.clone(),
        }
    }
}

/// The fixtures directory of a root.
pub open spec fn fixtures_of(root: Seq<char>) -> Seq<char> {
    path_join(root, FIXTURES@)
}

/// Whether `path` lies under the fixtures of `root`.
pub fn is_fixture(root: &str, path: &str) -> (fixture: bool)
    ensures
        fixture == lies_under(path@, fixtures_of(root@)),
{
    let fixtures = crate::paths::join_path(root, FIXTURES);
    crate::paths::starts_with_path(path, fixtures.as_str())
}

/// The synthetic tree of one check under a root's fixtures:
/// `xtask/tests/fixtures/policy/<check>/<tree>`.
pub open spec fn fixture_root_of(root: Seq<char>, check: Seq<char>, tree: Seq<char>) -> Seq<char> {
    path_join(path_join(path_join(fixtures_of(root), "policy"@), check), tree)
}

/// The synthetic tree `tree` of the check `check` under `root`'s fixtures.
pub fn fixture_root(root: &str, check: &str, tree: &str) -> (found: String)
    ensures
        found@ == fixture_root_of(root@, check@, tree@),
{
    let fixtures = crate::paths::join_path(root, FIXTURES);
    let policy = crate::paths::join_path(fixtures.as_str(), "policy");
    let named = crate::paths::join_path(policy.as_str(), check);
    crate::paths::join_path(named.as_str(), tree)
}

/// The synthetic trees lie under the fixtures, so a walk of the tree they
/// belong to leaves every one of them out: no check reads a fixture as part
/// of the tree it is given. A check or tree name that is itself rooted is
/// joined as `Path::join` joins one, in place of what came before.
pub proof fn lemma_fixture_trees_left_out(root: Seq<char>, check: Seq<char>, tree: Seq<char>)
    requires
        !crate::paths::rooted(check),
        !crate::paths::rooted(tree),
    ensures
        lies_under(fixture_root_of(root, check, tree), fixtures_of(root)),
        left_out(root, fixture_root_of(root, check, tree)),
{
    reveal_strlit("policy");
    let fixtures = fixtures_of(root);
    let policy = path_join(fixtures, "policy"@);
    let named = path_join(policy, check);
    crate::paths::lemma_join_components(fixtures, "policy"@);
    crate::paths::lemma_join_components(policy, check);
    crate::paths::lemma_join_components(named, tree);
    let whole = fixture_root_of(root, check, tree);
    assert(components(whole) =~= components(fixtures) + (components("policy"@) + components(check) + components(tree)));
    assert(components(whole).subrange(0, components(fixtures).len() as int) =~= components(fixtures));
}

/// A path relative to a root, for reporting; a path outside the root as it
/// is.
pub open spec fn relative_of(root: Seq<char>, path: Seq<char>) -> Seq<char> {
    match stripped_of(path, root) {
        Some(rest) => rest,
        None => path,
    }
}

/// `path` relative to `root`, for reporting; a path outside the root is
/// reported as it is.
pub fn relative(root: &str, path: &str) -> (reported: String)
    ensures
        reported@ == relative_of(root@, path@),
{
    match crate::paths::strip_path(path, root) {
        Some(rest) => rest,
        None => path.to_owned(),
    }
}

/// Whether a directory entry is left out of a walk of a tree: anything
/// under the fixtures, and the root's own `target` and `.git`.
pub open spec fn left_out(root: Seq<char>, path: Seq<char>) -> bool {
    ||| lies_under(path, fixtures_of(root))
    ||| {
        &&& components(path).len() > 0
        &&& lies_under(path, root)
        &&& components(path).len() == components(root).len() + 1
        &&& unscanned_names().contains(components(path).last())
    }
}

/// Whether a walk of a tree leaves an entry out.
pub fn skipped(root: &str, path: &str) -> (skip: bool)
    ensures
        skip == left_out(root@, path@),
{
    if is_fixture(root, path) {
        return true;
    }
    if !crate::paths::starts_with_path(path, root) {
        return false;
    }
    let own = crate::paths::components_of(chars_of(path).as_slice());
    let theirs = crate::paths::components_of(chars_of(root).as_slice());
    if own.len() == 0 || own.len() - 1 != theirs.len() {
        return false;
    }
    let last = &own[own.len() - 1];
    proof {
        assert(own@.map_values(|piece: Vec<char>| piece@).last() == last@);
        reveal_strlit("target");
        reveal_strlit(".git");
    }
    let found = crate::text::spells(last.as_slice(), "target") || crate::text::spells(last.as_slice(), ".git");
    proof {
        assert(unscanned_names().contains(last@) <==> (last@ == "target"@ || last@ == ".git"@)) by {
            if unscanned_names().contains(last@) {
                let at = choose|at: int| 0 <= at < unscanned_names().len() && unscanned_names()[at] == last@;
            }
            if last@ == "target"@ {
                assert(unscanned_names()[0] == last@);
            }
            if last@ == ".git"@ {
                assert(unscanned_names()[1] == last@);
            }
        }
    }
    found
}

/// Whether a path names a Rust source file.
pub open spec fn is_rust(path: Seq<char>) -> bool {
    path_extension(path) == Some("rs"@)
}

/// The Rust files among those found under the source roots, in the order
/// found.
pub fn rust_files(found: &[String]) -> (sources: Vec<String>)
    ensures
        sources@.map_values(|path: String| path@) == found@.map_values(|path: String| path@).filter(|path: Seq<char>| is_rust(path)),
{
    proof {
        reveal_strlit("rs");
    }
    let ghost every = found@.map_values(|path: String| path@);
    let mut sources: Vec<String> = Vec::new();
    let mut index: usize = 0;
    while index < found.len()
        invariant
            index <= found@.len(),
            every == found@.map_values(|path: String| path@),
            sources@.map_values(|path: String| path@) == every.subrange(0, index as int).filter(|path: Seq<char>| is_rust(path)),
        decreases found@.len() - index,
    {
        proof {
            reveal(Seq::filter);
            assert(every.subrange(0, index + 1).drop_last() =~= every.subrange(0, index as int));
        }
        let rust = match crate::paths::extension(found[index].as_str()) {
            Some(extension) => crate::text::spells(chars_of(extension.as_str()).as_slice(), "rs"),
            None => false,
        };
        if rust {
            let ghost before = sources@;
            sources.push(found[index].clone());
            assert(sources@.map_values(|path: String| path@) =~= before.map_values(|path: String| path@).push(every[index as int]));
        }
        index = index + 1;
    }
    assert(every.subrange(0, every.len() as int) =~= every);
    sources
}

/// The key paths of one tree are put in order by: their components, joined
/// by a character no name holds, so that two paths compare as `Path`s do,
/// component by component.
pub open spec fn path_key(path: Seq<char>) -> Seq<char> {
    crate::claims::selection::joined_with(components(path), "\0"@)
}

/// The key a path is put in order by.
fn key_for(path: &str) -> (key: Vec<char>)
    ensures
        key@ == path_key(path@),
{
    let pieces = crate::paths::components_of(chars_of(path).as_slice());
    let mut texts: Vec<String> = Vec::new();
    let mut index: usize = 0;
    while index < pieces.len()
        invariant
            index <= pieces@.len(),
            crate::text::views_of(texts@) == pieces@.map_values(|piece: Vec<char>| piece@).subrange(0, index as int),
        decreases pieces@.len() - index,
    {
        let ghost before = texts@;
        texts.push(string_of(pieces[index].as_slice()));
        assert(crate::text::views_of(texts@) =~= crate::text::views_of(before).push(pieces@[index as int]@));
        index = index + 1;
    }
    assert(pieces@.map_values(|piece: Vec<char>| piece@).subrange(0, pieces@.len() as int) =~= pieces@.map_values(
        |piece: Vec<char>| piece@,
    ));
    crate::claims::selection::join(texts.as_slice(), "\0")
}

/// Whether paths are in the order a walk of a tree lists them: no path's key
/// before an earlier one's.
pub open spec fn in_path_order_of(paths: Seq<String>) -> bool {
    forall|earlier: int, later: int|
        0 <= earlier < later < paths.len() ==> !crate::text::precedes(path_key(#[trigger] paths[later]@), path_key(#[trigger] paths[earlier]@))
}

/// The paths a walk of a tree found, put in the order `Path`s sort in:
/// the same paths, each as often, component by component in increasing
/// order.
pub fn in_path_order(found: &[String]) -> (ordered: Vec<String>)
    ensures
        ordered@.to_multiset() == found@.to_multiset(),
        in_path_order_of(ordered@),
{
    let mut ordered: Vec<String> = Vec::new();
    let mut index: usize = 0;
    assert(found@.subrange(0, 0) =~= Seq::<String>::empty());
    while index < found.len()
        invariant
            index <= found@.len(),
            ordered@.to_multiset() == found@.subrange(0, index as int).to_multiset(),
            in_path_order_of(ordered@),
        decreases found@.len() - index,
    {
        let path = found[index].clone();
        let key = key_for(path.as_str());
        let mut place: usize = 0;
        while place < ordered.len() && !crate::text::comes_before(key.as_slice(), key_for(ordered[place].as_str()).as_slice())
            invariant
                place <= ordered@.len(),
                forall|at: int| 0 <= at < place ==> !crate::text::precedes(key@, path_key(#[trigger] ordered@[at]@)),
            decreases ordered@.len() - place,
        {
            place = place + 1;
        }
        let ghost before = ordered@;
        ordered.insert(place, path);
        proof {
            assert forall|earlier: int, later: int| 0 <= earlier < later < ordered@.len() implies !crate::text::precedes(
                path_key(#[trigger] ordered@[later]@),
                path_key(#[trigger] ordered@[earlier]@),
            ) by {
                let at = place as int;
                if later == at {
                    assert(ordered@[earlier] == before[earlier]);
                } else if earlier == at {
                    let other = before[later - 1];
                    assert(ordered@[later] == other);
                    assert(place < before.len());
                    let first = before[at];
                    assert(crate::text::precedes(key@, path_key(first@)));
                    if crate::text::precedes(path_key(other@), key@) {
                        crate::text::lemma_precedes_transitive(path_key(other@), key@, path_key(first@));
                        if later - 1 > at {
                            assert(!crate::text::precedes(path_key(before[later - 1]@), path_key(before[at]@)));
                        } else {
                            crate::text::lemma_precedes_irreflexive(path_key(first@));
                        }
                    }
                } else {
                    let e = if earlier < at { earlier } else { earlier - 1 };
                    let l = if later < at { later } else { later - 1 };
                    assert(ordered@[earlier] == before[e]);
                    assert(ordered@[later] == before[l]);
                }
            }
            assert(found@.subrange(0, index + 1) =~= found@.subrange(0, index as int).push(found@[index as int]));
            assert(ordered@ == before.insert(place as int, found@[index as int]));
            vstd::seq_lib::to_multiset_insert(before, place as int, found@[index as int]);
            vstd::seq_lib::to_multiset_build(found@.subrange(0, index as int), found@[index as int]);
            assert(before.insert(place as int, found@[index as int]).to_multiset() == before.to_multiset().insert(found@[index as int]));
            assert(found@.subrange(0, index as int).push(found@[index as int]).to_multiset() == found@.subrange(0, index as int).to_multiset().insert(
                found@[index as int],
            ));
        }
        index = index + 1;
    }
    assert(found@.subrange(0, found@.len() as int) =~= found@);
    ordered
}

/// A Rust source file as `syn` parses it; it is carried to the checks that
/// walk it.
#[verifier::external_type_specification]
#[verifier::external_body]
pub struct ExRustFile(syn::File);

/// A name for whether `syn` takes a text as a Rust file, and what it said
/// when it does not.
pub uninterp spec fn rust_parse(text: Seq<char>) -> Result<(), Seq<char>>;

/// Parses a text with `syn::parse_file`; on a parse error, the error's
/// `Display` text. Its contract says that the outcome is `syn`'s for this
/// text; what the parsed file holds is left to `syn`.
#[verifier::external_body]
fn syn_file(text: &str) -> (parsed: Result<syn::File, String>)
    ensures
        match rust_parse(text@) {
            Ok(()) => parsed is Ok,
            Err(said) => parsed matches Err(held) && held@ == said,
        },
{
    syn::parse_file(text).map_err(|error| error.to_string())
}

/// Parses the text of a Rust source file.
///
/// [`PolicyError::Parse`], naming the file, when the text is not Rust.
pub fn parse_rust(path: &str, text: &str) -> (parsed: Result<syn::File, PolicyError>)
    ensures
        match rust_parse(text@) {
            Ok(()) => parsed is Ok,
            Err(said) => parsed matches Err(PolicyError::Parse { path: named, detail }) && named@ == path@
                && detail@ == said,
        },
{
    match syn_file(text) {
        Ok(file) => Ok(file),
        Err(said) => Err(PolicyError::Parse { path: path.to_owned(), detail: said }),
    }
}

/// A name for what `toml` makes of a manifest's text: the string at
/// `package.name` when there is one, nothing when there is not, or what the
/// parser said.
pub uninterp spec fn toml_package_name(text: Seq<char>) -> Result<Option<Seq<char>>, Seq<char>>;

/// Parses a manifest with `toml::from_str` into a `toml::Table` and picks
/// the string at `package.name`; on a parse error, the error's `Display`
/// text. Its contract says only that the answer is `toml`'s for this text.
#[verifier::external_body]
pub(crate) fn parsed_package_name(text: &str) -> (name: Result<Option<String>, String>)
    ensures
        match toml_package_name(text@) {
            Ok(None) => name == Ok::<Option<String>, String>(None),
            Ok(Some(found)) => name matches Ok(Some(held)) && held@ == found,
            Err(said) => name matches Err(held) && held@ == said,
        },
{
    match toml::from_str::<toml::Table>(text) {
        Ok(table) => Ok(table.get("package").and_then(|held| held.get("name")).and_then(toml::Value::as_str).map(str::to_owned)),
        Err(error) => Err(error.to_string()),
    }
}

/// The `package.name` a manifest declares, or why there is none: what the
/// parser said, or that it names no package.
pub open spec fn package_name_reading(reading: Result<Option<Seq<char>>, Seq<char>>) -> Result<Seq<char>, Seq<char>> {
    match reading {
        Ok(Some(name)) => Ok(name),
        Ok(None) => Err("no package.name"@),
        Err(said) => Err(said),
    }
}

/// The `package.name` of a crate manifest, given what `toml` made of its
/// text.
pub fn package_name_from(manifest_path: &str, reading: Result<Option<String>, String>) -> (name: Result<String, PolicyError>)
    ensures
        match package_name_reading(match reading {
            Ok(None) => Ok(None),
            Ok(Some(held)) => Ok(Some(held@)),
            Err(said) => Err(said@),
        }) {
            Ok(found) => name matches Ok(held) && held@ == found,
            Err(detail) => name matches Err(PolicyError::Parse { path, detail: said }) && path@ == manifest_path@
                && said@ == detail,
        },
{
    match reading {
        Ok(Some(found)) => Ok(found),
        Ok(None) => Err(PolicyError::Parse { path: manifest_path.to_owned(), detail: "no package.name".to_owned() }),
        Err(said) => Err(PolicyError::Parse { path: manifest_path.to_owned(), detail: said }),
    }
}

/// The `package.name` of a crate manifest, from its text.
///
/// [`PolicyError::Parse`] when the text is not TOML or names no package.
pub fn package_name(manifest_path: &str, text: &str) -> (name: Result<String, PolicyError>)
    ensures
        match package_name_reading(toml_package_name(text@)) {
            Ok(found) => name matches Ok(held) && held@ == found,
            Err(detail) => name matches Err(PolicyError::Parse { path, detail: said }) && path@ == manifest_path@
                && said@ == detail,
        },
{
    package_name_from(manifest_path, parsed_package_name(text))
}

/// Where a line of Markdown stands relative to fenced code blocks.
#[derive(Clone, Debug, PartialEq, Eq)]
pub enum FenceLine {
    /// The line opens a fence; `tag` is what follows the backticks.
    Opening {
        /// The line, one-based.
        line: usize,
        /// The info string after the backticks, trimmed.
        tag: String,
    },
    /// The line closes a fence.
    Closing {
        /// The line, one-based.
        line: usize,
    },
    /// The line is inside a fence.
    Inside {
        /// The line, one-based.
        line: usize,
    },
    /// The line is prose, outside any fence.
    Outside {
        /// The line, one-based.
        line: usize,
        /// The line's text.
        text: String,
    },
}

/// What follows the backticks of a line that marks a fence, or nothing when
/// the line marks none.
pub open spec fn fence_rest(text: Seq<char>) -> Option<Seq<char>> {
    let started = trim_start(text);
    if starts_with(started, "```"@) {
        Some(started.subrange(3, started.len() as int))
    } else {
        None
    }
}

/// Whether the lines before an index leave a fence open: every marking line
/// opens one when none is open and closes it when one is.
pub open spec fn open_after(texts: Seq<Seq<char>>, count: int) -> bool
    decreases count,
{
    if count <= 0 {
        false
    } else if fence_rest(texts[count - 1]) is Some {
        !open_after(texts, count - 1)
    } else {
        open_after(texts, count - 1)
    }
}

/// Whether a fence line says where one line stands, given whether a fence
/// was open before it.
pub open spec fn placed(found: FenceLine, line: usize, text: Seq<char>, inside: bool) -> bool {
    match fence_rest(text) {
        Some(rest) => if inside {
            found == FenceLine::Closing { line }
        } else {
            found matches FenceLine::Opening { line: at, tag } && at == line && tag@ == trim(rest)
        },
        None => if inside {
            found == FenceLine::Inside { line }
        } else {
            found matches FenceLine::Outside { line: at, text: held } && at == line && held@ == text
        },
    }
}

/// The texts of numbered lines.
pub open spec fn texts_of_lines(lines: Seq<(usize, String)>) -> Seq<Seq<char>> {
    lines.map_values(|numbered: (usize, String)| numbered.1@)
}

/// What follows the backticks of a line that marks a fence.
fn marking(text: &[char]) -> (rest: Option<Vec<char>>)
    ensures
        match fence_rest(text@) {
            None => rest is None,
            Some(found) => rest matches Some(held) && held@ == found,
        },
{
    proof {
        reveal_strlit("```");
    }
    let started = trimmed_start(text);
    let ticks = chars_of("```");
    if begins_with(started.as_slice(), ticks.as_slice()) {
        Some(crate::text::slice_of(started.as_slice(), 3, started.len()))
    } else {
        None
    }
}

/// Walks numbered lines of Markdown, telling fences from prose: the one
/// place the fence rule is written.
pub fn fence_lines(lines: &[(usize, String)]) -> (found: Vec<FenceLine>)
    ensures
        found@.len() == lines@.len(),
        forall|index: int| 0 <= index < lines@.len() ==> placed(#[trigger] found@[index], lines@[index].0, lines@[index].1@, open_after(texts_of_lines(lines@), index)),
{
    let ghost texts = texts_of_lines(lines@);
    let mut found: Vec<FenceLine> = Vec::new();
    let mut inside = false;
    let mut index: usize = 0;
    while index < lines.len()
        invariant
            index <= lines@.len(),
            found@.len() == index,
            texts == texts_of_lines(lines@),
            inside == open_after(texts, index as int),
            forall|at: int| 0 <= at < index ==> placed(#[trigger] found@[at], lines@[at].0, lines@[at].1@, open_after(texts, at)),
        decreases lines@.len() - index,
    {
        let line = lines[index].0;
        let text = chars_of(lines[index].1.as_str());
        assert(texts[index as int] == text@);
        let placed_line = match marking(text.as_slice()) {
            Some(rest) => if !inside {
                inside = true;
                FenceLine::Opening { line, tag: string_of(trimmed(rest.as_slice()).as_slice()) }
            } else {
                inside = false;
                FenceLine::Closing { line }
            },
            None => if inside {
                FenceLine::Inside { line }
            } else {
                FenceLine::Outside { line, text: lines[index].1.clone() }
            },
        };
        found.push(placed_line);
        index = index + 1;
    }
    found
}

/// The lines of a text, numbered from one.
pub fn numbered_lines(text: &str) -> (numbered: Vec<(usize, String)>)
    ensures
        numbered@.len() == lines(text@).len(),
        forall|index: int| 0 <= index < numbered@.len() ==> (#[trigger] numbered@[index]).0 == index + 1
            && numbered@[index].1@ == lines(text@)[index],
{
    let found = lines_of(chars_of(text).as_slice());
    let mut numbered: Vec<(usize, String)> = Vec::new();
    let mut index: usize = 0;
    while index < found.len()
        invariant
            index <= found@.len(),
            found@.len() == lines(text@).len(),
            forall|at: int| 0 <= at < found@.len() ==> #[trigger] found@[at]@ == lines(text@)[at],
            numbered@.len() == index,
            forall|at: int| 0 <= at < index ==> (#[trigger] numbered@[at]).0 == at + 1 && numbered@[at].1@ == lines(text@)[at],
        decreases found@.len() - index,
    {
        numbered.push((index + 1, string_of(found[index].as_slice())));
        index = index + 1;
    }
    numbered
}

/// A name for what `toml` makes of a root manifest's text: the entries of
/// its `workspace.members` array, each the text it holds when it is a
/// string (none when there is no such array), or what the parser said.
pub uninterp spec fn toml_members(text: Seq<char>) -> Result<Seq<Option<Seq<char>>>, Seq<char>>;

/// Parses a root manifest with `toml::from_str` into a `toml::Table` and
/// lists the entries of its `workspace.members` array, each as its string
/// when it is one; on a parse error, the error's `Display` text. Its
/// contract says only that the answer is `toml`'s for this text.
#[verifier::external_body]
fn member_entries(text: &str) -> (entries: Result<Vec<Option<String>>, String>)
    ensures
        match toml_members(text@) {
            Ok(found) => entries matches Ok(held) && held@.map_values(|entry: Option<String>| match entry {
                Some(member) => Some(member@),
                None => None,
            }) == found,
            Err(said) => entries matches Err(held) && held@ == said,
        },
{
    match toml::from_str::<toml::Table>(text) {
        Ok(table) => Ok(table.get("workspace").and_then(|held| held.get("members")).and_then(toml::Value::as_array)
            .into_iter().flatten().map(|entry| entry.as_str().map(str::to_owned)).collect()),
        Err(error) => Err(error.to_string()),
    }
}

/// The member directories the first entries of a `workspace.members`
/// array name, each joined onto the root; entries that are no string left
/// out.
pub open spec fn member_paths(root: Seq<char>, entries: Seq<Option<Seq<char>>>, count: int) -> Seq<Seq<char>>
    decreases count,
{
    if count <= 0 {
        Seq::empty()
    } else {
        match entries[count - 1] {
            Some(member) => member_paths(root, entries, count - 1).push(path_join(root, member)),
            None => member_paths(root, entries, count - 1),
        }
    }
}

/// The directories of the workspace members a root manifest names, in
/// manifest order, or what the parser said of it.
pub open spec fn members_reading(root: Seq<char>, text: Seq<char>) -> Result<Seq<Seq<char>>, Seq<char>> {
    match toml_members(text) {
        Ok(entries) => Ok(member_paths(root, entries, entries.len() as int)),
        Err(said) => Err(said),
    }
}

/// The directories of the workspace members named by the root manifest, in
/// manifest order.
///
/// [`PolicyError::Parse`] when the manifest is not TOML.
pub fn workspace_members(root: &str, manifest: &str) -> (members: Result<Vec<String>, PolicyError>)
    ensures
        match members_reading(root@, manifest@) {
            Ok(paths) => members matches Ok(held) && crate::text::views_of(held@) == paths,
            Err(said) => members matches Err(PolicyError::Parse { path, detail }) && path@ == path_join(root@, "Cargo.toml"@)
                && detail@ == said,
        },
{
    let entries = match member_entries(manifest) {
        Ok(entries) => entries,
        Err(said) => {
            return Err(PolicyError::Parse { path: crate::paths::join_path(root, "Cargo.toml"), detail: said });
        },
    };
    let ghost views = entries@.map_values(|entry: Option<String>| match entry {
        Some(member) => Some(member@),
        None => None,
    });
    let mut members: Vec<String> = Vec::new();
    let mut index: usize = 0;
    while index < entries.len()
        invariant
            index <= entries@.len(),
            views == entries@.map_values(|entry: Option<String>| match entry {
                Some(member) => Some(member@),
                None => None,
            }),
            crate::text::views_of(members@) == member_paths(root@, views, index as int),
        decreases entries@.len() - index,
    {
        match &entries[index] {
            Some(member) => {
                let ghost before = members@;
                members.push(crate::paths::join_path(root, member.as_str()));
                assert(crate::text::views_of(members@) =~= crate::text::views_of(before).push(path_join(root@, member@)));
            },
            None => {},
        }
        index = index + 1;
    }
    Ok(members)
}

} // verus!
