//! No blocking standard-library facility under the two asynchronous crates:
//! `iznik-server` and `iznik-client` are asynchronous end to end, and in
//! their sources nothing names `std::thread::sleep`, the blocking `std::io`
//! streams and traits, or `std::process` beyond its inert types and values
//! (`ExitCode`, `ExitStatus`, `Stdio`, `Output`, `id`). One file is the
//! exception and part of the rule: `crates/iznik-server/src/pty/streams.rs`,
//! whose whole purpose is to turn a pseudoterminal's blocking descriptor
//! into async streams on dedicated threads.
//!
//! Resolution is syntactic: the `use` declarations of a file, flattened to
//! local names, resolve the paths it names, in the order a parser walks
//! them. A parser hands this module what it walks; this module resolves and
//! judges.
use vstd::prelude::*;

use crate::paths::{path_join, same_place};
use crate::policy::{Fault, Violation, faults_of, is_rust, relative, relative_of, report};
use crate::text::{chars_of, extend, extend_str, find, starts_with, string_of, views_of};

verus! {

/// The crates held to the rule, relative to the root.
pub open spec fn asynchronous_source_names() -> Seq<Seq<char>> {
    seq!["crates/iznik-server/src"@, "crates/iznik-client/src"@]
}

/// The crates held to the rule, relative to the root.
pub fn asynchronous_sources() -> (sources: Vec<&'static str>)
    ensures
        sources@.map_values(|source: &'static str| source@) == asynchronous_source_names(),
{
    let sources = vec!["crates/iznik-server/src", "crates/iznik-client/src"];
    assert(sources@.map_values(|source: &'static str| source@) =~= asynchronous_source_names());
    sources
}

/// The one file the rule does not apply to, relative to the root.
pub const EXCEPTION: &'static str = "crates/iznik-server/src/pty/streams.rs";

/// The module every item of which blocks or bypasses the runtime, except
/// the inert names.
pub const PROCESS_MODULE: &'static str = "std::process";

/// The rule a blocking facility breaks.
pub const RULE: &'static str = "blocking";

/// The facilities outside `std::process` that block: the architecture's
/// list, and the rest of `std::io`'s reading and writing.
pub open spec fn forbidden() -> Seq<Seq<char>> {
    seq![
        "std::thread::sleep"@, "std::io::Read"@, "std::io::Write"@, "std::io::BufRead"@,
        "std::io::Seek"@, "std::io::copy"@, "std::io::read_to_string"@, "std::io::stdin"@,
        "std::io::stdout"@, "std::io::stderr"@, "std::io::Stdin"@, "std::io::Stdout"@,
        "std::io::Stderr"@, "std::io::BufReader"@, "std::io::BufWriter"@, "std::io::LineWriter"@,
        "std::io::prelude"@,
    ]
}

/// The facilities outside `std::process` that block.
pub fn forbidden_facilities() -> (found: Vec<&'static str>)
    ensures
        found@.map_values(|facility: &'static str| facility@) == forbidden(),
{
    let found = vec![
        "std::thread::sleep", "std::io::Read", "std::io::Write", "std::io::BufRead",
        "std::io::Seek", "std::io::copy", "std::io::read_to_string", "std::io::stdin",
        "std::io::stdout", "std::io::stderr", "std::io::Stdin", "std::io::Stdout",
        "std::io::Stderr", "std::io::BufReader", "std::io::BufWriter", "std::io::LineWriter",
        "std::io::prelude",
    ];
    assert(found@.map_values(|facility: &'static str| facility@) =~= forbidden());
    found
}

/// Whether a name is one of the inert names of `std::process`: types a
/// binary returns and the runtime hands out, and the process id.
pub open spec fn is_allowed_process_item(item: Seq<char>) -> bool {
    item == "ExitCode"@ || item == "ExitStatus"@ || item == "Stdio"@ || item == "Output"@ || item == "id"@
}

/// Whether a module is one a glob import of which cannot be told apart from
/// importing a forbidden facility.
pub open spec fn is_forbidden_glob(module: Seq<char>) -> bool {
    module == "std::thread"@ || module == "std::io"@ || module == "std::io::prelude"@ || module == "std::process"@
}

/// Whether a path is a facility, or lies inside it.
pub open spec fn within(path: Seq<char>, facility: Seq<char>) -> bool {
    path == facility || (starts_with(path, facility) && starts_with(path.subrange(facility.len() as int, path.len() as int), "::"@))
}

/// The first of the forbidden facilities from an index on that a path is
/// or lies inside.
pub open spec fn first_within(path: Seq<char>, from: int) -> Option<Seq<char>>
    decreases forbidden().len() - from,
{
    if from < 0 || from >= forbidden().len() {
        None
    } else if within(path, forbidden()[from]) {
        Some(forbidden()[from])
    } else {
        first_within(path, from + 1)
    }
}

/// The text before the first `::` of a text, or all of it.
pub open spec fn before_separator(text: Seq<char>) -> Seq<char> {
    let at = find(text, "::"@);
    if at < 0 {
        text
    } else {
        text.subrange(0, at)
    }
}

/// The forbidden facility a path from `std` names or lies inside, if any:
/// under `std::process`, the item named unless it is inert; elsewhere the
/// first listed facility it is or lies inside.
pub open spec fn facility_of(path: Seq<char>) -> Option<Seq<char>> {
    if starts_with(path, PROCESS_MODULE@) {
        let rest = path.subrange(PROCESS_MODULE@.len() as int, path.len() as int);
        if !starts_with(rest, "::"@) {
            None
        } else {
            let item = before_separator(rest.subrange(2, rest.len() as int));
            if is_allowed_process_item(item) {
                None
            } else {
                Some(PROCESS_MODULE@ + "::"@ + item)
            }
        }
    } else {
        first_within(path, 0)
    }
}

/// The forbidden facility a path from `std` names or lies inside, if any.
pub fn forbidden_facility(path: &str) -> (facility: Option<String>)
    ensures
        match facility_of(path@) {
            None => facility is None,
            Some(found) => facility matches Some(held) && held@ == found,
        },
{
    proof {
        reveal_strlit("::");
        reveal_strlit("std::process");
        reveal_strlit("ExitCode");
        reveal_strlit("ExitStatus");
        reveal_strlit("Stdio");
        reveal_strlit("Output");
        reveal_strlit("id");
    }
    let text = chars_of(path);
    let process = chars_of(PROCESS_MODULE);
    let separator = chars_of("::");
    if crate::text::begins_with(text.as_slice(), process.as_slice()) {
        let rest = crate::text::slice_of(text.as_slice(), 12, text.len());
        if !crate::text::begins_with(rest.as_slice(), separator.as_slice()) {
            return None;
        }
        let after = crate::text::slice_of(rest.as_slice(), 2, rest.len());
        proof {
            crate::text::lemma_find(after@, "::"@);
        }
        let item = match crate::text::find_part(after.as_slice(), separator.as_slice()) {
            Some(at) => crate::text::slice_of(after.as_slice(), 0, at),
            None => crate::text::slice_of(after.as_slice(), 0, after.len()),
        };
        assert(item@ == before_separator(after@));
        let word = item.as_slice();
        if crate::text::spells(word, "ExitCode") || crate::text::spells(word, "ExitStatus") || crate::text::spells(word, "Stdio")
            || crate::text::spells(word, "Output") || crate::text::spells(word, "id") {
            return None;
        }
        let mut held = process.clone();
        extend_str(&mut held, "::");
        extend(&mut held, word);
        return Some(string_of(held.as_slice()));
    }
    let facilities = forbidden_facilities();
    let mut index: usize = 0;
    assert(first_within(path@, 0) == first_within(path@, index as int));
    while index < facilities.len()
        invariant
            index <= facilities@.len(),
            facilities@.map_values(|facility: &'static str| facility@) == forbidden(),
            text@ == path@,
            !starts_with(path@, PROCESS_MODULE@),
            first_within(path@, 0) == first_within(path@, index as int),
        decreases facilities@.len() - index,
    {
        proof {
            reveal_strlit("::");
        }
        let facility = chars_of(facilities[index]);
        assert(forbidden()[index as int] == facility@);
        let inside = crate::text::same_chars(text.as_slice(), facility.as_slice()) || (crate::text::begins_with(text.as_slice(), facility.as_slice())
            && crate::text::begins_with(crate::text::slice_of(text.as_slice(), facility.len(), text.len()).as_slice(), chars_of("::").as_slice()));
        if inside {
            return Some(string_of(facility.as_slice()));
        }
        index = index + 1;
    }
    None
}

/// What a walk of one file has found: its imports (each local name with
/// the full path it stands for, later ones shadowing earlier), every path it
/// names that resolves to `std` with its line, and its glob imports of
/// forbidden modules with their lines.
pub type Walked = (Seq<(Seq<char>, Seq<char>)>, Seq<(Seq<char>, usize)>, Seq<(Seq<char>, usize)>);

/// `prefix::segment`, or `segment` under an empty prefix.
pub open spec fn joined_segment(prefix: Seq<char>, segment: Seq<char>) -> Seq<char> {
    if prefix.len() == 0 {
        segment
    } else {
        prefix + "::"@ + segment
    }
}

/// `prefix::segment`, or `segment` under an empty prefix.
pub fn join(prefix: &str, segment: &str) -> (joined: String)
    ensures
        joined@ == joined_segment(prefix@, segment@),
{
    proof {
        reveal_strlit("::");
    }
    if chars_of(prefix).len() == 0 {
        return segment.to_owned();
    }
    let mut held = chars_of(prefix);
    extend_str(&mut held, "::");
    extend_str(&mut held, segment);
    string_of(held.as_slice())
}

/// The full path the last import of a local name stands for.
pub open spec fn import_of(imports: Seq<(Seq<char>, Seq<char>)>, local: Seq<char>) -> Option<Seq<char>>
    decreases imports.len(),
{
    if imports.len() == 0 {
        None
    } else if imports.last().0 == local {
        Some(imports.last().1)
    } else {
        import_of(imports.drop_last(), local)
    }
}

/// A head path with the segments from the second up to a count joined on.
pub open spec fn joined_through(head: Seq<char>, segments: Seq<Seq<char>>, count: int) -> Seq<char>
    decreases count,
{
    if count <= 1 {
        head
    } else {
        joined_segment(joined_through(head, segments, count - 1), segments[count - 1])
    }
}

/// A path resolved through the imports: `io::stderr` with `use std::io`
/// becomes `std::io::stderr`; a path from `std` stays as it is; a path
/// whose first segment names no import resolves to nothing.
pub open spec fn resolved(imports: Seq<(Seq<char>, Seq<char>)>, segments: Seq<Seq<char>>) -> Option<Seq<char>> {
    if segments.len() == 0 {
        None
    } else {
        let head = if segments[0] == "std"@ {
            Some("std"@)
        } else {
            import_of(imports, segments[0])
        };
        match head {
            None => None,
            Some(found) => Some(joined_through(found, segments, segments.len() as int)),
        }
    }
}

/// The last `::`-separated piece of a path.
pub open spec fn last_piece(text: Seq<char>) -> Seq<char>
    decreases text.len(),
{
    if text.len() < 2 {
        text
    } else if text.subrange(text.len() - 2, text.len() as int) == "::"@ {
        Seq::empty()
    } else {
        last_piece(text.drop_last()).push(text.last())
    }
}

/// The last `::`-separated piece of a path.
fn last_piece_of(text: &[char]) -> (piece: Vec<char>)
    ensures
        piece@ == last_piece(text@),
{
    proof {
        reveal_strlit("::");
    }
    let mut end: usize = text.len();
    assert(text@.subrange(0, text@.len() as int) + text@.subrange(text@.len() as int, text@.len() as int) =~= text@);
    while end >= 2 && !(text[end - 2] == ':' && text[end - 1] == ':')
        invariant
            end <= text@.len(),
            last_piece(text@) == last_piece(text@.subrange(0, end as int)) + text@.subrange(end as int, text@.len() as int),
        decreases end,
    {
        proof {
            reveal_strlit("::");
            let shorter = text@.subrange(0, end as int);
            assert(shorter.subrange(shorter.len() - 2, shorter.len() as int) != "::"@) by {
                if shorter.subrange(shorter.len() - 2, shorter.len() as int) == "::"@ {
                    assert(shorter.subrange(shorter.len() - 2, shorter.len() as int)[0] == ':');
                    assert(shorter.subrange(shorter.len() - 2, shorter.len() as int)[1] == ':');
                }
            }
            assert(shorter.drop_last() =~= text@.subrange(0, end - 1));
            assert(text@.subrange(end - 1, text@.len() as int) =~= seq![shorter.last()] + text@.subrange(end as int, text@.len() as int));
        }
        end = end - 1;
    }
    proof {
        reveal_strlit("::");
        let shorter = text@.subrange(0, end as int);
        if end >= 2 {
            assert(shorter.subrange(shorter.len() - 2, shorter.len() as int) =~= "::"@);
        } else {
            assert(shorter + text@.subrange(end as int, text@.len() as int) =~= text@);
        }
    }
    if end >= 2 {
        crate::text::slice_of(text, end, text.len())
    } else {
        crate::text::slice_of(text, 0, text.len())
    }
}

/// What a walk has found so far in one file.
#[derive(Debug)]
pub struct Paths {
    /// Each local name with the full path it imports, in order.
    pub imports: Vec<(String, String)>,
    /// Every path named that resolves to `std`, with its line.
    pub named: Vec<(String, usize)>,
    /// Glob imports of forbidden modules, with their lines.
    pub globs: Vec<(String, usize)>,
}

impl View for Paths {
    type V = Walked;

    open spec fn view(&self) -> Walked {
        (
            self.imports@.map_values(|import: (String, String)| (import.0@, import.1@)),
            self.named@.map_values(|named: (String, usize)| (named.0@, named.1)),
            self.globs@.map_values(|glob: (String, usize)| (glob.0@, glob.1)),
        )
    }
}

/// A walk with one more path named, when it resolves.
pub open spec fn naming(walked: Walked, segments: Seq<Seq<char>>, line: usize) -> Walked {
    match resolved(walked.0, segments) {
        Some(path) => (walked.0, walked.1.push((path, line)), walked.2),
        None => walked,
    }
}

impl Paths {
    /// Nothing found yet.
    pub fn new() -> (fresh: Paths)
        ensures
            fresh@ == (Seq::<(Seq<char>, Seq<char>)>::empty(), Seq::<(Seq<char>, usize)>::empty(), Seq::<(Seq<char>, usize)>::empty()),
    {
        let fresh = Paths { imports: Vec::new(), named: Vec::new(), globs: Vec::new() };
        assert(fresh@.0 =~= Seq::<(Seq<char>, Seq<char>)>::empty());
        assert(fresh@.1 =~= Seq::<(Seq<char>, usize)>::empty());
        assert(fresh@.2 =~= Seq::<(Seq<char>, usize)>::empty());
        fresh
    }

    /// The full path the last import of a local name stands for.
    fn lookup(&self, local: &str) -> (found: Option<String>)
        ensures
            match import_of(self@.0, local@) {
                None => found is None,
                Some(full) => found matches Some(held) && held@ == full,
            },
    {
        let mut index: usize = self.imports.len();
        let ghost all = self@.0;
        assert(all.subrange(0, all.len() as int) =~= all);
        while index > 0
            invariant
                index <= self.imports@.len(),
                all == self@.0,
                import_of(all, local@) == import_of(all.subrange(0, index as int), local@),
            decreases index,
        {
            let (name, full) = &self.imports[index - 1];
            let ghost shorter = all.subrange(0, index as int);
            assert(shorter.last() == (name@, full@));
            if crate::text::same_chars(chars_of(name.as_str()).as_slice(), chars_of(local).as_slice()) {
                return Some(full.clone());
            }
            assert(shorter.drop_last() =~= all.subrange(0, index - 1));
            index = index - 1;
        }
        None
    }

    /// A path resolved through the imports, if it resolves.
    pub fn resolve(&self, segments: &[String]) -> (found: Option<String>)
        ensures
            match resolved(self@.0, views_of(segments@)) {
                None => found is None,
                Some(full) => found matches Some(held) && held@ == full,
            },
    {
        proof {
            reveal_strlit("std");
        }
        if segments.len() == 0 {
            return None;
        }
        let first = segments[0].as_str();
        let head = if crate::text::spells(chars_of(first).as_slice(), "std") {
            "std".to_owned()
        } else {
            match self.lookup(first) {
                None => return None,
                Some(head) => head,
            }
        };
        let ghost all = views_of(segments@);
        let mut path = head;
        let ghost start = path@;
        let mut index: usize = 1;
        while index < segments.len()
            invariant
                1 <= index <= segments@.len(),
                all == views_of(segments@),
                path@ == joined_through(start, all, index as int),
            decreases segments@.len() - index,
        {
            path = join(path.as_str(), segments[index].as_str());
            index = index + 1;
        }
        Some(path)
    }

    /// Records one path named, when it resolves.
    pub fn name(&mut self, segments: &[String], line: usize)
        ensures
            final(self)@ == naming(old(self)@, views_of(segments@), line),
    {
        match self.resolve(segments) {
            Some(path) => {
                let ghost before = self.named@;
                self.named.push((path, line));
                assert(self@.1 =~= before.map_values(|named: (String, usize)| (named.0@, named.1)).push((path@, line)));
            },
            None => {},
        }
    }
}

/// One `use` tree, as a parser reads it.
#[derive(Debug)]
pub enum UseTree {
    /// `ident::tree`.
    Path {
        /// The segment.
        ident: String,
        /// What hangs from it.
        tree: Box<UseTree>,
    },
    /// A name imported as itself (`self` naming the prefix).
    Name {
        /// The name.
        ident: String,
        /// Its line, one-based.
        line: usize,
    },
    /// A name imported under another.
    Rename {
        /// The name.
        ident: String,
        /// The name it is imported as.
        rename: String,
        /// Its line, one-based.
        line: usize,
    },
    /// `*`.
    Glob {
        /// Its line, one-based.
        line: usize,
    },
    /// `{a, b, ...}`.
    Group {
        /// The trees in the braces.
        items: Vec<UseTree>,
    },
}

/// The full path a name imports under a prefix: the prefix itself for
/// `self`.
pub open spec fn imported_path(prefix: Seq<char>, ident: Seq<char>) -> Seq<char> {
    if ident == "self"@ {
        prefix
    } else {
        joined_segment(prefix, ident)
    }
}

/// A walk with one `use` tree flattened under the prefix it hangs from:
/// each name recorded as named and imported under its last piece (or its
/// rename), each glob of a forbidden module recorded.
pub open spec fn use_walk(walked: Walked, tree: UseTree, prefix: Seq<char>) -> Walked
    decreases tree, 0int,
{
    match tree {
        UseTree::Path { ident, tree } => use_walk(walked, *tree, joined_segment(prefix, ident@)),
        UseTree::Name { ident, line } => {
            let full = imported_path(prefix, ident@);
            (walked.0.push((last_piece(full), full)), walked.1.push((full, line)), walked.2)
        },
        UseTree::Rename { ident, rename, line } => {
            let full = imported_path(prefix, ident@);
            (walked.0.push((rename@, full)), walked.1.push((full, line)), walked.2)
        },
        UseTree::Glob { line } => if is_forbidden_glob(prefix) {
            (walked.0, walked.1, walked.2.push((prefix, line)))
        } else {
            walked
        },
        UseTree::Group { items } => group_walk(walked, items@, prefix, items@.len() as int),
    }
}

/// A walk with the first trees of a group flattened under a prefix.
pub open spec fn group_walk(walked: Walked, items: Seq<UseTree>, prefix: Seq<char>, count: int) -> Walked
    decreases items, count,
{
    if count <= 0 || count > items.len() {
        walked
    } else {
        use_walk(group_walk(walked, items, prefix, count - 1), items[count - 1], prefix)
    }
}

/// One token handed to a macro, as a parser reads it: `::` arrives as two
/// colons.
#[derive(Debug)]
pub enum MacroToken {
    /// An identifier.
    Ident {
        /// The identifier.
        name: String,
        /// Its line, one-based.
        line: usize,
    },
    /// A `:`.
    Colon,
    /// A delimited group, with the tokens inside it.
    Group {
        /// The tokens inside.
        tokens: Vec<MacroToken>,
    },
    /// A literal, or punctuation other than `:`.
    Other,
}

/// A run of `ident::ident::…` tokens being read out of a macro's tokens:
/// its segments, the line of its first, whether the last token was the
/// first `:` of a `::`, and whether a `::` was just completed.
pub type Run = (Seq<Seq<char>>, usize, bool, bool);

/// No run at all.
pub open spec fn fresh_run() -> Run {
    (Seq::empty(), 0, false, false)
}

/// A walk with one run recorded, when it resolves.
pub open spec fn run_recorded(walked: Walked, run: Run) -> Walked {
    naming(walked, run.0, run.1)
}

/// A walk and a run after one more token: an identifier extends the run
/// after a `::` and starts a new one otherwise (the old one recorded); a
/// colon completes or begins a `::`; anything else ends the run, and a
/// group's tokens are read as a stream of their own.
pub open spec fn token_step(walked: Walked, run: Run, token: MacroToken) -> (Walked, Run)
    decreases token, 0int,
{
    match token {
        MacroToken::Ident { name, line } => if run.3 {
            (walked, (run.0.push(name@), run.1, false, false))
        } else {
            (run_recorded(walked, run), (seq![name@], line, false, false))
        },
        MacroToken::Colon => if run.2 {
            (walked, (run.0, run.1, false, run.0.len() > 0))
        } else {
            (walked, (run.0, run.1, true, false))
        },
        MacroToken::Group { tokens } => (macro_walk(run_recorded(walked, run), tokens@), fresh_run()),
        MacroToken::Other => (run_recorded(walked, run), fresh_run()),
    }
}

/// A walk and a run after the first tokens of a stream.
pub open spec fn stream_fold(walked: Walked, tokens: Seq<MacroToken>, count: int) -> (Walked, Run)
    decreases tokens, count,
{
    if count <= 0 || count > tokens.len() {
        (walked, fresh_run())
    } else {
        let before = stream_fold(walked, tokens, count - 1);
        token_step(before.0, before.1, tokens[count - 1])
    }
}

/// A walk with every path-shaped run of a macro's tokens recorded, groups
/// included.
pub open spec fn macro_walk(walked: Walked, tokens: Seq<MacroToken>) -> Walked
    decreases tokens, tokens.len() + 1,
{
    let folded = stream_fold(walked, tokens, tokens.len() as int);
    run_recorded(folded.0, folded.1)
}

/// A run being read, as the walk holds it.
struct PathRun {
    segments: Vec<String>,
    line: usize,
    half_separator: bool,
    after_separator: bool,
}

/// What a run being read says.
spec fn run_view(run: PathRun) -> Run {
    (views_of(run.segments@), run.line, run.half_separator, run.after_separator)
}

/// No run at all.
fn no_run() -> (run: PathRun)
    ensures
        run_view(run) == fresh_run(),
{
    let run = PathRun { segments: Vec::new(), line: 0, half_separator: false, after_separator: false };
    assert(views_of(run.segments@) =~= Seq::<Seq<char>>::empty());
    run
}

impl Paths {
    /// Flattens one `use` tree under the prefix it hangs from.
    pub fn record_use_tree(&mut self, tree: &UseTree, prefix: &str)
        ensures
            final(self)@ == use_walk(old(self)@, *tree, prefix@),
        decreases tree,
    {
        proof {
            reveal_strlit("self");
        }
        match tree {
            UseTree::Path { ident, tree: inner } => {
                let extended = join(prefix, ident.as_str());
                self.record_use_tree(inner, extended.as_str());
            },
            UseTree::Name { ident, line } => {
                let full = if crate::text::spells(chars_of(ident.as_str()).as_slice(), "self") {
                    prefix.to_owned()
                } else {
                    join(prefix, ident.as_str())
                };
                let local = last_piece_of(chars_of(full.as_str()).as_slice());
                let ghost before = *self;
                self.named.push((full.clone(), *line));
                self.imports.push((string_of(local.as_slice()), full));
                assert(self@.0 =~= before@.0.push((local@, full@)));
                assert(self@.1 =~= before@.1.push((full@, *line)));
            },
            UseTree::Rename { ident, rename, line } => {
                let full = if crate::text::spells(chars_of(ident.as_str()).as_slice(), "self") {
                    prefix.to_owned()
                } else {
                    join(prefix, ident.as_str())
                };
                let ghost before = *self;
                self.named.push((full.clone(), *line));
                self.imports.push((rename.clone(), full));
                assert(self@.0 =~= before@.0.push((rename@, full@)));
                assert(self@.1 =~= before@.1.push((full@, *line)));
            },
            UseTree::Glob { line } => {
                proof {
                    reveal_strlit("std::thread");
                    reveal_strlit("std::io");
                    reveal_strlit("std::io::prelude");
                    reveal_strlit("std::process");
                }
                let module = chars_of(prefix);
                if crate::text::spells(module.as_slice(), "std::thread") || crate::text::spells(module.as_slice(), "std::io")
                    || crate::text::spells(module.as_slice(), "std::io::prelude") || crate::text::spells(module.as_slice(), "std::process") {
                    let ghost before = *self;
                    self.globs.push((prefix.to_owned(), *line));
                    assert(self@.2 =~= before@.2.push((prefix@, *line)));
                }
            },
            UseTree::Group { items } => {
                let ghost start = self@;
                let mut index: usize = 0;
                proof {
                    assert forall|at: int| 0 <= at < items@.len() implies decreases_to!(tree => #[trigger] items@[at]) by {
                        assert(decreases_to!(tree => *items));
                        assert(decreases_to!(*items => items@));
                        assert(decreases_to!(items@ => items@[at]));
                    }
                }
                while index < items.len()
                    invariant
                        index <= items@.len(),
                        forall|at: int| 0 <= at < items@.len() ==> decreases_to!(tree => #[trigger] items@[at]),
                        self@ == group_walk(start, items@, prefix@, index as int),
                    decreases items@.len() - index,
                {
                    assert(decreases_to!(tree => items@[index as int]));
                    self.record_use_tree(&items[index], prefix);
                    index = index + 1;
                }
            },
        }
    }

    /// Records one run, when it resolves.
    fn record_run(&mut self, run: &PathRun)
        ensures
            final(self)@ == run_recorded(old(self)@, run_view(*run)),
    {
        self.name(run.segments.as_slice(), run.line);
    }

    /// Records every path-shaped run of tokens handed to a macro, groups
    /// included.
    pub fn record_macro_tokens(&mut self, tokens: &Vec<MacroToken>)
        ensures
            final(self)@ == macro_walk(old(self)@, tokens@),
        decreases tokens,
    {
        let ghost start = self@;
        let mut run = no_run();
        let mut index: usize = 0;
        while index < tokens.len()
            invariant
                index <= tokens@.len(),
                (self@, run_view(run)) == stream_fold(start, tokens@, index as int),
            decreases tokens@.len() - index,
        {
            let ghost before_self = self@;
            let ghost before_run = run_view(run);
            assert(stream_fold(start, tokens@, index + 1) == token_step(before_self, before_run, tokens@[index as int]));
            match &tokens[index] {
                MacroToken::Ident { name, line } => {
                    if !run.after_separator {
                        self.record_run(&run);
                        run = PathRun { segments: Vec::new(), line: *line, half_separator: false, after_separator: false };
                    }
                    let ghost before = run.segments@;
                    run.segments.push(name.clone());
                    run.after_separator = false;
                    run.half_separator = false;
                    assert(views_of(run.segments@) =~= views_of(before).push(name@));
                },
                MacroToken::Colon => {
                    if run.half_separator {
                        run.after_separator = run.segments.len() > 0;
                        run.half_separator = false;
                    } else {
                        run.half_separator = true;
                        run.after_separator = false;
                    }
                },
                MacroToken::Group { tokens: inner } => {
                    self.record_run(&run);
                    run = no_run();
                    assert(decreases_to!(tokens => tokens@[index as int]));
                    self.record_macro_tokens(inner);
                },
                MacroToken::Other => {
                    self.record_run(&run);
                    run = no_run();
                },
            }
            index = index + 1;
        }
        self.record_run(&run);
    }
}

/// One step of a parser's walk of a file, in the order it walks them.
#[derive(Debug)]
pub enum Event {
    /// A `use` declaration.
    Use {
        /// Its tree.
        tree: UseTree,
    },
    /// A macro invocation's tokens.
    Macro {
        /// The tokens handed to it.
        tokens: Vec<MacroToken>,
    },
    /// A path, by the identifiers of its segments.
    Path {
        /// The segments' identifiers.
        segments: Vec<String>,
        /// Its line, one-based.
        line: usize,
    },
}

/// A walk after one more step.
pub open spec fn event_walk(walked: Walked, event: Event) -> Walked {
    match event {
        Event::Use { tree } => use_walk(walked, tree, Seq::empty()),
        Event::Macro { tokens } => macro_walk(walked, tokens@),
        Event::Path { segments, line } => naming(walked, views_of(segments@), line),
    }
}

/// What a walk finds after the first steps of a file.
pub open spec fn events_walk(events: Seq<Event>, count: int) -> Walked
    decreases count,
{
    if count <= 0 {
        (Seq::empty(), Seq::empty(), Seq::empty())
    } else {
        event_walk(events_walk(events, count - 1), events[count - 1])
    }
}

/// The steps of a parser's walk of one file.
#[derive(Debug)]
pub struct WalkedFile {
    /// The file.
    pub path: String,
    /// The steps, in the order the parser walks them.
    pub events: Vec<Event>,
}

/// The forbidden facilities among the first paths a file names.
pub open spec fn named_faults(reported: Seq<char>, named: Seq<(Seq<char>, usize)>, count: int) -> Seq<Fault>
    decreases count,
{
    if count <= 0 {
        Seq::empty()
    } else {
        let before = named_faults(reported, named, count - 1);
        match facility_of(named[count - 1].0) {
            Some(facility) => before.push((reported, Some(named[count - 1].1), RULE@,
                "`"@ + facility + "` blocks; use the async runtime's equivalent"@)),
            None => before,
        }
    }
}

/// The glob imports of forbidden modules a file makes.
pub open spec fn glob_faults(reported: Seq<char>, globs: Seq<(Seq<char>, usize)>) -> Seq<Fault> {
    globs.map_values(|glob: (Seq<char>, usize)| (reported, Some(glob.1), RULE@,
        "a glob import of `"@ + glob.0 + "` hides which of its facilities are used; name them"@))
}

/// Whether a file is held to the rule: a Rust file, and not the exception.
pub open spec fn held_to_rule(root: Seq<char>, path: Seq<char>) -> bool {
    is_rust(path) && !same_place(path, path_join(root, EXCEPTION@))
}

/// What one file is found wanting in: the forbidden facilities it names, in
/// order, then its glob imports of forbidden modules.
pub open spec fn file_faults(root: Seq<char>, file: WalkedFile) -> Seq<Fault> {
    let walked = events_walk(file.events@, file.events@.len() as int);
    let reported = relative_of(root, file.path@);
    named_faults(reported, walked.1, walked.1.len() as int) + glob_faults(reported, walked.2)
}

/// What the first files are found wanting in.
pub open spec fn files_faults(root: Seq<char>, files: Seq<WalkedFile>, count: int) -> Seq<Fault>
    decreases count,
{
    if count <= 0 {
        Seq::empty()
    } else if held_to_rule(root, files[count - 1].path@) {
        files_faults(root, files, count - 1) + file_faults(root, files[count - 1])
    } else {
        files_faults(root, files, count - 1)
    }
}

impl Paths {
    /// Takes one step of a walk.
    pub fn walk(&mut self, event: &Event)
        ensures
            final(self)@ == event_walk(old(self)@, *event),
    {
        proof {
            reveal_strlit("");
        }
        match event {
            Event::Use { tree } => {
                assert(""@ =~= Seq::<char>::empty());
                self.record_use_tree(tree, "");
            },
            Event::Macro { tokens } => self.record_macro_tokens(tokens),
            Event::Path { segments, line } => self.name(segments.as_slice(), *line),
        }
    }
}

/// What a walk of one file finds.
pub fn walked(events: &[Event]) -> (found: Paths)
    ensures
        found@ == events_walk(events@, events@.len() as int),
{
    let mut found = Paths::new();
    let mut index: usize = 0;
    while index < events.len()
        invariant
            index <= events@.len(),
            found@ == events_walk(events@, index as int),
        decreases events@.len() - index,
    {
        found.walk(&events[index]);
        index = index + 1;
    }
    found
}

/// The blocking check over the parser's walks of the files under the
/// asynchronous crates.
pub fn check(root: &str, files: &[WalkedFile]) -> (found: Vec<Violation>)
    ensures
        faults_of(found@) == files_faults(root@, files@, files@.len() as int),
{
    let exception = crate::paths::join_path(root, EXCEPTION);
    let mut found: Vec<Violation> = Vec::new();
    assert(faults_of(found@) =~= Seq::<Fault>::empty());
    let mut index: usize = 0;
    while index < files.len()
        invariant
            index <= files@.len(),
            exception@ == path_join(root@, EXCEPTION@),
            faults_of(found@) == files_faults(root@, files@, index as int),
        decreases files@.len() - index,
    {
        proof {
            reveal_strlit("rs");
            reveal_strlit("`");
            reveal_strlit("` blocks; use the async runtime's equivalent");
            reveal_strlit("a glob import of `");
            reveal_strlit("` hides which of its facilities are used; name them");
        }
        let file = &files[index];
        let rust = match crate::paths::extension(file.path.as_str()) {
            Some(found) => crate::text::spells(chars_of(found.as_str()).as_slice(), "rs"),
            None => false,
        };
        if rust && !crate::paths::same_path(file.path.as_str(), exception.as_str()) {
            let reported = relative(root, file.path.as_str());
            let paths = walked(file.events.as_slice());
            let ghost start = faults_of(found@);
            let mut at: usize = 0;
            while at < paths.named.len()
                invariant
                    at <= paths.named@.len(),
                    reported@ == relative_of(root@, file.path@),
                    faults_of(found@) == start + named_faults(reported@, paths@.1, at as int),
                decreases paths.named@.len() - at,
            {
                let (named, line) = &paths.named[at];
                assert(paths@.1[at as int] == (named@, *line));
                match forbidden_facility(named.as_str()) {
                    Some(facility) => {
                        let mut detail: Vec<char> = Vec::new();
                        extend_str(&mut detail, "`");
                        extend_str(&mut detail, facility.as_str());
                        extend_str(&mut detail, "` blocks; use the async runtime's equivalent");
                        report(&mut found, Violation {
                            path: reported.clone(),
                            line: Some(*line),
                            rule: RULE,
                            detail: string_of(detail.as_slice()),
                        });
                    },
                    None => {},
                }
                at = at + 1;
            }
            let ghost middle = faults_of(found@);
            let mut glob: usize = 0;
            while glob < paths.globs.len()
                invariant
                    glob <= paths.globs@.len(),
                    reported@ == relative_of(root@, file.path@),
                    faults_of(found@) == middle + glob_faults(reported@, paths@.2.subrange(0, glob as int)),
                decreases paths.globs@.len() - glob,
            {
                let (module, line) = &paths.globs[glob];
                assert(paths@.2[glob as int] == (module@, *line));
                let mut detail: Vec<char> = Vec::new();
                extend_str(&mut detail, "a glob import of `");
                extend_str(&mut detail, module.as_str());
                extend_str(&mut detail, "` hides which of its facilities are used; name them");
                report(&mut found, Violation {
                    path: reported.clone(),
                    line: Some(*line),
                    rule: RULE,
                    detail: string_of(detail.as_slice()),
                });
                assert(paths@.2.subrange(0, glob + 1) =~= paths@.2.subrange(0, glob as int).push((module@, *line)));
                assert(glob_faults(reported@, paths@.2.subrange(0, glob + 1)) =~= glob_faults(reported@, paths@.2.subrange(0, glob as int)).push(
                    glob_faults(reported@, seq![(module@, *line)])[0]));
                glob = glob + 1;
            }
            assert(paths@.2.subrange(0, paths@.2.len() as int) =~= paths@.2);
        }
        index = index + 1;
    }
    found
}

} // verus!
