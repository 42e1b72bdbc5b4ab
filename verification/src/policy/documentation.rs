//! Every crate root includes its README, every README exists and begins
//! with the crate's heading, every source file begins with documentation,
//! every module of a crate appears in its README, and every fenced block in
//! a README or a doc comment carries a language tag that is not a doctest's:
//! an untagged fence in documentation is a doctest that nextest never runs,
//! which is documentation that can rot without failing anything.
use vstd::prelude::*;

use crate::claims::selection::{join, joined_with};
use crate::paths::{components, lies_under, path_extension, path_join};
use crate::policy::{
    FenceLine, Fault, PolicyError, SourceText, Violation, faults_of, fence_lines, fence_rest,
    numbered_lines, open_after, package_name, package_name_reading, relative, relative_of, report,
    texts_of_lines, toml_package_name,
};
use crate::text::{
    chars_of, contains, ends_with, extend, extend_str, lines, split_once, starts_with, string_of,
    trim, trim_start, views_of,
};

verus! {

/// The line every crate root carries.
pub const README_INCLUDE: &'static str = "#![doc = include_str!(\"../README.md\")]";

/// The language tag under which rustdoc compiles a fence as a test.
pub const RUST_TAG: &'static str = "rust";

/// The prefix of the fence attributes naming an edition, which make a fence
/// a doctest.
pub const EDITION_ATTRIBUTE_PREFIX: &'static str = "edition";

/// The rule a crate root without the include breaks.
pub const INCLUDE_RULE: &'static str = "documentation-include";

/// The rule a missing README breaks.
pub const README_RULE: &'static str = "documentation-readme";

/// The rule a README without the crate heading breaks.
pub const HEADING_RULE: &'static str = "documentation-heading";

/// The rule a source file that does not begin with documentation breaks.
pub const HEADER_RULE: &'static str = "documentation-header";

/// The rule a module absent from its crate's README breaks.
pub const MODULE_RULE: &'static str = "documentation-module";

/// The rule a doctest fence breaks.
pub const FENCE_RULE: &'static str = "documentation-fence";

/// What an untagged fence is told.
pub const UNTAGGED: &'static str = "an untagged fence is a doctest that never runs; tag it";

/// Whether a word is one of the fence attributes rustdoc understands without
/// a language, each of which makes the fence a doctest.
pub open spec fn is_doctest_attribute(word: Seq<char>) -> bool {
    ||| word == "ignore"@
    ||| word == "no_run"@
    ||| word == "should_panic"@
    ||| word == "compile_fail"@
    ||| word == "test_harness"@
    ||| word == "standalone_crate"@
}

/// The first comma-separated word of a fence's tag, trimmed.
pub open spec fn first_tag_word(tag: Seq<char>) -> Seq<char> {
    trim(match split_once(tag, ","@) {
        Some((before, after)) => before,
        None => tag,
    })
}

/// Why a fence's tag makes it a doctest, or nothing when it does not: an
/// empty tag, `rust`, or a bare rustdoc attribute, judged on the first
/// comma-separated word.
pub open spec fn doctest_reason_of(tag: Seq<char>) -> Option<Seq<char>> {
    let first = first_tag_word(tag);
    if first.len() == 0 {
        Some(UNTAGGED@)
    } else if first == RUST_TAG@ || is_doctest_attribute(first) || starts_with(first, EDITION_ATTRIBUTE_PREFIX@) {
        Some("a fence tagged `"@ + tag + "` is a doctest that never runs; tag it `text`"@)
    } else {
        None
    }
}

/// Why a fence's tag makes it a doctest, or nothing when it does not.
pub fn doctest_reason(tag: &str) -> (reason: Option<String>)
    ensures
        match doctest_reason_of(tag@) {
            None => reason is None,
            Some(said) => reason matches Some(held) && held@ == said,
        },
{
    proof {
        reveal_strlit(",");
        reveal_strlit("ignore");
        reveal_strlit("no_run");
        reveal_strlit("should_panic");
        reveal_strlit("compile_fail");
        reveal_strlit("test_harness");
        reveal_strlit("standalone_crate");
        reveal_strlit("a fence tagged `");
        reveal_strlit("` is a doctest that never runs; tag it `text`");
    }
    let text = chars_of(tag);
    let comma = chars_of(",");
    let head = match crate::text::split_at_first(text.as_slice(), comma.as_slice()) {
        Some((before, after)) => before,
        None => crate::text::slice_of(text.as_slice(), 0, text.len()),
    };
    assert(head@ == match split_once(tag@, ","@) {
        Some((before, after)) => before,
        None => tag@,
    });
    let first = crate::text::trimmed(head.as_slice());
    assert(first@ == first_tag_word(tag@));
    if first.len() == 0 {
        return Some(UNTAGGED.to_owned());
    }
    let word = first.as_slice();
    let edition = chars_of(EDITION_ATTRIBUTE_PREFIX);
    let doctest = crate::text::spells(word, RUST_TAG) || crate::text::spells(word, "ignore")
        || crate::text::spells(word, "no_run") || crate::text::spells(word, "should_panic")
        || crate::text::spells(word, "compile_fail") || crate::text::spells(word, "test_harness")
        || crate::text::spells(word, "standalone_crate") || crate::text::begins_with(word, edition.as_slice());
    if doctest {
        let mut held: Vec<char> = Vec::new();
        extend_str(&mut held, "a fence tagged `");
        extend_str(&mut held, tag);
        extend_str(&mut held, "` is a doctest that never runs; tag it `text`");
        Some(string_of(held.as_slice()))
    } else {
        None
    }
}

/// The views of numbered lines.
pub open spec fn numbered_views(lines: Seq<(usize, String)>) -> Seq<(usize, Seq<char>)> {
    lines.map_values(|numbered: (usize, String)| (numbered.0, numbered.1@))
}

/// The doctest fences among the first lines of one documentation text, each
/// reported against a path.
pub open spec fn fence_faults(path: Seq<char>, lines: Seq<(usize, Seq<char>)>, count: int) -> Seq<Fault>
    decreases count,
{
    if count <= 0 {
        Seq::empty()
    } else {
        let before = fence_faults(path, lines, count - 1);
        let texts = lines.map_values(|numbered: (usize, Seq<char>)| numbered.1);
        match fence_rest(lines[count - 1].1) {
            Some(rest) => if open_after(texts, count - 1) {
                before
            } else {
                match doctest_reason_of(trim(rest)) {
                    Some(detail) => before.push((path, Some(lines[count - 1].0), FENCE_RULE@, detail)),
                    None => before,
                }
            },
            None => before,
        }
    }
}

/// Every doctest fence of one documentation text, reported against a path.
pub open spec fn all_fence_faults(path: Seq<char>, lines: Seq<(usize, Seq<char>)>) -> Seq<Fault> {
    fence_faults(path, lines, lines.len() as int)
}

/// Reports the doctest fences of one documentation text: the numbered lines
/// of a README, or the bodies of its doc comments.
pub fn check_fences(lines: &[(usize, String)], path: &str, violations: &mut Vec<Violation>)
    ensures
        faults_of(final(violations)@) == faults_of(old(violations)@) + all_fence_faults(path@, numbered_views(lines@)),
{
    let ghost views = numbered_views(lines@);
    let ghost start = faults_of(violations@);
    let fences = fence_lines(lines);
    proof {
        assert(texts_of_lines(lines@) =~= views.map_values(|numbered: (usize, Seq<char>)| numbered.1));
    }
    let mut index: usize = 0;
    while index < fences.len()
        invariant
            index <= fences@.len(),
            fences@.len() == lines@.len(),
            views == numbered_views(lines@),
            texts_of_lines(lines@) == views.map_values(|numbered: (usize, Seq<char>)| numbered.1),
            forall|at: int| 0 <= at < lines@.len() ==> crate::policy::placed(#[trigger] fences@[at], lines@[at].0, lines@[at].1@, open_after(texts_of_lines(lines@), at)),
            faults_of(violations@) == start + fence_faults(path@, views, index as int),
        decreases fences@.len() - index,
    {
        let ghost texts = texts_of_lines(lines@);
        assert(crate::policy::placed(fences@[index as int], lines@[index as int].0, lines@[index as int].1@, open_after(texts, index as int)));
        assert(views[index as int] == (lines@[index as int].0, lines@[index as int].1@));
        match &fences[index] {
            FenceLine::Opening { line, tag } => {
                match doctest_reason(tag.as_str()) {
                    Some(detail) => {
                        report(violations, Violation { path: path.to_owned(), line: Some(*line), rule: FENCE_RULE, detail });
                    },
                    None => {},
                }
            },
            _ => {},
        }
        index = index + 1;
    }
    proof {
        assert(views.len() == lines@.len());
    }
}

/// The body of a doc-comment line, after its `///` or `//!`, or nothing
/// when the line is no doc comment.
pub open spec fn comment_body(line: Seq<char>) -> Option<Seq<char>> {
    let started = trim_start(line);
    if starts_with(started, "///"@) || starts_with(started, "//!"@) {
        Some(started.subrange(3, started.len() as int))
    } else {
        None
    }
}

/// The doc-comment lines among the first lines of a source file, with
/// their bodies and one-based line numbers.
pub open spec fn comment_lines_upto(all: Seq<Seq<char>>, count: int) -> Seq<(usize, Seq<char>)>
    decreases count,
{
    if count <= 0 {
        Seq::empty()
    } else {
        let before = comment_lines_upto(all, count - 1);
        match comment_body(all[count - 1]) {
            Some(body) => before.push((count as usize, body)),
            None => before,
        }
    }
}

/// The doc-comment lines of a source file (`///` and `//!`) with their
/// bodies and one-based line numbers.
pub open spec fn comment_lines(text: Seq<char>) -> Seq<(usize, Seq<char>)> {
    comment_lines_upto(lines(text), lines(text).len() as int)
}

/// The doc-comment lines of a source file, with their bodies and one-based
/// line numbers.
pub fn documentation_comment_lines(text: &str) -> (found: Vec<(usize, String)>)
    ensures
        numbered_views(found@) == comment_lines(text@),
{
    proof {
        reveal_strlit("///");
        reveal_strlit("//!");
    }
    let numbered = numbered_lines(text);
    let ghost all = lines(text@);
    let triple = chars_of("///");
    let inner = chars_of("//!");
    let mut found: Vec<(usize, String)> = Vec::new();
    let mut index: usize = 0;
    while index < numbered.len()
        invariant
            index <= numbered@.len(),
            numbered@.len() == all.len(),
            all == lines(text@),
            forall|at: int| 0 <= at < numbered@.len() ==> (#[trigger] numbered@[at]).0 == at + 1 && numbered@[at].1@ == all[at],
            triple@ == "///"@,
            inner@ == "//!"@,
            numbered_views(found@) == comment_lines_upto(all, index as int),
        decreases numbered@.len() - index,
    {
        proof {
            reveal_strlit("///");
            reveal_strlit("//!");
        }
        let line = chars_of(numbered[index].1.as_str());
        let started = crate::text::trimmed_start(line.as_slice());
        if crate::text::begins_with(started.as_slice(), triple.as_slice()) || crate::text::begins_with(started.as_slice(), inner.as_slice()) {
            let body = crate::text::slice_of(started.as_slice(), 3, started.len());
            let ghost before = found@;
            found.push((index + 1, string_of(body.as_slice())));
            assert(numbered_views(found@) =~= numbered_views(before).push(((index + 1) as usize, body@)));
        }
        index = index + 1;
    }
    found
}

/// Every suffix taken off a text's end for as long as it ends with it.
pub open spec fn without_suffixes(text: Seq<char>, suffix: Seq<char>) -> Seq<char>
    decreases text.len(),
{
    if suffix.len() > 0 && ends_with(text, suffix) {
        without_suffixes(text.subrange(0, text.len() - suffix.len()), suffix)
    } else {
        text
    }
}

/// A text with `.rs` taken off its end for as long as it ends with it.
fn without_rust_suffixes(text: &[char]) -> (kept: Vec<char>)
    ensures
        kept@ == without_suffixes(text@, ".rs"@),
{
    proof {
        reveal_strlit(".rs");
    }
    let suffix = chars_of(".rs");
    let mut kept = crate::text::slice_of(text, 0, text.len());
    assert(kept@ =~= text@);
    while crate::text::finishes_with(kept.as_slice(), suffix.as_slice())
        invariant
            suffix@ == ".rs"@,
            without_suffixes(kept@, suffix@) == without_suffixes(text@, ".rs"@),
        decreases kept@.len(),
    {
        proof {
            reveal_strlit(".rs");
        }
        kept = crate::text::slice_of(kept.as_slice(), 0, kept.len() - 3);
    }
    kept
}

/// The module segments of the components of a file below its sources:
/// each without `.rs`, and a closing `mod` left off.
pub open spec fn module_segments(below: Seq<Seq<char>>) -> Seq<Seq<char>> {
    let segments = below.map_values(|segment: Seq<char>| without_suffixes(segment, ".rs"@));
    if segments.len() > 0 && segments.last() == "mod"@ {
        segments.drop_last()
    } else {
        segments
    }
}

/// The module path of a file under a source directory, as `pty::spawn` (a
/// `mod.rs` is its directory's module), or nothing for a crate root or a
/// file outside the directory.
pub open spec fn module_of_file(source: Seq<char>, file: Seq<char>) -> Option<Seq<char>> {
    if !lies_under(file, source) {
        None
    } else {
        let segments = module_segments(components(file).subrange(components(source).len() as int, components(file).len() as int));
        if segments.len() == 0 || (segments.len() == 1 && (segments[0] == "lib"@ || segments[0] == "main"@)) {
            None
        } else {
            Some(joined_with(segments, "::"@))
        }
    }
}

/// The module path of a file under a source directory, or nothing for a
/// crate root.
pub fn module_of(source: &str, file: &str) -> (found: Option<String>)
    ensures
        match module_of_file(source@, file@) {
            None => found is None,
            Some(path) => found matches Some(held) && held@ == path,
        },
{
    proof {
        reveal_strlit("mod");
        reveal_strlit("lib");
        reveal_strlit("main");
    }
    if !crate::paths::starts_with_path(file, source) {
        return None;
    }
    let own = crate::paths::components_of(chars_of(file).as_slice());
    let theirs = crate::paths::components_of(chars_of(source).as_slice());
    let ghost mine = own@.map_values(|piece: Vec<char>| piece@);
    let ghost below = mine.subrange(theirs@.len() as int, mine.len() as int);
    let ghost trimmed_all = below.map_values(|segment: Seq<char>| without_suffixes(segment, ".rs"@));
    let mut segments: Vec<String> = Vec::new();
    let mut index: usize = theirs.len();
    while index < own.len()
        invariant
            theirs@.len() <= index <= own@.len(),
            mine == own@.map_values(|piece: Vec<char>| piece@),
            below == mine.subrange(theirs@.len() as int, mine.len() as int),
            trimmed_all == below.map_values(|segment: Seq<char>| without_suffixes(segment, ".rs"@)),
            views_of(segments@) == trimmed_all.subrange(0, index - theirs@.len()),
        decreases own@.len() - index,
    {
        let ghost before = segments@;
        let trimmed = without_rust_suffixes(own[index].as_slice());
        segments.push(string_of(trimmed.as_slice()));
        assert(mine[index as int] == own@[index as int]@);
        assert(below[index - theirs@.len()] == mine[index as int]);
        assert(trimmed_all[index - theirs@.len()] == without_suffixes(mine[index as int], ".rs"@));
        assert(views_of(segments@) =~= views_of(before).push(trimmed@));
        assert(views_of(segments@) =~= trimmed_all.subrange(0, index + 1 - theirs@.len()));
        index = index + 1;
    }
    assert(trimmed_all.subrange(0, trimmed_all.len() as int) =~= trimmed_all);
    if segments.len() > 0 && crate::text::spells(chars_of(segments[segments.len() - 1].as_str()).as_slice(), "mod") {
        segments.pop();
        assert(views_of(segments@) =~= trimmed_all.drop_last());
    }
    if segments.len() == 0 {
        return None;
    }
    if segments.len() == 1 && (crate::text::spells(chars_of(segments[0].as_str()).as_slice(), "lib") || crate::text::spells(chars_of(segments[0].as_str()).as_slice(), "main")) {
        return None;
    }
    let joined = join(segments.as_slice(), "::");
    Some(string_of(joined.as_slice()))
}

/// What a crate's documentation check reads: its directory, the text of its
/// manifest, its crate roots that exist (in the order `src/lib.rs`,
/// `src/main.rs`) with their texts, its README's text when there is one,
/// and every file under its `src/`, as a walk of the tree lists them.
#[derive(Clone, Debug)]
pub struct CrateDocuments {
    /// The crate's directory.
    pub directory: String,
    /// The text of its `Cargo.toml`.
    pub manifest: String,
    /// Its crate roots that exist, with their texts.
    pub roots: Vec<SourceText>,
    /// The text of its `README.md`, when there is one.
    pub readme: Option<String>,
    /// Every file under its `src/`.
    pub sources: Vec<String>,
}

/// The manifest of a crate directory.
pub open spec fn manifest_path_of(directory: Seq<char>) -> Seq<char> {
    path_join(directory, "Cargo.toml"@)
}

/// The README of a crate directory.
pub open spec fn readme_path_of(directory: Seq<char>) -> Seq<char> {
    path_join(directory, "README.md"@)
}

/// The sources of a crate directory.
pub open spec fn source_directory_of(directory: Seq<char>) -> Seq<char> {
    path_join(directory, "src"@)
}

/// The lines of a text, numbered from one.
pub open spec fn numbered_text(text: Seq<char>) -> Seq<(usize, Seq<char>)> {
    Seq::new(lines(text).len(), |index: int| ((index + 1) as usize, lines(text)[index]))
}

/// The crate roots among the first that do not carry the README include.
pub open spec fn include_faults(root: Seq<char>, roots: Seq<SourceText>, count: int) -> Seq<Fault>
    decreases count,
{
    if count <= 0 {
        Seq::empty()
    } else {
        let before = include_faults(root, roots, count - 1);
        let crate_root = roots[count - 1];
        if contains(crate_root.text@, README_INCLUDE@) {
            before
        } else {
            before.push((relative_of(root, crate_root.path@), None, INCLUDE_RULE@,
                "the crate root does not carry `"@ + README_INCLUDE@ + "`"@))
        }
    }
}

/// The modules among the first files under a crate's sources that its
/// README does not name in backticks.
pub open spec fn module_faults(
    root: Seq<char>,
    readme_path: Seq<char>,
    readme: Seq<char>,
    source: Seq<char>,
    files: Seq<String>,
    count: int,
) -> Seq<Fault>
    decreases count,
{
    if count <= 0 {
        Seq::empty()
    } else {
        let before = module_faults(root, readme_path, readme, source, files, count - 1);
        let file = files[count - 1]@;
        if path_extension(file) != Some("rs"@) {
            before
        } else {
            match module_of_file(source, file) {
                None => before,
                Some(module) => if contains(readme, "`"@ + module + "`"@) {
                    before
                } else {
                    before.push((relative_of(root, file), None, MODULE_RULE@,
                        "module `"@ + module + "` does not appear in "@ + relative_of(root, readme_path)))
                },
            }
        }
    }
}

/// What a crate's README is found wanting in: missing, or without the
/// crate's heading, with doctest fences, or not naming a module.
pub open spec fn readme_faults(root: Seq<char>, documents: CrateDocuments, name: Seq<char>) -> Seq<Fault> {
    let readme_path = readme_path_of(documents.directory@);
    let reported = relative_of(root, readme_path);
    match documents.readme {
        None => seq![(reported, None, README_RULE@, "the crate has no README, which is its documentation"@)],
        Some(text) => {
            let heading = "# "@ + name;
            let head = if lines(text@).len() > 0 && lines(text@)[0] == heading {
                Seq::<Fault>::empty()
            } else {
                seq![(reported, Some(1usize), HEADING_RULE@, "the README does not begin with `"@ + heading + "`"@)]
            };
            head + all_fence_faults(reported, numbered_text(text@)) + module_faults(
                root,
                readme_path,
                text@,
                source_directory_of(documents.directory@),
                documents.sources@,
                documents.sources@.len() as int,
            )
        },
    }
}

/// What one crate of a tree is found wanting in, once its package name is
/// known.
pub open spec fn crate_faults(root: Seq<char>, documents: CrateDocuments, name: Seq<char>) -> Seq<Fault> {
    include_faults(root, documents.roots@, documents.roots@.len() as int) + readme_faults(root, documents, name)
}

/// What one source file is found wanting in: not beginning with a `//!`
/// line, and doctest fences in its doc comments.
pub open spec fn source_faults(root: Seq<char>, source: SourceText) -> Seq<Fault> {
    let reported = relative_of(root, source.path@);
    let header = if starts_with(source.text@, "//!"@) {
        Seq::<Fault>::empty()
    } else {
        seq![(reported, Some(1usize), HEADER_RULE@, "the file does not begin with a `//!` documentation line"@)]
    };
    header + all_fence_faults(reported, comment_lines(source.text@))
}

/// What the first crates of a tree are found wanting in, or the manifest
/// path and parser's words of the first whose package name cannot be read.
pub open spec fn crates_outcome(root: Seq<char>, crates: Seq<CrateDocuments>, count: int) -> Result<Seq<Fault>, (Seq<char>, Seq<char>)>
    decreases count,
{
    if count <= 0 {
        Ok(Seq::empty())
    } else {
        match crates_outcome(root, crates, count - 1) {
            Err(failed) => Err(failed),
            Ok(before) => match package_name_reading(toml_package_name(crates[count - 1].manifest@)) {
                Err(detail) => Err((manifest_path_of(crates[count - 1].directory@), detail)),
                Ok(name) => Ok(before + crate_faults(root, crates[count - 1], name)),
            },
        }
    }
}

/// What the first source files of a tree are found wanting in.
pub open spec fn sources_faults(root: Seq<char>, sources: Seq<SourceText>, count: int) -> Seq<Fault>
    decreases count,
{
    if count <= 0 {
        Seq::empty()
    } else {
        sources_faults(root, sources, count - 1) + source_faults(root, sources[count - 1])
    }
}

/// One crate: its roots include the README, the README exists and begins
/// with the heading, its fences are tagged, and every module under `src/`
/// appears in it.
pub fn check_crate(root: &str, documents: &CrateDocuments, name: &str, violations: &mut Vec<Violation>)
    ensures
        faults_of(final(violations)@) == faults_of(old(violations)@) + crate_faults(root@, *documents, name@),
{
    proof {
        reveal_strlit("the crate root does not carry `");
        reveal_strlit("`");
    }
    let ghost start = faults_of(violations@);
    let mut index: usize = 0;
    while index < documents.roots.len()
        invariant
            index <= documents.roots@.len(),
            faults_of(violations@) == start + include_faults(root@, documents.roots@, index as int),
        decreases documents.roots@.len() - index,
    {
        let crate_root = &documents.roots[index];
        let text = chars_of(crate_root.text.as_str());
        let carried = chars_of(README_INCLUDE);
        if !crate::text::holds(text.as_slice(), carried.as_slice()) {
            let mut detail: Vec<char> = Vec::new();
            extend_str(&mut detail, "the crate root does not carry `");
            extend_str(&mut detail, README_INCLUDE);
            extend_str(&mut detail, "`");
            report(violations, Violation {
                path: relative(root, crate_root.path.as_str()),
                line: None,
                rule: INCLUDE_RULE,
                detail: string_of(detail.as_slice()),
            });
        }
        index = index + 1;
    }
    let readme_path = crate::paths::join_path(documents.directory.as_str(), "README.md");
    let reported = relative(root, readme_path.as_str());
    let text = match &documents.readme {
        None => {
            report(violations, Violation {
                path: reported,
                line: None,
                rule: README_RULE,
                detail: "the crate has no README, which is its documentation".to_owned(),
            });
            return;
        },
        Some(text) => text,
    };
    let mut heading: Vec<char> = Vec::new();
    extend_str(&mut heading, "# ");
    extend_str(&mut heading, name);
    let readme_lines = crate::text::lines_of(chars_of(text.as_str()).as_slice());
    let headed = readme_lines.len() > 0 && crate::text::same_chars(readme_lines[0].as_slice(), heading.as_slice());
    if !headed {
        proof {
            reveal_strlit("the README does not begin with `");
        }
        let mut detail: Vec<char> = Vec::new();
        extend_str(&mut detail, "the README does not begin with `");
        extend(&mut detail, heading.as_slice());
        extend_str(&mut detail, "`");
        report(violations, Violation {
            path: reported.clone(),
            line: Some(1),
            rule: HEADING_RULE,
            detail: string_of(detail.as_slice()),
        });
    }
    let ghost headed_faults = faults_of(violations@);
    let numbered = numbered_lines(text.as_str());
    assert(numbered_views(numbered@) =~= numbered_text(text@));
    check_fences(numbered.as_slice(), reported.as_str(), violations);
    let ghost fenced = faults_of(violations@);
    let source = crate::paths::join_path(documents.directory.as_str(), "src");
    let mut at: usize = 0;
    while at < documents.sources.len()
        invariant
            at <= documents.sources@.len(),
            readme_path@ == readme_path_of(documents.directory@),
            reported@ == relative_of(root@, readme_path@),
            source@ == source_directory_of(documents.directory@),
            documents.readme == Some(*text),
            faults_of(violations@) == fenced + module_faults(root@, readme_path@, text@, source@, documents.sources@, at as int),
        decreases documents.sources@.len() - at,
    {
        proof {
            reveal_strlit("rs");
            reveal_strlit("`");
            reveal_strlit("module `");
            reveal_strlit("` does not appear in ");
        }
        let file = documents.sources[at].as_str();
        let rust = match crate::paths::extension(file) {
            Some(found) => crate::text::spells(chars_of(found.as_str()).as_slice(), "rs"),
            None => false,
        };
        if rust {
            match module_of(source.as_str(), file) {
                Some(module) => {
                    let mut named: Vec<char> = Vec::new();
                    extend_str(&mut named, "`");
                    extend_str(&mut named, module.as_str());
                    extend_str(&mut named, "`");
                    if !crate::text::holds(chars_of(text.as_str()).as_slice(), named.as_slice()) {
                        let mut detail: Vec<char> = Vec::new();
                        extend_str(&mut detail, "module `");
                        extend_str(&mut detail, module.as_str());
                        extend_str(&mut detail, "` does not appear in ");
                        extend_str(&mut detail, reported.as_str());
                        report(violations, Violation {
                            path: relative(root, file),
                            line: None,
                            rule: MODULE_RULE,
                            detail: string_of(detail.as_slice()),
                        });
                    }
                },
                None => {},
            }
        }
        at = at + 1;
    }
}

/// One source file: it begins with a `//!` line, and its doc comments'
/// fences are tagged.
pub fn check_source(root: &str, source: &SourceText, violations: &mut Vec<Violation>)
    ensures
        faults_of(final(violations)@) == faults_of(old(violations)@) + source_faults(root@, *source),
{
    proof {
        reveal_strlit("//!");
    }
    let reported = relative(root, source.path.as_str());
    let text = chars_of(source.text.as_str());
    let marker = chars_of("//!");
    if !crate::text::begins_with(text.as_slice(), marker.as_slice()) {
        report(violations, Violation {
            path: reported.clone(),
            line: Some(1),
            rule: HEADER_RULE,
            detail: "the file does not begin with a `//!` documentation line".to_owned(),
        });
    }
    let comments = documentation_comment_lines(source.text.as_str());
    check_fences(comments.as_slice(), reported.as_str(), violations);
}

/// The documentation check over the crates of a tree and its source files.
///
/// [`PolicyError::Parse`] for the first crate whose manifest names no
/// package or does not parse; otherwise every violation, the crates' first
/// and in order.
pub fn check(root: &str, crates: &[CrateDocuments], sources: &[SourceText]) -> (found: Result<Vec<Violation>, PolicyError>)
    ensures
        match crates_outcome(root@, crates@, crates@.len() as int) {
            Err((path, detail)) => found matches Err(PolicyError::Parse { path: told, detail: said }) && told@ == path
                && said@ == detail,
            Ok(faults) => found matches Ok(violations) && faults_of(violations@) == faults + sources_faults(root@, sources@, sources@.len() as int),
        },
{
    let mut violations: Vec<Violation> = Vec::new();
    assert(faults_of(violations@) =~= Seq::<Fault>::empty());
    let mut index: usize = 0;
    while index < crates.len()
        invariant
            index <= crates@.len(),
            crates_outcome(root@, crates@, index as int) == Ok::<Seq<Fault>, (Seq<char>, Seq<char>)>(faults_of(violations@)),
        decreases crates@.len() - index,
    {
        let documents = &crates[index];
        let manifest_path = crate::paths::join_path(documents.directory.as_str(), "Cargo.toml");
        let name = match package_name(manifest_path.as_str(), documents.manifest.as_str()) {
            Ok(name) => name,
            Err(error) => {
                proof {
                    lemma_failure_stays(root@, crates@, index + 1, crates@.len() as int);
                }
                return Err(error);
            },
        };
        check_crate(root, documents, name.as_str(), &mut violations);
        index = index + 1;
    }
    let ghost crate_part = faults_of(violations@);
    let mut at: usize = 0;
    while at < sources.len()
        invariant
            at <= sources@.len(),
            faults_of(violations@) == crate_part + sources_faults(root@, sources@, at as int),
        decreases sources@.len() - at,
    {
        let ghost before = faults_of(violations@);
        check_source(root, &sources[at], &mut violations);
        assert(faults_of(violations@) =~= crate_part + sources_faults(root@, sources@, at + 1));
        at = at + 1;
    }
    Ok(violations)
}

/// Once the first crates fail, every longer run of them fails the same way.
proof fn lemma_failure_stays(root: Seq<char>, crates: Seq<CrateDocuments>, count: int, total: int)
    requires
        0 <= count <= total,
        crates_outcome(root, crates, count) is Err,
    ensures
        crates_outcome(root, crates, total) == crates_outcome(root, crates, count),
    decreases total - count,
{
    if count < total {
        lemma_failure_stays(root, crates, count + 1, total);
    }
}

} // verus!
