//! Every relative link and reference target in every Markdown file resolves
//! against the tree. A target with a scheme or a bare fragment is not this
//! check's to resolve; a fragment on a path is dropped before the path is; a
//! link inside a fence or inline code is shown, not made; a root-absolute
//! target resolves against the repository, not the filesystem.
use vstd::prelude::*;

use crate::paths::{components, joined, parent_of, path_join, rooted};
use crate::policy::{
    FenceLine, Fault, Violation, faults_of, fence_lines, fence_rest, numbered_lines, open_after,
    relative, relative_of, report, texts_of_lines,
};
use crate::policy::documentation::{numbered_text, numbered_views};
use crate::text::{
    chars_of, contains, extend, extend_str, find, first_index, lemma_find, lemma_first_index,
    slice_of, split_on, split_once, starts_with, string_of, trim_char, trim_start, words,
};

verus! {

/// The rule a dangling link breaks.
pub const RULE: &'static str = "link";

/// Whether a character is an ASCII letter.
pub open spec fn is_ascii_letter(c: char) -> bool {
    ('a' <= c && c <= 'z') || ('A' <= c && c <= 'Z')
}

/// Whether a character may stand in a URL scheme after its first letter.
pub open spec fn is_scheme_character(c: char) -> bool {
    is_ascii_letter(c) || ('0' <= c && c <= '9') || c == '+' || c == '.' || c == '-'
}

/// Whether a link target is a URL rather than a path: a scheme (a letter,
/// then letters, digits, `+`, `.` or `-`) before a colon.
pub open spec fn has_scheme_of(target: Seq<char>) -> bool {
    match split_once(target, seq![':']) {
        None => false,
        Some((scheme, rest)) => scheme.len() > 0 && is_ascii_letter(scheme[0]) && forall|index: int|
            1 <= index < scheme.len() ==> is_scheme_character(#[trigger] scheme[index]),
    }
}

/// Whether a link target is a URL rather than a path.
pub fn has_scheme(target: &str) -> (url: bool)
    ensures
        url == has_scheme_of(target@),
{
    let text = chars_of(target);
    let colon = vec![':'];
    assert(colon@ =~= seq![':']);
    let scheme = match crate::text::split_at_first(text.as_slice(), colon.as_slice()) {
        None => return false,
        Some((scheme, rest)) => scheme,
    };
    if scheme.len() == 0 {
        return false;
    }
    let first = scheme[0];
    if !(('a' <= first && first <= 'z') || ('A' <= first && first <= 'Z')) {
        return false;
    }
    let mut index: usize = 1;
    while index < scheme.len()
        invariant
            1 <= index <= scheme@.len(),
            text@ == target@,
            split_once(target@, seq![':']) matches Some((found, rest)) && found == scheme@,
            forall|at: int| 1 <= at < index ==> is_scheme_character(#[trigger] scheme@[at]),
        decreases scheme@.len() - index,
    {
        let c = scheme[index];
        if !(('a' <= c && c <= 'z') || ('A' <= c && c <= 'Z') || ('0' <= c && c <= '9') || c == '+' || c == '.' || c == '-') {
            assert(!is_scheme_character(scheme@[index as int]));
            return false;
        }
        index = index + 1;
    }
    true
}

/// The pieces at even places among the first of a line's backtick-separated
/// pieces, joined: what lies outside inline code.
pub open spec fn outside_code(pieces: Seq<Seq<char>>, count: int) -> Seq<char>
    decreases count,
{
    if count <= 0 {
        Seq::empty()
    } else if (count - 1) % 2 == 0 {
        outside_code(pieces, count - 1) + pieces[count - 1]
    } else {
        outside_code(pieces, count - 1)
    }
}

/// A line with its inline code spans removed: a link inside backticks is
/// shown, not made.
pub open spec fn without_code(line: Seq<char>) -> Seq<char> {
    outside_code(split_on(line, seq!['`']), split_on(line, seq!['`']).len() as int)
}

/// A line with its inline code spans removed.
pub fn without_inline_code(line: &str) -> (kept: String)
    ensures
        kept@ == without_code(line@),
{
    let text = chars_of(line);
    let tick = vec!['`'];
    let pieces = crate::text::split_all(text.as_slice(), tick.as_slice());
    let ghost every = split_on(line@, seq!['`']);
    assert(tick@ =~= seq!['`']);
    let mut kept: Vec<char> = Vec::new();
    let mut index: usize = 0;
    while index < pieces.len()
        invariant
            index <= pieces@.len(),
            pieces@.len() == every.len(),
            forall|at: int| 0 <= at < pieces@.len() ==> #[trigger] pieces@[at]@ == every[at],
            kept@ == outside_code(every, index as int),
        decreases pieces@.len() - index,
    {
        if index % 2 == 0 {
            extend(&mut kept, pieces[index].as_slice());
        }
        index = index + 1;
    }
    string_of(kept.as_slice())
}

/// The first word of a text, or nothing when it has none.
pub open spec fn first_word(text: Seq<char>) -> Seq<char> {
    if words(text).len() > 0 {
        words(text)[0]
    } else {
        Seq::empty()
    }
}

/// The targets of the `](target)` links in what is left of a line, in
/// order: the first word between each `](` and the `)` after it.
pub open spec fn inline_targets(rest: Seq<char>) -> Seq<Seq<char>>
    decreases rest.len(),
{
    let start = find(rest, seq![']', '(']);
    if start < 0 || start + 2 > rest.len() {
        Seq::empty()
    } else {
        let after = rest.subrange(start + 2, rest.len() as int);
        let end = first_index(after, ')');
        if end < 0 || end > after.len() {
            Seq::empty()
        } else {
            seq![first_word(after.subrange(0, end))] + inline_targets(after.subrange(end, after.len() as int))
        }
    }
}

/// The target of a line of the form `[label]: target` that is not a
/// footnote, if the line is one.
pub open spec fn definition_target(text: Seq<char>) -> Option<Seq<char>> {
    let trimmed = trim_start(text);
    if trimmed.len() == 0 || trimmed[0] != '[' {
        None
    } else {
        let definition = trimmed.drop_first();
        if definition.len() > 0 && definition[0] == '^' {
            None
        } else {
            match split_once(definition, seq![']', ':']) {
                None => None,
                Some((label, target)) => if contains(label, seq![']']) || words(target).len() == 0 {
                    None
                } else {
                    Some(words(target)[0])
                },
            }
        }
    }
}

/// The link targets on one line: every `](target)`, then the target of a
/// reference definition; inline code left out.
pub open spec fn targets_of(line: Seq<char>) -> Seq<Seq<char>> {
    let kept = without_code(line);
    match definition_target(kept) {
        Some(target) => inline_targets(kept).push(target),
        None => inline_targets(kept),
    }
}

/// The first word of a text, or nothing.
fn first_word_of(text: &[char]) -> (word: Vec<char>)
    ensures
        word@ == first_word(text@),
{
    let found = crate::text::words_of(text);
    if found.len() > 0 {
        slice_of(found[0].as_slice(), 0, found[0].len())
    } else {
        Vec::new()
    }
}

/// The link targets on one line.
pub fn targets_on(line: &str) -> (targets: Vec<String>)
    ensures
        crate::text::views_of(targets@) == targets_of(line@),
{
    let kept = without_inline_code(line);
    let all = chars_of(kept.as_str());
    let opening = vec![']', '('];
    assert(opening@ =~= seq![']', '(']);
    let mut targets: Vec<String> = Vec::new();
    let mut rest = slice_of(all.as_slice(), 0, all.len());
    assert(rest@ =~= all@);
    assert(crate::text::views_of(targets@) =~= Seq::<Seq<char>>::empty());
    loop
        invariant_except_break
            inline_targets(all@) == crate::text::views_of(targets@) + inline_targets(rest@),
        invariant
            opening@ == seq![']', '('],
        ensures
            inline_targets(all@) == crate::text::views_of(targets@),
        decreases rest@.len(),
    {
        proof {
            lemma_find(rest@, opening@);
        }
        let start = match crate::text::find_part(rest.as_slice(), opening.as_slice()) {
            None => {
                assert(crate::text::views_of(targets@) + Seq::<Seq<char>>::empty() =~= crate::text::views_of(targets@));
                break;
            },
            Some(start) => start,
        };
        let after = slice_of(rest.as_slice(), start + 2, rest.len());
        proof {
            lemma_first_index(after@, ')');
        }
        let end = match crate::text::find_char(after.as_slice(), ')') {
            None => {
                assert(crate::text::views_of(targets@) + Seq::<Seq<char>>::empty() =~= crate::text::views_of(targets@));
                break;
            },
            Some(end) => end,
        };
        let inside = slice_of(after.as_slice(), 0, end);
        let word = first_word_of(inside.as_slice());
        let ghost before = targets@;
        targets.push(string_of(word.as_slice()));
        let next = slice_of(after.as_slice(), end, after.len());
        assert(inline_targets(rest@) == seq![word@] + inline_targets(next@));
        assert(crate::text::views_of(targets@) =~= crate::text::views_of(before).push(word@));
        assert(crate::text::views_of(before) + inline_targets(rest@) =~= crate::text::views_of(targets@) + inline_targets(next@));
        rest = next;
    }
    let started = crate::text::trimmed_start(all.as_slice());
    if started.len() > 0 && started[0] == '[' {
        let definition = slice_of(started.as_slice(), 1, started.len());
        assert(definition@ =~= started@.drop_first());
        if !(definition.len() > 0 && definition[0] == '^') {
            let closing = vec![']', ':'];
            assert(closing@ =~= seq![']', ':']);
            match crate::text::split_at_first(definition.as_slice(), closing.as_slice()) {
                Some((label, target)) => {
                    let bracket = vec![']'];
                    assert(bracket@ =~= seq![']']);
                    let found = crate::text::words_of(target.as_slice());
                    if !crate::text::holds(label.as_slice(), bracket.as_slice()) && found.len() > 0 {
                        let ghost before = targets@;
                        targets.push(string_of(found[0].as_slice()));
                        assert(crate::text::views_of(targets@) =~= crate::text::views_of(before).push(found@[0]@));
                    }
                },
                None => {},
            }
        }
    }
    targets
}

/// The path part of a target, with a fragment or query removed: what comes
/// before the first `#` or `?`.
pub open spec fn before_fragment(target: Seq<char>) -> Seq<char>
    decreases target.len(),
{
    if target.len() == 0 || target[0] == '#' || target[0] == '?' {
        Seq::empty()
    } else {
        seq![target[0]] + before_fragment(target.drop_first())
    }
}

/// The path part of a target, with a fragment or query removed and any
/// angle brackets around it; nothing for a target this check does not
/// resolve: an empty one, a bare fragment, or a URL.
pub open spec fn path_part(target: Seq<char>) -> Option<Seq<char>> {
    if target.len() == 0 || target[0] == '#' || has_scheme_of(target) {
        None
    } else {
        let kept = before_fragment(target);
        if kept.len() == 0 {
            None
        } else {
            Some(trim_char(trim_char(kept, '<'), '>'))
        }
    }
}

/// The path part of a target, or nothing for a target this check does not
/// resolve.
pub fn path_of(target: &str) -> (part: Option<String>)
    ensures
        match path_part(target@) {
            None => part is None,
            Some(found) => part matches Some(held) && held@ == found,
        },
{
    let text = chars_of(target);
    if text.len() == 0 || text[0] == '#' || has_scheme(target) {
        return None;
    }
    let mut end: usize = 0;
    assert(text@.subrange(0, 0) + text@.subrange(0, text@.len() as int) =~= text@);
    while end < text.len() && text[end] != '#' && text[end] != '?'
        invariant
            end <= text@.len(),
            before_fragment(text@) == text@.subrange(0, end as int) + before_fragment(text@.subrange(end as int, text@.len() as int)),
        decreases text@.len() - end,
    {
        let ghost tail = text@.subrange(end as int, text@.len() as int);
        assert(tail.drop_first() =~= text@.subrange(end + 1, text@.len() as int));
        assert(text@.subrange(0, end + 1) =~= text@.subrange(0, end as int) + seq![text@[end as int]]);
        end = end + 1;
    }
    assert(before_fragment(text@.subrange(end as int, text@.len() as int)) =~= Seq::<char>::empty());
    if end == 0 {
        return None;
    }
    let kept = slice_of(text.as_slice(), 0, end);
    assert(kept@ =~= before_fragment(text@));
    let opened = crate::text::trimmed_char(kept.as_slice(), '<');
    let closed = crate::text::trimmed_char(opened.as_slice(), '>');
    Some(string_of(closed.as_slice()))
}

/// Where a path part resolves: against the repository root when it begins
/// with a slash (which it then loses), against the file's own directory
/// otherwise.
pub open spec fn resolved_from(root: Seq<char>, directory: Seq<char>, part: Seq<char>) -> Seq<char> {
    if part.len() > 0 && part[0] == '/' {
        path_join(root, part.drop_first())
    } else {
        path_join(directory, part)
    }
}

/// The directory a document's relative links resolve from: its parent, or
/// the root when it has none.
pub open spec fn directory_of(root: Seq<char>, path: Seq<char>) -> Seq<char> {
    match parent_of(path) {
        Some(parent) => parent,
        None => root,
    }
}

/// Where a path part resolves from, and what of it is resolved there: the
/// repository root and the part without its slash when it begins with one,
/// the document's own directory and the whole part otherwise.
pub fn base_of(root: &str, directory: &str, part: &str) -> (based: (String, String))
    ensures
        path_join(based.0@, based.1@) == resolved_from(root@, directory@, part@),
        (part@.len() > 0 && part@[0] == '/') ==> based.0@ == root@ && based.1@ == part@.drop_first(),
        !(part@.len() > 0 && part@[0] == '/') ==> based.0@ == directory@ && based.1@ == part@,
{
    let characters = chars_of(part);
    if characters.len() > 0 && characters[0] == '/' {
        let rest = slice_of(characters.as_slice(), 1, characters.len());
        assert(rest@ =~= part@.drop_first());
        (root.to_owned(), string_of(rest.as_slice()))
    } else {
        (directory.to_owned(), part.to_owned())
    }
}

/// The directory a document's relative links resolve from.
pub fn directory(root: &str, path: &str) -> (found: String)
    ensures
        found@ == directory_of(root@, path@),
{
    match crate::paths::parent(path) {
        Some(parent) => parent,
        None => root.to_owned(),
    }
}

/// One link of a document: its line, its target as written, and the path
/// it names.
#[derive(Clone, Debug, PartialEq, Eq)]
pub struct Link {
    /// The line, one-based.
    pub line: usize,
    /// The target as written.
    pub target: String,
    /// The path the target names.
    pub resolved: String,
}

/// What a link says: its line, target and path.
pub open spec fn link_view(link: Link) -> (usize, Seq<char>, Seq<char>) {
    (link.line, link.target@, link.resolved@)
}

/// The links among the first targets of one line that this check resolves.
pub open spec fn line_links(root: Seq<char>, directory: Seq<char>, line: usize, targets: Seq<Seq<char>>, count: int) -> Seq<(usize, Seq<char>, Seq<char>)>
    decreases count,
{
    if count <= 0 {
        Seq::empty()
    } else {
        let before = line_links(root, directory, line, targets, count - 1);
        match path_part(targets[count - 1]) {
            None => before,
            Some(part) => before.push((line, targets[count - 1], resolved_from(root, directory, part))),
        }
    }
}

/// The links on the first numbered lines of a document that lie outside
/// any fence.
pub open spec fn document_links(root: Seq<char>, directory: Seq<char>, lines: Seq<(usize, Seq<char>)>, count: int) -> Seq<(usize, Seq<char>, Seq<char>)>
    decreases count,
{
    if count <= 0 {
        Seq::empty()
    } else {
        let before = document_links(root, directory, lines, count - 1);
        let texts = lines.map_values(|numbered: (usize, Seq<char>)| numbered.1);
        if fence_rest(lines[count - 1].1) is None && !open_after(texts, count - 1) {
            let targets = targets_of(lines[count - 1].1);
            before + line_links(root, directory, lines[count - 1].0, targets, targets.len() as int)
        } else {
            before
        }
    }
}

/// The links of a Markdown document this check resolves, each with the
/// path it names: those outside fences and inline code, whose targets are
/// neither URLs nor bare fragments.
pub open spec fn links_of(root: Seq<char>, path: Seq<char>, text: Seq<char>) -> Seq<(usize, Seq<char>, Seq<char>)> {
    document_links(root, directory_of(root, path), numbered_text(text), numbered_text(text).len() as int)
}

/// The links of a Markdown document this check resolves, each with the
/// path it names.
pub fn links(root: &str, path: &str, text: &str) -> (found: Vec<Link>)
    ensures
        found@.map_values(|link: Link| link_view(link)) == links_of(root@, path@, text@),
{
    let base = directory(root, path);
    let numbered = numbered_lines(text);
    let ghost views = numbered_views(numbered@);
    assert(views =~= numbered_text(text@));
    let fences = fence_lines(numbered.as_slice());
    assert(texts_of_lines(numbered@) =~= views.map_values(|numbered: (usize, Seq<char>)| numbered.1));
    let mut found: Vec<Link> = Vec::new();
    let mut index: usize = 0;
    assert(found@.map_values(|link: Link| link_view(link)) =~= Seq::<(usize, Seq<char>, Seq<char>)>::empty());
    while index < fences.len()
        invariant
            index <= fences@.len(),
            fences@.len() == numbered@.len(),
            views == numbered_views(numbered@),
            base@ == directory_of(root@, path@),
            texts_of_lines(numbered@) == views.map_values(|numbered: (usize, Seq<char>)| numbered.1),
            forall|at: int| 0 <= at < numbered@.len() ==> crate::policy::placed(#[trigger] fences@[at], numbered@[at].0, numbered@[at].1@, open_after(texts_of_lines(numbered@), at)),
            found@.map_values(|link: Link| link_view(link)) == document_links(root@, base@, views, index as int),
        decreases fences@.len() - index,
    {
        let ghost texts = texts_of_lines(numbered@);
        assert(crate::policy::placed(fences@[index as int], numbered@[index as int].0, numbered@[index as int].1@, open_after(texts, index as int)));
        assert(views[index as int] == (numbered@[index as int].0, numbered@[index as int].1@));
        match &fences[index] {
            FenceLine::Outside { line, text } => {
                let targets = targets_on(text.as_str());
                let ghost start = found@.map_values(|link: Link| link_view(link));
                let mut at: usize = 0;
                while at < targets.len()
                    invariant
                        at <= targets@.len(),
                        found@.map_values(|link: Link| link_view(link)) == start + line_links(root@, base@, *line, crate::text::views_of(targets@), at as int),
                    decreases targets@.len() - at,
                {
                    assert(crate::text::views_of(targets@)[at as int] == targets@[at as int]@);
                    match path_of(targets[at].as_str()) {
                        Some(part) => {
                            let (from, rest) = base_of(root, base.as_str(), part.as_str());
                            let resolved = crate::paths::join_path(from.as_str(), rest.as_str());
                            let link = Link { line: *line, target: targets[at].clone(), resolved };
                            let ghost before = found@;
                            found.push(link);
                            assert(found@.map_values(|link: Link| link_view(link)) =~= before.map_values(|link: Link| link_view(link)).push(link_view(link)));
                        },
                        None => {},
                    }
                    at = at + 1;
                }
            },
            _ => {},
        }
        index = index + 1;
    }
    found
}

/// A Markdown document's links, each marked with whether the path it names
/// exists.
#[derive(Clone, Debug)]
pub struct CheckedDocument {
    /// The document.
    pub path: String,
    /// Its links, as [`links`] finds them.
    pub links: Vec<Link>,
    /// For each link, whether the path it names exists.
    pub exists: Vec<bool>,
}

/// The links among the first of one document whose paths do not exist; a
/// link with no answer counts as resolving.
pub open spec fn dangling_faults(root: Seq<char>, document: CheckedDocument, count: int) -> Seq<Fault>
    decreases count,
{
    if count <= 0 {
        Seq::empty()
    } else {
        let before = dangling_faults(root, document, count - 1);
        if count - 1 < document.exists@.len() && !document.exists@[count - 1] {
            before.push((relative_of(root, document.path@), Some(document.links@[count - 1].line), RULE@,
                "`"@ + document.links@[count - 1].target@ + "` does not resolve"@))
        } else {
            before
        }
    }
}

/// What the first documents are found wanting in.
pub open spec fn documents_faults(root: Seq<char>, documents: Seq<CheckedDocument>, count: int) -> Seq<Fault>
    decreases count,
{
    if count <= 0 {
        Seq::empty()
    } else {
        documents_faults(root, documents, count - 1) + dangling_faults(root, documents[count - 1], documents[count - 1].links@.len() as int)
    }
}

/// The links check: every link whose path does not exist, document by
/// document and line by line.
pub fn check(root: &str, documents: &[CheckedDocument]) -> (found: Vec<Violation>)
    ensures
        faults_of(found@) == documents_faults(root@, documents@, documents@.len() as int),
{
    proof {
        reveal_strlit("`");
        reveal_strlit("` does not resolve");
    }
    let mut found: Vec<Violation> = Vec::new();
    assert(faults_of(found@) =~= Seq::<Fault>::empty());
    let mut index: usize = 0;
    while index < documents.len()
        invariant
            index <= documents@.len(),
            faults_of(found@) == documents_faults(root@, documents@, index as int),
        decreases documents@.len() - index,
    {
        let document = &documents[index];
        let ghost start = faults_of(found@);
        let mut at: usize = 0;
        while at < document.links.len()
            invariant
                at <= document.links@.len(),
                faults_of(found@) == start + dangling_faults(root@, *document, at as int),
            decreases document.links@.len() - at,
        {
            if at < document.exists.len() && !document.exists[at] {
                let mut detail: Vec<char> = Vec::new();
                extend_str(&mut detail, "`");
                extend_str(&mut detail, document.links[at].target.as_str());
                extend_str(&mut detail, "` does not resolve");
                report(&mut found, Violation {
                    path: relative(root, document.path.as_str()),
                    line: Some(document.links[at].line),
                    rule: RULE,
                    detail: string_of(detail.as_slice()),
                });
            }
            at = at + 1;
        }
        index = index + 1;
    }
    found
}

} // verus!
