//! No integer or float literal but `0` and `1` in expression position,
//! outside a constant's or static's initializer and an enum discriminant, in
//! the files that are not tests: every other value is a named constant
//! whose documentation says what the number is and why. An array-repeat
//! count and an array-type length are expressions for this purpose, and so
//! is a literal handed to a macro; a literal in a pattern is reported too.
//! Which literals stand where is a parser's finding; this module judges
//! them.
use vstd::prelude::*;

use crate::paths::{components, lies_under};
use crate::policy::{Fault, Violation, faults_of, fixtures_of, is_fixture, relative, relative_of, report};
use crate::text::{chars_of, extend_str, string_of};

verus! {

/// The rule a literal breaks.
pub const RULE: &'static str = "literal";

/// Whether a component names a directory under which a file is a test or a
/// benchmark.
pub open spec fn is_test_directory(name: Seq<char>) -> bool {
    name == "tests"@ || name == "benches"@
}

/// Whether a file is a test, a benchmark or a fixture, and so outside the
/// rule; the directories are judged on the path relative to the root, so a
/// root that itself lies under a `tests/` directory is not exempt
/// wholesale.
pub open spec fn exempt(root: Seq<char>, path: Seq<char>) -> bool {
    ||| lies_under(path, fixtures_of(root))
    ||| exists|index: int| 0 <= index < components(relative_of(root, path)).len()
        && is_test_directory(#[trigger] components(relative_of(root, path))[index])
}

/// Whether a file is a test, a benchmark or a fixture.
pub fn is_exempt(root: &str, path: &str) -> (outside: bool)
    ensures
        outside == exempt(root@, path@),
{
    proof {
        reveal_strlit("tests");
        reveal_strlit("benches");
    }
    if is_fixture(root, path) {
        return true;
    }
    let reported = relative(root, path);
    let named = crate::paths::components_of(chars_of(reported.as_str()).as_slice());
    let ghost all = named@.map_values(|piece: Vec<char>| piece@);
    let mut index: usize = 0;
    while index < named.len()
        invariant
            index <= named@.len(),
            all == named@.map_values(|piece: Vec<char>| piece@),
            all == components(relative_of(root@, path@)),
            forall|at: int| 0 <= at < index ==> !is_test_directory(#[trigger] all[at]),
        decreases named@.len() - index,
    {
        assert(all[index as int] == named@[index as int]@);
        if crate::text::spells(named[index].as_slice(), "tests") || crate::text::spells(named[index].as_slice(), "benches") {
            assert(is_test_directory(all[index as int]));
            return true;
        }
        index = index + 1;
    }
    false
}

/// What kind of literal a parser found.
#[derive(Clone, Copy, Debug, PartialEq, Eq)]
pub enum LiteralKind {
    /// An integer literal.
    Integer,
    /// A floating-point literal.
    Float,
    /// Any other literal: a string, a character, a byte or a boolean.
    Other,
}

/// One literal a parser found in expression position, or handed to a macro.
#[derive(Clone, Debug)]
pub struct Literal {
    /// Its kind.
    pub kind: LiteralKind,
    /// Its value's decimal digits, as the parser gives them.
    pub digits: String,
    /// The literal as written.
    pub text: String,
    /// Its line, one-based.
    pub line: usize,
}

/// A text without the copies of one character at its end.
pub open spec fn without_trailing(text: Seq<char>, edge: char) -> Seq<char>
    decreases text.len(),
{
    if text.len() > 0 && text.last() == edge {
        without_trailing(text.drop_last(), edge)
    } else {
        text
    }
}

/// Whether a literal's value is one of the two a bare expression may hold;
/// a literal that is no number is never a magic number.
pub open spec fn zero_or_one(kind: LiteralKind, digits: Seq<char>) -> bool {
    match kind {
        LiteralKind::Integer => digits == "0"@ || digits == "1"@,
        LiteralKind::Float => {
            let value = without_trailing(without_trailing(digits, '0'), '.');
            value == "0"@ || value == "1"@
        },
        LiteralKind::Other => true,
    }
}

/// A text without the copies of one character at its end.
fn trailing_removed(text: &[char], edge: char) -> (kept: Vec<char>)
    ensures
        kept@ == without_trailing(text@, edge),
{
    let mut end: usize = text.len();
    assert(text@.subrange(0, text@.len() as int) =~= text@);
    while end > 0 && text[end - 1] == edge
        invariant
            end <= text@.len(),
            without_trailing(text@, edge) == without_trailing(text@.subrange(0, end as int), edge),
        decreases end,
    {
        assert(text@.subrange(0, end as int).drop_last() =~= text@.subrange(0, end - 1));
        end = end - 1;
    }
    crate::text::slice_of(text, 0, end)
}

/// Whether a literal's value is one of the two a bare expression may hold.
pub fn is_zero_or_one(literal: &Literal) -> (plain: bool)
    ensures
        plain == zero_or_one(literal.kind, literal.digits@),
{
    proof {
        reveal_strlit("0");
        reveal_strlit("1");
    }
    let digits = chars_of(literal.digits.as_str());
    match literal.kind {
        LiteralKind::Integer => crate::text::spells(digits.as_slice(), "0") || crate::text::spells(digits.as_slice(), "1"),
        LiteralKind::Float => {
            let zeros = trailing_removed(digits.as_slice(), '0');
            let value = trailing_removed(zeros.as_slice(), '.');
            crate::text::spells(value.as_slice(), "0") || crate::text::spells(value.as_slice(), "1")
        },
        LiteralKind::Other => true,
    }
}

/// The literals a parser found in one source file.
#[derive(Clone, Debug)]
pub struct LiteralFile {
    /// The file.
    pub path: String,
    /// Its literals in expression position, in source order.
    pub literals: Vec<Literal>,
}

/// The magic numbers among the first literals of one file.
pub open spec fn literal_faults(root: Seq<char>, file: LiteralFile, count: int) -> Seq<Fault>
    decreases count,
{
    if count <= 0 {
        Seq::empty()
    } else {
        let before = literal_faults(root, file, count - 1);
        let literal = file.literals@[count - 1];
        if zero_or_one(literal.kind, literal.digits@) {
            before
        } else {
            before.push((relative_of(root, file.path@), Some(literal.line), RULE@,
                "`"@ + literal.text@ + "` is a magic number; name it in a documented constant"@))
        }
    }
}

/// What the first files are found wanting in: the magic numbers of those
/// that are not exempt.
pub open spec fn files_faults(root: Seq<char>, files: Seq<LiteralFile>, count: int) -> Seq<Fault>
    decreases count,
{
    if count <= 0 {
        Seq::empty()
    } else if exempt(root, files[count - 1].path@) {
        files_faults(root, files, count - 1)
    } else {
        files_faults(root, files, count - 1) + literal_faults(root, files[count - 1], files[count - 1].literals@.len() as int)
    }
}

/// The literals check over what a parser found in the Rust files of a tree.
pub fn check(root: &str, files: &[LiteralFile]) -> (found: Vec<Violation>)
    ensures
        faults_of(found@) == files_faults(root@, files@, files@.len() as int),
{
    proof {
        reveal_strlit("`");
        reveal_strlit("` is a magic number; name it in a documented constant");
    }
    let mut found: Vec<Violation> = Vec::new();
    assert(faults_of(found@) =~= Seq::<Fault>::empty());
    let mut index: usize = 0;
    while index < files.len()
        invariant
            index <= files@.len(),
            faults_of(found@) == files_faults(root@, files@, index as int),
        decreases files@.len() - index,
    {
        let file = &files[index];
        if !is_exempt(root, file.path.as_str()) {
            let ghost start = faults_of(found@);
            let mut at: usize = 0;
            while at < file.literals.len()
                invariant
                    at <= file.literals@.len(),
                    faults_of(found@) == start + literal_faults(root@, *file, at as int),
                decreases file.literals@.len() - at,
            {
                let literal = &file.literals[at];
                if !is_zero_or_one(literal) {
                    let mut detail: Vec<char> = Vec::new();
                    extend_str(&mut detail, "`");
                    extend_str(&mut detail, literal.text.as_str());
                    extend_str(&mut detail, "` is a magic number; name it in a documented constant");
                    report(&mut found, Violation {
                        path: relative(root, file.path.as_str()),
                        line: Some(literal.line),
                        rule: RULE,
                        detail: string_of(detail.as_slice()),
                    });
                }
                at = at + 1;
            }
        }
        index = index + 1;
    }
    found
}

} // verus!
