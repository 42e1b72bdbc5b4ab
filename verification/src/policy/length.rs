//! No file over a thousand lines, whatever its kind (the synthetic trees
//! under the fixtures included), `Cargo.lock` excepted: every file git
//! tracks or would track is counted. A file that is not text has no lines
//! and is not counted.
use vstd::prelude::*;

use crate::paths::file_name;
use crate::policy::{Fault, SourceText, Violation, faults_of, relative, relative_of, report};
use crate::text::{chars_of, decimal, decimal_chars, extend, extend_str, lines, string_of};

verus! {

/// The most lines a file may have.
pub const MAXIMUM_LINES: usize = 1000;

/// The one generated file the rule does not apply to.
pub const EXEMPT_FILE: &'static str = "Cargo.lock";

/// The rule a long file breaks.
pub const RULE: &'static str = "length";

/// What the first listed text files are found wanting in: each over the
/// most lines a file may have, unless it is the exempt file.
pub open spec fn length_faults(root: Seq<char>, files: Seq<SourceText>, count: int) -> Seq<Fault>
    decreases count,
{
    if count <= 0 {
        Seq::empty()
    } else {
        let before = length_faults(root, files, count - 1);
        let file = files[count - 1];
        let counted = lines(file.text@).len();
        if file_name(file.path@) == Some(EXEMPT_FILE@) || counted <= MAXIMUM_LINES {
            before
        } else {
            before.push((relative_of(root, file.path@), None, RULE@,
                decimal(counted) + " lines; the most a file may have is 1000"@))
        }
    }
}

/// The length check over the files git lists that are text, each with its
/// text.
pub fn check(root: &str, files: &[SourceText]) -> (found: Vec<Violation>)
    ensures
        faults_of(found@) == length_faults(root@, files@, files@.len() as int),
{
    proof {
        reveal_strlit(" lines; the most a file may have is 1000");
        reveal_strlit("Cargo.lock");
    }
    let mut found: Vec<Violation> = Vec::new();
    assert(faults_of(found@) =~= Seq::<Fault>::empty());
    let mut index: usize = 0;
    while index < files.len()
        invariant
            index <= files@.len(),
            faults_of(found@) == length_faults(root@, files@, index as int),
        decreases files@.len() - index,
    {
        let file = &files[index];
        let counted = crate::text::lines_of(chars_of(file.text.as_str()).as_slice()).len();
        let named = crate::paths::components_of(chars_of(file.path.as_str()).as_slice());
        let exempt = named.len() > 0 && crate::text::spells(named[named.len() - 1].as_slice(), EXEMPT_FILE);
        proof {
            if named@.len() > 0 {
                assert(named@.map_values(|piece: Vec<char>| piece@).last() == named@[named@.len() - 1]@);
            }
            reveal_strlit("..");
        }
        proof {
            reveal_strlit("Cargo.lock");
            reveal_strlit("..");
            let all = crate::paths::components(file.path@);
            assert(all == named@.map_values(|piece: Vec<char>| piece@));
            assert(".."@.len() != EXEMPT_FILE@.len());
            if all.len() > 0 {
                assert(exempt == (all.last() == EXEMPT_FILE@));
            }
        }
        assert(exempt == (file_name(file.path@) == Some(EXEMPT_FILE@)));
        if !exempt && counted > MAXIMUM_LINES {
            let mut detail = decimal_chars(counted as u64);
            extend_str(&mut detail, " lines; the most a file may have is 1000");
            proof {
                reveal_strlit(" lines; the most a file may have is 1000");
            }
            report(&mut found, Violation {
                path: relative(root, file.path.as_str()),
                line: None,
                rule: RULE,
                detail: string_of(detail.as_slice()),
            });
        }
        index = index + 1;
    }
    found
}

} // verus!
