//! Every crate root but `iznik-ffi`'s forbids unsafe code: `iznik-ffi` is
//! the C boundary and the one crate where `unsafe` exists, and a binary's
//! `main.rs` is a crate root too.
use vstd::prelude::*;

use crate::paths::{path_join, same_place};
use crate::policy::{Fault, SourceText, Violation, faults_of, relative, relative_of, report};
use crate::text::{chars_of, contains, extend_str, string_of};

verus! {

/// The attribute every crate root but the boundary's carries.
pub const FORBID: &'static str = "#![forbid(unsafe_code)]";

/// The one crate root allowed to omit it, relative to the root.
pub const BOUNDARY: &'static str = "crates/iznik-ffi/src/lib.rs";

/// The rule a crate root without the attribute breaks.
pub const RULE: &'static str = "unsafe-boundary";

/// What the first crate roots are found wanting in: each that is not the
/// boundary's and does not carry the attribute.
pub open spec fn boundary_faults(root: Seq<char>, crate_roots: Seq<SourceText>, count: int) -> Seq<Fault>
    decreases count,
{
    if count <= 0 {
        Seq::empty()
    } else {
        let before = boundary_faults(root, crate_roots, count - 1);
        let crate_root = crate_roots[count - 1];
        if same_place(crate_root.path@, path_join(root, BOUNDARY@)) || contains(crate_root.text@, FORBID@) {
            before
        } else {
            before.push((relative_of(root, crate_root.path@), None, RULE@,
                "the crate root does not carry `"@ + FORBID@ + "`"@))
        }
    }
}

/// The unsafe boundary check over the crate roots of the workspace members
/// that exist, member by member, each with its text.
pub fn check(root: &str, crate_roots: &[SourceText]) -> (found: Vec<Violation>)
    ensures
        faults_of(found@) == boundary_faults(root@, crate_roots@, crate_roots@.len() as int),
{
    let boundary = crate::paths::join_path(root, BOUNDARY);
    let mut found: Vec<Violation> = Vec::new();
    assert(faults_of(found@) =~= Seq::<Fault>::empty());
    let mut index: usize = 0;
    while index < crate_roots.len()
        invariant
            index <= crate_roots@.len(),
            boundary@ == path_join(root@, BOUNDARY@),
            faults_of(found@) == boundary_faults(root@, crate_roots@, index as int),
        decreases crate_roots@.len() - index,
    {
        proof {
            reveal_strlit("the crate root does not carry `");
            reveal_strlit("`");
        }
        let crate_root = &crate_roots[index];
        let forbid = chars_of(FORBID);
        if !crate::paths::same_path(crate_root.path.as_str(), boundary.as_str())
            && !crate::text::holds(chars_of(crate_root.text.as_str()).as_slice(), forbid.as_slice()) {
            let mut detail: Vec<char> = Vec::new();
            extend_str(&mut detail, "the crate root does not carry `");
            extend_str(&mut detail, FORBID);
            extend_str(&mut detail, "`");
            report(&mut found, Violation {
                path: relative(root, crate_root.path.as_str()),
                line: None,
                rule: RULE,
                detail: string_of(detail.as_slice()),
            });
        }
        index = index + 1;
    }
    found
}

} // verus!
