//! Relative paths as text, read the way `std::path::Path` reads them on a
//! Unix machine: pieces between slashes, the empty and `.` pieces naming
//! nothing, a file name at the end, and its stem and extension.
use vstd::prelude::*;

use crate::text::{
    chars_of, last_index, named_pieces, slice_of, spells, split_all, split_on, string_of,
    find_last_char, lemma_last_index,
};

verus! {

/// The pieces of a path between its slashes.
pub open spec fn pieces(path: Seq<char>) -> Seq<Seq<char>> {
    split_on(path, "/"@)
}

/// The components of a path that name something, in order.
pub open spec fn components(path: Seq<char>) -> Seq<Seq<char>> {
    named_pieces(pieces(path))
}

/// Whether every component of a path is a plain name: no root before it, no
/// `.` at its start, and no `..` anywhere in it.
pub open spec fn only_names(path: Seq<char>) -> bool {
    &&& !(path.len() > 0 && path[0] == '/')
    &&& pieces(path)[0] != "."@
    &&& forall|index: int| 0 <= index < pieces(path).len() ==> #[trigger] pieces(path)[index] != ".."@
}

/// The last component of a path, unless there is none or it is `..`.
pub open spec fn file_name(path: Seq<char>) -> Option<Seq<char>> {
    let named = components(path);
    if named.len() == 0 || named.last() == ".."@ {
        None
    } else {
        Some(named.last())
    }
}

/// A file name without its extension: up to its last dot, unless the only
/// dot opens it.
pub open spec fn stem_of(name: Seq<char>) -> Seq<char> {
    let dot = last_index(name, '.');
    if dot <= 0 {
        name
    } else {
        name.subrange(0, dot)
    }
}

/// A file name's extension: after its last dot, unless the only dot opens
/// it or there is none.
pub open spec fn extension_of(name: Seq<char>) -> Option<Seq<char>> {
    let dot = last_index(name, '.');
    if dot <= 0 {
        None
    } else {
        Some(name.subrange(dot + 1, name.len() as int))
    }
}

/// The components of a path joined by single slashes: the form two paths
/// that name the same place below one directory share.
pub open spec fn joined(named: Seq<Seq<char>>) -> Seq<char>
    decreases named.len(),
{
    if named.len() == 0 {
        Seq::empty()
    } else if named.len() == 1 {
        named[0]
    } else {
        joined(named.drop_last()) + "/"@ + named.last()
    }
}

/// A path in the form [`joined`] gives its components.
pub open spec fn normal_form(path: Seq<char>) -> Seq<char> {
    joined(components(path))
}

/// The components of a path that name something.
pub fn components_of(path: &[char]) -> (named: Vec<Vec<char>>)
    ensures
        named@.map_values(|piece: Vec<char>| piece@) == components(path@),
{
    proof {
        reveal_strlit("/");
        reveal_strlit(".");
    }
    let slash = chars_of("/");
    let all = split_all(path, slash.as_slice());
    let ghost every = pieces(path@);
    let mut named: Vec<Vec<char>> = Vec::new();
    let mut index: usize = 0;
    while index < all.len()
        invariant
            index <= all@.len(),
            all@.len() == every.len(),
            every == split_on(path@, "/"@),
            forall|at: int| 0 <= at < all@.len() ==> #[trigger] all@[at]@ == every[at],
            named@.map_values(|piece: Vec<char>| piece@) == named_pieces(every.subrange(0, index as int)),
        decreases all@.len() - index,
    {
        let ghost before = every.subrange(0, index as int);
        proof {
            reveal(Seq::filter);
            assert(every.subrange(0, index + 1).drop_last() =~= before);
        }
        let piece = &all[index];
        assert(piece@ == every[index as int]);
        if piece.len() > 0 && !spells(piece.as_slice(), ".") {
            let ghost kept = named@;
            let copy = slice_of(piece.as_slice(), 0, piece.len());
            assert(copy@ =~= piece@);
            named.push(copy);
            assert(named@.map_values(|piece: Vec<char>| piece@) =~= kept.map_values(|piece: Vec<char>| piece@).push(every[index as int]));
        }
        index = index + 1;
    }
    assert(every.subrange(0, every.len() as int) =~= every);
    named
}

/// Joins components with single slashes.
pub fn joined_of(named: &Vec<Vec<char>>) -> (path: Vec<char>)
    ensures
        path@ == joined(named@.map_values(|piece: Vec<char>| piece@)),
{
    let ghost every = named@.map_values(|piece: Vec<char>| piece@);
    let mut path: Vec<char> = Vec::new();
    let mut index: usize = 0;
    while index < named.len()
        invariant
            index <= named@.len(),
            every == named@.map_values(|piece: Vec<char>| piece@),
            path@ == joined(every.subrange(0, index as int)),
        decreases named@.len() - index,
    {
        let ghost before = every.subrange(0, index as int);
        assert(every.subrange(0, index + 1).drop_last() =~= before);
        if index > 0 {
            path.push('/');
        }
        crate::text::extend(&mut path, named[index].as_slice());
        proof {
            if index == 0 {
                assert(every.subrange(0, 1) =~= seq![every[0]]);
            } else {
                assert(path@ =~= joined(before) + "/"@ + every[index as int]) by {
                    reveal_strlit("/");
                }
            }
        }
        index = index + 1;
    }
    assert(every.subrange(0, every.len() as int) =~= every);
    path
}

/// A path in the form its components share.
pub fn normalized(path: &[char]) -> (normal: Vec<char>)
    ensures
        normal@ == normal_form(path@),
{
    let named = components_of(path);
    joined_of(&named)
}

/// A file name without its extension.
pub fn stem_text(name: &[char]) -> (stem: Vec<char>)
    ensures
        stem@ == stem_of(name@),
{
    proof {
        lemma_last_index(name@, '.');
    }
    match find_last_char(name, '.') {
        Some(dot) => if dot == 0 {
            slice_of(name, 0, name.len())
        } else {
            slice_of(name, 0, dot)
        },
        None => slice_of(name, 0, name.len()),
    }
}

/// A file name's extension.
pub fn extension_text(name: &[char]) -> (extension: Option<Vec<char>>)
    ensures
        match extension_of(name@) {
            None => extension is None,
            Some(found) => extension matches Some(held) && held@ == found,
        },
{
    proof {
        lemma_last_index(name@, '.');
    }
    match find_last_char(name, '.') {
        Some(dot) => if dot == 0 {
            None
        } else {
            Some(slice_of(name, dot + 1, name.len()))
        },
        None => None,
    }
}

/// The stem of a path's file name, or nothing when it has no file name, as
/// `Path::file_stem` gives it, lossily.
pub open spec fn path_stem(path: Seq<char>) -> Seq<char> {
    match file_name(path) {
        Some(name) => stem_of(name),
        None => Seq::empty(),
    }
}

/// The stem of a path's file name, or nothing when it has none.
pub fn stem(path: &str) -> (stem: String)
    ensures
        stem@ == path_stem(path@),
{
    proof {
        reveal_strlit("..");
    }
    let named = components_of(chars_of(path).as_slice());
    if named.len() == 0 {
        return string_of(Vec::<char>::new().as_slice());
    }
    let last = &named[named.len() - 1];
    proof {
        assert(named@.map_values(|piece: Vec<char>| piece@).last() == last@);
    }
    if spells(last.as_slice(), "..") {
        return string_of(Vec::<char>::new().as_slice());
    }
    string_of(stem_text(last.as_slice()).as_slice())
}


/// Whether every component of a path is a plain name.
pub fn names_only(path: &[char]) -> (plain: bool)
    ensures
        plain == only_names(path@),
{
    proof {
        reveal_strlit("/");
        reveal_strlit(".");
        reveal_strlit("..");
    }
    if path.len() > 0 && path[0] == '/' {
        return false;
    }
    let slash = chars_of("/");
    let all = split_all(path, slash.as_slice());
    let ghost every = pieces(path@);
    assert(all@.len() == every.len());
    assert(every.len() > 0);
    if spells(all[0].as_slice(), ".") {
        return false;
    }
    let mut index: usize = 0;
    while index < all.len()
        invariant
            index <= all@.len(),
            all@.len() == every.len(),
            every == pieces(path@),
            forall|at: int| 0 <= at < all@.len() ==> #[trigger] all@[at]@ == every[at],
            forall|at: int| 0 <= at < index ==> #[trigger] every[at] != ".."@,
        decreases all@.len() - index,
    {
        if spells(all[index].as_slice(), "..") {
            assert(every[index as int] == ".."@);
            return false;
        }
        index = index + 1;
    }
    true
}


/// One path joined onto another as `Path::join` joins them: a rooted second
/// path replaces the first, and otherwise a slash stands between them
/// unless the first is empty or already ends in one.
pub open spec fn path_join(base: Seq<char>, more: Seq<char>) -> Seq<char> {
    if more.len() > 0 && more[0] == '/' {
        more
    } else if base.len() == 0 || base.last() == '/' {
        base + more
    } else {
        base + "/"@ + more
    }
}

/// One path joined onto another.
pub fn join_path(base: &str, more: &str) -> (joined: String)
    ensures
        joined@ == path_join(base@, more@),
{
    let first = chars_of(base);
    let second = chars_of(more);
    if second.len() > 0 && second[0] == '/' {
        return more.to_owned();
    }
    let mut held: Vec<char> = Vec::new();
    crate::text::extend(&mut held, first.as_slice());
    if !(first.len() == 0 || first[first.len() - 1] == '/') {
        held.push('/');
        proof {
            reveal_strlit("/");
        }
    }
    crate::text::extend(&mut held, second.as_slice());
    string_of(held.as_slice())
}

/// Whether a path begins at the root.
pub open spec fn rooted(path: Seq<char>) -> bool {
    path.len() > 0 && path[0] == '/'
}

/// Whether a path lies under another, or is it, as `Path::starts_with`
/// compares them: both rooted or both not, and the other's components the
/// first of its own.
pub open spec fn lies_under(path: Seq<char>, base: Seq<char>) -> bool {
    &&& rooted(path) == rooted(base)
    &&& components(base).len() <= components(path).len()
    &&& components(path).subrange(0, components(base).len() as int) == components(base)
}

/// A path with another it lies under taken off its front, as
/// `Path::strip_prefix` leaves it: the components that remain, joined.
pub open spec fn stripped_of(path: Seq<char>, base: Seq<char>) -> Option<Seq<char>> {
    if lies_under(path, base) {
        Some(joined(components(path).subrange(components(base).len() as int, components(path).len() as int)))
    } else {
        None
    }
}

/// A path's extension: that of its file name, if it has one.
pub open spec fn path_extension(path: Seq<char>) -> Option<Seq<char>> {
    match file_name(path) {
        Some(name) => extension_of(name),
        None => None,
    }
}

/// Whether two lists of components hold the same texts up to a count.
fn same_components(left: &Vec<Vec<char>>, right: &Vec<Vec<char>>, count: usize) -> (same: bool)
    requires
        count <= left@.len(),
        count <= right@.len(),
    ensures
        same == (left@.map_values(|piece: Vec<char>| piece@).subrange(0, count as int)
            == right@.map_values(|piece: Vec<char>| piece@).subrange(0, count as int)),
{
    let ghost first = left@.map_values(|piece: Vec<char>| piece@);
    let ghost second = right@.map_values(|piece: Vec<char>| piece@);
    let mut index: usize = 0;
    while index < count
        invariant
            index <= count,
            count <= left@.len(),
            count <= right@.len(),
            first == left@.map_values(|piece: Vec<char>| piece@),
            second == right@.map_values(|piece: Vec<char>| piece@),
            first.subrange(0, index as int) == second.subrange(0, index as int),
        decreases count - index,
    {
        if !crate::text::same_chars(left[index].as_slice(), right[index].as_slice()) {
            assert(first.subrange(0, count as int)[index as int] != second.subrange(0, count as int)[index as int]);
            return false;
        }
        assert(first[index as int] == left@[index as int]@);
        assert(second[index as int] == right@[index as int]@);
        assert(first.subrange(0, index + 1) =~= first.subrange(0, index as int).push(first[index as int]));
        assert(second.subrange(0, index + 1) =~= second.subrange(0, index as int).push(second[index as int]));
        index = index + 1;
    }
    true
}

/// Whether a path lies under another, or is it.
pub fn starts_with_path(path: &str, base: &str) -> (under: bool)
    ensures
        under == lies_under(path@, base@),
{
    let path_chars = chars_of(path);
    let base_chars = chars_of(base);
    let path_rooted = path_chars.len() > 0 && path_chars[0] == '/';
    let base_rooted = base_chars.len() > 0 && base_chars[0] == '/';
    if path_rooted != base_rooted {
        return false;
    }
    let own = components_of(path_chars.as_slice());
    let theirs = components_of(base_chars.as_slice());
    if theirs.len() > own.len() {
        return false;
    }
    let same = same_components(&own, &theirs, theirs.len());
    proof {
        let other = theirs@.map_values(|piece: Vec<char>| piece@);
        assert(other.subrange(0, other.len() as int) =~= other);
    }
    same
}

/// A path with another it lies under taken off its front, if it lies under
/// it.
pub fn strip_path(path: &str, base: &str) -> (rest: Option<String>)
    ensures
        match stripped_of(path@, base@) {
            None => rest is None,
            Some(left) => rest matches Some(held) && held@ == left,
        },
{
    if !starts_with_path(path, base) {
        return None;
    }
    let own = components_of(chars_of(path).as_slice());
    let theirs = components_of(chars_of(base).as_slice());
    let mut remaining: Vec<Vec<char>> = Vec::new();
    let mut index: usize = theirs.len();
    let ghost mine = own@.map_values(|piece: Vec<char>| piece@);
    while index < own.len()
        invariant
            theirs@.len() <= index <= own@.len(),
            mine == own@.map_values(|piece: Vec<char>| piece@),
            remaining@.map_values(|piece: Vec<char>| piece@) == mine.subrange(theirs@.len() as int, index as int),
        decreases own@.len() - index,
    {
        let ghost before = remaining@;
        let copy = slice_of(own[index].as_slice(), 0, own[index].len());
        assert(copy@ =~= own@[index as int]@);
        assert(mine[index as int] == own@[index as int]@);
        remaining.push(copy);
        assert(remaining@ == before.push(copy));
        assert(remaining@.map_values(|piece: Vec<char>| piece@) =~= before.map_values(|piece: Vec<char>| piece@).push(copy@));
        assert(mine.subrange(theirs@.len() as int, index + 1) =~= mine.subrange(theirs@.len() as int, index as int).push(mine[index as int]));
        index = index + 1;
    }
    Some(string_of(joined_of(&remaining).as_slice()))
}

/// A path's extension, if its file name has one.
pub fn extension(path: &str) -> (found: Option<String>)
    ensures
        match path_extension(path@) {
            None => found is None,
            Some(held) => found matches Some(text) && text@ == held,
        },
{
    proof {
        reveal_strlit("..");
    }
    let named = components_of(chars_of(path).as_slice());
    if named.len() == 0 {
        return None;
    }
    let last = &named[named.len() - 1];
    proof {
        assert(named@.map_values(|piece: Vec<char>| piece@).last() == last@);
    }
    if spells(last.as_slice(), "..") {
        return None;
    }
    match extension_text(last.as_slice()) {
        Some(found) => Some(string_of(found.as_slice())),
        None => None,
    }
}

/// Whether two paths name the same place, as `Path` compares them: both
/// rooted or both not, with the same components.
pub open spec fn same_place(left: Seq<char>, right: Seq<char>) -> bool {
    rooted(left) == rooted(right) && components(left) == components(right)
}

/// Whether two paths name the same place.
pub fn same_path(left: &str, right: &str) -> (same: bool)
    ensures
        same == same_place(left@, right@),
{
    let forward = starts_with_path(left, right);
    let backward = starts_with_path(right, left);
    proof {
        if forward && backward {
            assert(components(right@).len() == components(left@).len());
            assert(components(left@).subrange(0, components(left@).len() as int) =~= components(left@));
        }
        if same_place(left@, right@) {
            assert(components(left@).subrange(0, components(left@).len() as int) =~= components(left@));
        }
    }
    forward && backward
}

/// The directory of a file, as `Path::parent` gives it, or nothing for a
/// path that ends in its root or is empty; a `.` at the front names nothing
/// here, where `Path` keeps it.
pub open spec fn parent_of(path: Seq<char>) -> Option<Seq<char>> {
    if components(path).len() == 0 {
        None
    } else if rooted(path) {
        Some("/"@ + joined(components(path).drop_last()))
    } else {
        Some(joined(components(path).drop_last()))
    }
}

/// The directory of a file, or nothing for a path that ends in its root or
/// is empty.
pub fn parent(path: &str) -> (found: Option<String>)
    ensures
        match parent_of(path@) {
            None => found is None,
            Some(held) => found matches Some(text) && text@ == held,
        },
{
    let text = chars_of(path);
    let named = components_of(text.as_slice());
    if named.len() == 0 {
        return None;
    }
    let mut kept = named;
    let ghost all = kept@.map_values(|piece: Vec<char>| piece@);
    kept.pop();
    assert(kept@.map_values(|piece: Vec<char>| piece@) =~= all.drop_last());
    let body = joined_of(&kept);
    if text.len() > 0 && text[0] == '/' {
        let mut held: Vec<char> = vec!['/'];
        crate::text::extend(&mut held, body.as_slice());
        proof {
            reveal_strlit("/");
        }
        Some(string_of(held.as_slice()))
    } else {
        Some(string_of(body.as_slice()))
    }
}


/// Where the first slash of two texts joined by one falls: the first's own
/// first slash, or the one that joins them.
proof fn lemma_find_slash(front: Seq<char>, back: Seq<char>)
    ensures
        crate::text::find(front + "/"@ + back, "/"@) == (if crate::text::find(front, "/"@) >= 0 {
            crate::text::find(front, "/"@)
        } else {
            front.len() as int
        }),
    decreases front.len(),
{
    reveal_strlit("/");
    let whole = front + "/"@ + back;
    if front.len() == 0 {
        assert(whole.subrange(0, 1) =~= "/"@);
    } else if front[0] == '/' {
        assert(whole.subrange(0, 1) =~= "/"@);
        assert(front.subrange(0, 1) =~= "/"@);
    } else {
        assert(whole.subrange(0, 1) != "/"@) by {
            assert(whole.subrange(0, 1)[0] != "/"@[0]);
        }
        assert(front.subrange(0, 1) != "/"@) by {
            assert(front.subrange(0, 1)[0] != "/"@[0]);
        }
        assert(whole.drop_first() =~= front.drop_first() + "/"@ + back);
        lemma_find_slash(front.drop_first(), back);
    }
}

/// The pieces of two texts joined by a slash are the pieces of each.
proof fn lemma_pieces_join(front: Seq<char>, back: Seq<char>)
    ensures
        pieces(front + "/"@ + back) == pieces(front) + pieces(back),
    decreases front.len(),
{
    reveal_strlit("/");
    let whole = front + "/"@ + back;
    lemma_find_slash(front, back);
    crate::text::lemma_find(front, "/"@);
    let at = crate::text::find(front, "/"@);
    if at < 0 {
        assert(whole.subrange(0, front.len() as int) =~= front);
        assert(whole.subrange(front.len() as int + 1, whole.len() as int) =~= back);
        assert(pieces(front) =~= seq![front]);
        assert(pieces(whole) =~= seq![front] + pieces(back));
    } else {
        let rest = front.subrange(at + 1, front.len() as int);
        assert(whole.subrange(0, at) =~= front.subrange(0, at));
        assert(whole.subrange(at + 1, whole.len() as int) =~= rest + "/"@ + back);
        lemma_pieces_join(rest, back);
        assert(pieces(front) =~= seq![front.subrange(0, at)] + pieces(rest));
        assert(pieces(whole) =~= seq![front.subrange(0, at)] + pieces(rest + "/"@ + back));
        assert(pieces(whole) =~= pieces(front) + pieces(back));
    }
}

/// An empty path names nothing.
proof fn lemma_empty_components()
    ensures
        pieces(Seq::<char>::empty()) == seq![Seq::<char>::empty()],
        components(Seq::<char>::empty()) == Seq::<Seq<char>>::empty(),
{
    reveal_strlit("/");
    let nothing = Seq::<char>::empty();
    assert(!crate::text::starts_with(nothing, "/"@));
    assert(crate::text::find(nothing, "/"@) == -1);
    assert(pieces(nothing) =~= seq![nothing]);
    reveal_with_fuel(Seq::filter, 2);
    assert(seq![nothing].drop_last() =~= Seq::<Seq<char>>::empty());
    assert(components(nothing) =~= Seq::<Seq<char>>::empty());
}

/// A path joined onto another that is not rooted keeps the other's root
/// and adds its components after the other's.
pub proof fn lemma_join_components(base: Seq<char>, more: Seq<char>)
    requires
        !rooted(more),
    ensures
        components(path_join(base, more)) == components(base) + components(more),
        rooted(path_join(base, more)) == rooted(base),
{
    reveal_strlit("/");
    broadcast use Seq::filter_distributes_over_add;
    let keep = |piece: Seq<char>| piece.len() > 0 && piece != "."@;
    lemma_empty_components();
    if base.len() == 0 {
        assert(base =~= Seq::<char>::empty());
        assert(path_join(base, more) =~= more);
        assert(components(base) + components(more) =~= components(more));
    } else if base.last() == '/' {
        let front = base.drop_last();
        assert(base =~= front + "/"@ + Seq::<char>::empty());
        assert(path_join(base, more) =~= front + "/"@ + more);
        lemma_pieces_join(front, Seq::<char>::empty());
        lemma_pieces_join(front, more);
        assert(components(base) == pieces(front).filter(keep) + seq![Seq::<char>::empty()].filter(keep));
        assert(components(base) =~= pieces(front).filter(keep));
        assert(components(path_join(base, more)) == pieces(front).filter(keep) + pieces(more).filter(keep));
        assert(path_join(base, more)[0] == base[0]);
    } else {
        assert(path_join(base, more) == base + "/"@ + more);
        lemma_pieces_join(base, more);
        assert(components(path_join(base, more)) == pieces(base).filter(keep) + pieces(more).filter(keep));
        assert(path_join(base, more)[0] == base[0]);
    }
}

} // verus!
