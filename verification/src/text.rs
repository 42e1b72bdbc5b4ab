//! Text as the rest of the library reads and writes it: characters in, a
//! `String` out, and the decimal form of a number.
use vstd::prelude::*;

verus! {

/// The characters of a string slice, in order.
pub fn chars_of(text: &str) -> (characters: Vec<char>)
    ensures
        characters@ == text@,
{
    broadcast use vstd::string::axiom_spec_iter;
    let mut characters: Vec<char> = Vec::new();
    for c in iter: text.chars()
        invariant
            characters@ == iter.seq().take(iter.index() as int),
    {
        characters.push(c);
    }
    characters
}

/// A string holding exactly these characters.
#[verifier::external_body]
pub fn string_of(characters: &[char]) -> (text: String)
    ensures
        text@ == characters@,
{
    characters.iter().collect()
}

/// Appends every character of `more` to `characters`.
pub fn extend(characters: &mut Vec<char>, more: &[char])
    ensures
        final(characters)@ == old(characters)@ + more@,
{
    let mut index: usize = 0;
    while index < more.len()
        invariant
            index <= more@.len(),
            characters@ == old(characters)@ + more@.subrange(0, index as int),
        decreases more@.len() - index,
    {
        characters.push(more[index]);
        index = index + 1;
        assert(more@.subrange(0, index as int) == more@.subrange(0, index - 1).push(
            more@[index - 1],
        ));
    }
    assert(more@.subrange(0, more@.len() as int) == more@);
}

/// Appends every character of a string slice to `characters`.
pub fn extend_str(characters: &mut Vec<char>, more: &str)
    ensures
        final(characters)@ == old(characters)@ + more@,
{
    let held = chars_of(more);
    extend(characters, held.as_slice());
}

/// The decimal digit for a value below ten.
pub open spec fn digit(value: nat) -> char {
    if value == 0 {
        '0'
    } else if value == 1 {
        '1'
    } else if value == 2 {
        '2'
    } else if value == 3 {
        '3'
    } else if value == 4 {
        '4'
    } else if value == 5 {
        '5'
    } else if value == 6 {
        '6'
    } else if value == 7 {
        '7'
    } else if value == 8 {
        '8'
    } else {
        '9'
    }
}

/// The decimal form of a number: its digits, most significant first, with no
/// leading zero but the one that is zero itself.
pub open spec fn decimal(value: nat) -> Seq<char>
    decreases value,
{
    if value < 10 {
        seq![digit(value)]
    } else {
        decimal(value / 10).push(digit(value % 10))
    }
}

/// The digit character for a value below ten.
pub fn digit_char(value: u64) -> (shown: char)
    requires
        value < 10,
    ensures
        shown == digit(value as nat),
{
    if value == 0 {
        '0'
    } else if value == 1 {
        '1'
    } else if value == 2 {
        '2'
    } else if value == 3 {
        '3'
    } else if value == 4 {
        '4'
    } else if value == 5 {
        '5'
    } else if value == 6 {
        '6'
    } else if value == 7 {
        '7'
    } else if value == 8 {
        '8'
    } else {
        '9'
    }
}

/// The decimal digits of a number, as characters.
pub fn decimal_chars(value: u64) -> (shown: Vec<char>)
    ensures
        shown@ == decimal(value as nat),
    decreases value,
{
    if value < 10 {
        let mut held = Vec::new();
        held.push(digit_char(value));
        held
    } else {
        let mut held = decimal_chars(value / 10);
        held.push(digit_char(value % 10));
        held
    }
}

/// The decimal form of a number, as a string.
pub fn decimal_string(value: u64) -> (shown: String)
    ensures
        shown@ == decimal(value as nat),
{
    let held = decimal_chars(value);
    string_of(held.as_slice())
}

/// Whether two character sequences are the same.
pub fn same_chars(left: &[char], right: &[char]) -> (same: bool)
    ensures
        same == (left@ == right@),
{
    if left.len() != right.len() {
        return false;
    }
    let mut index: usize = 0;
    while index < left.len()
        invariant
            left@.len() == right@.len(),
            index <= left@.len(),
            forall|at: int| 0 <= at < index ==> left@[at] == right@[at],
        decreases left@.len() - index,
    {
        if left[index] != right[index] {
            return false;
        }
        index = index + 1;
    }
    assert(left@ =~= right@);
    true
}

/// Whether some characters spell exactly a string.
pub fn spells(text: &[char], word: &str) -> (same: bool)
    ensures
        same == (text@ == word@),
{
    let held = chars_of(word);
    same_chars(text, held.as_slice())
}

/// Whether `text` begins with `prefix`.
pub open spec fn starts_with(text: Seq<char>, prefix: Seq<char>) -> bool {
    prefix.len() <= text.len() && text.subrange(0, prefix.len() as int) == prefix
}

/// Whether `text` ends with `suffix`.
pub open spec fn ends_with(text: Seq<char>, suffix: Seq<char>) -> bool {
    suffix.len() <= text.len() && text.subrange(text.len() - suffix.len(), text.len() as int)
        == suffix
}

/// Whether the characters of `text` from `at` on begin with `prefix`.
pub fn matches_at(text: &[char], at: usize, prefix: &[char]) -> (found: bool)
    requires
        at <= text@.len(),
    ensures
        found == starts_with(text@.subrange(at as int, text@.len() as int), prefix@),
{
    if prefix.len() > text.len() - at {
        return false;
    }
    let mut index: usize = 0;
    while index < prefix.len()
        invariant
            at + prefix@.len() <= text@.len(),
            text@.len() == text.len(),
            index <= prefix@.len(),
            forall|k: int| 0 <= k < index ==> text@[at + k] == prefix@[k],
        decreases prefix@.len() - index,
    {
        if text[at + index] != prefix[index] {
            assert(text@.subrange(at as int, text@.len() as int).subrange(0, prefix@.len() as int)[index as int] != prefix@[index as int]);
            return false;
        }
        index = index + 1;
    }
    assert(text@.subrange(at as int, text@.len() as int).subrange(0, prefix@.len() as int)
        =~= prefix@);
    true
}

/// Whether `part` occurs somewhere in `text`.
pub open spec fn contains(text: Seq<char>, part: Seq<char>) -> bool {
    exists|at: int| 0 <= at <= text.len() && #[trigger] starts_with(text.subrange(at, text.len() as int), part)
}

/// Whether `part` occurs somewhere in `text`.
pub fn holds(text: &[char], part: &[char]) -> (found: bool)
    ensures
        found == contains(text@, part@),
{
    let mut at: usize = 0;
    while at < text.len()
        invariant
            at <= text@.len(),
            forall|before: int|
                0 <= before < at ==> !#[trigger] starts_with(
                    text@.subrange(before, text@.len() as int),
                    part@,
                ),
        decreases text@.len() - at,
    {
        if matches_at(text, at, part) {
            return true;
        }
        at = at + 1;
    }
    matches_at(text, at, part)
}

/// A text with every occurrence of `from` replaced by `to`, the occurrences
/// found from the left and never overlapping.
pub open spec fn replace_all(text: Seq<char>, from: Seq<char>, to: Seq<char>) -> Seq<char>
    decreases text.len(),
{
    if from.len() == 0 || text.len() < from.len() {
        text
    } else if text.subrange(0, from.len() as int) == from {
        to + replace_all(text.subrange(from.len() as int, text.len() as int), from, to)
    } else {
        seq![text[0]] + replace_all(text.drop_first(), from, to)
    }
}

/// A text with every occurrence of `from` replaced by `to`.
pub fn replaced(text: &[char], from: &[char], to: &[char]) -> (result: Vec<char>)
    requires
        from@.len() > 0,
    ensures
        result@ == replace_all(text@, from@, to@),
{
    let mut result: Vec<char> = Vec::new();
    let mut at: usize = 0;
    assert(text@.subrange(0, text@.len() as int) =~= text@);
    while at < text.len()
        invariant
            at <= text@.len(),
            from@.len() > 0,
            replace_all(text@, from@, to@) == result@ + replace_all(
                text@.subrange(at as int, text@.len() as int),
                from@,
                to@,
            ),
        decreases text@.len() - at,
    {
        let ghost rest = text@.subrange(at as int, text@.len() as int);
        if from.len() <= text.len() - at && matches_at(text, at, from) {
            extend(&mut result, to);
            assert(rest.subrange(from@.len() as int, rest.len() as int) =~= text@.subrange(
                at + from@.len(),
                text@.len() as int,
            ));
            at = at + from.len();
        } else {
            assert(rest.drop_first() =~= text@.subrange(at + 1, text@.len() as int));
            result.push(text[at]);
            at = at + 1;
        }
    }
    assert(text@.subrange(at as int, text@.len() as int) =~= seq![]);
    result
}

/// Where `part` first occurs in `text`, or -1 when it does not.
pub open spec fn find(text: Seq<char>, part: Seq<char>) -> int
    decreases text.len(),
{
    if starts_with(text, part) {
        0
    } else if text.len() == 0 {
        -1
    } else {
        let later = find(text.drop_first(), part);
        if later < 0 {
            -1
        } else {
            later + 1
        }
    }
}

/// The first occurrence of a part lies within the text, and none comes
/// before it.
pub proof fn lemma_find(text: Seq<char>, part: Seq<char>)
    ensures
        -1 <= find(text, part) <= text.len(),
        find(text, part) >= 0 ==> find(text, part) + part.len() <= text.len() && text.subrange(
            find(text, part),
            find(text, part) + part.len(),
        ) == part,
        find(text, part) >= 0 ==> starts_with(text.subrange(find(text, part), text.len() as int), part),
        forall|before: int|
            0 <= before < (if find(text, part) < 0 {
                text.len() + 1int
            } else {
                find(text, part)
            }) ==> !#[trigger] starts_with(text.subrange(before, text.len() as int), part),
    decreases text.len(),
{
    assert(text.subrange(0, text.len() as int) =~= text);
    if !starts_with(text, part) && text.len() > 0 {
        lemma_find(text.drop_first(), part);
        assert forall|before: int|
            0 <= before < (if find(text, part) < 0 {
                text.len() + 1int
            } else {
                find(text, part)
            }) implies !#[trigger] starts_with(text.subrange(before, text.len() as int), part) by {
            if before > 0 {
                assert(text.subrange(before, text.len() as int) =~= text.drop_first().subrange(
                    before - 1,
                    text.drop_first().len() as int,
                ));
            }
        }
        if find(text, part) >= 0 {
            assert(text.subrange(find(text, part), text.len() as int) =~= text.drop_first().subrange(
                find(text.drop_first(), part),
                text.drop_first().len() as int,
            ));
            assert(text.subrange(find(text, part), find(text, part) + part.len())
                =~= text.drop_first().subrange(
                find(text.drop_first(), part),
                find(text.drop_first(), part) + part.len(),
            ));
        }
    } else if starts_with(text, part) {
        assert(text.subrange(0, part.len() as int) == part);
    } else {
        assert forall|before: int| 0 <= before < text.len() + 1 implies !#[trigger] starts_with(
            text.subrange(before, text.len() as int),
            part,
        ) by {
            assert(text.subrange(before, text.len() as int) =~= text);
        }
    }
}

/// Where `part` first occurs in `text`.
pub fn find_part(text: &[char], part: &[char]) -> (at: Option<usize>)
    ensures
        match at {
            Some(index) => index == find(text@, part@) && index + part.len() <= text.len(),
            None => find(text@, part@) < 0,
        },
{
    proof {
        lemma_find(text@, part@);
    }
    let mut at: usize = 0;
    while at < text.len()
        invariant
            at <= text@.len(),
            forall|before: int|
                0 <= before < at ==> !#[trigger] starts_with(
                    text@.subrange(before, text@.len() as int),
                    part@,
                ),
            -1 <= find(text@, part@) <= text@.len(),
            find(text@, part@) >= 0 ==> find(text@, part@) + part@.len() <= text@.len() && starts_with(
                text@.subrange(find(text@, part@), text@.len() as int),
                part@,
            ),
            forall|before: int|
                0 <= before < (if find(text@, part@) < 0 {
                    text@.len() + 1int
                } else {
                    find(text@, part@)
                }) ==> !#[trigger] starts_with(text@.subrange(before, text@.len() as int), part@),
        decreases text@.len() - at,
    {
        if matches_at(text, at, part) {
            return Some(at);
        }
        at = at + 1;
    }
    if matches_at(text, at, part) {
        Some(at)
    } else {
        None
    }
}

/// The pieces a text splits into at every occurrence of a separator, found
/// from the left, as `str::split` yields them.
pub open spec fn split_on(text: Seq<char>, separator: Seq<char>) -> Seq<Seq<char>>
    decreases text.len(),
{
    let at = find(text, separator);
    if separator.len() == 0 || at < 0 || at + separator.len() > text.len() {
        seq![text]
    } else {
        seq![text.subrange(0, at)] + split_on(
            text.subrange(at + separator.len(), text.len() as int),
            separator,
        )
    }
}

/// The text before and after the first occurrence of a separator, as
/// `str::split_once` gives them.
pub open spec fn split_once(text: Seq<char>, separator: Seq<char>) -> Option<(Seq<char>, Seq<char>)> {
    let at = find(text, separator);
    if at < 0 || at + separator.len() > text.len() {
        None
    } else {
        Some((text.subrange(0, at), text.subrange(at + separator.len(), text.len() as int)))
    }
}

/// The text before and after the first occurrence of a separator.
pub fn split_at_first(text: &[char], separator: &[char]) -> (halves: Option<(Vec<char>, Vec<char>)>)
    ensures
        match split_once(text@, separator@) {
            None => halves is None,
            Some((before, after)) => halves matches Some((left, right)) && left@ == before
                && right@ == after,
        },
{
    proof {
        lemma_find(text@, separator@);
    }
    match find_part(text, separator) {
        None => None,
        Some(at) => Some((slice_of(text, 0, at), slice_of(text, at + separator.len(), text.len()))),
    }
}

/// The pieces a text splits into at every occurrence of a separator.
pub fn split_all(text: &[char], separator: &[char]) -> (pieces: Vec<Vec<char>>)
    requires
        separator@.len() > 0,
    ensures
        pieces@.len() == split_on(text@, separator@).len(),
        forall|index: int| 0 <= index < pieces@.len() ==> #[trigger] pieces@[index]@ == split_on(text@, separator@)[index],
{
    let mut pieces: Vec<Vec<char>> = Vec::new();
    let mut rest = slice_of(text, 0, text.len());
    assert(rest@ =~= text@);
    loop
        invariant_except_break
            split_on(text@, separator@) == pieces@.map_values(|piece: Vec<char>| piece@) + split_on(rest@, separator@),
        invariant
            separator@.len() > 0,
        ensures
            split_on(text@, separator@) == pieces@.map_values(|piece: Vec<char>| piece@),
        decreases rest@.len(),
    {
        proof {
            lemma_find(rest@, separator@);
        }
        match find_part(rest.as_slice(), separator) {
            None => {
                let ghost before = pieces@;
                pieces.push(rest);
                assert(pieces@.map_values(|piece: Vec<char>| piece@) =~= before.map_values(|piece: Vec<char>| piece@) + seq![rest@]);
                break;
            },
            Some(at) => {
                let head = slice_of(rest.as_slice(), 0, at);
                let tail = slice_of(rest.as_slice(), at + separator.len(), rest.len());
                let ghost before = pieces@;
                pieces.push(head);
                assert(pieces@.map_values(|piece: Vec<char>| piece@) =~= before.map_values(|piece: Vec<char>| piece@) + seq![head@]);
                assert(split_on(rest@, separator@) == seq![head@] + split_on(tail@, separator@));
                assert(before.map_values(|piece: Vec<char>| piece@) + split_on(rest@, separator@) =~= pieces@.map_values(|piece: Vec<char>| piece@) + split_on(tail@, separator@));
                rest = tail;
            },
        }
    }
    proof {
        let every = pieces@.map_values(|piece: Vec<char>| piece@);
        assert(split_on(text@, separator@) =~= every);
        assert forall|index: int| 0 <= index < pieces@.len() implies #[trigger] pieces@[index]@ == split_on(text@, separator@)[index] by {
            assert(every[index] == pieces@[index]@);
        }
    }
    pieces
}

/// Whether one text comes before another in the order `str` compares in:
/// character by character, and a text before any it begins.
pub open spec fn precedes(left: Seq<char>, right: Seq<char>) -> bool
    decreases left.len(),
{
    if left.len() == 0 {
        right.len() > 0
    } else if right.len() == 0 {
        false
    } else if left[0] != right[0] {
        left[0] < right[0]
    } else {
        precedes(left.drop_first(), right.drop_first())
    }
}

/// Whether one text comes before another.
pub fn comes_before(left: &[char], right: &[char]) -> (before: bool)
    ensures
        before == precedes(left@, right@),
{
    let mut index: usize = 0;
    assert(left@.subrange(0, left@.len() as int) =~= left@);
    assert(right@.subrange(0, right@.len() as int) =~= right@);
    while index < left.len() && index < right.len()
        invariant
            index <= left@.len(),
            index <= right@.len(),
            precedes(left@, right@) == precedes(
                left@.subrange(index as int, left@.len() as int),
                right@.subrange(index as int, right@.len() as int),
            ),
        decreases left@.len() - index,
    {
        let ghost l = left@.subrange(index as int, left@.len() as int);
        let ghost r = right@.subrange(index as int, right@.len() as int);
        if left[index] != right[index] {
            return left[index] < right[index];
        }
        assert(l.drop_first() =~= left@.subrange(index + 1, left@.len() as int));
        assert(r.drop_first() =~= right@.subrange(index + 1, right@.len() as int));
        index = index + 1;
    }
    index < right.len()
}

/// No text comes before itself.
pub proof fn lemma_precedes_irreflexive(text: Seq<char>)
    ensures
        !precedes(text, text),
    decreases text.len(),
{
    if text.len() > 0 {
        lemma_precedes_irreflexive(text.drop_first());
    }
}

/// What comes before what comes before a text comes before it too.
pub proof fn lemma_precedes_transitive(first: Seq<char>, second: Seq<char>, third: Seq<char>)
    requires
        precedes(first, second),
        precedes(second, third),
    ensures
        precedes(first, third),
    decreases first.len(),
{
    if first.len() > 0 && second.len() > 0 && third.len() > 0 && first[0] == second[0]
        && second[0] == third[0] {
        lemma_precedes_transitive(first.drop_first(), second.drop_first(), third.drop_first());
    }
}

/// Of two different texts, one comes before the other.
pub proof fn lemma_precedes_total(left: Seq<char>, right: Seq<char>)
    requires
        left != right,
    ensures
        precedes(left, right) || precedes(right, left),
    decreases left.len(),
{
    if left.len() > 0 && right.len() > 0 && left[0] == right[0] {
        if left.drop_first() == right.drop_first() {
            assert(left =~= seq![left[0]] + left.drop_first());
            assert(right =~= seq![right[0]] + right.drop_first());
        }
        lemma_precedes_total(left.drop_first(), right.drop_first());
    } else if left.len() == 0 && right.len() == 0 {
        assert(left =~= right);
    }
}

/// Whether texts are in strictly increasing order: sorted, and no two the
/// same.
pub open spec fn strictly_sorted(texts: Seq<Seq<char>>) -> bool {
    forall|earlier: int, later: int|
        0 <= earlier < later < texts.len() ==> precedes(#[trigger] texts[earlier], #[trigger] texts[later])
}

/// The texts of some strings, in order.
pub open spec fn views_of(strings: Seq<String>) -> Seq<Seq<char>> {
    strings.map_values(|held: String| held@)
}

/// Puts a string into a sorted list of distinct strings, where it belongs,
/// unless it is there already.
pub fn insert_sorted(sorted: &mut Vec<String>, text: String)
    requires
        strictly_sorted(views_of(old(sorted)@)),
    ensures
        strictly_sorted(views_of(final(sorted)@)),
        views_of(final(sorted)@).to_set() == views_of(old(sorted)@).to_set().insert(text@),
{
    let ghost before = views_of(sorted@);
    let mut at: usize = 0;
    while at < sorted.len() && comes_before(
        chars_of(sorted[at].as_str()).as_slice(),
        chars_of(text.as_str()).as_slice(),
    )
        invariant
            at <= sorted@.len(),
            before == views_of(sorted@),
            strictly_sorted(before),
            forall|earlier: int| 0 <= earlier < at ==> precedes(#[trigger] before[earlier], text@),
        decreases sorted@.len() - at,
    {
        at = at + 1;
    }
    if at < sorted.len() && sorted[at] == text {
        assert(before.to_set().insert(text@) =~= before.to_set()) by {
            assert(before[at as int] == text@);
        }
        return;
    }
    proof {
        if at < before.len() {
            assert(!precedes(before[at as int], text@));
            assert(before[at as int] != text@);
            lemma_precedes_total(before[at as int], text@);
            assert forall|later: int| at <= later < before.len() implies precedes(text@, #[trigger] before[later]) by {
                if later > at {
                    lemma_precedes_transitive(text@, before[at as int], before[later]);
                }
            }
        }
    }
    sorted.insert(at, text);
    let ghost after = views_of(sorted@);
    assert(after =~= before.insert(at as int, text@));
    assert forall|earlier: int, later: int| 0 <= earlier < later < after.len() implies precedes(
        #[trigger] after[earlier],
        #[trigger] after[later],
    ) by {
        if later < at {
        } else if later == at {
        } else if earlier < at {
            lemma_precedes_transitive(after[earlier], text@, after[later]);
        } else if earlier == at {
        } else {
        }
    }
    assert(after.to_set() =~= before.to_set().insert(text@)) by {
        assert forall|item: Seq<char>| after.to_set().contains(item) <==> before.to_set().insert(text@).contains(item) by {
            if after.to_set().contains(item) {
                let index = choose|index: int| 0 <= index < after.len() && after[index] == item;
                if index < at {
                    assert(before[index] == item);
                } else if index > at {
                    assert(before[index - 1] == item);
                }
            }
            if before.to_set().contains(item) {
                let index = choose|index: int| 0 <= index < before.len() && before[index] == item;
                if index < at {
                    assert(after[index] == item);
                } else {
                    assert(after[index + 1] == item);
                }
            }
            if item == text@ {
                assert(after[at as int] == item);
            }
        }
    }
}

/// A text without the copies of one character at either end, as
/// `str::trim_matches` leaves it.
pub open spec fn trim_char(text: Seq<char>, edge: char) -> Seq<char>
    decreases text.len(),
{
    if text.len() > 0 && text[0] == edge {
        trim_char(text.drop_first(), edge)
    } else if text.len() > 0 && text.last() == edge {
        trim_char(text.drop_last(), edge)
    } else {
        text
    }
}

/// A text without the copies of one character at either end.
pub fn trimmed_char(text: &[char], edge: char) -> (kept: Vec<char>)
    ensures
        kept@ == trim_char(text@, edge),
{
    let mut start: usize = 0;
    let mut end: usize = text.len();
    assert(text@.subrange(0, text@.len() as int) =~= text@);
    while start < end && (text[start] == edge || text[end - 1] == edge)
        invariant
            start <= end <= text@.len(),
            trim_char(text@, edge) == trim_char(text@.subrange(start as int, end as int), edge),
        decreases end - start,
    {
        let ghost piece = text@.subrange(start as int, end as int);
        if text[start] == edge {
            assert(piece.drop_first() =~= text@.subrange(start + 1, end as int));
            start = start + 1;
        } else {
            assert(piece.drop_last() =~= text@.subrange(start as int, end - 1));
            end = end - 1;
        }
    }
    slice_of(text, start, end)
}

/// The pieces of a path between its slashes that name something: not empty,
/// and not the `.` that names where the path already is.
pub open spec fn named_pieces(pieces: Seq<Seq<char>>) -> Seq<Seq<char>> {
    pieces.filter(|piece: Seq<char>| piece.len() > 0 && piece != "."@)
}

/// Whether `text` begins with `prefix`.
pub fn begins_with(text: &[char], prefix: &[char]) -> (found: bool)
    ensures
        found == starts_with(text@, prefix@),
{
    let found = matches_at(text, 0, prefix);
    assert(text@.subrange(0, text@.len() as int) == text@);
    found
}

/// Whether `text` ends with `suffix`.
pub fn finishes_with(text: &[char], suffix: &[char]) -> (found: bool)
    ensures
        found == ends_with(text@, suffix@),
{
    if suffix.len() > text.len() {
        return false;
    }
    let at = text.len() - suffix.len();
    let found = matches_at(text, at, suffix);
    assert(text@.subrange(at as int, text@.len() as int).subrange(0, suffix@.len() as int)
        == text@.subrange(at as int, text@.len() as int));
    found
}

} // verus!

verus! {

/// Whether a character is white space, as `char::is_whitespace` has it: the
/// Unicode `White_Space` property.
pub open spec fn is_white(c: char) -> bool {
    ||| c == '\t' || c == '\n' || c == '\u{b}' || c == '\u{c}' || c == '\r' || c == ' '
    ||| c == '\u{85}' || c == '\u{a0}' || c == '\u{1680}'
    ||| ('\u{2000}' <= c && c <= '\u{200a}')
    ||| c == '\u{2028}' || c == '\u{2029}' || c == '\u{202f}' || c == '\u{205f}'
    ||| c == '\u{3000}'
}

/// Whether a character is white space.
pub fn white(c: char) -> (found: bool)
    ensures
        found == is_white(c),
{
    c == '\t' || c == '\n' || c == '\u{b}' || c == '\u{c}' || c == '\r' || c == ' ' || c
        == '\u{85}' || c == '\u{a0}' || c == '\u{1680}' || ('\u{2000}' <= c && c <= '\u{200a}')
        || c == '\u{2028}' || c == '\u{2029}' || c == '\u{202f}' || c == '\u{205f}' || c
        == '\u{3000}'
}

/// A text without its leading white space.
pub open spec fn trim_start(text: Seq<char>) -> Seq<char>
    decreases text.len(),
{
    if text.len() > 0 && is_white(text[0]) {
        trim_start(text.drop_first())
    } else {
        text
    }
}

/// A text without its trailing white space.
pub open spec fn trim_end(text: Seq<char>) -> Seq<char>
    decreases text.len(),
{
    if text.len() > 0 && is_white(text.last()) {
        trim_end(text.drop_last())
    } else {
        text
    }
}

/// A text without white space at either end, as `str::trim` leaves it.
pub open spec fn trim(text: Seq<char>) -> Seq<char> {
    trim_end(trim_start(text))
}

/// A text without its leading white space.
pub fn trimmed_start(text: &[char]) -> (kept: Vec<char>)
    ensures
        kept@ == trim_start(text@),
{
    let mut start: usize = 0;
    assert(text@.subrange(0, text@.len() as int) =~= text@);
    while start < text.len() && white(text[start])
        invariant
            start <= text@.len(),
            trim_start(text@) == trim_start(text@.subrange(start as int, text@.len() as int)),
        decreases text@.len() - start,
    {
        assert(text@.subrange(start as int, text@.len() as int).drop_first() =~= text@.subrange(
            start + 1,
            text@.len() as int,
        ));
        start = start + 1;
    }
    slice_of(text, start, text.len())
}

/// A text without its trailing white space.
pub fn trimmed_end(text: &[char]) -> (kept: Vec<char>)
    ensures
        kept@ == trim_end(text@),
{
    let mut end: usize = text.len();
    assert(text@.subrange(0, text@.len() as int) =~= text@);
    while end > 0 && white(text[end - 1])
        invariant
            end <= text@.len(),
            trim_end(text@) == trim_end(text@.subrange(0, end as int)),
        decreases end,
    {
        assert(text@.subrange(0, end as int).drop_last() =~= text@.subrange(0, end - 1));
        end = end - 1;
    }
    slice_of(text, 0, end)
}

/// A text without white space at either end.
pub fn trimmed(text: &[char]) -> (kept: Vec<char>)
    ensures
        kept@ == trim(text@),
{
    let started = trimmed_start(text);
    trimmed_end(started.as_slice())
}

/// The characters of a text from one index up to another.
pub fn slice_of(text: &[char], start: usize, end: usize) -> (piece: Vec<char>)
    requires
        start <= end <= text@.len(),
    ensures
        piece@ == text@.subrange(start as int, end as int),
{
    let mut piece: Vec<char> = Vec::new();
    let mut index = start;
    while index < end
        invariant
            start <= index <= end <= text@.len(),
            piece@ == text@.subrange(start as int, index as int),
        decreases end - index,
    {
        piece.push(text[index]);
        assert(piece@ =~= text@.subrange(start as int, index + 1));
        index = index + 1;
    }
    piece
}

/// The bytes of a slice from one index up to another.
pub fn copy_bytes(bytes: &[u8], start: usize, end: usize) -> (piece: Vec<u8>)
    requires
        start <= end <= bytes@.len(),
    ensures
        piece@ == bytes@.subrange(start as int, end as int),
{
    let mut piece: Vec<u8> = Vec::new();
    let mut index = start;
    while index < end
        invariant
            start <= index <= end <= bytes@.len(),
            piece@ == bytes@.subrange(start as int, index as int),
        decreases end - index,
    {
        piece.push(bytes[index]);
        assert(piece@ =~= bytes@.subrange(start as int, index + 1));
        index = index + 1;
    }
    piece
}

/// A product of two counts, held at the largest `u64`.
pub fn saturating_product(left: u64, right: u64) -> (product: u64)
    ensures
        product == (if left * right > u64::MAX {
            u64::MAX as int
        } else {
            left * right
        }),
{
    match left.checked_mul(right) {
        Some(value) => value,
        None => u64::MAX,
    }
}

/// Whether a character is an ASCII decimal digit.
pub open spec fn is_digit(c: char) -> bool {
    '0' <= c && c <= '9'
}

/// Whether every character of a text is a decimal digit.
pub open spec fn all_digits(text: Seq<char>) -> bool {
    forall|index: int| 0 <= index < text.len() ==> is_digit(#[trigger] text[index])
}

/// The number a run of decimal digits spells, most significant first.
pub open spec fn digits_value(text: Seq<char>) -> nat
    decreases text.len(),
{
    if text.len() == 0 {
        0
    } else {
        digits_value(text.drop_last()) * 10 + ((text.last() as int - '0' as int) as nat)
    }
}

/// The number a text spells as `str::parse` reads an unsigned integer no
/// larger than `most`: an optional `+`, then one or more decimal digits.
pub open spec fn parsed(text: Seq<char>, most: nat) -> Option<nat> {
    let digits = if text.len() > 0 && text[0] == '+' {
        text.drop_first()
    } else {
        text
    };
    if digits.len() > 0 && all_digits(digits) && digits_value(digits) <= most {
        Some(digits_value(digits))
    } else {
        None
    }
}

/// The decimal form of a number is all digits, and spells that number.
pub proof fn lemma_decimal_reads_back(value: nat)
    ensures
        all_digits(decimal(value)),
        digits_value(decimal(value)) == value,
        decimal(value).len() > 0,
    decreases value,
{
    if value < 10 {
        assert(decimal(value).drop_last() =~= Seq::<char>::empty());
        assert(digit(value) as int - '0' as int == value);
        assert(decimal(value).last() == digit(value));
        assert(digits_value(Seq::<char>::empty()) == 0);
    } else {
        lemma_decimal_reads_back(value / 10);
        assert(decimal(value).drop_last() =~= decimal(value / 10));
        let last = value % 10;
        assert(digit(last) as int - '0' as int == last);
    }
}

/// Two numbers with one decimal form are one number.
pub proof fn lemma_decimal_one_to_one(first: nat, second: nat)
    ensures
        decimal(first) == decimal(second) ==> first == second,
{
    lemma_decimal_reads_back(first);
    lemma_decimal_reads_back(second);
}

/// Two texts that agree up to a run of digits, each run followed by
/// something that is not a digit, have the same run and the same rest.
pub proof fn lemma_digits_then_rest(front: Seq<char>, first: Seq<char>, rest_first: Seq<char>, second: Seq<char>, rest_second: Seq<char>)
    requires
        all_digits(first),
        all_digits(second),
        rest_first.len() > 0,
        rest_second.len() > 0,
        !is_digit(rest_first[0]),
        !is_digit(rest_second[0]),
        front + first + rest_first == front + second + rest_second,
    ensures
        first == second,
        rest_first == rest_second,
{
    let whole = front + first + rest_first;
    let other = front + second + rest_second;
    if first.len() < second.len() {
        assert(whole[front.len() as int + first.len()] == rest_first[0]);
        assert(other[front.len() as int + first.len()] == second[first.len() as int]);
        assert(is_digit(second[first.len() as int]));
    } else if second.len() < first.len() {
        assert(whole[front.len() as int + second.len()] == first[second.len() as int]);
        assert(other[front.len() as int + second.len()] == rest_second[0]);
        assert(is_digit(first[second.len() as int]));
    } else {
        assert(first =~= whole.subrange(front.len() as int, front.len() as int + first.len()));
        assert(second =~= other.subrange(front.len() as int, front.len() as int + second.len()));
        assert(rest_first =~= whole.subrange(front.len() as int + first.len(), whole.len() as int));
        assert(rest_second =~= other.subrange(front.len() as int + second.len(), other.len() as int));
    }
}

/// A longer run of digits is worth at least as much as any of its prefixes.
proof fn lemma_digits_prefix(text: Seq<char>, length: int)
    requires
        0 <= length <= text.len(),
        all_digits(text),
    ensures
        digits_value(text.subrange(0, length)) <= digits_value(text),
    decreases text.len() - length,
{
    if length < text.len() {
        let longer = text.subrange(0, length + 1);
        assert(longer.drop_last() =~= text.subrange(0, length));
        assert(is_digit(text[length]));
        lemma_digits_prefix(text, length + 1);
    } else {
        assert(text.subrange(0, length) =~= text);
    }
}

/// The unsigned number a text spells, when it is one no larger than `most`.
pub fn parse_unsigned(text: &[char], most: u64) -> (value: Option<u64>)
    ensures
        match value {
            Some(found) => parsed(text@, most as nat) == Some(found as nat),
            None => parsed(text@, most as nat) is None,
        },
{
    let start: usize = if text.len() > 0 && text[0] == '+' {
        1
    } else {
        0
    };
    let ghost digits = text@.subrange(start as int, text@.len() as int);
    assert(start == 1 ==> digits =~= text@.drop_first());
    assert(start == 0 ==> digits =~= text@);
    if start == text.len() {
        return None;
    }
    let mut total: u64 = 0;
    let mut index = start;
    while index < text.len()
        invariant
            start <= index <= text@.len(),
            digits == text@.subrange(start as int, text@.len() as int),
            digits == (if text@.len() > 0 && text@[0] == '+' {
                text@.drop_first()
            } else {
                text@
            }),
            all_digits(text@.subrange(start as int, index as int)),
            total == digits_value(text@.subrange(start as int, index as int)),
            total <= most,
        decreases text@.len() - index,
    {
        let c = text[index];
        let ghost before = text@.subrange(start as int, index as int);
        let ghost after = text@.subrange(start as int, index + 1);
        assert(after.drop_last() =~= before);
        if !('0' <= c && c <= '9') {
            assert(!is_digit(digits[index - start]));
            return None;
        }
        let step = (c as u32 - '0' as u32) as u64;
        assert(all_digits(after));
        assert(digits_value(after) == total * 10 + step);
        let next: Option<u64> = match total.checked_mul(10) {
            Some(tens) => match tens.checked_add(step) {
                Some(sum) => if sum <= most {
                    Some(sum)
                } else {
                    None
                },
                None => None,
            },
            None => None,
        };
        if next.is_none() {
            assert(total * 10 + step > most);
            proof {
                if all_digits(digits) {
                    lemma_digits_prefix(digits, index + 1 - start);
                    assert(digits.subrange(0, index + 1 - start) =~= after);
                }
            }
            return None;
        }
        total = next.unwrap();
        index = index + 1;
    }
    assert(digits =~= text@.subrange(start as int, index as int));
    Some(total)
}

/// The index of the first occurrence of a character, or -1.
pub open spec fn first_index(text: Seq<char>, wanted: char) -> int
    decreases text.len(),
{
    if text.len() == 0 {
        -1
    } else if text[0] == wanted {
        0
    } else {
        let later = first_index(text.drop_first(), wanted);
        if later < 0 {
            -1
        } else {
            later + 1
        }
    }
}

/// The index of the last occurrence of a character, or -1.
pub open spec fn last_index(text: Seq<char>, wanted: char) -> int
    decreases text.len(),
{
    if text.len() == 0 {
        -1
    } else if text.last() == wanted {
        text.len() - 1
    } else {
        last_index(text.drop_last(), wanted)
    }
}

/// The first occurrence of a character lies inside the text, and none comes
/// before it.
pub proof fn lemma_first_index(text: Seq<char>, wanted: char)
    ensures
        -1 <= first_index(text, wanted) < text.len(),
        first_index(text, wanted) >= 0 ==> text[first_index(text, wanted)] == wanted,
        forall|before: int| 0 <= before < first_index(text, wanted) ==> text[before] != wanted,
        first_index(text, wanted) < 0 ==> forall|index: int|
            0 <= index < text.len() ==> text[index] != wanted,
    decreases text.len(),
{
    if text.len() > 0 && text[0] != wanted {
        lemma_first_index(text.drop_first(), wanted);
        assert forall|index: int| 1 <= index < text.len() implies text[index]
            == text.drop_first()[index - 1] by {}
    }
}

/// The last occurrence of a character lies inside the text, and none comes
/// after it.
pub proof fn lemma_last_index(text: Seq<char>, wanted: char)
    ensures
        -1 <= last_index(text, wanted) < text.len(),
        last_index(text, wanted) >= 0 ==> text[last_index(text, wanted)] == wanted,
        forall|after: int| last_index(text, wanted) < after < text.len() ==> text[after] != wanted,
    decreases text.len(),
{
    if text.len() > 0 && text.last() != wanted {
        lemma_last_index(text.drop_last(), wanted);
        assert forall|after: int| last_index(text, wanted) < after < text.len() implies text[after]
            != wanted by {
            if after < text.len() - 1 {
                assert(text[after] == text.drop_last()[after]);
            }
        }
    }
}

/// Where a character first occurs in a text.
pub fn find_char(text: &[char], wanted: char) -> (at: Option<usize>)
    ensures
        match at {
            Some(index) => index == first_index(text@, wanted) && index < text.len(),
            None => first_index(text@, wanted) < 0,
        },
{
    proof {
        lemma_first_index(text@, wanted);
    }
    let mut index: usize = 0;
    while index < text.len()
        invariant
            index <= text@.len(),
            forall|before: int| 0 <= before < index ==> text@[before] != wanted,
            -1 <= first_index(text@, wanted) < text@.len(),
            first_index(text@, wanted) >= 0 ==> text@[first_index(text@, wanted)] == wanted,
            forall|before: int| 0 <= before < first_index(text@, wanted) ==> text@[before] != wanted,
            first_index(text@, wanted) < 0 ==> forall|other: int|
                0 <= other < text@.len() ==> text@[other] != wanted,
        decreases text@.len() - index,
    {
        if text[index] == wanted {
            return Some(index);
        }
        index = index + 1;
    }
    None
}

/// Where a character last occurs in a text.
pub fn find_last_char(text: &[char], wanted: char) -> (at: Option<usize>)
    ensures
        match at {
            Some(index) => index == last_index(text@, wanted) && index < text.len(),
            None => last_index(text@, wanted) < 0,
        },
{
    proof {
        lemma_last_index(text@, wanted);
    }
    let mut end: usize = text.len();
    while end > 0
        invariant
            end <= text@.len(),
            forall|after: int| end <= after < text@.len() ==> text@[after] != wanted,
            -1 <= last_index(text@, wanted) < text@.len(),
            last_index(text@, wanted) >= 0 ==> text@[last_index(text@, wanted)] == wanted,
            forall|after: int| last_index(text@, wanted) < after < text@.len() ==> text@[after] != wanted,
        decreases end,
    {
        if text[end - 1] == wanted {
            return Some(end - 1);
        }
        end = end - 1;
    }
    None
}

/// A line without the `\r` that ends it, if one does.
pub open spec fn strip_return(line: Seq<char>) -> Seq<char> {
    if line.len() > 0 && line.last() == '\r' {
        line.drop_last()
    } else {
        line
    }
}

/// The lines of a text as `str::lines` yields them: split at each `\n`, a
/// `\r` before it removed, and no empty line after a final `\n`. A last
/// line with no `\n` after it is kept whole, a `\r` that ends it too.
pub open spec fn lines(text: Seq<char>) -> Seq<Seq<char>>
    decreases text.len(),
{
    if text.len() == 0 {
        seq![]
    } else {
        let at = first_index(text, '\n');
        if at < 0 || at >= text.len() {
            seq![text]
        } else {
            seq![strip_return(text.subrange(0, at))] + lines(
                text.subrange(at + 1, text.len() as int),
            )
        }
    }
}

/// A character found in the front of a text is found there in the text
/// with more after it.
proof fn lemma_first_index_extends(front: Seq<char>, back: Seq<char>, wanted: char)
    requires
        first_index(front, wanted) >= 0,
    ensures
        first_index(front + back, wanted) == first_index(front, wanted),
    decreases front.len(),
{
    if front[0] != wanted {
        assert((front + back).drop_first() =~= front.drop_first() + back);
        lemma_first_index_extends(front.drop_first(), back, wanted);
    }
}

/// A text that ends a line, followed by another, has the lines of the one
/// and then those of the other.
pub proof fn lemma_lines_split(front: Seq<char>, back: Seq<char>)
    requires
        front.len() == 0 || front.last() == '\n',
    ensures
        lines(front + back) == lines(front) + lines(back),
    decreases front.len(),
{
    if front.len() == 0 {
        assert(front + back =~= back);
        assert(lines(front) =~= Seq::<Seq<char>>::empty());
        assert(lines(front) + lines(back) =~= lines(back));
    } else {
        lemma_first_index(front, '\n');
        if first_index(front, '\n') < 0 {
            assert(front[front.len() - 1] == '\n');
        }
        let at = first_index(front, '\n');
        lemma_first_index_extends(front, back, '\n');
        let whole = front + back;
        let rest = front.subrange(at + 1, front.len() as int);
        assert(whole.subrange(0, at) =~= front.subrange(0, at));
        assert(whole.subrange(at + 1, whole.len() as int) =~= rest + back);
        if rest.len() > 0 {
            assert(rest.last() == front.last());
        }
        lemma_lines_split(rest, back);
        assert(lines(whole) == seq![strip_return(front.subrange(0, at))] + lines(rest + back));
        assert(lines(front) == seq![strip_return(front.subrange(0, at))] + lines(rest));
        assert(lines(whole) =~= lines(front) + lines(back));
    }
}

/// The lines of a text, each as its characters.
pub fn lines_of(text: &[char]) -> (found: Vec<Vec<char>>)
    ensures
        found@.len() == lines(text@).len(),
        forall|index: int| 0 <= index < found@.len() ==> #[trigger] found@[index]@ == lines(text@)[index],
{
    let mut found: Vec<Vec<char>> = Vec::new();
    let mut start: usize = 0;
    assert(text@.subrange(0, text@.len() as int) =~= text@);
    while start < text.len()
        invariant
            start <= text@.len(),
            found@.len() + lines(text@.subrange(start as int, text@.len() as int)).len() == lines(
                text@,
            ).len(),
            forall|index: int| 0 <= index < found@.len() ==> #[trigger] found@[index]@ == lines(text@)[index],
            forall|index: int|
                0 <= index < lines(text@.subrange(start as int, text@.len() as int)).len() ==> lines(
                    text@,
                )[found@.len() + index] == lines(
                    text@.subrange(start as int, text@.len() as int),
                )[index],
        decreases text@.len() - start,
    {
        let rest = slice_of(text, start, text.len());
        proof {
            lemma_first_index(rest@, '\n');
        }
        let ghost before = found@;
        let ghost later: Seq<char>;
        let line: Vec<char>;
        let next: usize;
        match find_char(rest.as_slice(), '\n') {
            None => {
                line = slice_of(rest.as_slice(), 0, rest.len());
                assert(rest@.subrange(0, rest@.len() as int) =~= rest@);
                assert(line@ == rest@);
                proof {
                    later = Seq::empty();
                }
                assert(lines(later) =~= seq![]);
                assert(lines(rest@) =~= seq![line@] + lines(later));
                next = text.len();
                assert(later =~= text@.subrange(next as int, text@.len() as int));
            },
            Some(at) => {
                let head = slice_of(rest.as_slice(), 0, at);
                line = if head.len() > 0 && head[head.len() - 1] == '\r' {
                    slice_of(head.as_slice(), 0, head.len() - 1)
                } else {
                    slice_of(head.as_slice(), 0, head.len())
                };
                assert(head@.subrange(0, head@.len() as int) =~= head@);
                assert(line@ == strip_return(head@));
                proof {
                    later = rest@.subrange(at + 1, rest@.len() as int);
                }
                assert(lines(rest@) == seq![line@] + lines(later));
                next = start + at + 1;
                assert(later =~= text@.subrange(next as int, text@.len() as int));
            },
        }
        assert(lines(text@)[before.len() as int + 0] == lines(rest@)[0]);
        found.push(line);
        start = next;
        assert forall|index: int| 0 <= index < lines(later).len() implies lines(
            text@,
        )[found@.len() + index] == lines(later)[index] by {
            assert((seq![line@] + lines(later))[index + 1] == lines(later)[index]);
        }
        assert forall|index: int| 0 <= index < found@.len() implies #[trigger] found@[index]@
            == lines(text@)[index] by {
            if index == before.len() {
                assert((seq![line@] + lines(later))[0] == line@);
            }
        }
    }
    assert(lines(text@.subrange(start as int, text@.len() as int)) =~= seq![]);
    found
}

/// The index of the first white-space character, or the length when there
/// is none.
pub open spec fn first_white(text: Seq<char>) -> int
    decreases text.len(),
{
    if text.len() == 0 {
        0
    } else if is_white(text[0]) {
        0
    } else {
        first_white(text.drop_first()) + 1
    }
}

/// The words of a text as `str::split_whitespace` yields them: the runs of
/// characters that are not white space, in order.
pub open spec fn words(text: Seq<char>) -> Seq<Seq<char>>
    decreases text.len(),
{
    if text.len() == 0 {
        seq![]
    } else if is_white(text[0]) {
        words(text.drop_first())
    } else {
        let end = first_white(text);
        if end <= 0 || end >= text.len() {
            seq![text]
        } else {
            seq![text.subrange(0, end)] + words(text.subrange(end, text.len() as int))
        }
    }
}


/// The first white space lies within the text, and nothing before it is
/// white.
pub proof fn lemma_first_white_bounds(text: Seq<char>)
    ensures
        0 <= first_white(text) <= text.len(),
        first_white(text) < text.len() ==> is_white(text[first_white(text)]),
        forall|before: int| 0 <= before < first_white(text) ==> !is_white(text[before]),
    decreases text.len(),
{
    if text.len() > 0 && !is_white(text[0]) {
        lemma_first_white_bounds(text.drop_first());
        assert forall|before: int| 1 <= before < first_white(text) implies !is_white(
            text[before],
        ) by {
            assert(text[before] == text.drop_first()[before - 1]);
        }
    }
}

/// The words of a text, each as its characters.
pub fn words_of(text: &[char]) -> (found: Vec<Vec<char>>)
    ensures
        found@.len() == words(text@).len(),
        forall|index: int| 0 <= index < found@.len() ==> #[trigger] found@[index]@ == words(text@)[index],
{
    let mut found: Vec<Vec<char>> = Vec::new();
    let mut start: usize = 0;
    assert(text@.subrange(0, text@.len() as int) =~= text@);
    while start < text.len()
        invariant
            start <= text@.len(),
            found@.len() + words(text@.subrange(start as int, text@.len() as int)).len() == words(
                text@,
            ).len(),
            forall|index: int| 0 <= index < found@.len() ==> #[trigger] found@[index]@ == words(text@)[index],
            forall|index: int|
                0 <= index < words(text@.subrange(start as int, text@.len() as int)).len() ==> words(
                    text@,
                )[found@.len() + index] == words(
                    text@.subrange(start as int, text@.len() as int),
                )[index],
        decreases text@.len() - start,
    {
        let ghost rest = text@.subrange(start as int, text@.len() as int);
        if white(text[start]) {
            assert(rest.drop_first() =~= text@.subrange(start + 1, text@.len() as int));
            start = start + 1;
        } else {
            proof {
                lemma_first_white_bounds(rest);
            }
            let mut end: usize = start;
            while end < text.len() && !white(text[end])
                invariant
                    start <= end <= text@.len(),
                    rest == text@.subrange(start as int, text@.len() as int),
                    forall|before: int| start <= before < end ==> !is_white(text@[before]),
                    end - start <= first_white(rest),
                    0 <= first_white(rest) <= rest.len(),
                    first_white(rest) < rest.len() ==> is_white(rest[first_white(rest)]),
                decreases text@.len() - end,
            {
                assert(rest[end - start] == text@[end as int]);
                end = end + 1;
            }
            assert(end - start == first_white(rest)) by {
                if end < text.len() {
                    assert(rest[end - start] == text@[end as int]);
                }
            }
            let word = slice_of(text, start, end);
            let ghost later = text@.subrange(end as int, text@.len() as int);
            assert(words(rest) == seq![word@] + words(later)) by {
                if end == text.len() {
                    assert(word@ =~= rest);
                    assert(later =~= seq![]);
                    assert(words(later) =~= seq![]);
                    assert(seq![word@] + words(later) =~= seq![word@]);
                } else {
                    assert(rest.subrange(0, end - start) =~= word@);
                    assert(rest.subrange(end - start, rest.len() as int) =~= later);
                }
            }
            let ghost before = found@;
            found.push(word);
            start = end;
            assert forall|index: int| 0 <= index < words(later).len() implies words(
                text@,
            )[found@.len() + index] == words(later)[index] by {
                assert((seq![word@] + words(later))[index + 1] == words(later)[index]);
            }
            assert forall|index: int| 0 <= index < found@.len() implies #[trigger] found@[index]@
                == words(text@)[index] by {
                if index == before.len() {
                    assert((seq![word@] + words(later))[0] == word@);
                }
            }
        }
    }
    assert(text@.subrange(start as int, text@.len() as int) =~= seq![]);
    assert(words(seq![]) =~= Seq::<Seq<char>>::empty());
    found
}

/// The texts of a finite set in increasing order, each once.
pub open spec fn in_order(texts: Set<Seq<char>>) -> Seq<Seq<char>> {
    choose|sorted: Seq<Seq<char>>| strictly_sorted(sorted) && sorted.to_set() == texts
}

/// A list in strictly increasing order with one more text put where it
/// belongs.
pub open spec fn inserted(sorted: Seq<Seq<char>>, text: Seq<char>) -> Seq<Seq<char>>
    decreases sorted.len(),
{
    if sorted.len() == 0 {
        seq![text]
    } else if precedes(text, sorted[0]) {
        seq![text] + sorted
    } else {
        seq![sorted[0]] + inserted(sorted.drop_first(), text)
    }
}

/// A text put where it belongs in a list in strictly increasing order that
/// lacks it keeps the list in order and adds just that text.
proof fn lemma_inserted(sorted: Seq<Seq<char>>, text: Seq<char>)
    requires
        strictly_sorted(sorted),
        !sorted.contains(text),
    ensures
        strictly_sorted(inserted(sorted, text)),
        forall|other: Seq<char>| #[trigger] inserted(sorted, text).contains(other) <==> (other == text || sorted.contains(other)),
    decreases sorted.len(),
{
    let result = inserted(sorted, text);
    if sorted.len() == 0 {
        assert(result[0] == text);
        assert forall|other: Seq<char>| #[trigger] result.contains(other) <==> (other == text || sorted.contains(other)) by {
            if result.contains(other) {
                let at = choose|at: int| 0 <= at < result.len() && result[at] == other;
            }
        }
    } else if precedes(text, sorted[0]) {
        assert forall|earlier: int, later: int| 0 <= earlier < later < result.len() implies precedes(
            #[trigger] result[earlier],
            #[trigger] result[later],
        ) by {
            if earlier == 0 && later > 1 {
                lemma_precedes_transitive(text, sorted[0], sorted[later - 1]);
            }
        }
        assert forall|other: Seq<char>| #[trigger] result.contains(other) <==> (other == text || sorted.contains(other)) by {
            if result.contains(other) {
                let at = choose|at: int| 0 <= at < result.len() && result[at] == other;
                if at > 0 {
                    assert(sorted[at - 1] == other);
                }
            }
            if sorted.contains(other) {
                let at = choose|at: int| 0 <= at < sorted.len() && sorted[at] == other;
                assert(result[at + 1] == other);
            }
            if other == text {
                assert(result[0] == other);
            }
        }
    } else {
        let rest = sorted.drop_first();
        let inner = inserted(rest, text);
        assert(!rest.contains(text)) by {
            if rest.contains(text) {
                let at = choose|at: int| 0 <= at < rest.len() && rest[at] == text;
                assert(sorted[at + 1] == text);
            }
        }
        lemma_inserted(rest, text);
        assert(sorted[0] != text) by {
            assert(sorted.contains(sorted[0]));
        }
        lemma_precedes_total(text, sorted[0]);
        assert(result =~= seq![sorted[0]] + inner);
        assert forall|earlier: int, later: int| 0 <= earlier < later < result.len() implies precedes(
            #[trigger] result[earlier],
            #[trigger] result[later],
        ) by {
            if earlier == 0 {
                let other = inner[later - 1];
                assert(inner.contains(other));
                if other != text {
                    let at = choose|at: int| 0 <= at < rest.len() && rest[at] == other;
                    assert(sorted[at + 1] == other);
                }
            } else {
                assert(result[earlier] == inner[earlier - 1]);
                assert(result[later] == inner[later - 1]);
            }
        }
        assert forall|other: Seq<char>| #[trigger] result.contains(other) <==> (other == text || sorted.contains(other)) by {
            if result.contains(other) {
                let at = choose|at: int| 0 <= at < result.len() && result[at] == other;
                if at > 0 {
                    assert(inner[at - 1] == other);
                    assert(inner.contains(other));
                    if other != text {
                        let place = choose|place: int| 0 <= place < rest.len() && rest[place] == other;
                        assert(sorted[place + 1] == other);
                    }
                }
            }
            if sorted.contains(other) {
                let at = choose|at: int| 0 <= at < sorted.len() && sorted[at] == other;
                if at > 0 {
                    assert(rest[at - 1] == other);
                    assert(rest.contains(other));
                    assert(inner.contains(other));
                    let place = choose|place: int| 0 <= place < inner.len() && inner[place] == other;
                    assert(result[place + 1] == other);
                } else {
                    assert(result[0] == other);
                }
            }
            if other == text {
                assert(inner.contains(text));
                let place = choose|place: int| 0 <= place < inner.len() && inner[place] == text;
                assert(result[place + 1] == text);
            }
        }
    }
}

/// Every finite set of texts can be listed in strictly increasing order.
proof fn lemma_sorted_exists(texts: Set<Seq<char>>)
    requires
        texts.finite(),
    ensures
        exists|sorted: Seq<Seq<char>>| strictly_sorted(sorted) && sorted.to_set() == texts,
    decreases texts.len(),
{
    vstd::set_lib::lemma_set_empty_equivalency_len(texts);
    if texts.len() == 0 {
        let none = Seq::<Seq<char>>::empty();
        assert(none.to_set() =~= texts);
        assert(strictly_sorted(none));
    } else {
        let one = texts.choose();
        let rest = texts.remove(one);
        lemma_sorted_exists(rest);
        let sorted = choose|sorted: Seq<Seq<char>>| strictly_sorted(sorted) && sorted.to_set() == rest;
        assert(!sorted.contains(one)) by {
            if sorted.contains(one) {
                assert(sorted.to_set().contains(one));
            }
        }
        lemma_inserted(sorted, one);
        let listed = inserted(sorted, one);
        assert forall|other: Seq<char>| #[trigger] listed.to_set().contains(other) <==> texts.contains(other) by {
            if other != one {
                assert(sorted.contains(other) <==> sorted.to_set().contains(other));
            }
        }
        assert(listed.to_set() =~= texts);
    }
}

/// A finite set's texts in increasing order are just its texts.
pub proof fn lemma_in_order_of(texts: Set<Seq<char>>)
    requires
        texts.finite(),
    ensures
        strictly_sorted(in_order(texts)),
        in_order(texts).to_set() == texts,
{
    lemma_sorted_exists(texts);
}

/// Two lists in strictly increasing order that hold the same texts are the
/// same list: each is the set's texts in increasing order.
pub proof fn lemma_sorted_unique(left: Seq<Seq<char>>, right: Seq<Seq<char>>)
    requires
        strictly_sorted(left),
        strictly_sorted(right),
        left.to_set() == right.to_set(),
    ensures
        left == right,
    decreases left.len(),
{
    if left.len() == 0 {
        if right.len() > 0 {
            assert(right.to_set().contains(right[0]));
            assert(!left.to_set().contains(right[0]));
        }
        assert(left =~= right);
    } else if right.len() == 0 {
        assert(left.to_set().contains(left[0]));
    } else {
        let first = left[0];
        let other = right[0];
        assert(left.to_set().contains(first));
        assert(right.to_set().contains(other));
        assert(right.contains(first));
        assert(left.contains(other));
        if first != other {
            let at = choose|at: int| 0 <= at < right.len() && right[at] == first;
            let back = choose|back: int| 0 <= back < left.len() && left[back] == other;
            assert(at > 0);
            assert(back > 0);
            assert(precedes(other, first));
            assert(precedes(first, other));
            lemma_precedes_transitive(first, other, first);
            lemma_precedes_irreflexive(first);
        }
        let rest_left = left.drop_first();
        let rest_right = right.drop_first();
        assert(strictly_sorted(rest_left)) by {
            assert forall|earlier: int, later: int| 0 <= earlier < later < rest_left.len() implies precedes(#[trigger] rest_left[earlier], #[trigger] rest_left[later]) by {
                assert(precedes(left[earlier + 1], left[later + 1]));
            }
        }
        assert(strictly_sorted(rest_right)) by {
            assert forall|earlier: int, later: int| 0 <= earlier < later < rest_right.len() implies precedes(#[trigger] rest_right[earlier], #[trigger] rest_right[later]) by {
                assert(precedes(right[earlier + 1], right[later + 1]));
            }
        }
        assert(rest_left.to_set() =~= rest_right.to_set()) by {
            assert forall|text: Seq<char>| rest_left.to_set().contains(text) implies rest_right.to_set().contains(text) by {
                let at = choose|at: int| 0 <= at < rest_left.len() && rest_left[at] == text;
                assert(left[at + 1] == text);
                assert(precedes(first, text));
                assert(right.to_set().contains(text));
                let there = choose|there: int| 0 <= there < right.len() && right[there] == text;
                if there == 0 {
                    lemma_precedes_irreflexive(first);
                }
                assert(rest_right[there - 1] == text);
            }
            assert forall|text: Seq<char>| rest_right.to_set().contains(text) implies rest_left.to_set().contains(text) by {
                let at = choose|at: int| 0 <= at < rest_right.len() && rest_right[at] == text;
                assert(right[at + 1] == text);
                assert(precedes(other, text));
                assert(left.to_set().contains(text));
                let there = choose|there: int| 0 <= there < left.len() && left[there] == text;
                if there == 0 {
                    lemma_precedes_irreflexive(other);
                }
                assert(rest_left[there - 1] == text);
            }
        }
        lemma_sorted_unique(rest_left, rest_right);
        assert(left =~= seq![first] + rest_left);
        assert(right =~= seq![other] + rest_right);
    }
}

/// A list in strictly increasing order is its texts in increasing order.
pub proof fn lemma_in_order(sorted: Seq<Seq<char>>)
    requires
        strictly_sorted(sorted),
    ensures
        in_order(sorted.to_set()) == sorted,
{
    let chosen = in_order(sorted.to_set());
    assert(strictly_sorted(sorted) && sorted.to_set() == sorted.to_set());
    lemma_sorted_unique(chosen, sorted);
}

/// Whether a list of strings holds a text.
pub fn holds_text(texts: &[String], wanted: &str) -> (found: bool)
    ensures
        found == views_of(texts@).contains(wanted@),
{
    let mut index: usize = 0;
    while index < texts.len()
        invariant
            index <= texts@.len(),
            forall|at: int| 0 <= at < index ==> #[trigger] texts@[at]@ != wanted@,
        decreases texts@.len() - index,
    {
        if same_chars(chars_of(texts[index].as_str()).as_slice(), chars_of(wanted).as_slice()) {
            assert(views_of(texts@)[index as int] == wanted@);
            return true;
        }
        index = index + 1;
    }
    proof {
        if views_of(texts@).contains(wanted@) {
            let at = choose|at: int| 0 <= at < views_of(texts@).len() && views_of(texts@)[at] == wanted@;
            assert(texts@[at]@ == wanted@);
        }
    }
    false
}

/// The texts of a list in strictly increasing order that another list does
/// not hold, in the same order.
pub fn sorted_difference(sorted: &[String], other: &[String]) -> (kept: Vec<String>)
    requires
        strictly_sorted(views_of(sorted@)),
    ensures
        strictly_sorted(views_of(kept@)),
        views_of(kept@).to_set() == views_of(sorted@).to_set().difference(views_of(other@).to_set()),
        views_of(kept@) == in_order(views_of(sorted@).to_set().difference(views_of(other@).to_set())),
{
    let ghost all = views_of(sorted@);
    let ghost others = views_of(other@);
    let mut kept: Vec<String> = Vec::new();
    let mut index: usize = 0;
    while index < sorted.len()
        invariant
            index <= sorted@.len(),
            all == views_of(sorted@),
            others == views_of(other@),
            strictly_sorted(all),
            strictly_sorted(views_of(kept@)),
            forall|at: int| 0 <= at < views_of(kept@).len() ==> exists|from: int| 0 <= from < index && #[trigger] views_of(kept@)[at] == all[from]
                && (forall|later: int| from < later < index ==> precedes(views_of(kept@)[at], #[trigger] all[later])),
            views_of(kept@).to_set() == all.subrange(0, index as int).to_set().difference(others.to_set()),
        decreases sorted@.len() - index,
    {
        let ghost before = views_of(kept@);
        let ghost prefix = all.subrange(0, index as int);
        assert(all.subrange(0, index + 1) =~= prefix.push(all[index as int]));
        proof {
            prefix.lemma_push_to_set_commute(all[index as int]);
        }
        if !holds_text(other, sorted[index].as_str()) {
            kept.push(sorted[index].clone());
            assert(views_of(kept@) =~= before.push(all[index as int]));
            proof {
                before.lemma_push_to_set_commute(all[index as int]);
                assert(views_of(kept@).to_set() =~= all.subrange(0, index + 1).to_set().difference(others.to_set()));
                assert forall|earlier: int, later: int| 0 <= earlier < later < views_of(kept@).len() implies precedes(#[trigger] views_of(kept@)[earlier], #[trigger] views_of(kept@)[later]) by {
                    if later == before.len() {
                        let from = choose|from: int| 0 <= from < index && #[trigger] before[earlier] == all[from]
                            && (forall|later: int| from < later < index ==> precedes(before[earlier], #[trigger] all[later]));
                        assert(precedes(all[from], all[index as int]));
                    } else {
                        assert(precedes(before[earlier], before[later]));
                    }
                }
                assert forall|at: int| 0 <= at < views_of(kept@).len() implies exists|from: int| 0 <= from < index + 1 && #[trigger] views_of(kept@)[at] == all[from]
                    && (forall|later: int| from < later < index + 1 ==> precedes(views_of(kept@)[at], #[trigger] all[later])) by {
                    if at == before.len() {
                        assert(views_of(kept@)[at] == all[index as int]);
                    } else {
                        let from = choose|from: int| 0 <= from < index && #[trigger] before[at] == all[from]
                            && (forall|later: int| from < later < index ==> precedes(before[at], #[trigger] all[later]));
                        assert(precedes(all[from], all[index as int]));
                        assert forall|later: int| from < later < index + 1 implies precedes(views_of(kept@)[at], #[trigger] all[later]) by {
                            if later < index {
                            } else {
                                assert(precedes(all[from], all[index as int]));
                            }
                        }
                    }
                }
            }
        } else {
            proof {
                assert(views_of(kept@).to_set() =~= all.subrange(0, index + 1).to_set().difference(others.to_set()));
                assert forall|at: int| 0 <= at < views_of(kept@).len() implies exists|from: int| 0 <= from < index + 1 && #[trigger] views_of(kept@)[at] == all[from]
                    && (forall|later: int| from < later < index + 1 ==> precedes(views_of(kept@)[at], #[trigger] all[later])) by {
                    let from = choose|from: int| 0 <= from < index && #[trigger] before[at] == all[from]
                        && (forall|later: int| from < later < index ==> precedes(before[at], #[trigger] all[later]));
                    assert(precedes(all[from], all[index as int]));
                    assert forall|later: int| from < later < index + 1 implies precedes(views_of(kept@)[at], #[trigger] all[later]) by {
                        if later == index {
                            assert(precedes(all[from], all[index as int]));
                        }
                    }
                }
            }
        }
        index = index + 1;
    }
    assert(all.subrange(0, all.len() as int) =~= all);
    proof {
        lemma_in_order(views_of(kept@));
    }
    kept
}

} // verus!
