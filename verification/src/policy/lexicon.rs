//! Every word of every declared identifier and of every file name under the
//! checked directories appears in the committed vocabulary, and every
//! vocabulary file is well formed and owned by a task.
//!
//! An identifier is split into words on `_`, `-` and `.` and on case
//! boundaries; a run of digits belongs to the word before it (`utf8`,
//! `sha256`) and a token that is only digits is ignored (`x86_64` yields
//! `x86`); leading and trailing underscores and the bare `_` are ignored; a
//! raw identifier loses its `r#`. Which identifiers a file declares is a
//! parser's finding; this module splits and judges them.
use vstd::prelude::*;

use crate::paths::{components, file_name, joined, lies_under, stem_of};
use crate::policy::{Fault, SourceText, Violation, faults_of, relative, relative_of, report};
use crate::text::{
    chars_of, extend, extend_str, in_order, insert_sorted, lines, precedes, split_once, starts_with,
    strictly_sorted, string_of, trim_char, views_of,
};

verus! {

/// The directory of the vocabulary files, relative to the root.
pub const LEXICON_DIRECTORY: &'static str = "policy/lexicon";

/// The directory the plans live in, relative to the root; a vocabulary file
/// is named after a task under it.
pub const PLANS_DIRECTORY: &'static str = "docs/plans";

/// The rule an identifier breaks.
pub const IDENTIFIER_RULE: &'static str = "lexicon";

/// The rule a file or directory name breaks.
pub const NAME_RULE: &'static str = "lexicon-name";

/// The rule a vocabulary file breaks.
pub const FILE_RULE: &'static str = "lexicon-file";

/// The directories whose file and directory names are held to the
/// vocabulary, relative to the root.
pub open spec fn named_root_names() -> Seq<Seq<char>> {
    seq!["crates"@, "xtask"@, "regression"@, "policy"@]
}

/// The directories whose file and directory names are held to the
/// vocabulary.
pub fn named_roots() -> (roots: Vec<&'static str>)
    ensures
        roots@.map_values(|root: &'static str| root@) == named_root_names(),
{
    let roots = vec!["crates", "xtask", "regression", "policy"];
    assert(roots@.map_values(|root: &'static str| root@) =~= named_root_names());
    roots
}

/// Whether a character is an ASCII capital letter.
pub open spec fn ascii_upper(c: char) -> bool {
    'A' <= c && c <= 'Z'
}

/// Whether a character is an ASCII small letter.
pub open spec fn ascii_lower(c: char) -> bool {
    'a' <= c && c <= 'z'
}

/// Whether a character is an ASCII digit.
pub open spec fn ascii_digit(c: char) -> bool {
    '0' <= c && c <= '9'
}

/// Whether a character is ASCII.
pub open spec fn is_ascii(c: char) -> bool {
    (c as u32) < 128
}

/// A name for `char::is_uppercase`: whether a character has the Unicode
/// `Uppercase` property.
pub uninterp spec fn unicode_upper(c: char) -> bool;

/// A name for `char::is_lowercase`: whether a character has the Unicode
/// `Lowercase` property.
pub uninterp spec fn unicode_lower(c: char) -> bool;

/// A name for `str::to_lowercase`: a text with every character replaced by
/// its Unicode lowercase mapping.
pub uninterp spec fn lowercase_of(text: Seq<char>) -> Seq<char>;

/// `char::is_uppercase`. Its contract: the answer is the Unicode property's
/// for this character, and among ASCII characters exactly the capital
/// letters have it.
#[verifier::external_body]
fn is_uppercase(c: char) -> (upper: bool)
    ensures
        upper == unicode_upper(c),
        is_ascii(c) ==> (upper == ascii_upper(c)),
{
    c.is_uppercase()
}

/// `char::is_lowercase`. Its contract: the answer is the Unicode property's
/// for this character, and among ASCII characters exactly the small
/// letters have it.
#[verifier::external_body]
fn is_lowercase(c: char) -> (lower: bool)
    ensures
        lower == unicode_lower(c),
        is_ascii(c) ==> (lower == ascii_lower(c)),
{
    c.is_lowercase()
}

/// A character's ASCII lowercase: a capital letter's small one, and any
/// other character itself.
pub open spec fn ascii_lowercase(c: char) -> char {
    if ascii_upper(c) {
        ((c as u32) + 32) as char
    } else {
        c
    }
}

/// `str::to_lowercase`. Its contract: the answer is the Unicode mapping's
/// for this text, and a text of ASCII characters maps each capital letter
/// to its small one and keeps every other character.
#[verifier::external_body]
fn lowercased(text: &str) -> (lower: String)
    ensures
        lower@ == lowercase_of(text@),
        (forall|index: int| 0 <= index < text@.len() ==> is_ascii(#[trigger] text@[index])) ==> lower@ == text@.map_values(
            |c: char| ascii_lowercase(c),
        ),
{
    text.to_lowercase()
}

/// Whether a character separates the tokens of an identifier.
pub open spec fn is_separator(c: char) -> bool {
    c == '_' || c == '-' || c == '.'
}

/// The index of the first separator in a text, or -1 when there is none.
pub open spec fn first_separator(text: Seq<char>) -> int
    decreases text.len(),
{
    if text.len() == 0 {
        -1
    } else if is_separator(text[0]) {
        0
    } else {
        let later = first_separator(text.drop_first());
        if later < 0 {
            -1
        } else {
            later + 1
        }
    }
}

/// The first separator lies within the text, and none comes before it.
pub proof fn lemma_first_separator(text: Seq<char>)
    ensures
        -1 <= first_separator(text) < text.len(),
        first_separator(text) >= 0 ==> is_separator(text[first_separator(text)]),
        forall|before: int| 0 <= before < first_separator(text) ==> !is_separator(#[trigger] text[before]),
        first_separator(text) < 0 ==> forall|index: int| 0 <= index < text.len() ==> !is_separator(#[trigger] text[index]),
    decreases text.len(),
{
    if text.len() > 0 && !is_separator(text[0]) {
        lemma_first_separator(text.drop_first());
        assert forall|before: int| 1 <= before < text.len() implies text[before] == text.drop_first()[before - 1] by {}
    }
}

/// The tokens of a text between its separators, as `str::split` yields them
/// with the three separators.
pub open spec fn tokens_of(text: Seq<char>) -> Seq<Seq<char>>
    decreases text.len(),
{
    let at = first_separator(text);
    if at < 0 || at >= text.len() {
        seq![text]
    } else {
        seq![text.subrange(0, at)] + tokens_of(text.subrange(at + 1, text.len() as int))
    }
}

/// The pieces split off a token so far, and the piece being gathered, after
/// its first characters: a new piece begins before a capital that follows
/// a small letter or a digit, and before the last capital of a run that a
/// small letter follows.
pub open spec fn case_state(token: Seq<char>, count: int) -> (Seq<Seq<char>>, Seq<char>)
    decreases count,
{
    if count <= 0 || count > token.len() {
        (Seq::empty(), Seq::empty())
    } else {
        let before = case_state(token, count - 1);
        let index = count - 1;
        let c = token[index];
        let after_lower_or_digit = index > 0 && (unicode_lower(token[index - 1]) || ascii_digit(token[index - 1]));
        let ends_an_upper_run = index > 0 && ascii_upper(token[index - 1]) && index + 1 < token.len() && ascii_lower(token[index + 1]);
        if unicode_upper(c) && (after_lower_or_digit || ends_an_upper_run) && before.1.len() > 0 {
            (before.0.push(before.1), seq![c])
        } else {
            (before.0, before.1.push(c))
        }
    }
}

/// The pieces a token splits into on case boundaries.
pub open spec fn case_pieces(token: Seq<char>) -> Seq<Seq<char>> {
    let state = case_state(token, token.len() as int);
    if state.1.len() > 0 {
        state.0.push(state.1)
    } else {
        state.0
    }
}

/// Whether a text is only ASCII digits (as the empty text is).
pub open spec fn only_digits(text: Seq<char>) -> bool {
    forall|index: int| 0 <= index < text.len() ==> ascii_digit(#[trigger] text[index])
}

/// The case pieces of the first tokens, in order.
pub open spec fn all_pieces(tokens: Seq<Seq<char>>, count: int) -> Seq<Seq<char>>
    decreases count,
{
    if count <= 0 || count > tokens.len() {
        Seq::empty()
    } else {
        all_pieces(tokens, count - 1) + case_pieces(tokens[count - 1])
    }
}

/// An identifier without the `r#` of a raw one and without underscores at
/// either end.
pub open spec fn bare_identifier(identifier: Seq<char>) -> Seq<char> {
    let unraw = if starts_with(identifier, "r#"@) {
        identifier.subrange(2, identifier.len() as int)
    } else {
        identifier
    };
    trim_char(unraw, '_')
}

/// The words kept from the first pieces, lowercase: each that is not only
/// digits.
pub open spec fn kept_words(pieces: Seq<Seq<char>>, count: int) -> Seq<Seq<char>>
    decreases count,
{
    if count <= 0 || count > pieces.len() {
        Seq::empty()
    } else if only_digits(pieces[count - 1]) {
        kept_words(pieces, count - 1)
    } else {
        kept_words(pieces, count - 1).push(lowercase_of(pieces[count - 1]))
    }
}

/// The words of an identifier, lowercase, in order: its case pieces that
/// are not only digits.
pub open spec fn identifier_words(identifier: Seq<char>) -> Seq<Seq<char>> {
    let tokens = tokens_of(bare_identifier(identifier));
    let pieces = all_pieces(tokens, tokens.len() as int);
    kept_words(pieces, pieces.len() as int)
}

/// The tokens of a text between its separators.
fn tokens(text: &[char]) -> (found: Vec<Vec<char>>)
    ensures
        found@.map_values(|token: Vec<char>| token@) == tokens_of(text@),
{
    let mut found: Vec<Vec<char>> = Vec::new();
    let mut rest = crate::text::slice_of(text, 0, text.len());
    assert(rest@ =~= text@);
    assert(found@.map_values(|token: Vec<char>| token@) + tokens_of(rest@) =~= tokens_of(text@));
    loop
        invariant
            found@.map_values(|token: Vec<char>| token@) + tokens_of(rest@) == tokens_of(text@),
        decreases rest@.len(),
    {
        proof {
            lemma_first_separator(rest@);
        }
        let mut at: usize = 0;
        while at < rest.len() && !(rest[at] == '_' || rest[at] == '-' || rest[at] == '.')
            invariant
                at <= rest@.len(),
                forall|before: int| 0 <= before < at ==> !is_separator(#[trigger] rest@[before]),
            decreases rest@.len() - at,
        {
            at = at + 1;
        }
        let ghost before = found@;
        if at >= rest.len() {
            assert(first_separator(rest@) < 0) by {
                if first_separator(rest@) >= 0 {
                    assert(!is_separator(rest@[first_separator(rest@)]));
                }
            }
            found.push(rest);
            assert(found@.map_values(|token: Vec<char>| token@) =~= before.map_values(|token: Vec<char>| token@).push(rest@));
            assert(tokens_of(rest@) == seq![rest@]);
            assert(found@.map_values(|token: Vec<char>| token@) =~= tokens_of(text@));
            return found;
        }
        assert(first_separator(rest@) == at) by {
            if first_separator(rest@) < at {
                if first_separator(rest@) >= 0 {
                    assert(!is_separator(rest@[first_separator(rest@)]));
                }
            }
        }
        let head = crate::text::slice_of(rest.as_slice(), 0, at);
        let tail = crate::text::slice_of(rest.as_slice(), at + 1, rest.len());
        found.push(head);
        assert(found@.map_values(|token: Vec<char>| token@) =~= before.map_values(|token: Vec<char>| token@).push(head@));
        assert(tokens_of(rest@) == seq![head@] + tokens_of(tail@));
        assert(before.map_values(|token: Vec<char>| token@) + tokens_of(rest@) =~= found@.map_values(|token: Vec<char>| token@) + tokens_of(tail@));
        rest = tail;
    }
}

/// The pieces a token splits into on case boundaries.
fn split_on_case(token: &[char]) -> (pieces: Vec<Vec<char>>)
    ensures
        pieces@.map_values(|piece: Vec<char>| piece@) == case_pieces(token@),
{
    let mut pieces: Vec<Vec<char>> = Vec::new();
    let mut current: Vec<char> = Vec::new();
    let mut index: usize = 0;
    assert(pieces@.map_values(|piece: Vec<char>| piece@) =~= Seq::<Seq<char>>::empty());
    assert(current@ =~= Seq::<char>::empty());
    while index < token.len()
        invariant
            index <= token@.len(),
            (pieces@.map_values(|piece: Vec<char>| piece@), current@) == case_state(token@, index as int),
        decreases token@.len() - index,
    {
        let c = token[index];
        let after_lower_or_digit = index > 0 && (is_lowercase(token[index - 1]) || ('0' <= token[index - 1] && token[index - 1] <= '9'));
        let ends_an_upper_run = index > 0 && ('A' <= token[index - 1] && token[index - 1] <= 'Z') && index + 1 < token.len()
            && ('a' <= token[index + 1] && token[index + 1] <= 'z');
        if is_uppercase(c) && (after_lower_or_digit || ends_an_upper_run) && current.len() > 0 {
            let ghost before = pieces@;
            let finished = current;
            pieces.push(finished);
            assert(pieces@.map_values(|piece: Vec<char>| piece@) =~= before.map_values(|piece: Vec<char>| piece@).push(finished@));
            current = Vec::new();
            current.push(c);
            assert(current@ =~= seq![c]);
        } else {
            current.push(c);
        }
        index = index + 1;
    }
    if current.len() > 0 {
        let ghost before = pieces@;
        pieces.push(current);
        assert(pieces@.map_values(|piece: Vec<char>| piece@) =~= before.map_values(|piece: Vec<char>| piece@).push(current@));
    }
    pieces
}

/// Whether every character of a text is ASCII.
pub open spec fn all_ascii(text: Seq<char>) -> bool {
    forall|index: int| 0 <= index < text.len() ==> is_ascii(#[trigger] text[index])
}

/// The words kept from the first pieces, each lowercased one ASCII
/// character at a time: what [`kept_words`] gives for ASCII pieces.
pub open spec fn kept_ascii_words(pieces: Seq<Seq<char>>, count: int) -> Seq<Seq<char>>
    decreases count,
{
    if count <= 0 || count > pieces.len() {
        Seq::empty()
    } else if only_digits(pieces[count - 1]) {
        kept_ascii_words(pieces, count - 1)
    } else {
        kept_ascii_words(pieces, count - 1).push(pieces[count - 1].map_values(|c: char| ascii_lowercase(c)))
    }
}

/// The words of an ASCII identifier: its case pieces that are not only
/// digits, each with its capitals made small.
pub open spec fn ascii_identifier_words(identifier: Seq<char>) -> Seq<Seq<char>> {
    let tokens = tokens_of(bare_identifier(identifier));
    let pieces = all_pieces(tokens, tokens.len() as int);
    kept_ascii_words(pieces, pieces.len() as int)
}

/// What is left of an ASCII text at its ends is ASCII.
proof fn lemma_trim_ascii(text: Seq<char>, edge: char)
    requires
        all_ascii(text),
    ensures
        all_ascii(trim_char(text, edge)),
    decreases text.len(),
{
    if text.len() > 0 && text[0] == edge {
        assert forall|index: int| 0 <= index < text.drop_first().len() implies is_ascii(#[trigger] text.drop_first()[index]) by {
            assert(text.drop_first()[index] == text[index + 1]);
        }
        lemma_trim_ascii(text.drop_first(), edge);
    } else if text.len() > 0 && text.last() == edge {
        assert forall|index: int| 0 <= index < text.drop_last().len() implies is_ascii(#[trigger] text.drop_last()[index]) by {
            assert(text.drop_last()[index] == text[index]);
        }
        lemma_trim_ascii(text.drop_last(), edge);
    }
}

/// The tokens of an ASCII text are ASCII.
proof fn lemma_tokens_ascii(text: Seq<char>)
    requires
        all_ascii(text),
    ensures
        forall|index: int| 0 <= index < tokens_of(text).len() ==> all_ascii(#[trigger] tokens_of(text)[index]),
    decreases text.len(),
{
    lemma_first_separator(text);
    let at = first_separator(text);
    if at >= 0 && at < text.len() {
        let head = text.subrange(0, at);
        let tail = text.subrange(at + 1, text.len() as int);
        assert forall|index: int| 0 <= index < tail.len() implies is_ascii(#[trigger] tail[index]) by {
            assert(tail[index] == text[at + 1 + index]);
        }
        lemma_tokens_ascii(tail);
        assert forall|index: int| 0 <= index < tokens_of(text).len() implies all_ascii(#[trigger] tokens_of(text)[index]) by {
            if index == 0 {
                assert(tokens_of(text)[0] == head);
                assert forall|spot: int| 0 <= spot < head.len() implies is_ascii(#[trigger] head[spot]) by {
                    assert(head[spot] == text[spot]);
                }
            } else {
                assert(tokens_of(text)[index] == tokens_of(tail)[index - 1]);
            }
        }
    }
}

/// The pieces gathered from an ASCII token are ASCII.
proof fn lemma_case_state_ascii(token: Seq<char>, count: int)
    requires
        all_ascii(token),
    ensures
        forall|index: int| 0 <= index < case_state(token, count).0.len() ==> all_ascii(#[trigger] case_state(token, count).0[index]),
        all_ascii(case_state(token, count).1),
    decreases count,
{
    if count > 0 && count <= token.len() {
        lemma_case_state_ascii(token, count - 1);
        let before = case_state(token, count - 1);
        let c = token[count - 1];
        assert(is_ascii(c));
        assert(all_ascii(seq![c]));
        assert(all_ascii(before.1.push(c))) by {
            assert forall|index: int| 0 <= index < before.1.push(c).len() implies is_ascii(#[trigger] before.1.push(c)[index]) by {
                if index < before.1.len() {
                    assert(before.1.push(c)[index] == before.1[index]);
                }
            }
        }
        assert forall|index: int| 0 <= index < before.0.push(before.1).len() implies all_ascii(#[trigger] before.0.push(before.1)[index]) by {
            if index < before.0.len() {
                assert(before.0.push(before.1)[index] == before.0[index]);
            }
        }
    }
}

/// The case pieces of ASCII tokens are ASCII.
proof fn lemma_all_pieces_ascii(tokens: Seq<Seq<char>>, count: int)
    requires
        forall|index: int| 0 <= index < tokens.len() ==> all_ascii(#[trigger] tokens[index]),
    ensures
        forall|index: int| 0 <= index < all_pieces(tokens, count).len() ==> all_ascii(#[trigger] all_pieces(tokens, count)[index]),
    decreases count,
{
    if count > 0 && count <= tokens.len() {
        lemma_all_pieces_ascii(tokens, count - 1);
        let token = tokens[count - 1];
        lemma_case_state_ascii(token, token.len() as int);
        let earlier = all_pieces(tokens, count - 1);
        let more = case_pieces(token);
        assert forall|index: int| 0 <= index < more.len() implies all_ascii(#[trigger] more[index]) by {
            let state = case_state(token, token.len() as int);
            if index < state.0.len() {
                assert(more[index] == state.0[index]);
            }
        }
        assert forall|index: int| 0 <= index < (earlier + more).len() implies all_ascii(#[trigger] (earlier + more)[index]) by {
            if index < earlier.len() {
                assert((earlier + more)[index] == earlier[index]);
            } else {
                assert((earlier + more)[index] == more[index - earlier.len()]);
            }
        }
    }
}

/// The words of an identifier, lowercase, in order.
pub fn words(identifier: &str) -> (found: Vec<String>)
    ensures
        views_of(found@) == identifier_words(identifier@),
        all_ascii(identifier@) ==> views_of(found@) == ascii_identifier_words(identifier@),
{
    proof {
        reveal_strlit("r#");
    }
    let text = chars_of(identifier);
    let raw = chars_of("r#");
    let unraw = if crate::text::begins_with(text.as_slice(), raw.as_slice()) {
        crate::text::slice_of(text.as_slice(), 2, text.len())
    } else {
        crate::text::slice_of(text.as_slice(), 0, text.len())
    };
    assert(unraw@ == (if starts_with(identifier@, "r#"@) {
        identifier@.subrange(2, identifier@.len() as int)
    } else {
        identifier@
    }));
    let bare = crate::text::trimmed_char(unraw.as_slice(), '_');
    assert(bare@ == bare_identifier(identifier@));
    let split = tokens(bare.as_slice());
    let ghost token_views = split@.map_values(|token: Vec<char>| token@);
    let mut pieces: Vec<Vec<char>> = Vec::new();
    let mut index: usize = 0;
    assert(pieces@.map_values(|piece: Vec<char>| piece@) =~= Seq::<Seq<char>>::empty());
    while index < split.len()
        invariant
            index <= split@.len(),
            token_views == split@.map_values(|token: Vec<char>| token@),
            pieces@.map_values(|piece: Vec<char>| piece@) == all_pieces(token_views, index as int),
        decreases split@.len() - index,
    {
        let more = split_on_case(split[index].as_slice());
        assert(token_views[index as int] == split@[index as int]@);
        let mut at: usize = 0;
        let ghost start = pieces@.map_values(|piece: Vec<char>| piece@);
        while at < more.len()
            invariant
                at <= more@.len(),
                pieces@.map_values(|piece: Vec<char>| piece@) == start + more@.map_values(|piece: Vec<char>| piece@).subrange(0, at as int),
            decreases more@.len() - at,
        {
            let ghost before = pieces@;
            let copy = crate::text::slice_of(more[at].as_slice(), 0, more[at].len());
            assert(copy@ =~= more@[at as int]@);
            pieces.push(copy);
            assert(pieces@ == before.push(copy));
            assert(pieces@.map_values(|piece: Vec<char>| piece@) =~= before.map_values(|piece: Vec<char>| piece@).push(copy@));
            assert(more@.map_values(|piece: Vec<char>| piece@).subrange(0, at + 1) =~= more@.map_values(|piece: Vec<char>| piece@).subrange(0, at as int).push(more@[at as int]@));
            assert(pieces@.map_values(|piece: Vec<char>| piece@) =~= start + more@.map_values(|piece: Vec<char>| piece@).subrange(0, at + 1));
            at = at + 1;
        }
        assert(more@.map_values(|piece: Vec<char>| piece@).subrange(0, more@.len() as int) =~= more@.map_values(|piece: Vec<char>| piece@));
        index = index + 1;
    }
    let ghost all = pieces@.map_values(|piece: Vec<char>| piece@);
    let ghost ascii = all_ascii(identifier@);
    proof {
        if ascii {
            let unraw_view = if starts_with(identifier@, "r#"@) {
                identifier@.subrange(2, identifier@.len() as int)
            } else {
                identifier@
            };
            assert forall|spot: int| 0 <= spot < unraw_view.len() implies is_ascii(#[trigger] unraw_view[spot]) by {
                if starts_with(identifier@, "r#"@) {
                    assert(unraw_view[spot] == identifier@[spot + 2]);
                }
            }
            lemma_trim_ascii(unraw_view, '_');
            lemma_tokens_ascii(bare@);
            lemma_all_pieces_ascii(token_views, token_views.len() as int);
        }
    }
    let mut found: Vec<String> = Vec::new();
    let mut at: usize = 0;
    assert(views_of(found@) =~= Seq::<Seq<char>>::empty());
    while at < pieces.len()
        invariant
            at <= pieces@.len(),
            all == pieces@.map_values(|piece: Vec<char>| piece@),
            views_of(found@) == kept_words(all, at as int),
            ascii ==> forall|index: int| 0 <= index < all.len() ==> all_ascii(#[trigger] all[index]),
            ascii ==> views_of(found@) == kept_ascii_words(all, at as int),
        decreases pieces@.len() - at,
    {
        let piece = pieces[at].as_slice();
        assert(all[at as int] == piece@);
        let mut digits = true;
        let mut look: usize = 0;
        while look < piece.len()
            invariant
                look <= piece@.len(),
                digits == forall|before: int| 0 <= before < look ==> ascii_digit(#[trigger] piece@[before]),
            decreases piece@.len() - look,
        {
            if !('0' <= piece[look] && piece[look] <= '9') {
                digits = false;
            }
            look = look + 1;
        }
        if !digits {
            let ghost before = views_of(found@);
            let lower = lowercased(string_of(piece).as_str());
            found.push(lower);
            assert(views_of(found@) =~= before.push(lowercase_of(piece@)));
            proof {
                if ascii {
                    assert(all_ascii(all[at as int]));
                }
            }
        }
        at = at + 1;
    }
    found
}

/// Whether a vocabulary line is one lowercase word: a small letter, then
/// small letters and digits.
pub open spec fn well_formed_word(word: Seq<char>) -> bool {
    word.len() > 0 && ascii_lower(word[0]) && forall|index: int| 1 <= index < word.len() ==> (ascii_lower(#[trigger] word[index]) || ascii_digit(word[index]))
}

/// Whether a vocabulary line is one lowercase word.
pub fn is_well_formed_word(word: &str) -> (formed: bool)
    ensures
        formed == well_formed_word(word@),
{
    let text = chars_of(word);
    if text.len() == 0 || !('a' <= text[0] && text[0] <= 'z') {
        return false;
    }
    let mut index: usize = 1;
    while index < text.len()
        invariant
            1 <= index <= text@.len(),
            text@ == word@,
            forall|at: int| 1 <= at < index ==> (ascii_lower(#[trigger] text@[at]) || ascii_digit(text@[at])),
        decreases text@.len() - index,
    {
        let c = text[index];
        if !(('a' <= c && c <= 'z') || ('0' <= c && c <= '9')) {
            assert(!(ascii_lower(text@[index as int]) || ascii_digit(text@[index as int])));
            return false;
        }
        index = index + 1;
    }
    true
}

/// The task id a file under the plans names: a file in a `tasks` directory,
/// its stem without the number before its first hyphen.
pub open spec fn task_id_of(path: Seq<char>) -> Option<Seq<char>> {
    let named = components(path);
    if named.len() < 2 || named[named.len() - 2] != "tasks"@ {
        None
    } else {
        match file_name(path) {
            None => None,
            Some(name) => match split_once(stem_of(name), "-"@) {
                Some((number, id)) => Some(id),
                None => None,
            },
        }
    }
}

/// The task ids the files under the plans name.
pub open spec fn task_ids_of(plans: Seq<String>) -> Set<Seq<char>> {
    Set::new(|id: Seq<char>| exists|index: int| 0 <= index < plans.len() && task_id_of(#[trigger] plans[index]@) == Some(id))
}

/// The task id a file under the plans names, if it names one.
fn task_id(path: &str) -> (id: Option<String>)
    ensures
        match task_id_of(path@) {
            None => id is None,
            Some(found) => id matches Some(held) && held@ == found,
        },
{
    proof {
        reveal_strlit("tasks");
        reveal_strlit("-");
        reveal_strlit("..");
    }
    let named = crate::paths::components_of(chars_of(path).as_slice());
    let ghost all = named@.map_values(|piece: Vec<char>| piece@);
    if named.len() < 2 || !crate::text::spells(named[named.len() - 2].as_slice(), "tasks") {
        proof {
            if named@.len() >= 2 {
                assert(all[all.len() - 2] == named@[named@.len() - 2]@);
            }
        }
        return None;
    }
    let last = &named[named.len() - 1];
    assert(all.last() == last@);
    assert(all[all.len() - 2] == named@[named@.len() - 2]@);
    if crate::text::spells(last.as_slice(), "..") {
        return None;
    }
    let stem = crate::paths::stem_text(last.as_slice());
    let hyphen = chars_of("-");
    match crate::text::split_at_first(stem.as_slice(), hyphen.as_slice()) {
        Some((number, id)) => Some(string_of(id.as_slice())),
        None => None,
    }
}

/// The task ids under the plans, in increasing order.
pub fn task_ids(plans: &[String]) -> (ids: Vec<String>)
    ensures
        strictly_sorted(views_of(ids@)),
        views_of(ids@).to_set() == task_ids_of(plans@),
{
    let mut ids: Vec<String> = Vec::new();
    let mut index: usize = 0;
    assert(views_of(ids@).to_set() =~= task_ids_of(plans@.subrange(0, 0)));
    while index < plans.len()
        invariant
            index <= plans@.len(),
            strictly_sorted(views_of(ids@)),
            views_of(ids@).to_set() == task_ids_of(plans@.subrange(0, index as int)),
        decreases plans@.len() - index,
    {
        let ghost shorter = plans@.subrange(0, index as int);
        let ghost longer = plans@.subrange(0, index + 1);
        assert(longer[index as int] == plans@[index as int]);
        match task_id(plans[index].as_str()) {
            Some(id) => {
                insert_sorted(&mut ids, id);
                assert(task_ids_of(longer) =~= task_ids_of(shorter).insert(id@)) by {
                    assert forall|text: Seq<char>| task_ids_of(longer).contains(text) implies task_ids_of(shorter).insert(id@).contains(text) by {
                        let at = choose|at: int| 0 <= at < longer.len() && task_id_of(#[trigger] longer[at]@) == Some(text);
                        if at < index {
                            assert(shorter[at] == longer[at]);
                        }
                    }
                    assert forall|text: Seq<char>| task_ids_of(shorter).contains(text) implies task_ids_of(longer).contains(text) by {
                        let at = choose|at: int| 0 <= at < shorter.len() && task_id_of(#[trigger] shorter[at]@) == Some(text);
                        assert(longer[at] == shorter[at]);
                    }
                }
            },
            None => {
                assert(task_ids_of(longer) =~= task_ids_of(shorter)) by {
                    assert forall|text: Seq<char>| task_ids_of(longer).contains(text) implies task_ids_of(shorter).contains(text) by {
                        let at = choose|at: int| 0 <= at < longer.len() && task_id_of(#[trigger] longer[at]@) == Some(text);
                        if at < index {
                            assert(shorter[at] == longer[at]);
                        }
                    }
                    assert forall|text: Seq<char>| task_ids_of(shorter).contains(text) implies task_ids_of(longer).contains(text) by {
                        let at = choose|at: int| 0 <= at < shorter.len() && task_id_of(#[trigger] shorter[at]@) == Some(text);
                        assert(longer[at] == shorter[at]);
                    }
                }
            },
        }
        index = index + 1;
    }
    assert(plans@.subrange(0, plans@.len() as int) =~= plans@);
    ids
}

/// What the first lines of a vocabulary file are found wanting in: a line
/// that is no lowercase word, a word listed twice in a row, a word out of
/// order after the one before it.
pub open spec fn line_faults(reported: Seq<char>, all: Seq<Seq<char>>, count: int) -> Seq<Fault>
    decreases count,
{
    if count <= 0 || count > all.len() {
        Seq::empty()
    } else {
        let index = count - 1;
        let word = all[index];
        let line = Some(count as usize);
        let formed = if well_formed_word(word) {
            Seq::<Fault>::empty()
        } else {
            seq![(reported, line, FILE_RULE@, "`"@ + word + "` is not a lowercase word of letters and digits"@)]
        };
        let ordered = if index > 0 && all[index - 1] == word {
            seq![(reported, line, FILE_RULE@, "`"@ + word + "` is listed twice"@)]
        } else if index > 0 && precedes(word, all[index - 1]) {
            seq![(reported, line, FILE_RULE@, "`"@ + word + "` is out of order after `"@ + all[index - 1] + "`"@)]
        } else {
            Seq::<Fault>::empty()
        };
        line_faults(reported, all, count - 1) + formed + ordered
    }
}

/// What one vocabulary file is found wanting in: a name that is no task's
/// id, then its lines' faults.
pub open spec fn lexicon_file_faults(root: Seq<char>, file: SourceText, tasks: Set<Seq<char>>) -> Seq<Fault> {
    let reported = relative_of(root, file.path@);
    let stem = crate::paths::path_stem(file.path@);
    let owned = if tasks.contains(stem) {
        Seq::<Fault>::empty()
    } else {
        seq![(reported, None, FILE_RULE@, "`"@ + stem + "` is not the id of a task under docs/plans"@)]
    };
    owned + line_faults(reported, lines(file.text@), lines(file.text@).len() as int)
}

/// What the first vocabulary files are found wanting in.
pub open spec fn lexicon_files_faults(root: Seq<char>, files: Seq<SourceText>, tasks: Set<Seq<char>>, count: int) -> Seq<Fault>
    decreases count,
{
    if count <= 0 {
        Seq::empty()
    } else {
        lexicon_files_faults(root, files, tasks, count - 1) + lexicon_file_faults(root, files[count - 1], tasks)
    }
}

/// The vocabulary: every line of the first vocabulary files.
pub open spec fn vocabulary_of(files: Seq<SourceText>, count: int) -> Set<Seq<char>>
    decreases count,
{
    if count <= 0 {
        Set::empty()
    } else {
        vocabulary_of(files, count - 1).union(lines(files[count - 1].text@).to_set())
    }
}

/// Reads one vocabulary file, reporting what is wrong with it, and adds its
/// lines to the vocabulary.
pub fn load_lexicon_file(
    root: &str,
    file: &SourceText,
    tasks: &Vec<String>,
    vocabulary: &mut Vec<String>,
    violations: &mut Vec<Violation>,
)
    requires
        strictly_sorted(views_of(old(vocabulary)@)),
    ensures
        strictly_sorted(views_of(final(vocabulary)@)),
        views_of(final(vocabulary)@).to_set() == views_of(old(vocabulary)@).to_set().union(lines(file.text@).to_set()),
        faults_of(final(violations)@) == faults_of(old(violations)@) + lexicon_file_faults(root@, *file, views_of(tasks@).to_set()),
{
    proof {
        reveal_strlit("`");
        reveal_strlit("` is not the id of a task under docs/plans");
    }
    let reported = relative(root, file.path.as_str());
    let stem = crate::paths::stem(file.path.as_str());
    if !crate::text::holds_text(tasks.as_slice(), stem.as_str()) {
        let mut detail: Vec<char> = Vec::new();
        extend_str(&mut detail, "`");
        extend_str(&mut detail, stem.as_str());
        extend_str(&mut detail, "` is not the id of a task under docs/plans");
        report(violations, Violation {
            path: reported.clone(),
            line: None,
            rule: FILE_RULE,
            detail: string_of(detail.as_slice()),
        });
    }
    proof {
        assert(views_of(tasks@).to_set().contains(stem@) == views_of(tasks@).contains(stem@));
    }
    let ghost owned = faults_of(violations@);
    let ghost start = views_of(vocabulary@).to_set();
    let all = crate::text::lines_of(chars_of(file.text.as_str()).as_slice());
    let ghost every = lines(file.text@);
    let mut index: usize = 0;
    assert(every.subrange(0, 0).to_set() =~= Set::<Seq<char>>::empty());
    assert(start.union(Set::<Seq<char>>::empty()) =~= start);
    while index < all.len()
        invariant
            index <= all@.len(),
            all@.len() == every.len(),
            every == lines(file.text@),
            forall|at: int| 0 <= at < all@.len() ==> #[trigger] all@[at]@ == every[at],
            reported@ == relative_of(root@, file.path@),
            strictly_sorted(views_of(vocabulary@)),
            views_of(vocabulary@).to_set() == start.union(every.subrange(0, index as int).to_set()),
            faults_of(violations@) == owned + line_faults(reported@, every, index as int),
        decreases all@.len() - index,
    {
        proof {
            reveal_strlit("`");
            reveal_strlit("` is not a lowercase word of letters and digits");
            reveal_strlit("` is listed twice");
            reveal_strlit("` is out of order after `");
        }
        let word = string_of(all[index].as_slice());
        assert(word@ == every[index as int]);
        if !is_well_formed_word(word.as_str()) {
            let mut detail: Vec<char> = Vec::new();
            extend_str(&mut detail, "`");
            extend_str(&mut detail, word.as_str());
            extend_str(&mut detail, "` is not a lowercase word of letters and digits");
            report(violations, Violation {
                path: reported.clone(),
                line: Some(index + 1),
                rule: FILE_RULE,
                detail: string_of(detail.as_slice()),
            });
        }
        if index > 0 {
            let before = all[index - 1].as_slice();
            assert(before@ == every[index - 1]);
            if crate::text::same_chars(before, all[index].as_slice()) {
                let mut detail: Vec<char> = Vec::new();
                extend_str(&mut detail, "`");
                extend_str(&mut detail, word.as_str());
                extend_str(&mut detail, "` is listed twice");
                report(violations, Violation {
                    path: reported.clone(),
                    line: Some(index + 1),
                    rule: FILE_RULE,
                    detail: string_of(detail.as_slice()),
                });
            } else if crate::text::comes_before(all[index].as_slice(), before) {
                let mut detail: Vec<char> = Vec::new();
                extend_str(&mut detail, "`");
                extend_str(&mut detail, word.as_str());
                extend_str(&mut detail, "` is out of order after `");
                extend(&mut detail, before);
                extend_str(&mut detail, "`");
                report(violations, Violation {
                    path: reported.clone(),
                    line: Some(index + 1),
                    rule: FILE_RULE,
                    detail: string_of(detail.as_slice()),
                });
            }
        }
        let ghost held = views_of(vocabulary@).to_set();
        insert_sorted(vocabulary, word);
        proof {
            let shorter = every.subrange(0, index as int);
            assert(every.subrange(0, index + 1) =~= shorter.push(every[index as int]));
            shorter.lemma_push_to_set_commute(every[index as int]);
            assert(start.union(shorter.to_set()).insert(every[index as int]) =~= start.union(shorter.push(every[index as int]).to_set()));
        }
        index = index + 1;
    }
    assert(every.subrange(0, every.len() as int) =~= every);
}

/// One identifier a parser found a file declaring: items, fields, variants,
/// parameters, bindings, generic parameters, lifetimes, labels and `use … as`
/// renames.
#[derive(Clone, Debug)]
pub struct Declaration {
    /// The identifier as written.
    pub identifier: String,
    /// Its line, one-based.
    pub line: usize,
    /// Whether it stands alone in pattern position: a binding with no
    /// `ref`, no `mut` and no subpattern.
    pub plain_pattern: bool,
}

/// Whether a declaration declares its identifier: a bare capitalized
/// identifier in pattern position is a unit variant or a constant being
/// matched, not a binding.
pub open spec fn declares(declaration: Declaration) -> bool {
    !(declaration.plain_pattern && declaration.identifier@.len() > 0 && unicode_upper(declaration.identifier@[0]))
}

/// The words among the first of an identifier's that the vocabulary lacks,
/// each a fault.
pub open spec fn word_faults(reported: Seq<char>, line: Option<usize>, rule: Seq<char>, shown: Seq<char>, all: Seq<Seq<char>>, vocabulary: Set<Seq<char>>, count: int) -> Seq<Fault>
    decreases count,
{
    if count <= 0 || count > all.len() {
        Seq::empty()
    } else if vocabulary.contains(all[count - 1]) {
        word_faults(reported, line, rule, shown, all, vocabulary, count - 1)
    } else {
        word_faults(reported, line, rule, shown, all, vocabulary, count - 1).push((reported, line, rule,
            "`"@ + shown + "`: `"@ + all[count - 1] + "` is not in the vocabulary"@))
    }
}

/// The identifiers a parser found one source file declaring.
#[derive(Clone, Debug)]
pub struct DeclaredFile {
    /// The file.
    pub path: String,
    /// Its declarations, in source order.
    pub declarations: Vec<Declaration>,
}

/// What the first declarations of a file are found wanting in.
pub open spec fn declaration_faults(root: Seq<char>, file: DeclaredFile, vocabulary: Set<Seq<char>>, count: int) -> Seq<Fault>
    decreases count,
{
    if count <= 0 || count > file.declarations@.len() {
        Seq::empty()
    } else {
        let declaration = file.declarations@[count - 1];
        let before = declaration_faults(root, file, vocabulary, count - 1);
        if declares(declaration) {
            let all = identifier_words(declaration.identifier@);
            before + word_faults(relative_of(root, file.path@), Some(declaration.line), IDENTIFIER_RULE@, declaration.identifier@, all, vocabulary, all.len() as int)
        } else {
            before
        }
    }
}

/// What the first source files are found wanting in.
pub open spec fn sources_faults(root: Seq<char>, files: Seq<DeclaredFile>, vocabulary: Set<Seq<char>>, count: int) -> Seq<Fault>
    decreases count,
{
    if count <= 0 {
        Seq::empty()
    } else {
        sources_faults(root, files, vocabulary, count - 1) + declaration_faults(root, files[count - 1], vocabulary, files[count - 1].declarations@.len() as int)
    }
}

/// Reports the words of one name the vocabulary lacks.
fn report_words(reported: &str, line: Option<usize>, rule: &'static str, shown: &str, vocabulary: &Vec<String>, violations: &mut Vec<Violation>)
    ensures
        faults_of(final(violations)@) == faults_of(old(violations)@) + word_faults(reported@, line, rule@, shown@, identifier_words(shown@), views_of(vocabulary@).to_set(), identifier_words(shown@).len() as int),
{
    let found = words(shown);
    let ghost all = identifier_words(shown@);
    let ghost start = faults_of(violations@);
    let mut index: usize = 0;
    while index < found.len()
        invariant
            index <= found@.len(),
            views_of(found@) == all,
            faults_of(violations@) == start + word_faults(reported@, line, rule@, shown@, all, views_of(vocabulary@).to_set(), index as int),
        decreases found@.len() - index,
    {
        proof {
            reveal_strlit("`");
            reveal_strlit("`: `");
            reveal_strlit("` is not in the vocabulary");
        }
        assert(all[index as int] == found@[index as int]@);
        if !crate::text::holds_text(vocabulary.as_slice(), found[index].as_str()) {
            let mut detail: Vec<char> = Vec::new();
            extend_str(&mut detail, "`");
            extend_str(&mut detail, shown);
            extend_str(&mut detail, "`: `");
            extend_str(&mut detail, found[index].as_str());
            extend_str(&mut detail, "` is not in the vocabulary");
            report(violations, Violation {
                path: reported.to_owned(),
                line,
                rule,
                detail: string_of(detail.as_slice()),
            });
        }
        index = index + 1;
    }
}

/// Every word of every identifier a file declares, checked against the
/// vocabulary.
pub fn check_identifiers(root: &str, file: &DeclaredFile, vocabulary: &Vec<String>, violations: &mut Vec<Violation>)
    ensures
        faults_of(final(violations)@) == faults_of(old(violations)@) + declaration_faults(root@, *file, views_of(vocabulary@).to_set(), file.declarations@.len() as int),
{
    let reported = relative(root, file.path.as_str());
    let ghost start = faults_of(violations@);
    let mut index: usize = 0;
    while index < file.declarations.len()
        invariant
            index <= file.declarations@.len(),
            reported@ == relative_of(root@, file.path@),
            faults_of(violations@) == start + declaration_faults(root@, *file, views_of(vocabulary@).to_set(), index as int),
        decreases file.declarations@.len() - index,
    {
        let declaration = &file.declarations[index];
        let text = chars_of(declaration.identifier.as_str());
        let capitalized = text.len() > 0 && is_uppercase(text[0]);
        if !(declaration.plain_pattern && capitalized) {
            let ghost before = faults_of(violations@);
            report_words(reported.as_str(), Some(declaration.line), IDENTIFIER_RULE, declaration.identifier.as_str(), vocabulary, violations);
        }
        index = index + 1;
    }
}

/// The ordering key of a path below the root: its components after the
/// root's, joined with NUL, which sorts below every other character, so
/// that keys sort as their paths do component by component.
pub open spec fn ancestor_key(components_below: Seq<Seq<char>>) -> Seq<char> {
    crate::claims::selection::joined_with(components_below, seq!['\0'])
}

/// The keys of every file under the root and every directory between it
/// and the root.
pub open spec fn ancestor_keys(root: Seq<char>, files: Seq<String>) -> Set<Seq<char>> {
    Set::new(|key: Seq<char>| exists|index: int, length: int| #![trigger key_of(root, files[index]@, length)]
        0 <= index < files.len() && lies_under(files[index]@, root)
        && 1 <= length <= components(files[index]@).len() - components(root).len()
        && key == key_of(root, files[index]@, length))
}

/// The key of the path made of a file's first components below the root,
/// as many as a length.
pub open spec fn key_of(root: Seq<char>, path: Seq<char>, length: int) -> Seq<char> {
    ancestor_key(components(path).subrange(components(root).len() as int, components(root).len() + length))
}

/// What the first names, in key order, are found wanting in: each word of
/// a name the vocabulary lacks.
pub open spec fn name_faults(keys: Seq<Seq<char>>, vocabulary: Set<Seq<char>>, count: int) -> Seq<Fault>
    decreases count,
{
    if count <= 0 || count > keys.len() {
        Seq::empty()
    } else {
        let named = crate::text::split_on(keys[count - 1], seq!['\0']);
        let name = named.last();
        let before = name_faults(keys, vocabulary, count - 1);
        if name == ".."@ {
            before
        } else {
            let all = identifier_words(name);
            before + word_faults(joined(named), None, NAME_RULE@, name, all, vocabulary, all.len() as int)
        }
    }
}

/// The key of the components of a path from one index up to another.
fn key_below(own: &Vec<Vec<char>>, start: usize, end: usize) -> (key: String)
    requires
        start <= end <= own@.len(),
    ensures
        key@ == ancestor_key(own@.map_values(|piece: Vec<char>| piece@).subrange(start as int, end as int)),
{
    let ghost all = own@.map_values(|piece: Vec<char>| piece@);
    let mut below: Vec<String> = Vec::new();
    let mut at: usize = start;
    assert(views_of(below@) =~= all.subrange(start as int, start as int));
    while at < end
        invariant
            start <= at <= end,
            end <= own@.len(),
            all == own@.map_values(|piece: Vec<char>| piece@),
            views_of(below@) == all.subrange(start as int, at as int),
        decreases end - at,
    {
        let ghost held = views_of(below@);
        let piece = string_of(own[at].as_slice());
        below.push(piece);
        assert(all[at as int] == own@[at as int]@);
        assert(views_of(below@) =~= held.push(piece@));
        assert(all.subrange(start as int, at + 1) =~= all.subrange(start as int, at as int).push(all[at as int]));
        at = at + 1;
    }
    let key = crate::claims::selection::join(below.as_slice(), "\0");
    proof {
        reveal_strlit("\0");
        assert("\0"@ =~= seq!['\0']);
    }
    string_of(key.as_slice())
}

/// Every word of every file and directory name under the named roots,
/// checked against the vocabulary, in the order of the paths.
pub fn check_names(root: &str, files: &[String], vocabulary: &Vec<String>, violations: &mut Vec<Violation>)
    ensures
        faults_of(final(violations)@) == faults_of(old(violations)@) + name_faults(in_order(ancestor_keys(root@, files@)), views_of(vocabulary@).to_set(), in_order(ancestor_keys(root@, files@)).len() as int),
{
    let base = crate::paths::components_of(chars_of(root).as_slice());
    let ghost base_views = base@.map_values(|piece: Vec<char>| piece@);
    let mut keys: Vec<String> = Vec::new();
    let mut index: usize = 0;
    assert(views_of(keys@).to_set() =~= ancestor_keys(root@, files@.subrange(0, 0)));
    while index < files.len()
        invariant
            index <= files@.len(),
            base_views == base@.map_values(|piece: Vec<char>| piece@),
            base_views == components(root@),
            strictly_sorted(views_of(keys@)),
            views_of(keys@).to_set() == ancestor_keys(root@, files@.subrange(0, index as int)),
        decreases files@.len() - index,
    {
        let ghost shorter = files@.subrange(0, index as int);
        let ghost longer = files@.subrange(0, index + 1);
        let ghost before = views_of(keys@).to_set();
        let path = files[index].as_str();
        assert(longer[index as int] == files@[index as int]);
        let ghost own_views = components(path@);
        let ghost added = Set::new(|key: Seq<char>| exists|length: int| lies_under(path@, root@)
            && 1 <= length <= own_views.len() - base_views.len()
            && key == key_of(root@, path@, length as int));
        if crate::paths::starts_with_path(path, root) {
            let own = crate::paths::components_of(chars_of(path).as_slice());
            let mut reached: usize = base.len();
            assert(views_of(keys@).to_set() =~= before.union(Set::new(|key: Seq<char>| exists|shorter_length: int|
                1 <= shorter_length <= reached - base_views.len() && key == key_of(root@, path@, shorter_length))));
            while reached < own.len()
                invariant
                    base_views.len() <= reached <= own_views.len(),
                    own@.map_values(|piece: Vec<char>| piece@) == own_views,
                    own_views == components(path@),
                    lies_under(path@, root@),
                    base_views == base@.map_values(|piece: Vec<char>| piece@),
                    base_views == components(root@),
                    strictly_sorted(views_of(keys@)),
                    views_of(keys@).to_set() == before.union(Set::new(|key: Seq<char>| exists|shorter_length: int|
                        1 <= shorter_length <= reached - base_views.len() && key == key_of(root@, path@, shorter_length))),
                decreases own_views.len() - reached,
            {
                reached = reached + 1;
                let key = key_below(&own, base.len(), reached);
                let ghost length = reached - base_views.len();
                let ghost keyed = views_of(keys@).to_set();
                insert_sorted(&mut keys, key);
                proof {
                    let fresh = key_of(root@, path@, length);
                    assert(key@ == fresh);
                    assert(views_of(keys@).to_set() =~= before.union(Set::new(|key: Seq<char>| exists|shorter_length: int|
                        1 <= shorter_length <= length && key == key_of(root@, path@, shorter_length)))) by {
                        assert forall|text: Seq<char>| views_of(keys@).to_set().contains(text) implies before.union(Set::new(|key: Seq<char>| exists|shorter_length: int|
                            1 <= shorter_length <= length && key == key_of(root@, path@, shorter_length))).contains(text) by {
                            if text == fresh {
                                assert(1 <= length <= length && text == key_of(root@, path@, length));
                            } else if !before.contains(text) {
                                let size = choose|size: int| 1 <= size <= length - 1 && text == key_of(root@, path@, size);
                                assert(1 <= size <= length && text == key_of(root@, path@, size));
                            }
                        }
                        assert forall|text: Seq<char>| before.union(Set::new(|key: Seq<char>| exists|shorter_length: int|
                            1 <= shorter_length <= length && key == key_of(root@, path@, shorter_length))).contains(text) implies views_of(keys@).to_set().contains(text) by {
                            if !before.contains(text) {
                                let size = choose|size: int| 1 <= size <= length && text == key_of(root@, path@, size);
                                if size < length {
                                    assert(1 <= size <= length - 1 && text == key_of(root@, path@, size));
                                }
                            }
                        }
                    }
                }
            }
            proof {
                assert(ancestor_keys(root@, longer) =~= before.union(added)) by {
                    assert forall|text: Seq<char>| ancestor_keys(root@, longer).contains(text) implies before.union(added).contains(text) by {
                        let (at, size) = choose|at: int, size: int| #![trigger key_of(root@, longer[at]@, size)] 0 <= at < longer.len() && lies_under(longer[at]@, root@)
                            && 1 <= size <= components(longer[at]@).len() - components(root@).len()
                            && text == key_of(root@, longer[at]@, size);
                        if at < index {
                            assert(shorter[at] == longer[at]);
                            assert(ancestor_keys(root@, shorter).contains(text));
                        } else {
                            assert(added.contains(text));
                        }
                    }
                    assert forall|text: Seq<char>| before.union(added).contains(text) implies ancestor_keys(root@, longer).contains(text) by {
                        if before.contains(text) {
                            let (at, size) = choose|at: int, size: int| #![trigger key_of(root@, shorter[at]@, size)] 0 <= at < shorter.len() && lies_under(shorter[at]@, root@)
                                && 1 <= size <= components(shorter[at]@).len() - components(root@).len()
                                && text == key_of(root@, shorter[at]@, size);
                            assert(longer[at] == shorter[at]);
                        } else {
                            let size = choose|size: int| lies_under(path@, root@)
                                && 1 <= size <= own_views.len() - base_views.len()
                                && text == key_of(root@, path@, size);
                            assert(longer[index as int]@ == path@);
                        }
                    }
                }
                assert(views_of(keys@).to_set() =~= before.union(added)) by {
                    assert forall|text: Seq<char>| views_of(keys@).to_set().contains(text) implies before.union(added).contains(text) by {
                        if !before.contains(text) {
                            let size = choose|size: int| 1 <= size <= reached - base_views.len() && text == key_of(root@, path@, size);
                            assert(lies_under(path@, root@) && 1 <= size <= own_views.len() - base_views.len() && text == key_of(root@, path@, size));
                            assert(added.contains(text));
                        }
                    }
                    assert forall|text: Seq<char>| before.union(added).contains(text) implies views_of(keys@).to_set().contains(text) by {
                        if !before.contains(text) {
                            let size = choose|size: int| lies_under(path@, root@)
                                && 1 <= size <= own_views.len() - base_views.len()
                                && text == key_of(root@, path@, size);
                            assert(1 <= size <= reached - base_views.len() && text == key_of(root@, path@, size));
                        }
                    }
                }
            }
        } else {
            proof {
                assert(ancestor_keys(root@, longer) =~= before) by {
                    assert forall|text: Seq<char>| ancestor_keys(root@, longer).contains(text) implies before.contains(text) by {
                        let (at, size) = choose|at: int, size: int| #![trigger key_of(root@, longer[at]@, size)] 0 <= at < longer.len() && lies_under(longer[at]@, root@)
                            && 1 <= size <= components(longer[at]@).len() - components(root@).len()
                            && text == key_of(root@, longer[at]@, size);
                        assert(shorter[at] == longer[at]);
                    }
                    assert forall|text: Seq<char>| before.contains(text) implies ancestor_keys(root@, longer).contains(text) by {
                        let (at, size) = choose|at: int, size: int| #![trigger key_of(root@, shorter[at]@, size)] 0 <= at < shorter.len() && lies_under(shorter[at]@, root@)
                            && 1 <= size <= components(shorter[at]@).len() - components(root@).len()
                            && text == key_of(root@, shorter[at]@, size);
                        assert(longer[at] == shorter[at]);
                    }
                }
            }
        }
        index = index + 1;
    }
    assert(files@.subrange(0, files@.len() as int) =~= files@);
    proof {
        crate::text::lemma_in_order(views_of(keys@));
    }
    let ghost ordered = views_of(keys@);
    let ghost start = faults_of(violations@);
    let mut at: usize = 0;
    while at < keys.len()
        invariant
            at <= keys@.len(),
            ordered == views_of(keys@),
            faults_of(violations@) == start + name_faults(ordered, views_of(vocabulary@).to_set(), at as int),
        decreases keys@.len() - at,
    {
        proof {
            reveal_strlit("..");
        }
        let nul = vec!['\0'];
        assert(nul@ =~= seq!['\0']);
        let named = crate::text::split_all(chars_of(keys[at].as_str()).as_slice(), nul.as_slice());
        let ghost pieces = crate::text::split_on(keys@[at as int]@, seq!['\0']);
        assert(ordered[at as int] == keys@[at as int]@);
        assert(named@.len() == pieces.len());
        assert(pieces.len() >= 1);
        let name = &named[named.len() - 1];
        assert(name@ == pieces.last());
        if !crate::text::spells(name.as_slice(), "..") {
            let mut shown: Vec<String> = Vec::new();
            let mut look: usize = 0;
            while look < named.len()
                invariant
                    look <= named@.len(),
                    named@.len() == pieces.len(),
                    forall|index: int| 0 <= index < named@.len() ==> #[trigger] named@[index]@ == pieces[index],
                    views_of(shown@) == pieces.subrange(0, look as int),
                decreases named@.len() - look,
            {
                let ghost held = views_of(shown@);
                let piece = string_of(named[look].as_slice());
                shown.push(piece);
                assert(views_of(shown@) =~= held.push(piece@));
                assert(pieces.subrange(0, look + 1) =~= pieces.subrange(0, look as int).push(pieces[look as int]));
                assert(views_of(shown@) =~= pieces.subrange(0, look + 1));
                look = look + 1;
            }
            assert(pieces.subrange(0, pieces.len() as int) =~= pieces);
            let reported = crate::paths::joined_of(&named);
            assert(named@.map_values(|piece: Vec<char>| piece@) =~= pieces);
            report_words(string_of(reported.as_slice()).as_str(), None, NAME_RULE, string_of(name.as_slice()).as_str(), vocabulary, violations);
        }
        at = at + 1;
    }
}

/// What a tree is found wanting in: its vocabulary files, then every
/// declared identifier of its sources, then every name under the named
/// roots.
pub open spec fn lexicon_faults(root: Seq<char>, plans: Seq<String>, lexicon_files: Seq<SourceText>, sources: Seq<DeclaredFile>, named_files: Seq<String>) -> Seq<Fault> {
    let vocabulary = vocabulary_of(lexicon_files, lexicon_files.len() as int);
    let keys = in_order(ancestor_keys(root, named_files));
    lexicon_files_faults(root, lexicon_files, task_ids_of(plans), lexicon_files.len() as int)
        + sources_faults(root, sources, vocabulary, sources.len() as int)
        + name_faults(keys, vocabulary, keys.len() as int)
}

/// The vocabulary check: the files under the plans, the vocabulary files
/// with their texts, what a parser found each Rust source declaring, and
/// the files under the named roots.
pub fn check(root: &str, plans: &[String], lexicon_files: &[SourceText], sources: &[DeclaredFile], named_files: &[String]) -> (found: Vec<Violation>)
    ensures
        faults_of(found@) == lexicon_faults(root@, plans@, lexicon_files@, sources@, named_files@),
{
    let tasks = task_ids(plans);
    let mut vocabulary: Vec<String> = Vec::new();
    let mut found: Vec<Violation> = Vec::new();
    assert(faults_of(found@) =~= Seq::<Fault>::empty());
    assert(views_of(vocabulary@).to_set() =~= Set::<Seq<char>>::empty());
    let mut index: usize = 0;
    while index < lexicon_files.len()
        invariant
            index <= lexicon_files@.len(),
            views_of(tasks@).to_set() == task_ids_of(plans@),
            strictly_sorted(views_of(vocabulary@)),
            views_of(vocabulary@).to_set() == vocabulary_of(lexicon_files@, index as int),
            faults_of(found@) == lexicon_files_faults(root@, lexicon_files@, task_ids_of(plans@), index as int),
        decreases lexicon_files@.len() - index,
    {
        load_lexicon_file(root, &lexicon_files[index], &tasks, &mut vocabulary, &mut found);
        index = index + 1;
    }
    let ghost first = faults_of(found@);
    let mut at: usize = 0;
    while at < sources.len()
        invariant
            at <= sources@.len(),
            views_of(vocabulary@).to_set() == vocabulary_of(lexicon_files@, lexicon_files@.len() as int),
            faults_of(found@) == first + sources_faults(root@, sources@, views_of(vocabulary@).to_set(), at as int),
        decreases sources@.len() - at,
    {
        check_identifiers(root, &sources[at], &vocabulary, &mut found);
        at = at + 1;
    }
    check_names(root, named_files, &vocabulary, &mut found);
    found
}

} // verus!
