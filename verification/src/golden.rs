//! The hex encoding the goldens carry bytes in: two digits per byte, read in
//! either case and written in lowercase, so that what a failure prints is
//! what a golden holds.
use vstd::prelude::*;
use vstd::string::StringSliceAdditionalSpecFns;
use vstd::utf8::*;

use crate::text::string_of;

verus! {

/// Why a golden could not be loaded, or its hex could not be read.
#[derive(Debug)]
pub enum GoldenError {
    /// The file could not be read.
    Read {
        /// The file.
        path: String,
        /// What the operating system said.
        detail: String,
    },
    /// A line of the file is not JSON.
    Parse {
        /// The file.
        path: String,
        /// The line, one-based.
        line: usize,
        /// What the parser said.
        detail: String,
    },
    /// A hex string is not hex: an even count of hex digits.
    Hex {
        /// The string, as given.
        text: String,
    },
}

impl GoldenError {
    /// What went wrong, in a sentence.
    pub fn message(&self) -> (said: String)
        ensures
            said@ == (match self {
                GoldenError::Read { path, detail } => path@ + ": "@ + detail@,
                GoldenError::Parse { path, line, detail } => path@ + ":"@ + crate::text::decimal(*line as nat) + ": "@ + detail@,
                GoldenError::Hex { text } => "`"@ + text@ + "` is not hex: an even count of hex digits"@,
            }),
    {
        match self {
            GoldenError::Read { path, detail } => {
                let mut held: Vec<char> = Vec::new();
                crate::text::extend_str(&mut held, path.as_str());
                crate::text::extend_str(&mut held, ": ");
                crate::text::extend_str(&mut held, detail.as_str());
                string_of(held.as_slice())
            },
            GoldenError::Parse { path, line, detail } => {
                let mut held: Vec<char> = Vec::new();
                crate::text::extend_str(&mut held, path.as_str());
                crate::text::extend_str(&mut held, ":");
                let shown = crate::text::decimal_chars(*line as u64);
                crate::text::extend(&mut held, shown.as_slice());
                crate::text::extend_str(&mut held, ": ");
                crate::text::extend_str(&mut held, detail.as_str());
                string_of(held.as_slice())
            },
            GoldenError::Hex { text } => {
                let mut held: Vec<char> = Vec::new();
                crate::text::extend_str(&mut held, "`");
                crate::text::extend_str(&mut held, text.as_str());
                crate::text::extend_str(&mut held, "` is not hex: an even count of hex digits");
                string_of(held.as_slice())
            },
        }
    }
}

/// A JSON value, as `serde_json` holds one.
#[verifier::external_type_specification]
#[verifier::external_body]
pub struct ExJsonValue(serde_json::Value);

/// A name for what `serde_json` says of one line that is not JSON: nothing
/// when the line parses, else the error's text.
pub uninterp spec fn json_refusal(line: Seq<char>) -> Option<Seq<char>>;

/// Parses one line with `serde_json::from_str` into a `serde_json::Value`;
/// on a parse error, the error's `Display` text. Its contract says only
/// whether the line parses and, when it does not, that the text is
/// `serde_json`'s for this line; which value a line that parses gives is
/// left to `serde_json`.
#[verifier::external_body]
fn parsed_line(line: &str) -> (parsed: Result<serde_json::Value, String>)
    ensures
        match json_refusal(line@) {
            None => parsed is Ok,
            Some(said) => parsed matches Err(held) && held@ == said,
        },
{
    serde_json::from_str::<serde_json::Value>(line).map_err(|error| error.to_string())
}

/// Whether a line holds nothing but white space.
pub open spec fn blank(line: Seq<char>) -> bool {
    crate::text::trim(line).len() == 0
}

/// The first line from `from` on that is not blank and not JSON, with its
/// one-based number and what the parser said of it.
pub open spec fn first_refusal(all: Seq<Seq<char>>, from: int) -> Option<(int, Seq<char>)>
    decreases all.len() - from,
{
    if from < 0 || from >= all.len() {
        None
    } else if !blank(all[from]) && json_refusal(all[from]) is Some {
        Some((from + 1, json_refusal(all[from])->0))
    } else {
        first_refusal(all, from + 1)
    }
}

/// How many of the first lines are not blank.
pub open spec fn filled(all: Seq<Seq<char>>, count: int) -> nat
    decreases count,
{
    if count <= 0 || count > all.len() {
        0
    } else if blank(all[count - 1]) {
        filled(all, count - 1)
    } else {
        filled(all, count - 1) + 1
    }
}

/// The JSON values of a JSONL file's text, one per line that is not blank,
/// in order; the file is named in an error.
///
/// [`GoldenError::Parse`] naming the first line that is not blank and not
/// JSON, with what the parser said.
pub fn lines(path: &str, text: &str) -> (values: Result<Vec<serde_json::Value>, GoldenError>)
    ensures
        match first_refusal(crate::text::lines(text@), 0) {
            None => values matches Ok(found) && found@.len() == filled(crate::text::lines(text@), crate::text::lines(text@).len() as int),
            Some((line, said)) => values matches Err(GoldenError::Parse { path: named, line: at, detail })
                && named@ == path@ && at == line && detail@ == said,
        },
{
    let characters = crate::text::chars_of(text);
    let all = crate::text::lines_of(characters.as_slice());
    let ghost every = crate::text::lines(text@);
    let mut values: Vec<serde_json::Value> = Vec::new();
    let mut index: usize = 0;
    while index < all.len()
        invariant
            index <= all@.len(),
            all@.len() == every.len(),
            every == crate::text::lines(text@),
            forall|at: int| 0 <= at < all@.len() ==> #[trigger] all@[at]@ == every[at],
            first_refusal(every, 0) == first_refusal(every, index as int),
            values@.len() == filled(every, index as int),
        decreases all@.len() - index,
    {
        let line = &all[index];
        let kept = crate::text::trimmed(line.as_slice());
        assert(line@ == every[index as int]);
        if kept.len() > 0 {
            match parsed_line(string_of(line.as_slice()).as_str()) {
                Ok(value) => {
                    values.push(value);
                },
                Err(said) => {
                    return Err(GoldenError::Parse { path: path.to_owned(), line: index + 1, detail: said });
                },
            }
        }
        index = index + 1;
    }
    Ok(values)
}

/// The value of a hex digit, in either case, or `-1` for a byte that is not
/// one.
pub open spec fn hex_value(byte: u8) -> int {
    if 48 <= byte <= 57 {
        byte - 48
    } else if 97 <= byte <= 102 {
        byte - 87
    } else if 65 <= byte <= 70 {
        byte - 55
    } else {
        -1
    }
}

/// Whether a byte is a hex digit.
pub open spec fn is_hex_digit(byte: u8) -> bool {
    hex_value(byte) >= 0
}

/// Whether bytes are hex: an even count of hex digits.
pub open spec fn is_hex_text(text: Seq<u8>) -> bool {
    &&& text.len() % 2 == 0
    &&& forall|index: int| 0 <= index < text.len() ==> is_hex_digit(#[trigger] text[index])
}

/// The bytes a run of hex pairs encodes: each pair is the high digit and
/// then the low one.
pub open spec fn decoded(text: Seq<u8>) -> Seq<u8> {
    Seq::new(
        text.len() / 2,
        |index: int| (16 * hex_value(text[2 * index]) + hex_value(text[2 * index + 1])) as u8,
    )
}

/// The lowercase digit for a value below sixteen.
pub open spec fn nibble_digit(value: u8) -> char {
    if value < 10 {
        ((48 + value) as u8) as char
    } else {
        ((87 + value) as u8) as char
    }
}

/// The lowercase hex of some bytes, two digits per byte, high first.
pub open spec fn encoded(data: Seq<u8>) -> Seq<char> {
    Seq::new(
        2 * data.len(),
        |index: int|
            if index % 2 == 0 {
                nibble_digit((data[index / 2] / 16) as u8)
            } else {
                nibble_digit((data[index / 2] % 16) as u8)
            },
    )
}

/// The value of one hex digit, when it is one.
fn digit_value(byte: u8) -> (value: Option<u8>)
    ensures
        value is Some <==> is_hex_digit(byte),
        value matches Some(found) ==> found == hex_value(byte),
{
    if 48 <= byte && byte <= 57 {
        Some(byte - 48)
    } else if 97 <= byte && byte <= 102 {
        Some(byte - 87)
    } else if 65 <= byte && byte <= 70 {
        Some(byte - 55)
    } else {
        None
    }
}

/// The bytes a hex string encodes, two lowercase or uppercase digits per
/// byte; [`GoldenError::Hex`] carrying the string when it has an odd length
/// or a byte that is not a hex digit.
pub fn bytes(hex: &str) -> (decoded_bytes: Result<Vec<u8>, GoldenError>)
    ensures
        match decoded_bytes {
            Ok(held) => is_hex_text(hex.spec_bytes()) && held@ == decoded(hex.spec_bytes()),
            Err(GoldenError::Hex { text }) => !is_hex_text(hex.spec_bytes()) && text@ == hex@,
            Err(_) => false,
        },
{
    let text = hex.as_bytes();
    let ghost all = hex.spec_bytes();
    if text.len() % 2 != 0 {
        return Err(GoldenError::Hex { text: hex.to_owned() });
    }
    let mut held: Vec<u8> = Vec::new();
    let mut pair: usize = 0;
    while pair < text.len() / 2
        invariant
            text@ == all,
            all == hex.spec_bytes(),
            all.len() % 2 == 0,
            pair <= all.len() / 2,
            held@.len() == pair,
            forall|index: int| 0 <= index < 2 * pair ==> is_hex_digit(#[trigger] all[index]),
            forall|index: int| 0 <= index < pair ==> held@[index] == decoded(all)[index],
        decreases all.len() / 2 - pair,
    {
        let high = digit_value(text[2 * pair]);
        let low = digit_value(text[2 * pair + 1]);
        if high.is_none() || low.is_none() {
            proof {
                if high is None {
                    assert(!is_hex_digit(all[2 * pair as int]));
                } else {
                    assert(!is_hex_digit(all[2 * pair + 1]));
                }
                assert(!is_hex_text(all));
            }
            return Err(GoldenError::Hex { text: hex.to_owned() });
        }
        let high = high.unwrap();
        let low = low.unwrap();
        held.push(high * 16 + low);
        pair = pair + 1;
    }
    assert(held@ =~= decoded(all));
    Ok(held)
}

/// The lowercase digit for a value below sixteen.
fn nibble_char(value: u8) -> (shown: char)
    requires
        value < 16,
    ensures
        shown == nibble_digit(value),
{
    if value < 10 {
        (48 + value) as char
    } else {
        (87 + value) as char
    }
}

/// The lowercase hex of some bytes, two digits per byte: the form the goldens
/// hold and a failure prints.
pub fn hex(data: &[u8]) -> (text: String)
    ensures
        text@ == encoded(data@),
{
    let mut held: Vec<char> = Vec::new();
    let mut index: usize = 0;
    while index < data.len()
        invariant
            index <= data@.len(),
            held@.len() == 2 * index,
            forall|at: int| 0 <= at < 2 * index ==> held@[at] == encoded(data@)[at],
        decreases data@.len() - index,
    {
        let byte = data[index];
        held.push(nibble_char(byte / 16));
        held.push(nibble_char(byte % 16));
        index = index + 1;
    }
    assert(held@ =~= encoded(data@));
    string_of(held.as_slice())
}

/// A lowercase digit is a hex digit, and reads back as the value it was
/// written for.
pub proof fn lemma_nibble_reads_back(value: u8)
    requires
        value < 16,
    ensures
        (nibble_digit(value) as u32) < 128,
        is_hex_digit(nibble_digit(value) as u8),
        hex_value(nibble_digit(value) as u8) == value,
{
}

/// What [`hex`] writes, [`bytes`] reads back: the encoding of any bytes is
/// ASCII, its UTF-8 bytes are hex, and they decode to the bytes encoded.
pub proof fn lemma_hex_round_trip(data: Seq<u8>)
    ensures
        is_ascii_chars(encoded(data)),
        is_hex_text(encode_utf8(encoded(data))),
        decoded(encode_utf8(encoded(data))) == data,
{
    let chars = encoded(data);
    assert forall|index: int| 0 <= index < chars.len() implies '\0' <= #[trigger] chars[index]
        <= '\u{7f}' by {
        let byte = data[index / 2];
        if index % 2 == 0 {
            lemma_nibble_reads_back((byte / 16) as u8);
        } else {
            lemma_nibble_reads_back((byte % 16) as u8);
        }
    }
    is_ascii_chars_encode_utf8(chars);
    let utf = encode_utf8(chars);
    assert forall|index: int| 0 <= index < utf.len() implies is_hex_digit(#[trigger] utf[index]) by {
        let byte = data[index / 2];
        assert(chars[index] as u8 == utf[index]);
        if index % 2 == 0 {
            lemma_nibble_reads_back((byte / 16) as u8);
        } else {
            lemma_nibble_reads_back((byte % 16) as u8);
        }
    }
    assert forall|index: int| 0 <= index < data.len() implies #[trigger] decoded(utf)[index]
        == data[index] by {
        let byte = data[index];
        assert(chars[2 * index] as u8 == utf[2 * index]);
        assert(chars[2 * index + 1] as u8 == utf[2 * index + 1]);
        assert((2 * index) / 2 == index);
        assert((2 * index + 1) / 2 == index);
        assert((2 * index) % 2 == 0);
        assert((2 * index + 1) % 2 == 1);
        lemma_nibble_reads_back((byte / 16) as u8);
        lemma_nibble_reads_back((byte % 16) as u8);
        assert(16 * (byte / 16) + byte % 16 == byte);
    }
    assert(decoded(utf) =~= data);
}

} // verus!
