//! The C header a native application is built against, read the way a C
//! programmer reads it: cbindgen's text with Rust's documentation links
//! flattened to the names the header gives them and `# Safety` written as a
//! sentence. Running cbindgen over the crate is the caller's.
use vstd::prelude::*;

use crate::text::{
    chars_of, extend, extend_str, find, find_part, lemma_find, replace_all, replaced, slice_of,
    string_of, views_of,
};

verus! {

/// Where the generated header is kept, relative to the repository root.
pub const HEADER_PATH: &'static str = "include/iznik.h";

/// The crate it is generated from, relative to the repository root.
pub const FFI_CRATE: &'static str = "crates/iznik-ffi";

/// The configuration that shapes it, relative to the repository root.
pub const CONFIGURATION: &'static str = "cbindgen.toml";

/// Why a header could not be produced or written.
#[derive(Debug)]
pub enum HeaderError {
    /// The configuration could not be read.
    Configuration {
        /// The file it was read from.
        path: String,
        /// What was wrong with it.
        detail: String,
    },
    /// The crate could not be turned into a header.
    Generate {
        /// What cbindgen said.
        detail: String,
    },
    /// The header could not be written where it belongs.
    Write {
        /// The file it was to be written to.
        path: String,
        /// What the operating system said.
        detail: String,
    },
}

impl HeaderError {
    /// What went wrong, and where.
    pub fn message(&self) -> (said: String)
        ensures
            said@ == (match self {
                HeaderError::Configuration { path, detail } => path@ + ": "@ + detail@,
                HeaderError::Generate { detail } => "the header: "@ + detail@,
                HeaderError::Write { path, detail } => path@ + ": "@ + detail@,
            }),
    {
        let mut held: Vec<char> = Vec::new();
        match self {
            HeaderError::Configuration { path, detail } => {
                extend_str(&mut held, path.as_str());
                extend_str(&mut held, ": ");
                extend_str(&mut held, detail.as_str());
            },
            HeaderError::Generate { detail } => {
                extend_str(&mut held, "the header: ");
                extend_str(&mut held, detail.as_str());
            },
            HeaderError::Write { path, detail } => {
                extend_str(&mut held, path.as_str());
                extend_str(&mut held, ": ");
                extend_str(&mut held, detail.as_str());
            },
        }
        string_of(held.as_slice())
    }
}

/// What a Rust name is called in the header: the first rename of it, or the
/// name itself when there is none.
pub open spec fn called(names: Seq<(Seq<char>, Seq<char>)>, linked: Seq<char>) -> Seq<char>
    decreases names.len(),
{
    if names.len() == 0 {
        linked
    } else if names[0].0 == linked {
        names[0].1
    } else {
        called(names.drop_first(), linked)
    }
}

/// Whether no two renames share a Rust name.
pub open spec fn distinct_names(names: Seq<(Seq<char>, Seq<char>)>) -> bool {
    forall|earlier: int, later: int|
        0 <= earlier < later < names.len() ==> #[trigger] names[earlier].0 != #[trigger] names[later].0
}

/// A Rust name with a rename in a table whose Rust names are all different
/// is called by that rename, wherever in the table it stands; a name the
/// table does not rename keeps its own.
pub proof fn lemma_called_looks_up(names: Seq<(Seq<char>, Seq<char>)>, linked: Seq<char>, renamed: Seq<char>)
    ensures
        distinct_names(names) && names.contains((linked, renamed)) ==> called(names, linked) == renamed,
        (forall|index: int| 0 <= index < names.len() ==> #[trigger] names[index].0 != linked) ==> called(names, linked)
            == linked,
    decreases names.len(),
{
    if names.len() > 0 {
        let rest = names.drop_first();
        lemma_called_looks_up(rest, linked, renamed);
        if distinct_names(names) && names.contains((linked, renamed)) {
            let at = choose|at: int| 0 <= at < names.len() && names[at] == (linked, renamed);
            if at > 0 {
                assert(names[0].0 != names[at].0);
                assert(rest[at - 1] == (linked, renamed));
                assert(distinct_names(rest)) by {
                    assert forall|earlier: int, later: int| 0 <= earlier < later < rest.len() implies #[trigger] rest[earlier].0
                        != #[trigger] rest[later].0 by {
                        assert(rest[earlier] == names[earlier + 1] && rest[later] == names[later + 1]);
                    }
                }
            }
        }
        if forall|index: int| 0 <= index < names.len() ==> #[trigger] names[index].0 != linked {
            assert(names[0].0 != linked);
            assert forall|index: int| 0 <= index < rest.len() implies #[trigger] rest[index].0 != linked by {
                assert(rest[index] == names[index + 1]);
            }
        }
    }
}

/// A documentation link to a name with no backtick in it is written as
/// the name the table calls it, between backticks, and what follows the
/// link is flattened in turn.
pub proof fn lemma_link_flattened(linked: Seq<char>, rest: Seq<char>, names: Seq<(Seq<char>, Seq<char>)>)
    requires
        forall|index: int| 0 <= index < linked.len() ==> #[trigger] linked[index] != '`',
    ensures
        flattened("[`"@ + linked + "`]"@ + rest, names) == "`"@ + called(names, linked) + "`"@ + flattened(rest, names),
{
    reveal_strlit("[`");
    reveal_strlit("`]");
    let text = "[`"@ + linked + "`]"@ + rest;
    assert(text.subrange(0, 2) =~= "[`"@);
    assert(find(text, "[`"@) == 0);
    let inside = text.subrange(2, text.len() as int);
    assert(inside =~= linked + "`]"@ + rest);
    let length = linked.len() as int;
    crate::text::lemma_find(inside, "`]"@);
    assert(inside.subrange(length, inside.len() as int).subrange(0, 2) =~= "`]"@);
    let end = find(inside, "`]"@);
    assert(end == length) by {
        if end < 0 || end > length {
            assert(crate::text::starts_with(inside.subrange(length, inside.len() as int), "`]"@));
        } else if end < length {
            assert(inside.subrange(end, end + 2)[0] == inside[end]);
            assert(inside[end] == linked[end]);
        }
    }
    assert(inside.subrange(0, end) =~= linked);
    assert(inside.subrange(end + 2, inside.len() as int) =~= rest);
    assert(text.subrange(0, 0) =~= Seq::<char>::empty());
    assert(flattened(text, names) == text.subrange(0, 0) + "`"@ + called(names, inside.subrange(0, end)) + "`"@
        + flattened(inside.subrange(end + 2, inside.len() as int), names));
    assert(flattened(text, names) =~= "`"@ + called(names, linked) + "`"@ + flattened(rest, names));
}

/// The renames as text.
pub open spec fn rename_views(names: Seq<(String, String)>) -> Seq<(Seq<char>, Seq<char>)> {
    names.map_values(|pair: (String, String)| (pair.0@, pair.1@))
}

/// A header's text with every documentation link `` [`Name`] `` flattened
/// to `` `called` ``, an opening with nothing closing it left as it came.
pub open spec fn flattened(left: Seq<char>, names: Seq<(Seq<char>, Seq<char>)>) -> Seq<char>
    decreases left.len(),
{
    let at = find(left, "[`"@);
    if at < 0 || at + 2 > left.len() {
        left
    } else {
        let inside = left.subrange(at + 2, left.len() as int);
        let end = find(inside, "`]"@);
        if end < 0 || end + 2 > inside.len() {
            left
        } else {
            left.subrange(0, at) + "`"@ + called(names, inside.subrange(0, end)) + "`"@ + flattened(
                inside.subrange(end + 2, inside.len() as int),
                names,
            )
        }
    }
}

/// The header as a C programmer reads it: links flattened, and `# Safety`
/// headings written as a sentence.
pub open spec fn readable_text(header: Seq<char>, names: Seq<(Seq<char>, Seq<char>)>) -> Seq<char> {
    replace_all(flattened(header, names), " * # Safety"@, " * Safety:"@)
}

/// What a Rust name is called in the header.
fn name_called(names: &[(String, String)], linked: &[char]) -> (said: Vec<char>)
    ensures
        said@ == called(rename_views(names@), linked@),
{
    let ghost every = rename_views(names@);
    let mut index: usize = 0;
    assert(every.subrange(0, every.len() as int) =~= every);
    while index < names.len()
        invariant
            index <= names@.len(),
            every == rename_views(names@),
            called(every, linked@) == called(every.subrange(index as int, every.len() as int), linked@),
        decreases names@.len() - index,
    {
        let ghost rest = every.subrange(index as int, every.len() as int);
        assert(rest.drop_first() =~= every.subrange(index + 1, every.len() as int));
        if crate::text::same_chars(chars_of(names[index].0.as_str()).as_slice(), linked) {
            return chars_of(names[index].1.as_str());
        }
        index = index + 1;
    }
    assert(every.subrange(index as int, every.len() as int) =~= Seq::<(Seq<char>, Seq<char>)>::empty());
    slice_of(linked, 0, linked.len())
}

/// The header cbindgen made, read the way a C programmer will read it, with
/// the names the configuration renames Rust names to.
pub fn readable(header: &str, names: &[(String, String)]) -> (said: String)
    ensures
        said@ == readable_text(header@, rename_views(names@)),
{
    proof {
        reveal_strlit("[`");
        reveal_strlit("`]");
    }
    let ghost table = rename_views(names@);
    let opening = chars_of("[`");
    let closing = chars_of("`]");
    let mut written: Vec<char> = Vec::new();
    let mut left = chars_of(header);
    loop
        invariant
            opening@ == "[`"@,
            closing@ == "`]"@,
            table == rename_views(names@),
            flattened(header@, table) == written@ + flattened(left@, table),
        ensures
            flattened(header@, table) == written@ + left@,
        decreases left@.len(),
    {
        proof {
            lemma_find(left@, opening@);
            reveal_strlit("[`");
            reveal_strlit("`]");
        }
        let at = match find_part(left.as_slice(), opening.as_slice()) {
            None => {
                assert(flattened(left@, table) == left@);
                break;
            },
            Some(at) => at,
        };
        let inside = slice_of(left.as_slice(), at + 2, left.len());
        proof {
            lemma_find(inside@, closing@);
        }
        let end = match find_part(inside.as_slice(), closing.as_slice()) {
            None => {
                assert(flattened(left@, table) == left@);
                break;
            },
            Some(end) => end,
        };
        let ghost before = written@;
        extend(&mut written, slice_of(left.as_slice(), 0, at).as_slice());
        written.push('`');
        extend(&mut written, name_called(names, slice_of(inside.as_slice(), 0, end).as_slice()).as_slice());
        written.push('`');
        let next = slice_of(inside.as_slice(), end + 2, inside.len());
        proof {
            reveal_strlit("`");
            assert(written@ =~= before + (left@.subrange(0, at as int) + "`"@ + called(table, inside@.subrange(0, end as int)) + "`"@));
        }
        left = next;
    }
    extend(&mut written, left.as_slice());
    proof {
        reveal_strlit(" * # Safety");
    }
    let whole = replaced(written.as_slice(), chars_of(" * # Safety").as_slice(), chars_of(" * Safety:").as_slice());
    string_of(whole.as_slice())
}


/// What `toml` makes of a cbindgen configuration: every entry of its
/// `export.rename` table in the table's order, with the string it holds when
/// it holds one; no entries when there is no such table; or what the parser
/// said.
pub uninterp spec fn toml_renames(text: Seq<char>) -> Result<Seq<(Seq<char>, Option<Seq<char>>)>, Seq<char>>;

/// The entries of a cbindgen configuration's `export.rename` table.
///
/// Parses the text with `toml::from_str` into a `toml::Value`, takes the
/// table at `export.rename` with `get` and `as_table`, and gives each entry
/// as its key and `as_str` of its value; on a parse error, the error's
/// `Display` text. Its contract says only that the answer is `toml`'s for
/// this text.
#[verifier::external_body]
fn rename_entries(text: &str) -> (entries: Result<Vec<(String, Option<String>)>, String>)
    ensures
        match toml_renames(text@) {
            Ok(found) => entries matches Ok(held) && held@.map_values(|entry: (String, Option<String>)| (entry.0@, match entry.1 {
                Some(named) => Some(named@),
                None => None,
            })) == found,
            Err(said) => entries matches Err(held) && held@ == said,
        },
{
    let held: toml::Value = toml::from_str(text).map_err(|error| error.to_string())?;
    let table = held.get("export").and_then(|export| export.get("rename")).and_then(toml::Value::as_table);
    Ok(match table {
        Some(table) => table.iter().map(|(rust, named)| (rust.clone(), named.as_str().map(str::to_owned))).collect(),
        None => Vec::new(),
    })
}

/// The renames a configuration's entries make: those that hold a string, in
/// order.
pub open spec fn string_entries(entries: Seq<(Seq<char>, Option<Seq<char>>)>) -> Seq<(Seq<char>, Seq<char>)>
    decreases entries.len(),
{
    if entries.len() == 0 {
        Seq::empty()
    } else {
        match entries.last().1 {
            Some(named) => string_entries(entries.drop_last()).push((entries.last().0, named)),
            None => string_entries(entries.drop_last()),
        }
    }
}

/// What each Rust name is called in the header, read from the configuration
/// at `path` with the text given: the string entries of its `export.rename`
/// table.
///
/// [`HeaderError::Configuration`] when the text does not parse.
pub fn renames(path: &str, text: &str) -> (names: Result<Vec<(String, String)>, HeaderError>)
    ensures
        match toml_renames(text@) {
            Ok(found) => names matches Ok(held) && rename_views(held@) == string_entries(found),
            Err(said) => names matches Err(HeaderError::Configuration { path: named, detail }) && named@ == path@
                && detail@ == said,
        },
{
    let entries = match rename_entries(text) {
        Ok(entries) => entries,
        Err(said) => {
            return Err(HeaderError::Configuration { path: path.to_owned(), detail: said });
        },
    };
    let ghost every = entries@.map_values(|entry: (String, Option<String>)| (entry.0@, match entry.1 {
        Some(named) => Some(named@),
        None => None,
    }));
    let mut names: Vec<(String, String)> = Vec::new();
    let mut index: usize = 0;
    while index < entries.len()
        invariant
            index <= entries@.len(),
            every == entries@.map_values(|entry: (String, Option<String>)| (entry.0@, match entry.1 {
                Some(named) => Some(named@),
                None => None,
            })),
            rename_views(names@) == string_entries(every.subrange(0, index as int)),
        decreases entries@.len() - index,
    {
        assert(every.subrange(0, index + 1).drop_last() =~= every.subrange(0, index as int));
        match &entries[index].1 {
            Some(named) => {
                let ghost before = names@;
                names.push((entries[index].0.clone(), named.clone()));
                assert(rename_views(names@) =~= rename_views(before).push((entries@[index as int].0@, named@)));
            },
            None => {},
        }
        index = index + 1;
    }
    assert(every.subrange(0, every.len() as int) =~= every);
    Ok(names)
}

} // verus!
