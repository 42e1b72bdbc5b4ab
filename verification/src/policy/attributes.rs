//! No `allow`, `expect` or `cfg(test)` attribute, inner or outer, anywhere
//! under `crates/` and `xtask/`, tests included; a `cfg_attr` that carries
//! either is the same thing behind a predicate. A lint that fires on correct
//! code is either a bug in the code's shape or a lint that is wrong for this
//! codebase, never a waiver at one site; and a `#[cfg(test)]` module would
//! see two copies of every type through the development-dependency cycle, so
//! every test is a file under `tests/`. Which attributes a file carries is a
//! parser's finding; this module judges them.
use vstd::prelude::*;

use crate::policy::{Fault, Violation, faults_of, relative, relative_of, report};
use crate::text::{chars_of, extend_str, string_of};

verus! {

/// The rule a waiver breaks.
pub const WAIVER_RULE: &'static str = "attribute-waiver";

/// The rule a `cfg(test)` breaks.
pub const CFG_TEST_RULE: &'static str = "attribute-cfg-test";

/// One token of an attribute's arguments, as a parser reads it.
#[derive(Debug)]
pub enum Token {
    /// An identifier.
    Ident(String),
    /// A delimited group, with the tokens inside it.
    Group(Vec<Token>),
    /// A literal or a punctuation mark.
    Other,
}

/// Whether a token is, or holds at any depth, an identifier.
pub open spec fn token_mentions(token: Token, wanted: Seq<char>) -> bool
    decreases token, 0int,
{
    match token {
        Token::Ident(name) => name@ == wanted,
        Token::Group(inner) => tokens_mention(inner@, wanted, inner@.len() as int),
        Token::Other => false,
    }
}

/// Whether any of the first tokens of a stream is, or holds at any depth,
/// an identifier.
pub open spec fn tokens_mention(tokens: Seq<Token>, wanted: Seq<char>, count: int) -> bool
    decreases tokens, count,
{
    if count <= 0 || count > tokens.len() {
        false
    } else {
        tokens_mention(tokens, wanted, count - 1) || token_mentions(tokens[count - 1], wanted)
    }
}

/// Whether a token stream mentions an identifier, at any depth.
pub fn mentions(tokens: &Vec<Token>, wanted: &str) -> (found: bool)
    ensures
        found == tokens_mention(tokens@, wanted@, tokens@.len() as int),
    decreases tokens,
{
    let mut index: usize = 0;
    while index < tokens.len()
        invariant
            index <= tokens@.len(),
            !tokens_mention(tokens@, wanted@, index as int),
        decreases tokens@.len() - index,
    {
        let token = &tokens[index];
        let here = match token {
            Token::Ident(name) => crate::text::spells(chars_of(name.as_str()).as_slice(), wanted),
            Token::Group(inner) => {
                assert(decreases_to!(tokens => tokens@[index as int]));
                mentions(inner, wanted)
            },
            Token::Other => false,
        };
        assert(here == token_mentions(tokens@[index as int], wanted@));
        if here {
            proof {
                lemma_mention_grows(tokens@, wanted@, index + 1, tokens@.len() as int);
            }
            return true;
        }
        index = index + 1;
    }
    false
}

/// A stream that mentions an identifier among its first tokens mentions it
/// among more of them.
proof fn lemma_mention_grows(tokens: Seq<Token>, wanted: Seq<char>, count: int, more: int)
    requires
        0 <= count <= more <= tokens.len(),
        tokens_mention(tokens, wanted, count),
    ensures
        tokens_mention(tokens, wanted, more),
    decreases more - count,
{
    if count < more {
        lemma_mention_grows(tokens, wanted, count + 1, more);
    }
}

/// One attribute a parser found: its path when that is one identifier, its
/// argument tokens when it has a list of them, and its line.
#[derive(Debug)]
pub struct Attribute {
    /// The path, when it is one identifier.
    pub name: Option<String>,
    /// The tokens of its argument list, when it has one.
    pub list: Option<Vec<Token>>,
    /// Its line, one-based.
    pub line: usize,
}

/// What one attribute is found to be: each offending form it takes, with
/// the rule it breaks and how it is shown.
pub open spec fn judged_attribute(attribute: Attribute) -> Seq<(Seq<char>, Seq<char>)> {
    match attribute.name {
        None => Seq::empty(),
        Some(name) => if name@ == "allow"@ || name@ == "expect"@ {
            seq![(WAIVER_RULE@, "#["@ + name@ + "]"@)]
        } else if name@ == "cfg"@ || name@ == "cfg_attr"@ {
            match attribute.list {
                None => Seq::empty(),
                Some(tokens) => {
                    let tested = if tokens_mention(tokens@, "test"@, tokens@.len() as int) {
                        seq![(CFG_TEST_RULE@, "#["@ + name@ + "(test)]"@)]
                    } else {
                        Seq::empty()
                    };
                    if name@ == "cfg_attr"@ {
                        let allowed = if tokens_mention(tokens@, "allow"@, tokens@.len() as int) {
                            seq![(WAIVER_RULE@, "#[cfg_attr(..., allow)]"@)]
                        } else {
                            Seq::empty()
                        };
                        let expected = if tokens_mention(tokens@, "expect"@, tokens@.len() as int) {
                            seq![(WAIVER_RULE@, "#[cfg_attr(..., expect)]"@)]
                        } else {
                            Seq::empty()
                        };
                        tested + allowed + expected
                    } else {
                        tested
                    }
                },
            }
        } else {
            Seq::empty()
        },
    }
}

/// What an offending attribute is told, by the rule it breaks.
pub open spec fn attribute_detail(rule: Seq<char>, shown: Seq<char>) -> Seq<char> {
    if rule == WAIVER_RULE@ {
        "`"@ + shown + "` waives a lint at one site; restructure the code or change the rule for everyone"@
    } else {
        "`"@ + shown + "` makes a test module; every test is a file under `tests/`"@
    }
}

/// The offending forms of one attribute, with the rule each breaks and how
/// it is shown.
pub fn judge(attribute: &Attribute) -> (found: Vec<(&'static str, String)>)
    ensures
        found@.map_values(|judged: (&'static str, String)| (judged.0@, judged.1@)) == judged_attribute(*attribute),
{
    proof {
        reveal_strlit("allow");
        reveal_strlit("expect");
        reveal_strlit("cfg");
        reveal_strlit("cfg_attr");
        reveal_strlit("#[");
        reveal_strlit("]");
        reveal_strlit("(test)]");
    }
    let mut found: Vec<(&'static str, String)> = Vec::new();
    let name = match &attribute.name {
        None => {
            assert(found@.map_values(|judged: (&'static str, String)| (judged.0@, judged.1@)) =~= Seq::<(Seq<char>, Seq<char>)>::empty());
            return found;
        },
        Some(name) => name,
    };
    let named = chars_of(name.as_str());
    if crate::text::spells(named.as_slice(), "allow") || crate::text::spells(named.as_slice(), "expect") {
        let mut shown: Vec<char> = Vec::new();
        extend_str(&mut shown, "#[");
        extend_str(&mut shown, name.as_str());
        extend_str(&mut shown, "]");
        found.push((WAIVER_RULE, string_of(shown.as_slice())));
        assert(found@.map_values(|judged: (&'static str, String)| (judged.0@, judged.1@)) =~= judged_attribute(*attribute));
        return found;
    }
    let cfg_attr = crate::text::spells(named.as_slice(), "cfg_attr");
    if !(crate::text::spells(named.as_slice(), "cfg") || cfg_attr) {
        assert(found@.map_values(|judged: (&'static str, String)| (judged.0@, judged.1@)) =~= judged_attribute(*attribute));
        return found;
    }
    let tokens = match &attribute.list {
        None => {
            assert(found@.map_values(|judged: (&'static str, String)| (judged.0@, judged.1@)) =~= judged_attribute(*attribute));
            return found;
        },
        Some(tokens) => tokens,
    };
    if mentions(tokens, "test") {
        let mut shown: Vec<char> = Vec::new();
        extend_str(&mut shown, "#[");
        extend_str(&mut shown, name.as_str());
        extend_str(&mut shown, "(test)]");
        found.push((CFG_TEST_RULE, string_of(shown.as_slice())));
    }
    if cfg_attr {
        if mentions(tokens, "allow") {
            found.push((WAIVER_RULE, "#[cfg_attr(..., allow)]".to_owned()));
        }
        if mentions(tokens, "expect") {
            found.push((WAIVER_RULE, "#[cfg_attr(..., expect)]".to_owned()));
        }
    }
    assert(found@.map_values(|judged: (&'static str, String)| (judged.0@, judged.1@)) =~= judged_attribute(*attribute));
    found
}

/// The attributes a parser found in one source file.
#[derive(Debug)]
pub struct AttributeFile {
    /// The file.
    pub path: String,
    /// Its attributes, inner and outer, in source order.
    pub attributes: Vec<Attribute>,
}

/// The violations one attribute's offending forms make.
pub open spec fn attribute_faults(path: Seq<char>, line: usize, judged: Seq<(Seq<char>, Seq<char>)>) -> Seq<Fault> {
    judged.map_values(|form: (Seq<char>, Seq<char>)| (path, Some(line), form.0, attribute_detail(form.0, form.1)))
}

/// What the first attributes of one file are found wanting in.
pub open spec fn file_faults(root: Seq<char>, file: AttributeFile, count: int) -> Seq<Fault>
    decreases count,
{
    if count <= 0 {
        Seq::empty()
    } else {
        let attribute = file.attributes@[count - 1];
        file_faults(root, file, count - 1) + attribute_faults(relative_of(root, file.path@), attribute.line, judged_attribute(attribute))
    }
}

/// What the first files are found wanting in.
pub open spec fn files_faults(root: Seq<char>, files: Seq<AttributeFile>, count: int) -> Seq<Fault>
    decreases count,
{
    if count <= 0 {
        Seq::empty()
    } else {
        files_faults(root, files, count - 1) + file_faults(root, files[count - 1], files[count - 1].attributes@.len() as int)
    }
}

/// The attributes check over what a parser found in the Rust files of a
/// tree.
pub fn check(root: &str, files: &[AttributeFile]) -> (found: Vec<Violation>)
    ensures
        faults_of(found@) == files_faults(root@, files@, files@.len() as int),
{
    proof {
        reveal_strlit("`");
        reveal_strlit("` waives a lint at one site; restructure the code or change the rule for everyone");
        reveal_strlit("` makes a test module; every test is a file under `tests/`");
    }
    let mut found: Vec<Violation> = Vec::new();
    assert(faults_of(found@) =~= Seq::<Fault>::empty());
    let mut index: usize = 0;
    while index < files.len()
        invariant
            index <= files@.len(),
            faults_of(found@) == files_faults(root@, files@, index as int),
        decreases files@.len() - index,
    {
        let file = &files[index];
        let reported = relative(root, file.path.as_str());
        let ghost start = faults_of(found@);
        let mut at: usize = 0;
        while at < file.attributes.len()
            invariant
                at <= file.attributes@.len(),
                reported@ == relative_of(root@, file.path@),
                faults_of(found@) == start + file_faults(root@, *file, at as int),
            decreases file.attributes@.len() - at,
        {
            let attribute = &file.attributes[at];
            let judged = judge(attribute);
            let ghost forms = judged@.map_values(|judged: (&'static str, String)| (judged.0@, judged.1@));
            let ghost before = faults_of(found@);
            let mut form: usize = 0;
            while form < judged.len()
                invariant
                    form <= judged@.len(),
                    forms == judged@.map_values(|judged: (&'static str, String)| (judged.0@, judged.1@)),
                    faults_of(found@) == before + attribute_faults(reported@, attribute.line, forms.subrange(0, form as int)),
                decreases judged@.len() - form,
            {
                let (rule, shown) = &judged[form];
                let mut detail: Vec<char> = Vec::new();
                extend_str(&mut detail, "`");
                extend_str(&mut detail, shown.as_str());
                if crate::text::spells(chars_of(*rule).as_slice(), WAIVER_RULE) {
                    extend_str(&mut detail, "` waives a lint at one site; restructure the code or change the rule for everyone");
                } else {
                    extend_str(&mut detail, "` makes a test module; every test is a file under `tests/`");
                }
                report(&mut found, Violation {
                    path: reported.clone(),
                    line: Some(attribute.line),
                    rule: *rule,
                    detail: string_of(detail.as_slice()),
                });
                assert(forms[form as int] == (rule@, shown@));
                assert(attribute_faults(reported@, attribute.line, forms.subrange(0, form + 1)) =~= attribute_faults(reported@, attribute.line, forms.subrange(0, form as int)).push(
                    (reported@, Some(attribute.line), rule@, attribute_detail(rule@, shown@))));
                form = form + 1;
            }
            assert(forms.subrange(0, forms.len() as int) =~= forms);
            at = at + 1;
        }
        index = index + 1;
    }
    found
}

} // verus!
