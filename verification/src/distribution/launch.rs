//! Which servers `cargo app` builds before it starts the application: every
//! `--target` named, or every Linux server when none is — a host is whatever
//! it is, and a server for the wrong architecture is one the application
//! refuses to install.
use vstd::prelude::*;

use crate::distribution::linux::{linux_targets, targets};
use crate::gate::texts_of;
use crate::text::{chars_of, spells, views_of};

verus! {

/// The flag naming a server to build, repeatable.
pub const TARGET_FLAG: &'static str = "--target";

/// The usage line, shared by the refusal and `--help`.
pub const USAGE_LINE: &'static str = "usage: cargo app [--target <triple>]...";

/// The variable that tells cargo which target directory to use.
pub const TARGET_DIRECTORY_VARIABLE: &'static str = "CARGO_TARGET_DIR";

/// The servers built when no `--target` is given: every Linux architecture
/// this distributes, in a fixed order.
pub fn default_servers() -> (servers: Vec<String>)
    ensures
        views_of(servers@) == linux_targets(),
{
    let triples = targets();
    let mut servers: Vec<String> = Vec::new();
    let mut index: usize = 0;
    while index < triples.len()
        invariant
            index <= triples@.len(),
            texts_of(triples@) == linux_targets(),
            views_of(servers@) == texts_of(triples@).subrange(0, index as int),
        decreases triples@.len() - index,
    {
        let ghost before = servers@;
        servers.push(triples[index].to_owned());
        assert(views_of(servers@) =~= views_of(before).push(triples@[index as int]@));
        assert(texts_of(triples@).subrange(0, index + 1) =~= texts_of(triples@).subrange(0, index as int).push(triples@[index as int]@));
        index = index + 1;
    }
    assert(texts_of(triples@).subrange(0, triples@.len() as int) =~= texts_of(triples@));
    servers
}

/// The servers a command line asks for, after its subcommand: each pair of
/// `--target` and a triple; nothing when anything else stands there.
pub open spec fn servers_named(arguments: Seq<Seq<char>>) -> Option<Seq<Seq<char>>>
    decreases arguments.len(),
{
    if arguments.len() == 0 {
        Some(Seq::empty())
    } else if arguments[0] != TARGET_FLAG@ || arguments.len() < 2 {
        None
    } else {
        match servers_named(arguments.subrange(2, arguments.len() as int)) {
            None => None,
            Some(rest) => Some(seq![arguments[1]] + rest),
        }
    }
}

/// The servers asked for: every `--target`, or every Linux server when none
/// is given; nothing when the arguments after the subcommand are not
/// understood.
pub fn servers(arguments: &[String]) -> (asked: Option<Vec<String>>)
    ensures
        arguments@.len() == 0 ==> (asked matches Some(found) && views_of(found@) == linux_targets()),
        arguments@.len() > 0 ==> match servers_named(views_of(arguments@).drop_first()) {
            None => asked is None,
            Some(named) => asked matches Some(found) && views_of(found@) == (if named.len() == 0 {
                linux_targets()
            } else {
                named
            }),
        },
{
    if arguments.len() == 0 {
        return Some(default_servers());
    }
    let ghost every = views_of(arguments@).drop_first();
    let mut wanted: Vec<String> = Vec::new();
    let mut index: usize = 1;
    assert(every.subrange(0, every.len() as int) =~= every);
    while index < arguments.len()
        invariant
            1 <= index <= arguments@.len(),
            every == views_of(arguments@).drop_first(),
            servers_named(every) == match servers_named(every.subrange(index - 1, every.len() as int)) {
                None => None,
                Some(rest) => Some(views_of(wanted@) + rest),
            },
        decreases arguments@.len() - index,
    {
        let ghost rest = every.subrange(index - 1, every.len() as int);
        assert(rest[0] == arguments@[index as int]@);
        if !spells(chars_of(arguments[index].as_str()).as_slice(), TARGET_FLAG) || index + 1 >= arguments.len() {
            return None;
        }
        assert(rest[1] == arguments@[index + 1]@);
        assert(rest.subrange(2, rest.len() as int) =~= every.subrange(index + 1, every.len() as int));
        let ghost before = wanted@;
        wanted.push(arguments[index + 1].clone());
        assert(views_of(wanted@) =~= views_of(before).push(arguments@[index + 1]@));
        proof {
            match servers_named(every.subrange(index + 1, every.len() as int)) {
                None => {},
                Some(later) => {
                    assert(views_of(before) + (seq![rest[1]] + later) =~= views_of(wanted@) + later);
                },
            }
        }
        index = index + 2;
    }
    proof {
        assert(every.subrange(index - 1, every.len() as int) =~= Seq::<Seq<char>>::empty());
        assert(views_of(wanted@) + Seq::<Seq<char>>::empty() =~= views_of(wanted@));
    }
    if wanted.len() == 0 {
        return Some(default_servers());
    }
    Some(wanted)
}

} // verus!
