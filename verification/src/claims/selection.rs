//! Which tasks a run verifies: explicit ids, every task with a claims file,
//! or what the current branch's diff selects under the rule that gives the
//! registry its teeth — a branch that changes product or tooling code while
//! changing no claims file, where a registry exists, is refused. Asking
//! `git` and the file system is the caller's; what the answers select is
//! here.
use vstd::prelude::*;

use crate::text::{
    chars_of, ends_with, extend, extend_str, find_char, first_index, insert_sorted, lemma_first_index,
    lines, lines_of, slice_of, starts_with, strictly_sorted, string_of, trim, trimmed, views_of,
    begins_with, finishes_with,
};

verus! {

/// The branch every task's merge base is taken against.
pub const TRUNK: &'static str = "develop";

/// The prefix of a claims file's path, under the repository root.
pub const CLAIMS_PREFIX: &'static str = "regression/claims/";

/// Which tasks to verify.
#[derive(Clone, Debug)]
pub enum Selection {
    /// Exactly these task ids.
    Tasks(Vec<String>),
    /// Every task that has a claims file.
    Everything,
    /// The tasks whose claims files the branch changed, under the
    /// product-code rule.
    CurrentBranch,
}

/// Why a selection could not be made.
#[derive(Debug)]
pub enum SelectionError {
    /// A `git` query failed.
    Git {
        /// What went wrong.
        detail: String,
    },
    /// The branch changes product or tooling code but declares no claims.
    ProductCodeWithoutClaims {
        /// The product-or-tooling paths the diff touched.
        paths: Vec<String>,
    },
}

/// Texts joined with a separator between each two.
pub open spec fn joined_with(texts: Seq<Seq<char>>, separator: Seq<char>) -> Seq<char>
    decreases texts.len(),
{
    if texts.len() == 0 {
        Seq::empty()
    } else if texts.len() == 1 {
        texts[0]
    } else {
        joined_with(texts.drop_last(), separator) + separator + texts.last()
    }
}

/// Strings joined with a separator between each two.
pub fn join(texts: &[String], separator: &str) -> (joined: Vec<char>)
    ensures
        joined@ == joined_with(views_of(texts@), separator@),
{
    let ghost every = views_of(texts@);
    let mut joined: Vec<char> = Vec::new();
    let mut index: usize = 0;
    while index < texts.len()
        invariant
            index <= texts@.len(),
            every == views_of(texts@),
            joined@ == joined_with(every.subrange(0, index as int), separator@),
        decreases texts@.len() - index,
    {
        assert(every.subrange(0, index + 1).drop_last() =~= every.subrange(0, index as int));
        if index > 0 {
            extend_str(&mut joined, separator);
        } else {
            assert(every.subrange(0, 1) =~= seq![every[0]]);
        }
        extend_str(&mut joined, texts[index].as_str());
        index = index + 1;
    }
    assert(every.subrange(0, every.len() as int) =~= every);
    joined
}

/// What a selection error says.
pub open spec fn selection_message(error: SelectionError) -> Seq<char> {
    match error {
        SelectionError::Git { detail } => "git: "@ + detail@,
        SelectionError::ProductCodeWithoutClaims { paths } => "the branch changes code but declares no claims: "@
            + joined_with(views_of(paths@), ", "@),
    }
}

impl SelectionError {
    /// What went wrong, in words.
    pub fn message(&self) -> (said: String)
        ensures
            said@ == selection_message(*self),
    {
        let mut held: Vec<char> = Vec::new();
        match self {
            SelectionError::Git { detail } => {
                extend_str(&mut held, "git: ");
                extend_str(&mut held, detail.as_str());
            },
            SelectionError::ProductCodeWithoutClaims { paths } => {
                extend_str(&mut held, "the branch changes code but declares no claims: ");
                let listed = join(paths.as_slice(), ", ");
                extend(&mut held, listed.as_slice());
            },
        }
        string_of(held.as_slice())
    }
}

/// The task a claims-file path names: what lies between the claims prefix
/// and `.toml`, when that holds no slash.
pub open spec fn claims_task(path: Seq<char>) -> Option<Seq<char>> {
    if starts_with(path, CLAIMS_PREFIX@) && ends_with(
        path.subrange(CLAIMS_PREFIX@.len() as int, path.len() as int),
        ".toml"@,
    ) {
        let task = path.subrange(CLAIMS_PREFIX@.len() as int, path.len() - 5);
        if first_index(task, '/') < 0 {
            Some(task)
        } else {
            None
        }
    } else {
        None
    }
}

/// The task a claims-file path names, if the path is a claims file.
pub fn claims_file_task(path: &str) -> (task: Option<String>)
    ensures
        match claims_task(path@) {
            None => task is None,
            Some(named) => task matches Some(held) && held@ == named,
        },
{
    proof {
        reveal_strlit("regression/claims/");
        reveal_strlit(".toml");
    }
    let characters = chars_of(path);
    let prefix = chars_of(CLAIMS_PREFIX);
    if !begins_with(characters.as_slice(), prefix.as_slice()) {
        return None;
    }
    let rest = slice_of(characters.as_slice(), prefix.len(), characters.len());
    let suffix = chars_of(".toml");
    if !finishes_with(rest.as_slice(), suffix.as_slice()) {
        return None;
    }
    let task = slice_of(rest.as_slice(), 0, rest.len() - suffix.len());
    assert(task@ =~= path@.subrange(CLAIMS_PREFIX@.len() as int, path@.len() - 5));
    proof {
        lemma_first_index(task@, '/');
    }
    match find_char(task.as_slice(), '/') {
        Some(_) => None,
        None => Some(string_of(task.as_slice())),
    }
}

/// Whether a path is product or tooling code: under a crate's `src/` or
/// `benches/`, or under `xtask/src/`.
pub open spec fn product_code(path: Seq<char>) -> bool {
    if starts_with(path, "crates/"@) {
        let rest = path.subrange(7, path.len() as int);
        let slash = first_index(rest, '/');
        slash >= 0 && ({
            let tail = rest.subrange(slash + 1, rest.len() as int);
            starts_with(tail, "src/"@) || starts_with(tail, "benches/"@)
        })
    } else {
        starts_with(path, "xtask/src/"@)
    }
}

/// Whether a path is product or tooling code.
pub fn is_product_code(path: &str) -> (product: bool)
    ensures
        product == product_code(path@),
{
    proof {
        reveal_strlit("crates/");
        reveal_strlit("src/");
        reveal_strlit("benches/");
        reveal_strlit("xtask/src/");
    }
    let characters = chars_of(path);
    let crates = chars_of("crates/");
    if begins_with(characters.as_slice(), crates.as_slice()) {
        let rest = slice_of(characters.as_slice(), 7, characters.len());
        proof {
            lemma_first_index(rest@, '/');
        }
        return match find_char(rest.as_slice(), '/') {
            None => false,
            Some(slash) => {
                let tail = slice_of(rest.as_slice(), slash + 1, rest.len());
                begins_with(tail.as_slice(), chars_of("src/").as_slice()) || begins_with(
                    tail.as_slice(),
                    chars_of("benches/").as_slice(),
                )
            },
        };
    }
    begins_with(characters.as_slice(), chars_of("xtask/src/").as_slice())
}

/// A sorted, unique copy of a list of task ids.
pub fn sorted_unique(tasks: Vec<String>) -> (ordered: Vec<String>)
    ensures
        strictly_sorted(views_of(ordered@)),
        views_of(ordered@).to_set() == views_of(tasks@).to_set(),
{
    let mut ordered: Vec<String> = Vec::new();
    let mut index: usize = 0;
    while index < tasks.len()
        invariant
            index <= tasks@.len(),
            strictly_sorted(views_of(ordered@)),
            views_of(ordered@).to_set() == views_of(tasks@.subrange(0, index as int)).to_set(),
        decreases tasks@.len() - index,
    {
        let ghost before = views_of(tasks@.subrange(0, index as int));
        insert_sorted(&mut ordered, tasks[index].clone());
        assert(views_of(tasks@.subrange(0, index + 1)) =~= before.push(tasks@[index as int]@));
        proof {
            before.lemma_push_to_set_commute(tasks@[index as int]@);
        }
        index = index + 1;
    }
    assert(tasks@.subrange(0, tasks@.len() as int) =~= tasks@);
    ordered
}


/// The paths a diff's name list holds: its lines, trimmed, the empty ones
/// left out.
pub open spec fn changed_paths(said: Seq<Seq<char>>) -> Seq<Seq<char>>
    decreases said.len(),
{
    if said.len() == 0 {
        Seq::empty()
    } else {
        let rest = changed_paths(said.drop_last());
        if trim(said.last()).len() == 0 {
            rest
        } else {
            rest.push(trim(said.last()))
        }
    }
}

/// The tasks whose claims files some paths are, in order.
pub open spec fn claims_tasks(paths: Seq<Seq<char>>) -> Seq<Seq<char>>
    decreases paths.len(),
{
    if paths.len() == 0 {
        Seq::empty()
    } else {
        match claims_task(paths.last()) {
            Some(task) => claims_tasks(paths.drop_last()).push(task),
            None => claims_tasks(paths.drop_last()),
        }
    }
}

/// The paths that are product or tooling code, in order.
pub open spec fn product_paths(paths: Seq<Seq<char>>) -> Seq<Seq<char>>
    decreases paths.len(),
{
    if paths.len() == 0 {
        Seq::empty()
    } else if product_code(paths.last()) {
        product_paths(paths.drop_last()).push(paths.last())
    } else {
        product_paths(paths.drop_last())
    }
}

/// The tasks a branch's diff selects, from the names `git diff --name-only`
/// printed and whether a registry exists: the tasks whose claims files it
/// changed; or, when a registry exists and the diff touches product or
/// tooling code but no claims file, the refusal naming that code.
pub fn branch_tasks(changed: &str, registry_exists: bool) -> (tasks: Result<Vec<String>, SelectionError>)
    ensures
        ({
            let paths = changed_paths(lines(changed@));
            let named = claims_tasks(paths);
            let product = product_paths(paths);
            if registry_exists && product.len() > 0 && named.len() == 0 {
                tasks matches Err(SelectionError::ProductCodeWithoutClaims { paths: listed }) && views_of(listed@) == product
            } else {
                tasks matches Ok(found) && views_of(found@) == named
            }
        }),
{
    let every = lines_of(chars_of(changed).as_slice());
    let ghost all = lines(changed@);
    let mut named: Vec<String> = Vec::new();
    let mut product: Vec<String> = Vec::new();
    let mut index: usize = 0;
    while index < every.len()
        invariant
            index <= every@.len(),
            every@.len() == all.len(),
            all == lines(changed@),
            forall|at: int| 0 <= at < every@.len() ==> #[trigger] every@[at]@ == all[at],
            views_of(named@) == claims_tasks(changed_paths(all.subrange(0, index as int))),
            views_of(product@) == product_paths(changed_paths(all.subrange(0, index as int))),
        decreases every@.len() - index,
    {
        let ghost before = all.subrange(0, index as int);
        assert(all.subrange(0, index + 1).drop_last() =~= before);
        assert(all.subrange(0, index + 1).last() == every@[index as int]@);
        let path = trimmed(every[index].as_slice());
        if path.len() > 0 {
            let text = string_of(path.as_slice());
            let ghost paths = changed_paths(before);
            assert(changed_paths(all.subrange(0, index + 1)) == paths.push(path@));
            assert(paths.push(path@).drop_last() =~= paths);
            match claims_file_task(text.as_str()) {
                Some(task) => {
                    let ghost kept = named@;
                    named.push(task);
                    assert(views_of(named@) =~= views_of(kept).push(views_of(named@).last()));
                },
                None => {},
            }
            if is_product_code(text.as_str()) {
                let ghost kept = product@;
                product.push(text);
                assert(views_of(product@) =~= views_of(kept).push(path@));
            }
        }
        index = index + 1;
    }
    assert(all.subrange(0, all.len() as int) =~= all);
    if registry_exists && product.len() > 0 && named.len() == 0 {
        return Err(SelectionError::ProductCodeWithoutClaims { paths: product });
    }
    Ok(named)
}

/// A copy of some strings.
fn copied_all(texts: &[String]) -> (copy: Vec<String>)
    ensures
        copy@ == texts@,
{
    let mut copy: Vec<String> = Vec::new();
    let mut index: usize = 0;
    while index < texts.len()
        invariant
            index <= texts@.len(),
            copy@ == texts@.subrange(0, index as int),
        decreases texts@.len() - index,
    {
        copy.push(texts[index].clone());
        assert(copy@ =~= texts@.subrange(0, index + 1));
        index = index + 1;
    }
    assert(texts@.subrange(0, texts@.len() as int) =~= texts@);
    copy
}

/// Whether two selection errors say the same thing about the same things.
pub open spec fn same_error(left: SelectionError, right: SelectionError) -> bool {
    match (left, right) {
        (SelectionError::Git { detail: a }, SelectionError::Git { detail: b }) => a == b,
        (
            SelectionError::ProductCodeWithoutClaims { paths: a },
            SelectionError::ProductCodeWithoutClaims { paths: b },
        ) => a@ == b@,
        _ => false,
    }
}

impl SelectionError {
    /// A copy of this error.
    pub fn copied(&self) -> (copy: SelectionError)
        ensures
            same_error(copy, *self),
    {
        match self {
            SelectionError::Git { detail } => SelectionError::Git { detail: detail.clone() },
            SelectionError::ProductCodeWithoutClaims { paths } => SelectionError::ProductCodeWithoutClaims {
                paths: copied_all(paths.as_slice()),
            },
        }
    }
}

/// The task ids a selection resolves to, sorted and unique: the ids it
/// names; those of every task with a claims file, as the caller listed them;
/// or what the current branch selected, as [`branch_tasks`] read it.
pub fn select(
    selection: &Selection,
    with_claims_file: &[String],
    branch: &Result<Vec<String>, SelectionError>,
) -> (tasks: Result<Vec<String>, SelectionError>)
    ensures
        match selection {
            Selection::Tasks(ids) => tasks matches Ok(found) && views_of(found@).to_set() == views_of(ids@).to_set()
                && strictly_sorted(views_of(found@)),
            Selection::Everything => tasks matches Ok(found) && views_of(found@).to_set() == views_of(with_claims_file@).to_set()
                && strictly_sorted(views_of(found@)),
            Selection::CurrentBranch => match branch {
                Ok(named) => tasks matches Ok(found) && views_of(found@).to_set() == views_of(named@).to_set()
                    && strictly_sorted(views_of(found@)),
                Err(error) => tasks matches Err(told) && same_error(told, *error),
            },
        },
{
    match selection {
        Selection::Tasks(ids) => Ok(sorted_unique(copied_all(ids.as_slice()))),
        Selection::Everything => Ok(sorted_unique(copied_all(with_claims_file))),
        Selection::CurrentBranch => match branch {
            Ok(named) => Ok(sorted_unique(copied_all(named.as_slice()))),
            Err(error) => Err(error.copied()),
        },
    }
}

/// The tasks the first entries of the claims directory name: the stem of
/// each TOML file, in the order listed.
pub open spec fn claims_file_stems(entries: Seq<String>, count: int) -> Seq<Seq<char>>
    decreases count,
{
    if count <= 0 || count > entries.len() {
        Seq::empty()
    } else if crate::paths::path_extension(entries[count - 1]@) == Some("toml"@) {
        claims_file_stems(entries, count - 1).push(crate::paths::path_stem(entries[count - 1]@))
    } else {
        claims_file_stems(entries, count - 1)
    }
}

/// Every task that has a claims file among the entries of the claims
/// directory, in the order listed.
pub fn tasks_with_a_claims_file(entries: &[String]) -> (tasks: Vec<String>)
    ensures
        views_of(tasks@) == claims_file_stems(entries@, entries@.len() as int),
{
    let mut tasks: Vec<String> = Vec::new();
    let mut index: usize = 0;
    assert(views_of(tasks@) =~= Seq::<Seq<char>>::empty());
    while index < entries.len()
        invariant
            index <= entries@.len(),
            views_of(tasks@) == claims_file_stems(entries@, index as int),
        decreases entries@.len() - index,
    {
        proof {
            reveal_strlit("toml");
        }
        let toml = match crate::paths::extension(entries[index].as_str()) {
            Some(found) => crate::text::spells(chars_of(found.as_str()).as_slice(), "toml"),
            None => false,
        };
        if toml {
            let ghost before = views_of(tasks@);
            let stem = crate::paths::stem(entries[index].as_str());
            tasks.push(stem);
            assert(views_of(tasks@) =~= before.push(crate::paths::path_stem(entries@[index as int]@)));
        }
        index = index + 1;
    }
    tasks
}

} // verus!
