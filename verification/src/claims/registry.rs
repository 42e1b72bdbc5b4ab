//! The claims files under `regression/claims/`, validated as a whole: each
//! `[[claim]]` has a stable id, a present-tense statement and exactly one
//! proof; ids are unique across the registry, every file is named for a real
//! task, every scenario proof names a scenario that exists, every display
//! record is a Markdown file under `docs/notes`, and no scenario of a
//! registered task names a claim the registry does not declare. Reading the
//! files is the caller's; what they mean is here.
use vstd::prelude::*;

use crate::paths::{
    components, components_of, extension_of, extension_text, file_name, names_only, normal_form,
    normalized, only_names, path_stem,
};
use crate::text::{
    begins_with, lines, lines_of, starts_with, trim_char, trimmed_char,
    chars_of, comes_before, extend, extend_str, insert_sorted, precedes, spells, strictly_sorted,
    string_of, trim, trimmed, views_of,
};

verus! {

/// The registry's directory, under the repository root.
pub const CLAIMS_DIRECTORY: &'static str = "regression/claims";

/// The scenarios' directory, under the repository root.
pub const SCENARIOS_DIRECTORY: &'static str = "regression/scenarios";

/// Where the task files whose ids name the claims files live.
pub const TASKS_GLOB_ROOT: &'static str = "docs/plans";

/// The one proof of a claim.
#[derive(Clone, Debug)]
pub enum Proof {
    /// A scenario under the task, by file stem.
    Scenario {
        /// The scenario's file stem.
        name: String,
    },
    /// A display-bound measurement, never run automatically and always deferred.
    Display {
        /// The Markdown record under `docs/notes/`, relative to the repository.
        record: String,
        /// Why native display hardware and manual measurement are required.
        because: String,
    },
    /// A test, by its `package::binary::test` path, with the reason a
    /// container adds nothing to it.
    Test {
        /// The nextest path of the test.
        name: String,
        /// Why the claim needs no container to prove.
        because: String,
    },
}

/// A validated claim: what a task asserts and the one proof of it.
#[derive(Clone, Debug)]
pub struct Claim {
    /// The task that declares it — the claims file's stem.
    pub task: String,
    /// The stable id, unique across the registry.
    pub id: String,
    /// The one-sentence, present-tense statement.
    pub statement: String,
    /// The single proof.
    pub proof: Proof,
    /// The operating system the proof needs, when it needs a named one.
    pub platform: Option<String>,
    /// The cargo profile the proof runs under, when it is not the default.
    pub profile: Option<String>,
}

/// One `[[claim]]` as written, before its one-proof rule is checked.
#[derive(Clone, Debug)]
pub struct RawClaim {
    /// The stable id.
    pub id: String,
    /// The present-tense statement.
    pub statement: String,
    /// A scenario proof, by scenario file stem.
    pub scenario: Option<String>,
    /// A test proof, by `package::binary::test` path.
    pub test: Option<String>,
    /// A deferred display measurement record under `docs/notes/`.
    pub display: Option<String>,
    /// Why a test needs no container or a display measurement cannot be
    /// automated.
    pub because: Option<String>,
    /// The operating system the proof needs.
    pub platform: Option<String>,
    /// The cargo profile the proof runs under.
    pub profile: Option<String>,
}

/// Why a registry could not be loaded, each naming what and where.
#[derive(Debug)]
pub enum RegistryError {
    /// A file could not be read.
    Read {
        /// The file.
        path: String,
        /// What the operating system said.
        detail: String,
    },
    /// A claims file did not parse.
    Toml {
        /// The file.
        path: String,
        /// What the parser said.
        detail: String,
    },
    /// A claims file is named for no task under `docs/plans/`.
    UnknownTask {
        /// The file.
        path: String,
    },
    /// Two claims share an id.
    DuplicateId {
        /// The shared id.
        id: String,
        /// The file that declared it first.
        first: String,
        /// The file that declared it again.
        second: String,
    },
    /// A test proof has no `because`.
    TestWithoutBecause {
        /// The task.
        task: String,
        /// The claim.
        id: String,
    },
    /// A deferred display record is missing, malformed or lacks a reason.
    DisplayRecord {
        /// The task.
        task: String,
        /// The claim.
        id: String,
        /// The requirement it fails.
        reason: String,
    },
    /// A claim names more than one proof category.
    BothProofs {
        /// The task.
        task: String,
        /// The claim.
        id: String,
    },
    /// A claim names no proof category.
    NeitherProof {
        /// The task.
        task: String,
        /// The claim.
        id: String,
    },
    /// A scenario proof names a scenario file that does not exist.
    ScenarioFileMissing {
        /// The task.
        task: String,
        /// The claim.
        id: String,
        /// The scenario file the proof named.
        path: String,
    },
    /// A scenario of a registered task names a claim the registry does not
    /// declare.
    ScenarioClaimUndeclared {
        /// The task whose scenario it is.
        task: String,
        /// The scenario file.
        scenario: String,
        /// The claim it named.
        claim: String,
    },
}

/// What a registry error says.
pub open spec fn registry_message(error: RegistryError) -> Seq<char> {
    match error {
        RegistryError::Read { path, detail } => "reading "@ + path@ + ": "@ + detail@,
        RegistryError::Toml { path, detail } => "parsing "@ + path@ + ": "@ + detail@,
        RegistryError::UnknownTask { path } => path@ + " is named for no task under "@
            + TASKS_GLOB_ROOT@,
        RegistryError::DuplicateId { id, first, second } => "claim `"@ + id@
            + "` is declared in both "@ + first@ + " and "@ + second@,
        RegistryError::TestWithoutBecause { task, id } => "claim `"@ + id@ + "` of task `"@
            + task@ + "` has a test proof but no `because`"@,
        RegistryError::DisplayRecord { task, id, reason } => "claim `"@ + id@ + "` of task `"@
            + task@ + "` has an invalid display record: "@ + reason@,
        RegistryError::BothProofs { task, id } => "claim `"@ + id@ + "` of task `"@ + task@
            + "` names more than one of scenario, test and display"@,
        RegistryError::NeitherProof { task, id } => "claim `"@ + id@ + "` of task `"@ + task@
            + "` names none of scenario, test and display"@,
        RegistryError::ScenarioFileMissing { task, id, path } => "claim `"@ + id@ + "` of task `"@
            + task@ + "` names scenario "@ + path@ + ", which does not exist"@,
        RegistryError::ScenarioClaimUndeclared { task, scenario, claim } => "scenario "@
            + scenario@ + " of task `"@ + task@ + "` names claim `"@ + claim@
            + "`, which is declared nowhere"@,
    }
}

impl RegistryError {
    /// What went wrong, in a sentence naming what and where.
    pub fn message(&self) -> (said: String)
        ensures
            said@ == registry_message(*self),
    {
        let mut held: Vec<char> = Vec::new();
        match self {
            RegistryError::Read { path, detail } => {
                extend_str(&mut held, "reading ");
                extend_str(&mut held, path.as_str());
                extend_str(&mut held, ": ");
                extend_str(&mut held, detail.as_str());
            },
            RegistryError::Toml { path, detail } => {
                extend_str(&mut held, "parsing ");
                extend_str(&mut held, path.as_str());
                extend_str(&mut held, ": ");
                extend_str(&mut held, detail.as_str());
            },
            RegistryError::UnknownTask { path } => {
                extend_str(&mut held, path.as_str());
                extend_str(&mut held, " is named for no task under ");
                extend_str(&mut held, TASKS_GLOB_ROOT);
            },
            RegistryError::DuplicateId { id, first, second } => {
                extend_str(&mut held, "claim `");
                extend_str(&mut held, id.as_str());
                extend_str(&mut held, "` is declared in both ");
                extend_str(&mut held, first.as_str());
                extend_str(&mut held, " and ");
                extend_str(&mut held, second.as_str());
            },
            RegistryError::TestWithoutBecause { task, id } => {
                extend_str(&mut held, "claim `");
                extend_str(&mut held, id.as_str());
                extend_str(&mut held, "` of task `");
                extend_str(&mut held, task.as_str());
                extend_str(&mut held, "` has a test proof but no `because`");
            },
            RegistryError::DisplayRecord { task, id, reason } => {
                extend_str(&mut held, "claim `");
                extend_str(&mut held, id.as_str());
                extend_str(&mut held, "` of task `");
                extend_str(&mut held, task.as_str());
                extend_str(&mut held, "` has an invalid display record: ");
                extend_str(&mut held, reason.as_str());
            },
            RegistryError::BothProofs { task, id } => {
                extend_str(&mut held, "claim `");
                extend_str(&mut held, id.as_str());
                extend_str(&mut held, "` of task `");
                extend_str(&mut held, task.as_str());
                extend_str(&mut held, "` names more than one of scenario, test and display");
            },
            RegistryError::NeitherProof { task, id } => {
                extend_str(&mut held, "claim `");
                extend_str(&mut held, id.as_str());
                extend_str(&mut held, "` of task `");
                extend_str(&mut held, task.as_str());
                extend_str(&mut held, "` names none of scenario, test and display");
            },
            RegistryError::ScenarioFileMissing { task, id, path } => {
                extend_str(&mut held, "claim `");
                extend_str(&mut held, id.as_str());
                extend_str(&mut held, "` of task `");
                extend_str(&mut held, task.as_str());
                extend_str(&mut held, "` names scenario ");
                extend_str(&mut held, path.as_str());
                extend_str(&mut held, ", which does not exist");
            },
            RegistryError::ScenarioClaimUndeclared { task, scenario, claim } => {
                extend_str(&mut held, "scenario ");
                extend_str(&mut held, scenario.as_str());
                extend_str(&mut held, " of task `");
                extend_str(&mut held, task.as_str());
                extend_str(&mut held, "` names claim `");
                extend_str(&mut held, claim.as_str());
                extend_str(&mut held, "`, which is declared nowhere");
            },
        }
        string_of(held.as_slice())
    }
}

/// The proof a claim as written declares, for a task: exactly one of a
/// scenario, a test with a reason, or a display record with a reason that
/// is not blank; or which of those rules it breaks.
pub enum ProofReading {
    /// Its one proof.
    Proven(Proof),
    /// None of the three.
    Neither,
    /// More than one of them.
    Both,
    /// A test with no reason.
    TestWithoutBecause,
    /// A display record with a blank reason or none.
    BlankDisplayReason,
}

/// What [`RawClaim::declared_proof`] makes of a claim as written.
pub open spec fn proof_reading(raw: RawClaim) -> ProofReading {
    match (raw.scenario, raw.test, raw.display) {
        (None, None, None) => ProofReading::Neither,
        (Some(name), None, None) => ProofReading::Proven(Proof::Scenario { name }),
        (None, Some(name), None) => match raw.because {
            None => ProofReading::TestWithoutBecause,
            Some(because) => ProofReading::Proven(Proof::Test { name, because }),
        },
        (None, None, Some(record)) => match raw.because {
            Some(because) => if trim(because@).len() == 0 {
                ProofReading::BlankDisplayReason
            } else {
                ProofReading::Proven(Proof::Display { record, because })
            },
            None => ProofReading::BlankDisplayReason,
        },
        _ => ProofReading::Both,
    }
}

/// The reason a display record without one is refused with.
pub const DISPLAY_REASON_MISSING: &'static str = "a display measurement requires a nonempty `because`";

/// Whether a claim's proof as read is the proof a result carries, or the
/// error for the rule it breaks.
pub open spec fn proof_result(task: Seq<char>, raw: RawClaim, result: Result<Proof, RegistryError>) -> bool {
    match proof_reading(raw) {
        ProofReading::Proven(proof) => result == Ok::<Proof, RegistryError>(proof),
        ProofReading::Neither => result matches Err(RegistryError::NeitherProof { task: t, id })
            && t@ == task && id == raw.id,
        ProofReading::Both => result matches Err(RegistryError::BothProofs { task: t, id })
            && t@ == task && id == raw.id,
        ProofReading::TestWithoutBecause => result matches Err(
            RegistryError::TestWithoutBecause { task: t, id },
        ) && t@ == task && id == raw.id,
        ProofReading::BlankDisplayReason => result matches Err(
            RegistryError::DisplayRecord { task: t, id, reason },
        ) && t@ == task && id == raw.id && reason@ == DISPLAY_REASON_MISSING@,
    }
}

impl RawClaim {
    /// The claim's proof, or why it is not exactly one well-formed proof.
    pub fn declared_proof(&self, task: &str) -> (declared: Result<Proof, RegistryError>)
        ensures
            proof_result(task@, *self, declared),
    {
        match (&self.scenario, &self.test, &self.display) {
            (None, None, None) => Err(
                RegistryError::NeitherProof { task: task.to_owned(), id: self.id.clone() },
            ),
            (Some(name), None, None) => Ok(Proof::Scenario { name: name.clone() }),
            (None, Some(name), None) => match &self.because {
                None => Err(
                    RegistryError::TestWithoutBecause { task: task.to_owned(), id: self.id.clone() },
                ),
                Some(because) => Ok(Proof::Test { name: name.clone(), because: because.clone() }),
            },
            (None, None, Some(record)) => {
                let blank = match &self.because {
                    None => true,
                    Some(because) => trimmed(chars_of(because.as_str()).as_slice()).len() == 0,
                };
                if blank {
                    Err(
                        RegistryError::DisplayRecord {
                            task: task.to_owned(),
                            id: self.id.clone(),
                            reason: DISPLAY_REASON_MISSING.to_owned(),
                        },
                    )
                } else {
                    match &self.because {
                        Some(because) => Ok(
                            Proof::Display { record: record.clone(), because: because.clone() },
                        ),
                        None => Err(
                            RegistryError::DisplayRecord {
                                task: task.to_owned(),
                                id: self.id.clone(),
                                reason: DISPLAY_REASON_MISSING.to_owned(),
                            },
                        ),
                    }
                }
            },
            _ => Err(RegistryError::BothProofs { task: task.to_owned(), id: self.id.clone() }),
        }
    }
}


/// A copy of an optional string.
pub fn copied_text(text: &Option<String>) -> (copy: Option<String>)
    ensures
        copy == *text,
{
    match text {
        Some(held) => Some(held.clone()),
        None => None,
    }
}

impl Proof {
    /// A copy of this proof.
    pub fn copied(&self) -> (copy: Proof)
        ensures
            copy == *self,
    {
        match self {
            Proof::Scenario { name } => Proof::Scenario { name: name.clone() },
            Proof::Display { record, because } => Proof::Display {
                record: record.clone(),
                because: because.clone(),
            },
            Proof::Test { name, because } => Proof::Test {
                name: name.clone(),
                because: because.clone(),
            },
        }
    }
}

impl Claim {
    /// A copy of this claim.
    pub fn copied(&self) -> (copy: Claim)
        ensures
            copy == *self,
    {
        Claim {
            task: self.task.clone(),
            id: self.id.clone(),
            statement: self.statement.clone(),
            proof: self.proof.copied(),
            platform: copied_text(&self.platform),
            profile: copied_text(&self.profile),
        }
    }
}

/// The whole registry: every claim, its files read in sorted order and each
/// file's claims in the order written.
#[derive(Debug)]
pub struct Registry {
    /// Every claim, files sorted by name and each file's claims in order.
    claims: Vec<Claim>,
}

impl View for Registry {
    type V = Seq<Claim>;

    closed spec fn view(&self) -> Seq<Claim> {
        self.claims@
    }
}

/// The tasks of some claims, in order.
pub open spec fn tasks_of(claims: Seq<Claim>) -> Seq<Seq<char>> {
    claims.map_values(|claim: Claim| claim.task@)
}

impl Registry {
    /// Every claim in the registry.
    pub fn claims(&self) -> (every: &[Claim])
        ensures
            every@ == self@,
    {
        self.claims.as_slice()
    }

    /// Every claim a task declares, in the order written.
    pub fn claims_of(&self, task: &str) -> (declared: Vec<Claim>)
        ensures
            declared@ == self@.filter(|claim: Claim| claim.task@ == task@),
    {
        let mut declared: Vec<Claim> = Vec::new();
        let mut index: usize = 0;
        while index < self.claims.len()
            invariant
                index <= self.claims@.len(),
                declared@ == self.claims@.subrange(0, index as int).filter(
                    |claim: Claim| claim.task@ == task@,
                ),
            decreases self.claims@.len() - index,
        {
            let ghost before = self.claims@.subrange(0, index as int);
            assert(self.claims@.subrange(0, index + 1) =~= before.push(self.claims@[index as int]));
            proof {
                reveal(Seq::filter);
                assert(self.claims@.subrange(0, index + 1).drop_last() =~= before);
            }
            if spells(chars_of(self.claims[index].task.as_str()).as_slice(), task) {
                declared.push(self.claims[index].copied());
            }
            index = index + 1;
        }
        assert(self.claims@.subrange(0, self.claims@.len() as int) =~= self.claims@);
        declared
    }

    /// Every task that declares a claim, sorted and unique.
    pub fn tasks(&self) -> (tasks: Vec<String>)
        ensures
            strictly_sorted(views_of(tasks@)),
            views_of(tasks@).to_set() == tasks_of(self@).to_set(),
    {
        let mut tasks: Vec<String> = Vec::new();
        let mut index: usize = 0;
        while index < self.claims.len()
            invariant
                index <= self.claims@.len(),
                strictly_sorted(views_of(tasks@)),
                views_of(tasks@).to_set() == tasks_of(self.claims@.subrange(0, index as int)).to_set(),
            decreases self.claims@.len() - index,
        {
            let ghost before = tasks_of(self.claims@.subrange(0, index as int));
            insert_sorted(&mut tasks, self.claims[index].task.clone());
            assert(tasks_of(self.claims@.subrange(0, index + 1)) =~= before.push(self.claims@[index as int].task@));
            assert(before.push(self.claims@[index as int].task@).to_set() =~= before.to_set().insert(self.claims@[index as int].task@)) by {
                before.lemma_push_to_set_commute(self.claims@[index as int].task@);
            }
            index = index + 1;
        }
        assert(self.claims@.subrange(0, self.claims@.len() as int) =~= self.claims@);
        tasks
    }
}


/// Where an id was first declared, when it was: the path beside the first
/// record of it.
pub open spec fn origin_of(origin: Seq<(String, String)>, id: Seq<char>) -> Option<Seq<char>>
    decreases origin.len(),
{
    if origin.len() == 0 {
        None
    } else if origin[0].0@ == id {
        Some(origin[0].1@)
    } else {
        origin_of(origin.drop_first(), id)
    }
}

/// Whether a claim is what a claim as written becomes under a task: its
/// task, id, statement, platform and profile, and the one proof it declares.
pub open spec fn admits(task: Seq<char>, raw: RawClaim, claim: Claim) -> bool {
    &&& claim.task@ == task
    &&& claim.id == raw.id
    &&& claim.statement == raw.statement
    &&& proof_reading(raw) == ProofReading::Proven(claim.proof)
    &&& claim.platform == raw.platform
    &&& claim.profile == raw.profile
}

/// Where an id is recorded in a list of origins.
fn origin_lookup(origin: &Vec<(String, String)>, id: &String) -> (found: Option<String>)
    ensures
        match origin_of(origin@, id@) {
            None => found is None,
            Some(path) => found matches Some(held) && held@ == path,
        },
{
    let mut index: usize = 0;
    assert(origin@.subrange(0, origin@.len() as int) =~= origin@);
    while index < origin.len()
        invariant
            index <= origin@.len(),
            origin_of(origin@, id@) == origin_of(origin@.subrange(index as int, origin@.len() as int), id@),
        decreases origin@.len() - index,
    {
        let ghost rest = origin@.subrange(index as int, origin@.len() as int);
        assert(rest.drop_first() =~= origin@.subrange(index + 1, origin@.len() as int));
        if origin[index].0 == *id {
            return Some(origin[index].1.clone());
        }
        index = index + 1;
    }
    assert(origin@.subrange(index as int, origin@.len() as int) =~= Seq::<(String, String)>::empty());
    None
}

/// Admits the claims of one file, as written, for its task: each gets its
/// one proof and its id recorded beside the file, until one has no
/// well-formed proof or an id already taken.
///
/// [`RegistryError`] for the first claim whose proof is malformed, and
/// [`RegistryError::DuplicateId`], naming where it was first declared, for
/// the first whose id is taken.
pub fn parse_file(
    file: &str,
    task: &str,
    raws: &[RawClaim],
    claims: &mut Vec<Claim>,
    origin: &mut Vec<(String, String)>,
) -> (admitted: Result<(), RegistryError>)
    ensures
        ({
            let count = final(claims)@.len() - old(claims)@.len();
            &&& 0 <= count <= raws@.len()
            &&& final(claims)@.subrange(0, old(claims)@.len() as int) == old(claims)@
            &&& final(origin)@.len() == old(origin)@.len() + count
            &&& final(origin)@.subrange(0, old(origin)@.len() as int) == old(origin)@
            &&& forall|index: int|
                0 <= index < count ==> admits(task@, raws@[index], #[trigger] final(claims)@[old(claims)@.len() + index])
                    && origin_of(old(origin)@, raws@[index].id@) is None
                    && final(origin)@[old(origin)@.len() + index].0 == raws@[index].id
                    && final(origin)@[old(origin)@.len() + index].1@ == file@
                    && forall|earlier: int| 0 <= earlier < index ==> raws@[earlier].id@ != raws@[index].id@
            &&& (admitted is Ok <==> count == raws@.len())
            &&& admitted is Err ==> ({
                let culprit = raws@[count];
                match proof_reading(culprit) {
                    ProofReading::Proven(proof) => admitted matches Err(
                        RegistryError::DuplicateId { id, first, second },
                    ) && id == culprit.id && second@ == file@ && origin_of(final(origin)@, id@)
                        == Some(first@),
                    _ => admitted matches Err(error) && proof_result(
                        task@,
                        culprit,
                        Err::<Proof, RegistryError>(error),
                    ),
                }
            })
        }),
{
    let mut index: usize = 0;
    while index < raws.len()
        invariant
            index <= raws@.len(),
            claims@.len() == old(claims)@.len() + index,
            claims@.subrange(0, old(claims)@.len() as int) == old(claims)@,
            origin@.len() == old(origin)@.len() + index,
            origin@.subrange(0, old(origin)@.len() as int) == old(origin)@,
            forall|at: int|
                0 <= at < index ==> admits(task@, raws@[at], #[trigger] claims@[old(claims)@.len() + at])
                    && origin_of(old(origin)@, raws@[at].id@) is None
                    && origin@[old(origin)@.len() + at].0 == raws@[at].id
                    && origin@[old(origin)@.len() + at].1@ == file@
                    && forall|earlier: int| 0 <= earlier < at ==> raws@[earlier].id@ != raws@[at].id@,
        decreases raws@.len() - index,
    {
        let raw = &raws[index];
        let declared = raw.declared_proof(task);
        let proof = match declared {
            Ok(proof) => proof,
            Err(error) => {
                return Err(error);
            },
        };
        match origin_lookup(origin, &raw.id) {
            Some(first) => {
                return Err(
                    RegistryError::DuplicateId {
                        id: raw.id.clone(),
                        first,
                        second: file.to_owned(),
                    },
                );
            },
            None => {},
        }
        proof {
            assert forall|earlier: int| 0 <= earlier < index implies raws@[earlier].id@ != raws@[index as int].id@ by {
                assert(admits(task@, raws@[earlier], claims@[old(claims)@.len() + earlier]));
                if raws@[earlier].id@ == raws@[index as int].id@ {
                    lemma_origin_found(origin@, old(origin)@.len() + earlier, raws@[index as int].id@);
                }
            }
            lemma_origin_prefix(old(origin)@, origin@, raws@[index as int].id@);
        }
        let ghost before = origin@;
        origin.push((raw.id.clone(), file.to_owned()));
        claims.push(
            Claim {
                task: task.to_owned(),
                id: raw.id.clone(),
                statement: raw.statement.clone(),
                proof,
                platform: copied_text(&raw.platform),
                profile: copied_text(&raw.profile),
            },
        );
        proof {
            assert(origin@.subrange(0, old(origin)@.len() as int) =~= before.subrange(0, old(origin)@.len() as int));
            assert(claims@.subrange(0, old(claims)@.len() as int) =~= old(claims)@);
        }
        index = index + 1;
    }
    Ok(())
}

/// An id recorded somewhere in a list of origins is found in it.
proof fn lemma_origin_found(origin: Seq<(String, String)>, at: int, id: Seq<char>)
    requires
        0 <= at < origin.len(),
        origin[at].0@ == id,
    ensures
        origin_of(origin, id) is Some,
    decreases at,
{
    if at > 0 && origin[0].0@ != id {
        lemma_origin_found(origin.drop_first(), at - 1, id);
    }
}

/// An id not found in a list of origins is not found in its prefixes.
proof fn lemma_origin_prefix(prefix: Seq<(String, String)>, origin: Seq<(String, String)>, id: Seq<char>)
    requires
        prefix.len() <= origin.len(),
        origin.subrange(0, prefix.len() as int) == prefix,
        origin_of(origin, id) is None,
    ensures
        origin_of(prefix, id) is None,
    decreases prefix.len(),
{
    if prefix.len() > 0 {
        if prefix[0].0@ == id {
            assert(origin[0] == prefix[0]);
        } else {
            assert(origin[0] == prefix[0]);
            assert(origin.drop_first().subrange(0, prefix.drop_first().len() as int) =~= prefix.drop_first());
            lemma_origin_prefix(prefix.drop_first(), origin.drop_first(), id);
        }
    }
}


/// Whether a display record is written as one has to be: only plain names,
/// under `docs/notes`, and a Markdown file.
pub open spec fn record_shaped(record: Seq<char>) -> bool {
    let named = components(record);
    &&& only_names(record)
    &&& named.len() >= 2
    &&& named[0] == "docs"@
    &&& named[1] == "notes"@
    &&& match file_name(record) {
        Some(name) => extension_of(name) == Some("md"@),
        None => false,
    }
}

/// Whether a path, in the form its components share, is among the files
/// that exist.
pub open spec fn present_in(present: Seq<String>, path: Seq<char>) -> bool {
    exists|index: int| 0 <= index < present.len() && #[trigger] present[index]@ == normal_form(path)
}

/// Whether a path, in the form its components share, is among the files
/// that exist.
fn is_present(present: &[String], path: &[char]) -> (found: bool)
    ensures
        found == present_in(present@, path@),
{
    let normal = normalized(path);
    let mut index: usize = 0;
    while index < present.len()
        invariant
            index <= present@.len(),
            normal@ == normal_form(path@),
            forall|at: int| 0 <= at < index ==> #[trigger] present@[at]@ != normal_form(path@),
        decreases present@.len() - index,
    {
        if crate::text::same_chars(chars_of(present[index].as_str()).as_slice(), normal.as_slice()) {
            return true;
        }
        index = index + 1;
    }
    false
}

/// Whether a display record is written as one has to be.
pub fn record_in_shape(record: &str) -> (shaped: bool)
    ensures
        shaped == record_shaped(record@),
{
    proof {
        reveal_strlit("docs");
        reveal_strlit("notes");
        reveal_strlit("md");
        reveal_strlit("..");
    }
    let characters = chars_of(record);
    if !names_only(characters.as_slice()) {
        return false;
    }
    let named = components_of(characters.as_slice());
    let ghost every = named@.map_values(|piece: Vec<char>| piece@);
    if named.len() < 2 || !spells(named[0].as_slice(), "docs") || !spells(named[1].as_slice(), "notes") {
        proof {
            if named@.len() >= 2 {
                assert(every[0] == named@[0]@);
                assert(every[1] == named@[1]@);
            }
        }
        return false;
    }
    assert(every[0] == named@[0]@);
    assert(every[1] == named@[1]@);
    let last = &named[named.len() - 1];
    assert(every.last() == last@);
    if spells(last.as_slice(), "..") {
        return false;
    }
    match extension_text(last.as_slice()) {
        Some(extension) => spells(extension.as_slice(), "md"),
        None => false,
    }
}

/// The reason a display record out of shape or missing is refused with.
pub open spec fn record_reason(record: Seq<char>) -> Seq<char> {
    "`"@ + record
        + "` must be an existing Markdown file under docs/notes with only normal relative path components"@
}

/// Whether a claim's display record, if it has one, is in shape and exists.
pub open spec fn record_holds(claim: Claim, present: Seq<String>) -> bool {
    match claim.proof {
        Proof::Display { record, because } => record_shaped(record@) && present_in(present, record@),
        _ => true,
    }
}

/// Every display record is a Markdown file under `docs/notes`, written with
/// only plain names, that exists.
///
/// [`RegistryError::DisplayRecord`] for the first claim whose record is not.
pub fn check_display_records(claims: &[Claim], present: &[String]) -> (checked: Result<(), RegistryError>)
    ensures
        checked is Ok <==> forall|index: int| 0 <= index < claims@.len() ==> record_holds(#[trigger] claims@[index], present@),
        checked is Err ==> exists|index: int| 0 <= index < claims@.len() && !record_holds(#[trigger] claims@[index], present@)
            && (forall|earlier: int| 0 <= earlier < index ==> record_holds(#[trigger] claims@[earlier], present@))
            && (claims@[index].proof matches Proof::Display { record, because } && checked matches Err(
                RegistryError::DisplayRecord { task, id, reason },
            ) && task == claims@[index].task && id == claims@[index].id && reason@ == record_reason(record@)),
{
    let mut index: usize = 0;
    while index < claims.len()
        invariant
            index <= claims@.len(),
            forall|at: int| 0 <= at < index ==> record_holds(#[trigger] claims@[at], present@),
        decreases claims@.len() - index,
    {
        let declared = &claims[index].proof;
        match declared {
            Proof::Display { record, .. } => {
                let held = chars_of(record.as_str());
                if !record_in_shape(record.as_str()) || !is_present(present, held.as_slice()) {
                    let mut reason: Vec<char> = Vec::new();
                    extend_str(&mut reason, "`");
                    extend_str(&mut reason, record.as_str());
                    extend_str(
                        &mut reason,
                        "` must be an existing Markdown file under docs/notes with only normal relative path components",
                    );
                    return Err(
                        RegistryError::DisplayRecord {
                            task: claims[index].task.clone(),
                            id: claims[index].id.clone(),
                            reason: string_of(reason.as_slice()),
                        },
                    );
                }
            },
            _ => {},
        }
        index = index + 1;
    }
    Ok(())
}

/// Where a scenario proof's file is, under the repository: the task's
/// scenario directory and the scenario's name with `.toml`.
pub open spec fn scenario_place(task: Seq<char>, name: Seq<char>) -> Seq<char> {
    SCENARIOS_DIRECTORY@ + "/"@ + task + "/"@ + name + ".toml"@
}

/// Whether a claim's scenario, if it has one, exists.
pub open spec fn scenario_holds(claim: Claim, present: Seq<String>) -> bool {
    match claim.proof {
        Proof::Scenario { name } => present_in(present, scenario_place(claim.task@, name@)),
        _ => true,
    }
}

/// Every scenario proof names a scenario file that exists.
///
/// [`RegistryError::ScenarioFileMissing`], with the file under `root`, for
/// the first proof whose scenario does not.
pub fn check_scenario_proofs(root: &str, claims: &[Claim], present: &[String]) -> (checked: Result<(), RegistryError>)
    ensures
        checked is Ok <==> forall|index: int| 0 <= index < claims@.len() ==> scenario_holds(#[trigger] claims@[index], present@),
        checked is Err ==> exists|index: int| 0 <= index < claims@.len() && !scenario_holds(#[trigger] claims@[index], present@)
            && (forall|earlier: int| 0 <= earlier < index ==> scenario_holds(#[trigger] claims@[earlier], present@))
            && (claims@[index].proof matches Proof::Scenario { name } && checked matches Err(
                RegistryError::ScenarioFileMissing { task, id, path },
            ) && task == claims@[index].task && id == claims@[index].id && path@ == root@ + "/"@
                + scenario_place(claims@[index].task@, name@)),
{
    let mut index: usize = 0;
    while index < claims.len()
        invariant
            index <= claims@.len(),
            forall|at: int| 0 <= at < index ==> scenario_holds(#[trigger] claims@[at], present@),
        decreases claims@.len() - index,
    {
        let declared = &claims[index].proof;
        match declared {
            Proof::Scenario { name } => {
                let mut place: Vec<char> = Vec::new();
                extend_str(&mut place, SCENARIOS_DIRECTORY);
                extend_str(&mut place, "/");
                extend_str(&mut place, claims[index].task.as_str());
                extend_str(&mut place, "/");
                extend_str(&mut place, name.as_str());
                extend_str(&mut place, ".toml");
                if !is_present(present, place.as_slice()) {
                    let mut path: Vec<char> = Vec::new();
                    extend_str(&mut path, root);
                    extend_str(&mut path, "/");
                    extend(&mut path, place.as_slice());
                    return Err(
                        RegistryError::ScenarioFileMissing {
                            task: claims[index].task.clone(),
                            id: claims[index].id.clone(),
                            path: string_of(path.as_slice()),
                        },
                    );
                }
            },
            _ => {},
        }
        index = index + 1;
    }
    Ok(())
}


/// The claim ids one scenario file names, as the caller read them: none
/// when the file could not be read as a scenario.
#[derive(Clone, Debug)]
pub struct ScenarioClaims {
    /// The task whose scenario it is.
    pub task: String,
    /// The scenario file.
    pub path: String,
    /// The claim ids it names, in order.
    pub claims: Vec<String>,
}

/// The ids some claims declare.
pub open spec fn ids_of(claims: Seq<Claim>) -> Set<Seq<char>> {
    claims.map_values(|claim: Claim| claim.id@).to_set()
}

/// The first id a scenario names that is not among the declared ones.
pub open spec fn first_undeclared(declared: Set<Seq<char>>, ids: Seq<String>) -> Option<Seq<char>>
    decreases ids.len(),
{
    if ids.len() == 0 {
        None
    } else if !declared.contains(ids[0]@) {
        Some(ids[0]@)
    } else {
        first_undeclared(declared, ids.drop_first())
    }
}

/// The first scenario of a task, in the order given, that names a claim no
/// claim declares, with that claim.
pub open spec fn task_fault(declared: Set<Seq<char>>, task: Seq<char>, scenarios: Seq<ScenarioClaims>) -> Option<(Seq<char>, Seq<char>)>
    decreases scenarios.len(),
{
    if scenarios.len() == 0 {
        None
    } else {
        match (if scenarios[0].task@ == task {
            first_undeclared(declared, scenarios[0].claims@)
        } else {
            None
        }) {
            Some(claim) => Some((scenarios[0].path@, claim)),
            None => task_fault(declared, task, scenarios.drop_first()),
        }
    }
}

/// The first id not declared, found in order.
fn find_undeclared(claims: &[Claim], ids: &[String]) -> (found: Option<String>)
    ensures
        match first_undeclared(ids_of(claims@), ids@) {
            None => found is None,
            Some(id) => found matches Some(held) && held@ == id,
        },
{
    let mut index: usize = 0;
    assert(ids@.subrange(0, ids@.len() as int) =~= ids@);
    while index < ids.len()
        invariant
            index <= ids@.len(),
            first_undeclared(ids_of(claims@), ids@) == first_undeclared(ids_of(claims@), ids@.subrange(index as int, ids@.len() as int)),
        decreases ids@.len() - index,
    {
        let ghost rest = ids@.subrange(index as int, ids@.len() as int);
        assert(rest.drop_first() =~= ids@.subrange(index + 1, ids@.len() as int));
        let mut known = false;
        let mut at: usize = 0;
        while at < claims.len()
            invariant
                at <= claims@.len(),
                index < ids@.len(),
                known == exists|earlier: int| 0 <= earlier < at && #[trigger] claims@[earlier].id@ == ids@[index as int]@,
            decreases claims@.len() - at,
        {
            if claims[at].id == ids[index] {
                known = true;
            }
            at = at + 1;
        }
        proof {
            let every = claims@.map_values(|claim: Claim| claim.id@);
            if known {
                let earlier = choose|earlier: int| 0 <= earlier < claims@.len() && #[trigger] claims@[earlier].id@ == ids@[index as int]@;
                assert(every[earlier] == ids@[index as int]@);
            } else {
                if every.to_set().contains(ids@[index as int]@) {
                    let earlier = choose|earlier: int| 0 <= earlier < every.len() && every[earlier] == ids@[index as int]@;
                    assert(claims@[earlier].id@ == ids@[index as int]@);
                }
            }
        }
        if !known {
            return Some(ids[index].clone());
        }
        index = index + 1;
    }
    None
}

/// The fault of one task among the scenarios, found in order.
fn find_task_fault(claims: &[Claim], task: &String, scenarios: &[ScenarioClaims]) -> (found: Option<(String, String)>)
    ensures
        match task_fault(ids_of(claims@), task@, scenarios@) {
            None => found is None,
            Some((path, claim)) => found matches Some((held_path, held_claim)) && held_path@ == path
                && held_claim@ == claim,
        },
{
    let mut index: usize = 0;
    assert(scenarios@.subrange(0, scenarios@.len() as int) =~= scenarios@);
    while index < scenarios.len()
        invariant
            index <= scenarios@.len(),
            task_fault(ids_of(claims@), task@, scenarios@) == task_fault(ids_of(claims@), task@, scenarios@.subrange(index as int, scenarios@.len() as int)),
        decreases scenarios@.len() - index,
    {
        let ghost rest = scenarios@.subrange(index as int, scenarios@.len() as int);
        assert(rest.drop_first() =~= scenarios@.subrange(index + 1, scenarios@.len() as int));
        if scenarios[index].task == *task {
            match find_undeclared(claims, scenarios[index].claims.as_slice()) {
                Some(claim) => {
                    return Some((scenarios[index].path.clone(), claim));
                },
                None => {},
            }
        }
        index = index + 1;
    }
    None
}

/// No scenario of a registered task names a claim the registry does not
/// declare; a task with no claims is not registered and its scenarios are
/// not looked at. Tasks are taken in sorted order and each task's scenarios
/// in the order given.
///
/// [`RegistryError::ScenarioClaimUndeclared`] for the first such scenario.
pub fn check_scenario_claims(claims: &[Claim], scenarios: &[ScenarioClaims]) -> (checked: Result<(), RegistryError>)
    ensures
        checked is Ok <==> forall|index: int| 0 <= index < claims@.len() ==> task_fault(ids_of(claims@), #[trigger] claims@[index].task@, scenarios@) is None,
        checked matches Err(RegistryError::ScenarioClaimUndeclared { task, scenario, claim }) ==> (
            tasks_of(claims@).contains(task@) && task_fault(ids_of(claims@), task@, scenarios@) == Some((scenario@, claim@))
            && forall|index: int| 0 <= index < claims@.len() && precedes(#[trigger] claims@[index].task@, task@)
                ==> task_fault(ids_of(claims@), claims@[index].task@, scenarios@) is None),
        checked is Err ==> checked matches Err(RegistryError::ScenarioClaimUndeclared { .. }),
{
    let mut registered: Vec<String> = Vec::new();
    let mut index: usize = 0;
    while index < claims.len()
        invariant
            index <= claims@.len(),
            strictly_sorted(views_of(registered@)),
            views_of(registered@).to_set() == tasks_of(claims@.subrange(0, index as int)).to_set(),
        decreases claims@.len() - index,
    {
        let ghost before = tasks_of(claims@.subrange(0, index as int));
        insert_sorted(&mut registered, claims[index].task.clone());
        assert(tasks_of(claims@.subrange(0, index + 1)) =~= before.push(claims@[index as int].task@));
        proof {
            before.lemma_push_to_set_commute(claims@[index as int].task@);
        }
        index = index + 1;
    }
    assert(claims@.subrange(0, claims@.len() as int) =~= claims@);
    let ghost order = views_of(registered@);
    let mut at: usize = 0;
    while at < registered.len()
        invariant
            at <= registered@.len(),
            order == views_of(registered@),
            strictly_sorted(order),
            order.to_set() == tasks_of(claims@).to_set(),
            forall|earlier: int| 0 <= earlier < at ==> task_fault(ids_of(claims@), #[trigger] order[earlier], scenarios@) is None,
        decreases registered@.len() - at,
    {
        match find_task_fault(claims, &registered[at], scenarios) {
            Some((scenario, claim)) => {
                proof {
                    assert(order[at as int] == registered@[at as int]@);
                    assert(order.to_set().contains(order[at as int]));
                    assert forall|index: int| 0 <= index < claims@.len() && precedes(#[trigger] claims@[index].task@, order[at as int])
                        implies task_fault(ids_of(claims@), claims@[index].task@, scenarios@) is None by {
                        assert(tasks_of(claims@)[index] == claims@[index].task@);
                        assert(tasks_of(claims@).to_set().contains(claims@[index].task@));
                        let position = choose|position: int| 0 <= position < order.len() && order[position] == claims@[index].task@;
                        if position >= at {
                            if position > at {
                                crate::text::lemma_precedes_transitive(order[at as int], order[position], order[at as int]);
                            }
                            crate::text::lemma_precedes_irreflexive(order[at as int]);
                        }
                    }
                }
                return Err(
                    RegistryError::ScenarioClaimUndeclared {
                        task: registered[at].clone(),
                        scenario,
                        claim,
                    },
                );
            },
            None => {},
        }
        at = at + 1;
    }
    proof {
        assert forall|index: int| 0 <= index < claims@.len() implies task_fault(ids_of(claims@), #[trigger] claims@[index].task@, scenarios@) is None by {
            assert(tasks_of(claims@)[index] == claims@[index].task@);
            assert(tasks_of(claims@).to_set().contains(claims@[index].task@));
            let position = choose|position: int| 0 <= position < order.len() && order[position] == claims@[index].task@;
        }
    }
    Ok(())
}


/// The `id:` a task file's frontmatter gives, from the first line that
/// begins with it: what follows, trimmed and with its quotes taken off.
pub open spec fn frontmatter_of(every: Seq<Seq<char>>) -> Option<Seq<char>>
    decreases every.len(),
{
    if every.len() == 0 {
        None
    } else if starts_with(every[0], "id:"@) {
        Some(trim_char(trim(every[0].subrange(3, every[0].len() as int)), '"'))
    } else {
        frontmatter_of(every.drop_first())
    }
}

/// The `id:` of a task file's frontmatter, unquoted, if it has one.
pub fn frontmatter_id(text: &str) -> (id: Option<String>)
    ensures
        match frontmatter_of(lines(text@)) {
            None => id is None,
            Some(found) => id matches Some(held) && held@ == found,
        },
{
    proof {
        reveal_strlit("id:");
    }
    let every = lines_of(chars_of(text).as_slice());
    let ghost all = lines(text@);
    let prefix = chars_of("id:");
    let mut index: usize = 0;
    assert(all.subrange(0, all.len() as int) =~= all);
    while index < every.len()
        invariant
            index <= every@.len(),
            every@.len() == all.len(),
            all == lines(text@),
            prefix@ == "id:"@,
            forall|at: int| 0 <= at < every@.len() ==> #[trigger] every@[at]@ == all[at],
            frontmatter_of(all) == frontmatter_of(all.subrange(index as int, all.len() as int)),
        decreases every@.len() - index,
    {
        let ghost rest = all.subrange(index as int, all.len() as int);
        assert(rest.drop_first() =~= all.subrange(index + 1, all.len() as int));
        assert(rest[0] == every@[index as int]@);
        let line = &every[index];
        if begins_with(line.as_slice(), prefix.as_slice()) {
            proof {
                reveal_strlit("id:");
            }
            assert(prefix@.len() == 3);
            let value = crate::text::slice_of(line.as_slice(), 3, line.len());
            let held = trimmed(value.as_slice());
            let unquoted = trimmed_char(held.as_slice(), '"');
            return Some(string_of(unquoted.as_slice()));
        }
        index = index + 1;
    }
    None
}


impl RegistryError {
    /// A copy of this error.
    pub fn copied(&self) -> (copy: RegistryError)
        ensures
            copy == *self,
    {
        match self {
            RegistryError::Read { path, detail } => RegistryError::Read { path: path.clone(), detail: detail.clone() },
            RegistryError::Toml { path, detail } => RegistryError::Toml { path: path.clone(), detail: detail.clone() },
            RegistryError::UnknownTask { path } => RegistryError::UnknownTask { path: path.clone() },
            RegistryError::DuplicateId { id, first, second } => RegistryError::DuplicateId {
                id: id.clone(),
                first: first.clone(),
                second: second.clone(),
            },
            RegistryError::TestWithoutBecause { task, id } => RegistryError::TestWithoutBecause { task: task.clone(), id: id.clone() },
            RegistryError::DisplayRecord { task, id, reason } => RegistryError::DisplayRecord {
                task: task.clone(),
                id: id.clone(),
                reason: reason.clone(),
            },
            RegistryError::BothProofs { task, id } => RegistryError::BothProofs { task: task.clone(), id: id.clone() },
            RegistryError::NeitherProof { task, id } => RegistryError::NeitherProof { task: task.clone(), id: id.clone() },
            RegistryError::ScenarioFileMissing { task, id, path } => RegistryError::ScenarioFileMissing {
                task: task.clone(),
                id: id.clone(),
                path: path.clone(),
            },
            RegistryError::ScenarioClaimUndeclared { task, scenario, claim } => RegistryError::ScenarioClaimUndeclared {
                task: task.clone(),
                scenario: scenario.clone(),
                claim: claim.clone(),
            },
        }
    }
}

/// One claims file as the caller read it: where it is, and the claims it
/// holds as written, or why it could not be read or parsed.
#[derive(Debug)]
pub struct ClaimsFile {
    /// The file, as it is reported.
    pub path: String,
    /// Its `[[claim]]` tables in the order written, or what went wrong.
    pub read: Result<Vec<RawClaim>, RegistryError>,
}

/// Whether a task id is among the known ones.
pub open spec fn known(tasks: Seq<String>, task: Seq<char>) -> bool {
    exists|index: int| 0 <= index < tasks.len() && #[trigger] tasks[index]@ == task
}

/// Every claim the files hold as written, with the task of its file, in
/// file order and then in the order written.
pub open spec fn entries(files: Seq<ClaimsFile>) -> Seq<(Seq<char>, RawClaim)>
    decreases files.len(),
{
    if files.len() == 0 {
        Seq::empty()
    } else {
        (match files[0].read {
            Ok(raws) => raws@.map_values(|raw: RawClaim| (path_stem(files[0].path@), raw)),
            Err(error) => Seq::empty(),
        }) + entries(files.drop_first())
    }
}

/// The file each claim as written comes from, lined up with [`entries`].
pub open spec fn entry_paths(files: Seq<ClaimsFile>) -> Seq<Seq<char>>
    decreases files.len(),
{
    if files.len() == 0 {
        Seq::empty()
    } else {
        (match files[0].read {
            Ok(raws) => Seq::new(raws@.len(), |index: int| files[0].path@),
            Err(error) => Seq::empty(),
        }) + entry_paths(files.drop_first())
    }
}

/// Whether every file is named for a known task and was read.
pub open spec fn files_sound(files: Seq<ClaimsFile>, tasks: Seq<String>) -> bool {
    forall|index: int| 0 <= index < files.len() ==> known(tasks, path_stem(#[trigger] files[index].path@)) && files[index].read is Ok
}

/// Whether every claim declares one well-formed proof and no two share an
/// id.
pub open spec fn entries_sound(all: Seq<(Seq<char>, RawClaim)>) -> bool {
    &&& forall|index: int| 0 <= index < all.len() ==> #[trigger] proof_reading(all[index].1) is Proven
    &&& forall|earlier: int, later: int| 0 <= earlier < later < all.len() ==> #[trigger] all[earlier].1.id@ != #[trigger] all[later].1.id@
}

/// The ids the claims as written declare.
pub open spec fn entry_ids(all: Seq<(Seq<char>, RawClaim)>) -> Set<Seq<char>> {
    all.map_values(|entry: (Seq<char>, RawClaim)| entry.1.id@).to_set()
}

/// Whether a claim as written, under its task, passes the checks made of the
/// whole registry: its scenario exists, its display record is in shape and
/// exists, and no scenario of its task names an undeclared claim.
pub open spec fn entry_checked(
    all: Seq<(Seq<char>, RawClaim)>,
    entry: (Seq<char>, RawClaim),
    present: Seq<String>,
    scenarios: Seq<ScenarioClaims>,
) -> bool {
    &&& match proof_reading(entry.1) {
        ProofReading::Proven(Proof::Scenario { name }) => present_in(present, scenario_place(entry.0, name@)),
        ProofReading::Proven(Proof::Display { record, because }) => record_shaped(record@) && present_in(present, record@),
        _ => true,
    }
    &&& task_fault(entry_ids(all), entry.0, scenarios) is None
}

/// The files' claims as written, lined up with the claims they became.
proof fn lemma_entries_split(files: Seq<ClaimsFile>, count: int)
    requires
        0 <= count <= files.len(),
    ensures
        entries(files) == entries(files.subrange(0, count)) + entries(files.subrange(count, files.len() as int)),
        entry_paths(files) == entry_paths(files.subrange(0, count)) + entry_paths(files.subrange(count, files.len() as int)),
        entry_paths(files).len() == entries(files).len(),
    decreases count,
{
    if count > 0 {
        lemma_entries_split(files.drop_first(), count - 1);
        assert(files.drop_first().subrange(0, count - 1) =~= files.subrange(0, count).drop_first());
        assert(files.drop_first().subrange(count - 1, files.drop_first().len() as int) =~= files.subrange(count, files.len() as int));
        assert(files.subrange(0, count)[0] == files[0]);
    } else {
        assert(files.subrange(0, 0) =~= Seq::<ClaimsFile>::empty());
        assert(files.subrange(0, files.len() as int) =~= files);
        lemma_paths_lined_up(files);
    }
}

/// There is a file for each claim as written.
proof fn lemma_paths_lined_up(files: Seq<ClaimsFile>)
    ensures
        entry_paths(files).len() == entries(files).len(),
    decreases files.len(),
{
    if files.len() > 0 {
        lemma_paths_lined_up(files.drop_first());
    }
}

/// The claims of one file as written.
proof fn lemma_entries_one(file: ClaimsFile)
    ensures
        entries(seq![file]) == (match file.read {
            Ok(raws) => raws@.map_values(|raw: RawClaim| (path_stem(file.path@), raw)),
            Err(error) => Seq::empty(),
        }),
        entry_paths(seq![file]) == (match file.read {
            Ok(raws) => Seq::new(raws@.len(), |index: int| file.path@),
            Err(error) => Seq::empty(),
        }),
{
    assert(entry_paths(Seq::<ClaimsFile>::empty()) =~= Seq::<Seq<char>>::empty());
    let paths = match file.read {
        Ok(raws) => Seq::new(raws@.len(), |index: int| file.path@),
        Err(error) => Seq::<Seq<char>>::empty(),
    };
    assert(paths + Seq::<Seq<char>>::empty() =~= paths);
    assert(seq![file].drop_first() =~= Seq::<ClaimsFile>::empty());
    let own = match file.read {
        Ok(raws) => raws@.map_values(|raw: RawClaim| (path_stem(file.path@), raw)),
        Err(error) => Seq::empty(),
    };
    assert(own + Seq::<(Seq<char>, RawClaim)>::empty() =~= own);
    assert(entries(Seq::<ClaimsFile>::empty()) =~= Seq::<(Seq<char>, RawClaim)>::empty());
    assert(seq![file][0] == file);
    assert(entries(seq![file]) == own + entries(Seq::<ClaimsFile>::empty()));
}

/// An id is recorded in origins lined up with claims as written exactly when
/// one of them declares it.
proof fn lemma_origin_lined_up(origin: Seq<(String, String)>, all: Seq<(Seq<char>, RawClaim)>, id: Seq<char>)
    requires
        origin.len() == all.len(),
        forall|index: int| 0 <= index < all.len() ==> #[trigger] origin[index].0@ == all[index].1.id@,
    ensures
        origin_of(origin, id) is Some <==> exists|index: int| 0 <= index < all.len() && #[trigger] all[index].1.id@ == id,
    decreases origin.len(),
{
    if origin.len() > 0 {
        lemma_origin_lined_up(origin.drop_first(), all.drop_first(), id);
        if origin[0].0@ != id {
            assert forall|index: int| 0 <= index < all.len() && #[trigger] all[index].1.id@ == id implies exists|later: int| 0 <= later < all.drop_first().len() && #[trigger] all.drop_first()[later].1.id@ == id by {
                assert(index != 0);
                assert(all.drop_first()[index - 1] == all[index]);
            }
            if origin_of(origin.drop_first(), id) is Some {
                let later = choose|later: int| 0 <= later < all.drop_first().len() && #[trigger] all.drop_first()[later].1.id@ == id;
                assert(all[later + 1].1.id@ == id);
            }
        }
    }
}

/// Claims and ids recorded after the earlier ones hold the claims of one
/// file, each admitted as written, its id new to the earlier ones and to the
/// file's earlier claims.
#[verifier::opaque]
spec fn admitted_after(
    task: Seq<char>,
    raws: Seq<RawClaim>,
    before_claims: Seq<Claim>,
    before_origin: Seq<(String, String)>,
    claims: Seq<Claim>,
    origin: Seq<(String, String)>,
) -> bool {
    forall|index: int|
        0 <= index < raws.len() ==> admits(task, raws[index], #[trigger] claims[before_claims.len() + index])
            && origin_of(before_origin, raws[index].id@) is None
            && origin[before_origin.len() + index].0 == raws[index].id
            && forall|earlier: int| 0 <= earlier < index ==> raws[earlier].id@ != raws[index].id@
}

/// Admitting one more file's claims keeps the claims lined up with what the
/// files hold as written, their ids recorded, and no id twice.
proof fn lemma_admitted_extends(
    done: Seq<(Seq<char>, RawClaim)>,
    task: Seq<char>,
    raws: Seq<RawClaim>,
    before_claims: Seq<Claim>,
    before_origin: Seq<(String, String)>,
    claims: Seq<Claim>,
    origin: Seq<(String, String)>,
)
    requires
        before_claims.len() == done.len(),
        before_origin.len() == done.len(),
        forall|index: int| 0 <= index < done.len() ==> admits(done[index].0, done[index].1, #[trigger] before_claims[index]),
        forall|index: int| 0 <= index < done.len() ==> #[trigger] before_origin[index].0@ == done[index].1.id@,
        entries_sound(done),
        claims.len() == done.len() + raws.len(),
        origin.len() == claims.len(),
        claims.subrange(0, done.len() as int) == before_claims,
        origin.subrange(0, done.len() as int) == before_origin,
        admitted_after(task, raws, before_claims, before_origin, claims, origin),
    ensures
        ({
            let next = done + raws.map_values(|raw: RawClaim| (task, raw));
            &&& forall|index: int| 0 <= index < claims.len() ==> admits(next[index].0, next[index].1, #[trigger] claims[index])
            &&& forall|index: int| 0 <= index < origin.len() ==> #[trigger] origin[index].0@ == next[index].1.id@
            &&& entries_sound(next)
        }),
{
    reveal(admitted_after);
    let mapped = raws.map_values(|raw: RawClaim| (task, raw));
    let next = done + mapped;
    assert forall|index: int| 0 <= index < claims.len() implies admits(next[index].0, next[index].1, #[trigger] claims[index]) by {
        if index < done.len() {
            assert(claims.subrange(0, done.len() as int)[index] == before_claims[index]);
        } else {
            let j = index - done.len();
            assert(next[index] == mapped[j]);
            assert(admits(task, raws[j], claims[before_claims.len() + j]));
        }
    }
    assert forall|index: int| 0 <= index < origin.len() implies #[trigger] origin[index].0@ == next[index].1.id@ by {
        if index < done.len() {
            assert(origin.subrange(0, done.len() as int)[index] == before_origin[index]);
        } else {
            let j = index - done.len();
            assert(next[index] == mapped[j]);
            assert(admits(task, raws[j], claims[before_claims.len() + j]));
        }
    }
    assert forall|index: int| 0 <= index < next.len() implies #[trigger] proof_reading(next[index].1) is Proven by {
        assert(admits(next[index].0, next[index].1, claims[index]));
    }
    assert forall|earlier: int, later: int| 0 <= earlier < later < next.len() implies #[trigger] next[earlier].1.id@ != #[trigger] next[later].1.id@ by {
        if later >= done.len() {
            let j = later - done.len();
            assert(next[later] == mapped[j]);
            assert(admits(task, raws[j], claims[before_claims.len() + j]));
            if earlier >= done.len() {
                assert(next[earlier] == mapped[earlier - done.len()]);
            } else {
                assert(next[earlier] == done[earlier]);
                if done[earlier].1.id@ == raws[j].id@ {
                    lemma_origin_lined_up(before_origin, done, raws[j].id@);
                }
            }
        } else {
            assert(next[earlier] == done[earlier]);
            assert(next[later] == done[later]);
        }
    }
}

/// A claim that could not be admitted leaves the files' claims as written
/// unsound: its proof is malformed, or its id is one an earlier claim took.
proof fn lemma_admission_fault(
    all: Seq<(Seq<char>, RawClaim)>,
    done: Seq<(Seq<char>, RawClaim)>,
    task: Seq<char>,
    raws: Seq<RawClaim>,
    before_origin: Seq<(String, String)>,
    origin: Seq<(String, String)>,
    count: int,
)
    requires
        0 <= count < raws.len(),
        all.len() >= done.len() + raws.len(),
        forall|index: int| 0 <= index < done.len() ==> #[trigger] all[index] == done[index],
        forall|index: int| 0 <= index < raws.len() ==> #[trigger] all[done.len() + index] == (task, raws[index]),
        before_origin.len() == done.len(),
        forall|index: int| 0 <= index < done.len() ==> #[trigger] before_origin[index].0@ == done[index].1.id@,
        origin.len() == done.len() + count,
        origin.subrange(0, done.len() as int) == before_origin,
        forall|index: int| 0 <= index < count ==> #[trigger] origin[before_origin.len() + index].0 == raws[index].id,
        !(proof_reading(raws[count]) is Proven) || origin_of(origin, raws[count].id@) is Some,
    ensures
        !entries_sound(all),
{
    let place = done.len() + count;
    assert(all[place] == (task, raws[count]));
    if proof_reading(raws[count]) is Proven {
        let id = raws[count].id@;
        let front = all.subrange(0, place);
        assert forall|index: int| 0 <= index < origin.len() implies #[trigger] origin[index].0@ == front[index].1.id@ by {
            if index < before_origin.len() {
                assert(origin.subrange(0, before_origin.len() as int)[index] == before_origin[index]);
                assert(front[index] == all[index]);
            } else {
                let j = index - before_origin.len();
                assert(front[index] == all[done.len() + j]);
            }
        }
        lemma_origin_lined_up(origin, front, id);
        let earlier = choose|earlier: int| 0 <= earlier < front.len() && #[trigger] front[earlier].1.id@ == id;
        assert(all[earlier].1.id@ == all[place].1.id@);
    } else {
        assert(!(proof_reading(all[place].1) is Proven));
    }
}

/// Whether the files before one were all admitted: each named for a known
/// task and read, every claim in them with one well-formed proof, and no id
/// twice.
pub open spec fn sound_upto(files: Seq<ClaimsFile>, tasks: Seq<String>, at: int) -> bool {
    &&& files_sound(files.subrange(0, at), tasks)
    &&& entries_sound(entries(files.subrange(0, at)))
}

/// Whether a claim as written, after the claims admitted before it (each
/// with the file it comes from), is refused with `error`: for a proof that
/// is not one well-formed proof, the error that says so; for an id declared
/// before, the duplicate naming the file of the claim that declared it first
/// and this claim's file second.
pub open spec fn claim_refusal(
    before: Seq<(Seq<char>, RawClaim)>,
    paths: Seq<Seq<char>>,
    task: Seq<char>,
    raw: RawClaim,
    path: Seq<char>,
    error: RegistryError,
) -> bool {
    match proof_reading(raw) {
        ProofReading::Proven(proof) => error matches RegistryError::DuplicateId { id, first, second } && id == raw.id
            && second@ == path && exists|earlier: int|
            0 <= earlier < before.len() && #[trigger] before[earlier].1.id@ == raw.id@ && first@ == paths[earlier],
        _ => proof_result(task, raw, Err(error)),
    }
}

/// The files the claims admitted before a file's claim come from.
pub open spec fn paths_before(files: Seq<ClaimsFile>, at: int, count: int) -> Seq<Seq<char>> {
    entry_paths(files.subrange(0, at)) + Seq::new(count as nat, |index: int| files[at].path@)
}

/// The claims admitted before a file's claim: every claim of the files
/// before it, then the file's own claims before that one.
pub open spec fn admitted_before(files: Seq<ClaimsFile>, at: int, raws: Seq<RawClaim>, count: int) -> Seq<(Seq<char>, RawClaim)> {
    entries(files.subrange(0, at)) + raws.subrange(0, count).map_values(|raw: RawClaim| (path_stem(files[at].path@), raw))
}

/// Whether a file, after the files before it were admitted, is refused with
/// `error`: a file named for no known task, one that could not be read, or
/// the first of its claims that cannot be admitted.
pub open spec fn file_refusal(tasks: Seq<String>, files: Seq<ClaimsFile>, at: int, error: RegistryError) -> bool {
    let file = files[at];
    let task = path_stem(file.path@);
    if !known(tasks, task) {
        error matches RegistryError::UnknownTask { path } && path@ == file.path@
    } else {
        match file.read {
            Err(failure) => error == failure,
            Ok(raws) => exists|count: int|
                0 <= count < raws@.len() && entries_sound(admitted_before(files, at, raws@, count)) && #[trigger] claim_refusal(
                    admitted_before(files, at, raws@, count),
                    paths_before(files, at, count),
                    task,
                    raws@[count],
                    file.path@,
                    error,
                ),
        }
    }
}

/// Whether a claim as written that proves itself with a scenario names one
/// that exists.
pub open spec fn scenario_found(entry: (Seq<char>, RawClaim), present: Seq<String>) -> bool {
    match proof_reading(entry.1) {
        ProofReading::Proven(Proof::Scenario { name }) => present_in(present, scenario_place(entry.0, name@)),
        _ => true,
    }
}

/// Whether a claim as written that defers to a display record names one in
/// shape that exists.
pub open spec fn record_found(entry: (Seq<char>, RawClaim), present: Seq<String>) -> bool {
    match proof_reading(entry.1) {
        ProofReading::Proven(Proof::Display { record, because }) => record_shaped(record@) && present_in(present, record@),
        _ => true,
    }
}

/// Whether admitted claims are refused with `error` by the checks made of
/// the whole registry: the first claim whose scenario is missing; else the
/// first whose display record is out of shape or missing; else the first
/// registered task, in sorted order, one of whose scenarios names an
/// undeclared claim.
pub open spec fn checks_refusal(
    root: Seq<char>,
    all: Seq<(Seq<char>, RawClaim)>,
    present: Seq<String>,
    scenarios: Seq<ScenarioClaims>,
    error: RegistryError,
) -> bool {
    ||| exists|index: int|
        0 <= index < all.len() && !scenario_found(#[trigger] all[index], present) && (forall|earlier: int|
            0 <= earlier < index ==> scenario_found(#[trigger] all[earlier], present)) && (proof_reading(all[index].1) matches ProofReading::Proven(
            Proof::Scenario { name },
        ) && error matches RegistryError::ScenarioFileMissing { task, id, path } && task@ == all[index].0 && id == all[index].1.id
            && path@ == root + "/"@ + scenario_place(all[index].0, name@))
    ||| (forall|index: int| 0 <= index < all.len() ==> scenario_found(#[trigger] all[index], present)) && exists|index: int|
        0 <= index < all.len() && !record_found(#[trigger] all[index], present) && (forall|earlier: int|
            0 <= earlier < index ==> record_found(#[trigger] all[earlier], present)) && (proof_reading(all[index].1) matches ProofReading::Proven(
            Proof::Display { record, because },
        ) && error matches RegistryError::DisplayRecord { task, id, reason } && task@ == all[index].0 && id == all[index].1.id
            && reason@ == record_reason(record@))
    ||| {
        &&& forall|index: int| 0 <= index < all.len() ==> scenario_found(#[trigger] all[index], present) && record_found(all[index], present)
        &&& error matches RegistryError::ScenarioClaimUndeclared { task, scenario, claim }
        &&& all.map_values(|entry: (Seq<char>, RawClaim)| entry.0).contains(task@)
        &&& task_fault(entry_ids(all), task@, scenarios) == Some((scenario@, claim@))
        &&& forall|index: int|
            0 <= index < all.len() && precedes(#[trigger] all[index].0, task@) ==> task_fault(entry_ids(all), all[index].0, scenarios) is None
    }
}

/// Whether a registry is refused with `error`: at the first file that
/// cannot be admitted, or, every file admitted, by the checks made of the
/// whole registry.
pub open spec fn refusal(
    root: Seq<char>,
    tasks: Seq<String>,
    files: Seq<ClaimsFile>,
    present: Seq<String>,
    scenarios: Seq<ScenarioClaims>,
    error: RegistryError,
) -> bool {
    ||| exists|at: int| 0 <= at < files.len() && sound_upto(files, tasks, at) && #[trigger] file_refusal(tasks, files, at, error)
    ||| sound_upto(files, tasks, files.len() as int) && checks_refusal(root, entries(files), present, scenarios, error)
}

/// A file's claims refused part way: those before the culprit were admitted
/// and its refusal is the culprit's.
proof fn lemma_claim_refused(
    done: Seq<(Seq<char>, RawClaim)>,
    task: Seq<char>,
    raws: Seq<RawClaim>,
    path: Seq<char>,
    before_claims: Seq<Claim>,
    before_origin: Seq<(String, String)>,
    claims: Seq<Claim>,
    origin: Seq<(String, String)>,
    count: int,
    done_paths: Seq<Seq<char>>,
    error: RegistryError,
)
    requires
        done_paths.len() == done.len(),
        forall|index: int| 0 <= index < done.len() ==> #[trigger] before_origin[index].1@ == done_paths[index],
        forall|index: int| 0 <= index < count ==> #[trigger] origin[before_origin.len() + index].1@ == path,
        before_claims.len() == done.len(),
        before_origin.len() == done.len(),
        forall|index: int| 0 <= index < done.len() ==> admits(done[index].0, done[index].1, #[trigger] before_claims[index]),
        forall|index: int| 0 <= index < done.len() ==> #[trigger] before_origin[index].0@ == done[index].1.id@,
        entries_sound(done),
        count == claims.len() - before_claims.len(),
        0 <= count < raws.len(),
        claims.subrange(0, before_claims.len() as int) == before_claims,
        origin.len() == before_origin.len() + count,
        origin.subrange(0, before_origin.len() as int) == before_origin,
        forall|index: int| 0 <= index < count ==> admits(task, raws[index], #[trigger] claims[before_claims.len() + index]),
        forall|index: int| 0 <= index < count ==> origin_of(before_origin, #[trigger] raws[index].id@) is None,
        forall|index: int| 0 <= index < count ==> #[trigger] origin[before_origin.len() + index].0 == raws[index].id,
        forall|earlier: int, index: int| 0 <= earlier < index < count ==> #[trigger] raws[earlier].id@ != #[trigger] raws[index].id@,
        match proof_reading(raws[count]) {
            ProofReading::Proven(proof) => error matches RegistryError::DuplicateId { id, first, second } && id == raws[count].id
                && second@ == path && origin_of(origin, id@) == Some(first@),
            _ => proof_result(task, raws[count], Err(error)),
        },
    ensures
        ({
            let next = done + raws.subrange(0, count).map_values(|raw: RawClaim| (task, raw));
            &&& entries_sound(next)
            &&& claim_refusal(next, done_paths + Seq::new(count as nat, |index: int| path), task, raws[count], path, error)
        }),
{
    let front = raws.subrange(0, count);
    let next = done + front.map_values(|raw: RawClaim| (task, raw));
    assert forall|index: int| 0 <= index < front.len() implies admits(task, front[index], #[trigger] claims[before_claims.len() + index])
        && origin_of(before_origin, front[index].id@) is None
        && origin[before_origin.len() + index].0 == front[index].id
        && forall|earlier: int| 0 <= earlier < index ==> front[earlier].id@ != front[index].id@ by {
        assert(front[index] == raws[index]);
        assert(admits(task, raws[index], claims[before_claims.len() + index]));
        assert forall|earlier: int| 0 <= earlier < index implies front[earlier].id@ != front[index].id@ by {
            assert(front[earlier] == raws[earlier]);
        }
    }
    reveal(admitted_after);
    assert(admitted_after(task, front, before_claims, before_origin, claims, origin));
    lemma_admitted_extends(done, task, front, before_claims, before_origin, claims, origin);
    if proof_reading(raws[count]) is Proven {
        let id = raws[count].id@;
        let paths = done_paths + Seq::new(count as nat, |index: int| path);
        lemma_origin_place(origin, id);
        let earlier = choose|earlier: int| 0 <= earlier < origin.len() && #[trigger] origin[earlier].0@ == id && origin_of(origin, id) == Some(origin[earlier].1@);
        if earlier < before_origin.len() {
            assert(origin.subrange(0, before_origin.len() as int)[earlier] == before_origin[earlier]);
            assert(paths[earlier] == done_paths[earlier]);
        } else {
            let j = earlier - before_origin.len();
            assert(origin[before_origin.len() + j].1@ == path);
            assert(paths[earlier] == path);
        }
        assert(next[earlier].1.id@ == id);
    }
}

/// An id recorded in origins is recorded at some place, with the path that
/// [`origin_of`] gives.
proof fn lemma_origin_place(origin: Seq<(String, String)>, id: Seq<char>)
    ensures
        origin_of(origin, id) is Some ==> exists|earlier: int|
            0 <= earlier < origin.len() && #[trigger] origin[earlier].0@ == id && origin_of(origin, id) == Some(origin[earlier].1@),
    decreases origin.len(),
{
    if origin.len() > 0 {
        lemma_origin_place(origin.drop_first(), id);
        if origin[0].0@ != id && origin_of(origin.drop_first(), id) is Some {
            let later = choose|later: int| 0 <= later < origin.drop_first().len() && #[trigger] origin.drop_first()[later].0@ == id
                && origin_of(origin.drop_first(), id) == Some(origin.drop_first()[later].1@);
            assert(origin[later + 1] == origin.drop_first()[later]);
        }
    }
}

/// What the checks of the whole registry say of claims say of the claims as
/// written they were admitted from.
proof fn lemma_found_lined_up(all: Seq<(Seq<char>, RawClaim)>, claims: Seq<Claim>, present: Seq<String>)
    requires
        claims.len() == all.len(),
        forall|index: int| 0 <= index < all.len() ==> admits(all[index].0, all[index].1, #[trigger] claims[index]),
    ensures
        forall|index: int| 0 <= index < all.len() ==> (scenario_holds(#[trigger] claims[index], present) <==> scenario_found(all[index], present))
            && (record_holds(claims[index], present) <==> record_found(all[index], present)),
        tasks_of(claims) == all.map_values(|entry: (Seq<char>, RawClaim)| entry.0),
        ids_of(claims) == entry_ids(all),
{
    assert forall|index: int| 0 <= index < all.len() implies (scenario_holds(#[trigger] claims[index], present) <==> scenario_found(all[index], present))
        && (record_holds(claims[index], present) <==> record_found(all[index], present)) by {
        assert(admits(all[index].0, all[index].1, claims[index]));
    }
    assert forall|index: int| 0 <= index < all.len() implies #[trigger] tasks_of(claims)[index] == all.map_values(|entry: (Seq<char>, RawClaim)| entry.0)[index] by {
        assert(admits(all[index].0, all[index].1, claims[index]));
    }
    assert(tasks_of(claims) =~= all.map_values(|entry: (Seq<char>, RawClaim)| entry.0));
    assert(claims.map_values(|claim: Claim| claim.id@) =~= all.map_values(|entry: (Seq<char>, RawClaim)| entry.1.id@)) by {
        assert forall|index: int| 0 <= index < claims.len() implies claims[index].id@ == all[index].1.id@ by {
            assert(admits(all[index].0, all[index].1, claims[index]));
        }
    }
}

/// Loads and validates the whole registry from what the caller read: the
/// known task ids, the claims files in sorted order, the files that exist
/// (as paths under the repository in the form their components share), and
/// the claim ids each scenario names.
///
/// The registry holds every claim of every file, in order, when every file
/// is named for a known task and was read, every claim declares one
/// well-formed proof, no two claims share an id, every scenario proof's file
/// exists, every display record is in shape and exists, and no scenario of a
/// registered task names an undeclared claim. Otherwise the
/// [`RegistryError`] of the first refusal: the first file that cannot be
/// admitted (named for no known task, unread, or the first of its claims
/// without one well-formed proof or with an id declared before it), or,
/// every file admitted, the first missing scenario, then the first display
/// record out of shape or missing, then the first registered task, in sorted
/// order, one of whose scenarios names an undeclared claim.
/// Admits the claims of every file in order: each file named for a known
/// task and read, each claim with one well-formed proof and an id no claim
/// before it has. The claims admitted, lined up with the claims as written;
/// or the refusal of the first file that cannot be admitted.
#[verifier::rlimit(40)]
fn admit_files(tasks: &[String], files: &[ClaimsFile]) -> (admitted: Result<Vec<Claim>, RegistryError>)
    ensures
        match admitted {
            Ok(claims) => {
                &&& files_sound(files@, tasks@)
                &&& entries_sound(entries(files@))
                &&& claims@.len() == entries(files@).len()
                &&& forall|index: int| 0 <= index < claims@.len() ==> admits(entries(files@)[index].0, entries(files@)[index].1, #[trigger] claims@[index])
            },
            Err(error) => {
                &&& !(files_sound(files@, tasks@) && entries_sound(entries(files@)))
                &&& exists|at: int| 0 <= at < files@.len() && sound_upto(files@, tasks@, at) && #[trigger] file_refusal(tasks@, files@, at, error)
            },
        },
{
    let mut claims: Vec<Claim> = Vec::new();
    let mut origin: Vec<(String, String)> = Vec::new();
    let mut at: usize = 0;
    assert(files@.subrange(0, 0) =~= Seq::<ClaimsFile>::empty());
    while at < files.len()
        invariant
            at <= files@.len(),
            files_sound(files@.subrange(0, at as int), tasks@),
            claims@.len() == entries(files@.subrange(0, at as int)).len(),
            origin@.len() == claims@.len(),
            forall|index: int| 0 <= index < claims@.len() ==> admits(entries(files@.subrange(0, at as int))[index].0, entries(files@.subrange(0, at as int))[index].1, #[trigger] claims@[index]),
            forall|index: int| 0 <= index < origin@.len() ==> #[trigger] origin@[index].0@ == entries(files@.subrange(0, at as int))[index].1.id@,
            forall|index: int| 0 <= index < origin@.len() ==> #[trigger] origin@[index].1@ == entry_paths(files@.subrange(0, at as int))[index],
            entry_paths(files@.subrange(0, at as int)).len() == entries(files@.subrange(0, at as int)).len(),
            entries_sound(entries(files@.subrange(0, at as int))),
        decreases files@.len() - at,
    {
        let ghost done = files@.subrange(0, at as int);
        let ghost upto = files@.subrange(0, at + 1);
        proof {
            lemma_entries_split(upto, at as int);
            assert(upto.subrange(0, at as int) =~= done);
            assert(upto.subrange(at as int, upto.len() as int) =~= seq![files@[at as int]]);
            lemma_entries_one(files@[at as int]);
            lemma_entries_split(files@, at + 1);
            assert(files@.subrange(0, at + 1) == upto);
        }
        let file = &files[at];
        let task = crate::paths::stem(file.path.as_str());
        let mut listed = false;
        let mut look: usize = 0;
        while look < tasks.len()
            invariant
                look <= tasks@.len(),
                listed == exists|index: int| 0 <= index < look && #[trigger] tasks@[index]@ == task@,
            decreases tasks@.len() - look,
        {
            if tasks[look] == task {
                listed = true;
            }
            look = look + 1;
        }
        if !listed {
            let refused = RegistryError::UnknownTask { path: file.path.clone() };
            proof {
                assert(!known(tasks@, path_stem(files@[at as int].path@)));
                assert(file_refusal(tasks@, files@, at as int, refused));
            }
            return Err(refused);
        }
        proof {
            let index = choose|index: int| 0 <= index < tasks@.len() && #[trigger] tasks@[index]@ == task@;
            assert(known(tasks@, path_stem(files@[at as int].path@)));
        }
        let raws = match &file.read {
            Err(error) => {
                let refused = error.copied();
                proof {
                    assert(file_refusal(tasks@, files@, at as int, refused));
                }
                return Err(refused);
            },
            Ok(raws) => raws,
        };
        let ghost before_claims = claims@;
        let ghost before_origin = origin@;
        let ghost mapped = raws@.map_values(|raw: RawClaim| (task@, raw));
        assert(entries(upto) == entries(done) + mapped);
        let ghost all = entries(files@);
        proof {
            assert(all.subrange(0, entries(upto).len() as int) =~= entries(upto));
        }
        match parse_file(file.path.as_str(), task.as_str(), raws.as_slice(), &mut claims, &mut origin) {
            Err(error) => {
                proof {
                    let count = claims@.len() - before_claims.len();
                    assert forall|index: int| 0 <= index < raws@.len() implies #[trigger] all[entries(done).len() + index] == (task@, raws@[index]) by {
                        assert(all[entries(done).len() + index] == entries(upto)[entries(done).len() + index]);
                        assert(entries(upto)[entries(done).len() + index] == mapped[index]);
                    }
                    assert forall|index: int| 0 <= index < entries(done).len() implies #[trigger] all[index] == entries(done)[index] by {
                        assert(all[index] == entries(upto)[index]);
                    }
                    assert(origin@.len() == before_origin.len() + count);
                    assert forall|index: int| 0 <= index < count implies #[trigger] origin@[before_origin.len() + index].0 == raws@[index].id by {
                        assert(admits(task@, raws@[index], claims@[before_claims.len() + index]));
                    }
                    lemma_admission_fault(all, entries(done), task@, raws@, before_origin, origin@, count);
                    assert forall|index: int| 0 <= index < count implies admits(task@, raws@[index], #[trigger] claims@[before_claims.len() + index])
                        && origin_of(before_origin, raws@[index].id@) is None
                        && origin@[before_origin.len() + index].0 == raws@[index].id
                        && forall|earlier: int| 0 <= earlier < index ==> raws@[earlier].id@ != raws@[index].id@ by {
                        assert(admits(task@, raws@[index], claims@[before_claims.len() + index]));
                    }
                    assert forall|earlier: int, index: int| 0 <= earlier < index < count implies #[trigger] raws@[earlier].id@ != #[trigger] raws@[index].id@ by {
                        assert(admits(task@, raws@[index], claims@[before_claims.len() + index]));
                    }
                    assert forall|index: int| 0 <= index < count implies origin_of(before_origin, #[trigger] raws@[index].id@) is None by {
                        assert(admits(task@, raws@[index], claims@[before_claims.len() + index]));
                    }
                    assert forall|index: int| 0 <= index < count implies #[trigger] origin@[before_origin.len() + index].1@ == file.path@ by {
                        assert(admits(task@, raws@[index], claims@[before_claims.len() + index]));
                    }
                    lemma_claim_refused(
                        entries(done),
                        task@,
                        raws@,
                        file.path@,
                        before_claims,
                        before_origin,
                        claims@,
                        origin@,
                        count,
                        entry_paths(done),
                        error,
                    );
                    assert(admitted_before(files@, at as int, raws@, count) == entries(done) + raws@.subrange(0, count).map_values(
                        |raw: RawClaim| (task@, raw),
                    ));
                    assert(paths_before(files@, at as int, count) =~= entry_paths(done) + Seq::new(count as nat, |index: int| file.path@));
                    assert(claim_refusal(
                        admitted_before(files@, at as int, raws@, count),
                        paths_before(files@, at as int, count),
                        task@,
                        raws@[count],
                        file.path@,
                        error,
                    ));
                    assert(file_refusal(tasks@, files@, at as int, error));
                }
                return Err(error);
            },
            Ok(()) => {},
        }
        proof {
            assert forall|index: int|
                0 <= index < raws@.len() implies admits(task@, raws@[index], #[trigger] claims@[before_claims.len() + index])
                    && origin_of(before_origin, raws@[index].id@) is None
                    && origin@[before_origin.len() + index].0 == raws@[index].id
                    && forall|earlier: int| 0 <= earlier < index ==> raws@[earlier].id@ != raws@[index].id@ by {
                assert(admits(task@, raws@[index], claims@[before_claims.len() + index]));
            }
            reveal(admitted_after);
            assert(admitted_after(task@, raws@, before_claims, before_origin, claims@, origin@));
            lemma_admitted_extends(entries(done), task@, raws@, before_claims, before_origin, claims@, origin@);
            assert(entry_paths(upto) == entry_paths(done) + Seq::new(raws@.len(), |index: int| file.path@));
            assert forall|index: int| 0 <= index < origin@.len() implies #[trigger] origin@[index].1@ == entry_paths(upto)[index] by {
                if index < before_origin.len() {
                    assert(origin@.subrange(0, before_origin.len() as int)[index] == before_origin[index]);
                } else {
                    let j = index - before_origin.len();
                    assert(admits(task@, raws@[j], claims@[before_claims.len() + j]));
                }
            }
            assert forall|index: int| 0 <= index < upto.len() implies known(tasks@, path_stem(#[trigger] upto[index].path@)) && upto[index].read is Ok by {
                if index < at {
                    assert(upto[index] == done[index]);
                }
            }
            assert(files_sound(upto, tasks@));
        }
        at = at + 1;
        proof {
            assert(files@.subrange(0, at as int) == upto);
        }
    }
    proof {
        assert(files@.subrange(0, files@.len() as int) =~= files@);
    }
    Ok(claims)
}

#[verifier::rlimit(40)]
pub fn load(
    root: &str,
    tasks: &[String],
    files: &[ClaimsFile],
    present: &[String],
    scenarios: &[ScenarioClaims],
) -> (loaded: Result<Registry, RegistryError>)
    ensures
        loaded is Ok <==> (files_sound(files@, tasks@) && entries_sound(entries(files@)) && forall|index: int|
            0 <= index < entries(files@).len() ==> entry_checked(entries(files@), #[trigger] entries(files@)[index], present@, scenarios@)),
        loaded matches Ok(registry) ==> registry@.len() == entries(files@).len() && forall|index: int|
            0 <= index < registry@.len() ==> admits(entries(files@)[index].0, entries(files@)[index].1, #[trigger] registry@[index]),
        loaded matches Err(error) ==> refusal(root@, tasks@, files@, present@, scenarios@, error),
{
    let claims = match admit_files(tasks, files) {
        Ok(claims) => claims,
        Err(error) => {
            return Err(error);
        },
    };
    let ghost all = entries(files@);
    proof {
        assert(files@.subrange(0, files@.len() as int) =~= files@);
        lemma_found_lined_up(all, claims@, present@);
    }
    proof {
        assert(claims@.map_values(|claim: Claim| claim.id@).to_set() =~= all.map_values(|entry: (Seq<char>, RawClaim)| entry.1.id@).to_set()) by {
            assert(claims@.map_values(|claim: Claim| claim.id@) =~= all.map_values(|entry: (Seq<char>, RawClaim)| entry.1.id@)) by {
                assert forall|index: int| 0 <= index < claims@.len() implies claims@[index].id@ == all[index].1.id@ by {
                    assert(admits(all[index].0, all[index].1, claims@[index]));
                }
            }
        }
        assert forall|index: int| 0 <= index < claims@.len() implies (scenario_holds(#[trigger] claims@[index], present@) && record_holds(claims@[index], present@)
            && task_fault(ids_of(claims@), claims@[index].task@, scenarios@) is None) <==> entry_checked(all, all[index], present@, scenarios@) by {
            assert(admits(all[index].0, all[index].1, claims@[index]));
        }
    }
    match check_scenario_proofs(root, claims.as_slice(), present) {
        Err(error) => {
            proof {
                let index = choose|index: int| 0 <= index < claims@.len() && !scenario_holds(#[trigger] claims@[index], present@)
                    && (forall|earlier: int| 0 <= earlier < index ==> scenario_holds(#[trigger] claims@[earlier], present@))
                    && (claims@[index].proof matches Proof::Scenario { name } && error matches RegistryError::ScenarioFileMissing {
                        task,
                        id,
                        path,
                    } && task == claims@[index].task && id == claims@[index].id && path@ == root@ + "/"@ + scenario_place(
                        claims@[index].task@,
                        name@,
                    ));
                assert(!entry_checked(all, all[index], present@, scenarios@));
                assert(admits(all[index].0, all[index].1, claims@[index]));
                assert(!scenario_found(all[index], present@));
                assert forall|earlier: int| 0 <= earlier < index implies scenario_found(#[trigger] all[earlier], present@) by {
                    assert(scenario_holds(claims@[earlier], present@));
                }
                assert(checks_refusal(root@, all, present@, scenarios@, error));
                assert(sound_upto(files@, tasks@, files@.len() as int));
            }
            return Err(error);
        },
        Ok(()) => {},
    }
    match check_display_records(claims.as_slice(), present) {
        Err(error) => {
            proof {
                let index = choose|index: int| 0 <= index < claims@.len() && !record_holds(#[trigger] claims@[index], present@)
                    && (forall|earlier: int| 0 <= earlier < index ==> record_holds(#[trigger] claims@[earlier], present@))
                    && (claims@[index].proof matches Proof::Display { record, because } && error matches RegistryError::DisplayRecord {
                        task,
                        id,
                        reason,
                    } && task == claims@[index].task && id == claims@[index].id && reason@ == record_reason(record@));
                assert(scenario_holds(claims@[index], present@));
                assert(!entry_checked(all, all[index], present@, scenarios@));
                assert(admits(all[index].0, all[index].1, claims@[index]));
                assert(!record_found(all[index], present@));
                assert forall|earlier: int| 0 <= earlier < index implies record_found(#[trigger] all[earlier], present@) by {
                    assert(record_holds(claims@[earlier], present@));
                }
                assert forall|at: int| 0 <= at < all.len() implies scenario_found(#[trigger] all[at], present@) by {
                    assert(scenario_holds(claims@[at], present@));
                }
                assert(checks_refusal(root@, all, present@, scenarios@, error));
                assert(sound_upto(files@, tasks@, files@.len() as int));
            }
            return Err(error);
        },
        Ok(()) => {},
    }
    match check_scenario_claims(claims.as_slice(), scenarios) {
        Err(error) => {
            proof {
                let index = choose|index: int| 0 <= index < claims@.len() && !(task_fault(ids_of(claims@), #[trigger] claims@[index].task@, scenarios@) is None);
                assert(scenario_holds(claims@[index], present@));
                assert(record_holds(claims@[index], present@));
                assert(!entry_checked(all, all[index], present@, scenarios@));
                assert forall|at: int| 0 <= at < all.len() implies scenario_found(#[trigger] all[at], present@) && record_found(all[at], present@) by {
                    assert(scenario_holds(claims@[at], present@));
                    assert(record_holds(claims@[at], present@));
                }
                assert forall|at: int| 0 <= at < all.len() && precedes(#[trigger] all[at].0, error->ScenarioClaimUndeclared_task@) implies task_fault(entry_ids(all), all[at].0, scenarios@) is None by {
                    assert(admits(all[at].0, all[at].1, claims@[at]));
                    assert(precedes(claims@[at].task@, error->ScenarioClaimUndeclared_task@));
                }
                assert(checks_refusal(root@, all, present@, scenarios@, error));
                assert(sound_upto(files@, tasks@, files@.len() as int));
            }
            return Err(error);
        },
        Ok(()) => {},
    }
    proof {
        assert forall|index: int| 0 <= index < all.len() implies entry_checked(all, #[trigger] all[index], present@, scenarios@) by {
            assert(scenario_holds(claims@[index], present@));
            assert(record_holds(claims@[index], present@));
            assert(task_fault(ids_of(claims@), claims@[index].task@, scenarios@) is None);
        }
    }
    Ok(Registry { claims })
}


/// Claims admitted from files whose claims are sound, lined up one for one,
/// never share an id: ids are unique across a loaded registry.
pub proof fn lemma_ids_unique(claims: Seq<Claim>, files: Seq<ClaimsFile>)
    requires
        entries_sound(entries(files)),
        claims.len() == entries(files).len(),
        forall|index: int| 0 <= index < claims.len() ==> admits(entries(files)[index].0, entries(files)[index].1, #[trigger] claims[index]),
    ensures
        forall|earlier: int, later: int| 0 <= earlier < later < claims.len() ==> #[trigger] claims[earlier].id@ != #[trigger] claims[later].id@,
{
    let all = entries(files);
    assert forall|earlier: int, later: int| 0 <= earlier < later < claims.len() implies #[trigger] claims[earlier].id@ != #[trigger] claims[later].id@ by {
        assert(admits(all[earlier].0, all[earlier].1, claims[earlier]));
        assert(admits(all[later].0, all[later].1, claims[later]));
        assert(all[earlier].1.id@ != all[later].1.id@);
    }
}

/// Whether a path names a TOML file.
pub open spec fn is_toml(path: Seq<char>) -> bool {
    crate::paths::path_extension(path) == Some("toml"@)
}

/// The TOML files among the entries of one directory, in increasing order:
/// the claims files of the registry, or the scenarios of a task.
pub fn toml_files(entries: &[String]) -> (files: Vec<String>)
    ensures
        strictly_sorted(views_of(files@)),
        views_of(files@).to_set() == views_of(entries@).to_set().filter(|path: Seq<char>| is_toml(path)),
{
    let mut files: Vec<String> = Vec::new();
    let mut index: usize = 0;
    assert(views_of(files@).to_set() =~= views_of(entries@.subrange(0, 0)).to_set().filter(|path: Seq<char>| is_toml(path)));
    while index < entries.len()
        invariant
            index <= entries@.len(),
            strictly_sorted(views_of(files@)),
            views_of(files@).to_set() == views_of(entries@.subrange(0, index as int)).to_set().filter(|path: Seq<char>| is_toml(path)),
        decreases entries@.len() - index,
    {
        proof {
            reveal_strlit("toml");
        }
        let ghost shorter = views_of(entries@.subrange(0, index as int));
        let ghost entry = entries@[index as int]@;
        assert(views_of(entries@.subrange(0, index + 1)) =~= shorter.push(entry));
        proof {
            shorter.lemma_push_to_set_commute(entry);
        }
        let toml = match crate::paths::extension(entries[index].as_str()) {
            Some(found) => spells(chars_of(found.as_str()).as_slice(), "toml"),
            None => false,
        };
        if toml {
            insert_sorted(&mut files, entries[index].clone());
            assert(shorter.to_set().insert(entry).filter(|path: Seq<char>| is_toml(path)) =~= shorter.to_set().filter(|path: Seq<char>| is_toml(path)).insert(entry));
        } else {
            assert(shorter.to_set().insert(entry).filter(|path: Seq<char>| is_toml(path)) =~= shorter.to_set().filter(|path: Seq<char>| is_toml(path)));
        }
        index = index + 1;
    }
    assert(entries@.subrange(0, entries@.len() as int) =~= entries@);
    files
}

} // verus!
