//! The seeded generator that the tests of several crates share, and the
//! registry operations it draws.
//!
//! Randomness is a hand-written xorshift over a `u64` seed, so a failure is
//! reproduced by its seed. Every operation names what it acts on by position
//! rather than by identity, and [`chosen`] resolves such a position against
//! whatever a model holds.
use vstd::prelude::*;

use crate::text::{decimal, decimal_chars, extend_str, string_of};

verus! {

/// The first shift of the xorshift, to the left.
pub const FIRST_SHIFT: u64 = 13;

/// The second shift, to the right.
pub const SECOND_SHIFT: u64 = 7;

/// The third shift, to the left again.
pub const THIRD_SHIFT: u64 = 17;

/// The state a seed of zero starts from. Zero is a fixed point of the
/// xorshift, so the one seed that would draw nothing but zeros is given a
/// state that draws.
pub const ZERO_SEED_STATE: u64 = 0x9E37_79B9_7F4A_7C15;

/// The two ways a choice with two sides can go.
pub const EITHER: u64 = 2;

/// The largest position an operation's chooser names; [`chosen`] wraps it.
pub const CHOOSER_SPREAD: u64 = 64;

/// How many kinds of registry operation there are.
pub const OPERATION_KINDS: u64 = 11;

/// The widths a generated pane is given, from this upward.
pub const SMALLEST_COLUMNS: u16 = 20;

/// The heights a generated pane is given, from this upward.
pub const SMALLEST_ROWS: u16 = 5;

/// How much larger than the smallest a generated pane may be.
pub const SIZE_SPREAD: u64 = 200;

/// The largest weight a generated split hands out.
pub const WEIGHT_SPREAD: u64 = 4;

/// The item a chooser names, wrapping when it names more than there are, and
/// `None` when there is nothing to choose from.
pub fn chosen<Item>(items: &[Item], chooser: usize) -> (found: Option<&Item>)
    ensures
        items@.len() == 0 ==> found is None,
        items@.len() > 0 ==> found == Some(&items@[(chooser as int) % (items@.len() as int)]),
{
    if items.len() == 0 {
        None
    } else {
        Some(&items[chooser % items.len()])
    }
}

/// One step of the xorshift.
pub open spec fn step(state: u64) -> u64 {
    let first = state ^ (state << 13u64);
    let second = first ^ (first >> 7u64);
    second ^ (second << 17u64)
}

/// The state a seed starts from.
pub open spec fn seeded(seed: u64) -> u64 {
    if seed == 0 {
        ZERO_SEED_STATE
    } else {
        seed
    }
}

/// A draw below `limit` from `state`: the value, and the state after it.
pub open spec fn below_from(state: u64, limit: u64) -> (u64, u64) {
    let next = step(state);
    (if limit == 0 {
        0
    } else {
        (next % limit) as u64
    }, next)
}

/// A chooser drawn from `state`, and the state after it.
pub open spec fn chooser_from(state: u64) -> (usize, u64) {
    let (value, next) = below_from(state, CHOOSER_SPREAD);
    (value as usize, next)
}

/// A direction drawn from `state`, and the state after it.
pub open spec fn direction_from(state: u64) -> (SplitDirection, u64) {
    let (value, next) = below_from(state, EITHER);
    (if value == 0 {
        SplitDirection::Horizontal
    } else {
        SplitDirection::Vertical
    }, next)
}

/// A name of a kind drawn from `state`, and the state after it: the kind, a
/// hyphen, and the decimal of the next value.
pub open spec fn name_from(kind: Seq<char>, state: u64) -> (Seq<char>, u64) {
    let next = step(state);
    (kind + seq!['-'] + decimal(next as nat), next)
}

/// Where a new pane goes, drawn from `state`: beside which pane, which way,
/// and whether before it; and the state after.
pub open spec fn placement_from(state: u64) -> ((usize, SplitDirection, bool), u64) {
    let (target, first) = chooser_from(state);
    let (direction, second) = direction_from(first);
    let (side, third) = below_from(second, EITHER);
    ((target, direction, side == 0), third)
}

/// The operation of the kind at `index` drawn from `state`, and the state
/// after it.
pub open spec fn operation_of_kind(index: u64, state: u64) -> (OperationModel, u64) {
    if index == 0 {
        let (name, next) = name_from(seq!['s', 'e', 's', 's', 'i', 'o', 'n'], state);
        (OperationModel::CreateSession { name }, next)
    } else if index == 1 {
        let (session, first) = chooser_from(state);
        let (name, second) = name_from(seq!['t', 'a', 'b'], first);
        (OperationModel::CreateTab { session, name }, second)
    } else if index == 2 {
        let (tab, first) = chooser_from(state);
        let ((target, direction, before), second) = placement_from(first);
        (OperationModel::CreatePane { tab, target, direction, before }, second)
    } else if index == 3 {
        let (tab, first) = chooser_from(state);
        let (pane, second) = chooser_from(first);
        (OperationModel::ClosePane { tab, pane }, second)
    } else if index == 4 {
        let (tab, first) = chooser_from(state);
        let (pane, second) = chooser_from(first);
        let (to_tab, third) = chooser_from(second);
        let ((target, direction, before), fourth) = placement_from(third);
        (OperationModel::MovePane { tab, pane, to_tab, target, direction, before }, fourth)
    } else if index == 5 {
        let (session, first) = chooser_from(state);
        let (name, second) = name_from(seq!['s', 'e', 's', 's', 'i', 'o', 'n'], first);
        (OperationModel::RenameSession { session, name }, second)
    } else if index == 6 {
        let (tab, first) = chooser_from(state);
        let (name, second) = name_from(seq!['t', 'a', 'b'], first);
        (OperationModel::RenameTab { tab, name }, second)
    } else if index == 7 {
        let (tab, first) = chooser_from(state);
        (OperationModel::CloseTab { tab }, first)
    } else if index == 8 {
        let (session, first) = chooser_from(state);
        (OperationModel::CloseSession { session }, first)
    } else if index == 9 {
        let (session, first) = chooser_from(state);
        let (rotation, second) = chooser_from(first);
        (OperationModel::ReorderTabs { session, rotation }, second)
    } else {
        let (tab, first) = chooser_from(state);
        (OperationModel::SetLayout { tab }, first)
    }
}

/// One operation drawn from `state`: its kind first, then its fields.
pub open spec fn operation_from(state: u64) -> (OperationModel, u64) {
    let (index, next) = below_from(state, OPERATION_KINDS);
    operation_of_kind(index, next)
}

/// The first `count` operations drawn from `state`, and the state after them.
pub open spec fn operations_from(state: u64, count: nat) -> (Seq<OperationModel>, u64)
    decreases count,
{
    if count == 0 {
        (seq![], state)
    } else {
        let (earlier, middle) = operations_from(state, (count - 1) as nat);
        let (last, next) = operation_from(middle);
        (earlier.push(last), next)
    }
}

/// Zero is the one fixed point of the xorshift: every other state steps to a
/// state that is not zero, so a generator that does not start at zero never
/// reaches it.
pub proof fn lemma_step_keeps_nonzero(state: u64)
    requires
        state != 0,
    ensures
        step(state) != 0,
{
    assert(state != 0 ==> {
        let first = state ^ (state << 13u64);
        let second = first ^ (first >> 7u64);
        second ^ (second << 17u64) != 0
    }) by (bit_vector);
}

/// The two ways a pane is split beside another.
#[derive(Clone, Copy, Debug, PartialEq, Eq, Hash)]
pub enum SplitDirection {
    /// Side by side.
    Horizontal,
    /// One above the other.
    Vertical,
}

/// A registry operation as a value of its own, names as their characters.
pub enum OperationModel {
    /// Create a session.
    CreateSession { name: Seq<char> },
    /// Create a tab in the chosen session.
    CreateTab { session: usize, name: Seq<char> },
    /// Create a pane in the chosen tab, beside the chosen one.
    CreatePane { tab: usize, target: usize, direction: SplitDirection, before: bool },
    /// Close the chosen pane.
    ClosePane { tab: usize, pane: usize },
    /// Move the chosen pane into another tab.
    MovePane {
        tab: usize,
        pane: usize,
        to_tab: usize,
        target: usize,
        direction: SplitDirection,
        before: bool,
    },
    /// Rename the chosen session.
    RenameSession { session: usize, name: Seq<char> },
    /// Rename the chosen tab.
    RenameTab { tab: usize, name: Seq<char> },
    /// Close the chosen tab.
    CloseTab { tab: usize },
    /// Close the chosen session.
    CloseSession { session: usize },
    /// Rotate the chosen session's tabs.
    ReorderTabs { session: usize, rotation: usize },
    /// Arrange the chosen tab's panes another way.
    SetLayout { tab: usize },
}

/// One thing to ask a registry to do, named by position rather than by
/// identity: a registry mints its own ids, so a sequence generated before it
/// runs can only say "the third pane of the second tab". Every chooser is
/// resolved with [`chosen`] against the model as it stands when the
/// operation runs.
#[derive(Clone, Debug, PartialEq, Eq)]
pub enum RegistryOperation {
    /// Create a session, with its first tab and that tab's first pane.
    CreateSession {
        /// What to call it.
        name: String,
    },
    /// Create a tab in the chosen session.
    CreateTab {
        /// Which session.
        session: usize,
        /// What to call it.
        name: String,
    },
    /// Create a pane in the chosen tab, beside the chosen one.
    CreatePane {
        /// Which tab, counted across the host.
        tab: usize,
        /// Which of its panes to split.
        target: usize,
        /// Which way to split it.
        direction: SplitDirection,
        /// Whether the new pane goes before the one it splits.
        before: bool,
    },
    /// Close the chosen pane.
    ClosePane {
        /// Which tab, counted across the host.
        tab: usize,
        /// Which of its panes.
        pane: usize,
    },
    /// Move the chosen pane into another tab, beside the chosen one.
    MovePane {
        /// Which tab it is in, counted across the host.
        tab: usize,
        /// Which of its panes.
        pane: usize,
        /// Which tab it goes to, counted across the host.
        to_tab: usize,
        /// Which of that tab's panes it is placed beside.
        target: usize,
        /// Which way to split that one.
        direction: SplitDirection,
        /// Whether it goes before the one it splits.
        before: bool,
    },
    /// Rename the chosen session.
    RenameSession {
        /// Which session.
        session: usize,
        /// What to call it.
        name: String,
    },
    /// Rename the chosen tab.
    RenameTab {
        /// Which tab, counted across the host.
        tab: usize,
        /// What to call it.
        name: String,
    },
    /// Close the chosen tab and every pane in it.
    CloseTab {
        /// Which tab, counted across the host.
        tab: usize,
    },
    /// Close the chosen session and everything under it.
    CloseSession {
        /// Which session.
        session: usize,
    },
    /// Rotate the chosen session's tabs by this much.
    ReorderTabs {
        /// Which session.
        session: usize,
        /// How far to rotate them left.
        rotation: usize,
    },
    /// Arrange the chosen tab's panes another way.
    SetLayout {
        /// Which tab, counted across the host.
        tab: usize,
    },
}

impl View for RegistryOperation {
    type V = OperationModel;

    open spec fn view(&self) -> OperationModel {
        match self {
            RegistryOperation::CreateSession { name } => OperationModel::CreateSession {
                name: name@,
            },
            RegistryOperation::CreateTab { session, name } => OperationModel::CreateTab {
                session: *session,
                name: name@,
            },
            RegistryOperation::CreatePane { tab, target, direction, before } =>
                OperationModel::CreatePane {
                tab: *tab,
                target: *target,
                direction: *direction,
                before: *before,
            },
            RegistryOperation::ClosePane { tab, pane } => OperationModel::ClosePane {
                tab: *tab,
                pane: *pane,
            },
            RegistryOperation::MovePane { tab, pane, to_tab, target, direction, before } =>
                OperationModel::MovePane {
                tab: *tab,
                pane: *pane,
                to_tab: *to_tab,
                target: *target,
                direction: *direction,
                before: *before,
            },
            RegistryOperation::RenameSession { session, name } => OperationModel::RenameSession {
                session: *session,
                name: name@,
            },
            RegistryOperation::RenameTab { tab, name } => OperationModel::RenameTab {
                tab: *tab,
                name: name@,
            },
            RegistryOperation::CloseTab { tab } => OperationModel::CloseTab { tab: *tab },
            RegistryOperation::CloseSession { session } => OperationModel::CloseSession {
                session: *session,
            },
            RegistryOperation::ReorderTabs { session, rotation } => OperationModel::ReorderTabs {
                session: *session,
                rotation: *rotation,
            },
            RegistryOperation::SetLayout { tab } => OperationModel::SetLayout { tab: *tab },
        }
    }
}

/// A deterministic source of registry operations: the same seed yields the
/// same everything.
#[derive(Debug)]
pub struct ModelGenerator {
    /// The xorshift state, never zero.
    state: u64,
}

impl ModelGenerator {
    /// The state the generator is at.
    pub closed spec fn state_of(&self) -> u64 {
        self.state
    }

    /// The generator is never at zero, the one state the xorshift cannot
    /// leave.
    #[verifier::type_invariant]
    closed spec fn drawing(self) -> bool {
        self.state != 0
    }

    /// A generator from a seed. The same seed yields the same everything.
    pub fn new(seed: u64) -> (generator: ModelGenerator)
        ensures
            generator.state_of() == seeded(seed),
            generator.state_of() != 0,
    {
        ModelGenerator { state: if seed == 0 { ZERO_SEED_STATE } else { seed } }
    }

    /// The next value of the xorshift.
    fn next(&mut self) -> (value: u64)
        ensures
            value == step(old(self).state_of()),
            final(self).state_of() == value,
    {
        proof {
            use_type_invariant(&*self);
            lemma_step_keeps_nonzero(self.state);
        }
        let mut state = self.state;
        state = state ^ (state << 13u64);
        state = state ^ (state >> 7u64);
        state = state ^ (state << 17u64);
        self.state = state;
        state
    }

    /// The next value below `limit`, or zero when `limit` is zero.
    fn below(&mut self, limit: u64) -> (value: u64)
        ensures
            (value, final(self).state_of()) == below_from(old(self).state_of(), limit),
    {
        let drawn = self.next();
        if limit == 0 {
            0
        } else {
            drawn % limit
        }
    }

    /// The next index below `count`, or `None` when there is nothing to pick.
    fn pick(&mut self, count: usize) -> (picked: Option<usize>)
        ensures
            count == 0 ==> picked is None && final(self).state_of() == old(self).state_of(),
            count > 0 ==> picked == Some(below_from(old(self).state_of(), count as u64).0 as usize)
                && final(self).state_of() == below_from(old(self).state_of(), count as u64).1,
    {
        if count == 0 {
            return None;
        }
        let drawn = self.below(count as u64);
        Some(drawn as usize)
    }

    /// A name nothing else carries, so a rename is visible: the kind, a
    /// hyphen and the next value.
    fn name(&mut self, kind: &str) -> (named: String)
        ensures
            (named@, final(self).state_of()) == name_from(kind@, old(self).state_of()),
    {
        let mut held: Vec<char> = Vec::new();
        extend_str(&mut held, kind);
        held.push('-');
        let value = self.next();
        let digits = decimal_chars(value);
        let ghost before = held@;
        crate::text::extend(&mut held, digits.as_slice());
        assert(held@ == kind@ + seq!['-'] + decimal(value as nat));
        string_of(held.as_slice())
    }

    /// A size a pane is given: columns and rows, each at least the smallest.
    fn size(&mut self) -> (sized: (u16, u16))
        ensures
            sized.0 == SMALLEST_COLUMNS + below_from(old(self).state_of(), SIZE_SPREAD).0,
            sized.1 == SMALLEST_ROWS + below_from(
                below_from(old(self).state_of(), SIZE_SPREAD).1,
                SIZE_SPREAD,
            ).0,
            final(self).state_of() == below_from(
                below_from(old(self).state_of(), SIZE_SPREAD).1,
                SIZE_SPREAD,
            ).1,
    {
        let columns = self.below(SIZE_SPREAD) as u16;
        let rows = self.below(SIZE_SPREAD) as u16;
        (SMALLEST_COLUMNS + columns, SMALLEST_ROWS + rows)
    }

    /// A weight a split hands a child; never zero, which no model allows.
    fn weight(&mut self) -> (weighed: u32)
        ensures
            weighed == below_from(old(self).state_of(), WEIGHT_SPREAD).0 + 1,
            1 <= weighed <= WEIGHT_SPREAD,
            final(self).state_of() == below_from(old(self).state_of(), WEIGHT_SPREAD).1,
    {
        let drawn = self.below(WEIGHT_SPREAD) as u32;
        drawn + 1
    }

    /// A direction.
    fn direction(&mut self) -> (drawn: SplitDirection)
        ensures
            (drawn, final(self).state_of()) == direction_from(old(self).state_of()),
    {
        if self.below(EITHER) == 0 {
            SplitDirection::Horizontal
        } else {
            SplitDirection::Vertical
        }
    }

    /// A chooser, resolved by [`chosen`] against whatever the model holds.
    fn chooser(&mut self) -> (drawn: usize)
        ensures
            (drawn, final(self).state_of()) == chooser_from(old(self).state_of()),
            drawn < CHOOSER_SPREAD,
    {
        self.below(CHOOSER_SPREAD) as usize
    }

    /// Where a new pane goes: beside which of a tab's panes, which way, and
    /// on which side.
    fn placement(&mut self) -> (drawn: (usize, SplitDirection, bool))
        ensures
            (drawn, final(self).state_of()) == placement_from(old(self).state_of()),
    {
        let target = self.chooser();
        let direction = self.direction();
        let before = self.below(EITHER) == 0;
        (target, direction, before)
    }

    /// One operation to ask a registry for.
    fn operation(&mut self) -> (drawn: RegistryOperation)
        ensures
            (drawn@, final(self).state_of()) == operation_from(old(self).state_of()),
    {
        proof {
            reveal_strlit("session");
            reveal_strlit("tab");
            assert("session"@ =~= seq!['s', 'e', 's', 's', 'i', 'o', 'n']);
            assert("tab"@ =~= seq!['t', 'a', 'b']);
        }
        let index = self.below(OPERATION_KINDS);
        if index == 0 {
            RegistryOperation::CreateSession { name: self.name("session") }
        } else if index == 1 {
            let session = self.chooser();
            RegistryOperation::CreateTab { session, name: self.name("tab") }
        } else if index == 2 {
            let tab = self.chooser();
            let (target, direction, before) = self.placement();
            RegistryOperation::CreatePane { tab, target, direction, before }
        } else if index == 3 {
            let tab = self.chooser();
            let pane = self.chooser();
            RegistryOperation::ClosePane { tab, pane }
        } else if index == 4 {
            let tab = self.chooser();
            let pane = self.chooser();
            let to_tab = self.chooser();
            let (target, direction, before) = self.placement();
            RegistryOperation::MovePane { tab, pane, to_tab, target, direction, before }
        } else if index == 5 {
            let session = self.chooser();
            RegistryOperation::RenameSession { session, name: self.name("session") }
        } else if index == 6 {
            let tab = self.chooser();
            RegistryOperation::RenameTab { tab, name: self.name("tab") }
        } else if index == 7 {
            RegistryOperation::CloseTab { tab: self.chooser() }
        } else if index == 8 {
            RegistryOperation::CloseSession { session: self.chooser() }
        } else if index == 9 {
            let session = self.chooser();
            RegistryOperation::ReorderTabs { session, rotation: self.chooser() }
        } else {
            RegistryOperation::SetLayout { tab: self.chooser() }
        }
    }

    /// A sequence of registry operations, in the order to run them: as many
    /// as asked for, each drawn after the one before it.
    pub fn operations(&mut self, count: usize) -> (drawn: Vec<RegistryOperation>)
        ensures
            drawn@.len() == count,
            drawn@.map_values(|operation: RegistryOperation| operation@) == operations_from(
                old(self).state_of(),
                count as nat,
            ).0,
            final(self).state_of() == operations_from(old(self).state_of(), count as nat).1,
    {
        let mut drawn: Vec<RegistryOperation> = Vec::new();
        let mut index: usize = 0;
        while index < count
            invariant
                index <= count,
                drawn@.len() == index,
                drawn@.map_values(|operation: RegistryOperation| operation@) == operations_from(
                    old(self).state_of(),
                    index as nat,
                ).0,
                self.state_of() == operations_from(old(self).state_of(), index as nat).1,
            decreases count - index,
        {
            let operation = self.operation();
            drawn.push(operation);
            index = index + 1;
            assert(drawn@.map_values(|operation: RegistryOperation| operation@) =~= operations_from(
                old(self).state_of(),
                index as nat,
            ).0);
        }
        drawn
    }
}

} // verus!
