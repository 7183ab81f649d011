//! Labels of control flow and the branches that use them.
use crate::reuse::Reset;
use crate::ir::{BranchOffset, Op};
use crate::pos::{BytePos, Pos};
use vstd::prelude::*;

verus! {

/// A reference to a [`Label`] of a [`LabelRegistry`].
#[derive(Debug, Copy, Clone, PartialEq, Eq, Structural)]
pub struct LabelRef(usize);

impl View for LabelRef {
    type V = nat;

    closed spec fn view(&self) -> nat {
        self.0 as nat
    }
}

/// The target of branches.
#[derive(Debug, Copy, Clone)]
pub enum Label {
    /// The label is pinned to the position of an operator.
    Pinned(Pos<Op>),
    /// The label is not pinned yet.
    Unpinned,
}

impl View for Label {
    type V = Option<nat>;

    open spec fn view(&self) -> Option<nat> {
        match self {
            Label::Pinned(pos) => Some(pos@),
            Label::Unpinned => None,
        }
    }
}

/// A branch to a label that was not pinned when the branch was encoded.
#[derive(Debug, Copy, Clone)]
struct LabelUser {
    /// The label that the branch targets.
    dst: LabelRef,
    /// The position of the encoded item that stores the branch offset.
    src: BytePos,
    /// The position of the encoded branch offset.
    pos: Pos<BranchOffset>,
}

/// A branch and the position of the label that it targets.
#[derive(Debug, Copy, Clone)]
pub struct ResolvedLabelUser {
    /// The position of the encoded item that stores the branch offset.
    pub src: BytePos,
    /// The position that the label is pinned to.
    pub dst: Pos<Op>,
    /// The position of the encoded branch offset.
    pub pos: Pos<BranchOffset>,
}

/// Model of a branch to a label that was not pinned when the branch was encoded.
pub struct UserState {
    /// The index of the label.
    pub label: nat,
    /// The position of the encoded item that stores the branch offset.
    pub src: nat,
    /// The position of the encoded branch offset.
    pub pos: nat,
}

/// Model of a [`LabelRegistry`].
#[verifier::ext_equal]
pub struct LabelsState {
    /// The position of each label if it is pinned.
    pub labels: Seq<Option<nat>>,
    /// The branches to labels that were not pinned when the branches were encoded.
    pub users: Seq<UserState>,
}

impl LabelsState {
    /// The registry without any label.
    pub open spec fn empty() -> Self {
        LabelsState { labels: Seq::empty(), users: Seq::empty() }
    }

    /// Whether `label` refers to a label of the registry.
    pub open spec fn has_label(self, label: nat) -> bool {
        label < self.labels.len()
    }

    /// Whether the label is pinned.
    pub open spec fn is_pinned(self, label: nat) -> bool {
        self.labels[label as int] is Some
    }

    /// The position that the label is pinned to.
    pub open spec fn pinned_at(self, label: nat) -> nat {
        self.labels[label as int]->0
    }

    /// Whether all labels are pinned that are used by a branch.
    pub open spec fn all_users_pinned(self) -> bool {
        forall|i: int|
            0 <= i < self.users.len() ==> self.has_label((#[trigger] self.users[i]).label)
                && self.is_pinned(self.users[i].label)
    }

    /// The registry with another label that is not pinned.
    pub open spec fn with_label(self) -> Self {
        LabelsState { labels: self.labels.push(None), ..self }
    }

    /// The registry after pinning `label` to `pos`.
    pub open spec fn with_pinned(self, label: nat, pos: nat) -> Self {
        LabelsState { labels: self.labels.update(label as int, Some(pos)), ..self }
    }

    /// The registry with another branch.
    pub open spec fn with_user(self, user: UserState) -> Self {
        LabelsState { users: self.users.push(user), ..self }
    }
}

/// All labels of a function and the branches that use them.
#[derive(Debug)]
pub struct LabelRegistry {
    /// The labels of the function.
    labels: Vec<Label>,
    /// The branches to labels that were not pinned when the branches were encoded.
    users: Vec<LabelUser>,
}

impl LabelUser {
    spec fn state(self) -> UserState {
        UserState { label: self.dst@, src: self.src@, pos: self.pos@ }
    }
}

impl View for LabelRegistry {
    type V = LabelsState;

    closed spec fn view(&self) -> LabelsState {
        LabelsState {
            labels: Seq::new(self.labels@.len(), |i: int| self.labels@[i]@),
            users: Seq::new(self.users@.len(), |i: int| self.users@[i].state()),
        }
    }
}

impl Default for LabelRegistry {
    fn default() -> (registry: Self)
        ensures
            registry@ == LabelsState::empty(),
    {
        let registry = LabelRegistry { labels: Vec::new(), users: Vec::new() };
        assert(registry@ =~= LabelsState::empty());
        registry
    }
}

impl Reset for LabelRegistry {
    fn reset(&mut self)
        ensures
            final(self)@ == LabelsState::empty(),
    {
        self.labels.clear();
        self.users.clear();
        assert(self@ =~= LabelsState::empty());
    }
}

impl LabelRegistry {
    /// Allocates a new label that is not pinned.
    pub fn new_label(&mut self) -> (lref: LabelRef)
        ensures
            lref@ == old(self)@.labels.len(),
            final(self)@ == old(self)@.with_label(),
    {
        let lref = LabelRef(self.labels.len());
        self.labels.push(Label::Unpinned);
        assert(self@ =~= old(self)@.with_label());
        lref
    }

    /// Pins the label at `lref` to `pos`.
    pub fn pin_label(&mut self, lref: LabelRef, pos: Pos<Op>)
        requires
            old(self)@.has_label(lref@),
            !old(self)@.is_pinned(lref@),
        ensures
            final(self)@ == old(self)@.with_pinned(lref@, pos@),
    {
        self.labels[lref.0] = Label::Pinned(pos);
        assert(self@ =~= old(self)@.with_pinned(lref@, pos@));
    }

    /// Pins the label at `lref` to `pos` if it is not pinned.
    pub fn pin_label_if_unpinned(&mut self, lref: LabelRef, pos: Pos<Op>)
        requires
            old(self)@.has_label(lref@),
        ensures
            old(self)@.is_pinned(lref@) ==> final(self)@ == old(self)@,
            !old(self)@.is_pinned(lref@) ==> final(self)@ == old(self)@.with_pinned(lref@, pos@),
    {
        if !self.is_pinned(lref) {
            self.pin_label(lref, pos);
        }
    }

    /// Returns the label at `lref`.
    pub fn get_label(&self, lref: LabelRef) -> (label: Label)
        requires
            self@.has_label(lref@),
        ensures
            label@ == self@.labels[lref@ as int],
    {
        self.labels[lref.0]
    }

    /// Returns `true` if the label at `lref` is pinned.
    pub fn is_pinned(&self, lref: LabelRef) -> (pinned: bool)
        requires
            self@.has_label(lref@),
        ensures
            pinned == self@.is_pinned(lref@),
    {
        match self.get_label(lref) {
            Label::Pinned(_) => true,
            Label::Unpinned => false,
        }
    }

    /// Registers a branch to the label at `dst` whose target is not known yet.
    pub fn new_user(&mut self, dst: LabelRef, src: BytePos, pos: Pos<BranchOffset>)
        ensures
            final(self)@ == old(self)@.with_user(
                UserState { label: dst@, src: src@, pos: pos@ },
            ),
    {
        self.users.push(LabelUser { dst, src, pos });
        assert(self@ =~= old(self)@.with_user(UserState { label: dst@, src: src@, pos: pos@ }));
    }

    /// Returns all registered branches and the positions of the labels that they target.
    pub fn resolved_users(&self) -> (users: Vec<ResolvedLabelUser>)
        requires
            self@.all_users_pinned(),
        ensures
            users@.len() == self@.users.len(),
            forall|i: int|
                0 <= i < users@.len() ==> {
                    let user = self@.users[i];
                    &&& (#[trigger] users@[i]).src@ == user.src
                    &&& users@[i].pos@ == user.pos
                    &&& users@[i].dst@ == self@.pinned_at(user.label)
                },
    {
        let mut users: Vec<ResolvedLabelUser> = Vec::new();
        let mut i: usize = 0;
        while i < self.users.len()
            invariant
                i <= self.users@.len(),
                self@.all_users_pinned(),
                users@.len() == i,
                forall|j: int|
                    0 <= j < i ==> {
                        let user = self@.users[j];
                        &&& (#[trigger] users@[j]).src@ == user.src
                        &&& users@[j].pos@ == user.pos
                        &&& users@[j].dst@ == self@.pinned_at(user.label)
                    },
            decreases self.users@.len() - i,
        {
            let user = self.users[i];
            assert(self@.users[i as int] == user.state());
            if let Label::Pinned(dst) = self.get_label(user.dst) {
                users.push(ResolvedLabelUser { src: user.src, dst, pos: user.pos });
            }
            i = i + 1;
        }
        users
    }
}

} // verus!
