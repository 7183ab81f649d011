//! Sequences of encoder operations and what all of them keep.
use crate::encoder::{self, AllocationsState, EncoderState};
use crate::engine::Engine;
use crate::ir::{self, Dispatch, Encode, Op, Operand, Piece};
use crate::labels::{LabelsState, UserState};
use crate::laws;
use crate::ops::{self, BranchState};
use crate::word;
use vstd::prelude::*;

verus! {

/// A change of the state of an encoder.
pub enum Step {
    /// Allocates a new label.
    NewLabel,
    /// Pins a label that is not pinned yet.
    PinLabel(nat),
    /// Commits the staged operator if there is any.
    Commit,
    /// Pads the buffer for the next operator.
    Pad,
    /// Encodes pieces of an operator without branch offset and without the fuel of a block.
    Emit(Seq<Piece>),
    /// Stages an operator.
    Stage(Op),
    /// Drops the staged operator.
    Drop,
    /// Replaces the staged operator, of which the pieces are encoded.
    Replace(Op, Seq<Piece>),
    /// Encodes a branch to a label.
    Branch {
        /// The label that the branch targets.
        label: nat,
        /// The pieces of the branch.
        pieces: Seq<Piece>,
        /// The index of the branch offset among the pieces.
        index: int,
    },
    /// Encodes an operator that consumes a unit of fuel.
    ConsumeFuel,
    /// Changes the fuel of an operator that consumes fuel.
    ChangeFuel {
        /// The position of the fuel.
        pos: nat,
        /// The new amount of fuel.
        amount: nat,
    },
    /// Stores the distances to the labels of all branches that waited for them.
    Resolve,
}

impl EncoderState {
    /// Whether the state admits the step.
    pub open spec fn admits(self, step: Step) -> bool {
        match step {
            Step::NewLabel => true,
            Step::PinLabel(label) => {
                &&& self.staged is None
                &&& self.labels.has_label(label)
                &&& !self.labels.is_pinned(label)
            },
            Step::Commit => true,
            Step::Pad => true,
            Step::Emit(pieces) => self.staged is None && ir::is_silent(pieces),
            Step::Stage(op) => ir::is_silent(op.pieces()),
            Step::Drop => self.staged is Some,
            Step::Replace(_, pieces) => self.staged is Some && ir::is_silent(pieces),
            Step::Branch { label, pieces, index } => {
                &&& self.labels.has_label(label)
                &&& ir::reports_branch_at(pieces, index)
                &&& pieces[index]->Operand_0->BranchOffset_0@ == self.offset_to(label)
            },
            Step::ConsumeFuel => self.consume_fuel,
            Step::ChangeFuel { pos, amount } => self.has_fuel_at(pos) && amount <= u64::MAX,
            Step::Resolve => self.labels.all_users_pinned(),
        }
    }

    /// The state after the step.
    pub open spec fn after(self, step: Step) -> Self {
        match step {
            Step::NewLabel => EncoderState { labels: self.labels.with_label(), ..self },
            Step::PinLabel(label) => self.pinned(label),
            Step::Commit => self.committed(),
            Step::Pad => self.padded(),
            Step::Emit(pieces) => self.emitted(pieces),
            Step::Stage(op) => self.staged(op),
            Step::Drop => self.dropped(),
            Step::Replace(op, pieces) => self.replaced(op, pieces),
            Step::Branch { label, pieces, index } => self.branched(label, pieces, index),
            Step::ConsumeFuel => self.with_consume_fuel(1),
            Step::ChangeFuel { pos, amount } => self.with_block_fuel(pos, amount),
            Step::Resolve => self.with_resolved_branches(),
        }
    }

    /// Whether the state admits the steps one after another.
    pub open spec fn admits_all(self, steps: Seq<Step>) -> bool
        decreases steps.len(),
    {
        steps.len() == 0 || {
            &&& self.admits_all(steps.drop_last())
            &&& self.after_all(steps.drop_last()).admits(steps.last())
        }
    }

    /// The state after the steps.
    pub open spec fn after_all(self, steps: Seq<Step>) -> Self
        decreases steps.len(),
    {
        if steps.len() == 0 {
            self
        } else {
            self.after_all(steps.drop_last()).after(steps.last())
        }
    }

    /// Whether the fuel of a block may reside at `pos`: it is committed and does not overlap with
    /// any branch offset.
    pub open spec fn has_fuel_at(self, pos: nat) -> bool {
        &&& pos + 8 <= self.committed_len()
        &&& forall|i: int|
            0 <= i < self.ops.branch_offsets.len() ==> pos + 8 <= (
            #[trigger] self.ops.branch_offsets[i]).pos || self.ops.branch_offsets[i].pos
                + word::word_len() <= pos
    }

    /// Whether a branch waits for its label whose offset is at `pos`.
    pub open spec fn waits_at(self, pos: nat) -> bool {
        exists|i: int| 0 <= i < self.labels.users.len() && (#[trigger] self.labels.users[i]).pos == pos
    }

    /// Whether the branch is registered and leads to the label: it either waits for the label, or
    /// its offset is the distance to the position that the label is pinned to.
    pub open spec fn leads_to(self, branch: BranchState, label: nat) -> bool {
        &&& self.ops.branch_offsets.contains(branch)
        &&& self.labels.has_label(label)
        &&& if self.waits_at(branch.pos) {
            self.labels.users.contains(
                UserState { label, src: branch.src, pos: branch.pos },
            )
        } else {
            self.is_resolved(branch, label)
        }
    }

    /// Whether the label is pinned and the offset of the branch is the distance to its position.
    pub open spec fn is_resolved(self, branch: BranchState, label: nat) -> bool {
        &&& self.labels.is_pinned(label)
        &&& word::signed_word_at(self.ops.buffer, branch.pos) == word::wrap_isize(
            self.labels.pinned_at(label) - branch.src,
        )
    }
}

/// Every step keeps the state consistent.
pub proof fn law_step_keeps_wf(state: EncoderState, step: Step)
    requires
        state.wf(),
        state.admits(step),
    ensures
        state.after(step).wf(),
{
    laws::law_padding_is_idempotent(state.ops);
    state.lemma_users_in_bounds();
    let after = state.after(step);
    match step {
        Step::Emit(pieces) => {
            state.ops.lemma_silent_keeps_report(pieces);
        },
        Step::Stage(op) => {
            state.ops.padded().lemma_silent_keeps_report(op.pieces());
        },
        Step::Drop => {
            state.ops.lemma_truncate_keeps_branches(state.committed_len());
        },
        Step::Replace(_, pieces) => {
            state.ops.lemma_truncate_keeps_branches(state.committed_len());
            state.ops.truncated(state.committed_len()).lemma_silent_keeps_report(pieces);
        },
        Step::Branch { label, pieces, index } => {
            lemma_branch_keeps_wf(state, label, pieces, index);
        },
        Step::ChangeFuel { pos, amount } => {
            word::lemma_le_bytes_len(amount, 8);
            word::lemma_splice(state.ops.buffer, pos, word::le_bytes(amount, 8));
        },
        Step::Resolve => {
            laws::law_resolution(state.ops.buffer, state.labels, state.labels.users);
        },
        _ => {},
    }
}

/// Encoding a branch keeps the state consistent.
pub proof fn lemma_branch_keeps_wf(state: EncoderState, label: nat, pieces: Seq<Piece>, index: int)
    requires
        state.wf(),
        state.labels.has_label(label),
        ir::reports_branch_at(pieces, index),
    ensures
        state.branched(label, pieces, index).wf(),
{
    let after = state.branched(label, pieces, index);
    let branches = after.ops.branch_offsets;
    ir::lemma_encoding_piece(pieces, index, state.ops.dispatch);
    encoder::lemma_branch_piece_len(pieces[index], state.ops.dispatch);
    assert(branches.last().pos + word::word_len() <= after.ops.buffer.len());
    assert forall|i: int| 0 <= i < after.labels.users.len() implies branches.contains(
        BranchState {
            src: (#[trigger] after.labels.users[i]).src,
            pos: after.labels.users[i].pos,
        },
    ) by {
        if i < state.labels.users.len() {
            let branch = BranchState {
                src: state.labels.users[i].src,
                pos: state.labels.users[i].pos,
            };
            let k = state.ops.branch_offsets.index_of(branch);
            assert(branches[k] == branch);
        } else {
            assert(branches[branches.len() - 1] == branches.last());
        }
    }
    state.lemma_users_in_bounds();
}

/// A registered branch is committed, and two of them either are the same or do not overlap.
proof fn lemma_branch_disjoint(state: EncoderState, a: BranchState, b: BranchState)
    requires
        state.wf_parts(),
        state.ops.branch_offsets.contains(a),
        state.ops.branch_offsets.contains(b),
    ensures
        a.pos + word::word_len() <= state.committed_len(),
        a == b || a.pos + word::word_len() <= b.pos || b.pos + word::word_len() <= a.pos,
{
    let i = state.ops.branch_offsets.index_of(a);
    let j = state.ops.branch_offsets.index_of(b);
    assert(state.ops.branch_offsets[i] == a);
    assert(state.ops.branch_offsets[j] == b);
}

/// A branch keeps leading to its label if neither its offset nor its label changes.
proof fn lemma_still_leads_to(
    state: EncoderState,
    after: EncoderState,
    branch: BranchState,
    label: nat,
)
    requires
        state.leads_to(branch, label),
        branch.pos + word::word_len() <= state.ops.buffer.len(),
        branch.pos + word::word_len() <= after.ops.buffer.len(),
        forall|k: int|
            branch.pos <= k < branch.pos + word::word_len() ==> (#[trigger] after.ops.buffer[k])
                == state.ops.buffer[k],
        after.ops.branch_offsets.contains(branch),
        after.labels.has_label(label),
        state.labels.is_pinned(label) ==> after.labels.labels[label as int]
            == state.labels.labels[label as int],
        after.labels.users == state.labels.users,
    ensures
        after.leads_to(branch, label),
{
    laws::lemma_same_word(after.ops.buffer, state.ops.buffer, branch.pos);
    assert(after.waits_at(branch.pos) == state.waits_at(branch.pos));
}

/// Every step keeps every registered branch leading to its label.
pub proof fn law_step_keeps_branches(
    state: EncoderState,
    step: Step,
    branch: BranchState,
    label: nat,
)
    requires
        state.wf(),
        state.admits(step),
        state.leads_to(branch, label),
    ensures
        state.after(step).leads_to(branch, label),
{
    let after = state.after(step);
    law_step_keeps_wf(state, step);
    laws::law_padding_is_idempotent(state.ops);
    lemma_branch_disjoint(state, branch, branch);
    let k = state.ops.branch_offsets.index_of(branch);
    assert(state.ops.branch_offsets[k] == branch);
    match step {
        Step::Drop => {
            state.ops.lemma_truncate_keeps_branches(state.committed_len());
            lemma_still_leads_to(state, after, branch, label);
        },
        Step::Replace(_, pieces) => {
            state.ops.lemma_truncate_keeps_branches(state.committed_len());
            lemma_still_leads_to(state, after, branch, label);
        },
        Step::Branch { label: other, pieces, index } => {
            assert(after.ops.branch_offsets[k] == branch);
            let same_users = EncoderState {
                labels: LabelsState { users: state.labels.users, ..after.labels },
                ..after
            };
            lemma_still_leads_to(state, same_users, branch, label);
            if !state.labels.is_pinned(other) {
                assert(after.labels.users.drop_last() =~= state.labels.users);
            }
            lemma_new_user_elsewhere(same_users, after, branch, label, state.ops.buffer.len());
        },
        Step::ChangeFuel { pos, amount } => {
            word::lemma_le_bytes_len(amount, 8);
            word::lemma_splice(state.ops.buffer, pos, word::le_bytes(amount, 8));
            lemma_still_leads_to(state, after, branch, label);
        },
        Step::Resolve => {
            state.lemma_users_in_bounds();
            laws::law_resolution(state.ops.buffer, state.labels, state.labels.users);
            assert(after.waits_at(branch.pos) == state.waits_at(branch.pos));
            if !state.waits_at(branch.pos) {
                lemma_not_waiting_is_untouched(state, branch);
                lemma_still_leads_to(state, after, branch, label);
            }
        },
        _ => {
            lemma_still_leads_to(state, after, branch, label);
        },
    }
}

/// A branch that waits elsewhere does not affect where another branch leads to.
proof fn lemma_new_user_elsewhere(
    before: EncoderState,
    after: EncoderState,
    branch: BranchState,
    label: nat,
    start: nat,
)
    requires
        before.leads_to(branch, label),
        branch.pos < start,
        after.ops == before.ops,
        after.labels.labels == before.labels.labels,
        after.labels.users == before.labels.users || {
            &&& after.labels.users.len() == before.labels.users.len() + 1
            &&& after.labels.users.drop_last() == before.labels.users
            &&& after.labels.users.last().pos >= start
        },
    ensures
        after.leads_to(branch, label),
{
    if after.labels.users != before.labels.users {
        let users = after.labels.users;
        assert(users[users.len() - 1] == users.last());
        assert forall|i: int| 0 <= i < before.labels.users.len() implies users[i]
            == #[trigger] before.labels.users[i] by {
            assert(users.drop_last()[i] == users[i]);
        }
        if before.waits_at(branch.pos) {
            let user = UserState { label, src: branch.src, pos: branch.pos };
            let i = before.labels.users.index_of(user);
            assert(before.labels.users[i] == user);
            assert(users[i] == user);
            assert(users.contains(user));
        } else {
            assert forall|i: int| 0 <= i < users.len() implies (#[trigger] users[i]).pos
                != branch.pos by {
                if i < before.labels.users.len() {
                    assert(before.labels.users[i].pos != branch.pos);
                }
            }
            assert(!after.waits_at(branch.pos));
        }
    }
}

/// The offset of a branch that does not wait is not touched by resolving others.
proof fn lemma_not_waiting_is_untouched(state: EncoderState, branch: BranchState)
    requires
        state.wf(),
        state.ops.branch_offsets.contains(branch),
        !state.waits_at(branch.pos),
    ensures
        forall|k: int|
            branch.pos <= k < branch.pos + word::word_len() ==> !#[trigger] encoder::in_user_offset(
                state.labels.users,
                k,
            ),
{
    assert forall|k: int| branch.pos <= k < branch.pos + word::word_len() implies !(
    #[trigger] encoder::in_user_offset(state.labels.users, k)) by {
        if encoder::in_user_offset(state.labels.users, k) {
            let i = choose|i: int|
                0 <= i < state.labels.users.len() && (#[trigger] state.labels.users[i]).pos <= k
                    < state.labels.users[i].pos + word::word_len();
            let user = state.labels.users[i];
            lemma_branch_disjoint(state, branch, BranchState { src: user.src, pos: user.pos });
        }
    }
}

/// An encoded branch is registered and leads to its label.
pub proof fn law_branch_leads_to_label(
    state: EncoderState,
    label: nat,
    pieces: Seq<Piece>,
    index: int,
)
    requires
        state.wf(),
        state.admits(Step::Branch { label, pieces, index }),
    ensures
        state.branched(label, pieces, index).leads_to(
            BranchState {
                src: state.ops.buffer.len(),
                pos: state.branch_offset_pos(pieces, index),
            },
            label,
        ),
{
    let after = state.branched(label, pieces, index);
    let branch = BranchState {
        src: state.ops.buffer.len(),
        pos: state.branch_offset_pos(pieces, index),
    };
    let branches = after.ops.branch_offsets;
    assert(branches[branches.len() - 1] == branch);
    state.lemma_users_in_bounds();
    if state.labels.is_pinned(label) {
        assert forall|i: int| 0 <= i < after.labels.users.len() implies (
        #[trigger] after.labels.users[i]).pos != branch.pos by {}
        assert(!after.waits_at(branch.pos));
        let dispatch = state.ops.dispatch;
        let bytes = ir::encoding(pieces, dispatch);
        let start = ir::encoding(pieces.take(index), dispatch).len();
        ir::lemma_encoding_piece(pieces, index, dispatch);
        encoder::lemma_branch_piece_len(pieces[index], dispatch);
        assert(word::word_bytes_at(after.ops.buffer, branch.pos) =~= bytes.subrange(
            start as int,
            (start + word::word_len()) as int,
        ));
        let offset = state.offset_to(label);
        word::lemma_signed_word_round_trip(after.ops.buffer, branch.pos, offset);
        word::lemma_wrap_isize_range(state.labels.pinned_at(label) - state.ops.buffer.len());
        word::lemma_wrap_isize_in_range(offset);
    } else {
        let users = after.labels.users;
        assert(users[users.len() - 1] == (UserState { label, src: branch.src, pos: branch.pos }));
        assert(after.waits_at(branch.pos));
    }
}

/// After any sequence of steps the state is consistent, and every branch that led to its label
/// before still does.
pub proof fn law_steps_keep_branches(
    state: EncoderState,
    steps: Seq<Step>,
    branch: BranchState,
    label: nat,
)
    requires
        state.wf(),
        state.admits_all(steps),
        state.leads_to(branch, label),
    ensures
        state.after_all(steps).wf(),
        state.after_all(steps).leads_to(branch, label),
    decreases steps.len(),
{
    if steps.len() > 0 {
        let front = steps.drop_last();
        law_steps_keep_branches(state, front, branch, label);
        law_step_keeps_wf(state.after_all(front), steps.last());
        law_step_keeps_branches(state.after_all(front), steps.last(), branch, label);
    }
}

/// Updating the branch offsets once all labels in use are pinned makes the offset of every branch
/// the distance to the position of its label.
pub proof fn law_update_resolves_branches(state: EncoderState, branch: BranchState, label: nat)
    requires
        state.wf(),
        state.labels.all_users_pinned(),
        state.leads_to(branch, label),
    ensures
        state.with_resolved_branches().is_resolved(branch, label),
        state.with_resolved_branches().leads_to(branch, label),
{
    let after = state.with_resolved_branches();
    law_step_keeps_branches(state, Step::Resolve, branch, label);
    if state.waits_at(branch.pos) {
        state.lemma_users_in_bounds();
        laws::law_resolution(state.ops.buffer, state.labels, state.labels.users);
        let user = UserState { label, src: branch.src, pos: branch.pos };
        let i = state.labels.users.index_of(user);
        assert(state.labels.users[i] == user);
    } else {
        assert(!after.waits_at(branch.pos));
    }
}

/// Relocating the encoded operators after updating the branch offsets makes every branch store the
/// address of its label, for operators that reside at the address `base`.
pub proof fn law_relocated_branch_targets_label(
    state: EncoderState,
    base: usize,
    branch: BranchState,
    label: nat,
)
    requires
        state.wf(),
        state.labels.all_users_pinned(),
        state.leads_to(branch, label),
    ensures
        word::le_value(
            word::word_bytes_at(
                ops::relocated(
                    state.with_resolved_branches().ops.buffer,
                    base as int,
                    state.ops.branch_offsets,
                ),
                branch.pos,
            ),
        ) == word::wrap_usize(base + state.labels.pinned_at(label)),
        base + state.ops.buffer.len() <= usize::MAX ==> word::wrap_usize(
            base + state.labels.pinned_at(label),
        ) == base + state.labels.pinned_at(label),
{
    let after = state.with_resolved_branches();
    law_update_resolves_branches(state, branch, label);
    law_step_keeps_wf(state, Step::Resolve);
    laws::law_relocation(after.ops.buffer, base as int, after.ops.branch_offsets);
    let i = after.ops.branch_offsets.index_of(branch);
    assert(after.ops.branch_offsets[i] == branch);
    let target = state.labels.pinned_at(label);
    word::lemma_wrap_usize_sum(base + branch.src, target - branch.src);
    assert(after.labels.labels[label as int] is Some);
    if base + state.ops.buffer.len() <= usize::MAX {
        word::lemma_wrap_usize_in_range(base + target);
    }
}

/// Whatever happens between encoding a branch and relocating the encoded operators, the branch ends
/// up storing the address of its label, once all labels in use are pinned and the branch offsets
/// are updated.
pub proof fn law_encoded_branch_reaches_label(
    state: EncoderState,
    label: nat,
    pieces: Seq<Piece>,
    index: int,
    steps: Seq<Step>,
    base: usize,
)
    requires
        state.wf(),
        state.admits(Step::Branch { label, pieces, index }),
        state.branched(label, pieces, index).admits_all(steps),
        state.branched(label, pieces, index).after_all(steps).labels.all_users_pinned(),
    ensures
        ({
            let last = state.branched(label, pieces, index).after_all(steps);
            let relocated = ops::relocated(
                last.with_resolved_branches().ops.buffer,
                base as int,
                last.ops.branch_offsets,
            );
            let pos = state.branch_offset_pos(pieces, index);
            &&& last.wf()
            &&& word::le_value(word::word_bytes_at(relocated, pos)) == word::wrap_usize(
                base + last.labels.pinned_at(label),
            )
            &&& base + last.ops.buffer.len() <= usize::MAX ==> word::wrap_usize(
                base + last.labels.pinned_at(label),
            ) == base + last.labels.pinned_at(label)
        }),
{
    let step = Step::Branch { label, pieces, index };
    let branch = BranchState {
        src: state.ops.buffer.len(),
        pos: state.branch_offset_pos(pieces, index),
    };
    law_step_keeps_wf(state, step);
    law_branch_leads_to_label(state, label, pieces, index);
    law_steps_keep_branches(state.after(step), steps, branch, label);
    law_relocated_branch_targets_label(state.after(step).after_all(steps), base, branch, label);
}

/// An operator that consumes fuel charges one unit, and its fuel is committed and does not overlap
/// with any branch offset.
pub proof fn law_consume_fuel_charges_one(state: EncoderState)
    requires
        state.wf(),
    ensures
        state.with_consume_fuel(1).block_fuel_at(state.next_block_fuel_pos()) == 1,
        state.with_consume_fuel(1).has_fuel_at(state.next_block_fuel_pos()),
{
    let after = state.with_consume_fuel(1);
    let pos = state.next_block_fuel_pos();
    laws::law_padding_is_idempotent(state.ops);
    word::lemma_le_bytes_len(1, 8);
    word::lemma_pow256_values();
    word::law_le_round_trip(1, 8);
    assert(after.ops.buffer.subrange(pos as int, pos + 8int) =~= word::le_bytes(1, 8));
}

/// Changing the fuel of a block stores the new amount, and only the last change counts.
pub proof fn law_change_fuel(state: EncoderState, pos: nat, first: nat, second: nat)
    requires
        pos + 8 <= state.ops.buffer.len(),
        first <= u64::MAX,
        second <= u64::MAX,
    ensures
        state.with_block_fuel(pos, first).block_fuel_at(pos) == first,
        state.with_block_fuel(pos, first).with_block_fuel(pos, second) == state.with_block_fuel(
            pos,
            second,
        ),
{
    let a = word::le_bytes(first, 8);
    let b = word::le_bytes(second, 8);
    let buffer = state.ops.buffer;
    word::lemma_le_bytes_len(first, 8);
    word::lemma_le_bytes_len(second, 8);
    word::lemma_splice(buffer, pos, a);
    word::lemma_pow256_values();
    word::law_le_round_trip(first, 8);
    assert(word::splice(word::splice(buffer, pos, a), pos, b) =~= word::splice(buffer, pos, b));
}

/// Bumping the fuel of a block by two amounts one after another is the same as bumping it by their
/// sum.
pub proof fn law_bumps_add_up(state: EncoderState, pos: nat, first: nat, second: nat)
    requires
        pos + 8 <= state.ops.buffer.len(),
        state.block_fuel_at(pos) + first + second <= u64::MAX,
    ensures
        ({
            let fuel = state.block_fuel_at(pos);
            let once = state.with_block_fuel(pos, fuel + first);
            &&& once.with_block_fuel(pos, once.block_fuel_at(pos) + second)
                == state.with_block_fuel(pos, fuel + first + second)
        }),
{
    let fuel = state.block_fuel_at(pos);
    law_change_fuel(state, pos, fuel + first, fuel + first + second);
}

/// An encoder that reuses reset allocations starts like an encoder with new allocations, as long
/// as no reported position was left.
pub proof fn law_reset_allocations_are_like_new(engine: Engine, allocations: AllocationsState)
    requires
        allocations.ops.temp is None,
    ensures
        EncoderState::created(engine, allocations.cleared()) == EncoderState::created(
            engine,
            AllocationsState::empty(),
        ),
        EncoderState::created(engine, allocations.cleared()).wf(),
{
}

/// Every step keeps the fuel of every block, apart from changing the fuel at an overlapping
/// position.
pub proof fn law_step_keeps_fuel(state: EncoderState, step: Step, pos: nat)
    requires
        state.wf(),
        state.admits(step),
        state.has_fuel_at(pos),
        step matches Step::ChangeFuel { pos: other, .. } ==> other + 8 <= pos || pos + 8 <= other,
    ensures
        state.after(step).has_fuel_at(pos),
        state.after(step).block_fuel_at(pos) == state.block_fuel_at(pos),
{
    let after = state.after(step);
    laws::law_padding_is_idempotent(state.ops);
    law_step_keeps_wf(state, step);
    match step {
        Step::Drop => {
            state.ops.lemma_truncate_keeps_branches(state.committed_len());
        },
        Step::Replace(_, _) => {
            state.ops.lemma_truncate_keeps_branches(state.committed_len());
        },
        Step::ChangeFuel { pos: other, amount } => {
            word::lemma_le_bytes_len(amount, 8);
            word::lemma_splice(state.ops.buffer, other, word::le_bytes(amount, 8));
        },
        Step::Resolve => {
            state.lemma_users_in_bounds();
            laws::law_resolution(state.ops.buffer, state.labels, state.labels.users);
            assert forall|k: int| pos <= k < pos + 8 implies !(#[trigger] encoder::in_user_offset(
                state.labels.users,
                k,
            )) by {
                if encoder::in_user_offset(state.labels.users, k) {
                    let i = choose|i: int|
                        0 <= i < state.labels.users.len() && (#[trigger] state.labels.users[i]).pos
                            <= k < state.labels.users[i].pos + word::word_len();
                    let user = state.labels.users[i];
                    let branch = BranchState { src: user.src, pos: user.pos };
                    let j = state.ops.branch_offsets.index_of(branch);
                    assert(state.ops.branch_offsets[j] == branch);
                }
            }
        },
        _ => {},
    }
    assert(after.ops.buffer.subrange(pos as int, pos + 8int) =~= state.ops.buffer.subrange(
        pos as int,
        pos + 8int,
    ));
}

/// If there is a staged operator, it stays encoded as the last operator by every step but padding
/// behind it and replacing it without encoding the new operator as a whole.
pub proof fn law_staged_stays_last(state: EncoderState, step: Step)
    requires
        state.wf(),
        state.admits(step),
        state.staged_is_last(),
        step is Pad ==> state.staged is None,
        step matches Step::Replace(op, pieces) ==> pieces == op.pieces(),
    ensures
        state.after(step).staged_is_last(),
{
    let after = state.after(step);
    laws::law_padding_is_idempotent(state.ops);
    match step {
        Step::Stage(op) => {
            assert(after.ops.buffer.take(after.staged->0.pos as int) =~= state.ops.padded().buffer);
        },
        Step::Replace(op, pieces) => {
            let pos = state.staged->0.pos;
            assert(after.ops.buffer.take(pos as int) =~= state.ops.buffer.take(pos as int));
        },
        Step::ChangeFuel { pos, amount } => {
            word::lemma_le_bytes_len(amount, 8);
            word::lemma_splice(state.ops.buffer, pos, word::le_bytes(amount, 8));
            if state.staged is Some {
                lemma_tail_unchanged(state, after);
            }
        },
        Step::Resolve => {
            state.lemma_users_in_bounds();
            laws::law_resolution(state.ops.buffer, state.labels, state.labels.users);
            if state.staged is Some {
                lemma_tail_unchanged(state, after);
            }
        },
        _ => {},
    }
}

/// A staged operator stays encoded as the last operator if no byte of it changes.
proof fn lemma_tail_unchanged(state: EncoderState, after: EncoderState)
    requires
        state.wf(),
        state.staged is Some,
        state.staged_is_last(),
        after.staged == state.staged,
        after.ops.dispatch == state.ops.dispatch,
        after.ops.buffer.len() == state.ops.buffer.len(),
        forall|k: int|
            state.committed_len() <= k < state.ops.buffer.len() ==> (#[trigger] after.ops.buffer[k])
                == state.ops.buffer[k],
    ensures
        after.staged_is_last(),
{
    let pos = state.staged->0.pos as int;
    let bytes = ir::encoding(state.staged->0.op.pieces(), state.ops.dispatch);
    assert(state.ops.buffer.skip(pos) =~= bytes);
    assert(after.ops.buffer.skip(pos) =~= state.ops.buffer.skip(pos));
    assert(after.ops.buffer =~= after.ops.buffer.take(pos) + bytes);
}

/// A label that is pinned never moves, and pinning keeps all other labels.
pub proof fn law_step_keeps_pinned_labels(state: EncoderState, step: Step, label: nat)
    requires
        state.wf(),
        state.admits(step),
        state.labels.has_label(label),
        state.labels.is_pinned(label),
    ensures
        state.after(step).labels.has_label(label),
        state.after(step).labels.is_pinned(label),
        state.after(step).labels.pinned_at(label) == state.labels.pinned_at(label),
{
}

/// A label stays as it is, whether pinned or not, by every step but pinning this very label.
pub proof fn law_step_changes_no_other_label(state: EncoderState, step: Step, label: nat)
    requires
        state.wf(),
        state.admits(step),
        label < state.labels.labels.len(),
        step != Step::PinLabel(label),
    ensures
        label < state.after(step).labels.labels.len(),
        state.after(step).labels.labels[label as int] == state.labels.labels[label as int],
{
}

/// A label stays as it is, whether pinned or not, as long as this very label is not pinned. A label
/// that is never pinned itself stays unpinned.
pub proof fn law_steps_change_no_other_label(state: EncoderState, steps: Seq<Step>, label: nat)
    requires
        state.wf(),
        state.admits_all(steps),
        label < state.labels.labels.len(),
        forall|i: int| 0 <= i < steps.len() ==> #[trigger] steps[i] != Step::PinLabel(label),
    ensures
        state.after_all(steps).wf(),
        label < state.after_all(steps).labels.labels.len(),
        state.after_all(steps).labels.labels[label as int] == state.labels.labels[label as int],
    decreases steps.len(),
{
    if steps.len() > 0 {
        let front = steps.drop_last();
        assert forall|i: int| 0 <= i < front.len() implies #[trigger] front[i] != Step::PinLabel(
            label,
        ) by {
            assert(steps[i] != Step::PinLabel(label));
        }
        law_steps_change_no_other_label(state, front, label);
        assert(steps[steps.len() - 1] != Step::PinLabel(label));
        law_step_keeps_wf(state.after_all(front), steps.last());
        law_step_changes_no_other_label(state.after_all(front), steps.last(), label);
    }
}

/// A label keeps the position that it was pinned to, whatever happens afterwards. It is the end of
/// the bytes when it was pinned.
pub proof fn law_pinned_label_never_moves(state: EncoderState, label: nat, steps: Seq<Step>)
    requires
        state.wf(),
        state.admits(Step::PinLabel(label)),
        state.after(Step::PinLabel(label)).admits_all(steps),
    ensures
        ({
            let pinned = state.after(Step::PinLabel(label));
            let last = pinned.after_all(steps);
            &&& label < last.labels.labels.len()
            &&& last.labels.labels[label as int] == Some(pinned.ops.buffer.len())
        }),
{
    law_step_keeps_wf(state, Step::PinLabel(label));
    laws::law_padding_is_idempotent(state.ops);
    lemma_steps_keep_pinned_labels(state.after(Step::PinLabel(label)), steps, label);
}

/// Every sequence of steps keeps the state consistent.
proof fn lemma_steps_keep_wf(state: EncoderState, steps: Seq<Step>)
    requires
        state.wf(),
        state.admits_all(steps),
    ensures
        state.after_all(steps).wf(),
    decreases steps.len(),
{
    if steps.len() > 0 {
        lemma_steps_keep_wf(state, steps.drop_last());
        law_step_keeps_wf(state.after_all(steps.drop_last()), steps.last());
    }
}

/// A branch to a label that is pinned later ends up storing the address of the position at which
/// the label was pinned, whatever happens before and after the label is pinned.
pub proof fn law_forward_branch_reaches_label(
    state: EncoderState,
    label: nat,
    pieces: Seq<Piece>,
    index: int,
    before: Seq<Step>,
    after: Seq<Step>,
    base: usize,
)
    requires
        state.wf(),
        state.admits(Step::Branch { label, pieces, index }),
        state.branched(label, pieces, index).admits_all(before),
        state.branched(label, pieces, index).after_all(before).admits(Step::PinLabel(label)),
        state.branched(label, pieces, index).after_all(before).pinned(label).admits_all(after),
        state.branched(label, pieces, index).after_all(before).pinned(label).after_all(
            after,
        ).labels.all_users_pinned(),
    ensures
        ({
            let pinned = state.branched(label, pieces, index).after_all(before).pinned(label);
            let last = pinned.after_all(after);
            let relocated = ops::relocated(
                last.with_resolved_branches().ops.buffer,
                base as int,
                last.ops.branch_offsets,
            );
            let pos = state.branch_offset_pos(pieces, index);
            base + last.ops.buffer.len() <= usize::MAX ==> word::le_value(
                word::word_bytes_at(relocated, pos),
            ) == base + pinned.ops.buffer.len()
        }),
{
    let branch = BranchState {
        src: state.ops.buffer.len(),
        pos: state.branch_offset_pos(pieces, index),
    };
    let branched = state.branched(label, pieces, index);
    let waiting = branched.after_all(before);
    let pinned = waiting.pinned(label);
    law_step_keeps_wf(state, Step::Branch { label, pieces, index });
    law_branch_leads_to_label(state, label, pieces, index);
    law_steps_keep_branches(branched, before, branch, label);
    law_step_keeps_wf(waiting, Step::PinLabel(label));
    law_step_keeps_branches(waiting, Step::PinLabel(label), branch, label);
    law_steps_keep_branches(pinned, after, branch, label);
    law_pinned_label_never_moves(waiting, label, after);
    law_relocated_branch_targets_label(pinned.after_all(after), base, branch, label);
}

/// A branch to a label that is pinned ends up storing the address of the position at which the label
/// was pinned, whatever happens before and after the branch is encoded.
pub proof fn law_backward_branch_reaches_label(
    state: EncoderState,
    label: nat,
    before: Seq<Step>,
    pieces: Seq<Piece>,
    index: int,
    after: Seq<Step>,
    base: usize,
)
    requires
        state.wf(),
        state.admits(Step::PinLabel(label)),
        state.pinned(label).admits_all(before),
        state.pinned(label).after_all(before).admits(Step::Branch { label, pieces, index }),
        state.pinned(label).after_all(before).branched(label, pieces, index).admits_all(after),
        state.pinned(label).after_all(before).branched(label, pieces, index).after_all(
            after,
        ).labels.all_users_pinned(),
    ensures
        ({
            let pinned = state.pinned(label);
            let middle = pinned.after_all(before);
            let last = middle.branched(label, pieces, index).after_all(after);
            let relocated = ops::relocated(
                last.with_resolved_branches().ops.buffer,
                base as int,
                last.ops.branch_offsets,
            );
            let pos = middle.branch_offset_pos(pieces, index);
            base + last.ops.buffer.len() <= usize::MAX ==> word::le_value(
                word::word_bytes_at(relocated, pos),
            ) == base + pinned.ops.buffer.len()
        }),
{
    let pinned = state.pinned(label);
    let middle = pinned.after_all(before);
    let branched = middle.branched(label, pieces, index);
    law_step_keeps_wf(state, Step::PinLabel(label));
    law_pinned_label_never_moves(state, label, before);
    lemma_steps_keep_wf(pinned, before);
    law_step_keeps_wf(middle, Step::Branch { label, pieces, index });
    lemma_steps_keep_pinned_labels(branched, after, label);
    law_encoded_branch_reaches_label(middle, label, pieces, index, after, base);
}

/// A pinned label keeps its position by every sequence of steps.
proof fn lemma_steps_keep_pinned_labels(state: EncoderState, steps: Seq<Step>, label: nat)
    requires
        state.wf(),
        state.admits_all(steps),
        state.labels.has_label(label),
        state.labels.is_pinned(label),
    ensures
        state.after_all(steps).labels.has_label(label),
        state.after_all(steps).labels.is_pinned(label),
        state.after_all(steps).labels.pinned_at(label) == state.labels.pinned_at(label),
    decreases steps.len(),
{
    if steps.len() > 0 {
        let front = steps.drop_last();
        lemma_steps_keep_pinned_labels(state, front, label);
        lemma_steps_keep_wf(state, front);
        law_step_keeps_pinned_labels(state.after_all(front), steps.last(), label);
    }
}

/// A label is pinned to the position of the next operator, which is aligned if dispatch is direct.
pub proof fn law_label_is_pinned_to_next_op(state: EncoderState, label: nat)
    requires
        state.labels.has_label(label),
    ensures
        state.pinned(label).labels.pinned_at(label) == state.ops.next_op_pos(),
        state.pinned(label).ops.buffer.len() == state.ops.next_op_pos(),
        state.ops.dispatch == Dispatch::Direct ==> state.ops.next_op_pos() % ops::op_align() == 0,
{
    laws::law_padding_is_idempotent(state.ops);
}

} // verus!