//! Laws that relate the operations of the encoder to each other.
use crate::encoder::{self, EncoderState};
use crate::ir::{self, Dispatch, Encode, Op};
use crate::labels::{LabelsState, UserState};
use crate::ops::{self, BranchState, OpsState};
use crate::word;
use vstd::prelude::*;

verus! {

/// The aligned length is the smallest multiple of the operator alignment that is not less.
pub proof fn law_aligned_len(len: nat, multiple: nat)
    ensures
        ops::aligned_len(len) % ops::op_align() == 0,
        len <= ops::aligned_len(len) < len + ops::op_align(),
        len % ops::op_align() == 0 ==> ops::aligned_len(len) == len,
        len <= multiple && multiple % ops::op_align() == 0 ==> ops::aligned_len(len) <= multiple,
{
    ops::lemma_aligned_len(len);
    if len <= multiple <= ops::aligned_len(len) && multiple % ops::op_align() == 0 {
        ops::lemma_no_multiple_before(len, multiple);
    }
}

/// Padding an already padded buffer does nothing, and padding only appends zero bytes.
pub proof fn law_padding_is_idempotent(state: OpsState)
    ensures
        state.padded().padded() == state.padded(),
        state.padded().buffer.len() == state.next_op_pos(),
        state.dispatch == Dispatch::Direct ==> state.padded().buffer.len() % ops::op_align() == 0,
        state.dispatch == Dispatch::Indirect ==> state.padded() == state,
        state.padded().buffer.take(state.buffer.len() as int) == state.buffer,
        forall|i: int|
            state.buffer.len() <= i < state.padded().buffer.len() ==> (
            #[trigger] state.padded().buffer[i]) == 0,
{
    ops::lemma_aligned_len(state.buffer.len());
    ops::lemma_aligned_len(state.padded().buffer.len());
    assert(state.padded().padded().buffer =~= state.padded().buffer);
    assert(state.padded().buffer.take(state.buffer.len() as int) =~= state.buffer);
    if state.dispatch == Dispatch::Indirect {
        assert(state.padded().buffer =~= state.buffer);
    }
}

/// Dropping a staged operator undoes staging it, apart from committing the previously staged
/// operator and padding the buffer. If the buffer needs no padding, it is the buffer from before.
pub proof fn law_drop_undoes_stage(state: EncoderState, op: Op)
    requires
        state.wf(),
        ir::is_silent(op.pieces()),
    ensures
        state.staged(op).dropped() == state.committed().padded(),
        state.staged(op).dropped().staged is None,
        state.ops.buffer.len() == state.ops.next_op_pos() ==> state.staged(op).dropped()
            == state.committed(),
        state.staged(op).dropped().ops.buffer.take(state.ops.buffer.len() as int)
            == state.ops.buffer,
{
    let padded = state.ops.padded();
    law_padding_is_idempotent(state.ops);
    state.staged(op).ops.lemma_truncate_keeps_branches(state.ops.next_op_pos());
    padded.lemma_silent_keeps_report(op.pieces());
    assert(state.staged(op).dropped().ops.buffer =~= padded.buffer);
    if state.ops.buffer.len() == state.ops.next_op_pos() {
        assert(padded.buffer =~= state.ops.buffer);
    }
}

/// Replacing the staged operator is the same as staging the new operator in the first place. The
/// new operator takes the position of the replaced one, and nothing else is encoded behind it.
pub proof fn law_replace_is_stage(state: EncoderState, first: Op, second: Op)
    requires
        state.wf(),
        ir::is_silent(first.pieces()),
        ir::is_silent(second.pieces()),
    ensures
        state.staged(first).replaced(second, second.pieces()) == state.staged(second),
        state.staged(second).staged->0.op == second,
        state.staged(second).staged->0.pos == state.staged(first).staged->0.pos,
        state.staged(second).ops.buffer == state.ops.padded().buffer + ir::encoding(
            second.pieces(),
            state.ops.dispatch,
        ),
{
    law_drop_undoes_stage(state, first);
    let dropped = state.staged(first).dropped();
    assert(dropped.ops.emitted(second.pieces()) == state.staged(second).ops);
}

/// Committing a staged operator is the same as encoding it without staging it.
pub proof fn law_commit_of_stage_is_encode(state: EncoderState, op: Op)
    ensures
        state.staged(op).committed() == state.encoded(op),
{
}

/// Encoding only appends to the buffer and starts operators at the next operator position, which
/// is aligned if dispatch is direct.
pub proof fn law_encoding_appends(state: EncoderState, op: Op)
    ensures
        state.encoded(op).ops.buffer.take(state.ops.buffer.len() as int) == state.ops.buffer,
        state.encoded(op).ops.buffer.skip(state.ops.next_op_pos() as int) == ir::encoding(
            op.pieces(),
            state.ops.dispatch,
        ),
        state.ops.dispatch == Dispatch::Direct ==> state.ops.next_op_pos() % ops::op_align() == 0,
        state.ops.dispatch == Dispatch::Indirect ==> state.ops.next_op_pos()
            == state.ops.buffer.len(),
{
    law_padding_is_idempotent(state.ops);
    assert(state.encoded(op).ops.buffer.take(state.ops.buffer.len() as int) =~= state.ops.buffer);
    assert(state.encoded(op).ops.buffer.skip(state.ops.next_op_pos() as int) =~= ir::encoding(
        op.pieces(),
        state.ops.dispatch,
    ));
}

/// Truncating clears everything that was encoded at the new length and behind.
pub proof fn law_truncate_clears_the_rest(state: OpsState, len: nat)
    requires
        state.wf(),
        len <= state.buffer.len(),
    ensures
        state.truncated(len).buffer == state.buffer.take(len as int),
        forall|branch: BranchState| #[trigger]
            state.truncated(len).branch_offsets.contains(branch)
                <==> state.branch_offsets.contains(branch) && branch.pos < len,
{
    lemma_truncated_branches(state.branch_offsets, len);
}

proof fn lemma_truncated_branches(branches: Seq<BranchState>, len: nat)
    requires
        forall|i: int, j: int|
            0 <= i < j < branches.len() ==> (#[trigger] branches[i]).pos + word::word_len() <= (
            #[trigger] branches[j]).pos,
    ensures
        forall|branch: BranchState| #[trigger]
            ops::truncated_branches(branches, len).contains(branch) <==> branches.contains(branch)
                && branch.pos < len,
    decreases branches.len(),
{
    let kept = ops::truncated_branches(branches, len);
    if branches.len() == 0 {
    } else if branches.last().pos < len {
        assert forall|branch: BranchState| branches.contains(branch) implies branch.pos < len by {
            let i = branches.index_of(branch);
            assert(branches[i].pos <= branches[branches.len() - 1].pos);
        }
    } else {
        let front = branches.drop_last();
        assert forall|i: int, j: int| 0 <= i < j < front.len() implies (#[trigger] front[i]).pos
            + word::word_len() <= (#[trigger] front[j]).pos by {
            assert(branches[i].pos + word::word_len() <= branches[j].pos);
        }
        lemma_truncated_branches(front, len);
        assert(kept == ops::truncated_branches(front, len));
        assert forall|branch: BranchState| #[trigger] kept.contains(branch) == (
        branches.contains(branch) && branch.pos < len) by {
            if branches.contains(branch) && branch.pos < len {
                let i = branches.index_of(branch);
                assert(front[i] == branch);
                assert(front.contains(branch));
            }
            if front.contains(branch) {
                let i = front.index_of(branch);
                assert(branches[i] == branch);
                assert(branches.contains(branch));
            }
            assert(kept.contains(branch) <==> front.contains(branch) && branch.pos < len);
        }
    }
}

/// A branch offset is the exact distance of its label if both positions fit into a signed machine
/// word, as all positions within an allocation do.
pub proof fn law_branch_offset_is_exact(src: nat, dst: nat)
    requires
        src <= isize::MAX,
        dst <= isize::MAX,
    ensures
        word::wrap_isize(dst - src) == dst - src,
{
    word::lemma_wrap_isize_in_range(dst - src);
}

/// A branch offset leads from its source to its target, is negated if source and target are
/// swapped, and branch offsets add up along a path.
pub proof fn law_branch_offsets_are_distances(a: nat, b: nat, c: nat)
    requires
        a <= isize::MAX,
        b <= isize::MAX,
        c <= isize::MAX,
    ensures
        a + word::wrap_isize(b - a) == b,
        word::wrap_isize(b - a) == -word::wrap_isize(a - b),
        word::wrap_isize(b - a) + word::wrap_isize(c - b) == word::wrap_isize(c - a),
{
    law_branch_offset_is_exact(a, b);
    law_branch_offset_is_exact(b, a);
    law_branch_offset_is_exact(b, c);
    law_branch_offset_is_exact(a, c);
}

/// A machine word keeps its value if its bytes do not change.
pub proof fn lemma_same_word(a: Seq<u8>, b: Seq<u8>, pos: nat)
    requires
        pos + word::word_len() <= a.len(),
        pos + word::word_len() <= b.len(),
        forall|i: int| pos <= i < pos + word::word_len() ==> #[trigger] a[i] == b[i],
    ensures
        word::word_bytes_at(a, pos) == word::word_bytes_at(b, pos),
{
    assert(word::word_bytes_at(a, pos) =~= word::word_bytes_at(b, pos));
}

/// The encoded machine word of a branch target.
pub proof fn lemma_signed_word_bytes_len(value: int)
    ensures
        ops::signed_word_bytes(value).len() == word::word_len(),
{
    word::lemma_le_bytes_len(word::wrap_usize(value) as nat, word::word_len());
}

/// Relocating replaces every registered branch offset by the address of its target, which is
/// `base + src + offset`, and keeps all other bytes.
pub proof fn law_relocation(ops: Seq<u8>, base: int, branches: Seq<BranchState>)
    requires
        ops::branches_wf(branches, ops.len()),
    ensures
        ops::relocated(ops, base, branches).len() == ops.len(),
        forall|i: int|
            0 <= i < branches.len() ==> word::le_value(
                word::word_bytes_at(
                    ops::relocated(ops, base, branches),
                    (#[trigger] branches[i]).pos,
                ),
            ) == word::wrap_usize(
                base + branches[i].src + word::signed_word_at(ops, branches[i].pos),
            ),
        forall|k: int|
            0 <= k < ops.len() && !ops::in_branch_offset(branches, k) ==> (
            #[trigger] ops::relocated(ops, base, branches)[k]) == ops[k],
    decreases branches.len(),
{
    if branches.len() > 0 {
        let front = branches.drop_last();
        let last = branches.last();
        assert(branches[branches.len() - 1] == last);
        assert forall|i: int| 0 <= i < front.len() implies {
            &&& (#[trigger] front[i]).src <= front[i].pos
            &&& front[i].pos + word::word_len() <= ops.len()
            &&& front[i].pos + word::word_len() <= last.pos
        } by {
            assert(branches[i] == front[i]);
        }
        assert forall|i: int, j: int| 0 <= i < j < front.len() implies (#[trigger] front[i]).pos
            + word::word_len() <= (#[trigger] front[j]).pos by {
            assert(branches[i].pos + word::word_len() <= branches[j].pos);
        }
        law_relocation(ops, base, front);
        let before = ops::relocated(ops, base, front);
        let after = ops::relocated(ops, base, branches);
        assert forall|k: int| last.pos <= k < last.pos + word::word_len() implies (
        #[trigger] before[k]) == ops[k] by {
            assert(!ops::in_branch_offset(front, k));
        }
        lemma_same_word(before, ops, last.pos);
        let target = base + last.src + word::signed_word_at(ops, last.pos);
        let new = ops::signed_word_bytes(target);
        lemma_signed_word_bytes_len(target);
        word::lemma_splice(before, last.pos, new);
        assert(after == word::splice(before, last.pos, new));
        word::lemma_signed_word_round_trip(after, last.pos, target);
        assert forall|i: int| 0 <= i < branches.len() implies word::le_value(
            word::word_bytes_at(after, (#[trigger] branches[i]).pos),
        ) == word::wrap_usize(
            base + branches[i].src + word::signed_word_at(ops, branches[i].pos),
        ) by {
            if i < front.len() {
                assert(front[i] == branches[i]);
                lemma_same_word(after, before, branches[i].pos);
            }
        }
        assert forall|k: int|
            0 <= k < ops.len() && !ops::in_branch_offset(branches, k) implies (
        #[trigger] after[k]) == ops[k] by {
            assert(!(last.pos <= k < last.pos + word::word_len()));
            if ops::in_branch_offset(front, k) {
                let i = choose|i: int|
                    0 <= i < front.len() && (#[trigger] front[i]).pos <= k < front[i].pos
                        + word::word_len();
                assert(branches[i] == front[i]);
            }
            assert(before[k] == ops[k]);
        }
    }
}

/// Resolving stores the distance from every waiting branch to its label and keeps all other bytes.
pub proof fn law_resolution(buffer: Seq<u8>, labels: LabelsState, users: Seq<UserState>)
    requires
        encoder::users_ordered(users, buffer.len()),
    ensures
        encoder::resolved(buffer, labels, users).len() == buffer.len(),
        forall|i: int|
            0 <= i < users.len() ==> word::signed_word_at(
                encoder::resolved(buffer, labels, users),
                (#[trigger] users[i]).pos,
            ) == word::wrap_isize(labels.pinned_at(users[i].label) - users[i].src),
        forall|k: int|
            0 <= k < buffer.len() && !encoder::in_user_offset(users, k) ==> (#[trigger] encoder::resolved(
                buffer,
                labels,
                users,
            )[k]) == buffer[k],
    decreases users.len(),
{
    if users.len() > 0 {
        let front = users.drop_last();
        let last = users.last();
        assert(users[users.len() - 1] == last);
        assert forall|i: int| 0 <= i < front.len() implies {
            &&& (#[trigger] front[i]).pos + word::word_len() <= buffer.len()
            &&& front[i].pos + word::word_len() <= last.pos
        } by {
            assert(users[i] == front[i]);
        }
        assert forall|i: int, j: int| 0 <= i < j < front.len() implies (#[trigger] front[i]).pos
            + word::word_len() <= (#[trigger] front[j]).pos by {
            assert(users[i].pos + word::word_len() <= users[j].pos);
        }
        law_resolution(buffer, labels, front);
        let before = encoder::resolved(buffer, labels, front);
        let after = encoder::resolved(buffer, labels, users);
        let distance = labels.pinned_at(last.label) - last.src;
        let new = ops::signed_word_bytes(distance);
        lemma_signed_word_bytes_len(distance);
        word::lemma_splice(before, last.pos, new);
        assert(after == word::splice(before, last.pos, new));
        word::lemma_signed_word_round_trip(after, last.pos, distance);
        assert forall|i: int| 0 <= i < users.len() implies word::signed_word_at(
            after,
            (#[trigger] users[i]).pos,
        ) == word::wrap_isize(labels.pinned_at(users[i].label) - users[i].src) by {
            if i < front.len() {
                assert(front[i] == users[i]);
                lemma_same_word(after, before, users[i].pos);
            }
        }
        assert forall|k: int| 0 <= k < buffer.len() && !encoder::in_user_offset(users, k) implies (
        #[trigger] after[k]) == buffer[k] by {
            assert(!(last.pos <= k < last.pos + word::word_len()));
            if encoder::in_user_offset(front, k) {
                let i = choose|i: int|
                    0 <= i < front.len() && (#[trigger] front[i]).pos <= k < front[i].pos
                        + word::word_len();
                assert(users[i] == front[i]);
            }
            assert(before[k] == buffer[k]);
        }
    }
}

} // verus!
