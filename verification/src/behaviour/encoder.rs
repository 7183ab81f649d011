//! What the encoder of operators does.
use super::ops::{is_padded, is_relocated, law_padded, law_relocated, law_write_may_fail,
    some_write_fails};
use crate::encoder::{self, EncoderState, OpEncoder, OpEncoderAllocations, StagedOp};
use crate::engine::{Engine, Error, TranslationError};
use crate::ir::{self, BlockFuel, BranchOffset, Dispatch, Encode, Op, OpCode, Operand, Piece};
use crate::labels::{LabelRef, UserState};
use crate::laws;
use crate::ops::{self, BranchState};
use crate::pos::Pos;
use crate::reuse::{Reset, ReusableAllocations};
use crate::word;
use vstd::prelude::*;

verus! {

/// Whether two encoders are configured alike.
pub open spec fn same_config(a: EncoderState, b: EncoderState) -> bool {
    &&& a.consume_fuel == b.consume_fuel
    &&& a.consume_fuel_code == b.consume_fuel_code
    &&& a.ops.dispatch == b.ops.dispatch
}

/// Whether two encoders are configured alike and have the same labels, branches and reported
/// position, so that they may differ in their bytes and their staged operator only.
pub open spec fn same_besides_bytes(a: EncoderState, b: EncoderState) -> bool {
    &&& same_config(a, b)
    &&& a.labels == b.labels
    &&& a.ops.branch_offsets == b.ops.branch_offsets
    &&& a.ops.temp == b.ops.temp
}

/// Whether `after` is `before`, padded for an operator at `pos`, followed by `bytes`.
pub open spec fn is_appended(
    before: Seq<u8>,
    after: Seq<u8>,
    pos: nat,
    bytes: Seq<u8>,
    dispatch: Dispatch,
) -> bool {
    &&& pos <= after.len()
    &&& is_padded(before, after.take(pos as int), dispatch)
    &&& after.skip(pos as int) == bytes
}

/// A staged operator is what it was made of, and updating it keeps its position.
pub proof fn law_staged_op(op: Op, pos: Pos<Op>)
    ensures
        forall|staged: StagedOp| #[trigger]
            call_ensures(StagedOp::new, (op, pos), staged) ==> staged@.op == op && staged@.pos
                == pos@,
        forall|staged: &mut StagedOp| #[trigger]
            call_ensures(StagedOp::update, (staged, op), ()) ==> final(staged)@.op == op
                && final(staged)@.pos == staged@.pos,
{
}

/// A new encoder meters fuel if and only if the configuration of the engine says so, uses the
/// dispatch technique and the op-code of the engine, and starts with what the allocations hold.
pub proof fn law_new(engine: Engine, alloc: OpEncoderAllocations)
    ensures
        forall|encoder: OpEncoder| #[trigger]
            call_ensures(OpEncoder::new, (&engine, alloc), encoder) ==> {
                &&& encoder@.consume_fuel <==> engine.config.consume_fuel
                &&& encoder@.consume_fuel_code == engine.consume_fuel_code
                &&& encoder@.ops.dispatch == engine.config.dispatch
                &&& encoder@.staged is None
                &&& encoder@.ops.buffer == alloc@.ops.buffer
                &&& encoder@.ops.temp == alloc@.ops.temp
                &&& encoder@.ops.branch_offsets == alloc@.ops.branch_offsets
                &&& encoder@.labels == alloc@.labels
            },
{
}

/// A new encoder encodes an operator that consumes fuel if and only if the configuration of the
/// engine enables fuel metering. It encodes nothing otherwise.
pub proof fn law_new_encoder_meters_as_configured(engine: Engine, alloc: OpEncoderAllocations)
    ensures
        forall|
            new: OpEncoder,
            encoder: &mut OpEncoder,
            result: Result<Option<Pos<BlockFuel>>, Error>,
        |
            {
                &&& #[trigger] call_ensures(OpEncoder::new, (&engine, alloc), new)
                &&& #[trigger] call_ensures(OpEncoder::encode_consume_fuel_op, (encoder,), result)
                &&& *encoder == new
            } ==> {
                &&& engine.config.consume_fuel ==> !(result matches Ok(None))
                &&& !engine.config.consume_fuel ==> {
                    &&& result matches Ok(None)
                    &&& final(encoder)@ == encoder@
                }
            },
{
}

/// The default encoder holds nothing and does not meter fuel. Allocations hold what the encoder
/// holds, nothing by default, and no bytes, no branches and no labels after a reset.
pub proof fn law_allocations(encoder: OpEncoder)
    ensures
        forall|made: OpEncoder| #[trigger]
            call_ensures(OpEncoder::default, (), made) ==> {
                &&& made@.staged is None
                &&& !made@.consume_fuel
                &&& made@.ops.dispatch is Direct
                &&& made@.ops.buffer.len() == 0
                &&& made@.ops.temp is None
                &&& made@.ops.branch_offsets.len() == 0
                &&& made@.labels.labels.len() == 0
                &&& made@.labels.users.len() == 0
            },
        forall|made: OpEncoderAllocations| #[trigger]
            call_ensures(OpEncoderAllocations::default, (), made) ==> {
                &&& made@.ops.buffer.len() == 0
                &&& made@.ops.temp is None
                &&& made@.ops.branch_offsets.len() == 0
                &&& made@.labels.labels.len() == 0
                &&& made@.labels.users.len() == 0
            },
        forall|alloc: OpEncoderAllocations| #[trigger]
            call_ensures(OpEncoder::into_allocations, (encoder,), alloc) ==> {
                &&& alloc@.ops == encoder@.ops
                &&& alloc@.labels == encoder@.labels
            },
        forall|alloc: &mut OpEncoderAllocations| #[trigger]
            call_ensures(OpEncoderAllocations::reset, (alloc,), ()) ==> {
                &&& final(alloc)@.ops.buffer.len() == 0
                &&& final(alloc)@.ops.branch_offsets.len() == 0
                &&& final(alloc)@.ops.temp == alloc@.ops.temp
                &&& final(alloc)@.ops.dispatch == alloc@.ops.dispatch
                &&& final(alloc)@.labels.labels.len() == 0
                &&& final(alloc)@.labels.users.len() == 0
            },
{
}

/// A new label is unpinned, differs from all labels before it, and nothing else changes.
pub proof fn law_new_label()
    ensures
        forall|encoder: &mut OpEncoder, lref: LabelRef| #[trigger]
            call_ensures(OpEncoder::new_label, (encoder,), lref) ==> {
                let before = encoder@.labels.labels;
                let after = final(encoder)@.labels.labels;
                &&& lref@ == before.len()
                &&& after.len() == before.len() + 1
                &&& after[lref@ as int] is None
                &&& forall|i: int| 0 <= i < before.len() ==> (#[trigger] after[i]) == before[i]
                &&& final(encoder)@.labels.users == encoder@.labels.users
                &&& final(encoder)@.staged == encoder@.staged
                &&& final(encoder)@.ops == encoder@.ops
                &&& same_config(final(encoder)@, encoder@)
            },
{
}

/// Pinning a label pins it to the end of the bytes, which are padded for the next operator. Every
/// other label stays as it is, whether pinned or not.
pub proof fn law_pin_label(lref: LabelRef)
    ensures
        forall|encoder: &mut OpEncoder, result: Result<(), Error>|
            #[trigger] call_ensures(OpEncoder::pin_label, (encoder, lref), result) && lref@
                < encoder@.labels.labels.len() ==> {
                let before = encoder@.labels.labels;
                let after = final(encoder)@.labels.labels;
                &&& result is Ok
                &&& after.len() == before.len()
                &&& after[lref@ as int] == Some(final(encoder)@.ops.buffer.len())
                &&& forall|i: int|
                    0 <= i < before.len() && i != lref@ ==> (#[trigger] after[i]) == before[i]
                &&& final(encoder)@.labels.users == encoder@.labels.users
                &&& is_padded(
                    encoder@.ops.buffer,
                    final(encoder)@.ops.buffer,
                    encoder@.ops.dispatch,
                )
                &&& final(encoder)@.ops.branch_offsets == encoder@.ops.branch_offsets
                &&& final(encoder)@.ops.temp == encoder@.ops.temp
                &&& final(encoder)@.staged == encoder@.staged
                &&& same_config(final(encoder)@, encoder@)
            },
{
    assert forall|encoder: &mut OpEncoder, result: Result<(), Error>|
        #[trigger] call_ensures(OpEncoder::pin_label, (encoder, lref), result) && lref@
            < encoder@.labels.labels.len() implies {
        &&& is_padded(encoder@.ops.buffer, final(encoder)@.ops.buffer, encoder@.ops.dispatch)
        &&& final(encoder)@.labels.labels[lref@ as int] == Some(final(encoder)@.ops.buffer.len())
    } by {
        law_padded(encoder@.ops);
    }
}

/// Pinning a label if it is unpinned does what pinning it does in this case, and nothing otherwise.
pub proof fn law_pin_label_if_unpinned(lref: LabelRef)
    ensures
        forall|encoder: &mut OpEncoder, result: Result<(), Error>|
            #[trigger] call_ensures(OpEncoder::pin_label_if_unpinned, (encoder, lref), result)
                && lref@ < encoder@.labels.labels.len() ==> {
                let before = encoder@.labels.labels;
                let after = final(encoder)@.labels.labels;
                &&& result is Ok
                &&& before[lref@ as int] is Some ==> final(encoder)@ == encoder@
                &&& before[lref@ as int] is None ==> {
                    &&& after.len() == before.len()
                    &&& after[lref@ as int] == Some(final(encoder)@.ops.buffer.len())
                    &&& forall|i: int|
                        0 <= i < before.len() && i != lref@ ==> (#[trigger] after[i]) == before[i]
                    &&& final(encoder)@.labels.users == encoder@.labels.users
                    &&& is_padded(
                        encoder@.ops.buffer,
                        final(encoder)@.ops.buffer,
                        encoder@.ops.dispatch,
                    )
                    &&& final(encoder)@.ops.branch_offsets == encoder@.ops.branch_offsets
                    &&& final(encoder)@.ops.temp == encoder@.ops.temp
                    &&& final(encoder)@.staged == encoder@.staged
                    &&& same_config(final(encoder)@, encoder@)
                }
            },
{
    assert forall|encoder: &mut OpEncoder, result: Result<(), Error>|
        #[trigger] call_ensures(OpEncoder::pin_label_if_unpinned, (encoder, lref), result) && lref@
            < encoder@.labels.labels.len() && encoder@.labels.labels[lref@ as int] is None implies {
        &&& is_padded(encoder@.ops.buffer, final(encoder)@.ops.buffer, encoder@.ops.dispatch)
        &&& final(encoder)@.labels.labels[lref@ as int] == Some(final(encoder)@.ops.buffer.len())
    } by {
        law_padded(encoder@.ops);
    }
}

/// The staged operator is read as it is.
pub proof fn law_peek_staged(encoder: OpEncoder)
    ensures
        forall|op: Option<Op>| #[trigger]
            call_ensures(OpEncoder::peek_staged, (&encoder,), op) ==> match op {
                Some(op) => encoder@.staged is Some && encoder@.staged->0.op == op,
                None => encoder@.staged is None,
            },
        forall|bytes: &[u8]| #[trigger]
            call_ensures(OpEncoder::encoded_ops, (&encoder,), bytes) ==> bytes@
                == encoder@.ops.buffer,
{
}

/// Committing keeps the bytes of the staged operator, and nothing is staged afterwards.
pub proof fn law_commit_staged_if_any()
    ensures
        forall|encoder: &mut OpEncoder, result: Result<(), Error>| #[trigger]
            call_ensures(OpEncoder::commit_staged_if_any, (encoder,), result) ==> {
                &&& result is Ok
                &&& final(encoder)@.staged is None
                &&& final(encoder)@.ops.buffer == encoder@.ops.buffer
                &&& same_besides_bytes(final(encoder)@, encoder@)
            },
{
}

/// Padding appends as few zero bytes as needed for the next operator, and changes nothing else.
pub proof fn law_pad_to_op_alignment()
    ensures
        forall|encoder: &mut OpEncoder, result: Result<(), Error>| #[trigger]
            call_ensures(OpEncoder::pad_to_op_alignment, (encoder,), result) ==> {
                &&& result is Ok
                &&& is_padded(
                    encoder@.ops.buffer,
                    final(encoder)@.ops.buffer,
                    encoder@.ops.dispatch,
                )
                &&& final(encoder)@.staged == encoder@.staged
                &&& same_besides_bytes(final(encoder)@, encoder@)
            },
{
    assert forall|encoder: &mut OpEncoder, result: Result<(), Error>| #[trigger]
        call_ensures(OpEncoder::pad_to_op_alignment, (encoder,), result) implies is_padded(
        encoder@.ops.buffer,
        final(encoder)@.ops.buffer,
        encoder@.ops.dispatch,
    ) by {
        law_padded(encoder@.ops);
    }
}

/// Encoding silent pieces behind the padding appends their bytes, and changes nothing else.
proof fn lemma_appended(state: EncoderState, pieces: Seq<Piece>)
    requires
        ir::is_silent(pieces),
    ensures
        ({
            let after = state.committed().padded().emitted(pieces);
            let pos = state.ops.next_op_pos();
            &&& is_appended(
                state.ops.buffer,
                after.ops.buffer,
                pos,
                ir::encoding(pieces, state.ops.dispatch),
                state.ops.dispatch,
            )
            &&& after.staged is None
            &&& same_besides_bytes(after, state)
        }),
{
    let after = state.committed().padded().emitted(pieces);
    let pos = state.ops.next_op_pos() as int;
    law_padded(state.ops);
    state.ops.padded().lemma_silent_keeps_report(pieces);
    assert(after.ops.buffer.take(pos) =~= state.ops.padded().buffer);
    assert(after.ops.buffer.skip(pos) =~= ir::encoding(pieces, state.ops.dispatch));
}

/// The first ones of silent pieces are silent.
proof fn lemma_silent_prefix(pieces: Seq<Piece>, count: int)
    requires
        ir::is_silent(pieces),
        0 <= count <= pieces.len(),
    ensures
        ir::is_silent(pieces.take(count)),
{
    assert forall|i: int| 0 <= i < count implies !(#[trigger] pieces.take(
        count,
    )[i]).is_reported() by {
        assert(!pieces[i].is_reported());
    }
}

/// Whether `after` is `before` without a staged operator and with the first ones of `pieces`
/// encoded, up to a piece that could not be written.
pub open spec fn failed_to_append(
    before: EncoderState,
    after: EncoderState,
    pieces: Seq<Piece>,
) -> bool {
    let dispatch = before.ops.dispatch;
    &&& after.staged is None
    &&& same_besides_bytes(after, before)
    &&& exists|count: int, pos: nat|
        {
            &&& 0 <= count < pieces.len()
            &&& #[trigger] is_appended(
                before.ops.buffer,
                after.ops.buffer,
                pos,
                ir::encoding(pieces.take(count), dispatch),
                dispatch,
            )
            &&& some_write_fails(after.ops, pieces[count].bytes(dispatch))
        }
}

proof fn lemma_failed_to_append(before: EncoderState, after: EncoderState, pieces: Seq<Piece>)
    requires
        ir::is_silent(pieces),
        exists|count: int|
            {
                &&& 0 <= count < pieces.len()
                &&& after == #[trigger] before.committed().padded().emitted(pieces.take(count))
                &&& after.write_may_fail(pieces[count])
            },
    ensures
        failed_to_append(before, after, pieces),
{
    let count = choose|count: int|
        {
            &&& 0 <= count < pieces.len()
            &&& after == #[trigger] before.committed().padded().emitted(pieces.take(count))
            &&& after.write_may_fail(pieces[count])
        };
    lemma_silent_prefix(pieces, count);
    lemma_appended(before, pieces.take(count));
    law_write_may_fail(after.ops, pieces[count].bytes(after.ops.dispatch));
}

/// Encoding an operator appends its encoding at the next operator position, which is returned. A
/// staged operator is committed, and nothing else changes.
pub proof fn law_encode_op(op: Op)
    requires
        ir::is_silent(op.pieces()),
    ensures
        forall|encoder: &mut OpEncoder, result: Result<Pos<Op>, Error>| #[trigger]
            call_ensures(OpEncoder::encode_op, (encoder, op), result) ==> match result {
                Ok(pos) => {
                    &&& is_appended(
                        encoder@.ops.buffer,
                        final(encoder)@.ops.buffer,
                        pos@,
                        ir::encoding(op.pieces(), encoder@.ops.dispatch),
                        encoder@.ops.dispatch,
                    )
                    &&& final(encoder)@.staged is None
                    &&& same_besides_bytes(final(encoder)@, encoder@)
                },
                Err(error) => {
                    &&& error == Error::Translation(TranslationError::OutOfSystemMemory)
                    &&& failed_to_append(encoder@, final(encoder)@, op.pieces())
                },
            },
{
    assert forall|encoder: &mut OpEncoder, result: Result<Pos<Op>, Error>| #[trigger]
        call_ensures(OpEncoder::encode_op, (encoder, op), result) implies match result {
        Ok(pos) => {
            &&& is_appended(
                encoder@.ops.buffer,
                final(encoder)@.ops.buffer,
                pos@,
                ir::encoding(op.pieces(), encoder@.ops.dispatch),
                encoder@.ops.dispatch,
            )
            &&& final(encoder)@.staged is None
            &&& same_besides_bytes(final(encoder)@, encoder@)
        },
        Err(error) => failed_to_append(encoder@, final(encoder)@, op.pieces()),
    } by {
        lemma_appended(encoder@, op.pieces());
        if result is Err {
            lemma_failed_to_append(encoder@, final(encoder)@, op.pieces());
        }
    }
}

/// Staging an operator appends its encoding at the next operator position, where it is staged. The
/// bytes of the operator that was staged before stay, and its position is returned.
pub proof fn law_stage_op(op: Op)
    requires
        ir::is_silent(op.pieces()),
    ensures
        forall|encoder: &mut OpEncoder, result: Result<Option<Pos<Op>>, Error>| #[trigger]
            call_ensures(OpEncoder::stage_op, (encoder, op), result) ==> match result {
                Ok(previous) => {
                    let staged = final(encoder)@.staged;
                    &&& staged is Some
                    &&& staged->0.op == op
                    &&& is_appended(
                        encoder@.ops.buffer,
                        final(encoder)@.ops.buffer,
                        staged->0.pos,
                        ir::encoding(op.pieces(), encoder@.ops.dispatch),
                        encoder@.ops.dispatch,
                    )
                    &&& match encoder@.staged {
                        Some(before) => previous is Some && previous->0@ == before.pos,
                        None => previous is None,
                    }
                    &&& same_besides_bytes(final(encoder)@, encoder@)
                },
                Err(error) => {
                    &&& error == Error::Translation(TranslationError::OutOfSystemMemory)
                    &&& failed_to_append(encoder@, final(encoder)@, op.pieces())
                },
            },
{
    assert forall|encoder: &mut OpEncoder, result: Result<Option<Pos<Op>>, Error>| #[trigger]
        call_ensures(OpEncoder::stage_op, (encoder, op), result) implies match result {
        Ok(previous) => {
            let staged = final(encoder)@.staged;
            &&& staged is Some
            &&& is_appended(
                encoder@.ops.buffer,
                final(encoder)@.ops.buffer,
                staged->0.pos,
                ir::encoding(op.pieces(), encoder@.ops.dispatch),
                encoder@.ops.dispatch,
            )
            &&& same_besides_bytes(final(encoder)@, encoder@)
        },
        Err(error) => failed_to_append(encoder@, final(encoder)@, op.pieces()),
    } by {
        lemma_appended(encoder@, op.pieces());
        if result is Err {
            lemma_failed_to_append(encoder@, final(encoder)@, op.pieces());
        }
    }
}

/// Dropping the staged operator removes its bytes and nothing else.
pub proof fn law_drop_staged()
    ensures
        forall|encoder: &mut OpEncoder|
            {
                &&& #[trigger] call_ensures(OpEncoder::drop_staged, (encoder,), ())
                &&& encoder@.staged is Some
                &&& encoder@.wf()
            } ==> {
                let pos = encoder@.staged->0.pos as int;
                &&& final(encoder)@.staged is None
                &&& final(encoder)@.ops.buffer == encoder@.ops.buffer.take(pos)
                &&& same_besides_bytes(final(encoder)@, encoder@)
            },
{
    assert forall|encoder: &mut OpEncoder|
        {
            &&& #[trigger] call_ensures(OpEncoder::drop_staged, (encoder,), ())
            &&& encoder@.staged is Some
            &&& encoder@.wf()
        } implies same_besides_bytes(final(encoder)@, encoder@) by {
        encoder@.ops.lemma_truncate_keeps_branches(encoder@.staged->0.pos);
    }
}

/// Replacing the staged operator puts the bytes of the new operator in the place of the old ones. It
/// is staged at the same position, which is returned, and nothing else changes.
pub proof fn law_replace_staged(op: Op)
    requires
        ir::is_silent(op.pieces()),
    ensures
        forall|encoder: &mut OpEncoder, result: Result<Pos<Op>, Error>|
            {
                &&& #[trigger] call_ensures(OpEncoder::replace_staged, (encoder, op), result)
                &&& encoder@.staged is Some
                &&& encoder@.wf()
            } ==> {
                let at = encoder@.staged->0.pos;
                let dispatch = encoder@.ops.dispatch;
                &&& final(encoder)@.staged is Some
                &&& final(encoder)@.staged->0.op == op
                &&& final(encoder)@.staged->0.pos == at
                &&& same_besides_bytes(final(encoder)@, encoder@)
                &&& match result {
                    Ok(pos) => {
                        &&& pos@ == at
                        &&& final(encoder)@.ops.buffer == encoder@.ops.buffer.take(at as int)
                            + ir::encoding(op.pieces(), dispatch)
                    },
                    Err(error) => {
                        &&& error == Error::Translation(TranslationError::OutOfSystemMemory)
                        &&& exists|count: int|
                            {
                                &&& 0 <= count < op.pieces().len()
                                &&& final(encoder)@.ops.buffer == encoder@.ops.buffer.take(
                                    at as int,
                                ) + #[trigger] ir::encoding(op.pieces().take(count), dispatch)
                                &&& some_write_fails(
                                    final(encoder)@.ops,
                                    op.pieces()[count].bytes(dispatch),
                                )
                            }
                    },
                }
            },
{
    assert forall|encoder: &mut OpEncoder, result: Result<Pos<Op>, Error>|
        {
            &&& #[trigger] call_ensures(OpEncoder::replace_staged, (encoder, op), result)
            &&& encoder@.staged is Some
            &&& encoder@.wf()
        } implies {
        let at = encoder@.staged->0.pos;
        let dispatch = encoder@.ops.dispatch;
        &&& final(encoder)@.staged is Some
        &&& final(encoder)@.staged->0.op == op
        &&& final(encoder)@.staged->0.pos == at
        &&& same_besides_bytes(final(encoder)@, encoder@)
        &&& result is Err ==> exists|count: int|
            {
                &&& 0 <= count < op.pieces().len()
                &&& final(encoder)@.ops.buffer == encoder@.ops.buffer.take(at as int)
                    + #[trigger] ir::encoding(op.pieces().take(count), dispatch)
                &&& some_write_fails(final(encoder)@.ops, op.pieces()[count].bytes(dispatch))
            }
    } by {
        let at = encoder@.staged->0.pos;
        let middle = encoder@.ops.truncated(at);
        encoder@.ops.lemma_truncate_keeps_branches(at);
        middle.lemma_silent_keeps_report(op.pieces());
        if result is Err {
            let count = choose|count: int|
                {
                    &&& 0 <= count < op.pieces().len()
                    &&& final(encoder)@ == #[trigger] encoder@.replaced(
                        op,
                        op.pieces().take(count),
                    )
                    &&& final(encoder)@.write_may_fail(op.pieces()[count])
                };
            lemma_silent_prefix(op.pieces(), count);
            middle.lemma_silent_keeps_report(op.pieces().take(count));
            law_write_may_fail(
                final(encoder)@.ops,
                op.pieces()[count].bytes(encoder@.ops.dispatch),
            );
            assert(final(encoder)@.ops.buffer == encoder@.ops.buffer.take(at as int)
                + ir::encoding(op.pieces().take(count), encoder@.ops.dispatch));
        }
    }
}

/// Dropping an operator right after it was staged leaves the bytes from before, padded for the next
/// operator, with nothing staged.
pub proof fn law_drop_after_stage(op: Op)
    requires
        ir::is_silent(op.pieces()),
    ensures
        forall|
            encoder: &mut OpEncoder,
            again: &mut OpEncoder,
            result: Result<Option<Pos<Op>>, Error>,
        |
            {
                &&& #[trigger] call_ensures(OpEncoder::stage_op, (encoder, op), result)
                &&& #[trigger] call_ensures(OpEncoder::drop_staged, (again,), ())
                &&& again@ == final(encoder)@
                &&& result is Ok
                &&& encoder@.wf()
            } ==> {
                &&& final(again)@.staged is None
                &&& is_padded(encoder@.ops.buffer, final(again)@.ops.buffer, encoder@.ops.dispatch)
                &&& same_besides_bytes(final(again)@, encoder@)
            },
{
    law_stage_op(op);
    law_drop_staged();
}

/// Replacing an operator right after it was staged leaves what staging the new one leaves.
pub proof fn law_replace_after_stage(first: Op, second: Op)
    requires
        ir::is_silent(first.pieces()),
        ir::is_silent(second.pieces()),
    ensures
        forall|
            encoder: &mut OpEncoder,
            again: &mut OpEncoder,
            other: &mut OpEncoder,
            a: Result<Option<Pos<Op>>, Error>,
            b: Result<Pos<Op>, Error>,
            c: Result<Option<Pos<Op>>, Error>,
        |
            {
                &&& #[trigger] call_ensures(OpEncoder::stage_op, (encoder, first), a)
                &&& #[trigger] call_ensures(OpEncoder::replace_staged, (again, second), b)
                &&& #[trigger] call_ensures(OpEncoder::stage_op, (other, second), c)
                &&& again@ == final(encoder)@
                &&& other@ == encoder@
                &&& a is Ok && b is Ok && c is Ok
                &&& encoder@.wf()
            } ==> final(again)@ == final(other)@,
{
    assert forall|
        encoder: &mut OpEncoder,
        again: &mut OpEncoder,
        other: &mut OpEncoder,
        a: Result<Option<Pos<Op>>, Error>,
        b: Result<Pos<Op>, Error>,
        c: Result<Option<Pos<Op>>, Error>,
    |
        {
            &&& #[trigger] call_ensures(OpEncoder::stage_op, (encoder, first), a)
            &&& #[trigger] call_ensures(OpEncoder::replace_staged, (again, second), b)
            &&& #[trigger] call_ensures(OpEncoder::stage_op, (other, second), c)
            &&& again@ == final(encoder)@
            &&& other@ == encoder@
            &&& a is Ok && b is Ok && c is Ok
            &&& encoder@.wf()
        } implies final(again)@ == final(other)@ by {
        laws::law_replace_is_stage(encoder@, first, second);
    }
}

/// An operator that consumes fuel is encoded if and only if fuel is metered. It starts with its
/// op-code at the next operator position, is followed by one unit of fuel at the position that is
/// returned, and ends there. A staged operator is committed, and nothing else changes.
pub proof fn law_encode_consume_fuel_op()
    ensures
        forall|encoder: &mut OpEncoder, result: Result<Option<Pos<BlockFuel>>, Error>|
            #[trigger] call_ensures(OpEncoder::encode_consume_fuel_op, (encoder,), result)
                && encoder@.wf() ==> {
                let code = encoder@.consume_fuel_code;
                let dispatch = encoder@.ops.dispatch;
                let buffer = final(encoder)@.ops.buffer;
                &&& (result matches Ok(None)) <==> !encoder@.consume_fuel
                &&& result matches Ok(None) ==> final(encoder)@ == encoder@
                &&& result matches Ok(Some(pos)) ==> {
                    let width = if dispatch is Direct {
                        word::word_len()
                    } else {
                        2
                    };
                    let start = pos@ - width;
                    &&& 0 <= start
                    &&& is_padded(encoder@.ops.buffer, buffer.take(start), dispatch)
                    &&& buffer.len() == pos@ + 8
                    &&& word::le_value(buffer.subrange(start, pos@ as int)) == (
                    if dispatch is Direct {
                        code.handler as int
                    } else {
                        code.code as int
                    })
                    &&& word::le_value(buffer.skip(pos@ as int)) == 1
                    &&& final(encoder)@.staged is None
                    &&& same_besides_bytes(final(encoder)@, encoder@)
                }
                &&& result matches Err(error) ==> {
                    &&& error == Error::Translation(TranslationError::OutOfSystemMemory)
                    &&& final(encoder)@.staged is None
                    &&& same_besides_bytes(final(encoder)@, encoder@)
                    &&& exists|pos: nat, bytes: Seq<u8>|
                        {
                            &&& #[trigger] is_appended(
                                encoder@.ops.buffer,
                                buffer,
                                pos,
                                bytes,
                                dispatch,
                            )
                            &&& {
                                ||| bytes.len() == 0 && some_write_fails(
                                    final(encoder)@.ops,
                                    Piece::OpCode(code).bytes(dispatch),
                                )
                                ||| bytes == Piece::OpCode(code).bytes(dispatch)
                                    && some_write_fails(
                                    final(encoder)@.ops,
                                    word::le_bytes(1, 8),
                                )
                            }
                        }
                }
            },
{
    assert forall|encoder: &mut OpEncoder, result: Result<Option<Pos<BlockFuel>>, Error>|
        #[trigger] call_ensures(OpEncoder::encode_consume_fuel_op, (encoder,), result)
            && encoder@.wf() implies {
        let code = encoder@.consume_fuel_code;
        let dispatch = encoder@.ops.dispatch;
        let buffer = final(encoder)@.ops.buffer;
        &&& result matches Ok(Some(pos)) ==> {
            let width = if dispatch is Direct {
                word::word_len()
            } else {
                2
            };
            let start = pos@ - width;
            &&& 0 <= start
            &&& is_padded(encoder@.ops.buffer, buffer.take(start), dispatch)
            &&& buffer.len() == pos@ + 8
            &&& word::le_value(buffer.subrange(start, pos@ as int)) == (if dispatch is Direct {
                code.handler as int
            } else {
                code.code as int
            })
            &&& word::le_value(buffer.skip(pos@ as int)) == 1
        }
        &&& result matches Err(error) ==> {
            &&& final(encoder)@.staged is None
            &&& same_besides_bytes(final(encoder)@, encoder@)
            &&& exists|pos: nat, bytes: Seq<u8>|
                {
                    &&& #[trigger] is_appended(encoder@.ops.buffer, buffer, pos, bytes, dispatch)
                    &&& {
                        ||| bytes.len() == 0 && some_write_fails(
                            final(encoder)@.ops,
                            Piece::OpCode(code).bytes(dispatch),
                        )
                        ||| bytes == Piece::OpCode(code).bytes(dispatch) && some_write_fails(
                            final(encoder)@.ops,
                            word::le_bytes(1, 8),
                        )
                    }
                }
        }
    } by {
        let code = encoder@.consume_fuel_code;
        let piece = Piece::OpCode(code);
        let dispatch = encoder@.ops.dispatch;
        let buffer = final(encoder)@.ops.buffer;
        let first = piece.bytes(dispatch);
        super::ir::law_op_code_round_trip(code);
        law_padded(encoder@.ops);
        word::lemma_le_bytes_len(1, 8);
        if let Ok(Some(pos)) = result {
            let start = pos@ - first.len();
            assert(buffer.take(start) =~= encoder@.ops.padded().buffer);
            assert(buffer.subrange(start, pos@ as int) =~= first);
            assert(buffer.skip(pos@ as int) =~= buffer.subrange(pos@ as int, pos@ + 8int));
        }
        if result is Err {
            let padded = encoder@.committed().padded();
            let none = Seq::<Piece>::empty();
            let one = seq![piece];
            lemma_appended(encoder@, none);
            lemma_appended(encoder@, one);
            ir::lemma_encoding_single(piece, dispatch);
            law_write_may_fail(final(encoder)@.ops, first);
            law_write_may_fail(final(encoder)@.ops, word::le_bytes(1, 8));
            assert(padded.emitted(none).ops.buffer =~= padded.ops.buffer);
            if final(encoder)@ == padded && padded.write_may_fail(piece) {
                assert(is_appended(
                    encoder@.ops.buffer,
                    buffer,
                    encoder@.ops.next_op_pos(),
                    ir::encoding(none, dispatch),
                    dispatch,
                ));
            } else {
                assert(is_appended(
                    encoder@.ops.buffer,
                    buffer,
                    encoder@.ops.next_op_pos(),
                    first,
                    dispatch,
                ));
            }
        }
    }
}

/// Bumping adds to the fuel at the position and changes nothing else. It fails and changes nothing
/// if the sum is out of bounds, and does nothing without a position.
pub proof fn law_bump_fuel_consumption_by(fuel_pos: Option<Pos<BlockFuel>>, delta: u64)
    ensures
        forall|encoder: &mut OpEncoder, result: Result<(), Error>|
            {
                &&& #[trigger] call_ensures(
                    OpEncoder::bump_fuel_consumption_by,
                    (encoder, fuel_pos, delta),
                    result,
                )
                &&& fuel_pos matches Some(pos) ==> pos@ + 8 <= encoder@.ops.buffer.len()
            } ==> match fuel_pos {
                None => result is Ok && final(encoder)@ == encoder@,
                Some(pos) => {
                    let at = pos@ as int;
                    let old_fuel = word::le_value(encoder@.ops.buffer.subrange(at, at + 8));
                    let new_fuel = word::le_value(final(encoder)@.ops.buffer.subrange(at, at + 8));
                    &&& result is Ok <==> old_fuel + delta <= u64::MAX
                    &&& result is Ok ==> new_fuel == old_fuel + delta
                    &&& result matches Err(error) ==> {
                        &&& error == Error::Translation(TranslationError::BlockFuelOutOfBounds)
                        &&& final(encoder)@ == encoder@
                    }
                    &&& final(encoder)@.ops.buffer.len() == encoder@.ops.buffer.len()
                    &&& forall|k: int|
                        0 <= k < encoder@.ops.buffer.len() && !(at <= k < at + 8) ==> (
                        #[trigger] final(encoder)@.ops.buffer[k]) == encoder@.ops.buffer[k]
                    &&& final(encoder)@.staged == encoder@.staged
                    &&& same_besides_bytes(final(encoder)@, encoder@)
                },
            },
{
    assert forall|encoder: &mut OpEncoder, result: Result<(), Error>|
        {
            &&& #[trigger] call_ensures(
                OpEncoder::bump_fuel_consumption_by,
                (encoder, fuel_pos, delta),
                result,
            )
            &&& fuel_pos matches Some(pos) ==> pos@ + 8 <= encoder@.ops.buffer.len()
        } implies match fuel_pos {
        None => true,
        Some(pos) => {
            let at = pos@ as int;
            forall|k: int|
                0 <= k < encoder@.ops.buffer.len() && !(at <= k < at + 8) ==> (
                #[trigger] final(encoder)@.ops.buffer[k]) == encoder@.ops.buffer[k]
        },
    } by {
        if let Some(pos) = fuel_pos {
            let amount = (encoder@.block_fuel_at(pos@) + delta) as nat;
            word::lemma_le_bytes_len(amount, 8);
            if result is Ok {
                word::lemma_splice(encoder@.ops.buffer, pos@, word::le_bytes(amount, 8));
            }
        }
    }
}

/// Bumping the fuel by two amounts one after another adds both.
pub proof fn law_bumping_twice_adds_up(pos: Pos<BlockFuel>, first: u64, second: u64)
    ensures
        forall|
            encoder: &mut OpEncoder,
            again: &mut OpEncoder,
            a: Result<(), Error>,
            b: Result<(), Error>,
        |
            {
                &&& #[trigger] call_ensures(
                    OpEncoder::bump_fuel_consumption_by,
                    (encoder, Some(pos), first),
                    a,
                )
                &&& #[trigger] call_ensures(
                    OpEncoder::bump_fuel_consumption_by,
                    (again, Some(pos), second),
                    b,
                )
                &&& again@ == final(encoder)@
                &&& a is Ok && b is Ok
                &&& pos@ + 8 <= encoder@.ops.buffer.len()
            } ==> {
                let at = pos@ as int;
                word::le_value(final(again)@.ops.buffer.subrange(at, at + 8)) == word::le_value(
                    encoder@.ops.buffer.subrange(at, at + 8),
                ) + first + second
            },
{
    law_bump_fuel_consumption_by(Some(pos), first);
    law_bump_fuel_consumption_by(Some(pos), second);
}

/// A branch is encoded at the end of the bytes with the distance to its label if the label is
/// pinned, and with the distance zero otherwise. The branch and the position of its distance are
/// registered, and if the label is not pinned yet, the branch waits for it.
pub proof fn law_encode_branch<T: Encode, F: FnOnce(BranchOffset) -> T>(dst: LabelRef, make_branch: F)
    ensures
        forall|encoder: &mut OpEncoder, result: Result<(Pos<T>, Pos<BranchOffset>), Error>|
            #[trigger] call_ensures(OpEncoder::encode_branch::<T>, (encoder, dst, make_branch), result)
                && encoder@.wf() ==> exists|offset: BranchOffset, item: T, index: int|
                {
                    let before = encoder@;
                    let after = final(encoder)@;
                    let src = before.ops.buffer.len();
                    let pieces = item.pieces();
                    let dispatch = before.ops.dispatch;
                    let pos = src + ir::encoding(pieces.take(index), dispatch).len();
                    &&& #[trigger] make_branch.ensures((offset,), item)
                    &&& 0 <= index < pieces.len()
                    &&& pieces[index] matches Piece::Operand(Operand::BranchOffset(_))
                    &&& #[trigger] ir::reports_branch_at(item.pieces(), index)
                    &&& match before.labels.labels[dst@ as int] {
                        Some(target) => {
                            &&& src <= isize::MAX && target <= isize::MAX ==> src + offset@
                                == target
                            &&& offset@ == word::wrap_isize(target - src)
                        },
                        None => offset@ == 0,
                    }
                    &&& after.staged is None
                    &&& same_config(after, before)
                    &&& after.labels.labels == before.labels.labels
                    &&& match result {
                        Ok((pos_item, pos_offset)) => {
                            &&& pos_item@ == src
                            &&& pos_offset@ == pos
                            &&& after.ops.buffer == before.ops.buffer + ir::encoding(
                                pieces,
                                dispatch,
                            )
                            &&& after.ops.temp is None
                            &&& after.ops.branch_offsets == before.ops.branch_offsets.push(
                                BranchState { src, pos },
                            )
                            &&& match before.labels.labels[dst@ as int] {
                                Some(_) => after.labels.users == before.labels.users,
                                None => after.labels.users == before.labels.users.push(
                                    UserState { label: dst@, src, pos },
                                ),
                            }
                        },
                        Err(error) => {
                            &&& error == Error::Translation(TranslationError::OutOfSystemMemory)
                            &&& after.ops.branch_offsets == before.ops.branch_offsets
                            &&& after.labels.users == before.labels.users
                            &&& exists|count: int|
                                {
                                    &&& 0 <= count < pieces.len()
                                    &&& after.ops.buffer == before.ops.buffer
                                        + #[trigger] ir::encoding(pieces.take(count), dispatch)
                                    &&& after.ops == before.ops.emitted(pieces.take(count))
                                    &&& some_write_fails(after.ops, pieces[count].bytes(dispatch))
                                }
                        },
                    }
                },
{
    assert forall|encoder: &mut OpEncoder, result: Result<(Pos<T>, Pos<BranchOffset>), Error>|
        #[trigger] call_ensures(OpEncoder::encode_branch::<T>, (encoder, dst, make_branch), result)
            && encoder@.wf() implies exists|offset: BranchOffset, item: T, index: int|
        {
            let before = encoder@;
            let after = final(encoder)@;
            let src = before.ops.buffer.len();
            let pieces = item.pieces();
            let dispatch = before.ops.dispatch;
            let pos = src + ir::encoding(pieces.take(index), dispatch).len();
            &&& #[trigger] make_branch.ensures((offset,), item)
            &&& 0 <= index < pieces.len()
            &&& pieces[index] matches Piece::Operand(Operand::BranchOffset(_))
            &&& #[trigger] ir::reports_branch_at(item.pieces(), index)
            &&& match before.labels.labels[dst@ as int] {
                Some(target) => {
                    &&& src <= isize::MAX && target <= isize::MAX ==> src + offset@ == target
                    &&& offset@ == word::wrap_isize(target - src)
                },
                None => offset@ == 0,
            }
            &&& after.staged is None
            &&& same_config(after, before)
            &&& after.labels.labels == before.labels.labels
            &&& match result {
                Ok((pos_item, pos_offset)) => {
                    &&& pos_item@ == src
                    &&& pos_offset@ == pos
                    &&& after.ops.buffer == before.ops.buffer + ir::encoding(pieces, dispatch)
                    &&& after.ops.temp is None
                    &&& after.ops.branch_offsets == before.ops.branch_offsets.push(
                        BranchState { src, pos },
                    )
                    &&& match before.labels.labels[dst@ as int] {
                        Some(_) => after.labels.users == before.labels.users,
                        None => after.labels.users == before.labels.users.push(
                            UserState { label: dst@, src, pos },
                        ),
                    }
                },
                Err(error) => {
                    &&& error == Error::Translation(TranslationError::OutOfSystemMemory)
                    &&& after.ops.branch_offsets == before.ops.branch_offsets
                    &&& after.labels.users == before.labels.users
                    &&& exists|count: int|
                        {
                            &&& 0 <= count < pieces.len()
                            &&& after.ops.buffer == before.ops.buffer + #[trigger] ir::encoding(
                                pieces.take(count),
                                dispatch,
                            )
                            &&& after.ops == before.ops.emitted(pieces.take(count))
                            &&& some_write_fails(after.ops, pieces[count].bytes(dispatch))
                        }
                },
            }
        } by {
        let before = encoder@;
        let after = final(encoder)@;
        let (offset, item, index) = choose|offset: BranchOffset, item: T, index: int|
            {
                &&& offset@ == before.offset_to(dst@)
                &&& #[trigger] make_branch.ensures((offset,), item)
                &&& #[trigger] ir::reports_branch_at(item.pieces(), index)
                &&& match result {
                    Ok((pos_item, pos_offset)) => {
                        &&& pos_item@ == before.ops.buffer.len()
                        &&& pos_offset@ == before.branch_offset_pos(item.pieces(), index)
                        &&& after == before.branched(dst@, item.pieces(), index)
                    },
                    Err(error) => {
                        &&& error == encoder::out_of_system_memory()
                        &&& exists|count: int|
                            {
                                &&& 0 <= count < item.pieces().len()
                                &&& after == #[trigger] before.committed().emitted(
                                    item.pieces().take(count),
                                )
                                &&& after.write_may_fail(item.pieces()[count])
                            }
                    },
                }
            };
        let src = before.ops.buffer.len();
        if let Some(target) = before.labels.labels[dst@ as int] {
            if src <= isize::MAX && target <= isize::MAX {
                laws::law_branch_offset_is_exact(src, target);
            }
        }
        if result is Err {
            let count = choose|count: int|
                {
                    &&& 0 <= count < item.pieces().len()
                    &&& after == #[trigger] before.committed().emitted(item.pieces().take(count))
                    &&& after.write_may_fail(item.pieces()[count])
                };
            law_write_may_fail(after.ops, item.pieces()[count].bytes(before.ops.dispatch));
            assert(after.ops.buffer == before.ops.buffer + ir::encoding(
                item.pieces().take(count),
                before.ops.dispatch,
            ));
        }
    }
}

/// Updating stores the distance from every waiting branch to its label, and changes nothing else.
pub proof fn law_update_branch_offsets()
    ensures
        forall|encoder: &mut OpEncoder|
            {
                &&& #[trigger] call_ensures(OpEncoder::update_branch_offsets, (encoder,), ())
                &&& encoder@.wf()
            } ==> {
                let before = encoder@;
                let after = final(encoder)@;
                &&& forall|i: int|
                    0 <= i < before.labels.users.len() ==> {
                        let user = #[trigger] before.labels.users[i];
                        let target = before.labels.labels[user.label as int]->0;
                        let distance = word::signed_word_at(after.ops.buffer, user.pos);
                        &&& user.src <= isize::MAX && target <= isize::MAX ==> user.src + distance
                            == target
                        &&& distance == word::wrap_isize(target - user.src)
                    }
                &&& after.ops.buffer.len() == before.ops.buffer.len()
                &&& forall|k: int|
                    0 <= k < before.ops.buffer.len() && (forall|i: int|
                        0 <= i < before.labels.users.len() ==> !((
                        #[trigger] before.labels.users[i]).pos <= k < before.labels.users[i].pos
                            + word::word_len())) ==> (#[trigger] after.ops.buffer[k])
                        == before.ops.buffer[k]
                &&& after.staged == before.staged
                &&& same_besides_bytes(after, before)
            },
{
    assert forall|encoder: &mut OpEncoder|
        {
            &&& #[trigger] call_ensures(OpEncoder::update_branch_offsets, (encoder,), ())
            &&& encoder@.wf()
        } implies {
        let before = encoder@;
        let after = final(encoder)@;
        &&& forall|i: int|
            0 <= i < before.labels.users.len() ==> {
                let user = #[trigger] before.labels.users[i];
                let target = before.labels.labels[user.label as int]->0;
                let distance = word::signed_word_at(after.ops.buffer, user.pos);
                &&& user.src <= isize::MAX && target <= isize::MAX ==> user.src + distance
                    == target
                &&& distance == word::wrap_isize(target - user.src)
            }
        &&& after.ops.buffer.len() == before.ops.buffer.len()
        &&& forall|k: int|
            0 <= k < before.ops.buffer.len() && (forall|i: int|
                0 <= i < before.labels.users.len() ==> !((#[trigger] before.labels.users[i]).pos
                    <= k < before.labels.users[i].pos + word::word_len())) ==> (
            #[trigger] after.ops.buffer[k]) == before.ops.buffer[k]
    } by {
        let before = encoder@;
        let after = final(encoder)@;
        before.lemma_users_in_bounds();
        laws::law_resolution(before.ops.buffer, before.labels, before.labels.users);
        assert forall|i: int| 0 <= i < before.labels.users.len() implies {
            let user = #[trigger] before.labels.users[i];
            let target = before.labels.labels[user.label as int]->0;
            user.src <= isize::MAX && target <= isize::MAX ==> word::wrap_isize(target - user.src)
                == target - user.src
        } by {
            let user = before.labels.users[i];
            let target = before.labels.labels[user.label as int]->0;
            if user.src <= isize::MAX && target <= isize::MAX {
                laws::law_branch_offset_is_exact(user.src, target);
            }
        }
        assert forall|k: int|
            0 <= k < before.ops.buffer.len() && (forall|i: int|
                0 <= i < before.labels.users.len() ==> !((#[trigger] before.labels.users[i]).pos
                    <= k < before.labels.users[i].pos + word::word_len())) implies (
        #[trigger] after.ops.buffer[k]) == before.ops.buffer[k] by {
            assert(!encoder::in_user_offset(before.labels.users, k));
        }
    }
}

/// Relocating for operators at the address `base` makes every branch hold the address of its target.
pub proof fn law_relocate_at(encoder: OpEncoder, base: usize)
    requires
        encoder@.wf(),
    ensures
        forall|bytes: &mut [u8]|
            #[trigger] call_ensures(
                OpEncoder::relocate_branch_offsets_at,
                (&encoder, bytes, base),
                (),
            ) && bytes@.len() == encoder@.ops.buffer.len() ==> is_relocated(
                bytes@,
                final(bytes)@,
                base as int,
                encoder@.ops.branch_offsets,
            ),
{
    assert forall|bytes: &mut [u8]|
        #[trigger] call_ensures(OpEncoder::relocate_branch_offsets_at, (&encoder, bytes, base), ())
            && bytes@.len() == encoder@.ops.buffer.len() implies is_relocated(
        bytes@,
        final(bytes)@,
        base as int,
        encoder@.ops.branch_offsets,
    ) by {
        law_relocated(bytes@, base as int, encoder@.ops.branch_offsets);
    }
}

/// Relocating makes every branch hold the address of its target, for the address of the very slice
/// that is relocated.
pub proof fn law_relocate(encoder: OpEncoder)
    requires
        encoder@.wf(),
    ensures
        forall|bytes: &mut [u8]|
            #[trigger] call_ensures(OpEncoder::relocate_branch_offsets, (&encoder, bytes), ())
                && bytes@.len() == encoder@.ops.buffer.len() ==> exists|base: usize|
                {
                    &&& #[trigger] ops::resides_at(bytes, base)
                    &&& 0 < base
                    &&& base + bytes@.len() <= usize::MAX
                    &&& is_relocated(bytes@, final(bytes)@, base as int, encoder@.ops.branch_offsets)
                },
{
    assert forall|bytes: &mut [u8]|
        #[trigger] call_ensures(OpEncoder::relocate_branch_offsets, (&encoder, bytes), ())
            && bytes@.len() == encoder@.ops.buffer.len() implies exists|base: usize|
        {
            &&& #[trigger] ops::resides_at(bytes, base)
            &&& 0 < base
            &&& base + bytes@.len() <= usize::MAX
            &&& is_relocated(bytes@, final(bytes)@, base as int, encoder@.ops.branch_offsets)
        } by {
        let base = choose|base: usize|
            {
                &&& ops::resides_at(bytes, base)
                &&& 0 < base
                &&& base + bytes@.len() <= usize::MAX
                &&& final(bytes)@ == #[trigger] ops::relocated(
                    bytes@,
                    base as int,
                    encoder@.ops.branch_offsets,
                )
            };
        law_relocated(bytes@, base as int, encoder@.ops.branch_offsets);
        assert(ops::resides_at(bytes, base));
    }
}

/// Calls are admitted in every consistent state: labels can be pinned once if nothing is staged,
/// operators without branch offset and without the fuel of a block can be encoded and staged, and
/// what is staged can be replaced and dropped.
pub proof fn law_calls_are_admitted(
    lref: LabelRef,
    op: Op,
    fuel_pos: Option<Pos<BlockFuel>>,
    delta: u64,
)
    ensures
        forall|encoder: &mut OpEncoder| #[trigger] call_requires(OpEncoder::new_label, (encoder,)),
        forall|encoder: &mut OpEncoder|
            {
                &&& encoder@.wf()
                &&& encoder@.staged is None
                &&& lref@ < encoder@.labels.labels.len()
                &&& encoder@.labels.labels[lref@ as int] is None
            } ==> #[trigger] call_requires(OpEncoder::pin_label, (encoder, lref)),
        forall|encoder: &mut OpEncoder|
            {
                &&& encoder@.wf()
                &&& encoder@.staged is None
                &&& lref@ < encoder@.labels.labels.len()
            } ==> #[trigger] call_requires(OpEncoder::pin_label_if_unpinned, (encoder, lref)),
        forall|encoder: &mut OpEncoder|
            encoder@.wf() ==> #[trigger] call_requires(
                OpEncoder::commit_staged_if_any,
                (encoder,),
            ),
        forall|encoder: &mut OpEncoder| #[trigger]
            call_requires(OpEncoder::pad_to_op_alignment, (encoder,)),
        forall|encoder: &mut OpEncoder|
            encoder@.wf() && ir::is_silent(op.pieces()) ==> #[trigger] call_requires(
                OpEncoder::encode_op,
                (encoder, op),
            ),
        forall|encoder: &mut OpEncoder|
            encoder@.wf() && ir::is_silent(op.pieces()) ==> #[trigger] call_requires(
                OpEncoder::stage_op,
                (encoder, op),
            ),
        forall|encoder: &mut OpEncoder|
            encoder@.wf() && encoder@.staged is Some && ir::is_silent(op.pieces())
                ==> #[trigger] call_requires(OpEncoder::replace_staged, (encoder, op)),
        forall|encoder: &mut OpEncoder|
            encoder@.wf() && encoder@.staged is Some ==> #[trigger] call_requires(
                OpEncoder::drop_staged,
                (encoder,),
            ),
        forall|encoder: &mut OpEncoder|
            encoder@.wf() ==> #[trigger] call_requires(
                OpEncoder::encode_consume_fuel_op,
                (encoder,),
            ),
        forall|encoder: &mut OpEncoder|
            {
                &&& encoder@.wf()
                &&& fuel_pos is Some <==> encoder@.consume_fuel
                &&& fuel_pos matches Some(pos) ==> pos@ + 8 <= encoder@.ops.buffer.len()
            } ==> #[trigger] call_requires(
                OpEncoder::bump_fuel_consumption_by,
                (encoder, fuel_pos, delta),
            ),
        forall|encoder: &mut OpEncoder|
            {
                &&& encoder@.wf()
                &&& forall|i: int|
                    0 <= i < encoder@.labels.users.len() ==> {
                        let label = (#[trigger] encoder@.labels.users[i]).label;
                        &&& label < encoder@.labels.labels.len()
                        &&& encoder@.labels.labels[label as int] is Some
                    }
            } ==> #[trigger] call_requires(OpEncoder::update_branch_offsets, (encoder,)),
{
}

/// Encoded operators can be relocated in every consistent state, in any slice of the same length.
pub proof fn law_relocation_is_admitted(encoder: OpEncoder, base: usize)
    requires
        encoder@.wf(),
    ensures
        forall|bytes: &mut [u8]|
            bytes@.len() == encoder@.ops.buffer.len() ==> #[trigger] call_requires(
                OpEncoder::relocate_branch_offsets,
                (&encoder, bytes),
            ),
        forall|bytes: &mut [u8]|
            bytes@.len() == encoder@.ops.buffer.len() ==> #[trigger] call_requires(
                OpEncoder::relocate_branch_offsets_at,
                (&encoder, bytes, base),
            ),
{
}

/// A branch to any label can be encoded in every consistent state, if `make_branch` admits every
/// branch offset and yields items with one branch offset and without the fuel of a block.
pub proof fn law_branches_are_admitted<T: Encode, F: FnOnce(BranchOffset) -> T>(
    dst: LabelRef,
    make_branch: F,
)
    requires
        forall|offset: BranchOffset| #[trigger] make_branch.requires((offset,)),
        forall|offset: BranchOffset, item: T| #[trigger]
            make_branch.ensures((offset,), item) ==> exists|index: int|
                ir::reports_branch_at(item.pieces(), index),
    ensures
        forall|encoder: &mut OpEncoder|
            encoder@.wf() && dst@ < encoder@.labels.labels.len() ==> #[trigger] call_requires(
                OpEncoder::encode_branch::<T>,
                (encoder, dst, make_branch),
            ),
{
}

} // verus!
