//! What the buffer of encoded operators does.
use crate::emit::{Encoder, WriteBytes};
use crate::engine::TranslationError;
use crate::ir::{self, BlockFuel, BranchOffset, Decode, Dispatch, Encode, OpCode, Piece};
use crate::laws;
use crate::ops::{self, BranchState, EncodedOps, OpsState, ReportState, ReportingPos,
    UpdateEncodedError, UpdateEncodedErrorKind};
use crate::pos::{BytePos, Pos};
use crate::reuse::Reset;
use crate::word;
use super::emit;
use vstd::prelude::*;

verus! {

/// Whether `after` is `before` followed by as few zero bytes as needed for the next operator: up to
/// the next multiple of the alignment of machine words if dispatch is direct, and none otherwise.
pub open spec fn is_padded(before: Seq<u8>, after: Seq<u8>, dispatch: Dispatch) -> bool {
    let align = vstd::layout::align_of::<usize>();
    &&& before.len() <= after.len()
    &&& dispatch is Direct ==> after.len() % align == 0 && after.len() < before.len() + align
    &&& dispatch is Indirect ==> after.len() == before.len()
    &&& forall|i: int| 0 <= i < before.len() ==> (#[trigger] after[i]) == before[i]
    &&& forall|i: int| before.len() <= i < after.len() ==> (#[trigger] after[i]) == 0
}

/// Padding a buffer for the next operator appends as few zero bytes as needed.
pub proof fn law_padded(state: OpsState)
    ensures
        is_padded(state.buffer, state.padded().buffer, state.dispatch),
        state.padded().buffer.len() == state.next_op_pos(),
        state.padded().temp == state.temp,
        state.padded().branch_offsets == state.branch_offsets,
        state.padded().dispatch == state.dispatch,
{
    laws::law_padding_is_idempotent(state);
    ops::lemma_aligned_len(state.buffer.len());
    assert forall|i: int| 0 <= i < state.buffer.len() implies (
    #[trigger] state.padded().buffer[i]) == state.buffer[i] by {}
}

/// A buffer starts empty. Resetting a buffer removes its bytes and its branches, and nothing else.
pub proof fn law_empty()
    ensures
        forall|ops: EncodedOps| #[trigger]
            call_ensures(EncodedOps::default, (), ops) ==> {
                &&& ops@.buffer.len() == 0
                &&& ops@.temp is None
                &&& ops@.branch_offsets.len() == 0
                &&& ops@.dispatch is Direct
            },
        forall|ops: &mut EncodedOps| #[trigger]
            call_ensures(EncodedOps::reset, (ops,), ()) ==> {
                &&& final(ops)@.buffer.len() == 0
                &&& final(ops)@.branch_offsets.len() == 0
                &&& final(ops)@.temp == ops@.temp
                &&& final(ops)@.dispatch == ops@.dispatch
            },
{
}

/// Setting the dispatch technique changes nothing else.
pub proof fn law_set_dispatch(dispatch: Dispatch)
    ensures
        forall|ops: &mut EncodedOps| #[trigger]
            call_ensures(EncodedOps::set_dispatch, (ops, dispatch), ()) ==> {
                &&& final(ops)@.dispatch == dispatch
                &&& final(ops)@.buffer == ops@.buffer
                &&& final(ops)@.temp == ops@.temp
                &&& final(ops)@.branch_offsets == ops@.branch_offsets
            },
{
}

/// The bytes, their number and the dispatch technique are read as they are.
pub proof fn law_reads(ops: EncodedOps)
    ensures
        forall|bytes: &[u8]| #[trigger]
            call_ensures(EncodedOps::bytes, (&ops,), bytes) ==> bytes@ == ops@.buffer,
        forall|pos: BytePos| #[trigger]
            call_ensures(EncodedOps::next_pos, (&ops,), pos) ==> pos@ == ops@.buffer.len(),
        forall|dispatch: Dispatch| #[trigger]
            call_ensures(<EncodedOps as WriteBytes>::dispatch, (&ops,), dispatch) ==> dispatch
                == ops@.dispatch,
{
}

/// The reported position is taken as it is, and none is left.
pub proof fn law_take_reporting_pos()
    ensures
        forall|ops: &mut EncodedOps, taken: Option<ReportingPos>| #[trigger]
            call_ensures(EncodedOps::take_reporting_pos, (ops,), taken) ==> {
                &&& match taken {
                    Some(ReportingPos::BranchOffset(pos)) => ops@.temp == Some(
                        ReportState::BranchOffset(pos@),
                    ),
                    Some(ReportingPos::BlockFuel(pos)) => ops@.temp == Some(
                        ReportState::BlockFuel(pos@),
                    ),
                    None => ops@.temp is None,
                }
                &&& final(ops)@.temp is None
                &&& final(ops)@.buffer == ops@.buffer
                &&& final(ops)@.branch_offsets == ops@.branch_offsets
                &&& final(ops)@.dispatch == ops@.dispatch
            },
{
}

/// A branch is registered as given and behind all others.
pub proof fn law_register_branch_offset(src: BytePos, pos: Pos<BranchOffset>)
    ensures
        forall|ops: &mut EncodedOps| #[trigger]
            call_ensures(EncodedOps::register_branch_offset, (ops, src, pos), ()) ==> {
                let branches = final(ops)@.branch_offsets;
                &&& branches.len() == ops@.branch_offsets.len() + 1
                &&& branches.last().src == src@
                &&& branches.last().pos == pos@
                &&& forall|i: int|
                    0 <= i < ops@.branch_offsets.len() ==> (#[trigger] branches[i])
                        == ops@.branch_offsets[i]
                &&& final(ops)@.buffer == ops@.buffer
                &&& final(ops)@.temp == ops@.temp
                &&& final(ops)@.dispatch == ops@.dispatch
            },
{
}

/// The branches that remain are the first ones up to the last one before the new length.
pub proof fn law_truncated_branches(branches: Seq<BranchState>, len: nat)
    ensures
        ({
            let kept = ops::truncated_branches(branches, len);
            &&& kept.len() <= branches.len()
            &&& kept == branches.take(kept.len() as int)
            &&& kept.len() > 0 ==> kept.last().pos < len
            &&& forall|i: int|
                kept.len() <= i < branches.len() ==> (#[trigger] branches[i]).pos >= len
        }),
    decreases branches.len(),
{
    let kept = ops::truncated_branches(branches, len);
    if branches.len() == 0 || branches.last().pos < len {
        assert(kept =~= branches.take(kept.len() as int));
    } else {
        let front = branches.drop_last();
        law_truncated_branches(front, len);
        assert(kept =~= branches.take(kept.len() as int));
        assert forall|i: int| kept.len() <= i < branches.len() implies (
        #[trigger] branches[i]).pos >= len by {
            if i < front.len() {
                assert(front[i] == branches[i]);
            }
        }
    }
}

/// Truncating keeps the bytes before the new length and the branches up to the last one before it.
pub proof fn law_truncate(pos: BytePos)
    ensures
        forall|ops: &mut EncodedOps|
            #[trigger] call_ensures(EncodedOps::truncate, (ops, pos), ()) && pos@
                <= ops@.buffer.len() ==> {
                let kept = final(ops)@.branch_offsets;
                &&& final(ops)@.buffer.len() == pos@
                &&& forall|i: int|
                    0 <= i < pos@ ==> (#[trigger] final(ops)@.buffer[i]) == ops@.buffer[i]
                &&& kept.len() <= ops@.branch_offsets.len()
                &&& kept == ops@.branch_offsets.take(kept.len() as int)
                &&& kept.len() > 0 ==> kept.last().pos < pos@
                &&& forall|i: int|
                    kept.len() <= i < ops@.branch_offsets.len() ==> (
                    #[trigger] ops@.branch_offsets[i]).pos >= pos@
                &&& final(ops)@.temp == ops@.temp
                &&& final(ops)@.dispatch == ops@.dispatch
            },
{
    assert forall|ops: &mut EncodedOps|
        #[trigger] call_ensures(EncodedOps::truncate, (ops, pos), ()) && pos@
            <= ops@.buffer.len() implies {
        let kept = final(ops)@.branch_offsets;
        &&& kept.len() <= ops@.branch_offsets.len()
        &&& kept == ops@.branch_offsets.take(kept.len() as int)
        &&& kept.len() > 0 ==> kept.last().pos < pos@
        &&& forall|i: int|
            kept.len() <= i < ops@.branch_offsets.len() ==> (#[trigger] ops@.branch_offsets[i]).pos
                >= pos@
    } by {
        law_truncated_branches(ops@.branch_offsets, pos@);
    }
}

/// Padding appends as few zero bytes as needed for the next operator, and changes nothing else.
pub proof fn law_pad_to_op_alignment()
    ensures
        forall|ops: &mut EncodedOps| #[trigger]
            call_ensures(EncodedOps::pad_to_op_alignment, (ops,), ()) ==> {
                &&& is_padded(ops@.buffer, final(ops)@.buffer, ops@.dispatch)
                &&& final(ops)@.temp == ops@.temp
                &&& final(ops)@.branch_offsets == ops@.branch_offsets
                &&& final(ops)@.dispatch == ops@.dispatch
            },
{
    assert forall|ops: &mut EncodedOps| #[trigger]
        call_ensures(EncodedOps::pad_to_op_alignment, (ops,), ()) implies is_padded(
        ops@.buffer,
        final(ops)@.buffer,
        ops@.dispatch,
    ) by {
        law_padded(ops@);
    }
}

/// Bytes are appended behind all others, at the position that is returned, if there is memory for
/// them. Nothing changes otherwise.
pub proof fn law_write(bytes: &[u8], reserved: bool)
    ensures
        forall|ops: &mut EncodedOps, result: Result<BytePos, TranslationError>| #[trigger]
            call_ensures(EncodedOps::write_reserved, (ops, bytes, reserved), result) ==> {
                &&& result is Ok <==> reserved
                &&& result matches Ok(pos) ==> {
                    &&& pos@ == ops@.buffer.len()
                    &&& final(ops)@.buffer == ops@.buffer + bytes@
                }
                &&& result matches Err(error) ==> {
                    &&& error is OutOfSystemMemory
                    &&& final(ops)@.buffer == ops@.buffer
                }
                &&& final(ops)@.temp == ops@.temp
                &&& final(ops)@.branch_offsets == ops@.branch_offsets
                &&& final(ops)@.dispatch == ops@.dispatch
            },
        forall|ops: &mut EncodedOps, result: Result<BytePos, TranslationError>| #[trigger]
            call_ensures(<EncodedOps as WriteBytes>::write_bytes, (ops, bytes), result) ==> {
                &&& result matches Ok(pos) ==> {
                    &&& pos@ == ops@.buffer.len()
                    &&& final(ops)@.buffer == ops@.buffer + bytes@
                }
                &&& result matches Err(error) ==> {
                    &&& error is OutOfSystemMemory
                    &&& final(ops)@.buffer == ops@.buffer
                }
                &&& final(ops)@.temp == ops@.temp
                &&& final(ops)@.branch_offsets == ops@.branch_offsets
                &&& final(ops)@.dispatch == ops@.dispatch
                &&& exists|
                    vec: &mut Vec<u8>,
                    len: usize,
                    outcome: Result<(), std::collections::TryReserveError>,
                |
                    {
                        &&& vec@ == ops@.buffer
                        &&& len == bytes@.len()
                        &&& outcome is Ok == result is Ok
                        &&& #[trigger] call_ensures(Vec::<u8>::try_reserve, (vec, len), outcome)
                    }
            },
{
}

/// An op-code is appended as the whole address of its handler if dispatch is direct, and as its code
/// otherwise, if there is memory for it.
pub proof fn law_encode_op_code(code: OpCode)
    ensures
        forall|ops: &mut EncodedOps, result: Result<BytePos, TranslationError>| #[trigger]
            call_ensures(<EncodedOps as Encoder>::encode_op_code, (ops, code), result) ==> {
                let start = ops@.buffer.len() as int;
                let bytes = final(ops)@.buffer.skip(start);
                &&& result matches Ok(pos) ==> {
                    &&& pos@ == start
                    &&& final(ops)@.buffer.len() >= start
                    &&& final(ops)@.buffer.take(start) == ops@.buffer
                    &&& ops@.dispatch is Direct ==> bytes.len() == word::word_len()
                        && word::le_value(bytes) == code.handler
                    &&& ops@.dispatch is Indirect ==> bytes.len() == 2 && word::le_value(bytes)
                        == code.code
                }
                &&& result is Err ==> final(ops)@.buffer == ops@.buffer
                &&& final(ops)@.temp == ops@.temp
                &&& final(ops)@.branch_offsets == ops@.branch_offsets
                &&& final(ops)@.dispatch == ops@.dispatch
            },
{
    super::ir::law_op_code_round_trip(code);
    assert forall|ops: &mut EncodedOps, result: Result<BytePos, TranslationError>|
        #[trigger] call_ensures(<EncodedOps as Encoder>::encode_op_code, (ops, code), result)
            && result is Ok implies {
        let start = ops@.buffer.len() as int;
        &&& final(ops)@.buffer.len() >= start
        &&& final(ops)@.buffer.take(start) == ops@.buffer
        &&& final(ops)@.buffer.skip(start) == Piece::OpCode(code).bytes(ops@.dispatch)
    } by {
        let start = ops@.buffer.len() as int;
        assert(final(ops)@.buffer.take(start) =~= ops@.buffer);
        assert(final(ops)@.buffer.skip(start) =~= Piece::OpCode(code).bytes(ops@.dispatch));
    }
}

/// A position is reported as what it is, and nothing else changes.
pub proof fn law_reports(pos: BytePos, offset: BranchOffset, fuel: BlockFuel)
    ensures
        forall|ops: &mut EncodedOps, result: Result<(), TranslationError>| #[trigger]
            call_ensures(<EncodedOps as Encoder>::branch_offset, (ops, pos, offset), result) ==> {
                &&& result is Ok
                &&& final(ops)@.temp == Some(ReportState::BranchOffset(pos@))
                &&& final(ops)@.buffer == ops@.buffer
                &&& final(ops)@.branch_offsets == ops@.branch_offsets
                &&& final(ops)@.dispatch == ops@.dispatch
            },
        forall|ops: &mut EncodedOps, result: Result<(), TranslationError>| #[trigger]
            call_ensures(<EncodedOps as Encoder>::block_fuel, (ops, pos, fuel), result) ==> {
                &&& result is Ok
                &&& final(ops)@.temp == Some(ReportState::BlockFuel(pos@))
                &&& final(ops)@.buffer == ops@.buffer
                &&& final(ops)@.branch_offsets == ops@.branch_offsets
                &&& final(ops)@.dispatch == ops@.dispatch
            },
{
}

/// Encoding pieces appends their encoding. If one of them is reported, its position is that of its
/// first byte. The reported position stays otherwise.
pub proof fn law_emitted(state: OpsState, pieces: Seq<Piece>, index: int)
    requires
        0 <= index < pieces.len(),
        forall|i: int|
            0 <= i < pieces.len() && i != index ==> !(#[trigger] pieces[i]).is_reported(),
    ensures
        state.emitted(pieces).buffer == state.buffer + ir::encoding(pieces, state.dispatch),
        state.emitted(pieces).branch_offsets == state.branch_offsets,
        state.emitted(pieces).dispatch == state.dispatch,
        ({
            let start = state.buffer.len() + ir::encoding(
                pieces.take(index),
                state.dispatch,
            ).len();
            state.emitted(pieces).temp == (if pieces[index].is_branch_offset() {
                Some(ReportState::BranchOffset(start))
            } else if pieces[index].is_block_fuel() {
                Some(ReportState::BlockFuel(start))
            } else {
                state.temp
            })
        }),
    decreases pieces.len(),
{
    let front = pieces.drop_last();
    if index == pieces.len() - 1 {
        assert(front =~= pieces.take(index));
        assert forall|i: int| 0 <= i < front.len() implies !(#[trigger] front[i]).is_reported() by {
            assert(!pieces[i].is_reported());
        }
        state.lemma_silent_keeps_report(front);
    } else {
        assert(!pieces[pieces.len() - 1].is_reported());
        assert forall|i: int| 0 <= i < front.len() && i != index implies !(
        #[trigger] front[i]).is_reported() by {
            assert(!pieces[i].is_reported());
        }
        law_emitted(state, front, index);
        assert(front.take(index) =~= pieces.take(index));
    }
}

/// Whether there is a call of writing `bytes` to encoded operators in the given state that fails.
pub open spec fn some_write_fails(state: OpsState, bytes: Seq<u8>) -> bool {
    exists|sink: &mut EncodedOps, slice: &[u8], result: Result<BytePos, TranslationError>|
        {
            &&& sink@ == state
            &&& slice@ == bytes
            &&& result is Err
            &&& #[trigger] call_ensures(
                <EncodedOps as WriteBytes>::write_bytes,
                (sink, slice),
                result,
            )
        }
}

/// Writing may fail only if there is a call that fails.
pub proof fn law_write_may_fail(state: OpsState, bytes: Seq<u8>)
    ensures
        ops::write_may_fail(state, bytes) ==> some_write_fails(state, bytes),
{
    if ops::write_may_fail(state, bytes) {
        let before = choose|before: EncodedOps|
            before@ == state && #[trigger] crate::emit::write_may_fail(before, bytes);
        let (sink, slice, result) = choose|
            sink: &mut EncodedOps,
            slice: &[u8],
            result: Result<BytePos, TranslationError>,
        |
            {
                &&& *sink == before
                &&& slice@ == bytes
                &&& result is Err
                &&& #[trigger] call_ensures(
                    <EncodedOps as WriteBytes>::write_bytes,
                    (sink, slice),
                    result,
                )
            };
        assert(sink@ == state);
    }
}

/// Encoding an item appends the encoding of its pieces at the position that is returned. The
/// position of a branch offset or of the fuel of a block among them is reported. If there is no
/// memory for one of the pieces, exactly those before it are encoded.
pub proof fn law_encode<T: Encode>(item: T, index: int)
    requires
        0 <= index < item.pieces().len(),
        forall|i: int|
            0 <= i < item.pieces().len() && i != index ==> !(
            #[trigger] item.pieces()[i]).is_reported(),
    ensures
        forall|ops: &mut EncodedOps, result: Result<BytePos, TranslationError>| #[trigger]
            call_ensures(EncodedOps::encode::<T>, (ops, &item), result) ==> {
                let start = ops@.buffer.len() + ir::encoding(
                    item.pieces().take(index),
                    ops@.dispatch,
                ).len();
                &&& result matches Ok(pos) ==> {
                    &&& pos@ == ops@.buffer.len()
                    &&& final(ops)@.buffer == ops@.buffer + ir::encoding(
                        item.pieces(),
                        ops@.dispatch,
                    )
                    &&& final(ops)@.temp == (if item.pieces()[index].is_branch_offset() {
                        Some(ReportState::BranchOffset(start))
                    } else if item.pieces()[index].is_block_fuel() {
                        Some(ReportState::BlockFuel(start))
                    } else {
                        ops@.temp
                    })
                }
                &&& result matches Err(error) ==> {
                    &&& error is OutOfSystemMemory
                    &&& exists|count: int|
                        {
                            &&& 0 <= count < item.pieces().len()
                            &&& final(ops)@.buffer == ops@.buffer + #[trigger] ir::encoding(
                                item.pieces().take(count),
                                ops@.dispatch,
                            )
                            &&& final(ops)@ == ops@.emitted(item.pieces().take(count))
                            &&& some_write_fails(
                                final(ops)@,
                                item.pieces()[count].bytes(ops@.dispatch),
                            )
                        }
                }
                &&& final(ops)@.branch_offsets == ops@.branch_offsets
                &&& final(ops)@.dispatch == ops@.dispatch
            },
{
    assert forall|ops: &mut EncodedOps, result: Result<BytePos, TranslationError>| #[trigger]
        call_ensures(EncodedOps::encode::<T>, (ops, &item), result) implies {
        let start = ops@.buffer.len() + ir::encoding(
            item.pieces().take(index),
            ops@.dispatch,
        ).len();
        &&& result is Ok ==> final(ops)@.temp == (if item.pieces()[index].is_branch_offset() {
            Some(ReportState::BranchOffset(start))
        } else if item.pieces()[index].is_block_fuel() {
            Some(ReportState::BlockFuel(start))
        } else {
            ops@.temp
        })
        &&& result is Err ==> exists|count: int|
            {
                &&& 0 <= count < item.pieces().len()
                &&& final(ops)@.buffer == ops@.buffer + #[trigger] ir::encoding(
                    item.pieces().take(count),
                    ops@.dispatch,
                )
                &&& final(ops)@ == ops@.emitted(item.pieces().take(count))
                &&& some_write_fails(final(ops)@, item.pieces()[count].bytes(ops@.dispatch))
            }
    } by {
        law_emitted(ops@, item.pieces(), index);
        if result is Err {
            let count = choose|count: int|
                {
                    &&& 0 <= count < item.pieces().len()
                    &&& final(ops)@ == #[trigger] ops@.emitted(item.pieces().take(count))
                    &&& ops::write_may_fail(
                        final(ops)@,
                        item.pieces()[count].bytes(ops@.dispatch),
                    )
                };
            law_write_may_fail(final(ops)@, item.pieces()[count].bytes(ops@.dispatch));
            assert(final(ops)@.buffer == ops@.buffer + ir::encoding(
                item.pieces().take(count),
                ops@.dispatch,
            ));
        }
    }
}

/// Encoding an item without pieces succeeds and changes nothing.
pub proof fn law_encode_nothing<T: Encode>(item: T)
    requires
        item.pieces().len() == 0,
    ensures
        forall|ops: &mut EncodedOps, result: Result<BytePos, TranslationError>| #[trigger]
            call_ensures(EncodedOps::encode::<T>, (ops, &item), result) ==> {
                &&& result matches Ok(pos) && pos@ == ops@.buffer.len()
                &&& final(ops)@ == ops@
            },
{
    assert forall|ops: &mut EncodedOps, result: Result<BytePos, TranslationError>| #[trigger]
        call_ensures(EncodedOps::encode::<T>, (ops, &item), result) implies final(ops)@ == ops@ by {
        assert(ops@.emitted(item.pieces()).buffer =~= ops@.buffer);
    }
}

/// Updating an encoded value replaces it by what `f` yields for it, and changes nothing else. Each
/// error comes exactly for its reason, in this order, and a value that is not updated stays.
pub proof fn law_update_encoded_or_err<T: Decode + Encode, F: FnOnce(T) -> Option<T>>(
    pos: Pos<T>,
    f: F,
)
    ensures
        forall|ops: &mut EncodedOps, result: Result<(), UpdateEncodedErrorKind>| #[trigger]
            call_ensures(EncodedOps::update_encoded_or_err, (ops, pos, f), result) ==> {
                let len = ops@.buffer.len();
                let tail = ops@.buffer.skip(pos@ as int);
                &&& result == Err::<(), _>(UpdateEncodedErrorKind::BufferOutOfBounds) <==> len
                    < pos@
                &&& result == Err::<(), _>(UpdateEncodedErrorKind::FailedToDecode) <==> pos@
                    <= len && T::decoded(tail) is None
                &&& result == Err::<(), _>(UpdateEncodedErrorKind::FailedToUpdateEncoded) ==> pos@
                    <= len && f.ensures((T::decoded(tail)->0,), None)
                &&& result == Err::<(), _>(UpdateEncodedErrorKind::FailedToEncode) ==> pos@ <= len
                    && exists|value: T| #[trigger]
                    f.ensures((T::decoded(tail)->0,), Some(value)) && (exists|i: int|
                        0 <= i < value.pieces().len() && (#[trigger] value.pieces()[i]).bytes(
                            ops@.dispatch,
                        ).len() > len - pos@) && final(ops)@.buffer.skip(pos@ as int)
                        == crate::emit::overwritten_by_all(
                        tail,
                        value.pieces(),
                        ops@.dispatch,
                    ).0
                &&& result is Ok ==> pos@ <= len && exists|value: T| #[trigger]
                    f.ensures((T::decoded(tail)->0,), Some(value)) && final(ops)@.buffer.skip(
                        pos@ as int,
                    ) == crate::emit::overwritten_by_all(tail, value.pieces(), ops@.dispatch).0 && (
                    value.pieces().len() == 1 ==> {
                        let bytes = value.pieces()[0].bytes(ops@.dispatch);
                        &&& pos@ + bytes.len() <= len
                        &&& forall|k: int|
                            0 <= k < len ==> (#[trigger] final(ops)@.buffer[k]) == (if pos@ <= k
                                < pos@ + bytes.len() {
                                bytes[k - pos@]
                            } else {
                                ops@.buffer[k]
                            })
                    })
                &&& result is Err && result->Err_0 !is FailedToEncode ==> final(ops)@.buffer
                    == ops@.buffer
                &&& final(ops)@.buffer.len() == len
                &&& forall|k: int|
                    0 <= k < len && k < pos@ ==> (#[trigger] final(ops)@.buffer[k])
                        == ops@.buffer[k]
                &&& final(ops)@.temp == ops@.temp
                &&& final(ops)@.branch_offsets == ops@.branch_offsets
                &&& final(ops)@.dispatch == ops@.dispatch
            },
{
    assert forall|ops: &mut EncodedOps, result: Result<(), UpdateEncodedErrorKind>| #[trigger]
        call_ensures(EncodedOps::update_encoded_or_err, (ops, pos, f), result) implies {
        let len = ops@.buffer.len();
        let tail = ops@.buffer.skip(pos@ as int);
        &&& result == Err::<(), _>(UpdateEncodedErrorKind::BufferOutOfBounds) <==> len < pos@
        &&& result == Err::<(), _>(UpdateEncodedErrorKind::FailedToDecode) <==> pos@ <= len
            && T::decoded(tail) is None
        &&& result == Err::<(), _>(UpdateEncodedErrorKind::FailedToUpdateEncoded) ==> pos@ <= len
            && f.ensures((T::decoded(tail)->0,), None)
        &&& result == Err::<(), _>(UpdateEncodedErrorKind::FailedToEncode) ==> pos@ <= len
            && exists|value: T| #[trigger]
            f.ensures((T::decoded(tail)->0,), Some(value)) && (exists|i: int|
                0 <= i < value.pieces().len() && (#[trigger] value.pieces()[i]).bytes(
                    ops@.dispatch,
                ).len() > len - pos@) && final(ops)@.buffer.skip(pos@ as int)
                == crate::emit::overwritten_by_all(tail, value.pieces(), ops@.dispatch).0
        &&& result is Ok ==> pos@ <= len && exists|value: T| #[trigger]
            f.ensures((T::decoded(tail)->0,), Some(value)) && final(ops)@.buffer.skip(pos@ as int)
                == crate::emit::overwritten_by_all(tail, value.pieces(), ops@.dispatch).0 && (
            value.pieces().len() == 1 ==> {
                let bytes = value.pieces()[0].bytes(ops@.dispatch);
                &&& pos@ + bytes.len() <= len
                &&& forall|k: int|
                    0 <= k < len ==> (#[trigger] final(ops)@.buffer[k]) == (if pos@ <= k < pos@
                        + bytes.len() {
                        bytes[k - pos@]
                    } else {
                        ops@.buffer[k]
                    })
            })
        &&& result is Err && result->Err_0 !is FailedToEncode ==> final(ops)@.buffer
            == ops@.buffer
        &&& final(ops)@.buffer.len() == len
        &&& forall|k: int|
            0 <= k < len && k < pos@ ==> (#[trigger] final(ops)@.buffer[k]) == ops@.buffer[k]
        &&& final(ops)@.temp == ops@.temp
        &&& final(ops)@.branch_offsets == ops@.branch_offsets
        &&& final(ops)@.dispatch == ops@.dispatch
    } by {
        let len = ops@.buffer.len();
        let tail = ops@.buffer.skip(pos@ as int);
        if pos@ <= len && T::decoded(tail) is Some {
            let updated = choose|updated: Option<T>| #[trigger]
                f.ensures((T::decoded(tail)->0,), updated) && match updated {
                    None => {
                        &&& result == Err::<(), _>(UpdateEncodedErrorKind::FailedToUpdateEncoded)
                        &&& final(ops)@ == ops@
                    },
                    Some(value) => {
                        let (bytes, fits) = crate::emit::overwritten_by_all(
                            tail,
                            value.pieces(),
                            ops@.dispatch,
                        );
                        &&& result == (if fits {
                            Ok::<(), _>(())
                        } else {
                            Err(UpdateEncodedErrorKind::FailedToEncode)
                        })
                        &&& final(ops)@ == (OpsState {
                            buffer: ops@.buffer.take(pos@ as int) + bytes,
                            ..ops@
                        })
                    },
                };
            if updated is Some {
                let value = updated->0;
                let stop = emit::first_misfit(value.pieces(), tail.len(), ops@.dispatch);
                emit::lemma_first_misfit(value.pieces(), tail.len(), ops@.dispatch);
                emit::law_overwritten_by_all(tail, value.pieces(), stop, ops@.dispatch);
                if result is Err {
                    assert(value.pieces()[stop].bytes(ops@.dispatch).len() > len - pos@);
                }
                assert(f.ensures((T::decoded(tail)->0,), Some(value)));
                assert(final(ops)@.buffer.skip(pos@ as int) =~= crate::emit::overwritten_by_all(
                    tail,
                    value.pieces(),
                    ops@.dispatch,
                ).0);
                if value.pieces().len() == 1 {
                    let piece = value.pieces()[0];
                    assert(value.pieces() =~= seq![piece]);
                    if result is Ok {
                        ops::lemma_patch_single(ops@.buffer, pos@, piece, ops@.dispatch);
                    }
                }
            }
        }
    }
}

/// Updating an encoded branch offset stores the offset at its position and changes nothing else.
pub proof fn law_update_branch_offset(pos: Pos<BranchOffset>, offset: BranchOffset)
    ensures
        forall|ops: &mut EncodedOps|
            #[trigger] call_ensures(EncodedOps::update_branch_offset, (ops, pos, offset), ())
                && pos@ + word::word_len() <= ops@.buffer.len() ==> {
                &&& word::signed_word_at(final(ops)@.buffer, pos@) == offset@
                &&& final(ops)@.buffer.len() == ops@.buffer.len()
                &&& forall|k: int|
                    0 <= k < ops@.buffer.len() && !(pos@ <= k < pos@ + word::word_len()) ==> (
                    #[trigger] final(ops)@.buffer[k]) == ops@.buffer[k]
                &&& final(ops)@.temp == ops@.temp
                &&& final(ops)@.branch_offsets == ops@.branch_offsets
                &&& final(ops)@.dispatch == ops@.dispatch
            },
{
    assert forall|ops: &mut EncodedOps|
        #[trigger] call_ensures(EncodedOps::update_branch_offset, (ops, pos, offset), ()) && pos@
            + word::word_len() <= ops@.buffer.len() implies {
        &&& word::signed_word_at(final(ops)@.buffer, pos@) == offset@
        &&& final(ops)@.buffer.len() == ops@.buffer.len()
        &&& forall|k: int|
            0 <= k < ops@.buffer.len() && !(pos@ <= k < pos@ + word::word_len()) ==> (
            #[trigger] final(ops)@.buffer[k]) == ops@.buffer[k]
    } by {
        let new = ops::signed_word_bytes(offset@);
        laws::lemma_signed_word_bytes_len(offset@);
        word::lemma_splice(ops@.buffer, pos@, new);
        word::lemma_signed_word_round_trip(final(ops)@.buffer, pos@, offset@);
        BranchOffset::law_view_is_injective(offset, offset);
        word::lemma_wrap_isize_in_range(offset@);
    }
}

/// Whether `after` are the encoded operators `before` residing at the address `base`, after the
/// offset of each of `branches` has been replaced by the address of the target of the branch.
pub open spec fn is_relocated(
    before: Seq<u8>,
    after: Seq<u8>,
    base: int,
    branches: Seq<BranchState>,
) -> bool {
    &&& after.len() == before.len()
    &&& forall|i: int|
        0 <= i < branches.len() ==> {
            let branch = #[trigger] branches[i];
            let target = base + branch.src + word::signed_word_at(before, branch.pos);
            let stored = word::le_value(word::word_bytes_at(after, branch.pos));
            &&& 0 <= target <= usize::MAX ==> stored == target
            &&& stored == word::wrap_usize(target)
        }
    &&& forall|k: int|
        0 <= k < before.len() && (forall|i: int|
            0 <= i < branches.len() ==> !((#[trigger] branches[i]).pos <= k < branches[i].pos
                + word::word_len())) ==> (#[trigger] after[k]) == before[k]
}

/// Relocating replaces the offset of every branch by the address of its target, which is the address
/// of the operators plus the position of the branch plus its offset, and keeps all other bytes.
pub proof fn law_relocated(before: Seq<u8>, base: int, branches: Seq<BranchState>)
    requires
        ops::branches_wf(branches, before.len()),
    ensures
        is_relocated(before, ops::relocated(before, base, branches), base, branches),
{
    let after = ops::relocated(before, base, branches);
    laws::law_relocation(before, base, branches);
    assert forall|i: int| 0 <= i < branches.len() implies {
        let branch = #[trigger] branches[i];
        let target = base + branch.src + word::signed_word_at(before, branch.pos);
        0 <= target <= usize::MAX ==> word::wrap_usize(target) == target
    } by {
        let branch = branches[i];
        let target = base + branch.src + word::signed_word_at(before, branch.pos);
        if 0 <= target <= usize::MAX {
            word::lemma_wrap_usize_in_range(target);
        }
    }
    assert forall|k: int|
        0 <= k < before.len() && (forall|i: int|
            0 <= i < branches.len() ==> !((#[trigger] branches[i]).pos <= k < branches[i].pos
                + word::word_len())) implies (#[trigger] after[k]) == before[k] by {
        assert(!ops::in_branch_offset(branches, k));
    }
}

/// Relocating one more branch stores the address of its target, which is relative to what the branch
/// holds after the others have been relocated, and keeps all other bytes. Relocating no branch
/// changes nothing. Branches need not be ordered, and they may overlap.
pub proof fn law_relocated_one_by_one(
    before: Seq<u8>,
    base: int,
    branches: Seq<BranchState>,
    branch: BranchState,
)
    requires
        forall|i: int|
            0 <= i < branches.len() ==> (#[trigger] branches[i]).pos + word::word_len()
                <= before.len(),
        branch.pos + word::word_len() <= before.len(),
    ensures
        branches.len() == 0 ==> ops::relocated(before, base, branches) == before,
        ({
            let once = ops::relocated(before, base, branches);
            let again = ops::relocated(before, base, branches.push(branch));
            let target = base + branch.src + word::signed_word_at(once, branch.pos);
            let stored = word::le_value(word::word_bytes_at(again, branch.pos));
            &&& once.len() == before.len()
            &&& again.len() == before.len()
            &&& stored == word::wrap_usize(target)
            &&& forall|k: int|
                0 <= k < before.len() && !(branch.pos <= k < branch.pos + word::word_len()) ==> (
                #[trigger] again[k]) == once[k]
        }),
    decreases branches.len(),
{
    let once = ops::relocated(before, base, branches);
    let again = ops::relocated(before, base, branches.push(branch));
    if branches.len() > 0 {
        let front = branches.drop_last();
        let last = branches.last();
        assert(branches[branches.len() - 1] == last);
        assert forall|i: int| 0 <= i < front.len() implies (#[trigger] front[i]).pos
            + word::word_len() <= before.len() by {
            assert(front[i] == branches[i]);
        }
        law_relocated_one_by_one(before, base, front, last);
        assert(front.push(last) =~= branches);
    }
    assert(branches.push(branch).drop_last() =~= branches);
    let target = base + branch.src + word::signed_word_at(once, branch.pos);
    let new = ops::signed_word_bytes(target);
    laws::lemma_signed_word_bytes_len(target);
    word::lemma_splice(once, branch.pos, new);
    word::lemma_signed_word_round_trip(again, branch.pos, target);
}

/// Relocating for operators at the address `base` relocates all registered branches one by one, in
/// order, and nothing else.
pub proof fn law_relocate_at_any(ops: EncodedOps, base: usize)
    ensures
        forall|bytes: &mut [u8]| #[trigger]
            call_ensures(EncodedOps::relocate_branch_offsets_at, (&ops, bytes, base), ())
                ==> final(bytes)@ == ops::relocated(
                bytes@,
                base as int,
                ops@.branch_offsets,
            ),
        forall|bytes: &mut [u8]| #[trigger]
            call_ensures(EncodedOps::relocate_branch_offsets, (&ops, bytes), ()) ==> exists|
                address: usize,
            |
                {
                    &&& #[trigger] ops::resides_at(bytes, address)
                    &&& final(bytes)@ == ops::relocated(
                        bytes@,
                        address as int,
                        ops@.branch_offsets,
                    )
                },
{
    assert forall|bytes: &mut [u8]| #[trigger]
        call_ensures(EncodedOps::relocate_branch_offsets, (&ops, bytes), ()) implies exists|
        address: usize,
    |
        {
            &&& #[trigger] ops::resides_at(bytes, address)
            &&& final(bytes)@ == ops::relocated(bytes@, address as int, ops@.branch_offsets)
        } by {
        let base = choose|base: usize|
            {
                &&& ops::resides_at(bytes, base)
                &&& final(bytes)@ == #[trigger] ops::relocated(
                    bytes@,
                    base as int,
                    ops@.branch_offsets,
                )
            };
        assert(ops::resides_at(bytes, base));
    }
}

/// Relocating for operators at the address `base` makes every branch hold the address of its target.
pub proof fn law_relocate_at(ops: EncodedOps, base: usize)
    requires
        ops@.wf(),
    ensures
        forall|bytes: &mut [u8]|
            #[trigger] call_ensures(
                EncodedOps::relocate_branch_offsets_at,
                (&ops, bytes, base),
                (),
            ) && bytes@.len() == ops@.buffer.len() ==> is_relocated(
                bytes@,
                final(bytes)@,
                base as int,
                ops@.branch_offsets,
            ),
{
    assert forall|bytes: &mut [u8]|
        #[trigger] call_ensures(EncodedOps::relocate_branch_offsets_at, (&ops, bytes, base), ())
            && bytes@.len() == ops@.buffer.len() implies is_relocated(
        bytes@,
        final(bytes)@,
        base as int,
        ops@.branch_offsets,
    ) by {
        law_relocated(bytes@, base as int, ops@.branch_offsets);
    }
}

/// Relocating makes every branch hold the address of its target, for the address of the very slice
/// that is relocated.
pub proof fn law_relocate(ops: EncodedOps)
    requires
        ops@.wf(),
    ensures
        forall|bytes: &mut [u8]|
            #[trigger] call_ensures(EncodedOps::relocate_branch_offsets, (&ops, bytes), ())
                && bytes@.len() == ops@.buffer.len() ==> exists|base: usize|
                {
                    &&& #[trigger] ops::resides_at(bytes, base)
                    &&& 0 < base
                    &&& base + bytes@.len() <= usize::MAX
                    &&& is_relocated(bytes@, final(bytes)@, base as int, ops@.branch_offsets)
                },
{
    assert forall|bytes: &mut [u8]|
        #[trigger] call_ensures(EncodedOps::relocate_branch_offsets, (&ops, bytes), ())
            && bytes@.len() == ops@.buffer.len() implies exists|base: usize|
        {
            &&& #[trigger] ops::resides_at(bytes, base)
            &&& 0 < base
            &&& base + bytes@.len() <= usize::MAX
            &&& is_relocated(bytes@, final(bytes)@, base as int, ops@.branch_offsets)
        } by {
        let base = choose|base: usize|
            {
                &&& ops::resides_at(bytes, base)
                &&& 0 < base
                &&& base + bytes@.len() <= usize::MAX
                &&& final(bytes)@ == #[trigger] ops::relocated(
                    bytes@,
                    base as int,
                    ops@.branch_offsets,
                )
            };
        law_relocated(bytes@, base as int, ops@.branch_offsets);
        assert(ops::resides_at(bytes, base));
    }
}

/// The message of an error names its reason and the type, and an error is cloned as it is.
pub proof fn law_error_message<T>(kind: UpdateEncodedErrorKind, name: &str)
    ensures
        forall|error: UpdateEncodedError<T>, cloned: UpdateEncodedError<T>| #[trigger]
            call_ensures(<UpdateEncodedError<T> as Clone>::clone, (&error,), cloned) ==> cloned
                == error,
        forall|error: UpdateEncodedError<T>, message: String|
            {
                &&& #[trigger] call_ensures(
                    <UpdateEncodedError<T> as From<UpdateEncodedErrorKind>>::from,
                    (kind,),
                    error,
                )
                &&& #[trigger] call_ensures(
                    UpdateEncodedError::<T>::to_string,
                    (&error, name),
                    message,
                )
            } ==> message@ == (match kind {
                UpdateEncodedErrorKind::BufferOutOfBounds => "buffer out of bounds"@,
                UpdateEncodedErrorKind::FailedToDecode => "failed to decode"@,
                UpdateEncodedErrorKind::FailedToEncode => "failed to encode"@,
                UpdateEncodedErrorKind::FailedToUpdateEncoded => "failed to update encoded"@,
            }) + ": "@ + name@,
{
}

/// Updating an encoded value that can be updated stores what `f` yields for it at its position.
pub proof fn law_update_encoded<T: Decode + Encode, F: FnOnce(T) -> Option<T>>(pos: Pos<T>, f: F)
    ensures
        forall|ops: &mut EncodedOps|
            {
                &&& #[trigger] call_ensures(EncodedOps::update_encoded, (ops, pos, f), ())
                &&& pos@ <= ops@.buffer.len()
                &&& forall|updated: Option<T>| #[trigger]
                    f.ensures((T::decoded(ops@.buffer.skip(pos@ as int))->0,), updated)
                        ==> updated is Some && updated->0.pieces().len() == 1 && pos@
                        + updated->0.pieces()[0].bytes(ops@.dispatch).len() <= ops@.buffer.len()
            } ==> {
                let tail = ops@.buffer.skip(pos@ as int);
                &&& exists|value: T| #[trigger]
                    f.ensures((T::decoded(tail)->0,), Some(value)) && {
                        let bytes = value.pieces()[0].bytes(ops@.dispatch);
                        forall|k: int|
                            0 <= k < ops@.buffer.len() ==> (#[trigger] final(ops)@.buffer[k]) == (
                            if pos@ <= k < pos@ + bytes.len() {
                                bytes[k - pos@]
                            } else {
                                ops@.buffer[k]
                            })
                    }
                &&& final(ops)@.buffer.len() == ops@.buffer.len()
                &&& final(ops)@.temp == ops@.temp
                &&& final(ops)@.branch_offsets == ops@.branch_offsets
                &&& final(ops)@.dispatch == ops@.dispatch
            },
{
    assert forall|ops: &mut EncodedOps|
        {
            &&& #[trigger] call_ensures(EncodedOps::update_encoded, (ops, pos, f), ())
            &&& pos@ <= ops@.buffer.len()
            &&& forall|updated: Option<T>| #[trigger]
                f.ensures((T::decoded(ops@.buffer.skip(pos@ as int))->0,), updated)
                    ==> updated is Some && updated->0.pieces().len() == 1 && pos@
                    + updated->0.pieces()[0].bytes(ops@.dispatch).len() <= ops@.buffer.len()
        } implies {
        let tail = ops@.buffer.skip(pos@ as int);
        &&& exists|value: T| #[trigger]
            f.ensures((T::decoded(tail)->0,), Some(value)) && {
                let bytes = value.pieces()[0].bytes(ops@.dispatch);
                forall|k: int|
                    0 <= k < ops@.buffer.len() ==> (#[trigger] final(ops)@.buffer[k]) == (if pos@
                        <= k < pos@ + bytes.len() {
                        bytes[k - pos@]
                    } else {
                        ops@.buffer[k]
                    })
            }
        &&& final(ops)@.buffer.len() == ops@.buffer.len()
    } by {
        let tail = ops@.buffer.skip(pos@ as int);
        let value = choose|value: T| #[trigger]
            f.ensures((T::decoded(tail)->0,), Some(value)) && final(ops)@ == (OpsState {
                buffer: ops@.buffer.take(pos@ as int) + crate::emit::overwritten_by_all(
                    tail,
                    value.pieces(),
                    ops@.dispatch,
                ).0,
                ..ops@
            });
        assert(f.ensures((T::decoded(tail)->0,), Some(value)));
        let piece = value.pieces()[0];
        assert(value.pieces() =~= seq![piece]);
        ops::lemma_patch_single(ops@.buffer, pos@, piece, ops@.dispatch);
    }
}

/// Calls are admitted whenever they make sense: bytes can always be written, a buffer can be
/// truncated to any shorter length, and what is not reported can always be encoded.
pub proof fn law_calls_are_admitted<T: Encode>(
    item: T,
    bytes: &[u8],
    pos: BytePos,
    at: Pos<BranchOffset>,
    offset: BranchOffset,
    reserved: bool,
)
    ensures
        forall|ops: &mut EncodedOps| #[trigger]
            call_requires(<EncodedOps as WriteBytes>::write_bytes, (ops, bytes)),
        forall|ops: &mut EncodedOps| #[trigger]
            call_requires(EncodedOps::write_reserved, (ops, bytes, reserved)),
        forall|ops: &mut EncodedOps| #[trigger]
            call_requires(EncodedOps::pad_to_op_alignment, (ops,)),
        forall|ops: &mut EncodedOps|
            pos@ <= ops@.buffer.len() ==> #[trigger] call_requires(
                EncodedOps::truncate,
                (ops, pos),
            ),
        forall|ops: &mut EncodedOps|
            at@ + word::word_len() <= ops@.buffer.len() ==> #[trigger] call_requires(
                EncodedOps::update_branch_offset,
                (ops, at, offset),
            ),
        (forall|i: int|
            0 <= i < item.pieces().len() ==> !(#[trigger] item.pieces()[i]).is_reported())
            ==> forall|ops: &mut EncodedOps| #[trigger]
            call_requires(EncodedOps::encode::<T>, (ops, &item)),
{
}

} // verus!
