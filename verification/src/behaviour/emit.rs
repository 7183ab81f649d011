//! What writing to a slice of bytes does.
use crate::emit::{self, Encoder, SliceEncoder, SliceEncoderError, WriteBytes};
use crate::ir::{BlockFuel, BranchOffset, Dispatch, Encode, OpCode, Piece};
use vstd::prelude::*;

verus! {

/// An encoder writes to the slice that it was made of.
pub proof fn law_new(technique: Dispatch)
    ensures
        forall|bytes: &mut [u8], encoder: SliceEncoder| #[trigger]
            call_ensures(SliceEncoder::new, (bytes, technique), encoder) ==> {
                &&& encoder.bytes@ == bytes@
                &&& final(encoder.bytes)@ == final(bytes)@
                &&& encoder.technique == technique
            },
{
}

/// Writing succeeds exactly if the slice is long enough. The bytes are stored at its front then, and
/// all others stay.
pub proof fn law_write_bytes(bytes: &[u8])
    ensures
        forall|encoder: &mut SliceEncoder, result: Result<(), SliceEncoderError>| #[trigger]
            call_ensures(<SliceEncoder as WriteBytes>::write_bytes, (encoder, bytes), result) ==> {
                &&& result is Ok <==> bytes@.len() <= encoder.bytes@.len()
                &&& final(encoder).bytes@.len() == encoder.bytes@.len()
                &&& forall|i: int|
                    0 <= i < encoder.bytes@.len() ==> (#[trigger] final(encoder).bytes@[i]) == (
                    if result is Ok && i < bytes@.len() {
                        bytes@[i]
                    } else {
                        encoder.bytes@[i]
                    })
                &&& final(encoder).technique == encoder.technique
                &&& final(final(encoder).bytes)@ == final(encoder.bytes)@
            },
{
}

/// Writing an op-code stores its bytes at the front of the slice, if it is long enough, and keeps
/// all others.
pub proof fn law_encode_op_code(code: OpCode)
    ensures
        forall|encoder: &mut SliceEncoder, result: Result<(), SliceEncoderError>| #[trigger]
            call_ensures(<SliceEncoder as Encoder>::encode_op_code, (encoder, code), result) ==> {
                let bytes = Piece::OpCode(code).bytes(encoder.technique);
                &&& result is Ok <==> bytes.len() <= encoder.bytes@.len()
                &&& final(encoder).bytes@.len() == encoder.bytes@.len()
                &&& forall|i: int|
                    0 <= i < encoder.bytes@.len() ==> (#[trigger] final(encoder).bytes@[i]) == (
                    if result is Ok && i < bytes.len() {
                        bytes[i]
                    } else {
                        encoder.bytes@[i]
                    })
                &&& final(encoder).technique == encoder.technique
                &&& final(final(encoder).bytes)@ == final(encoder.bytes)@
            },
{
}

/// Reporting a position to a slice changes nothing.
pub proof fn law_reports(offset: BranchOffset, fuel: BlockFuel)
    ensures
        forall|encoder: &mut SliceEncoder, result: Result<(), SliceEncoderError>| #[trigger]
            call_ensures(<SliceEncoder as Encoder>::branch_offset, (encoder, (), offset), result)
                ==> {
                &&& result is Ok
                &&& final(encoder).bytes@ == encoder.bytes@
                &&& final(encoder).technique == encoder.technique
            },
        forall|encoder: &mut SliceEncoder, result: Result<(), SliceEncoderError>| #[trigger]
            call_ensures(<SliceEncoder as Encoder>::block_fuel, (encoder, (), fuel), result) ==> {
                &&& result is Ok
                &&& final(encoder).bytes@ == encoder.bytes@
                &&& final(encoder).technique == encoder.technique
            },
{
}

/// Encoding ends before the first piece that does not fit into the slice, which is the piece at
/// `stop`, and succeeds exactly if there is none. Every byte of the slice is that of the last
/// encoded piece that is long enough to cover it, or it stays if there is none.
pub proof fn law_overwritten_by_all(
    bytes: Seq<u8>,
    pieces: Seq<Piece>,
    stop: int,
    dispatch: Dispatch,
)
    requires
        0 <= stop <= pieces.len(),
        forall|i: int|
            0 <= i < stop ==> (#[trigger] pieces[i]).bytes(dispatch).len() <= bytes.len(),
        stop < pieces.len() ==> pieces[stop].bytes(dispatch).len() > bytes.len(),
    ensures
        ({
            let (after, fits) = emit::overwritten_by_all(bytes, pieces, dispatch);
            &&& after.len() == bytes.len()
            &&& fits <==> stop == pieces.len()
            &&& forall|k: int, i: int|
                {
                    &&& 0 <= i < stop
                    &&& 0 <= k < (#[trigger] pieces[i]).bytes(dispatch).len()
                    &&& forall|j: int|
                        i < j < stop ==> (#[trigger] pieces[j]).bytes(dispatch).len() <= k
                } ==> (#[trigger] after[k]) == pieces[i].bytes(dispatch)[k]
            &&& forall|k: int|
                {
                    &&& 0 <= k < bytes.len()
                    &&& forall|j: int|
                        0 <= j < stop ==> (#[trigger] pieces[j]).bytes(dispatch).len() <= k
                } ==> (#[trigger] after[k]) == bytes[k]
        }),
    decreases pieces.len(),
{
    let (after, fits) = emit::overwritten_by_all(bytes, pieces, dispatch);
    if stop > 0 {
        let new = pieces[0].bytes(dispatch);
        let next = emit::overwritten(bytes, new);
        let rest = pieces.skip(1);
        assert forall|i: int| 0 <= i < stop - 1 implies (#[trigger] rest[i]).bytes(dispatch).len()
            <= next.len() by {
            assert(rest[i] == pieces[i + 1]);
        }
        law_overwritten_by_all(next, rest, stop - 1, dispatch);
        assert forall|k: int, i: int|
            {
                &&& 0 <= i < stop
                &&& 0 <= k < (#[trigger] pieces[i]).bytes(dispatch).len()
                &&& forall|j: int|
                    i < j < stop ==> (#[trigger] pieces[j]).bytes(dispatch).len() <= k
            } implies (#[trigger] after[k]) == pieces[i].bytes(dispatch)[k] by {
            if i == 0 {
                assert forall|j: int| 0 <= j < stop - 1 implies (#[trigger] rest[j]).bytes(
                    dispatch,
                ).len() <= k by {
                    assert(rest[j] == pieces[j + 1]);
                }
                assert(after[k] == next[k]);
            } else {
                assert(rest[i - 1] == pieces[i]);
                assert forall|j: int| i - 1 < j < stop - 1 implies (#[trigger] rest[j]).bytes(
                    dispatch,
                ).len() <= k by {
                    assert(rest[j] == pieces[j + 1]);
                }
            }
        }
        assert forall|k: int|
            {
                &&& 0 <= k < bytes.len()
                &&& forall|j: int|
                    0 <= j < stop ==> (#[trigger] pieces[j]).bytes(dispatch).len() <= k
            } implies (#[trigger] after[k]) == bytes[k] by {
            assert(pieces[0].bytes(dispatch).len() <= k);
            assert forall|j: int| 0 <= j < stop - 1 implies (#[trigger] rest[j]).bytes(
                dispatch,
            ).len() <= k by {
                assert(rest[j] == pieces[j + 1]);
            }
            assert(after[k] == next[k]);
        }
    }
}

/// The first piece that does not fit into `len` bytes, or the number of pieces if there is none.
pub open spec fn first_misfit(pieces: Seq<Piece>, len: nat, dispatch: Dispatch) -> int
    decreases pieces.len(),
{
    if pieces.len() == 0 || pieces[0].bytes(dispatch).len() > len {
        0
    } else {
        1 + first_misfit(pieces.skip(1), len, dispatch)
    }
}

/// All pieces before the first one that does not fit do fit.
pub proof fn lemma_first_misfit(pieces: Seq<Piece>, len: nat, dispatch: Dispatch)
    ensures
        ({
            let stop = first_misfit(pieces, len, dispatch);
            &&& 0 <= stop <= pieces.len()
            &&& forall|i: int|
                0 <= i < stop ==> (#[trigger] pieces[i]).bytes(dispatch).len() <= len
            &&& stop < pieces.len() ==> pieces[stop].bytes(dispatch).len() > len
        }),
    decreases pieces.len(),
{
    if pieces.len() > 0 && pieces[0].bytes(dispatch).len() <= len {
        let rest = pieces.skip(1);
        let stop = first_misfit(pieces, len, dispatch);
        lemma_first_misfit(rest, len, dispatch);
        assert forall|i: int| 0 <= i < stop implies (#[trigger] pieces[i]).bytes(dispatch).len()
            <= len by {
            if i > 0 {
                assert(pieces[i] == rest[i - 1]);
            }
        }
        if stop < pieces.len() {
            assert(pieces[stop] == rest[stop - 1]);
        }
    }
}

/// Encoding an item does to the slice what writing its pieces to the front one after another does.
/// An item of a single piece is stored at the front of the slice if it fits, and all other bytes
/// stay.
pub proof fn law_encode<T: Encode>(item: T)
    ensures
        forall|encoder: &mut SliceEncoder, result: Result<(), SliceEncoderError>| #[trigger]
            call_ensures(SliceEncoder::encode::<T>, (encoder, &item), result) ==> {
                &&& result is Ok <==> forall|i: int|
                    0 <= i < item.pieces().len() ==> (#[trigger] item.pieces()[i]).bytes(
                        encoder.technique,
                    ).len() <= encoder.bytes@.len()
                &&& final(encoder).bytes@.len() == encoder.bytes@.len()
                &&& final(encoder).bytes@ == emit::overwritten_by_all(
                    encoder.bytes@,
                    item.pieces(),
                    encoder.technique,
                ).0
                &&& item.pieces().len() == 1 ==> forall|k: int|
                    0 <= k < encoder.bytes@.len() ==> {
                        let bytes = item.pieces()[0].bytes(encoder.technique);
                        (#[trigger] final(encoder).bytes@[k]) == (if result is Ok && k
                            < bytes.len() {
                            bytes[k]
                        } else {
                            encoder.bytes@[k]
                        })
                    }
                &&& final(encoder).technique == encoder.technique
                &&& final(final(encoder).bytes)@ == final(encoder.bytes)@
            },
{
    assert forall|encoder: &mut SliceEncoder, result: Result<(), SliceEncoderError>| #[trigger]
        call_ensures(SliceEncoder::encode::<T>, (encoder, &item), result) implies {
        &&& result is Ok <==> forall|i: int|
            0 <= i < item.pieces().len() ==> (#[trigger] item.pieces()[i]).bytes(
                encoder.technique,
            ).len() <= encoder.bytes@.len()
        &&& final(encoder).bytes@.len() == encoder.bytes@.len()
        &&& item.pieces().len() == 1 ==> forall|k: int|
            0 <= k < encoder.bytes@.len() ==> {
                let bytes = item.pieces()[0].bytes(encoder.technique);
                (#[trigger] final(encoder).bytes@[k]) == (if result is Ok && k < bytes.len() {
                    bytes[k]
                } else {
                    encoder.bytes@[k]
                })
            }
    } by {
        let stop = first_misfit(item.pieces(), encoder.bytes@.len(), encoder.technique);
        lemma_first_misfit(item.pieces(), encoder.bytes@.len(), encoder.technique);
        law_overwritten_by_all(encoder.bytes@, item.pieces(), stop, encoder.technique);
        if result is Err {
            assert(item.pieces()[stop].bytes(encoder.technique).len() > encoder.bytes@.len());
        }
    }
}

/// The dispatch technique is read as it is.
pub proof fn law_dispatch(encoder: SliceEncoder)
    ensures
        forall|dispatch: Dispatch| #[trigger]
            call_ensures(<SliceEncoder as WriteBytes>::dispatch, (&encoder,), dispatch) ==> dispatch
                == encoder.technique,
{
}

/// An op-code is written to any sink by one call of writing its bytes, whose result is returned.
pub proof fn law_encode_op_code_to_any<E: WriteBytes>(code: OpCode)
    ensures
        forall|encoder: &mut E, result: Result<E::Pos, E::Error>| #[trigger]
            call_ensures(emit::encode_op_code::<E>, (encoder, code), result) ==> exists|
                sink: &mut E,
                bytes: &[u8],
            |
                {
                    &&& bytes@ == Piece::OpCode(code).bytes(encoder.technique())
                    &&& *sink == *encoder
                    &&& *final(sink) == *final(encoder)
                    &&& #[trigger] call_ensures(E::write_bytes, (sink, bytes), result)
                },
{
}

} // verus!
