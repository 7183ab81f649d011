//! Sinks for encoded bytes.
use crate::ir::{BlockFuel, BranchOffset, Dispatch, Encode, OpCode, Operand, Piece};
use vstd::prelude::*;

verus! {

/// Types that bytes can be written to.
pub trait WriteBytes: Sized {
    /// The position of written bytes.
    type Pos;

    /// An error that may occur upon writing.
    type Error;

    /// The operator dispatch technique that op-codes are encoded for.
    spec fn technique(&self) -> Dispatch;

    /// Whether writing `bytes` to `self` may yield `after` and `result`.
    spec fn writes(
        &self,
        bytes: Seq<u8>,
        after: &Self,
        result: Result<Self::Pos, Self::Error>,
    ) -> bool;

    /// Returns the operator dispatch technique that op-codes are encoded for.
    fn dispatch(&self) -> (dispatch: Dispatch)
        ensures
            dispatch == self.technique(),
    ;

    /// Writes `bytes` and returns their position.
    fn write_bytes(&mut self, bytes: &[u8]) -> (result: Result<Self::Pos, Self::Error>)
        ensures
            old(self).writes(bytes@, final(self), result),
    ;
}

/// Types that items can be encoded to.
pub trait Encoder: WriteBytes {
    /// Whether the position of a branch offset or of the fuel of a block may be reported.
    spec fn can_report(&self) -> bool;

    /// Whether reporting the branch offset at `pos` to `self` yields `after`.
    spec fn reports_branch_offset(&self, pos: Self::Pos, after: &Self) -> bool;

    /// Whether reporting the fuel of a block at `pos` to `self` yields `after`.
    spec fn reports_block_fuel(&self, pos: Self::Pos, after: &Self) -> bool;

    /// Encodes the op-code `code` and returns its position.
    fn encode_op_code(&mut self, code: OpCode) -> (result: Result<Self::Pos, Self::Error>)
        ensures
            old(self).writes(
                Piece::OpCode(code).bytes(old(self).technique()),
                final(self),
                result,
            ),
    ;

    /// Reports the position of the encoded `branch_offset`.
    fn branch_offset(&mut self, pos: Self::Pos, branch_offset: BranchOffset) -> (result: Result<
        (),
        Self::Error,
    >)
        requires
            old(self).can_report(),
        ensures
            result == Ok::<(), Self::Error>(()),
            old(self).reports_branch_offset(pos, final(self)),
    ;

    /// Reports the position of the encoded `block_fuel`.
    fn block_fuel(&mut self, pos: Self::Pos, block_fuel: BlockFuel) -> (result: Result<
        (),
        Self::Error,
    >)
        requires
            old(self).can_report(),
        ensures
            result == Ok::<(), Self::Error>(()),
            old(self).reports_block_fuel(pos, final(self)),
    ;
}

/// Whether writing `bytes` to `before` may fail.
pub open spec fn write_may_fail<E: WriteBytes>(before: E, bytes: Seq<u8>) -> bool {
    exists|sink: &mut E, slice: &[u8], result: Result<E::Pos, E::Error>|
        {
            &&& *sink == before
            &&& slice@ == bytes
            &&& result is Err
            &&& #[trigger] call_ensures(E::write_bytes, (sink, slice), result)
        }
}

/// Writes the encoding of `piece` to `encoder` and returns its position.
///
/// The bytes are written by a single call of [`WriteBytes::write_bytes`], which decides about the
/// result.
pub(crate) fn write_piece<E: WriteBytes>(encoder: &mut E, piece: Piece) -> (result: Result<
    E::Pos,
    E::Error,
>)
    ensures
        exists|sink: &mut E, bytes: &[u8]|
            {
                &&& bytes@ == piece.bytes(old(encoder).technique())
                &&& *sink == *old(encoder)
                &&& *final(sink) == *final(encoder)
                &&& #[trigger] call_ensures(E::write_bytes, (sink, bytes), result)
            },
        result is Err ==> write_may_fail(*old(encoder), piece.bytes(old(encoder).technique())),
{
    let bytes = piece.to_bytes(encoder.dispatch());
    encoder.write_bytes(bytes.as_slice())
}

/// Encodes the op-code `code` to `encoder`.
///
/// Indirect dispatch resolves op-codes upon execution, so that the op-code itself is encoded.
/// Direct dispatch resolves them now, so that the address of the handler is encoded.
pub fn encode_op_code<E: WriteBytes>(encoder: &mut E, code: OpCode) -> (result: Result<
    E::Pos,
    E::Error,
>)
    ensures
        exists|sink: &mut E, bytes: &[u8]|
            {
                &&& bytes@ == Piece::OpCode(code).bytes(old(encoder).technique())
                &&& *sink == *old(encoder)
                &&& *final(sink) == *final(encoder)
                &&& #[trigger] call_ensures(E::write_bytes, (sink, bytes), result)
            },
        result is Err ==> write_may_fail(
            *old(encoder),
            Piece::OpCode(code).bytes(old(encoder).technique()),
        ),
{
    write_piece(encoder, Piece::OpCode(code))
}

/// Utility type to encode items to a slice of bytes.
pub struct SliceEncoder<'a> {
    /// The underlying bytes that will store the encoded items.
    pub bytes: &'a mut [u8],
    /// The operator dispatch technique that op-codes are encoded for.
    pub technique: Dispatch,
}

/// An error that may occur upon encoding items to a byte slice.
#[derive(Debug, Copy, Clone, PartialEq, Eq, Structural)]
pub struct SliceEncoderError;

/// The bytes of a slice after writing `new` to its front.
pub open spec fn overwritten(bytes: Seq<u8>, new: Seq<u8>) -> Seq<u8> {
    new + bytes.skip(new.len() as int)
}

impl<'a> SliceEncoder<'a> {
    /// Creates an encoder that stores encoded items at the front of `bytes`.
    pub fn new(bytes: &'a mut [u8], technique: Dispatch) -> (encoder: Self)
        ensures
            encoder.bytes@ == old(bytes)@,
            final(encoder.bytes)@ == final(bytes)@,
            encoder.technique == technique,
    {
        SliceEncoder { bytes, technique }
    }
}

impl<'a> WriteBytes for SliceEncoder<'a> {
    type Pos = ();

    type Error = SliceEncoderError;

    open spec fn technique(&self) -> Dispatch {
        self.technique
    }

    open spec fn writes(
        &self,
        bytes: Seq<u8>,
        after: &Self,
        result: Result<(), SliceEncoderError>,
    ) -> bool {
        &&& after.technique == self.technique
        &&& if bytes.len() <= self.bytes@.len() {
            &&& result == Ok::<(), SliceEncoderError>(())
            &&& after.bytes@ == overwritten(self.bytes@, bytes)
        } else {
            &&& result == Err::<(), SliceEncoderError>(SliceEncoderError)
            &&& after.bytes@ == self.bytes@
        }
    }

    fn dispatch(&self) -> (dispatch: Dispatch) {
        self.technique
    }

    fn write_bytes(&mut self, bytes: &[u8]) -> (result: Result<(), SliceEncoderError>)
        ensures
            final(final(self).bytes)@ == final(old(self).bytes)@,
    {
        if self.bytes.len() < bytes.len() {
            return Err(SliceEncoderError);
        }
        let ghost before = self.bytes@;
        let mut i: usize = 0;
        while i < bytes.len()
            invariant
                i <= bytes@.len() <= before.len(),
                self.bytes@ == bytes@.take(i as int) + before.skip(i as int),
                self.technique == old(self).technique,
                final(self.bytes)@ == final(old(self).bytes)@,
            decreases bytes@.len() - i,
        {
            self.bytes[i] = bytes[i];
            i = i + 1;
            assert(self.bytes@ =~= bytes@.take(i as int) + before.skip(i as int));
        }
        assert(bytes@.take(i as int) =~= bytes@);
        Ok(())
    }

}

impl<'a> Encoder for SliceEncoder<'a> {
    open spec fn can_report(&self) -> bool {
        true
    }

    open spec fn reports_branch_offset(&self, pos: (), after: &Self) -> bool {
        &&& after.technique == self.technique
        &&& after.bytes@ == self.bytes@
    }

    open spec fn reports_block_fuel(&self, pos: (), after: &Self) -> bool {
        &&& after.technique == self.technique
        &&& after.bytes@ == self.bytes@
    }

    fn encode_op_code(&mut self, code: OpCode) -> (result: Result<(), SliceEncoderError>)
        ensures
            final(final(self).bytes)@ == final(old(self).bytes)@,
    {
        encode_op_code(self, code)
    }

    fn branch_offset(&mut self, _pos: (), _branch_offset: BranchOffset) -> (result: Result<
        (),
        SliceEncoderError,
    >)
        ensures
            final(final(self).bytes)@ == final(old(self).bytes)@,
    {
        Ok(())
    }

    fn block_fuel(&mut self, _pos: (), _block_fuel: BlockFuel) -> (result: Result<
        (),
        SliceEncoderError,
    >)
        ensures
            final(final(self).bytes)@ == final(old(self).bytes)@,
    {
        Ok(())
    }
}

/// The bytes of a slice after each of `pieces` has been written to its front, one after another,
/// and whether all of them fitted. The first piece that does not fit ends the encoding.
pub open spec fn overwritten_by_all(
    bytes: Seq<u8>,
    pieces: Seq<Piece>,
    dispatch: Dispatch,
) -> (Seq<u8>, bool)
    decreases pieces.len(),
{
    if pieces.len() == 0 {
        (bytes, true)
    } else {
        let new = pieces[0].bytes(dispatch);
        if bytes.len() < new.len() {
            (bytes, false)
        } else {
            overwritten_by_all(overwritten(bytes, new), pieces.skip(1), dispatch)
        }
    }
}

impl<'a> SliceEncoder<'a> {
    /// Encodes `piece` to the front of the slice.
    fn encode_piece(&mut self, piece: Piece) -> (result: Result<(), SliceEncoderError>)
        ensures
            old(self).writes(piece.bytes(old(self).technique), final(self), result),
            final(final(self).bytes)@ == final(old(self).bytes)@,
    {
        match piece {
            Piece::OpCode(code) => self.encode_op_code(code),
            Piece::Operand(operand) => match write_piece(self, piece) {
                Ok(pos) => match operand {
                    Operand::BranchOffset(offset) => self.branch_offset(pos, offset),
                    Operand::BlockFuel(fuel) => self.block_fuel(pos, fuel),
                    _ => Ok(()),
                },
                Err(error) => Err(error),
            },
        }
    }

    /// Encodes `item` to the front of the slice.
    ///
    /// Every piece of `item` is written to the front of the slice.
    ///
    /// # Errors
    ///
    /// If the slice is too short for a piece of `item`.
    pub fn encode<T: Encode>(&mut self, item: &T) -> (result: Result<(), SliceEncoderError>)
        ensures
            ({
                let (bytes, fits) = overwritten_by_all(
                    old(self).bytes@,
                    item.pieces(),
                    old(self).technique,
                );
                &&& final(self).bytes@ == bytes
                &&& fits ==> result == Ok::<(), SliceEncoderError>(())
                &&& !fits ==> result == Err::<(), SliceEncoderError>(SliceEncoderError)
            }),
            final(self).technique == old(self).technique,
            final(final(self).bytes)@ == final(old(self).bytes)@,
    {
        let count: usize = item.piece_count();
        let mut i: usize = 0;
        assert(item.pieces().skip(0) =~= item.pieces());
        while i < count
            invariant
                i <= count == item.pieces().len(),
                overwritten_by_all(
                    self.bytes@,
                    item.pieces().skip(i as int),
                    self.technique,
                ) == overwritten_by_all(old(self).bytes@, item.pieces(), old(self).technique),
                self.technique == old(self).technique,
                final(self.bytes)@ == final(old(self).bytes)@,
            decreases count - i,
        {
            assert(item.pieces().skip(i as int).skip(1) =~= item.pieces().skip(i + 1));
            match self.encode_piece(item.piece(i)) {
                Ok(()) => {},
                Err(error) => {
                    return Err(error);
                },
            }
            i = i + 1;
        }
        Ok(())
    }
}

} // verus!
