//! What operators, their operands and their encodings are.
use crate::ir::{self, BlockFuel, BlockFuelOutOfBounds, BranchOffset, Decode, DecodeError, Dispatch,
    Encode, Op, OpCode, Operand, Piece};
use crate::word;
use vstd::prelude::*;

verus! {

/// An op-code has the handler and the code that it was made of.
pub proof fn law_op_code(op_code: OpCode)
    ensures
        forall|handler: usize| #[trigger]
            call_ensures(ir::op_code_to_handler, (op_code,), handler) ==> handler
                == op_code.handler,
        forall|code: u16| #[trigger]
            call_ensures(<u16 as From<OpCode>>::from, (op_code,), code) ==> code == op_code.code,
{
}

/// A branch offset is the distance that it was made of, and it is zero if its target is unknown.
pub proof fn law_branch_offset(distance: isize, offset: BranchOffset)
    ensures
        forall|made: BranchOffset| #[trigger]
            call_ensures(<BranchOffset as From<isize>>::from, (distance,), made) ==> made@
                == distance,
        forall|read: isize| #[trigger]
            call_ensures(<isize as From<BranchOffset>>::from, (offset,), read) ==> read
                == offset@,
        forall|made: BranchOffset| #[trigger]
            call_ensures(BranchOffset::uninit, (), made) ==> made@ == 0,
{
}

/// The fuel of a block is the amount that it was made of.
pub proof fn law_block_fuel(amount: u64, fuel: BlockFuel)
    ensures
        forall|made: BlockFuel| #[trigger]
            call_ensures(<BlockFuel as From<u64>>::from, (amount,), made) ==> made@ == amount,
        forall|read: u64| #[trigger]
            call_ensures(<u64 as From<BlockFuel>>::from, (fuel,), read) ==> read == fuel@,
{
}

/// Bumping the fuel of a block adds the amount, or fails and changes nothing if the sum is out of
/// bounds.
pub proof fn law_bump_by(amount: u64)
    ensures
        forall|fuel: &mut BlockFuel, result: Result<(), BlockFuelOutOfBounds>| #[trigger]
            call_ensures(BlockFuel::bump_by, (fuel, amount), result) ==> {
                &&& result is Ok ==> final(fuel)@ == fuel@ + amount
                &&& result is Err ==> final(fuel)@ == fuel@ && fuel@ + amount > u64::MAX
                &&& fuel@ + amount <= u64::MAX ==> result is Ok
            },
{
}

/// The number that an operand stands for.
pub open spec fn operand_value(operand: Operand) -> int {
    match operand {
        Operand::U8(value) => value as int,
        Operand::U16(value) => value as int,
        Operand::U32(value) => value as int,
        Operand::U64(value) => value as int,
        Operand::BranchOffset(offset) => offset@,
        Operand::BlockFuel(fuel) => fuel@ as int,
    }
}

/// The number of bytes that an operand takes.
pub open spec fn operand_width(operand: Operand) -> nat {
    match operand {
        Operand::U8(_) => 1,
        Operand::U16(_) => 2,
        Operand::U32(_) => 4,
        Operand::U64(_) => 8,
        Operand::BranchOffset(_) => word::word_len(),
        Operand::BlockFuel(_) => 8,
    }
}

/// The number that is read from the bytes of an operand.
pub open spec fn operand_read(operand: Operand, bytes: Seq<u8>) -> int {
    let value = word::le_value(bytes) as int;
    if operand is BranchOffset && value > isize::MAX {
        value - (usize::MAX + 1)
    } else {
        value
    }
}

/// Reading back the bytes of an operand yields the value of the operand, whatever the value.
pub proof fn law_operand_round_trip(operand: Operand, dispatch: Dispatch)
    ensures
        Piece::Operand(operand).bytes(dispatch).len() == operand_width(operand),
        operand_read(operand, Piece::Operand(operand).bytes(dispatch)) == operand_value(operand),
{
    word::lemma_pow256_values();
    match operand {
        Operand::U8(value) => word::law_le_round_trip(value as nat, 1),
        Operand::U16(value) => word::law_le_round_trip(value as nat, 2),
        Operand::U32(value) => word::law_le_round_trip(value as nat, 4),
        Operand::U64(value) => word::law_le_round_trip(value as nat, 8),
        Operand::BranchOffset(offset) => {
            BranchOffset::law_view_is_injective(offset, offset);
            word::lemma_word_ranges();
            word::lemma_wrap_isize_in_range(offset@);
            word::law_le_round_trip(word::wrap_usize(offset@) as nat, word::word_len());
        },
        Operand::BlockFuel(fuel) => {
            BlockFuel::law_view_is_injective(fuel, fuel);
            word::law_le_round_trip(fuel@, 8);
        },
    }
}

/// Reading back the bytes of an op-code yields the whole address of its handler if dispatch is
/// direct, and its code otherwise.
pub proof fn law_op_code_round_trip(op_code: OpCode)
    ensures
        Piece::OpCode(op_code).bytes(Dispatch::Direct).len() == word::word_len(),
        word::le_value(Piece::OpCode(op_code).bytes(Dispatch::Direct)) == op_code.handler,
        Piece::OpCode(op_code).bytes(Dispatch::Indirect).len() == 2,
        word::le_value(Piece::OpCode(op_code).bytes(Dispatch::Indirect)) == op_code.code,
{
    word::lemma_pow256_values();
    word::law_le_round_trip(op_code.handler as nat, word::word_len());
    word::law_le_round_trip(op_code.code as nat, 2);
}

/// The bytes of a piece are those that its value is read back from.
pub proof fn law_to_bytes(op_code: OpCode, operand: Operand, dispatch: Dispatch)
    ensures
        forall|bytes: Vec<u8>| #[trigger]
            call_ensures(Piece::to_bytes, (&Piece::OpCode(op_code), dispatch), bytes) ==> {
                &&& bytes@ == Piece::OpCode(op_code).bytes(dispatch)
                &&& dispatch is Direct ==> {
                    &&& bytes@.len() == word::word_len()
                    &&& word::le_value(bytes@) == op_code.handler
                }
                &&& dispatch is Indirect ==> {
                    &&& bytes@.len() == 2
                    &&& word::le_value(bytes@) == op_code.code
                }
            },
        forall|bytes: Vec<u8>| #[trigger]
            call_ensures(Piece::to_bytes, (&Piece::Operand(operand), dispatch), bytes) ==> {
                &&& bytes@ == Piece::Operand(operand).bytes(dispatch)
                &&& bytes@.len() == operand_width(operand)
                &&& operand_read(operand, bytes@) == operand_value(operand)
            },
{
    law_op_code_round_trip(op_code);
    law_operand_round_trip(operand, dispatch);
}

/// Exactly the positions of branch offsets and of the fuel of blocks are reported.
pub proof fn law_reported(piece: Piece, pieces: Seq<Piece>, index: int)
    ensures
        piece.is_reported() <==> {
            ||| piece matches Piece::Operand(Operand::BranchOffset(_))
            ||| piece matches Piece::Operand(Operand::BlockFuel(_))
        },
        piece.is_branch_offset() <==> piece matches Piece::Operand(Operand::BranchOffset(_)),
        piece.is_block_fuel() <==> piece matches Piece::Operand(Operand::BlockFuel(_)),
        ir::is_silent(pieces) <==> forall|i: int|
            0 <= i < pieces.len() ==> {
                &&& !((#[trigger] pieces[i]) matches Piece::Operand(Operand::BranchOffset(_)))
                &&& !(pieces[i] matches Piece::Operand(Operand::BlockFuel(_)))
            },
        ir::reports_branch_at(pieces, index) <==> {
            &&& 0 <= index < pieces.len()
            &&& pieces[index] matches Piece::Operand(Operand::BranchOffset(_))
            &&& forall|i: int|
                0 <= i < pieces.len() && i != index ==> !(#[trigger] pieces[i]).is_reported()
        },
{
    if forall|i: int|
        0 <= i < pieces.len() ==> {
            &&& !((#[trigger] pieces[i]) matches Piece::Operand(Operand::BranchOffset(_)))
            &&& !(pieces[i] matches Piece::Operand(Operand::BlockFuel(_)))
        } {
        assert forall|i: int| 0 <= i < pieces.len() implies !(
        #[trigger] pieces[i]).is_reported() by {}
    }
    if ir::is_silent(pieces) {
        assert forall|i: int| 0 <= i < pieces.len() implies {
            &&& !((#[trigger] pieces[i]) matches Piece::Operand(Operand::BranchOffset(_)))
            &&& !(pieces[i] matches Piece::Operand(Operand::BlockFuel(_)))
        } by {
            assert(!pieces[i].is_reported());
        }
    }
}

/// The encoding of pieces one after another is the encoding of the first ones followed by that of
/// the others.
pub proof fn law_encoding_concatenates(first: Seq<Piece>, second: Seq<Piece>, dispatch: Dispatch)
    ensures
        ir::encoding(first + second, dispatch) == ir::encoding(first, dispatch) + ir::encoding(
            second,
            dispatch,
        ),
        first.len() == 1 ==> ir::encoding(first, dispatch) == first[0].bytes(dispatch),
        first.len() == 0 ==> ir::encoding(first, dispatch).len() == 0,
    decreases second.len(),
{
    if first.len() == 1 {
        assert(first =~= seq![first[0]]);
        ir::lemma_encoding_single(first[0], dispatch);
    }
    if second.len() == 0 {
        assert(first + second =~= first);
        assert(ir::encoding(first, dispatch) + ir::encoding(second, dispatch) =~= ir::encoding(
            first,
            dispatch,
        ));
    } else {
        let front = second.drop_last();
        law_encoding_concatenates(first, front, dispatch);
        assert((first + second).drop_last() =~= first + front);
        assert(ir::encoding(first + second, dispatch) =~= ir::encoding(first, dispatch)
            + ir::encoding(second, dispatch));
    }
}

/// An operator consists of its op-code and of its operands in order.
pub proof fn law_op(code: OpCode, operands: &[Operand], fuel: BlockFuel)
    ensures
        operands@.len() <= 8 ==> call_requires(Op::new, (code, operands)),
        forall|op: Op| #[trigger]
            call_ensures(Op::new, (code, operands), op) ==> {
                &&& op.pieces().len() == operands@.len() + 1
                &&& op.pieces()[0] == Piece::OpCode(code)
                &&& forall|i: int|
                    0 <= i < operands@.len() ==> (#[trigger] op.pieces()[i + 1])
                        == Piece::Operand(operands@[i])
            },
        forall|op: Op| #[trigger]
            call_ensures(Op::consume_fuel, (code, fuel), op) ==> {
                &&& op.pieces().len() == 2
                &&& op.pieces()[0] == Piece::OpCode(code)
                &&& op.pieces()[1] == Piece::Operand(Operand::BlockFuel(fuel))
            },
{
}

/// A branch offset and the fuel of a block are encoded as themselves only.
pub proof fn law_single_pieces(offset: BranchOffset, fuel: BlockFuel)
    ensures
        offset.pieces().len() == 1,
        offset.pieces()[0] == Piece::Operand(Operand::BranchOffset(offset)),
        fuel.pieces().len() == 1,
        fuel.pieces()[0] == Piece::Operand(Operand::BlockFuel(fuel)),
{
}

/// An encoded operator starts with the whole address of its handler if dispatch is direct, and with
/// its code otherwise.
pub proof fn law_encoded_op_starts_with_code(code: OpCode, operands: &[Operand], dispatch: Dispatch)
    ensures
        forall|op: Op| #[trigger]
            call_ensures(Op::new, (code, operands), op) ==> {
                let bytes = ir::encoding(op.pieces(), dispatch);
                &&& dispatch is Direct ==> {
                    &&& word::word_len() <= bytes.len()
                    &&& word::le_value(bytes.take(word::word_len() as int)) == code.handler
                }
                &&& dispatch is Indirect ==> {
                    &&& 2 <= bytes.len()
                    &&& word::le_value(bytes.take(2)) == code.code
                }
            },
{
    law_op_code_round_trip(code);
    assert forall|op: Op| #[trigger] call_ensures(Op::new, (code, operands), op) implies {
        let bytes = ir::encoding(op.pieces(), dispatch);
        let first = Piece::OpCode(code).bytes(dispatch);
        &&& first.len() <= bytes.len()
        &&& bytes.take(first.len() as int) == first
    } by {
        let bytes = ir::encoding(op.pieces(), dispatch);
        let first = Piece::OpCode(code).bytes(dispatch);
        ir::lemma_encoding_piece(op.pieces(), 0, dispatch);
        assert(op.pieces().take(0) =~= Seq::<Piece>::empty());
        assert(bytes.take(first.len() as int) =~= bytes.subrange(0, first.len() as int));
    }
}

/// Every operand of an encoded operator is read back at its place, which is behind the op-code and
/// the operands before it.
pub proof fn law_encoded_operand_is_read_back(
    code: OpCode,
    operands: &[Operand],
    index: int,
    dispatch: Dispatch,
)
    requires
        0 <= index < operands@.len(),
    ensures
        forall|op: Op| #[trigger]
            call_ensures(Op::new, (code, operands), op) ==> {
                let bytes = ir::encoding(op.pieces(), dispatch);
                let start = ir::encoding(op.pieces().take(index + 1), dispatch).len();
                let end = start + operand_width(operands@[index]);
                &&& end <= bytes.len()
                &&& index == operands@.len() - 1 ==> end == bytes.len()
                &&& operand_read(operands@[index], bytes.subrange(start as int, end as int))
                    == operand_value(operands@[index])
            },
{
    let operand = operands@[index];
    law_operand_round_trip(operand, dispatch);
    assert forall|op: Op| #[trigger] call_ensures(Op::new, (code, operands), op) implies {
        let bytes = ir::encoding(op.pieces(), dispatch);
        let start = ir::encoding(op.pieces().take(index + 1), dispatch).len();
        let end = start + operand_width(operand);
        &&& end <= bytes.len()
        &&& index == operands@.len() - 1 ==> end == bytes.len()
        &&& operand_read(operand, bytes.subrange(start as int, end as int)) == operand_value(
            operand,
        )
    } by {
        let pieces = op.pieces();
        assert(pieces[index + 1] == Piece::Operand(operand));
        ir::lemma_encoding_piece(pieces, index + 1, dispatch);
        if index == operands@.len() - 1 {
            assert(pieces.drop_last() =~= pieces.take(index + 1));
        }
    }
}

/// Decoding succeeds exactly if there are enough bytes and yields the value of the first of them.
pub proof fn law_decode(bytes: &[u8])
    ensures
        forall|result: Result<BlockFuel, DecodeError>| #[trigger]
            call_ensures(<BlockFuel as Decode>::decode, (bytes,), result) ==> {
                &&& result is Ok <==> 8 <= bytes@.len()
                &&& result matches Ok(fuel) ==> fuel@ == word::le_value(bytes@.take(8))
            },
        forall|result: Result<BranchOffset, DecodeError>| #[trigger]
            call_ensures(<BranchOffset as Decode>::decode, (bytes,), result) ==> {
                &&& result is Ok <==> word::word_len() <= bytes@.len()
                &&& result matches Ok(offset) ==> operand_read(
                    Operand::BranchOffset(offset),
                    bytes@.take(word::word_len() as int),
                ) == offset@
            },
{
    BlockFuel::lemma_decoded(bytes@);
    BranchOffset::lemma_decoded(bytes@);
    if word::word_len() <= bytes@.len() {
        let front = bytes@.take(word::word_len() as int);
        assert(front =~= word::word_bytes_at(bytes@, 0));
        word::lemma_pow256_values();
        word::law_le_bytes_of_value(front);
        word::lemma_wrap_usize_in_range(word::le_value(front) as int);
    }
}

} // verus!
