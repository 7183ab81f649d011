use op_encoder::emit::{Encoder, SliceEncoder, SliceEncoderError, WriteBytes};
use op_encoder::engine::TranslationError;
use op_encoder::ir::{
    BlockFuel, BranchOffset, Decode, DecodeError, Dispatch, Encode, Op, OpCode, Operand, Piece,
};
use op_encoder::ops::{EncodedOps, ReportingPos, UpdateEncodedError, UpdateEncodedErrorKind};
use op_encoder::pos::{BytePos, Pos};
use op_encoder::reuse::Reset;
use op_encoder::word;

const W: usize = std::mem::size_of::<usize>();

fn at(pos: BytePos) -> usize {
    usize::from(pos)
}

fn word_bytes(value: isize) -> Vec<u8> {
    value.to_le_bytes().to_vec()
}

#[test]
fn little_endian_words() {
    assert_eq!(word::to_le_bytes(0x0102_0304, 4), vec![4, 3, 2, 1]);
    assert_eq!(word::to_le_bytes(0x0102_0304, 2), vec![4, 3]);
    assert_eq!(word::to_le_bytes(5, 0), Vec::<u8>::new());
    assert_eq!(word::from_le_bytes(&[4, 3, 2, 1, 9], 4), 0x0102_0304);
    assert_eq!(word::from_le_bytes(&[0xff; 8], 8), u64::MAX);
    assert_eq!(word::word_size(), W);
}

#[test]
fn signed_words() {
    for value in [0, 1, -1, 77, -77, isize::MAX, isize::MIN] {
        assert_eq!(word::isize_to_bits(value), value as usize);
        assert_eq!(word::isize_from_bits(value as usize), value);
    }
}

#[test]
fn positions() {
    let a: Pos<Op> = Pos::from(BytePos::from(3));
    let b: Pos<Op> = Pos::from(BytePos::from(4));
    assert!(a < b && a == a.clone() && a != b);
    assert_eq!(a.cmp(&b), std::cmp::Ordering::Less);
    assert_eq!(b.cmp(&a), std::cmp::Ordering::Greater);
    assert_eq!(a.cmp(&a), std::cmp::Ordering::Equal);
    assert_eq!(BytePos::from(a), BytePos::from(3));
    assert!(BytePos::from(3) < BytePos::from(4));
    assert_eq!(at(BytePos::from(b)), 4);
}

#[test]
fn round_trip_of_branch_offsets() {
    for value in [0, 1, -1, 300, -300, isize::MAX, isize::MIN] {
        let offset = BranchOffset::from(value);
        let mut bytes = offset.piece(0).to_bytes(Dispatch::Direct);
        assert_eq!(bytes, word_bytes(value));
        bytes.push(9);
        assert_eq!(BranchOffset::decode(&bytes), Ok(offset));
        assert_eq!(BranchOffset::decode(&bytes[..W - 1]), Err(DecodeError));
        assert_eq!(isize::from(offset), value);
    }
    assert_eq!(isize::from(BranchOffset::uninit()), 0);
}

#[test]
fn round_trip_of_block_fuel() {
    for value in [0, 1, 0x0102_0304_0506_0708, u64::MAX] {
        let fuel = BlockFuel::from(value);
        let bytes = fuel.piece(0).to_bytes(Dispatch::Indirect);
        assert_eq!(bytes, value.to_le_bytes().to_vec());
        assert_eq!(BlockFuel::decode(&bytes), Ok(fuel));
        assert_eq!(BlockFuel::decode(&bytes[..7]), Err(DecodeError));
    }
}

#[test]
fn bump_block_fuel() {
    let mut fuel = BlockFuel::from(u64::MAX - 2);
    assert!(fuel.bump_by(2).is_ok());
    assert_eq!(u64::from(fuel), u64::MAX);
    assert!(fuel.bump_by(1).is_err());
    assert_eq!(u64::from(fuel), u64::MAX);
    assert!(fuel.bump_by(0).is_ok());
}

#[test]
fn write_bytes_appends() {
    let mut ops = EncodedOps::default();
    assert_eq!(ops.write_bytes(&[1, 2]), Ok(BytePos::from(0)));
    assert_eq!(ops.write_bytes(&[]), Ok(BytePos::from(2)));
    assert_eq!(ops.write_bytes(&[3]), Ok(BytePos::from(2)));
    assert_eq!(ops.bytes(), &[1, 2, 3]);
    assert_eq!(at(ops.next_pos()), 3);
}

#[test]
fn write_without_memory_fails() {
    let mut ops = EncodedOps::default();
    assert_eq!(ops.write_reserved(&[1], true), Ok(BytePos::from(0)));
    assert_eq!(ops.write_reserved(&[2], false), Err(TranslationError::OutOfSystemMemory));
    assert_eq!(ops.bytes(), &[1]);
}

#[test]
fn op_codes_by_dispatch() {
    let code = OpCode { code: 0x0102, handler: 0x0304_0506 };
    let mut ops = EncodedOps::default();
    assert_eq!(ops.encode_op_code(code), Ok(BytePos::from(0)));
    assert_eq!(ops.bytes(), &0x0304_0506usize.to_le_bytes()[..]);
    let mut ops = EncodedOps::default();
    ops.set_dispatch(Dispatch::Indirect);
    assert_eq!(ops.encode_op_code(code), Ok(BytePos::from(0)));
    assert_eq!(ops.bytes(), &[2, 1]);
}

#[test]
fn encode_all_operands() {
    let code = OpCode { code: 1, handler: 0 };
    let op = Op::new(
        code,
        &[
            Operand::U8(2),
            Operand::U16(0x0304),
            Operand::U32(0x0506_0708),
            Operand::U64(9),
        ],
    );
    let mut ops = EncodedOps::default();
    ops.set_dispatch(Dispatch::Indirect);
    assert_eq!(ops.encode(&op), Ok(BytePos::from(0)));
    assert_eq!(ops.bytes(), &[1, 0, 2, 4, 3, 8, 7, 6, 5, 9, 0, 0, 0, 0, 0, 0, 0]);
    assert!(ops.take_reporting_pos().is_none());
}

#[test]
fn encode_reports_positions() {
    let code = OpCode { code: 1, handler: 0 };
    let mut ops = EncodedOps::default();
    ops.set_dispatch(Dispatch::Indirect);
    let branch = Op::new(code, &[
        Operand::U8(2),
        Operand::BranchOffset(BranchOffset::from(-5)),
        Operand::U8(3),
    ]);
    assert_eq!(ops.encode(&branch), Ok(BytePos::from(0)));
    match ops.take_reporting_pos() {
        Some(ReportingPos::BranchOffset(pos)) => assert_eq!(at(BytePos::from(pos)), 3),
        other => panic!("unexpected report: {:?}", other),
    }
    assert!(ops.take_reporting_pos().is_none());
    let mut expected = vec![1, 0, 2];
    expected.extend(word_bytes(-5));
    expected.push(3);
    assert_eq!(ops.bytes(), &expected[..]);
    let fuel = Op::consume_fuel(code, BlockFuel::from(7));
    assert_eq!(ops.encode(&fuel), Ok(BytePos::from(4 + W)));
    match ops.take_reporting_pos() {
        Some(ReportingPos::BlockFuel(pos)) => assert_eq!(at(BytePos::from(pos)), 6 + W),
        other => panic!("unexpected report: {:?}", other),
    }
}

#[test]
fn truncate_clears_the_rest() {
    let mut ops = EncodedOps::default();
    let _ = ops.write_bytes(&vec![0; 4 * W]);
    ops.register_branch_offset(BytePos::from(0), Pos::from(BytePos::from(0)));
    ops.register_branch_offset(BytePos::from(W), Pos::from(BytePos::from(W)));
    ops.register_branch_offset(BytePos::from(W), Pos::from(BytePos::from(2 * W)));
    ops.truncate(BytePos::from(2 * W));
    assert_eq!(ops.bytes().len(), 2 * W);
    let mut copy = ops.bytes().to_vec();
    ops.relocate_branch_offsets_at(&mut copy, 100);
    let mut expected = word_bytes(100);
    expected.extend(word_bytes(100 + W as isize));
    assert_eq!(copy, expected);
}

#[test]
fn padding() {
    let mut ops = EncodedOps::default();
    ops.pad_to_op_alignment();
    assert_eq!(ops.bytes().len(), 0);
    let _ = ops.write_bytes(&[1]);
    ops.pad_to_op_alignment();
    assert_eq!(ops.bytes().len(), W);
    assert_eq!(ops.bytes()[0], 1);
    assert!(ops.bytes()[1..].iter().all(|byte| *byte == 0));
    ops.pad_to_op_alignment();
    assert_eq!(ops.bytes().len(), W);
    ops.set_dispatch(Dispatch::Indirect);
    let _ = ops.write_bytes(&[1]);
    ops.pad_to_op_alignment();
    assert_eq!(ops.bytes().len(), W + 1);
}

#[test]
fn update_encoded_values() {
    let mut ops = EncodedOps::default();
    let _ = ops.write_bytes(&[0xaa]);
    let _ = ops.encode(&BlockFuel::from(5));
    let _ = ops.take_reporting_pos();
    let _ = ops.write_bytes(&[0xbb]);
    let pos: Pos<BlockFuel> = Pos::from(BytePos::from(1));
    let result = ops.update_encoded_or_err(pos, |fuel| Some(BlockFuel::from(u64::from(fuel) + 300)));
    assert_eq!(result, Ok(()));
    assert_eq!(ops.bytes(), &[0xaa, 0x31, 1, 0, 0, 0, 0, 0, 0, 0xbb]);
    ops.update_encoded(pos, |_| Some(BlockFuel::from(1)));
    assert_eq!(ops.bytes(), &[0xaa, 1, 0, 0, 0, 0, 0, 0, 0, 0xbb]);
}

#[test]
fn update_encoded_errors() {
    let mut ops = EncodedOps::default();
    let _ = ops.write_bytes(&[1; 9]);
    let before = ops.bytes().to_vec();
    let fuel_at = |pos: usize| -> Pos<BlockFuel> { Pos::from(BytePos::from(pos)) };
    assert_eq!(
        ops.update_encoded_or_err(fuel_at(10), |fuel| Some(fuel)),
        Err(UpdateEncodedErrorKind::BufferOutOfBounds)
    );
    assert_eq!(
        ops.update_encoded_or_err(fuel_at(9), |fuel| Some(fuel)),
        Err(UpdateEncodedErrorKind::FailedToDecode)
    );
    assert_eq!(
        ops.update_encoded_or_err(fuel_at(2), |fuel| Some(fuel)),
        Err(UpdateEncodedErrorKind::FailedToDecode)
    );
    assert_eq!(
        ops.update_encoded_or_err(fuel_at(1), |_| None),
        Err(UpdateEncodedErrorKind::FailedToUpdateEncoded)
    );
    assert_eq!(ops.bytes(), &before[..]);
}

#[test]
fn update_encoded_error_messages() {
    let message = |kind| UpdateEncodedError::<BlockFuel>::from(kind).clone().to_string("BlockFuel");
    assert_eq!(
        message(UpdateEncodedErrorKind::BufferOutOfBounds),
        "buffer out of bounds: BlockFuel"
    );
    assert_eq!(message(UpdateEncodedErrorKind::FailedToDecode), "failed to decode: BlockFuel");
    assert_eq!(message(UpdateEncodedErrorKind::FailedToEncode), "failed to encode: BlockFuel");
    assert_eq!(
        message(UpdateEncodedErrorKind::FailedToUpdateEncoded),
        "failed to update encoded: BlockFuel"
    );
}

#[test]
fn update_branch_offset_in_place() {
    let mut ops = EncodedOps::default();
    let _ = ops.write_bytes(&vec![7; W + 2]);
    ops.update_branch_offset(Pos::from(BytePos::from(1)), BranchOffset::from(-2));
    let mut expected = vec![7];
    expected.extend(word_bytes(-2));
    expected.push(7);
    assert_eq!(ops.bytes(), &expected[..]);
}

#[test]
fn reset_clears_buffer_and_branches() {
    let mut ops = EncodedOps::default();
    let _ = ops.write_bytes(&vec![7; W]);
    ops.register_branch_offset(BytePos::from(0), Pos::from(BytePos::from(0)));
    ops.reset();
    assert!(ops.bytes().is_empty());
    let _ = ops.write_bytes(&vec![0; W]);
    let mut copy = ops.bytes().to_vec();
    ops.relocate_branch_offsets_at(&mut copy, 100);
    assert_eq!(copy, vec![0; W]);
}

#[test]
fn slice_encoder_writes_to_front() {
    let mut bytes = [1u8, 2, 3, 4];
    let mut encoder = SliceEncoder::new(&mut bytes, Dispatch::Indirect);
    assert_eq!(encoder.write_bytes(&[9, 8]), Ok(()));
    assert_eq!(encoder.write_bytes(&[7]), Ok(()));
    assert_eq!(encoder.write_bytes(&[0; 5]), Err(SliceEncoderError));
    assert_eq!(encoder.dispatch(), Dispatch::Indirect);
    assert_eq!(bytes, [7, 8, 3, 4]);
}

#[test]
fn slice_encoder_encodes_items() {
    let code = OpCode { code: 0x0102, handler: 0x0304 };
    let mut bytes = [9u8; 12];
    let mut encoder = SliceEncoder::new(&mut bytes, Dispatch::Indirect);
    assert_eq!(encoder.encode_op_code(code), Ok(()));
    assert_eq!(encoder.branch_offset((), BranchOffset::uninit()), Ok(()));
    assert_eq!(encoder.block_fuel((), BlockFuel::from(1)), Ok(()));
    assert_eq!(bytes, [2, 1, 9, 9, 9, 9, 9, 9, 9, 9, 9, 9]);
    let mut encoder = SliceEncoder::new(&mut bytes, Dispatch::Indirect);
    assert_eq!(encoder.encode(&BlockFuel::from(5)), Ok(()));
    assert_eq!(bytes, [5, 0, 0, 0, 0, 0, 0, 0, 9, 9, 9, 9]);
    let mut short = [9u8; 3];
    let op = Op::new(code, &[Operand::U32(1)]);
    let mut encoder = SliceEncoder::new(&mut short, Dispatch::Indirect);
    assert_eq!(encoder.encode(&op), Err(SliceEncoderError));
    assert_eq!(short, [2, 1, 9]);
}
