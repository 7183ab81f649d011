use op_encoder::encoder::{OpEncoder, OpEncoderAllocations, StagedOp};
use op_encoder::engine::{Config, Engine, Error, TranslationError};
use op_encoder::ir::{BlockFuel, BranchOffset, Dispatch, Op, OpCode, Operand};
use op_encoder::labels::{Label, LabelRegistry};
use op_encoder::pos::{BytePos, Pos};
use op_encoder::reuse::{Reset, ReusableAllocations};

const W: usize = std::mem::size_of::<usize>();

const NOP: OpCode = OpCode { code: 0x0a, handler: 0x100 };
const BR: OpCode = OpCode { code: 0x0b, handler: 0x200 };
const FUEL: OpCode = OpCode { code: 0x0c, handler: 0x300 };

fn engine(consume_fuel: bool, dispatch: Dispatch) -> Engine {
    Engine {
        config: Config { consume_fuel, dispatch },
        consume_fuel_code: FUEL,
    }
}

fn encoder(consume_fuel: bool, dispatch: Dispatch) -> OpEncoder {
    OpEncoder::new(&engine(consume_fuel, dispatch), OpEncoderAllocations::default())
}

fn op(immediate: u8) -> Op {
    Op::new(NOP, &[Operand::U8(immediate)])
}

fn branch(offset: BranchOffset) -> Op {
    Op::new(BR, &[Operand::BranchOffset(offset)])
}

fn index<T>(pos: Pos<T>) -> usize {
    usize::from(BytePos::from(pos))
}

fn word_at(bytes: &[u8], at: usize) -> isize {
    let mut word = [0u8; W];
    word.copy_from_slice(&bytes[at..at + W]);
    isize::from_le_bytes(word)
}

fn words(values: &[usize]) -> Vec<u8> {
    values.iter().flat_map(|value| value.to_le_bytes()).collect()
}

#[test]
fn encode_ops_directly() {
    let mut encoder = encoder(false, Dispatch::Direct);
    assert!(matches!(encoder.encode_op(op(1)), Ok(pos) if index(pos) == 0));
    assert!(matches!(encoder.encode_op(op(2)), Ok(pos) if index(pos) == 2 * W));
    let mut expected = words(&[0x100, 1, 0x100]);
    expected.push(2);
    assert_eq!(encoder.encoded_ops(), &expected[..]);
}

#[test]
fn encode_ops_indirectly() {
    let mut encoder = encoder(false, Dispatch::Indirect);
    assert!(matches!(encoder.encode_op(op(1)), Ok(pos) if index(pos) == 0));
    assert!(matches!(encoder.encode_op(op(2)), Ok(pos) if index(pos) == 3));
    assert_eq!(encoder.encoded_ops(), &[0x0a, 0, 1, 0x0a, 0, 2]);
}

#[test]
fn staged_op_is_encoded_last() {
    let mut encoder = encoder(false, Dispatch::Indirect);
    assert_eq!(encoder.peek_staged(), None);
    assert_eq!(encoder.stage_op(op(1)), Ok(None));
    assert_eq!(encoder.peek_staged(), Some(op(1)));
    assert_eq!(encoder.stage_op(op(2)), Ok(Some(Pos::from(BytePos::from(0)))));
    assert_eq!(encoder.peek_staged(), Some(op(2)));
    assert_eq!(encoder.commit_staged_if_any(), Ok(()));
    assert_eq!(encoder.peek_staged(), None);
    assert_eq!(encoder.commit_staged_if_any(), Ok(()));
    assert_eq!(encoder.encoded_ops(), &[0x0a, 0, 1, 0x0a, 0, 2]);
}

#[test]
fn stage_op_returns_the_previous_position() {
    let mut encoder = encoder(false, Dispatch::Direct);
    assert_eq!(encoder.stage_op(op(1)), Ok(None));
    assert_eq!(encoder.stage_op(op(2)), Ok(Some(Pos::from(BytePos::from(0)))));
    assert_eq!(encoder.stage_op(op(3)), Ok(Some(Pos::from(BytePos::from(2 * W)))));
    encoder.drop_staged();
    assert_eq!(encoder.stage_op(op(4)), Ok(None));
}

#[test]
fn branch_offsets_are_distances() {
    let mut encoder = encoder(false, Dispatch::Indirect);
    let first = encoder.new_label();
    let second = encoder.new_label();
    let third = encoder.new_label();
    assert_eq!(encoder.pin_label(first), Ok(()));
    let (_, ab) = encoder.encode_branch(second, |offset| offset).unwrap();
    assert_eq!(encoder.pin_label(second), Ok(()));
    let (_, bc) = encoder.encode_branch(third, |offset| offset).unwrap();
    assert_eq!(encoder.pin_label(third), Ok(()));
    let (_, ca) = encoder.encode_branch(first, |offset| offset).unwrap();
    encoder.update_branch_offsets();
    let ops = encoder.encoded_ops();
    assert_eq!(word_at(ops, index(ab)), W as isize);
    assert_eq!(word_at(ops, index(bc)), W as isize);
    assert_eq!(word_at(ops, index(ca)), -(word_at(ops, index(ab)) + word_at(ops, index(bc))));
}

#[test]
fn drop_undoes_stage() {
    let mut encoder = encoder(false, Dispatch::Direct);
    assert!(encoder.encode_op(op(1)).is_ok());
    assert_eq!(encoder.stage_op(op(2)), Ok(None));
    encoder.drop_staged();
    assert_eq!(encoder.peek_staged(), None);
    assert_eq!(encoder.encoded_ops(), &words(&[0x100, 1])[..]);
}

#[test]
fn drop_keeps_the_committed_op() {
    let mut encoder = encoder(false, Dispatch::Indirect);
    assert_eq!(encoder.stage_op(op(1)), Ok(None));
    assert_eq!(encoder.stage_op(op(2)), Ok(Some(Pos::from(BytePos::from(0)))));
    encoder.drop_staged();
    assert_eq!(encoder.peek_staged(), None);
    assert_eq!(encoder.encoded_ops(), &[0x0a, 0, 1][..]);
}

#[test]
fn encoding_commits_the_staged_op() {
    let mut encoder = encoder(true, Dispatch::Indirect);
    let label = encoder.new_label();
    assert_eq!(encoder.stage_op(op(1)), Ok(None));
    assert!(matches!(encoder.encode_op(op(2)), Ok(pos) if index(pos) == 3));
    assert_eq!(encoder.peek_staged(), None);
    assert_eq!(encoder.encoded_ops(), &[0x0a, 0, 1, 0x0a, 0, 2][..]);
    assert_eq!(encoder.stage_op(op(3)), Ok(None));
    assert!(encoder.encode_branch(label, branch).is_ok());
    assert_eq!(encoder.peek_staged(), None);
    assert_eq!(&encoder.encoded_ops()[6..11], &[0x0a, 0, 3, 0x0b, 0][..]);
    assert_eq!(encoder.stage_op(op(4)), Ok(None));
    assert!(matches!(encoder.encode_consume_fuel_op(), Ok(Some(_))));
    assert_eq!(encoder.peek_staged(), None);
    assert_eq!(&encoder.encoded_ops()[11 + W..16 + W], &[0x0a, 0, 4, 0x0c, 0][..]);
}

#[test]
fn replace_is_stage() {
    let mut replaced = encoder(false, Dispatch::Direct);
    assert!(replaced.encode_op(op(1)).is_ok());
    assert_eq!(replaced.stage_op(Op::new(NOP, &[Operand::U64(2)])), Ok(None));
    assert_eq!(replaced.replace_staged(op(3)), Ok(Pos::from(BytePos::from(2 * W))));
    assert_eq!(replaced.peek_staged(), Some(op(3)));
    assert_eq!(replaced.commit_staged_if_any(), Ok(()));
    let mut staged = encoder(false, Dispatch::Direct);
    assert!(staged.encode_op(op(1)).is_ok());
    assert_eq!(staged.stage_op(op(3)), Ok(None));
    assert_eq!(staged.commit_staged_if_any(), Ok(()));
    assert_eq!(replaced.encoded_ops(), staged.encoded_ops());
}

#[test]
fn staged_op_can_be_updated() {
    let mut staged = StagedOp::new(op(1), Pos::from(BytePos::from(5)));
    staged.update(op(2));
    let debug = format!("{:?}", staged);
    assert!(debug.contains("BytePos(5)") && debug.contains("U8(2)"));
}

#[test]
fn pad_to_op_alignment_appends_zeros() {
    let mut encoder = encoder(false, Dispatch::Direct);
    assert_eq!(encoder.pad_to_op_alignment(), Ok(()));
    assert!(encoder.encoded_ops().is_empty());
    assert!(encoder.encode_op(op(1)).is_ok());
    assert_eq!(encoder.pad_to_op_alignment(), Ok(()));
    assert_eq!(encoder.pad_to_op_alignment(), Ok(()));
    assert_eq!(encoder.encoded_ops(), &words(&[0x100, 1])[..]);
}

#[test]
fn consume_fuel_op_without_metering() {
    let mut encoder = encoder(false, Dispatch::Direct);
    assert_eq!(encoder.stage_op(op(1)), Ok(None));
    assert!(matches!(encoder.encode_consume_fuel_op(), Ok(None)));
    assert_eq!(encoder.peek_staged(), Some(op(1)));
    assert_eq!(encoder.bump_fuel_consumption_by(None, 5), Ok(()));
    assert_eq!(encoder.commit_staged_if_any(), Ok(()));
    assert_eq!(encoder.encoded_ops().len(), W + 1);
}

#[test]
fn consume_fuel_op_is_bumped() {
    let mut encoder = encoder(true, Dispatch::Indirect);
    assert_eq!(encoder.stage_op(op(1)), Ok(None));
    let first = encoder.encode_consume_fuel_op().unwrap().unwrap();
    assert_eq!(index(first), 5);
    assert_eq!(encoder.encoded_ops(), &[0x0a, 0, 1, 0x0c, 0, 1, 0, 0, 0, 0, 0, 0, 0]);
    let second = encoder.encode_consume_fuel_op().unwrap().unwrap();
    assert_eq!(index(second), 15);
    assert_eq!(encoder.bump_fuel_consumption_by(Some(first), 254), Ok(()));
    assert_eq!(encoder.bump_fuel_consumption_by(Some(first), 1), Ok(()));
    assert_eq!(encoder.bump_fuel_consumption_by(Some(second), 2), Ok(()));
    assert_eq!(&encoder.encoded_ops()[5..13], &[0, 1, 0, 0, 0, 0, 0, 0]);
    assert_eq!(&encoder.encoded_ops()[15..23], &[3, 0, 0, 0, 0, 0, 0, 0]);
}

#[test]
fn bumping_fuel_out_of_bounds_fails() {
    let mut encoder = encoder(true, Dispatch::Direct);
    let pos = encoder.encode_consume_fuel_op().unwrap();
    assert_eq!(pos.map(index), Some(W));
    assert_eq!(encoder.bump_fuel_consumption_by(pos, u64::MAX - 1), Ok(()));
    let before = encoder.encoded_ops().to_vec();
    assert_eq!(
        encoder.bump_fuel_consumption_by(pos, 1),
        Err(Error::Translation(TranslationError::BlockFuelOutOfBounds))
    );
    assert_eq!(encoder.encoded_ops(), &before[..]);
    assert_eq!(encoder.bump_fuel_consumption_by(pos, 0), Ok(()));
}

#[test]
fn backward_branch_is_encoded_with_its_offset() {
    let mut encoder = encoder(false, Dispatch::Direct);
    assert!(encoder.encode_op(op(1)).is_ok());
    let label = encoder.new_label();
    assert_eq!(encoder.pin_label(label), Ok(()));
    assert!(encoder.encode_op(op(2)).is_ok());
    assert_eq!(encoder.pad_to_op_alignment(), Ok(()));
    let (item, offset) = encoder.encode_branch(label, branch).unwrap();
    assert_eq!(index(item), 4 * W);
    assert_eq!(index(offset), 5 * W);
    assert_eq!(word_at(encoder.encoded_ops(), 5 * W), -(2 * W as isize));
    encoder.update_branch_offsets();
    assert_eq!(word_at(encoder.encoded_ops(), 5 * W), -(2 * W as isize));
}

#[test]
fn branch_to_itself_has_offset_zero() {
    let mut encoder = encoder(false, Dispatch::Direct);
    let label = encoder.new_label();
    assert_eq!(encoder.pin_label(label), Ok(()));
    let (_, offset) = encoder.encode_branch(label, branch).unwrap();
    encoder.update_branch_offsets();
    let mut ops = encoder.encoded_ops().to_vec();
    assert_eq!(word_at(&ops, index(offset)), 0);
    encoder.relocate_branch_offsets_at(&mut ops, 0x4000);
    assert_eq!(word_at(&ops, index(offset)), 0x4000);
}

#[test]
fn forward_branches_are_resolved() {
    let mut encoder = encoder(false, Dispatch::Indirect);
    let near = encoder.new_label();
    let far = encoder.new_label();
    let (a, a_offset) = encoder.encode_branch(far, branch).unwrap();
    let (b, b_offset) = encoder.encode_branch(near, branch).unwrap();
    assert_eq!(word_at(encoder.encoded_ops(), index(a_offset)), 0);
    assert_eq!(encoder.stage_op(op(1)), Ok(None));
    assert_eq!(encoder.commit_staged_if_any(), Ok(()));
    assert_eq!(encoder.pin_label(near), Ok(()));
    let near_pos = encoder.encoded_ops().len();
    assert!(encoder.encode_op(op(2)).is_ok());
    assert_eq!(encoder.pin_label_if_unpinned(far), Ok(()));
    let far_pos = encoder.encoded_ops().len();
    let before = encoder.encoded_ops().to_vec();
    encoder.update_branch_offsets();
    let ops = encoder.encoded_ops();
    assert_eq!(word_at(ops, index(a_offset)), far_pos as isize - index(a) as isize);
    assert_eq!(word_at(ops, index(b_offset)), near_pos as isize - index(b) as isize);
    assert_eq!(ops.len(), before.len());
    assert_eq!(&ops[index(b_offset) + W..], &before[index(b_offset) + W..]);
    let mut relocated = ops.to_vec();
    encoder.relocate_branch_offsets_at(&mut relocated, 5000);
    assert_eq!(word_at(&relocated, index(a_offset)), 5000 + far_pos as isize);
    assert_eq!(word_at(&relocated, index(b_offset)), 5000 + near_pos as isize);
}

#[test]
fn branches_without_op_code() {
    let mut encoder = encoder(false, Dispatch::Direct);
    let label = encoder.new_label();
    assert!(encoder.encode_op(op(1)).is_ok());
    let (a, a_offset) = encoder.encode_branch(label, |offset| offset).unwrap();
    let (b, b_offset) = encoder.encode_branch(label, |offset| offset).unwrap();
    assert_eq!((index(a), index(a_offset)), (W + 1, W + 1));
    assert_eq!((index(b), index(b_offset)), (2 * W + 1, 2 * W + 1));
    assert_eq!(encoder.pin_label(label), Ok(()));
    encoder.update_branch_offsets();
    let ops = encoder.encoded_ops();
    assert_eq!(ops.len(), 4 * W);
    assert_eq!(word_at(ops, W + 1), 3 * W as isize - 1);
    assert_eq!(word_at(ops, 2 * W + 1), 2 * W as isize - 1);
}

#[test]
fn relocation_uses_the_address_of_the_operators() {
    let mut encoder = encoder(false, Dispatch::Direct);
    let label = encoder.new_label();
    let (_, offset) = encoder.encode_branch(label, branch).unwrap();
    assert_eq!(encoder.pin_label(label), Ok(()));
    assert!(encoder.encode_op(op(1)).is_ok());
    encoder.update_branch_offsets();
    let mut ops = encoder.encoded_ops().to_vec().into_boxed_slice();
    let address = ops.as_ptr() as usize;
    encoder.relocate_branch_offsets(&mut ops);
    assert_eq!(word_at(&ops, index(offset)) as usize, address + 2 * W);
    assert_eq!(&ops[..W], &0x200usize.to_le_bytes()[..]);
    assert_eq!(&ops[2 * W..], &encoder.encoded_ops()[2 * W..]);
}

#[test]
fn pinning_pads_for_direct_dispatch() {
    let mut encoder = encoder(false, Dispatch::Direct);
    assert_eq!(encoder.stage_op(op(1)), Ok(None));
    assert_eq!(encoder.commit_staged_if_any(), Ok(()));
    let label = encoder.new_label();
    assert_eq!(encoder.pin_label(label), Ok(()));
    assert_eq!(encoder.encoded_ops().len(), 2 * W);
}

#[test]
fn pinned_label_does_not_move() {
    let mut encoder = encoder(false, Dispatch::Direct);
    let label = encoder.new_label();
    assert_eq!(encoder.pin_label(label), Ok(()));
    assert!(encoder.encode_op(op(1)).is_ok());
    let before = encoder.encoded_ops().to_vec();
    assert_eq!(encoder.pin_label_if_unpinned(label), Ok(()));
    assert_eq!(encoder.encoded_ops(), &before[..]);
    let (item, offset) = encoder.encode_branch(label, branch).unwrap();
    assert_eq!(word_at(encoder.encoded_ops(), index(offset)), -(index(item) as isize));
}

#[test]
fn allocations_are_reused() {
    let mut first = encoder(true, Dispatch::Direct);
    let label = first.new_label();
    assert!(first.encode_branch(label, branch).is_ok());
    let mut allocations = first.into_allocations();
    allocations.reset();
    let mut second = OpEncoder::new(&engine(false, Dispatch::Indirect), allocations);
    assert!(second.encoded_ops().is_empty());
    assert!(second.encode_op(op(1)).is_ok());
    second.update_branch_offsets();
    let mut ops = second.encoded_ops().to_vec();
    second.relocate_branch_offsets(&mut ops);
    assert_eq!(ops, vec![0x0a, 0, 1]);
}

#[test]
fn default_encoder_is_empty() {
    let encoder = OpEncoder::default();
    assert_eq!(encoder.peek_staged(), None);
    assert!(encoder.encoded_ops().is_empty());
}

#[test]
fn label_registry() {
    let mut labels = LabelRegistry::default();
    let a = labels.new_label();
    let b = labels.new_label();
    assert_ne!(a, b);
    assert!(!labels.is_pinned(a));
    assert!(matches!(labels.get_label(a), Label::Unpinned));
    labels.new_user(a, BytePos::from(1), Pos::from(BytePos::from(2)));
    labels.pin_label(a, Pos::from(BytePos::from(30)));
    labels.pin_label_if_unpinned(a, Pos::from(BytePos::from(40)));
    labels.pin_label_if_unpinned(b, Pos::from(BytePos::from(50)));
    assert!(matches!(labels.get_label(a), Label::Pinned(pos) if index(pos) == 30));
    assert!(matches!(labels.get_label(b), Label::Pinned(pos) if index(pos) == 50));
    let users = labels.resolved_users();
    assert_eq!(users.len(), 1);
    assert_eq!(usize::from(users[0].src), 1);
    assert_eq!(index(users[0].pos), 2);
    assert_eq!(index(users[0].dst), 30);
    labels.reset();
    assert!(labels.resolved_users().is_empty());
}

#[test]
fn errors_convert() {
    assert_eq!(
        Error::from(TranslationError::OutOfSystemMemory),
        Error::Translation(TranslationError::OutOfSystemMemory)
    );
    let mut fuel = BlockFuel::from(u64::MAX);
    let error = fuel.bump_by(1).unwrap_err();
    assert_eq!(
        Error::from(error),
        Error::Translation(TranslationError::BlockFuelOutOfBounds)
    );
}
