//! The buffer of encoded operators and its in-place updates.
use crate::emit::{self, Encoder, SliceEncoder, WriteBytes};
use crate::engine::TranslationError;
use crate::ir::{self, BlockFuel, BranchOffset, Decode, Dispatch, Encode, OpCode, Operand, Piece};
use crate::pos::{BytePos, Pos};
use crate::reuse::Reset;
use crate::word;
use core::marker::PhantomData;
use vstd::prelude::*;
use vstd::string::*;

verus! {

/// Model of a registered branch.
pub struct BranchState {
    /// The position of the encoded item that stores the branch offset.
    pub src: nat,
    /// The position of the encoded branch offset.
    pub pos: nat,
}

/// Model of a reported position.
pub enum ReportState {
    /// The position of a branch offset.
    BranchOffset(nat),
    /// The position of the fuel of a block.
    BlockFuel(nat),
}

/// Model of [`EncodedOps`].
#[verifier::ext_equal]
pub struct OpsState {
    /// The encoded bytes.
    pub buffer: Seq<u8>,
    /// The reported position that has not been taken yet.
    pub temp: Option<ReportState>,
    /// The registered branches.
    pub branch_offsets: Seq<BranchState>,
    /// The operator dispatch technique that op-codes are encoded for.
    pub dispatch: Dispatch,
}

/// The alignment of operators that are dispatched directly.
///
/// It is the alignment of function pointers, which are aligned as machine words are.
pub open spec fn op_align() -> nat {
    vstd::layout::align_of::<usize>()
}

/// The smallest multiple of the operator alignment that is not less than `len`.
pub open spec fn aligned_len(len: nat) -> nat {
    if len % op_align() == 0 {
        len
    } else {
        (len + (op_align() - len % op_align())) as nat
    }
}

/// The aligned length is a multiple of the operator alignment.
pub proof fn lemma_aligned_len(len: nat)
    ensures
        op_align() > 0,
        aligned_len(len) % op_align() == 0,
        len <= aligned_len(len) < len + op_align(),
{
    broadcast use vstd::layout::align_nonzero;

    let a = op_align() as int;
    let r = len as int % a;
    let target = aligned_len(len) as int;
    assert(0 <= r < a) by (nonlinear_arith)
        requires
            a > 0,
            r == len as int % a,
    ;
    if r != 0 {
        let q = len as int / a;
        assert(target == a * (q + 1)) by (nonlinear_arith)
            requires
                a > 0,
                q == len as int / a,
                r == len as int % a,
                target == len + (a - r),
        ;
        vstd::arithmetic::div_mod::lemma_mod_multiples_basic(q + 1, a);
        assert((q + 1) * a == a * (q + 1)) by (nonlinear_arith);
    }
}

/// No multiple of the operator alignment lies between a length and its aligned length.
pub proof fn lemma_no_multiple_before(len: nat, multiple: nat)
    requires
        len <= multiple <= aligned_len(len),
        multiple % op_align() == 0,
    ensures
        multiple == aligned_len(len),
{
    lemma_aligned_len(len);
    let a = op_align() as int;
    let r = len as int % a;
    if r != 0 && multiple < aligned_len(len) {
        let q = len as int / a;
        let d = multiple - len;
        assert(multiple as int == a * q + (r + d)) by (nonlinear_arith)
            requires
                a > 0,
                q == len as int / a,
                r == len as int % a,
                d == multiple - len,
        ;
        vstd::arithmetic::div_mod::lemma_mod_multiples_vanish(q, r + d, a);
        vstd::arithmetic::div_mod::lemma_small_mod((r + d) as nat, a as nat);
    }
}

/// `len` bytes that are zero.
pub open spec fn zeros(len: nat) -> Seq<u8> {
    Seq::new(len, |i: int| 0u8)
}

/// The branches that remain after removing trailing branches at `len` and behind.
pub open spec fn truncated_branches(branches: Seq<BranchState>, len: nat) -> Seq<BranchState>
    decreases branches.len(),
{
    if branches.len() == 0 || branches.last().pos < len {
        branches
    } else {
        truncated_branches(branches.drop_last(), len)
    }
}

/// Whether `branches` end at `len` or before, are ordered and do not overlap.
pub open spec fn branches_wf(branches: Seq<BranchState>, len: nat) -> bool {
    &&& forall|i: int|
        0 <= i < branches.len() ==> {
            &&& (#[trigger] branches[i]).src <= branches[i].pos
            &&& branches[i].pos + word::word_len() <= len
        }
    &&& forall|i: int, j: int|
        0 <= i < j < branches.len() ==> (#[trigger] branches[i]).pos + word::word_len() <= (
        #[trigger] branches[j]).pos
}

/// Whether the byte at `index` belongs to the branch offset of one of `branches`.
pub open spec fn in_branch_offset(branches: Seq<BranchState>, index: int) -> bool {
    exists|i: int|
        0 <= i < branches.len() && (#[trigger] branches[i]).pos <= index < branches[i].pos
            + word::word_len()
}

/// The bytes that encode the signed machine word that is congruent to `value`.
pub open spec fn signed_word_bytes(value: int) -> Seq<u8> {
    word::le_bytes(word::wrap_usize(value) as nat, word::word_len())
}

/// The encoded operators `ops` residing at the address `base` after the offset of each of
/// `branches` has been replaced by the address of the target of the branch.
pub open spec fn relocated(ops: Seq<u8>, base: int, branches: Seq<BranchState>) -> Seq<u8>
    decreases branches.len(),
{
    if branches.len() == 0 {
        ops
    } else {
        let before = relocated(ops, base, branches.drop_last());
        let branch = branches.last();
        let target = base + branch.src + word::signed_word_at(before, branch.pos);
        word::splice(before, branch.pos, signed_word_bytes(target))
    }
}

impl OpsState {
    /// No encoded operators.
    pub open spec fn empty(dispatch: Dispatch) -> Self {
        OpsState { buffer: Seq::empty(), temp: None, branch_offsets: Seq::empty(), dispatch }
    }

    /// Whether the branches are within the bounds of the buffer, ordered and do not overlap.
    pub open spec fn wf(self) -> bool {
        branches_wf(self.branch_offsets, self.buffer.len())
    }

    /// Whether all branches end at `len` or before.
    pub open spec fn branches_within(self, len: nat) -> bool {
        forall|i: int|
            0 <= i < self.branch_offsets.len() ==> (#[trigger] self.branch_offsets[i]).pos
                + word::word_len() <= len
    }

    /// The position that is reported and not taken after encoding `pieces`.
    pub open spec fn reported_after(self, pieces: Seq<Piece>) -> Option<ReportState>
        decreases pieces.len(),
    {
        if pieces.len() == 0 {
            self.temp
        } else {
            let start = self.buffer.len() + ir::encoding(pieces.drop_last(), self.dispatch).len();
            if pieces.last().is_branch_offset() {
                Some(ReportState::BranchOffset(start))
            } else if pieces.last().is_block_fuel() {
                Some(ReportState::BlockFuel(start))
            } else {
                self.reported_after(pieces.drop_last())
            }
        }
    }

    /// The encoded operators after encoding `pieces`.
    pub open spec fn emitted(self, pieces: Seq<Piece>) -> Self {
        OpsState {
            buffer: self.buffer + ir::encoding(pieces, self.dispatch),
            temp: self.reported_after(pieces),
            ..self
        }
    }

    /// The length of the buffer at which the next operator starts.
    pub open spec fn next_op_pos(self) -> nat {
        match self.dispatch {
            Dispatch::Direct => aligned_len(self.buffer.len()),
            Dispatch::Indirect => self.buffer.len(),
        }
    }

    /// The encoded operators after padding the buffer for the next operator.
    pub open spec fn padded(self) -> Self {
        OpsState {
            buffer: self.buffer + zeros((self.next_op_pos() - self.buffer.len()) as nat),
            ..self
        }
    }

    /// The encoded operators without everything that was encoded at `len` and behind.
    pub open spec fn truncated(self, len: nat) -> Self {
        OpsState {
            buffer: self.buffer.take(len as int),
            branch_offsets: truncated_branches(self.branch_offsets, len),
            ..self
        }
    }

    /// The encoded operators with another registered branch.
    pub open spec fn registered(self, src: nat, pos: nat) -> Self {
        OpsState { branch_offsets: self.branch_offsets.push(BranchState { src, pos }), ..self }
    }

    /// The encoded operators after overwriting the bytes from `at` on with `new`.
    pub open spec fn patched(self, at: nat, new: Seq<u8>) -> Self {
        OpsState { buffer: word::splice(self.buffer, at, new), ..self }
    }
}

/// The position of an encoded branch offset and of its branch operator.
#[derive(Debug, Copy, Clone)]
struct EncodedBranchOffset {
    /// The position of the encoded item that stores the branch offset.
    ///
    /// This is the position that the branch offset is relative to.
    src: BytePos,
    /// The position of the encoded branch offset itself.
    pos: Pos<BranchOffset>,
}

/// A position of an encoded item that needs to be reported back.
#[derive(Debug, Copy, Clone)]
pub enum ReportingPos {
    /// The reported item is a branch offset.
    BranchOffset(Pos<BranchOffset>),
    /// The reported item is the fuel of a block.
    BlockFuel(Pos<BlockFuel>),
}

impl View for ReportingPos {
    type V = ReportState;

    open spec fn view(&self) -> ReportState {
        match self {
            ReportingPos::BranchOffset(pos) => ReportState::BranchOffset(pos@),
            ReportingPos::BlockFuel(pos) => ReportState::BlockFuel(pos@),
        }
    }
}

/// The bytes of encoded operators and the branches among them.
#[derive(Debug)]
pub struct EncodedOps {
    /// The encoded bytes.
    buffer: Vec<u8>,
    /// The reported position that has not been taken yet.
    temp: Option<ReportingPos>,
    /// The positions of all encoded branch offsets and their branch operators.
    ///
    /// This is required to relocate all encoded branch offsets into absolute branch targets once
    /// the encoded operators reside in their final, address stable allocation.
    branch_offsets: Vec<EncodedBranchOffset>,
    /// The operator dispatch technique that op-codes are encoded for.
    technique: Dispatch,
}

impl EncodedBranchOffset {
    spec fn state(self) -> BranchState {
        BranchState { src: self.src@, pos: self.pos@ }
    }
}

impl View for EncodedOps {
    type V = OpsState;

    closed spec fn view(&self) -> OpsState {
        OpsState {
            buffer: self.buffer@,
            temp: match self.temp {
                Some(pos) => Some(pos@),
                None => None,
            },
            branch_offsets: Seq::new(
                self.branch_offsets@.len(),
                |i: int| self.branch_offsets@[i].state(),
            ),
            dispatch: self.technique,
        }
    }
}

impl Default for EncodedOps {
    fn default() -> (ops: Self)
        ensures
            ops@ == OpsState::empty(Dispatch::Direct),
    {
        let ops = EncodedOps {
            buffer: Vec::new(),
            temp: None,
            branch_offsets: Vec::new(),
            technique: Dispatch::Direct,
        };
        assert(ops@ =~= OpsState::empty(Dispatch::Direct));
        ops
    }
}

impl Reset for EncodedOps {
    fn reset(&mut self)
        ensures
            final(self)@ == (OpsState {
                buffer: Seq::empty(),
                branch_offsets: Seq::empty(),
                ..old(self)@
            }),
    {
        self.buffer.clear();
        self.branch_offsets.clear();
        assert(self@.branch_offsets =~= Seq::empty());
    }
}

impl EncodedOps {
    /// Sets the operator dispatch technique that op-codes are encoded for.
    pub fn set_dispatch(&mut self, dispatch: Dispatch)
        ensures
            final(self)@ == (OpsState { dispatch, ..old(self)@ }),
    {
        self.technique = dispatch;
    }

    /// Returns the encoded bytes.
    pub fn bytes(&self) -> (bytes: &[u8])
        ensures
            bytes@ == self@.buffer,
    {
        self.buffer.as_slice()
    }

    /// Returns the next [`BytePos`].
    #[must_use]
    pub fn next_pos(&self) -> (pos: BytePos)
        ensures
            pos@ == self@.buffer.len(),
    {
        BytePos::from(self.buffer.len())
    }

    /// Takes the reported position if any exists.
    #[must_use]
    pub fn take_reporting_pos(&mut self) -> (pos: Option<ReportingPos>)
        ensures
            match pos {
                Some(pos) => old(self)@.temp == Some(pos@),
                None => old(self)@.temp is None,
            },
            final(self)@ == (OpsState { temp: None, ..old(self)@ }),
    {
        let pos = self.temp.take();
        assert(self@.branch_offsets =~= old(self)@.branch_offsets);
        pos
    }

    /// Registers the encoded branch offset at `pos` of the branch operator at `src`.
    pub fn register_branch_offset(&mut self, src: BytePos, pos: Pos<BranchOffset>)
        ensures
            final(self)@ == old(self)@.registered(src@, pos@),
    {
        self.branch_offsets.push(EncodedBranchOffset { src, pos });
        assert(self@.branch_offsets =~= old(self)@.registered(src@, pos@).branch_offsets);
    }

    /// Truncates the buffer to `pos`.
    ///
    /// This clears everything that has been encoded to `self` after `pos`.
    pub fn truncate(&mut self, pos: BytePos)
        requires
            pos@ <= old(self)@.buffer.len(),
        ensures
            final(self)@ == old(self)@.truncated(pos@),
    {
        let new_len: usize = usize::from(pos);
        self.buffer.truncate(new_len);
        assert(self@.branch_offsets =~= old(self)@.branch_offsets);
        loop
            invariant
                new_len == pos@,
                self@.buffer == old(self)@.buffer.take(new_len as int),
                self@.temp == old(self)@.temp,
                self@.dispatch == old(self)@.dispatch,
                truncated_branches(self@.branch_offsets, new_len as nat) == truncated_branches(
                    old(self)@.branch_offsets,
                    new_len as nat,
                ),
            ensures
                self@.branch_offsets == truncated_branches(
                    old(self)@.branch_offsets,
                    new_len as nat,
                ),
            decreases self@.branch_offsets.len(),
        {
            let len: usize = self.branch_offsets.len();
            if len == 0 {
                break ;
            }
            let last = self.branch_offsets[len - 1];
            assert(self@.branch_offsets.last() == last.state());
            if usize::from(BytePos::from(last.pos)) < new_len {
                break ;
            }
            let ghost before = self@.branch_offsets;
            self.branch_offsets.pop();
            assert(self@.branch_offsets =~= before.drop_last());
        }
    }

    /// Pads the buffer with zero bytes until its length is aligned for the next operator.
    ///
    /// Does nothing if the buffer is already aligned or if operators are packed.
    pub fn pad_to_op_alignment(&mut self)
        ensures
            final(self)@ == old(self)@.padded(),
    {
        let align: usize = core::mem::align_of::<usize>();
        match self.technique {
            Dispatch::Indirect => {
                assert(self@.padded().buffer =~= self@.buffer);
                return ;
            },
            Dispatch::Direct => {},
        }
        let ghost target = old(self)@.next_op_pos();
        proof {
            lemma_aligned_len(old(self)@.buffer.len());
            assert(self@.buffer =~= old(self)@.buffer + zeros(0));
        }
        while self.buffer.len() % align != 0
            invariant
                align == op_align(),
                align > 0,
                target % op_align() == 0,
                target == aligned_len(old(self)@.buffer.len()),
                old(self)@.buffer.len() <= self@.buffer.len() <= target,
                self@ == (OpsState {
                    buffer: old(self)@.buffer + zeros(
                        (self@.buffer.len() - old(self)@.buffer.len()) as nat,
                    ),
                    ..old(self)@
                }),
            decreases target - self@.buffer.len(),
        {
            let ghost before = self@.buffer;
            self.buffer.push(0);
            assert(self@.buffer =~= old(self)@.buffer + zeros(
                (self@.buffer.len() - old(self)@.buffer.len()) as nat,
            ));
            assert(self@.branch_offsets =~= old(self)@.branch_offsets);
        }
        proof {
            lemma_no_multiple_before(old(self)@.buffer.len(), self@.buffer.len());
        }
    }
}

impl EncodedOps {
    /// Appends `bytes` if memory for them could be `reserved`.
    ///
    /// # Errors
    ///
    /// If memory for `bytes` could not be reserved.
    pub fn write_reserved(&mut self, bytes: &[u8], reserved: bool) -> (result: Result<
        BytePos,
        TranslationError,
    >)
        ensures
            match result {
                Ok(pos) => {
                    &&& reserved
                    &&& pos@ == old(self)@.buffer.len()
                    &&& final(self)@ == (OpsState {
                        buffer: old(self)@.buffer + bytes@,
                        ..old(self)@
                    })
                },
                Err(error) => {
                    &&& !reserved
                    &&& error == TranslationError::OutOfSystemMemory
                    &&& final(self)@ == old(self)@
                },
            },
    {
        let pos: usize = self.buffer.len();
        if !reserved {
            return Err(TranslationError::OutOfSystemMemory);
        }
        self.buffer.extend_from_slice(bytes);
        assert(self@.buffer =~= old(self)@.buffer + bytes@);
        Ok(BytePos::new(pos))
    }
}

/// Whether `Vec::try_reserve` may return `Ok` if `reserved`, and an error otherwise, for
/// `additional` bytes behind `buffer`.
pub open spec fn may_reserve(buffer: Seq<u8>, additional: nat, reserved: bool) -> bool {
    exists|vec: &mut Vec<u8>, len: usize, outcome: Result<(), std::collections::TryReserveError>|
        {
            &&& vec@ == buffer
            &&& len == additional
            &&& outcome is Ok == reserved
            &&& #[trigger] call_ensures(Vec::<u8>::try_reserve, (vec, len), outcome)
        }
}

impl WriteBytes for EncodedOps {
    type Pos = BytePos;

    type Error = TranslationError;

    open spec fn technique(&self) -> Dispatch {
        self@.dispatch
    }

    open spec fn writes(
        &self,
        bytes: Seq<u8>,
        after: &Self,
        result: Result<BytePos, TranslationError>,
    ) -> bool {
        match result {
            Ok(pos) => {
                &&& pos@ == self@.buffer.len()
                &&& after@ == (OpsState { buffer: self@.buffer + bytes, ..self@ })
            },
            Err(error) => {
                &&& error == TranslationError::OutOfSystemMemory
                &&& after@ == self@
            },
        }
    }

    fn dispatch(&self) -> (dispatch: Dispatch) {
        self.technique
    }

    /// Appends `bytes` to the buffer.
    ///
    /// Whether there is enough memory is up to the allocator.
    fn write_bytes(&mut self, bytes: &[u8]) -> (result: Result<BytePos, TranslationError>)
        ensures
            may_reserve(old(self)@.buffer, bytes@.len(), result is Ok),
    {
        let outcome = self.buffer.try_reserve(bytes.len());
        let reserved: bool = !outcome.is_err();
        self.write_reserved(bytes, reserved)
    }
}

/// Whether writing `bytes` to encoded operators in the given state may fail.
pub open spec fn write_may_fail(state: OpsState, bytes: Seq<u8>) -> bool {
    exists|before: EncodedOps| before@ == state && #[trigger] emit::write_may_fail(before, bytes)
}

impl Encoder for EncodedOps {
    open spec fn can_report(&self) -> bool {
        self@.temp is None
    }

    open spec fn reports_branch_offset(&self, pos: BytePos, after: &Self) -> bool {
        after@ == (OpsState { temp: Some(ReportState::BranchOffset(pos@)), ..self@ })
    }

    open spec fn reports_block_fuel(&self, pos: BytePos, after: &Self) -> bool {
        after@ == (OpsState { temp: Some(ReportState::BlockFuel(pos@)), ..self@ })
    }

    fn encode_op_code(&mut self, code: OpCode) -> (result: Result<BytePos, TranslationError>)
        ensures
            result is Err ==> write_may_fail(
                old(self)@,
                Piece::OpCode(code).bytes(old(self)@.dispatch),
            ),
    {
        emit::encode_op_code(self, code)
    }

    fn branch_offset(&mut self, pos: BytePos, _branch_offset: BranchOffset) -> (result: Result<
        (),
        TranslationError,
    >) {
        self.temp = Some(ReportingPos::BranchOffset(Pos::from(pos)));
        Ok(())
    }

    fn block_fuel(&mut self, pos: BytePos, _block_fuel: BlockFuel) -> (result: Result<
        (),
        TranslationError,
    >) {
        self.temp = Some(ReportingPos::BlockFuel(Pos::from(pos)));
        Ok(())
    }
}

impl OpsState {
    /// Encoding another piece after `pieces`.
    proof fn lemma_emitted_push(self, pieces: Seq<Piece>, piece: Piece)
        ensures
            self.emitted(pieces.push(piece)) == self.emitted(pieces).emitted(seq![piece]),
            self.emitted(pieces).emitted(seq![piece]).buffer == self.emitted(pieces).buffer
                + piece.bytes(self.dispatch),
    {
        let all = pieces.push(piece);
        assert(all.drop_last() =~= pieces);
        let middle = self.emitted(pieces);
        let single = seq![piece];
        ir::lemma_encoding_single(piece, self.dispatch);
        assert(single.drop_last() =~= Seq::<Piece>::empty());
        reveal_with_fuel(OpsState::reported_after, 2);
        reveal_with_fuel(ir::encoding, 2);
        assert(self.emitted(all).buffer =~= middle.emitted(single).buffer);
        assert(self.emitted(all).temp == middle.emitted(single).temp);
    }

    /// Encoding pieces whose positions are not reported keeps the reported position.
    pub proof fn lemma_silent_keeps_report(self, pieces: Seq<Piece>)
        requires
            ir::is_silent(pieces),
        ensures
            self.reported_after(pieces) == self.temp,
        decreases pieces.len(),
    {
        if pieces.len() > 0 {
            assert(!pieces[pieces.len() - 1].is_reported());
            assert forall|i: int| 0 <= i < pieces.drop_last().len() implies !(
            #[trigger] pieces.drop_last()[i]).is_reported() by {
                assert(!pieces[i].is_reported());
            }
            self.lemma_silent_keeps_report(pieces.drop_last());
        }
    }
}

impl OpsState {
    /// Encoding a branch reports the position of its branch offset.
    pub proof fn lemma_branch_is_reported(self, pieces: Seq<Piece>, index: int)
        requires
            ir::reports_branch_at(pieces, index),
        ensures
            self.reported_after(pieces) == Some(
                ReportState::BranchOffset(
                    self.buffer.len() + ir::encoding(pieces.take(index), self.dispatch).len(),
                ),
            ),
            ir::reports_once(pieces),
        decreases pieces.len(),
    {
        let front = pieces.drop_last();
        if index == pieces.len() - 1 {
            assert(front =~= pieces.take(index));
        } else {
            assert(!pieces[pieces.len() - 1].is_reported());
            assert forall|i: int| 0 <= i < front.len() && i != index implies !(
            #[trigger] front[i]).is_reported() by {
                assert(!pieces[i].is_reported());
            }
            self.lemma_branch_is_reported(front, index);
            assert(front.take(index) =~= pieces.take(index));
        }
    }

    /// Truncating behind all branches keeps them.
    pub proof fn lemma_truncate_keeps_branches(self, len: nat)
        requires
            self.branches_within(len),
        ensures
            self.truncated(len).branch_offsets == self.branch_offsets,
    {
        if self.branch_offsets.len() > 0 {
            assert(self.branch_offsets[self.branch_offsets.len() - 1].pos + word::word_len()
                <= len);
        }
    }
}

impl EncodedOps {
    /// Encodes `piece` and reports its position if needed.
    fn encode_piece(&mut self, piece: Piece) -> (result: Result<(), TranslationError>)
        requires
            piece.is_reported() ==> old(self)@.temp is None,
        ensures
            match result {
                Ok(()) => final(self)@ == old(self)@.emitted(seq![piece]),
                Err(error) => {
                    &&& error == TranslationError::OutOfSystemMemory
                    &&& final(self)@ == old(self)@
                    &&& write_may_fail(old(self)@, piece.bytes(old(self)@.dispatch))
                },
            },
    {
        let ghost before = self@;
        proof {
            ir::lemma_encoding_single(piece, before.dispatch);
            assert(seq![piece].drop_last() =~= Seq::<Piece>::empty());
            reveal_with_fuel(OpsState::reported_after, 2);
            reveal_with_fuel(ir::encoding, 2);
        }
        match piece {
            Piece::OpCode(code) => match self.encode_op_code(code) {
                Ok(_) => Ok(()),
                Err(error) => Err(error),
            },
            Piece::Operand(operand) => match emit::write_piece(self, piece) {
                Ok(pos) => match operand {
                    Operand::BranchOffset(offset) => self.branch_offset(pos, offset),
                    Operand::BlockFuel(fuel) => self.block_fuel(pos, fuel),
                    _ => Ok(()),
                },
                Err(error) => Err(error),
            },
        }
    }

    /// Encodes `item` at the end of the buffer and returns its position.
    ///
    /// # Errors
    ///
    /// If there is not enough memory for one of the pieces of `item`. The pieces before it have
    /// been encoded then.
    pub fn encode<T: Encode>(&mut self, item: &T) -> (result: Result<BytePos, TranslationError>)
        requires
            old(self)@.temp is None || ir::is_silent(item.pieces()),
            ir::reports_once(item.pieces()),
        ensures
            match result {
                Ok(pos) => {
                    &&& pos@ == old(self)@.buffer.len()
                    &&& final(self)@ == old(self)@.emitted(item.pieces())
                },
                Err(error) => {
                    &&& error == TranslationError::OutOfSystemMemory
                    &&& exists|count: int|
                        {
                            &&& 0 <= count < item.pieces().len()
                            &&& final(self)@ == #[trigger] old(self)@.emitted(
                                item.pieces().take(count),
                            )
                            &&& write_may_fail(
                                final(self)@,
                                item.pieces()[count].bytes(old(self)@.dispatch),
                            )
                        }
                },
            },
    {
        let pos = self.next_pos();
        let count: usize = item.piece_count();
        let ghost pieces = item.pieces();
        let ghost before = self@;
        let mut i: usize = 0;
        assert(pieces.take(0) =~= Seq::<Piece>::empty());
        assert(before.emitted(Seq::<Piece>::empty()).buffer =~= before.buffer);
        while i < count
            invariant
                i <= count == pieces.len(),
                pieces == item.pieces(),
                before == old(self)@,
                before.temp is None || ir::is_silent(pieces),
                ir::reports_once(pieces),
                self@ == before.emitted(pieces.take(i as int)),
            decreases count - i,
        {
            let piece = item.piece(i);
            let ghost done = pieces.take(i as int);
            proof {
                if piece.is_reported() {
                    assert forall|j: int| 0 <= j < done.len() implies !(
                    #[trigger] done[j]).is_reported() by {
                        assert(pieces[j] == done[j]);
                        assert(pieces[i as int].is_reported());
                    }
                    assert(pieces[i as int].is_reported());
                    before.lemma_silent_keeps_report(done);
                }
                before.lemma_emitted_push(done, piece);
                assert(done.push(piece) =~= pieces.take(i + 1));
            }
            match self.encode_piece(piece) {
                Ok(()) => {},
                Err(error) => {
                    return Err(error);
                },
            }
            i = i + 1;
        }
        assert(pieces.take(i as int) =~= pieces);
        Ok(pos)
    }
}

/// Kinds of errors indicating that in-place updating of encoded items failed.
#[derive(Debug, Copy, Clone, PartialEq, Eq, Structural)]
pub enum UpdateEncodedErrorKind {
    /// Buffer is out of bounds for the position of the update.
    BufferOutOfBounds,
    /// Failed to decode the encoded item.
    FailedToDecode,
    /// Failed to encode the updated item.
    FailedToEncode,
    /// Failed to update the encoded item.
    FailedToUpdateEncoded,
}

impl EncodedOps {
    /// Updates a value of type `T` at `pos` using `f` in the encoded buffer.
    ///
    /// # Errors
    ///
    /// - If the underlying bytes buffer is out of bounds for `pos`.
    /// - If decoding of `T` at `pos` fails.
    /// - If encoding of `T` at `pos` fails.
    /// - If `f(value)` returns `None` and thus updating failed.
    pub fn update_encoded_or_err<T: Decode + Encode>(
        &mut self,
        pos: Pos<T>,
        f: impl FnOnce(T) -> Option<T>,
    ) -> (result: Result<(), UpdateEncodedErrorKind>)
        requires
            pos@ <= old(self)@.buffer.len() ==> match T::decoded(
                old(self)@.buffer.skip(pos@ as int),
            ) {
                Some(value) => f.requires((value,)),
                None => true,
            },
        ensures
            ({
                let tail = old(self)@.buffer.skip(pos@ as int);
                if old(self)@.buffer.len() < pos@ {
                    &&& result == Err::<(), _>(UpdateEncodedErrorKind::BufferOutOfBounds)
                    &&& final(self)@ == old(self)@
                } else if T::decoded(tail) is None {
                    &&& result == Err::<(), _>(UpdateEncodedErrorKind::FailedToDecode)
                    &&& final(self)@ == old(self)@
                } else {
                    exists|updated: Option<T>| #[trigger]
                        f.ensures((T::decoded(tail)->0,), updated) && match updated {
                            None => {
                                &&& result == Err::<(), _>(
                                    UpdateEncodedErrorKind::FailedToUpdateEncoded,
                                )
                                &&& final(self)@ == old(self)@
                            },
                            Some(value) => {
                                let (bytes, fits) = emit::overwritten_by_all(
                                    tail,
                                    value.pieces(),
                                    old(self)@.dispatch,
                                );
                                &&& result == (if fits {
                                    Ok::<(), _>(())
                                } else {
                                    Err(UpdateEncodedErrorKind::FailedToEncode)
                                })
                                &&& final(self)@ == (OpsState {
                                    buffer: old(self)@.buffer.take(pos@ as int) + bytes,
                                    ..old(self)@
                                })
                            },
                        }
                }
            }),
    {
        let at: usize = usize::from(BytePos::from(pos));
        if self.buffer.len() < at {
            return Err(UpdateEncodedErrorKind::BufferOutOfBounds);
        }
        let ghost before = self@;
        let ghost tail = self@.buffer.skip(at as int);
        let technique: Dispatch = self.technique;
        let (_, buffer) = self.buffer.as_mut_slice().split_at_mut(at);
        assert(buffer@ =~= tail);
        let decoded: T = match T::decode(&*buffer) {
            Ok(decoded) => decoded,
            Err(_) => {
                return Err(UpdateEncodedErrorKind::FailedToDecode);
            },
        };
        let updated: T = match f(decoded) {
            Some(updated) => updated,
            None => {
                return Err(UpdateEncodedErrorKind::FailedToUpdateEncoded);
            },
        };
        let mut encoder = SliceEncoder::new(buffer, technique);
        if encoder.encode(&updated).is_err() {
            return Err(UpdateEncodedErrorKind::FailedToEncode);
        }
        Ok(())
    }
}

impl UpdateEncodedErrorKind {
    /// The message of the error.
    pub open spec fn message_text(self) -> Seq<char> {
        match self {
            UpdateEncodedErrorKind::BufferOutOfBounds => "buffer out of bounds"@,
            UpdateEncodedErrorKind::FailedToDecode => "failed to decode"@,
            UpdateEncodedErrorKind::FailedToEncode => "failed to encode"@,
            UpdateEncodedErrorKind::FailedToUpdateEncoded => "failed to update encoded"@,
        }
    }
}

/// Error indicating that in-place updating of encoded items failed.
#[derive(Debug)]
pub struct UpdateEncodedError<T> {
    /// The underlying kind of error.
    kind: UpdateEncodedErrorKind,
    /// The type that is decoded, updated and re-encoded.
    marker: PhantomData<T>,
}

impl<T> View for UpdateEncodedError<T> {
    type V = UpdateEncodedErrorKind;

    closed spec fn view(&self) -> UpdateEncodedErrorKind {
        self.kind
    }
}

impl<T> From<UpdateEncodedErrorKind> for UpdateEncodedError<T> {
    fn from(kind: UpdateEncodedErrorKind) -> (error: Self)
        ensures
            error@ == kind,
    {
        Self { kind, marker: PhantomData }
    }
}

impl<T> vstd::std_specs::convert::FromSpecImpl<UpdateEncodedErrorKind> for UpdateEncodedError<T> {
    open spec fn obeys_from_spec() -> bool {
        true
    }

    closed spec fn from_spec(kind: UpdateEncodedErrorKind) -> Self {
        UpdateEncodedError { kind, marker: PhantomData }
    }
}

impl<T> Copy for UpdateEncodedError<T> {

}

impl<T> Clone for UpdateEncodedError<T> {
    fn clone(&self) -> (error: Self)
        ensures
            error == *self,
    {
        *self
    }
}

impl<T> UpdateEncodedError<T> {
    /// Returns the message of the error, which ends with the name of the type `T`.
    pub fn to_string(&self, name: &str) -> (message: String)
        ensures
            message@ == self@.message_text() + ": "@ + name@,
    {
        let mut message = (match self.kind {
            UpdateEncodedErrorKind::BufferOutOfBounds => "buffer out of bounds",
            UpdateEncodedErrorKind::FailedToDecode => "failed to decode",
            UpdateEncodedErrorKind::FailedToEncode => "failed to encode",
            UpdateEncodedErrorKind::FailedToUpdateEncoded => "failed to update encoded",
        }).to_owned();
        message.append(": ");
        message.append(name);
        message
    }
}

/// Overwriting the front of the bytes behind `at` splices the new bytes into the buffer.
pub proof fn lemma_patch_single(buffer: Seq<u8>, at: nat, piece: Piece, dispatch: Dispatch)
    requires
        at + piece.bytes(dispatch).len() <= buffer.len(),
    ensures
        emit::overwritten_by_all(buffer.skip(at as int), seq![piece], dispatch).1,
        buffer.take(at as int) + emit::overwritten_by_all(
            buffer.skip(at as int),
            seq![piece],
            dispatch,
        ).0 == word::splice(buffer, at, piece.bytes(dispatch)),
{
    let new = piece.bytes(dispatch);
    let tail = buffer.skip(at as int);
    assert(seq![piece].skip(1) =~= Seq::<Piece>::empty());
    reveal_with_fuel(emit::overwritten_by_all, 2);
    assert(emit::overwritten_by_all(tail, seq![piece], dispatch) == (
        emit::overwritten(tail, new),
        true,
    ));
    assert(buffer.take(at as int) + emit::overwritten(tail, new) =~= word::splice(buffer, at, new));
}

/// A branch offset is encoded to the bytes of one machine word.
proof fn lemma_branch_offset_bytes(offset: BranchOffset, dispatch: Dispatch)
    ensures
        offset.pieces()[0].bytes(dispatch) == signed_word_bytes(offset@),
        signed_word_bytes(offset@).len() == word::word_len(),
        offset.pieces() == seq![offset.pieces()[0]],
{
    word::lemma_le_bytes_len(word::wrap_usize(offset@) as nat, word::word_len());
}

impl EncodedOps {
    /// Updates an encoded value `v` of type `T` at `pos` in-place using the result of `f(v)`.
    ///
    /// The value must be within the bounds of the buffer and `f` must yield an updated value that
    /// fits into the buffer.
    pub fn update_encoded<T: Decode + Encode>(
        &mut self,
        pos: Pos<T>,
        f: impl FnOnce(T) -> Option<T>,
    )
        requires
            pos@ <= old(self)@.buffer.len(),
            T::decoded(old(self)@.buffer.skip(pos@ as int)) is Some,
            f.requires((T::decoded(old(self)@.buffer.skip(pos@ as int))->0,)),
            forall|updated: Option<T>| #[trigger]
                f.ensures(
                    (T::decoded(old(self)@.buffer.skip(pos@ as int))->0,),
                    updated,
                ) ==> updated is Some && emit::overwritten_by_all(
                    old(self)@.buffer.skip(pos@ as int),
                    updated->0.pieces(),
                    old(self)@.dispatch,
                ).1,
        ensures
            exists|value: T| #[trigger]
                f.ensures(
                    (T::decoded(old(self)@.buffer.skip(pos@ as int))->0,),
                    Some(value),
                ) && final(self)@ == (OpsState {
                    buffer: old(self)@.buffer.take(pos@ as int) + emit::overwritten_by_all(
                        old(self)@.buffer.skip(pos@ as int),
                        value.pieces(),
                        old(self)@.dispatch,
                    ).0,
                    ..old(self)@
                }),
    {
        let result = self.update_encoded_or_err(pos, f);
        assert(result is Ok);
    }

    /// Updates the encoded branch offset at `pos` to `offset`.
    pub fn update_branch_offset(&mut self, pos: Pos<BranchOffset>, offset: BranchOffset)
        requires
            pos@ + word::word_len() <= old(self)@.buffer.len(),
        ensures
            final(self)@ == old(self)@.patched(pos@, signed_word_bytes(offset@)),
    {
        proof {
            BranchOffset::lemma_decoded(self@.buffer.skip(pos@ as int));
            lemma_branch_offset_bytes(offset, self@.dispatch);
            lemma_patch_single(self@.buffer, pos@, offset.pieces()[0], self@.dispatch);
        }
        let replace = |_encoded: BranchOffset| -> (updated: Option<BranchOffset>)
            ensures
                updated == Some(offset),
            { Some(offset) };
        self.update_encoded(pos, replace);
    }

    /// Relocates all encoded branch offsets in `ops` into absolute branch targets for `ops`
    /// residing at the address `base`.
    ///
    /// Since all encoded branch offsets are relative to the encoded item that stores them, their
    /// absolute branch target simply is `base + src + offset`.
    pub fn relocate_branch_offsets_at(&self, ops: &mut [u8], base: usize)
        requires
            self@.branches_within(old(ops)@.len()),
            old(ops)@.len() == self@.buffer.len(),
        ensures
            final(ops)@ == relocated(old(ops)@, base as int, self@.branch_offsets),
    {
        let ghost branches = self@.branch_offsets;
        let ghost before = ops@;
        let mut i: usize = 0;
        assert(branches.take(0) =~= Seq::<BranchState>::empty());
        while i < self.branch_offsets.len()
            invariant
                i <= self.branch_offsets@.len() == branches.len(),
                branches == self@.branch_offsets,
                self@.branches_within(before.len()),
                ops@.len() == before.len(),
                ops@ == relocated(before, base as int, branches.take(i as int)),
            decreases branches.len() - i,
        {
            let EncodedBranchOffset { src, pos } = self.branch_offsets[i];
            let at: usize = usize::from(BytePos::from(pos));
            let ghost current = ops@;
            assert(branches[i as int] == self.branch_offsets@[i as int].state());
            let (_, buffer) = ops.split_at_mut(at);
            proof {
                BranchOffset::lemma_decoded(buffer@);
                assert(word::word_bytes_at(buffer@, 0) =~= word::word_bytes_at(current, at as nat));
            }
            if let Ok(offset) = BranchOffset::decode(&*buffer) {
                let address: usize = base.wrapping_add(usize::from(src)).wrapping_add_signed(
                    isize::from(offset),
                );
                let target = BranchOffset::from(word::isize_from_bits(address));
                proof {
                    word::lemma_wrapping_sum(base as int, src@ as int, offset@, address as int);
                    lemma_branch_offset_bytes(target, self@.dispatch);
                    lemma_patch_single(current, at as nat, target.pieces()[0], self@.dispatch);
                }
                let mut encoder = SliceEncoder::new(buffer, self.technique);
                let _ = encoder.encode(&target);
            }
            i = i + 1;
            assert(branches.take(i as int).drop_last() =~= branches.take(i - 1));
        }
        assert(branches.take(i as int) =~= branches);
    }
}

/// Returns the address of the first byte of `ops`.
///
/// Calls `slice::as_mut_ptr` and converts the pointer into its address, which exposes the
/// provenance of the pointer. The reference `ops` does not change: it refers to the same slice as
/// before, whose bytes do not change. The pointer of a slice is not null, and a slice lies within an
/// allocation, which never reaches beyond the last address. Which of the addresses that this leaves
/// is returned is up to the allocator.
#[verifier::external_body]
pub(crate) fn expose_address(ops: &mut &mut [u8]) -> (address: usize)
    ensures
        *final(ops) == *old(ops),
        0 < address,
        address + (*old(ops))@.len() <= usize::MAX,
{
    ops.as_mut_ptr() as usize
}

/// Whether `address` is an address that `expose_address` may return for a slice of `bytes`.
pub closed spec fn may_reside_at(bytes: Seq<u8>, address: usize) -> bool {
    exists|slot: &mut &mut [u8]|
        (*slot)@ == bytes && #[trigger] call_ensures(expose_address, (slot,), address)
}

/// Whether `address` is an address that `expose_address` may return for this very `slice`.
///
/// Slices of the same bytes need not be the same slice.
pub closed spec fn resides_at(slice: &mut [u8], address: usize) -> bool {
    exists|slot: &mut &mut [u8]|
        *slot == slice && #[trigger] call_ensures(expose_address, (slot,), address)
}

/// A slice resides at an address only if a call of `expose_address` for a reference to this very
/// slice returns the address.
pub(crate) proof fn law_resides_at(address: usize)
    ensures
        forall|slice: &mut [u8]| #[trigger]
            resides_at(slice, address) ==> exists|slot: &mut &mut [u8]|
                *slot == slice && #[trigger] call_ensures(expose_address, (slot,), address),
        forall|slot: &mut &mut [u8]| #[trigger]
            call_ensures(expose_address, (slot,), address) ==> {
                &&& *final(slot) == *slot
                &&& 0 < address
                &&& address + (*slot)@.len() <= usize::MAX
            },
{
}

impl EncodedOps {
    /// Relocates all encoded branch offsets in the slice that `ops` refers to into absolute branch
    /// targets for the address of this very slice.
    pub(crate) fn relocate_referred(&self, ops: &mut &mut [u8])
        requires
            self@.branches_within((*old(ops))@.len()),
            (*old(ops))@.len() == self@.buffer.len(),
        ensures
            final(*final(ops))@ == final(*old(ops))@,
            exists|base: usize|
                {
                    &&& resides_at(*old(ops), base)
                    &&& may_reside_at((*old(ops))@, base)
                    &&& 0 < base
                    &&& base + (*old(ops))@.len() <= usize::MAX
                    &&& (*final(ops))@ == #[trigger] relocated(
                        (*old(ops))@,
                        base as int,
                        self@.branch_offsets,
                    )
                },
    {
        let base: usize = expose_address(ops);
        self.relocate_branch_offsets_at(ops, base);
    }

    /// Relocates all encoded branch offsets in `ops` into absolute branch targets.
    ///
    /// The `ops` buffer must be a copy of the encoded operators of `self` that resides in its
    /// final, address stable allocation. The branch targets are relative to the address of this
    /// very buffer. It is up to the allocator, and [`EncodedOps::relocate_branch_offsets_at`] says
    /// what is stored for every address.
    pub fn relocate_branch_offsets(&self, ops: &mut [u8])
        requires
            self@.branches_within(old(ops)@.len()),
            old(ops)@.len() == self@.buffer.len(),
        ensures
            exists|base: usize|
                {
                    &&& resides_at(ops, base)
                    &&& may_reside_at(old(ops)@, base)
                    &&& 0 < base
                    &&& base + old(ops)@.len() <= usize::MAX
                    &&& final(ops)@ == #[trigger] relocated(
                        old(ops)@,
                        base as int,
                        self@.branch_offsets,
                    )
                },
    {
        let mut placed = ops;
        self.relocate_referred(&mut placed);
    }
}

} // verus!
