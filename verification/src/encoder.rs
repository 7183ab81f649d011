//! The encoder of the operators of a function.
use crate::engine::{Engine, Error, TranslationError};
use crate::ir::{self, BlockFuel, BlockFuelOutOfBounds, BranchOffset, Decode, Dispatch, Encode, Op, OpCode,
    Operand, Piece};
use crate::labels::{Label, LabelRef, LabelRegistry, LabelsState, ResolvedLabelUser, UserState};
use crate::laws;
use crate::ops::{self, BranchState, EncodedOps, OpsState, ReportState, ReportingPos,
    UpdateEncodedErrorKind};
use crate::pos::{BytePos, Pos};
use crate::reuse::{Reset, ReusableAllocations};
use crate::session;
use crate::word;
use vstd::prelude::*;

verus! {

/// The staged operator.
#[derive(Debug, Copy, Clone)]
pub struct StagedOp {
    /// The staged operator.
    op: Op,
    /// The position of the encoded staged operator.
    pos: Pos<Op>,
}

/// Model of a [`StagedOp`].
pub struct StagedState {
    /// The staged operator.
    pub op: Op,
    /// The position of the encoded staged operator.
    pub pos: nat,
}

impl View for StagedOp {
    type V = StagedState;

    closed spec fn view(&self) -> StagedState {
        StagedState { op: self.op, pos: self.pos@ }
    }
}

impl StagedOp {
    /// Creates a new [`StagedOp`] from `op`.
    pub fn new(op: Op, pos: Pos<Op>) -> (staged: Self)
        ensures
            staged@ == (StagedState { op, pos: pos@ }),
    {
        Self { op, pos }
    }

    /// Updates the current operator of `self` with `op`.
    ///
    /// There is no need to update the position since it stays the same given that the staged
    /// operator is always last.
    pub fn update(&mut self, op: Op)
        ensures
            final(self)@ == (StagedState { op, ..old(self)@ }),
    {
        self.op = op;
    }
}

/// Model of an [`OpEncoder`].
#[verifier::ext_equal]
pub struct EncoderState {
    /// The staged operator.
    pub staged: Option<StagedState>,
    /// Whether fuel metering is enabled.
    pub consume_fuel: bool,
    /// The op-code of the operator that consumes fuel.
    pub consume_fuel_code: OpCode,
    /// The encoded operators.
    pub ops: OpsState,
    /// The labels and the branches that use them.
    pub labels: LabelsState,
}

impl EncoderState {
    /// The length of the encoded operators that are not staged.
    pub open spec fn committed_len(self) -> nat {
        match self.staged {
            Some(staged) => staged.pos,
            None => self.ops.buffer.len(),
        }
    }

    /// Whether every pinned label is within the operators that are not staged.
    pub open spec fn labels_within(self, len: nat) -> bool {
        forall|i: int|
            0 <= i < self.labels.labels.len() && (#[trigger] self.labels.labels[i]) is Some
                ==> self.labels.labels[i]->0 <= len
    }

    /// Whether every branch that waits for its label is registered and refers to a label, and the
    /// branches are ordered and do not overlap.
    pub open spec fn users_wf(self) -> bool {
        &&& forall|i: int|
            0 <= i < self.labels.users.len() ==> {
                let user = #[trigger] self.labels.users[i];
                &&& self.labels.has_label(user.label)
                &&& self.ops.branch_offsets.contains(BranchState { src: user.src, pos: user.pos })
            }
        &&& forall|i: int, j: int|
            0 <= i < j < self.labels.users.len() ==> (#[trigger] self.labels.users[i]).pos
                + word::word_len() <= (#[trigger] self.labels.users[j]).pos
    }

    /// Whether the state is consistent and no reported position is left.
    pub open spec fn wf(self) -> bool {
        &&& self.ops.temp is None
        &&& self.wf_parts()
    }

    /// Whether the state is consistent apart from a reported position that may be left.
    pub open spec fn wf_parts(self) -> bool {
        &&& self.ops.wf()
        &&& self.committed_len() <= self.ops.buffer.len()
        &&& self.ops.branches_within(self.committed_len())
        &&& self.labels_within(self.committed_len())
        &&& self.users_wf()
    }

    /// Whether the staged operator, if any, is encoded as the last operator.
    pub open spec fn staged_is_last(self) -> bool {
        match self.staged {
            Some(staged) => self.ops.buffer == self.ops.buffer.take(staged.pos as int)
                + ir::encoding(staged.op.pieces(), self.ops.dispatch),
            None => true,
        }
    }

    /// The encoder without a staged operator.
    pub open spec fn committed(self) -> Self {
        EncoderState { staged: None, ..self }
    }

    /// The encoder after padding its operators for the next operator.
    pub open spec fn padded(self) -> Self {
        EncoderState { ops: self.ops.padded(), ..self }
    }

    /// The encoder after encoding `pieces`.
    pub open spec fn emitted(self, pieces: Seq<Piece>) -> Self {
        EncoderState { ops: self.ops.emitted(pieces), ..self }
    }

    /// The encoder after encoding `op` as the last operator without staging it.
    pub open spec fn encoded(self, op: Op) -> Self {
        self.committed().padded().emitted(op.pieces())
    }

    /// The encoder after staging `op`.
    pub open spec fn staged(self, op: Op) -> Self {
        EncoderState {
            staged: Some(StagedState { op, pos: self.ops.next_op_pos() }),
            ..self.encoded(op)
        }
    }

    /// The encoder after dropping the staged operator.
    pub open spec fn dropped(self) -> Self {
        EncoderState { staged: None, ops: self.ops.truncated(self.staged->0.pos), ..self }
    }

    /// The encoder after replacing the staged operator by `op`, of which `pieces` are encoded.
    pub open spec fn replaced(self, op: Op, pieces: Seq<Piece>) -> Self {
        EncoderState {
            staged: Some(StagedState { op, ..self.staged->0 }),
            ops: self.ops.truncated(self.staged->0.pos).emitted(pieces),
            ..self
        }
    }

    /// The encoder after pinning the label to the next operator.
    pub open spec fn pinned(self, label: nat) -> Self {
        let padded = self.padded();
        EncoderState {
            labels: self.labels.with_pinned(label, padded.ops.buffer.len()),
            ..padded
        }
    }

    /// The distance that a branch from the end of the buffer to the label is encoded with.
    pub open spec fn offset_to(self, label: nat) -> int {
        if self.labels.is_pinned(label) {
            word::wrap_isize(self.labels.pinned_at(label) - self.ops.buffer.len())
        } else {
            0
        }
    }

    /// The encoder after encoding a branch to the label as `pieces`, of which the piece at `index`
    /// is the branch offset.
    pub open spec fn branched(self, label: nat, pieces: Seq<Piece>, index: int) -> Self {
        let committed = self.committed();
        let src = self.ops.buffer.len();
        let pos = self.branch_offset_pos(pieces, index);
        EncoderState {
            ops: OpsState { temp: None, ..self.ops.emitted(pieces) }.registered(src, pos),
            labels: if self.labels.is_pinned(label) {
                self.labels
            } else {
                self.labels.with_user(UserState { label, src, pos })
            },
            ..committed
        }
    }

    /// The position of the piece at `index` of a branch that is encoded at the end of the buffer.
    pub open spec fn branch_offset_pos(self, pieces: Seq<Piece>, index: int) -> nat {
        self.ops.buffer.len() + ir::encoding(pieces.take(index), self.ops.dispatch).len()
    }
}

/// Whether branches that wait for their label end at `len` or before, are ordered and do not
/// overlap.
pub open spec fn users_ordered(users: Seq<UserState>, len: nat) -> bool {
    &&& forall|i: int|
        0 <= i < users.len() ==> (#[trigger] users[i]).pos + word::word_len() <= len
    &&& forall|i: int, j: int|
        0 <= i < j < users.len() ==> (#[trigger] users[i]).pos + word::word_len() <= (
        #[trigger] users[j]).pos
}

/// Whether the byte at `index` belongs to the branch offset of one of `users`.
pub open spec fn in_user_offset(users: Seq<UserState>, index: int) -> bool {
    exists|i: int|
        0 <= i < users.len() && (#[trigger] users[i]).pos <= index < users[i].pos
            + word::word_len()
}

/// The encoded bytes `buffer` after storing the distance from each of `users` to its label.
pub open spec fn resolved(buffer: Seq<u8>, labels: LabelsState, users: Seq<UserState>) -> Seq<u8>
    decreases users.len(),
{
    if users.len() == 0 {
        buffer
    } else {
        let user = users.last();
        word::splice(
            resolved(buffer, labels, users.drop_last()),
            user.pos,
            ops::signed_word_bytes(labels.pinned_at(user.label) - user.src),
        )
    }
}

impl EncoderState {
    /// The encoder after storing the distances to the labels of all branches that waited for them.
    pub open spec fn with_resolved_branches(self) -> Self {
        EncoderState {
            ops: OpsState {
                buffer: resolved(self.ops.buffer, self.labels, self.labels.users),
                ..self.ops
            },
            ..self
        }
    }
}

/// Creates an initialized [`BranchOffset`] from `src` to `dst`.
///
/// [`BranchOffset`] is as wide as a pointer and thus can encode any offset within the encoded
/// operators buffer. Therefore this operation cannot fail.
fn trace_branch_offset(src: BytePos, dst: Pos<Op>) -> (offset: BranchOffset)
    ensures
        offset@ == word::wrap_isize(dst@ - src@),
        src@ <= isize::MAX && dst@ <= isize::MAX ==> src@ + offset@ == dst@,
{
    let from: usize = usize::from(src);
    let to: usize = usize::from(BytePos::from(dst));
    let offset: isize = word::isize_from_bits(to).wrapping_sub(word::isize_from_bits(from));
    proof {
        word::lemma_wrapping_difference(to as int, from as int, offset as int);
        if src@ <= isize::MAX && dst@ <= isize::MAX {
            laws::law_branch_offset_is_exact(src@, dst@);
        }
    }
    BranchOffset::from(offset)
}

/// Creates and encodes the buffer of encoded operators for a function.
#[derive(Debug)]
pub struct OpEncoder {
    /// The currently staged operator.
    ///
    /// This allows the last operator to be peeked, inspected and manipulated, for example to
    /// perform op-code fusion or to adjust the result slot. If there is a staged operator, it has
    /// already been encoded as the last operator in `ops`.
    staged: Option<StagedOp>,
    /// This is `true` if fuel metering is enabled.
    consume_fuel: bool,
    /// The op-code of the operator that consumes fuel.
    consume_fuel_code: OpCode,
    /// The list of constructed instructions and their parameters.
    ops: EncodedOps,
    /// Labels and label users for control flow and encoded branch operators.
    labels: LabelRegistry,
}

impl View for OpEncoder {
    type V = EncoderState;

    closed spec fn view(&self) -> EncoderState {
        EncoderState {
            staged: match self.staged {
                Some(staged) => Some(staged@),
                None => None,
            },
            consume_fuel: self.consume_fuel,
            consume_fuel_code: self.consume_fuel_code,
            ops: self.ops@,
            labels: self.labels@,
        }
    }
}

/// The reusable heap allocations of the [`OpEncoder`].
#[derive(Debug)]
pub struct OpEncoderAllocations {
    /// The list of constructed instructions and their parameters.
    ops: EncodedOps,
    /// Labels and label users for control flow and encoded branch operators.
    labels: LabelRegistry,
}

/// Model of [`OpEncoderAllocations`].
#[verifier::ext_equal]
pub struct AllocationsState {
    /// The encoded operators.
    pub ops: OpsState,
    /// The labels and the branches that use them.
    pub labels: LabelsState,
}

impl AllocationsState {
    /// Allocations that store nothing.
    pub open spec fn empty() -> Self {
        AllocationsState {
            ops: OpsState::empty(Dispatch::Direct),
            labels: LabelsState::empty(),
        }
    }

    /// The allocations after resetting them.
    pub open spec fn cleared(self) -> Self {
        AllocationsState {
            ops: OpsState { buffer: Seq::empty(), branch_offsets: Seq::empty(), ..self.ops },
            labels: LabelsState::empty(),
        }
    }
}

impl EncoderState {
    /// A new encoder for `engine` that reuses `allocations`.
    pub open spec fn created(engine: Engine, allocations: AllocationsState) -> Self {
        EncoderState {
            staged: None,
            consume_fuel: engine.config.consume_fuel,
            consume_fuel_code: engine.consume_fuel_code,
            ops: OpsState { dispatch: engine.config.dispatch, ..allocations.ops },
            labels: allocations.labels,
        }
    }
}

impl View for OpEncoderAllocations {
    type V = AllocationsState;

    closed spec fn view(&self) -> AllocationsState {
        AllocationsState { ops: self.ops@, labels: self.labels@ }
    }
}

impl Default for OpEncoderAllocations {
    fn default() -> (allocations: Self)
        ensures
            allocations@ == AllocationsState::empty(),
    {
        OpEncoderAllocations { ops: EncodedOps::default(), labels: LabelRegistry::default() }
    }
}

impl Reset for OpEncoderAllocations {
    fn reset(&mut self)
        ensures
            final(self)@ == old(self)@.cleared(),
    {
        self.ops.reset();
        self.labels.reset();
    }
}

impl Default for OpEncoder {
    fn default() -> (encoder: Self)
        ensures
            encoder@ == (EncoderState {
                staged: None,
                consume_fuel: false,
                consume_fuel_code: OpCode { code: 0, handler: 0 },
                ops: OpsState::empty(Dispatch::Direct),
                labels: LabelsState::empty(),
            }),
            encoder@.wf(),
    {
        OpEncoder {
            staged: None,
            consume_fuel: false,
            consume_fuel_code: OpCode { code: 0, handler: 0 },
            ops: EncodedOps::default(),
            labels: LabelRegistry::default(),
        }
    }
}

impl ReusableAllocations for OpEncoder {
    type Allocations = OpEncoderAllocations;

    fn into_allocations(self) -> (allocations: OpEncoderAllocations)
        ensures
            allocations@ == (AllocationsState { ops: self@.ops, labels: self@.labels }),
    {
        OpEncoderAllocations { ops: self.ops, labels: self.labels }
    }
}

impl OpEncoder {
    /// Creates a new [`OpEncoder`].
    pub fn new(engine: &Engine, alloc: OpEncoderAllocations) -> (encoder: Self)
        ensures
            encoder@ == EncoderState::created(*engine, alloc@),
            alloc@ == alloc@.cleared() && alloc@.ops.temp is None ==> encoder@.wf(),
    {
        let consume_fuel: bool = engine.config().get_consume_fuel();
        let mut ops = alloc.ops;
        ops.set_dispatch(engine.config().get_dispatch());
        Self {
            staged: None,
            consume_fuel,
            consume_fuel_code: engine.consume_fuel_code,
            ops,
            labels: alloc.labels,
        }
    }

    /// Allocates a new unpinned [`Label`].
    pub fn new_label(&mut self) -> (lref: LabelRef)
        ensures
            lref@ == old(self)@.labels.labels.len(),
            final(self)@ == (EncoderState {
                labels: old(self)@.labels.with_label(),
                ..old(self)@
            }),
            old(self)@.wf() ==> final(self)@.wf(),
    {
        self.labels.new_label()
    }

    /// Pins the [`Label`] at `lref` to the current encoded bytestream position.
    ///
    /// There must be no staged operator.
    pub fn pin_label(&mut self, lref: LabelRef) -> (result: Result<(), Error>)
        requires
            old(self)@.wf(),
            old(self)@.staged is None,
            old(self)@.labels.has_label(lref@),
            !old(self)@.labels.is_pinned(lref@),
        ensures
            result == Ok::<(), Error>(()),
            final(self)@ == old(self)@.pinned(lref@),
            final(self)@.wf(),
    {
        self.commit_staged_if_any()?;
        self.pad_to_op_alignment()?;
        let next_pos = Pos::from(self.ops.next_pos());
        self.labels.pin_label(lref, next_pos);
        Ok(())
    }

    /// Pins the [`Label`] at `lref` to the current encoded bytestream position if unpinned.
    ///
    /// Does nothing if the label is already pinned. There must be no staged operator.
    pub fn pin_label_if_unpinned(&mut self, lref: LabelRef) -> (result: Result<(), Error>)
        requires
            old(self)@.wf(),
            old(self)@.staged is None,
            old(self)@.labels.has_label(lref@),
        ensures
            result == Ok::<(), Error>(()),
            old(self)@.labels.is_pinned(lref@) ==> final(self)@ == old(self)@,
            !old(self)@.labels.is_pinned(lref@) ==> final(self)@ == old(self)@.pinned(lref@),
            final(self)@.wf(),
    {
        if self.labels.is_pinned(lref) {
            return Ok(());
        }
        self.pin_label(lref)
    }

    /// Resolves the [`BranchOffset`] to `lref` from the current encoded bytestream position if
    /// `lref` is pinned.
    ///
    /// Returns an uninitialized [`BranchOffset`] if `lref` refers to an unpinned [`Label`].
    fn try_resolve_label(&self, lref: LabelRef) -> (offset: BranchOffset)
        requires
            self@.staged is None,
            self@.labels.has_label(lref@),
        ensures
            offset@ == self@.offset_to(lref@),
    {
        let src = self.ops.next_pos();
        match self.labels.get_label(lref) {
            Label::Pinned(dst) => trace_branch_offset(src, dst),
            Label::Unpinned => BranchOffset::uninit(),
        }
    }

    /// Returns the staged operator if any.
    pub fn peek_staged(&self) -> (op: Option<Op>)
        ensures
            match op {
                Some(op) => self@.staged is Some && op == self@.staged->0.op,
                None => self@.staged is None,
            },
    {
        match self.staged {
            Some(staged) => Some(staged.op),
            None => None,
        }
    }

    /// Commits the staged operator if there is any.
    ///
    /// - After this operation there will be no more staged operator.
    /// - Does nothing if there is no staged operator.
    pub fn commit_staged_if_any(&mut self) -> (result: Result<(), Error>)
        requires
            old(self)@.wf(),
        ensures
            result == Ok::<(), Error>(()),
            final(self)@ == old(self)@.committed(),
            final(self)@.wf(),
    {
        self.staged = None;
        Ok(())
    }

    /// Pads the encoded operator buffer with zero bytes until its length is operator aligned.
    ///
    /// This is used to encode new operators at properly aligned offsets within the buffer. The
    /// alignment is equal to the alignment of function pointers, which are aligned as machine
    /// words are.
    ///
    /// Does nothing if the buffer is already aligned or if dispatch is indirect.
    pub fn pad_to_op_alignment(&mut self) -> (result: Result<(), Error>)
        ensures
            result == Ok::<(), Error>(()),
            final(self)@ == old(self)@.padded(),
            old(self)@.wf() ==> final(self)@.wf(),
    {
        self.ops.pad_to_op_alignment();
        Ok(())
    }
}

/// The error that is returned if there is not enough memory.
pub open spec fn out_of_system_memory() -> Error {
    Error::Translation(TranslationError::OutOfSystemMemory)
}

impl EncoderState {
    /// Whether writing `piece` to the end of the buffer may fail.
    pub open spec fn write_may_fail(self, piece: Piece) -> bool {
        ops::write_may_fail(self.ops, piece.bytes(self.ops.dispatch))
    }

    /// Encoding any number of silent pieces keeps the reported position.
    proof fn lemma_silent_prefixes(self, pieces: Seq<Piece>)
        requires
            ir::is_silent(pieces),
        ensures
            ir::reports_once(pieces),
            self.emitted(pieces).ops.temp == self.ops.temp,
            forall|count: int|
                0 <= count <= pieces.len() ==> (#[trigger] self.emitted(
                    pieces.take(count),
                )).ops.temp == self.ops.temp,
    {
        assert forall|count: int| 0 <= count <= pieces.len() implies (#[trigger] self.emitted(
            pieces.take(count),
        )).ops.temp == self.ops.temp by {
            let prefix = pieces.take(count);
            assert forall|i: int| 0 <= i < prefix.len() implies !(
            #[trigger] prefix[i]).is_reported() by {
                assert(!pieces[i].is_reported());
            }
            self.ops.lemma_silent_keeps_report(prefix);
        }
        self.ops.lemma_silent_keeps_report(pieces);
    }
}

impl OpEncoder {
    /// Encodes `item` to the end of the buffer and returns its position.
    ///
    /// A staged operator is already encoded prior to `item` and is committed, so that there is no
    /// staged operator after this operation.
    fn encode_impl<T: Encode>(&mut self, item: &T) -> (result: Result<Pos<T>, Error>)
        requires
            old(self)@.ops.temp is None,
            ir::reports_once(item.pieces()),
        ensures
            match result {
                Ok(pos) => {
                    &&& pos@ == old(self)@.ops.buffer.len()
                    &&& final(self)@ == old(self)@.committed().emitted(item.pieces())
                },
                Err(error) => {
                    &&& error == out_of_system_memory()
                    &&& exists|count: int|
                        {
                            &&& 0 <= count < item.pieces().len()
                            &&& final(self)@ == #[trigger] old(self)@.committed().emitted(
                                item.pieces().take(count),
                            )
                            &&& final(self)@.write_may_fail(item.pieces()[count])
                        }
                },
            },
    {
        self.staged = None;
        let pos = self.ops.next_pos();
        match self.ops.encode(item) {
            Ok(_) => Ok(Pos::from(pos)),
            Err(error) => {
                proof {
                    let count = choose|count: int|
                        {
                            &&& 0 <= count < item.pieces().len()
                            &&& self.ops@ == #[trigger] old(self)@.ops.emitted(
                                item.pieces().take(count),
                            )
                            &&& ops::write_may_fail(
                                self.ops@,
                                item.pieces()[count].bytes(old(self)@.ops.dispatch),
                            )
                        };
                    assert(self@ == old(self)@.committed().emitted(item.pieces().take(count)));
                }
                Err(Error::from(error))
            },
        }
    }

    /// Sets the staged operator to `new_staged` and commits the previously staged one if any.
    ///
    /// Returns the position of the previously staged operator if any.
    ///
    /// Operators with a branch offset or with the fuel of a block may never be staged.
    ///
    /// # Errors
    ///
    /// If there is not enough memory. No operator is staged then, and some of the pieces of
    /// `new_staged` may have been encoded.
    pub fn stage_op(&mut self, new_staged: Op) -> (result: Result<Option<Pos<Op>>, Error>)
        requires
            old(self)@.wf(),
            ir::is_silent(new_staged.pieces()),
        ensures
            match result {
                Ok(previous) => {
                    &&& final(self)@ == old(self)@.staged(new_staged)
                    &&& match old(self)@.staged {
                        Some(staged) => previous is Some && previous->0@ == staged.pos,
                        None => previous is None,
                    }
                },
                Err(error) => {
                    &&& error == out_of_system_memory()
                    &&& exists|count: int|
                        {
                            &&& 0 <= count < new_staged.pieces().len()
                            &&& final(self)@ == #[trigger] old(self)@.committed().padded().emitted(
                                new_staged.pieces().take(count),
                            )
                            &&& final(self)@.write_may_fail(new_staged.pieces()[count])
                        }
                },
            },
            final(self)@.wf(),
            final(self)@.staged_is_last(),
    {
        let previous = match self.staged {
            Some(staged) => Some(staged.pos),
            None => None,
        };
        self.commit_staged_if_any()?;
        self.pad_to_op_alignment()?;
        let ghost middle = self@;
        proof {
            middle.lemma_silent_prefixes(new_staged.pieces());
        }
        let pos = match self.encode_impl(&new_staged) {
            Ok(pos) => pos,
            Err(error) => {
                return Err(error);
            },
        };
        self.staged = Some(StagedOp::new(new_staged, pos));
        proof {
            assert(self@.ops.buffer.take(pos@ as int) =~= middle.ops.buffer);
        }
        Ok(previous)
    }

    /// Drops the staged operator without keeping its encoding.
    pub fn drop_staged(&mut self)
        requires
            old(self)@.wf(),
            old(self)@.staged is Some,
        ensures
            final(self)@ == old(self)@.dropped(),
            final(self)@.wf(),
    {
        if let Some(staged) = self.staged.take() {
            self.ops.truncate(BytePos::from(staged.pos));
            proof {
                old(self)@.ops.lemma_truncate_keeps_branches(staged.pos@);
            }
        }
    }

    /// Replaces the staged operator with `new_staged` and returns its position.
    ///
    /// This does __not__ keep the currently staged operator but merely replaces it. The position
    /// of the staged operator stays the same.
    ///
    /// # Errors
    ///
    /// If there is not enough memory. Only some of the pieces of `new_staged` are encoded then,
    /// and `new_staged` is the staged operator.
    pub fn replace_staged(&mut self, new_staged: Op) -> (result: Result<Pos<Op>, Error>)
        requires
            old(self)@.wf(),
            old(self)@.staged is Some,
            ir::is_silent(new_staged.pieces()),
        ensures
            match result {
                Ok(pos) => {
                    &&& pos@ == old(self)@.staged->0.pos
                    &&& final(self)@ == old(self)@.replaced(new_staged, new_staged.pieces())
                    &&& final(self)@.staged_is_last()
                },
                Err(error) => {
                    &&& error == out_of_system_memory()
                    &&& exists|count: int|
                        {
                            &&& 0 <= count < new_staged.pieces().len()
                            &&& final(self)@ == #[trigger] old(self)@.replaced(
                                new_staged,
                                new_staged.pieces().take(count),
                            )
                            &&& final(self)@.write_may_fail(new_staged.pieces()[count])
                        }
                },
            },
            final(self)@.wf(),
    {
        let mut staged = match self.staged.take() {
            Some(staged) => staged,
            None => {
                assert(false);
                StagedOp::new(new_staged, Pos::from(self.ops.next_pos()))
            },
        };
        staged.update(new_staged);
        self.ops.truncate(BytePos::from(staged.pos));
        let ghost middle = self@;
        proof {
            old(self)@.ops.lemma_truncate_keeps_branches(staged.pos@);
            middle.lemma_silent_prefixes(new_staged.pieces());
        }
        let result = self.encode_impl(&new_staged);
        let ghost encoded = self@;
        self.staged = Some(staged);
        proof {
            if result is Ok {
                assert(self@.ops.buffer.take(staged.pos@ as int) =~= middle.ops.buffer);
            } else {
                let count = choose|count: int|
                    {
                        &&& 0 <= count < new_staged.pieces().len()
                        &&& encoded == #[trigger] middle.committed().emitted(
                            new_staged.pieces().take(count),
                        )
                        &&& encoded.write_may_fail(new_staged.pieces()[count])
                    };
                assert(self@ == old(self)@.replaced(new_staged, new_staged.pieces().take(count)));
            }
        }
        result
    }

    /// Encodes the operator `op` and returns its position.
    ///
    /// Operators with a branch offset or with the fuel of a block are encoded by
    /// [`OpEncoder::encode_branch`] and [`OpEncoder::encode_consume_fuel_op`].
    ///
    /// # Errors
    ///
    /// If there is not enough memory. Some of the pieces of `op` may have been encoded.
    pub fn encode_op(&mut self, op: Op) -> (result: Result<Pos<Op>, Error>)
        requires
            old(self)@.wf(),
            ir::is_silent(op.pieces()),
        ensures
            match result {
                Ok(pos) => {
                    &&& pos@ == old(self)@.ops.next_op_pos()
                    &&& final(self)@ == old(self)@.encoded(op)
                },
                Err(error) => {
                    &&& error == out_of_system_memory()
                    &&& exists|count: int|
                        {
                            &&& 0 <= count < op.pieces().len()
                            &&& final(self)@ == #[trigger] old(self)@.committed().padded().emitted(
                                op.pieces().take(count),
                            )
                            &&& final(self)@.write_may_fail(op.pieces()[count])
                        }
                },
            },
            final(self)@.wf(),
    {
        self.commit_staged_if_any()?;
        self.pad_to_op_alignment()?;
        proof {
            self@.lemma_silent_prefixes(op.pieces());
        }
        self.encode_impl(&op)
    }
}

impl EncoderState {
    /// The encoder after encoding an operator that consumes `amount` units of fuel.
    pub open spec fn with_consume_fuel(self, amount: nat) -> Self {
        let padded = self.committed().padded();
        EncoderState {
            ops: OpsState {
                buffer: padded.ops.buffer + Piece::OpCode(self.consume_fuel_code).bytes(
                    self.ops.dispatch,
                ) + word::le_bytes(amount, 8),
                ..padded.ops
            },
            ..padded
        }
    }

    /// The position of the fuel of an operator that consumes fuel and is encoded next.
    pub open spec fn next_block_fuel_pos(self) -> nat {
        self.ops.next_op_pos() + Piece::OpCode(self.consume_fuel_code).bytes(
            self.ops.dispatch,
        ).len()
    }

    /// The fuel that is stored at `pos`.
    pub open spec fn block_fuel_at(self, pos: nat) -> nat {
        word::le_value(self.ops.buffer.subrange(pos as int, pos + 8int))
    }

    /// The encoder after storing `amount` as the fuel at `pos`.
    pub open spec fn with_block_fuel(self, pos: nat, amount: nat) -> Self {
        EncoderState { ops: self.ops.patched(pos, word::le_bytes(amount, 8)), ..self }
    }
}

impl OpEncoder {
    /// Encodes an operator to `self` that consumes fuel and returns the position of its fuel.
    ///
    /// Every such operator charges at least 1 unit of fuel out of caution.
    ///
    /// Does nothing if fuel metering is disabled.
    ///
    /// # Errors
    ///
    /// If there is not enough memory. The op-code may have been encoded.
    pub fn encode_consume_fuel_op(&mut self) -> (result: Result<Option<Pos<BlockFuel>>, Error>)
        requires
            old(self)@.wf(),
        ensures
            match result {
                Ok(None) => {
                    &&& !old(self)@.consume_fuel
                    &&& final(self)@ == old(self)@
                },
                Ok(Some(pos)) => {
                    &&& old(self)@.consume_fuel
                    &&& pos@ == old(self)@.next_block_fuel_pos()
                    &&& final(self)@ == old(self)@.with_consume_fuel(1)
                    &&& final(self)@.ops.buffer.len() == pos@ + 8
                    &&& final(self)@.block_fuel_at(pos@) == 1
                },
                Err(error) => {
                    let padded = old(self)@.committed().padded();
                    let code = Piece::OpCode(old(self)@.consume_fuel_code);
                    &&& old(self)@.consume_fuel
                    &&& error == out_of_system_memory()
                    &&& {
                        ||| final(self)@ == padded && padded.write_may_fail(code)
                        ||| final(self)@ == padded.emitted(seq![code]) && ops::write_may_fail(
                            final(self)@.ops,
                            word::le_bytes(1, 8),
                        )
                    }
                },
            },
            final(self)@.wf(),
    {
        if !self.consume_fuel {
            return Ok(None);
        }
        let consumed_fuel = BlockFuel::from(1);
        self.commit_staged_if_any()?;
        self.pad_to_op_alignment()?;
        let ghost middle = self@;
        let op = Op::consume_fuel(self.consume_fuel_code, consumed_fuel);
        let ghost code = Piece::OpCode(middle.consume_fuel_code);
        let ghost fuel = Piece::Operand(Operand::BlockFuel(consumed_fuel));
        proof {
            assert(op.pieces() =~= seq![code, fuel]);
            assert(op.pieces().take(0) =~= Seq::<Piece>::empty());
            assert(op.pieces().take(1) =~= seq![code]);
            assert(op.pieces().drop_last() =~= seq![code]);
            assert(seq![code].drop_last() =~= Seq::<Piece>::empty());
            ir::lemma_encoding_single(code, middle.ops.dispatch);
            assert(ir::encoding(op.pieces(), middle.ops.dispatch) == code.bytes(middle.ops.dispatch)
                + fuel.bytes(middle.ops.dispatch));
            assert(middle.ops.buffer + (code.bytes(middle.ops.dispatch) + fuel.bytes(
                middle.ops.dispatch,
            )) =~= middle.ops.buffer + code.bytes(middle.ops.dispatch) + fuel.bytes(
                middle.ops.dispatch,
            ));
            middle.ops.lemma_silent_keeps_report(seq![code]);
            middle.ops.lemma_silent_keeps_report(Seq::<Piece>::empty());
            assert(middle.emitted(Seq::<Piece>::empty()).ops.buffer =~= middle.ops.buffer);
        }
        match self.ops.encode(&op) {
            Ok(_) => {},
            Err(error) => {
                proof {
                    let count = choose|count: int|
                        {
                            &&& 0 <= count < op.pieces().len()
                            &&& self.ops@ == #[trigger] middle.ops.emitted(op.pieces().take(count))
                            &&& ops::write_may_fail(
                                self.ops@,
                                op.pieces()[count].bytes(middle.ops.dispatch),
                            )
                        };
                    assert(count == 0 || count == 1);
                }
                return Err(Error::from(error));
            },
        }
        let reported = self.ops.take_reporting_pos();
        proof {
            assert(self@ == old(self)@.with_consume_fuel(1));
            session::law_consume_fuel_charges_one(old(self)@);
            word::lemma_le_bytes_len(1, 8);
            laws::law_padding_is_idempotent(old(self)@.ops);
        }
        match reported {
            Some(ReportingPos::BlockFuel(pos)) => Ok(Some(pos)),
            _ => {
                assert(false);
                Ok(None)
            },
        }
    }

    /// Encodes the branch that `make_branch` yields to the label at `dst`.
    ///
    /// Returns the position of the encoded branch and the position of its branch offset.
    ///
    /// The buffer is not padded, so that branches without an op-code can be encoded in a row. Use
    /// [`OpEncoder::pad_to_op_alignment`] before encoding a branch that starts with an op-code.
    ///
    /// # Errors
    ///
    /// If there is not enough memory. Some of the pieces of the branch may have been encoded.
    pub fn encode_branch<T: Encode>(
        &mut self,
        dst: LabelRef,
        make_branch: impl FnOnce(BranchOffset) -> T,
    ) -> (result: Result<(Pos<T>, Pos<BranchOffset>), Error>)
        requires
            old(self)@.wf(),
            old(self)@.labels.has_label(dst@),
            forall|offset: BranchOffset|
                offset@ == old(self)@.offset_to(dst@) ==> #[trigger] make_branch.requires(
                    (offset,),
                ),
            forall|offset: BranchOffset, item: T|
                offset@ == old(self)@.offset_to(dst@) && #[trigger] make_branch.ensures(
                    (offset,),
                    item,
                ) ==> exists|index: int| ir::reports_branch_at(item.pieces(), index),
        ensures
            exists|offset: BranchOffset, item: T, index: int|
                {
                    &&& offset@ == old(self)@.offset_to(dst@)
                    &&& #[trigger] make_branch.ensures((offset,), item)
                    &&& #[trigger] ir::reports_branch_at(item.pieces(), index)
                    &&& match result {
                        Ok((pos_item, pos_offset)) => {
                            &&& pos_item@ == old(self)@.ops.buffer.len()
                            &&& pos_offset@ == old(self)@.branch_offset_pos(item.pieces(), index)
                            &&& final(self)@ == old(self)@.branched(dst@, item.pieces(), index)
                        },
                        Err(error) => {
                            &&& error == out_of_system_memory()
                            &&& exists|count: int|
                                {
                                    &&& 0 <= count < item.pieces().len()
                                    &&& final(self)@ == #[trigger] old(self)@.committed().emitted(
                                        item.pieces().take(count),
                                    )
                                    &&& final(self)@.write_may_fail(item.pieces()[count])
                                }
                        },
                    }
                },
            result is Ok ==> final(self)@.wf(),
            result is Err ==> final(self)@.wf_parts(),
    {
        self.commit_staged_if_any()?;
        let ghost middle = self@;
        let offset = self.try_resolve_label(dst);
        let item = make_branch(offset);
        let ghost pieces = item.pieces();
        let ghost index = choose|index: int| ir::reports_branch_at(pieces, index);
        proof {
            middle.ops.lemma_branch_is_reported(pieces, index);
        }
        let pos_item = match self.encode_impl(&item) {
            Ok(pos_item) => pos_item,
            Err(error) => {
                return Err(error);
            },
        };
        let reported = self.ops.take_reporting_pos();
        let pos_offset = match reported {
            Some(ReportingPos::BranchOffset(pos_offset)) => pos_offset,
            _ => {
                assert(false);
                Pos::from(BytePos::from(pos_item))
            },
        };
        self.ops.register_branch_offset(BytePos::from(pos_item), pos_offset);
        if !self.labels.is_pinned(dst) {
            self.labels.new_user(dst, BytePos::from(pos_item), pos_offset);
        }
        proof {
            assert(self@ == old(self)@.branched(dst@, pieces, index));
            session::lemma_branch_keeps_wf(old(self)@, dst@, pieces, index);
        }
        Ok((pos_item, pos_offset))
    }
}

/// A branch offset takes one machine word.
pub proof fn lemma_branch_piece_len(piece: Piece, dispatch: Dispatch)
    requires
        piece.is_branch_offset(),
    ensures
        piece.bytes(dispatch).len() == word::word_len(),
{
    if let Piece::Operand(Operand::BranchOffset(offset)) = piece {
        word::lemma_le_bytes_len(word::wrap_usize(offset@) as nat, word::word_len());
    }
}

/// Storing the distances of branches keeps the length of the buffer.
proof fn lemma_resolved_len(buffer: Seq<u8>, labels: LabelsState, users: Seq<UserState>)
    requires
        forall|i: int|
            0 <= i < users.len() ==> (#[trigger] users[i]).pos + word::word_len() <= buffer.len(),
    ensures
        resolved(buffer, labels, users).len() == buffer.len(),
    decreases users.len(),
{
    if users.len() > 0 {
        let front = users.drop_last();
        assert forall|i: int| 0 <= i < front.len() implies (#[trigger] front[i]).pos
            + word::word_len() <= buffer.len() by {
            assert(users[i].pos + word::word_len() <= buffer.len());
        }
        lemma_resolved_len(buffer, labels, front);
        let user = users.last();
        assert(users[users.len() - 1] == user);
        word::lemma_le_bytes_len(
            word::wrap_usize(labels.pinned_at(user.label) - user.src) as nat,
            word::word_len(),
        );
    }
}

impl EncoderState {
    /// Branches that wait for their label are within the bounds of the buffer.
    pub proof fn lemma_users_in_bounds(self)
        requires
            self.wf_parts(),
        ensures
            forall|i: int|
                0 <= i < self.labels.users.len() ==> (#[trigger] self.labels.users[i]).pos
                    + word::word_len() <= self.committed_len(),
    {
        assert forall|i: int| 0 <= i < self.labels.users.len() implies (
        #[trigger] self.labels.users[i]).pos + word::word_len() <= self.committed_len() by {
            let user = self.labels.users[i];
            let branch = BranchState { src: user.src, pos: user.pos };
            let k = self.ops.branch_offsets.index_of(branch);
            assert(self.ops.branch_offsets[k] == branch);
        }
    }
}

impl OpEncoder {
    /// Bumps the fuel at `fuel_pos` by `delta`.
    ///
    /// Does nothing if fuel metering is disabled.
    ///
    /// # Errors
    ///
    /// If consumed fuel is out of bounds after this operation. The fuel does not change then.
    pub fn bump_fuel_consumption_by(
        &mut self,
        fuel_pos: Option<Pos<BlockFuel>>,
        delta: u64,
    ) -> (result: Result<(), Error>)
        requires
            old(self)@.wf(),
            fuel_pos is Some <==> old(self)@.consume_fuel,
            fuel_pos is Some ==> fuel_pos->0@ + 8 <= old(self)@.ops.buffer.len(),
        ensures
            match fuel_pos {
                None => {
                    &&& result == Ok::<(), Error>(())
                    &&& final(self)@ == old(self)@
                },
                Some(pos) => {
                    let fuel = old(self)@.block_fuel_at(pos@) + delta;
                    if fuel <= u64::MAX {
                        &&& result == Ok::<(), Error>(())
                        &&& final(self)@ == old(self)@.with_block_fuel(pos@, fuel as nat)
                        &&& final(self)@.block_fuel_at(pos@) == fuel
                        &&& final(self)@.ops.buffer.len() == old(self)@.ops.buffer.len()
                    } else {
                        &&& result == Err::<(), Error>(
                            Error::Translation(TranslationError::BlockFuelOutOfBounds),
                        )
                        &&& final(self)@ == old(self)@
                    }
                },
            },
            final(self)@.wf(),
    {
        let fuel_pos = match fuel_pos {
            None => {
                return Ok(());
            },
            Some(fuel_pos) => fuel_pos,
        };
        let ghost before = self@.ops;
        let ghost tail = before.buffer.skip(fuel_pos@ as int);
        proof {
            BlockFuel::lemma_decoded(tail);
            assert(tail.take(8) =~= before.buffer.subrange(fuel_pos@ as int, fuel_pos@ + 8int));
        }
        let bump = |fuel: BlockFuel| -> (updated: Option<BlockFuel>)
            ensures
                updated is Some <==> fuel@ + delta <= u64::MAX,
                updated is Some ==> updated->0@ == fuel@ + delta,
            {
                let mut fuel = fuel;
                match fuel.bump_by(delta) {
                    Ok(()) => Some(fuel),
                    Err(_) => None,
                }
            };
        let result = self.ops.update_encoded_or_err(fuel_pos, bump);
        proof {
            let fuel = BlockFuel::decoded(tail)->0;
            let updated = choose|updated: Option<BlockFuel>| #[trigger]
                bump.ensures((fuel,), updated) && match updated {
                    None => {
                        &&& result == Err::<(), _>(UpdateEncodedErrorKind::FailedToUpdateEncoded)
                        &&& self.ops@ == before
                    },
                    Some(value) => {
                        let (bytes, fits) = crate::emit::overwritten_by_all(
                            tail,
                            value.pieces(),
                            before.dispatch,
                        );
                        &&& result == (if fits {
                            Ok::<(), _>(())
                        } else {
                            Err(UpdateEncodedErrorKind::FailedToEncode)
                        })
                        &&& self.ops@ == (OpsState {
                            buffer: before.buffer.take(fuel_pos@ as int) + bytes,
                            ..before
                        })
                    },
                };
            if updated is Some {
                let value = updated->0;
                word::lemma_le_bytes_len(value@, 8);
                ops::lemma_patch_single(
                    before.buffer,
                    fuel_pos@,
                    value.pieces()[0],
                    before.dispatch,
                );
                assert(value.pieces() =~= seq![value.pieces()[0]]);
                session::law_change_fuel(old(self)@, fuel_pos@, value@, value@);
            }
        }
        match result {
            Ok(()) => Ok(()),
            Err(_) => Err(Error::from(BlockFuelOutOfBounds)),
        }
    }

    /// Returns all encoded operators of the [`OpEncoder`] as bytes.
    pub fn encoded_ops(&self) -> (bytes: &[u8])
        requires
            self@.staged is None,
        ensures
            bytes@ == self@.ops.buffer,
    {
        self.ops.bytes()
    }

    /// Updates the branch offsets of all branch instructions inplace.
    ///
    /// All labels must be pinned that are used by a branch.
    pub fn update_branch_offsets(&mut self)
        requires
            old(self)@.wf(),
            old(self)@.labels.all_users_pinned(),
        ensures
            final(self)@ == old(self)@.with_resolved_branches(),
            forall|i: int|
                0 <= i < old(self)@.labels.users.len() ==> {
                    let user = #[trigger] old(self)@.labels.users[i];
                    word::signed_word_at(final(self)@.ops.buffer, user.pos) == word::wrap_isize(
                        old(self)@.labels.pinned_at(user.label) - user.src,
                    )
                },
            forall|k: int|
                0 <= k < old(self)@.ops.buffer.len() && !in_user_offset(
                    old(self)@.labels.users,
                    k,
                ) ==> (#[trigger] final(self)@.ops.buffer[k]) == old(self)@.ops.buffer[k],
            final(self)@.wf(),
    {
        let ghost before = self@;
        let ghost labels = self@.labels;
        let ghost all = self@.labels.users;
        let users = self.labels.resolved_users();
        let mut i: usize = 0;
        proof {
            before.lemma_users_in_bounds();
            assert(all.take(0) =~= Seq::<UserState>::empty());
        }
        while i < users.len()
            invariant
                i <= users@.len() == all.len(),
                before == old(self)@,
                labels == before.labels,
                all == labels.users,
                forall|k: int|
                    0 <= k < all.len() ==> {
                        &&& (#[trigger] users@[k]).src@ == all[k].src
                        &&& users@[k].pos@ == all[k].pos
                        &&& users@[k].dst@ == labels.pinned_at(all[k].label)
                    },
                forall|k: int|
                    0 <= k < all.len() ==> (#[trigger] all[k]).pos + word::word_len()
                        <= before.ops.buffer.len(),
                self@ == (EncoderState {
                    ops: OpsState {
                        buffer: resolved(before.ops.buffer, labels, all.take(i as int)),
                        ..before.ops
                    },
                    ..before
                }),
            decreases users@.len() - i,
        {
            let ResolvedLabelUser { src, dst, pos } = users[i];
            let offset = trace_branch_offset(src, dst);
            proof {
                let done = all.take(i as int);
                assert forall|k: int| 0 <= k < done.len() implies (#[trigger] done[k]).pos
                    + word::word_len() <= before.ops.buffer.len() by {
                    assert(all[k].pos + word::word_len() <= before.ops.buffer.len());
                }
                lemma_resolved_len(before.ops.buffer, labels, done);
                assert(users@[i as int].pos@ == all[i as int].pos);
                word::lemma_wrap_usize_of_wrap_isize(dst@ - src@);
                assert(all.take(i + 1).drop_last() =~= done);
            }
            self.ops.update_branch_offset(pos, offset);
            i = i + 1;
        }
        proof {
            assert(all.take(i as int) =~= all);
            laws::law_resolution(before.ops.buffer, labels, all);
        }
    }

    /// Relocates all encoded branch offsets in `ops` into absolute branch targets.
    ///
    /// - `ops` must be the final, address stable allocation storing a copy of the encoded
    ///   operators of `self`.
    /// - Must be called after [`OpEncoder::update_branch_offsets`] so that all forward branch
    ///   offsets are known.
    pub fn relocate_branch_offsets(&self, ops: &mut [u8])
        requires
            self@.wf(),
            old(ops)@.len() == self@.ops.buffer.len(),
        ensures
            exists|base: usize|
                {
                    &&& ops::resides_at(ops, base)
                    &&& ops::may_reside_at(old(ops)@, base)
                    &&& 0 < base
                    &&& base + old(ops)@.len() <= usize::MAX
                    &&& final(ops)@ == #[trigger] ops::relocated(
                        old(ops)@,
                        base as int,
                        self@.ops.branch_offsets,
                    )
                },
    {
        let mut placed = ops;
        self.ops.relocate_referred(&mut placed);
    }

    /// Relocates all encoded branch offsets in `ops` into absolute branch targets for `ops`
    /// residing at the address `base`.
    pub fn relocate_branch_offsets_at(&self, ops: &mut [u8], base: usize)
        requires
            self@.wf(),
            old(ops)@.len() == self@.ops.buffer.len(),
        ensures
            final(ops)@ == ops::relocated(old(ops)@, base as int, self@.ops.branch_offsets),
            forall|i: int|
                0 <= i < self@.ops.branch_offsets.len() ==> {
                    let branch = #[trigger] self@.ops.branch_offsets[i];
                    word::le_value(word::word_bytes_at(final(ops)@, branch.pos))
                        == word::wrap_usize(
                        base + branch.src + word::signed_word_at(old(ops)@, branch.pos),
                    )
                },
            forall|k: int|
                0 <= k < old(ops)@.len() && !ops::in_branch_offset(self@.ops.branch_offsets, k)
                    ==> (#[trigger] final(ops)@[k]) == old(ops)@[k],
    {
        proof {
            laws::law_relocation(ops@, base as int, self@.ops.branch_offsets);
        }
        self.ops.relocate_branch_offsets_at(ops, base);
    }
}

} // verus!
