//! The intermediate representation: operators, their operands and the pieces that they encode to.
use crate::word;
use vstd::prelude::*;

verus! {

/// The technique by which encoded operators are dispatched.
#[derive(Debug, Copy, Clone, PartialEq, Eq, Structural)]
pub enum Dispatch {
    /// Operators start with the address of their handler and are aligned as machine words are.
    Direct,
    /// Operators start with their op-code and are packed without any padding.
    Indirect,
}

/// The code of an operator together with the address of the function that executes it.
#[derive(Debug, Copy, Clone, PartialEq, Eq, Structural)]
pub struct OpCode {
    /// The number that identifies the operator.
    pub code: u16,
    /// The address of the handler that executes the operator.
    pub handler: usize,
}

impl From<OpCode> for u16 {
    fn from(op_code: OpCode) -> (code: Self) {
        op_code.code
    }
}

impl vstd::std_specs::convert::FromSpecImpl<OpCode> for u16 {
    open spec fn obeys_from_spec() -> bool {
        true
    }

    open spec fn from_spec(op_code: OpCode) -> Self {
        op_code.code
    }
}

/// Returns the address of the handler that executes operators with the op-code `code`.
pub fn op_code_to_handler(code: OpCode) -> (handler: usize)
    ensures
        handler == code.handler,
{
    code.handler
}

/// The distance in bytes from an encoded item to the target of its branch.
#[derive(Debug, Copy, Clone, PartialEq, Eq, Structural)]
pub struct BranchOffset(isize);

impl View for BranchOffset {
    type V = int;

    closed spec fn view(&self) -> int {
        self.0 as int
    }
}

impl BranchOffset {
    /// A branch offset is determined by its distance, which fits into a signed machine word.
    pub proof fn law_view_is_injective(a: BranchOffset, b: BranchOffset)
        ensures
            a@ == b@ <==> a == b,
            isize::MIN <= a@ <= isize::MAX,
    {
    }

    /// Returns the branch offset of a branch whose target is not yet known.
    pub fn uninit() -> (offset: Self)
        ensures
            offset@ == 0,
    {
        Self(0)
    }
}

impl From<isize> for BranchOffset {
    fn from(offset: isize) -> (result: Self)
        ensures
            result@ == offset,
    {
        Self(offset)
    }
}

impl vstd::std_specs::convert::FromSpecImpl<isize> for BranchOffset {
    open spec fn obeys_from_spec() -> bool {
        true
    }

    closed spec fn from_spec(offset: isize) -> Self {
        BranchOffset(offset)
    }
}

impl From<BranchOffset> for isize {
    fn from(offset: BranchOffset) -> (result: Self)
        ensures
            result == offset@,
    {
        offset.0
    }
}

impl vstd::std_specs::convert::FromSpecImpl<BranchOffset> for isize {
    open spec fn obeys_from_spec() -> bool {
        true
    }

    closed spec fn from_spec(offset: BranchOffset) -> Self {
        offset.0
    }
}

/// The accumulated fuel that is required to execute a block of operators.
#[derive(Debug, Copy, Clone, PartialEq, Eq, Structural)]
pub struct BlockFuel(u64);

/// Error indicating that the fuel of a block does not fit into a [`BlockFuel`].
#[derive(Debug, Copy, Clone, PartialEq, Eq, Structural)]
pub struct BlockFuelOutOfBounds;

impl View for BlockFuel {
    type V = nat;

    closed spec fn view(&self) -> nat {
        self.0 as nat
    }
}

impl BlockFuel {
    /// The fuel of a block is determined by its amount, which fits into 64 bits.
    pub proof fn law_view_is_injective(a: BlockFuel, b: BlockFuel)
        ensures
            a@ == b@ <==> a == b,
            a@ <= u64::MAX,
    {
    }

    /// Bumps the fuel of the block by `amount`.
    ///
    /// # Errors
    ///
    /// If the fuel of the block would be out of bounds. The fuel is unchanged in this case.
    pub fn bump_by(&mut self, amount: u64) -> (result: Result<(), BlockFuelOutOfBounds>)
        ensures
            result is Ok <==> old(self)@ + amount <= u64::MAX,
            result is Ok ==> final(self)@ == old(self)@ + amount,
            result is Err ==> *final(self) == *old(self),
    {
        match self.0.checked_add(amount) {
            Some(fuel) => {
                self.0 = fuel;
                Ok(())
            },
            None => Err(BlockFuelOutOfBounds),
        }
    }
}

impl From<u64> for BlockFuel {
    fn from(fuel: u64) -> (result: Self)
        ensures
            result@ == fuel,
    {
        Self(fuel)
    }
}

impl vstd::std_specs::convert::FromSpecImpl<u64> for BlockFuel {
    open spec fn obeys_from_spec() -> bool {
        true
    }

    closed spec fn from_spec(fuel: u64) -> Self {
        BlockFuel(fuel)
    }
}

impl From<BlockFuel> for u64 {
    fn from(fuel: BlockFuel) -> (result: Self)
        ensures
            result == fuel@,
    {
        fuel.0
    }
}

impl vstd::std_specs::convert::FromSpecImpl<BlockFuel> for u64 {
    open spec fn obeys_from_spec() -> bool {
        true
    }

    closed spec fn from_spec(fuel: BlockFuel) -> Self {
        fuel.0
    }
}

/// An operand of an operator.
#[derive(Debug, Copy, Clone, PartialEq, Eq, Structural)]
pub enum Operand {
    /// An immediate or a slot of 8 bits.
    U8(u8),
    /// An immediate or a slot of 16 bits.
    U16(u16),
    /// An immediate of 32 bits.
    U32(u32),
    /// An immediate of 64 bits.
    U64(u64),
    /// The target of a branch.
    BranchOffset(BranchOffset),
    /// The fuel that is required to execute a block.
    BlockFuel(BlockFuel),
}

/// A part of an encoded item that is written at once.
#[derive(Debug, Copy, Clone, PartialEq, Eq, Structural)]
pub enum Piece {
    /// The code of an operator.
    OpCode(OpCode),
    /// An operand of an operator.
    Operand(Operand),
}

impl Piece {
    /// The bytes that the piece is encoded to.
    pub open spec fn bytes(self, dispatch: Dispatch) -> Seq<u8> {
        match self {
            Piece::OpCode(op_code) => match dispatch {
                Dispatch::Direct => word::le_bytes(op_code.handler as nat, word::word_len()),
                Dispatch::Indirect => word::le_bytes(op_code.code as nat, 2),
            },
            Piece::Operand(Operand::U8(value)) => word::le_bytes(value as nat, 1),
            Piece::Operand(Operand::U16(value)) => word::le_bytes(value as nat, 2),
            Piece::Operand(Operand::U32(value)) => word::le_bytes(value as nat, 4),
            Piece::Operand(Operand::U64(value)) => word::le_bytes(value as nat, 8),
            Piece::Operand(Operand::BranchOffset(offset)) => word::le_bytes(
                word::wrap_usize(offset@) as nat,
                word::word_len(),
            ),
            Piece::Operand(Operand::BlockFuel(fuel)) => word::le_bytes(fuel@, 8),
        }
    }

    /// Whether the piece is a branch offset.
    pub open spec fn is_branch_offset(self) -> bool {
        self matches Piece::Operand(Operand::BranchOffset(_))
    }

    /// Whether the piece is the fuel of a block.
    pub open spec fn is_block_fuel(self) -> bool {
        self matches Piece::Operand(Operand::BlockFuel(_))
    }

    /// Whether the position of the piece is reported back when it is encoded.
    pub open spec fn is_reported(self) -> bool {
        self.is_branch_offset() || self.is_block_fuel()
    }

    /// Returns the bytes that the piece is encoded to.
    pub fn to_bytes(&self, dispatch: Dispatch) -> (bytes: Vec<u8>)
        ensures
            bytes@ == self.bytes(dispatch),
            0 < bytes@.len() <= 8,
    {
        match *self {
            Piece::OpCode(op_code) => match dispatch {
                Dispatch::Direct => word::to_le_bytes(
                    op_code_to_handler(op_code) as u64,
                    word::word_size(),
                ),
                Dispatch::Indirect => word::to_le_bytes(u16::from(op_code) as u64, 2),
            },
            Piece::Operand(operand) => match operand {
                Operand::U8(value) => word::to_le_bytes(value as u64, 1),
                Operand::U16(value) => word::to_le_bytes(value as u64, 2),
                Operand::U32(value) => word::to_le_bytes(value as u64, 4),
                Operand::U64(value) => word::to_le_bytes(value, 8),
                Operand::BranchOffset(offset) => {
                    let bits: usize = word::isize_to_bits(isize::from(offset));
                    word::to_le_bytes(bits as u64, word::word_size())
                },
                Operand::BlockFuel(fuel) => word::to_le_bytes(u64::from(fuel), 8),
            },
        }
    }
}

/// The concatenated bytes of `pieces`.
pub open spec fn encoding(pieces: Seq<Piece>, dispatch: Dispatch) -> Seq<u8>
    decreases pieces.len(),
{
    if pieces.len() == 0 {
        Seq::empty()
    } else {
        encoding(pieces.drop_last(), dispatch) + pieces.last().bytes(dispatch)
    }
}

/// Whether the position of no piece is reported back.
pub open spec fn is_silent(pieces: Seq<Piece>) -> bool {
    forall|i: int| 0 <= i < pieces.len() ==> !(#[trigger] pieces[i]).is_reported()
}

/// Whether the positions of no two pieces are reported back.
pub open spec fn reports_once(pieces: Seq<Piece>) -> bool {
    forall|i: int, j: int|
        0 <= i < j < pieces.len() ==> !((#[trigger] pieces[i]).is_reported()
            && (#[trigger] pieces[j]).is_reported())
}

/// Whether `pieces[index]` is a branch offset and the only piece whose position is reported back.
pub open spec fn reports_branch_at(pieces: Seq<Piece>, index: int) -> bool {
    &&& 0 <= index < pieces.len()
    &&& pieces[index].is_branch_offset()
    &&& forall|i: int|
        0 <= i < pieces.len() && i != index ==> !(#[trigger] pieces[i]).is_reported()
}

/// The maximum number of operands of an operator.
pub const MAX_OPERANDS: usize = 8;

/// An operator: an op-code and its operands.
#[derive(Debug, Copy, Clone, PartialEq, Eq)]
pub struct Op {
    /// The op-code of the operator.
    code: OpCode,
    /// The operands of the operator, followed by unused entries.
    operands: [Operand; 8],
    /// The number of operands in use.
    len: usize,
}

impl Op {
    #[verifier::type_invariant]
    spec fn is_valid(self) -> bool {
        self.len <= MAX_OPERANDS
    }

    /// The op-code of the operator.
    pub closed spec fn op_code(self) -> OpCode {
        self.code
    }

    /// The operands of the operator.
    pub closed spec fn operands(self) -> Seq<Operand> {
        self.operands@.take(self.len as int)
    }

    /// Creates a new operator from its op-code and its operands.
    pub fn new(code: OpCode, operands: &[Operand]) -> (op: Self)
        requires
            operands@.len() <= MAX_OPERANDS,
        ensures
            op.op_code() == code,
            op.operands() == operands@,
    {
        let mut used: [Operand; 8] = [Operand::U8(0); 8];
        let mut i: usize = 0;
        while i < operands.len()
            invariant
                i <= operands@.len() <= MAX_OPERANDS,
                used@.len() == 8,
                forall|j: int| 0 <= j < i ==> used@[j] == operands@[j],
            decreases operands@.len() - i,
        {
            used[i] = operands[i];
            i = i + 1;
        }
        let op = Op { code, operands: used, len: operands.len() };
        assert(op.operands() =~= operands@);
        op
    }

    /// Creates a new operator with the op-code `code` that consumes `fuel`.
    pub fn consume_fuel(code: OpCode, fuel: BlockFuel) -> (op: Self)
        ensures
            op.op_code() == code,
            op.operands() == seq![Operand::BlockFuel(fuel)],
    {
        let operands: [Operand; 1] = [Operand::BlockFuel(fuel)];
        let op = Op::new(code, &operands);
        assert(op.operands() =~= seq![Operand::BlockFuel(fuel)]);
        op
    }
}

/// Types that can be encoded as a sequence of pieces.
pub trait Encode {
    /// The pieces that the value is encoded to.
    spec fn pieces(&self) -> Seq<Piece>;

    /// Returns the number of pieces that the value is encoded to.
    fn piece_count(&self) -> (count: usize)
        ensures
            count == self.pieces().len(),
    ;

    /// Returns the piece at `index` of the encoded value.
    fn piece(&self, index: usize) -> (piece: Piece)
        requires
            index < self.pieces().len(),
        ensures
            piece == self.pieces()[index as int],
    ;
}

impl Encode for BranchOffset {
    open spec fn pieces(&self) -> Seq<Piece> {
        seq![Piece::Operand(Operand::BranchOffset(*self))]
    }

    fn piece_count(&self) -> (count: usize) {
        1
    }

    fn piece(&self, _index: usize) -> (piece: Piece) {
        Piece::Operand(Operand::BranchOffset(*self))
    }
}

impl Encode for BlockFuel {
    open spec fn pieces(&self) -> Seq<Piece> {
        seq![Piece::Operand(Operand::BlockFuel(*self))]
    }

    fn piece_count(&self) -> (count: usize) {
        1
    }

    fn piece(&self, _index: usize) -> (piece: Piece) {
        Piece::Operand(Operand::BlockFuel(*self))
    }
}

impl Encode for Op {
    open spec fn pieces(&self) -> Seq<Piece> {
        seq![Piece::OpCode(self.op_code())] + Seq::new(
            self.operands().len(),
            |i: int| Piece::Operand(self.operands()[i]),
        )
    }

    fn piece_count(&self) -> (count: usize) {
        proof {
            use_type_invariant(self);
        }
        self.len + 1
    }

    fn piece(&self, index: usize) -> (piece: Piece) {
        proof {
            use_type_invariant(self);
        }
        if index == 0 {
            Piece::OpCode(self.code)
        } else {
            Piece::Operand(self.operands[index - 1])
        }
    }
}

/// Error indicating that there are too few bytes to decode a value.
#[derive(Debug, Copy, Clone, PartialEq, Eq, Structural)]
pub struct DecodeError;

/// Types that can be decoded from the front of a sequence of bytes.
pub trait Decode: Sized {
    /// The value that is decoded from the front of `bytes` if there are enough of them.
    spec fn decoded(bytes: Seq<u8>) -> Option<Self>;

    /// Decodes a value from the front of `bytes`.
    fn decode(bytes: &[u8]) -> (result: Result<Self, DecodeError>)
        ensures
            match Self::decoded(bytes@) {
                Some(value) => result == Ok::<Self, DecodeError>(value),
                None => result is Err,
            },
    ;
}

impl Decode for BranchOffset {
    closed spec fn decoded(bytes: Seq<u8>) -> Option<Self> {
        if bytes.len() < word::word_len() {
            None
        } else {
            Some(
                BranchOffset(
                    word::wrap_isize(
                        word::le_value(bytes.take(word::word_len() as int)) as int,
                    ) as isize,
                ),
            )
        }
    }

    fn decode(bytes: &[u8]) -> (result: Result<Self, DecodeError>) {
        let width: usize = word::word_size();
        if bytes.len() < width {
            return Err(DecodeError);
        }
        proof {
            word::lemma_pow256_values();
            word::law_le_bytes_of_value(bytes@.take(width as int));
        }
        let bits: usize = word::from_le_bytes(bytes, width) as usize;
        Ok(BranchOffset(word::isize_from_bits(bits)))
    }
}

impl Decode for BlockFuel {
    closed spec fn decoded(bytes: Seq<u8>) -> Option<Self> {
        if bytes.len() < 8 {
            None
        } else {
            Some(BlockFuel(word::le_value(bytes.take(8)) as u64))
        }
    }

    fn decode(bytes: &[u8]) -> (result: Result<Self, DecodeError>) {
        if bytes.len() < 8 {
            return Err(DecodeError);
        }
        Ok(BlockFuel(word::from_le_bytes(bytes, 8)))
    }
}

impl BranchOffset {
    /// A branch offset is decoded from the bytes of one machine word.
    pub proof fn lemma_decoded(bytes: Seq<u8>)
        ensures
            bytes.len() < word::word_len() ==> Self::decoded(bytes) is None,
            bytes.len() >= word::word_len() ==> {
                &&& Self::decoded(bytes) is Some
                &&& Self::decoded(bytes)->0@ == word::signed_word_at(bytes, 0)
            },
    {
        if bytes.len() >= word::word_len() {
            let word_bytes = bytes.take(word::word_len() as int);
            assert(word_bytes =~= word::word_bytes_at(bytes, 0));
            word::lemma_pow256_values();
            word::lemma_word_ranges();
            word::law_le_bytes_of_value(word_bytes);
            word::lemma_wrap_isize_range(word::le_value(word_bytes) as int);
        }
    }

    /// Decoding an encoded branch offset yields the branch offset again.
    pub proof fn law_round_trip(self, dispatch: Dispatch, rest: Seq<u8>)
        ensures
            Self::decoded(encoding(self.pieces(), dispatch) + rest) == Some(self),
    {
        let bytes = encoding(self.pieces(), dispatch);
        lemma_encoding_single(self.pieces()[0], dispatch);
        assert(self.pieces() =~= seq![self.pieces()[0]]);
        let bits = word::wrap_usize(self@);
        word::lemma_pow256_values();
        word::lemma_word_ranges();
        word::lemma_wrap_isize_in_range(self@);
        word::law_le_round_trip(bits as nat, word::word_len());
        assert((bytes + rest).take(word::word_len() as int) =~= bytes);
    }
}

impl BlockFuel {
    /// The fuel of a block is decoded from eight bytes.
    pub proof fn lemma_decoded(bytes: Seq<u8>)
        ensures
            bytes.len() < 8 ==> Self::decoded(bytes) is None,
            bytes.len() >= 8 ==> {
                &&& Self::decoded(bytes) is Some
                &&& Self::decoded(bytes)->0@ == word::le_value(bytes.take(8))
            },
    {
        if bytes.len() >= 8 {
            word::lemma_pow256_values();
            word::law_le_bytes_of_value(bytes.take(8));
        }
    }

    /// Decoding the encoded fuel of a block yields the fuel again.
    pub proof fn law_round_trip(self, dispatch: Dispatch, rest: Seq<u8>)
        ensures
            Self::decoded(encoding(self.pieces(), dispatch) + rest) == Some(self),
    {
        let bytes = encoding(self.pieces(), dispatch);
        lemma_encoding_single(self.pieces()[0], dispatch);
        assert(self.pieces() =~= seq![self.pieces()[0]]);
        word::lemma_pow256_values();
        word::law_le_round_trip(self@, 8);
        assert((bytes + rest).take(8) =~= bytes);
    }
}

/// A single piece is encoded to its bytes.
pub proof fn lemma_encoding_single(piece: Piece, dispatch: Dispatch)
    ensures
        encoding(seq![piece], dispatch) == piece.bytes(dispatch),
{
    reveal_with_fuel(encoding, 2);
    assert(seq![piece].drop_last() =~= Seq::<Piece>::empty());
    assert(encoding(seq![piece], dispatch) =~= piece.bytes(dispatch));
}

/// Encoding a prefix of the pieces yields a prefix of the bytes, which is followed by the bytes of
/// the next piece.
pub proof fn lemma_encoding_piece(pieces: Seq<Piece>, index: int, dispatch: Dispatch)
    requires
        0 <= index < pieces.len(),
    ensures
        ({
            let start = encoding(pieces.take(index), dispatch).len() as int;
            let end = start + pieces[index].bytes(dispatch).len();
            &&& end <= encoding(pieces, dispatch).len()
            &&& encoding(pieces, dispatch).subrange(start, end) == pieces[index].bytes(dispatch)
        }),
    decreases pieces.len(),
{
    let front = pieces.drop_last();
    let start = encoding(pieces.take(index), dispatch).len() as int;
    let end = start + pieces[index].bytes(dispatch).len();
    if index == pieces.len() - 1 {
        assert(pieces.take(index) =~= front);
        assert(encoding(pieces, dispatch).subrange(start, end) =~= pieces[index].bytes(dispatch));
    } else {
        lemma_encoding_piece(front, index, dispatch);
        assert(front.take(index) =~= pieces.take(index));
        assert(encoding(pieces, dispatch).subrange(start, end) =~= encoding(
            front,
            dispatch,
        ).subrange(start, end));
    }
}

} // verus!
