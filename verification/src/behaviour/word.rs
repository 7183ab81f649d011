//! What little-endian byte strings and machine words are.
use crate::word;
use vstd::arithmetic::power;
use vstd::prelude::*;

verus! {

/// The digit of `value` at `index` in the number system with base 256.
pub open spec fn byte_digit(value: int, index: nat) -> int {
    value / power::pow(256, index) % 256
}

proof fn lemma_digit_step(value: nat, index: nat)
    requires
        index > 0,
    ensures
        byte_digit(value as int, index) == byte_digit((value / 256) as int, (index - 1) as nat),
{
    let p = power::pow(256, (index - 1) as nat);
    power::lemma_pow_positive(256, (index - 1) as nat);
    reveal(power::pow);
    vstd::arithmetic::div_mod::lemma_div_denominator(value as int, 256, p);
}

/// Little-endian bytes are the digits of the value in the number system with base 256.
pub proof fn law_le_bytes_are_digits(value: nat, width: nat)
    ensures
        word::le_bytes(value, width).len() == width,
        forall|i: nat|
            i < width ==> (#[trigger] word::le_bytes(value, width)[i as int]) == byte_digit(
                value as int,
                i,
            ),
    decreases width,
{
    word::lemma_le_bytes_len(value, width);
    if width > 0 {
        let rest = (width - 1) as nat;
        law_le_bytes_are_digits(value / 256, rest);
        assert forall|i: nat| i < width implies (#[trigger] word::le_bytes(value, width)[i as int])
            == byte_digit(value as int, i) by {
            if i == 0 {
                power::lemma_pow0(256);
            } else {
                assert(word::le_bytes(value, width)[i as int] == word::le_bytes(
                    value / 256,
                    rest,
                )[(i - 1) as nat as int]);
                lemma_digit_step(value, i);
            }
        }
    }
}

/// The value of a byte string has the bytes as its digits in the number system with base 256, and
/// no others.
pub proof fn law_le_value_has_digits(bytes: Seq<u8>)
    ensures
        0 <= word::le_value(bytes) < power::pow(256, bytes.len()),
        forall|i: nat|
            i < bytes.len() ==> (#[trigger] bytes[i as int]) == byte_digit(
                word::le_value(bytes) as int,
                i,
            ),
{
    word::law_le_bytes_of_value(bytes);
    law_le_bytes_are_digits(word::le_value(bytes), bytes.len());
    assert forall|i: nat| i < bytes.len() implies (#[trigger] bytes[i as int]) == byte_digit(
        word::le_value(bytes) as int,
        i,
    ) by {
        assert(bytes[i as int] == word::le_bytes(word::le_value(bytes), bytes.len())[i as int]);
    }
}

/// The bytes of a number are its digits in the number system with base 256, least significant
/// first, and a number is read from such digits.
pub proof fn law_le_conversions(value: u64, width: usize, bytes: &[u8])
    ensures
        forall|result: Vec<u8>| #[trigger]
            call_ensures(word::to_le_bytes, (value, width), result) ==> {
                &&& result@.len() == width
                &&& forall|i: nat|
                    i < width ==> (#[trigger] result@[i as int]) == byte_digit(value as int, i)
            },
        width <= 8 && width <= bytes@.len() ==> forall|result: u64| #[trigger]
            call_ensures(word::from_le_bytes, (bytes, width), result) ==> {
                &&& result < power::pow(256, width as nat)
                &&& forall|i: nat|
                    i < width ==> (#[trigger] bytes@[i as int]) == byte_digit(result as int, i)
            },
{
    law_le_bytes_are_digits(value as nat, width as nat);
    if width <= bytes@.len() {
        let front = bytes@.take(width as int);
        law_le_value_has_digits(front);
        assert forall|i: nat| i < width implies (#[trigger] bytes@[i as int]) == byte_digit(
            word::le_value(front) as int,
            i,
        ) by {
            assert(front[i as int] == bytes@[i as int]);
        }
    }
}

/// Writing a number that fits and reading it back yields the number.
pub proof fn law_le_conversions_round_trip(value: u64, width: usize)
    requires
        value < power::pow(256, width as nat),
        width <= 8,
    ensures
        forall|bytes: Vec<u8>, slice: &[u8], result: u64|
            {
                &&& #[trigger] call_ensures(word::to_le_bytes, (value, width), bytes)
                &&& #[trigger] call_ensures(word::from_le_bytes, (slice, width), result)
                &&& slice@ == bytes@
            } ==> result == value,
{
    word::law_le_round_trip(value as nat, width as nat);
    assert forall|bytes: Vec<u8>, slice: &[u8], result: u64|
        {
            &&& #[trigger] call_ensures(word::to_le_bytes, (value, width), bytes)
            &&& #[trigger] call_ensures(word::from_le_bytes, (slice, width), result)
            &&& slice@ == bytes@
        } implies result == value by {
        assert(slice@.take(width as int) =~= bytes@);
    }
}

/// A machine word takes as many bytes as its values need.
pub proof fn law_word_len()
    ensures
        power::pow(256, word::word_len()) == usize::MAX + 1,
        word::word_modulus() == usize::MAX + 1,
        forall|size: usize| #[trigger]
            call_ensures(word::word_size, (), size) ==> power::pow(256, size as nat) == usize::MAX
                + 1,
{
    word::lemma_pow256_values();
}

/// Wrapping yields the machine word that differs by a multiple of the number of machine words.
pub proof fn law_wrapping(x: int)
    ensures
        0 <= word::wrap_usize(x) <= usize::MAX,
        (x - word::wrap_usize(x)) % (usize::MAX + 1) == 0,
        isize::MIN <= word::wrap_isize(x) <= isize::MAX,
        (x - word::wrap_isize(x)) % (usize::MAX + 1) == 0,
{
    let m = usize::MAX + 1;
    let q = x / m;
    let r = x % m;
    assert(x == m * q + r && 0 <= r < m) by (nonlinear_arith)
        requires
            m > 0,
            q == x / m,
            r == x % m,
    ;
    vstd::arithmetic::div_mod::lemma_mod_multiples_basic(q, m);
    vstd::arithmetic::div_mod::lemma_mod_multiples_basic(q + 1, m);
    assert(q * m == m * q && (q + 1) * m == m * q + m) by (nonlinear_arith);
    word::lemma_word_ranges();
}

/// The bits of a signed machine word differ from it by the number of machine words if it is
/// negative, and the signed machine word is read back from its bits.
pub proof fn law_signed_bits(value: isize, bits: usize)
    ensures
        forall|result: usize| #[trigger]
            call_ensures(word::isize_to_bits, (value,), result) ==> result == (if value < 0 {
                value + usize::MAX + 1
            } else {
                value as int
            }),
        forall|result: isize| #[trigger]
            call_ensures(word::isize_from_bits, (bits,), result) ==> result == (if bits
                > isize::MAX {
                bits - (usize::MAX + 1)
            } else {
                bits as int
            }),
{
    let m = usize::MAX + 1;
    word::lemma_word_ranges();
    assert(bits as int % m == bits) by (nonlinear_arith)
        requires
            0 <= bits < m,
    ;
    let v = value as int;
    assert(v % m == (if v < 0 {
        v + m
    } else {
        v
    })) by (nonlinear_arith)
        requires
            -m <= v < m,
            m > 0,
    ;
}

/// The signed machine word at a position differs from the value of the bytes there by a multiple of
/// the number of machine words.
pub proof fn law_signed_word_at(bytes: Seq<u8>, at: nat, width: nat)
    requires
        power::pow(256, width) == usize::MAX + 1,
        at + width <= bytes.len(),
    ensures
        word::word_bytes_at(bytes, at) == bytes.subrange(at as int, (at + width) as int),
        isize::MIN <= word::signed_word_at(bytes, at) <= isize::MAX,
        (word::le_value(bytes.subrange(at as int, (at + width) as int)) - word::signed_word_at(
            bytes,
            at,
        )) % (usize::MAX + 1) == 0,
{
    law_word_len();
    if width < word::word_len() {
        power::lemma_pow_strictly_increases(256, width, word::word_len());
    } else if width > word::word_len() {
        power::lemma_pow_strictly_increases(256, word::word_len(), width);
    }
    law_wrapping(word::le_value(word::word_bytes_at(bytes, at)) as int);
}

/// Overwriting bytes stores the new bytes and keeps all others.
pub proof fn law_splice(bytes: Seq<u8>, at: nat, new: Seq<u8>)
    requires
        at + new.len() <= bytes.len(),
    ensures
        word::splice(bytes, at, new).len() == bytes.len(),
        forall|i: int|
            0 <= i < bytes.len() ==> (#[trigger] word::splice(bytes, at, new)[i]) == (if at <= i
                < at + new.len() {
                new[i - at]
            } else {
                bytes[i]
            }),
{
}

} // verus!
