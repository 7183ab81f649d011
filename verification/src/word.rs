//! Little-endian byte strings of fixed width and two's complement machine words.
use vstd::arithmetic::power;
use vstd::prelude::*;

verus! {

/// The `width` lowest bytes of `value`, least significant byte first.
pub open spec fn le_bytes(value: nat, width: nat) -> Seq<u8>
    decreases width,
{
    if width == 0 {
        Seq::empty()
    } else {
        seq![(value % 256) as u8] + le_bytes(value / 256, (width - 1) as nat)
    }
}

/// The number that `bytes` denotes, least significant byte first.
pub open spec fn le_value(bytes: Seq<u8>) -> nat
    decreases bytes.len(),
{
    if bytes.len() == 0 {
        0
    } else {
        bytes[0] as nat + 256 * le_value(bytes.skip(1))
    }
}

/// The number of bytes of a machine word.
pub open spec fn word_len() -> nat {
    if usize::BITS == 64 {
        8
    } else {
        4
    }
}

/// The number of values of a machine word.
pub open spec fn word_modulus() -> int {
    usize::MAX + 1
}

/// The value of a machine word that is congruent to `x`.
pub open spec fn wrap_usize(x: int) -> int {
    x % word_modulus()
}

/// The value of a signed machine word that is congruent to `x`.
pub open spec fn wrap_isize(x: int) -> int {
    let low = wrap_usize(x);
    if low <= isize::MAX {
        low
    } else {
        low - word_modulus()
    }
}

/// `bytes` with the bytes from `at` on overwritten by `new`.
pub open spec fn splice(bytes: Seq<u8>, at: nat, new: Seq<u8>) -> Seq<u8> {
    bytes.take(at as int) + new + bytes.skip((at + new.len()) as int)
}

/// The bytes of a machine word at position `at`.
pub open spec fn word_bytes_at(bytes: Seq<u8>, at: nat) -> Seq<u8> {
    bytes.subrange(at as int, (at + word_len()) as int)
}

/// The signed machine word that is stored at position `at`.
pub open spec fn signed_word_at(bytes: Seq<u8>, at: nat) -> int {
    wrap_isize(le_value(word_bytes_at(bytes, at)) as int)
}

/// A little-endian byte string is as long as its width.
pub proof fn lemma_le_bytes_len(value: nat, width: nat)
    ensures
        le_bytes(value, width).len() == width,
    decreases width,
{
    if width > 0 {
        lemma_le_bytes_len(value / 256, (width - 1) as nat);
    }
}

proof fn lemma_pow256_step(width: nat)
    requires
        width > 0,
    ensures
        power::pow(256, width) == 256 * power::pow(256, (width - 1) as nat),
{
    reveal(power::pow);
}

/// Reading back a little-endian byte string yields the value that was written.
pub proof fn law_le_round_trip(value: nat, width: nat)
    requires
        value < power::pow(256, width),
    ensures
        le_value(le_bytes(value, width)) == value,
        le_bytes(value, width).len() == width,
    decreases width,
{
    lemma_le_bytes_len(value, width);
    if width == 0 {
        power::lemma_pow0(256);
    } else {
        lemma_pow256_step(width);
        let rest = (width - 1) as nat;
        let p = power::pow(256, rest);
        assert(value / 256 < p) by (nonlinear_arith)
            requires
                value < 256 * p,
        ;
        law_le_round_trip(value / 256, rest);
        let bytes = le_bytes(value, width);
        assert(bytes.skip(1) =~= le_bytes(value / 256, rest));
        assert(bytes[0] as nat == value % 256);
    }
}

/// Writing the value of a byte string yields the byte string again.
pub proof fn law_le_bytes_of_value(bytes: Seq<u8>)
    ensures
        le_bytes(le_value(bytes), bytes.len()) == bytes,
        le_value(bytes) < power::pow(256, bytes.len()),
    decreases bytes.len(),
{
    if bytes.len() == 0 {
        power::lemma_pow0(256);
        assert(le_bytes(le_value(bytes), 0) =~= bytes);
    } else {
        let tail = bytes.skip(1);
        law_le_bytes_of_value(tail);
        lemma_pow256_step(bytes.len());
        let v = le_value(bytes);
        assert(v % 256 == bytes[0] as nat && v / 256 == le_value(tail));
        assert(le_bytes(v, bytes.len()) =~= bytes);
    }
}

/// The powers of 256 that bound the integer types in use.
pub proof fn lemma_pow256_values()
    ensures
        power::pow(256, 1) == 0x100,
        power::pow(256, 2) == 0x1_0000,
        power::pow(256, 4) == 0x1_0000_0000,
        power::pow(256, 8) == 0x1_0000_0000_0000_0000,
        power::pow(256, word_len()) == word_modulus(),
{
    reveal(power::pow);
    vstd::layout::unsigned_int_max_values();
    assert(power::pow(256, 0) == 1);
    assert(power::pow(256, 1) == 256);
    assert(power::pow(256, 2) == 0x1_0000);
    assert(power::pow(256, 3) == 0x100_0000);
    assert(power::pow(256, 4) == 0x1_0000_0000);
    assert(power::pow(256, 5) == 0x100_0000_0000);
    assert(power::pow(256, 6) == 0x1_0000_0000_0000);
    assert(power::pow(256, 7) == 0x100_0000_0000_0000);
    assert(power::pow(256, 8) == 0x1_0000_0000_0000_0000);
}

/// A value in range is its own signed machine word, and wrapping ignores multiples of the modulus.
pub proof fn lemma_wrap_isize_in_range(x: int)
    requires
        isize::MIN <= x <= isize::MAX,
    ensures
        wrap_isize(x) == x,
        wrap_isize(wrap_usize(x)) == x,
{
    lemma_word_ranges();
    let m = word_modulus();
    if x < 0 {
        assert(x % m == x + m) by (nonlinear_arith)
            requires
                -m <= x < 0,
                m > 0,
        ;
    } else {
        assert(x % m == x) by (nonlinear_arith)
            requires
                0 <= x < m,
        ;
    }
    let low = wrap_usize(x);
    assert(low % m == low) by (nonlinear_arith)
        requires
            0 <= low < m,
    ;
}

/// A value in range is its own machine word.
pub proof fn lemma_wrap_usize_in_range(x: int)
    requires
        0 <= x <= usize::MAX,
    ensures
        wrap_usize(x) == x,
{
    lemma_congruent(x, x);
}

/// A signed machine word is in range.
pub proof fn lemma_wrap_isize_range(x: int)
    ensures
        isize::MIN <= wrap_isize(x) <= isize::MAX,
{
    lemma_word_ranges();
    let m = word_modulus();
    assert(0 <= x % m < m) by (nonlinear_arith)
        requires
            m > 0,
    ;
}

/// Adding machine words one by one wraps as adding their values at once does.
pub proof fn lemma_wrapping_sum(a: int, b: int, c: int, sum: int)
    requires
        0 <= a <= usize::MAX,
        0 <= b <= usize::MAX,
        isize::MIN <= c <= isize::MAX,
        sum == ({
            let ab = if a + b > usize::MAX {
                a + b - word_modulus()
            } else {
                a + b
            };
            if ab + c > usize::MAX {
                ab + c - word_modulus()
            } else if ab + c < 0 {
                ab + c + word_modulus()
            } else {
                ab + c
            }
        }),
    ensures
        sum == wrap_usize(a + b + c),
        wrap_usize(wrap_isize(sum)) == sum,
{
    lemma_word_ranges();
    let m = word_modulus();
    let total = a + b + c;
    assert(sum == total || sum == total - m || sum == total + m || sum == total - 2 * m);
    lemma_congruent(sum, total);
    if sum <= isize::MAX {
        lemma_congruent(sum, sum);
    } else {
        lemma_congruent(sum, sum - m);
    }
}

/// Subtracting signed machine words wraps as subtracting the words themselves does.
pub proof fn lemma_wrapping_difference(a: int, b: int, difference: int)
    requires
        0 <= a <= usize::MAX,
        0 <= b <= usize::MAX,
        difference == ({
            let exact = wrap_isize(a) - wrap_isize(b);
            if exact > isize::MAX {
                exact - word_modulus()
            } else if exact < isize::MIN {
                exact + word_modulus()
            } else {
                exact
            }
        }),
    ensures
        difference == wrap_isize(a - b),
{
    lemma_word_ranges();
    lemma_congruent(a, a);
    lemma_congruent(b, b);
    let m = word_modulus();
    let low = if difference < 0 {
        difference + m
    } else {
        difference
    };
    assert(a - b == low || a - b == low + m || a - b == low - m || a - b == low + 2 * m);
    lemma_congruent(low, a - b);
}

/// Wrapping a summand to a signed machine word does not change the wrapped sum.
pub proof fn lemma_wrap_usize_sum(a: int, b: int)
    ensures
        wrap_usize(a + wrap_isize(b)) == wrap_usize(a + b),
{
    let m = word_modulus();
    let q = b / m;
    let r = b % m;
    assert(b == m * q + r && 0 <= r < m) by (nonlinear_arith)
        requires
            m > 0,
            q == b / m,
            r == b % m,
    ;
    let k = if r <= isize::MAX {
        q
    } else {
        q + 1
    };
    let w = wrap_isize(b);
    assert(b == w + m * k) by (nonlinear_arith)
        requires
            b == m * q + r,
            w == r && k == q || w == r - m && k == q + 1,
    ;
    vstd::arithmetic::div_mod::lemma_mod_multiples_vanish(k, a + w, m);
    assert(a + b == m * k + (a + w));
}

/// Wrapping to a signed machine word keeps the bits of the word.
pub proof fn lemma_wrap_usize_of_wrap_isize(x: int)
    ensures
        wrap_usize(wrap_isize(x)) == wrap_usize(x),
{
    let m = word_modulus();
    assert(0 <= x % m < m) by (nonlinear_arith)
        requires
            m > 0,
    ;
    lemma_congruent(wrap_usize(x), wrap_isize(x));
}

/// A machine word is determined by any number that is congruent to it.
proof fn lemma_congruent(low: int, x: int)
    requires
        0 <= low < word_modulus(),
        x == low || x == low + word_modulus() || x == low - word_modulus() || x == low + 2
            * word_modulus(),
    ensures
        wrap_usize(x) == low,
{
    let m = word_modulus();
    assert(x % m == low) by (nonlinear_arith)
        requires
            0 <= low < m,
            x == low || x == low + m || x == low - m || x == low + 2 * m,
    ;
}

/// How the ranges of signed and unsigned machine words relate.
pub proof fn lemma_word_ranges()
    ensures
        word_modulus() == 2 * (isize::MAX + 1),
        isize::MIN == -(isize::MAX + 1),
        word_modulus() == 0x1_0000_0000 || word_modulus() == 0x1_0000_0000_0000_0000,
        word_len() == 8 <==> word_modulus() == 0x1_0000_0000_0000_0000,
{
}

/// Splicing keeps the length, stores the new bytes and keeps all bytes around them.
pub proof fn lemma_splice(bytes: Seq<u8>, at: nat, new: Seq<u8>)
    requires
        at + new.len() <= bytes.len(),
    ensures
        splice(bytes, at, new).len() == bytes.len(),
        splice(bytes, at, new).subrange(at as int, (at + new.len()) as int) == new,
        forall|i: int|
            0 <= i < bytes.len() && !(at <= i < at + new.len()) ==> (#[trigger] splice(
                bytes,
                at,
                new,
            )[i]) == bytes[i],
{
    assert(splice(bytes, at, new).subrange(at as int, (at + new.len()) as int) =~= new);
}

/// A signed machine word is read back as it was written.
pub proof fn lemma_signed_word_round_trip(bytes: Seq<u8>, at: nat, value: int)
    requires
        at + word_len() <= bytes.len(),
        word_bytes_at(bytes, at) == le_bytes(wrap_usize(value) as nat, word_len()),
    ensures
        le_value(word_bytes_at(bytes, at)) == wrap_usize(value),
        signed_word_at(bytes, at) == wrap_isize(value),
{
    let m = word_modulus();
    assert(0 <= value % m < m) by (nonlinear_arith)
        requires
            m > 0,
    ;
    lemma_pow256_values();
    law_le_round_trip(wrap_usize(value) as nat, word_len());
    lemma_congruent(wrap_usize(value), wrap_usize(value));
}

/// Returns the number of bytes of a machine word.
pub fn word_size() -> (size: usize)
    ensures
        size == word_len(),
{
    if usize::BITS == 64 {
        8
    } else {
        4
    }
}

/// Returns the `width` lowest bytes of `value`, least significant byte first.
pub fn to_le_bytes(value: u64, width: usize) -> (bytes: Vec<u8>)
    ensures
        bytes@ == le_bytes(value as nat, width as nat),
        bytes@.len() == width,
{
    let mut bytes: Vec<u8> = Vec::new();
    let mut rest: u64 = value;
    let mut i: usize = 0;
    while i < width
        invariant
            i <= width,
            bytes@.len() == i,
            bytes@ + le_bytes(rest as nat, (width - i) as nat) == le_bytes(
                value as nat,
                width as nat,
            ),
        decreases width - i,
    {
        let ghost before = bytes@;
        bytes.push((rest % 256) as u8);
        assert(bytes@ + le_bytes(rest as nat / 256, (width - i - 1) as nat) =~= before + le_bytes(
            rest as nat,
            (width - i) as nat,
        ));
        rest = rest / 256;
        i = i + 1;
    }
    assert(bytes@ =~= le_bytes(value as nat, width as nat));
    bytes
}

/// Returns the number that the first `width` bytes of `bytes` denote.
pub fn from_le_bytes(bytes: &[u8], width: usize) -> (value: u64)
    requires
        width <= 8,
        width <= bytes@.len(),
    ensures
        value == le_value(bytes@.take(width as int)),
{
    let mut value: u64 = 0;
    let mut i: usize = width;
    assert(bytes@.subrange(width as int, width as int).len() == 0);
    while 0 < i
        invariant
            i <= width <= 8,
            width <= bytes@.len(),
            value == le_value(bytes@.subrange(i as int, width as int)),
        decreases i,
    {
        i = i - 1;
        let ghost part = bytes@.subrange(i as int, width as int);
        proof {
            assert(part.skip(1) =~= bytes@.subrange(i + 1, width as int));
            law_le_bytes_of_value(part);
            lemma_pow256_values();
            if part.len() < 8 {
                power::lemma_pow_increases(256, part.len(), 8);
            }
        }
        value = value * 256 + bytes[i] as u64;
    }
    assert(bytes@.subrange(0, width as int) =~= bytes@.take(width as int));
    value
}

/// Returns the machine word whose bits are those of `value`.
pub fn isize_to_bits(value: isize) -> (bits: usize)
    ensures
        bits == wrap_usize(value as int),
{
    proof {
        lemma_wrap_isize_in_range(value as int);
    }
    if 0 <= value {
        value as usize
    } else {
        usize::MAX - (-(value + 1)) as usize
    }
}

/// Returns the signed machine word whose bits are `bits`.
pub fn isize_from_bits(bits: usize) -> (value: isize)
    ensures
        value == wrap_isize(bits as int),
{
    proof {
        lemma_word_ranges();
        let m = word_modulus();
        assert(bits as int % m == bits) by (nonlinear_arith)
            requires
                0 <= bits < m,
        ;
    }
    if bits <= isize::MAX as usize {
        bits as isize
    } else {
        -((usize::MAX - bits) as isize) - 1
    }
}

} // verus!
