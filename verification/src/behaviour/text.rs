//! What the decimal notation of numbers is.
use crate::text;
use vstd::prelude::*;

verus! {

/// The number that the decimal digits `digits` denote, most significant digit first.
pub open spec fn denoted(digits: Seq<char>) -> int
    decreases digits.len(),
{
    if digits.len() == 0 {
        0
    } else {
        10 * denoted(digits.drop_last()) + (digits.last() as int - '0' as int)
    }
}

/// Decimal notation consists of digits, has no leading zero and denotes its number.
pub proof fn law_decimal(value: nat)
    ensures
        text::decimal(value).len() > 0,
        forall|i: int|
            0 <= i < text::decimal(value).len() ==> '0' <= #[trigger] text::decimal(value)[i]
                <= '9',
        value > 0 ==> text::decimal(value)[0] != '0',
        denoted(text::decimal(value)) == value,
    decreases value,
{
    let digits = text::decimal(value);
    if value < 10 {
        reveal_with_fuel(denoted, 2);
        assert(digits.drop_last() =~= Seq::<char>::empty());
    } else {
        law_decimal(value / 10);
        assert(digits.drop_last() =~= text::decimal(value / 10));
    }
}

/// The text of a number is its decimal notation: it consists of digits, has no leading zero and
/// denotes the number.
pub proof fn law_to_decimal(value: u64)
    ensures
        forall|notation: String| #[trigger]
            call_ensures(text::to_decimal, (value,), notation) ==> {
                &&& notation@.len() > 0
                &&& forall|i: int|
                    0 <= i < notation@.len() ==> '0' <= #[trigger] notation@[i] <= '9'
                &&& value > 0 ==> notation@[0] != '0'
                &&& denoted(notation@) == value
            },
{
    law_decimal(value as nat);
}

} // verus!
