//! Parsing of amount strings: a canonical decimal numeral (ASCII digits
//! only, at least one) denoting a non-negative integer that fits in 128
//! bits.
use vstd::prelude::*;

verus! {

/// An ASCII decimal digit.
pub open spec fn is_digit(b: u8) -> bool {
    48 <= b <= 57
}

/// Every byte is a digit and there is at least one.
pub open spec fn is_decimal(s: Seq<u8>) -> bool {
    s.len() > 0 && forall|i: int| 0 <= i < s.len() ==> is_digit(#[trigger] s[i])
}

/// The integer a digit string denotes (non-negative on digit strings).
pub open spec fn decimal_value_of(s: Seq<u8>) -> int
    decreases s.len(),
{
    if s.len() == 0 {
        0
    } else {
        decimal_value_of(s.drop_last()) * 10 + (s.last() - 48)
    }
}

/// A digit string denotes a non-negative integer.
proof fn lemma_decimal_nonneg(s: Seq<u8>)
    requires
        forall|j: int| 0 <= j < s.len() ==> is_digit(#[trigger] s[j]),
    ensures
        decimal_value_of(s) >= 0,
    decreases s.len(),
{
    if s.len() > 0 {
        lemma_decimal_nonneg(s.drop_last());
        assert(decimal_value_of(s.drop_last()) * 10 >= 0) by (nonlinear_arith)
            requires decimal_value_of(s.drop_last()) >= 0;
    }
}

/// A digit string denotes at least what any of its prefixes denotes.
proof fn lemma_decimal_prefix_le(s: Seq<u8>, i: int)
    requires
        0 <= i <= s.len(),
        forall|j: int| 0 <= j < s.len() ==> is_digit(#[trigger] s[j]),
    ensures
        decimal_value_of(s.take(i)) <= decimal_value_of(s),
    decreases s.len() - i,
{
    if i < s.len() {
        assert(s.take(i + 1).drop_last() =~= s.take(i));
        assert(forall|j: int| 0 <= j < s.take(i).len() ==> is_digit(#[trigger] s.take(i)[j]));
        lemma_decimal_nonneg(s.take(i));
        assert(decimal_value_of(s.take(i)) <= decimal_value_of(s.take(i)) * 10 + (s[i] - 48))
            by (nonlinear_arith)
            requires is_digit(s[i]), decimal_value_of(s.take(i)) >= 0;
        lemma_decimal_prefix_le(s, i + 1);
        assert(s.take(s.len() as int) =~= s);
    } else {
        assert(s.take(i) =~= s);
    }
}

/// Parses a canonical decimal numeral. Returns the denoted value exactly
/// when the input is a well-formed numeral whose value fits in `u128`,
/// and nothing otherwise.
pub fn parse_amount(s: &Vec<u8>) -> (parsed: Option<u128>)
    ensures
        parsed is Some <==> is_decimal(s@) && decimal_value_of(s@) <= u128::MAX,
        parsed is Some ==> parsed.unwrap() == decimal_value_of(s@),
{
    if s.len() == 0 {
        return None;
    }
    let mut value: u128 = 0;
    let mut i: usize = 0;
    while i < s.len()
        invariant
            0 < s@.len(),
            i <= s@.len(),
            forall|j: int| 0 <= j < i ==> is_digit(#[trigger] s@[j]),
            value == decimal_value_of(s@.take(i as int)),
        decreases s@.len() - i,
    {
        let b = s[i];
        if b < 48 || b > 57 {
            return None;
        }
        let digit = (b - 48) as u128;
        let scaled = match value.checked_mul(10) {
            Some(v) => v,
            None => {
                proof {
                    lemma_overflow_is_final(s@, i as int);
                }
                return None;
            },
        };
        let next = match scaled.checked_add(digit) {
            Some(v) => v,
            None => {
                proof {
                    lemma_overflow_is_final(s@, i as int);
                }
                return None;
            },
        };
        proof {
            assert(s@.take(i + 1).drop_last() =~= s@.take(i as int));
        }
        value = next;
        i += 1;
    }
    proof {
        assert(s@.take(s@.len() as int) =~= s@);
    }
    Some(value)
}

/// If one more digit would push the running value past `u128::MAX`, then
/// the whole string's value is past it too, whatever the string is.
proof fn lemma_overflow_is_final(s: Seq<u8>, i: int)
    requires
        0 <= i < s.len(),
        is_digit(s[i]),
        decimal_value_of(s.take(i)) * 10 + (s[i] - 48) > u128::MAX,
    ensures
        !(is_decimal(s) && decimal_value_of(s) <= u128::MAX),
{
    if is_decimal(s) {
        assert(s.take(i + 1).drop_last() =~= s.take(i));
        assert(decimal_value_of(s.take(i + 1)) > u128::MAX);
        lemma_decimal_prefix_le(s, i + 1);
    }
}

} // verus!
