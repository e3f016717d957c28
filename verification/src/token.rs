//! Integer-literal tokens: the grammar deciding a value's kind.
//!
//! A token that parses cleanly as a 64-bit signed integer literal — an
//! optional sign followed by one or more decimal digits, with the value in
//! range — is an integer. Any other token is left to the caller's float
//! interpretation.

use vstd::prelude::*;

use crate::record::{RawValue, SpecRawValue};

verus! {

/// True if `c` is a decimal digit.
pub open spec fn is_digit(c: char) -> bool {
    48 <= c as u32 <= 57
}

/// The value of the digit `c`.
pub open spec fn digit_val(c: char) -> int {
    c as u32 - 48
}

/// True if every character of `s` is a decimal digit.
pub open spec fn all_digits(s: Seq<char>) -> bool {
    forall|i: int| 0 <= i < s.len() ==> is_digit(#[trigger] s[i])
}

/// The value of the digit string `s`, read most significant first.
pub open spec fn digits_val(s: Seq<char>) -> int
    decreases s.len(),
{
    if s.len() == 0 {
        0
    } else {
        digits_val(s.drop_last()) * 10 + digit_val(s.last())
    }
}

/// The digits of an integer token: the token with a leading sign removed.
pub open spec fn int_body(s: Seq<char>) -> Seq<char> {
    if s.len() > 0 && (s[0] == '+' || s[0] == '-') {
        s.subrange(1, s.len() as int)
    } else {
        s
    }
}

/// True if the token starts with a minus sign.
pub open spec fn is_negative(s: Seq<char>) -> bool {
    s.len() > 0 && s[0] == '-'
}

/// The signed value of the token `s`, meaningful when it is an integer
/// token.
pub open spec fn int_token_val(s: Seq<char>) -> int {
    if is_negative(s) {
        -digits_val(int_body(s))
    } else {
        digits_val(int_body(s))
    }
}

/// True if `s` is an integer-literal token whose value fits a 64-bit
/// signed integer: an optional sign, then one or more decimal digits.
pub open spec fn is_int_token(s: Seq<char>) -> bool {
    &&& int_body(s).len() > 0
    &&& all_digits(int_body(s))
    &&& i64::MIN <= int_token_val(s) <= i64::MAX
}

/// A digit string's value is non-negative.
proof fn lemma_digits_val_nonneg(s: Seq<char>)
    requires
        all_digits(s),
    ensures
        digits_val(s) >= 0,
    decreases s.len(),
{
    if s.len() > 0 {
        assert(all_digits(s.drop_last()));
        lemma_digits_val_nonneg(s.drop_last());
    }
}

/// Extending a digit string never decreases its value.
proof fn lemma_digits_val_prefix_le(s: Seq<char>, i: int)
    requires
        all_digits(s),
        0 <= i <= s.len(),
    ensures
        digits_val(s.subrange(0, i)) <= digits_val(s),
    decreases s.len() - i,
{
    if i < s.len() {
        let t = s.subrange(0, i + 1);
        assert(t.drop_last() =~= s.subrange(0, i));
        assert(all_digits(t));
        lemma_digits_val_nonneg(t.drop_last());
        assert(digits_val(t) == digits_val(t.drop_last()) * 10 + digit_val(t.last()));
        assert(digits_val(t.drop_last()) <= digits_val(t.drop_last()) * 10) by {
            lemma_digits_val_nonneg(t.drop_last());
        }
        lemma_digits_val_prefix_le(s, i + 1);
    } else {
        assert(s.subrange(0, i) =~= s);
    }
}

/// Parse `s` as a 64-bit signed integer literal: `Some` exactly on integer
/// tokens, with the token's value.
pub fn parse_int_token(s: &str) -> (r: Option<i64>)
    ensures
        r == if is_int_token(s@) {
            Some(int_token_val(s@) as i64)
        } else {
            None::<i64>
        },
{
    let n = s.unicode_len();
    if n == 0 {
        return None;
    }
    let first = s.get_char(0);
    let neg = first == '-';
    let start: usize = if first == '-' || first == '+' {
        1
    } else {
        0
    };
    if start == n {
        // A bare sign has no digits.
        assert(int_body(s@).len() == 0);
        return None;
    }
    let ghost body = int_body(s@);
    assert(body =~= s@.subrange(start as int, n as int));
    // The largest magnitude a token may carry: one more than i64::MAX for a
    // negative token.
    let limit: u128 = if neg {
        9223372036854775808
    } else {
        9223372036854775807
    };
    let mut acc: u128 = 0;
    let mut i: usize = start;
    while i < n
        invariant
            n == s@.len(),
            start <= i <= n,
            body == int_body(s@),
            body =~= s@.subrange(start as int, n as int),
            1 <= start <= n ==> (s@[0] == '+' || s@[0] == '-'),
            start == 0 ==> !(s@[0] == '+' || s@[0] == '-'),
            neg == is_negative(s@),
            limit == if neg {
                9223372036854775808u128
            } else {
                9223372036854775807u128
            },
            all_digits(body.subrange(0, i - start)),
            acc == digits_val(body.subrange(0, i - start)),
            acc <= limit,
        decreases n - i,
    {
        let c = s.get_char(i);
        let code = c as u32;
        if code < 48 || code > 57 {
            assert(!is_digit(body[i - start]));
            assert(!is_int_token(s@));
            return None;
        }
        let d = (code - 48) as u128;
        proof {
            assert(body.subrange(0, i + 1 - start).drop_last() =~= body.subrange(0, i - start));
            assert(body.subrange(0, i + 1 - start).last() == body[i - start]);
        }
        acc = acc * 10 + d;
        if acc > limit {
            proof {
                // The value only grows as digits are appended, so the token
                // cannot fit whatever follows.
                if is_int_token(s@) {
                    lemma_digits_val_prefix_le(body, i + 1 - start);
                    lemma_digits_val_nonneg(body);
                    assert(false);
                }
            }
            return None;
        }
        i += 1;
    }
    proof {
        assert(body.subrange(0, n - start) =~= body);
        assert(is_int_token(s@));
    }
    if neg {
        if acc == 9223372036854775808 {
            Some(i64::MIN)
        } else {
            Some(-(acc as i64))
        }
    } else {
        Some(acc as i64)
    }
}

/// Classify a token under the integer-then-float coercion rule.
pub open spec fn spec_classify(t: Seq<char>) -> SpecRawValue {
    if is_int_token(t) {
        SpecRawValue::Int(int_token_val(t) as i64)
    } else {
        SpecRawValue::Pending(t)
    }
}

/// Classify a token: an integer token becomes `Int` with its value; any
/// other token is kept as `Pending` text for the caller's float
/// interpretation.
pub fn parse_number_token(s: &str) -> (r: RawValue)
    ensures
        r.view_raw() == spec_classify(s@),
{
    match parse_int_token(s) {
        Some(v) => RawValue::Int(v),
        None => RawValue::Pending(s.to_owned()),
    }
}

} // verus!
