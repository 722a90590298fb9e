//! Parsing of decimal-string numbers into fixed-point integers.
//!
//! Trade records and mark prices arrive from the indexing service with
//! every number as a decimal string: an optional leading `-` followed by
//! digits. The parser accepts exactly those strings whose value fits the
//! fixed-point range, and returns exactly that value.

use vstd::prelude::*;
use vstd::string::StrSliceExecFns;
use crate::fixed::in_range;

verus! {

/// Whether `c` is a decimal digit.
pub open spec fn is_digit(c: char) -> bool {
    '0' as int <= c as int <= '9' as int
}

/// The numeric value of a digit character.
pub open spec fn digit_val(c: char) -> int {
    c as int - '0' as int
}

/// Every character of `s` is a decimal digit.
pub open spec fn all_digits(s: Seq<char>) -> bool {
    forall|i: int| 0 <= i < s.len() ==> is_digit(#[trigger] s[i])
}

/// The value of a digit string, most significant digit first.
pub open spec fn dec_value(s: Seq<char>) -> int
    decreases s.len(),
{
    if s.len() == 0 {
        0
    } else {
        dec_value(s.drop_last()) * 10 + digit_val(s.last())
    }
}

/// A decimal number: an optional leading `-`, then at least one digit.
pub open spec fn valid_decimal(s: Seq<char>) -> bool {
    if s.len() > 0 && s[0] == '-' {
        s.len() >= 2 && all_digits(s.skip(1))
    } else {
        s.len() >= 1 && all_digits(s)
    }
}

/// The signed value of a decimal string.
pub open spec fn decimal_value(s: Seq<char>) -> int {
    if s.len() > 0 && s[0] == '-' {
        -dec_value(s.skip(1))
    } else {
        dec_value(s)
    }
}

proof fn lemma_dec_value_nonneg(s: Seq<char>)
    requires
        all_digits(s),
    ensures
        dec_value(s) >= 0,
    decreases s.len(),
{
    if s.len() > 0 {
        assert(all_digits(s.drop_last()));
        lemma_dec_value_nonneg(s.drop_last());
    }
}

/// A digit string is worth at least any of its prefixes.
proof fn lemma_dec_value_prefix(s: Seq<char>, j: int)
    requires
        all_digits(s),
        0 <= j <= s.len(),
    ensures
        dec_value(s.take(j)) <= dec_value(s),
    decreases s.len() - j,
{
    if j < s.len() {
        assert(all_digits(s.take(j))) by {
            assert(forall|i: int| 0 <= i < j ==> s.take(j)[i] == s[i]);
        }
        lemma_dec_value_nonneg(s.take(j));
        assert(s.take(j + 1).drop_last() =~= s.take(j));
        assert(s.take(j + 1).last() == s[j]);
        assert(dec_value(s.take(j + 1)) == dec_value(s.take(j)) * 10 + digit_val(s[j]));
        lemma_dec_value_prefix(s, j + 1);
    } else {
        assert(s.take(j) =~= s);
    }
}

/// Parse a decimal string into a fixed-point integer. Returns `Some`
/// exactly for a well-formed decimal number whose value is representable,
/// and then exactly that value.
pub fn parse_fixed(s: &str) -> (r: Option<i128>)
    ensures
        match r {
            Some(v) => valid_decimal(s@) && in_range(decimal_value(s@)) && v as int
                == decimal_value(s@),
            None => !(valid_decimal(s@) && in_range(decimal_value(s@))),
        },
{
    let n = s.unicode_len();
    let neg = n > 0 && s.get_char(0) == '-';
    let start: usize = if neg {
        1
    } else {
        0
    };
    if n == start {
        return None;
    }
    let ghost digits: Seq<char> = if neg {
        s@.skip(1)
    } else {
        s@
    };
    let mut acc: u128 = 0;
    let mut i: usize = start;
    proof {
        assert(digits.take(0) =~= Seq::<char>::empty());
    }
    while i < n
        invariant
            start <= i <= n,
            n == s@.len(),
            start == 1 <==> (s@.len() > 0 && s@[0] == '-'),
            start == 0 || start == 1,
            digits == (if start == 1 {
                s@.skip(1)
            } else {
                s@
            }),
            digits.len() == n - start,
            all_digits(digits.take(i - start)),
            acc as int == dec_value(digits.take(i - start)),
        decreases n - i,
    {
        let c = s.get_char(i);
        let code: u32 = c as u32;
        proof {
            assert(digits[i - start] == s@[i as int]);
        }
        if code < 48 || code > 57 {
            proof {
                assert(!is_digit(digits[i - start]));
            }
            return None;
        }
        let d: u128 = (code - 48) as u128;
        let ghost k = i - start;
        let acc10 = match acc.checked_mul(10) {
            Some(v) => v,
            None => {
                proof {
                    overflow_means_out_of_range(digits, k as int, acc as int, d as int, s@, start as int);
                }
                return None;
            },
        };
        let next = match acc10.checked_add(d) {
            Some(v) => v,
            None => {
                proof {
                    overflow_means_out_of_range(digits, k as int, acc as int, d as int, s@, start as int);
                }
                return None;
            },
        };
        acc = next;
        proof {
            assert(digits.take(k + 1).drop_last() =~= digits.take(k as int));
            assert(digits.take(k + 1).last() == digits[k as int]);
            assert(all_digits(digits.take(k + 1)));
            assert(acc as int == dec_value(digits.take(k + 1)));
        }
        i += 1;
    }
    proof {
        assert(digits.take(i - start) =~= digits);
        assert(valid_decimal(s@));
    }
    if !neg {
        if acc <= (i128::MAX as u128) {
            Some(acc as i128)
        } else {
            None
        }
    } else {
        if acc <= (i128::MAX as u128) {
            Some(-(acc as i128))
        } else if acc == (i128::MAX as u128) + 1 {
            Some(i128::MIN)
        } else {
            None
        }
    }
}

/// If one accumulation step cannot be represented in a `u128`, the whole
/// string's value cannot lie in the fixed-point range, whatever follows.
proof fn overflow_means_out_of_range(
    digits: Seq<char>,
    k: int,
    acc: int,
    d: int,
    whole: Seq<char>,
    start: int,
)
    requires
        0 <= k < digits.len(),
        all_digits(digits.take(k)),
        is_digit(digits[k]),
        acc == dec_value(digits.take(k)),
        acc >= 0,
        d == digit_val(digits[k]),
        acc * 10 + d > u128::MAX,
        digits == (if start == 1 {
            whole.skip(1)
        } else {
            whole
        }),
        start == 1 <==> (whole.len() > 0 && whole[0] == '-'),
        start == 0 || start == 1,
    ensures
        !(valid_decimal(whole) && in_range(decimal_value(whole))),
{
    if valid_decimal(whole) {
        assert(all_digits(digits));
        assert(digits.take(k + 1).drop_last() =~= digits.take(k));
        assert(digits.take(k + 1).last() == digits[k]);
        assert(dec_value(digits.take(k + 1)) == acc * 10 + d);
        lemma_dec_value_prefix(digits, k + 1);
        assert(dec_value(digits) > u128::MAX);
        assert(decimal_value(whole) == if start == 1 {
            -dec_value(digits)
        } else {
            dec_value(digits)
        });
        assert(!in_range(decimal_value(whole)));
    }
}

} // verus!
