//! Signed numeric interpretation of strings, used by the ordering comparators
//! of `if`. A string that is an optionally negated digit run whose value fits
//! in an `i64` denotes that value; every other string denotes `0`.

use vstd::prelude::*;
use vstd::arithmetic::div_mod::lemma_fundamental_div_mod;

verus! {

/// Whether `c` is a decimal digit.
pub open spec fn is_digit(c: char) -> bool {
    48 <= c as u32 <= 57
}

/// Value of one decimal digit.
pub open spec fn digit_val(c: char) -> int {
    c as u32 - 48
}

/// Value of a digit run read in base ten.
pub open spec fn digits_val(s: Seq<char>) -> int
    decreases s.len(),
{
    if s.len() == 0 {
        0
    } else {
        digits_val(s.drop_last()) * 10 + digit_val(s.last())
    }
}

/// Whether every character of `s` is a decimal digit.
pub open spec fn all_digits(s: Seq<char>) -> bool {
    forall|i: int| 0 <= i < s.len() ==> is_digit(s[i])
}

/// The exact numeric reading of `s`: a nonempty digit run, optionally
/// preceded by one minus sign; `None` for every other shape.
pub open spec fn parsed_num(s: Seq<char>) -> Option<int> {
    if s.len() > 0 && all_digits(s) {
        Some(digits_val(s))
    } else if s.len() >= 2 && s[0] == '-' && all_digits(s.skip(1)) {
        Some(-digits_val(s.skip(1)))
    } else {
        None
    }
}

/// The signed numeric value of a string: its decimal value when it parses and
/// fits in an `i64`, and `0` otherwise.
pub open spec fn num_of(s: Seq<char>) -> int {
    match parsed_num(s) {
        Some(v) => if -0x8000_0000_0000_0000 <= v <= 0x7fff_ffff_ffff_ffff {
            v
        } else {
            0
        },
        None => 0,
    }
}

proof fn lemma_digits_val_nonneg(s: Seq<char>)
    requires
        all_digits(s),
    ensures
        digits_val(s) >= 0,
    decreases s.len(),
{
    if s.len() > 0 {
        assert(all_digits(s.drop_last()));
        lemma_digits_val_nonneg(s.drop_last());
    }
}

/// Numeric value of one string, per `num_of`.
pub fn to_num_signed(s: &str) -> (r: i64)
    ensures
        r as int == num_of(s@),
{
    let n = s.unicode_len();
    if n == 0 {
        return 0;
    }
    let neg = s.get_char(0) == '-';
    let start: usize = if neg { 1 } else { 0 };
    if n == start {
        // just a minus sign
        return 0;
    }
    let mut i: usize = start;
    let mut m: u64 = 0;
    let mut overflow = false;
    let ghost digits = s@.skip(start as int);
    assert(digits.len() == n - start);
    while i < n
        invariant
            start <= i <= n,
            n == s@.len(),
            start == 0 || start == 1,
            start == 1 ==> s@[0] == '-',
            start == 0 ==> !(s@[0] == '-'),
            digits == s@.skip(start as int),
            all_digits(digits.take(i - start)),
            !overflow ==> m as int == digits_val(digits.take(i - start)),
            overflow ==> digits_val(digits.take(i - start)) > u64::MAX as int,
        decreases n - i,
    {
        let c = s.get_char(i);
        let cu = c as u32;
        if cu < 48 || cu > 57 {
            // not a digit: the string has no numeric reading
            proof {
                assert(s@[i as int] == c);
                assert(!is_digit(s@[i as int]));
                assert(!all_digits(s@)) by {
                    assert(!is_digit(s@[i as int]));
                }
                if s@.len() >= 2 && s@[0] == '-' {
                    assert(s@.skip(1)[i - 1] == s@[i as int]);
                    assert(!all_digits(s@.skip(1)));
                }
                assert(parsed_num(s@) is None);
            }
            return 0;
        }
        let d: u64 = (cu - 48) as u64;
        let ghost prefix = digits.take(i - start);
        let ghost prefix2 = digits.take(i + 1 - start);
        proof {
            assert(prefix2.drop_last() =~= prefix);
            assert(prefix2.last() == digits[i - start]);
            assert(digits[i - start] == s@[i as int]);
            assert(digits_val(prefix2) == digits_val(prefix) * 10 + digit_val(c));
            assert(all_digits(prefix2));
        }
        if !overflow {
            if m > (u64::MAX - d) / 10 {
                proof {
                    lemma_fundamental_div_mod((u64::MAX - d) as int, 10);
                    assert(m as int * 10 + d as int > u64::MAX as int);
                }
                overflow = true;
            } else {
                proof {
                    lemma_fundamental_div_mod((u64::MAX - d) as int, 10);
                    assert(m as int * 10 + d as int <= u64::MAX as int);
                }
                m = m * 10 + d;
            }
        } else {
            proof {
                lemma_digits_val_nonneg(prefix);
                assert(digits_val(prefix2) > u64::MAX as int);
            }
        }
        i = i + 1;
    }
    proof {
        assert(digits.take(n - start) =~= digits);
        if start == 1 {
            assert(digits =~= s@.skip(1));
            assert(parsed_num(s@) == Some(-digits_val(digits)));
        } else {
            assert(digits =~= s@);
            assert(parsed_num(s@) == Some(digits_val(digits)));
        }
    }
    if overflow {
        return 0;
    }
    if neg {
        if m <= 0x7fff_ffff_ffff_ffff {
            -(m as i64)
        } else if m == 0x8000_0000_0000_0000 {
            -0x7fff_ffff_ffff_ffff - 1
        } else {
            0
        }
    } else {
        if m <= 0x7fff_ffff_ffff_ffff {
            m as i64
        } else {
            0
        }
    }
}

} // verus!
