//! Decimal parsing of 32-bit signed integers: an optional sign followed by
//! one or more ASCII digits, with the value required to fit in `i32`.

use vstd::prelude::*;

verus! {

/// `c` is an ASCII decimal digit.
pub open spec fn is_digit(c: char) -> bool {
    48 <= c as u32 <= 57
}

/// Numeric value of an ASCII digit.
pub open spec fn digit_val(c: char) -> int {
    c as u32 - 48
}

/// Value of a big-endian digit string (most significant digit first).
pub open spec fn digits_val(s: Seq<char>) -> int
    decreases s.len(),
{
    if s.len() == 0 {
        0
    } else {
        digits_val(s.drop_last()) * 10 + digit_val(s.last())
    }
}

/// Every character of `s` is an ASCII decimal digit.
pub open spec fn all_digits(s: Seq<char>) -> bool {
    forall|i: int| 0 <= i < s.len() ==> is_digit(s[i])
}

/// The value, if any, that a token denotes as a 32-bit signed integer:
/// an optional `+` or `-` sign, then one or more digits, the whole value
/// within the range of `i32`.
pub open spec fn int32_of(s: Seq<char>) -> Option<i32> {
    let signed = s.len() > 0 && (s[0] == '-' || s[0] == '+');
    let neg = s.len() > 0 && s[0] == '-';
    let body = if signed {
        s.drop_first()
    } else {
        s
    };
    if body.len() == 0 || !all_digits(body) {
        None
    } else {
        let m = digits_val(body);
        if neg {
            if -m >= i32::MIN {
                Some((-m) as i32)
            } else {
                None
            }
        } else {
            if m <= i32::MAX {
                Some(m as i32)
            } else {
                None
            }
        }
    }
}

pub proof fn lemma_digits_val_nonneg(s: Seq<char>)
    requires
        all_digits(s),
    ensures
        digits_val(s) >= 0,
    decreases s.len(),
{
    if s.len() > 0 {
        assert(all_digits(s.drop_last()));
        lemma_digits_val_nonneg(s.drop_last());
    }
}

/// A digit string is worth at least any of its prefixes.
pub proof fn lemma_digits_val_prefix(s: Seq<char>, k: int)
    requires
        all_digits(s),
        0 <= k <= s.len(),
    ensures
        digits_val(s.take(k)) <= digits_val(s),
    decreases s.len(),
{
    if k == s.len() {
        assert(s.take(k) =~= s);
    } else {
        assert(all_digits(s.drop_last()));
        assert(s.drop_last().take(k) =~= s.take(k));
        lemma_digits_val_prefix(s.drop_last(), k);
        lemma_digits_val_nonneg(s.drop_last());
    }
}

/// Parses `s` as a 32-bit signed integer exactly as [`int32_of`] describes.
pub fn parse_i32(s: &str) -> (r: Option<i32>)
    ensures
        r == int32_of(s@),
{
    let n = s.unicode_len();
    let mut i: usize = 0;
    let mut neg: bool = false;
    if n > 0 {
        let c = s.get_char(0);
        if c == '-' {
            neg = true;
            i = 1;
        } else if c == '+' {
            i = 1;
        }
    }
    let ghost body: Seq<char> = s@.subrange(i as int, n as int);
    proof {
        if i == 1 {
            assert(body =~= s@.drop_first());
        } else {
            assert(body =~= s@);
        }
    }
    if i == n {
        return None;
    }
    let mut acc: u64 = 0;
    let mut j: usize = i;
    while j < n
        invariant
            i <= j <= n,
            n == s@.len(),
            i < n,
            i == 0 || i == 1,
            (i == 1) <==> (s@[0] == '-' || s@[0] == '+'),
            neg <==> (i == 1 && s@[0] == '-'),
            body == s@.subrange(i as int, n as int),
            body == (if i == 1 {
                s@.drop_first()
            } else {
                s@
            }),
            all_digits(s@.subrange(i as int, j as int)),
            acc == digits_val(s@.subrange(i as int, j as int)),
            acc <= 2147483648,
        decreases n - j,
    {
        let c = s.get_char(j);
        let u: u32 = c as u32;
        if u < 48 || u > 57 {
            assert(!is_digit(body[j - i]));
            return None;
        }
        let ghost pre = s@.subrange(i as int, j as int);
        let ghost ext = s@.subrange(i as int, j + 1 as int);
        proof {
            assert(ext.drop_last() =~= pre);
            assert(ext.last() == s@[j as int]);
        }
        acc = acc * 10 + ((u - 48) as u64);
        j = j + 1;
        if acc > 2147483648 {
            proof {
                if all_digits(body) {
                    lemma_digits_val_prefix(body, j - i);
                    assert(body.take(j - i) =~= s@.subrange(i as int, j as int));
                }
            }
            return None;
        }
    }
    proof {
        assert(body =~= s@.subrange(i as int, j as int));
    }
    if neg {
        let v: i64 = -(acc as i64);
        Some(v as i32)
    } else {
        if acc > 2147483647 {
            None
        } else {
            Some(acc as i32)
        }
    }
}

} // verus!
