//! Recognition of 32-bit float literals. A float cell stores its literal
//! text; this module decides which tokens qualify. The accepted grammar is
//! an optional sign, then either one of the words `inf`, `infinity`, `nan`
//! (ASCII case-insensitive) or a number: digits with at most one decimal
//! point and at least one digit, optionally followed by an exponent
//! (`e` or `E`, an optional sign, one or more digits).

use vstd::prelude::*;
use crate::num::{all_digits, is_digit};

verus! {

/// `c` equals the (lowercase) letter `l`, ignoring ASCII case.
pub open spec fn eq_ci(c: char, l: char) -> bool {
    c == l || (65 <= c as u32 <= 90 && c as u32 + 32 == l as u32)
}

/// `s` spells the word `w` (given in lowercase), ignoring ASCII case.
pub open spec fn matches_word(s: Seq<char>, w: Seq<char>) -> bool {
    s.len() == w.len() && (forall|i: int| 0 <= i < s.len() ==> eq_ci(s[i], w[i]))
}

/// `s` is one of the special float words: infinity or not-a-number.
pub open spec fn is_special_word(s: Seq<char>) -> bool {
    matches_word(s, "inf"@) || matches_word(s, "infinity"@) || matches_word(s, "nan"@)
}

/// `c` introduces an exponent.
pub open spec fn is_e(c: char) -> bool {
    c == 'e' || c == 'E'
}

/// A mantissa: characters drawn from digits and the decimal point, with at
/// most one point and at least one digit.
pub open spec fn is_mantissa(s: Seq<char>) -> bool {
    (forall|i: int| 0 <= i < s.len() ==> is_digit(s[i]) || s[i] == '.') && (forall|i: int, j: int|
        0 <= i < s.len() && 0 <= j < s.len() && s[i] == '.' && s[j] == '.' ==> i == j) && (exists|
        i: int,
    |
        0 <= i < s.len() && is_digit(s[i]))
}

/// `s` without one leading `+` or `-`, if it has one.
pub open spec fn sign_stripped(s: Seq<char>) -> Seq<char> {
    if s.len() > 0 && (s[0] == '+' || s[0] == '-') {
        s.drop_first()
    } else {
        s
    }
}

/// An exponent body: an optional sign, then one or more digits.
pub open spec fn is_exp_part(s: Seq<char>) -> bool {
    sign_stripped(s).len() > 0 && all_digits(sign_stripped(s))
}

/// A number: a mantissa, optionally followed by an exponent marker and an
/// exponent body.
pub open spec fn is_number(s: Seq<char>) -> bool {
    is_mantissa(s) || (exists|i: int|
        0 <= i < s.len() && is_e(s[i]) && is_mantissa(s.take(i)) && is_exp_part(s.skip(i + 1)))
}

/// `s` denotes a 32-bit float: an optional sign, then a special word or a
/// number.
pub open spec fn is_float_literal(s: Seq<char>) -> bool {
    is_special_word(sign_stripped(s)) || is_number(sign_stripped(s))
}

/// The tail of `s` from `from`, compared against the lowercase word `w`,
/// ignoring ASCII case.
fn eq_word_ci(s: &str, from: usize, w: &str) -> (r: bool)
    requires
        from <= s@.len(),
    ensures
        r == matches_word(s@.skip(from as int), w@),
{
    let n = s.unicode_len();
    let wn = w.unicode_len();
    if n - from != wn {
        return false;
    }
    let mut k: usize = 0;
    while k < wn
        invariant
            k <= wn,
            wn == w@.len(),
            n == s@.len(),
            from + wn == n,
            forall|i: int| 0 <= i < k ==> eq_ci(s@.skip(from as int)[i], w@[i]),
        decreases wn - k,
    {
        let c = s.get_char(from + k);
        let l = w.get_char(k);
        let u: u32 = c as u32;
        let lu: u32 = l as u32;
        if !(u == lu || (65 <= u && u <= 90 && u + 32 == lu)) {
            assert(!eq_ci(s@.skip(from as int)[k as int], w@[k as int]));
            return false;
        }
        k = k + 1;
    }
    true
}

/// Decides whether `s` is a float literal, exactly as [`is_float_literal`]
/// describes.
pub fn is_float_token(s: &str) -> (r: bool)
    ensures
        r == is_float_literal(s@),
{
    let n = s.unicode_len();
    let mut i0: usize = 0;
    if n > 0 {
        let c = s.get_char(0);
        if c == '+' || c == '-' {
            i0 = 1;
        }
    }
    let ghost b: Seq<char> = s@.skip(i0 as int);
    proof {
        assert(b =~= sign_stripped(s@));
    }
    if eq_word_ci(s, i0, "inf") || eq_word_ci(s, i0, "infinity") || eq_word_ci(s, i0, "nan") {
        return true;
    }
    let mut j: usize = i0;
    let mut seen_digit: bool = false;
    let mut seen_dot: bool = false;
    while j < n
        invariant
            i0 <= j <= n,
            n == s@.len(),
            b == s@.skip(i0 as int),
            b == sign_stripped(s@),
            !is_special_word(b),
            forall|k: int| 0 <= k < j - i0 ==> is_digit(b[k]) || b[k] == '.',
            forall|k: int| 0 <= k < j - i0 ==> !is_e(b[k]),
            seen_digit <==> (exists|k: int| 0 <= k < j - i0 && is_digit(b[k])),
            seen_dot <==> (exists|k: int| 0 <= k < j - i0 && b[k] == '.'),
            forall|k1: int, k2: int|
                0 <= k1 < j - i0 && 0 <= k2 < j - i0 && b[k1] == '.' && b[k2] == '.' ==> k1 == k2,
        decreases n - j,
    {
        let ghost p: int = j - i0;
        let c = s.get_char(j);
        let u: u32 = c as u32;
        assert(b[p] == c);
        if 48 <= u && u <= 57 {
            seen_digit = true;
        } else if u == 46 {
            if seen_dot {
                assert(!is_mantissa(b));
                assert forall|i: int| 0 <= i < b.len() && is_e(b[i]) implies !is_mantissa(
                    b.take(i),
                ) by {
                    if i < p {
                        assert(!is_e(b[i]));
                    }
                    let d1 = choose|k: int| 0 <= k < p && b[k] == '.';
                    assert(b.take(i)[d1] == '.');
                    assert(b.take(i)[p] == '.');
                }
                return false;
            }
            seen_dot = true;
        } else if c == 'e' || c == 'E' {
            if !seen_digit {
                assert(!is_mantissa(b));
                assert forall|i: int| 0 <= i < b.len() && is_e(b[i]) implies !is_mantissa(
                    b.take(i),
                ) by {
                    if i < p {
                        assert(!is_e(b[i]));
                    }
                    if i == p {
                        if is_mantissa(b.take(p)) {
                            let k = choose|k: int|
                                0 <= k < b.take(p).len() && is_digit(b.take(p)[k]);
                            assert(is_digit(b[k]));
                            assert(false);
                        }
                    } else {
                        assert(b.take(i)[p] == b[p]);
                        assert(is_e(b.take(i)[p]));
                    }
                }
                return false;
            }
            // the mantissa before this marker is sound; check the exponent
            proof {
                assert(forall|k: int| 0 <= k < p ==> b.take(p)[k] == b[k]);
                let kd = choose|k: int| 0 <= k < p && is_digit(b[k]);
                assert(is_digit(b.take(p)[kd]));
            }
            assert(is_mantissa(b.take(p)));
            let mut q: usize = j + 1;
            if q < n {
                let cs = s.get_char(q);
                if cs == '+' || cs == '-' {
                    q = q + 1;
                }
            }
            let ghost ebody: Seq<char> = sign_stripped(b.skip(p + 1));
            proof {
                assert(ebody =~= s@.subrange(q as int, n as int));
            }
            if q == n {
                assert(!is_exp_part(b.skip(p + 1)));
                assert(!is_mantissa(b));
                assert forall|i: int|
                    0 <= i < b.len() && is_e(b[i]) && i != p implies !is_mantissa(b.take(i)) by {
                    if i < p {
                        assert(!is_e(b[i]));
                    }
                    assert(b.take(i)[p] == b[p]);
                    assert(is_e(b.take(i)[p]));
                }
                return false;
            }
            let mut q2: usize = q;
            while q2 < n
                invariant
                    q <= q2 <= n,
                    q < n,
                    n == s@.len(),
                    ebody == s@.subrange(q as int, n as int),
                    ebody == sign_stripped(b.skip(p + 1)),
                    b == sign_stripped(s@),
                    !is_special_word(b),
                    0 <= p < b.len(),
                    is_e(b[p]),
                    is_mantissa(b.take(p)),
                    forall|k: int| 0 <= k < p ==> !is_e(b[k]),
                    forall|k: int| 0 <= k < q2 - q ==> is_digit(ebody[k]),
                decreases n - q2,
            {
                let cd = s.get_char(q2);
                let ud: u32 = cd as u32;
                if ud < 48 || ud > 57 {
                    assert(!is_digit(ebody[q2 - q]));
                    assert(!is_exp_part(b.skip(p + 1)));
                    assert(!is_mantissa(b));
                    assert forall|i: int|
                        0 <= i < b.len() && is_e(b[i]) && i != p implies !is_mantissa(
                        b.take(i),
                    ) by {
                        if i < p {
                            assert(!is_e(b[i]));
                        }
                        assert(b.take(i)[p] == b[p]);
                        assert(is_e(b.take(i)[p]));
                    }
                    return false;
                }
                q2 = q2 + 1;
            }
            assert(all_digits(ebody));
            assert(is_exp_part(b.skip(p + 1)));
            assert(is_number(b));
            return true;
        } else {
            assert(!is_mantissa(b));
            assert forall|i: int| 0 <= i < b.len() && is_e(b[i]) implies !is_mantissa(
                b.take(i),
            ) by {
                if i < p {
                    assert(!is_e(b[i]));
                }
                assert(b.take(i)[p] == b[p]);
                assert(!(is_digit(b.take(i)[p]) || b.take(i)[p] == '.'));
            }
            return false;
        }
        j = j + 1;
    }
    proof {
        if seen_digit {
            assert(is_mantissa(b));
        } else {
            assert(!is_mantissa(b));
            assert(forall|i: int| 0 <= i < b.len() ==> !is_e(b[i]));
        }
    }
    seen_digit
}

} // verus!
