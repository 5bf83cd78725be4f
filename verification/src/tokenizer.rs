//! Splitting a raw command line into whitespace-delimited tokens: leading
//! and trailing whitespace is dropped, runs of whitespace separate tokens,
//! token order is preserved, and no empty token is produced. Whitespace
//! means the Unicode White_Space characters.

use vstd::prelude::*;

verus! {

/// `c` is a whitespace character: one of the Unicode White_Space code
/// points (space, the controls from horizontal tab through carriage return,
/// next line, no-break space, ogham space mark, the en-quad family,
/// line and paragraph separators, narrow no-break space, medium
/// mathematical space, ideographic space).
pub open spec fn is_space(c: char) -> bool {
    ||| c as u32 == 32
    ||| 9 <= c as u32 <= 13
    ||| c as u32 == 0x85
    ||| c as u32 == 0xA0
    ||| c as u32 == 0x1680
    ||| 0x2000 <= c as u32 <= 0x200A
    ||| c as u32 == 0x2028
    ||| c as u32 == 0x2029
    ||| c as u32 == 0x202F
    ||| c as u32 == 0x205F
    ||| c as u32 == 0x3000
}

/// Length of the maximal leading run of non-whitespace characters.
pub open spec fn token_len(s: Seq<char>) -> nat
    decreases s.len(),
{
    if s.len() == 0 || is_space(s[0]) {
        0
    } else {
        1 + token_len(s.drop_first())
    }
}

pub proof fn lemma_token_len_le(s: Seq<char>)
    ensures
        token_len(s) <= s.len(),
    decreases s.len(),
{
    if s.len() > 0 && !is_space(s[0]) {
        lemma_token_len_le(s.drop_first());
    }
}

/// The whitespace-delimited tokens of `s`, in order: whitespace is skipped,
/// and each maximal run of non-whitespace characters is one token.
pub open spec fn tokens_of(s: Seq<char>) -> Seq<Seq<char>>
    decreases s.len(),
{
    if s.len() == 0 {
        Seq::empty()
    } else if is_space(s[0]) {
        tokens_of(s.drop_first())
    } else {
        proof {
            lemma_token_len_le(s);
        }
        let k = token_len(s) as int;
        seq![s.take(k)] + tokens_of(s.skip(k))
    }
}

/// A leading run of `m` non-whitespace characters bounded by whitespace or
/// the end of the sequence is exactly the maximal one.
pub proof fn lemma_token_len_eq(t: Seq<char>, m: int)
    requires
        0 <= m <= t.len(),
        forall|k: int| 0 <= k < m ==> !is_space(t[k]),
        m < t.len() ==> is_space(t[m]),
    ensures
        token_len(t) == m,
    decreases m,
{
    if m > 0 {
        lemma_token_len_eq(t.drop_first(), m - 1);
    }
}

fn is_space_ch(c: char) -> (r: bool)
    ensures
        r == is_space(c),
{
    let u: u32 = c as u32;
    u == 32 || (9 <= u && u <= 13) || u == 0x85 || u == 0xA0 || u == 0x1680 || (0x2000 <= u && u
        <= 0x200A) || u == 0x2028 || u == 0x2029 || u == 0x202F || u == 0x205F || u == 0x3000
}

/// Index just past the token that starts at `start`: the first whitespace
/// character at or after `start`, or the end of the string.
fn token_end(s: &str, start: usize, n: usize) -> (j: usize)
    requires
        n == s@.len(),
        start < n,
    ensures
        start <= j <= n,
        forall|k: int| start <= k < j ==> !is_space(s@[k]),
        j < n ==> is_space(s@[j as int]),
{
    let mut j: usize = start;
    loop
        invariant
            start <= j <= n,
            n == s@.len(),
            forall|k: int| start <= k < j ==> !is_space(s@[k]),
        decreases n - j,
    {
        if j == n {
            return j;
        }
        let c = s.get_char(j);
        if is_space_ch(c) {
            return j;
        }
        j = j + 1;
    }
}

/// Splits `input` into its whitespace-delimited tokens, exactly as
/// [`tokens_of`] describes.
pub fn tokenize(input: &str) -> (r: Vec<String>)
    ensures
        r@.map_values(|t: String| t@) == tokens_of(input@),
{
    let n = input.unicode_len();
    let mut out: Vec<String> = Vec::new();
    let mut i: usize = 0;
    proof {
        assert(input@.skip(0) =~= input@);
        assert(out@.map_values(|t: String| t@) + tokens_of(input@) =~= tokens_of(input@));
    }
    while i < n
        invariant
            i <= n,
            n == input@.len(),
            tokens_of(input@) == out@.map_values(|t: String| t@) + tokens_of(
                input@.skip(i as int),
            ),
        decreases n - i,
    {
        let c = input.get_char(i);
        if is_space_ch(c) {
            proof {
                assert(input@.skip(i as int).drop_first() =~= input@.skip(i + 1 as int));
            }
            i = i + 1;
        } else {
            let j = token_end(input, i, n);
            let tok: String = input.substring_char(i, j).to_owned();
            proof {
                let rest = input@.skip(i as int);
                assert(forall|k: int|
                    0 <= k < j - i ==> rest[k] == input@[k + i] && !is_space(rest[k]));
                if j < n {
                    assert(rest[j - i] == input@[j as int]);
                }
                lemma_token_len_eq(rest, j - i);
                assert(rest.take(j - i) =~= input@.subrange(i as int, j as int));
                assert(rest.skip(j - i) =~= input@.skip(j as int));
                assert(tokens_of(rest) == seq![tok@] + tokens_of(input@.skip(j as int)));
            }
            let ghost old_out = out@;
            out.push(tok);
            proof {
                assert(out@.map_values(|t: String| t@) =~= old_out.map_values(|t: String| t@)
                    + seq![tok@]);
                assert(out@.map_values(|t: String| t@) + tokens_of(input@.skip(j as int))
                    =~= old_out.map_values(|t: String| t@) + tokens_of(input@.skip(i as int)));
            }
            i = j;
        }
    }
    proof {
        assert(input@.skip(n as int) =~= Seq::<char>::empty());
        assert(out@.map_values(|t: String| t@) + Seq::<Seq<char>>::empty() =~= out@.map_values(
            |t: String| t@,
        ));
    }
    out
}

} // verus!
