//! Validity of a text buffer for each numeric kind: decimal integers with
//! an optional sign and a range, and the decimal floating-point syntax.

use vstd::prelude::*;

use crate::strconv::{all_digits, digit_of, is_dec_digit};

verus! {

broadcast use vstd::utf8::char_is_scalar;

/// The value of a digit string read in base ten.
pub open spec fn digits_val(s: Seq<char>) -> int
    decreases s.len(),
{
    if s.len() == 0 {
        0
    } else {
        digits_val(s.drop_last()) * 10 + digit_of(s.last())
    }
}

pub proof fn lemma_digits_val_nonneg(s: Seq<char>)
    requires
        all_digits(s),
    ensures
        digits_val(s) >= 0,
    decreases s.len(),
{
    if s.len() > 0 {
        assert(all_digits(s.drop_last()));
        lemma_digits_val_nonneg(s.drop_last());
    }
}

/// The decimal rendering of `n` reads back as `n`.
pub proof fn lemma_dec_rep_val(n: int)
    requires
        n >= 0,
    ensures
        digits_val(crate::strconv::dec_rep(n)) == n,
    decreases n,
{
    let s = crate::strconv::dec_rep(n);
    if n < 10 {
        assert(s =~= seq![crate::strconv::char_of_digit(n)]);
        assert(s.drop_last() =~= Seq::<char>::empty());
        assert(digits_val(s.drop_last()) == 0);
        assert(digit_of(crate::strconv::char_of_digit(n)) == n);
    } else {
        lemma_dec_rep_val(n / 10);
        assert(s.drop_last() =~= crate::strconv::dec_rep(n / 10));
        assert(s.last() == crate::strconv::char_of_digit(n % 10));
        assert(digit_of(crate::strconv::char_of_digit(n % 10)) == n % 10);
    }
}

/// Distinct indexes have distinct decimal renderings.
pub proof fn lemma_dec_rep_inj(i: int, j: int)
    requires
        0 <= i,
        0 <= j,
        i != j,
    ensures
        crate::strconv::dec_rep(i) != crate::strconv::dec_rep(j),
{
    lemma_dec_rep_val(i);
    lemma_dec_rep_val(j);
}

/// Text that an unsigned decimal parse accepts with a value of at most
/// `max`: an optional `'+'`, then one or more digits.
pub open spec fn uint_text_ok(s: Seq<char>, max: int) -> bool {
    let body = if s.len() > 0 && s[0] == '+' {
        s.skip(1)
    } else {
        s
    };
    body.len() > 0 && all_digits(body) && digits_val(body) <= max
}

/// Text that a signed decimal parse accepts: an optional `'+'` or `'-'`,
/// then one or more digits; at most `max` when non-negative and at most
/// `neg_mag` in magnitude when negative.
pub open spec fn sint_text_ok(s: Seq<char>, max: int, neg_mag: int) -> bool {
    if s.len() > 0 && s[0] == '-' {
        let body = s.skip(1);
        body.len() > 0 && all_digits(body) && digits_val(body) <= neg_mag
    } else {
        uint_text_ok(s, max)
    }
}

/// Checks that `s` from position `from` on is one or more digits whose
/// value is at most `max`.
fn dec_body_ok(s: &Vec<char>, from: usize, max: u128) -> (r: bool)
    requires
        from <= s@.len(),
        max <= u64::MAX as u128,
    ensures
        r == {
            let body = s@.skip(from as int);
            body.len() > 0 && all_digits(body) && digits_val(body) <= max
        },
{
    let ghost body = s@.skip(from as int);
    let n = s.len();
    if from >= n {
        return false;
    }
    let mut i: usize = from;
    let mut acc: u128 = 0;
    let mut over = false;
    while i < n
        invariant
            from <= i <= n,
            n == s@.len(),
            max <= u64::MAX as u128,
            body == s@.skip(from as int),
            all_digits(s@.subrange(from as int, i as int)),
            !over ==> acc == digits_val(s@.subrange(from as int, i as int)) && acc <= max,
            over ==> digits_val(s@.subrange(from as int, i as int)) > max,
        decreases n - i,
    {
        let c = s[i];
        let u = c as u32;
        if u < 48 || u > 57 {
            proof {
                assert(!is_dec_digit(body[i - from]));
            }
            return false;
        }
        proof {
            assert(s@.subrange(from as int, i as int + 1).drop_last() =~= s@.subrange(
                from as int,
                i as int,
            ));
            assert(s@.subrange(from as int, i as int + 1).last() == c);
        }
        if !over {
            let d = (u - 48) as u128;
            let next = acc * 10 + d;
            if next > max {
                over = true;
            } else {
                acc = next;
            }
        } else {
            proof {
                let prev = digits_val(s@.subrange(from as int, i as int));
                assert(digits_val(s@.subrange(from as int, i as int + 1)) == prev * 10 + digit_of(
                    c,
                ));
            }
        }
        i = i + 1;
    }
    proof {
        assert(s@.subrange(from as int, n as int) =~= body);
    }
    !over
}

/// Checks `uint_text_ok(s@, max)`.
pub fn uint_text_valid(s: &Vec<char>, max: u128) -> (r: bool)
    requires
        max <= u64::MAX as u128,
    ensures
        r == uint_text_ok(s@, max as int),
{
    if s.len() > 0 && s[0] == '+' {
        dec_body_ok(s, 1, max)
    } else {
        proof {
            assert(s@.skip(0) =~= s@);
        }
        dec_body_ok(s, 0, max)
    }
}

/// Checks `sint_text_ok(s@, max, neg_mag)`.
pub fn sint_text_valid(s: &Vec<char>, max: u128, neg_mag: u128) -> (r: bool)
    requires
        max <= u64::MAX as u128,
        neg_mag <= u64::MAX as u128,
    ensures
        r == sint_text_ok(s@, max as int, neg_mag as int),
{
    if s.len() > 0 && s[0] == '-' {
        dec_body_ok(s, 1, neg_mag)
    } else {
        uint_text_valid(s, max)
    }
}

/// The length of the longest digit prefix of `s`.
pub open spec fn digit_prefix_len(s: Seq<char>) -> int
    decreases s.len(),
{
    if s.len() == 0 || !is_dec_digit(s[0]) {
        0
    } else {
        1 + digit_prefix_len(s.skip(1))
    }
}

pub proof fn lemma_digit_prefix_len(s: Seq<char>, k: int)
    requires
        0 <= k <= s.len(),
        forall|i: int| 0 <= i < k ==> is_dec_digit(s[i]),
        k == s.len() || !is_dec_digit(s[k]),
    ensures
        digit_prefix_len(s) == k,
    decreases k,
{
    if k == 0 {
    } else {
        lemma_digit_prefix_len(s.skip(1), k - 1);
    }
}

/// A case-insensitive match of `c` against a lower-case ASCII letter `l`.
pub open spec fn ci_char(c: char, l: char) -> bool {
    c == l || c as u32 + 32 == l as u32
}

/// A case-insensitive match of `s` against a lower-case ASCII word `t`.
pub open spec fn ci_eq(s: Seq<char>, t: Seq<char>) -> bool {
    s.len() == t.len() && forall|i: int| 0 <= i < s.len() ==> ci_char(s[i], t[i])
}

/// An exponent part: `'e'` or `'E'`, an optional sign, one or more digits.
pub open spec fn exp_ok(s: Seq<char>) -> bool {
    s.len() >= 1 && (s[0] == 'e' || s[0] == 'E') && {
        let rest = s.skip(1);
        let body = if rest.len() > 0 && (rest[0] == '+' || rest[0] == '-') {
            rest.skip(1)
        } else {
            rest
        };
        body.len() > 0 && all_digits(body)
    }
}

/// An unsigned floating-point number: digits, an optional point with more
/// digits (at least one digit somewhere), and an optional exponent.
pub open spec fn mantissa_exp_ok(s: Seq<char>) -> bool {
    let d1 = digit_prefix_len(s);
    let r1 = s.skip(d1);
    if r1.len() == 0 {
        d1 > 0
    } else if r1[0] == '.' {
        let r2 = r1.skip(1);
        let d2 = digit_prefix_len(r2);
        let r3 = r2.skip(d2);
        (d1 > 0 || d2 > 0) && (r3.len() == 0 || exp_ok(r3))
    } else {
        d1 > 0 && exp_ok(r1)
    }
}

/// Text that the standard floating-point parse accepts: an optional sign,
/// then `inf`, `infinity` or `nan` in any letter case, or a decimal
/// number with an optional fraction and exponent. Range never matters:
/// overflow parses as infinity.
pub open spec fn float_text_ok(s: Seq<char>) -> bool {
    let body = if s.len() > 0 && (s[0] == '+' || s[0] == '-') {
        s.skip(1)
    } else {
        s
    };
    ||| ci_eq(body, seq!['i', 'n', 'f'])
    ||| ci_eq(body, seq!['i', 'n', 'f', 'i', 'n', 'i', 't', 'y'])
    ||| ci_eq(body, seq!['n', 'a', 'n'])
    ||| mantissa_exp_ok(body)
}

/// The first index at or after `from` that does not hold a digit.
fn digit_run_end(s: &Vec<char>, from: usize) -> (r: usize)
    requires
        from <= s@.len(),
    ensures
        from <= r <= s@.len(),
        r - from == digit_prefix_len(s@.skip(from as int)),
    decreases s@.len() - from,
{
    if from < s.len() {
        let u = s[from] as u32;
        if 48 <= u && u <= 57 {
            let r = digit_run_end(s, from + 1);
            proof {
                assert(s@.skip(from as int).skip(1) =~= s@.skip(from as int + 1));
            }
            return r;
        }
    }
    from
}

/// Case-insensitive comparison of `s` from `from` on against a
/// lower-case word.
fn ci_match(s: &Vec<char>, from: usize, word: &Vec<char>) -> (r: bool)
    requires
        from <= s@.len(),
    ensures
        r == ci_eq(s@.skip(from as int), word@),
{
    let n = s.len();
    let m = word.len();
    if n - from != m {
        return false;
    }
    let mut i: usize = 0;
    while i < m
        invariant
            i <= m,
            m == word@.len(),
            from + m == n,
            n == s@.len(),
            forall|j: int| 0 <= j < i ==> ci_char(s@[from + j], word@[j]),
        decreases m - i,
    {
        let c = s[from + i];
        let l = word[i];
        proof {
            vstd::utf8::char_is_scalar(c);
        }
        if !(c == l || (c as u32) + 32 == l as u32) {
            proof {
                assert(!ci_char(s@.skip(from as int)[i as int], word@[i as int]));
            }
            return false;
        }
        i = i + 1;
    }
    true
}

/// Checks an exponent part starting at `from`.
fn exp_valid(s: &Vec<char>, from: usize) -> (r: bool)
    requires
        from <= s@.len(),
    ensures
        r == exp_ok(s@.skip(from as int)),
{
    let ghost sub = s@.skip(from as int);
    let n = s.len();
    if from >= n {
        return false;
    }
    let c = s[from];
    if !(c == 'e' || c == 'E') {
        return false;
    }
    proof {
        assert(sub.skip(1) =~= s@.skip(from as int + 1));
    }
    let rest = from + 1;
    if rest < n && (s[rest] == '+' || s[rest] == '-') {
        proof {
            assert(sub.skip(1).skip(1) =~= s@.skip(rest as int + 1));
        }
        digits_only_from(s, rest + 1)
    } else {
        digits_only_from(s, rest)
    }
}

/// Checks that `s` from `from` on is one or more digits.
fn digits_only_from(s: &Vec<char>, from: usize) -> (r: bool)
    requires
        from <= s@.len(),
    ensures
        r == {
            let body = s@.skip(from as int);
            body.len() > 0 && all_digits(body)
        },
{
    let n = s.len();
    if from >= n {
        return false;
    }
    let mut i: usize = from;
    while i < n
        invariant
            from <= i <= n,
            n == s@.len(),
            forall|j: int| from <= j < i ==> is_dec_digit(s@[j]),
        decreases n - i,
    {
        let u = s[i] as u32;
        if u < 48 || u > 57 {
            proof {
                assert(!is_dec_digit(s@.skip(from as int)[i - from]));
            }
            return false;
        }
        i = i + 1;
    }
    true
}

/// Checks `float_text_ok(s@)`.
pub fn float_text_valid(s: &Vec<char>) -> (r: bool)
    ensures
        r == float_text_ok(s@),
{
    let from: usize = if s.len() > 0 && (s[0] == '+' || s[0] == '-') {
        1
    } else {
        0
    };
    proof {
        if from == 0 {
            assert(s@.skip(0) =~= s@);
        }
    }
    let ghost body = s@.skip(from as int);
    let inf: Vec<char> = vec!['i', 'n', 'f'];
    let infinity: Vec<char> = vec!['i', 'n', 'f', 'i', 'n', 'i', 't', 'y'];
    let nan: Vec<char> = vec!['n', 'a', 'n'];
    if ci_match(s, from, &inf) || ci_match(s, from, &infinity) || ci_match(s, from, &nan) {
        return true;
    }
    // mantissa and exponent
    let n = s.len();
    let d1_end = digit_run_end(s, from);
    proof {
        assert(body.skip(d1_end - from) =~= s@.skip(d1_end as int));
    }
    if d1_end >= n {
        return d1_end > from;
    }
    let c = s[d1_end];
    if c == '.' {
        proof {
            assert(s@.skip(d1_end as int).skip(1) =~= s@.skip(d1_end as int + 1));
        }
        let d2_end = digit_run_end(s, d1_end + 1);
        proof {
            assert(s@.skip(d1_end as int + 1).skip(d2_end - (d1_end + 1)) =~= s@.skip(
                d2_end as int,
            ));
        }
        if !(d1_end > from || d2_end > d1_end + 1) {
            return false;
        }
        if d2_end >= n {
            true
        } else {
            exp_valid(s, d2_end)
        }
    } else {
        if d1_end == from {
            return false;
        }
        exp_valid(s, d1_end)
    }
}

} // verus!
