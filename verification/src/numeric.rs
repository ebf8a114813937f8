//! Reading numeric tokens: an exact account of signed 64-bit decimal
//! parsing, and a named acceptance predicate for floating-point tokens.

use vstd::prelude::*;

verus! {

/// Whether `c` is one of the ten decimal digits.
pub open spec fn is_dec_digit(c: char) -> bool {
    ('0' as u32) <= (c as u32) && (c as u32) <= ('9' as u32)
}

/// The numeric value of the decimal digit `c`.
pub open spec fn dec_val(c: char) -> nat {
    ((c as u32) - ('0' as u32)) as nat
}

/// Whether every character of `s` is a decimal digit.
pub open spec fn all_dec_digits(s: Seq<char>) -> bool {
    forall|i: int| 0 <= i < s.len() ==> is_dec_digit(s[i])
}

/// The value of the digit string `s`, most significant digit first.
pub open spec fn digits_val(s: Seq<char>) -> nat
    decreases s.len(),
{
    if s.len() == 0 {
        0
    } else {
        digits_val(s.drop_last()) * 10 + dec_val(s.last())
    }
}

/// What parsing `s` as a signed 64-bit decimal integer yields: an optional
/// leading `+` or `-`, then one or more decimal digits, accepted exactly
/// when the value fits.
pub open spec fn spec_parse_i64(s: Seq<char>) -> Option<i64> {
    let negative = s.len() > 0 && s[0] == '-';
    let digits = if s.len() > 0 && (s[0] == '-' || s[0] == '+') {
        s.drop_first()
    } else {
        s
    };
    if digits.len() == 0 || !all_dec_digits(digits) {
        None
    } else {
        let v = digits_val(digits) as int;
        if negative {
            if v <= 0x8000_0000_0000_0000 {
                Some((-v) as i64)
            } else {
                None
            }
        } else {
            if v <= i64::MAX as int {
                Some(v as i64)
            } else {
                None
            }
        }
    }
}

/// A digit string's value only grows as more digits are taken.
proof fn lemma_digits_val_prefix(s: Seq<char>, m: int)
    requires
        0 <= m <= s.len(),
    ensures
        digits_val(s) >= digits_val(s.take(m)),
    decreases s.len() - m,
{
    if m == s.len() {
        assert(s.take(m) =~= s);
    } else {
        lemma_digits_val_prefix(s, m + 1);
        assert(s.take(m + 1).drop_last() =~= s.take(m));
        assert(s.take(m + 1).last() == s[m]);
        assert(digits_val(s.take(m + 1)) == digits_val(s.take(m)) * 10 + dec_val(s[m]));
    }
}

/// Reads `s` as a signed 64-bit decimal integer: an optional leading `+` or
/// `-` followed by one or more decimal digits, accepted exactly when the
/// value fits.
pub fn parse_i64(s: &str) -> (r: Option<i64>)
    ensures
        r == spec_parse_i64(s@),
{
    let v = chars_of(s);
    let n = v.len();
    let negative = n > 0 && v[0] == '-';
    let start: usize = if n > 0 && (v[0] == '-' || v[0] == '+') {
        1
    } else {
        0
    };
    let ghost digits = if start == 1 {
        s@.drop_first()
    } else {
        s@
    };
    proof {
        assert(digits =~= v@.subrange(start as int, n as int));
    }
    if start >= n {
        return None;
    }
    if !all_digits_range(&v, start, n) {
        return None;
    }
    let limit: u64 = if negative {
        9223372036854775808u64
    } else {
        9223372036854775807u64
    };
    let mut acc: u64 = 0;
    let mut i = start;
    proof {
        assert(digits.take(0) =~= Seq::<char>::empty());
    }
    while i < n
        invariant
            start <= i <= n,
            n == v@.len(),
            v@ == s@,
            start <= 1,
            (start == 1) == (s@.len() > 0 && (s@[0] == '-' || s@[0] == '+')),
            negative == (s@.len() > 0 && s@[0] == '-'),
            digits == if start == 1 {
                s@.drop_first()
            } else {
                s@
            },
            digits.len() > 0,
            digits == v@.subrange(start as int, n as int),
            all_dec_digits(digits),
            limit == if negative {
                0x8000_0000_0000_0000u64
            } else {
                0x7fff_ffff_ffff_ffffu64
            },
            acc == digits_val(digits.take(i - start)),
            acc <= limit,
        decreases n - i,
    {
        let ghost k = i - start;
        let c = v[i];
        proof {
            assert(digits[k as int] == v@[i as int]);
            assert(is_dec_digit(digits[k as int]));
        }
        let d: u64 = ((c as u32) - ('0' as u32)) as u64;
        proof {
            assert(d == dec_val(digits[k as int]));
            assert(d <= 9);
            assert(digits.take(k as int + 1).drop_last() =~= digits.take(k as int));
            assert(digits.take(k as int + 1).last() == digits[k as int]);
            assert(digits_val(digits.take(k as int + 1)) == digits_val(digits.take(k as int)) * 10
                + dec_val(digits[k as int]));
        }
        if acc > limit / 10 || (acc == limit / 10 && d > limit % 10) {
            proof {
                assert(digits_val(digits.take(k as int + 1)) > limit);
                lemma_digits_val_prefix(digits, k as int + 1);
                assert(digits_val(digits) > limit);
            }
            return None;
        }
        acc = acc * 10 + d;
        i += 1;
    }
    proof {
        assert(digits.take(n - start) =~= digits);
        assert(digits_val(digits) == acc);
    }
    if negative {
        if acc == 9223372036854775808u64 {
            Some(i64::MIN)
        } else {
            Some(-(acc as i64))
        }
    } else {
        Some(acc as i64)
    }
}

/// A mantissa: digits, or digits around a single point with at least one
/// digit on some side.
pub open spec fn spec_mantissa(s: Seq<char>) -> bool {
    ||| (s.len() > 0 && all_dec_digits(s))
    ||| (exists|i: int|
        0 <= i < s.len() && s[i] == '.' && s.len() >= 2 && all_dec_digits(s.take(i))
            && all_dec_digits(s.skip(i + 1)))
}

/// An exponent part: an optional sign, then one or more digits.
pub open spec fn spec_exponent(s: Seq<char>) -> bool {
    if s.len() > 0 && (s[0] == '-' || s[0] == '+') {
        s.drop_first().len() > 0 && all_dec_digits(s.drop_first())
    } else {
        s.len() > 0 && all_dec_digits(s)
    }
}

/// The words `inf`, `infinity` and `nan`, in any letter case.
pub open spec fn spec_special(s: Seq<char>) -> bool {
    ||| (s.len() == 3 && (s[0] == 'i' || s[0] == 'I') && (s[1] == 'n' || s[1] == 'N') && (s[2]
        == 'f' || s[2] == 'F'))
    ||| (s.len() == 8 && (s[0] == 'i' || s[0] == 'I') && (s[1] == 'n' || s[1] == 'N') && (s[2]
        == 'f' || s[2] == 'F') && (s[3] == 'i' || s[3] == 'I') && (s[4] == 'n' || s[4] == 'N') && (
    s[5] == 'i' || s[5] == 'I') && (s[6] == 't' || s[6] == 'T') && (s[7] == 'y' || s[7] == 'Y'))
    ||| (s.len() == 3 && (s[0] == 'n' || s[0] == 'N') && (s[1] == 'a' || s[1] == 'A') && (s[2]
        == 'n' || s[2] == 'N'))
}

/// A number body: one of the special words, a bare mantissa, or a mantissa
/// followed by `e` or `E` and an exponent part.
pub open spec fn spec_num_body(s: Seq<char>) -> bool {
    ||| spec_special(s)
    ||| spec_mantissa(s)
    ||| (exists|i: int|
        0 <= i < s.len() && (s[i] == 'e' || s[i] == 'E') && spec_mantissa(s.take(i))
            && spec_exponent(s.skip(i + 1)))
}

/// Whether `s` reads as a floating-point number, per the grammar std
/// documents for `f64::from_str`: an optional sign, then a number body.
pub open spec fn num_token(s: Seq<char>) -> bool {
    if s.len() > 0 && (s[0] == '-' || s[0] == '+') {
        spec_num_body(s.drop_first())
    } else {
        spec_num_body(s)
    }
}

/// A mantissa holds nothing but digits and the point.
proof fn lemma_mantissa_chars(s: Seq<char>, i: int)
    requires
        spec_mantissa(s),
        0 <= i < s.len(),
    ensures
        is_dec_digit(s[i]) || s[i] == '.',
{
    if s.len() > 0 && all_dec_digits(s) {
    } else {
        let d = choose|d: int|
            0 <= d < s.len() && s[d] == '.' && s.len() >= 2 && all_dec_digits(s.take(d))
                && all_dec_digits(s.skip(d + 1));
        if i < d {
            assert(s.take(d)[i] == s[i]);
        } else if i > d {
            assert(s.skip(d + 1)[i - d - 1] == s[i]);
        }
    }
}

fn chars_of(s: &str) -> (v: Vec<char>)
    ensures
        v@ == s@,
{
    let n = s.unicode_len();
    let mut v: Vec<char> = Vec::new();
    let mut i: usize = 0;
    while i < n
        invariant
            n == s@.len(),
            0 <= i <= n,
            v@.len() == i,
            forall|j: int| 0 <= j < i ==> v@[j] == s@[j],
        decreases n - i,
    {
        v.push(s.get_char(i));
        i += 1;
    }
    proof {
        assert(v@ =~= s@);
    }
    v
}

fn digit_exec(c: char) -> (r: bool)
    ensures
        r == is_dec_digit(c),
{
    let u = c as u32;
    ('0' as u32) <= u && u <= ('9' as u32)
}

fn all_digits_range(v: &Vec<char>, a: usize, b: usize) -> (r: bool)
    requires
        a <= b <= v@.len(),
    ensures
        r == all_dec_digits(v@.subrange(a as int, b as int)),
{
    let ghost sub = v@.subrange(a as int, b as int);
    let mut i: usize = a;
    while i < b
        invariant
            a <= i <= b <= v@.len(),
            sub == v@.subrange(a as int, b as int),
            forall|j: int| a <= j < i ==> is_dec_digit(v@[j]),
        decreases b - i,
    {
        if !digit_exec(v[i]) {
            proof {
                assert(sub[i - a] == v@[i as int]);
            }
            return false;
        }
        i += 1;
    }
    proof {
        assert forall|j: int| 0 <= j < sub.len() implies is_dec_digit(sub[j]) by {
            assert(sub[j] == v@[a + j]);
        }
    }
    true
}

fn find_first2(v: &Vec<char>, a: usize, b: usize, c1: char, c2: char) -> (r: Option<usize>)
    requires
        a <= b <= v@.len(),
    ensures
        match r {
            Some(i) => a <= i < b && (v@[i as int] == c1 || v@[i as int] == c2) && (forall|j: int|
                a <= j < i ==> v@[j] != c1 && v@[j] != c2),
            None => forall|j: int| a <= j < b ==> v@[j] != c1 && v@[j] != c2,
        },
{
    let mut i: usize = a;
    while i < b
        invariant
            a <= i <= b <= v@.len(),
            forall|j: int| a <= j < i ==> v@[j] != c1 && v@[j] != c2,
        decreases b - i,
    {
        let c = v[i];
        if c == c1 || c == c2 {
            return Some(i);
        }
        i += 1;
    }
    None
}

fn mantissa_range(v: &Vec<char>, a: usize, b: usize) -> (r: bool)
    requires
        a <= b <= v@.len(),
    ensures
        r == spec_mantissa(v@.subrange(a as int, b as int)),
{
    let ghost sub = v@.subrange(a as int, b as int);
    match find_first2(v, a, b, '.', '.') {
        None => {
            let r = b > a && all_digits_range(v, a, b);
            proof {
                if !r {
                    assert(!spec_mantissa(sub)) by {
                        if spec_mantissa(sub) {
                            if sub.len() > 0 && all_dec_digits(sub) {
                                assert(false);
                            } else {
                                let d = choose|d: int|
                                    0 <= d < sub.len() && sub[d] == '.' && sub.len() >= 2
                                        && all_dec_digits(sub.take(d)) && all_dec_digits(
                                        sub.skip(d + 1),
                                    );
                                assert(v@[a + d] == '.');
                                assert(false);
                            }
                        }
                    }
                }
            }
            r
        },
        Some(d) => {
            let r = b - a >= 2 && all_digits_range(v, a, d) && all_digits_range(v, d + 1, b);
            proof {
                let i0 = d - a;
                assert(sub[i0] == v@[d as int]);
                assert(sub.take(i0) =~= v@.subrange(a as int, d as int));
                assert(sub.skip(i0 + 1) =~= v@.subrange(d as int + 1, b as int));
                if r {
                    assert(spec_mantissa(sub));
                } else {
                    assert(!spec_mantissa(sub)) by {
                        if spec_mantissa(sub) {
                            if sub.len() > 0 && all_dec_digits(sub) {
                                assert(is_dec_digit(sub[i0]));
                                assert(false);
                            } else {
                                let i = choose|i: int|
                                    0 <= i < sub.len() && sub[i] == '.' && sub.len() >= 2
                                        && all_dec_digits(sub.take(i)) && all_dec_digits(
                                        sub.skip(i + 1),
                                    );
                                if i < i0 {
                                    assert(v@[a + i] == '.');
                                    assert(false);
                                } else if i > i0 {
                                    assert(sub.take(i)[i0] == sub[i0]);
                                    assert(is_dec_digit(sub[i0]));
                                    assert(false);
                                } else {
                                    assert(false);
                                }
                            }
                        }
                    }
                }
            }
            r
        },
    }
}

fn exponent_range(v: &Vec<char>, a: usize, b: usize) -> (r: bool)
    requires
        a <= b <= v@.len(),
    ensures
        r == spec_exponent(v@.subrange(a as int, b as int)),
{
    let ghost sub = v@.subrange(a as int, b as int);
    if a < b && (v[a] == '+' || v[a] == '-') {
        proof {
            assert(sub[0] == v@[a as int]);
            assert(sub.drop_first() =~= v@.subrange(a as int + 1, b as int));
        }
        b > a + 1 && all_digits_range(v, a + 1, b)
    } else {
        proof {
            if a < b {
                assert(sub[0] == v@[a as int]);
            }
        }
        b > a && all_digits_range(v, a, b)
    }
}

fn special_range(v: &Vec<char>, a: usize, b: usize) -> (r: bool)
    requires
        a <= b <= v@.len(),
    ensures
        r == spec_special(v@.subrange(a as int, b as int)),
{
    let ghost sub = v@.subrange(a as int, b as int);
    let n = b - a;
    if n == 3 {
        let c0 = v[a];
        let c1 = v[a + 1];
        let c2 = v[a + 2];
        proof {
            assert(sub[0] == c0 && sub[1] == c1 && sub[2] == c2);
        }
        ((c0 == 'i' || c0 == 'I') && (c1 == 'n' || c1 == 'N') && (c2 == 'f' || c2 == 'F')) || ((c0
            == 'n' || c0 == 'N') && (c1 == 'a' || c1 == 'A') && (c2 == 'n' || c2 == 'N'))
    } else if n == 8 {
        let c0 = v[a];
        let c1 = v[a + 1];
        let c2 = v[a + 2];
        let c3 = v[a + 3];
        let c4 = v[a + 4];
        let c5 = v[a + 5];
        let c6 = v[a + 6];
        let c7 = v[a + 7];
        proof {
            assert(sub[0] == c0 && sub[1] == c1 && sub[2] == c2 && sub[3] == c3 && sub[4] == c4
                && sub[5] == c5 && sub[6] == c6 && sub[7] == c7);
        }
        (c0 == 'i' || c0 == 'I') && (c1 == 'n' || c1 == 'N') && (c2 == 'f' || c2 == 'F') && (c3
            == 'i' || c3 == 'I') && (c4 == 'n' || c4 == 'N') && (c5 == 'i' || c5 == 'I') && (c6
            == 't' || c6 == 'T') && (c7 == 'y' || c7 == 'Y')
    } else {
        false
    }
}

fn num_body_range(v: &Vec<char>, a: usize, b: usize) -> (r: bool)
    requires
        a <= b <= v@.len(),
    ensures
        r == spec_num_body(v@.subrange(a as int, b as int)),
{
    let ghost sub = v@.subrange(a as int, b as int);
    match find_first2(v, a, b, 'e', 'E') {
        None => {
            let r = special_range(v, a, b) || mantissa_range(v, a, b);
            proof {
                if !r {
                    assert(!spec_num_body(sub)) by {
                        if spec_num_body(sub) {
                            let i = choose|i: int|
                                0 <= i < sub.len() && (sub[i] == 'e' || sub[i] == 'E')
                                    && spec_mantissa(sub.take(i)) && spec_exponent(sub.skip(i + 1));
                            assert(v@[a + i] == sub[i]);
                            assert(false);
                        }
                    }
                }
            }
            r
        },
        Some(e) => {
            let r = mantissa_range(v, a, e) && exponent_range(v, e + 1, b);
            proof {
                let e0 = e - a;
                assert(sub[e0] == v@[e as int]);
                assert(sub.take(e0) =~= v@.subrange(a as int, e as int));
                assert(sub.skip(e0 + 1) =~= v@.subrange(e as int + 1, b as int));
                assert(!spec_special(sub)) by {
                    if spec_special(sub) {
                        assert(false);
                    }
                }
                assert(!spec_mantissa(sub)) by {
                    if spec_mantissa(sub) {
                        lemma_mantissa_chars(sub, e0);
                        assert(false);
                    }
                }
                if r {
                    assert(spec_num_body(sub));
                } else {
                    assert(!spec_num_body(sub)) by {
                        if spec_num_body(sub) {
                            let i = choose|i: int|
                                0 <= i < sub.len() && (sub[i] == 'e' || sub[i] == 'E')
                                    && spec_mantissa(sub.take(i)) && spec_exponent(sub.skip(i + 1));
                            if i < e0 {
                                assert(v@[a + i] == sub[i]);
                                assert(false);
                            } else if i > e0 {
                                lemma_mantissa_chars(sub.take(i), e0);
                                assert(sub.take(i)[e0] == sub[e0]);
                                assert(false);
                            } else {
                                assert(false);
                            }
                        }
                    }
                }
            }
            r
        },
    }
}

/// Decides whether a token reads as a floating-point number, per the
/// grammar std documents for `f64::from_str`.
pub fn is_num_token(s: &str) -> (r: bool)
    ensures
        r == num_token(s@),
{
    let v = chars_of(s);
    let n = v.len();
    if n > 0 && (v[0] == '-' || v[0] == '+') {
        let r = num_body_range(&v, 1, n);
        proof {
            assert(v@.subrange(1, n as int) =~= s@.drop_first());
        }
        r
    } else {
        let r = num_body_range(&v, 0, n);
        proof {
            assert(v@.subrange(0, n as int) =~= s@);
        }
        r
    }
}

} // verus!
