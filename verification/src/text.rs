//! Character-level helpers: string equality, decimal rendering, joining.

use vstd::prelude::*;
use vstd::string::StrSliceExecFns;
use vstd::string::StringExecFns;

verus! {

/// String equality decided character by character.
pub fn str_eq(a: &str, b: &str) -> (r: bool)
    ensures
        r == (a@ == b@),
{
    let alen = a.unicode_len();
    let blen = b.unicode_len();
    if alen != blen {
        proof {
            assert(a@.len() != b@.len());
        }
        return false;
    }
    let mut i: usize = 0;
    while i < alen
        invariant
            alen == a@.len(),
            blen == b@.len(),
            alen == blen,
            0 <= i <= alen,
            forall|j: int| 0 <= j < i ==> a@[j] == b@[j],
        decreases alen - i,
    {
        if a.get_char(i) != b.get_char(i) {
            proof {
                assert(a@[i as int] != b@[i as int]);
            }
            return false;
        }
        i += 1;
    }
    proof {
        assert(a@ =~= b@);
    }
    true
}

/// The character that writes the decimal digit `d`.
pub open spec fn dec_digit(d: nat) -> char {
    if d == 0 {
        '0'
    } else if d == 1 {
        '1'
    } else if d == 2 {
        '2'
    } else if d == 3 {
        '3'
    } else if d == 4 {
        '4'
    } else if d == 5 {
        '5'
    } else if d == 6 {
        '6'
    } else if d == 7 {
        '7'
    } else if d == 8 {
        '8'
    } else {
        '9'
    }
}

/// The decimal writing of `n`, most significant digit first.
pub open spec fn spec_dec(n: nat) -> Seq<char>
    decreases n,
{
    if n < 10 {
        seq![dec_digit(n)]
    } else {
        spec_dec(n / 10).push(dec_digit(n % 10))
    }
}

/// The decimal writing of a signed value: a minus sign before the magnitude.
pub open spec fn spec_dec_i64(v: int) -> Seq<char> {
    if v < 0 {
        seq!['-'] + spec_dec((-v) as nat)
    } else {
        spec_dec(v as nat)
    }
}

fn digit_str(d: u64) -> (r: &'static str)
    requires
        d < 10,
    ensures
        r@ == seq![dec_digit(d as nat)],
{
    proof {
        reveal_strlit("0");
        reveal_strlit("1");
        reveal_strlit("2");
        reveal_strlit("3");
        reveal_strlit("4");
        reveal_strlit("5");
        reveal_strlit("6");
        reveal_strlit("7");
        reveal_strlit("8");
        reveal_strlit("9");
    }
    let r: &'static str = if d == 0 {
        "0"
    } else if d == 1 {
        "1"
    } else if d == 2 {
        "2"
    } else if d == 3 {
        "3"
    } else if d == 4 {
        "4"
    } else if d == 5 {
        "5"
    } else if d == 6 {
        "6"
    } else if d == 7 {
        "7"
    } else if d == 8 {
        "8"
    } else {
        "9"
    };
    proof {
        assert(r@ =~= seq![dec_digit(d as nat)]);
    }
    r
}

/// Renders `n` in decimal.
pub fn u64_dec(n: u64) -> (r: String)
    ensures
        r@ == spec_dec(n as nat),
    decreases n,
{
    if n < 10 {
        digit_str(n).to_owned()
    } else {
        let mut s = u64_dec(n / 10);
        s.append(digit_str(n % 10));
        proof {
            assert(s@ =~= spec_dec(n as nat));
        }
        s
    }
}

/// Renders `v` in decimal, with a leading minus sign when negative.
pub fn i64_dec(v: i64) -> (r: String)
    ensures
        r@ == spec_dec_i64(v as int),
{
    if v >= 0 {
        u64_dec(v as u64)
    } else {
        let mag: u64 = if v == i64::MIN {
            9223372036854775808u64
        } else {
            (-v) as u64
        };
        proof {
            reveal_strlit("-");
        }
        let mut s = String::new();
        s.append("-");
        s.append(u64_dec(mag).as_str());
        proof {
            assert(s@ =~= spec_dec_i64(v as int));
        }
        s
    }
}

/// The tokens that splitting at whitespace yields, exactly as std's
/// `str::split_whitespace` decides them.
pub uninterp spec fn whitespace_tokens(s: Seq<char>) -> Seq<Seq<char>>;

/// Relies on std's `str::split_whitespace`: the tokens depend on the
/// characters alone (the maximal runs between Unicode whitespace).
#[verifier::external_body]
pub(crate) fn split_whitespace_tokens(s: &str) -> (r: Vec<String>)
    ensures
        r.deep_view() == whitespace_tokens(s@),
{
    s.split_whitespace().map(|x| x.to_string()).collect()
}

/// The elements of `parts` written one after another with `sep` between
/// neighbours.
pub open spec fn spec_join(parts: Seq<Seq<char>>, sep: Seq<char>) -> Seq<char>
    decreases parts.len(),
{
    if parts.len() == 0 {
        Seq::empty()
    } else if parts.len() == 1 {
        parts[0]
    } else {
        parts[0] + sep + spec_join(parts.drop_first(), sep)
    }
}

/// Joins the strings of `parts` with `sep` between neighbours.
pub fn join_all(parts: &Vec<String>, sep: &str) -> (r: String)
    ensures
        r@ == spec_join(parts.deep_view(), sep@),
{
    let ghost dv = parts.deep_view();
    let mut r = String::new();
    let mut i: usize = 0;
    proof {
        assert(dv.skip(0) =~= dv);
        assert(r@ + spec_join(dv, sep@) =~= spec_join(dv, sep@));
    }
    while i < parts.len()
        invariant
            0 <= i <= parts.len(),
            dv == parts.deep_view(),
            dv.len() == parts.len(),
            r@ + spec_join(dv.skip(i as int), sep@) == spec_join(dv, sep@),
        decreases parts.len() - i,
    {
        let ghost prev = r@;
        r.append(parts[i].as_str());
        if i + 1 < parts.len() {
            r.append(sep);
            proof {
                assert(dv.skip(i as int).drop_first() =~= dv.skip(i as int + 1));
                assert(dv.skip(i as int)[0] == dv[i as int]);
                assert(spec_join(dv.skip(i as int), sep@) == dv[i as int] + sep@ + spec_join(
                    dv.skip(i as int + 1),
                    sep@,
                ));
                assert(r@ + spec_join(dv.skip(i as int + 1), sep@) =~= prev + spec_join(
                    dv.skip(i as int),
                    sep@,
                ));
            }
        } else {
            proof {
                assert(dv.skip(i as int).len() == 1);
                assert(dv.skip(i as int)[0] == dv[i as int]);
                assert(spec_join(dv.skip(i as int), sep@) == dv[i as int]);
                assert(dv.skip(i as int + 1) =~= Seq::<Seq<char>>::empty());
                assert(spec_join(dv.skip(i as int + 1), sep@) == Seq::<char>::empty());
                assert(r@ + spec_join(dv.skip(i as int + 1), sep@) =~= prev + spec_join(
                    dv.skip(i as int),
                    sep@,
                ));
            }
        }
        i += 1;
    }
    proof {
        assert(dv.skip(parts.len() as int) =~= Seq::<Seq<char>>::empty());
        assert(r@ + spec_join(dv.skip(parts.len() as int), sep@) =~= r@);
    }
    r
}

} // verus!
