//! Rendering of a decimal as a fixed-point string with exactly 18
//! fractional digits: no trimming, no scientific notation, no sign.

use vstd::prelude::*;

use crate::decimal::Decimal;
use crate::u192::U192;
use crate::wide::div_rem;
use crate::wide::U384;

verus! {

/// The character for one decimal digit value.
pub open spec fn digit_char(d: nat) -> char {
    if d == 0 {
        '0'
    } else if d == 1 {
        '1'
    } else if d == 2 {
        '2'
    } else if d == 3 {
        '3'
    } else if d == 4 {
        '4'
    } else if d == 5 {
        '5'
    } else if d == 6 {
        '6'
    } else if d == 7 {
        '7'
    } else if d == 8 {
        '8'
    } else {
        '9'
    }
}

/// Whether a character is a decimal digit.
pub open spec fn is_digit_char(c: char) -> bool {
    c == '0' || c == '1' || c == '2' || c == '3' || c == '4' || c == '5' || c == '6' || c == '7'
        || c == '8' || c == '9'
}

/// The decimal digit string of a number, most significant digit first and
/// with no leading zero except for the number zero itself.
pub open spec fn dec_digits(v: nat) -> Seq<char>
    decreases v,
{
    if v < 10 {
        seq![digit_char(v)]
    } else {
        dec_digits(v / 10).push(digit_char(v % 10))
    }
}

/// The rendered form of a raw value `v`: the digit string of `v` with a
/// point placed 18 digits from its right end, zero-padded to at least one
/// integer digit.
pub open spec fn display_chars(v: nat) -> Seq<char> {
    let ds = dec_digits(v);
    if ds.len() <= 18 {
        seq!['0', '.'] + Seq::new((18 - ds.len()) as nat, |j: int| '0') + ds
    } else {
        ds.subrange(0, ds.len() - 18) + seq!['.'] + ds.subrange(ds.len() - 18, ds.len() as int)
    }
}

/// Every character of a decimal digit string is a digit.
proof fn lemma_dec_digits_are_digits(v: nat)
    ensures
        forall|i: int| 0 <= i < dec_digits(v).len() ==> is_digit_char(#[trigger] dec_digits(v)[i]),
    decreases v,
{
    if v < 10 {
        assert(dec_digits(v)[0] == digit_char(v));
    } else {
        lemma_dec_digits_are_digits(v / 10);
        assert forall|i: int| 0 <= i < dec_digits(v).len() implies is_digit_char(
            dec_digits(v)[i],
        ) by {
            if i < dec_digits(v / 10).len() {
                assert(dec_digits(v)[i] == dec_digits(v / 10)[i]);
            } else {
                assert(dec_digits(v)[i] == digit_char(v % 10));
            }
        }
    }
}

/// The executable counterpart of [`digit_char`].
fn digit_to_char(d: u64) -> (c: char)
    requires
        d < 10,
    ensures
        c == digit_char(d as nat),
        is_digit_char(c),
{
    if d == 0 {
        '0'
    } else if d == 1 {
        '1'
    } else if d == 2 {
        '2'
    } else if d == 3 {
        '3'
    } else if d == 4 {
        '4'
    } else if d == 5 {
        '5'
    } else if d == 6 {
        '6'
    } else if d == 7 {
        '7'
    } else if d == 8 {
        '8'
    } else {
        '9'
    }
}

/// Append one rendered character (a digit or the decimal point) to a
/// string.
fn append_char(s: String, c: char) -> (r: String)
    requires
        c == '.' || is_digit_char(c),
    ensures
        r@ == s@.push(c),
{
    let mut out = s;
    if c == '.' {
        out.append(".");
        proof {
            reveal_strlit(".");
            assert(out@ =~= s@.push(c));
        }
    } else if c == '0' {
        out.append("0");
        proof {
            reveal_strlit("0");
            assert(out@ =~= s@.push(c));
        }
    } else if c == '1' {
        out.append("1");
        proof {
            reveal_strlit("1");
            assert(out@ =~= s@.push(c));
        }
    } else if c == '2' {
        out.append("2");
        proof {
            reveal_strlit("2");
            assert(out@ =~= s@.push(c));
        }
    } else if c == '3' {
        out.append("3");
        proof {
            reveal_strlit("3");
            assert(out@ =~= s@.push(c));
        }
    } else if c == '4' {
        out.append("4");
        proof {
            reveal_strlit("4");
            assert(out@ =~= s@.push(c));
        }
    } else if c == '5' {
        out.append("5");
        proof {
            reveal_strlit("5");
            assert(out@ =~= s@.push(c));
        }
    } else if c == '6' {
        out.append("6");
        proof {
            reveal_strlit("6");
            assert(out@ =~= s@.push(c));
        }
    } else if c == '7' {
        out.append("7");
        proof {
            reveal_strlit("7");
            assert(out@ =~= s@.push(c));
        }
    } else if c == '8' {
        out.append("8");
        proof {
            reveal_strlit("8");
            assert(out@ =~= s@.push(c));
        }
    } else {
        out.append("9");
        proof {
            reveal_strlit("9");
            assert(out@ =~= s@.push(c));
        }
    }
    out
}

/// Turn a sequence of rendered characters into a string.
fn chars_to_string(v: &Vec<char>) -> (s: String)
    requires
        forall|i: int| 0 <= i < v@.len() ==> (v@[i] == '.' || is_digit_char(#[trigger] v@[i])),
    ensures
        s@ == v@,
{
    let mut s = String::new();
    let mut i: usize = 0;
    while i < v.len()
        invariant
            i <= v@.len(),
            s@ == v@.subrange(0, i as int),
            forall|j: int| 0 <= j < v@.len() ==> (v@[j] == '.' || is_digit_char(#[trigger] v@[j])),
        decreases v@.len() - i,
    {
        s = append_char(s, v[i]);
        proof {
            assert(v@.subrange(0, (i + 1) as int) =~= v@.subrange(0, i as int).push(v@[i as int]));
        }
        i = i + 1;
    }
    proof {
        assert(v@.subrange(0, v@.len() as int) =~= v@);
    }
    s
}

/// The decimal digits of a 192-bit value, most significant first.
fn digits_of(v: U192) -> (out: Vec<char>)
    ensures
        out@ == dec_digits(v@),
        out@.len() >= 1,
{
    let mut out: Vec<char> = Vec::new();
    if v.is_zero() {
        out.push('0');
        proof {
            assert(out@ =~= dec_digits(v@));
        }
        return out;
    }
    let ten = U192::from_u64(10);
    let mut cur = v;
    while !cur.is_zero()
        invariant
            ten@ == 10,
            cur@ > 0 ==> dec_digits(v@) == dec_digits(cur@) + out@,
            cur@ == 0 ==> (out@ == dec_digits(v@) && out@.len() >= 1),
        decreases cur@,
    {
        let (q, r) = div_rem(U384::from_u192(cur), ten);
        proof {
            crate::u192::lemma_u192_bound(cur);
            vstd::arithmetic::div_mod::lemma_div_nonincreasing(cur@ as int, 10);
            vstd::arithmetic::div_mod::lemma_div_decreases(cur@ as int, 10);
        }
        let q192 = match q.try_to_u192() {
            Some(x) => x,
            None => {
                proof {
                    assert(false);
                }
                U192::zero()
            },
        };
        let ghost prev = cur@;
        let ghost sofar = out@;
        let c = digit_to_char(r.lo);
        proof {
            assert(r@ < 10);
            assert((r.mid as nat) * crate::u192::p64() <= r@);
            assert(r.lo as nat == r@);
        }
        out.insert(0, c);
        cur = q192;
        proof {
            assert(c == digit_char(prev % 10));
            if prev < 10 {
                assert(cur@ == 0);
                assert(prev % 10 == prev);
                assert(dec_digits(prev) =~= seq![c]);
                assert(seq![c] + sofar =~= out@);
            } else {
                assert(cur@ == prev / 10 > 0);
                assert(dec_digits(prev) == dec_digits(prev / 10).push(c));
                assert(dec_digits(prev / 10).push(c) + sofar =~= dec_digits(prev / 10) + out@);
            }
        }
    }
    out
}

impl Decimal {
    /// Render the value as a fixed-point decimal string with exactly 18
    /// fractional digits.
    pub fn to_display_string(&self) -> (s: String)
        ensures
            s@ == display_chars(self@),
    {
        let ds = digits_of(self.0);
        proof {
            lemma_dec_digits_are_digits(self@);
        }
        let n: usize = ds.len();
        let mut cs: Vec<char> = Vec::new();
        if n <= 18 {
            cs.push('0');
            cs.push('.');
            let pad: usize = 18 - n;
            let mut i: usize = 0;
            proof {
                assert(cs@ =~= seq!['0', '.'] + Seq::new(0nat, |j: int| '0'));
            }
            while i < pad
                invariant
                    i <= pad,
                    cs@ == seq!['0', '.'] + Seq::new(i as nat, |j: int| '0'),
                decreases pad - i,
            {
                cs.push('0');
                proof {
                    assert(cs@ =~= seq!['0', '.'] + Seq::new((i + 1) as nat, |j: int| '0'));
                }
                i = i + 1;
            }
            let mut j: usize = 0;
            while j < n
                invariant
                    j <= n,
                    n == ds@.len(),
                    pad == 18 - n,
                    n <= 18,
                    ds@ == dec_digits(self@),
                    cs@ == seq!['0', '.'] + Seq::new(pad as nat, |jj: int| '0') + ds@.subrange(
                        0,
                        j as int,
                    ),
                decreases n - j,
            {
                let c = ds[j];
                cs.push(c);
                proof {
                    assert(ds@.subrange(0, (j + 1) as int) =~= ds@.subrange(0, j as int).push(
                        ds@[j as int],
                    ));
                    assert(cs@ =~= seq!['0', '.'] + Seq::new(pad as nat, |jj: int| '0')
                        + ds@.subrange(0, (j + 1) as int));
                }
                j = j + 1;
            }
            proof {
                assert(ds@.subrange(0, n as int) =~= ds@);
                assert(cs@ =~= display_chars(self@));
            }
        } else {
            let point: usize = n - 18;
            let mut j: usize = 0;
            while j < point
                invariant
                    j <= point,
                    point == n - 18,
                    n == ds@.len(),
                    n > 18,
                    ds@ == dec_digits(self@),
                    cs@ == ds@.subrange(0, j as int),
                decreases point - j,
            {
                let c = ds[j];
                cs.push(c);
                proof {
                    assert(ds@.subrange(0, (j + 1) as int) =~= ds@.subrange(0, j as int).push(
                        ds@[j as int],
                    ));
                }
                j = j + 1;
            }
            cs.push('.');
            let ghost before = cs@;
            let mut m: usize = point;
            while m < n
                invariant
                    point <= m <= n,
                    point == n - 18,
                    n == ds@.len(),
                    n > 18,
                    ds@ == dec_digits(self@),
                    cs@ == ds@.subrange(0, point as int) + seq!['.'] + ds@.subrange(
                        point as int,
                        m as int,
                    ),
                decreases n - m,
            {
                let c = ds[m];
                cs.push(c);
                proof {
                    assert(ds@.subrange(point as int, (m + 1) as int) =~= ds@.subrange(
                        point as int,
                        m as int,
                    ).push(ds@[m as int]));
                    assert(cs@ =~= ds@.subrange(0, point as int) + seq!['.'] + ds@.subrange(
                        point as int,
                        (m + 1) as int,
                    ));
                }
                m = m + 1;
            }
            proof {
                assert(cs@ =~= display_chars(self@));
            }
        }
        proof {
            assert(forall|i: int|
                0 <= i < cs@.len() ==> (cs@[i] == '.' || is_digit_char(#[trigger] cs@[i])));
        }
        chars_to_string(&cs)
    }
}

} // verus!
