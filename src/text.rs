//! Building program text: decimal numerals and rendering of folded
//! parameters in symbolic form.
use vstd::prelude::*;
use vstd::string::*;
use crate::ir::{Angle, Konst};

verus! {

pub open spec fn digit_char(d: nat) -> char {
    seq!['0', '1', '2', '3', '4', '5', '6', '7', '8', '9'][d as int]
}

/// The decimal numeral of `n`, without leading zeros.
pub open spec fn dec(n: nat) -> Seq<char>
    decreases n,
{
    if n < 10 {
        seq![digit_char(n)]
    } else {
        dec(n / 10) + seq![digit_char(n % 10)]
    }
}

/// Appends the decimal numeral of `n`.
pub fn push_dec(s: &mut String, n: u64)
    ensures
        final(s)@ == old(s)@ + dec(n as nat),
    decreases n,
{
    if n >= 10 {
        push_dec(s, n / 10);
    }
    let d: usize = (n % 10) as usize;
    let digits = "0123456789";
    proof {
        reveal_strlit("0123456789");
    }
    s.append(digits.substring_char(d, d + 1));
    assert(digits@.subrange(d as int, d + 1) =~= seq![digit_char(d as nat)]);
    proof {
        if n >= 10 {
            assert(old(s)@ + dec(n as nat) =~= old(s)@ + dec((n / 10) as nat) + seq![digit_char(d as nat)]);
        }
    }
}

/// The greatest common divisor, by Euclid's rule.
pub open spec fn gcd(a: nat, b: nat) -> nat
    decreases b,
{
    if b == 0 {
        a
    } else {
        gcd(b, a % b)
    }
}

pub fn gcd_u64(a: u64, b: u64) -> (r: u64)
    ensures
        r as nat == gcd(a as nat, b as nat),
{
    let mut x = a;
    let mut y = b;
    while y != 0
        invariant
            gcd(x as nat, y as nat) == gcd(a as nat, b as nat),
        decreases y,
    {
        let t = x % y;
        x = y;
        y = t;
    }
    x
}

pub open spec fn konst_name(k: Konst) -> Seq<char> {
    match k {
        Konst::One => seq![],
        Konst::Pi => seq!['p', 'i'],
        Konst::Tau => seq!['t', 'a', 'u'],
        Konst::Euler => seq!['e', 'u', 'l', 'e', 'r'],
    }
}

pub open spec fn abs_nat(x: int) -> nat {
    if x < 0 {
        (-x) as nat
    } else {
        x as nat
    }
}

/// Lowest terms of `a`: the magnitude of the numerator and the denominator.
pub open spec fn reduced(a: Angle) -> (nat, nat) {
    let g = gcd(abs_nat(a.num as int), a.den as nat);
    (abs_nat(a.num as int) / g, a.den as nat / g)
}

/// The symbolic form of `a` in lowest terms: `0`, `-3/4`, `pi`, `-pi/2`,
/// `2*tau`, `3*pi/4`.
pub open spec fn symbolic(a: Angle) -> Seq<char> {
    let (p, q) = reduced(a);
    let sign = if a.num < 0 {
        seq!['-']
    } else {
        seq![]
    };
    let tail = if q == 1 {
        seq![]
    } else {
        seq!['/'] + dec(q)
    };
    if p == 0 {
        seq!['0']
    } else if a.konst == Konst::One {
        sign + dec(p) + tail
    } else if p == 1 {
        sign + konst_name(a.konst) + tail
    } else {
        sign + dec(p) + seq!['*'] + konst_name(a.konst) + tail
    }
}

fn push_konst(s: &mut String, k: Konst)
    ensures
        final(s)@ == old(s)@ + konst_name(k),
{
    match k {
        Konst::One => {
            assert(old(s)@ + konst_name(k) =~= old(s)@);
        },
        Konst::Pi => {
            proof {
                reveal_strlit("pi");
            }
            s.append("pi");
        },
        Konst::Tau => {
            proof {
                reveal_strlit("tau");
            }
            s.append("tau");
        },
        Konst::Euler => {
            proof {
                reveal_strlit("euler");
            }
            s.append("euler");
        },
    }
}

/// Appends the symbolic form of `a`.
pub fn push_symbolic(s: &mut String, a: Angle)
    requires
        a.den > 0,
    ensures
        final(s)@ == old(s)@ + symbolic(a),
{
    let mag: u64 = if a.num < 0 {
        (0i128 - a.num as i128) as u64
    } else {
        a.num as u64
    };
    let g = gcd_u64(mag, a.den as u64);
    proof {
        lemma_gcd_pos(mag as nat, a.den as nat);
    }
    let p = mag / g;
    let q = (a.den as u64) / g;
    assert(reduced(a) == (p as nat, q as nat));
    proof {
        reveal_strlit("0");
        reveal_strlit("-");
        reveal_strlit("/");
        reveal_strlit("*");
    }
    if p == 0 {
        s.append("0");
        return;
    }
    if a.num < 0 {
        s.append("-");
    }
    let ghost s1 = s@;
    if a.konst == Konst::One {
        push_dec(s, p);
    } else if p == 1 {
        push_konst(s, a.konst);
    } else {
        push_dec(s, p);
        s.append("*");
        push_konst(s, a.konst);
    }
    let ghost s2 = s@;
    if q != 1 {
        s.append("/");
        push_dec(s, q);
    }
    assert(s@ =~= old(s)@ + symbolic(a));
}

pub proof fn lemma_gcd_pos(a: nat, b: nat)
    requires
        b > 0,
    ensures
        gcd(a, b) > 0,
    decreases b,
{
    if a % b != 0 {
        lemma_gcd_pos(b, a % b);
    } else {
        assert(gcd(b, 0) == b);
    }
}

} // verus!
