//! Parameter expressions: exact folding to a rational multiple of one named
//! constant, and rendering of a folded value in symbolic form.
use vstd::prelude::*;
use vstd::string::*;
use crate::ir::{Angle, Konst};

verus! {

/// An arithmetic expression over literals, named constants, numeric
/// formals and free symbols.
#[derive(Debug)]
pub enum Expr {
    Lit(i64),
    Const(Konst),
    Formal(usize),
    Symbol(String),
    Neg(Box<Expr>),
    Add(Box<Expr>, Box<Expr>),
    Sub(Box<Expr>, Box<Expr>),
    Mul(Box<Expr>, Box<Expr>),
    Div(Box<Expr>, Box<Expr>),
}

/// Why an expression does not fold to an `Angle`.
#[derive(Clone, Copy, PartialEq, Eq, Structural, Debug)]
pub enum FoldError {
    /// A free symbol, or a formal with no bound value.
    Unbound,
    /// The value is not a rational multiple of a single named constant.
    NotLinear,
    DivByZero,
    /// A numerator or denominator leaves the 64-bit range.
    Overflow,
}

/// An exact value: `num / den` times `konst`.
pub ghost struct Rat {
    pub num: int,
    pub den: int,
    pub konst: Konst,
}

pub open spec fn fits(x: int) -> bool {
    i64::MIN <= x <= i64::MAX
}

pub open spec fn angle_rat(a: Angle) -> Rat {
    Rat { num: a.num as int, den: a.den as int, konst: a.konst }
}

/// A result of folding is kept only where both parts fit in 64 bits.
pub open spec fn checked(num: int, den: int, konst: Konst) -> Result<Rat, FoldError> {
    if fits(num) && fits(den) {
        Ok(Rat { num, den, konst })
    } else {
        Err(FoldError::Overflow)
    }
}

/// The constant of a sum, where the sum stays a multiple of one constant.
pub open spec fn sum_konst(a: Rat, b: Rat) -> Option<Konst> {
    if a.konst == b.konst {
        Some(a.konst)
    } else if a.num == 0 {
        Some(b.konst)
    } else if b.num == 0 {
        Some(a.konst)
    } else {
        None
    }
}

pub open spec fn add_rat(a: Rat, b: Rat) -> Result<Rat, FoldError> {
    match sum_konst(a, b) {
        Some(k) => checked(a.num * b.den + b.num * a.den, a.den * b.den, k),
        None => Err(FoldError::NotLinear),
    }
}

pub open spec fn neg_rat(a: Rat) -> Result<Rat, FoldError> {
    checked(-a.num, a.den, a.konst)
}

pub open spec fn mul_rat(a: Rat, b: Rat) -> Result<Rat, FoldError> {
    if a.konst == Konst::One {
        checked(a.num * b.num, a.den * b.den, b.konst)
    } else if b.konst == Konst::One {
        checked(a.num * b.num, a.den * b.den, a.konst)
    } else {
        Err(FoldError::NotLinear)
    }
}

pub open spec fn div_rat(a: Rat, b: Rat) -> Result<Rat, FoldError> {
    if b.konst != Konst::One {
        Err(FoldError::NotLinear)
    } else if b.num == 0 {
        Err(FoldError::DivByZero)
    } else if b.num > 0 {
        checked(a.num * b.den, a.den * b.num, a.konst)
    } else {
        checked(-(a.num * b.den), -(a.den * b.num), a.konst)
    }
}

/// The value of `e` with formal `i` bound to `env[i]`, evaluated inside out;
/// the first failure, left operand first, is the result.
pub open spec fn fold_spec(e: Expr, env: Seq<Angle>) -> Result<Rat, FoldError>
    decreases e,
{
    match e {
        Expr::Lit(n) => Ok(Rat { num: n as int, den: 1, konst: Konst::One }),
        Expr::Const(k) => Ok(Rat { num: 1, den: 1, konst: k }),
        Expr::Formal(i) => if i < env.len() {
            Ok(angle_rat(env[i as int]))
        } else {
            Err(FoldError::Unbound)
        },
        Expr::Symbol(_) => Err(FoldError::Unbound),
        Expr::Neg(a) => match fold_spec(*a, env) {
            Ok(x) => neg_rat(x),
            Err(err) => Err(err),
        },
        Expr::Add(a, b) => match (fold_spec(*a, env), fold_spec(*b, env)) {
            (Err(err), _) => Err(err),
            (Ok(_), Err(err)) => Err(err),
            (Ok(x), Ok(y)) => add_rat(x, y),
        },
        Expr::Sub(a, b) => match (fold_spec(*a, env), fold_spec(*b, env)) {
            (Err(err), _) => Err(err),
            (Ok(_), Err(err)) => Err(err),
            (Ok(x), Ok(y)) => match neg_rat(y) {
                Ok(ny) => add_rat(x, ny),
                Err(err) => Err(err),
            },
        },
        Expr::Mul(a, b) => match (fold_spec(*a, env), fold_spec(*b, env)) {
            (Err(err), _) => Err(err),
            (Ok(_), Err(err)) => Err(err),
            (Ok(x), Ok(y)) => mul_rat(x, y),
        },
        Expr::Div(a, b) => match (fold_spec(*a, env), fold_spec(*b, env)) {
            (Err(err), _) => Err(err),
            (Ok(_), Err(err)) => Err(err),
            (Ok(x), Ok(y)) => div_rat(x, y),
        },
    }
}

pub open spec fn env_valid(env: Seq<Angle>) -> bool {
    forall|i: int| 0 <= i < env.len() ==> (#[trigger] env[i]).den > 0
}

fn fit(num: i128, den: i128, konst: Konst) -> (r: Result<Angle, FoldError>)
    ensures
        r matches Ok(a) ==> checked(num as int, den as int, konst) == Ok::<Rat, FoldError>(angle_rat(a)),
        r is Err ==> checked(num as int, den as int, konst) == Err::<Rat, FoldError>(FoldError::Overflow)
            && r == Err::<Angle, FoldError>(FoldError::Overflow),
{
    if num >= i64::MIN as i128 && num <= i64::MAX as i128 && den >= i64::MIN as i128 && den
        <= i64::MAX as i128 {
        Ok(Angle { num: num as i64, den: den as i64, konst })
    } else {
        Err(FoldError::Overflow)
    }
}

fn add_angle(a: Angle, b: Angle) -> (r: Result<Angle, FoldError>)
    requires
        a.den > 0,
        b.den > 0,
    ensures
        r matches Ok(c) ==> c.den > 0,
        r matches Ok(c) ==> add_rat(angle_rat(a), angle_rat(b)) == Ok::<Rat, FoldError>(angle_rat(c)),
        r matches Err(err) ==> add_rat(angle_rat(a), angle_rat(b)) == Err::<Rat, FoldError>(err),
{
    let k = if a.konst == b.konst {
        a.konst
    } else if a.num == 0 {
        b.konst
    } else if b.num == 0 {
        a.konst
    } else {
        return Err(FoldError::NotLinear);
    };
    let an = a.num as i128;
    let ad = a.den as i128;
    let bn = b.num as i128;
    let bd = b.den as i128;
    assert(-0x4000_0000_0000_0000_0000_0000_0000_0000 < an * bd < 0x4000_0000_0000_0000_0000_0000_0000_0000)
        by (nonlinear_arith)
        requires
            fits(an as int),
            fits(bd as int),
            bd > 0,
    ;
    assert(-0x4000_0000_0000_0000_0000_0000_0000_0000 < bn * ad < 0x4000_0000_0000_0000_0000_0000_0000_0000)
        by (nonlinear_arith)
        requires
            fits(bn as int),
            fits(ad as int),
            ad > 0,
    ;
    assert(-0x4000_0000_0000_0000_0000_0000_0000_0000 <= ad * bd <= 0x4000_0000_0000_0000_0000_0000_0000_0000)
        by (nonlinear_arith)
        requires
            fits(ad as int),
            fits(bd as int),
    ;
    assert(ad * bd > 0) by (nonlinear_arith)
        requires
            ad > 0,
            bd > 0,
    ;
    fit(an * bd + bn * ad, ad * bd, k)
}

fn neg_angle(a: Angle) -> (r: Result<Angle, FoldError>)
    requires
        a.den > 0,
    ensures
        r matches Ok(c) ==> c.den > 0,
        r matches Ok(c) ==> neg_rat(angle_rat(a)) == Ok::<Rat, FoldError>(angle_rat(c)),
        r matches Err(err) ==> neg_rat(angle_rat(a)) == Err::<Rat, FoldError>(err),
{
    fit(-(a.num as i128), a.den as i128, a.konst)
}

fn mul_angle(a: Angle, b: Angle) -> (r: Result<Angle, FoldError>)
    requires
        a.den > 0,
        b.den > 0,
    ensures
        r matches Ok(c) ==> c.den > 0,
        r matches Ok(c) ==> mul_rat(angle_rat(a), angle_rat(b)) == Ok::<Rat, FoldError>(angle_rat(c)),
        r matches Err(err) ==> mul_rat(angle_rat(a), angle_rat(b)) == Err::<Rat, FoldError>(err),
{
    let k = if a.konst == Konst::One {
        b.konst
    } else if b.konst == Konst::One {
        a.konst
    } else {
        return Err(FoldError::NotLinear);
    };
    let an = a.num as i128;
    let ad = a.den as i128;
    let bn = b.num as i128;
    let bd = b.den as i128;
    assert(-0x4000_0000_0000_0000_0000_0000_0000_0000 <= an * bn <= 0x4000_0000_0000_0000_0000_0000_0000_0000)
        by (nonlinear_arith)
        requires
            fits(an as int),
            fits(bn as int),
    ;
    assert(-0x4000_0000_0000_0000_0000_0000_0000_0000 <= ad * bd <= 0x4000_0000_0000_0000_0000_0000_0000_0000)
        by (nonlinear_arith)
        requires
            fits(ad as int),
            fits(bd as int),
    ;
    assert(ad * bd > 0) by (nonlinear_arith)
        requires
            ad > 0,
            bd > 0,
    ;
    fit(an * bn, ad * bd, k)
}

fn div_angle(a: Angle, b: Angle) -> (r: Result<Angle, FoldError>)
    requires
        a.den > 0,
        b.den > 0,
    ensures
        r matches Ok(c) ==> c.den > 0,
        r matches Ok(c) ==> div_rat(angle_rat(a), angle_rat(b)) == Ok::<Rat, FoldError>(angle_rat(c)),
        r matches Err(err) ==> div_rat(angle_rat(a), angle_rat(b)) == Err::<Rat, FoldError>(err),
{
    if b.konst != Konst::One {
        return Err(FoldError::NotLinear);
    }
    if b.num == 0 {
        return Err(FoldError::DivByZero);
    }
    let an = a.num as i128;
    let ad = a.den as i128;
    let bn = b.num as i128;
    let bd = b.den as i128;
    assert(-0x4000_0000_0000_0000_0000_0000_0000_0000 < an * bd < 0x4000_0000_0000_0000_0000_0000_0000_0000)
        by (nonlinear_arith)
        requires
            fits(an as int),
            fits(bd as int),
            bd > 0,
    ;
    assert(-0x4000_0000_0000_0000_0000_0000_0000_0000 <= ad * bn <= 0x4000_0000_0000_0000_0000_0000_0000_0000)
        by (nonlinear_arith)
        requires
            fits(ad as int),
            fits(bn as int),
    ;
    assert(bn > 0 ==> ad * bn > 0) by (nonlinear_arith)
        requires
            ad > 0,
    ;
    assert(bn < 0 ==> ad * bn < 0) by (nonlinear_arith)
        requires
            ad > 0,
    ;
    if b.num > 0 {
        fit(an * bd, ad * bn, a.konst)
    } else {
        fit(-(an * bd), -(ad * bn), a.konst)
    }
}

/// Folds `e` with formal `i` bound to `env[i]`.
pub fn fold(e: &Expr, env: &Vec<Angle>) -> (r: Result<Angle, FoldError>)
    requires
        env_valid(env@),
    ensures
        r matches Ok(a) ==> a.den > 0,
        r matches Ok(a) ==> fold_spec(*e, env@) == Ok::<Rat, FoldError>(angle_rat(a)),
        r matches Err(err) ==> fold_spec(*e, env@) == Err::<Rat, FoldError>(err),
    decreases e,
{
    match e {
        Expr::Lit(n) => Ok(Angle { num: *n, den: 1, konst: Konst::One }),
        Expr::Const(k) => Ok(Angle { num: 1, den: 1, konst: *k }),
        Expr::Formal(i) => if *i < env.len() {
            Ok(env[*i])
        } else {
            Err(FoldError::Unbound)
        },
        Expr::Symbol(_) => Err(FoldError::Unbound),
        Expr::Neg(a) => {
            let x = fold(a, env)?;
            neg_angle(x)
        },
        Expr::Add(a, b) => {
            let x = fold(a, env)?;
            let y = fold(b, env)?;
            add_angle(x, y)
        },
        Expr::Sub(a, b) => {
            let x = fold(a, env)?;
            let y = fold(b, env)?;
            let ny = neg_angle(y)?;
            add_angle(x, ny)
        },
        Expr::Mul(a, b) => {
            let x = fold(a, env)?;
            let y = fold(b, env)?;
            mul_angle(x, y)
        },
        Expr::Div(a, b) => {
            let x = fold(a, env)?;
            let y = fold(b, env)?;
            div_angle(x, y)
        },
    }
}

/// Scanning a decimal literal: value of the digits so far, the power of ten
/// below the point, whether the point was seen, and how many digits there were.
pub ghost struct Scan {
    pub value: int,
    pub den: int,
    pub dot: bool,
    pub digits: nat,
}

pub open spec fn is_digit(c: char) -> bool {
    '0' <= c <= '9'
}

/// The scan of `s`, left to right; `None` on a character that is neither a
/// digit nor the first point, or once the value or the power of ten leaves
/// 64 bits.
pub open spec fn dec_scan(s: Seq<char>) -> Option<Scan>
    decreases s.len(),
{
    if s.len() == 0 {
        Some(Scan { value: 0, den: 1, dot: false, digits: 0 })
    } else {
        match dec_scan(s.drop_last()) {
            None => None,
            Some(p) => {
                let c = s.last();
                if c == '.' {
                    if p.dot {
                        None
                    } else {
                        Some(Scan { dot: true, ..p })
                    }
                } else if is_digit(c) {
                    let v = p.value * 10 + (c as int - '0' as int);
                    let d = if p.dot { p.den * 10 } else { p.den };
                    if v <= i64::MAX && d <= i64::MAX {
                        Some(Scan { value: v, den: d, dot: p.dot, digits: p.digits + 1 })
                    } else {
                        None
                    }
                } else {
                    None
                }
            },
        }
    }
}

/// The exact value of an unsigned decimal literal such as `0.25` or `3.`:
/// the digits with the point removed over ten to the number of digits after it.
pub open spec fn decimal_value(s: Seq<char>) -> Option<Angle> {
    match dec_scan(s) {
        Some(p) => if p.digits > 0 {
            Some(Angle { num: p.value as i64, den: p.den as i64, konst: Konst::One })
        } else {
            None
        },
        None => None,
    }
}

/// Reads an unsigned decimal literal as an exact quotient.
pub fn decimal_angle(text: &str) -> (r: Option<Angle>)
    ensures
        r == decimal_value(text@),
{
    let n = text.unicode_len();
    let mut value: i64 = 0;
    let mut den: i64 = 1;
    let mut dot = false;
    let mut digits: usize = 0;
    let mut i: usize = 0;
    while i < n
        invariant
            n == text@.len(),
            i <= n,
            digits <= i,
            dec_scan(text@.subrange(0, i as int)) == Some(Scan { value: value as int, den: den as int, dot, digits: digits as nat }),
            0 <= value,
            1 <= den,
        decreases n - i,
    {
        let c = text.get_char(i);
        assert(text@.subrange(0, i + 1).drop_last() =~= text@.subrange(0, i as int));
        assert(text@.subrange(0, i + 1).last() == c);
        if c == '.' {
            if dot {
                proof {
                    lemma_scan_none(text@, (i + 1) as nat);
                }
                return None;
            }
            dot = true;
        } else if '0' <= c && c <= '9' {
            let v: i128 = value as i128 * 10 + (c as u32 - '0' as u32) as i128;
            let d: i128 = if dot { den as i128 * 10 } else { den as i128 };
            if v > i64::MAX as i128 || d > i64::MAX as i128 {
                proof {
                    lemma_scan_none(text@, (i + 1) as nat);
                }
                return None;
            }
            value = v as i64;
            den = d as i64;
            digits = digits + 1;
        } else {
            proof {
                lemma_scan_none(text@, (i + 1) as nat);
            }
            return None;
        }
        i = i + 1;
    }
    assert(text@.subrange(0, n as int) =~= text@);
    if digits > 0 {
        Some(Angle { num: value, den, konst: Konst::One })
    } else {
        None
    }
}

proof fn lemma_scan_none(s: Seq<char>, k: nat)
    requires
        k <= s.len(),
        dec_scan(s.subrange(0, k as int)) is None,
    ensures
        dec_scan(s) is None,
    decreases s.len() - k,
{
    if k < s.len() {
        assert(s.subrange(0, (k + 1) as int).drop_last() =~= s.subrange(0, k as int));
        lemma_scan_none(s, k + 1);
    } else {
        assert(s.subrange(0, k as int) =~= s);
    }
}

} // verus!
