//! Exact decimal numbers.
//!
//! A value is an integer mantissa paired with a scale: the represented
//! number is `mantissa / 10^scale`. [`Decimal`] is non-negative and is what
//! numeric literals lex into; [`SignedDecimal`] may also be negative and is
//! used for running totals that can go below zero. All arithmetic is exact;
//! an operation whose result mantissa would not fit its machine integer
//! reports that by returning `None` instead of rounding.

use vstd::prelude::*;

verus! {

/// A non-negative decimal number: `mantissa / 10^scale`.
#[derive(Debug, Clone, Copy, PartialEq, Eq, Structural)]
pub struct Decimal {
    pub mantissa: u128,
    pub scale: u32,
}

/// A signed decimal number: `mantissa / 10^scale`.
#[derive(Debug, Clone, Copy, PartialEq, Eq, Structural)]
pub struct SignedDecimal {
    pub mantissa: i128,
    pub scale: u32,
}

/// `10^e` as a mathematical integer.
pub open spec fn pow10(e: nat) -> nat
    decreases e,
{
    if e == 0 {
        1
    } else {
        10 * pow10((e - 1) as nat)
    }
}

pub proof fn lemma_pow10_positive(e: nat)
    ensures
        pow10(e) >= 1,
    decreases e,
{
    if e > 0 {
        lemma_pow10_positive((e - 1) as nat);
    }
}

pub proof fn lemma_pow10_monotone(a: nat, b: nat)
    requires
        a <= b,
    ensures
        pow10(a) <= pow10(b),
    decreases b,
{
    if a < b {
        lemma_pow10_monotone(a, (b - 1) as nat);
        lemma_pow10_positive((b - 1) as nat);
    }
}

proof fn lemma_mul_nonneg(a: int, b: int)
    by (nonlinear_arith)
    requires
        a >= 0,
        b >= 0,
    ensures
        a * b >= 0,
{
}

proof fn lemma_mul_le_mono_left(a: int, b: int, m: int)
    by (nonlinear_arith)
    requires
        a <= b,
        m >= 0,
    ensures
        a * m <= b * m,
{
}

proof fn lemma_one_le_mul(m: int, p: int)
    by (nonlinear_arith)
    requires
        m >= 1,
        p >= 0,
    ensures
        p <= m * p,
{
}

/// `10^e`, or `None` when that does not fit in `u128`.
pub fn pow10_checked(e: u32) -> (r: Option<u128>)
    ensures
        r matches Some(v) ==> v == pow10(e as nat),
        r is None ==> pow10(e as nat) > u128::MAX,
{
    let mut acc: u128 = 1;
    let mut i: u32 = 0;
    while i < e
        invariant
            i <= e,
            acc == pow10(i as nat),
        decreases e - i,
    {
        if acc > u128::MAX / 10 {
            proof {
                assert(pow10((i + 1) as nat) == 10 * pow10(i as nat));
                lemma_pow10_monotone((i + 1) as nat, e as nat);
            }
            return None;
        }
        acc = acc * 10;
        i = i + 1;
        proof {
            assert(pow10(i as nat) == 10 * pow10((i - 1) as nat));
        }
    }
    Some(acc)
}

/// `m * 10^e`, or `None` when that does not fit in `u128`.
fn rescale_u128(m: u128, e: u32) -> (r: Option<u128>)
    ensures
        r matches Some(v) ==> v == (m as int) * (pow10(e as nat) as int),
        r is None ==> (m as int) * (pow10(e as nat) as int) > u128::MAX as int,
{
    if m == 0 {
        proof {
            assert(0 * (pow10(e as nat) as int) == 0);
        }
        return Some(0);
    }
    match pow10_checked(e) {
        None => {
            proof {
                lemma_one_le_mul(m as int, pow10(e as nat) as int);
            }
            None
        },
        Some(p) => m.checked_mul(p),
    }
}

impl Decimal {
    /// The decimal `mantissa / 10^scale`.
    pub fn new(mantissa: u128, scale: u32) -> (r: Decimal)
        ensures
            r == (Decimal { mantissa, scale }),
    {
        Decimal { mantissa, scale }
    }

    /// The decimal zero, at scale 0.
    pub fn zero() -> (r: Decimal)
        ensures
            r == spec_dec_zero(),
    {
        Decimal { mantissa: 0, scale: 0 }
    }
}

impl SignedDecimal {
    /// The signed decimal `mantissa / 10^scale`.
    pub fn new(mantissa: i128, scale: u32) -> (r: SignedDecimal)
        ensures
            r == (SignedDecimal { mantissa, scale }),
    {
        SignedDecimal { mantissa, scale }
    }

    /// The signed decimal zero, at scale 0.
    pub fn zero() -> (r: SignedDecimal)
        ensures
            r == spec_sdec_zero(),
    {
        SignedDecimal { mantissa: 0, scale: 0 }
    }
}

pub open spec fn spec_dec_zero() -> Decimal {
    Decimal { mantissa: 0, scale: 0 }
}

pub open spec fn spec_sdec_zero() -> SignedDecimal {
    SignedDecimal { mantissa: 0, scale: 0 }
}

/// The common scale two decimals are brought to before adding: the larger one.
pub open spec fn spec_max_scale(a: u32, b: u32) -> u32 {
    if a >= b {
        a
    } else {
        b
    }
}

/// The mantissa of `d` rebased to scale `s` (which must be at least `d.scale`),
/// as a mathematical integer.
pub open spec fn spec_dec_at(d: Decimal, s: u32) -> int {
    (d.mantissa as int) * (pow10((s - d.scale) as nat) as int)
}

/// The mantissa of `d` rebased to scale `s` (which must be at least `d.scale`),
/// as a mathematical integer.
pub open spec fn spec_sdec_at(d: SignedDecimal, s: u32) -> int {
    (d.mantissa as int) * (pow10((s - d.scale) as nat) as int)
}

/// Exact sum of two non-negative decimals, at the larger of the two scales;
/// `None` when the result mantissa does not fit in `u128`.
pub open spec fn spec_dec_add(a: Decimal, b: Decimal) -> Option<Decimal> {
    let s = spec_max_scale(a.scale, b.scale);
    let ma = spec_dec_at(a, s);
    let mb = spec_dec_at(b, s);
    if ma + mb <= u128::MAX as int {
        Some(Decimal { mantissa: (ma + mb) as u128, scale: s })
    } else {
        None
    }
}

/// Exact sum (`positive` true) or difference (`positive` false) of a signed
/// decimal and a non-negative magnitude, at the larger of the two scales;
/// `None` when the rebased magnitude or the result does not fit in `i128`.
pub open spec fn spec_sdec_add_mag(v: SignedDecimal, positive: bool, m: Decimal) -> Option<
    SignedDecimal,
> {
    let s = spec_max_scale(v.scale, m.scale);
    let mv = spec_sdec_at(v, s);
    let mm = spec_dec_at(m, s);
    let sum = if positive {
        mv + mm
    } else {
        mv - mm
    };
    if i128::MIN <= mv <= i128::MAX && mm <= i128::MAX as int && i128::MIN <= sum <= i128::MAX {
        Some(SignedDecimal { mantissa: sum as i128, scale: s })
    } else {
        None
    }
}

/// A non-negative decimal as a signed one, unchanged; `None` when the
/// mantissa does not fit in `i128`.
pub open spec fn spec_dec_to_signed(d: Decimal) -> Option<SignedDecimal> {
    if d.mantissa <= i128::MAX as u128 {
        Some(SignedDecimal { mantissa: d.mantissa as i128, scale: d.scale })
    } else {
        None
    }
}

/// Exact value of `value - purchase + sale` (the derived profit), computed
/// left to right, each step exact or `None`.
pub open spec fn spec_profit(value: SignedDecimal, purchase: Decimal, sale: Decimal) -> Option<
    SignedDecimal,
> {
    match spec_sdec_add_mag(value, false, purchase) {
        None => None,
        Some(v1) => spec_sdec_add_mag(v1, true, sale),
    }
}

/// Exact sum of two non-negative decimals.
pub fn dec_add(a: Decimal, b: Decimal) -> (r: Option<Decimal>)
    ensures
        r == spec_dec_add(a, b),
{
    let s = if a.scale >= b.scale {
        a.scale
    } else {
        b.scale
    };
    proof {
        lemma_mul_nonneg(a.mantissa as int, pow10((s - a.scale) as nat) as int);
        lemma_mul_nonneg(b.mantissa as int, pow10((s - b.scale) as nat) as int);
    }
    let ma = match rescale_u128(a.mantissa, s - a.scale) {
        Some(v) => v,
        None => {
            return None;
        },
    };
    let mb = match rescale_u128(b.mantissa, s - b.scale) {
        Some(v) => v,
        None => {
            return None;
        },
    };
    match ma.checked_add(mb) {
        Some(m) => Some(Decimal { mantissa: m, scale: s }),
        None => None,
    }
}

/// Exact sum or difference of a signed decimal and a non-negative magnitude.
pub fn sdec_add_mag(v: SignedDecimal, positive: bool, m: Decimal) -> (r: Option<SignedDecimal>)
    ensures
        r == spec_sdec_add_mag(v, positive, m),
{
    let s = if v.scale >= m.scale {
        v.scale
    } else {
        m.scale
    };
    proof {
        lemma_mul_nonneg(m.mantissa as int, pow10((s - m.scale) as nat) as int);
    }
    let mv = match rescale_i128(v.mantissa, s - v.scale) {
        Some(x) => x,
        None => {
            return None;
        },
    };
    let mm = match rescale_u128(m.mantissa, s - m.scale) {
        Some(x) => x,
        None => {
            return None;
        },
    };
    if mm > i128::MAX as u128 {
        return None;
    }
    let mm_i = mm as i128;
    let r = if positive {
        mv.checked_add(mm_i)
    } else {
        mv.checked_sub(mm_i)
    };
    match r {
        Some(x) => Some(SignedDecimal { mantissa: x, scale: s }),
        None => None,
    }
}

/// `m * 10^e`, or `None` when that does not fit in `i128`.
fn rescale_i128(m: i128, e: u32) -> (r: Option<i128>)
    ensures
        r matches Some(v) ==> v == (m as int) * (pow10(e as nat) as int),
        r is None ==> !(i128::MIN <= (m as int) * (pow10(e as nat) as int) <= i128::MAX),
{
    if m == 0 {
        proof {
            assert(0 * (pow10(e as nat) as int) == 0);
        }
        return Some(0);
    }
    match pow10_checked(e) {
        None => {
            proof {
                let p = pow10(e as nat) as int;
                if m >= 1 {
                    lemma_one_le_mul(m as int, p);
                } else {
                    lemma_mul_le_mono_left(m as int, -1, p);
                }
            }
            None
        },
        Some(p) => {
            if p > i128::MAX as u128 {
                proof {
                    let pi = pow10(e as nat) as int;
                    if m >= 1 {
                        lemma_one_le_mul(m as int, pi);
                    } else {
                        lemma_mul_le_mono_left(m as int, -1, pi);
                    }
                }
                return None;
            }
            m.checked_mul(p as i128)
        },
    }
}

/// A non-negative decimal as a signed one.
pub fn dec_to_signed(d: Decimal) -> (r: Option<SignedDecimal>)
    ensures
        r == spec_dec_to_signed(d),
{
    if d.mantissa <= i128::MAX as u128 {
        Some(SignedDecimal { mantissa: d.mantissa as i128, scale: d.scale })
    } else {
        None
    }
}

/// Exact value of `value - purchase + sale`.
pub fn profit_of(value: SignedDecimal, purchase: Decimal, sale: Decimal) -> (r: Option<
    SignedDecimal,
>)
    ensures
        r == spec_profit(value, purchase, sale),
{
    match sdec_add_mag(value, false, purchase) {
        None => None,
        Some(v1) => sdec_add_mag(v1, true, sale),
    }
}

} // verus!
