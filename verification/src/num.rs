use vstd::arithmetic::mul::{lemma_mul_inequality, lemma_mul_strict_inequality};
use vstd::prelude::*;

verus! {

/// The largest number of fraction digits a [`Dec`] can carry.
pub const MAX_SCALE: u32 = 18;

/// `10^e` over the mathematical naturals.
pub open spec fn pow10(e: nat) -> nat
    decreases e,
{
    if e == 0 {
        1
    } else {
        10 * pow10((e - 1) as nat)
    }
}

/// An exact decimal number: `(-1)^neg * mant / 10^scale`.
///
/// Well-formed values are canonical: at most [`MAX_SCALE`] fraction digits,
/// no trailing zero fraction digit, and zero is stored as `+0` with scale
/// `0`. This makes structural equality coincide with numeric equality.
#[derive(Copy, Clone, Debug, PartialEq, Eq)]
pub struct Dec {
    /// The sign: true only for strictly negative values.
    pub neg: bool,
    /// The mantissa: all digits of the number, as an integer.
    pub mant: u64,
    /// How many of the mantissa's digits lie behind the decimal point.
    pub scale: u32,
}

impl Dec {
    /// Canonical-form invariant of a decimal.
    pub open spec fn wf(self) -> bool {
        &&& self.scale <= MAX_SCALE
        &&& (self.mant == 0 ==> self.scale == 0 && !self.neg)
        &&& (self.scale > 0 ==> self.mant % 10 != 0)
    }
}

/// The value of a decimal, scaled by `10^MAX_SCALE` to stay integral:
/// `dec_scaled(d)` is `d * 10^18` over the mathematical reals.
pub open spec fn dec_scaled(d: Dec) -> int {
    let mag = d.mant * pow10((MAX_SCALE - d.scale) as nat);
    if d.neg {
        -mag
    } else {
        mag as int
    }
}

/// A measurement value or range endpoint: an exact decimal or an infinity.
#[derive(Copy, Clone, Debug, PartialEq, Eq)]
pub enum Num {
    /// Negative infinity, written `~` in range notation.
    NegInf,
    /// A finite decimal value.
    Fin(Dec),
    /// Positive infinity, the default upper endpoint of a range.
    PosInf,
}

impl Num {
    /// A number is well-formed when its decimal part, if any, is.
    pub open spec fn wf(self) -> bool {
        match self {
            Num::Fin(d) => d.wf(),
            _ => true,
        }
    }
}

/// The ordering of [`Num`] values: `NegInf` below every finite decimal,
/// `PosInf` above, finite decimals by their exact value.
pub open spec fn num_le(a: Num, b: Num) -> bool {
    match (a, b) {
        (Num::NegInf, _) => true,
        (_, Num::PosInf) => true,
        (Num::Fin(x), Num::Fin(y)) => dec_scaled(x) <= dec_scaled(y),
        _ => false,
    }
}

proof fn lemma_pow10_bounds()
    ensures
        pow10(18) == 1000000000000000000,
        pow10(19) == 10000000000000000000,
{
    reveal_with_fuel(pow10, 20);
}

/// `10^a <= 10^b` whenever `a <= b`.
pub proof fn lemma_pow10_monotone(a: nat, b: nat)
    requires
        a <= b,
    ensures
        pow10(a) <= pow10(b),
        pow10(a) >= 1,
    decreases b,
{
    if b > 0 {
        lemma_pow10_monotone(if a == b { (a - 1) as nat } else { a }, (b - 1) as nat);
    }
}

/// `10^(a+b) == 10^a * 10^b`.
pub proof fn lemma_pow10_adds(a: nat, b: nat)
    ensures
        pow10(a + b) == pow10(a) * pow10(b),
    decreases a,
{
    if a == 0 {
        assert(pow10(0) == 1);
        assert(1 * pow10(b) == pow10(b)) by {
            vstd::arithmetic::mul::lemma_mul_basics(pow10(b) as int);
        }
    } else {
        lemma_pow10_adds((a - 1) as nat, b);
        assert(pow10(a + b) == 10 * pow10((a - 1) as nat + b));
        vstd::arithmetic::mul::lemma_mul_is_associative(
            10,
            pow10((a - 1) as nat) as int,
            pow10(b) as int,
        );
        assert(10 * (pow10((a - 1) as nat) as int * pow10(b) as int) == (10 * pow10(
            (a - 1) as nat,
        ) as int) * pow10(b) as int);
        assert(pow10(a) == 10 * pow10((a - 1) as nat));
    }
}

/// `10^e` as a machine integer, for exponents up to 19.
pub fn pow10_u64(e: u32) -> (r: u64)
    requires
        e <= 19,
    ensures
        r == pow10(e as nat),
{
    proof {
        lemma_pow10_bounds();
    }
    let mut acc: u64 = 1;
    let mut i: u32 = 0;
    while i < e
        invariant
            i <= e <= 19,
            acc == pow10(i as nat),
        decreases e - i,
    {
        proof {
            lemma_pow10_monotone((i + 1) as nat, 19);
            lemma_pow10_bounds();
        }
        acc = acc * 10;
        i = i + 1;
    }
    acc
}

/// The magnitude of a decimal scaled to `MAX_SCALE` fraction digits,
/// which fits comfortably in a `u128`.
fn dec_mag_scaled(d: &Dec) -> (r: u128)
    requires
        d.wf(),
    ensures
        r == d.mant * pow10((MAX_SCALE - d.scale) as nat),
{
    let p = pow10_u64(MAX_SCALE - d.scale);
    proof {
        lemma_pow10_monotone((MAX_SCALE - d.scale) as nat, 18);
        lemma_pow10_bounds();
        lemma_mul_inequality(p as int, pow10(18) as int, d.mant as int);
        lemma_mul_strict_inequality(d.mant as int, 0x1_0000_0000_0000_0000, pow10(18) as int);
    }
    (d.mant as u128) * (p as u128)
}

impl Dec {
    /// `self <= other` over the exact decimal values.
    pub fn le(&self, other: &Dec) -> (r: bool)
        requires
            self.wf(),
            other.wf(),
        ensures
            r == (dec_scaled(*self) <= dec_scaled(*other)),
    {
        if self.neg != other.neg {
            // The canonical form keeps zero positive, so a negative decimal
            // is strictly below every non-negative one.
            proof {
                let d = if self.neg { *self } else { *other };
                lemma_pow10_monotone(0, (MAX_SCALE - d.scale) as nat);
                vstd::arithmetic::mul::lemma_mul_strictly_positive(
                    d.mant as int,
                    pow10((MAX_SCALE - d.scale) as nat) as int,
                );
            }
            self.neg
        } else {
            let a = dec_mag_scaled(self);
            let b = dec_mag_scaled(other);
            if self.neg {
                b <= a
            } else {
                a <= b
            }
        }
    }

    /// `self < other` over the exact decimal values.
    pub fn lt(&self, other: &Dec) -> (r: bool)
        requires
            self.wf(),
            other.wf(),
        ensures
            r == (dec_scaled(*self) < dec_scaled(*other)),
    {
        !other.le(self)
    }

    /// The decimal zero.
    pub fn zero() -> (d: Dec)
        ensures
            d == spec_dec_zero(),
            d.wf(),
    {
        Dec { neg: false, mant: 0, scale: 0 }
    }

    /// The decimal with the given whole value.
    pub fn from_int(v: i64) -> (d: Dec)
        ensures
            d == spec_dec_int(v as int),
            d.wf(),
    {
        if v >= 0 {
            Dec { neg: false, mant: v as u64, scale: 0 }
        } else if v == i64::MIN {
            Dec { neg: true, mant: 9223372036854775808u64, scale: 0 }
        } else {
            Dec { neg: true, mant: (-v) as u64, scale: 0 }
        }
    }

    /// A decimal built from its parts, brought to canonical form; `None`
    /// when more than [`MAX_SCALE`] significant fraction digits remain.
    pub fn new(neg: bool, mant: u64, scale: u32) -> (r: Option<Dec>)
        ensures
            r == spec_dec_new(neg, mant, scale),
            r matches Some(d) ==> d.wf(),
    {
        let mut m = mant;
        let mut s = scale;
        while s > 0 && m % 10 == 0
            invariant
                spec_dec_new(neg, m, s) == spec_dec_new(neg, mant, scale),
            decreases s,
        {
            m = m / 10;
            s = s - 1;
        }
        if m == 0 {
            Some(Dec { neg: false, mant: 0, scale: 0 })
        } else if s <= MAX_SCALE {
            Some(Dec { neg, mant: m, scale: s })
        } else {
            None
        }
    }
}

/// The canonical decimal zero.
pub open spec fn spec_dec_zero() -> Dec {
    Dec { neg: false, mant: 0, scale: 0 }
}

/// The canonical decimal holding the whole value `v`.
pub open spec fn spec_dec_int(v: int) -> Dec {
    if v >= 0 {
        Dec { neg: false, mant: v as u64, scale: 0 }
    } else {
        Dec { neg: true, mant: (-v) as u64, scale: 0 }
    }
}

/// Canonicalization of decimal parts: trailing zero fraction digits are
/// dropped, zero loses sign and scale, and a fraction longer than
/// [`MAX_SCALE`] digits is rejected.
pub open spec fn spec_dec_new(neg: bool, mant: u64, scale: u32) -> Option<Dec>
    decreases scale,
{
    if scale > 0 && mant % 10 == 0 {
        spec_dec_new(neg, (mant / 10) as u64, (scale - 1) as u32)
    } else if mant == 0 {
        Some(spec_dec_zero())
    } else if scale <= MAX_SCALE {
        Some(Dec { neg, mant, scale })
    } else {
        None
    }
}

} // verus!
