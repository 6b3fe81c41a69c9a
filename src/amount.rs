use vstd::prelude::*;

verus! {

/// Number of fractional decimal digits an [`Amount`] carries exactly.
pub const SCALE: u32 = 8;

/// `10` raised to `n`.
pub open spec fn pow10(n: nat) -> int
    decreases n,
{
    if n == 0 {
        1
    } else {
        10 * pow10((n - 1) as nat)
    }
}

/// Whether `x` can be held by an `i128`.
pub open spec fn fits(x: int) -> bool {
    i128::MIN <= x <= i128::MAX
}

/// A signed decimal amount with `SCALE` fractional digits, held exactly as a
/// count of the smallest unit (`10^-SCALE`).
#[derive(Clone, Copy, Debug, PartialEq, Eq, Structural)]
pub struct Amount {
    pub units: i128,
}

impl View for Amount {
    type V = int;

    open spec fn view(&self) -> int {
        self.units as int
    }
}

/// Powers of ten are positive.
pub proof fn lemma_pow10_positive(n: nat)
    ensures
        pow10(n) >= 1,
    decreases n,
{
    if n > 0 {
        lemma_pow10_positive((n - 1) as nat);
    }
}

/// Powers of ten up to the scale stay small.
pub proof fn lemma_pow10_bound(n: nat)
    requires
        n <= SCALE,
    ensures
        pow10(n) <= 100_000_000,
    decreases SCALE - n,
{
    if n < SCALE {
        lemma_pow10_bound(n + 1);
        lemma_pow10_positive(n);
    } else {
        reveal_with_fuel(pow10, 9);
    }
}

/// `10^n` for an exponent no larger than `SCALE`.
fn power_of_ten(n: u32) -> (r: i128)
    requires
        n <= SCALE,
    ensures
        r == pow10(n as nat),
        1 <= r <= 100_000_000,
{
    let mut factor: i128 = 1;
    let mut k: u32 = 0;
    while k < n
        invariant
            k <= n <= SCALE,
            factor == pow10(k as nat),
        decreases n - k,
    {
        proof {
            lemma_pow10_bound(k as nat);
            lemma_pow10_positive(k as nat);
        }
        factor = factor * 10;
        k = k + 1;
    }
    proof {
        lemma_pow10_bound(k as nat);
        lemma_pow10_positive(k as nat);
    }
    factor
}

impl Amount {
    /// The amount zero.
    pub fn zero() -> (r: Amount)
        ensures
            r@ == 0,
    {
        Amount { units: 0 }
    }

    /// The amount `mantissa * 10^-scale`, as `rust_decimal::Decimal::new` builds it.
    pub fn new(mantissa: i64, scale: u32) -> (r: Amount)
        requires
            scale <= SCALE,
        ensures
            r@ == mantissa * pow10((SCALE - scale) as nat),
    {
        let factor = power_of_ten(SCALE - scale);
        proof {
            lemma_pow10_bound((SCALE - scale) as nat);
            lemma_pow10_positive((SCALE - scale) as nat);
            assert(-0x8000_0000_0000_0000 * factor <= mantissa * factor <= 0x7fff_ffff_ffff_ffff
                * factor) by (nonlinear_arith)
                requires
                    i64::MIN <= mantissa <= i64::MAX,
                    factor >= 1,
            ;
        }
        let units: i128 = mantissa as i128 * factor;
        Amount { units }
    }

    /// The amount `mantissa * 10^-scale`, when it can be held exactly: its scale
    /// is at most `SCALE` and its count of units fits in an `i128`.
    pub fn from_parts(mantissa: i128, scale: u32) -> (r: Option<Amount>)
        ensures
            r == (if scale <= SCALE && fits(mantissa * pow10((SCALE - scale) as nat)) {
                Some(Amount { units: (mantissa * pow10((SCALE - scale) as nat)) as i128 })
            } else {
                None
            }),
    {
        if scale > SCALE {
            return None;
        }
        let factor = power_of_ten(SCALE - scale);
        match mantissa.checked_mul(factor) {
            Some(units) => Some(Amount { units }),
            None => None,
        }
    }

    /// `self + other`, or `None` where the sum does not fit.
    pub fn checked_add(self, other: Amount) -> (r: Option<Amount>)
        ensures
            r == (if fits(self@ + other@) {
                Some(Amount { units: (self@ + other@) as i128 })
            } else {
                None
            }),
    {
        match self.units.checked_add(other.units) {
            Some(units) => Some(Amount { units }),
            None => None,
        }
    }

    /// `self - other`, or `None` where the difference does not fit.
    pub fn checked_sub(self, other: Amount) -> (r: Option<Amount>)
        ensures
            r == (if fits(self@ - other@) {
                Some(Amount { units: (self@ - other@) as i128 })
            } else {
                None
            }),
    {
        match self.units.checked_sub(other.units) {
            Some(units) => Some(Amount { units }),
            None => None,
        }
    }
}

} // verus!
