//! The exact ("dense") monetary amount: an overflow-checked rational number
//! in lowest terms with a positive denominator, tagged with a currency.

use vstd::prelude::*;
use core::marker::PhantomData;
use core::cmp::Ordering;
use crate::currency::Currency;
use crate::discrete::DiscreteMoney;
use crate::rational::{
    iabs, gcd, constructible, spec_reduce_n, spec_reduce_d, reduce64, lemma_reduce_props,
};
use vstd::arithmetic::div_mod::{lemma_fundamental_div_mod, lemma_fundamental_div_mod_converse};

verus! {

/// An exact amount of currency `C`, held as a rational number in lowest terms
/// (denominator positive, sign carried by the numerator). Arithmetic is
/// overflow-checked and never wraps.
#[derive(Copy, Debug)]
pub struct DenseMoney<C: Currency> {
    n: i64,
    d: i64,
    tag: PhantomData<C>,
}

impl<C: Currency> Clone for DenseMoney<C> {
    fn clone(&self) -> (r: Self)
        ensures
            r == *self,
    {
        *self
    }
}

/// `n1 / d1 + n2 / d2 == n3 / d3`, stated by cross-multiplication.
pub open spec fn frac_add_eq(n1: int, d1: int, n2: int, d2: int, n3: int, d3: int) -> bool {
    (n1 * d2 + n2 * d1) * d3 == n3 * (d1 * d2)
}

/// Rounding to the nearest integer, ties away from zero: the quotient of
/// `n / d` for a positive denominator `d`.
pub open spec fn spec_round_half_away(n: int, d: int) -> int {
    if n >= 0 {
        (2 * n + d) / (2 * d)
    } else {
        -((2 * (-n) + d) / (2 * d))
    }
}

/// The rounded value is within half a unit of the true quotient.
pub proof fn lemma_round_half_away_props(n: int, d: int)
    requires
        d > 0,
    ensures
        -d <= 2 * (n - spec_round_half_away(n, d) * d) <= d,
{
    if n >= 0 {
        let q = (2 * n + d) / (2 * d);
        lemma_fundamental_div_mod(2 * n + d, 2 * d);
        let r = (2 * n + d) % (2 * d);
        assert(2 * n + d == (2 * d) * q + r);
        assert(2 * (n - q * d) == r - d) by (nonlinear_arith)
            requires
                2 * n + d == (2 * d) * q + r,
        ;
    } else {
        let a = -n;
        let q = (2 * a + d) / (2 * d);
        lemma_fundamental_div_mod(2 * a + d, 2 * d);
        let r = (2 * a + d) % (2 * d);
        assert(2 * a + d == (2 * d) * q + r);
        assert(2 * (n - (-q) * d) == d - r) by (nonlinear_arith)
            requires
                2 * a + d == (2 * d) * q + r,
                a == -n,
        ;
    }
}

/// Rounding is exact (no residue) exactly when the denominator divides the
/// numerator; an exact integer rounds to itself.
pub proof fn lemma_round_exact_iff(n: int, d: int)
    requires
        d > 0,
    ensures
        (n - spec_round_half_away(n, d) * d == 0) <==> n % d == 0,
{
    let q = spec_round_half_away(n, d);
    if n - q * d == 0 {
        assert(n % d == 0) by (nonlinear_arith)
            requires
                n == q * d,
                d > 0,
        ;
    }
    if n % d == 0 {
        lemma_fundamental_div_mod(n, d);
        let k = n / d;
        assert(n == k * d) by (nonlinear_arith)
            requires
                n == d * (n / d) + n % d,
                n % d == 0,
                k == n / d,
        ;
        if n >= 0 {
            assert(2 * n + d == (2 * d) * k + d) by (nonlinear_arith)
                requires
                    n == k * d,
            ;
            lemma_fundamental_div_mod_converse(2 * n + d, 2 * d, k, d);
            assert(q == k);
        } else {
            assert(2 * (-n) + d == (2 * d) * (-k) + d) by (nonlinear_arith)
                requires
                    n == k * d,
            ;
            lemma_fundamental_div_mod_converse(2 * (-n) + d, 2 * d, -k, d);
            assert(q == -((-k)));
        }
        assert(n - q * d == 0) by (nonlinear_arith)
            requires
                n == k * d,
                q == k,
        ;
    }
}

impl<C: Currency> DenseMoney<C> {
    /// The numerator of the amount, as a mathematical integer.
    pub closed spec fn numer_int(&self) -> int {
        self.n as int
    }

    /// The denominator of the amount, as a mathematical integer.
    pub closed spec fn denom_int(&self) -> int {
        self.d as int
    }

    /// Well-formed: positive denominator, fraction in lowest terms.
    pub open spec fn wf(&self) -> bool {
        &&& self.denom_int() > 0
        &&& gcd(iabs(self.numer_int()), self.denom_int() as nat) == 1
    }

    /// The cross-multiplied numerator of `a + b`.
    pub open spec fn sum_n(a: Self, b: Self) -> int {
        a.numer_int() * b.denom_int() + b.numer_int() * a.denom_int()
    }

    /// The cross-multiplied numerator of `a - b`.
    pub open spec fn diff_n(a: Self, b: Self) -> int {
        a.numer_int() * b.denom_int() - b.numer_int() * a.denom_int()
    }

    /// The cross-multiplied denominator of `a + b` and `a - b`.
    pub open spec fn sum_d(a: Self, b: Self) -> int {
        a.denom_int() * b.denom_int()
    }

    /// Builds the amount `numer / denom`, reduced to lowest terms, or `None`
    /// when the denominator is zero or the reduced pair does not fit `i64`.
    pub fn try_new(numer: i64, denom: i64) -> (r: Option<Self>)
        ensures
            r is Some <==> constructible(numer as int, denom as int),
            r matches Some(m) ==> {
                &&& m.wf()
                &&& m.numer_int() == spec_reduce_n(numer as int, denom as int)
                &&& m.denom_int() == spec_reduce_d(numer as int, denom as int)
                &&& m.numer_int() * (denom as int) == (numer as int) * m.denom_int()
            },
    {
        if denom == 0 {
            return None;
        }
        proof {
            lemma_reduce_props(numer as int, denom as int);
        }
        match reduce64(numer, denom) {
            Some(p) => Some(DenseMoney { n: p.0, d: p.1, tag: PhantomData }),
            None => None,
        }
    }

    /// Builds the amount `numer / denom` in lowest terms. The caller shows
    /// that the denominator is non-zero and the reduced pair is representable
    /// (everything but the `i64::MIN` corner cases is).
    pub fn new(numer: i64, denom: i64) -> (r: Self)
        requires
            constructible(numer as int, denom as int),
        ensures
            r.wf(),
            r.numer_int() == spec_reduce_n(numer as int, denom as int),
            r.denom_int() == spec_reduce_d(numer as int, denom as int),
            r.numer_int() * (denom as int) == (numer as int) * r.denom_int(),
    {
        let r = Self::try_new(numer, denom);
        r.unwrap()
    }

    /// The numerator of the reduced fraction.
    pub fn numer(&self) -> (r: i64)
        ensures
            r as int == self.numer_int(),
    {
        self.n
    }

    /// The denominator of the reduced fraction; positive for well-formed
    /// amounts.
    pub fn denom(&self) -> (r: i64)
        ensures
            r as int == self.denom_int(),
    {
        self.d
    }

    /// Exact addition. Returns the sum in lowest terms, or `None` when the
    /// cross-multiplied denominator or the resulting numerator falls outside
    /// the 64-bit range; no silent wraparound.
    pub fn checked_add(self, rhs: Self) -> (r: Option<Self>)
        requires
            self.wf(),
            rhs.wf(),
        ensures
            r is Some <==> (i64::MIN <= Self::sum_n(self, rhs) <= i64::MAX && Self::sum_d(
                self,
                rhs,
            ) <= i64::MAX),
            r matches Some(m) ==> {
                &&& m.wf()
                &&& m.numer_int() == spec_reduce_n(Self::sum_n(self, rhs), Self::sum_d(self, rhs))
                &&& m.denom_int() == spec_reduce_d(Self::sum_n(self, rhs), Self::sum_d(self, rhs))
                &&& m.numer_int() * Self::sum_d(self, rhs) == Self::sum_n(self, rhs)
                    * m.denom_int()
            },
    {
        let n1 = self.n as i128;
        let d1 = self.d as i128;
        let n2 = rhs.n as i128;
        let d2 = rhs.d as i128;
        assert(-0x3fffffffffffffff8000000000000000 <= n1 * d2
            <= 0x3fffffffffffffff8000000000000000) by (nonlinear_arith)
            requires
                -0x8000000000000000 <= n1 <= 0x7fffffffffffffff,
                1 <= d2 <= 0x7fffffffffffffff,
        ;
        assert(-0x3fffffffffffffff8000000000000000 <= n2 * d1
            <= 0x3fffffffffffffff8000000000000000) by (nonlinear_arith)
            requires
                -0x8000000000000000 <= n2 <= 0x7fffffffffffffff,
                1 <= d1 <= 0x7fffffffffffffff,
        ;
        assert(1 <= d1 * d2 <= 0x3fffffffffffffff8000000000000000) by (nonlinear_arith)
            requires
                1 <= d1 <= 0x7fffffffffffffff,
                1 <= d2 <= 0x7fffffffffffffff,
        ;
        let sn = n1 * d2 + n2 * d1;
        let sd = d1 * d2;
        if sn < i64::MIN as i128 || sn > i64::MAX as i128 || sd > i64::MAX as i128 {
            return None;
        }
        proof {
            lemma_reduce_props(sn as int, sd as int);
            if sn >= 0 {
                assert(iabs(sn as int) == sn as int);
            } else {
                assert(iabs(sn as int) == -(sn as int));
            }
            assert(iabs(spec_reduce_n(sn as int, sd as int)) <= iabs(sn as int));
            assert(constructible(sn as int, sd as int));
        }
        let m = Self::new(sn as i64, sd as i64);
        Some(m)
    }

    /// Exact subtraction, symmetric to addition.
    pub fn checked_sub(self, rhs: Self) -> (r: Option<Self>)
        requires
            self.wf(),
            rhs.wf(),
        ensures
            r is Some <==> (i64::MIN <= Self::diff_n(self, rhs) <= i64::MAX && Self::sum_d(
                self,
                rhs,
            ) <= i64::MAX),
            r matches Some(m) ==> {
                &&& m.wf()
                &&& m.numer_int() == spec_reduce_n(Self::diff_n(self, rhs), Self::sum_d(self, rhs))
                &&& m.denom_int() == spec_reduce_d(Self::diff_n(self, rhs), Self::sum_d(self, rhs))
                &&& m.numer_int() * Self::sum_d(self, rhs) == Self::diff_n(self, rhs)
                    * m.denom_int()
            },
    {
        let n1 = self.n as i128;
        let d1 = self.d as i128;
        let n2 = rhs.n as i128;
        let d2 = rhs.d as i128;
        assert(-0x3fffffffffffffff8000000000000000 <= n1 * d2
            <= 0x3fffffffffffffff8000000000000000) by (nonlinear_arith)
            requires
                -0x8000000000000000 <= n1 <= 0x7fffffffffffffff,
                1 <= d2 <= 0x7fffffffffffffff,
        ;
        assert(-0x3fffffffffffffff8000000000000000 <= n2 * d1
            <= 0x3fffffffffffffff8000000000000000) by (nonlinear_arith)
            requires
                -0x8000000000000000 <= n2 <= 0x7fffffffffffffff,
                1 <= d1 <= 0x7fffffffffffffff,
        ;
        assert(1 <= d1 * d2 <= 0x3fffffffffffffff8000000000000000) by (nonlinear_arith)
            requires
                1 <= d1 <= 0x7fffffffffffffff,
                1 <= d2 <= 0x7fffffffffffffff,
        ;
        let sn = n1 * d2 - n2 * d1;
        let sd = d1 * d2;
        if sn < i64::MIN as i128 || sn > i64::MAX as i128 || sd > i64::MAX as i128 {
            return None;
        }
        proof {
            lemma_reduce_props(sn as int, sd as int);
            if sn >= 0 {
                assert(iabs(sn as int) == sn as int);
            } else {
                assert(iabs(sn as int) == -(sn as int));
            }
            assert(iabs(spec_reduce_n(sn as int, sd as int)) <= iabs(sn as int));
            assert(constructible(sn as int, sd as int));
        }
        let m = Self::new(sn as i64, sd as i64);
        Some(m)
    }

    /// The count of minor units that `round` produces.
    pub open spec fn spec_round_units(&self) -> int {
        spec_round_half_away(self.numer_int() * C::spec_scale(), self.denom_int())
    }

    /// The numerator of the rounding remainder, before reduction.
    pub open spec fn spec_rem_raw_n(&self) -> int {
        self.numer_int() * C::spec_scale() - self.spec_round_units() * self.denom_int()
    }

    /// The denominator of the rounding remainder, before reduction.
    pub open spec fn spec_rem_raw_d(&self) -> int {
        self.denom_int() * C::spec_scale()
    }

    /// The inputs `round` accepts: the scaled denominator stays within `i64`
    /// (a machine limit: the remainder is held over the unreduced denominator
    /// `denom * scale`, which must be representable before reduction), and
    /// the rounded count of minor units fits a `u32`.
    pub open spec fn roundable(&self) -> bool {
        &&& self.denom_int() * C::spec_scale() <= i64::MAX
        &&& 0 <= self.spec_round_units() <= u32::MAX
    }

    /// Rounds to the nearest whole count of minor units, ties away from zero,
    /// and returns the discrete amount together with the exact remainder.
    /// The discrete part plus the remainder reconstructs the amount exactly,
    /// and the remainder is zero exactly when the amount was already a whole
    /// multiple of one minor unit.
    pub fn round(&self) -> (r: (DiscreteMoney<C>, DenseMoney<C>))
        requires
            self.wf(),
            self.roundable(),
        ensures
            r.0.units_int() == self.spec_round_units(),
            r.1.wf(),
            r.1.numer_int() == spec_reduce_n(self.spec_rem_raw_n(), self.spec_rem_raw_d()),
            r.1.denom_int() == spec_reduce_d(self.spec_rem_raw_n(), self.spec_rem_raw_d()),
            frac_add_eq(
                r.0.units_int(),
                C::spec_scale(),
                r.1.numer_int(),
                r.1.denom_int(),
                self.numer_int(),
                self.denom_int(),
            ),
            r.1.numer_int() == 0 <==> (self.numer_int() * C::spec_scale()) % self.denom_int()
                == 0,
    {
        proof {
            C::scale_bounds();
        }
        let s_exec: u32 = C::scale();
        let s = s_exec as i128;
        let n = self.n as i128;
        let d = self.d as i128;
        assert(-0x40000000000000000000000000000000 <= n * s
            <= 0x40000000000000000000000000000000) by (nonlinear_arith)
            requires
                -0x8000000000000000 <= n <= 0x7fffffffffffffff,
                1 <= s <= 0xffffffff,
        ;
        let a = n * s;
        let ghost q_spec = self.spec_round_units();
        let qq: u128 = if a >= 0 {
            let au = a as u128;
            let du = d as u128;
            (2 * au + du) / (2 * du)
        } else {
            let au = (-a) as u128;
            let du = d as u128;
            (2 * au + du) / (2 * du)
        };
        proof {
            if a < 0 {
                assert(q_spec == -(qq as int));
                assert(qq == 0);
            }
        }
        let q_u32: u32 = if a >= 0 {
            qq as u32
        } else {
            0
        };
        assert(q_u32 as int == q_spec);
        let q = q_u32 as i128;
        proof {
            lemma_round_half_away_props(a as int, d as int);
            assert(-0x4000000000000000 <= a - q * d <= 0x4000000000000000) by (nonlinear_arith)
                requires
                    -d <= 2 * (a - q * d) <= d,
                    1 <= d <= 0x7fffffffffffffff,
            ;
        }
        let rem_raw_n = a - q * d;
        assert(1 <= d * s) by (nonlinear_arith)
            requires
                1 <= d,
                1 <= s,
        ;
        assert(d * s == self.spec_rem_raw_d());
        let rem_raw_d = d * s;
        proof {
            lemma_reduce_props(rem_raw_n as int, rem_raw_d as int);
        }
        let rem = DenseMoney::new(rem_raw_n as i64, rem_raw_d as i64);
        proof {
            // the decomposition: q / s + rem == self, by cross-multiplication
            lemma_decomposition_algebra(
                q_spec,
                C::spec_scale(),
                self.denom_int(),
                self.numer_int(),
                rem.numer_int(),
                rem.denom_int(),
            );
            // the remainder is zero exactly when the scaled amount is whole
            assert(rem.numer_int() == 0 <==> self.spec_rem_raw_n() == 0) by (nonlinear_arith)
                requires
                    rem.numer_int() * self.spec_rem_raw_d() == self.spec_rem_raw_n()
                        * rem.denom_int(),
                    rem.denom_int() >= 1,
                    self.spec_rem_raw_d() >= 1,
            ;
            lemma_round_exact_iff(self.numer_int() * C::spec_scale(), self.denom_int());
        }
        (DiscreteMoney::new(q_u32), rem)
    }

    /// The strict rounding variant: returns the discrete amount when the
    /// rounding remainder is exactly zero, and otherwise fails, carrying the
    /// non-zero leftover amount.
    pub fn round_exact(&self) -> (r: Result<DiscreteMoney<C>, DenseMoney<C>>)
        requires
            self.wf(),
            self.roundable(),
        ensures
            r is Ok <==> (self.numer_int() * C::spec_scale()) % self.denom_int() == 0,
            r matches Ok(dm) ==> dm.units_int() == self.spec_round_units()
                && dm.units_int() * self.denom_int() == self.numer_int() * C::spec_scale(),
            r matches Err(rem) ==> {
                &&& rem.wf()
                &&& rem.numer_int() != 0
                &&& rem.numer_int() == spec_reduce_n(self.spec_rem_raw_n(), self.spec_rem_raw_d())
                &&& rem.denom_int() == spec_reduce_d(self.spec_rem_raw_n(), self.spec_rem_raw_d())
            },
    {
        let (rounded, remainder) = self.round();
        if remainder.numer() == 0 {
            proof {
                // a zero remainder means the scaled amount is a whole number
                // of minor units, so the rounded count recovers it exactly
                lemma_round_exact_iff(self.numer_int() * C::spec_scale(), self.denom_int());
            }
            Ok(rounded)
        } else {
            Err(remainder)
        }
    }
}

/// The algebra behind the decomposition: if `rn / rrd` is the reduced form of
/// `rrn / rrd` with `rrn = n*s - q*d` and `rrd = d*s`, then
/// `q / s + rn / rd == n / d` by cross-multiplication.
proof fn lemma_decomposition_algebra(q: int, s: int, d: int, n: int, rn: int, rd: int)
    requires
        rn * (d * s) == (n * s - q * d) * rd,
    ensures
        (q * rd + rn * s) * d == n * (s * rd),
{
    assert((q * rd + rn * s) * d == q * (d * rd) + rn * (d * s)) by (nonlinear_arith);
    assert((n * s - q * d) * rd == n * (s * rd) - q * (d * rd)) by (nonlinear_arith);
}

/// The rounding decomposition law: for every amount `n / d` (denominator
/// positive) and every positive scale `s`, the rounded minor-unit count `q`
/// plus the exact remainder reconstructs the amount: `q / s + rem == n / d`.
pub proof fn lemma_round_decomposition(n: int, d: int, s: int)
    requires
        d > 0,
        s > 0,
    ensures
        ({
            let q = spec_round_half_away(n * s, d);
            let rn = spec_reduce_n(n * s - q * d, d * s);
            let rd = spec_reduce_d(n * s - q * d, d * s);
            frac_add_eq(q, s, rn, rd, n, d)
        }),
{
    let q = spec_round_half_away(n * s, d);
    let rrn = n * s - q * d;
    let rrd = d * s;
    assert(rrd >= 1) by (nonlinear_arith)
        requires
            d > 0,
            s > 0,
            rrd == d * s,
    ;
    lemma_reduce_props(rrn, rrd);
    let rn = spec_reduce_n(rrn, rrd);
    let rd = spec_reduce_d(rrn, rrd);
    lemma_decomposition_algebra(q, s, d, n, rn, rd);
}

impl<C: Currency> PartialEq for DenseMoney<C> {
    /// Equality of reduced fractions is plain field equality; because every
    /// amount is kept in lowest terms, it coincides with value equality.
    fn eq(&self, other: &Self) -> (r: bool) {
        self.n == other.n && self.d == other.d
    }
}

impl<C: Currency> vstd::std_specs::cmp::PartialEqSpecImpl for DenseMoney<C> {
    open spec fn obeys_eq_spec() -> bool {
        true
    }

    open spec fn eq_spec(&self, other: &Self) -> bool {
        self.numer_int() == other.numer_int() && self.denom_int() == other.denom_int()
    }
}

impl<C: Currency> Eq for DenseMoney<C> {}

impl<C: Currency> PartialOrd for DenseMoney<C> {
    /// Total order by rational value, decided by cross-multiplication in
    /// 128-bit arithmetic (never by floating point).
    fn partial_cmp(&self, other: &Self) -> (r: Option<Ordering>) {
        assert(-0x40000000000000000000000000000000 <= (self.n as i128) * (other.d as i128)
            <= 0x40000000000000000000000000000000) by (nonlinear_arith)
            requires
                -0x8000000000000000 <= self.n as i128 <= 0x7fffffffffffffff,
                -0x8000000000000000 <= other.d as i128 <= 0x7fffffffffffffff,
        ;
        assert(-0x40000000000000000000000000000000 <= (other.n as i128) * (self.d as i128)
            <= 0x40000000000000000000000000000000) by (nonlinear_arith)
            requires
                -0x8000000000000000 <= other.n as i128 <= 0x7fffffffffffffff,
                -0x8000000000000000 <= self.d as i128 <= 0x7fffffffffffffff,
        ;
        let lhs = (self.n as i128) * (other.d as i128);
        let rhs = (other.n as i128) * (self.d as i128);
        if lhs < rhs {
            Some(Ordering::Less)
        } else if lhs == rhs {
            Some(Ordering::Equal)
        } else {
            Some(Ordering::Greater)
        }
    }
}

impl<C: Currency> vstd::std_specs::cmp::PartialOrdSpecImpl for DenseMoney<C> {
    open spec fn obeys_partial_cmp_spec() -> bool {
        true
    }

    open spec fn partial_cmp_spec(&self, other: &Self) -> Option<Ordering> {
        if self.numer_int() * other.denom_int() < other.numer_int() * self.denom_int() {
            Some(Ordering::Less)
        } else if self.numer_int() * other.denom_int() == other.numer_int() * self.denom_int() {
            Some(Ordering::Equal)
        } else {
            Some(Ordering::Greater)
        }
    }
}

} // verus!
