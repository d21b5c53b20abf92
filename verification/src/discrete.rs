//! The discrete monetary amount: a non-negative count of a currency's minor
//! units, its exact embedding into the dense representation, and one-way
//! bridges into two external fixed-point decimal types for currencies whose
//! minor-unit scale is a power of ten.

use vstd::prelude::*;
use core::marker::PhantomData;
use crate::codec::MoneyError;
use crate::currency::Currency;
use crate::dense::DenseMoney;
use crate::rational::{spec_reduce_n, spec_reduce_d, lemma_reduce_props};

verus! {

/// An amount of currency `C`, counted in whole minor units (e.g. cents).
#[derive(Copy, Debug)]
pub struct DiscreteMoney<C: Currency> {
    units: u32,
    tag: PhantomData<C>,
}

impl<C: Currency> Clone for DiscreteMoney<C> {
    fn clone(&self) -> (r: Self)
        ensures
            r == *self,
    {
        *self
    }
}

/// The `e`-th power of ten.
pub open spec fn pow10(e: nat) -> nat
    decreases e,
{
    if e == 0 {
        1
    } else {
        10 * pow10((e - 1) as nat)
    }
}

/// `v` is an exact power of ten.
pub open spec fn is_pow10(v: int) -> bool {
    exists|e: nat| pow10(e) == v
}

/// Powers of ten are positive and increase with the exponent.
pub proof fn lemma_pow10_increases(e1: nat, e2: nat)
    requires
        e1 <= e2,
    ensures
        1 <= pow10(e1) <= pow10(e2),
    decreases e2,
{
    if e2 == 0 {
    } else if e1 == e2 {
        lemma_pow10_increases((e2 - 1) as nat, (e2 - 1) as nat);
    } else {
        lemma_pow10_increases(e1, (e2 - 1) as nat);
    }
}

/// A number with a factor other than two and five times a power of ten is not
/// itself a power of ten.
pub proof fn lemma_not_pow10(v: nat, e: nat)
    requires
        v > 1,
        v % 10 != 0,
    ensures
        !is_pow10((v * pow10(e)) as int),
    decreases e,
{
    if is_pow10((v * pow10(e)) as int) {
        let k = choose|k: nat| pow10(k) == (v * pow10(e)) as int;
        if e == 0 {
            assert(v * pow10(0) == v) by (nonlinear_arith)
                requires
                    pow10(0) == 1,
            ;
            assert(pow10(k) == v);
            if k == 0 {
                assert(v == 1);
            } else {
                assert(pow10(k) == 10 * pow10((k - 1) as nat));
                assert(v % 10 == 0) by (nonlinear_arith)
                    requires
                        v == 10 * pow10((k - 1) as nat),
                ;
            }
            assert(false);
        } else {
            assert(pow10(e) == 10 * pow10((e - 1) as nat));
            lemma_pow10_increases(0, (e - 1) as nat);
            assert(v * pow10(e) >= 10) by (nonlinear_arith)
                requires
                    v >= 1,
                    pow10((e - 1) as nat) >= 1,
                    pow10(e) == 10 * pow10((e - 1) as nat),
            ;
            if k == 0 {
                assert(pow10(k) == 1);
                assert(false);
            } else {
                assert(pow10(k) == 10 * pow10((k - 1) as nat));
                assert(pow10((k - 1) as nat) == v * pow10((e - 1) as nat)) by (nonlinear_arith)
                    requires
                        10 * pow10((k - 1) as nat) == v * (10 * pow10((e - 1) as nat)),
                ;
                lemma_not_pow10(v, (e - 1) as nat);
                assert(false);
            }
        }
    }
}

/// The exact decimal exponent of a scale: `Some(e)` iff `scale == 10^e`.
/// Exact integer counting of factors of ten, never a floating-point
/// logarithm, so there is no rounding hazard near scale boundaries.
pub fn pow10_exponent(scale: u32) -> (r: Option<u32>)
    ensures
        r is Some <==> is_pow10(scale as int),
        r matches Some(e) ==> pow10(e as nat) == scale as nat && e <= 9,
{
    if scale == 0 {
        proof {
            if is_pow10(0) {
                let k = choose|k: nat| pow10(k) == 0;
                lemma_pow10_increases(0, k);
            }
        }
        return None;
    }
    let mut v: u32 = scale;
    let mut e: u32 = 0;
    proof {
        assert(pow10(0) == 1);
    }
    while v % 10 == 0
        invariant
            1 <= v <= scale,
            scale as nat == v as nat * pow10(e as nat),
            pow10(e as nat) <= scale as nat,
            e <= 9,
        decreases v,
    {
        assert(v >= 10);
        let v2 = v / 10;
        assert(v2 as nat * pow10((e + 1) as nat) == scale as nat) by (nonlinear_arith)
            requires
                v % 10 == 0,
                v2 == v / 10,
                v >= 10,
                scale as nat == v as nat * pow10(e as nat),
                pow10((e + 1) as nat) == 10 * pow10(e as nat),
        ;
        assert(pow10((e + 1) as nat) <= scale as nat) by (nonlinear_arith)
            requires
                v2 >= 1,
                v2 as nat * pow10((e + 1) as nat) == scale as nat,
        ;
        assert(e + 1 <= 9) by {
            if e + 1 > 9 {
                lemma_pow10_increases(10, (e + 1) as nat);
                reveal_with_fuel(pow10, 11);
                assert(pow10(10) == 10000000000);
            }
        }
        v = v2;
        e = e + 1;
    }
    if v == 1 {
        Some(e)
    } else {
        proof {
            lemma_not_pow10(v as nat, e as nat);
        }
        None
    }
}

#[verifier::external_type_specification]
#[verifier::external_body]
pub struct ExDecimal(rust_decimal::Decimal);

#[verifier::external_type_specification]
#[verifier::external_body]
pub struct ExBigDecimal(bigdecimal::BigDecimal);

/// The decimal value that `rust_decimal::Decimal::new` builds from a mantissa
/// and a decimal exponent; it depends on those two arguments alone.
pub uninterp spec fn decimal_of(mantissa: u32, exponent: u32) -> rust_decimal::Decimal;

/// The decimal value that `bigdecimal::BigDecimal::new` builds from a mantissa
/// and a decimal exponent; it depends on those two arguments alone.
pub uninterp spec fn bigdecimal_of(mantissa: u32, exponent: u32) -> bigdecimal::BigDecimal;

/// Relies on `rust_decimal::Decimal::new`: builds the fixed-point value
/// `mantissa / 10^exponent`. It panics only when the exponent exceeds the
/// type's maximum scale of 28, which the precondition rules out.
#[verifier::external_body]
fn decimal_from_parts(mantissa: u32, exponent: u32) -> (r: rust_decimal::Decimal)
    requires
        exponent <= 28,
    ensures
        r == decimal_of(mantissa, exponent),
{
    rust_decimal::Decimal::new(mantissa as i64, exponent)
}

/// Relies on `bigdecimal::BigDecimal::new`: builds the fixed-point value
/// `mantissa / 10^exponent`. It never panics.
#[verifier::external_body]
fn bigdecimal_from_parts(mantissa: u32, exponent: u32) -> (r: bigdecimal::BigDecimal)
    ensures
        r == bigdecimal_of(mantissa, exponent),
{
    bigdecimal::BigDecimal::new(bigdecimal::num_bigint::BigInt::from(mantissa), exponent as i64)
}

impl<C: Currency> DiscreteMoney<C> {
    /// The count of minor units, as a mathematical integer.
    pub closed spec fn units_int(&self) -> int {
        self.units as int
    }

    /// Builds a discrete amount; every `u32` count is valid.
    pub fn new(amount: u32) -> (r: DiscreteMoney<C>)
        ensures
            r.units_int() == amount as int,
    {
        DiscreteMoney { units: amount, tag: PhantomData }
    }

    /// The count of minor units.
    pub fn minor_units(&self) -> (r: u32)
        ensures
            r as int == self.units_int(),
    {
        self.units
    }

    /// The exact, lossless embedding into the dense representation:
    /// `units / minor_unit_scale` in lowest terms. Never fails, for any
    /// currency.
    pub fn to_dense(self) -> (r: DenseMoney<C>)
        ensures
            r.wf(),
            r.numer_int() == spec_reduce_n(self.units_int(), C::spec_scale()),
            r.denom_int() == spec_reduce_d(self.units_int(), C::spec_scale()),
            r.numer_int() * C::spec_scale() == self.units_int() * r.denom_int(),
    {
        proof {
            C::scale_bounds();
            lemma_reduce_props(self.units_int(), C::spec_scale());
        }
        let scale = C::scale();
        DenseMoney::new(self.units as i64, scale as i64)
    }

    /// Converts into the first external fixed-point decimal type: the unit
    /// count is the mantissa and the scale's exact decimal exponent is the
    /// fixed-point exponent. Fails loudly for a currency whose scale is not
    /// a power of ten.
    pub fn to_fixed_point_decimal_a(self) -> (r: Result<rust_decimal::Decimal, MoneyError>)
        ensures
            r is Ok <==> is_pow10(C::spec_scale()),
            r matches Ok(d) ==> exists|e: u32|
                #[trigger] pow10(e as nat) == C::spec_scale() && d == decimal_of(
                    self.units_int() as u32,
                    e,
                ),
            r matches Err(e) ==> e == MoneyError::UnsupportedScale,
    {
        let scale = C::scale();
        match pow10_exponent(scale) {
            Some(e) => {
                let d = decimal_from_parts(self.units, e);
                proof {
                    assert(pow10(e as nat) == C::spec_scale());
                }
                Ok(d)
            },
            None => Err(MoneyError::UnsupportedScale),
        }
    }

    /// Converts into the second external fixed-point decimal type, with the
    /// same mantissa, exponent and power-of-ten condition as the first
    /// bridge.
    pub fn to_fixed_point_decimal_b(self) -> (r: Result<bigdecimal::BigDecimal, MoneyError>)
        ensures
            r is Ok <==> is_pow10(C::spec_scale()),
            r matches Ok(d) ==> exists|e: u32|
                #[trigger] pow10(e as nat) == C::spec_scale() && d == bigdecimal_of(
                    self.units_int() as u32,
                    e,
                ),
            r matches Err(e) ==> e == MoneyError::UnsupportedScale,
    {
        let scale = C::scale();
        match pow10_exponent(scale) {
            Some(e) => {
                let d = bigdecimal_from_parts(self.units, e);
                proof {
                    assert(pow10(e as nat) == C::spec_scale());
                }
                Ok(d)
            },
            None => Err(MoneyError::UnsupportedScale),
        }
    }
}

impl<C: Currency> PartialEq for DiscreteMoney<C> {
    fn eq(&self, other: &Self) -> (r: bool) {
        self.units == other.units
    }
}

impl<C: Currency> vstd::std_specs::cmp::PartialEqSpecImpl for DiscreteMoney<C> {
    open spec fn obeys_eq_spec() -> bool {
        true
    }

    open spec fn eq_spec(&self, other: &Self) -> bool {
        self.units_int() == other.units_int()
    }
}

impl<C: Currency> Eq for DiscreteMoney<C> {}

} // verus!
