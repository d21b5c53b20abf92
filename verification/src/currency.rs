//! Currency tags: zero-sized marker types, each carrying a display symbol and
//! a fixed positive minor-unit scale. Amounts of different tags are distinct
//! types, so they can never be compared or combined.

use vstd::prelude::*;
use crate::dense::DenseMoney;
use crate::rational::{constructible, spec_reduce_n, spec_reduce_d};

verus! {

/// A compile-time currency tag. The symbol and the minor-unit scale are fixed
/// per tag; the scale is always at least one and fits a `u32`.
pub trait Currency: Sized + Copy {
    /// The display symbol, e.g. `"USD"`.
    spec fn spec_symbol() -> Seq<char>;

    /// How many minor units make one major unit, e.g. 100.
    spec fn spec_scale() -> int;

    /// Every currency's scale is positive and fits a `u32`.
    proof fn scale_bounds()
        ensures
            1 <= Self::spec_scale() <= u32::MAX,
    ;

    fn symbol() -> (s: &'static str)
        ensures
            s@ == Self::spec_symbol(),
    ;

    fn scale() -> (s: u32)
        ensures
            s as int == Self::spec_scale(),
            s >= 1,
    ;
}

/// Pound sterling.
#[derive(Copy, Clone, Debug, PartialEq, Eq)]
pub struct Gbp;

impl Currency for Gbp {
    open spec fn spec_symbol() -> Seq<char> {
        "GBP"@
    }

    open spec fn spec_scale() -> int {
        100
    }

    proof fn scale_bounds() {
    }

    fn symbol() -> (s: &'static str) {
        "GBP"
    }

    fn scale() -> (s: u32) {
        100
    }
}

impl Gbp {
    /// Builds an exact amount of this currency from a rational value.
    pub fn new(numer: i64, denom: i64) -> (r: DenseMoney<Gbp>)
        requires
            constructible(numer as int, denom as int),
        ensures
            r.wf(),
            r.numer_int() == spec_reduce_n(numer as int, denom as int),
            r.denom_int() == spec_reduce_d(numer as int, denom as int),
    {
        DenseMoney::new(numer, denom)
    }
}

/// Malagasy ariary: five iraimbilanja to one ariary.
#[derive(Copy, Clone, Debug, PartialEq, Eq)]
pub struct Mga;

impl Currency for Mga {
    open spec fn spec_symbol() -> Seq<char> {
        "MGA"@
    }

    open spec fn spec_scale() -> int {
        5
    }

    proof fn scale_bounds() {
    }

    fn symbol() -> (s: &'static str) {
        "MGA"
    }

    fn scale() -> (s: u32) {
        5
    }
}

impl Mga {
    /// Builds an exact amount of this currency from a rational value.
    pub fn new(numer: i64, denom: i64) -> (r: DenseMoney<Mga>)
        requires
            constructible(numer as int, denom as int),
        ensures
            r.wf(),
            r.numer_int() == spec_reduce_n(numer as int, denom as int),
            r.denom_int() == spec_reduce_d(numer as int, denom as int),
    {
        DenseMoney::new(numer, denom)
    }
}

/// Malaysian ringgit.
#[derive(Copy, Clone, Debug, PartialEq, Eq)]
pub struct Myr;

impl Currency for Myr {
    open spec fn spec_symbol() -> Seq<char> {
        "MYR"@
    }

    open spec fn spec_scale() -> int {
        100
    }

    proof fn scale_bounds() {
    }

    fn symbol() -> (s: &'static str) {
        "MYR"
    }

    fn scale() -> (s: u32) {
        100
    }
}

impl Myr {
    /// Builds an exact amount of this currency from a rational value.
    pub fn new(numer: i64, denom: i64) -> (r: DenseMoney<Myr>)
        requires
            constructible(numer as int, denom as int),
        ensures
            r.wf(),
            r.numer_int() == spec_reduce_n(numer as int, denom as int),
            r.denom_int() == spec_reduce_d(numer as int, denom as int),
    {
        DenseMoney::new(numer, denom)
    }
}

/// Singapore dollar.
#[derive(Copy, Clone, Debug, PartialEq, Eq)]
pub struct Sgd;

impl Currency for Sgd {
    open spec fn spec_symbol() -> Seq<char> {
        "SGD"@
    }

    open spec fn spec_scale() -> int {
        100
    }

    proof fn scale_bounds() {
    }

    fn symbol() -> (s: &'static str) {
        "SGD"
    }

    fn scale() -> (s: u32) {
        100
    }
}

impl Sgd {
    /// Builds an exact amount of this currency from a rational value.
    pub fn new(numer: i64, denom: i64) -> (r: DenseMoney<Sgd>)
        requires
            constructible(numer as int, denom as int),
        ensures
            r.wf(),
            r.numer_int() == spec_reduce_n(numer as int, denom as int),
            r.denom_int() == spec_reduce_d(numer as int, denom as int),
    {
        DenseMoney::new(numer, denom)
    }
}

/// United States dollar.
#[derive(Copy, Clone, Debug, PartialEq, Eq)]
pub struct Usd;

impl Currency for Usd {
    open spec fn spec_symbol() -> Seq<char> {
        "USD"@
    }

    open spec fn spec_scale() -> int {
        100
    }

    proof fn scale_bounds() {
    }

    fn symbol() -> (s: &'static str) {
        "USD"
    }

    fn scale() -> (s: u32) {
        100
    }
}

impl Usd {
    /// Builds an exact amount of this currency from a rational value.
    pub fn new(numer: i64, denom: i64) -> (r: DenseMoney<Usd>)
        requires
            constructible(numer as int, denom as int),
        ensures
            r.wf(),
            r.numer_int() == spec_reduce_n(numer as int, denom as int),
            r.denom_int() == spec_reduce_d(numer as int, denom as int),
    {
        DenseMoney::new(numer, denom)
    }
}

} // verus!
