//! Self-contained rational-number kernel: greatest common divisor,
//! normalization to lowest terms with a positive denominator, and the lemmas
//! that the money types build their contracts on.

use vstd::prelude::*;
use vstd::arithmetic::div_mod::{lemma_fundamental_div_mod, lemma_div_pos_is_pos};

verus! {

/// Absolute value of an integer, as a natural number.
pub open spec fn iabs(x: int) -> nat {
    if x < 0 {
        (-x) as nat
    } else {
        x as nat
    }
}

/// `k` divides `a`.
pub open spec fn divides(k: nat, a: nat) -> bool {
    exists|m: nat| a == #[trigger] (k * m)
}

/// Greatest common divisor by Euclid's recursion; `gcd(a, 0) == a`.
pub open spec fn gcd(a: nat, b: nat) -> nat
    decreases b,
{
    if b == 0 {
        a
    } else {
        gcd(b, a % b)
    }
}

/// Numerator of `n / d` in lowest terms, sign carried by the numerator.
pub open spec fn spec_reduce_n(n: int, d: int) -> int {
    let g = gcd(iabs(n), iabs(d)) as int;
    if (n < 0) == (d < 0) {
        iabs(n) as int / g
    } else {
        -(iabs(n) as int / g)
    }
}

/// Denominator of `n / d` in lowest terms; positive whenever `d != 0`.
pub open spec fn spec_reduce_d(n: int, d: int) -> int {
    let g = gcd(iabs(n), iabs(d)) as int;
    iabs(d) as int / g
}

/// The lowest-terms form of `n / d` fits the 64-bit signed representation.
pub open spec fn reducible64(n: int, d: int) -> bool {
    &&& i64::MIN <= spec_reduce_n(n, d) <= i64::MAX
    &&& spec_reduce_d(n, d) <= i64::MAX
}

/// A (numerator, denominator) pair accepted by the exact-amount constructor:
/// the denominator is non-zero and the lowest-terms form fits `i64`.
pub open spec fn constructible(n: int, d: int) -> bool {
    d != 0 && reducible64(n, d)
}

/// The gcd of two numbers divides both, and is positive unless both are zero.
pub proof fn lemma_gcd_divides(a: nat, b: nat)
    ensures
        divides(gcd(a, b), a),
        divides(gcd(a, b), b),
        a > 0 || b > 0 ==> gcd(a, b) >= 1,
    decreases b,
{
    if b == 0 {
        assert(a == a * 1);
        assert(0 == a * 0nat);
        assert(divides(a, a));
        assert(divides(a, 0));
    } else {
        lemma_gcd_divides(b, a % b);
        let g = gcd(b, a % b);
        let m1 = choose|m: nat| b == #[trigger] (g * m);
        let m2 = choose|m: nat| a % b == #[trigger] (g * m);
        lemma_fundamental_div_mod(a as int, b as int);
        let q = a as int / b as int;
        assert(q >= 0) by {
            lemma_div_pos_is_pos(a as int, b as int);
        }
        assert(a == g * (m1 * q + m2)) by (nonlinear_arith)
            requires
                a == b * q + a % b,
                b == g * m1,
                a % b == g * m2,
        ;
        let w = (m1 * q + m2) as int;
        assert(w >= 0) by (nonlinear_arith)
            requires
                m1 >= 0,
                q >= 0,
                m2 >= 0,
                w == m1 * q + m2,
        ;
        assert(a == g * (w as nat));
        assert(divides(g, a));
    }
}

/// Every common divisor of `a` and `b` divides their gcd.
pub proof fn lemma_gcd_greatest(a: nat, b: nat, c: nat)
    requires
        divides(c, a),
        divides(c, b),
    ensures
        divides(c, gcd(a, b)),
    decreases b,
{
    if b == 0 {
    } else {
        if c == 0 {
            let mb = choose|m: nat| b == #[trigger] (c * m);
            assert(b == 0 * mb);
            assert(false);
        }
        let ma = choose|m: nat| a == #[trigger] (c * m);
        let mb = choose|m: nat| b == #[trigger] (c * m);
        lemma_fundamental_div_mod(a as int, b as int);
        let q = a as int / b as int;
        assert(q >= 0) by {
            lemma_div_pos_is_pos(a as int, b as int);
        }
        let w = ma - mb * q;
        assert(a % b == c * w) by (nonlinear_arith)
            requires
                a == b * q + a % b,
                a == c * ma,
                b == c * mb,
                w == ma - mb * q,
        ;
        assert(w >= 0) by (nonlinear_arith)
            requires
                c * w == a % b,
                a % b >= 0,
                c >= 1,
                w == ma - mb * q,
        ;
        assert(a % b == c * (w as nat));
        assert(divides(c, a % b));
        lemma_gcd_greatest(b, a % b, c);
    }
}

/// A divisor of a positive number is no larger than it.
pub proof fn lemma_divides_le(c: nat, a: nat)
    requires
        divides(c, a),
        a > 0,
    ensures
        1 <= c <= a,
{
    let m = choose|mm: nat| a == #[trigger] (c * mm);
    assert(c >= 1 && m >= 1 && c <= c * m) by (nonlinear_arith)
        requires
            a == c * m,
            a > 0,
    ;
}

/// Exact division: if `g` divides `a`, then `a / g` recovers the cofactor.
pub proof fn lemma_div_exact(a: nat, g: nat)
    requires
        divides(g, a),
        g >= 1,
    ensures
        (a / g) * g == a,
{
    let m = choose|mm: nat| a == #[trigger] (g * mm);
    lemma_fundamental_div_mod(a as int, g as int);
    assert(a as int == g * (a as int / g as int) + a % g);
    assert(a % g == 0 && a / g == m) by (nonlinear_arith)
        requires
            a == g * m,
            g >= 1,
            a as int == g * ((a as int) / (g as int)) + ((a as int) % (g as int)),
            0 <= (a as int) % (g as int) < (g as int),
    ;
    assert((a / g) * g == a) by (nonlinear_arith)
        requires
            a / g == m,
            a == g * m,
    ;
}

/// Dividing both numbers by their gcd leaves them coprime.
pub proof fn lemma_gcd_div_coprime(a: nat, b: nat)
    requires
        b > 0,
    ensures
        gcd(a / gcd(a, b), b / gcd(a, b)) == 1,
{
    let g = gcd(a, b);
    lemma_gcd_divides(a, b);
    assert(g >= 1);
    lemma_div_exact(a, g);
    lemma_div_exact(b, g);
    let a1 = a / g;
    let b1 = b / g;
    assert(b1 >= 1) by (nonlinear_arith)
        requires
            b1 * g == b,
            b > 0,
            g >= 1,
    ;
    let h = gcd(a1, b1);
    lemma_gcd_divides(a1, b1);
    assert(h >= 1);
    let ma = choose|m: nat| a1 == #[trigger] (h * m);
    let mb = choose|m: nat| b1 == #[trigger] (h * m);
    assert(a == (g * h) * ma && b == (g * h) * mb) by (nonlinear_arith)
        requires
            a1 * g == a,
            b1 * g == b,
            a1 == h * ma,
            b1 == h * mb,
    ;
    assert(divides(g * h, a));
    assert(divides(g * h, b));
    lemma_gcd_greatest(a, b, g * h);
    lemma_divides_le(g * h, g);
    assert(h == 1) by (nonlinear_arith)
        requires
            g * h <= g,
            g >= 1,
            h >= 1,
    ;
}

/// What normalization guarantees: a positive denominator bounded by the old
/// one, a numerator no larger in magnitude and of the same sign, lowest
/// terms, and preservation of the rational value (by cross-multiplication).
pub proof fn lemma_reduce_props(n: int, d: int)
    requires
        d != 0,
    ensures
        1 <= spec_reduce_d(n, d) <= iabs(d),
        iabs(spec_reduce_n(n, d)) <= iabs(n),
        n > 0 ==> spec_reduce_n(n, d) != 0,
        n < 0 ==> spec_reduce_n(n, d) != 0,
        n == 0 ==> spec_reduce_n(n, d) == 0,
        n >= 0 && d > 0 ==> spec_reduce_n(n, d) >= 0,
        n <= 0 && d > 0 ==> spec_reduce_n(n, d) <= 0,
        gcd(iabs(spec_reduce_n(n, d)), spec_reduce_d(n, d) as nat) == 1,
        spec_reduce_n(n, d) * d == n * spec_reduce_d(n, d),
{
    let ua = iabs(n);
    let ub = iabs(d);
    let g = gcd(ua, ub);
    lemma_gcd_divides(ua, ub);
    assert(g >= 1);
    lemma_div_exact(ua, g);
    lemma_div_exact(ub, g);
    let an = ua / g;
    let ad = ub / g;
    assert(ad >= 1 && ad <= ub) by (nonlinear_arith)
        requires
            ad * g == ub,
            ub >= 1,
            g >= 1,
    ;
    assert(an <= ua) by (nonlinear_arith)
        requires
            an * g == ua,
            g >= 1,
            an >= 0,
    ;
    assert(n != 0 ==> an >= 1) by (nonlinear_arith)
        requires
            an * g == ua,
            n != 0 ==> ua >= 1,
    ;
    lemma_gcd_div_coprime(ua, ub);
    let rn = spec_reduce_n(n, d);
    let rd = spec_reduce_d(n, d);
    assert(rd == ad);
    assert(iabs(rn) == an);
    // value preservation, by cases on the signs
    if n >= 0 && d > 0 {
        assert(rn == an && ua == n && ub == d);
        assert(an as int * d == n * ad as int) by (nonlinear_arith)
            requires
                an * g == n,
                ad * g == d,
                g >= 1,
        ;
    } else if n < 0 && d < 0 {
        assert(rn == an && ua == -n && ub == -d);
        assert(an as int * d == n * ad as int) by (nonlinear_arith)
            requires
                an * g == -n,
                ad * g == -d,
                g >= 1,
        ;
    } else if n >= 0 && d < 0 {
        assert(rn == -(an as int) && ua == n && ub == -d);
        assert(-(an as int) * d == n * ad as int) by (nonlinear_arith)
            requires
                an * g == n,
                ad * g == -d,
                g >= 1,
        ;
    } else {
        assert(rn == -(an as int) && ua == -n && ub == d);
        assert(-(an as int) * d == n * ad as int) by (nonlinear_arith)
            requires
                an * g == -n,
                ad * g == d,
                g >= 1,
        ;
    }
}

/// A fraction that is already in lowest terms normalizes to itself.
pub proof fn lemma_reduce_of_reduced(n: int, d: int)
    requires
        d > 0,
        gcd(iabs(n), d as nat) == 1,
    ensures
        spec_reduce_n(n, d) == n,
        spec_reduce_d(n, d) == d,
{
    assert(iabs(d) == d as nat);
    assert(iabs(n) as int / 1 == iabs(n)) by (nonlinear_arith);
    assert(d / 1int == d) by (nonlinear_arith);
    if n < 0 {
        assert(spec_reduce_n(n, d) == -(iabs(n) as int));
        assert(-(iabs(n) as int) == n);
    }
}

/// Euclid's algorithm.
pub fn gcd_u64(a0: u64, b0: u64) -> (g: u64)
    ensures
        g as nat == gcd(a0 as nat, b0 as nat),
{
    let mut a = a0;
    let mut b = b0;
    while b != 0
        invariant
            gcd(a as nat, b as nat) == gcd(a0 as nat, b0 as nat),
        decreases b,
    {
        let t = a % b;
        a = b;
        b = t;
    }
    a
}

/// Normalizes `n / d` to lowest terms with a positive denominator, or reports
/// that the normalized pair does not fit `i64` (which can happen only when
/// one of the inputs is `i64::MIN`).
pub fn reduce64(n: i64, d: i64) -> (r: Option<(i64, i64)>)
    requires
        d != 0,
    ensures
        r is Some <==> reducible64(n as int, d as int),
        r matches Some(p) ==> p.0 == spec_reduce_n(n as int, d as int) && p.1 == spec_reduce_d(
            n as int,
            d as int,
        ),
{
    proof {
        lemma_reduce_props(n as int, d as int);
    }
    let neg: bool = (n < 0) != (d < 0);
    let un: u64 = if n < 0 {
        (-(n as i128)) as u64
    } else {
        n as u64
    };
    let ud: u64 = if d < 0 {
        (-(d as i128)) as u64
    } else {
        d as u64
    };
    assert(un as nat == iabs(n as int));
    assert(ud as nat == iabs(d as int));
    let g = gcd_u64(un, ud);
    proof {
        lemma_gcd_divides(un as nat, ud as nat);
        lemma_div_exact(un as nat, g as nat);
        lemma_div_exact(ud as nat, g as nat);
    }
    let rn = un / g;
    let rd = ud / g;
    assert(rn <= un && rd <= ud) by (nonlinear_arith)
        requires
            rn as nat * g as nat == un as nat,
            rd as nat * g as nat == ud as nat,
            g >= 1,
            rn >= 0,
            rd >= 0,
    ;
    if rd > (i64::MAX as u64) {
        assert(!reducible64(n as int, d as int));
        return None;
    }
    if neg {
        assert(spec_reduce_n(n as int, d as int) == -(rn as int));
        let out_n: i64 = (-(rn as i128)) as i64;
        Some((out_n, rd as i64))
    } else {
        assert(spec_reduce_n(n as int, d as int) == rn as int);
        if rn > (i64::MAX as u64) {
            assert(!reducible64(n as int, d as int));
            return None;
        }
        Some((rn as i64, rd as i64))
    }
}

} // verus!
