//! The running statistics against the formulas that define them.
//!
//! The indicators keep sums of elements, of squares and of products, and
//! divide only when they are read. This module ties what they read to the
//! sums of deviations from the mean by which the variance and the
//! covariance are defined.

use vstd::prelude::*;

verus! {

/// The sum of the products of the elements of `sx` and `sy` at the same
/// position.
pub open spec fn dot(sx: Seq<int>, sy: Seq<int>) -> int
    decreases sx.len(),
{
    if sx.len() == 0 || sy.len() != sx.len() {
        0
    } else {
        dot(sx.drop_last(), sy.drop_last()) + sx.last() * sy.last()
    }
}

/// The sum of the products of the deviations of the elements of `sx` from
/// `mx` and of those of `sy` from `my`.
pub open spec fn co_dev(sx: Seq<int>, sy: Seq<int>, mx: int, my: int) -> int
    decreases sx.len(),
{
    if sx.len() == 0 || sy.len() != sx.len() {
        0
    } else {
        co_dev(sx.drop_last(), sy.drop_last(), mx, my) + (sx.last() - mx) * (sy.last() - my)
    }
}

/// The sum of the squared deviations of the elements of `s` from `m`.
pub open spec fn sq_dev(s: Seq<int>, m: int) -> int {
    co_dev(s, s, m, m)
}

/// The sum of products of deviations, multiplied out.
pub proof fn lemma_co_dev_expand(sx: Seq<int>, sy: Seq<int>, mx: int, my: int)
    requires
        sx.len() == sy.len(),
    ensures
        co_dev(sx, sy, mx, my) == dot(sx, sy) - mx * crate::stats::total(sy) - my
            * crate::stats::total(sx) + sx.len() * mx * my,
    decreases sx.len(),
{
    if sx.len() > 0 {
        let px = sx.drop_last();
        let py = sy.drop_last();
        lemma_co_dev_expand(px, py, mx, my);
        let x = sx.last();
        let y = sy.last();
        let n = px.len() as int;
        let d = dot(px, py);
        let tx = crate::stats::total(px);
        let ty = crate::stats::total(py);
        let c = co_dev(px, py, mx, my);
        assert(c + (x - mx) * (y - my) == (d + x * y) - mx * (ty + y) - my * (tx + x) + (n + 1)
            * mx * my) by (nonlinear_arith)
            requires
                c == d - mx * ty - my * tx + n * mx * my,
        ;
        assert(co_dev(sx, sy, mx, my) == c + (x - mx) * (y - my));
        assert(dot(sx, sy) == d + x * y);
        assert(crate::stats::total(sx) == tx + x);
        assert(crate::stats::total(sy) == ty + y);
        assert(sx.len() == n + 1);
    } else {
        assert(sx.len() * mx * my == 0) by (nonlinear_arith)
            requires
                sx.len() == 0,
        ;
    }
}

/// Sliding two windows together moves the sum of their products by the
/// product of the pair that arrives, less that of the pair that leaves.
pub proof fn lemma_dot_slide(sx: Seq<int>, sy: Seq<int>, capacity: nat, x: int, y: int)
    requires
        capacity >= 1,
        sx.len() == sy.len(),
        sx.len() <= capacity,
    ensures
        dot(crate::window::slide(sx, capacity, x), crate::window::slide(sy, capacity, y))
            == if sx.len() < capacity {
            dot(sx, sy) + x * y
        } else {
            dot(sx, sy) + x * y - sx[0] * sy[0]
        },
{
    if sx.len() < capacity {
        assert(sx.push(x).drop_last() =~= sx);
        assert(sy.push(y).drop_last() =~= sy);
    } else {
        lemma_dot_skip_first(sx, sy);
        let rx = sx.subrange(1, sx.len() as int);
        let ry = sy.subrange(1, sy.len() as int);
        assert(rx.push(x).drop_last() =~= rx);
        assert(ry.push(y).drop_last() =~= ry);
    }
}

/// Removing the first pair takes its product from the sum of products.
pub proof fn lemma_dot_skip_first(sx: Seq<int>, sy: Seq<int>)
    requires
        sx.len() == sy.len(),
        sx.len() > 0,
    ensures
        dot(sx.subrange(1, sx.len() as int), sy.subrange(1, sy.len() as int)) == dot(sx, sy)
            - sx[0] * sy[0],
    decreases sx.len(),
{
    let rx = sx.subrange(1, sx.len() as int);
    let ry = sy.subrange(1, sy.len() as int);
    if sx.len() == 1 {
        assert(sx.drop_last() =~= Seq::<int>::empty());
        assert(sy.drop_last() =~= Seq::<int>::empty());
        assert(rx =~= Seq::<int>::empty());
        assert(dot(sx, sy) == dot(sx.drop_last(), sy.drop_last()) + sx.last() * sy.last());
    } else {
        lemma_dot_skip_first(sx.drop_last(), sy.drop_last());
        assert(rx.drop_last() =~= sx.drop_last().subrange(1, sx.len() - 1));
        assert(ry.drop_last() =~= sy.drop_last().subrange(1, sy.len() - 1));
        assert(rx.last() == sx.last());
        assert(ry.last() == sy.last());
        assert(dot(rx, ry) == dot(rx.drop_last(), ry.drop_last()) + rx.last() * ry.last());
        assert(dot(sx, sy) == dot(sx.drop_last(), sy.drop_last()) + sx.last() * sy.last());
    }
}

/// A sum of squared deviations is not negative.
pub proof fn lemma_sq_dev_not_negative(s: Seq<int>, m: int)
    ensures
        sq_dev(s, m) >= 0,
    decreases s.len(),
{
    if s.len() > 0 {
        lemma_sq_dev_not_negative(s.drop_last(), m);
        let d = s.last() - m;
        assert(d * d >= 0) by (nonlinear_arith);
    }
}

/// A quotient does not change when both numbers are multiplied by the same
/// positive number, and the quotient of a multiple by its factor is the
/// other factor.
pub proof fn lemma_quotient_scaled(a: int, d: int, n: int)
    requires
        d > 0,
        n > 0,
    ensures
        crate::number::quotient(n * a, n * d) == crate::number::quotient(a, d),
        crate::number::quotient(n * a, n) == a,
{
    assert(n * d > 0) by (nonlinear_arith)
        requires
            d > 0,
            n > 0,
    ;
    if a >= 0 {
        assert(n * a >= 0) by (nonlinear_arith)
            requires
                a >= 0,
                n > 0,
        ;
        vstd::arithmetic::div_mod::lemma_div_multiples_vanish_quotient(n, a, d);
        vstd::arithmetic::div_mod::lemma_div_multiples_vanish(a, n);
    } else {
        assert(n * a < 0) by (nonlinear_arith)
            requires
                a < 0,
                n > 0,
        ;
        assert(-(n * a) == n * (-a)) by (nonlinear_arith);
        vstd::arithmetic::div_mod::lemma_div_multiples_vanish_quotient(n, -a, d);
        vstd::arithmetic::div_mod::lemma_div_multiples_vanish(-a, n);
    }
}

/// The running variance against its definition. For any number `m`, the
/// number of elements times the sum of the squared deviations from `m` is
/// `spread(s)` plus the square of what `m` times the number of elements
/// misses the sum by. For the mean, which misses by nothing, `spread(s)` is
/// the number of elements times the sum of the squared deviations, and
/// `variance(s)` that sum divided by one less than the number of elements.
pub proof fn lemma_spread_is_squared_deviations(s: Seq<int>, m: int)
    ensures
        s.len() * sq_dev(s, m) == crate::stats::spread(s) + (s.len() * m - crate::stats::total(
            s,
        )) * (s.len() * m - crate::stats::total(s)),
{
    lemma_comoment_is_deviations(s, s, m, m);
}

/// The running covariance against its definition. For any numbers `mx` and
/// `my`, the number of pairs times the sum of the products of the
/// deviations from them is `comoment(sx, sy)` plus the product of what
/// they, times the number of pairs, miss the two sums by. For the two
/// means, which miss by nothing, `comoment(sx, sy)` is the number of pairs
/// times the sum of the products of the deviations.
pub proof fn lemma_comoment_is_deviations(sx: Seq<int>, sy: Seq<int>, mx: int, my: int)
    requires
        sx.len() == sy.len(),
    ensures
        sx.len() * co_dev(sx, sy, mx, my) == crate::stats::comoment(sx, sy) + (sx.len() * mx
            - crate::stats::total(sx)) * (sx.len() * my - crate::stats::total(sy)),
{
    lemma_co_dev_expand(sx, sy, mx, my);
    let n = sx.len() as int;
    let d = dot(sx, sy);
    let tx = crate::stats::total(sx);
    let ty = crate::stats::total(sy);
    let c = co_dev(sx, sy, mx, my);
    let a = mx * ty;
    let b = my * tx;
    let e = n * mx * my;
    assert(n * c == n * d - n * a - n * b + n * e) by (nonlinear_arith)
        requires
            c == d - a - b + e,
    ;
    let p = n * mx;
    let q = n * my;
    assert((p - tx) * (q - ty) == p * q - p * ty - tx * q + tx * ty) by (nonlinear_arith);
    assert(p * q == n * e) by (nonlinear_arith)
        requires
            p == n * mx,
            q == n * my,
            e == n * mx * my,
    ;
    assert(p * ty == n * a) by (nonlinear_arith)
        requires
            p == n * mx,
            a == mx * ty,
    ;
    assert(tx * q == n * b) by (nonlinear_arith)
        requires
            q == n * my,
            b == my * tx,
    ;
}

/// `spread` is not negative: it is the number of elements times a sum of
/// squares, as seen from the mean.
pub proof fn lemma_spread_not_negative(s: Seq<int>)
    ensures
        crate::stats::spread(s) >= 0,
{
    let n = s.len() as int;
    let t = crate::stats::total(s);
    if n > 0 {
        // n * spread is the sum of the squares of n * x - t.
        lemma_spread_is_squared_deviations(s, 0);
        lemma_scaled_deviations(s, n, t);
        lemma_sq_dev_not_negative(s.map_values(|v: int| n * v), t);
        let scaled = sq_dev(s.map_values(|v: int| n * v), t);
        let sp = crate::stats::spread(s);
        assert(sp >= 0) by (nonlinear_arith)
            requires
                scaled == n * sp,
                scaled >= 0,
                n > 0,
        ;
    } else {
        assert(s.len() * dot(s, s) == 0) by (nonlinear_arith)
            requires
                s.len() == 0,
        ;
    }
}

/// The sum of the squares of `n x - t` over the elements `x` of `s`, where
/// `n` is their number and `t` their sum, is `n` times `spread(s)`.
pub proof fn lemma_scaled_deviations(s: Seq<int>, n: int, t: int)
    requires
        n == s.len(),
        t == crate::stats::total(s),
    ensures
        sq_dev(s.map_values(|v: int| n * v), t) == n * crate::stats::spread(s),
{
    let scaled = s.map_values(|v: int| n * v);
    lemma_co_dev_expand(scaled, scaled, t, t);
    lemma_total_scaled(s, n);
    lemma_dot_scaled(s, n);
    let d = dot(s, s);
    let c = sq_dev(scaled, t);
    let tt = t * t;
    assert(t * (n * t) == n * tt) by (nonlinear_arith)
        requires
            tt == t * t,
    ;
    assert(n * t * t == n * tt) by (nonlinear_arith)
        requires
            tt == t * t,
    ;
    assert(n * (n * d - tt) == n * n * d - n * tt) by (nonlinear_arith);
}

/// Multiplying every element by `n` multiplies the sum by `n`.
pub proof fn lemma_total_scaled(s: Seq<int>, n: int)
    ensures
        crate::stats::total(s.map_values(|v: int| n * v)) == n * crate::stats::total(s),
    decreases s.len(),
{
    let scaled = s.map_values(|v: int| n * v);
    if s.len() > 0 {
        lemma_total_scaled(s.drop_last(), n);
        assert(scaled.drop_last() =~= s.drop_last().map_values(|v: int| n * v));
        assert(n * (crate::stats::total(s.drop_last()) + s.last()) == n * crate::stats::total(
            s.drop_last(),
        ) + n * s.last()) by (nonlinear_arith);
    }
}

/// Multiplying every element by `n` multiplies the sum of squares by the
/// square of `n`.
pub proof fn lemma_dot_scaled(s: Seq<int>, n: int)
    ensures
        dot(s.map_values(|v: int| n * v), s.map_values(|v: int| n * v)) == n * n * dot(s, s),
    decreases s.len(),
{
    let scaled = s.map_values(|v: int| n * v);
    if s.len() > 0 {
        lemma_dot_scaled(s.drop_last(), n);
        assert(scaled.drop_last() =~= s.drop_last().map_values(|v: int| n * v));
        let x = s.last();
        let d = dot(s.drop_last(), s.drop_last());
        assert(n * n * d + (n * x) * (n * x) == n * n * (d + x * x)) by (nonlinear_arith);
    }
}

} // verus!
