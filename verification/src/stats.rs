//! The statistics of a window, as mathematics.

use crate::number::{Bounded, Exact};
use vstd::prelude::*;

verus! {

/// The integers that the elements of a window stand for.
pub open spec fn vals<E: Exact>(w: Seq<E>) -> Seq<int> {
    w.map_values(|e: E| e.val())
}

/// The integers that the first members of a window of pairs stand for.
pub open spec fn firsts<E: Exact>(w: Seq<(E, E)>) -> Seq<int> {
    w.map_values(|p: (E, E)| p.0.val())
}

/// The integers that the second members of a window of pairs stand for.
pub open spec fn seconds<E: Exact>(w: Seq<(E, E)>) -> Seq<int> {
    w.map_values(|p: (E, E)| p.1.val())
}

/// The sum of the elements of `s`.
pub open spec fn total(s: Seq<int>) -> int
    decreases s.len(),
{
    if s.len() == 0 {
        0
    } else {
        total(s.drop_last()) + s.last()
    }
}

/// The mean of the elements of `s`, rounded toward zero.
pub open spec fn mean(s: Seq<int>) -> int {
    crate::number::quotient(total(s), s.len() as int)
}

/// The number of elements of `s` times the sum of their squares, less the
/// square of their sum: the number of elements times the sum of the squared
/// deviations from the mean, without a division.
pub open spec fn spread(s: Seq<int>) -> int {
    s.len() * crate::textbook::dot(s, s) - total(s) * total(s)
}

/// The number of pairs times the sum of their products, less the product of
/// the two sums: the number of pairs times the sum of the products of the
/// deviations from the two means, without a division.
pub open spec fn comoment(sx: Seq<int>, sy: Seq<int>) -> int {
    sx.len() * crate::textbook::dot(sx, sy) - total(sx) * total(sy)
}

/// The unbiased variance of `s`: the sum of the squared deviations from
/// the mean, divided by one less than the number of elements, rounded
/// toward zero.
pub open spec fn variance(s: Seq<int>) -> int {
    crate::number::quotient(spread(s), s.len() * (s.len() - 1))
}

/// The unbiased covariance of `sx` and `sy`, rounded toward zero.
pub open spec fn covariance(sx: Seq<int>, sy: Seq<int>) -> int {
    crate::number::quotient(comoment(sx, sy), sx.len() * (sx.len() - 1))
}

/// The slope of the line of least squares through the points with the
/// abscissas `sx` and the ordinates `sy`, rounded toward zero.
pub open spec fn slope(sx: Seq<int>, sy: Seq<int>) -> int {
    crate::number::quotient(comoment(sx, sy), spread(sx))
}

/// The intercept of the line of least squares: the sum of the ordinates
/// less the slope times the sum of the abscissas, divided by the number of
/// points, rounded toward zero.
pub open spec fn intercept(sx: Seq<int>, sy: Seq<int>) -> int {
    crate::number::quotient(total(sy) - slope(sx, sy) * total(sx), sx.len() as int)
}

/// Whether every step from the sums that the running variance keeps over
/// the window `w` to those after `x` has arrived is in the range of `E`.
pub open spec fn variance_takes<E: Exact>(w: Seq<int>, capacity: nat, x: int) -> bool {
    let n = w.len() as int;
    let sx = total(w);
    let sxx = crate::textbook::dot(w, w);
    if w.len() < capacity {
        &&& E::fits(n + 1)
        &&& E::fits(sx + x)
        &&& E::fits(x * x)
        &&& E::fits(sxx + x * x)
    } else {
        let ox = w[0];
        &&& E::fits(sx + x)
        &&& E::fits(sx + x - ox)
        &&& E::fits(x - ox)
        &&& E::fits(x + ox)
        &&& E::fits((x - ox) * (x + ox))
        &&& E::fits(sxx + (x - ox) * (x + ox))
    }
}

/// Whether every step from the sums that the running covariance keeps over
/// the windows `wx` and `wy` to those after `(x, y)` has arrived is in the
/// range of `E`.
pub open spec fn covariance_takes<E: Exact>(
    wx: Seq<int>,
    wy: Seq<int>,
    capacity: nat,
    x: int,
    y: int,
) -> bool {
    let n = wx.len() as int;
    let sx = total(wx);
    let sy = total(wy);
    let sxy = crate::textbook::dot(wx, wy);
    if wx.len() < capacity {
        &&& E::fits(n + 1)
        &&& E::fits(sx + x)
        &&& E::fits(sy + y)
        &&& E::fits(x * y)
        &&& E::fits(sxy + x * y)
    } else {
        let ox = wx[0];
        let oy = wy[0];
        &&& E::fits(sx + x)
        &&& E::fits(sx + x - ox)
        &&& E::fits(sy + y)
        &&& E::fits(sy + y - oy)
        &&& E::fits(x * y)
        &&& E::fits(sxy + x * y)
        &&& E::fits(ox * oy)
        &&& E::fits(sxy + x * y - ox * oy)
    }
}

/// Whether every step from the sums over `s` to `spread(s)` is in the range
/// of `E`.
pub open spec fn spread_fits<E: Exact>(s: Seq<int>) -> bool {
    &&& E::fits(s.len() * crate::textbook::dot(s, s))
    &&& E::fits(total(s) * total(s))
    &&& E::fits(spread(s))
}

/// Whether every step from the sums over `sx` and `sy` to `comoment(sx,
/// sy)` is in the range of `E`.
pub open spec fn comoment_fits<E: Exact>(sx: Seq<int>, sy: Seq<int>) -> bool {
    &&& E::fits(sx.len() * crate::textbook::dot(sx, sy))
    &&& E::fits(total(sx) * total(sy))
    &&& E::fits(comoment(sx, sy))
}

/// Whether the number of elements times one less is in the range of `E`.
pub open spec fn pairs_fit<E: Exact>(n: int) -> bool {
    E::fits(n * (n - 1))
}

/// The positions of `s` whose element is less than `x`.
pub open spec fn places_below(s: Seq<int>, x: int) -> Set<int> {
    Set::new(|i: int| 0 <= i < s.len() && s[i] < x)
}

/// The positions of `s` whose element is at most `x`.
pub open spec fn places_up_to(s: Seq<int>, x: int) -> Set<int> {
    Set::new(|i: int| 0 <= i < s.len() && s[i] <= x)
}

/// Whether `x` is the element that stands at position `r` once `s` is put
/// in ascending order: at most `r` elements are less than `x`, and more
/// than `r` are less than or equal to it.
pub open spec fn is_ranked(s: Seq<int>, r: int, x: int) -> bool {
    places_below(s, x).len() <= r < places_up_to(s, x).len()
}

/// The element that stands at position `r` once `s` is put in ascending
/// order.
pub open spec fn ranked(s: Seq<int>, r: int) -> int {
    choose|x: int| is_ranked(s, r, x)
}

/// The median of `s`: its middle element in ascending order, or the mean of
/// its two middle elements, rounded toward zero.
pub open spec fn median(s: Seq<int>) -> int {
    if s.len() % 2 == 1 {
        ranked(s, s.len() as int / 2)
    } else {
        crate::number::quotient(
            ranked(s, s.len() as int / 2 - 1) + ranked(s, s.len() as int / 2),
            2,
        )
    }
}

/// Only one value stands at a given position in ascending order.
pub proof fn lemma_ranked_unique(s: Seq<int>, r: int, x: int, y: int)
    requires
        is_ranked(s, r, x),
        is_ranked(s, r, y),
    ensures
        x == y,
        ranked(s, r) == x,
{
    let all = vstd::set_lib::set_int_range(0, s.len() as int);
    vstd::set_lib::lemma_int_range(0, s.len() as int);
    if x < y {
        assert(places_up_to(s, x).subset_of(places_below(s, y)));
        assert(places_below(s, y).subset_of(all));
        vstd::set_lib::lemma_len_subset(places_below(s, y), all);
        vstd::set_lib::lemma_len_subset(places_up_to(s, x), places_below(s, y));
    }
    if y < x {
        assert(places_up_to(s, y).subset_of(places_below(s, x)));
        assert(places_below(s, x).subset_of(all));
        vstd::set_lib::lemma_len_subset(places_below(s, x), all);
        vstd::set_lib::lemma_len_subset(places_up_to(s, y), places_below(s, x));
    }
    let z = ranked(s, r);
    if z != x {
        if z < x {
            assert(places_up_to(s, z).subset_of(places_below(s, x)));
            assert(places_below(s, x).subset_of(all));
            vstd::set_lib::lemma_len_subset(places_below(s, x), all);
            vstd::set_lib::lemma_len_subset(places_up_to(s, z), places_below(s, x));
        } else {
            assert(places_up_to(s, x).subset_of(places_below(s, z)));
            assert(places_below(s, z).subset_of(all));
            vstd::set_lib::lemma_len_subset(places_below(s, z), all);
            vstd::set_lib::lemma_len_subset(places_up_to(s, x), places_below(s, z));
        }
    }
}

/// The value that stands at a position in ascending order is an element of
/// the sequence.
pub proof fn lemma_ranked_is_element(s: Seq<int>, r: int, x: int) -> (i: int)
    requires
        is_ranked(s, r, x),
    ensures
        0 <= i < s.len(),
        s[i] == x,
{
    let all = vstd::set_lib::set_int_range(0, s.len() as int);
    vstd::set_lib::lemma_int_range(0, s.len() as int);
    assert(places_up_to(s, x).subset_of(all));
    vstd::set_lib::lemma_len_subset(places_up_to(s, x), all);
    if forall|j: int| 0 <= j < s.len() ==> s[j] != x {
        assert(places_up_to(s, x) =~= places_below(s, x));
    }
    choose|j: int| 0 <= j < s.len() && s[j] == x
}

/// The median lies between the least and the greatest element: with no
/// element below `lo` and none above `hi`, and `upper` and `lower` the two
/// elements in the middle, the median is from `lo` to `hi`.
pub proof fn lemma_median_in_range(s: Seq<int>, lo: int, hi: int, lower: int, upper: int)
    requires
        s.len() >= 1,
        forall|i: int| 0 <= i < s.len() ==> lo <= #[trigger] s[i] <= hi,
        is_ranked(s, s.len() as int / 2, upper),
        s.len() % 2 == 0 ==> is_ranked(s, s.len() as int / 2 - 1, lower),
    ensures
        lo <= median(s) <= hi,
{
    lemma_ranked_unique(s, s.len() as int / 2, upper, upper);
    let i = lemma_ranked_is_element(s, s.len() as int / 2, upper);
    if s.len() % 2 == 0 {
        lemma_ranked_unique(s, s.len() as int / 2 - 1, lower, lower);
        let j = lemma_ranked_is_element(s, s.len() as int / 2 - 1, lower);
        let sum = lower + upper;
        assert(sum >= 0 ==> 2 * lo <= 2 * (sum / 2) + 1 && sum / 2 * 2 <= sum) by {
            vstd::arithmetic::div_mod::lemma_fundamental_div_mod(sum, 2);
        }
        assert(sum < 0 ==> (-sum) / 2 * 2 <= -sum && -sum <= 2 * ((-sum) / 2) + 1) by {
            vstd::arithmetic::div_mod::lemma_fundamental_div_mod(-sum, 2);
        }
    }
}

/// A value that more than half of the elements have is the median.
pub proof fn lemma_majority_is_median(s: Seq<int>, v: int)
    requires
        2 * Set::new(|i: int| 0 <= i < s.len() && s[i] == v).len() > s.len(),
    ensures
        median(s) == v,
{
    let n = s.len() as int;
    let all = vstd::set_lib::set_int_range(0, n);
    let same = Set::new(|i: int| 0 <= i < s.len() && s[i] == v);
    let below = places_below(s, v);
    let upto = places_up_to(s, v);
    vstd::set_lib::lemma_int_range(0, n);
    assert(same.subset_of(all));
    assert(below.subset_of(all));
    assert(upto.subset_of(all));
    vstd::set_lib::lemma_len_subset(same, all);
    vstd::set_lib::lemma_len_subset(below, all);
    vstd::set_lib::lemma_len_subset(upto, all);
    assert(same.subset_of(upto));
    vstd::set_lib::lemma_len_subset(same, upto);
    assert(below.disjoint(same));
    vstd::set_lib::lemma_set_disjoint_lens(below, same);
    assert(below.union(same).subset_of(all));
    vstd::set_lib::lemma_len_subset(below.union(same), all);
    assert(is_ranked(s, n / 2, v));
    lemma_ranked_unique(s, n / 2, v, v);
    if n % 2 == 0 {
        assert(is_ranked(s, n / 2 - 1, v));
        lemma_ranked_unique(s, n / 2 - 1, v, v);
        assert(crate::number::quotient(v + v, 2) == v) by {
            crate::textbook::lemma_quotient_scaled(v, 1, 2);
        }
    }
}

/// Of two values that stand at positions in ascending order, the one at
/// the earlier position is not the greater.
pub proof fn lemma_ranked_in_order(s: Seq<int>, r: int, x: int, t: int, y: int)
    requires
        is_ranked(s, r, x),
        is_ranked(s, t, y),
        r <= t,
    ensures
        x <= y,
{
    if y < x {
        let all = vstd::set_lib::set_int_range(0, s.len() as int);
        vstd::set_lib::lemma_int_range(0, s.len() as int);
        assert(places_up_to(s, y).subset_of(places_below(s, x)));
        assert(places_below(s, x).subset_of(all));
        vstd::set_lib::lemma_len_subset(places_below(s, x), all);
        vstd::set_lib::lemma_len_subset(places_up_to(s, y), places_below(s, x));
    }
}

/// Feeding the median back leaves it: where `upper` and `lower` are the two
/// elements in the middle of `s`, the sequence that `s` becomes when its
/// median arrives has the same median.
pub proof fn lemma_median_fed_back(s: Seq<int>, lower: int, upper: int)
    requires
        s.len() >= 1,
        is_ranked(s, s.len() as int / 2, upper),
        s.len() % 2 == 0 ==> is_ranked(s, s.len() as int / 2 - 1, lower),
    ensures
        median(s.push(median(s))) == median(s),
{
    let n = s.len() as int;
    let m = median(s);
    let fed = s.push(m);
    let all = vstd::set_lib::set_int_range(0, n);
    vstd::set_lib::lemma_int_range(0, n);
    lemma_ranked_unique(s, n / 2, upper, upper);
    if n % 2 == 0 {
        lemma_ranked_unique(s, n / 2 - 1, lower, lower);
        lemma_ranked_in_order(s, n / 2 - 1, lower, n / 2, upper);
        let sum = lower + upper;
        if sum >= 0 {
            vstd::arithmetic::div_mod::lemma_fundamental_div_mod(sum, 2);
        } else {
            vstd::arithmetic::div_mod::lemma_fundamental_div_mod(-sum, 2);
        }
        assert(lower <= m <= upper);
    } else {
        assert(m == upper);
    }
    // No position is added to those below the median, and one to those up
    // to it.
    assert(places_below(fed, m) =~= places_below(s, m));
    assert(places_up_to(fed, m) =~= places_up_to(s, m).insert(n));
    assert(places_below(s, m).subset_of(all));
    assert(places_up_to(s, m).subset_of(all));
    assert(places_below(s, upper).subset_of(all));
    vstd::set_lib::lemma_len_subset(places_below(s, m), all);
    vstd::set_lib::lemma_len_subset(places_up_to(s, m), all);
    vstd::set_lib::lemma_len_subset(places_below(s, upper), all);
    assert(places_below(s, m).subset_of(places_below(s, upper)));
    vstd::set_lib::lemma_len_subset(places_below(s, m), places_below(s, upper));
    if n % 2 == 0 {
        assert(places_up_to(s, lower).subset_of(places_up_to(s, m)));
        vstd::set_lib::lemma_len_subset(places_up_to(s, lower), places_up_to(s, m));
        assert(is_ranked(fed, n / 2, m));
        lemma_ranked_unique(fed, n / 2, m, m);
    } else {
        assert(is_ranked(fed, (n + 1) / 2, m));
        assert(is_ranked(fed, (n + 1) / 2 - 1, m));
        lemma_ranked_unique(fed, (n + 1) / 2, m, m);
        lemma_ranked_unique(fed, (n + 1) / 2 - 1, m, m);
        assert(crate::number::quotient(m + m, 2) == m) by {
            crate::textbook::lemma_quotient_scaled(m, 1, 2);
        }
    }
}

/// Whether no element of `s` is greater than one after it.
pub open spec fn ascending(s: Seq<int>) -> bool {
    forall|i: int, j: int| 0 <= i <= j < s.len() ==> s[i] <= s[j]
}

/// In a sequence in ascending order, the element at position `r` is the
/// one that `is_ranked` speaks of.
pub proof fn lemma_rank_in_ascending(s: Seq<int>, r: int)
    requires
        ascending(s),
        0 <= r < s.len(),
    ensures
        is_ranked(s, r, s[r]),
        ranked(s, r) == s[r],
{
    let all = vstd::set_lib::set_int_range(0, s.len() as int);
    let before = vstd::set_lib::set_int_range(0, r);
    let through = vstd::set_lib::set_int_range(0, r + 1);
    vstd::set_lib::lemma_int_range(0, s.len() as int);
    vstd::set_lib::lemma_int_range(0, r);
    vstd::set_lib::lemma_int_range(0, r + 1);
    assert(places_below(s, s[r]).subset_of(before)) by {
        assert forall|i: int| places_below(s, s[r]).contains(i) implies before.contains(i) by {
            if i >= r {
                assert(s[r] <= s[i]);
            }
        }
    }
    vstd::set_lib::lemma_len_subset(places_below(s, s[r]), before);
    assert(through.subset_of(places_up_to(s, s[r]))) by {
        assert forall|i: int| through.contains(i) implies places_up_to(s, s[r]).contains(i) by {
            assert(s[i] <= s[r]);
        }
    }
    assert(places_up_to(s, s[r]).subset_of(all));
    vstd::set_lib::lemma_len_subset(places_up_to(s, s[r]), all);
    vstd::set_lib::lemma_len_subset(through, places_up_to(s, s[r]));
    lemma_ranked_unique(s, r, s[r], s[r]);
}

/// The median of a sequence in ascending order is its middle element, or
/// the mean of its two middle elements, rounded toward zero.
pub proof fn lemma_median_of_ascending(s: Seq<int>)
    requires
        ascending(s),
        s.len() >= 1,
    ensures
        median(s) == if s.len() % 2 == 1 {
            s[s.len() as int / 2]
        } else {
            crate::number::quotient(s[s.len() as int / 2 - 1] + s[s.len() as int / 2], 2)
        },
{
    lemma_rank_in_ascending(s, s.len() as int / 2);
    if s.len() % 2 == 0 {
        lemma_rank_in_ascending(s, s.len() as int / 2 - 1);
    }
}

/// The element at a position in ascending order does not depend on the
/// order in which a sequence holds its elements: where `to` and `back` take
/// the positions of `s` to those of `t` and back, and the elements with
/// them, the same value stands at position `r` for both.
pub proof fn lemma_rank_of_rearranged(
    s: Seq<int>,
    t: Seq<int>,
    to: spec_fn(int) -> int,
    back: spec_fn(int) -> int,
    r: int,
    x: int,
)
    requires
        s.len() == t.len(),
        forall|i: int| 0 <= i < s.len() ==> 0 <= #[trigger] to(i) < t.len() && back(to(i)) == i,
        forall|j: int| 0 <= j < t.len() ==> 0 <= #[trigger] back(j) < s.len() && to(back(j)) == j,
        forall|i: int| 0 <= i < s.len() ==> s[i] == t[#[trigger] to(i)],
    ensures
        is_ranked(s, r, x) <==> is_ranked(t, r, x),
{
    let all = vstd::set_lib::set_int_range(0, s.len() as int);
    vstd::set_lib::lemma_int_range(0, s.len() as int);
    assert(places_below(s, x).subset_of(all));
    assert(places_below(t, x).subset_of(all));
    assert(places_up_to(s, x).subset_of(all));
    assert(places_up_to(t, x).subset_of(all));
    vstd::set_lib::lemma_len_subset(places_below(s, x), all);
    vstd::set_lib::lemma_len_subset(places_below(t, x), all);
    vstd::set_lib::lemma_len_subset(places_up_to(s, x), all);
    vstd::set_lib::lemma_len_subset(places_up_to(t, x), all);
    assert forall|j: int| places_below(t, x).contains(j) implies places_below(s, x).contains(
        #[trigger] back(j),
    ) by {
        assert(s[back(j)] == t[to(back(j))]);
    }
    assert forall|j: int| places_up_to(t, x).contains(j) implies places_up_to(s, x).contains(
        #[trigger] back(j),
    ) by {
        assert(s[back(j)] == t[to(back(j))]);
    }
    assert forall|a: int, b: int|
        places_below(s, x).contains(a) && places_below(s, x).contains(b) && #[trigger] to(a)
            == #[trigger] to(b) implies a == b by {
        assert(back(to(a)) == a);
        assert(back(to(b)) == b);
    }
    assert forall|a: int, b: int|
        places_up_to(s, x).contains(a) && places_up_to(s, x).contains(b) && #[trigger] to(a)
            == #[trigger] to(b) implies a == b by {
        assert(back(to(a)) == a);
        assert(back(to(b)) == b);
    }
    assert forall|a: int, b: int|
        places_below(t, x).contains(a) && places_below(t, x).contains(b) && #[trigger] back(a)
            == #[trigger] back(b) implies a == b by {
        assert(to(back(a)) == a);
        assert(to(back(b)) == b);
    }
    assert forall|a: int, b: int|
        places_up_to(t, x).contains(a) && places_up_to(t, x).contains(b) && #[trigger] back(a)
            == #[trigger] back(b) implies a == b by {
        assert(to(back(a)) == a);
        assert(to(back(b)) == b);
    }
    lemma_injection_bound(places_below(s, x), places_below(t, x), to);
    lemma_injection_bound(places_below(t, x), places_below(s, x), back);
    lemma_injection_bound(places_up_to(s, x), places_up_to(t, x), to);
    lemma_injection_bound(places_up_to(t, x), places_up_to(s, x), back);
}

/// A set of integers that a function maps one to one into a finite set has
/// no more members than that set.
pub proof fn lemma_injection_bound(x: Set<int>, y: Set<int>, f: spec_fn(int) -> int)
    requires
        x.finite(),
        y.finite(),
        forall|a: int| x.contains(a) ==> y.contains(#[trigger] f(a)),
        forall|a: int, b: int|
            x.contains(a) && x.contains(b) && #[trigger] f(a) == #[trigger] f(b) ==> a == b,
    ensures
        x.len() <= y.len(),
{
    assert(vstd::relations::injective_on(f, x));
    vstd::set_lib::lemma_map_size(x, x.map(f), f);
    assert(x.map(f).subset_of(y));
    vstd::set_lib::lemma_len_subset(x.map(f), y);
}

/// Appending an element adds it to the sum.
pub proof fn lemma_total_push(s: Seq<int>, x: int)
    ensures
        total(s.push(x)) == total(s) + x,
{
    assert(s.push(x).drop_last() =~= s);
}

/// Removing the first element takes it from the sum.
pub proof fn lemma_total_skip_first(s: Seq<int>)
    requires
        s.len() > 0,
    ensures
        total(s.subrange(1, s.len() as int)) == total(s) - s[0],
    decreases s.len(),
{
    let rest = s.subrange(1, s.len() as int);
    if s.len() == 1 {
        assert(s.drop_last() =~= Seq::<int>::empty());
        assert(rest =~= Seq::<int>::empty());
        assert(total(s) == total(s.drop_last()) + s.last());
    } else {
        lemma_total_skip_first(s.drop_last());
        assert(rest.drop_last() =~= s.drop_last().subrange(1, s.len() - 1));
        assert(rest.last() == s.last());
        assert(total(rest) == total(rest.drop_last()) + rest.last());
        assert(total(s) == total(s.drop_last()) + s.last());
    }
}

/// Sliding a window moves its sum by the difference between the element
/// that arrives and the one that leaves.
pub proof fn lemma_total_slide(s: Seq<int>, capacity: nat, x: int)
    requires
        capacity >= 1,
        s.len() <= capacity,
    ensures
        total(crate::window::slide(s, capacity, x)) == if s.len() < capacity {
            total(s) + x
        } else {
            total(s) + x - s[0]
        },
{
    if s.len() < capacity {
        lemma_total_push(s, x);
    } else {
        lemma_total_skip_first(s);
        lemma_total_push(s.subrange(1, s.len() as int), x);
    }
}

/// Sliding a window of elements slides the window of the integers they
/// stand for.
pub proof fn lemma_vals_slide<E: Exact>(w: Seq<E>, capacity: nat, x: E)
    requires
        capacity >= 1,
    ensures
        vals(crate::window::slide(w, capacity, x)) == crate::window::slide(
            vals(w),
            capacity,
            x.val(),
        ),
{
    if w.len() < capacity {
        assert(vals(w.push(x)) =~= vals(w).push(x.val()));
    } else {
        assert(vals(w.subrange(1, w.len() as int).push(x)) =~= vals(w).subrange(
            1,
            w.len() as int,
        ).push(x.val()));
    }
}

/// Sliding a window of pairs slides the windows of the integers that their
/// members stand for.
pub proof fn lemma_pairs_slide<E: Exact>(w: Seq<(E, E)>, capacity: nat, p: (E, E))
    requires
        capacity >= 1,
    ensures
        firsts(crate::window::slide(w, capacity, p)) == crate::window::slide(
            firsts(w),
            capacity,
            p.0.val(),
        ),
        seconds(crate::window::slide(w, capacity, p)) == crate::window::slide(
            seconds(w),
            capacity,
            p.1.val(),
        ),
{
    if w.len() < capacity {
        assert(firsts(w.push(p)) =~= firsts(w).push(p.0.val()));
        assert(seconds(w.push(p)) =~= seconds(w).push(p.1.val()));
    } else {
        assert(firsts(w.subrange(1, w.len() as int).push(p)) =~= firsts(w).subrange(
            1,
            w.len() as int,
        ).push(p.0.val()));
        assert(seconds(w.subrange(1, w.len() as int).push(p)) =~= seconds(w).subrange(
            1,
            w.len() as int,
        ).push(p.1.val()));
    }
}

} // verus!
