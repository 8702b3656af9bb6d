//! The line of least squares from running sums, and the indicators under
//! the names that speak of a moving window.

use crate::average::Average;
use crate::indicator::{Indicator, IndicatorError};
use crate::median::Median;
use crate::number::{Bounded, Exact, Identity};
use crate::sum::Sum;
use crate::variance::Variance;
use std::collections::VecDeque;
use vstd::prelude::*;
use vstd::std_specs::cmp::PartialEqSpec;
use vstd::std_specs::ops::{AddSpec, DivSpec, MulSpec, SubSpec};

verus! {

/// The sum of a moving window.
pub type MovingSum<E> = Sum<E>;

/// The mean of a moving window.
pub type SimpleMovingAverage<E> = Average<E>;

/// The variance of a moving window, kept up to date from the means before
/// and after each arrival.
pub type WelfordsMovingVariance<E> = Variance<E>;

/// The median of a moving window.
pub type SlidingMedianFilter<E> = Median<E>;

/// The running least-squares line through the last `N` points `(x, y)` of a
/// stream, read as the pair of its intercept and its slope.
///
/// The indicator keeps the sums of the coordinates, of their squares and of
/// their products over the window, and reads the line from them; it
/// divides only when it is read.
pub struct OrdinaryLeastSquares<E> {
    queue: VecDeque<(E, E)>,
    s_x: E,
    s_y: E,
    s_xx: E,
    s_yy: E,
    s_xy: E,
    len: E,
    size: usize,
}

/// The sums that `OrdinaryLeastSquares` keeps over a window.
pub struct Sums {
    /// The number of points.
    pub n: int,
    /// The sum of the abscissas.
    pub x: int,
    /// The sum of the ordinates.
    pub y: int,
    /// The sum of the squares of the abscissas.
    pub xx: int,
    /// The sum of the squares of the ordinates.
    pub yy: int,
    /// The sum of the products of abscissa and ordinate.
    pub xy: int,
}

/// The sums over the window of points `w`.
pub open spec fn sums_of<E: Exact>(w: Seq<(E, E)>) -> Sums {
    let wx = crate::stats::firsts(w);
    let wy = crate::stats::seconds(w);
    Sums {
        n: w.len() as int,
        x: crate::stats::total(wx),
        y: crate::stats::total(wy),
        xx: crate::textbook::dot(wx, wx),
        yy: crate::textbook::dot(wy, wy),
        xy: crate::textbook::dot(wx, wy),
    }
}

impl Sums {
    /// What the slope is divided by: zero where the abscissas are all equal.
    pub open spec fn spread(self) -> int {
        self.n * self.xx - self.x * self.x
    }

    /// The slope of the line of least squares.
    pub open spec fn slope(self) -> int {
        crate::number::quotient(self.n * self.xy - self.x * self.y, self.spread())
    }

    /// The intercept of the line of least squares.
    pub open spec fn intercept(self) -> int {
        crate::number::quotient(self.y - self.slope() * self.x, self.n)
    }
}

impl<E: Identity> OrdinaryLeastSquares<E> {
    /// Whether the steps from the sums over the window to those after the
    /// point `(x, y)` has arrived are all in range.
    pub open spec fn sums_in_range(&self, x: int, y: int) -> bool {
        let s = sums_of(self.window());
        if self.window().len() < self.capacity() {
            &&& E::fits(s.n + 1)
            &&& E::fits(s.x + x)
            &&& E::fits(s.y + y)
            &&& E::fits(x * x)
            &&& E::fits(s.xx + x * x)
            &&& E::fits(y * y)
            &&& E::fits(s.yy + y * y)
            &&& E::fits(x * y)
            &&& E::fits(s.xy + x * y)
        } else {
            let ox = self.window()[0].0.val();
            let oy = self.window()[0].1.val();
            &&& E::fits(s.x + x)
            &&& E::fits(s.x + x - ox)
            &&& E::fits(s.y + y)
            &&& E::fits(s.y + y - oy)
            &&& E::fits(x - ox)
            &&& E::fits(x + ox)
            &&& E::fits((x - ox) * (x + ox))
            &&& E::fits(s.xx + (x - ox) * (x + ox))
            &&& E::fits(y - oy)
            &&& E::fits(y + oy)
            &&& E::fits((y - oy) * (y + oy))
            &&& E::fits(s.yy + (y - oy) * (y + oy))
            &&& E::fits(x * y)
            &&& E::fits(s.xy + x * y)
            &&& E::fits(ox * oy)
            &&& E::fits(s.xy + x * y - ox * oy)
        }
    }

    /// A window is never longer than its capacity, which is at least one.
    pub proof fn lemma_bounded(&self)
        requires
            self.wf(),
        ensures
            self.window().len() <= self.capacity(),
            1 <= self.capacity() <= usize::MAX,
    {
    }

    /// After a stream of points the indicator reads the line of least
    /// squares through the latest of them, by the formulas
    /// `b = (n Sxy - Sx Sy) / (n Sxx - Sx Sx)` and `a = (Sy - b Sx) / n`, in
    /// which `n` is the number of points in the window and `S` stands for a
    /// sum over them; it reads nothing where the divisor of the slope is
    /// zero.
    pub proof fn lemma_reads_latest(&self, points: Seq<(E, E)>)
        requires
            self.wf(),
            self.window() == crate::window::feed(self.capacity(), points),
        ensures
            ({
                let s = sums_of(crate::window::last_n(points, self.capacity()));
                self.reading() == if s.n == 0 || s.spread() == 0 {
                    None
                } else {
                    Some((E::of_int(s.intercept()), E::of_int(s.slope())))
                }
            }),
    {
        crate::window::lemma_feed_keeps_latest(self.capacity(), points);
    }

    /// The points in the window, oldest first, as the queue holds them
    /// newest first.
    proof fn lemma_window(&self)
        ensures
            self.window().len() == self.queue@.len(),
            forall|i: int|
                0 <= i < self.queue@.len() ==> #[trigger] self.window()[i]
                    == self.queue@[self.queue@.len() - 1 - i],
    {
    }

    /// The sums after the point `el` has arrived, where the steps to them
    /// are all in range: the number of points and the sums `x`, `y`, `xx`,
    /// `yy` and `xy`.
    fn after(&self, el: (E, E)) -> (r: Option<(E, E, E, E, E, E)>)
        requires
            self.wf(),
        ensures
            r is Some <==> self.sums_in_range(el.0.val(), el.1.val()),
            r is Some ==> ({
                let s = sums_of(
                    crate::window::slide(self.window(), self.capacity(), el),
                );
                let t = r.unwrap();
                &&& t.0.val() == s.n
                &&& t.1.val() == s.x
                &&& t.2.val() == s.y
                &&& t.3.val() == s.xx
                &&& t.4.val() == s.yy
                &&& t.5.val() == s.xy
            }),
    {
        let (x, y) = el;
        proof {
            self.lemma_window();
            self.lemma_slide(el);
        }
        if self.queue.len() < self.size {
            let len = self.len.checked_add(E::one())?;
            let s_x = self.s_x.checked_add(x)?;
            let s_y = self.s_y.checked_add(y)?;
            let xx = x.checked_mul(x)?;
            let s_xx = self.s_xx.checked_add(xx)?;
            let yy = y.checked_mul(y)?;
            let s_yy = self.s_yy.checked_add(yy)?;
            let xy = x.checked_mul(y)?;
            let s_xy = self.s_xy.checked_add(xy)?;
            Some((len, s_x, s_y, s_xx, s_yy, s_xy))
        } else {
            let (old_x, old_y) = self.queue[self.queue.len() - 1];
            let s_x = self.s_x.checked_add(x)?.checked_sub(old_x)?;
            let s_y = self.s_y.checked_add(y)?.checked_sub(old_y)?;
            let dx = x.checked_sub(old_x)?;
            let tx = x.checked_add(old_x)?;
            let s_xx = self.s_xx.checked_add(dx.checked_mul(tx)?)?;
            let dy = y.checked_sub(old_y)?;
            let ty = y.checked_add(old_y)?;
            let s_yy = self.s_yy.checked_add(dy.checked_mul(ty)?)?;
            let xy = x.checked_mul(y)?;
            let s_xy = self.s_xy.checked_add(xy)?;
            let old_xy = old_x.checked_mul(old_y)?;
            let s_xy = s_xy.checked_sub(old_xy)?;
            Some((self.len, s_x, s_y, s_xx, s_yy, s_xy))
        }
    }

    /// How the sums over the window move when the point `el` arrives.
    proof fn lemma_slide(&self, el: (E, E))
        requires
            self.wf(),
        ensures
            ({
                let s = sums_of(self.window());
                let t = sums_of(crate::window::slide(self.window(), self.capacity(), el));
                let x = el.0.val();
                let y = el.1.val();
                if self.window().len() < self.capacity() {
                    &&& t.n == s.n + 1
                    &&& t.x == s.x + x
                    &&& t.y == s.y + y
                    &&& t.xx == s.xx + x * x
                    &&& t.yy == s.yy + y * y
                    &&& t.xy == s.xy + x * y
                } else {
                    let ox = self.window()[0].0.val();
                    let oy = self.window()[0].1.val();
                    &&& t.n == s.n
                    &&& t.x == s.x + x - ox
                    &&& t.y == s.y + y - oy
                    &&& t.xx == s.xx + (x - ox) * (x + ox)
                    &&& t.yy == s.yy + (y - oy) * (y + oy)
                    &&& t.xy == s.xy + x * y - ox * oy
                }
            }),
    {
        let w = self.window();
        let capacity = self.capacity();
        let wx = crate::stats::firsts(w);
        let wy = crate::stats::seconds(w);
        let x = el.0.val();
        let y = el.1.val();
        crate::stats::lemma_pairs_slide(w, capacity, el);
        crate::stats::lemma_total_slide(wx, capacity, x);
        crate::stats::lemma_total_slide(wy, capacity, y);
        crate::textbook::lemma_dot_slide(wx, wx, capacity, x, x);
        crate::textbook::lemma_dot_slide(wy, wy, capacity, y, y);
        crate::textbook::lemma_dot_slide(wx, wy, capacity, x, y);
        if w.len() >= capacity {
            let ox = w[0].0.val();
            let oy = w[0].1.val();
            assert((x - ox) * (x + ox) == x * x - ox * ox) by (nonlinear_arith);
            assert((y - oy) * (y + oy) == y * y - oy * oy) by (nonlinear_arith);
        }
    }
}

impl<E: Identity> Indicator<(E, E)> for OrdinaryLeastSquares<E> {
    type Output = (E, E);

    closed spec fn wf(&self) -> bool {
        let s = sums_of(self.window());
        &&& self.size >= 1
        &&& self.queue@.len() <= self.size
        &&& self.len.val() == s.n
        &&& self.s_x.val() == s.x
        &&& self.s_y.val() == s.y
        &&& self.s_xx.val() == s.xx
        &&& self.s_yy.val() == s.yy
        &&& self.s_xy.val() == s.xy
    }

    closed spec fn capacity(&self) -> nat {
        self.size as nat
    }

    closed spec fn window(&self) -> Seq<(E, E)> {
        Seq::new(self.queue@.len(), |i: int| self.queue@[self.queue@.len() - 1 - i])
    }

    open spec fn valid_size(size: usize) -> bool {
        size >= 1
    }

    /// Every step on the way to the new sums must be in range.
    open spec fn accepts(&self, el: (E, E)) -> bool {
        self.sums_in_range(el.0.val(), el.1.val())
    }

    /// Where the window determines a line, every step on the way to its
    /// slope and to its intercept must be in range.
    open spec fn readable(&self) -> bool {
        let s = sums_of(self.window());
        &&& s.n > 0 ==> {
            &&& E::fits(s.n * s.xy)
            &&& E::fits(s.x * s.y)
            &&& E::fits(s.n * s.xy - s.x * s.y)
            &&& E::fits(s.n * s.xx)
            &&& E::fits(s.x * s.x)
            &&& E::fits(s.spread())
        }
        &&& s.n > 0 && s.spread() != 0 ==> {
            &&& E::fits(s.slope())
            &&& E::fits(s.slope() * s.x)
            &&& E::fits(s.y - s.slope() * s.x)
        }
    }

    /// The intercept and the slope of the line of least squares through the
    /// window, where the window determines one.
    open spec fn reading(&self) -> Option<(E, E)> {
        let s = sums_of(self.window());
        if s.n == 0 || s.spread() == 0 {
            None
        } else {
            Some((E::of_int(s.intercept()), E::of_int(s.slope())))
        }
    }

    fn new(size: usize) -> (r: Result<Self, IndicatorError>)
        ensures
            r is Err ==> r == Err::<Self, IndicatorError>(IndicatorError::InvalidSize),
    {
        if size < 1 {
            return Err(IndicatorError::InvalidSize);
        }
        let r = OrdinaryLeastSquares {
            len: E::zero(),
            queue: VecDeque::with_capacity(size),
            size,
            s_x: E::zero(),
            s_y: E::zero(),
            s_xx: E::zero(),
            s_yy: E::zero(),
            s_xy: E::zero(),
        };
        proof {
            assert(r.window() =~= Seq::<(E, E)>::empty());
            assert(crate::stats::firsts(r.window()) =~= Seq::<int>::empty());
            assert(crate::stats::seconds(r.window()) =~= Seq::<int>::empty());
        }
        Ok(r)
    }

    fn admits(&self, el: (E, E)) -> (r: bool) {
        self.after(el).is_some()
    }

    fn reads(&self) -> (r: bool) {
        let zero = E::zero();
        proof {
            E::law_order(self.len, zero);
            E::law_range(self.len);
        }
        if !(self.len > zero) {
            return true;
        }
        let up = match self.len.checked_mul(self.s_xy) {
            Some(left) => match self.s_x.checked_mul(self.s_y) {
                Some(right) => left.checked_sub(right),
                None => None,
            },
            None => None,
        };
        let down = match self.len.checked_mul(self.s_xx) {
            Some(left) => match self.s_x.checked_mul(self.s_x) {
                Some(right) => left.checked_sub(right),
                None => None,
            },
            None => None,
        };
        match (up, down) {
            (Some(up), Some(down)) => {
                proof {
                    E::law_order(down, zero);
                }
                if down == zero {
                    return true;
                }
                match up.checked_div(down) {
                    Some(b) => match b.checked_mul(self.s_x) {
                        Some(p) => match self.s_y.checked_sub(p) {
                            Some(rest) => {
                                proof {
                                    E::law_range(rest);
                                    crate::number::lemma_quotient_bounds(
                                        rest.val(),
                                        self.len.val(),
                                    );
                                }
                                true
                            },
                            None => false,
                        },
                        None => false,
                    },
                    None => false,
                }
            },
            _ => false,
        }
    }

    fn next(&mut self, el: (E, E)) {
        let (x, y) = el;
        proof {
            self.lemma_window();
            self.lemma_slide(el);
        }
        if self.queue.len() < self.size {
            let one = E::one();
            proof {
                E::law_add(self.len, one);
                E::law_add(self.s_x, x);
                E::law_add(self.s_y, y);
                E::law_mul(x, x);
                E::law_add(self.s_xx, x.mul_spec(x));
                E::law_mul(y, y);
                E::law_add(self.s_yy, y.mul_spec(y));
                E::law_mul(x, y);
                E::law_add(self.s_xy, x.mul_spec(y));
            }
            self.len = self.len + one;
            self.s_x = self.s_x + x;
            self.s_y = self.s_y + y;
            self.s_xx = self.s_xx + x * x;
            self.s_yy = self.s_yy + y * y;
            self.s_xy = self.s_xy + x * y;
        } else {
            let (old_x, old_y) = self.queue.pop_back().unwrap();
            proof {
                E::law_add(self.s_x, x);
                E::law_sub(self.s_x.add_spec(x), old_x);
                E::law_add(self.s_y, y);
                E::law_sub(self.s_y.add_spec(y), old_y);
                E::law_sub(x, old_x);
                E::law_add(x, old_x);
                E::law_mul(x.sub_spec(old_x), x.add_spec(old_x));
                E::law_add(self.s_xx, x.sub_spec(old_x).mul_spec(x.add_spec(old_x)));
                E::law_sub(y, old_y);
                E::law_add(y, old_y);
                E::law_mul(y.sub_spec(old_y), y.add_spec(old_y));
                E::law_add(self.s_yy, y.sub_spec(old_y).mul_spec(y.add_spec(old_y)));
                E::law_mul(x, y);
                E::law_add(self.s_xy, x.mul_spec(y));
                E::law_mul(old_x, old_y);
                E::law_sub(self.s_xy.add_spec(x.mul_spec(y)), old_x.mul_spec(old_y));
            }
            self.s_x = self.s_x + x - old_x;
            self.s_y = self.s_y + y - old_y;
            self.s_xx = self.s_xx + (x - old_x) * (x + old_x);
            self.s_yy = self.s_yy + (y - old_y) * (y + old_y);
            self.s_xy = self.s_xy + x * y - old_x * old_y;
        }
        self.queue.push_front(el);
        assert(self.window() =~= crate::window::slide(
            old(self).window(),
            old(self).capacity(),
            el,
        ));
    }

    fn value(&self) -> (r: Option<(E, E)>)
        ensures
            r is Some ==> r.unwrap().0.val() == sums_of(self.window()).intercept()
                && r.unwrap().1.val() == sums_of(self.window()).slope(),
    {
        let zero = E::zero();
        proof {
            E::law_order(self.len, zero);
            E::law_range(self.len);
        }
        if self.len > zero {
            proof {
                E::law_mul(self.len, self.s_xy);
                E::law_mul(self.s_x, self.s_y);
                E::law_sub(self.len.mul_spec(self.s_xy), self.s_x.mul_spec(self.s_y));
                E::law_mul(self.len, self.s_xx);
                E::law_mul(self.s_x, self.s_x);
                E::law_sub(self.len.mul_spec(self.s_xx), self.s_x.mul_spec(self.s_x));
            }
            let up = self.len * self.s_xy - self.s_x * self.s_y;
            let down = self.len * self.s_xx - self.s_x * self.s_x;
            proof {
                E::law_order(down, zero);
            }
            if down == zero {
                return None;
            }
            proof {
                E::law_div(up, down);
                E::law_mul(up.div_spec(down), self.s_x);
                E::law_sub(self.s_y, up.div_spec(down).mul_spec(self.s_x));
                E::law_div(self.s_y.sub_spec(up.div_spec(down).mul_spec(self.s_x)), self.len);
                E::law_range(self.s_y.sub_spec(up.div_spec(down).mul_spec(self.s_x)));
                crate::number::lemma_quotient_bounds(
                    self.s_y.val() - up.div_spec(down).val() * self.s_x.val(),
                    self.len.val(),
                );
            }
            let b = up / down;
            let a = (self.s_y - b * self.s_x) / self.len;
            proof {
                crate::number::lemma_of_int(a);
                crate::number::lemma_of_int(b);
            }
            Some((a, b))
        } else {
            None
        }
    }
}

} // verus!
