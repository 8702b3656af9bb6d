//! The least-squares line through a window of points.

use crate::covariance::Covariance;
use crate::indicator::{Indicator, IndicatorError};
use crate::number::{Bounded, Exact, Identity};
use crate::variance::Variance;
use vstd::prelude::*;
use vstd::std_specs::cmp::PartialEqSpec;
use vstd::std_specs::ops::{DivSpec, MulSpec, SubSpec};

verus! {

/// The running least-squares line through the last `N` points `(x, y)` of a
/// stream, read as the pair of its intercept and its slope.
///
/// The slope is what the running covariance of `x` and `y` divides, over
/// what the running variance of `x` divides; the intercept is the sum of
/// `y` less the slope times the sum of `x`, divided by the number of
/// points. Each is rounded toward zero once.
pub struct LinearRegression<E> {
    cov: Covariance<E>,
    var: Variance<E>,
}

impl<E: Identity> LinearRegression<E> {
    /// Whether the window determines a line: it holds two points whose
    /// abscissas are not all equal.
    pub open spec fn determined(&self) -> bool {
        &&& self.window().len() >= 2
        &&& crate::stats::spread(crate::stats::firsts(self.window())) != 0
    }

    /// The slope of the line.
    pub open spec fn slope(&self) -> int {
        crate::stats::slope(
            crate::stats::firsts(self.window()),
            crate::stats::seconds(self.window()),
        )
    }

    /// The intercept of the line.
    pub open spec fn intercept(&self) -> int {
        crate::stats::intercept(
            crate::stats::firsts(self.window()),
            crate::stats::seconds(self.window()),
        )
    }

    /// A window is never longer than its capacity, which is at least one.
    pub proof fn lemma_bounded(&self)
        requires
            self.wf(),
        ensures
            self.window().len() <= self.capacity(),
            1 <= self.capacity() <= usize::MAX,
    {
        self.cov.lemma_bounded();
    }

    /// After a stream of points the indicator reads the line of least
    /// squares through the latest of them, by the formulas
    /// `b = (n Sxy - Sx Sy) / (n Sxx - Sx Sx)` and `a = (Sy - b Sx) / n`, in
    /// which `n` is the number of points in the window and `S` stands for a
    /// sum over them; it reads nothing where there are fewer than two
    /// points or the divisor of the slope is zero.
    pub proof fn lemma_reads_latest(&self, points: Seq<(E, E)>)
        requires
            self.wf(),
            self.window() == crate::window::feed(self.capacity(), points),
        ensures
            ({
                let w = crate::window::last_n(points, self.capacity());
                let wx = crate::stats::firsts(w);
                let wy = crate::stats::seconds(w);
                self.reading() == if w.len() < 2 || crate::stats::spread(wx) == 0 {
                    None
                } else {
                    Some(
                        (
                            E::of_int(crate::stats::intercept(wx, wy)),
                            E::of_int(crate::stats::slope(wx, wy)),
                        ),
                    )
                }
            }),
    {
        self.lemma_bounded();
        crate::window::lemma_feed_keeps_latest(self.capacity(), points);
    }

    /// The window of the variance holds the abscissas of the points.
    proof fn lemma_members(&self)
        requires
            self.wf(),
        ensures
            crate::stats::vals(self.var.window()) == crate::stats::firsts(self.window()),
            self.var.window().len() == self.window().len(),
            crate::stats::firsts(self.window()).len() == self.window().len(),
            crate::stats::seconds(self.window()).len() == self.window().len(),
    {
        assert(crate::stats::vals(self.var.window()) =~= crate::stats::firsts(self.window()));
    }
}

impl<E: Identity> Indicator<(E, E)> for LinearRegression<E> {
    type Output = (E, E);

    closed spec fn wf(&self) -> bool {
        &&& self.cov.wf()
        &&& self.var.wf()
        &&& self.cov.capacity() == self.var.capacity()
        &&& self.var.window() == self.cov.window().map_values(|p: (E, E)| p.0)
    }

    closed spec fn capacity(&self) -> nat {
        self.cov.capacity()
    }

    closed spec fn window(&self) -> Seq<(E, E)> {
        self.cov.window()
    }

    open spec fn valid_size(size: usize) -> bool {
        size >= 1
    }

    /// Every step on the way to the new sums must be in range.
    open spec fn accepts(&self, el: (E, E)) -> bool {
        let wx = crate::stats::firsts(self.window());
        let wy = crate::stats::seconds(self.window());
        &&& crate::stats::variance_takes::<E>(wx, self.capacity(), el.0.val())
        &&& crate::stats::covariance_takes::<E>(
            wx,
            wy,
            self.capacity(),
            el.0.val(),
            el.1.val(),
        )
    }

    /// Where the window holds two points, every step on the way to what
    /// the slope divides must be in range; where it determines a line, so
    /// must the slope and every step on the way to the intercept.
    open spec fn readable(&self) -> bool {
        let wx = crate::stats::firsts(self.window());
        let wy = crate::stats::seconds(self.window());
        &&& self.window().len() >= 2 ==> crate::stats::spread_fits::<E>(wx)
            && crate::stats::comoment_fits::<E>(wx, wy)
        &&& self.determined() ==> {
            &&& E::fits(self.slope())
            &&& E::fits(self.slope() * crate::stats::total(wx))
            &&& E::fits(crate::stats::total(wy) - self.slope() * crate::stats::total(wx))
        }
    }

    /// The intercept and the slope, where the window determines a line.
    open spec fn reading(&self) -> Option<(E, E)> {
        if self.determined() {
            Some((E::of_int(self.intercept()), E::of_int(self.slope())))
        } else {
            None
        }
    }

    fn new(size: usize) -> (r: Result<Self, IndicatorError>)
        ensures
            r is Err ==> r == Err::<Self, IndicatorError>(IndicatorError::InvalidSize),
    {
        match Variance::new(size) {
            Ok(var) => match Covariance::new(size) {
                Ok(cov) => {
                    let r = LinearRegression { cov, var };
                    assert(r.var.window() =~= r.cov.window().map_values(|p: (E, E)| p.0));
                    Ok(r)
                },
                Err(e) => Err(e),
            },
            Err(e) => Err(e),
        }
    }

    fn admits(&self, el: (E, E)) -> (r: bool) {
        proof {
            self.lemma_members();
        }
        self.var.admits(el.0) && self.cov.admits(el)
    }

    fn reads(&self) -> (r: bool) {
        proof {
            self.lemma_members();
        }
        if self.cov.len() < 2 {
            return true;
        }
        let var = match self.var.spread() {
            Some(var) => var,
            None => { return false; },
        };
        let cov = match self.cov.comoment() {
            Some(cov) => cov,
            None => { return false; },
        };
        let zero = E::zero();
        proof {
            E::law_order(var, zero);
        }
        if var == zero {
            return true;
        }
        match cov.checked_div(var) {
            Some(b) => match b.checked_mul(self.cov.x_total()) {
                Some(p) => self.cov.y_total().checked_sub(p).is_some(),
                None => false,
            },
            None => false,
        }
    }

    fn next(&mut self, el: (E, E)) {
        proof {
            self.lemma_members();
            self.cov.lemma_bounded();
        }
        self.var.next(el.0);
        self.cov.next(el);
        assert(self.var.window() =~= self.cov.window().map_values(|p: (E, E)| p.0));
    }

    fn value(&self) -> (r: Option<(E, E)>)
        ensures
            r is Some ==> r.unwrap().0.val() == self.intercept() && r.unwrap().1.val()
                == self.slope(),
    {
        proof {
            self.lemma_members();
        }
        if self.cov.len() < 2 {
            return None;
        }
        let var = self.var.spread().unwrap();
        let cov = self.cov.comoment().unwrap();
        let zero = E::zero();
        proof {
            E::law_order(var, zero);
        }
        if var == zero {
            return None;
        }
        let s_x = self.cov.x_total();
        let s_y = self.cov.y_total();
        let len = self.cov.count();
        proof {
            E::law_div(cov, var);
            E::law_mul(cov.div_spec(var), s_x);
            E::law_sub(s_y, cov.div_spec(var).mul_spec(s_x));
            E::law_div(s_y.sub_spec(cov.div_spec(var).mul_spec(s_x)), len);
            E::law_range(s_y.sub_spec(cov.div_spec(var).mul_spec(s_x)));
            crate::number::lemma_quotient_bounds(
                s_y.val() - cov.div_spec(var).val() * s_x.val(),
                len.val(),
            );
        }
        let b = cov / var;
        let a = (s_y - b * s_x) / len;
        proof {
            crate::number::lemma_of_int(a);
            crate::number::lemma_of_int(b);
        }
        Some((a, b))
    }
}

} // verus!
