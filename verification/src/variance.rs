//! The variance of a window.

use crate::indicator::{Indicator, IndicatorError};
use crate::number::{Bounded, Exact, Identity};
use crate::window::RotVec;
use vstd::prelude::*;
use vstd::std_specs::ops::{AddSpec, DivSpec, MulSpec, SubSpec};

verus! {

/// The running variance of the last `N` elements of a stream.
///
/// The indicator keeps the number of elements in the window, their sum and
/// the sum of their squares. When read it divides once: the number of
/// elements times the sum of squares, less the square of the sum, by the
/// number of elements times one less.
pub struct Variance<E> {
    queue: RotVec<E>,
    s_x: E,
    s_xx: E,
    len: E,
}

impl<E: Identity> Variance<E> {
    /// The number of elements in the window.
    pub fn len(&self) -> (r: usize)
        requires
            self.wf(),
        ensures
            r == self.window().len(),
    {
        self.queue.len()
    }

    /// The mean of the window, rounded toward zero, once an element has
    /// arrived.
    pub fn average(&self) -> (r: Option<E>)
        requires
            self.wf(),
        ensures
            r == if self.window().len() == 0 {
                None
            } else {
                Some(E::of_int(crate::stats::mean(crate::stats::vals(self.window()))))
            },
            r is Some ==> r.unwrap().val() == crate::stats::mean(
                crate::stats::vals(self.window()),
            ),
    {
        if self.queue.len() == 0 {
            return None;
        }
        proof {
            assert(crate::stats::vals(self.window()).len() == self.window().len());
            E::law_div(self.s_x, self.len);
            E::law_range(self.s_x);
            crate::number::lemma_quotient_bounds(self.s_x.val(), self.len.val());
        }
        let mean = self.s_x / self.len;
        proof {
            crate::number::lemma_of_int(mean);
        }
        Some(mean)
    }

    /// The number of elements times the sum of their squares, less the
    /// square of their sum, where every step to it is in range.
    pub fn spread(&self) -> (r: Option<E>)
        requires
            self.wf(),
        ensures
            r is Some <==> crate::stats::spread_fits::<E>(crate::stats::vals(self.window())),
            r is Some ==> r.unwrap().val() == crate::stats::spread(
                crate::stats::vals(self.window()),
            ),
    {
        proof {
            assert(crate::stats::vals(self.window()).len() == self.window().len());
        }
        let left = self.len.checked_mul(self.s_xx)?;
        let right = self.s_x.checked_mul(self.s_x)?;
        left.checked_sub(right)
    }

    /// A window is never longer than its capacity, which is at least one.
    pub proof fn lemma_bounded(&self)
        requires
            self.wf(),
        ensures
            self.window().len() <= self.capacity(),
            1 <= self.capacity() <= usize::MAX,
    {
        self.queue.lemma_bounded();
    }

    /// After a stream of at least two elements, read by an indicator of
    /// size at least two, the indicator reads the variance of the latest
    /// elements of the stream: of the last `capacity`, or of all if there
    /// are fewer.
    pub proof fn lemma_reads_latest(&self, xs: Seq<E>)
        requires
            self.wf(),
            self.window() == crate::window::feed(self.capacity(), xs),
            xs.len() >= 2,
            self.capacity() >= 2,
        ensures
            self.reading() == Some(
                E::of_int(
                    crate::stats::variance(
                        crate::stats::vals(crate::window::last_n(xs, self.capacity())),
                    ),
                ),
            ),
    {
        crate::window::lemma_feed_keeps_latest(self.capacity(), xs);
    }

    /// How the sums over the window move when `el` arrives.
    proof fn lemma_slide(&self, el: E)
        requires
            self.wf(),
        ensures
            ({
                let w = crate::stats::vals(self.window());
                let v = crate::stats::vals(
                    crate::window::slide(self.window(), self.capacity(), el),
                );
                let x = el.val();
                &&& w.len() == self.window().len()
                &&& if self.window().len() < self.capacity() {
                    &&& v.len() == w.len() + 1
                    &&& crate::stats::total(v) == crate::stats::total(w) + x
                    &&& crate::textbook::dot(v, v) == crate::textbook::dot(w, w) + x * x
                } else {
                    &&& v.len() == w.len()
                    &&& crate::stats::total(v) == crate::stats::total(w) + x - w[0]
                    &&& crate::textbook::dot(v, v) == crate::textbook::dot(w, w) + (x - w[0])
                        * (x + w[0])
                }
            }),
    {
        let w = crate::stats::vals(self.window());
        let capacity = self.capacity();
        let x = el.val();
        self.queue.lemma_bounded();
        crate::stats::lemma_vals_slide(self.window(), capacity, el);
        crate::stats::lemma_total_slide(w, capacity, x);
        crate::textbook::lemma_dot_slide(w, w, capacity, x, x);
        if w.len() >= capacity {
            let ox = w[0];
            assert((x - ox) * (x + ox) == x * x - ox * ox) by (nonlinear_arith);
        }
    }

    /// The number of elements and the sums after `el` has arrived, where
    /// every step to them is in range.
    fn after(&self, el: E) -> (r: Option<(E, E, E)>)
        requires
            self.wf(),
        ensures
            r is Some <==> self.accepts(el),
    {
        let x = el;
        proof {
            self.queue.lemma_bounded();
            assert(crate::stats::vals(self.window()).len() == self.window().len());
        }
        match self.queue.back() {
            None => {
                let len = self.len.checked_add(E::one())?;
                let s_x = self.s_x.checked_add(x)?;
                let xx = x.checked_mul(x)?;
                let s_xx = self.s_xx.checked_add(xx)?;
                Some((len, s_x, s_xx))
            },
            Some(old_x) => {
                let s_x = self.s_x.checked_add(x)?.checked_sub(old_x)?;
                let dx = x.checked_sub(old_x)?;
                let tx = x.checked_add(old_x)?;
                let s_xx = self.s_xx.checked_add(dx.checked_mul(tx)?)?;
                Some((self.len, s_x, s_xx))
            },
        }
    }
}

impl<E: Identity> Indicator<E> for Variance<E> {
    type Output = E;

    closed spec fn wf(&self) -> bool {
        let w = crate::stats::vals(self.queue@);
        &&& self.queue.wf()
        &&& self.len.val() == self.queue@.len()
        &&& self.s_x.val() == crate::stats::total(w)
        &&& self.s_xx.val() == crate::textbook::dot(w, w)
    }

    closed spec fn capacity(&self) -> nat {
        self.queue.capacity()
    }

    closed spec fn window(&self) -> Seq<E> {
        self.queue@
    }

    open spec fn valid_size(size: usize) -> bool {
        size >= 1
    }

    /// Every step on the way to the new sums must be in range.
    open spec fn accepts(&self, el: E) -> bool {
        crate::stats::variance_takes::<E>(
            crate::stats::vals(self.window()),
            self.capacity(),
            el.val(),
        )
    }

    /// Where the window holds two elements, every step on the way to the
    /// variance must be in range.
    open spec fn readable(&self) -> bool {
        self.window().len() >= 2 ==> crate::stats::spread_fits::<E>(
            crate::stats::vals(self.window()),
        ) && crate::stats::pairs_fit::<E>(self.window().len() as int)
    }

    /// The variance of the window, once it holds two elements.
    open spec fn reading(&self) -> Option<E> {
        if self.window().len() < 2 {
            None
        } else {
            Some(E::of_int(crate::stats::variance(crate::stats::vals(self.window()))))
        }
    }

    fn new(size: usize) -> (r: Result<Self, IndicatorError>)
        ensures
            r is Err ==> r == Err::<Self, IndicatorError>(IndicatorError::InvalidSize),
    {
        if size < 1 {
            return Err(IndicatorError::InvalidSize);
        }
        let r = Variance {
            queue: RotVec::with_capacity(size),
            s_x: E::zero(),
            s_xx: E::zero(),
            len: E::zero(),
        };
        proof {
            assert(crate::stats::vals(r.queue@) =~= Seq::<int>::empty());
        }
        Ok(r)
    }

    fn admits(&self, el: E) -> (r: bool) {
        self.after(el).is_some()
    }

    fn reads(&self) -> (r: bool) {
        if self.queue.len() < 2 {
            return true;
        }
        let one = E::one();
        proof {
            E::law_range(self.len);
            E::law_sub(self.len, one);
        }
        self.spread().is_some() && self.len.checked_mul(self.len - one).is_some()
    }

    fn next(&mut self, el: E) {
        let x = el;
        proof {
            self.lemma_slide(el);
            self.queue.lemma_bounded();
        }
        match self.queue.popush(el) {
            None => {
                let one = E::one();
                proof {
                    E::law_add(self.len, one);
                    E::law_add(self.s_x, x);
                    E::law_mul(x, x);
                    E::law_add(self.s_xx, x.mul_spec(x));
                }
                self.len = self.len + one;
                self.s_x = self.s_x + x;
                self.s_xx = self.s_xx + x * x;
            },
            Some(old_x) => {
                proof {
                    E::law_add(self.s_x, x);
                    E::law_sub(self.s_x.add_spec(x), old_x);
                    E::law_sub(x, old_x);
                    E::law_add(x, old_x);
                    E::law_mul(x.sub_spec(old_x), x.add_spec(old_x));
                    E::law_add(self.s_xx, x.sub_spec(old_x).mul_spec(x.add_spec(old_x)));
                }
                self.s_x = self.s_x + x - old_x;
                self.s_xx = self.s_xx + (x - old_x) * (x + old_x);
            },
        }
    }

    fn value(&self) -> (r: Option<E>)
        ensures
            r is Some ==> r.unwrap().val() == crate::stats::variance(
                crate::stats::vals(self.window()),
            ),
    {
        if self.queue.len() < 2 {
            return None;
        }
        let one = E::one();
        proof {
            let n = self.len.val();
            assert(crate::stats::vals(self.window()).len() == self.window().len());
            E::law_range(self.len);
            E::law_sub(self.len, one);
            E::law_mul(self.len, self.len.sub_spec(one));
            E::law_mul(self.len, self.s_xx);
            E::law_mul(self.s_x, self.s_x);
            E::law_sub(self.len.mul_spec(self.s_xx), self.s_x.mul_spec(self.s_x));
            assert(n * (n - 1) >= 2) by (nonlinear_arith)
                requires
                    n >= 2,
            ;
        }
        let up = self.len * self.s_xx - self.s_x * self.s_x;
        let down = self.len * (self.len - one);
        proof {
            E::law_div(up, down);
            E::law_range(up);
            crate::number::lemma_quotient_bounds(up.val(), down.val());
        }
        let variance = up / down;
        proof {
            crate::number::lemma_of_int(variance);
        }
        Some(variance)
    }
}

} // verus!
