//! The covariance of a window of pairs.

use crate::indicator::{Indicator, IndicatorError};
use crate::number::{Bounded, Exact, Identity};
use crate::window::RotVec;
use vstd::prelude::*;
use vstd::std_specs::ops::{AddSpec, DivSpec, MulSpec, SubSpec};

verus! {

/// The running covariance of the last `N` pairs of a stream.
///
/// The indicator keeps the number of pairs in the window, the sums of their
/// two members and the sum of their products. When read it divides once:
/// the number of pairs times the sum of products, less the product of the
/// two sums, by the number of pairs times one less.
pub struct Covariance<E> {
    queue: RotVec<(E, E)>,
    s_x: E,
    s_y: E,
    s_xy: E,
    len: E,
}

impl<E: Identity> Covariance<E> {
    /// The number of pairs in the window.
    pub fn len(&self) -> (r: usize)
        requires
            self.wf(),
        ensures
            r == self.window().len(),
    {
        self.queue.len()
    }

    /// The number of pairs in the window, as an element.
    pub fn count(&self) -> (r: E)
        requires
            self.wf(),
        ensures
            r.val() == self.window().len(),
    {
        self.len
    }

    /// The sum of the first members of the window.
    pub fn x_total(&self) -> (r: E)
        requires
            self.wf(),
        ensures
            r.val() == crate::stats::total(crate::stats::firsts(self.window())),
    {
        self.s_x
    }

    /// The sum of the second members of the window.
    pub fn y_total(&self) -> (r: E)
        requires
            self.wf(),
        ensures
            r.val() == crate::stats::total(crate::stats::seconds(self.window())),
    {
        self.s_y
    }

    /// The number of pairs times the sum of their products, less the
    /// product of the two sums, where every step to it is in range.
    pub fn comoment(&self) -> (r: Option<E>)
        requires
            self.wf(),
        ensures
            r is Some <==> crate::stats::comoment_fits::<E>(
                crate::stats::firsts(self.window()),
                crate::stats::seconds(self.window()),
            ),
            r is Some ==> r.unwrap().val() == crate::stats::comoment(
                crate::stats::firsts(self.window()),
                crate::stats::seconds(self.window()),
            ),
    {
        let left = self.len.checked_mul(self.s_xy)?;
        let right = self.s_x.checked_mul(self.s_y)?;
        left.checked_sub(right)
    }

    /// A window is never longer than its capacity, which is at least one.
    pub proof fn lemma_bounded(&self)
        requires
            self.wf(),
        ensures
            self.window().len() <= self.capacity(),
            1 <= self.capacity() <= usize::MAX,
    {
        self.queue.lemma_bounded();
    }

    /// After a stream of at least two pairs, read by an indicator of size
    /// at least two, the indicator reads the covariance of the latest pairs
    /// of the stream: of the last `capacity`, or of all if there are fewer.
    pub proof fn lemma_reads_latest(&self, pairs: Seq<(E, E)>)
        requires
            self.wf(),
            self.window() == crate::window::feed(self.capacity(), pairs),
            pairs.len() >= 2,
            self.capacity() >= 2,
        ensures
            self.reading() == Some(
                E::of_int(
                    crate::stats::covariance(
                        crate::stats::firsts(crate::window::last_n(pairs, self.capacity())),
                        crate::stats::seconds(crate::window::last_n(pairs, self.capacity())),
                    ),
                ),
            ),
    {
        crate::window::lemma_feed_keeps_latest(self.capacity(), pairs);
    }

    /// How the sums over the window move when the pair `el` arrives.
    proof fn lemma_slide(&self, el: (E, E))
        requires
            self.wf(),
        ensures
            ({
                let wx = crate::stats::firsts(self.window());
                let wy = crate::stats::seconds(self.window());
                let after = crate::window::slide(self.window(), self.capacity(), el);
                let vx = crate::stats::firsts(after);
                let vy = crate::stats::seconds(after);
                let x = el.0.val();
                let y = el.1.val();
                &&& wx.len() == self.window().len()
                &&& wy.len() == self.window().len()
                &&& if self.window().len() < self.capacity() {
                    &&& vx.len() == wx.len() + 1
                    &&& crate::stats::total(vx) == crate::stats::total(wx) + x
                    &&& crate::stats::total(vy) == crate::stats::total(wy) + y
                    &&& crate::textbook::dot(vx, vy) == crate::textbook::dot(wx, wy) + x * y
                } else {
                    &&& vx.len() == wx.len()
                    &&& crate::stats::total(vx) == crate::stats::total(wx) + x - wx[0]
                    &&& crate::stats::total(vy) == crate::stats::total(wy) + y - wy[0]
                    &&& crate::textbook::dot(vx, vy) == crate::textbook::dot(wx, wy) + x * y
                        - wx[0] * wy[0]
                }
            }),
    {
        let w = self.window();
        let capacity = self.capacity();
        self.queue.lemma_bounded();
        crate::stats::lemma_pairs_slide(w, capacity, el);
        crate::stats::lemma_total_slide(crate::stats::firsts(w), capacity, el.0.val());
        crate::stats::lemma_total_slide(crate::stats::seconds(w), capacity, el.1.val());
        crate::textbook::lemma_dot_slide(
            crate::stats::firsts(w),
            crate::stats::seconds(w),
            capacity,
            el.0.val(),
            el.1.val(),
        );
    }

    /// The number of pairs and the sums after `el` has arrived, where every
    /// step to them is in range.
    fn after(&self, el: (E, E)) -> (r: Option<(E, E, E, E)>)
        requires
            self.wf(),
        ensures
            r is Some <==> self.accepts(el),
    {
        let (x, y) = el;
        proof {
            self.queue.lemma_bounded();
        }
        match self.queue.back() {
            None => {
                let len = self.len.checked_add(E::one())?;
                let s_x = self.s_x.checked_add(x)?;
                let s_y = self.s_y.checked_add(y)?;
                let xy = x.checked_mul(y)?;
                let s_xy = self.s_xy.checked_add(xy)?;
                Some((len, s_x, s_y, s_xy))
            },
            Some((old_x, old_y)) => {
                let s_x = self.s_x.checked_add(x)?.checked_sub(old_x)?;
                let s_y = self.s_y.checked_add(y)?.checked_sub(old_y)?;
                let xy = x.checked_mul(y)?;
                let s_xy = self.s_xy.checked_add(xy)?;
                let old_xy = old_x.checked_mul(old_y)?;
                let s_xy = s_xy.checked_sub(old_xy)?;
                Some((self.len, s_x, s_y, s_xy))
            },
        }
    }
}

impl<E: Identity> Indicator<(E, E)> for Covariance<E> {
    type Output = E;

    closed spec fn wf(&self) -> bool {
        let wx = crate::stats::firsts(self.queue@);
        let wy = crate::stats::seconds(self.queue@);
        &&& self.queue.wf()
        &&& self.len.val() == self.queue@.len()
        &&& self.s_x.val() == crate::stats::total(wx)
        &&& self.s_y.val() == crate::stats::total(wy)
        &&& self.s_xy.val() == crate::textbook::dot(wx, wy)
    }

    closed spec fn capacity(&self) -> nat {
        self.queue.capacity()
    }

    closed spec fn window(&self) -> Seq<(E, E)> {
        self.queue@
    }

    open spec fn valid_size(size: usize) -> bool {
        size >= 1
    }

    /// Every step on the way to the new sums must be in range.
    open spec fn accepts(&self, el: (E, E)) -> bool {
        crate::stats::covariance_takes::<E>(
            crate::stats::firsts(self.window()),
            crate::stats::seconds(self.window()),
            self.capacity(),
            el.0.val(),
            el.1.val(),
        )
    }

    /// Where the window holds two pairs, every step on the way to the
    /// covariance must be in range.
    open spec fn readable(&self) -> bool {
        self.window().len() >= 2 ==> crate::stats::comoment_fits::<E>(
            crate::stats::firsts(self.window()),
            crate::stats::seconds(self.window()),
        ) && crate::stats::pairs_fit::<E>(self.window().len() as int)
    }

    /// The covariance of the window, once it holds two pairs.
    open spec fn reading(&self) -> Option<E> {
        if self.window().len() < 2 {
            None
        } else {
            Some(
                E::of_int(
                    crate::stats::covariance(
                        crate::stats::firsts(self.window()),
                        crate::stats::seconds(self.window()),
                    ),
                ),
            )
        }
    }

    fn new(size: usize) -> (r: Result<Self, IndicatorError>)
        ensures
            r is Err ==> r == Err::<Self, IndicatorError>(IndicatorError::InvalidSize),
    {
        if size < 1 {
            return Err(IndicatorError::InvalidSize);
        }
        let r = Covariance {
            queue: RotVec::with_capacity(size),
            s_x: E::zero(),
            s_y: E::zero(),
            s_xy: E::zero(),
            len: E::zero(),
        };
        proof {
            assert(crate::stats::firsts(r.queue@) =~= Seq::<int>::empty());
            assert(crate::stats::seconds(r.queue@) =~= Seq::<int>::empty());
        }
        Ok(r)
    }

    fn admits(&self, el: (E, E)) -> (r: bool) {
        self.after(el).is_some()
    }

    fn reads(&self) -> (r: bool) {
        if self.queue.len() < 2 {
            return true;
        }
        let one = E::one();
        proof {
            E::law_range(self.len);
            E::law_sub(self.len, one);
        }
        self.comoment().is_some() && self.len.checked_mul(self.len - one).is_some()
    }

    fn next(&mut self, el: (E, E)) {
        let (x, y) = el;
        proof {
            self.lemma_slide(el);
            self.queue.lemma_bounded();
        }
        match self.queue.popush(el) {
            None => {
                let one = E::one();
                proof {
                    E::law_add(self.len, one);
                    E::law_add(self.s_x, x);
                    E::law_add(self.s_y, y);
                    E::law_mul(x, y);
                    E::law_add(self.s_xy, x.mul_spec(y));
                }
                self.len = self.len + one;
                self.s_x = self.s_x + x;
                self.s_y = self.s_y + y;
                self.s_xy = self.s_xy + x * y;
            },
            Some((old_x, old_y)) => {
                proof {
                    E::law_add(self.s_x, x);
                    E::law_sub(self.s_x.add_spec(x), old_x);
                    E::law_add(self.s_y, y);
                    E::law_sub(self.s_y.add_spec(y), old_y);
                    E::law_mul(x, y);
                    E::law_add(self.s_xy, x.mul_spec(y));
                    E::law_mul(old_x, old_y);
                    E::law_sub(self.s_xy.add_spec(x.mul_spec(y)), old_x.mul_spec(old_y));
                }
                self.s_x = self.s_x + x - old_x;
                self.s_y = self.s_y + y - old_y;
                self.s_xy = self.s_xy + x * y - old_x * old_y;
            },
        }
    }

    fn value(&self) -> (r: Option<E>)
        ensures
            r is Some ==> r.unwrap().val() == crate::stats::covariance(
                crate::stats::firsts(self.window()),
                crate::stats::seconds(self.window()),
            ),
    {
        if self.queue.len() < 2 {
            return None;
        }
        let one = E::one();
        proof {
            let n = self.len.val();
            E::law_range(self.len);
            E::law_sub(self.len, one);
            E::law_mul(self.len, self.len.sub_spec(one));
            E::law_mul(self.len, self.s_xy);
            E::law_mul(self.s_x, self.s_y);
            E::law_sub(self.len.mul_spec(self.s_xy), self.s_x.mul_spec(self.s_y));
            assert(n * (n - 1) >= 2) by (nonlinear_arith)
                requires
                    n >= 2,
            ;
        }
        let up = self.len * self.s_xy - self.s_x * self.s_y;
        let down = self.len * (self.len - one);
        proof {
            E::law_div(up, down);
            E::law_range(up);
            crate::number::lemma_quotient_bounds(up.val(), down.val());
        }
        let covariance = up / down;
        proof {
            crate::number::lemma_of_int(covariance);
        }
        Some(covariance)
    }
}

} // verus!
