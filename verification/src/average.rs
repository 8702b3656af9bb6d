//! The mean of a window.

use crate::indicator::{Indicator, IndicatorError};
use crate::number::{Bounded, Dividable, Exact, Identity};
use crate::sum::Sum;
use vstd::prelude::*;
use vstd::std_specs::ops::{AddSpec, DivSpec};

verus! {

/// The running mean of the last `N` elements of a stream: their sum divided
/// by their number, rounded toward zero.
pub struct Average<E: Dividable> {
    sum: Sum<E>,
    len: E::Divider,
}

impl<E> Average<E> where E: Dividable, E::Divider: Identity {
    /// The number of elements in the window.
    pub fn len(&self) -> (r: usize)
        requires
            self.wf(),
        ensures
            r == self.window().len(),
    {
        self.sum.len()
    }

    /// The mean that the indicator would read after `el`, where `next` may
    /// be handed `el`.
    pub fn after(&self, el: E) -> (r: Option<E>)
        requires
            self.wf(),
        ensures
            r is Some <==> self.accepts(el),
            r is Some ==> r.unwrap().val() == crate::stats::mean(
                crate::stats::vals(
                    crate::window::slide(self.window(), self.capacity(), el),
                ),
            ),
    {
        proof {
            self.sum.lemma_bounded();
        }
        let len = if self.sum.full() {
            self.len
        } else {
            match self.len.checked_add(E::Divider::one()) {
                Some(len) => len,
                None => { return None; },
            }
        };
        match self.sum.after(el) {
            Some(sum) => {
                proof {
                    E::law_share(sum, len);
                    E::law_range(sum);
                    crate::number::lemma_quotient_bounds(sum.val(), len.val());
                }
                Some(sum / len)
            },
            None => None,
        }
    }

    /// What the indicator reads stands for the mean of the window.
    pub proof fn lemma_reading(&self)
        requires
            self.wf(),
            self.window().len() >= 1,
        ensures
            self.reading() is Some,
            self.reading().unwrap().val() == crate::stats::mean(
                crate::stats::vals(self.window()),
            ),
    {
        self.sum.lemma_reading();
        let sum = self.sum.reading().unwrap();
        E::law_share(sum, self.len);
        E::law_range(sum);
        crate::number::lemma_quotient_bounds(sum.val(), self.len.val());
        crate::number::lemma_of_int(sum.div_spec(self.len));
    }

    /// The mean is the sum divided by the number of elements: what this
    /// indicator reads is what a `Sum` over the same window reads, divided
    /// by the number of elements in the window and rounded toward zero.
    pub proof fn lemma_mean_of_sum(&self, sum: &Sum<E>)
        requires
            self.wf(),
            sum.wf(),
            self.window() == sum.window(),
            self.window().len() >= 1,
        ensures
            self.reading() is Some,
            sum.reading() is Some,
            self.reading().unwrap().val() == crate::number::quotient(
                sum.reading().unwrap().val(),
                self.window().len() as int,
            ),
    {
        self.lemma_reading();
        sum.lemma_reading();
        assert(crate::stats::vals(self.window()).len() == self.window().len());
    }

    /// A window is never longer than its capacity, which is at least one.
    pub proof fn lemma_bounded(&self)
        requires
            self.wf(),
        ensures
            self.window().len() <= self.capacity(),
            1 <= self.capacity() <= usize::MAX,
    {
        self.sum.lemma_bounded();
    }
}

impl<E> Indicator<E> for Average<E> where E: Dividable, E::Divider: Identity {
    type Output = E;

    closed spec fn wf(&self) -> bool {
        &&& self.sum.wf()
        &&& self.len.val() == self.sum.window().len()
    }

    closed spec fn capacity(&self) -> nat {
        self.sum.capacity()
    }

    closed spec fn window(&self) -> Seq<E> {
        self.sum.window()
    }

    open spec fn valid_size(size: usize) -> bool {
        size >= 1
    }

    /// The new sum must be in range, as for `Sum`, and so must the new number
    /// of elements.
    open spec fn accepts(&self, el: E) -> bool {
        let w = self.window();
        let sum = crate::stats::total(crate::stats::vals(w));
        &&& w.len() < self.capacity() ==> E::Divider::fits(w.len() as int + 1)
        &&& if w.len() == 0 {
            true
        } else if w.len() == self.capacity() {
            E::fits(el.val() - w[0].val()) && E::fits(sum + (el.val() - w[0].val()))
        } else {
            E::fits(sum + el.val())
        }
    }

    open spec fn readable(&self) -> bool {
        true
    }

    /// The mean of the window, once an element has arrived.
    open spec fn reading(&self) -> Option<E> {
        if self.window().len() == 0 {
            None
        } else {
            Some(E::of_int(crate::stats::mean(crate::stats::vals(self.window()))))
        }
    }

    fn new(size: usize) -> (r: Result<Self, IndicatorError>)
        ensures
            r is Err ==> r == Err::<Self, IndicatorError>(IndicatorError::InvalidSize),
    {
        match Sum::new(size) {
            Ok(sum) => Ok(Average { sum, len: E::Divider::zero() }),
            Err(e) => Err(e),
        }
    }

    fn admits(&self, el: E) -> (r: bool) {
        self.after(el).is_some()
    }

    fn reads(&self) -> (r: bool) {
        true
    }

    fn next(&mut self, el: E) {
        proof {
            self.sum.lemma_bounded();
        }
        if !self.sum.full() {
            let one = E::Divider::one();
            proof {
                E::Divider::law_add(self.len, one);
            }
            self.len = self.len + one;
        }
        self.sum.next(el);
    }

    fn value(&self) -> (r: Option<E>)
        ensures
            r is Some ==> r.unwrap().val() == crate::stats::mean(
                crate::stats::vals(self.window()),
            ),
    {
        match self.sum.value() {
            Some(sum) => {
                proof {
                    E::law_share(sum, self.len);
                    E::law_range(sum);
                    crate::number::lemma_quotient_bounds(sum.val(), self.len.val());
                }
                let mean = sum / self.len;
                proof {
                    crate::number::lemma_of_int(mean);
                }
                Some(mean)
            },
            None => None,
        }
    }
}

} // verus!
