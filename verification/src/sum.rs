//! The sum of a window.

use crate::indicator::{Indicator, IndicatorError};
use crate::number::{Bounded, Exact};
use crate::window::RotVec;
use vstd::prelude::*;
use vstd::std_specs::ops::{AddSpec, SubSpec};

verus! {

/// The running sum of the last `N` elements of a stream.
pub struct Sum<E> {
    queue: RotVec<E>,
    sum: Option<E>,
}

impl<E: Exact> Sum<E> {
    /// The number of elements in the window.
    pub fn len(&self) -> (r: usize)
        requires
            self.wf(),
        ensures
            r == self.window().len(),
    {
        self.queue.len()
    }

    /// Whether the window holds as many elements as it can.
    pub fn full(&self) -> (r: bool)
        requires
            self.wf(),
        ensures
            r == (self.window().len() == self.capacity()),
    {
        self.queue.full()
    }

    /// The sum that the indicator would hold after `el`, where `next` may
    /// be handed `el`.
    pub fn after(&self, el: E) -> (r: Option<E>)
        requires
            self.wf(),
        ensures
            r is Some <==> self.accepts(el),
            r is Some ==> r.unwrap().val() == crate::stats::total(
                crate::stats::vals(
                    crate::window::slide(self.window(), self.capacity(), el),
                ),
            ),
    {
        proof {
            self.queue.lemma_bounded();
            crate::stats::lemma_vals_slide(self.window(), self.capacity(), el);
            crate::stats::lemma_total_slide(
                crate::stats::vals(self.window()),
                self.capacity(),
                el.val(),
            );
        }
        match self.sum {
            None => {
                proof {
                    assert(crate::stats::vals(self.window()) =~= Seq::<int>::empty());
                }
                Some(el)
            },
            Some(sum) => match self.queue.back() {
                Some(old) => match el.checked_sub(old) {
                    Some(d) => sum.checked_add(d),
                    None => None,
                },
                None => sum.checked_add(el),
            },
        }
    }

    /// What the indicator reads stands for the sum of the window.
    pub proof fn lemma_reading(&self)
        requires
            self.wf(),
            self.window().len() >= 1,
        ensures
            self.reading() is Some,
            self.reading().unwrap().val() == crate::stats::total(
                crate::stats::vals(self.window()),
            ),
    {
        crate::number::lemma_of_int(self.sum.unwrap());
    }

    /// After a stream of at least one element the indicator reads the sum of
    /// the latest elements of the stream: of the last `capacity`, or of all
    /// if there are fewer.
    pub proof fn lemma_reads_latest(&self, xs: Seq<E>)
        requires
            self.wf(),
            self.window() == crate::window::feed(self.capacity(), xs),
            xs.len() >= 1,
        ensures
            self.reading() == Some(
                E::of_int(
                    crate::stats::total(
                        crate::stats::vals(crate::window::last_n(xs, self.capacity())),
                    ),
                ),
            ),
    {
        self.lemma_bounded();
        crate::window::lemma_feed_keeps_latest(self.capacity(), xs);
    }

    /// A window is never longer than its capacity, which is at least one.
    pub proof fn lemma_bounded(&self)
        requires
            self.wf(),
        ensures
            self.window().len() <= self.capacity(),
            1 <= self.capacity() <= usize::MAX,
    {
        self.queue.lemma_bounded();
    }
}

impl<E: Exact> Indicator<E> for Sum<E> {
    type Output = E;

    closed spec fn wf(&self) -> bool {
        &&& self.queue.wf()
        &&& self.sum is None <==> self.queue@.len() == 0
        &&& self.sum is Some ==> self.sum.unwrap().val() == crate::stats::total(
            crate::stats::vals(self.queue@),
        )
    }

    closed spec fn capacity(&self) -> nat {
        self.queue.capacity()
    }

    closed spec fn window(&self) -> Seq<E> {
        self.queue@
    }

    open spec fn valid_size(size: usize) -> bool {
        size >= 1
    }

    /// The difference between the element that arrives and the one that
    /// leaves, and the new sum, must both be in range.
    open spec fn accepts(&self, el: E) -> bool {
        let w = self.window();
        let sum = crate::stats::total(crate::stats::vals(w));
        if w.len() == 0 {
            true
        } else if w.len() == self.capacity() {
            E::fits(el.val() - w[0].val()) && E::fits(sum + (el.val() - w[0].val()))
        } else {
            E::fits(sum + el.val())
        }
    }

    open spec fn readable(&self) -> bool {
        true
    }

    /// The sum of the window, once an element has arrived.
    open spec fn reading(&self) -> Option<E> {
        if self.window().len() == 0 {
            None
        } else {
            Some(E::of_int(crate::stats::total(crate::stats::vals(self.window()))))
        }
    }

    fn new(size: usize) -> (r: Result<Self, IndicatorError>)
        ensures
            r is Err ==> r == Err::<Self, IndicatorError>(IndicatorError::InvalidSize),
    {
        if size < 1 {
            Err(IndicatorError::InvalidSize)
        } else {
            Ok(Sum { queue: RotVec::with_capacity(size), sum: None })
        }
    }

    fn admits(&self, el: E) -> (r: bool) {
        self.after(el).is_some()
    }

    fn reads(&self) -> (r: bool) {
        true
    }

    fn next(&mut self, el: E) {
        let full = self.queue.full();
        let ghost w = self.queue@;
        let ghost capacity = self.queue.capacity();
        proof {
            self.queue.lemma_bounded();
            crate::stats::lemma_vals_slide(w, capacity, el);
            crate::stats::lemma_total_slide(crate::stats::vals(w), capacity, el.val());
        }
        let old_el = self.queue.popush(el);
        self.sum = Some(
            if let Some(sum) = self.sum {
                sum + if full {
                    proof {
                        E::law_sub(el, old_el.unwrap());
                        E::law_add(sum, el.sub_spec(old_el.unwrap()));
                    }
                    el - old_el.unwrap()
                } else {
                    proof {
                        E::law_add(sum, el);
                    }
                    el
                }
            } else {
                proof {
                    assert(crate::stats::vals(w) =~= Seq::<int>::empty());
                }
                el
            },
        );
    }

    fn value(&self) -> (r: Option<E>)
        ensures
            r is Some ==> r.unwrap().val() == crate::stats::total(
                crate::stats::vals(self.window()),
            ),
    {
        proof {
            if self.sum is Some {
                crate::number::lemma_of_int(self.sum.unwrap());
            }
        }
        self.sum
    }
}

} // verus!
