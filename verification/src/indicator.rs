//! The interface that every streaming indicator offers.

use crate::number::Exact;
use vstd::prelude::*;

verus! {

/// Why an indicator could not be made.
#[derive(Debug, Clone, Copy, PartialEq, Eq, Structural)]
pub enum IndicatorError {
    /// The window size asked for is less than one.
    InvalidSize,
    /// The window size asked for is the greatest size of the machine, which
    /// leaves no room for the places of the heaps.
    SizeAtLimit,
}

impl IndicatorError {
    /// The error in words.
    pub fn message(&self) -> (r: &'static str)
        ensures
            r == match self {
                IndicatorError::InvalidSize => "Size cannot be smaller than 1!",
                IndicatorError::SizeAtLimit =>
                    "Size cannot be smaller than 1 or equal to usize::MAX!",
            },
    {
        match self {
            IndicatorError::InvalidSize => "Size cannot be smaller than 1!",
            IndicatorError::SizeAtLimit => {
                "Size cannot be smaller than 1 or equal to usize::MAX!"
            },
        }
    }
}

/// A statistic over the latest elements of a stream.
///
/// An indicator of size `N` looks at a window of the last `N` elements that
/// were handed to `next`. `value` reads the statistic of that window.
pub trait Indicator<E>: Sized {
    /// What `value` reads.
    type Output;

    /// The invariant of the indicator.
    spec fn wf(&self) -> bool;

    /// The size of the window.
    spec fn capacity(&self) -> nat;

    /// The elements in the window, oldest first.
    spec fn window(&self) -> Seq<E>;

    /// The window sizes that `new` accepts.
    spec fn valid_size(size: usize) -> bool;

    /// Whether the machine arithmetic that `next` does on `el` stays within
    /// the range of the element type.
    spec fn accepts(&self, el: E) -> bool;

    /// Whether the machine arithmetic that `value` does stays within the
    /// range of the element type.
    spec fn readable(&self) -> bool;

    /// The statistic of the window, if it has one yet.
    spec fn reading(&self) -> Option<Self::Output>;

    /// An indicator of window size `size` that has seen no element.
    fn new(size: usize) -> (r: Result<Self, IndicatorError>)
        ensures
            r is Ok <==> Self::valid_size(size),
            r is Ok ==> r.unwrap().wf() && r.unwrap().capacity() == size && r.unwrap().window()
                == Seq::<E>::empty(),
    ;

    /// Tests whether `next` may be handed `el`.
    fn admits(&self, el: E) -> (r: bool)
        requires
            self.wf(),
        ensures
            r == self.accepts(el),
    ;

    /// Tests whether `value` may be called.
    fn reads(&self) -> (r: bool)
        requires
            self.wf(),
        ensures
            r == self.readable(),
    ;

    /// Hands the next element of the stream to the indicator.
    fn next(&mut self, el: E)
        requires
            old(self).wf(),
            old(self).accepts(el),
        ensures
            final(self).wf(),
            final(self).capacity() == old(self).capacity(),
            final(self).window() == crate::window::slide(
                old(self).window(),
                old(self).capacity(),
                el,
            ),
    ;

    /// Reads the statistic of the window.
    fn value(&self) -> (r: Option<Self::Output>)
        requires
            self.wf(),
            self.readable(),
        ensures
            r == self.reading(),
    ;
}

} // verus!
