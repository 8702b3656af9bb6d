//! A sliding window of fixed capacity over a stream.

use vstd::prelude::*;

verus! {

/// The window that follows `w` once `x` has arrived: `x` is appended, and the
/// oldest element leaves if the window already held `capacity` elements.
pub open spec fn slide<T>(w: Seq<T>, capacity: nat, x: T) -> Seq<T> {
    if w.len() < capacity {
        w.push(x)
    } else {
        w.subrange(1, w.len() as int).push(x)
    }
}

/// The last `n` elements of `xs`, or all of them if there are fewer.
pub open spec fn last_n<T>(xs: Seq<T>, n: nat) -> Seq<T> {
    if xs.len() <= n {
        xs
    } else {
        xs.subrange(xs.len() - n, xs.len() as int)
    }
}

/// The window after every element of `xs` has arrived in turn, starting from
/// an empty window.
pub open spec fn feed<T>(capacity: nat, xs: Seq<T>) -> Seq<T>
    decreases xs.len(),
{
    if xs.len() == 0 {
        Seq::empty()
    } else {
        slide(feed(capacity, xs.drop_last()), capacity, xs.last())
    }
}

/// A window of capacity at least one always holds the latest elements of its
/// stream: after `k` arrivals the last `min(k, capacity)` of them, oldest first.
pub proof fn lemma_feed_keeps_latest<T>(capacity: nat, xs: Seq<T>)
    requires
        capacity >= 1,
    ensures
        feed(capacity, xs) == last_n(xs, capacity),
    decreases xs.len(),
{
    if xs.len() > 0 {
        let before = xs.drop_last();
        lemma_feed_keeps_latest(capacity, before);
        assert(slide(last_n(before, capacity), capacity, xs.last()) =~= last_n(xs, capacity));
    }
}

/// The element that leaves when the stream `xs` is followed by one more
/// arrival: none while fewer than `capacity` elements have arrived, then the
/// one that arrived `capacity` arrivals ago.
pub proof fn lemma_evicted_is_oldest<T>(capacity: nat, xs: Seq<T>)
    requires
        capacity >= 1,
        xs.len() >= capacity,
    ensures
        feed(capacity, xs).len() == capacity,
        feed(capacity, xs)[0] == xs[xs.len() - capacity],
{
    lemma_feed_keeps_latest(capacity, xs);
}

/// A ring of at most `capacity` elements that keeps the latest arrivals.
pub struct RotVec<T> {
    data: Vec<T>,
    position: usize,
    size: usize,
}

impl<T: Copy> RotVec<T> {
    /// The invariant of the ring.
    pub closed spec fn wf(&self) -> bool {
        &&& self.size >= 1
        &&& self.data.len() <= self.size
        &&& self.position < self.size
        &&& self.data.len() < self.size ==> self.position == 0
    }

    /// The number of elements the ring holds at most.
    pub closed spec fn capacity(&self) -> nat {
        self.size as nat
    }

    /// The elements in the ring, oldest first.
    pub closed spec fn view(&self) -> Seq<T> {
        self.data@.subrange(self.position as int, self.data.len() as int) + self.data@.subrange(
            0,
            self.position as int,
        )
    }

    /// A well-formed ring never holds more than its capacity.
    pub proof fn lemma_bounded(&self)
        requires
            self.wf(),
        ensures
            self@.len() <= self.capacity(),
            self.capacity() >= 1,
            self.capacity() <= usize::MAX,
    {
    }

    /// An empty ring for `size` elements.
    pub fn with_capacity(size: usize) -> (r: Self)
        requires
            size >= 1,
        ensures
            r.wf(),
            r.capacity() == size,
            r@ == Seq::<T>::empty(),
    {
        let r = RotVec { data: Vec::with_capacity(size), position: 0, size };
        assert(r@ =~= Seq::<T>::empty());
        r
    }

    /// Puts `el` into the ring. Once the ring is full the oldest element
    /// makes room for it and is returned.
    pub fn popush(&mut self, el: T) -> (evicted: Option<T>)
        requires
            old(self).wf(),
        ensures
            final(self).wf(),
            final(self).capacity() == old(self).capacity(),
            final(self)@ == slide(old(self)@, old(self).capacity(), el),
            evicted == if old(self)@.len() == old(self).capacity() {
                Some(old(self)@[0])
            } else {
                None
            },
    {
        if self.full() {
            let old_el = self.data[self.position];
            self.data[self.position] = el;
            proof {
                if self.position + 1 < self.size {
                    vstd::arithmetic::div_mod::lemma_small_mod(
                        (self.position + 1) as nat,
                        self.size as nat,
                    );
                } else {
                    vstd::arithmetic::div_mod::lemma_mod_self_0(self.size as int);
                }
            }
            self.position = (self.position + 1) % self.size;
            assert(self@ =~= slide(old(self)@, old(self).capacity(), el));
            Some(old_el)
        } else {
            self.data.push(el);
            assert(self@ =~= slide(old(self)@, old(self).capacity(), el));
            None
        }
    }

    /// The oldest element, once the ring is full.
    pub fn back(&self) -> (r: Option<T>)
        requires
            self.wf(),
        ensures
            r == if self@.len() == self.capacity() {
                Some(self@[0])
            } else {
                None
            },
    {
        if self.full() {
            Some(self.data[self.position])
        } else {
            None
        }
    }

    /// Whether the ring holds as many elements as it can.
    pub fn full(&self) -> (r: bool)
        requires
            self.wf(),
        ensures
            r == (self@.len() == self.capacity()),
    {
        self.data.len() == self.size
    }

    /// The number of elements in the ring.
    pub fn len(&self) -> (r: usize)
        requires
            self.wf(),
        ensures
            r == self@.len(),
    {
        self.data.len()
    }
}

} // verus!
