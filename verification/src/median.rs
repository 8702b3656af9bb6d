//! The median of a window.

use crate::indicator::{Indicator, IndicatorError};
use crate::number::{Bounded, Dividable, Exact, Identity};
use std::ops::Div;
use vstd::prelude::*;
use vstd::std_specs::ops::{AddSpec, DivSpec};

verus! {

/// The running median of the last `N` elements of a stream.
///
/// The elements of the window lie in `data`, a ring that `idx` walks. They
/// are ordered by two heaps that share one array, addressed by a place that
/// is zero for the pivot, positive in the heap of the elements above the
/// pivot, whose least element is at place 1, and negative in the heap of the
/// elements below it, whose greatest element is at place -1.
/// `allocated_heap` maps a place, shifted by half the size, to the slot in
/// `data` that holds the element at that place; `pos` maps a slot back to
/// its place.
pub struct Median<E> {
    data: Vec<E>,
    pos: Vec<isize>,
    allocated_heap: Vec<usize>,
    size: usize,
    min_ct: isize,
    max_ct: isize,
    idx: usize,
}

/// The place that slot `s` has before any element has moved.
spec fn seed(s: int) -> int {
    if s % 2 == 0 {
        (s + 1) / 2
    } else {
        -((s + 1) / 2)
    }
}

/// The slot whose seed is place `i`.
spec fn unseed(i: int) -> int {
    if i > 0 {
        2 * i
    } else if i < 0 {
        -2 * i - 1
    } else {
        0
    }
}

/// A place as an integer.
spec fn place(i: isize) -> int {
    i as int
}

/// The place next to `i` on the way to the pivot.
spec fn parent(i: int) -> int {
    if i >= 0 {
        i / 2
    } else {
        -((-i) / 2)
    }
}

/// A cursor that walks a ring of `n` slots goes from the last slot to the
/// first.
proof fn lemma_wrap(i: usize, n: usize)
    requires
        i < n,
    ensures
        (i + 1) % (n as int) == if i + 1 < n {
            i + 1
        } else {
            0
        },
{
    if i + 1 < n {
        vstd::arithmetic::div_mod::lemma_small_mod((i + 1) as nat, n as nat);
    } else {
        vstd::arithmetic::div_mod::lemma_mod_self_0(n as int);
    }
}

/// Half of `i`, rounded toward zero: the place next to `i` on the way to the
/// pivot.
fn halve(i: isize) -> (r: isize)
    ensures
        r == parent(i as int),
{
    i.div(2)
}

impl<E> Median<E> where E: Dividable, E::Divider: Identity {
    /// The number of places below the pivot.
    spec fn half(&self) -> int {
        self.size as int / 2
    }

    /// The number of places above the pivot.
    spec fn top(&self) -> int {
        (self.size as int - 1) / 2
    }

    /// The slot of the element at place `i`.
    spec fn slot(&self, i: int) -> int {
        self.allocated_heap@[i + self.half()] as int
    }

    /// The integer that the element at place `i` stands for.
    spec fn key(&self, i: int) -> int {
        self.data@[self.slot(i)].val()
    }

    /// Whether place `i` holds an element of the window.
    spec fn occupied(&self, i: int) -> bool {
        self.data.len() >= 1 && -self.max_ct <= i <= self.min_ct
    }

    /// The sizes of the arrays, the cursor and the two counts fit together.
    spec fn shape(&self) -> bool {
        &&& 1 <= self.size < usize::MAX
        &&& self.allocated_heap.len() == self.size
        &&& self.pos.len() == self.size
        &&& self.data.len() <= self.size
        &&& self.idx < self.size
        &&& self.data.len() < self.size ==> self.idx == self.data.len()
        &&& self.max_ct == self.data.len() as int / 2
        &&& self.min_ct == if self.data.len() == 0 {
            0
        } else {
            (self.data.len() as int - 1) / 2
        }
    }

    /// `pos` and `allocated_heap` are inverse to each other.
    spec fn linked(&self) -> bool {
        &&& forall|s: int|
            0 <= s < self.size ==> -self.half() <= #[trigger] self.pos@[s] <= self.top()
                && self.allocated_heap@[self.pos@[s] + self.half()] == s
        &&& forall|j: int|
            0 <= j < self.size ==> 0 <= #[trigger] self.allocated_heap@[j] < self.size
                && self.pos@[self.allocated_heap@[j] as int] == j - self.half()
    }

    /// The slots that hold an element are those at the places nearest to
    /// the pivot, and the others are still at their seeds.
    spec fn filled(&self) -> bool {
        &&& forall|s: int|
            0 <= s < self.size ==> (s < self.data.len() <==> self.occupied(
                #[trigger] self.pos@[s] as int,
            ))
        &&& forall|s: int|
            self.data.len() <= s < self.size ==> #[trigger] self.pos@[s] == seed(s)
    }

    /// The invariant of the two index arrays.
    spec fn structure(&self) -> bool {
        &&& self.shape()
        &&& self.linked()
        &&& self.filled()
    }

    /// The element at place `j` and the one next to it on the way to the
    /// pivot are in order: above the pivot no element is less than the one
    /// before it, below the pivot none is greater.
    spec fn edge_ok(&self, j: int) -> bool {
        if j > 0 {
            self.key(parent(j)) <= self.key(j)
        } else {
            self.key(j) <= self.key(parent(j))
        }
    }

    /// The two elements next to place `x` on either side of it, of which `j`
    /// is the one farther from the pivot, are in order.
    spec fn cross_ok(&self, x: int, j: int) -> bool {
        if x > 0 {
            self.key(parent(x)) <= self.key(j)
        } else if x < 0 {
            self.key(j) <= self.key(parent(x))
        } else {
            self.key(-1) <= self.key(1)
        }
    }

    /// Both heaps are in order, and the pivot lies between them.
    spec fn ordered(&self) -> bool {
        forall|j: int| self.occupied(j) && j != 0 ==> #[trigger] self.edge_ok(j)
    }

    /// The heaps are in order but for the element at place `x`: all the
    /// others are in order among themselves, also across `x`.
    spec fn hole(&self, x: int) -> bool {
        &&& forall|j: int|
            self.occupied(j) && j != 0 && j != x && parent(j) != x ==> #[trigger] self.edge_ok(j)
        &&& x != 0 ==> forall|j: int|
            self.occupied(j) && j != 0 && parent(j) == x ==> #[trigger] self.cross_ok(x, j)
        &&& x == 0 && self.occupied(-1) && self.occupied(1) ==> self.cross_ok(0, 1)
    }

    /// The elements just beyond place `x`, seen from the pivot, are in order
    /// with the element at `x`: those above the pivot if `above`, else those
    /// below it.
    spec fn kids_ok(&self, x: int, above: bool) -> bool {
        forall|j: int|
            self.occupied(j) && j != 0 && parent(j) == x && (above <==> j > 0)
                ==> #[trigger] self.edge_ok(j)
    }

    /// Whether `other` holds the same keys but at the places `i` and `j`,
    /// where they are exchanged.
    spec fn swapped(&self, other: &Self, i: int, j: int) -> bool {
        &&& self.same_window(other)
        &&& self.key(i) == other.key(j)
        &&& self.key(j) == other.key(i)
        &&& forall|x: int|
            self.occupied(x) && x != i && x != j ==> #[trigger] self.key(x) == other.key(x)
    }

    /// Whether the places from `lo` to `hi` lead to the same slots as in
    /// `other`.
    spec fn keeps(&self, other: &Self, lo: int, hi: int) -> bool {
        forall|x: int|
            -self.half() <= x <= self.top() && lo <= x <= hi ==> #[trigger] self.slot(x)
                == other.slot(x)
    }

    /// Whether `other` has the same elements, counts and cursor.
    spec fn same_window(&self, other: &Self) -> bool {
        &&& self.data == other.data
        &&& self.size == other.size
        &&& self.min_ct == other.min_ct
        &&& self.max_ct == other.max_ct
        &&& self.idx == other.idx
    }

    /// A place leads to a slot, and the slot back to the place.
    proof fn lemma_link(&self, i: int)
        requires
            self.shape(),
            self.linked(),
            -self.half() <= i <= self.top(),
        ensures
            0 <= self.slot(i) < self.size,
            self.pos@[self.slot(i)] == i,
            self.half() + self.top() + 1 == self.size,
    {
        let j = i + self.half();
        assert(0 <= self.allocated_heap@[j] < self.size);
        let s = self.allocated_heap@[j] as int;
        assert(self.pos@[s] == i);
    }

    /// An occupied place leads to a slot that holds an element, and back.
    proof fn lemma_slot(&self, i: int)
        requires
            self.structure(),
            -self.half() <= i <= self.top(),
        ensures
            0 <= self.slot(i) < self.size,
            self.pos@[self.slot(i)] == i,
            self.occupied(i) ==> self.slot(i) < self.data.len(),
            -self.half() <= -self.max_ct,
            self.min_ct <= self.top(),
            self.half() + self.top() + 1 == self.size,
    {
        let j = i + self.half();
        assert(0 <= self.allocated_heap@[j] < self.size);
        let s = self.allocated_heap@[j] as int;
        assert(self.pos@[s] == i);
    }

    /// The index in `allocated_heap` that stands for place `i`.
    fn shifted(&self, i: isize) -> (r: usize)
        requires
            self.size < usize::MAX,
            -self.half() <= i,
            i + self.half() < self.size,
        ensures
            r == i + self.half(),
    {
        if i >= 0 {
            self.size / 2 + i as usize
        } else {
            self.size / 2 - (-i) as usize
        }
    }

    fn below(&self) -> (r: isize)
        requires
            1 <= self.size < usize::MAX,
        ensures
            r == self.half(),
    {
        (self.size / 2) as isize
    }

    fn above(&self) -> (r: isize)
        requires
            1 <= self.size < usize::MAX,
        ensures
            r == self.top(),
    {
        ((self.size - 1) / 2) as isize
    }

    fn heap(&self, i: isize) -> (r: usize)
        requires
            self.shape(),
            -self.half() <= i <= self.top(),
        ensures
            r == self.slot(i as int),
    {
        self.allocated_heap[self.shifted(i)]
    }

    fn heap_set(&mut self, i: isize, el: usize)
        requires
            old(self).allocated_heap.len() == old(self).size,
            old(self).size < usize::MAX,
            -old(self).half() <= i,
            i + old(self).half() < old(self).size,
        ensures
            final(self).allocated_heap@ == old(self).allocated_heap@.update(
                i + old(self).half(),
                el,
            ),
            final(self).data == old(self).data,
            final(self).pos == old(self).pos,
            final(self).size == old(self).size,
            final(self).min_ct == old(self).min_ct,
            final(self).max_ct == old(self).max_ct,
            final(self).idx == old(self).idx,
    {
        let at = self.shifted(i);
        self.allocated_heap[at] = el;
    }

    fn less(&self, i: isize, j: isize) -> (r: bool)
        requires
            self.structure(),
            self.occupied(i as int),
            self.occupied(j as int),
        ensures
            r == (self.key(i as int) < self.key(j as int)),
    {
        proof {
            self.lemma_slot(i as int);
            self.lemma_slot(j as int);
            E::law_order(
                self.data@[self.slot(i as int)],
                self.data@[self.slot(j as int)],
            );
        }
        self.data[self.heap(i)] < self.data[self.heap(j)]
    }

    /// Exchanges the elements at the places `i` and `j`: the two places
    /// exchange their slots, and the two slots their places.
    fn exchange(&mut self, i: isize, j: isize)
        requires
            old(self).shape(),
            old(self).linked(),
            -old(self).half() <= i <= old(self).top(),
            -old(self).half() <= j <= old(self).top(),
        ensures
            final(self).shape(),
            final(self).linked(),
            old(self).filled() && old(self).occupied(i as int) && old(self).occupied(j as int)
                ==> final(self).filled(),
            final(self).data == old(self).data,
            final(self).size == old(self).size,
            final(self).min_ct == old(self).min_ct,
            final(self).max_ct == old(self).max_ct,
            final(self).idx == old(self).idx,
            final(self).allocated_heap@ == old(self).allocated_heap@.update(
                i + old(self).half(),
                old(self).slot(j as int) as usize,
            ).update(j + old(self).half(), old(self).slot(i as int) as usize),
            final(self).pos@ == old(self).pos@.update(old(self).slot(i as int), j).update(
                old(self).slot(j as int),
                i,
            ),
            final(self).slot(i as int) == old(self).slot(j as int),
            final(self).slot(j as int) == old(self).slot(i as int),
            forall|x: int|
                -old(self).half() <= x <= old(self).top() && x != i && x != j
                    ==> #[trigger] final(self).slot(x) == old(self).slot(x),
    {
        proof {
            self.lemma_link(i as int);
            self.lemma_link(j as int);
        }
        let heap_i = self.heap(i);
        let heap_j = self.heap(j);
        self.heap_set(i, heap_j);
        self.heap_set(j, heap_i);
        self.pos[heap_i] = j;
        self.pos[heap_j] = i;
        proof {
            let half = self.half();
            assert forall|s: int| 0 <= s < self.size implies -self.half() <= #[trigger] self.pos@[s]
                <= self.top() && self.allocated_heap@[self.pos@[s] + self.half()] == s by {
                assert(old(self).allocated_heap@[old(self).pos@[s] + half] == s);
            }
            assert forall|x: int| 0 <= x < self.size implies 0 <= #[trigger] self.allocated_heap@[x]
                < self.size && self.pos@[self.allocated_heap@[x] as int] == x - self.half() by {
                assert(old(self).pos@[old(self).allocated_heap@[x] as int] == x - half);
            }
            if old(self).filled() && old(self).occupied(i as int) && old(self).occupied(j as int) {
                assert forall|s: int| 0 <= s < self.size implies (s < self.data.len()
                    <==> self.occupied(#[trigger] self.pos@[s] as int)) by {
                    assert(s < old(self).data.len() <==> old(self).occupied(
                        old(self).pos@[s] as int,
                    ));
                }
                assert forall|s: int|
                    self.data.len() <= s < self.size implies #[trigger] self.pos@[s] == seed(
                    s,
                ) by {
                    assert(old(self).pos@[s] == seed(s));
                    assert(s < old(self).data.len() <==> old(self).occupied(
                        old(self).pos@[s] as int,
                    ));
                }
            }
        }
    }

    fn cmp_exch(&mut self, i: isize, j: isize) -> (r: bool)
        requires
            old(self).structure(),
            old(self).occupied(place(i)),
            old(self).occupied(place(j)),
        ensures
            final(self).structure(),
            final(self).same_window(old(self)),
            r == (old(self).key(place(i)) < old(self).key(place(j))),
            !r ==> *final(self) == *old(self),
            r ==> final(self).swapped(old(self), place(i), place(j)),
            forall|x: int|
                -old(self).half() <= x <= old(self).top() && x != i && x != j
                    ==> #[trigger] final(self).slot(x) == old(self).slot(x),
            old(self).hole(0) && i == 0 && j == -1 ==> final(self).edge_ok(-1) && (r
                ==> final(self).hole(-1)),
            old(self).hole(0) && i == 1 && j == 0 ==> final(self).edge_ok(1) && (r
                ==> final(self).hole(1)),
    {
        if self.less(i, j) {
            proof {
                self.lemma_slot(0);
            }
            self.exchange(i, j);
            proof {
                assert forall|x: int|
                    self.occupied(x) && x != i && x != j implies #[trigger] self.key(x) == old(
                    self,
                ).key(x) by {
                    assert(self.slot(x) == old(self).slot(x));
                }
                if old(self).hole(0) && i == 0 && j == -1 {
                    self.lemma_from_pivot(old(self), 0, -1);
                }
                if old(self).hole(0) && i == 1 && j == 0 {
                    self.lemma_from_pivot(old(self), 0, 1);
                }
            }
            true
        } else {
            false
        }
    }

    /// Where the heaps are in order, they are in order but for any one
    /// element.
    proof fn lemma_open(&self, x: int)
        requires
            self.ordered(),
            self.occupied(x),
        ensures
            self.hole(x),
            x != 0 ==> self.edge_ok(x),
            self.kids_ok(x, true),
            self.kids_ok(x, false),
    {
        if x != 0 {
            assert(self.edge_ok(x));
            assert forall|j: int|
                self.occupied(j) && j != 0 && parent(j) == x implies #[trigger] self.cross_ok(
                x,
                j,
            ) by {
                assert(self.edge_ok(j));
            }
        } else if self.occupied(-1) && self.occupied(1) {
            assert(self.edge_ok(-1));
            assert(self.edge_ok(1));
        }
    }

    /// Where the heaps are in order but for the element at `x`, and that
    /// element is in order with those next to it, the heaps are in order.
    proof fn lemma_close(&self, x: int)
        requires
            self.hole(x),
            x != 0 ==> self.edge_ok(x),
            self.kids_ok(x, true),
            self.kids_ok(x, false),
        ensures
            self.ordered(),
    {
        assert forall|j: int| self.occupied(j) && j != 0 implies #[trigger] self.edge_ok(j) by {
            if j != x && parent(j) != x {
            } else if j == x {
            } else {
                assert(self.kids_ok(x, j > 0));
            }
        }
    }

    /// Between `before` and `self` the element at place `i` changed places
    /// with the one next to it on the way to the pivot, because the two were
    /// not in order. If `before` was in order but for the element at `i`,
    /// `self` is in order but for that element at its new place.
    proof fn lemma_toward_pivot(&self, before: &Self, i: int)
        requires
            before.shape(),
            before.occupied(i),
            i != 0,
            self.swapped(before, i, parent(i)),
            before.hole(i),
            before.kids_ok(i, i > 0),
            !before.edge_ok(i),
        ensures
            self.hole(parent(i)),
            self.kids_ok(parent(i), i > 0),
    {
        let p = parent(i);
        assert forall|j: int|
            self.occupied(j) && j != 0 && j != p && parent(j) != p implies #[trigger] self.edge_ok(
            j,
        ) by {
            if parent(j) == i {
                assert(before.cross_ok(i, j));
            } else {
                assert(before.edge_ok(j));
            }
        }
        if p != 0 {
            assert(before.edge_ok(p));
            assert forall|j: int|
                self.occupied(j) && j != 0 && parent(j) == p implies #[trigger] self.cross_ok(
                p,
                j,
            ) by {
                if j != i {
                    assert(before.edge_ok(j));
                }
            }
        } else if self.occupied(-1) && self.occupied(1) {
            assert(before.edge_ok(-i));
        }
        assert forall|j: int|
            self.occupied(j) && j != 0 && parent(j) == p && ((i > 0) <==> j > 0)
                implies #[trigger] self.edge_ok(j) by {
            if j != i {
                assert(before.edge_ok(j));
            }
        }
    }

    /// Between `before` and `self` the element at place `x` changed places
    /// with the one at `c`, just beyond it as seen from the pivot, because
    /// the two were not in order; of the elements just beyond `x` on that
    /// side, the one at `c` came first in the order of its heap. If `before`
    /// was in order but for the element at `x`, `self` is in order but for
    /// that element at its new place, and in order between `c` and `x`.
    proof fn lemma_from_pivot(&self, before: &Self, x: int, c: int)
        requires
            before.shape(),
            before.occupied(c),
            c != 0,
            parent(c) == x,
            self.swapped(before, c, x),
            before.hole(x),
            !before.edge_ok(c),
            forall|j: int|
                before.occupied(j) && j != 0 && parent(j) == x && (j > 0 <==> c > 0) ==> if c
                    > 0 {
                    before.key(c) <= #[trigger] before.key(j)
                } else {
                    before.key(j) <= before.key(c)
                },
        ensures
            self.hole(c),
            self.edge_ok(c),
    {
        assert forall|j: int|
            self.occupied(j) && j != 0 && j != c && parent(j) != c implies #[trigger] self.edge_ok(
            j,
        ) by {
            if j == x {
                assert(before.cross_ok(x, c));
            } else if parent(j) == x {
                if (j > 0) == (c > 0) {
                    // The element at `c` came first among those beyond `x`.
                    assert(if c > 0 {
                        before.key(c) <= before.key(j)
                    } else {
                        before.key(j) <= before.key(c)
                    });
                } else {
                    assert(before.cross_ok(0, 1));
                }
            } else {
                assert(before.edge_ok(j));
            }
        }
        assert forall|j: int|
            self.occupied(j) && j != 0 && parent(j) == c implies #[trigger] self.cross_ok(
            c,
            j,
        ) by {
            assert(before.edge_ok(j));
        }
    }

    /// Moves the element at place `i`, above the pivot, toward the pivot
    /// while it is less than the element before it. Says whether it has
    /// become the pivot.
    fn min_sort_up(&mut self, i: isize) -> (r: bool)
        requires
            old(self).structure(),
            1 <= i <= old(self).min_ct,
            old(self).hole(place(i)) && old(self).kids_ok(place(i), true) || i == 1
                && old(self).hole(0),
        ensures
            final(self).structure(),
            final(self).same_window(old(self)),
            old(self).hole(place(i)) && old(self).kids_ok(place(i), true) ==> if r {
                final(self).hole(0) && final(self).kids_ok(0, true)
            } else {
                final(self).ordered()
            },
            i == 1 && old(self).hole(0) ==> if r {
                final(self).hole(1) && final(self).edge_ok(1)
            } else {
                *final(self) == *old(self) && final(self).edge_ok(1)
            },
    {
        let ghost moving = self.hole(place(i)) && self.kids_ok(place(i), true);
        let ghost probing = i == 1 && self.hole(0);
        let mut i = i;
        loop
            invariant_except_break
                self.structure(),
                self.same_window(old(self)),
                0 <= i <= self.min_ct,
                moving ==> self.hole(place(i)) && self.kids_ok(place(i), true),
                probing ==> old(self).hole(0),
                probing ==> i == 1 && *self == *old(self) || i == 0 && self.hole(1)
                    && self.edge_ok(1),
            ensures
                self.structure(),
                self.same_window(old(self)),
                0 <= i,
                moving ==> if i == 0 {
                    self.hole(0) && self.kids_ok(0, true)
                } else {
                    self.ordered()
                },
                probing ==> if i == 0 {
                    self.hole(1) && self.edge_ok(1)
                } else {
                    *self == *old(self) && self.edge_ok(1)
                },
            decreases i,
        {
            if i <= 0 {
                break ;
            }
            let ghost before = *self;
            if !self.cmp_exch(i, halve(i)) {
                proof {
                    if moving {
                        assert(self.kids_ok(place(i), false));
                        self.lemma_close(place(i));
                    }
                }
                break ;
            }
            proof {
                if moving {
                    self.lemma_toward_pivot(&before, place(i));
                }
                if probing {
                    self.lemma_from_pivot(&before, 0, 1);
                }
            }
            i = halve(i);
        }
        return i == 0;
    }

    /// Moves the element at place `i`, above the pivot, away from the pivot
    /// while an element just beyond it is less.
    fn min_sort_down(&mut self, i: isize)
        requires
            old(self).structure(),
            1 <= i <= old(self).min_ct,
            old(self).hole(place(i)),
            old(self).edge_ok(place(i)),
        ensures
            final(self).structure(),
            final(self).same_window(old(self)),
            final(self).ordered(),
            final(self).keeps(old(self), -old(self).half(), 0),
    {
        let mut i = i;
        loop
            invariant_except_break
                self.structure(),
                self.same_window(old(self)),
                1 <= i <= self.min_ct,
                self.hole(place(i)),
                self.edge_ok(place(i)),
                self.keeps(old(self), -old(self).half(), 0),
            ensures
                self.structure(),
                self.same_window(old(self)),
                self.ordered(),
                self.keeps(old(self), -old(self).half(), 0),
            decreases self.min_ct - i,
        {
            if i > halve(self.min_ct) {
                proof {
                    assert(self.kids_ok(place(i), true));
                    assert(self.kids_ok(place(i), false));
                    self.lemma_close(place(i));
                }
                break ;
            }
            let ghost x = place(i);
            i = i * 2;
            if i < self.min_ct && self.less(i + 1, i) {
                i += 1;
            }
            let ghost before = *self;
            if !self.cmp_exch(i, halve(i)) {
                proof {
                    assert forall|j: int|
                        self.occupied(j) && j != 0 && parent(j) == x
                            implies #[trigger] self.edge_ok(j) by {
                        assert(j == 2 * x || j == 2 * x + 1);
                    }
                    assert(self.kids_ok(x, true));
                    assert(self.kids_ok(x, false));
                    self.lemma_close(x);
                }
                break ;
            }
            proof {
                assert forall|j: int|
                    before.occupied(j) && j != 0 && parent(j) == x && (j > 0 <==> i > 0)
                        implies before.key(place(i)) <= #[trigger] before.key(j) by {
                    assert(j == 2 * x || j == 2 * x + 1);
                }
                self.lemma_from_pivot(&before, x, place(i));
            }
        }
    }

    /// Moves the element at place `i`, below the pivot, toward the pivot
    /// while it is greater than the element before it. Says whether it has
    /// become the pivot.
    fn max_sort_up(&mut self, i: isize) -> (r: bool)
        requires
            old(self).structure(),
            -old(self).max_ct <= i <= -1,
            old(self).hole(place(i)) && old(self).kids_ok(place(i), false) || i == -1
                && old(self).hole(0),
        ensures
            final(self).structure(),
            final(self).same_window(old(self)),
            old(self).hole(place(i)) && old(self).kids_ok(place(i), false) ==> if r {
                final(self).hole(0) && final(self).kids_ok(0, false)
            } else {
                final(self).ordered()
            },
            i == -1 && old(self).hole(0) ==> if r {
                final(self).hole(-1) && final(self).edge_ok(-1)
            } else {
                *final(self) == *old(self) && final(self).edge_ok(-1)
            },
    {
        let ghost moving = self.hole(place(i)) && self.kids_ok(place(i), false);
        let ghost probing = i == -1 && self.hole(0);
        let mut i = i;
        loop
            invariant_except_break
                self.structure(),
                self.same_window(old(self)),
                -self.max_ct <= i <= 0,
                moving ==> self.hole(place(i)) && self.kids_ok(place(i), false),
                probing ==> old(self).hole(0),
                probing ==> i == -1 && *self == *old(self) || i == 0 && self.hole(-1)
                    && self.edge_ok(-1),
            ensures
                self.structure(),
                self.same_window(old(self)),
                i <= 0,
                moving ==> if i == 0 {
                    self.hole(0) && self.kids_ok(0, false)
                } else {
                    self.ordered()
                },
                probing ==> if i == 0 {
                    self.hole(-1) && self.edge_ok(-1)
                } else {
                    *self == *old(self) && self.edge_ok(-1)
                },
            decreases -i,
        {
            if i >= 0 {
                break ;
            }
            let ghost before = *self;
            if !self.cmp_exch(halve(i), i) {
                proof {
                    if moving {
                        assert(self.kids_ok(place(i), true));
                        self.lemma_close(place(i));
                    }
                }
                break ;
            }
            proof {
                if moving {
                    self.lemma_toward_pivot(&before, place(i));
                }
                if probing {
                    self.lemma_from_pivot(&before, 0, -1);
                }
            }
            i = halve(i);
        }
        return i == 0;
    }

    /// Moves the element at place `i`, below the pivot, away from the pivot
    /// while an element just beyond it is greater.
    fn max_sort_down(&mut self, i: isize)
        requires
            old(self).structure(),
            -old(self).max_ct <= i <= -1,
            old(self).hole(place(i)),
            old(self).edge_ok(place(i)),
        ensures
            final(self).structure(),
            final(self).same_window(old(self)),
            final(self).ordered(),
            final(self).keeps(old(self), 0, old(self).top()),
    {
        let mut i = i;
        loop
            invariant_except_break
                self.structure(),
                self.same_window(old(self)),
                -self.max_ct <= i <= -1,
                self.hole(place(i)),
                self.edge_ok(place(i)),
                self.keeps(old(self), 0, old(self).top()),
            ensures
                self.structure(),
                self.same_window(old(self)),
                self.ordered(),
                self.keeps(old(self), 0, old(self).top()),
            decreases self.max_ct + i,
        {
            if i < -halve(self.max_ct) {
                proof {
                    assert(self.kids_ok(place(i), true));
                    assert(self.kids_ok(place(i), false));
                    self.lemma_close(place(i));
                }
                break ;
            }
            let ghost x = place(i);
            i = i * 2;
            if i > -self.max_ct && self.less(i, i - 1) {
                i -= 1;
            }
            let ghost before = *self;
            if !self.cmp_exch(halve(i), i) {
                proof {
                    assert forall|j: int|
                        self.occupied(j) && j != 0 && parent(j) == x
                            implies #[trigger] self.edge_ok(j) by {
                        assert(j == 2 * x || j == 2 * x - 1);
                    }
                    assert(self.kids_ok(x, true));
                    assert(self.kids_ok(x, false));
                    self.lemma_close(x);
                }
                break ;
            }
            proof {
                assert forall|j: int|
                    before.occupied(j) && j != 0 && parent(j) == x && (j > 0 <==> i > 0)
                        implies #[trigger] before.key(j) <= before.key(place(i)) by {
                    assert(j == 2 * x || j == 2 * x - 1);
                }
                self.lemma_from_pivot(&before, x, place(i));
            }
        }
    }

    /// The slot of the element at position `j` of the window.
    spec fn turn(&self, j: int) -> int {
        if j < self.data.len() - self.idx {
            self.idx + j
        } else {
            j - (self.data.len() - self.idx)
        }
    }

    /// The position in the window of the element in slot `s`.
    spec fn unturn(&self, s: int) -> int {
        if s >= self.idx {
            s - self.idx
        } else {
            s + (self.data.len() - self.idx)
        }
    }

    /// Between `before` and `self` an element arrived and took the place
    /// `p`, which was the next free one or that of the oldest element.
    /// Then `self` is in order but for the element at `p`, and in order
    /// around `p` as far as the old and the new element at `p` allow.
    proof fn lemma_after_write(&self, before: &Self, p: int)
        requires
            before.shape(),
            before.ordered(),
            self.shape(),
            self.occupied(p),
            forall|x: int| #[trigger] self.occupied(x) && x != p ==> before.occupied(x),
            forall|x: int| self.occupied(x) && x != p ==> #[trigger] self.key(x) == before.key(x),
            !before.occupied(p) ==> p == self.min_ct || p == -self.max_ct,
        ensures
            self.hole(p),
            !before.occupied(p) ==> self.kids_ok(p, true) && self.kids_ok(p, false),
            before.occupied(p) && p > 0 && self.key(p) >= before.key(p) ==> self.edge_ok(p),
            before.occupied(p) && p > 0 && self.key(p) <= before.key(p) ==> self.kids_ok(p, true),
            before.occupied(p) && p < 0 && self.key(p) <= before.key(p) ==> self.edge_ok(p),
            before.occupied(p) && p < 0 && self.key(p) >= before.key(p) ==> self.kids_ok(
                p,
                false,
            ),
    {
        assert forall|j: int|
            self.occupied(j) && j != 0 && j != p && parent(j) != p implies #[trigger] self.edge_ok(
            j,
        ) by {
            assert(before.edge_ok(j));
        }
        if p != 0 {
            assert forall|j: int|
                self.occupied(j) && j != 0 && parent(j) == p implies #[trigger] self.cross_ok(
                p,
                j,
            ) by {
                assert(before.edge_ok(j));
                assert(before.edge_ok(p));
            }
        } else if self.occupied(-1) && self.occupied(1) {
            assert(before.edge_ok(-1));
            assert(before.edge_ok(1));
        }
        if before.occupied(p) {
            if p != 0 {
                assert(before.edge_ok(p));
            }
            assert forall|j: int|
                self.occupied(j) && j != 0 && parent(j) == p && j > 0 && p > 0 && self.key(p)
                    <= before.key(p) implies #[trigger] self.edge_ok(j) by {
                assert(before.edge_ok(j));
            }
            assert forall|j: int|
                self.occupied(j) && j != 0 && parent(j) == p && j < 0 && p < 0 && self.key(p)
                    >= before.key(p) implies #[trigger] self.edge_ok(j) by {
                assert(before.edge_ok(j));
            }
        }
    }

    /// The pivot is in order with the elements just beyond it on one side
    /// if it is in order with the one at place 1, or at place -1.
    proof fn lemma_pivot_side(&self, above: bool)
        requires
            self.shape(),
            above ==> !self.occupied(1) || self.edge_ok(1),
            !above ==> !self.occupied(-1) || self.edge_ok(-1),
        ensures
            self.kids_ok(0, above),
    {
        assert forall|j: int|
            self.occupied(j) && j != 0 && parent(j) == 0 && (above <==> j > 0)
                implies #[trigger] self.edge_ok(j) by {
            assert(j == 1 || j == -1);
        }
    }

    /// Where the heaps are in order but for the pivot, and the pivot is in
    /// order with the elements at the places 1 and -1, the heaps are in
    /// order.
    proof fn lemma_settle(&self)
        requires
            self.shape(),
            self.ordered() || self.hole(0) && (!self.occupied(1) || self.edge_ok(1)) && (
            !self.occupied(-1) || self.edge_ok(-1)),
        ensures
            self.ordered(),
    {
        if !self.ordered() {
            self.lemma_pivot_side(true);
            self.lemma_pivot_side(false);
            self.lemma_close(0);
        }
    }

    /// The integer that the element under the cursor stands for: the one
    /// that leaves a full window with the next arrival.
    spec fn leaving(&self) -> int {
        self.data@[self.idx as int].val()
    }

    /// Whether `self` is `before` after `el` has been written into the slot
    /// under the cursor, and the cursor and the counts have moved on.
    spec fn arrived(&self, before: &Self, el: E) -> bool {
        &&& self.size == before.size
        &&& self.pos == before.pos
        &&& self.allocated_heap == before.allocated_heap
        &&& self.data@ == if before.data.len() <= before.idx {
            before.data@.push(el)
        } else {
            before.data@.update(before.idx as int, el)
        }
        &&& self.idx == if before.idx + 1 < before.size {
            before.idx + 1
        } else {
            0
        }
        &&& self.max_ct == self.data.len() as int / 2
        &&& self.min_ct == (self.data.len() as int - 1) / 2
    }

    /// The place that the next element will take: among the places of the
    /// heap above the pivot only when that heap grows or is full, and
    /// likewise below the pivot.
    proof fn lemma_next_place(&self)
        requires
            self.structure(),
        ensures
            -self.half() <= self.pos@[self.idx as int] <= self.top(),
            self.data.len() < self.size ==> self.pos@[self.idx as int] == seed(
                self.data.len() as int,
            ),
            self.data.len() < self.size && self.pos@[self.idx as int] > 0 ==> self.min_ct
                < self.top() && self.min_ct + 1 == (self.data.len() as int) / 2
                && self.max_ct == (self.data.len() as int + 1) / 2,
            self.data.len() < self.size && self.pos@[self.idx as int] < 0 ==> self.max_ct
                < self.half() && self.max_ct + 1 == (self.data.len() as int + 1) / 2
                && self.min_ct == (self.data.len() as int) / 2,
            self.data.len() < self.size && self.pos@[self.idx as int] == 0 ==> self.data.len()
                == 0,
            self.data.len() == self.size ==> self.min_ct == self.top() && self.max_ct
                == self.half(),
    {
    }

    /// After an arrival the index arrays still fit together, and the heaps
    /// are in order but for the element that arrived, at place `p`.
    proof fn lemma_arrival(&self, before: &Self, el: E, p: int)
        requires
            before.structure(),
            before.ordered(),
            self.arrived(before, el),
            p == before.pos@[before.idx as int],
        ensures
            self.structure(),
            self.occupied(p),
            self.key(p) == el.val(),
            self.window() == crate::window::slide(before.window(), before.capacity(), el),
            self.hole(p),
            before.data.len() < before.size ==> self.kids_ok(p, true) && self.kids_ok(p, false),
            before.data.len() == before.size && p > 0 && el.val() >= before.leaving()
                ==> self.edge_ok(p),
            before.data.len() == before.size && p > 0 && el.val() <= before.leaving()
                ==> self.kids_ok(p, true),
            before.data.len() == before.size && p < 0 && el.val() <= before.leaving()
                ==> self.edge_ok(p),
            before.data.len() == before.size && p < 0 && el.val() >= before.leaving()
                ==> self.kids_ok(p, false),
            p > 0 ==> self.occupied(-1),
    {
        before.lemma_next_place();
        before.lemma_slot(p);
        assert(self.window() =~= crate::window::slide(before.window(), before.capacity(), el));
        assert(self.shape());
        assert(self.linked());
        assert forall|s: int| 0 <= s < self.size implies (s < self.data.len() <==> self.occupied(
            #[trigger] self.pos@[s] as int,
        )) by {
            assert(s < before.data.len() <==> before.occupied(before.pos@[s] as int));
            if s > before.data.len() {
                assert(before.pos@[s] == seed(s));
            }
        }
        assert(self.filled());
        assert(self.slot(p) == before.idx);
        assert forall|x: int| #[trigger] self.occupied(x) && x != p implies before.occupied(x) by {
            self.lemma_slot(x);
        }
        assert forall|x: int| self.occupied(x) && x != p implies #[trigger] self.key(x)
            == before.key(x) by {
            self.lemma_slot(x);
            before.lemma_slot(x);
        }
        self.lemma_after_write(before, p);
        if before.data.len() == before.size {
            assert(before.key(p) == before.data@[before.idx as int].val());
        }
    }

    /// No element below the pivot is greater than the greatest of them, at
    /// place -1, and that one is not greater than the pivot.
    proof fn lemma_below_pivot(&self, i: int)
        requires
            self.shape(),
            self.ordered(),
            self.occupied(i),
            i < 0,
        ensures
            self.key(i) <= self.key(-1) <= self.key(0),
        decreases -i,
    {
        assert(self.edge_ok(i));
        if i != -1 {
            self.lemma_below_pivot(parent(i));
        }
    }

    /// No element above the pivot is less than the least of them, at place
    /// 1, and that one is not less than the pivot.
    proof fn lemma_above_pivot(&self, i: int)
        requires
            self.shape(),
            self.ordered(),
            self.occupied(i),
            i > 0,
        ensures
            self.key(0) <= self.key(1) <= self.key(i),
        decreases i,
    {
        assert(self.edge_ok(i));
        if i != 1 {
            self.lemma_above_pivot(parent(i));
        }
    }

    /// The elements of the window are those in the slots of `data`.
    proof fn lemma_turn(&self, j: int)
        requires
            self.structure(),
            0 <= j < self.data.len(),
        ensures
            0 <= self.turn(j) < self.data.len(),
            self.unturn(self.turn(j)) == j,
            self.turn(self.unturn(j)) == j,
            0 <= self.unturn(j) < self.data.len(),
            self.window().len() == self.data.len(),
            crate::stats::vals(self.window())[j] == self.data@[self.turn(j)].val(),
            self.occupied(self.pos@[self.turn(j)] as int),
            self.key(self.pos@[self.turn(j)] as int) == self.data@[self.turn(j)].val(),
    {
    }

    /// The pivot stands in the middle of the window in ascending order, and
    /// where the window has an even number of elements, the element at
    /// place -1 stands just before it.
    proof fn lemma_pivot_ranked(&self)
        requires
            self.wf(),
            self.data.len() >= 1,
        ensures
            self.window().len() == self.data.len(),
            crate::stats::is_ranked(
                crate::stats::vals(self.window()),
                self.data.len() as int / 2,
                self.key(0),
            ),
            self.data.len() % 2 == 0 ==> crate::stats::is_ranked(
                crate::stats::vals(self.window()),
                self.data.len() as int / 2 - 1,
                self.key(-1),
            ),
            self.data.len() % 2 == 0 <==> self.min_ct < self.max_ct,
    {
        let w = crate::stats::vals(self.window());
        let k = self.data.len() as int;
        let m = self.max_ct as int;
        let pivot = self.key(0);
        let all = vstd::set_lib::set_int_range(0, k);
        vstd::set_lib::lemma_int_range(0, k);
        self.lemma_slot(0);
        self.lemma_turn(0);
        let to_place = |j: int| self.pos@[self.turn(j)] as int;
        let to_position = |i: int| self.unturn(self.slot(i));

        // At most `m` elements are less than the pivot: they all lie below it.
        let less = crate::stats::places_below(w, pivot);
        let under = vstd::set_lib::set_int_range(-m, 0);
        vstd::set_lib::lemma_int_range(-m, 0);
        assert(less.subset_of(all));
        vstd::set_lib::lemma_len_subset(less, all);
        assert forall|a: int| less.contains(a) implies under.contains(#[trigger] to_place(a)) by {
            self.lemma_turn(a);
            let i = to_place(a);
            if i > 0 {
                self.lemma_above_pivot(i);
            }
        }
        assert forall|a: int, b: int|
            less.contains(a) && less.contains(b) && #[trigger] to_place(a) == #[trigger] to_place(
                b,
            ) implies a == b by {
            self.lemma_turn(a);
            self.lemma_turn(b);
            assert(self.allocated_heap@[self.pos@[self.turn(a)] + self.half()] == self.turn(a));
            assert(self.allocated_heap@[self.pos@[self.turn(b)] + self.half()] == self.turn(b));
        }
        crate::stats::lemma_injection_bound(less, under, to_place);

        // More than `m` elements are at most the pivot: those below it, and itself.
        let most = crate::stats::places_up_to(w, pivot);
        let upto = vstd::set_lib::set_int_range(-m, 1);
        vstd::set_lib::lemma_int_range(-m, 1);
        assert(most.subset_of(all));
        vstd::set_lib::lemma_len_subset(most, all);
        assert forall|i: int| upto.contains(i) implies most.contains(#[trigger] to_position(i)) by {
            self.lemma_slot(i);
            self.lemma_turn(self.slot(i));
            if i < 0 {
                self.lemma_below_pivot(i);
            }
        }
        assert forall|i: int, j: int|
            upto.contains(i) && upto.contains(j) && #[trigger] to_position(i)
                == #[trigger] to_position(j) implies i == j by {
            self.lemma_slot(i);
            self.lemma_slot(j);
            self.lemma_turn(self.slot(i));
            self.lemma_turn(self.slot(j));
        }
        crate::stats::lemma_injection_bound(upto, most, to_position);

        if k % 2 == 0 {
            let below = self.key(-1);
            self.lemma_slot(-1);
            self.lemma_below_pivot(-1);

            // Fewer than `m` elements are less than the one at place -1.
            let less = crate::stats::places_below(w, below);
            let under = vstd::set_lib::set_int_range(-m, -1);
            vstd::set_lib::lemma_int_range(-m, -1);
            assert(less.subset_of(all));
            vstd::set_lib::lemma_len_subset(less, all);
            assert forall|a: int| less.contains(a) implies under.contains(
                #[trigger] to_place(a),
            ) by {
                self.lemma_turn(a);
                let i = to_place(a);
                if i > 0 {
                    self.lemma_above_pivot(i);
                }
            }
            assert forall|a: int, b: int|
                less.contains(a) && less.contains(b) && #[trigger] to_place(a)
                    == #[trigger] to_place(b) implies a == b by {
                self.lemma_turn(a);
                self.lemma_turn(b);
                assert(self.allocated_heap@[self.pos@[self.turn(a)] + self.half()] == self.turn(
                    a,
                ));
                assert(self.allocated_heap@[self.pos@[self.turn(b)] + self.half()] == self.turn(
                    b,
                ));
            }
            crate::stats::lemma_injection_bound(less, under, to_place);

            // At least `m` elements are at most the one at place -1.
            let most = crate::stats::places_up_to(w, below);
            let upto = vstd::set_lib::set_int_range(-m, 0);
            assert(most.subset_of(all));
            vstd::set_lib::lemma_len_subset(most, all);
            assert forall|i: int| upto.contains(i) implies most.contains(
                #[trigger] to_position(i),
            ) by {
                self.lemma_slot(i);
                self.lemma_turn(self.slot(i));
                self.lemma_below_pivot(i);
            }
            assert forall|i: int, j: int|
                upto.contains(i) && upto.contains(j) && #[trigger] to_position(i)
                    == #[trigger] to_position(j) implies i == j by {
                self.lemma_slot(i);
                self.lemma_slot(j);
                self.lemma_turn(self.slot(i));
                self.lemma_turn(self.slot(j));
            }
            crate::stats::lemma_injection_bound(upto, most, to_position);
        }
    }
}

impl<E> Median<E> where E: Dividable, E::Divider: Identity {
    /// The middle of the window in ascending order is at the pivot, and,
    /// where the window has an even number of elements, at place -1.
    proof fn lemma_middle(&self)
        requires
            self.wf(),
            self.data.len() >= 1,
        ensures
            self.window().len() == self.data.len(),
            self.data.len() % 2 == 0 <==> self.min_ct < self.max_ct,
            crate::stats::ranked(
                crate::stats::vals(self.window()),
                self.data.len() as int / 2,
            ) == self.key(0),
            self.data.len() % 2 == 0 ==> crate::stats::ranked(
                crate::stats::vals(self.window()),
                self.data.len() as int / 2 - 1,
            ) == self.key(-1),
    {
        let w = crate::stats::vals(self.window());
        let k = self.data.len() as int;
        self.lemma_pivot_ranked();
        crate::stats::lemma_ranked_unique(w, k / 2, self.key(0), self.key(0));
        if k % 2 == 0 {
            crate::stats::lemma_ranked_unique(w, k / 2 - 1, self.key(-1), self.key(-1));
        }
    }
}

impl<E> Median<E> where E: Dividable, E::Divider: Identity {
    /// A window is never longer than its capacity, which is at least one
    /// and less than the greatest size of the machine.
    pub proof fn lemma_bounded(&self)
        requires
            self.wf(),
        ensures
            self.window().len() <= self.capacity(),
            1 <= self.capacity() < usize::MAX,
    {
    }

    /// What the indicator reads lies between the least and the greatest
    /// element of the window: with no element below `lo` and none above
    /// `hi`, the median is from `lo` to `hi`.
    pub proof fn lemma_reading_in_range(&self, lo: int, hi: int)
        requires
            self.wf(),
            self.window().len() >= 1,
            forall|i: int|
                0 <= i < self.window().len() ==> lo <= #[trigger] self.window()[i].val() <= hi,
        ensures
            lo <= crate::stats::median(crate::stats::vals(self.window())) <= hi,
    {
        self.lemma_pivot_ranked();
        let w = crate::stats::vals(self.window());
        assert forall|i: int| 0 <= i < w.len() implies lo <= #[trigger] w[i] <= hi by {
            assert(w[i] == self.window()[i].val());
        }
        crate::stats::lemma_median_in_range(w, lo, hi, self.key(-1), self.key(0));
    }

    /// After a stream of at least one element the indicator reads the
    /// median of the latest elements of the stream: of the last `capacity`,
    /// or of all if there are fewer.
    pub proof fn lemma_reads_latest(&self, xs: Seq<E>)
        requires
            self.wf(),
            self.window() == crate::window::feed(self.capacity(), xs),
            xs.len() >= 1,
        ensures
            self.reading() == Some(
                E::of_int(
                    crate::stats::median(
                        crate::stats::vals(crate::window::last_n(xs, self.capacity())),
                    ),
                ),
            ),
    {
        crate::window::lemma_feed_keeps_latest(self.capacity(), xs);
    }
}

impl<E> Indicator<E> for Median<E> where E: Dividable, E::Divider: Identity {
    type Output = E;

    closed spec fn wf(&self) -> bool {
        &&& self.structure()
        &&& self.ordered()
    }

    closed spec fn capacity(&self) -> nat {
        self.size as nat
    }

    closed spec fn window(&self) -> Seq<E> {
        self.data@.subrange(self.idx as int, self.data.len() as int) + self.data@.subrange(
            0,
            self.idx as int,
        )
    }

    open spec fn valid_size(size: usize) -> bool {
        1 <= size < usize::MAX
    }

    open spec fn accepts(&self, el: E) -> bool {
        true
    }

    /// Where the window has an even number of elements, the sum of the two
    /// in the middle must be in range.
    open spec fn readable(&self) -> bool {
        let w = crate::stats::vals(self.window());
        w.len() > 0 && w.len() % 2 == 0 ==> E::fits(
            crate::stats::ranked(w, w.len() as int / 2 - 1) + crate::stats::ranked(
                w,
                w.len() as int / 2,
            ),
        )
    }

    /// The median of the window, once an element has arrived.
    open spec fn reading(&self) -> Option<E> {
        if self.window().len() == 0 {
            None
        } else {
            Some(E::of_int(crate::stats::median(crate::stats::vals(self.window()))))
        }
    }

    fn new(size: usize) -> (r: Result<Self, IndicatorError>)
        ensures
            r is Err ==> r == Err::<Self, IndicatorError>(
                if size < 1 {
                    IndicatorError::InvalidSize
                } else {
                    IndicatorError::SizeAtLimit
                },
            ),
    {
        if size < 1 {
            return Err(IndicatorError::InvalidSize);
        }
        if size == usize::MAX {
            return Err(IndicatorError::SizeAtLimit);
        }
        let mut out = Median {
            data: Vec::with_capacity(size),
            pos: Vec::with_capacity(size),
            allocated_heap: vec![0; size],
            size,
            min_ct: 0,
            max_ct: 0,
            idx: 0,
        };
        let mut idx: usize = 0;
        while idx < size
            invariant
                idx <= size,
                1 <= size < usize::MAX,
                out.size == size,
                out.allocated_heap.len() == size,
                out.pos.len() == idx,
                out.data.len() == 0,
                out.min_ct == 0,
                out.max_ct == 0,
                out.idx == 0,
                forall|s: int|
                    #![trigger out.pos@[s]]
                    0 <= s < idx ==> out.pos@[s] == seed(s) && out.allocated_heap@[seed(s)
                        + out.half()] == s,
            decreases size - idx,
        {
            assert(idx & 1 == 0 <==> idx % 2 == 0) by (bit_vector);
            let el = if idx & 1 == 0 {
                ((idx + 1) / 2) as isize
            } else {
                -(((idx + 1) / 2) as isize)
            };
            proof {
                assert(el == seed(idx as int));
                assert forall|s: int| 0 <= s < idx implies seed(s) != seed(idx as int) by {}
            }
            let ghost prior = out;
            out.pos.push(el);
            out.heap_set(el, idx);
            proof {
                assert forall|s: int|
                    #![trigger out.pos@[s]]
                    0 <= s < idx + 1 implies out.pos@[s] == seed(s) && out.allocated_heap@[seed(s)
                    + out.half()] == s by {
                    if s < idx {
                        assert(prior.pos@[s] == seed(s));
                    }
                }
            }
            idx += 1;
        }
        proof {
            assert forall|j: int| 0 <= j < out.size implies 0 <= #[trigger] out.allocated_heap@[j]
                < out.size && out.pos@[out.allocated_heap@[j] as int] == j - out.half() by {
                let s = unseed(j - out.half());
                assert(out.pos@[s] == seed(s));
            }
            assert(out.window() =~= Seq::<E>::empty());
        }
        Ok(out)
    }

    fn admits(&self, el: E) -> (r: bool) {
        true
    }

    fn reads(&self) -> (r: bool) {
        if self.data.len() == 0 {
            assert(self.window() =~= Seq::<E>::empty());
            return true;
        }
        proof {
            self.lemma_slot(0);
            self.lemma_middle();
        }
        if self.min_ct < self.max_ct {
            proof {
                self.lemma_slot(-1);
            }
            let el = self.data[self.heap(0)];
            let other = self.data[self.heap(-1)];
            el.checked_add(other).is_some()
        } else {
            true
        }
    }

    fn next(&mut self, el: E) {
        proof {
            self.lemma_slot(0);
            self.lemma_next_place();
            lemma_wrap(self.idx, self.size);
        }
        let p = self.pos[self.idx];
        let mut old = None;
        let ghost before = *self;
        if self.data.len() <= self.idx {
            self.data.push(el);
        } else {
            old = Some(self.data[self.idx]);
            self.data[self.idx] = el;
        }
        self.idx = (self.idx + 1) % self.size;
        if p > 0 {
            if self.min_ct < self.above() {
                self.min_ct += 1;
            } else {
                proof {
                    E::law_order(el, old.unwrap());
                    self.lemma_arrival(&before, el, place(p));
                }
                if el > old.unwrap() {
                    self.min_sort_down(p);
                    return ;
                }
            }
            proof {
                self.lemma_arrival(&before, el, place(p));
            }
            if self.min_sort_up(p) && self.cmp_exch(0, -1) {
                self.max_sort_down(-1);
            } else {
                proof {
                    if self.hole(0) {
                        self.lemma_pivot_side(true);
                    }
                    self.lemma_settle();
                }
            }
        } else if p < 0 {
            if self.max_ct < self.below() {
                self.max_ct += 1;
            } else {
                proof {
                    E::law_order(el, old.unwrap());
                    self.lemma_arrival(&before, el, place(p));
                }
                if el < old.unwrap() {
                    self.max_sort_down(p);
                    return ;
                }
            }
            proof {
                self.lemma_arrival(&before, el, place(p));
            }
            if self.max_sort_up(p) && self.min_ct != 0 && self.cmp_exch(1, 0) {
                self.min_sort_down(1);
            } else {
                proof {
                    self.lemma_settle();
                }
            }
        } else {
            proof {
                self.lemma_arrival(&before, el, 0);
            }
            if self.max_ct != 0 && self.max_sort_up(-1) {
                self.max_sort_down(-1);
            }
            proof {
                if self.ordered() {
                    self.lemma_open(0);
                }
            }
            if self.min_ct != 0 && self.min_sort_up(1) {
                self.min_sort_down(1);
            } else {
                proof {
                    self.lemma_settle();
                }
            }
        }
    }

    fn value(&self) -> (r: Option<E>)
        ensures
            r is Some ==> r.unwrap().val() == crate::stats::median(
                crate::stats::vals(self.window()),
            ),
    {
        if self.data.len() == 0 {
            assert(self.window() =~= Seq::<E>::empty());
            None
        } else {
            proof {
                self.lemma_slot(0);
                self.lemma_middle();
            }
            let el = self.data[self.heap(0)];
            if self.min_ct < self.max_ct {
                proof {
                    self.lemma_slot(-1);
                }
                let other = self.data[self.heap(-1)];
                let one = E::Divider::one();
                proof {
                    E::Divider::law_range(one);
                    E::Divider::law_add(one, one);
                    E::law_add(el, other);
                    E::law_share(el.add_spec(other), one.add_spec(one));
                    E::law_range(el.add_spec(other));
                    crate::number::lemma_quotient_bounds(el.val() + other.val(), 2);
                }
                let mean = (el + other) / (one + one);
                proof {
                    crate::number::lemma_of_int(mean);
                }
                Some(mean)
            } else {
                proof {
                    crate::number::lemma_of_int(el);
                }
                Some(el)
            }
        }
    }
}

} // verus!
