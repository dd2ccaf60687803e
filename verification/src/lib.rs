//! A fixed-capacity circular (ring) buffer.
//!
//! `CircBuf<T, SIZE>` holds at most `SIZE` elements. Pushing onto a full
//! buffer silently evicts the oldest element; popping returns elements in
//! first-in-first-out order. Random access and iteration both present the
//! live elements from oldest to newest.

use vstd::prelude::*;

mod laws;

verus! {

/// Physical cell index for the logical offset `k = start + i`, given that
/// `0 <= k < 2 * cap`: the storage wraps around once at `cap`.
pub open spec fn wrap_index(k: int, cap: int) -> int {
    if k < cap {
        k
    } else {
        k - cap
    }
}

/// Logical offset (distance from `start`, going forward with wrap-around)
/// of the physical cell `j`, for `0 <= start < cap` and `0 <= j < cap`.
/// This is the inverse of `wrap_index`: `logical_pos(start, wrap_index(start + i, cap), cap) == i`
/// for `0 <= i < cap`.
pub open spec fn logical_pos(start: int, j: int, cap: int) -> int {
    if j >= start {
        j - start
    } else {
        j - start + cap
    }
}

/// The logical sequence after one push onto a buffer of capacity `cap`
/// whose live elements are `s`: while there is room the value is appended;
/// on a full buffer the oldest element is evicted to make room; with no
/// capacity at all nothing is retained.
pub open spec fn pushed<T>(s: Seq<T>, cap: nat, v: T) -> Seq<T> {
    if s.len() < cap {
        s.push(v)
    } else if cap > 0 {
        s.subrange(1, s.len() as int).push(v)
    } else {
        s
    }
}

/// A circular buffer with a fixed capacity `SIZE`.
///
/// The live elements occupy the cells at physical positions
/// `(start + i) mod SIZE` for `i in [0, len)`; every other cell holds
/// nothing. The buffer's view (`self@`) is the sequence of live elements
/// from oldest to newest.
pub struct CircBuf<T, const SIZE: usize> {
    /// Physical index of the oldest live element.
    start: usize,
    /// Number of live elements.
    len: usize,
    /// Backing storage: exactly `SIZE` cells, live ones holding `Some`.
    data: Vec<Option<T>>,
}

impl<T, const SIZE: usize> View for CircBuf<T, SIZE> {
    type V = Seq<T>;

    closed spec fn view(&self) -> Seq<T> {
        Seq::new(
            self.len as nat,
            |i: int| self.data@[wrap_index(self.start + i, SIZE as int)]->0,
        )
    }
}

impl<T, const SIZE: usize> CircBuf<T, SIZE> {
    /// Well-formedness: the storage has exactly `SIZE` cells, the start
    /// offset and element count are in range, and a cell holds a value
    /// exactly when it lies in the live range.
    pub closed spec fn wf(&self) -> bool {
        &&& self.data@.len() == SIZE
        &&& self.len <= SIZE
        &&& if SIZE == 0 {
            self.start == 0
        } else {
            self.start < SIZE
        }
        &&& forall|j: int|
            0 <= j < SIZE ==> ((#[trigger] self.data@[j]) is Some <==> logical_pos(
                self.start as int,
                j,
                SIZE as int,
            ) < self.len)
    }

    /// Physical start offset, for contracts that speak of the storage layout.
    pub closed spec fn spec_start(&self) -> nat {
        self.start as nat
    }

    /// Create a new, empty circular buffer of the specified size.
    pub fn new() -> (r: Self)
        ensures
            r.wf(),
            r@ == Seq::<T>::empty(),
            r.spec_start() == 0,
    {
        let mut data: Vec<Option<T>> = Vec::new();
        let mut i: usize = 0;
        while i < SIZE
            invariant
                i <= SIZE,
                data@.len() == i,
                forall|j: int| 0 <= j < i ==> (#[trigger] data@[j]) is None,
            decreases SIZE - i,
        {
            data.push(None);
            i += 1;
        }
        let r = CircBuf { start: 0, len: 0, data };
        proof {
            assert(r@ =~= Seq::<T>::empty());
        }
        r
    }

    /// Add a new element to the buffer.
    ///
    /// While the buffer is not full the element is appended after the
    /// newest one. On a full buffer the oldest element is evicted to make
    /// room; a buffer with no capacity at all retains nothing.
    pub fn push(&mut self, elem: T)
        requires
            old(self).wf(),
        ensures
            final(self).wf(),
            final(self)@ == pushed(old(self)@, SIZE as nat, elem),
            old(self)@.len() < SIZE ==> final(self)@ == old(self)@.push(elem),
            old(self)@.len() == SIZE && SIZE > 0 ==> final(self)@ == old(self)@.subrange(
                1,
                SIZE as int,
            ).push(elem),
            SIZE == 0 ==> *final(self) == *old(self),
            SIZE > 0 && old(self)@.len() < SIZE ==> final(self).spec_start() == old(
                self,
            ).spec_start(),
            SIZE > 0 && old(self)@.len() == SIZE ==> final(self).spec_start() as int == wrap_index(
                old(self).spec_start() as int + 1,
                SIZE as int,
            ),
    {
        if SIZE == 0 {
            return;
        }
        let room: usize = SIZE - self.start;
        let write_idx: usize = if self.len >= room {
            self.len - room
        } else {
            self.start + self.len
        };
        proof {
            assert(write_idx == wrap_index(self.start + self.len, SIZE as int));
        }
        self.data[write_idx] = Some(elem);

        if self.len == SIZE {
            self.start = if self.start + 1 == SIZE {
                0
            } else {
                self.start + 1
            };
            proof {
                assert forall|j: int| 0 <= j < SIZE implies ((#[trigger] self.data@[j]) is Some
                    <==> logical_pos(self.start as int, j, SIZE as int) < self.len) by {
                    assert(self.data@[j] is Some);
                }
                assert(final(self)@ =~= old(self)@.subrange(1, SIZE as int).push(elem)) by {
                    assert forall|i: int| 0 <= i < SIZE implies final(self)@[i] == old(
                        self,
                    )@.subrange(1, SIZE as int).push(elem)[i] by {
                        if i < SIZE - 1 {
                            assert(wrap_index(self.start + i, SIZE as int) == wrap_index(
                                old(self).start + (i + 1),
                                SIZE as int,
                            ));
                            assert(wrap_index(self.start + i, SIZE as int) != write_idx);
                        } else {
                            assert(wrap_index(self.start + i, SIZE as int) == write_idx);
                        }
                    }
                }
            }
        } else {
            self.len = self.len + 1;
            proof {
                assert forall|j: int| 0 <= j < SIZE implies ((#[trigger] self.data@[j]) is Some
                    <==> logical_pos(self.start as int, j, SIZE as int) < self.len) by {
                    if j == write_idx {
                        assert(logical_pos(self.start as int, j, SIZE as int) == old(self).len);
                    } else {
                        assert(logical_pos(self.start as int, j, SIZE as int) != old(self).len);
                    }
                }
                assert(final(self)@ =~= old(self)@.push(elem)) by {
                    assert forall|i: int| 0 <= i < self.len implies final(self)@[i] == old(
                        self,
                    )@.push(elem)[i] by {
                        if i < old(self).len {
                            assert(wrap_index(self.start + i, SIZE as int) != write_idx);
                        } else {
                            assert(wrap_index(self.start + i, SIZE as int) == write_idx);
                        }
                    }
                }
            }
        }
    }

    /// Remove the oldest element from the buffer and return it if it
    /// exists. Otherwise return `None` and leave the buffer untouched.
    pub fn pop(&mut self) -> (r: Option<T>)
        requires
            old(self).wf(),
        ensures
            final(self).wf(),
            old(self)@.len() == 0 ==> r is None && *final(self) == *old(self),
            old(self)@.len() > 0 ==> r == Some(old(self)@[0]) && final(self)@ == old(
                self,
            )@.subrange(1, old(self)@.len() as int) && final(self).spec_start() as int
                == wrap_index(old(self).spec_start() as int + 1, SIZE as int),
    {
        if self.len == 0 {
            None
        } else {
            proof {
                assert(logical_pos(self.start as int, self.start as int, SIZE as int) == 0);
            }
            let elem: Option<T> = self.data[self.start].take();

            let ghost old_start = self.start as int;
            self.start = if self.start + 1 == SIZE {
                0
            } else {
                self.start + 1
            };
            self.len = self.len - 1;

            proof {
                assert forall|j: int| 0 <= j < SIZE implies ((#[trigger] self.data@[j]) is Some
                    <==> logical_pos(self.start as int, j, SIZE as int) < self.len) by {
                    if j == old_start {
                        assert(self.data@[j] is None);
                        assert(logical_pos(self.start as int, j, SIZE as int) == SIZE - 1);
                    } else {
                        assert(logical_pos(self.start as int, j, SIZE as int) == logical_pos(
                            old_start,
                            j,
                            SIZE as int,
                        ) - 1);
                    }
                }
                assert(final(self)@ =~= old(self)@.subrange(1, old(self)@.len() as int)) by {
                    assert forall|i: int| 0 <= i < self.len implies final(self)@[i] == old(
                        self,
                    )@.subrange(1, old(self)@.len() as int)[i] by {
                        assert(wrap_index(self.start + i, SIZE as int) == wrap_index(
                            old_start + (i + 1),
                            SIZE as int,
                        ));
                        assert(wrap_index(self.start + i, SIZE as int) != old_start);
                    }
                }
            }
            elem
        }
    }

    /// A reference to the `i`-th oldest live element, counting from zero.
    ///
    /// Callers must stay within the live range: `i` has to be smaller than
    /// the current length.
    pub fn get(&self, i: usize) -> (r: &T)
        requires
            self.wf(),
            i < self@.len(),
        ensures
            *r == self@[i as int],
    {
        if i >= self.len {
            unreached()
        } else {
            let room: usize = SIZE - self.start;
            let phys: usize = if i >= room {
                i - room
            } else {
                self.start + i
            };
            proof {
                assert(phys == wrap_index(self.start + i, SIZE as int));
                assert(logical_pos(self.start as int, phys as int, SIZE as int) == i);
            }
            match &self.data[phys] {
                Some(v) => v,
                None => unreached(),
            }
        }
    }

    /// A mutable reference to the `i`-th oldest live element, counting from
    /// zero.
    ///
    /// Writing through the reference replaces that element alone: the
    /// length, the order, and every other element stay as they were.
    pub fn get_mut(&mut self, i: usize) -> (r: &mut T)
        requires
            old(self).wf(),
            i < old(self)@.len(),
        ensures
            *r == old(self)@[i as int],
            final(self).wf(),
            final(self)@ =~= old(self)@.update(i as int, *final(r)),
    {
        if i >= self.len {
            unreached()
        } else {
            let room: usize = SIZE - self.start;
            let phys: usize = if i >= room {
                i - room
            } else {
                self.start + i
            };
            proof {
                assert(phys == wrap_index(self.start + i, SIZE as int));
                assert(logical_pos(self.start as int, phys as int, SIZE as int) == i);
            }
            match self.data[phys].as_mut() {
                Some(v) => v,
                None => unreached(),
            }
        }
    }

    /// Get the number of values currently stored in the buffer.
    pub fn len(&self) -> (r: usize)
        ensures
            r == self@.len(),
    {
        self.len
    }

    /// Returns `true` if the buffer contains no elements.
    pub fn is_empty(&self) -> (r: bool)
        ensures
            r == (self@.len() == 0),
    {
        self.len == 0
    }

    /// Returns `true` if the buffer is full and would evict a value on the
    /// next push.
    pub fn is_full(&self) -> (r: bool)
        ensures
            r == (self@.len() == SIZE),
    {
        self.len == SIZE
    }

    /// A look at the physical storage cell `j`: the live element stored
    /// there, or `None` for a cell outside the live range.
    ///
    /// The cell `j` holds the element whose logical position is the
    /// forward distance from the start offset to `j`, wrapping around at
    /// the capacity.
    pub fn cell(&self, j: usize) -> (r: Option<&T>)
        requires
            self.wf(),
            j < SIZE,
        ensures
            ({
                let p = logical_pos(self.spec_start() as int, j as int, SIZE as int);
                &&& (p < self@.len() ==> (r matches Some(v) && *v == self@[p]))
                &&& (p >= self@.len() ==> r is None)
            }),
    {
        proof {
            let p = logical_pos(self.spec_start() as int, j as int, SIZE as int);
            assert(wrap_index(self.start + p, SIZE as int) == j);
        }
        match &self.data[j] {
            Some(v) => Some(v),
            None => None,
        }
    }

    /// Returns an iterator over the elements in the buffer, oldest first.
    pub fn iter<'a>(&'a self) -> (r: Iter<'a, T, SIZE>)
        requires
            self.wf(),
        ensures
            r.wf(),
            r.elements() == self@,
            r.pos() == 0,
    {
        Iter { buf: self, idx: 0 }
    }
}

impl<T, const SIZE: usize> Default for CircBuf<T, SIZE> {
    /// An empty buffer, the same as `CircBuf::new` produces.
    fn default() -> (r: Self)
        ensures
            r.wf(),
            r@ == Seq::<T>::empty(),
    {
        Self::new()
    }
}

/// A cursor over the elements of a circular buffer, oldest first.
/// Created from a `CircBuf` using [`CircBuf::iter`].
///
/// Each call to [`CircBuf::iter`] yields an independent cursor; the cursor
/// borrows the buffer, so the buffer cannot be mutated while the cursor is
/// alive.
pub struct Iter<'a, T, const SIZE: usize> {
    /// The buffer being iterated over.
    buf: &'a CircBuf<T, SIZE>,
    /// Logical position of the next element to yield.
    idx: usize,
}

impl<'a, T, const SIZE: usize> Iter<'a, T, SIZE> {
    /// The full sequence of elements the cursor walks over, oldest first.
    pub closed spec fn elements(&self) -> Seq<T> {
        self.buf@
    }

    /// How many elements the cursor has yielded so far.
    pub closed spec fn pos(&self) -> nat {
        self.idx as nat
    }

    /// Well-formedness: the buffer is well formed and the cursor has not
    /// run past the end.
    pub closed spec fn wf(&self) -> bool {
        &&& self.buf.wf()
        &&& self.idx <= self.buf@.len()
    }

    /// The next element in oldest-to-newest order, or `None` once every
    /// live element has been yielded.
    pub fn next(&mut self) -> (r: Option<&'a T>)
        requires
            old(self).wf(),
        ensures
            final(self).wf(),
            final(self).elements() == old(self).elements(),
            old(self).pos() < old(self).elements().len() ==> (r matches Some(v) && *v == old(
                self,
            ).elements()[old(self).pos() as int] && final(self).pos() == old(self).pos() + 1),
            old(self).pos() >= old(self).elements().len() ==> r is None && final(self).pos()
                == old(self).pos(),
    {
        if self.idx < self.buf.len() {
            let elem = self.buf.get(self.idx);
            self.idx = self.idx + 1;
            Some(elem)
        } else {
            None
        }
    }

    /// The exact number of elements in the underlying buffer, as a lower
    /// and upper bound in the manner of an iterator size hint.
    pub fn size_hint(&self) -> (r: (usize, Option<usize>))
        ensures
            r.0 == self.elements().len(),
            r.1 == Some(r.0),
    {
        (self.buf.len(), Some(self.buf.len()))
    }
}

} // verus!
