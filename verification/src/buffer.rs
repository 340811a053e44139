//! A bounded circular buffer: once it holds `size` elements, each further
//! push overwrites the oldest element. `to_vector` hands the held elements
//! back oldest first.

use vstd::prelude::*;

verus! {

/// A circular buffer over a fixed capacity chosen at construction.
///
/// The elements live in `vec`; `start_index` points at the oldest element
/// once the buffer is full, and `next_index` at the slot the next push
/// writes. The public `len` field tracks how many elements are held.
pub struct CircularBuffer<T: Default + Clone> {
    vec: Vec<T>,
    start_index: usize,
    next_index: usize,
    pub len: usize,
    size: usize,
}

impl<T: Default + Clone> View for CircularBuffer<T> {
    type V = Seq<T>;

    /// The held elements, oldest first.
    closed spec fn view(&self) -> Seq<T> {
        self.vec@.subrange(self.start_index as int, self.vec@.len() as int) + self.vec@.subrange(
            0,
            self.start_index as int,
        )
    }
}

impl<T: Default + Clone> CircularBuffer<T> {
    /// Capacity the buffer was created with.
    pub closed spec fn spec_size(self) -> nat {
        self.size as nat
    }

    /// Value of the public `len` field: how many elements are held.
    pub closed spec fn spec_len(self) -> nat {
        self.len as nat
    }

    /// Internal consistency: the vector holds exactly the elements pushed so
    /// far (capped at the capacity), the start index is meaningful only once
    /// the buffer is full, and the next index always stays in range.
    pub closed spec fn wf(self) -> bool {
        &&& self.vec@.len() == self.len
        &&& self.len <= self.size
        &&& self.start_index <= self.len
        &&& (self.len < self.size ==> self.start_index == 0 && self.next_index == self.len)
        &&& (self.len == self.size && self.size > 0 ==> self.start_index == self.next_index
            && self.next_index < self.size)
    }

    /// A buffer that can hold up to `size` elements.
    pub fn new(size: usize) -> (b: CircularBuffer<T>)
        ensures
            b.wf(),
            b@ == Seq::<T>::empty(),
            b.spec_len() == 0,
            b.spec_size() == size,
    {
        let b = CircularBuffer { vec: Vec::new(), start_index: 0, next_index: 0, len: 0, size };
        proof {
            assert(b@ =~= Seq::<T>::empty());
        }
        b
    }

    /// Append `v`. While the buffer is not yet full the element count grows;
    /// once it is full the oldest element is dropped to make room.
    pub fn push(&mut self, v: T)
        requires
            old(self).wf(),
            old(self).spec_size() > 0,
        ensures
            final(self).wf(),
            final(self).spec_size() == old(self).spec_size(),
            old(self)@.len() < old(self).spec_size() ==> final(self)@ == old(self)@.push(v),
            old(self)@.len() == old(self).spec_size() ==> final(self)@ == old(self)@.subrange(
                1,
                old(self)@.len() as int,
            ).push(v),
            final(self).spec_len() == final(self)@.len(),
    {
        if self.vec.len() < self.size {
            self.vec.push(v);
            self.len = self.vec.len();
            self.next_index = if self.next_index + 1 == self.size {
                0
            } else {
                self.next_index + 1
            };
            if self.len == self.size {
                self.start_index = self.next_index;
            }
            proof {
                assert(self@ =~= old(self)@.push(v));
            }
        } else {
            let slot = self.next_index;
            self.vec[slot] = v;
            self.next_index = if slot + 1 == self.size {
                0
            } else {
                slot + 1
            };
            self.start_index = self.next_index;
            proof {
                assert(self@ =~= old(self)@.subrange(1, old(self)@.len() as int).push(v));
            }
        }
    }

    /// The held elements as a fresh vector, oldest first.
    pub fn to_vector(&self) -> (r: Vec<T>)
        requires
            self.wf(),
        ensures
            r@.len() == self@.len(),
            forall|i: int| 0 <= i < r@.len() ==> cloned::<T>(self@[i], r@[i]),
    {
        let mut r: Vec<T> = Vec::new();
        let mut k = self.start_index;
        let mut i: usize = 0;
        while i < self.len
            invariant
                self.wf(),
                i <= self.len,
                r@.len() == i,
                k == if self.start_index + i < self.spec_size() {
                    self.start_index + i
                } else {
                    (self.start_index + i) - self.spec_size()
                },
                forall|j: int| 0 <= j < i ==> cloned::<T>(self@[j], r@[j]),
            decreases self.len - i,
        {
            r.push(self.vec[k].clone());
            k = if k + 1 == self.size {
                0
            } else {
                k + 1
            };
            i += 1;
        }
        proof {
            assert(self@.len() == self.vec@.len());
        }
        r
    }
}

} // verus!
