//! The allocator itself: a bit table in bytes, searched first-fit.

use crate::bits::{bit_at, get_bit, lemma_with_bit, lemma_zero_byte, set_bit};
use crate::model::{
    lemma_first_fit_is_lowest, lemma_multiples_are_spaced, lemma_next_multiple, Occupancy,
    BITMAP_SIZE,
};
use vstd::prelude::*;

verus! {

/// Bytes needed to hold one bit per unit of the table.
const BITMAP_BYTES: usize = BITMAP_SIZE / 8;

/// Hands out contiguous runs of units from a pool of fixed capacity and
/// takes them back; one bit per unit records what is occupied.
pub struct BitmapVectorAllocator {
    /// Units `0 .. capacity` may be handed out.
    capacity: usize,
    /// Bit `i` is set while unit `i` is occupied.
    bitmap: [u8; BITMAP_BYTES],
}

impl View for BitmapVectorAllocator {
    type V = Occupancy;

    closed spec fn view(&self) -> Occupancy {
        Occupancy {
            capacity: self.capacity as nat,
            bits: Seq::new(BITMAP_SIZE as nat, |i: int| bit_at(self.bitmap@, i)),
        }
    }
}

impl BitmapVectorAllocator {
    /// The allocator is in a state that its operations produce.
    pub open spec fn wf(&self) -> bool {
        self@.wf()
    }

    /// Creates an allocator with every unit free. A capacity larger than the
    /// table is cut down to `BITMAP_SIZE`.
    pub fn new(capacity: usize) -> (r: Self)
        ensures
            r.wf(),
            r@ == Occupancy::empty(
                if capacity <= BITMAP_SIZE {
                    capacity as nat
                } else {
                    BITMAP_SIZE as nat
                },
            ),
    {
        let r = BitmapVectorAllocator {
            capacity: if capacity <= BITMAP_SIZE {
                capacity
            } else {
                BITMAP_SIZE
            },
            bitmap: [0u8;BITMAP_BYTES],
        };
        proof {
            assert forall|i: int| 0 <= i < BITMAP_SIZE implies !bit_at(r.bitmap@, i) by {
                lemma_zero_byte((i % 8) as u8);
            }
            assert(r@.bits =~= Occupancy::empty(r.capacity as nat).bits);
        }
        r
    }

    /// The usable capacity: offsets handed out lie below it.
    pub fn capacity(&self) -> (c: usize)
        ensures
            c == self@.capacity,
    {
        self.capacity
    }

    /// Whether unit `index` is occupied. Units outside the table are not.
    pub fn is_occupied(&self, index: usize) -> (b: bool)
        ensures
            b == self@.occupied(index as int),
    {
        index < BITMAP_SIZE && get_bit(&self.bitmap, index)
    }

    /// Whether every unit of the run `[start, start + size)` is free.
    fn run_is_free(&self, start: usize, size: usize) -> (b: bool)
        requires
            start + size <= BITMAP_SIZE,
        ensures
            b == self@.run_free(start as int, size as nat),
    {
        let end: usize = start + size;
        let mut i: usize = start;
        while i < end
            invariant
                start <= i <= end,
                end == start + size,
                end <= BITMAP_SIZE,
                forall|j: int| start <= j < i ==> !self@.bits[j],
            decreases end - i,
        {
            if get_bit(&self.bitmap, i) {
                assert(self@.bits[i as int]);
                return false;
            }
            i += 1;
        }
        true
    }

    /// Sets every unit of the run `[start, start + size)` to `value`.
    fn set_run(&mut self, start: usize, size: usize, value: bool)
        requires
            start + size <= BITMAP_SIZE,
        ensures
            final(self)@ == (if value {
                old(self)@.mark(start as int, size as nat)
            } else {
                old(self)@.clear(start as int, size as nat)
            }),
    {
        let end: usize = start + size;
        let mut i: usize = start;
        while i < end
            invariant
                start <= i <= end,
                end == start + size,
                end <= BITMAP_SIZE,
                self.capacity == old(self).capacity,
                forall|j: int|
                    0 <= j < BITMAP_SIZE ==> self@.bits[j] == (if start <= j < i {
                        value
                    } else {
                        old(self)@.bits[j]
                    }),
            decreases end - i,
        {
            let ghost before = *self;
            set_bit(&mut self.bitmap, i, value);
            proof {
                assert forall|j: int| 0 <= j < BITMAP_SIZE implies self@.bits[j] == (if j == i {
                    value
                } else {
                    before@.bits[j]
                }) by {
                    lemma_with_bit(before.bitmap@, i as int, value, j);
                }
            }
            i += 1;
        }
        proof {
            if value {
                assert(self@.bits =~= old(self)@.mark(start as int, size as nat).bits);
            } else {
                assert(self@.bits =~= old(self)@.clear(start as int, size as nat).bits);
            }
        }
    }

    /// Finds the lowest offset that is a multiple of `align`, lies strictly
    /// below `capacity - size` and starts `size` free units, marks that run
    /// occupied and returns the offset. Returns `None`, and changes nothing,
    /// when no such offset exists; a request of `capacity` units or more
    /// never succeeds. A request of zero units is answered with offset 0
    /// whenever the capacity is not zero, and occupies nothing.
    ///
    /// `align` is the distance between the offsets that are tried and must
    /// be at least 1.
    pub fn allocate(&mut self, size: usize, align: usize) -> (r: Option<usize>)
        requires
            old(self).wf(),
            align >= 1,
        ensures
            final(self).wf(),
            old(self)@.first_fit(size as nat, align as nat) == (match r {
                Some(start) => Some(start as int),
                None => None,
            }),
            final(self)@ == old(self)@.after_alloc(size as nat, align as nat),
            final(self)@.capacity == old(self)@.capacity,
            match r {
                Some(start) => {
                    &&& start % align == 0
                    &&& start + size < final(self)@.capacity
                    &&& old(self)@.run_free(start as int, size as nat)
                    &&& forall|i: int| start <= i < start + size ==> final(self)@.occupied(i)
                    &&& forall|i: int|
                        0 <= i < BITMAP_SIZE && !(start <= i < start + size) ==> final(self)@.bits[i]
                            == old(self)@.bits[i]
                    &&& forall|t: int|
                        0 <= t < start ==> !#[trigger] old(self)@.fits(t, size as nat, align as nat)
                },
                None => {
                    &&& final(self)@ == old(self)@
                    &&& forall|t: int| !#[trigger] old(self)@.fits(t, size as nat, align as nat)
                },
            },
    {
        if size >= self.capacity {
            return None;
        }
        let limit: usize = self.capacity - size;
        let mut start: usize = 0;
        while start < limit
            invariant
                *self == *old(self),
                self.wf(),
                align >= 1,
                size < self.capacity,
                limit == self.capacity - size,
                start % align == 0,
                forall|t: int|
                    0 <= t < start ==> !#[trigger] self@.fits(t, size as nat, align as nat),
            decreases limit - start,
        {
            if self.run_is_free(start, size) {
                self.set_run(start, size, true);
                proof {
                    assert(old(self)@.is_lowest_fit(start as int, size as nat, align as nat));
                    lemma_first_fit_is_lowest(old(self)@, size as nat, align as nat, start as int);
                }
                return Some(start);
            }
            if align >= limit - start {
                proof {
                    assert forall|t: int| start < t implies !#[trigger] self@.fits(
                        t,
                        size as nat,
                        align as nat,
                    ) by {
                        if t % (align as int) == 0 {
                            lemma_multiples_are_spaced(align as int, start as int, t);
                        }
                    }
                }
                return None;
            }
            proof {
                assert forall|t: int| start < t < start + align implies !#[trigger] self@.fits(
                    t,
                    size as nat,
                    align as nat,
                ) by {
                    if t % (align as int) == 0 {
                        lemma_multiples_are_spaced(align as int, start as int, t);
                    }
                }
                lemma_next_multiple(align as int, start as int);
            }
            start += align;
        }
        None
    }

    /// Frees every unit of the run `[start, start + size)`, whatever was
    /// occupied in it. The unit at `start` must be occupied: releasing a run
    /// that does not start on an occupied unit is a caller's error, which
    /// this function does not accept. That the run is one that `allocate`
    /// returned is not checked, only that it ends inside the table; units at
    /// or past the capacity are free before and after. `_align` is taken for
    /// symmetry and ignored.
    pub fn dealloc(&mut self, start: usize, size: usize, _align: usize)
        requires
            old(self).wf(),
            old(self)@.occupied(start as int),
            start + size <= BITMAP_SIZE,
        ensures
            final(self).wf(),
            final(self)@ == old(self)@.clear(start as int, size as nat),
            final(self)@.capacity == old(self)@.capacity,
            forall|i: int| start <= i < start + size ==> !final(self)@.bits[i],
            forall|i: int|
                0 <= i < BITMAP_SIZE && !(start <= i < start + size) ==> final(self)@.bits[i]
                    == old(self)@.bits[i],
    {
        self.set_run(start, size, false);
    }
}

} // verus!
