//! The mathematical model of the allocator: a usable capacity and one
//! occupancy flag per unit, with the first-fit rule stated over them.

use vstd::prelude::*;

verus! {

/// Number of units the occupancy table can track; the ceiling of every
/// allocator's capacity.
pub const BITMAP_SIZE: usize = 4096;

/// Abstract state of an allocator.
pub struct Occupancy {
    /// Units `0 .. capacity` can be handed out.
    pub capacity: nat,
    /// One flag per unit of the table; `true` means occupied.
    pub bits: Seq<bool>,
}

impl Occupancy {
    /// The table has its fixed length, the capacity fits in it, and no unit
    /// at or past the capacity is occupied.
    pub open spec fn wf(self) -> bool {
        &&& self.capacity <= BITMAP_SIZE
        &&& self.bits.len() == BITMAP_SIZE
        &&& forall|i: int| self.capacity <= i < BITMAP_SIZE ==> !self.bits[i]
    }

    /// The state with the given capacity and every unit free.
    pub open spec fn empty(capacity: nat) -> Occupancy {
        Occupancy { capacity, bits: Seq::new(BITMAP_SIZE as nat, |i: int| false) }
    }

    /// Unit `i` is inside the table and occupied.
    pub open spec fn occupied(self, i: int) -> bool {
        0 <= i < self.bits.len() && self.bits[i]
    }

    /// Unit `i` belongs to the run of `size` units that starts at `start`.
    pub open spec fn in_run(i: int, start: int, size: nat) -> bool {
        start <= i < start + size
    }

    /// Every unit of the run `[start, start + size)` is free.
    pub open spec fn run_free(self, start: int, size: nat) -> bool {
        forall|i: int| start <= i < start + size ==> !self.bits[i]
    }

    /// `start` is a candidate the search tries, and the run there is free:
    /// a multiple of `align` strictly below `capacity - size` whose `size`
    /// units are all free.
    pub open spec fn fits(self, start: int, size: nat, align: nat) -> bool {
        &&& 0 <= start
        &&& start % (align as int) == 0
        &&& start + size < self.capacity
        &&& self.run_free(start, size)
    }

    /// `start` fits and no lower offset does.
    pub open spec fn is_lowest_fit(self, start: int, size: nat, align: nat) -> bool {
        &&& self.fits(start, size, align)
        &&& forall|t: int| #[trigger] self.fits(t, size, align) ==> start <= t
    }

    /// The offset a request is answered with: the lowest offset that fits,
    /// or `None` when none does.
    pub open spec fn first_fit(self, size: nat, align: nat) -> Option<int> {
        if exists|s: int| self.fits(s, size, align) {
            Some(choose|s: int| self.is_lowest_fit(s, size, align))
        } else {
            None
        }
    }

    /// The state with the run `[start, start + size)` occupied and every
    /// other unit as before.
    pub open spec fn mark(self, start: int, size: nat) -> Occupancy {
        Occupancy {
            capacity: self.capacity,
            bits: Seq::new(self.bits.len(), |i: int| Self::in_run(i, start, size) || self.bits[i]),
        }
    }

    /// The state with the run `[start, start + size)` free and every other
    /// unit as before.
    pub open spec fn clear(self, start: int, size: nat) -> Occupancy {
        Occupancy {
            capacity: self.capacity,
            bits: Seq::new(
                self.bits.len(),
                |i: int| !Self::in_run(i, start, size) && self.bits[i],
            ),
        }
    }

    /// The state a request leaves behind: the chosen run marked, or nothing
    /// changed when the request fails.
    pub open spec fn after_alloc(self, size: nat, align: nat) -> Occupancy {
        match self.first_fit(size, align) {
            Some(start) => self.mark(start, size),
            None => self,
        }
    }
}

/// Between a multiple of `align` and the next one there is no other.
pub proof fn lemma_multiples_are_spaced(align: int, start: int, t: int)
    requires
        align > 0,
        start % align == 0,
        t % align == 0,
        start < t,
    ensures
        start + align <= t,
{
    assert(start + align <= t) by (nonlinear_arith)
        requires
            align > 0,
            start % align == 0,
            t % align == 0,
            start < t,
    ;
}

/// The next candidate after a multiple of `align` is again a multiple.
pub proof fn lemma_next_multiple(align: int, start: int)
    requires
        align > 0,
        start % align == 0,
    ensures
        (start + align) % align == 0,
{
    assert((start + align) % align == 0) by (nonlinear_arith)
        requires
            align > 0,
            start % align == 0,
    ;
}

/// An offset is the answer exactly when it fits and nothing below it does.
pub proof fn lemma_first_fit_is_lowest(m: Occupancy, size: nat, align: nat, start: int)
    ensures
        m.first_fit(size, align) == Some(start) <==> m.is_lowest_fit(start, size, align),
{
    if m.is_lowest_fit(start, size, align) {
        let c = choose|s: int| m.is_lowest_fit(s, size, align);
        assert(m.is_lowest_fit(c, size, align));
        assert(c == start);
    }
    if m.first_fit(size, align) == Some(start) {
        let w = choose|s: int| m.fits(s, size, align);
        lemma_lowest_fit_exists(m, size, align, w);
    }
}

/// Where some offset fits, a lowest fitting offset exists.
pub proof fn lemma_lowest_fit_exists(m: Occupancy, size: nat, align: nat, w: int)
    requires
        m.fits(w, size, align),
    ensures
        exists|s: int| m.is_lowest_fit(s, size, align),
    decreases w,
{
    if exists|t: int| m.fits(t, size, align) && t < w {
        let t = choose|t: int| m.fits(t, size, align) && t < w;
        lemma_lowest_fit_exists(m, size, align, t);
    } else {
        assert(m.is_lowest_fit(w, size, align));
    }
}

} // verus!
