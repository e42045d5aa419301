//! What holds of every allocator state, proved over the model: where
//! allocations land, when they fail, and how releasing undoes them.

use crate::model::{lemma_first_fit_is_lowest, Occupancy, BITMAP_SIZE};
use vstd::prelude::*;

verus! {

/// Every offset handed out lies below the capacity, and the capacity never
/// exceeds the size of the table.
pub proof fn lemma_offset_below_capacity(m: Occupancy, size: nat, align: nat, start: int)
    requires
        m.wf(),
        m.first_fit(size, align) == Some(start),
    ensures
        0 <= start < m.capacity,
        m.capacity <= BITMAP_SIZE,
        start < BITMAP_SIZE,
{
    lemma_first_fit_is_lowest(m, size, align, start);
}

/// A successful request returns a multiple of `align` whose run ends inside
/// the capacity and was free; afterwards every unit of the run is occupied,
/// every other unit is as before, and the state is still well formed.
pub proof fn lemma_allocated_run(m: Occupancy, size: nat, align: nat, start: int)
    requires
        m.wf(),
        m.first_fit(size, align) == Some(start),
    ensures
        start % (align as int) == 0,
        0 <= start,
        start + size <= m.capacity,
        m.run_free(start, size),
        m.after_alloc(size, align).wf(),
        m.after_alloc(size, align).capacity == m.capacity,
        forall|i: int| start <= i < start + size ==> m.after_alloc(size, align).occupied(i),
        forall|i: int|
            0 <= i < BITMAP_SIZE && !(start <= i < start + size) ==> m.after_alloc(
                size,
                align,
            ).bits[i] == m.bits[i],
{
    lemma_first_fit_is_lowest(m, size, align, start);
}

/// The answer depends on the state and the request alone: two offsets that
/// each qualify as the answer are the same offset.
pub proof fn lemma_answer_is_unique(m: Occupancy, size: nat, align: nat, a: int, b: int)
    requires
        m.is_lowest_fit(a, size, align),
        m.is_lowest_fit(b, size, align),
    ensures
        a == b,
        m.first_fit(size, align) == Some(a),
{
    lemma_first_fit_is_lowest(m, size, align, a);
}

/// Among all offsets that fit, the lowest is chosen: whatever else fits lies
/// at or above the answer.
pub proof fn lemma_lowest_is_chosen(m: Occupancy, size: nat, align: nat, start: int, other: int)
    requires
        m.first_fit(size, align) == Some(start),
        m.fits(other, size, align),
    ensures
        m.fits(start, size, align),
        start <= other,
{
    lemma_first_fit_is_lowest(m, size, align, start);
}

/// A request fails exactly when no offset fits. In particular it fails when
/// no aligned run of `size` free units lies inside the capacity, and when
/// `size` is not below the capacity. A failed request changes nothing.
pub proof fn lemma_exhaustion(m: Occupancy, size: nat, align: nat)
    ensures
        m.first_fit(size, align) is None <==> forall|s: int| !#[trigger] m.fits(s, size, align),
        (forall|s: int|
            0 <= s && s % (align as int) == 0 && s + size <= m.capacity ==> !#[trigger] m.run_free(
                s,
                size,
            )) ==> m.first_fit(size, align) is None,
        size >= m.capacity ==> m.first_fit(size, align) is None,
        m.first_fit(size, align) is None ==> m.after_alloc(size, align) == m,
{
    if m.first_fit(size, align) is Some {
        let start = m.first_fit(size, align)->0;
        lemma_first_fit_is_lowest(m, size, align, start);
    }
}

/// Releasing a run right after it was allocated restores the state from
/// before the request, so the same request is answered with the same offset
/// again. For a run of at least one unit the release is permitted: its first
/// unit is occupied and it ends inside the table.
pub proof fn lemma_round_trip(m: Occupancy, size: nat, align: nat, start: int)
    requires
        m.wf(),
        m.first_fit(size, align) == Some(start),
    ensures
        size >= 1 ==> m.after_alloc(size, align).occupied(start),
        start + size <= BITMAP_SIZE,
        m.after_alloc(size, align).clear(start, size) == m,
        m.after_alloc(size, align).clear(start, size).first_fit(size, align) == Some(start),
{
    lemma_first_fit_is_lowest(m, size, align, start);
    assert(m.after_alloc(size, align).clear(start, size).bits =~= m.bits);
}

/// A successful request never returns a unit that is occupied, and leaves
/// every occupied unit occupied: a run stays clear of later allocations for
/// as long as it is not released.
pub proof fn lemma_allocation_avoids_occupied(
    m: Occupancy,
    size: nat,
    align: nat,
    start: int,
    i: int,
)
    requires
        m.wf(),
        m.first_fit(size, align) == Some(start),
        m.occupied(i),
    ensures
        !Occupancy::in_run(i, start, size),
        m.after_alloc(size, align).occupied(i),
{
    lemma_first_fit_is_lowest(m, size, align, start);
}

/// Two requests answered one after the other, with no release in between,
/// return runs that share no unit.
pub proof fn lemma_sequential_allocations_disjoint(
    m: Occupancy,
    size1: nat,
    align1: nat,
    start1: int,
    size2: nat,
    align2: nat,
    start2: int,
)
    requires
        m.wf(),
        align1 >= 1,
        align2 >= 1,
        m.first_fit(size1, align1) == Some(start1),
        m.after_alloc(size1, align1).first_fit(size2, align2) == Some(start2),
    ensures
        forall|i: int|
            !(Occupancy::in_run(i, start1, size1) && Occupancy::in_run(i, start2, size2)),
        start1 + size1 <= start2 || start2 + size2 <= start1,
{
    let m1 = m.after_alloc(size1, align1);
    lemma_first_fit_is_lowest(m, size1, align1, start1);
    lemma_first_fit_is_lowest(m1, size2, align2, start2);
    assert forall|i: int|
        !(Occupancy::in_run(i, start1, size1) && Occupancy::in_run(i, start2, size2)) by {
        if Occupancy::in_run(i, start1, size1) {
            assert(m1.bits[i]);
        }
    }
    if size1 > 0 && size2 > 0 {
        if start1 <= start2 {
            assert(!Occupancy::in_run(start2, start1, size1) || !Occupancy::in_run(
                start2,
                start2,
                size2,
            ));
        } else {
            assert(!Occupancy::in_run(start1, start1, size1) || !Occupancy::in_run(
                start1,
                start2,
                size2,
            ));
        }
    } else if size1 == 0 {
        assert(0int % (align1 as int) == 0) by (nonlinear_arith)
            requires
                align1 >= 1,
        ;
        assert(m.fits(0, size1, align1));
    } else {
        assert(0int % (align2 as int) == 0) by (nonlinear_arith)
            requires
                align2 >= 1,
        ;
        assert(m1.fits(0, size2, align2));
    }
}

} // verus!
