//! Alignment of region starts to the sector boundary used for new regions.

use vstd::prelude::*;

verus! {

/// Sector boundary that the start of every computed free region is rounded up to.
pub const DEFAULT_ALIGN: u64 = 2048;

/// The smallest multiple of the alignment constant that is not below `lba`.
pub open spec fn align_up(lba: int) -> int {
    ((lba + 2047) / 2048) * 2048
}

/// Whether `lba` lies on an alignment boundary.
pub open spec fn is_aligned(lba: int) -> bool {
    lba % 2048 == 0
}

/// `align_up` yields a boundary, moves forward by less than one alignment unit,
/// and no boundary lies between its argument and its result.
pub proof fn lemma_align_up(lba: int)
    ensures
        is_aligned(align_up(lba)),
        lba <= align_up(lba) < lba + 2048,
        forall|m: int| is_aligned(m) && lba <= m ==> align_up(lba) <= m,
        is_aligned(lba) ==> align_up(lba) == lba,
{
    assert forall|m: int| is_aligned(m) && lba <= m implies align_up(lba) <= m by {
        assert(m == (m / 2048) * 2048);
        if m < align_up(lba) {
            assert(m / 2048 < (lba + 2047) / 2048);
            assert(m / 2048 + 1 <= (lba + 2047) / 2048);
            assert((m / 2048 + 1) * 2048 <= lba + 2047);
        }
    }
}

/// Rounds `lba` up to the next alignment boundary, or reports that none fits in 64 bits.
pub fn aligned_start(lba: u64) -> (r: Option<u64>)
    ensures
        r == if align_up(lba as int) <= u64::MAX {
            Some(align_up(lba as int) as u64)
        } else {
            None::<u64>
        },
{
    let rem: u64 = lba % DEFAULT_ALIGN;
    if rem == 0 {
        Some(lba)
    } else {
        let pad: u64 = DEFAULT_ALIGN - rem;
        lba.checked_add(pad)
    }
}

} // verus!
