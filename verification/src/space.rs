//! Extents of sectors: the bare numbers of a region, and unallocated regions.

use vstd::prelude::*;

verus! {

/// Whether the four numbers describe one extent of a device with the given sector size:
/// the bounds are in order, the count is that of the sectors from `start` to `end`,
/// and the byte size is the count times the sector size.
pub open spec fn extent_consistent(
    start: u64,
    end: u64,
    sectors: u64,
    size: u64,
    sector_size: u16,
) -> bool {
    &&& start <= end
    &&& sectors == end - start + 1
    &&& size == sectors * sector_size
}

/// The numbers of a region, detached from what the region is.
#[derive(Debug, Clone, Copy, PartialEq, Eq, Structural)]
pub struct RawSpace {
    pub start: u64,
    pub end: u64,
    pub sectors: u64,
    pub size: u64,
}

/// An unallocated run of sectors.
#[derive(Debug, Clone, Copy, PartialEq, Eq, Structural)]
pub struct DiskSpace {
    pub start: u64,
    pub end: u64,
    pub sectors: u64,
    pub size: u64,
}

impl DiskSpace {
    /// Whether this region is consistent for a device with the given sector size.
    pub open spec fn wf(&self, sector_size: u16) -> bool {
        extent_consistent(self.start, self.end, self.sectors, self.size, sector_size)
    }

    /// A free region with the given numbers.
    pub fn new(start: u64, end: u64, sectors: u64, size: u64) -> (space: Self)
        ensures
            space == (DiskSpace { start, end, sectors, size }),
    {
        DiskSpace { start, end, sectors, size }
    }

    /// Grows this region to the right over `val`, which must begin at the sector after
    /// this region's last one.
    pub fn expand_right(&mut self, val: RawSpace)
        requires
            old(self).end + 1 == val.start,
            old(self).sectors + val.sectors <= u64::MAX,
            old(self).size + val.size <= u64::MAX,
        ensures
            *final(self) == (DiskSpace {
                start: old(self).start,
                end: val.end,
                sectors: (old(self).sectors + val.sectors) as u64,
                size: (old(self).size + val.size) as u64,
            }),
    {
        self.end = val.end;
        self.sectors = self.sectors + val.sectors;
        self.size = self.size + val.size;
    }

    /// Grows this region to the left over `val`, which must end at the sector before
    /// this region's first one.
    pub fn expand_left(&mut self, val: RawSpace)
        requires
            val.end + 1 == old(self).start,
            old(self).sectors + val.sectors <= u64::MAX,
            old(self).size + val.size <= u64::MAX,
        ensures
            *final(self) == (DiskSpace {
                start: val.start,
                end: old(self).end,
                sectors: (old(self).sectors + val.sectors) as u64,
                size: (old(self).size + val.size) as u64,
            }),
    {
        self.start = val.start;
        self.sectors = self.sectors + val.sectors;
        self.size = self.size + val.size;
    }

    /// The numbers of this region.
    pub fn as_raw_space(&self) -> (raw: RawSpace)
        ensures
            raw == (RawSpace {
                start: self.start,
                end: self.end,
                sectors: self.sectors,
                size: self.size,
            }),
    {
        RawSpace { start: self.start, end: self.end, sectors: self.sectors, size: self.size }
    }
}

impl RawSpace {
    /// Whether these numbers are consistent for a device with the given sector size.
    pub open spec fn wf(&self, sector_size: u16) -> bool {
        extent_consistent(self.start, self.end, self.sectors, self.size, sector_size)
    }
}

} // verus!
