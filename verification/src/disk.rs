//! Descriptions of block devices.

use vstd::prelude::*;

verus! {

/// A device whose partition table is of a recognized kind.
///
/// `starting_lba` and `ending_lba` are sentinels: the sector before the first usable one
/// and the sector after the last usable one.
#[derive(Debug, Clone, PartialEq, Eq)]
pub struct Disk {
    pub model: String,
    pub path: String,
    pub id: String,
    pub size: u64,
    pub starting_lba: u64,
    pub ending_lba: u64,
    pub sector_size: u16,
    pub is_gpt: bool,
}

impl Disk {
    /// Whether sectors have a size and the byte size of every run of sectors below the
    /// upper sentinel fits in 64 bits.
    pub open spec fn wf(&self) -> bool {
        &&& self.sector_size > 0
        &&& self.ending_lba * self.sector_size <= u64::MAX
    }
}

/// A device whose partition table is absent or of an unrecognized kind.
#[derive(Debug, Clone, PartialEq, Eq)]
pub struct RawDisk {
    pub model: String,
    pub path: String,
    pub size: u64,
    pub sector_size: u16,
}

} // verus!
