//! Partitions and the entries of a partition table held in memory.

use vstd::prelude::*;
use crate::space::{extent_consistent, DiskSpace, RawSpace};
use crate::text::same_text;

verus! {

/// Kind of a partition within its table.
#[derive(Debug, Clone, Copy, PartialEq, Eq, Structural)]
pub enum PartitionType {
    Primary,
    Extended,
    Logical,
}

/// File system that a partition is reported to hold.
#[derive(Debug, Clone, Copy, PartialEq, Eq, Structural)]
pub enum FileSystem {
    Ext2,
    Ext3,
    Ext4,
    Btrfs,
    Xfs,
    Swap,
    Fat16,
    Fat32,
    ExFat,
    Ntfs,
    Unknown,
}

impl FileSystem {
    /// The lower-case name of the file system.
    pub open spec fn name(self) -> Seq<char> {
        match self {
            FileSystem::Ext2 => "ext2"@,
            FileSystem::Ext3 => "ext3"@,
            FileSystem::Ext4 => "ext4"@,
            FileSystem::Btrfs => "btrfs"@,
            FileSystem::Xfs => "xfs"@,
            FileSystem::Swap => "swap"@,
            FileSystem::Fat16 => "fat16"@,
            FileSystem::Fat32 => "fat32"@,
            FileSystem::ExFat => "exfat"@,
            FileSystem::Ntfs => "ntfs"@,
            FileSystem::Unknown => "unknown"@,
        }
    }

    /// The file system that `text` names, `Unknown` where it names none.
    pub open spec fn named(text: Seq<char>) -> FileSystem {
        if text == "ext2"@ {
            FileSystem::Ext2
        } else if text == "ext3"@ {
            FileSystem::Ext3
        } else if text == "ext4"@ {
            FileSystem::Ext4
        } else if text == "btrfs"@ {
            FileSystem::Btrfs
        } else if text == "xfs"@ {
            FileSystem::Xfs
        } else if text == "swap"@ {
            FileSystem::Swap
        } else if text == "fat16"@ {
            FileSystem::Fat16
        } else if text == "fat32"@ {
            FileSystem::Fat32
        } else if text == "exfat"@ {
            FileSystem::ExFat
        } else if text == "ntfs"@ {
            FileSystem::Ntfs
        } else {
            FileSystem::Unknown
        }
    }

    /// The lower-case name of the file system.
    pub fn as_str(&self) -> (name: &'static str)
        ensures
            name@ == self.name(),
    {
        match self {
            FileSystem::Ext2 => "ext2",
            FileSystem::Ext3 => "ext3",
            FileSystem::Ext4 => "ext4",
            FileSystem::Btrfs => "btrfs",
            FileSystem::Xfs => "xfs",
            FileSystem::Swap => "swap",
            FileSystem::Fat16 => "fat16",
            FileSystem::Fat32 => "fat32",
            FileSystem::ExFat => "exfat",
            FileSystem::Ntfs => "ntfs",
            FileSystem::Unknown => "unknown",
        }
    }

    /// Reads a reported file-system type; empty or unrecognized text gives `Unknown`.
    pub fn from_name(text: &str) -> (fs: FileSystem)
        ensures
            fs == FileSystem::named(text@),
    {
        if same_text(text, "ext2") {
            FileSystem::Ext2
        } else if same_text(text, "ext3") {
            FileSystem::Ext3
        } else if same_text(text, "ext4") {
            FileSystem::Ext4
        } else if same_text(text, "btrfs") {
            FileSystem::Btrfs
        } else if same_text(text, "xfs") {
            FileSystem::Xfs
        } else if same_text(text, "swap") {
            FileSystem::Swap
        } else if same_text(text, "fat16") {
            FileSystem::Fat16
        } else if same_text(text, "fat32") {
            FileSystem::Fat32
        } else if same_text(text, "exfat") {
            FileSystem::ExFat
        } else if same_text(text, "ntfs") {
            FileSystem::Ntfs
        } else {
            FileSystem::Unknown
        }
    }
}

/// A partition of a device, found on disk or staged in memory.
#[derive(Debug, Clone, PartialEq, Eq)]
pub struct MemPartition {
    pub number: u16,
    pub start: u64,
    pub end: u64,
    pub sectors: u64,
    pub size: u64,
    pub bootable: bool,
    pub filesystem: FileSystem,
    pub label: Option<String>,
    pub mountpoint: Option<String>,
    /// Identifier of the partition on disk; absent for one that is only staged in memory.
    pub uuid: Option<String>,
}

impl MemPartition {
    /// Whether the partition is consistent for a device with the given sector size:
    /// its number is one of 1 to 256 and its extent is consistent.
    pub open spec fn wf(&self, sector_size: u16) -> bool {
        &&& 1 <= self.number <= 256
        &&& extent_consistent(self.start, self.end, self.sectors, self.size, sector_size)
    }

    /// Whether the partition is consistent for a device with the given sector size.
    pub fn is_wf(&self, sector_size: u16) -> (consistent: bool)
        ensures
            consistent == self.wf(sector_size),
    {
        if self.number < 1 || self.number > 256 || self.start > self.end {
            return false;
        }
        let span: u64 = self.end - self.start;
        if span == u64::MAX || self.sectors != span + 1 {
            return false;
        }
        match self.sectors.checked_mul(sector_size as u64) {
            Some(size) => self.size == size,
            None => false,
        }
    }

    /// A partition staged in memory with the given number and extent: not bootable,
    /// of unknown file system, without label or mount point.
    pub fn new(number: u16, start: u64, end: u64, sectors: u64, size: u64) -> (part: Self)
        ensures
            part == (MemPartition {
                number,
                start,
                end,
                sectors,
                size,
                bootable: false,
                filesystem: FileSystem::Unknown,
                label: None,
                mountpoint: None,
                uuid: None,
            }),
    {
        MemPartition {
            number,
            start,
            end,
            sectors,
            size,
            bootable: false,
            filesystem: FileSystem::Unknown,
            label: None,
            mountpoint: None,
            uuid: None,
        }
    }

    /// The numbers of this partition's extent.
    pub fn as_raw_space(&self) -> (raw: RawSpace)
        ensures
            raw == (RawSpace {
                start: self.start,
                end: self.end,
                sectors: self.sectors,
                size: self.size,
            }),
    {
        RawSpace { start: self.start, end: self.end, sectors: self.sectors, size: self.size }
    }

    /// Whether the partition exists on disk, as opposed to being staged in memory.
    pub fn is_real(&self) -> (on_disk: bool)
        ensures
            on_disk == self.uuid.is_some(),
    {
        self.uuid.is_some()
    }
}

/// One entry of a partition table in memory: a partition or a free region.
#[derive(Debug, Clone, PartialEq, Eq)]
pub enum MemTableEntry {
    Partition(MemPartition),
    Free(DiskSpace),
}

impl MemTableEntry {
    /// First sector of the entry.
    pub open spec fn first_lba(&self) -> u64 {
        match self {
            MemTableEntry::Free(free) => free.start,
            MemTableEntry::Partition(part) => part.start,
        }
    }

    /// Last sector of the entry.
    pub open spec fn last_lba(&self) -> u64 {
        match self {
            MemTableEntry::Free(free) => free.end,
            MemTableEntry::Partition(part) => part.end,
        }
    }

    /// Whether the entry is a partition with the number `n`.
    pub open spec fn has_number(&self, n: u16) -> bool {
        match self {
            MemTableEntry::Free(_) => false,
            MemTableEntry::Partition(part) => part.number == n,
        }
    }

    /// Whether the entry is consistent for a device with the given sector size.
    pub open spec fn wf(&self, sector_size: u16) -> bool {
        match self {
            MemTableEntry::Free(free) => free.wf(sector_size),
            MemTableEntry::Partition(part) => part.wf(sector_size),
        }
    }

    /// First sector of the entry.
    pub fn start(&self) -> (start: u64)
        ensures
            start == self.first_lba(),
    {
        match self {
            MemTableEntry::Free(free) => free.start,
            MemTableEntry::Partition(part) => part.start,
        }
    }

    /// Last sector of the entry.
    pub fn end(&self) -> (end: u64)
        ensures
            end == self.last_lba(),
    {
        match self {
            MemTableEntry::Free(free) => free.end,
            MemTableEntry::Partition(part) => part.end,
        }
    }
}

} // verus!
