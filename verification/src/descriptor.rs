//! Block devices as an enumeration of the system's devices describes them.

use vstd::prelude::*;
use crate::partition::{FileSystem, MemPartition};
use crate::text::same_text;

verus! {

/// Type of a partition that holds an EFI system.
pub const ESP_GUID: &'static str = "c12a7328-f81f-11d2-ba4b-00a0c93ec93b";

/// Flags of a partition that a legacy table marks as the one to boot from.
pub const BOOT_FLAG: &'static str = "0x80";

/// Type of an extended partition in a legacy table.
pub const EXTENDED_TYPE: &'static str = "0x5";

/// What the header of a GUID partition table says of the sectors that partitions may use.
#[derive(Debug, Clone, Copy, PartialEq, Eq, Structural)]
pub struct GptHeader {
    pub first_usable_lba: u64,
    pub last_usable_lba: u64,
}

/// A device below a block device. Devices below such a device are not described.
#[derive(Debug, Clone, PartialEq, Eq)]
pub struct ChildBlockDevice {
    pub start: u64,
    pub size: u64,
    pub devtype: String,
    pub partn: u16,
    pub partuuid: String,
    pub parttype: String,
    pub partflags: Option<String>,
    pub label: Option<String>,
    pub fstype: Option<String>,
    pub mountpoint: Option<String>,
}

/// A block device with the devices below it.
#[derive(Debug, Clone, PartialEq, Eq)]
pub struct BlockDevice {
    pub size: u64,
    pub log_sec: u16,
    pub path: String,
    pub devtype: String,
    pub model: Option<String>,
    pub pttype: Option<String>,
    pub ptuuid: Option<String>,
    pub children: Option<Vec<ChildBlockDevice>>,
}

/// An enumeration of block devices.
#[derive(Debug, Clone, PartialEq, Eq)]
pub struct LsblkResult {
    pub blockdevices: Vec<BlockDevice>,
}

impl ChildBlockDevice {
    /// Whether the device is a partition.
    pub open spec fn is_part(&self) -> bool {
        self.devtype@ == "part"@
    }

    /// Whether the device is a partition that is not mounted: only such a one enters
    /// the table that is edited.
    pub open spec fn is_editable(&self) -> bool {
        self.mountpoint is None && self.is_part()
    }

    /// Whether the last sector of the device can be computed on a disk with the given
    /// sector size. The byte size of its whole sectors needs no bound of its own: it
    /// does not exceed the reported size.
    pub open spec fn is_readable(&self, sector_size: u16) -> bool {
        1 <= self.start + self.size / (sector_size as u64) <= u64::MAX
    }

    /// Whether the device is marked as the one to boot from: in a GUID partition table
    /// by its type, in a legacy table by its flags.
    pub open spec fn is_bootable(&self, is_gpt: bool) -> bool {
        if is_gpt {
            self.parttype@ == ESP_GUID@
        } else {
            self.partflags matches Some(flags) && flags@ == BOOT_FLAG@
        }
    }

    /// The partition that the device is on a disk with the given sector size: it holds
    /// the whole sectors that the reported size fills, and its size is that of these
    /// sectors.
    pub open spec fn as_partition(&self, sector_size: u16, is_gpt: bool) -> MemPartition {
        let sectors = self.size / (sector_size as u64);
        MemPartition {
            number: self.partn,
            start: self.start,
            end: (self.start + sectors - 1) as u64,
            sectors,
            size: (sectors * sector_size) as u64,
            bootable: self.is_bootable(is_gpt),
            filesystem: match self.fstype {
                Some(name) => FileSystem::named(name@),
                None => FileSystem::Unknown,
            },
            label: self.label,
            mountpoint: None,
            uuid: Some(self.partuuid),
        }
    }
}

/// The partition of a child whose last sector can be computed has the size of its
/// sectors; it is consistent where it has a sector at all and its number is one of 1
/// to 256.
pub proof fn lemma_as_partition(child: ChildBlockDevice, sector_size: u16, is_gpt: bool)
    requires
        sector_size > 0,
        child.is_readable(sector_size),
    ensures
        ({
            let part = child.as_partition(sector_size, is_gpt);
            &&& part.sectors == child.size / (sector_size as u64)
            &&& part.end == part.start + part.sectors - 1
            &&& part.size == part.sectors * sector_size
            &&& part.size <= child.size
            &&& part.wf(sector_size) <==> child.size >= sector_size && 1 <= child.partn <= 256
        }),
{
    let sectors = child.size / (sector_size as u64);
    assert(0 <= sectors * sector_size <= child.size) by (nonlinear_arith)
        requires
            sectors == child.size / (sector_size as u64),
            sector_size > 0,
    ;
    assert(sectors >= 1 <==> child.size >= sector_size) by (nonlinear_arith)
        requires
            sectors == child.size / (sector_size as u64),
            sector_size > 0,
    ;
}

/// The partitions that enter the table: those of the children that are partitions and
/// not mounted, in the order of the children.
pub open spec fn discovered(children: Seq<ChildBlockDevice>, sector_size: u16, is_gpt: bool) -> Seq<
    MemPartition,
>
    decreases children.len(),
{
    if children.len() == 0 {
        Seq::empty()
    } else {
        let before = discovered(children.drop_last(), sector_size, is_gpt);
        if children.last().is_editable() {
            before.push(children.last().as_partition(sector_size, is_gpt))
        } else {
            before
        }
    }
}

/// Whether the last sector of every child that enters the table can be computed.
pub open spec fn all_readable(children: Seq<ChildBlockDevice>, sector_size: u16) -> bool {
    forall|i: int|
        0 <= i < children.len() && (#[trigger] children[i]).is_editable() ==> children[i].is_readable(
            sector_size,
        )
}

impl MemPartition {
    /// Reads a partition from the description of a device; `None` where the device is
    /// no partition.
    pub fn from_raw(dev: ChildBlockDevice, sector_size: u16, is_gpt: bool) -> (part: Option<
        MemPartition,
    >)
        requires
            sector_size > 0,
            dev.is_part() ==> dev.is_readable(sector_size),
        ensures
            part == (if dev.is_part() {
                Some(dev.as_partition(sector_size, is_gpt))
            } else {
                None
            }),
    {
        if !same_text(dev.devtype.as_str(), "part") {
            return None;
        }
        let bootable = if is_gpt {
            same_text(dev.parttype.as_str(), ESP_GUID)
        } else {
            match &dev.partflags {
                Some(flags) => same_text(flags.as_str(), BOOT_FLAG),
                None => false,
            }
        };
        let filesystem = match &dev.fstype {
            Some(name) => FileSystem::from_name(name.as_str()),
            None => FileSystem::Unknown,
        };
        proof {
            lemma_as_partition(dev, sector_size, is_gpt);
        }
        let sectors = dev.size / (sector_size as u64);
        let size = sectors * (sector_size as u64);
        let number = dev.partn;
        let start = dev.start;
        let end = start + sectors - 1;
        Some(
            MemPartition {
                number,
                start,
                end,
                sectors,
                size,
                bootable,
                filesystem,
                label: dev.label,
                mountpoint: None,
                uuid: Some(dev.partuuid),
            },
        )
    }
}

} // verus!
