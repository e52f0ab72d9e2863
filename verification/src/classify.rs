//! Classification of enumerated block devices: which can be edited, and what their
//! table holds.

use vstd::prelude::*;
use crate::descriptor::{
    all_readable, discovered, BlockDevice, ChildBlockDevice, GptHeader, LsblkResult,
};
use crate::device::{
    distinct_numbers, modification_map_reserve, modification_map_with_capacity, numbers_of,
    staged_numbers, CompatDevice, Device,
};
use crate::disk::{Disk, RawDisk};
use crate::layout::{free_aligned, layout, partitions_of, placeable, sort_by_start};
use crate::number_pool::NumberPool;
use crate::partition::{MemPartition, MemTableEntry};
use crate::text::{same_text, trim, trimmed};

verus! {

/// Why devices could not be loaded.
#[derive(Debug, Clone, Copy, PartialEq, Eq, Structural)]
pub enum LoadError {
    /// The enumeration of the devices failed, or describes a device that cannot exist.
    Enumeration,
    /// The header of the partition table of a device could not be read.
    GptRead,
    /// The enumeration holds no device that can be shown.
    NoDevices,
}

impl BlockDevice {
    /// Whether the device is a disk.
    pub open spec fn is_disk(&self) -> bool {
        self.devtype@ == "disk"@
    }

    /// Whether the partition table is a GUID partition table (`true`) or a legacy table
    /// (`false`); `None` for a table of another kind or none.
    pub open spec fn table_is_gpt(&self) -> Option<bool> {
        match self.pttype {
            Some(kind) => if kind@ == "gpt"@ {
                Some(true)
            } else if kind@ == "dos"@ {
                Some(false)
            } else {
                None
            },
            None => None,
        }
    }

    /// Whether the header of the partition table has to be read to classify the device.
    pub open spec fn needs_header(&self) -> bool {
        self.is_disk() && self.table_is_gpt() == Some(true)
    }

    /// The devices below this one.
    pub open spec fn children_seq(&self) -> Seq<ChildBlockDevice> {
        match self.children {
            Some(children) => children@,
            None => Seq::empty(),
        }
    }

    /// The sentinels of the disk: the sector before the first usable one and the sector
    /// behind the last usable one for a GUID partition table, the first sector and the
    /// count of sectors for a legacy table.
    pub open spec fn sentinels(&self, gpt: Option<GptHeader>) -> (u64, u64) {
        if self.table_is_gpt() == Some(true) {
            ((gpt.unwrap().first_usable_lba - 1) as u64, (gpt.unwrap().last_usable_lba + 1) as u64)
        } else {
            (0, self.size / (self.log_sec as u64))
        }
    }

    /// The partitions of the device that enter the table.
    pub open spec fn parts(&self) -> Seq<MemPartition> {
        discovered(self.children_seq(), self.log_sec, self.table_is_gpt() == Some(true))
    }

    /// Whether the description is one of a device that can exist, as far as the
    /// classification reads it.
    ///
    /// A disk has a model. Where its table is of a known kind and the header, if one is
    /// needed, was read: the table has an identifier, sectors have a size, the header
    /// leaves room for its sentinels, byte sizes fit in 64 bits, and the partitions that
    /// enter the table are at most 256 with distinct numbers that can stand together
    /// between the sentinels.
    pub open spec fn classifiable(&self, gpt: Option<GptHeader>) -> bool {
        self.is_disk() ==> {
            &&& self.model is Some
            &&& match self.table_is_gpt() {
                None => true,
                Some(is_gpt) => (is_gpt && gpt is None) || {
                    &&& self.ptuuid is Some
                    &&& self.log_sec > 0
                    &&& is_gpt ==> gpt.unwrap().first_usable_lba >= 1
                        && gpt.unwrap().last_usable_lba < u64::MAX
                    &&& self.sentinels(gpt).1 * self.log_sec <= u64::MAX
                    &&& all_readable(self.children_seq(), self.log_sec)
                    &&& self.parts().len() <= 256
                    &&& placeable(
                        self.sentinels(gpt).0,
                        self.parts(),
                        self.sentinels(gpt).1,
                        self.log_sec,
                    )
                    &&& distinct_numbers(self.parts())
                },
            }
        }
    }
}

/// Whether `result` is the classification of `dev`, where `gpt` is what was read from
/// the header of its partition table.
///
/// A device that is no disk is passed over. A disk without a table of a known kind can
/// only be shown. A disk with a GUID partition table whose header could not be read
/// fails. Any other disk can be edited: its table holds the partitions that are not
/// mounted, in ascending order, with the free regions between them, and the pool holds
/// their numbers.
pub open spec fn classification(
    dev: BlockDevice,
    gpt: Option<GptHeader>,
    result: Result<Option<Device>, LoadError>,
) -> bool {
    if !dev.is_disk() {
        result == Ok::<Option<Device>, LoadError>(None)
    } else {
        match dev.table_is_gpt() {
            None => {
                &&& result matches Ok(Some(Device::Incompatible(raw)))
                &&& raw.model@ == trimmed(dev.model.unwrap()@)
                &&& raw.path == dev.path
                &&& raw.size == dev.size
                &&& raw.sector_size == dev.log_sec
            },
            Some(is_gpt) => if is_gpt && gpt is None {
                result == Err::<Option<Device>, LoadError>(LoadError::GptRead)
            } else {
                &&& result matches Ok(Some(Device::Compatible(device)))
                &&& device.disk.model@ == trimmed(dev.model.unwrap()@)
                &&& device.disk.path == dev.path
                &&& device.disk.id == dev.ptuuid.unwrap()
                &&& device.disk.size == dev.size
                &&& device.disk.starting_lba == dev.sentinels(gpt).0
                &&& device.disk.ending_lba == dev.sentinels(gpt).1
                &&& device.disk.sector_size == dev.log_sec
                &&& device.disk.is_gpt == is_gpt
                &&& device.mem_table@ == layout(
                    dev.sentinels(gpt).0,
                    sort_by_start(dev.parts()),
                    dev.sentinels(gpt).1,
                    dev.log_sec,
                )
                &&& device.number_pool@ == numbers_of(dev.parts())
                &&& staged_numbers(device.modification_map) == Seq::<u16>::empty()
            },
        }
    }
}

/// The numbers of partitions with one more behind them are those from before and its
/// own.
pub proof fn lemma_numbers_push(parts: Seq<MemPartition>, part: MemPartition)
    ensures
        numbers_of(parts.push(part)) == numbers_of(parts).insert(part.number),
{
    let more = parts.push(part);
    assert forall|n: u16| numbers_of(more).contains(n) <==> numbers_of(parts).insert(
        part.number,
    ).contains(n) by {
        if numbers_of(more).contains(n) {
            let i = choose|i: int| 0 <= i < more.len() && (#[trigger] more[i]).number == n;
            if i < parts.len() {
                assert(parts[i].number == n);
            }
        }
        if numbers_of(parts).contains(n) {
            let i = choose|i: int| 0 <= i < parts.len() && (#[trigger] parts[i]).number == n;
            assert(more[i].number == n);
        }
        if n == part.number {
            assert(more[parts.len() as int].number == n);
        }
    }
    assert(numbers_of(more) =~= numbers_of(parts).insert(part.number));
}

/// The partitions as entries of a table.
fn entries_of(parts: Vec<MemPartition>) -> (entries: Vec<MemTableEntry>)
    ensures
        entries.len() == parts.len(),
        partitions_of(entries@) == parts@,
{
    let mut entries: Vec<MemTableEntry> = Vec::new();
    let ghost all = parts@;
    assert(partitions_of(entries@) =~= all.take(0));
    for part in it: parts
        invariant
            it.seq() == all,
            entries.len() == it.index(),
            partitions_of(entries@) == all.take(it.index() as int),
    {
        let ghost shown = entries@;
        entries.push(MemTableEntry::Partition(part));
        assert(entries@.drop_last() =~= shown);
        assert(all.take(it.index() as int).push(part) =~= all.take(it.index() + 1));
    }
    assert(all.take(all.len() as int) =~= all);
    entries
}

/// Reads the partitions that enter the table from the children of a device; `None`
/// where the last sector of one of them cannot be computed.
fn discover(children: Vec<ChildBlockDevice>, sector_size: u16, is_gpt: bool) -> (found: Option<
    Vec<MemPartition>,
>)
    requires
        sector_size > 0,
    ensures
        found is Some <==> all_readable(children@, sector_size),
        found matches Some(parts) ==> parts@ == discovered(children@, sector_size, is_gpt),
{
    let ghost all = children@;
    let mut parts: Vec<MemPartition> = Vec::new();
    let mut readable = true;
    assert(discovered(all.take(0), sector_size, is_gpt) =~= parts@);
    for child in it: children
        invariant
            it.seq() == all,
            sector_size > 0,
            readable <==> all_readable(all.take(it.index() as int), sector_size),
            readable ==> parts@ == discovered(all.take(it.index() as int), sector_size, is_gpt),
    {
        let ghost seen = all.take(it.index() as int);
        let ghost more = all.take(it.index() + 1);
        proof {
            assert(more.drop_last() =~= seen);
            assert(more.last() == child);
            assert forall|i: int| 0 <= i < seen.len() implies seen[i] == more[i] by {}
            if all_readable(more, sector_size) {
                assert forall|i: int|
                    0 <= i < seen.len() && (#[trigger] seen[i]).is_editable() implies seen[i].is_readable(
                    sector_size,
                ) by {
                    assert(more[i].is_editable());
                }
            }
        }
        if readable && child.mountpoint.is_none() && same_text(child.devtype.as_str(), "part") {
            let sectors = child.size / (sector_size as u64);
            let last = match child.start.checked_add(sectors) {
                Some(behind) => behind >= 1,
                None => false,
            };
            if last {
                match MemPartition::from_raw(child, sector_size, is_gpt) {
                    Some(part) => {
                        parts.push(part);
                    },
                    None => {},
                }
            } else {
                assert(more[it.index() as int].is_editable());
                readable = false;
            }
        }
        proof {
            if readable {
                assert forall|i: int|
                    0 <= i < more.len() && (#[trigger] more[i]).is_editable() implies more[i].is_readable(
                    sector_size,
                ) by {
                    if i < seen.len() {
                        assert(seen[i].is_editable());
                    }
                }
            }
        }
    }
    assert(all.take(all.len() as int) =~= all);
    if readable {
        Some(parts)
    } else {
        None
    }
}

/// Whether the partitions can stand together between the sentinels.
fn is_placeable(lo: u64, parts: &Vec<MemPartition>, hi: u64, sector_size: u16) -> (fits: bool)
    ensures
        fits == placeable(lo, parts@, hi, sector_size),
{
    let mut i: usize = 0;
    while i < parts.len()
        invariant
            i <= parts.len(),
            forall|k: int|
                0 <= k < i ==> (#[trigger] parts@[k]).wf(sector_size) && lo < parts@[k].start
                    && parts@[k].end < hi,
            forall|k: int, m: int|
                0 <= k < i && 0 <= m < k ==> parts@[k].end < parts@[m].start || parts@[m].end
                    < parts@[k].start,
        decreases parts.len() - i,
    {
        let part = &parts[i];
        if !part.is_wf(sector_size) || part.start <= lo || part.end >= hi {
            return false;
        }
        let mut j: usize = 0;
        while j < i
            invariant
                j <= i < parts.len(),
                part == parts@[i as int],
                forall|m: int|
                    0 <= m < j ==> part.end < parts@[m].start || parts@[m].end < part.start,
            decreases i - j,
        {
            let other = &parts[j];
            if !(part.end < other.start || other.end < part.start) {
                return false;
            }
            j += 1;
        }
        i += 1;
    }
    assert forall|k: int, m: int|
        0 <= k < parts.len() && 0 <= m < parts.len() && k != m implies parts@[k].end
        < parts@[m].start || parts@[m].end < parts@[k].start by {
        if m < k {
        } else {
            assert(parts@[m].end < parts@[k].start || parts@[k].end < parts@[m].start);
        }
    }
    true
}

/// Whether no two of the partitions have the same number.
fn has_distinct_numbers(parts: &Vec<MemPartition>) -> (distinct: bool)
    ensures
        distinct == distinct_numbers(parts@),
{
    let mut i: usize = 0;
    while i < parts.len()
        invariant
            i <= parts.len(),
            forall|k: int, m: int|
                0 <= m < k < i ==> (#[trigger] parts@[k]).number != (#[trigger] parts@[m]).number,
        decreases parts.len() - i,
    {
        let mut j: usize = 0;
        while j < i
            invariant
                j <= i < parts.len(),
                forall|m: int|
                    0 <= m < j ==> parts@[i as int].number != (#[trigger] parts@[m]).number,
            decreases i - j,
        {
            if parts[i].number == parts[j].number {
                return false;
            }
            j += 1;
        }
        i += 1;
    }
    assert forall|k: int, m: int|
        0 <= k < parts.len() && 0 <= m < parts.len() && k != m implies (
    #[trigger] parts@[k]).number != (#[trigger] parts@[m]).number by {
        if m < k {
        } else {
            assert(parts@[m].number != parts@[k].number);
        }
    }
    true
}

/// The device with the given partitions: the pool holds their numbers and the table
/// holds them with the free regions between them.
fn assemble(disk: Disk, parts: Vec<MemPartition>) -> (device: CompatDevice)
    requires
        disk.wf(),
        parts.len() <= 256,
        placeable(disk.starting_lba, parts@, disk.ending_lba, disk.sector_size),
        distinct_numbers(parts@),
    ensures
        device.disk == disk,
        device.mem_table@ == layout(
            disk.starting_lba,
            sort_by_start(parts@),
            disk.ending_lba,
            disk.sector_size,
        ),
        device.number_pool@ == numbers_of(parts@),
        staged_numbers(device.modification_map) == Seq::<u16>::empty(),
        device.wf(),
        free_aligned(device.mem_table@),
{
    let mut number_pool = NumberPool::new();
    let mut i: usize = 0;
    assert(numbers_of(parts@.take(0)) =~= Set::<u16>::empty());
    while i < parts.len()
        invariant
            i <= parts.len(),
            placeable(disk.starting_lba, parts@, disk.ending_lba, disk.sector_size),
            number_pool@ == numbers_of(parts@.take(i as int)),
        decreases parts.len() - i,
    {
        proof {
            assert(parts@[i as int].wf(disk.sector_size));
            lemma_numbers_push(parts@.take(i as int), parts@[i as int]);
            assert(parts@.take(i as int).push(parts@[i as int]) =~= parts@.take(i + 1));
        }
        number_pool.set_used(parts[i].number);
        i += 1;
    }
    assert(parts@.take(parts.len() as int) =~= parts@);
    let mut mem_table = entries_of(parts);
    let mut modification_map = modification_map_with_capacity(mem_table.len());
    mem_table.reserve(5);
    modification_map_reserve(&mut modification_map, 5);
    let mut device = CompatDevice { disk, mem_table, number_pool, modification_map };
    device.fill_free_space();
    device
}

impl BlockDevice {
    /// Whether the header of the partition table has to be read to classify the device.
    pub fn wants_gpt_header(&self) -> (wanted: bool)
        ensures
            wanted == self.needs_header(),
    {
        same_text(self.devtype.as_str(), "disk") && match &self.pttype {
            Some(kind) => same_text(kind.as_str(), "gpt"),
            None => false,
        }
    }
}

impl Device {
    /// Classifies an enumerated device. `gpt` is what was read from the header of its
    /// partition table, `None` where the header was not read or could not be read.
    ///
    /// A description of a device that cannot exist is refused as a failed enumeration.
    pub fn classify(dev: BlockDevice, gpt: Option<GptHeader>) -> (result: Result<
        Option<Device>,
        LoadError,
    >)
        ensures
            if dev.classifiable(gpt) {
                classification(dev, gpt, result)
            } else {
                result == Err::<Option<Device>, LoadError>(LoadError::Enumeration)
            },
            result matches Ok(Some(Device::Compatible(device))) ==> device.wf() && free_aligned(
                device.mem_table@,
            ),
    {
        let BlockDevice { size, log_sec, path, devtype, model, pttype, ptuuid, children } = dev;
        if !same_text(devtype.as_str(), "disk") {
            return Ok(None);
        }
        let model = match model {
            Some(text) => trim(text.as_str()).to_owned(),
            None => {
                return Err(LoadError::Enumeration);
            },
        };
        let sector_size = log_sec;
        let table = match &pttype {
            Some(kind) => if same_text(kind.as_str(), "gpt") {
                Some(true)
            } else if same_text(kind.as_str(), "dos") {
                Some(false)
            } else {
                None
            },
            None => None,
        };
        let is_gpt = match table {
            Some(is_gpt) => is_gpt,
            None => {
                return Ok(
                    Some(Device::Incompatible(RawDisk { model, path, size, sector_size })),
                );
            },
        };
        if is_gpt && gpt.is_none() {
            return Err(LoadError::GptRead);
        }
        if sector_size == 0 {
            return Err(LoadError::Enumeration);
        }
        let (starting_lba, ending_lba) = match gpt {
            Some(header) if is_gpt => {
                if header.first_usable_lba < 1 || header.last_usable_lba == u64::MAX {
                    return Err(LoadError::Enumeration);
                }
                (header.first_usable_lba - 1, header.last_usable_lba + 1)
            },
            _ => (0, size / (sector_size as u64)),
        };
        if ending_lba.checked_mul(sector_size as u64).is_none() {
            return Err(LoadError::Enumeration);
        }
        let id = match ptuuid {
            Some(id) => id,
            None => {
                return Err(LoadError::Enumeration);
            },
        };
        let children = match children {
            Some(children) => children,
            None => Vec::new(),
        };
        let parts = match discover(children, sector_size, is_gpt) {
            Some(parts) => parts,
            None => {
                return Err(LoadError::Enumeration);
            },
        };
        if parts.len() > 256 || !is_placeable(starting_lba, &parts, ending_lba, sector_size)
            || !has_distinct_numbers(&parts) {
            return Err(LoadError::Enumeration);
        }
        let disk = Disk { model, path, id, size, starting_lba, ending_lba, sector_size, is_gpt };
        Ok(Some(Device::Compatible(assemble(disk, parts))))
    }

    /// Classifies an enumerated device that can exist. `gpt` is what was read from the
    /// header of its partition table, `None` where the header was not read or could not
    /// be read.
    pub fn new_from(dev: BlockDevice, gpt: Option<GptHeader>) -> (result: Result<
        Option<Device>,
        LoadError,
    >)
        requires
            dev.classifiable(gpt),
        ensures
            classification(dev, gpt, result),
            result matches Ok(Some(Device::Compatible(device))) ==> device.wf() && free_aligned(
                device.mem_table@,
            ),
    {
        Self::classify(dev, gpt)
    }
}

/// What was read from the header of the partition table of the `index`-th device;
/// `None` where the list of headers does not reach so far.
pub open spec fn header_at(headers: Seq<Option<GptHeader>>, index: int) -> Option<GptHeader> {
    if 0 <= index < headers.len() {
        headers[index]
    } else {
        None
    }
}

/// Whether every one of the described devices can exist.
pub open spec fn all_classifiable(devs: Seq<BlockDevice>, headers: Seq<Option<GptHeader>>) -> bool {
    forall|i: int| 0 <= i < devs.len() ==> (#[trigger] devs[i]).classifiable(header_at(headers, i))
}

/// Whether `devices` are the described devices as classified, in their order: a device
/// that is no disk is passed over and a disk whose header could not be read is left
/// out.
pub open spec fn loaded(
    devs: Seq<BlockDevice>,
    headers: Seq<Option<GptHeader>>,
    devices: Seq<Device>,
) -> bool
    decreases devs.len(),
{
    if devs.len() == 0 {
        devices.len() == 0
    } else {
        let dev = devs.last();
        let gpt = header_at(headers, devs.len() - 1);
        if !dev.is_disk() || (dev.needs_header() && gpt is None) {
            loaded(devs.drop_last(), headers, devices)
        } else {
            &&& devices.len() > 0
            &&& classification(dev, gpt, Ok(Some(devices.last())))
            &&& loaded(devs.drop_last(), headers, devices.drop_last())
        }
    }
}

/// Classifies the devices of an enumeration. `headers` holds, for each device in turn,
/// what was read from the header of its partition table.
///
/// A description of a device that cannot exist fails the whole enumeration. A disk
/// whose header could not be read is left out, and the others are classified.
pub fn get_devices(listing: LsblkResult, headers: Vec<Option<GptHeader>>) -> (result: Result<
    Vec<Device>,
    LoadError,
>)
    ensures
        match result {
            Ok(devices) => all_classifiable(listing.blockdevices@, headers@) && loaded(
                listing.blockdevices@,
                headers@,
                devices@,
            ) && forall|i: int|
                0 <= i < devices.len() ==> ((
                #[trigger] devices@[i]) matches Device::Compatible(device) ==> device.wf()),
            Err(error) => error == LoadError::Enumeration && !all_classifiable(
                listing.blockdevices@,
                headers@,
            ),
        },
{
    let LsblkResult { blockdevices } = listing;
    let ghost all = blockdevices@;
    let count = blockdevices.len();
    let mut devices: Vec<Device> = Vec::new();
    let mut index: usize = 0;
    for dev in it: blockdevices
        invariant
            it.seq() == all,
            all == listing.blockdevices@,
            all.len() == count,
            index == it.index(),
            all_classifiable(all.take(index as int), headers@),
            loaded(all.take(index as int), headers@, devices@),
            forall|i: int|
                0 <= i < devices.len() ==> ((
                #[trigger] devices@[i]) matches Device::Compatible(device) ==> device.wf()),
    {
        let gpt = if index < headers.len() {
            headers[index]
        } else {
            None
        };
        let ghost seen = all.take(index as int);
        let ghost more = all.take(index + 1);
        let ghost shown = devices@;
        proof {
            assert(index < all.len());
            assert(more.drop_last() =~= seen);
            assert(more.last() == dev);
            assert(gpt == header_at(headers@, index as int));
            assert forall|i: int| 0 <= i < seen.len() implies seen[i] == more[i] by {}
        }
        match Device::classify(dev, gpt) {
            Ok(Some(device)) => {
                devices.push(device);
                assert(devices@.drop_last() =~= shown);
            },
            Ok(None) => {},
            Err(LoadError::GptRead) => {},
            Err(_) => {
                proof {
                    assert(!all[index as int].classifiable(header_at(headers@, index as int)));
                }
                return Err(LoadError::Enumeration);
            },
        }
        proof {
            assert forall|i: int| 0 <= i < more.len() implies (#[trigger] more[i]).classifiable(
                header_at(headers@, i),
            ) by {
                if i < seen.len() {
                    assert(seen[i].classifiable(header_at(headers@, i)));
                }
            }
        }
        index += 1;
    }
    assert(all.take(all.len() as int) =~= all);
    Ok(devices)
}

} // verus!
