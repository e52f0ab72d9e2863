//! Creation and deletion of partitions in the table of a device.

use vstd::prelude::*;
use crate::align::{align_up, is_aligned, lemma_align_up};
use crate::device::{distinct_numbers, numbers_of, CompatDevice};
use crate::layout::{
    free_aligned, free_between, free_gap, gap_entries, lemma_free_gap, lemma_inserted,
    lemma_partitions_of_concat, lemma_prepend, lemma_table_join, lemma_table_prefix,
    lemma_table_suffix, no_boundary_between, partitions_of, table_wf,
};
use crate::number_pool::{is_lowest_unused, lowest_unused};
use crate::partition::{FileSystem, MemPartition, MemTableEntry};
use crate::size::{bytes_of, lemma_zero, parse_size, size_request};
use crate::space::{DiskSpace, RawSpace};
use crate::text::trimmed;

verus! {

/// Why a partition could not be created.
#[derive(Debug, Clone, Copy, PartialEq, Eq, Structural)]
pub enum EditError {
    /// The text names no size.
    ParseSize,
    /// The size is zero.
    InvalidSize,
    /// The size exceeds the free region.
    OverSize,
    /// All 256 partition numbers are in use.
    NumberPoolExhausted,
}

impl EditError {
    /// The message shown for the error.
    pub fn message(&self) -> (text: &'static str)
        ensures
            text@ == (match self {
                EditError::ParseSize => "Failed to parse size"@,
                EditError::InvalidSize => "Invalid size"@,
                EditError::OverSize => "No enough size"@,
                EditError::NumberPoolExhausted => "No partition number left"@,
            }),
    {
        match self {
            EditError::ParseSize => "Failed to parse size",
            EditError::InvalidSize => "Invalid size",
            EditError::OverSize => "No enough size",
            EditError::NumberPoolExhausted => "No partition number left",
        }
    }
}

/// The size asked for a new partition.
#[derive(Debug, Clone, Copy, PartialEq, Eq, Structural)]
pub enum SizeSpec {
    /// The whole of the free region.
    All,
    /// A count of sectors.
    Sectors(u64),
}

impl SizeSpec {
    /// The count of sectors that the request comes to in a free region of `free_sectors`
    /// sectors: a count of zero is invalid, one above the region is too large.
    pub open spec fn resolved(self, free_sectors: u64) -> Result<u64, EditError> {
        match self {
            SizeSpec::All => Ok(free_sectors),
            SizeSpec::Sectors(count) => if count == 0 {
                Err(EditError::InvalidSize)
            } else if count > free_sectors {
                Err(EditError::OverSize)
            } else {
                Ok(count)
            },
        }
    }

    /// The count of sectors that the request comes to in a free region of `free_sectors`
    /// sectors.
    pub fn resolve(&self, free_sectors: u64) -> (count: Result<u64, EditError>)
        ensures
            count == self.resolved(free_sectors),
    {
        match self {
            SizeSpec::All => Ok(free_sectors),
            SizeSpec::Sectors(count) => if *count == 0 {
                Err(EditError::InvalidSize)
            } else if *count > free_sectors {
                Err(EditError::OverSize)
            } else {
                Ok(*count)
            },
        }
    }
}

/// The partition staged at `start` with the given number and count of sectors.
pub open spec fn staged_partition(number: u16, start: u64, sectors: u64, sector_size: u16) -> MemPartition {
    MemPartition {
        number,
        start,
        end: (start + sectors - 1) as u64,
        sectors,
        size: (sectors * sector_size) as u64,
        bootable: false,
        filesystem: FileSystem::Unknown,
        label: None,
        mountpoint: None,
        uuid: None,
    }
}

/// The table after a partition of `sectors` sectors was created at the start of the free
/// region at `index`: the partition stands in place of the region, and what is left of
/// the region behind it follows as a free region, trimmed to the alignment.
pub open spec fn created_table(
    regions: Seq<MemTableEntry>,
    index: int,
    sectors: u64,
    number: u16,
    sector_size: u16,
) -> Seq<MemTableEntry> {
    let free = regions[index]->Free_0;
    let part = staged_partition(number, free.start, sectors, sector_size);
    regions.take(index) + seq![MemTableEntry::Partition(part)] + gap_entries(
        part.end,
        (free.end + 1) as u64,
        sector_size,
    ) + regions.skip(index + 1)
}

/// Whether a free region stands directly before the entry at `index`.
pub open spec fn free_before(regions: Seq<MemTableEntry>, index: int) -> bool {
    index > 0 && regions[index - 1] is Free
}

/// Whether a free region stands directly behind the entry at `index`.
pub open spec fn free_behind(regions: Seq<MemTableEntry>, index: int) -> bool {
    index + 1 < regions.len() && regions[index + 1] is Free
}

/// The free region of the sectors from `start` to `end`.
pub open spec fn span(start: u64, end: u64, sector_size: u16) -> DiskSpace {
    DiskSpace {
        start,
        end,
        sectors: (end - start + 1) as u64,
        size: ((end - start + 1) * sector_size) as u64,
    }
}

/// The table after the partition at `index` was deleted: one free region stands in
/// place of the partition and the free regions directly before and behind it, from the
/// first sector of the first of them to the last sector of the last.
pub open spec fn deleted_table(regions: Seq<MemTableEntry>, index: int, sector_size: u16) -> Seq<
    MemTableEntry,
> {
    let first = if free_before(regions, index) {
        index - 1
    } else {
        index
    };
    let last = if free_behind(regions, index) {
        index + 1
    } else {
        index
    };
    let merged = span(regions[first].first_lba(), regions[last].last_lba(), sector_size);
    regions.take(first) + seq![MemTableEntry::Free(merged)] + regions.skip(last + 1)
}

/// The partitions of a table of one entry.
pub proof fn lemma_partitions_of_one(entry: MemTableEntry)
    ensures
        partitions_of(seq![entry]) == (match entry {
            MemTableEntry::Partition(part) => seq![part],
            MemTableEntry::Free(_) => Seq::empty(),
        }),
{
    assert(seq![entry].drop_last() =~= Seq::<MemTableEntry>::empty());
    assert(seq![entry].last() == entry);
    assert(partitions_of(Seq::<MemTableEntry>::empty()) =~= Seq::<MemPartition>::empty());
    assert(Seq::<MemPartition>::empty().push(entry->Partition_0) =~= seq![entry->Partition_0]);
}

/// A lower sentinel of a valid table may be moved down as long as no alignment boundary
/// comes to lie before the first entry.
proof fn lemma_lower_sentinel(
    lo: u64,
    below: u64,
    table: Seq<MemTableEntry>,
    hi: u64,
    sector_size: u16,
)
    requires
        table_wf(lo, table, hi, sector_size),
        below <= lo,
        no_boundary_between(below as int, lo as int + 1),
    ensures
        table_wf(below, table, hi, sector_size),
{
    lemma_align_up(below + 1);
    lemma_align_up(lo + 1);
    assert(align_up(below + 1) >= align_up(lo + 1));
    assert forall|i: int| 0 <= i < table.len() implies (#[trigger] table[i]).wf(sector_size)
        && below < table[i].first_lba() && table[i].last_lba() < hi by {
        assert(table[i].wf(sector_size));
    }
}

/// What is left of a free region behind a partition created at its start, together with
/// what follows the region, is a valid table behind the partition.
proof fn lemma_remainder(
    lo: u64,
    regions: Seq<MemTableEntry>,
    index: int,
    end: u64,
    hi: u64,
    sector_size: u16,
)
    requires
        table_wf(lo, regions, hi, sector_size),
        hi * sector_size <= u64::MAX,
        0 <= index < regions.len(),
        regions[index] is Free,
        regions[index].first_lba() <= end <= regions[index].last_lba(),
    ensures
        table_wf(
            end,
            gap_entries(end, (regions[index].last_lba() + 1) as u64, sector_size) + regions.skip(
                index + 1,
            ),
            hi,
            sector_size,
        ),
        free_aligned(regions) ==> free_aligned(
            gap_entries(end, (regions[index].last_lba() + 1) as u64, sector_size) + regions.skip(
                index + 1,
            ),
        ),
        regions[index].last_lba() < hi,
{
    let free = regions[index]->Free_0;
    let back = regions.skip(index + 1);
    assert(regions[index].wf(sector_size));
    let edge = (free.end + 1) as u64;
    let gap = gap_entries(end, edge, sector_size);
    assert(0 <= edge * sector_size <= hi * sector_size) by (nonlinear_arith)
        requires
            0 <= edge <= hi,
            sector_size >= 0,
    ;
    lemma_table_suffix(lo, regions, index + 1, hi, sector_size);
    if back.len() > 0 {
        assert(back[0] == regions[index + 1]);
        assert(!(regions[index] is Free && regions[index + 1] is Free));
    }
    match free_gap(end, edge, sector_size) {
        Some(rest) => {
            lemma_free_gap(end, edge, sector_size);
            lemma_prepend(end, MemTableEntry::Free(rest), back, hi, sector_size);
        },
        None => {
            assert(gap + back =~= back);
            lemma_lower_sentinel(free.end, end, back, hi, sector_size);
        },
    }
}

/// Creating a partition in a free region of a valid table leaves a valid table.
pub proof fn lemma_created_table(
    lo: u64,
    regions: Seq<MemTableEntry>,
    index: int,
    sectors: u64,
    number: u16,
    hi: u64,
    sector_size: u16,
)
    requires
        table_wf(lo, regions, hi, sector_size),
        hi * sector_size <= u64::MAX,
        0 <= index < regions.len(),
        regions[index] is Free,
        1 <= sectors <= regions[index]->Free_0.sectors,
        1 <= number <= 256,
    ensures
        table_wf(lo, created_table(regions, index, sectors, number, sector_size), hi, sector_size),
        free_aligned(regions) ==> free_aligned(
            created_table(regions, index, sectors, number, sector_size),
        ),
{
    let free = regions[index]->Free_0;
    let part = staged_partition(number, free.start, sectors, sector_size);
    let occupied = MemTableEntry::Partition(part);
    let front = regions.take(index);
    let behind = gap_entries(part.end, (free.end + 1) as u64, sector_size) + regions.skip(
        index + 1,
    );
    assert(regions[index].wf(sector_size));
    assert(0 <= sectors * sector_size <= hi * sector_size) by (nonlinear_arith)
        requires
            0 <= sectors <= hi,
            sector_size >= 0,
    ;
    assert(part.wf(sector_size));
    lemma_remainder(lo, regions, index, part.end, hi, sector_size);
    let below = if index > 0 {
        regions[index - 1].last_lba()
    } else {
        lo
    };
    if index > 0 {
        assert(no_boundary_between(
            regions[index - 1].last_lba() as int,
            regions[index].first_lba() as int,
        ));
        assert(regions[index - 1].last_lba() < regions[index].first_lba());
    }
    lemma_prepend(below, occupied, behind, hi, sector_size);
    let tail = seq![occupied] + behind;
    assert(created_table(regions, index, sectors, number, sector_size) =~= front + tail);
    if index > 0 {
        lemma_table_prefix(lo, regions, index, hi, sector_size);
        assert(front.last() == regions[index - 1]);
        assert(tail[0] == occupied);
        lemma_table_join(lo, front, tail, hi, sector_size);
    } else {
        assert(front + tail =~= tail);
    }
}

/// The partitions of a table in which a partition was created are those from before
/// with the new one among them.
pub proof fn lemma_created_partitions(
    regions: Seq<MemTableEntry>,
    index: int,
    sectors: u64,
    number: u16,
    sector_size: u16,
)
    requires
        0 <= index < regions.len(),
        regions[index] is Free,
    ensures
        partitions_of(regions) == partitions_of(regions.take(index)) + partitions_of(
            regions.skip(index + 1),
        ),
        partitions_of(created_table(regions, index, sectors, number, sector_size))
            == partitions_of(regions.take(index)) + seq![
            staged_partition(number, regions[index]->Free_0.start, sectors, sector_size),
        ] + partitions_of(regions.skip(index + 1)),
{
    let free = regions[index]->Free_0;
    let part = staged_partition(number, free.start, sectors, sector_size);
    let occupied = MemTableEntry::Partition(part);
    let front = regions.take(index);
    let back = regions.skip(index + 1);
    let gap = gap_entries(part.end, (free.end + 1) as u64, sector_size);
    let none = Seq::<MemPartition>::empty();
    assert(partitions_of(regions) == partitions_of(front) + partitions_of(back)) by {
        assert(regions =~= front + (seq![regions[index]] + back));
        lemma_partitions_of_concat(front, seq![regions[index]] + back);
        lemma_partitions_of_concat(seq![regions[index]], back);
        lemma_partitions_of_one(regions[index]);
        assert(none + partitions_of(back) =~= partitions_of(back));
    }
    assert(partitions_of(gap) == none) by {
        if gap.len() > 0 {
            lemma_partitions_of_one(gap[0]);
            assert(gap =~= seq![gap[0]]);
        } else {
            assert(partitions_of(gap) =~= none);
        }
    }
    assert(partitions_of(gap + back) == partitions_of(back)) by {
        lemma_partitions_of_concat(gap, back);
        assert(none + partitions_of(back) =~= partitions_of(back));
    }
    let created = created_table(regions, index, sectors, number, sector_size);
    assert(created =~= front + (seq![occupied] + (gap + back)));
    lemma_partitions_of_concat(front, seq![occupied] + (gap + back));
    lemma_partitions_of_concat(seq![occupied], gap + back);
    lemma_partitions_of_one(occupied);
    assert(partitions_of(front) + (seq![part] + partitions_of(back)) =~= partitions_of(front)
        + seq![part] + partitions_of(back));
}

/// A partition whose number none of the others has may be put among partitions with
/// distinct numbers; the numbers are then those from before and its own.
pub proof fn lemma_numbers_with(
    before: Seq<MemPartition>,
    part: MemPartition,
    behind: Seq<MemPartition>,
)
    requires
        distinct_numbers(before + behind),
        !numbers_of(before + behind).contains(part.number),
    ensures
        distinct_numbers(before + seq![part] + behind),
        numbers_of(before + seq![part] + behind) == numbers_of(before + behind).insert(
            part.number,
        ),
{
    let others = before + behind;
    let k = before.len() as int;
    let all = before + seq![part] + behind;
    assert(all =~= others.insert(k, part));
    lemma_inserted(others, k, part);
    assert forall|i: int| 0 <= i < others.len() implies (#[trigger] others[i]).number
        != part.number by {
        assert(numbers_of(others).contains(others[i].number));
    }
    assert forall|i: int, j: int| 0 <= i < all.len() && 0 <= j < all.len() && i != j implies (
    #[trigger] all[i]).number != (#[trigger] all[j]).number by {
        let a = if i < k { i } else { i - 1 };
        let b = if j < k { j } else { j - 1 };
        if i != k && j != k {
            assert(all[i] == others[a] && all[j] == others[b]);
        } else if i == k {
            assert(all[j] == others[b]);
        } else {
            assert(all[i] == others[a]);
        }
    }
    assert forall|n: u16| numbers_of(all).contains(n) <==> numbers_of(others).insert(
        part.number,
    ).contains(n) by {
        if numbers_of(all).contains(n) {
            let i = choose|i: int| 0 <= i < all.len() && (#[trigger] all[i]).number == n;
            let a = if i < k { i } else { i - 1 };
            if i != k {
                assert(all[i] == others[a]);
            }
        }
        if numbers_of(others).contains(n) {
            let i = choose|i: int| 0 <= i < others.len() && (#[trigger] others[i]).number == n;
            let a = if i < k { i } else { i + 1 };
            assert(all[a] == others[i]);
        }
        if n == part.number {
            assert(all[k] == part);
        }
    }
    assert(numbers_of(all) =~= numbers_of(others).insert(part.number));
}

/// Taking one of several partitions with distinct numbers away leaves partitions with
/// distinct numbers: those from before without its own.
pub proof fn lemma_numbers_without(
    before: Seq<MemPartition>,
    part: MemPartition,
    behind: Seq<MemPartition>,
)
    requires
        distinct_numbers(before + seq![part] + behind),
    ensures
        distinct_numbers(before + behind),
        numbers_of(before + behind) == numbers_of(before + seq![part] + behind).remove(
            part.number,
        ),
{
    let others = before + behind;
    let k = before.len() as int;
    let all = before + seq![part] + behind;
    assert(all =~= others.insert(k, part));
    lemma_inserted(others, k, part);
    assert(all[k] == part);
    assert forall|i: int, j: int|
        0 <= i < others.len() && 0 <= j < others.len() && i != j implies (
    #[trigger] others[i]).number != (#[trigger] others[j]).number by {
        let a = if i < k { i } else { i + 1 };
        let b = if j < k { j } else { j + 1 };
        assert(all[a] == others[i] && all[b] == others[j]);
    }
    assert forall|n: u16| numbers_of(others).contains(n) <==> numbers_of(all).remove(
        part.number,
    ).contains(n) by {
        if numbers_of(others).contains(n) {
            let i = choose|i: int| 0 <= i < others.len() && (#[trigger] others[i]).number == n;
            let a = if i < k { i } else { i + 1 };
            assert(all[a] == others[i]);
            assert(all[a].number != all[k].number);
        }
        if numbers_of(all).contains(n) && n != part.number {
            let i = choose|i: int| 0 <= i < all.len() && (#[trigger] all[i]).number == n;
            let a = if i < k { i } else { i - 1 };
            assert(all[i] == others[a]);
        }
    }
    assert(numbers_of(others) =~= numbers_of(all).remove(part.number));
}

/// Deleting a partition of a valid table leaves a valid table.
pub proof fn lemma_deleted_table(
    lo: u64,
    regions: Seq<MemTableEntry>,
    index: int,
    hi: u64,
    sector_size: u16,
)
    requires
        table_wf(lo, regions, hi, sector_size),
        hi * sector_size <= u64::MAX,
        0 <= index < regions.len(),
        regions[index] is Partition,
    ensures
        table_wf(lo, deleted_table(regions, index, sector_size), hi, sector_size),
        free_aligned(regions) && (free_before(regions, index) || is_aligned(
            regions[index].first_lba() as int,
        )) ==> free_aligned(deleted_table(regions, index, sector_size)),
{
    let first = if free_before(regions, index) { index - 1 } else { index };
    let last = if free_behind(regions, index) { index + 1 } else { index };
    let merged = span(regions[first].first_lba(), regions[last].last_lba(), sector_size);
    let freed = MemTableEntry::Free(merged);
    let front = regions.take(first);
    let back = regions.skip(last + 1);
    assert(regions[first].wf(sector_size));
    assert(regions[last].wf(sector_size));
    assert(regions[index].wf(sector_size));
    assert(regions[first].first_lba() <= regions[last].last_lba()) by {
        if first < last {
            assert(regions[first].last_lba() < regions[last].first_lba());
        }
    }
    assert(0 <= (merged.end - merged.start + 1) * sector_size <= hi * sector_size)
        by (nonlinear_arith)
        requires
            0 <= merged.end - merged.start + 1 <= hi,
            sector_size >= 0,
    ;
    assert(freed.wf(sector_size));
    lemma_table_suffix(lo, regions, last + 1, hi, sector_size);
    if back.len() > 0 {
        assert(back[0] == regions[last + 1]);
        assert(!(regions[last] is Free && regions[last + 1] is Free));
    }
    let below = if first > 0 {
        regions[first - 1].last_lba()
    } else {
        lo
    };
    if first > 0 {
        assert(no_boundary_between(
            regions[first - 1].last_lba() as int,
            regions[first].first_lba() as int,
        ));
        assert(regions[first - 1].last_lba() < regions[first].first_lba());
        assert(!(regions[first - 1] is Free && regions[first] is Free));
    }
    lemma_prepend(below, freed, back, hi, sector_size);
    let tail = seq![freed] + back;
    if free_aligned(regions) {
        assert(regions[first] is Free ==> is_aligned(regions[first].first_lba() as int));
    }
    assert(deleted_table(regions, index, sector_size) =~= front + tail);
    if first > 0 {
        lemma_table_prefix(lo, regions, first, hi, sector_size);
        assert(front.last() == regions[first - 1]);
        assert(tail[0] == freed);
        lemma_table_join(lo, front, tail, hi, sector_size);
    } else {
        assert(front + tail =~= tail);
    }
}

/// The partitions of a table from which a partition was deleted are the others.
pub proof fn lemma_deleted_partitions(regions: Seq<MemTableEntry>, index: int, sector_size: u16)
    requires
        0 <= index < regions.len(),
        regions[index] is Partition,
    ensures
        ({
            let first = if free_before(regions, index) { index - 1 } else { index };
            let last = if free_behind(regions, index) { index + 1 } else { index };
            &&& partitions_of(regions) == partitions_of(regions.take(first)) + seq![
                regions[index]->Partition_0,
            ] + partitions_of(regions.skip(last + 1))
            &&& partitions_of(deleted_table(regions, index, sector_size)) == partitions_of(
                regions.take(first),
            ) + partitions_of(regions.skip(last + 1))
        }),
{
    let first = if free_before(regions, index) { index - 1 } else { index };
    let last = if free_behind(regions, index) { index + 1 } else { index };
    let part = regions[index]->Partition_0;
    let front = regions.take(first);
    let back = regions.skip(last + 1);
    let none = Seq::<MemPartition>::empty();
    let none_free = Seq::<MemTableEntry>::empty();
    let left = if first < index { seq![regions[first]] } else { none_free };
    let right = if index < last { seq![regions[last]] } else { none_free };
    assert(partitions_of(none_free) =~= none);
    assert(partitions_of(left) == none) by {
        if first < index {
            lemma_partitions_of_one(regions[first]);
        }
    }
    assert(partitions_of(right) == none) by {
        if index < last {
            lemma_partitions_of_one(regions[last]);
        }
    }
    let middle = left + (seq![regions[index]] + right);
    assert(partitions_of(middle) == seq![part]) by {
        lemma_partitions_of_concat(left, seq![regions[index]] + right);
        lemma_partitions_of_concat(seq![regions[index]], right);
        lemma_partitions_of_one(regions[index]);
        assert(none + (seq![part] + none) =~= seq![part]);
    }
    assert(regions =~= front + (middle + back));
    lemma_partitions_of_concat(front, middle + back);
    lemma_partitions_of_concat(middle, back);
    assert(partitions_of(front) + (seq![part] + partitions_of(back)) =~= partitions_of(front)
        + seq![part] + partitions_of(back));
    let deleted = deleted_table(regions, index, sector_size);
    let merged = span(regions[first].first_lba(), regions[last].last_lba(), sector_size);
    let freed = MemTableEntry::Free(merged);
    assert(deleted =~= front + (seq![freed] + back));
    lemma_partitions_of_concat(front, seq![freed] + back);
    lemma_partitions_of_concat(seq![freed], back);
    lemma_partitions_of_one(freed);
    assert(partitions_of(front) + (none + partitions_of(back)) =~= partitions_of(front)
        + partitions_of(back));
}

/// Whether `after` and `result` are what the creation of a partition of the requested
/// size in the free region at `index` of `before` comes to.
///
/// Where the region can meet the request and a number is left, the partition is created
/// under the lowest unused number. Else the request is refused and the device stays as
/// it was; a size error is reported before a lack of numbers.
pub open spec fn creation(
    before: CompatDevice,
    index: int,
    request: SizeSpec,
    after: CompatDevice,
    result: Result<(), EditError>,
) -> bool {
    let free = before.mem_table@[index]->Free_0;
    match request.resolved(free.sectors) {
        Err(refused) => result == Err::<(), EditError>(refused) && after == before,
        Ok(sectors) => match lowest_unused(before.number_pool@) {
            None => result == Err::<(), EditError>(EditError::NumberPoolExhausted) && after
                == before,
            Some(number) => {
                &&& result == Ok::<(), EditError>(())
                &&& after.mem_table@ == created_table(
                    before.mem_table@,
                    index,
                    sectors,
                    number,
                    before.disk.sector_size,
                )
                &&& after.number_pool@ == before.number_pool@.insert(number)
                &&& after.disk == before.disk
                &&& after.modification_map == before.modification_map
            },
        },
    }
}

/// Whether `after` and `result` are what the creation of a partition of the size that
/// `text` asks for, in the free region at `index` of `before`, comes to. Text that names
/// no size is refused and leaves the device as it was.
pub open spec fn creation_from_text(
    before: CompatDevice,
    index: int,
    text: Seq<char>,
    after: CompatDevice,
    result: Result<(), EditError>,
) -> bool {
    match size_request(text, before.disk.sector_size, bytes_of(trimmed(text))) {
        Ok(request) => creation(before, index, request, after, result),
        Err(refused) => result == Err::<(), EditError>(refused) && after == before,
    }
}

/// A partition of the size `0` is refused as one of an invalid size, whatever the free
/// region, and the device stays as it was.
pub proof fn lemma_zero_size_refused(
    before: CompatDevice,
    index: int,
    after: CompatDevice,
    result: Result<(), EditError>,
)
    requires
        before.disk.sector_size > 0,
        creation_from_text(before, index, "0"@, after, result),
    ensures
        result == Err::<(), EditError>(EditError::InvalidSize),
        after == before,
{
    lemma_zero(before.disk.sector_size);
}

/// Whether `after` is what the deletion of the partition at `index` of `before` comes
/// to: one free region stands in place of the partition and its free neighbours, and the
/// number of the partition is released.
pub open spec fn deletion(before: CompatDevice, index: int, after: CompatDevice) -> bool {
    &&& after.mem_table@ == deleted_table(before.mem_table@, index, before.disk.sector_size)
    &&& after.number_pool@ == before.number_pool@.remove(
        before.mem_table@[index]->Partition_0.number,
    )
    &&& after.disk == before.disk
    &&& after.modification_map == before.modification_map
}

/// Creating a partition that takes the whole of a free region, and deleting it again,
/// restores the table and the pool of a valid device.
pub proof fn lemma_create_then_delete(
    before: CompatDevice,
    created: CompatDevice,
    deleted: CompatDevice,
    index: int,
    request: SizeSpec,
)
    requires
        before.wf(),
        0 <= index < before.mem_table@.len(),
        before.mem_table@[index] is Free,
        request.resolved(before.mem_table@[index]->Free_0.sectors) == Ok::<u64, EditError>(
            before.mem_table@[index]->Free_0.sectors,
        ),
        creation(before, index, request, created, Ok(())),
        deletion(created, index, deleted),
    ensures
        deleted.mem_table@ == before.mem_table@,
        deleted.number_pool@ == before.number_pool@,
        deleted.disk == before.disk,
        deleted.modification_map == before.modification_map,
{
    let regions = before.mem_table@;
    let free = regions[index]->Free_0;
    let sector_size = before.disk.sector_size;
    let number = lowest_unused(before.number_pool@).unwrap();
    crate::number_pool::lemma_lowest_unused(before.number_pool@);
    assert(is_lowest_unused(before.number_pool@, number));
    assert(before.number_pool@.insert(number).remove(number) =~= before.number_pool@);
    assert(regions[index].wf(sector_size));
    let part = staged_partition(number, free.start, free.sectors, sector_size);
    assert(part.end == free.end);
    lemma_align_up(free.end + 1);
    assert(gap_entries(part.end, (free.end + 1) as u64, sector_size) =~= Seq::<
        MemTableEntry,
    >::empty());
    let made = created.mem_table@;
    assert(made =~= regions.update(index, MemTableEntry::Partition(part)));
    if index > 0 {
        assert(!(regions[index - 1] is Free && regions[index] is Free));
    }
    if index + 1 < regions.len() {
        assert(!(regions[index] is Free && regions[index + 1] is Free));
    }
    assert(!free_before(made, index));
    assert(!free_behind(made, index));
    assert(span(part.start, part.end, sector_size) == free);
    assert(deleted_table(made, index, sector_size) =~= regions);
}

/// The extent of the sectors from `start` to `end`.
fn extent(start: u64, end: u64, sector_size: u16) -> (raw: RawSpace)
    requires
        start <= end,
        sector_size > 0,
        (end - start + 1) * sector_size <= u64::MAX,
    ensures
        raw == (RawSpace {
            start,
            end,
            sectors: (end - start + 1) as u64,
            size: ((end - start + 1) * sector_size) as u64,
        }),
{
    assert(end - start + 1 <= (end - start + 1) * sector_size) by (nonlinear_arith)
        requires
            end - start + 1 >= 0,
            sector_size >= 1,
    ;
    let sectors: u64 = end - start + 1;
    RawSpace { start, end, sectors, size: sectors * (sector_size as u64) }
}

/// The free region that a deleted partition leaves: the extent `part`, grown over the
/// free region `left` before it and the free region `right` behind it, and over the
/// sectors that lie between them and the partition.
fn merged_region(
    left: Option<DiskSpace>,
    part: RawSpace,
    right: Option<DiskSpace>,
    sector_size: u16,
) -> (merged: DiskSpace)
    requires
        sector_size > 0,
        part.wf(sector_size),
        left matches Some(space) ==> space.wf(sector_size) && space.end < part.start,
        right matches Some(space) ==> space.wf(sector_size) && part.end < space.start,
        ((match right {
            Some(space) => space.end,
            None => part.end,
        }) + 1) * sector_size <= u64::MAX,
    ensures
        merged == span(
            match left {
                Some(space) => space.start,
                None => part.start,
            },
            match right {
                Some(space) => space.end,
                None => part.end,
            },
            sector_size,
        ),
{
    let ghost top = (match right {
        Some(space) => space.end,
        None => part.end,
    }) + 1;
    assert(top <= top * sector_size) by (nonlinear_arith)
        requires
            top >= 0,
            sector_size >= 1,
    ;
    match (left, right) {
        (Some(before), Some(behind)) => {
            let mut base = before;
            proof {
                assert(0 <= (behind.start - 1 - (base.end + 1) + 1) * sector_size <= top
                    * sector_size) by (nonlinear_arith)
                    requires
                        0 <= behind.start - 1 - (base.end + 1) + 1 <= top,
                        sector_size >= 0,
                ;
                assert((base.end - base.start + 1) * sector_size + (behind.start - 1 - (base.end
                    + 1) + 1) * sector_size + (behind.end - behind.start + 1) * sector_size == (
                behind.end - base.start + 1) * sector_size) by (nonlinear_arith);
                assert(0 <= (behind.end - base.start + 1) * sector_size <= top * sector_size)
                    by (nonlinear_arith)
                    requires
                        0 <= behind.end - base.start + 1 <= top,
                        sector_size >= 0,
                ;
            }
            base.expand_right(extent(base.end + 1, behind.start - 1, sector_size));
            base.expand_right(behind.as_raw_space());
            base
        },
        (Some(before), None) => {
            let mut base = before;
            proof {
                assert(0 <= (part.end - (base.end + 1) + 1) * sector_size <= top * sector_size)
                    by (nonlinear_arith)
                    requires
                        0 <= part.end - (base.end + 1) + 1 <= top,
                        sector_size >= 0,
                ;
                assert((base.end - base.start + 1) * sector_size + (part.end - (base.end + 1)
                    + 1) * sector_size == (part.end - base.start + 1) * sector_size)
                    by (nonlinear_arith);
                assert(0 <= (part.end - base.start + 1) * sector_size <= top * sector_size)
                    by (nonlinear_arith)
                    requires
                        0 <= part.end - base.start + 1 <= top,
                        sector_size >= 0,
                ;
            }
            base.expand_right(extent(base.end + 1, part.end, sector_size));
            base
        },
        (None, Some(behind)) => {
            let mut base = behind;
            proof {
                assert(0 <= (base.start - 1 - part.start + 1) * sector_size <= top * sector_size)
                    by (nonlinear_arith)
                    requires
                        0 <= base.start - 1 - part.start + 1 <= top,
                        sector_size >= 0,
                ;
                assert((base.end - base.start + 1) * sector_size + (base.start - 1 - part.start
                    + 1) * sector_size == (base.end - part.start + 1) * sector_size)
                    by (nonlinear_arith);
                assert(0 <= (base.end - part.start + 1) * sector_size <= top * sector_size)
                    by (nonlinear_arith)
                    requires
                        0 <= base.end - part.start + 1 <= top,
                        sector_size >= 0,
                ;
            }
            base.expand_left(extent(part.start, base.start - 1, sector_size));
            base
        },
        (None, None) => DiskSpace::new(part.start, part.end, part.sectors, part.size),
    }
}

impl CompatDevice {
    /// The free region at `index`.
    fn free_at(&self, index: usize) -> (free: DiskSpace)
        requires
            index < self.mem_table.len(),
            self.mem_table@[index as int] is Free,
        ensures
            free == self.mem_table@[index as int]->Free_0,
    {
        match &self.mem_table[index] {
            MemTableEntry::Free(space) => *space,
            MemTableEntry::Partition(_) => vstd::pervasive::unreached(),
        }
    }

    /// Creates a partition of the requested size at the start of the free region at
    /// `index`, under the lowest unused number.
    ///
    /// A request that the region cannot meet, or one made when no number is left, is
    /// refused and leaves the device as it was; a size error is reported before a lack
    /// of numbers.
    pub fn create_partition_sized(&mut self, index: usize, request: SizeSpec) -> (result: Result<
        (),
        EditError,
    >)
        requires
            old(self).wf(),
            index < old(self).mem_table.len(),
            old(self).mem_table@[index as int] is Free,
        ensures
            creation(*old(self), index as int, request, *final(self), result),
            final(self).wf(),
            free_aligned(old(self).mem_table@) ==> free_aligned(final(self).mem_table@),
    {
        let sector_size = self.disk.sector_size;
        let free = self.free_at(index);
        let sectors = match request.resolve(free.sectors) {
            Ok(sectors) => sectors,
            Err(refused) => {
                return Err(refused);
            },
        };
        let number = match self.number_pool.find_available_num() {
            Some(number) => number,
            None => {
                return Err(EditError::NumberPoolExhausted);
            },
        };
        let ghost lo = self.disk.starting_lba;
        let ghost hi = self.disk.ending_lba;
        let ghost before = old(self).mem_table@;
        proof {
            assert(before[index as int].wf(sector_size));
            assert(0 <= sectors * sector_size <= hi * sector_size) by (nonlinear_arith)
                requires
                    0 <= sectors <= hi,
                    sector_size >= 0,
            ;
            assert(0 <= (free.end + 1) * sector_size <= hi * sector_size) by (nonlinear_arith)
                requires
                    0 <= free.end + 1 <= hi,
                    sector_size >= 0,
            ;
        }
        let end: u64 = free.start + (sectors - 1);
        let part = MemPartition::new(
            number,
            free.start,
            end,
            sectors,
            sectors * (sector_size as u64),
        );
        let remainder = free_between(end, free.end + 1, sector_size);
        self.mem_table.set(index, MemTableEntry::Partition(part));
        match remainder {
            Some(rest) => {
                self.mem_table.insert(index + 1, MemTableEntry::Free(rest));
            },
            None => {},
        }
        proof {
            let created = created_table(before, index as int, sectors, number, sector_size);
            assert(self.mem_table@ =~= created);
            lemma_created_table(lo, before, index as int, sectors, number, hi, sector_size);
            lemma_created_partitions(before, index as int, sectors, number, sector_size);
            lemma_numbers_with(
                partitions_of(before.take(index as int)),
                staged_partition(number, free.start, sectors, sector_size),
                partitions_of(before.skip(index + 1)),
            );
        }
        Ok(())
    }

    /// Creates a partition at the start of the free region at `index`, of the size that
    /// `text` asks for. Text that names no size is refused like a size that the region
    /// cannot meet.
    pub fn create_partition(&mut self, index: usize, text: &str) -> (result: Result<
        (),
        EditError,
    >)
        requires
            old(self).wf(),
            index < old(self).mem_table.len(),
            old(self).mem_table@[index as int] is Free,
        ensures
            creation_from_text(*old(self), index as int, text@, *final(self), result),
            final(self).wf(),
            free_aligned(old(self).mem_table@) ==> free_aligned(final(self).mem_table@),
    {
        match parse_size(text, self.disk.sector_size) {
            Ok(request) => self.create_partition_sized(index, request),
            Err(refused) => Err(refused),
        }
    }

    /// Deletes the partition at `index` and releases its number: the partition becomes
    /// a free region, which takes in the free regions directly before and behind it
    /// together with the sectors that lie between them and the partition.
    pub fn delete_partition(&mut self, index: usize)
        requires
            old(self).wf(),
            index < old(self).mem_table.len(),
            old(self).mem_table@[index as int] is Partition,
        ensures
            deletion(*old(self), index as int, *final(self)),
            final(self).wf(),
            free_aligned(old(self).mem_table@) && (free_before(old(self).mem_table@, index as int)
                || is_aligned(old(self).mem_table@[index as int].first_lba() as int))
                ==> free_aligned(final(self).mem_table@),
    {
        let ghost lo = self.disk.starting_lba;
        let ghost hi = self.disk.ending_lba;
        let ghost before = self.mem_table@;
        let sector_size = self.disk.sector_size;
        let (number, raw) = match &self.mem_table[index] {
            MemTableEntry::Partition(part) => (part.number, part.as_raw_space()),
            MemTableEntry::Free(_) => vstd::pervasive::unreached(),
        };
        let left = if index > 0 {
            self.free_region_at(index - 1)
        } else {
            None
        };
        let right = if index + 1 < self.mem_table.len() {
            self.free_region_at(index + 1)
        } else {
            None
        };
        let first = if left.is_some() {
            index - 1
        } else {
            index
        };
        let last = if right.is_some() {
            index + 1
        } else {
            index
        };
        proof {
            assert(before[first as int].wf(sector_size));
            assert(before[last as int].wf(sector_size));
            assert(before[index as int].wf(sector_size));
            if first < index {
                assert(before[first as int].last_lba() < before[index as int].first_lba());
            }
            if index < last {
                assert(before[index as int].last_lba() < before[last as int].first_lba());
            }
            assert(0 <= (before[last as int].last_lba() + 1) * sector_size <= hi * sector_size)
                by (nonlinear_arith)
                requires
                    0 <= before[last as int].last_lba() + 1 <= hi,
                    sector_size >= 0,
            ;
        }
        let merged = merged_region(left, raw, right, sector_size);
        replace_entries(&mut self.mem_table, first, last, MemTableEntry::Free(merged));
        self.number_pool.set_unused(number);
        proof {
            lemma_deleted_table(lo, before, index as int, hi, sector_size);
            lemma_deleted_partitions(before, index as int, sector_size);
            lemma_numbers_without(
                partitions_of(before.take(first as int)),
                before[index as int]->Partition_0,
                partitions_of(before.skip(last + 1)),
            );
        }
    }

    /// The free region at `index`, if the entry there is one.
    fn free_region_at(&self, index: usize) -> (free: Option<DiskSpace>)
        requires
            index < self.mem_table.len(),
        ensures
            free == (match self.mem_table@[index as int] {
                MemTableEntry::Free(space) => Some(space),
                MemTableEntry::Partition(_) => None,
            }),
    {
        match &self.mem_table[index] {
            MemTableEntry::Free(space) => Some(*space),
            MemTableEntry::Partition(_) => None,
        }
    }
}

/// Puts `entry` in place of the entries from `first` to `last`.
fn replace_entries(table: &mut Vec<MemTableEntry>, first: usize, last: usize, entry: MemTableEntry)
    requires
        first <= last < old(table).len(),
    ensures
        final(table)@ == old(table)@.take(first as int) + seq![entry] + old(table)@.skip(last + 1),
{
    let ghost before = table@;
    let mut k: usize = last;
    while k > first
        invariant
            first <= k <= last,
            last < before.len(),
            table@ == before.take(k + 1) + before.skip(last + 1),
        decreases k,
    {
        table.remove(k);
        assert(table@ =~= before.take(k as int) + before.skip(last + 1));
        k -= 1;
    }
    table.set(first, entry);
    assert(table@ =~= before.take(first as int) + seq![entry] + before.skip(last + 1));
}

} // verus!
