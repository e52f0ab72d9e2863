//! Devices and the partition table that is edited in memory.

use vstd::prelude::*;
use indexmap::IndexMap;
use crate::disk::{Disk, RawDisk};
use crate::layout::{
    free_aligned, free_between, gap_ceiling, gap_entries, gap_floor, in_gap, in_region, layout,
    lemma_coverage, lemma_insert_at, lemma_layout, lemma_partitions_of_concat,
    lemma_sort_by_start, lemma_sort_placeable, lemma_tail_placeable, partitions_of, placeable,
    refilled, sort_by_start, sorted_by_start, table_wf,
};
use crate::modification::ModificationSet;
use crate::number_pool::NumberPool;
use crate::partition::{MemPartition, MemTableEntry};

verus! {

/// `indexmap::IndexMap`: a hash map that keeps the order in which its entries came.
/// Nothing is said of what is inside.
#[verifier::external_type_specification]
#[verifier::external_body]
#[verifier::reject_recursive_types(K)]
#[verifier::reject_recursive_types(V)]
#[verifier::reject_recursive_types(S)]
pub struct ExIndexMap<K, V, S>(IndexMap<K, V, S>);

/// The partition numbers for which changes are staged, in the order of their staging.
pub uninterp spec fn staged_numbers(map: IndexMap<u16, ModificationSet>) -> Seq<u16>;

/// `IndexMap::with_capacity`: a map that holds no entry yet. Room is asked for the
/// partitions of one table at most, so that the allocation stays small.
#[verifier::external_body]
pub(crate) fn modification_map_with_capacity(capacity: usize) -> (map: IndexMap<
    u16,
    ModificationSet,
>)
    requires
        capacity <= 256,
    ensures
        staged_numbers(map) == Seq::<u16>::empty(),
{
    IndexMap::with_capacity(capacity)
}

/// `IndexMap::reserve`: the entries stay as they are. Room is asked for the partitions
/// of one table at most.
#[verifier::external_body]
pub(crate) fn modification_map_reserve(map: &mut IndexMap<u16, ModificationSet>, additional: usize)
    requires
        additional <= 256,
    ensures
        staged_numbers(*final(map)) == staged_numbers(*old(map)),
{
    map.reserve(additional)
}

/// The numbers of the given partitions.
pub open spec fn numbers_of(parts: Seq<MemPartition>) -> Set<u16> {
    Set::new(|n: u16| exists|i: int| 0 <= i < parts.len() && (#[trigger] parts[i]).number == n)
}

/// Whether no two of the partitions have the same number.
pub open spec fn distinct_numbers(parts: Seq<MemPartition>) -> bool {
    forall|i: int, j: int|
        0 <= i < parts.len() && 0 <= j < parts.len() && i != j ==> (#[trigger] parts[i]).number != (
        #[trigger] parts[j]).number
}

/// A device with a recognized partition table, together with the table as it is edited.
#[derive(Debug)]
pub struct CompatDevice {
    pub disk: Disk,
    pub mem_table: Vec<MemTableEntry>,
    pub number_pool: NumberPool,
    pub modification_map: IndexMap<u16, ModificationSet>,
}

/// A block device: one whose table can be edited, or one that can only be shown.
#[derive(Debug)]
pub enum Device {
    /// Device with a known table.
    Compatible(CompatDevice),
    /// Device with an unrecognized table.
    Incompatible(RawDisk),
}

/// The partitions among `entries` in ascending order of their first sector.
fn sorted_partitions(entries: Vec<MemTableEntry>) -> (parts: Vec<MemPartition>)
    ensures
        parts@ == sort_by_start(partitions_of(entries@)),
{
    let mut parts: Vec<MemPartition> = Vec::new();
    let ghost all = entries@;
    for entry in it: entries
        invariant
            it.seq() == all,
            parts@ == sort_by_start(partitions_of(all.take(it.index() as int))),
    {
        proof {
            let seen = all.take(it.index() as int);
            let next = all.take(it.index() + 1);
            assert(next.drop_last() =~= seen);
            assert(next.last() == entry);
        }
        match entry {
            MemTableEntry::Partition(part) => {
                let mut k: usize = parts.len();
                while k > 0 && parts[k - 1].start > part.start
                    invariant
                        k <= parts.len(),
                        forall|j: int| k <= j < parts.len() ==> (#[trigger] parts@[j]).start
                            > part.start,
                    decreases k,
                {
                    k -= 1;
                }
                proof {
                    lemma_insert_at(parts@, part, k as int);
                    let seen = partitions_of(all.take(it.index() as int));
                    assert(seen.push(part).drop_last() =~= seen);
                }
                parts.insert(k, part);
            },
            MemTableEntry::Free(_) => {},
        }
    }
    assert(all.take(all.len() as int) =~= all);
    parts
}

/// The table for partitions that are given in ascending order.
fn lay_out(lo: u64, parts: Vec<MemPartition>, hi: u64, sector_size: u16) -> (table: Vec<
    MemTableEntry,
>)
    requires
        placeable(lo, parts@, hi, sector_size),
        sorted_by_start(parts@),
        hi * sector_size <= u64::MAX,
    ensures
        table@ == layout(lo, parts@, hi, sector_size),
{
    let mut table: Vec<MemTableEntry> = Vec::new();
    let mut cursor: u64 = lo;
    let ghost all = parts@;
    assert(all.skip(0) =~= all);
    assert(table@ + layout(lo, all, hi, sector_size) =~= layout(lo, all, hi, sector_size));
    for part in it: parts
        invariant
            it.seq() == all,
            placeable(cursor, all.skip(it.index() as int), hi, sector_size),
            sorted_by_start(all.skip(it.index() as int)),
            hi * sector_size <= u64::MAX,
            table@ + layout(cursor, all.skip(it.index() as int), hi, sector_size) == layout(
                lo,
                all,
                hi,
                sector_size,
            ),
    {
        let ghost rest = all.skip(it.index() as int);
        proof {
            assert(rest[0] == part);
            assert(rest.drop_first() =~= all.skip(it.index() + 1));
            assert(part.wf(sector_size));
            lemma_tail_placeable(cursor, rest, hi, sector_size);
            assert(0 <= part.start * sector_size <= hi * sector_size) by (nonlinear_arith)
                requires
                    0 <= part.start <= hi,
                    sector_size >= 0,
            ;
        }
        let ghost shown = table@;
        let ghost from = cursor;
        match free_between(cursor, part.start, sector_size) {
            Some(free) => {
                table.push(MemTableEntry::Free(free));
            },
            None => {},
        }
        assert(table@ =~= shown + gap_entries(from, part.start, sector_size));
        cursor = part.end;
        table.push(MemTableEntry::Partition(part));
        assert(table@ + layout(cursor, rest.drop_first(), hi, sector_size) =~= shown + layout(
            from,
            rest,
            hi,
            sector_size,
        ));
    }
    let ghost shown = table@;
    assert(all.skip(all.len() as int) =~= Seq::<MemPartition>::empty());
    match free_between(cursor, hi, sector_size) {
        Some(free) => {
            table.push(MemTableEntry::Free(free));
        },
        None => {},
    }
    assert(table@ =~= shown + gap_entries(cursor, hi, sector_size));
    table
}

/// Sorting by start keeps the numbers of the partitions, and keeps them distinct.
pub proof fn lemma_sort_numbers(parts: Seq<MemPartition>)
    ensures
        numbers_of(sort_by_start(parts)) == numbers_of(parts),
        distinct_numbers(parts) ==> distinct_numbers(sort_by_start(parts)),
{
    let sorted = sort_by_start(parts);
    lemma_sort_by_start(parts);
    assert forall|n: u16| numbers_of(sorted).contains(n) <==> numbers_of(parts).contains(n) by {
        if numbers_of(sorted).contains(n) {
            let i = choose|i: int| 0 <= i < sorted.len() && (#[trigger] sorted[i]).number == n;
            assert(sorted.contains(sorted[i]));
            assert(parts.contains(sorted[i]));
            let m = choose|m: int| 0 <= m < parts.len() && parts[m] == sorted[i];
            assert(parts[m].number == n);
        }
        if numbers_of(parts).contains(n) {
            let i = choose|i: int| 0 <= i < parts.len() && (#[trigger] parts[i]).number == n;
            assert(parts.contains(parts[i]));
            assert(sorted.contains(parts[i]));
            let m = choose|m: int| 0 <= m < sorted.len() && sorted[m] == parts[i];
            assert(sorted[m].number == n);
        }
    }
    assert(numbers_of(sorted) =~= numbers_of(parts));
    if distinct_numbers(parts) {
        assert(parts.no_duplicates());
        parts.lemma_multiset_has_no_duplicates();
        sorted.lemma_multiset_has_no_duplicates_conv();
        assert forall|i: int, j: int|
            0 <= i < sorted.len() && 0 <= j < sorted.len() && i != j implies (
        #[trigger] sorted[i]).number != (#[trigger] sorted[j]).number by {
            assert(sorted.contains(sorted[i]));
            assert(sorted.contains(sorted[j]));
            assert(parts.contains(sorted[i]));
            assert(parts.contains(sorted[j]));
            let a = choose|a: int| 0 <= a < parts.len() && parts[a] == sorted[i];
            let b = choose|b: int| 0 <= b < parts.len() && parts[b] == sorted[j];
            assert(sorted[i] != sorted[j]);
            assert(parts[a].number != parts[b].number);
        }
    }
}

/// Where the partition at `index` of a table stands among the partitions of the table:
/// behind the partitions of the entries before it.
pub proof fn lemma_partition_position(regions: Seq<MemTableEntry>, index: int)
    requires
        0 <= index < regions.len(),
        regions[index] is Partition,
    ensures
        partitions_of(regions.take(index)).len() < partitions_of(regions).len(),
        partitions_of(regions)[partitions_of(regions.take(index)).len() as int]
            == regions[index]->Partition_0,
        forall|other: int|
            index < other < regions.len() ==> partitions_of(regions.take(index)).len()
                < partitions_of(#[trigger] regions.take(other)).len(),
{
    let front = regions.take(index);
    let upto = regions.take(index + 1);
    assert(upto.drop_last() =~= front);
    assert(upto.last() == regions[index]);
    assert(regions =~= upto + regions.skip(index + 1));
    lemma_partitions_of_concat(upto, regions.skip(index + 1));
    assert forall|other: int| index < other < regions.len() implies partitions_of(front).len()
        < partitions_of(#[trigger] regions.take(other)).len() by {
        assert(regions.take(other) =~= upto + regions.subrange(index + 1, other));
        lemma_partitions_of_concat(upto, regions.subrange(index + 1, other));
    }
}

/// Every partition among the partitions of a table is an entry of the table.
pub proof fn lemma_partition_origin(regions: Seq<MemTableEntry>, k: int)
    requires
        0 <= k < partitions_of(regions).len(),
    ensures
        exists|i: int|
            0 <= i < regions.len() && #[trigger] regions[i] == MemTableEntry::Partition(
                partitions_of(regions)[k],
            ),
    decreases regions.len(),
{
    let front = regions.drop_last();
    if k < partitions_of(front).len() {
        lemma_partition_origin(front, k);
        let i = choose|i: int|
            0 <= i < front.len() && #[trigger] front[i] == MemTableEntry::Partition(
                partitions_of(front)[k],
            );
        assert(regions[i] == front[i]);
    } else {
        assert(regions[regions.len() - 1] == regions.last());
    }
}

impl CompatDevice {
    /// The partitions of the table, in its order.
    pub open spec fn partitions(&self) -> Seq<MemPartition> {
        partitions_of(self.mem_table@)
    }

    /// Whether the partitions have distinct numbers, and exactly their numbers are
    /// marked used in the pool.
    pub open spec fn numbers_wf(&self) -> bool {
        &&& distinct_numbers(self.partitions())
        &&& self.number_pool@ == numbers_of(self.partitions())
    }

    /// Whether the partitions can stand together on the disk.
    pub open spec fn partitions_placeable(&self) -> bool {
        placeable(
            self.disk.starting_lba,
            self.partitions(),
            self.disk.ending_lba,
            self.disk.sector_size,
        )
    }

    /// Whether the table is a valid one for the disk.
    pub open spec fn table_wf(&self) -> bool {
        table_wf(
            self.disk.starting_lba,
            self.mem_table@,
            self.disk.ending_lba,
            self.disk.sector_size,
        )
    }

    /// Whether the device is valid: the disk is, the table is valid for it, and the
    /// numbers of the partitions agree with the pool.
    pub open spec fn wf(&self) -> bool {
        &&& self.disk.wf()
        &&& self.table_wf()
        &&& self.numbers_wf()
    }

    /// In a valid device no free region is directly followed by another.
    pub proof fn lemma_no_adjacent_free(&self)
        requires
            self.wf(),
        ensures
            forall|i: int|
                0 <= i < self.mem_table@.len() - 1 ==> !(#[trigger] self.mem_table@[i] is Free
                    && self.mem_table@[i + 1] is Free),
    {
        assert forall|i: int| 0 <= i < self.mem_table@.len() - 1 implies !(
        #[trigger] self.mem_table@[i] is Free && self.mem_table@[i + 1] is Free) by {
            let j = i + 1;
            assert(!(self.mem_table@[i] is Free && self.mem_table@[j] is Free));
        }
    }

    /// In a valid device the entries of the table and the gaps between them cover the
    /// sectors strictly between the sentinels of the disk, each sector once, and no gap
    /// holds an alignment boundary: every gap is shorter than the alignment constant.
    pub proof fn lemma_covered(&self)
        requires
            self.wf(),
        ensures
            forall|sector: int|
                self.disk.starting_lba < sector < self.disk.ending_lba ==> (#[trigger] in_region(
                    self.mem_table@,
                    sector,
                ) != in_gap(
                    self.disk.starting_lba,
                    self.mem_table@,
                    self.disk.ending_lba,
                    sector,
                )),
            forall|sector: int| #[trigger]
                in_region(self.mem_table@, sector) ==> self.disk.starting_lba < sector
                    < self.disk.ending_lba,
            forall|k: int|
                0 <= k <= self.mem_table@.len() ==> gap_ceiling(
                    self.mem_table@,
                    self.disk.ending_lba,
                    k,
                ) - #[trigger] gap_floor(self.disk.starting_lba, self.mem_table@, k) - 1 < 2048,
    {
        lemma_coverage(
            self.disk.starting_lba,
            self.mem_table@,
            self.disk.ending_lba,
            self.disk.sector_size,
        );
    }

    /// In a valid device the numbers that the pool marks as used are exactly those of
    /// the partitions in the table, and no two partitions have the same number.
    pub proof fn lemma_numbers_in_use(&self)
        requires
            self.wf(),
        ensures
            forall|n: u16|
                self.number_pool@.contains(n) <==> exists|i: int|
                    0 <= i < self.mem_table@.len() && (#[trigger] self.mem_table@[i]).has_number(n),
            forall|i: int, j: int, n: u16|
                0 <= i < j < self.mem_table@.len() ==> !(#[trigger] self.mem_table@[i].has_number(
                    n,
                ) && #[trigger] self.mem_table@[j].has_number(n)),
    {
        let regions = self.mem_table@;
        let parts = partitions_of(regions);
        assert forall|n: u16| self.number_pool@.contains(n) implies exists|i: int|
            0 <= i < regions.len() && (#[trigger] regions[i]).has_number(n) by {
            let k = choose|k: int| 0 <= k < parts.len() && (#[trigger] parts[k]).number == n;
            lemma_partition_origin(regions, k);
            let i = choose|i: int|
                0 <= i < regions.len() && #[trigger] regions[i] == MemTableEntry::Partition(
                    parts[k],
                );
            assert(regions[i].has_number(n));
        }
        assert forall|n: u16|
            (exists|i: int|
                0 <= i < regions.len() && (#[trigger] regions[i]).has_number(
                    n,
                )) implies self.number_pool@.contains(n) by {
            let i = choose|i: int| 0 <= i < regions.len() && (#[trigger] regions[i]).has_number(n);
            lemma_partition_position(regions, i);
            let k = partitions_of(regions.take(i)).len() as int;
            assert(parts[k].number == n);
        }
        assert forall|i: int, j: int, n: u16| 0 <= i < j < regions.len() implies !(
        #[trigger] regions[i].has_number(n) && #[trigger] regions[j].has_number(n)) by {
            if regions[i].has_number(n) && regions[j].has_number(n) {
                lemma_partition_position(regions, i);
                lemma_partition_position(regions, j);
                let a = partitions_of(regions.take(i)).len() as int;
                let b = partitions_of(regions.take(j)).len() as int;
                assert(a < b);
                assert(parts[a].number != parts[b].number);
            }
        }
    }

    /// Computes the free regions anew from the partitions of the table: the table becomes
    /// the partitions in ascending order with the aligned free region of every gap before,
    /// between and behind them.
    pub fn fill_free_space(&mut self)
        requires
            old(self).disk.wf(),
            old(self).partitions_placeable(),
        ensures
            final(self).mem_table@ == refilled(
                old(self).disk.starting_lba,
                old(self).mem_table@,
                old(self).disk.ending_lba,
                old(self).disk.sector_size,
            ),
            final(self).disk == old(self).disk,
            final(self).number_pool == old(self).number_pool,
            final(self).modification_map == old(self).modification_map,
            final(self).partitions() == sort_by_start(old(self).partitions()),
            final(self).table_wf(),
            free_aligned(final(self).mem_table@),
            old(self).numbers_wf() ==> final(self).wf(),
    {
        let lo = self.disk.starting_lba;
        let hi = self.disk.ending_lba;
        let sector_size = self.disk.sector_size;
        let mut entries: Vec<MemTableEntry> = Vec::new();
        std::mem::swap(&mut entries, &mut self.mem_table);
        let parts = sorted_partitions(entries);
        proof {
            lemma_sort_placeable(lo, old(self).partitions(), hi, sector_size);
            lemma_sort_by_start(old(self).partitions());
            lemma_layout(lo, parts@, hi, sector_size);
            lemma_sort_numbers(old(self).partitions());
        }
        self.mem_table = lay_out(lo, parts, hi, sector_size);
    }
}

} // verus!
