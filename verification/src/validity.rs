//! Tests of the validity of a device at run time.

use vstd::prelude::*;
use crate::align::{aligned_start, lemma_align_up};
use crate::device::{distinct_numbers, numbers_of, CompatDevice};
use crate::layout::{
    coalesced, contained, no_boundary_between, ordered, partitions_of, table_wf, tight,
};
use crate::partition::{MemPartition, MemTableEntry};
use crate::space::DiskSpace;

verus! {

impl DiskSpace {
    /// Whether the region is consistent for a device with the given sector size.
    pub fn is_wf(&self, sector_size: u16) -> (consistent: bool)
        ensures
            consistent == self.wf(sector_size),
    {
        if self.start > self.end {
            return false;
        }
        let span: u64 = self.end - self.start;
        if span == u64::MAX || self.sectors != span + 1 {
            return false;
        }
        match self.sectors.checked_mul(sector_size as u64) {
            Some(size) => self.size == size,
            None => false,
        }
    }
}

impl MemTableEntry {
    /// Whether the entry is consistent for a device with the given sector size.
    pub fn is_wf(&self, sector_size: u16) -> (consistent: bool)
        ensures
            consistent == self.wf(sector_size),
    {
        match self {
            MemTableEntry::Free(free) => free.is_wf(sector_size),
            MemTableEntry::Partition(part) => part.is_wf(sector_size),
        }
    }

    /// Whether the entry is a free region.
    pub fn is_free(&self) -> (free: bool)
        ensures
            free == self is Free,
    {
        match self {
            MemTableEntry::Free(_) => true,
            MemTableEntry::Partition(_) => false,
        }
    }
}

/// Whether no alignment boundary lies strictly between the occupied sectors `lo` and
/// `hi`.
fn is_gap_tight(lo: u64, hi: u64) -> (is: bool)
    ensures
        is == no_boundary_between(lo as int, hi as int),
{
    proof {
        lemma_align_up(lo + 1);
    }
    match lo.checked_add(1) {
        Some(first) => match aligned_start(first) {
            Some(boundary) => boundary >= hi,
            None => true,
        },
        None => true,
    }
}

/// Whether `regions` is a valid table between the sentinels `lo` and `hi`.
pub fn is_table_wf(lo: u64, regions: &Vec<MemTableEntry>, hi: u64, sector_size: u16) -> (valid:
    bool)
    ensures
        valid == table_wf(lo, regions@, hi, sector_size),
{
    let ghost all = regions@;
    let mut floor: u64 = lo;
    let mut after_free = false;
    let mut k: usize = 0;
    while k < regions.len()
        invariant
            k <= regions.len(),
            all == regions@,
            floor == (if k == 0 {
                lo
            } else {
                all[k - 1].last_lba()
            }),
            after_free == (k > 0 && all[k - 1] is Free),
            contained(lo, all.take(k as int), hi, sector_size),
            ordered(all.take(k as int)),
            coalesced(all.take(k as int)),
            k > 0 ==> tight(lo, all.take(k as int), (floor + 1) as u64),
        decreases regions.len() - k,
    {
        let entry = &regions[k];
        let ghost seen = all.take(k as int);
        let ghost more = all.take(k + 1);
        proof {
            assert forall|i: int| 0 <= i < seen.len() implies seen[i] == all[i] by {}
            assert forall|i: int| 0 <= i < more.len() implies more[i] == all[i] by {}
            if k > 0 {
                assert(seen[k - 1].wf(sector_size));
            }
        }
        if !entry.is_wf(sector_size) || entry.start() <= lo || entry.end() >= hi {
            proof {
                if table_wf(lo, all, hi, sector_size) {
                    assert(all[k as int].wf(sector_size));
                }
            }
            return false;
        }
        if k > 0 && floor >= entry.start() {
            proof {
                if table_wf(lo, all, hi, sector_size) {
                    assert(all[k - 1].last_lba() < all[k as int].first_lba());
                }
            }
            return false;
        }
        if !is_gap_tight(floor, entry.start()) {
            proof {
                if table_wf(lo, all, hi, sector_size) && k > 0 {
                    assert(no_boundary_between(
                        all[k - 1].last_lba() as int,
                        all[k as int].first_lba() as int,
                    ));
                }
            }
            return false;
        }
        let free = entry.is_free();
        if after_free && free {
            proof {
                if table_wf(lo, all, hi, sector_size) {
                    assert(!(all[k - 1] is Free && all[k as int] is Free));
                }
            }
            return false;
        }
        proof {
            assert(all[k as int].wf(sector_size));
            assert forall|i: int| 0 <= i < more.len() implies (#[trigger] more[i]).wf(sector_size)
                && lo < more[i].first_lba() && more[i].last_lba() < hi by {
                if i < k {
                    assert(seen[i].wf(sector_size));
                }
            }
            assert forall|i: int, j: int| 0 <= i < j < more.len() implies more[i].last_lba()
                < more[j].first_lba() by {
                if j < k {
                    assert(seen[i].last_lba() < seen[j].first_lba());
                } else if i < k - 1 {
                    assert(seen[i].last_lba() < seen[k - 1].first_lba());
                    assert(seen[k - 1].wf(sector_size));
                }
            }
            assert forall|i: int, j: int| 0 <= i && j == i + 1 && j < more.len() implies !((
            #[trigger] more[i]) is Free && (#[trigger] more[j]) is Free) by {
                if j < k {
                    assert(!(seen[i] is Free && seen[j] is Free));
                }
            }
            lemma_align_up(entry.last_lba() + 1);
            assert(tight(lo, more, (entry.last_lba() + 1) as u64)) by {
                assert(more[0] == all[0]);
                assert(more.last() == all[k as int]);
                if k > 0 {
                    assert(seen[0] == all[0]);
                }
                assert forall|i: int, j: int|
                    0 <= i && j == i + 1 && j < more.len() implies no_boundary_between(
                    (#[trigger] more[i]).last_lba() as int,
                    (#[trigger] more[j]).first_lba() as int,
                ) by {
                    if j < k {
                        assert(no_boundary_between(
                            seen[i].last_lba() as int,
                            seen[j].first_lba() as int,
                        ));
                    }
                }
            }
        }
        floor = entry.end();
        after_free = free;
        k += 1;
    }
    proof {
        assert(all.take(regions.len() as int) =~= all);
        if regions.len() > 0 {
            assert(all.last() == all[regions.len() - 1]);
        }
    }
    is_gap_tight(floor, hi)
}

/// The numbers of the partitions, in their order.
pub open spec fn numbers_in_order(parts: Seq<MemPartition>) -> Seq<u16> {
    Seq::new(parts.len(), |i: int| parts[i].number)
}

/// The numbers of the partitions of a table, in their order.
fn partition_numbers(regions: &Vec<MemTableEntry>) -> (numbers: Vec<u16>)
    ensures
        numbers@ == numbers_in_order(partitions_of(regions@)),
{
    let mut numbers: Vec<u16> = Vec::new();
    let ghost all = regions@;
    let mut k: usize = 0;
    assert(numbers@ =~= numbers_in_order(partitions_of(all.take(0))));
    while k < regions.len()
        invariant
            k <= regions.len(),
            all == regions@,
            numbers@ == numbers_in_order(partitions_of(all.take(k as int))),
        decreases regions.len() - k,
    {
        proof {
            assert(all.take(k + 1).drop_last() =~= all.take(k as int));
            assert(all.take(k + 1).last() == all[k as int]);
        }
        let ghost held = numbers@;
        match &regions[k] {
            MemTableEntry::Partition(part) => {
                numbers.push(part.number);
                assert(numbers@ =~= numbers_in_order(partitions_of(all.take(k + 1))));
            },
            MemTableEntry::Free(_) => {},
        }
        k += 1;
    }
    assert(all.take(regions.len() as int) =~= all);
    numbers
}

/// Whether `number` is among the numbers.
fn has_number(numbers: &Vec<u16>, number: u16) -> (has: bool)
    ensures
        has == numbers@.contains(number),
{
    let mut i: usize = 0;
    while i < numbers.len()
        invariant
            i <= numbers.len(),
            forall|k: int| 0 <= k < i ==> numbers@[k] != number,
        decreases numbers.len() - i,
    {
        if numbers[i] == number {
            return true;
        }
        i += 1;
    }
    false
}

/// Whether no number comes twice.
fn all_distinct(numbers: &Vec<u16>) -> (distinct: bool)
    ensures
        distinct == numbers@.no_duplicates(),
{
    let mut i: usize = 0;
    while i < numbers.len()
        invariant
            i <= numbers.len(),
            forall|a: int, b: int| 0 <= a < b < i ==> numbers@[a] != numbers@[b],
        decreases numbers.len() - i,
    {
        let mut j: usize = 0;
        while j < i
            invariant
                j <= i < numbers.len(),
                forall|a: int| 0 <= a < j ==> numbers@[a] != numbers@[i as int],
            decreases i - j,
        {
            if numbers[j] == numbers[i] {
                return false;
            }
            j += 1;
        }
        i += 1;
    }
    assert forall|a: int, b: int|
        0 <= a < numbers.len() && 0 <= b < numbers.len() && a != b implies numbers@[a]
        != numbers@[b] by {
        if b < a {
            assert(numbers@[b] != numbers@[a]);
        }
    }
    true
}

impl CompatDevice {
    /// Whether the partitions have distinct numbers, and exactly their numbers are
    /// marked used in the pool.
    pub fn has_numbers_wf(&self) -> (valid: bool)
        ensures
            valid == self.numbers_wf(),
    {
        let numbers = partition_numbers(&self.mem_table);
        let ghost parts = self.partitions();
        proof {
            assert(distinct_numbers(parts) <==> numbers@.no_duplicates()) by {
                if distinct_numbers(parts) {
                    assert forall|a: int, b: int|
                        0 <= a < numbers.len() && 0 <= b < numbers.len() && a
                            != b implies numbers@[a] != numbers@[b] by {
                        assert(parts[a].number != parts[b].number);
                    }
                }
                if numbers@.no_duplicates() {
                    assert forall|a: int, b: int|
                        0 <= a < parts.len() && 0 <= b < parts.len() && a != b implies (
                    #[trigger] parts[a]).number != (#[trigger] parts[b]).number by {
                        assert(numbers@[a] != numbers@[b]);
                    }
                }
            }
            assert forall|n: u16| numbers_of(parts).contains(n) <==> numbers@.contains(n) by {
                if numbers_of(parts).contains(n) {
                    let i = choose|i: int| 0 <= i < parts.len() && (#[trigger] parts[i]).number == n;
                    assert(numbers@[i] == n);
                }
                if numbers@.contains(n) {
                    let i = choose|i: int| 0 <= i < numbers@.len() && numbers@[i] == n;
                    assert(parts[i].number == n);
                }
            }
        }
        if !all_distinct(&numbers) {
            return false;
        }
        let mut n: u16 = 0;
        while n < u16::MAX
            invariant
                parts == self.partitions(),
                distinct_numbers(parts),
                forall|m: u16| numbers_of(parts).contains(m) <==> numbers@.contains(m),
                forall|m: u16| m < n ==> (self.number_pool@.contains(m) <==> numbers@.contains(m)),
            decreases u16::MAX - n,
        {
            if self.number_pool.is_used(n) != has_number(&numbers, n) {
                assert(self.number_pool@.contains(n) != numbers_of(parts).contains(n));
                return false;
            }
            n += 1;
        }
        if self.number_pool.is_used(n) != has_number(&numbers, n) {
            assert(self.number_pool@.contains(n) != numbers_of(parts).contains(n));
            return false;
        }
        assert(self.number_pool@ =~= numbers_of(parts));
        true
    }

    /// Whether the device is valid.
    pub fn is_wf(&self) -> (valid: bool)
        ensures
            valid == self.wf(),
    {
        let fits = self.disk.sector_size > 0 && self.disk.ending_lba.checked_mul(
            self.disk.sector_size as u64,
        ).is_some();
        fits && is_table_wf(
            self.disk.starting_lba,
            &self.mem_table,
            self.disk.ending_lba,
            self.disk.sector_size,
        ) && self.has_numbers_wf()
    }
}

} // verus!
