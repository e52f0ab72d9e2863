//! The shape of a partition table in memory: which sequences of entries are valid,
//! and which free regions belong between given partitions.

use vstd::prelude::*;
use crate::align::{align_up, is_aligned, lemma_align_up, aligned_start};
use crate::partition::{MemPartition, MemTableEntry};
use crate::space::DiskSpace;

verus! {

/// The partitions among `regions`, in their order.
pub open spec fn partitions_of(regions: Seq<MemTableEntry>) -> Seq<MemPartition>
    decreases regions.len(),
{
    if regions.len() == 0 {
        Seq::empty()
    } else {
        let before = partitions_of(regions.drop_last());
        match regions.last() {
            MemTableEntry::Partition(part) => before.push(part),
            MemTableEntry::Free(_) => before,
        }
    }
}

/// Whether the partitions come in ascending order of their first sector.
pub open spec fn sorted_by_start(parts: Seq<MemPartition>) -> bool {
    forall|i: int, j: int| 0 <= i < j < parts.len() ==> parts[i].start <= parts[j].start
}

/// Whether no two of the partitions share a sector.
pub open spec fn disjoint(parts: Seq<MemPartition>) -> bool {
    forall|i: int, j: int|
        0 <= i < parts.len() && 0 <= j < parts.len() && i != j ==> parts[i].end < parts[j].start
            || parts[j].end < parts[i].start
}

/// Whether the partitions can stand together between the sentinels `lo` and `hi` of a
/// device with the given sector size: each is consistent and lies strictly between the
/// sentinels, and no two overlap.
pub open spec fn placeable(lo: u64, parts: Seq<MemPartition>, hi: u64, sector_size: u16) -> bool {
    &&& forall|i: int|
        0 <= i < parts.len() ==> (#[trigger] parts[i]).wf(sector_size) && lo < parts[i].start
            && parts[i].end < hi
    &&& disjoint(parts)
}

/// `parts` with `part` put behind the last partition that does not start after it.
pub open spec fn insert_by_start(parts: Seq<MemPartition>, part: MemPartition) -> Seq<
    MemPartition,
>
    decreases parts.len(),
{
    if parts.len() == 0 {
        seq![part]
    } else if parts.last().start <= part.start {
        parts.push(part)
    } else {
        insert_by_start(parts.drop_last(), part).push(parts.last())
    }
}

/// The partitions in ascending order of their first sector; partitions that start at
/// the same sector keep their order.
pub open spec fn sort_by_start(parts: Seq<MemPartition>) -> Seq<MemPartition>
    decreases parts.len(),
{
    if parts.len() == 0 {
        Seq::empty()
    } else {
        insert_by_start(sort_by_start(parts.drop_last()), parts.last())
    }
}

/// The free region strictly between the occupied sectors `lo` and `hi`: it begins at the
/// first alignment boundary after `lo` and ends at the sector before `hi`. There is none
/// where no sector is left behind that boundary.
pub open spec fn free_gap(lo: u64, hi: u64, sector_size: u16) -> Option<DiskSpace> {
    let start = align_up(lo + 1);
    if start < hi {
        Some(
            DiskSpace {
                start: start as u64,
                end: (hi - 1) as u64,
                sectors: (hi - start) as u64,
                size: ((hi - start) * sector_size) as u64,
            },
        )
    } else {
        None
    }
}

/// The free region between `lo` and `hi` as a list of at most one entry.
pub open spec fn gap_entries(lo: u64, hi: u64, sector_size: u16) -> Seq<MemTableEntry> {
    match free_gap(lo, hi, sector_size) {
        Some(free) => seq![MemTableEntry::Free(free)],
        None => Seq::empty(),
    }
}

/// The table that holds the partitions `parts`, given in ascending order, between the
/// sentinels `lo` and `hi`, with the free region of every gap before, between and behind
/// them.
///
/// The boundaries of the gaps are, in ascending order, the lower sentinel, the first and
/// the last sector of each partition in turn, and the upper sentinel; each gap lies
/// between two of them that follow one another: a last sector, or the lower sentinel,
/// and the next first sector, or the upper sentinel.
pub open spec fn layout(lo: u64, parts: Seq<MemPartition>, hi: u64, sector_size: u16) -> Seq<
    MemTableEntry,
>
    decreases parts.len(),
{
    if parts.len() == 0 {
        gap_entries(lo, hi, sector_size)
    } else {
        gap_entries(lo, parts[0].start, sector_size) + seq![MemTableEntry::Partition(parts[0])]
            + layout(parts[0].end, parts.drop_first(), hi, sector_size)
    }
}

/// Whether the entries come in ascending order without sharing a sector.
pub open spec fn ordered(regions: Seq<MemTableEntry>) -> bool {
    forall|i: int, j: int|
        0 <= i < j < regions.len() ==> regions[i].last_lba() < regions[j].first_lba()
}

/// Whether every entry is consistent and lies strictly between the sentinels.
pub open spec fn contained(lo: u64, regions: Seq<MemTableEntry>, hi: u64, sector_size: u16) -> bool {
    forall|i: int|
        0 <= i < regions.len() ==> (#[trigger] regions[i]).wf(sector_size) && lo
            < regions[i].first_lba() && regions[i].last_lba() < hi
}

/// Whether no free region is directly followed by another.
pub open spec fn coalesced(regions: Seq<MemTableEntry>) -> bool {
    forall|i: int, j: int|
        0 <= i && j == i + 1 && j < regions.len() ==> !((#[trigger] regions[i]) is Free
            && (#[trigger] regions[j]) is Free)
}

/// Whether no alignment boundary lies strictly between the occupied sectors `lo` and
/// `hi`: a free region between them would be empty.
pub open spec fn no_boundary_between(lo: int, hi: int) -> bool {
    align_up(lo + 1) >= hi
}

/// Whether the sectors strictly between the sentinels that belong to no entry hold no
/// alignment boundary: before the first entry, between two neighbours, and behind the
/// last. Every run of such sectors is then shorter than the alignment constant.
pub open spec fn tight(lo: u64, regions: Seq<MemTableEntry>, hi: u64) -> bool {
    if regions.len() == 0 {
        no_boundary_between(lo as int, hi as int)
    } else {
        &&& no_boundary_between(lo as int, regions[0].first_lba() as int)
        &&& forall|i: int, j: int|
            0 <= i && j == i + 1 && j < regions.len() ==> no_boundary_between(
                (#[trigger] regions[i]).last_lba() as int,
                (#[trigger] regions[j]).first_lba() as int,
            )
        &&& no_boundary_between(regions.last().last_lba() as int, hi as int)
    }
}

/// Whether every free region begins on an alignment boundary.
pub open spec fn free_aligned(regions: Seq<MemTableEntry>) -> bool {
    forall|i: int|
        0 <= i < regions.len() ==> ((#[trigger] regions[i]) matches MemTableEntry::Free(free)
            ==> is_aligned(free.start as int))
}

/// Whether `regions` is a valid table between the sentinels `lo` and `hi`.
pub open spec fn table_wf(lo: u64, regions: Seq<MemTableEntry>, hi: u64, sector_size: u16) -> bool {
    &&& contained(lo, regions, hi, sector_size)
    &&& ordered(regions)
    &&& coalesced(regions)
    &&& tight(lo, regions, hi)
}

/// Computes the free region strictly between the occupied sectors `lo` and `hi`.
pub fn free_between(lo: u64, hi: u64, sector_size: u16) -> (free: Option<DiskSpace>)
    requires
        hi * sector_size <= u64::MAX,
    ensures
        free == free_gap(lo, hi, sector_size),
{
    if lo >= hi {
        proof {
            lemma_align_up(lo + 1);
        }
        return None;
    }
    let first_usable: u64 = lo + 1;
    proof {
        lemma_align_up(first_usable as int);
    }
    match aligned_start(first_usable) {
        Some(start) => {
            if start < hi {
                let sectors: u64 = hi - start;
                assert(sectors * sector_size <= hi * sector_size) by (nonlinear_arith)
                    requires
                        sectors <= hi,
                ;
                Some(
                    DiskSpace {
                        start,
                        end: hi - 1,
                        sectors,
                        size: sectors * (sector_size as u64),
                    },
                )
            } else {
                None
            }
        },
        None => None,
    }
}

/// The entries of a sequence after an insertion, one by one.
pub(crate) proof fn lemma_inserted<A>(items: Seq<A>, k: int, item: A)
    requires
        0 <= k <= items.len(),
    ensures
        items.insert(k, item).len() == items.len() + 1,
        forall|i: int|
            0 <= i <= items.len() ==> #[trigger] items.insert(k, item)[i] == (if i < k {
                items[i]
            } else if i == k {
                item
            } else {
                items[i - 1]
            }),
{
}

/// Index at which `insert_by_start` puts `part` into `parts`.
pub open spec fn insert_index(parts: Seq<MemPartition>, part: MemPartition) -> int
    decreases parts.len(),
{
    if parts.len() == 0 {
        0
    } else if parts.last().start <= part.start {
        parts.len() as int
    } else {
        insert_index(parts.drop_last(), part)
    }
}

/// `insert_by_start` inserts at `insert_index`: behind it every partition starts after
/// `part`, and the one before it, if any, does not.
pub proof fn lemma_insert_index(parts: Seq<MemPartition>, part: MemPartition)
    ensures
        0 <= insert_index(parts, part) <= parts.len(),
        insert_by_start(parts, part) == parts.insert(insert_index(parts, part), part),
        forall|j: int|
            insert_index(parts, part) <= j < parts.len() ==> (#[trigger] parts[j]).start
                > part.start,
        insert_index(parts, part) > 0 ==> parts[insert_index(parts, part) - 1].start
            <= part.start,
    decreases parts.len(),
{
    if parts.len() == 0 {
        assert(seq![part] =~= parts.insert(0, part));
    } else if parts.last().start <= part.start {
        assert(parts.push(part) =~= parts.insert(parts.len() as int, part));
    } else {
        let front = parts.drop_last();
        lemma_insert_index(front, part);
        let k = insert_index(front, part);
        assert(front.insert(k, part).push(parts.last()) =~= parts.insert(k, part));
        assert forall|j: int| k <= j < parts.len() implies (#[trigger] parts[j]).start
            > part.start by {
            if j < front.len() {
                assert(front[j] == parts[j]);
            }
        }
        if k > 0 {
            assert(front[k - 1] == parts[k - 1]);
        }
    }
}

/// The index that `insert_by_start` uses is the only one with the two properties of
/// `lemma_insert_index`.
pub proof fn lemma_insert_at(parts: Seq<MemPartition>, part: MemPartition, k: int)
    requires
        0 <= k <= parts.len(),
        forall|j: int| k <= j < parts.len() ==> (#[trigger] parts[j]).start > part.start,
        k > 0 ==> parts[k - 1].start <= part.start,
    ensures
        insert_by_start(parts, part) == parts.insert(k, part),
    decreases parts.len(),
{
    if parts.len() == 0 {
        assert(seq![part] =~= parts.insert(0, part));
    } else if parts.last().start <= part.start {
        if k < parts.len() {
            assert(parts[parts.len() - 1].start > part.start);
        }
        assert(parts.push(part) =~= parts.insert(k, part));
    } else {
        let front = parts.drop_last();
        if k == parts.len() {
            assert(parts[k - 1] == parts.last());
        }
        assert forall|j: int| k <= j < front.len() implies (#[trigger] front[j]).start
            > part.start by {
            assert(front[j] == parts[j]);
        }
        if k > 0 {
            assert(front[k - 1] == parts[k - 1]);
        }
        lemma_insert_at(front, part, k);
        assert(front.insert(k, part).push(parts.last()) =~= parts.insert(k, part));
    }
}

/// Inserting by start adds exactly `part`.
pub proof fn lemma_insert_by_start_elements(parts: Seq<MemPartition>, part: MemPartition)
    ensures
        insert_by_start(parts, part).len() == parts.len() + 1,
        insert_by_start(parts, part).to_multiset() == parts.to_multiset().insert(part),
        forall|x: MemPartition|
            insert_by_start(parts, part).contains(x) <==> parts.contains(x) || x == part,
{
    lemma_insert_index(parts, part);
    let k = insert_index(parts, part);
    let grown = parts.insert(k, part);
    lemma_inserted(parts, k, part);
    assert(grown.to_multiset() == parts.to_multiset().insert(part)) by {
        assert(grown.remove(k) =~= parts);
        assert(grown[k] == part);
        vstd::seq_lib::to_multiset_remove(grown, k);
        grown.to_multiset_ensures();
        assert(grown.contains(part));
        assert(grown.to_multiset() =~= parts.to_multiset().insert(part));
    }
    assert forall|x: MemPartition| grown.contains(x) <==> parts.contains(x) || x == part by {
        if grown.contains(x) {
            let i = choose|i: int| 0 <= i < grown.len() && grown[i] == x;
            if i < k {
                assert(parts[i] == x);
            } else if i > k {
                assert(parts[i - 1] == x);
            }
        }
        if parts.contains(x) {
            let i = choose|i: int| 0 <= i < parts.len() && parts[i] == x;
            if i < k {
                assert(grown[i] == x);
            } else {
                assert(grown[i + 1] == x);
            }
        }
        if x == part {
            assert(grown[k] == x);
        }
    }
}

/// Inserting by start keeps an ascending order ascending.
pub proof fn lemma_insert_by_start_sorted(parts: Seq<MemPartition>, part: MemPartition)
    requires
        sorted_by_start(parts),
    ensures
        sorted_by_start(insert_by_start(parts, part)),
{
    lemma_insert_index(parts, part);
    let k = insert_index(parts, part);
    let grown = parts.insert(k, part);
    lemma_inserted(parts, k, part);
    assert forall|i: int, j: int| 0 <= i < j < grown.len() implies grown[i].start
        <= grown[j].start by {
        let a = if i < k { i } else { i - 1 };
        let b = if j < k { j } else { j - 1 };
        if i != k && j != k {
            assert(grown[i] == parts[a] && grown[j] == parts[b]);
        } else if i == k {
            assert(grown[j] == parts[b]);
            assert(parts[b].start > part.start);
        } else {
            assert(grown[i] == parts[a]);
            assert(parts[a].start <= parts[k - 1].start);
        }
    }
}

/// Sorting by start rearranges the partitions into ascending order and leaves a
/// sequence that is in ascending order as it is.
pub proof fn lemma_sort_by_start(parts: Seq<MemPartition>)
    ensures
        sorted_by_start(sort_by_start(parts)),
        sort_by_start(parts).len() == parts.len(),
        sort_by_start(parts).to_multiset() == parts.to_multiset(),
        forall|x: MemPartition| sort_by_start(parts).contains(x) <==> parts.contains(x),
        sorted_by_start(parts) ==> sort_by_start(parts) == parts,
    decreases parts.len(),
{
    if parts.len() == 0 {
        assert(sort_by_start(parts) =~= parts);
    } else {
        let front = parts.drop_last();
        let tail = parts.last();
        lemma_sort_by_start(front);
        lemma_insert_by_start_elements(sort_by_start(front), tail);
        lemma_insert_by_start_sorted(sort_by_start(front), tail);
        assert(front.push(tail) =~= parts);
        vstd::seq_lib::to_multiset_build(front, tail);
        assert forall|x: MemPartition| sort_by_start(parts).contains(x) <==> parts.contains(
            x,
        ) by {
            if parts.contains(x) {
                let i = choose|i: int| 0 <= i < parts.len() && parts[i] == x;
                if i < front.len() {
                    assert(front[i] == x);
                }
            }
            if front.contains(x) {
                let i = choose|i: int| 0 <= i < front.len() && front[i] == x;
                assert(parts[i] == x);
            }
        }
        if sorted_by_start(parts) {
            assert forall|i: int, j: int| 0 <= i < j < front.len() implies front[i].start
                <= front[j].start by {
                assert(front[i] == parts[i] && front[j] == parts[j]);
            }
            if front.len() > 0 {
                assert(front.last() == parts[front.len() - 1]);
                assert(parts[front.len() - 1].start <= parts[parts.len() - 1].start);
            }
        }
    }
}

/// Whether `part` shares no sector with any of `parts`.
pub open spec fn apart(part: MemPartition, parts: Seq<MemPartition>) -> bool {
    forall|i: int|
        0 <= i < parts.len() ==> (#[trigger] parts[i]).end < part.start || part.end
            < parts[i].start
}

/// A partition that can stand beside all of `parts` can be inserted among them.
proof fn lemma_insert_placeable(
    lo: u64,
    parts: Seq<MemPartition>,
    part: MemPartition,
    hi: u64,
    sector_size: u16,
)
    requires
        placeable(lo, parts, hi, sector_size),
        part.wf(sector_size),
        lo < part.start,
        part.end < hi,
        apart(part, parts),
    ensures
        placeable(lo, insert_by_start(parts, part), hi, sector_size),
{
    lemma_insert_index(parts, part);
    let k = insert_index(parts, part);
    let grown = parts.insert(k, part);
    lemma_inserted(parts, k, part);
    assert forall|i: int| 0 <= i < grown.len() implies (#[trigger] grown[i]).wf(sector_size)
        && lo < grown[i].start && grown[i].end < hi by {
        let a = if i < k { i } else { i - 1 };
        if i != k {
            assert(grown[i] == parts[a]);
        }
    }
    assert forall|i: int, j: int|
        0 <= i < grown.len() && 0 <= j < grown.len() && i != j implies grown[i].end
        < grown[j].start || grown[j].end < grown[i].start by {
        let a = if i < k { i } else { i - 1 };
        let b = if j < k { j } else { j - 1 };
        if i != k && j != k {
            assert(grown[i] == parts[a] && grown[j] == parts[b]);
        } else if i == k {
            assert(grown[j] == parts[b]);
        } else {
            assert(grown[i] == parts[a]);
        }
    }
}

/// Partitions that can stand together can do so in ascending order too.
pub proof fn lemma_sort_placeable(lo: u64, parts: Seq<MemPartition>, hi: u64, sector_size: u16)
    requires
        placeable(lo, parts, hi, sector_size),
    ensures
        placeable(lo, sort_by_start(parts), hi, sector_size),
    decreases parts.len(),
{
    if parts.len() > 0 {
        let front = parts.drop_last();
        let tail = parts.last();
        assert forall|i: int, j: int|
            0 <= i < front.len() && 0 <= j < front.len() && i != j implies front[i].end
            < front[j].start || front[j].end < front[i].start by {
            assert(front[i] == parts[i] && front[j] == parts[j]);
        }
        assert forall|i: int| 0 <= i < front.len() implies (#[trigger] front[i]).wf(sector_size)
            && lo < front[i].start && front[i].end < hi by {
            assert(front[i] == parts[i]);
        }
        lemma_sort_placeable(lo, front, hi, sector_size);
        lemma_sort_by_start(front);
        let sorted = sort_by_start(front);
        assert(tail == parts[parts.len() - 1]);
        assert forall|i: int| 0 <= i < sorted.len() implies (#[trigger] sorted[i]).end
            < tail.start || tail.end < sorted[i].start by {
            assert(sorted.contains(sorted[i]));
            assert(front.contains(sorted[i]));
            let m = choose|m: int| 0 <= m < front.len() && front[m] == sorted[i];
            assert(parts[m] == sorted[i]);
        }
        lemma_insert_placeable(lo, sorted, tail, hi, sector_size);
    }
}

/// The partitions of a concatenation are those of its parts, concatenated.
pub proof fn lemma_partitions_of_concat(left: Seq<MemTableEntry>, right: Seq<MemTableEntry>)
    ensures
        partitions_of(left + right) == partitions_of(left) + partitions_of(right),
    decreases right.len(),
{
    if right.len() == 0 {
        assert(left + right =~= left);
        assert(partitions_of(left) + partitions_of(right) =~= partitions_of(left));
    } else {
        let whole = left + right;
        assert(whole.drop_last() =~= left + right.drop_last());
        assert(whole.last() == right.last());
        lemma_partitions_of_concat(left, right.drop_last());
        match right.last() {
            MemTableEntry::Partition(part) => {
                assert(partitions_of(whole) =~= partitions_of(left) + partitions_of(right));
            },
            MemTableEntry::Free(_) => {},
        }
    }
}

/// What `free_gap` yields, in the steps by which a gap is trimmed: the raw count of the
/// sectors between `lo` and `hi`, less the padding up to the next alignment boundary,
/// none where nothing is left.
pub proof fn lemma_free_gap(lo: u64, hi: u64, sector_size: u16)
    requires
        lo < hi,
        hi * sector_size <= u64::MAX,
    ensures
        ({
            let raw = hi - lo - 1;
            let first_usable = lo + 1;
            let padding = ((first_usable - 1) / 2048 + 1) * 2048 - first_usable;
            let sectors = if raw > padding { raw - padding } else { 0 };
            &&& 0 <= padding < 2048
            &&& sectors == 0 <==> free_gap(lo, hi, sector_size) is None
            &&& free_gap(lo, hi, sector_size) matches Some(free) ==> {
                &&& free.start == first_usable + padding
                &&& free.end == hi - 1
                &&& free.sectors == sectors
                &&& free.size == sectors * sector_size
                &&& is_aligned(free.start as int)
                &&& free.wf(sector_size)
            }
        }),
{
    lemma_align_up(lo + 1);
    let start = align_up(lo + 1);
    if start < hi {
        assert(0 <= (hi - start) * sector_size <= hi * sector_size) by (nonlinear_arith)
            requires
                0 <= hi - start <= hi,
                sector_size >= 0,
        ;
    }
}

/// Whether every partition of `parts` begins behind `lo`.
pub(crate) proof fn lemma_tail_placeable(lo: u64, parts: Seq<MemPartition>, hi: u64, sector_size: u16)
    requires
        parts.len() > 0,
        placeable(lo, parts, hi, sector_size),
        sorted_by_start(parts),
    ensures
        placeable(parts[0].end, parts.drop_first(), hi, sector_size),
        sorted_by_start(parts.drop_first()),
{
    let tail = parts.drop_first();
    assert forall|i: int| 0 <= i < tail.len() implies (#[trigger] tail[i]).wf(sector_size)
        && parts[0].end < tail[i].start && tail[i].end < hi by {
        assert(tail[i] == parts[i + 1]);
        assert(parts[0].start <= parts[i + 1].start);
    }
    assert forall|i: int, j: int|
        0 <= i < tail.len() && 0 <= j < tail.len() && i != j implies tail[i].end
        < tail[j].start || tail[j].end < tail[i].start by {
        assert(tail[i] == parts[i + 1] && tail[j] == parts[j + 1]);
    }
    assert forall|i: int, j: int| 0 <= i < j < tail.len() implies tail[i].start
        <= tail[j].start by {
        assert(tail[i] == parts[i + 1] && tail[j] == parts[j + 1]);
    }
}

/// An entry may be put before a table that is valid behind it, where no alignment
/// boundary lies between the lower sentinel and the entry, and the entry and the first
/// one of the table are not both free.
pub proof fn lemma_prepend(
    lo: u64,
    entry: MemTableEntry,
    rest: Seq<MemTableEntry>,
    hi: u64,
    sector_size: u16,
)
    requires
        entry.wf(sector_size),
        lo < entry.first_lba(),
        no_boundary_between(lo as int, entry.first_lba() as int),
        entry.last_lba() < hi,
        table_wf(entry.last_lba(), rest, hi, sector_size),
        !(entry is Free && rest.len() > 0 && rest[0] is Free),
    ensures
        table_wf(lo, seq![entry] + rest, hi, sector_size),
        free_aligned(rest) && (entry matches MemTableEntry::Free(free) ==> is_aligned(
            free.start as int,
        )) ==> free_aligned(seq![entry] + rest),
        partitions_of(seq![entry] + rest) == (match entry {
            MemTableEntry::Partition(part) => seq![part],
            MemTableEntry::Free(_) => Seq::empty(),
        }) + partitions_of(rest),
{
    let table = seq![entry] + rest;
    assert forall|i: int| 0 <= i < table.len() implies #[trigger] table[i] == (if i == 0 {
        entry
    } else {
        rest[i - 1]
    }) by {}
    assert(contained(lo, table, hi, sector_size)) by {
        assert forall|i: int| 0 <= i < table.len() implies (#[trigger] table[i]).wf(sector_size)
            && lo < table[i].first_lba() && table[i].last_lba() < hi by {
            if i > 0 {
                assert(rest[i - 1].wf(sector_size));
            }
        }
    }
    assert(ordered(table)) by {
        assert forall|i: int, j: int| 0 <= i < j < table.len() implies table[i].last_lba()
            < table[j].first_lba() by {
            if i == 0 {
                assert(rest[j - 1].wf(sector_size));
            } else {
                assert(rest[i - 1].last_lba() < rest[j - 1].first_lba());
            }
        }
    }
    assert(coalesced(table)) by {
        assert forall|i: int, j: int| 0 <= i && j == i + 1 && j < table.len() implies !((
        #[trigger] table[i]) is Free && (#[trigger] table[j]) is Free) by {
            if i > 0 {
                assert(!(rest[i - 1] is Free && rest[j - 1] is Free));
            }
        }
    }
    assert(tight(lo, table, hi)) by {
        assert forall|i: int, j: int|
            0 <= i && j == i + 1 && j < table.len() implies no_boundary_between(
            (#[trigger] table[i]).last_lba() as int,
            (#[trigger] table[j]).first_lba() as int,
        ) by {
            if i > 0 {
                assert(no_boundary_between(
                    rest[i - 1].last_lba() as int,
                    rest[j - 1].first_lba() as int,
                ));
            }
        }
        if rest.len() > 0 {
            assert(table.last() == rest.last());
        }
    }
    if free_aligned(rest) && (entry matches MemTableEntry::Free(free) ==> is_aligned(
        free.start as int,
    )) {
        assert forall|i: int| 0 <= i < table.len() implies ((#[trigger] table[i]) matches MemTableEntry::Free(
            free,
        ) ==> is_aligned(free.start as int)) by {
            if i > 0 {
                assert(rest[i - 1] is Free ==> is_aligned(rest[i - 1].first_lba() as int));
            }
        }
    }
    lemma_partitions_of_concat(seq![entry], rest);
    assert(seq![entry].drop_last() =~= Seq::<MemTableEntry>::empty());
    assert(seq![entry].last() == entry);
    assert(partitions_of(Seq::<MemTableEntry>::empty()) =~= Seq::<MemPartition>::empty());
    assert(Seq::<MemPartition>::empty().push(entry->Partition_0) =~= seq![entry->Partition_0]);
    assert(partitions_of(seq![entry]) =~= (match entry {
        MemTableEntry::Partition(part) => seq![part],
        MemTableEntry::Free(_) => Seq::empty(),
    }));
}

/// The table laid out for partitions that can stand together in ascending order is
/// valid, holds exactly those partitions, and has every free region on an alignment
/// boundary.
pub proof fn lemma_layout(lo: u64, parts: Seq<MemPartition>, hi: u64, sector_size: u16)
    requires
        placeable(lo, parts, hi, sector_size),
        sorted_by_start(parts),
        hi * sector_size <= u64::MAX,
    ensures
        table_wf(lo, layout(lo, parts, hi, sector_size), hi, sector_size),
        free_aligned(layout(lo, parts, hi, sector_size)),
        partitions_of(layout(lo, parts, hi, sector_size)) == parts,
    decreases parts.len(),
{
    let table = layout(lo, parts, hi, sector_size);
    let none = Seq::<MemTableEntry>::empty();
    lemma_align_up(lo + 1);
    if parts.len() == 0 {
        match free_gap(lo, hi, sector_size) {
            Some(free) => {
                lemma_free_gap(lo, hi, sector_size);
                assert(table_wf(free.end, none, hi, sector_size));
                lemma_prepend(lo, MemTableEntry::Free(free), none, hi, sector_size);
                assert(seq![MemTableEntry::Free(free)] + none =~= table);
                assert(partitions_of(none) =~= parts);
                assert(Seq::<MemPartition>::empty() + parts =~= parts);
            },
            None => {
                assert(partitions_of(table) =~= parts);
            },
        }
    } else {
        let head = parts[0];
        let tail = parts.drop_first();
        let rest = layout(head.end, tail, hi, sector_size);
        let occupied = MemTableEntry::Partition(head);
        let behind = seq![occupied] + rest;
        lemma_tail_placeable(lo, parts, hi, sector_size);
        lemma_layout(head.end, tail, hi, sector_size);
        assert(head.wf(sector_size));
        assert(0 <= head.start * sector_size <= hi * sector_size) by (nonlinear_arith)
            requires
                0 <= head.start <= hi,
                sector_size >= 0,
        ;
        assert(seq![head] + tail =~= parts);
        match free_gap(lo, head.start, sector_size) {
            Some(free) => {
                lemma_free_gap(lo, head.start, sector_size);
                lemma_prepend(free.end, occupied, rest, hi, sector_size);
                lemma_prepend(lo, MemTableEntry::Free(free), behind, hi, sector_size);
                assert(seq![MemTableEntry::Free(free)] + behind =~= table);
                assert(Seq::<MemPartition>::empty() + parts =~= parts);
            },
            None => {
                lemma_prepend(lo, occupied, rest, hi, sector_size);
                assert(behind =~= table);
            },
        }
    }
}

/// What stands behind an entry of a valid table is a valid table behind that entry.
pub proof fn lemma_table_suffix(
    lo: u64,
    table: Seq<MemTableEntry>,
    k: int,
    hi: u64,
    sector_size: u16,
)
    requires
        table_wf(lo, table, hi, sector_size),
        0 < k <= table.len(),
    ensures
        table_wf(table[k - 1].last_lba(), table.skip(k), hi, sector_size),
        free_aligned(table) ==> free_aligned(table.skip(k)),
{
    let rest = table.skip(k);
    let from = table[k - 1].last_lba();
    assert forall|i: int| 0 <= i < rest.len() implies #[trigger] rest[i] == table[i + k] by {}
    assert(contained(from, rest, hi, sector_size)) by {
        assert forall|i: int| 0 <= i < rest.len() implies (#[trigger] rest[i]).wf(sector_size)
            && from < rest[i].first_lba() && rest[i].last_lba() < hi by {
            assert(table[i + k].wf(sector_size));
            assert(table[k - 1].last_lba() < table[i + k].first_lba());
        }
    }
    assert(ordered(rest)) by {
        assert forall|i: int, j: int| 0 <= i < j < rest.len() implies rest[i].last_lba()
            < rest[j].first_lba() by {
            assert(table[i + k].last_lba() < table[j + k].first_lba());
        }
    }
    assert(coalesced(rest)) by {
        assert forall|i: int, j: int| 0 <= i && j == i + 1 && j < rest.len() implies !((
        #[trigger] rest[i]) is Free && (#[trigger] rest[j]) is Free) by {
            assert(!(table[i + k] is Free && table[j + k] is Free));
        }
    }
    assert(tight(from, rest, hi)) by {
        assert(table[k - 1].wf(sector_size));
        if rest.len() > 0 {
            assert(rest[0] == table[k]);
            assert(no_boundary_between(
                table[k - 1].last_lba() as int,
                table[k].first_lba() as int,
            ));
            assert(rest.last() == table.last());
            assert forall|i: int, j: int|
                0 <= i && j == i + 1 && j < rest.len() implies no_boundary_between(
                (#[trigger] rest[i]).last_lba() as int,
                (#[trigger] rest[j]).first_lba() as int,
            ) by {
                assert(no_boundary_between(
                    table[i + k].last_lba() as int,
                    table[j + k].first_lba() as int,
                ));
            }
        } else {
            assert(table[k - 1] == table.last());
        }
    }
    if free_aligned(table) {
        assert forall|i: int| 0 <= i < rest.len() implies ((#[trigger] rest[i]) matches MemTableEntry::Free(
            free,
        ) ==> is_aligned(free.start as int)) by {
            assert(table[i + k] is Free ==> is_aligned(table[i + k].first_lba() as int));
        }
    }
}

/// What stands before the end of an entry of a valid table is a valid table that ends
/// with that entry.
pub proof fn lemma_table_prefix(
    lo: u64,
    table: Seq<MemTableEntry>,
    k: int,
    hi: u64,
    sector_size: u16,
)
    requires
        table_wf(lo, table, hi, sector_size),
        0 < k <= table.len(),
    ensures
        table_wf(lo, table.take(k), (table[k - 1].last_lba() + 1) as u64, sector_size),
        free_aligned(table) ==> free_aligned(table.take(k)),
{
    let front = table.take(k);
    assert(table[k - 1].wf(sector_size));
    let to = (table[k - 1].last_lba() + 1) as u64;
    assert forall|i: int| 0 <= i < front.len() implies #[trigger] front[i] == table[i] by {}
    assert(contained(lo, front, to, sector_size)) by {
        assert forall|i: int| 0 <= i < front.len() implies (#[trigger] front[i]).wf(sector_size)
            && lo < front[i].first_lba() && front[i].last_lba() < to by {
            assert(table[i].wf(sector_size));
            if i < k - 1 {
                assert(table[i].last_lba() < table[k - 1].first_lba());
            }
        }
    }
    assert(ordered(front)) by {
        assert forall|i: int, j: int| 0 <= i < j < front.len() implies front[i].last_lba()
            < front[j].first_lba() by {
            assert(table[i].last_lba() < table[j].first_lba());
        }
    }
    assert(coalesced(front)) by {
        assert forall|i: int, j: int| 0 <= i && j == i + 1 && j < front.len() implies !((
        #[trigger] front[i]) is Free && (#[trigger] front[j]) is Free) by {
            assert(!(table[i] is Free && table[j] is Free));
        }
    }
    assert(tight(lo, front, to)) by {
        assert(front[0] == table[0]);
        assert(front.last() == table[k - 1]);
        lemma_align_up(to as int);
        assert forall|i: int, j: int|
            0 <= i && j == i + 1 && j < front.len() implies no_boundary_between(
            (#[trigger] front[i]).last_lba() as int,
            (#[trigger] front[j]).first_lba() as int,
        ) by {
            assert(no_boundary_between(table[i].last_lba() as int, table[j].first_lba() as int));
        }
    }
    if free_aligned(table) {
        assert forall|i: int| 0 <= i < front.len() implies ((#[trigger] front[i]) matches MemTableEntry::Free(
            free,
        ) ==> is_aligned(free.start as int)) by {
            assert(table[i] is Free ==> is_aligned(table[i].first_lba() as int));
        }
    }
}

/// A valid table that ends with an entry and a valid table behind that entry make one
/// valid table, unless a free region would follow a free region.
pub proof fn lemma_table_join(
    lo: u64,
    front: Seq<MemTableEntry>,
    rest: Seq<MemTableEntry>,
    hi: u64,
    sector_size: u16,
)
    requires
        front.len() > 0,
        front.last().last_lba() < hi,
        table_wf(lo, front, (front.last().last_lba() + 1) as u64, sector_size),
        table_wf(front.last().last_lba(), rest, hi, sector_size),
        !(front.last() is Free && rest.len() > 0 && rest[0] is Free),
    ensures
        table_wf(lo, front + rest, hi, sector_size),
        free_aligned(front) && free_aligned(rest) ==> free_aligned(front + rest),
{
    let table = front + rest;
    let n = front.len() as int;
    let edge = front.last().last_lba();
    assert forall|i: int| 0 <= i < table.len() implies #[trigger] table[i] == (if i < n {
        front[i]
    } else {
        rest[i - n]
    }) by {}
    assert(contained(lo, table, hi, sector_size)) by {
        assert forall|i: int| 0 <= i < table.len() implies (#[trigger] table[i]).wf(sector_size)
            && lo < table[i].first_lba() && table[i].last_lba() < hi by {
            if i < n {
                assert(front[i].wf(sector_size));
            } else {
                assert(rest[i - n].wf(sector_size));
            }
        }
    }
    assert(ordered(table)) by {
        assert forall|i: int, j: int| 0 <= i < j < table.len() implies table[i].last_lba()
            < table[j].first_lba() by {
            if j < n {
                assert(front[i].last_lba() < front[j].first_lba());
            } else if i < n {
                assert(front[i].wf(sector_size));
                assert(rest[j - n].wf(sector_size));
            } else {
                assert(rest[i - n].last_lba() < rest[j - n].first_lba());
            }
        }
    }
    assert(coalesced(table)) by {
        assert forall|i: int, j: int| 0 <= i && j == i + 1 && j < table.len() implies !((
        #[trigger] table[i]) is Free && (#[trigger] table[j]) is Free) by {
            if j < n {
                assert(!(front[i] is Free && front[j] is Free));
            } else if i < n {
                assert(front[i] == front.last());
                assert(rest[j - n] == rest[0]);
            } else {
                assert(!(rest[i - n] is Free && rest[j - n] is Free));
            }
        }
    }
    assert(tight(lo, table, hi)) by {
        assert(table[0] == front[0]);
        assert forall|i: int, j: int|
            0 <= i && j == i + 1 && j < table.len() implies no_boundary_between(
            (#[trigger] table[i]).last_lba() as int,
            (#[trigger] table[j]).first_lba() as int,
        ) by {
            if j < n {
                assert(no_boundary_between(
                    front[i].last_lba() as int,
                    front[j].first_lba() as int,
                ));
            } else if i < n {
                assert(front[i] == front.last());
                assert(rest[j - n] == rest[0]);
            } else {
                assert(no_boundary_between(
                    rest[i - n].last_lba() as int,
                    rest[j - n].first_lba() as int,
                ));
            }
        }
        if rest.len() > 0 {
            assert(table.last() == rest.last());
        } else {
            assert(table.last() == front.last());
        }
    }
    if free_aligned(front) && free_aligned(rest) {
        assert forall|i: int| 0 <= i < table.len() implies ((#[trigger] table[i]) matches MemTableEntry::Free(
            free,
        ) ==> is_aligned(free.start as int)) by {
            if i < n {
                assert(front[i] is Free ==> is_aligned(front[i].first_lba() as int));
            } else {
                assert(rest[i - n] is Free ==> is_aligned(rest[i - n].first_lba() as int));
            }
        }
    }
}

/// The table with its free regions computed anew: the partitions of `regions` in
/// ascending order with the free region of every gap.
pub open spec fn refilled(lo: u64, regions: Seq<MemTableEntry>, hi: u64, sector_size: u16) -> Seq<
    MemTableEntry,
> {
    layout(lo, sort_by_start(partitions_of(regions)), hi, sector_size)
}

/// Computing the free regions of a table a second time changes nothing.
pub proof fn lemma_refill_idempotent(
    lo: u64,
    regions: Seq<MemTableEntry>,
    hi: u64,
    sector_size: u16,
)
    requires
        placeable(lo, partitions_of(regions), hi, sector_size),
        hi * sector_size <= u64::MAX,
    ensures
        refilled(lo, refilled(lo, regions, hi, sector_size), hi, sector_size) == refilled(
            lo,
            regions,
            hi,
            sector_size,
        ),
{
    let sorted = sort_by_start(partitions_of(regions));
    lemma_sort_placeable(lo, partitions_of(regions), hi, sector_size);
    lemma_sort_by_start(partitions_of(regions));
    lemma_layout(lo, sorted, hi, sector_size);
    lemma_sort_by_start(sorted);
}

/// The sector before the `k`-th gap of a table: the lower sentinel, or the last sector
/// of the entry before the gap.
pub open spec fn gap_floor(lo: u64, regions: Seq<MemTableEntry>, k: int) -> u64 {
    if k == 0 {
        lo
    } else {
        regions[k - 1].last_lba()
    }
}

/// The sector behind the `k`-th gap of a table: the first sector of the entry behind the
/// gap, or the upper sentinel.
pub open spec fn gap_ceiling(regions: Seq<MemTableEntry>, hi: u64, k: int) -> u64 {
    if k == regions.len() {
        hi
    } else {
        regions[k].first_lba()
    }
}

/// Whether `sector` belongs to an entry.
pub open spec fn in_region(regions: Seq<MemTableEntry>, sector: int) -> bool {
    exists|i: int|
        0 <= i < regions.len() && (#[trigger] regions[i]).first_lba() <= sector
            <= regions[i].last_lba()
}

/// Whether `sector` lies in a gap: before the first entry, between two neighbours, or
/// behind the last entry.
pub open spec fn in_gap(lo: u64, regions: Seq<MemTableEntry>, hi: u64, sector: int) -> bool {
    exists|k: int|
        0 <= k <= regions.len() && #[trigger] gap_floor(lo, regions, k) < sector < gap_ceiling(
            regions,
            hi,
            k,
        )
}

/// The entries of a valid table and its gaps cover the sectors strictly between the
/// sentinels, each sector once; and no gap holds an alignment boundary, so that
/// each is shorter than the alignment constant.
pub proof fn lemma_coverage(lo: u64, regions: Seq<MemTableEntry>, hi: u64, sector_size: u16)
    requires
        table_wf(lo, regions, hi, sector_size),
    ensures
        forall|sector: int|
            lo < sector < hi ==> (#[trigger] in_region(regions, sector) != in_gap(
                lo,
                regions,
                hi,
                sector,
            )),
        forall|sector: int| #[trigger] in_region(regions, sector) ==> lo < sector < hi,
        forall|sector: int| #[trigger] in_gap(lo, regions, hi, sector) ==> lo < sector < hi,
        forall|k: int|
            0 <= k <= regions.len() ==> no_boundary_between(
                #[trigger] gap_floor(lo, regions, k) as int,
                gap_ceiling(regions, hi, k) as int,
            ) && gap_ceiling(regions, hi, k) - gap_floor(lo, regions, k) - 1 < 2048,
{
    assert forall|k: int| 0 <= k <= regions.len() implies no_boundary_between(
        #[trigger] gap_floor(lo, regions, k) as int,
        gap_ceiling(regions, hi, k) as int,
    ) && gap_ceiling(regions, hi, k) - gap_floor(lo, regions, k) - 1 < 2048 by {
        lemma_align_up(gap_floor(lo, regions, k) + 1);
        if regions.len() > 0 {
            if 0 < k < regions.len() {
                assert(no_boundary_between(
                    regions[k - 1].last_lba() as int,
                    regions[k].first_lba() as int,
                ));
            } else if k == regions.len() {
                assert(regions[k - 1] == regions.last());
            }
        }
    }
    assert forall|sector: int| lo < sector < hi implies (#[trigger] in_region(regions, sector)
        != in_gap(lo, regions, hi, sector)) by {
        lemma_locate(lo, regions, hi, sector_size, sector, 0);
        if in_region(regions, sector) && in_gap(lo, regions, hi, sector) {
            let i = choose|i: int|
                0 <= i < regions.len() && (#[trigger] regions[i]).first_lba() <= sector
                    <= regions[i].last_lba();
            let k = choose|k: int|
                0 <= k <= regions.len() && #[trigger] gap_floor(lo, regions, k) < sector
                    < gap_ceiling(regions, hi, k);
            assert(regions[i].wf(sector_size));
            if k <= i {
                if k < i {
                    assert(regions[k].last_lba() < regions[i].first_lba());
                    assert(regions[k].wf(sector_size));
                }
            } else {
                if i < k - 1 {
                    assert(regions[i].last_lba() < regions[k - 1].first_lba());
                    assert(regions[k - 1].wf(sector_size));
                }
            }
        }
    }
    assert forall|sector: int| #[trigger] in_region(regions, sector) implies lo < sector
        < hi by {
        let i = choose|i: int|
            0 <= i < regions.len() && (#[trigger] regions[i]).first_lba() <= sector
                <= regions[i].last_lba();
        assert(regions[i].wf(sector_size));
    }
    assert forall|sector: int| #[trigger] in_gap(lo, regions, hi, sector) implies lo < sector
        < hi by {
        let k = choose|k: int|
            0 <= k <= regions.len() && #[trigger] gap_floor(lo, regions, k) < sector
                < gap_ceiling(regions, hi, k);
        if k > 0 {
            assert(regions[k - 1].wf(sector_size));
        }
        if k < regions.len() {
            assert(regions[k].wf(sector_size));
        }
    }
}

/// A sector behind the `k`-th gap's floor lies in an entry or in a gap.
proof fn lemma_locate(
    lo: u64,
    regions: Seq<MemTableEntry>,
    hi: u64,
    sector_size: u16,
    sector: int,
    k: int,
)
    requires
        table_wf(lo, regions, hi, sector_size),
        0 <= k <= regions.len(),
        gap_floor(lo, regions, k) < sector < hi,
    ensures
        in_region(regions, sector) || in_gap(lo, regions, hi, sector),
    decreases regions.len() - k,
{
    if k == regions.len() {
        assert(gap_floor(lo, regions, k) < sector < gap_ceiling(regions, hi, k));
    } else if sector < regions[k].first_lba() {
        assert(gap_floor(lo, regions, k) < sector < gap_ceiling(regions, hi, k));
    } else if sector <= regions[k].last_lba() {
        assert(regions[k].first_lba() <= sector <= regions[k].last_lba());
    } else {
        assert(gap_floor(lo, regions, k + 1) == regions[k].last_lba());
        lemma_locate(lo, regions, hi, sector_size, sector, k + 1);
    }
}

} // verus!
