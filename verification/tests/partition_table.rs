use artixide::device::CompatDevice;
use artixide::disk::Disk;
use artixide::editor::{EditError, SizeSpec};
use artixide::number_pool::NumberPool;
use artixide::partition::{FileSystem, MemPartition, MemTableEntry};
use artixide::space::DiskSpace;
use indexmap::IndexMap;

fn disk(starting_lba: u64, ending_lba: u64, sector_size: u16) -> Disk {
    Disk {
        model: String::from("Virtual disk"),
        path: String::from("/dev/vda"),
        id: String::from("8a1f3c52-0d0e-4d3a-9a55-2f6e6c0f7c11"),
        size: ending_lba * sector_size as u64,
        starting_lba,
        ending_lba,
        sector_size,
        is_gpt: true,
    }
}

fn partition(number: u16, start: u64, end: u64, sector_size: u16) -> MemPartition {
    let sectors = end - start + 1;
    MemPartition::new(number, start, end, sectors, sectors * sector_size as u64)
}

fn device(disk: Disk, parts: Vec<MemPartition>) -> CompatDevice {
    let mut number_pool = NumberPool::new();
    for part in &parts {
        number_pool.set_used(part.number);
    }
    let mut device = CompatDevice {
        disk,
        mem_table: parts.into_iter().map(MemTableEntry::Partition).collect(),
        number_pool,
        modification_map: IndexMap::new(),
    };
    device.fill_free_space();
    device
}

fn free(start: u64, end: u64, sector_size: u16) -> MemTableEntry {
    let sectors = end - start + 1;
    MemTableEntry::Free(DiskSpace::new(start, end, sectors, sectors * sector_size as u64))
}

fn one_partition_device() -> CompatDevice {
    device(disk(2047, 1048576, 512), vec![partition(1, 4096, 8191, 512)])
}

#[test]
fn free_regions_around_one_partition() {
    let dev = one_partition_device();
    assert_eq!(
        dev.mem_table,
        vec![
            free(2048, 4095, 512),
            MemTableEntry::Partition(partition(1, 4096, 8191, 512)),
            free(8192, 1048575, 512),
        ]
    );
    match &dev.mem_table[0] {
        MemTableEntry::Free(space) => {
            assert_eq!(space.sectors, 2048);
            assert_eq!(space.size, 2048 * 512);
        }
        MemTableEntry::Partition(_) => panic!("a free region comes first"),
    }
    match &dev.mem_table[2] {
        MemTableEntry::Free(space) => {
            assert_eq!(space.sectors, 1040384);
            assert_eq!(space.size, 1040384 * 512);
        }
        MemTableEntry::Partition(_) => panic!("a free region comes last"),
    }
}

#[test]
fn free_region_start_is_rounded_up() {
    let dev = device(disk(33, 100000, 512), vec![partition(1, 34, 2050, 512)]);
    assert_eq!(
        dev.mem_table,
        vec![
            MemTableEntry::Partition(partition(1, 34, 2050, 512)),
            free(4096, 99999, 512),
        ]
    );
}

#[test]
fn gap_without_boundary_is_dropped() {
    let dev = device(
        disk(2047, 8192, 512),
        vec![partition(1, 2048, 2147, 512), partition(2, 2300, 8191, 512)],
    );
    assert_eq!(
        dev.mem_table,
        vec![
            MemTableEntry::Partition(partition(1, 2048, 2147, 512)),
            MemTableEntry::Partition(partition(2, 2300, 8191, 512)),
        ]
    );
}

#[test]
fn partitions_are_put_in_ascending_order() {
    let dev = device(
        disk(0, 20480, 512),
        vec![partition(2, 8192, 10239, 512), partition(1, 2048, 4095, 512)],
    );
    assert_eq!(
        dev.mem_table,
        vec![
            MemTableEntry::Partition(partition(1, 2048, 4095, 512)),
            free(4096, 8191, 512),
            MemTableEntry::Partition(partition(2, 8192, 10239, 512)),
            free(10240, 20479, 512),
        ]
    );
}

#[test]
fn empty_disk_is_one_free_region() {
    let dev = device(disk(0, 4096, 4096), vec![]);
    assert_eq!(dev.mem_table, vec![free(2048, 4095, 4096)]);
    let tiny = device(disk(0, 2048, 512), vec![]);
    assert_eq!(tiny.mem_table, vec![]);
}

#[test]
fn filling_twice_changes_nothing() {
    let mut dev = one_partition_device();
    let once = dev.mem_table.clone();
    dev.fill_free_space();
    assert_eq!(dev.mem_table, once);
}

#[test]
fn stale_free_regions_are_replaced() {
    let mut dev = one_partition_device();
    dev.mem_table.insert(1, free(3000, 3999, 512));
    dev.mem_table.remove(0);
    dev.fill_free_space();
    assert_eq!(dev.mem_table, one_partition_device().mem_table);
}

#[test]
fn regions_and_small_gaps_cover_the_disk() {
    let dev = device(
        disk(33, 100000, 512),
        vec![partition(1, 34, 2050, 512), partition(2, 5000, 5999, 512)],
    );
    let mut floor = dev.disk.starting_lba;
    for entry in &dev.mem_table {
        assert!(entry.start() > floor);
        assert!(entry.start() - floor - 1 < 2048);
        assert!(entry.end() >= entry.start());
        floor = entry.end();
    }
    assert!(dev.disk.ending_lba > floor);
    assert!(dev.disk.ending_lba - floor - 1 < 2048);
}

#[test]
fn no_two_free_regions_are_neighbours() {
    let mut dev = device(
        disk(2047, 1048576, 512),
        vec![partition(1, 4096, 8191, 512), partition(2, 16384, 20479, 512)],
    );
    dev.delete_partition(1);
    dev.create_partition(0, "100s").unwrap();
    dev.delete_partition(0);
    for pair in dev.mem_table.windows(2) {
        assert!(!(matches!(pair[0], MemTableEntry::Free(_)) && matches!(pair[1], MemTableEntry::Free(_))));
    }
}

#[test]
fn pool_holds_the_numbers_of_the_partitions() {
    let mut dev = one_partition_device();
    dev.create_partition(2, "1000s").unwrap();
    dev.create_partition(0, "*").unwrap();
    dev.delete_partition(1);
    let mut numbers: Vec<u16> = Vec::new();
    for entry in &dev.mem_table {
        if let MemTableEntry::Partition(part) = entry {
            numbers.push(part.number);
        }
    }
    for number in 1..=256u16 {
        assert_eq!(dev.number_pool.is_used(number), numbers.contains(&number));
    }
    numbers.sort();
    assert_eq!(numbers, vec![2, 3]);
}

#[test]
fn create_whole_region_then_delete_restores_it() {
    let mut dev = device(
        disk(2047, 1048576, 512),
        vec![partition(1, 2048, 4095, 512), partition(2, 8192, 16383, 512)],
    );
    let before = dev.mem_table.clone();
    assert_eq!(before[1], free(4096, 8191, 512));
    assert_eq!(dev.create_partition(1, "*"), Ok(()));
    assert_eq!(
        dev.mem_table[1],
        MemTableEntry::Partition(partition(3, 4096, 8191, 512))
    );
    assert!(dev.number_pool.is_used(3));
    dev.delete_partition(1);
    assert_eq!(dev.mem_table, before);
    assert!(!dev.number_pool.is_used(3));
}

#[test]
fn zero_size_is_invalid() {
    let mut dev = one_partition_device();
    let before = dev.mem_table.clone();
    assert_eq!(dev.create_partition(0, "0"), Err(EditError::InvalidSize));
    assert_eq!(dev.create_partition(2, "0s"), Err(EditError::InvalidSize));
    assert_eq!(dev.create_partition(2, "511"), Err(EditError::InvalidSize));
    assert_eq!(dev.mem_table, before);
    assert!(!dev.number_pool.is_used(2));
    assert_eq!(dev.number_pool.find_available_num(), Some(2));
}

#[test]
fn star_takes_a_region_of_a_hundred_sectors() {
    let mut dev = device(
        disk(2047, 8192, 512),
        vec![partition(1, 2148, 8191, 512)],
    );
    assert_eq!(
        dev.mem_table,
        vec![
            free(2048, 2147, 512),
            MemTableEntry::Partition(partition(1, 2148, 8191, 512)),
        ]
    );
    assert_eq!(dev.create_partition(0, "*"), Ok(()));
    assert_eq!(
        dev.mem_table,
        vec![
            MemTableEntry::Partition(partition(2, 2048, 2147, 512)),
            MemTableEntry::Partition(partition(1, 2148, 8191, 512)),
        ]
    );
    match &dev.mem_table[0] {
        MemTableEntry::Partition(part) => {
            assert_eq!(part.sectors, 100);
            assert_eq!(part.size, 51200);
            assert!(!part.bootable);
            assert_eq!(part.filesystem, FileSystem::Unknown);
            assert!(!part.is_real());
        }
        MemTableEntry::Free(_) => panic!("the region was taken"),
    }
}

#[test]
fn delete_between_two_free_regions_merges_all() {
    let mut dev = one_partition_device();
    let len = dev.mem_table.len();
    dev.delete_partition(1);
    assert_eq!(dev.mem_table.len(), len - 2);
    assert_eq!(dev.mem_table, vec![free(2048, 1048575, 512)]);
    assert!(!dev.number_pool.is_used(1));
}

#[test]
fn delete_merges_with_the_free_region_before() {
    let mut dev = device(
        disk(2047, 8192, 512),
        vec![partition(1, 4096, 8191, 512)],
    );
    assert_eq!(dev.mem_table.len(), 2);
    dev.delete_partition(1);
    assert_eq!(dev.mem_table, vec![free(2048, 8191, 512)]);
}

#[test]
fn delete_merges_with_the_free_region_behind() {
    let mut dev = device(
        disk(2047, 8192, 512),
        vec![partition(1, 2048, 4095, 512)],
    );
    assert_eq!(dev.mem_table.len(), 2);
    dev.delete_partition(0);
    assert_eq!(dev.mem_table, vec![free(2048, 8191, 512)]);
}

#[test]
fn delete_takes_in_the_padding_before_a_free_region() {
    let mut dev = device(disk(2047, 1048576, 512), vec![]);
    assert_eq!(dev.create_partition(0, "100s"), Ok(()));
    assert_eq!(
        dev.mem_table,
        vec![
            MemTableEntry::Partition(partition(1, 2048, 2147, 512)),
            free(4096, 1048575, 512),
        ]
    );
    dev.delete_partition(0);
    assert_eq!(dev.mem_table, vec![free(2048, 1048575, 512)]);
}

#[test]
fn delete_without_free_neighbours_frees_the_extent() {
    let mut dev = device(
        disk(2047, 8192, 512),
        vec![
            partition(1, 2048, 4095, 512),
            partition(2, 4096, 6143, 512),
            partition(3, 6144, 8191, 512),
        ],
    );
    dev.delete_partition(1);
    assert_eq!(
        dev.mem_table,
        vec![
            MemTableEntry::Partition(partition(1, 2048, 4095, 512)),
            free(4096, 6143, 512),
            MemTableEntry::Partition(partition(3, 6144, 8191, 512)),
        ]
    );
    assert!(!dev.number_pool.is_used(2));
    assert!(dev.number_pool.is_used(1));
    assert!(dev.number_pool.is_used(3));
}

#[test]
fn create_leaves_an_aligned_remainder() {
    let mut dev = device(disk(2047, 1048576, 512), vec![]);
    assert_eq!(dev.create_partition(0, "1M"), Ok(()));
    assert_eq!(
        dev.mem_table,
        vec![
            MemTableEntry::Partition(partition(1, 2048, 4000, 512)),
            free(4096, 1048575, 512),
        ]
    );
    assert_eq!(dev.create_partition(1, "1MiB"), Ok(()));
    assert_eq!(
        dev.mem_table,
        vec![
            MemTableEntry::Partition(partition(1, 2048, 4000, 512)),
            MemTableEntry::Partition(partition(2, 4096, 6143, 512)),
            free(6144, 1048575, 512),
        ]
    );
}

#[test]
fn create_drops_a_remainder_below_the_alignment() {
    let mut dev = device(
        disk(2047, 8192, 512),
        vec![partition(1, 4096, 8191, 512)],
    );
    assert_eq!(dev.create_partition(0, "2000s"), Ok(()));
    assert_eq!(
        dev.mem_table,
        vec![
            MemTableEntry::Partition(partition(2, 2048, 4047, 512)),
            MemTableEntry::Partition(partition(1, 4096, 8191, 512)),
        ]
    );
}

#[test]
fn oversize_and_unparsable_requests_are_refused() {
    let mut dev = one_partition_device();
    let before = dev.mem_table.clone();
    assert_eq!(dev.create_partition(0, "2049s"), Err(EditError::OverSize));
    assert_eq!(dev.create_partition(0, "2G"), Err(EditError::OverSize));
    assert_eq!(dev.create_partition(0, "plenty"), Err(EditError::ParseSize));
    assert_eq!(dev.create_partition(0, ""), Err(EditError::ParseSize));
    assert_eq!(dev.create_partition(0, "   "), Err(EditError::ParseSize));
    assert_eq!(dev.create_partition(0, "s"), Err(EditError::ParseSize));
    assert_eq!(dev.create_partition(0, "-5s"), Err(EditError::ParseSize));
    assert_eq!(dev.mem_table, before);
    assert_eq!(dev.create_partition(0, " 2048 S "), Ok(()));
    assert_eq!(
        dev.mem_table[0],
        MemTableEntry::Partition(partition(2, 2048, 4095, 512))
    );
    assert_eq!(dev.mem_table.len(), 3);
}

#[test]
fn exhausted_pool_refuses_creation() {
    let mut dev = one_partition_device();
    for number in 1..=256u16 {
        dev.number_pool.set_used(number);
    }
    let before = dev.mem_table.clone();
    assert_eq!(
        dev.create_partition_sized(0, SizeSpec::All),
        Err(EditError::NumberPoolExhausted)
    );
    assert_eq!(
        dev.create_partition_sized(0, SizeSpec::Sectors(0)),
        Err(EditError::InvalidSize)
    );
    assert_eq!(dev.mem_table, before);
}

#[test]
fn error_messages() {
    assert_eq!(EditError::ParseSize.message(), "Failed to parse size");
    assert_eq!(EditError::InvalidSize.message(), "Invalid size");
    assert_eq!(EditError::OverSize.message(), "No enough size");
    assert_eq!(EditError::NumberPoolExhausted.message(), "No partition number left");
}

#[test]
fn validity_is_kept_by_every_operation() {
    let mut dev = device(
        disk(33, 1048576, 512),
        vec![
            partition(3, 34, 2050, 512),
            partition(1, 8192, 16383, 512),
            partition(2, 20000, 20999, 512),
        ],
    );
    assert!(dev.is_wf());
    assert_eq!(dev.create_partition(1, "3000s"), Ok(()));
    assert!(dev.is_wf());
    assert!(matches!(dev.mem_table[3], MemTableEntry::Free(_)));
    assert_eq!(dev.create_partition(3, "*"), Ok(()));
    assert!(dev.is_wf());
    while let Some(index) = dev
        .mem_table
        .iter()
        .position(|entry| matches!(entry, MemTableEntry::Partition(_)))
    {
        dev.delete_partition(index);
        assert!(dev.is_wf());
    }
    assert_eq!(dev.mem_table, vec![free(34, 1048575, 512)]);
    dev.fill_free_space();
    assert_eq!(dev.mem_table, vec![free(2048, 1048575, 512)]);
    assert!(dev.is_wf());
    assert_eq!(dev.number_pool.find_available_num(), Some(1));
    assert!(!dev.is_wf());
}

#[test]
fn invalid_devices_are_recognized() {
    let valid = one_partition_device();
    assert!(valid.is_wf());
    assert!(valid.has_numbers_wf());
    let mut pool = one_partition_device();
    pool.number_pool.set_used(7);
    assert!(!pool.has_numbers_wf());
    assert!(!pool.is_wf());
    let mut twice = one_partition_device();
    twice.mem_table.push(MemTableEntry::Partition(partition(1, 8192, 9000, 512)));
    assert!(!twice.has_numbers_wf());
    let mut adjacent = one_partition_device();
    adjacent.mem_table[1] = free(4096, 8191, 512);
    adjacent.number_pool.set_unused(1);
    assert!(adjacent.has_numbers_wf());
    assert!(!adjacent.is_wf());
    let mut overlapping = one_partition_device();
    overlapping.mem_table[0] = free(2048, 4096, 512);
    assert!(!overlapping.is_wf());
    let mut gap = one_partition_device();
    gap.mem_table.remove(0);
    assert!(!gap.is_wf());
    let mut tail = one_partition_device();
    tail.mem_table.pop();
    assert!(!tail.is_wf());
    let mut size = one_partition_device();
    size.mem_table[0] = MemTableEntry::Free(DiskSpace::new(2048, 4095, 2048, 1));
    assert!(!size.is_wf());
    let mut outside = one_partition_device();
    outside.mem_table[2] = free(8192, 1048576, 512);
    assert!(!outside.is_wf());
    let mut sector = one_partition_device();
    sector.disk.sector_size = 0;
    assert!(!sector.is_wf());
    assert!(partition(1, 10, 19, 512).is_wf(512));
    assert!(!partition(0, 10, 19, 512).is_wf(512));
    assert!(!partition(257, 10, 19, 512).is_wf(512));
    assert!(!partition(1, 10, 19, 512).is_wf(4096));
    assert!(!MemPartition::new(1, 19, 10, 10, 5120).is_wf(512));
    assert!(DiskSpace::new(0, u64::MAX - 1, u64::MAX, u64::MAX).is_wf(1));
    assert!(!DiskSpace::new(0, u64::MAX, 0, 0).is_wf(1));
    assert!(free(5, 6, 512).is_free());
    assert!(free(5, 6, 512).is_wf(512));
}
