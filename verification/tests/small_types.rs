use artixide::modification::{Modification, ModificationSet, ModificationType};
use artixide::partition::{MemPartition, PartitionType};
use artixide::rows::{header, make_free_space_row, make_partition_row, make_row};
use artixide::partition::{FileSystem, MemTableEntry};
use artixide::space::{DiskSpace, RawSpace};

fn names(items: &[&str]) -> Vec<String> {
    items.iter().map(|item| item.to_string()).collect()
}

#[test]
fn modification_set_holds_one_change_of_each_kind() {
    let mut set = ModificationSet::new();
    assert!(!set.contains(ModificationType::Delete));
    assert!(!set.contains(ModificationType::Create));
    set.insert(Modification::Create { start: 2048, end: 4095 });
    assert!(set.contains(ModificationType::Create));
    assert!(!set.contains(ModificationType::Delete));
    set.insert(Modification::Delete);
    set.insert(Modification::Create { start: 1, end: 2 });
    assert!(set.contains(ModificationType::Delete));
    assert!(set.contains(ModificationType::Create));
    set.clear();
    assert!(!set.contains(ModificationType::Delete));
    assert!(!set.contains(ModificationType::Create));
    set.insert(Modification::Delete);
    assert!(set.contains(ModificationType::Delete));
    assert!(!ModificationSet::default().contains(ModificationType::Delete));
    assert_eq!(Modification::Delete.modification_type(), ModificationType::Delete);
    assert_eq!(
        Modification::Create { start: 0, end: 0 }.modification_type(),
        ModificationType::Create
    );
    assert_ne!(PartitionType::Primary, PartitionType::Logical);
    assert_ne!(PartitionType::Extended, PartitionType::Logical);
}

#[test]
fn free_region_grows_over_its_neighbours() {
    let mut space = DiskSpace::new(2048, 4095, 2048, 2048 * 512);
    space.expand_right(RawSpace { start: 4096, end: 8191, sectors: 4096, size: 4096 * 512 });
    assert_eq!(space, DiskSpace::new(2048, 8191, 6144, 6144 * 512));
    space.expand_left(RawSpace { start: 1024, end: 2047, sectors: 1024, size: 1024 * 512 });
    assert_eq!(space, DiskSpace::new(1024, 8191, 7168, 7168 * 512));
    assert_eq!(
        space.as_raw_space(),
        RawSpace { start: 1024, end: 8191, sectors: 7168, size: 7168 * 512 }
    );
}

#[test]
fn partition_gives_its_extent() {
    let mut part = MemPartition::new(4, 100, 199, 100, 51200);
    assert_eq!(
        part.as_raw_space(),
        RawSpace { start: 100, end: 199, sectors: 100, size: 51200 }
    );
    assert!(!part.is_real());
    part.uuid = Some(String::from("0f0e0d0c-0b0a-0908-0706-050403020100"));
    assert!(part.is_real());
    assert_eq!(MemTableEntry::Partition(part.clone()).start(), 100);
    assert_eq!(MemTableEntry::Partition(part).end(), 199);
    assert_eq!(MemTableEntry::Free(DiskSpace::new(7, 9, 3, 1536)).start(), 7);
    assert_eq!(MemTableEntry::Free(DiskSpace::new(7, 9, 3, 1536)).end(), 9);
}

#[test]
fn rows_show_numbers_and_sizes() {
    let mut part = MemPartition::new(12, 2048, 1050623, 1048576, 536870912);
    part.filesystem = FileSystem::Ext4;
    part.mountpoint = Some(String::from("/mnt"));
    assert_eq!(
        make_partition_row("/dev/nvme0n1p", &part),
        names(&["/dev/nvme0n1p12", "", "2048", "1050623", "1048576", "ext4", "", "/mnt", "512.0 MiB"])
    );
    let space = DiskSpace::new(0, 0, 1, 512);
    assert_eq!(
        make_free_space_row(&space),
        names(&["Free space", "", "0", "0", "1", "", "", "", "512 B"])
    );
    assert_eq!(
        make_row("x", &MemTableEntry::Free(DiskSpace::new(1, u64::MAX - 1, u64::MAX - 1, u64::MAX))),
        names(&[
            "Free space",
            "",
            "1",
            "18446744073709551614",
            "18446744073709551614",
            "",
            "",
            "",
            "16.0 EiB"
        ])
    );
    assert_eq!(make_row("sda", &MemTableEntry::Partition(part))[0], "sda12");
    assert_eq!(header(true)[1], "Boot");
    assert_eq!(header(false)[1], "ESP");
    assert_eq!(header(false).len(), 9);
}
