use artixide::classify::{get_devices, LoadError};
use artixide::descriptor::{BlockDevice, ChildBlockDevice, GptHeader, LsblkResult};
use artixide::device::Device;
use artixide::partition::{FileSystem, MemPartition, MemTableEntry};
use artixide::space::DiskSpace;

fn child(number: u16, start: u64, sectors: u64) -> ChildBlockDevice {
    ChildBlockDevice {
        start,
        size: sectors * 512,
        devtype: String::from("part"),
        partn: number,
        partuuid: format!("0000000{}-aaaa-bbbb-cccc-dddddddddddd", number),
        parttype: String::from("0fc63daf-8483-4772-8e79-3d69d8477de4"),
        partflags: None,
        label: None,
        fstype: Some(String::from("ext4")),
        mountpoint: None,
    }
}

fn gpt_disk(children: Vec<ChildBlockDevice>) -> BlockDevice {
    BlockDevice {
        size: 1048576 * 512,
        log_sec: 512,
        path: String::from("/dev/sda"),
        devtype: String::from("disk"),
        model: Some(String::from("  Sample Drive 1T ")),
        pttype: Some(String::from("gpt")),
        ptuuid: Some(String::from("11111111-2222-3333-4444-555555555555")),
        children: Some(children),
    }
}

fn header() -> Option<GptHeader> {
    Some(GptHeader { first_usable_lba: 2048, last_usable_lba: 1048542 })
}

fn free(start: u64, end: u64) -> MemTableEntry {
    let sectors = end - start + 1;
    MemTableEntry::Free(DiskSpace::new(start, end, sectors, sectors * 512))
}

fn compatible(device: Option<Device>) -> artixide::device::CompatDevice {
    match device {
        Some(Device::Compatible(device)) => device,
        _ => panic!("the device can be edited"),
    }
}

#[test]
fn device_that_is_no_disk_is_passed_over() {
    let mut dev = gpt_disk(vec![]);
    dev.devtype = String::from("loop");
    dev.model = None;
    assert!(!dev.wants_gpt_header());
    assert!(matches!(Device::classify(dev, None), Ok(None)));
}

#[test]
fn disk_without_known_table_can_only_be_shown() {
    let mut dev = gpt_disk(vec![]);
    dev.pttype = None;
    dev.ptuuid = None;
    assert!(!dev.wants_gpt_header());
    match Device::new_from(dev, None) {
        Ok(Some(Device::Incompatible(raw))) => {
            assert_eq!(raw.model, "Sample Drive 1T");
            assert_eq!(raw.path, "/dev/sda");
            assert_eq!(raw.size, 1048576 * 512);
            assert_eq!(raw.sector_size, 512);
        }
        _ => panic!("the disk can be shown"),
    }
    let mut odd = gpt_disk(vec![]);
    odd.pttype = Some(String::from("sun"));
    assert!(matches!(
        Device::classify(odd, header()),
        Ok(Some(Device::Incompatible(_)))
    ));
}

#[test]
fn unreadable_header_fails_the_disk() {
    let dev = gpt_disk(vec![child(1, 4096, 4096)]);
    assert!(dev.wants_gpt_header());
    assert!(matches!(Device::new_from(dev, None), Err(LoadError::GptRead)));
}

#[test]
fn gpt_disk_gets_sentinels_around_the_usable_sectors() {
    let dev = compatible(Device::new_from(gpt_disk(vec![child(1, 4096, 4096)]), header()).unwrap());
    assert_eq!(dev.disk.model, "Sample Drive 1T");
    assert_eq!(dev.disk.path, "/dev/sda");
    assert_eq!(dev.disk.id, "11111111-2222-3333-4444-555555555555");
    assert_eq!(dev.disk.size, 1048576 * 512);
    assert_eq!(dev.disk.sector_size, 512);
    assert_eq!(dev.disk.starting_lba, 2047);
    assert_eq!(dev.disk.ending_lba, 1048543);
    assert!(dev.disk.is_gpt);
    assert_eq!(dev.mem_table.len(), 3);
    assert_eq!(dev.mem_table[0], free(2048, 4095));
    assert_eq!(dev.mem_table[2], free(8192, 1048542));
    match &dev.mem_table[1] {
        MemTableEntry::Partition(part) => {
            assert_eq!(part.number, 1);
            assert_eq!(part.start, 4096);
            assert_eq!(part.end, 8191);
            assert_eq!(part.sectors, 4096);
            assert_eq!(part.size, 4096 * 512);
            assert_eq!(part.filesystem, FileSystem::Ext4);
            assert!(!part.bootable);
            assert!(part.is_real());
            assert_eq!(part.label, None);
            assert_eq!(part.mountpoint, None);
        }
        MemTableEntry::Free(_) => panic!("the partition comes second"),
    }
    assert!(dev.number_pool.is_used(1));
    assert!(!dev.number_pool.is_used(2));
    assert!(dev.modification_map.is_empty());
}

#[test]
fn legacy_disk_starts_at_sector_zero() {
    let mut desc = gpt_disk(vec![child(1, 2048, 2048)]);
    desc.pttype = Some(String::from("dos"));
    assert!(!desc.wants_gpt_header());
    let dev = compatible(Device::new_from(desc, None).unwrap());
    assert!(!dev.disk.is_gpt);
    assert_eq!(dev.disk.starting_lba, 0);
    assert_eq!(dev.disk.ending_lba, 1048576);
    assert_eq!(
        dev.mem_table,
        vec![
            dev.mem_table[0].clone(),
            free(4096, 1048575),
        ]
    );
}

#[test]
fn mounted_partitions_and_other_children_stay_out() {
    let mut mounted = child(1, 2048, 2048);
    mounted.mountpoint = Some(String::from("/boot"));
    let mut other = child(3, 8192, 2048);
    other.devtype = String::from("crypt");
    let dev = compatible(
        Device::new_from(gpt_disk(vec![mounted, child(2, 4096, 4096), other]), header()).unwrap(),
    );
    assert_eq!(dev.mem_table.len(), 3);
    assert!(!dev.number_pool.is_used(1));
    assert!(dev.number_pool.is_used(2));
    assert!(!dev.number_pool.is_used(3));
    assert_eq!(dev.mem_table[0], free(2048, 4095));
    assert_eq!(dev.mem_table[2], free(8192, 1048542));
}

#[test]
fn bootable_partition_is_recognized() {
    let mut esp = child(1, 2048, 2048);
    esp.parttype = String::from("c12a7328-f81f-11d2-ba4b-00a0c93ec93b");
    esp.fstype = Some(String::from("vfat"));
    esp.label = Some(String::from("EFI"));
    let part = MemPartition::from_raw(esp.clone(), 512, true).unwrap();
    assert!(part.bootable);
    assert_eq!(part.filesystem, FileSystem::Unknown);
    assert_eq!(part.label, Some(String::from("EFI")));
    assert!(!MemPartition::from_raw(esp, 512, false).unwrap().bootable);
    let mut legacy = child(1, 2048, 2048);
    legacy.partflags = Some(String::from("0x80"));
    assert!(MemPartition::from_raw(legacy.clone(), 512, false).unwrap().bootable);
    assert!(!MemPartition::from_raw(legacy.clone(), 512, true).unwrap().bootable);
    legacy.partflags = Some(String::from("0x0"));
    assert!(!MemPartition::from_raw(legacy.clone(), 512, false).unwrap().bootable);
    legacy.devtype = String::from("lvm");
    assert_eq!(MemPartition::from_raw(legacy, 512, false), None);
}

#[test]
fn partitions_come_out_in_ascending_order() {
    let dev = compatible(
        Device::new_from(gpt_disk(vec![child(2, 8192, 2048), child(1, 2048, 2048)]), header())
            .unwrap(),
    );
    let starts: Vec<u64> = dev.mem_table.iter().map(|entry| entry.start()).collect();
    assert_eq!(starts, vec![2048, 4096, 8192, 10240]);
}

#[test]
fn impossible_descriptions_fail_the_enumeration() {
    let overlapping = gpt_disk(vec![child(1, 2048, 4096), child(2, 4096, 4096)]);
    assert!(matches!(
        Device::classify(overlapping, header()),
        Err(LoadError::Enumeration)
    ));
    let same_number = gpt_disk(vec![child(1, 2048, 2048), child(1, 8192, 2048)]);
    assert!(matches!(
        Device::classify(same_number, header()),
        Err(LoadError::Enumeration)
    ));
    let number_zero = gpt_disk(vec![child(0, 2048, 2048)]);
    assert!(matches!(
        Device::classify(number_zero, header()),
        Err(LoadError::Enumeration)
    ));
    let beyond = gpt_disk(vec![child(1, 1048000, 4096)]);
    assert!(matches!(
        Device::classify(beyond, header()),
        Err(LoadError::Enumeration)
    ));
    let mut no_model = gpt_disk(vec![]);
    no_model.model = None;
    assert!(matches!(
        Device::classify(no_model, header()),
        Err(LoadError::Enumeration)
    ));
    let mut no_sector_size = gpt_disk(vec![]);
    no_sector_size.log_sec = 0;
    assert!(matches!(
        Device::classify(no_sector_size, header()),
        Err(LoadError::Enumeration)
    ));
    let mut shorter_than_a_sector = child(1, 2048, 1);
    shorter_than_a_sector.size = 511;
    assert!(matches!(
        Device::classify(gpt_disk(vec![shorter_than_a_sector]), header()),
        Err(LoadError::Enumeration)
    ));
    let mut too_many = Vec::new();
    for number in 1..=257u16 {
        too_many.push(child(number, 2048 * number as u64, 1));
    }
    assert!(matches!(
        Device::classify(gpt_disk(too_many), header()),
        Err(LoadError::Enumeration)
    ));
    assert!(matches!(
        Device::classify(
            gpt_disk(vec![]),
            Some(GptHeader { first_usable_lba: 0, last_usable_lba: 100 })
        ),
        Err(LoadError::Enumeration)
    ));
}

#[test]
fn enumeration_leaves_out_disks_with_unreadable_headers() {
    let mut stick = gpt_disk(vec![]);
    stick.devtype = String::from("rom");
    let mut second = gpt_disk(vec![child(1, 2048, 2048)]);
    second.path = String::from("/dev/sdb");
    let mut raw = gpt_disk(vec![]);
    raw.pttype = None;
    raw.path = String::from("/dev/sdc");
    let listing = LsblkResult {
        blockdevices: vec![gpt_disk(vec![]), stick, second, raw],
    };
    let devices = get_devices(listing, vec![None, None, header()]).unwrap();
    assert_eq!(devices.len(), 2);
    match &devices[0] {
        Device::Compatible(device) => assert_eq!(device.disk.path, "/dev/sdb"),
        Device::Incompatible(_) => panic!("the second disk can be edited"),
    }
    match &devices[1] {
        Device::Incompatible(raw) => assert_eq!(raw.path, "/dev/sdc"),
        Device::Compatible(_) => panic!("the third disk can only be shown"),
    }
}

#[test]
fn enumeration_fails_on_an_impossible_device() {
    let listing = LsblkResult {
        blockdevices: vec![
            gpt_disk(vec![]),
            gpt_disk(vec![child(1, 2048, 4096), child(2, 4096, 4096)]),
        ],
    };
    assert!(matches!(
        get_devices(listing, vec![header(), header()]),
        Err(LoadError::Enumeration)
    ));
    assert_eq!(get_devices(LsblkResult { blockdevices: vec![] }, vec![]).unwrap().len(), 0);
}

#[test]
fn size_of_a_partition_is_that_of_its_whole_sectors() {
    let mut ragged = child(1, 2048, 2048);
    ragged.size += 1;
    let part = MemPartition::from_raw(ragged.clone(), 512, true).unwrap();
    assert_eq!(part.sectors, 2048);
    assert_eq!(part.size, 2048 * 512);
    assert_eq!(part.end, 4095);
    assert!(part.is_wf(512));
    let mut small = child(2, 8192, 1);
    small.size = 1000;
    let part = MemPartition::from_raw(small.clone(), 512, false).unwrap();
    assert_eq!(part.sectors, 1);
    assert_eq!(part.size, 512);
    assert_eq!(part.start, 8192);
    assert_eq!(part.end, 8192);
    assert!(part.is_wf(512));
    let dev = compatible(Device::classify(gpt_disk(vec![ragged, small]), header()).unwrap());
    assert!(dev.is_wf());
    assert_eq!(dev.mem_table.len(), 4);
    match (&dev.mem_table[0], &dev.mem_table[2]) {
        (MemTableEntry::Partition(first), MemTableEntry::Partition(second)) => {
            assert_eq!((first.sectors, first.size), (2048, 1048576));
            assert_eq!((second.sectors, second.size), (1, 512));
        }
        _ => panic!("the partitions come first and third"),
    }
}
