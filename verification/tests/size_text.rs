use artixide::align::{aligned_start, DEFAULT_ALIGN};
use artixide::editor::{EditError, SizeSpec};
use artixide::partition::FileSystem;
use artixide::size::{parse_size, size_of_bytes};
use artixide::text::{chars_of, is_whitespace, parse_u64, same_text, trim};

fn chars(text: &str) -> Vec<char> {
    text.chars().collect()
}

#[test]
fn star_asks_for_the_whole_region() {
    assert_eq!(parse_size("*", 512), Ok(SizeSpec::All));
    assert_eq!(parse_size("  *\t", 512), Ok(SizeSpec::All));
    assert_eq!(parse_size("**", 512), Err(EditError::ParseSize));
}

#[test]
fn trailing_s_gives_a_count_of_sectors() {
    assert_eq!(parse_size("100s", 512), Ok(SizeSpec::Sectors(100)));
    assert_eq!(parse_size("100S", 4096), Ok(SizeSpec::Sectors(100)));
    assert_eq!(parse_size(" 7 s ", 512), Ok(SizeSpec::Sectors(7)));
    assert_eq!(parse_size("+7s", 512), Ok(SizeSpec::Sectors(7)));
    assert_eq!(parse_size("0s", 512), Ok(SizeSpec::Sectors(0)));
    assert_eq!(
        parse_size("18446744073709551615s", 512),
        Ok(SizeSpec::Sectors(u64::MAX))
    );
    assert_eq!(parse_size("18446744073709551616s", 512), Err(EditError::ParseSize));
    assert_eq!(parse_size("1.5s", 512), Err(EditError::ParseSize));
    assert_eq!(parse_size("s", 512), Err(EditError::ParseSize));
    assert_eq!(parse_size("+s", 512), Err(EditError::ParseSize));
    assert_eq!(parse_size("1 0s", 512), Err(EditError::ParseSize));
}

#[test]
fn other_text_is_a_quantity_of_bytes() {
    assert_eq!(parse_size("1024", 512), Ok(SizeSpec::Sectors(2)));
    assert_eq!(parse_size("1023", 512), Ok(SizeSpec::Sectors(1)));
    assert_eq!(parse_size("0", 512), Ok(SizeSpec::Sectors(0)));
    assert_eq!(parse_size("1500", 512), Ok(SizeSpec::Sectors(2)));
    assert_eq!(parse_size(" +4096 ", 4096), Ok(SizeSpec::Sectors(1)));
    assert_eq!(
        parse_size("18446744073709551615", 1),
        Ok(SizeSpec::Sectors(u64::MAX))
    );
    assert_eq!(parse_size("512M", 512), Ok(SizeSpec::Sectors(1000000)));
    assert_eq!(parse_size("2GiB", 512), Ok(SizeSpec::Sectors(4194304)));
    assert_eq!(parse_size("2GiB", 4096), Ok(SizeSpec::Sectors(524288)));
    assert_eq!(parse_size("1 KiB", 512), Ok(SizeSpec::Sectors(2)));
    assert_eq!(parse_size("enough", 512), Err(EditError::ParseSize));
    assert_eq!(parse_size("", 512), Err(EditError::ParseSize));
    assert_eq!(parse_size("12 parsecs", 512), Err(EditError::ParseSize));
}

#[test]
fn bytes_fill_whole_sectors() {
    assert_eq!(size_of_bytes(Some(4095), 4096), Ok(SizeSpec::Sectors(0)));
    assert_eq!(size_of_bytes(Some(4096), 4096), Ok(SizeSpec::Sectors(1)));
    assert_eq!(size_of_bytes(Some(u64::MAX), 1), Ok(SizeSpec::Sectors(u64::MAX)));
    assert_eq!(size_of_bytes(None, 512), Err(EditError::ParseSize));
}

#[test]
fn request_is_held_against_the_region() {
    assert_eq!(SizeSpec::All.resolve(100), Ok(100));
    assert_eq!(SizeSpec::Sectors(100).resolve(100), Ok(100));
    assert_eq!(SizeSpec::Sectors(1).resolve(100), Ok(1));
    assert_eq!(SizeSpec::Sectors(0).resolve(100), Err(EditError::InvalidSize));
    assert_eq!(SizeSpec::Sectors(101).resolve(100), Err(EditError::OverSize));
}

#[test]
fn decimal_numbers() {
    assert_eq!(parse_u64(&chars("0")), Some(0));
    assert_eq!(parse_u64(&chars("007")), Some(7));
    assert_eq!(parse_u64(&chars("+42")), Some(42));
    assert_eq!(parse_u64(&chars("18446744073709551615")), Some(u64::MAX));
    assert_eq!(parse_u64(&chars("18446744073709551616")), None);
    assert_eq!(parse_u64(&chars("99999999999999999999999")), None);
    assert_eq!(parse_u64(&chars("")), None);
    assert_eq!(parse_u64(&chars("+")), None);
    assert_eq!(parse_u64(&chars("-1")), None);
    assert_eq!(parse_u64(&chars("1_000")), None);
    assert_eq!(parse_u64(&chars(" 1")), None);
    assert_eq!(parse_u64(&chars("٣")), None);
    for text in ["0", "10", "+5", "x", "", "12a", "4294967296"] {
        assert_eq!(parse_u64(&chars(text)), text.parse::<u64>().ok());
    }
}

#[test]
fn trimming() {
    assert_eq!(trim("  a b \n"), "a b");
    assert_eq!(trim("ab"), "ab");
    assert_eq!(trim(""), "");
    assert_eq!(trim(" \t\r\n"), "");
    assert_eq!(trim("\u{a0}x\u{3000}"), "x");
    assert_eq!(trim("\u{200b}x"), "\u{200b}x");
    for code in 0..0x3100u32 {
        if let Some(c) = char::from_u32(code) {
            assert_eq!(is_whitespace(c), c.is_whitespace());
        }
    }
    let text = " é ü ";
    assert_eq!(trim(text), text.trim());
    assert_eq!(chars_of("añb"), vec!['a', 'ñ', 'b']);
    assert!(same_text("disk", "disk"));
    assert!(!same_text("disk", "disc"));
    assert!(!same_text("disk", "disks"));
}

#[test]
fn alignment() {
    assert_eq!(DEFAULT_ALIGN, 2048);
    assert_eq!(aligned_start(0), Some(0));
    assert_eq!(aligned_start(1), Some(2048));
    assert_eq!(aligned_start(2048), Some(2048));
    assert_eq!(aligned_start(2049), Some(4096));
    assert_eq!(aligned_start(u64::MAX - 2047), Some(u64::MAX - 2047));
    assert_eq!(aligned_start(u64::MAX - 2046), None);
    assert_eq!(aligned_start(u64::MAX), None);
}

#[test]
fn file_system_names() {
    assert_eq!(FileSystem::from_name("ext4"), FileSystem::Ext4);
    assert_eq!(FileSystem::from_name("exfat"), FileSystem::ExFat);
    assert_eq!(FileSystem::from_name("swap"), FileSystem::Swap);
    assert_eq!(FileSystem::from_name("unknown"), FileSystem::Unknown);
    assert_eq!(FileSystem::from_name("Ext4"), FileSystem::Unknown);
    assert_eq!(FileSystem::from_name(""), FileSystem::Unknown);
    assert_eq!(FileSystem::from_name("zfs"), FileSystem::Unknown);
    for fs in [
        FileSystem::Ext2,
        FileSystem::Ext3,
        FileSystem::Ext4,
        FileSystem::Btrfs,
        FileSystem::Xfs,
        FileSystem::Swap,
        FileSystem::Fat16,
        FileSystem::Fat32,
        FileSystem::ExFat,
        FileSystem::Ntfs,
        FileSystem::Unknown,
    ] {
        assert_eq!(FileSystem::from_name(fs.as_str()), fs);
    }
    assert_eq!(FileSystem::Btrfs.as_str(), "btrfs");
}
