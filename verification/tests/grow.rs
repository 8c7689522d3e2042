//! Policy, partition tables, filesystems and the plan that follows from them.

use disktui_lite::grow::sysfs::{
    align_tolerance, disk_geometry, part_size_path, read_lba_size, read_size,
};
use disktui_lite::grow::{
    self, analyze_with, load_policy, load_policy_from, parse_table, part_dev_name, quick_enabled,
    read_swap_info, sniff_fs, FsKind, GrowAction, GrowPlan, GrowPolicy, Image, Label, PartSpec,
    ReadSeek,
};

const S: u64 = 512;

fn mbr_entry(img: &mut Vec<u8>, slot: usize, ptype: u8, start: u64, sectors: u64) {
    let off = 446 + slot * 16;
    img[off + 4] = ptype;
    img[off + 8..off + 12].copy_from_slice(&(start as u32).to_le_bytes());
    img[off + 12..off + 16].copy_from_slice(&(sectors as u32).to_le_bytes());
}

fn sign_mbr(img: &mut Vec<u8>) {
    img[510] = 0x55;
    img[511] = 0xAA;
}

fn mbr_disk(parts: &[(u8, u64, u64)], total_sectors: u64) -> Vec<u8> {
    let mut img = vec![0u8; (total_sectors * S) as usize];
    for (i, &(t, s, n)) in parts.iter().enumerate() {
        mbr_entry(&mut img, i, t, s, n);
    }
    sign_mbr(&mut img);
    img
}

/// A protective MBR, a header in block 1 and 128 entries from block 2 on.
fn gpt_disk(entries: &[([u8; 16], u64, u64)], total_sectors: u64, last_usable: u64) -> Vec<u8> {
    let mut img = vec![0u8; (total_sectors * S) as usize];
    mbr_entry(&mut img, 0, 0xEE, 1, (total_sectors - 1).min(u32::MAX as u64));
    sign_mbr(&mut img);

    let h = S as usize;
    img[h..h + 8].copy_from_slice(b"EFI PART");
    img[h + 64..h + 72].copy_from_slice(&last_usable.to_le_bytes());
    img[h + 72..h + 80].copy_from_slice(&2u64.to_le_bytes());
    img[h + 80..h + 84].copy_from_slice(&128u32.to_le_bytes());
    img[h + 84..h + 88].copy_from_slice(&128u32.to_le_bytes());

    for (i, &(guid, first, last)) in entries.iter().enumerate() {
        let off = 2 * S as usize + i * 128;
        img[off..off + 16].copy_from_slice(&guid);
        img[off + 32..off + 40].copy_from_slice(&first.to_le_bytes());
        img[off + 40..off + 48].copy_from_slice(&last.to_le_bytes());
    }
    img
}

fn put_ext4(img: &mut Vec<u8>, off: u64, blocks: u64) {
    let b = off as usize;
    img[b + 0x438] = 0x53;
    img[b + 0x439] = 0xEF;
    let sb = b + 1024;
    img[sb + 0x04..sb + 0x08].copy_from_slice(&(blocks as u32).to_le_bytes());
    img[sb + 0x18..sb + 0x1C].copy_from_slice(&0u32.to_le_bytes());
}

fn put_xfs(img: &mut Vec<u8>, off: u64) {
    let b = off as usize;
    img[b..b + 4].copy_from_slice(b"XFSB");
}

fn put_ntfs(img: &mut Vec<u8>, off: u64) {
    let b = off as usize;
    img[b + 3..b + 11].copy_from_slice(b"NTFS    ");
}

fn put_fat(img: &mut Vec<u8>, off: u64) {
    let b = off as usize;
    img[b + 0x36..b + 0x39].copy_from_slice(b"FAT");
}

fn put_btrfs(img: &mut Vec<u8>, off: u64) {
    let b = off as usize;
    img[b + 0x10040..b + 0x10048].copy_from_slice(b"_BHRfS_M");
}

fn put_swap(img: &mut Vec<u8>, off: u64, uuid: &[u8; 16], label: &str) {
    let b = off as usize;
    img[b + 4086..b + 4096].copy_from_slice(b"SWAPSPACE2");
    img[b + 1036..b + 1052].copy_from_slice(uuid);
    let lab = label.as_bytes();
    img[b + 1052..b + 1052 + lab.len()].copy_from_slice(lab);
}

fn enabled_policy() -> GrowPolicy {
    GrowPolicy { enabled: true, part: PartSpec::Auto, lv: None }
}

const IMG: &str = "/tmp/disk.img";

fn analyze(img: Vec<u8>, policy: &GrowPolicy) -> GrowPlan {
    analyze_with(Some(&Image::new(img)), IMG, "sda", 10000, 512, policy)
}

// Policy

#[test]
fn policy_defaults_when_file_missing() {
    let p = load_policy_from(None, None);
    assert!(!p.enabled);
    assert_eq!(p.part, PartSpec::Auto);
}

#[test]
fn policy_parses_known_keys() {
    let p = load_policy_from(Some("enabled=1\npart=3\n"), None);
    assert!(p.enabled);
    assert_eq!(p.part, PartSpec::Number(3));
}

#[test]
fn policy_part_auto_empty_and_invalid_fallback() {
    for (content, expect) in [
        ("enabled=1\npart=auto\n", PartSpec::Auto),
        ("enabled=1\npart=\n", PartSpec::Auto),
        ("enabled=1\npart=xyz\n", PartSpec::Auto),
        ("enabled=1\npart=5\n", PartSpec::Number(5)),
        ("enabled=1\npart=-1\n", PartSpec::Auto),
    ] {
        let p = load_policy_from(Some(content), None);
        assert_eq!(p.part, expect, "content: {content}");
    }
}

#[test]
fn policy_ignores_unknown_keys_and_comments() {
    let p = load_policy_from(
        Some("# comment\nenabled=1\nunknown_key=value\npart=2\n\nnot-a-pair\n"),
        None,
    );
    assert!(p.enabled);
    assert_eq!(p.part, PartSpec::Number(2));
}

#[test]
fn policy_disabled_by_default_when_enabled_missing() {
    let p = load_policy_from(Some("part=2\n"), None);
    assert!(!p.enabled);
}

#[test]
fn policy_invalid_part_after_a_number_means_auto() {
    let p = load_policy_from(Some("part=3\npart=xyz\n"), None);
    assert_eq!(p.part, PartSpec::Auto);
    assert_eq!(
        load_policy_from(Some("part=4294967296\n"), None).part,
        PartSpec::Auto
    );
    assert_eq!(
        load_policy_from(Some("part=+7\n"), None).part,
        PartSpec::Number(7)
    );
}

#[test]
fn policy_reads_volume_and_white_space() {
    let p = load_policy(Some("  enabled = 1 \r\n lv = home \r\n"), Some("quiet splash"));
    assert!(p.enabled);
    assert_eq!(p.lv.as_deref(), Some("home"));
    assert_eq!(load_policy(Some("lv=home\nlv=auto\n"), None).lv, None);
    assert_eq!(load_policy(Some("lv=\n"), None).lv, None);
}

#[test]
fn policy_is_overruled_by_the_kernel_command_line() {
    assert!(quick_enabled(Some("enabled=1\n"), None));
    assert!(quick_enabled(Some("enabled=1\n"), Some("quiet grow=offline")));
    assert!(!quick_enabled(Some("enabled=1\n"), Some("quiet grow=off splash\n")));
    assert!(!quick_enabled(Some("enabled=yes\n"), None));
    assert!(!quick_enabled(None, None));
}

// Partition tables

#[test]
fn parse_table_mbr_basic_and_container() {
    let mut img = mbr_disk(&[(0x83, 2048, 4096), (0x05, 6144, 1024)], 10000);
    put_ext4(&mut img, 2048 * S, 0);
    let t = parse_table(&Image::new(img), 512).unwrap();
    assert_eq!(t.label, Label::Mbr);
    assert_eq!(t.entries.len(), 2);
    assert_eq!(t.entries[0].num, 1);
    assert_eq!(t.entries[0].first_lba, 2048);
    assert_eq!(t.entries[0].last_lba, 2048 + 4096 - 1);
    assert!(!t.entries[0].is_container);
    assert_eq!(t.entries[0].ptype, "83");
    assert!(t.entries[1].is_container);
    assert_eq!(t.entries[1].ptype, "05");
    assert!(t.gpt_meta.is_none());
}

#[test]
fn parse_table_gpt_entries_and_header_fields() {
    let linux_guid: [u8; 16] = [
        0xAF, 0x3D, 0xC6, 0x0F, 0x83, 0x84, 0x72, 0x47, 0x8E, 0x79, 0x3D, 0x69, 0xD8, 0x47, 0x7D,
        0xE4,
    ];
    let img = gpt_disk(&[(linux_guid, 2048, 6143)], 10000, 9967);
    let t = parse_table(&Image::new(img), 512).unwrap();
    assert_eq!(t.label, Label::Gpt);
    assert_eq!(t.entries.len(), 1);
    let e = &t.entries[0];
    assert_eq!(e.first_lba, 2048);
    assert_eq!(e.last_lba, 6143);
    assert_eq!(e.ptype, "0fc63daf-8483-4772-8e79-3d69d8477de4");
    assert_eq!(t.gpt_meta, Some((128, 128)));
    assert_eq!(t.gpt_last_usable_lba, Some(9967));
}

#[test]
fn parse_table_superfloppy_when_no_signature() {
    let mut img = vec![0u8; 10000 * S as usize];
    put_ext4(&mut img, 0, 1000);
    let t = parse_table(&Image::new(img), 512).unwrap();
    assert_eq!(t.label, Label::Superfloppy);
    assert!(t.entries.is_empty());
}

#[test]
fn parse_table_mbr_all_empty_entries_is_superfloppy() {
    let mut img = vec![0u8; 1000 * S as usize];
    sign_mbr(&mut img);
    let t = parse_table(&Image::new(img), 512).unwrap();
    assert_eq!(t.label, Label::Superfloppy);
}

#[test]
fn parse_table_rejects_short_disks_and_damaged_headers() {
    assert!(parse_table(&Image::new(vec![0u8; 511]), 512).is_none());
    let guid = [1u8; 16];
    let mut img = gpt_disk(&[(guid, 2048, 6143)], 10000, 9967);
    img[512 + 84..512 + 88].copy_from_slice(&192u32.to_le_bytes());
    assert!(parse_table(&Image::new(img.clone()), 512).is_none());
    img[512 + 84..512 + 88].copy_from_slice(&64u32.to_le_bytes());
    assert!(parse_table(&Image::new(img.clone()), 512).is_none());
    img[512 + 84..512 + 88].copy_from_slice(&256u32.to_le_bytes());
    img[512 + 80..512 + 84].copy_from_slice(&65537u32.to_le_bytes());
    assert!(parse_table(&Image::new(img), 512).is_none());
}

#[test]
fn parse_table_gpt_skips_unused_and_reversed_entries() {
    let g = [7u8; 16];
    let img = gpt_disk(&[([0u8; 16], 34, 99), (g, 200, 100), (g, 2048, 6143)], 10000, 9967);
    let t = parse_table(&Image::new(img), 512).unwrap();
    assert_eq!(t.entries.len(), 1);
    assert_eq!(t.entries[0].num, 3);
    assert_eq!(
        t.entries[0].partuuid.as_deref(),
        Some("00000000-0000-0000-0000-000000000000")
    );
}

#[test]
fn parse_table_gpt_header_stands_in_block_one() {
    // A disk with blocks of 4096 bytes.
    let mut img = vec![0u8; 4096 * 64];
    mbr_entry(&mut img, 0, 0xEE, 1, 63);
    sign_mbr(&mut img);
    let h = 4096;
    img[h..h + 8].copy_from_slice(b"EFI PART");
    img[h + 72..h + 80].copy_from_slice(&2u64.to_le_bytes());
    img[h + 80..h + 84].copy_from_slice(&4u32.to_le_bytes());
    img[h + 84..h + 88].copy_from_slice(&128u32.to_le_bytes());
    let e = 2 * 4096;
    img[e] = 9;
    img[e + 32..e + 40].copy_from_slice(&6u64.to_le_bytes());
    img[e + 40..e + 48].copy_from_slice(&11u64.to_le_bytes());
    let t = parse_table(&Image::new(img.clone()), 4096).unwrap();
    assert_eq!(t.label, Label::Gpt);
    assert_eq!(t.entries[0].last_lba, 11);
    // Read with the wrong block size, only the protective entry is there.
    let t = parse_table(&Image::new(img), 512).unwrap();
    assert_eq!(t.label, Label::Mbr);
    assert_eq!(t.entries[0].ptype, "ee");
}

#[test]
fn gpt_headers_are_read_back() {
    let mut img = gpt_disk(&[([1u8; 16], 2048, 6143)], 10000, 9967);
    img[512 + 48..512 + 56].copy_from_slice(&4242u64.to_le_bytes());
    let last = 9999 * 512;
    let dev = Image::new(img.clone());
    assert_eq!(
        grow::table::read_gpt_header(Some(&dev), 512),
        Some((4242, (128, 128)))
    );
    assert_eq!(grow::table::read_gpt_header(None::<&Image>, 512), None);
    assert!(!grow::table::backup_header_at_end(Some(&dev), 10000, 512));
    img[last..last + 8].copy_from_slice(b"EFI PART");
    // An old header that names another block is no backup.
    img[last + 24..last + 32].copy_from_slice(&5000u64.to_le_bytes());
    assert!(!grow::table::backup_header_at_end(Some(&Image::new(img.clone())), 10000, 512));
    img[last + 24..last + 32].copy_from_slice(&9999u64.to_le_bytes());
    assert!(grow::table::backup_header_at_end(Some(&Image::new(img.clone())), 10000, 512));
    assert!(!grow::table::backup_header_at_end(Some(&Image::new(img)), u64::MAX, 512));
    assert!(!grow::table::backup_header_at_end(None::<&Image>, 10000, 512));
}

#[test]
fn images_are_read_as_far_as_they_reach() {
    let dev = Image::new(vec![1, 2, 3, 4]);
    assert_eq!(dev.read_at(1, 2), vec![2, 3]);
    assert_eq!(dev.read_at(2, 10), vec![3, 4]);
    assert_eq!(dev.read_at(4, 1), Vec::<u8>::new());
    assert_eq!(dev.read_at(u64::MAX, 1), Vec::<u8>::new());
}

// Filesystems

#[test]
fn sniff_fs_detects_each_magic() {
    let mut img = vec![0u8; 0x10048];
    put_ext4(&mut img, 0, 0);
    assert_eq!(sniff_fs(&Image::new(img.clone()), 0), FsKind::Ext);

    let mut img = vec![0u8; 0x10048];
    put_xfs(&mut img, 0);
    assert_eq!(sniff_fs(&Image::new(img.clone()), 0), FsKind::Xfs);

    let mut img = vec![0u8; 0x10048];
    put_ntfs(&mut img, 0);
    assert_eq!(sniff_fs(&Image::new(img.clone()), 0), FsKind::Ntfs);

    let mut img = vec![0u8; 0x10048];
    put_fat(&mut img, 0);
    assert_eq!(sniff_fs(&Image::new(img.clone()), 0), FsKind::Fat);

    let mut img = vec![0u8; 0x10048];
    put_btrfs(&mut img, 0);
    assert_eq!(sniff_fs(&Image::new(img.clone()), 0), FsKind::Btrfs);

    let mut img = vec![0u8; 0x10048];
    put_swap(&mut img, 0, &[1; 16], "");
    assert_eq!(sniff_fs(&Image::new(img.clone()), 0), FsKind::Swap);

    let img = vec![0u8; 0x10048];
    assert_eq!(sniff_fs(&Image::new(img), 0), FsKind::Unknown);
}

#[test]
fn sniff_fs_detects_the_other_magics() {
    let blank = vec![0u8; 0x10048];
    for (at, magic, kind) in [
        (0usize, &b"LUKS\xBA\xBE"[..], FsKind::Luks),
        (0, b"LABELONE", FsKind::Lvm),
        (512, b"LABELONE", FsKind::Lvm),
        (1536, b"LABELONE", FsKind::Lvm),
        (3, b"EXFAT", FsKind::Exfat),
        (0x52, b"FAT", FsKind::Fat),
        (8186, b"SWAPSPACE2", FsKind::Swap),
        (65526, b"SWAPSPACE2", FsKind::Swap),
        (0x8001, b"CD001", FsKind::Iso9660),
        (2048, b"LABELONE", FsKind::Unknown),
    ] {
        let mut img = blank.clone();
        img[at..at + magic.len()].copy_from_slice(magic);
        assert_eq!(sniff_fs(&Image::new(img), 0), kind);
    }
    // XFS goes before ext.
    let mut img = blank;
    put_ext4(&mut img, 0, 0);
    put_xfs(&mut img, 0);
    assert_eq!(sniff_fs(&Image::new(img), 0), FsKind::Xfs);
}

#[test]
fn sniff_fs_respects_partition_offset() {
    let mut img = vec![0u8; 0x10048 + 0x20000];
    put_xfs(&mut img, 0x20000);
    assert_eq!(sniff_fs(&Image::new(img), 0x20000), FsKind::Xfs);
}

#[test]
fn read_swap_info_extracts_uuid_and_label() {
    let mut img = vec![0u8; 8192];
    let uuid = [
        0x11, 0x22, 0x33, 0x44, 0x55, 0x66, 0x77, 0x88, 0x99, 0xAA, 0xBB, 0xCC, 0xDD, 0xEE, 0xFF,
        0x00,
    ];
    put_swap(&mut img, 0, &uuid, "myswap");
    let si = read_swap_info(&Image::new(img), 0).unwrap();
    assert_eq!(si.uuid, "112233445566778899aabbccddeeff00");
    assert_eq!(si.label, "myswap");
}

#[test]
fn read_swap_info_rejects_non_swap() {
    let img = vec![0u8; 8192];
    assert!(read_swap_info(&Image::new(img), 0).is_none());
}

#[test]
fn swap_labels_are_decoded_and_trimmed() {
    let mut img = vec![0u8; 8192];
    put_swap(&mut img, 0, &[0; 16], "  sixteen bytes ");
    assert_eq!(read_swap_info(&Image::new(img.clone()), 0).unwrap().label, "sixteen bytes");
    img[1052..1055].copy_from_slice(&[0xff, b'x', 0]);
    assert_eq!(read_swap_info(&Image::new(img.clone()), 0).unwrap().label, "\u{fffd}x");
    img[1052..1055].copy_from_slice(&[0xc3, 0xa9, 0]);
    assert_eq!(read_swap_info(&Image::new(img.clone()), 0).unwrap().label, "é");
    let page = img;
    let si = grow::fs::swap_info_of(&page, " a ").unwrap();
    assert_eq!(si.label, "a");
    assert!(grow::fs::swap_info_of(&vec![0u8; 65536], "a").is_none());
}

#[test]
fn ends_of_filesystems_are_estimated() {
    let end = |img: &Vec<u8>| {
        grow::fs::superfloppy_fs_end_bytes(&Image::new(img.clone()), 0)
    };
    let blank = vec![0u8; 0x11000];
    assert_eq!(end(&blank), None);
    assert_eq!(end(&vec![0u8; 63]), None);

    let mut img = blank.clone();
    put_ext4(&mut img, 0, 1000);
    assert_eq!(end(&img), Some(1000 * 1024));
    img[1024 + 0x18] = 2; // blocks of 4 KiB
    assert_eq!(end(&img), Some(1000 * 4096));
    img[1024 + 0x60] = 0x80; // a count of 64 bits
    img[1024 + 0x150] = 1;
    assert_eq!(end(&img), Some((0x1_0000_0000 + 1000) * 4096));
    img[1024 + 0x18] = 64;
    assert_eq!(end(&img), None);
    img[1024 + 0x18] = 50;
    assert_eq!(end(&img), None);

    let mut img = blank.clone();
    put_btrfs(&mut img, 0);
    img[0x10070..0x10078].copy_from_slice(&12345u64.to_le_bytes());
    assert_eq!(end(&img), Some(12345));

    let mut img = blank.clone();
    put_ntfs(&mut img, 0);
    assert_eq!(end(&img), None);
    img[0x0b..0x0d].copy_from_slice(&512u16.to_le_bytes());
    img[0x0d] = 8;
    img[0x28..0x30].copy_from_slice(&100u64.to_le_bytes());
    assert_eq!(end(&img), Some(512 * 8 * 100));
    img[0x28..0x30].copy_from_slice(&u64::MAX.to_le_bytes());
    assert_eq!(end(&img), Some(u64::MAX));
    img[0x28..0x30].copy_from_slice(&0u64.to_le_bytes());
    img[0x13..0x17].copy_from_slice(&3u32.to_le_bytes());
    assert_eq!(end(&img), Some(512 * 8 * 3));

    let mut img = blank;
    put_xfs(&mut img, 0);
    assert_eq!(end(&img), None);
    img[4..8].copy_from_slice(&4096u32.to_be_bytes());
    img[8..16].copy_from_slice(&77u64.to_be_bytes());
    assert_eq!(end(&img), Some(4096 * 77));
}

// Plans

#[test]
fn part_dev_name_naming_rules() {
    assert_eq!(part_dev_name("sda", 3), "sda3");
    assert_eq!(part_dev_name("nvme0n1", 2), "nvme0n1p2");
    assert_eq!(part_dev_name("mmcblk0", 1), "mmcblk0p1");
    assert_eq!(part_dev_name("vd b", 1), "vd b1");
}

#[test]
fn disk_names_stand_behind_the_last_slash() {
    assert_eq!(grow::plan::disk_name_of("/dev/sda"), "sda");
    assert_eq!(grow::plan::disk_name_of("sda"), "sda");
    assert_eq!(grow::plan::disk_name_of("/dev/"), "");
}

#[test]
fn units_are_converted() {
    assert_eq!(grow::plan::lba_to_sysfs(3, 4096), 24);
    assert_eq!(grow::plan::lba_to_bytes(3, 4096), 12288);
    assert_eq!(grow::plan::sysfs_to_lba(25, 4096), 3);
    assert_eq!(grow::plan::lba_to_bytes(u64::MAX, 512), u64::MAX);
    assert_eq!(grow::plan::lba_to_sysfs(u64::MAX, 512), u64::MAX / 512);
}

#[test]
fn analyze_mbr_grows_last_ext4() {
    let mut img = mbr_disk(&[(0x83, 2048, 4096)], 10000);
    put_ext4(&mut img, 2048 * S, 0);

    let plan = analyze(img, &enabled_policy());
    let Some(GrowAction::PartitionGrow {
        part_num,
        part_dev,
        fs,
        surgery,
        expected_new_sectors,
        old_sectors,
        is_gpt,
    }) = plan.action
    else {
        panic!("expected PartitionGrow, got skip: {:?}", plan.skip_reason);
    };
    assert_eq!(part_num, 1);
    assert_eq!(part_dev, "/dev/sda1");
    assert_eq!(fs, FsKind::Ext);
    assert!(surgery.is_none());
    assert!(!is_gpt);
    assert_eq!(old_sectors, 4096);
    assert_eq!(expected_new_sectors, Some(10000 - 2048));
}

#[test]
fn analyze_mbr_swap_surgery_plan() {
    let mut img = mbr_disk(&[(0x83, 2048, 4096), (0x82, 6144, 1024)], 10000);
    put_ext4(&mut img, 2048 * S, 0);
    put_swap(&mut img, 6144 * S, &[0xAB; 16], "sw");

    let plan = analyze(img, &enabled_policy());
    let Some(GrowAction::PartitionGrow { part_num, fs, surgery, expected_new_sectors, .. }) =
        plan.action
    else {
        panic!("expected surgery plan, got skip: {:?}", plan.skip_reason);
    };
    assert_eq!(part_num, 1);
    assert_eq!(fs, FsKind::Ext);
    assert_eq!(expected_new_sectors, None);
    let s = surgery.expect("surgery plan");
    assert_eq!(s.swap_num, 2);
    assert_eq!(s.root_num, 1);
    assert_eq!(s.root_first_lba, 2048);
    assert_eq!(s.root_ptype, "83");
    assert_eq!(s.swap_first_lba, 6144);
    assert_eq!(s.swap_sectors, 1024);
    assert_eq!(s.swap_ptype, "82");
    assert_eq!(s.swap_uuid, "ab".repeat(16));
    assert_eq!(s.swap_label, "sw");
    assert!(s.swap_partuuid.is_none());
}

#[test]
fn analyze_gpt_grows_last_and_sets_gpt_flag() {
    let linux_guid: [u8; 16] = [
        0xAF, 0x3D, 0xC6, 0x0F, 0x83, 0x84, 0x72, 0x47, 0x8E, 0x79, 0x3D, 0x69, 0xD8, 0x47, 0x77,
        0xDE,
    ];
    let mut img = gpt_disk(&[(linux_guid, 2048, 6143)], 10000, 9967);
    put_ext4(&mut img, 2048 * S, 0);

    let plan = analyze(img, &enabled_policy());
    let Some(GrowAction::PartitionGrow { part_num, is_gpt, expected_new_sectors, surgery, .. }) =
        plan.action
    else {
        panic!("expected PartitionGrow, got skip: {:?}", plan.skip_reason);
    };
    assert_eq!(part_num, 1);
    assert!(is_gpt);
    assert!(surgery.is_none());
    assert_eq!(expected_new_sectors, Some(10000 - 33 - 2048));
}

#[test]
fn analyze_skips_when_no_free_space() {
    let mut img = mbr_disk(&[(0x83, 2048, 7952)], 10000);
    put_ext4(&mut img, 2048 * S, 0);
    let plan = analyze(img, &enabled_policy());
    assert!(plan.action.is_none());
    assert_eq!(plan.skip_reason.as_deref(), Some("no free space after last partition"));
}

#[test]
fn analyze_wants_a_whole_mebibyte() {
    // 2047 sectors are not enough, 2048 are.
    let mut img = mbr_disk(&[(0x83, 2048, 5905)], 10000);
    put_ext4(&mut img, 2048 * S, 0);
    assert!(analyze(img, &enabled_policy()).action.is_none());
    let mut img = mbr_disk(&[(0x83, 2048, 5904)], 10000);
    put_ext4(&mut img, 2048 * S, 0);
    assert!(analyze(img, &enabled_policy()).action.is_some());
}

#[test]
fn analyze_skips_fat_last_partition() {
    let mut img = mbr_disk(&[(0x0b, 2048, 4096)], 10000);
    put_fat(&mut img, 2048 * S);
    let plan = analyze(img, &enabled_policy());
    assert!(plan.action.is_none());
    assert_eq!(plan.skip_reason.as_deref(), Some("FAT/exFAT cannot be resized in place"));
}

#[test]
fn analyze_skips_mbr_extended_container_last() {
    let mut img = mbr_disk(&[(0x83, 2048, 4096), (0x05, 6144, 1024)], 10000);
    put_ext4(&mut img, 2048 * S, 0);
    let plan = analyze(img, &enabled_policy());
    assert!(plan.action.is_none());
    assert_eq!(plan.skip_reason.as_deref(), Some("MBR logical/extended not supported in v1"));
}

#[test]
fn analyze_swap_only_partition_skips() {
    let mut img = mbr_disk(&[(0x82, 2048, 1024)], 10000);
    put_swap(&mut img, 2048 * S, &[1; 16], "");
    let plan = analyze(img, &enabled_policy());
    assert!(plan.action.is_none());
    assert_eq!(plan.skip_reason.as_deref(), Some("swap is the only partition"));
}

#[test]
fn analyze_swap_last_with_fat_prev_skips() {
    let mut img = mbr_disk(&[(0x0b, 2048, 4096), (0x82, 6144, 1024)], 10000);
    put_fat(&mut img, 2048 * S);
    put_swap(&mut img, 6144 * S, &[1; 16], "");
    let plan = analyze(img, &enabled_policy());
    assert!(plan.action.is_none());
    assert_eq!(
        plan.skip_reason.as_deref(),
        Some("swap last, no growable partition before it")
    );
}

#[test]
fn analyze_superfloppy_ext4_filesystem_only() {
    let mut img = vec![0u8; 10000 * S as usize];
    put_ext4(&mut img, 0, 1000);
    let plan = analyze(img, &enabled_policy());
    let Some(GrowAction::FilesystemOnly { fs, fs_dev }) = plan.action else {
        panic!("expected FilesystemOnly, got skip: {:?}", plan.skip_reason);
    };
    assert_eq!(fs, FsKind::Ext);
    assert_eq!(fs_dev, IMG);
}

#[test]
fn analyze_superfloppy_full_skips() {
    let blocks = 9000u64;
    let mut img = vec![0u8; 10000 * S as usize];
    put_ext4(&mut img, 0, blocks);
    let plan = analyze(img, &enabled_policy());
    assert!(plan.action.is_none());
    assert_eq!(plan.skip_reason.as_deref(), Some("no free space after filesystem"));
}

#[test]
fn analyze_declared_part_mismatch_skips() {
    let mut img = mbr_disk(&[(0x83, 2048, 4096)], 10000);
    put_ext4(&mut img, 2048 * S, 0);
    let policy = GrowPolicy { enabled: true, part: PartSpec::Number(2), lv: None };
    let plan = analyze(img, &policy);
    assert!(plan.action.is_none());
    assert!(plan.skip_reason.as_deref().unwrap().contains("not the growth candidate"));
    assert_eq!(
        plan.skip_reason.as_deref(),
        Some("partition 2 is not the growth candidate (candidate: partition 1)")
    );
}

#[test]
fn analyze_declared_part_matching_candidate_proceeds() {
    let mut img = mbr_disk(&[(0x83, 2048, 4096)], 10000);
    put_ext4(&mut img, 2048 * S, 0);
    let policy = GrowPolicy { enabled: true, part: PartSpec::Number(1), lv: None };
    let plan = analyze(img, &policy);
    assert!(plan.action.is_some(), "declared part matching candidate should grow");
}

#[test]
fn analyze_explains_what_it_cannot_read() {
    let plan = analyze_with(None::<&Image>, IMG, "sda", 10000, 512, &enabled_policy());
    assert_eq!(plan.skip_reason.as_deref(), Some("cannot open device"));
    let plan = analyze(vec![0u8; 100], &enabled_policy());
    assert_eq!(plan.skip_reason.as_deref(), Some("cannot parse partition table"));
    let plan = analyze(gpt_disk(&[], 10000, 9967), &enabled_policy());
    assert_eq!(plan.skip_reason.as_deref(), Some("no partitions"));
    for (at, magic, reason) in [
        (0usize, &b"LUKS\xBA\xBE"[..], "LUKS encryption not supported"),
        (0x8001, b"CD001", "ISO9660 filesystem"),
        (4086, b"SWAPSPACE2", "swap on superfloppy is not growable"),
        (0, b"nothing", "unknown filesystem"),
    ] {
        let mut img = vec![0u8; 10000 * S as usize];
        img[at..at + magic.len()].copy_from_slice(magic);
        assert_eq!(analyze(img, &enabled_policy()).skip_reason.as_deref(), Some(reason));
    }
}

#[test]
fn analyze_skips_btrfs_on_several_devices() {
    let put = |img: &mut Vec<u8>, off: usize, devices: u64| {
        put_btrfs(img, off as u64);
        img[off + 0x10088..off + 0x10090].copy_from_slice(&devices.to_le_bytes());
    };
    let mut img = vec![0u8; 10000 * S as usize];
    put(&mut img, 0, 2);
    assert_eq!(
        analyze(img, &enabled_policy()).skip_reason.as_deref(),
        Some("btrfs multi-device filesystem")
    );
    let mut img = mbr_disk(&[(0x83, 2048, 4096)], 10000);
    put(&mut img, 2048 * 512, 2);
    assert_eq!(
        analyze(img.clone(), &enabled_policy()).skip_reason.as_deref(),
        Some("btrfs multi-device filesystem")
    );
    put(&mut img, 2048 * 512, 1);
    assert!(analyze(img, &enabled_policy()).action.is_some());
}

#[test]
fn analyze_grows_only_the_end_of_the_disk() {
    // The table lists the partitions out of order; the one that ends last is
    // the candidate, whatever its number.
    let mut img = mbr_disk(&[(0x83, 5000, 1000), (0x83, 2048, 2000)], 10000);
    put_ext4(&mut img, 5000 * S, 0);
    put_xfs(&mut img, 2048 * S);
    let Some(GrowAction::PartitionGrow { part_num, fs, expected_new_sectors, .. }) =
        analyze(img, &enabled_policy()).action
    else {
        panic!("a plan");
    };
    assert_eq!(part_num, 1);
    assert_eq!(fs, FsKind::Ext);
    assert_eq!(expected_new_sectors, Some(5000));
    // Swap in the middle stays.
    let mut img = mbr_disk(&[(0x82, 2048, 1024), (0x83, 4096, 1000)], 10000);
    put_swap(&mut img, 2048 * S, &[1; 16], "");
    put_ext4(&mut img, 4096 * S, 0);
    let Some(GrowAction::PartitionGrow { part_num, surgery, .. }) =
        analyze(img, &enabled_policy()).action
    else {
        panic!("a plan");
    };
    assert_eq!(part_num, 2);
    assert!(surgery.is_none());
}

#[test]
fn analyze_counts_large_blocks() {
    // Blocks of 4096 bytes: 1250 of them on the disk.
    let mut img = vec![0u8; 1250 * 4096];
    mbr_entry(&mut img, 0, 0x83, 256, 512);
    sign_mbr(&mut img);
    put_ext4(&mut img, 256 * 4096, 0);
    let plan = analyze_with(Some(&Image::new(img)), IMG, "nvme0n1", 10000, 4096, &enabled_policy());
    let Some(GrowAction::PartitionGrow { part_dev, old_sectors, expected_new_sectors, .. }) =
        plan.action
    else {
        panic!("a plan, got {:?}", plan.skip_reason);
    };
    assert_eq!(part_dev, "/dev/nvme0n1p1");
    assert_eq!(old_sectors, 4096);
    assert_eq!(expected_new_sectors, Some(10000 - 2048));
}

#[test]
fn grow_constants_ipc_paths() {
    assert_eq!(grow::STATUS_FILE, "/run/grow.status");
    assert_eq!(grow::RESULT_FILE, "/run/grow.result");
    assert_eq!(grow::LOG_FILE, "/run/grow.log");
}

#[test]
fn kernel_files_are_read() {
    assert_eq!(read_size(Some(" 1234\n")), Some(1234));
    assert_eq!(read_size(Some("x\n")), None);
    assert_eq!(read_size(None), None);
    assert_eq!(read_lba_size(Some("4096\n")), 4096);
    assert_eq!(read_lba_size(Some("520\n")), 512);
    assert_eq!(read_lba_size(Some("256\n")), 512);
    assert_eq!(read_lba_size(None), 512);
    assert_eq!(disk_geometry(Some("10000\n"), Some("4096\n")), Some((10000, 4096)));
    assert_eq!(disk_geometry(None, Some("4096\n")), None);
    assert_eq!(align_tolerance(None), 2048);
    assert_eq!(align_tolerance(Some("65536\n")), 2048);
    assert_eq!(align_tolerance(Some("4194304\n")), 8192);
    assert_eq!(part_size_path("nvme0n1", 2), "/sys/block/nvme0n1/nvme0n1p2/size");
}

#[test]
fn blocks_of_ext_fit_in_64_bits() {
    let end = |log: u32, blocks: u32| {
        let mut img = vec![0u8; 2048];
        img[0x438..0x43a].copy_from_slice(&[0x53, 0xEF]);
        img[1024 + 4..1024 + 8].copy_from_slice(&blocks.to_le_bytes());
        img[1024 + 0x18..1024 + 0x1c].copy_from_slice(&log.to_le_bytes());
        grow::fs::superfloppy_fs_end_bytes(&Image::new(img), 0)
    };
    assert_eq!(end(2, 3), Some(12288));
    assert_eq!(end(53, 1), Some(1 << 63));
    assert_eq!(end(53, 2), None);
    for log in 54..70 {
        assert_eq!(end(log, 1), None);
        assert_eq!(end(log, 0), None);
    }
    assert_eq!(end(u32::MAX, 1), None);
}

#[test]
fn what_looks_like_swap_can_be_read() {
    for at in [4086usize, 8186, 65526] {
        let mut img = vec![0u8; at + 10];
        img[at..at + 10].copy_from_slice(b"SWAPSPACE2");
        assert_eq!(sniff_fs(&Image::new(img.clone()), 0), FsKind::Swap);
        assert!(read_swap_info(&Image::new(img.clone()), 0).is_some());
        img.pop();
        assert_eq!(sniff_fs(&Image::new(img.clone()), 0), FsKind::Unknown);
        assert!(read_swap_info(&Image::new(img), 0).is_none());
    }
    let img = Image::new((0..100).collect());
    assert_eq!(grow::device::read(&img, 10, 5), img.read_at(10, 50)[..5].to_vec());
}

#[test]
fn naming_a_partition_only_narrows() {
    let mut img = mbr_disk(&[(0x83, 2048, 2048)], 10240);
    put_ext4(&mut img, 2048 * S, 1000);
    let plan = |part| {
        analyze(img.clone(), &GrowPolicy { enabled: true, part, lv: None })
    };
    let num = |p: &GrowPlan| match &p.action {
        Some(GrowAction::PartitionGrow { part_num, expected_new_sectors, old_sectors, .. }) => {
            Some((*part_num, *expected_new_sectors, *old_sectors))
        }
        _ => None,
    };
    // The partition gains all that is free behind it.
    assert_eq!(num(&plan(PartSpec::Auto)), Some((1, Some(2048 + 5904), 2048)));
    assert_eq!(num(&plan(PartSpec::Number(1))), num(&plan(PartSpec::Auto)));
    let other = plan(PartSpec::Number(2));
    assert!(other.action.is_none());
    assert_eq!(
        other.skip_reason.unwrap(),
        "partition 2 is not the growth candidate (candidate: partition 1)"
    );
}

#[test]
fn blocks_of_no_bytes_leave_no_space() {
    let mut img = mbr_disk(&[(0x83, 2048, 2048)], 10240);
    put_ext4(&mut img, 2048 * S, 1000);
    let p = analyze_with(Some(&Image::new(img)), "/dev/sda", "sda", 10240, 0, &enabled_policy());
    assert_eq!(p.skip_reason.unwrap(), "no free space after last partition");
}
