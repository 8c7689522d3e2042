//! What a filesystem says of itself in its first blocks.
use super::device;
use super::device::ReadSeek;
use super::table;
use super::table::sat_mul;
use crate::bytes;
use crate::bytes::{be32, be64, le16, le32, le64, magic};
use crate::text;
use crate::text::{from_utf8_lossy, push_hex2, trimmed_str};
use vstd::arithmetic::power2;
use vstd::prelude::*;

verus! {

#[derive(Debug, Clone, Copy, PartialEq, Eq, Structural)]
pub enum FsKind {
    Ext,
    Xfs,
    Ntfs,
    Btrfs,
    Swap,
    Luks,
    Lvm,
    Fat,
    Exfat,
    Iso9660,
    Unknown,
}

/// The first bytes of a filesystem: far enough for the magic of btrfs.
pub const SNIFF_BYTES: usize = 0x10048;

pub open spec fn two_at(b: Seq<u8>, at: int, x: u8, y: u8) -> bool {
    at + 2 <= b.len() && b[at] == x && b[at + 1] == y
}

fn magic2(b: &Vec<u8>, at: usize, x: u8, y: u8) -> (r: bool)
    requires
        at + 2 <= usize::MAX,
    ensures
        r == two_at(b@, at as int, x, y),
{
    at + 2 <= b.len() && b[at] == x && b[at + 1] == y
}

/// A swap area ends its first page with its name; pages have 4, 8 or 64 KiB.
pub open spec fn swap_magic(b: Seq<u8>) -> bool {
    bytes::text_at(b, 4086, "SWAPSPACE2"@) || bytes::text_at(b, 8186, "SWAPSPACE2"@)
        || bytes::text_at(b, 65526, "SWAPSPACE2"@)
}

fn is_swap_magic(b: &Vec<u8>) -> (r: bool)
    ensures
        r == swap_magic(b@),
{
    magic(b, 4086, "SWAPSPACE2") || magic(b, 8186, "SWAPSPACE2") || magic(b, 65526, "SWAPSPACE2")
}

/// Whether one of the first four sectors begins with the label of a physical
/// volume.
pub open spec fn lvm_label(b: Seq<u8>) -> bool {
    bytes::text_at(b, 0, "LABELONE"@) || bytes::text_at(b, 512, "LABELONE"@) || bytes::text_at(
        b,
        1024,
        "LABELONE"@,
    ) || bytes::text_at(b, 1536, "LABELONE"@)
}

/// The filesystem that begins with the bytes `b`. The first magic that is
/// found decides, in this order.
pub open spec fn fs_kind(b: Seq<u8>) -> FsKind {
    if bytes::text_at(b, 0, "XFSB"@) {
        FsKind::Xfs
    } else if two_at(b, 0x438, 0x53, 0xef) {
        FsKind::Ext
    } else if bytes::text_at(b, 3, "NTFS    "@) {
        FsKind::Ntfs
    } else if bytes::text_at(b, 0x10040, "_BHRfS_M"@) {
        FsKind::Btrfs
    } else if bytes::text_at(b, 0, "LUKS"@) && two_at(b, 4, 0xba, 0xbe) {
        FsKind::Luks
    } else if lvm_label(b) {
        FsKind::Lvm
    } else if bytes::text_at(b, 3, "EXFAT"@) {
        FsKind::Exfat
    } else if bytes::text_at(b, 0x36, "FAT"@) || bytes::text_at(b, 0x52, "FAT"@) {
        FsKind::Fat
    } else if swap_magic(b) {
        FsKind::Swap
    } else if bytes::text_at(b, 0x8001, "CD001"@) {
        FsKind::Iso9660
    } else {
        FsKind::Unknown
    }
}

/// The filesystem at `offset` of a disk.
pub open spec fn fs_at<D: ReadSeek>(dev: D, offset: u64) -> FsKind {
    fs_kind(device::window(dev, offset, SNIFF_BYTES as nat))
}

/// Guesses a filesystem by its magic. Whether it can be resized is for its own
/// tools to say.
pub fn sniff_fs<D: ReadSeek>(dev: &D, part_offset: u64) -> (r: FsKind)
    ensures
        r == fs_at(*dev, part_offset),
        r is Btrfs ==> part_offset + SNIFF_BYTES <= 0x1_0000_0000_0000_0000,
{
    proof {
        reveal_strlit("_BHRfS_M");
    }
    let b = device::read(dev, part_offset, SNIFF_BYTES);
    if magic(&b, 0, "XFSB") {
        FsKind::Xfs
    } else if magic2(&b, 0x438, 0x53, 0xef) {
        FsKind::Ext
    } else if magic(&b, 3, "NTFS    ") {
        FsKind::Ntfs
    } else if magic(&b, 0x10040, "_BHRfS_M") {
        FsKind::Btrfs
    } else if magic(&b, 0, "LUKS") && magic2(&b, 4, 0xba, 0xbe) {
        FsKind::Luks
    } else if magic(&b, 0, "LABELONE") || magic(&b, 512, "LABELONE") || magic(&b, 1024, "LABELONE")
        || magic(&b, 1536, "LABELONE") {
        FsKind::Lvm
    } else if magic(&b, 3, "EXFAT") {
        FsKind::Exfat
    } else if magic(&b, 0x36, "FAT") || magic(&b, 0x52, "FAT") {
        FsKind::Fat
    } else if is_swap_magic(&b) {
        FsKind::Swap
    } else if magic(&b, 0x8001, "CD001") {
        FsKind::Iso9660
    } else {
        FsKind::Unknown
    }
}

/// Whether the btrfs at `offset` counts more than one device.
pub open spec fn btrfs_spans_devices<D: ReadSeek>(dev: D, offset: u64) -> bool {
    let sb = device::window(dev, (offset + 0x10000) as u64, 0x90);
    sb.len() == 0x90 && bytes::le_at(sb, 0x88, 8) > 1
}

/// Whether the btrfs at `part_offset` counts more than one device: it cannot
/// be grown in one go, since `resize max` goes by the device.
pub fn btrfs_multi_device<D: ReadSeek>(dev: &D, part_offset: u64) -> (r: bool)
    requires
        part_offset + 0x10000 <= u64::MAX,
    ensures
        r == btrfs_spans_devices(*dev, part_offset),
{
    let sb = device::read(dev, part_offset + 0x10000, 0x90);
    sb.len() == 0x90 && le64(&sb, 0x88) > 1
}

/// What a swap area carries besides its pages.
#[derive(Debug, Clone)]
pub struct SwapInfo {
    /// 32 hexadecimal digits.
    pub uuid: String,
    pub label: String,
}

#[verifier::ext_equal]
pub struct SwapView {
    pub uuid: Seq<char>,
    pub label: Seq<char>,
}

impl View for SwapInfo {
    type V = SwapView;

    open spec fn view(&self) -> SwapView {
        SwapView { uuid: self.uuid@, label: self.label@ }
    }
}

pub open spec fn swap_info_view(s: Option<SwapInfo>) -> Option<SwapView> {
    match s {
        Some(s) => Some(s@),
        None => None,
    }
}

/// The hexadecimal digits of the first `n` bytes of `s`.
pub open spec fn hex_row(s: Seq<u8>, n: nat) -> Seq<char>
    decreases n,
{
    if n == 0 {
        seq![]
    } else {
        hex_row(s, (n - 1) as nat) + text::hex2(s[n - 1])
    }
}

/// The position of the first zero in `s`, or its length.
pub open spec fn zero_at(s: Seq<u8>) -> int
    decreases s.len(),
{
    if s.len() == 0 || s[0] == 0 {
        0
    } else {
        1 + zero_at(s.skip(1))
    }
}

/// The bytes of the label in the first page of a swap area.
pub open spec fn swap_label_bytes(page: Seq<u8>) -> Seq<u8> {
    let field = page.subrange(1052, 1068);
    field.take(zero_at(field))
}

/// What the first page of a swap area says, where `label` is the text of its
/// label.
pub open spec fn swap_page_info(page: Seq<u8>, label: Seq<char>) -> Option<SwapView> {
    if swap_magic(page) {
        Some(SwapView { uuid: hex_row(page.skip(1036), 16), label: text::trim(label) })
    } else {
        None
    }
}

/// The swap area at `offset` of a disk.
pub open spec fn swap_at<D: ReadSeek>(dev: D, offset: u64) -> Option<SwapView> {
    let page = device::window(dev, offset, 65536);
    swap_page_info(page, text::utf8_lossy(swap_label_bytes(page)))
}

proof fn lemma_zero_at(s: Seq<u8>, n: int)
    requires
        0 <= n <= s.len(),
        forall|k: int| 0 <= k < n ==> s[k] != 0,
        n < s.len() ==> s[n] == 0,
    ensures
        zero_at(s) == n,
    decreases s.len(),
{
    if n > 0 {
        assert forall|k: int| 0 <= k < n - 1 implies s.skip(1)[k] != 0 by {
            assert(s[k + 1] != 0);
        }
        lemma_zero_at(s.skip(1), n - 1);
    }
}

proof fn lemma_swap_page_len(page: Seq<u8>)
    requires
        swap_magic(page),
    ensures
        page.len() >= 4096,
{
    reveal_strlit("SWAPSPACE2");
}

proof fn lemma_swap_magic(a: Seq<u8>, b: Seq<u8>)
    requires
        a == device::first_bytes(b, 65536),
    ensures
        swap_magic(a) == swap_magic(b),
{
    let t = "SWAPSPACE2"@;
    reveal_strlit("SWAPSPACE2");
    assert forall|at: int| 0 <= at && at + t.len() <= 65536 implies bytes::text_at(a, at, t)
        == #[trigger] bytes::text_at(b, at, t) by {
        if at + t.len() <= b.len() {
            if bytes::text_at(a, at, t) {
                assert forall|i: int| 0 <= i < t.len() implies b[at + i] as int
                    == #[trigger] t[i] as int by {
                    assert(a[at + i] as int == t[i] as int);
                }
            }
            if bytes::text_at(b, at, t) {
                assert forall|i: int| 0 <= i < t.len() implies a[at + i] as int
                    == #[trigger] t[i] as int by {
                    assert(b[at + i] as int == t[i] as int);
                }
            }
        }
    }
}

/// A swap area can be read wherever one of the three places holds its name, and
/// so wherever a disk looks like swap.
pub proof fn law_sniffed_swap_can_be_read<D: ReadSeek>(dev: D, offset: u64)
    ensures
        swap_at(dev, offset) is Some <==> swap_magic(
            device::window(dev, offset, SNIFF_BYTES as nat),
        ),
        fs_at(dev, offset) is Swap ==> swap_at(dev, offset) is Some,
{
    device::law_shorter_reads_agree(dev, offset, 65536, SNIFF_BYTES as nat);
    lemma_swap_magic(
        device::window(dev, offset, 65536),
        device::window(dev, offset, SNIFF_BYTES as nat),
    );
}

/// What the first page of a swap area says, where `label` is the text of its
/// label.
pub fn swap_info_of(page: &Vec<u8>, label: &str) -> (r: Option<SwapInfo>)
    ensures
        swap_info_view(r) == swap_page_info(page@, label@),
{
    if !is_swap_magic(page) {
        return None;
    }
    proof {
        lemma_swap_page_len(page@);
    }
    let mut uuid = String::new();
    let mut i: usize = 0;
    while i < 16
        invariant
            i <= 16,
            page@.len() >= 4096,
            uuid@ == hex_row(page@.skip(1036), i as nat),
        decreases 16 - i,
    {
        push_hex2(&mut uuid, page[1036 + i]);
        i = i + 1;
    }
    Some(SwapInfo { uuid, label: trimmed_str(label) })
}

/// Reads the swap area at `part_offset`.
pub fn read_swap_info<D: ReadSeek>(dev: &D, part_offset: u64) -> (r: Option<SwapInfo>)
    ensures
        swap_info_view(r) == swap_at(*dev, part_offset),
{
    let page = device::read(dev, part_offset, 65536);
    if !is_swap_magic(&page) {
        return None;
    }
    proof {
        lemma_swap_page_len(page@);
    }
    let mut label: Vec<u8> = Vec::new();
    let ghost field = page@.subrange(1052, 1068);
    let mut i: usize = 0;
    while i < 16 && page[1052 + i] != 0
        invariant
            i <= 16,
            page@.len() >= 4096,
            field == page@.subrange(1052, 1068),
            label@ == field.take(i as int),
            forall|k: int| 0 <= k < i ==> field[k] != 0,
        decreases 16 - i,
    {
        label.push(page[1052 + i]);
        assert(field[i as int] == page@[1052 + i]);
        i = i + 1;
        assert(label@ =~= field.take(i as int));
    }
    proof {
        if i < 16 {
            assert(field[i as int] == page@[1052 + i]);
        }
        lemma_zero_at(field, i as int);
    }
    swap_info_of(&page, from_utf8_lossy(&label).as_str())
}

/// Where the ext filesystem with the superblock `b` ends. Neither its end nor
/// the size of its blocks can be larger than 64 bits count.
pub open spec fn ext_end(b: Seq<u8>) -> Option<u64> {
    let log = bytes::le_at(b, 0x18, 4) as u32;
    let low = bytes::le_at(b, 4, 4);
    let high = bytes::le_at(b, 0x150, 4);
    let wide = (bytes::le_at(b, 0x60, 4) as u32) & 0x80 != 0;
    let blocks = if wide {
        low + 0x1_0000_0000 * high
    } else {
        low
    };
    let size = 1024 * power2::pow2(log as nat);
    if size > u64::MAX || blocks * size > u64::MAX {
        None
    } else {
        Some((blocks * size) as u64)
    }
}

/// Where the NTFS with the boot sector `b` ends.
pub open spec fn ntfs_end(b: Seq<u8>) -> Option<u64> {
    let sector = bytes::le_at(b, 0x0b, 2);
    let cluster = b[0x0d] as nat;
    let long = bytes::le_at(b, 0x28, 8);
    let total = if long == 0 {
        bytes::le_at(b, 0x13, 4)
    } else {
        long
    };
    if sector == 0 || cluster == 0 {
        None
    } else {
        Some(table::sat(table::sat((sector * cluster) as int) * total))
    }
}

/// Where the XFS with the superblock `b` ends.
pub open spec fn xfs_end(b: Seq<u8>) -> Option<u64> {
    let block = bytes::be_at(b, 4, 4);
    let blocks = bytes::be_at(b, 8, 8);
    if block == 0 {
        None
    } else {
        Some(table::sat((block * blocks) as int))
    }
}

/// Where the filesystem at `offset` ends, as far as it says so.
pub open spec fn fs_end<D: ReadSeek>(dev: D, offset: u64) -> Option<u64> {
    let b = device::window(dev, offset, 1024);
    let btrfs = device::window(dev, (offset + 0x10000) as u64, 0x78);
    let ext = device::window(dev, (offset + 1024) as u64, 1024);
    if b.len() < 0x40 {
        None
    } else if btrfs.len() == 0x78 && bytes::text_at(btrfs, 0x40, "_BHRfS_M"@) {
        Some(table::sat(offset + bytes::le_at(btrfs, 0x70, 8)))
    } else if bytes::text_at(b, 3, "NTFS    "@) {
        ntfs_end(b)
    } else if bytes::text_at(b, 0, "XFSB"@) {
        xfs_end(b)
    } else if ext.len() >= 0x160 && two_at(ext, 0x38, 0x53, 0xef) {
        ext_end(ext)
    } else {
        None
    }
}

/// `1024 * 2^log`, where 64 bits can count it.
fn block_size(log: u32) -> (r: Option<u64>)
    ensures
        match r {
            Some(n) => n == 1024 * power2::pow2(log as nat),
            None => 1024 * power2::pow2(log as nat) > u64::MAX,
        },
{
    if log >= 54 {
        proof {
            power2::lemma2_to64_rest();
            if log > 54 {
                power2::lemma_pow2_strictly_increases(54, log as nat);
            }
        }
        return None;
    }
    let mut n: u64 = 1024;
    let mut i: u32 = 0;
    proof {
        power2::lemma2_to64();
        power2::lemma2_to64_rest();
    }
    while i < log
        invariant
            i <= log < 54,
            n == 1024 * power2::pow2(i as nat),
            power2::pow2(53) == 0x20_0000_0000_0000,
        decreases log - i,
    {
        proof {
            power2::lemma_pow2_unfold((i + 1) as nat);
            if i < 52 {
                power2::lemma_pow2_strictly_increases((i + 1) as nat, 53);
            }
        }
        n = 2 * n;
        i = i + 1;
    }
    Some(n)
}

fn read_ext_end(b: &Vec<u8>) -> (r: Option<u64>)
    requires
        b.len() >= 0x160,
    ensures
        r == ext_end(b@),
{
    let log: u32 = le32(b, 0x18);
    let low: u64 = le32(b, 4) as u64;
    let blocks: u64 = if le32(b, 0x60) & 0x80 != 0 {
        low + 0x1_0000_0000 * (le32(b, 0x150) as u64)
    } else {
        low
    };
    let size: u64 = block_size(log)?;
    blocks.checked_mul(size)
}

fn read_ntfs_end(b: &Vec<u8>) -> (r: Option<u64>)
    requires
        b.len() >= 0x40,
    ensures
        r == ntfs_end(b@),
{
    let sector: u64 = le16(b, 0x0b) as u64;
    let cluster: u64 = b[0x0d] as u64;
    let long: u64 = le64(b, 0x28);
    let total: u64 = if long == 0 {
        le32(b, 0x13) as u64
    } else {
        long
    };
    if sector == 0 || cluster == 0 {
        return None;
    }
    Some(sat_mul(sat_mul(sector, cluster), total))
}

/// Estimates where the filesystem at `offset` ends.
pub fn superfloppy_fs_end_bytes<D: ReadSeek>(dev: &D, offset: u64) -> (r: Option<u64>)
    requires
        offset + 0x10000 <= u64::MAX,
    ensures
        r == fs_end(*dev, offset),
{
    let b = device::read(dev, offset, 1024);
    if b.len() < 0x40 {
        return None;
    }
    let btrfs = device::read(dev, offset + 0x10000, 0x78);
    if btrfs.len() == 0x78 && magic(&btrfs, 0x40, "_BHRfS_M") {
        return Some(table::sat_add(offset, le64(&btrfs, 0x70)));
    }
    if magic(&b, 3, "NTFS    ") {
        return read_ntfs_end(&b);
    }
    if magic(&b, 0, "XFSB") {
        let block: u64 = be32(&b, 4) as u64;
        let blocks: u64 = be64(&b, 8);
        if block == 0 {
            return None;
        }
        return Some(sat_mul(block, blocks));
    }
    let ext = device::read(dev, offset + 1024, 1024);
    if ext.len() >= 0x160 && magic2(&ext, 0x38, 0x53, 0xef) {
        return read_ext_end(&ext);
    }
    None
}

/// The bytes of `LABELONE`.
pub open spec fn label_one() -> Seq<u8> {
    seq![0x4cu8, 0x41, 0x42, 0x45, 0x4c, 0x4f, 0x4e, 0x45]
}

/// The bytes of `SWAPSPACE2`.
pub open spec fn swap_space() -> Seq<u8> {
    seq![0x53u8, 0x57, 0x41, 0x50, 0x53, 0x50, 0x41, 0x43, 0x45, 0x32]
}

/// The bytes of `_BHRfS_M`.
pub open spec fn btrfs_name() -> Seq<u8> {
    seq![0x5fu8, 0x42, 0x48, 0x52, 0x66, 0x53, 0x5f, 0x4d]
}

/// The bytes of `NTFS` and four spaces.
pub open spec fn ntfs_name() -> Seq<u8> {
    seq![0x4eu8, 0x54, 0x46, 0x53, 0x20, 0x20, 0x20, 0x20]
}

/// Whether `b`, the first bytes of a filesystem, hold the magic of a kind.
pub open spec fn carries(b: Seq<u8>, kind: FsKind) -> bool {
    match kind {
        FsKind::Xfs => bytes::holds(b, 0, seq![0x58u8, 0x46, 0x53, 0x42]),
        FsKind::Ext => bytes::holds(b, 0x438, seq![0x53u8, 0xef]),
        FsKind::Ntfs => bytes::holds(b, 3, ntfs_name()),
        FsKind::Btrfs => bytes::holds(b, 0x10040, btrfs_name()),
        FsKind::Luks => bytes::holds(b, 0, seq![0x4cu8, 0x55, 0x4b, 0x53, 0xba, 0xbe]),
        FsKind::Lvm => {
            let m = label_one();
            bytes::holds(b, 0, m) || bytes::holds(b, 0x200, m) || bytes::holds(b, 0x400, m)
                || bytes::holds(b, 0x600, m)
        },
        FsKind::Exfat => bytes::holds(b, 3, seq![0x45u8, 0x58, 0x46, 0x41, 0x54]),
        FsKind::Fat => {
            let m = seq![0x46u8, 0x41, 0x54];
            bytes::holds(b, 0x36, m) || bytes::holds(b, 0x52, m)
        },
        FsKind::Swap => {
            let m = swap_space();
            bytes::holds(b, 0xff6, m) || bytes::holds(b, 0x1ffa, m) || bytes::holds(b, 0xfff6, m)
        },
        FsKind::Iso9660 => bytes::holds(b, 0x8001, seq![0x43u8, 0x44, 0x30, 0x30, 0x31]),
        FsKind::Unknown => true,
    }
}

/// Where several kinds have left their magic, the one that is tried first
/// counts.
pub open spec fn turn(kind: FsKind) -> int {
    match kind {
        FsKind::Xfs => 0,
        FsKind::Ext => 1,
        FsKind::Ntfs => 2,
        FsKind::Btrfs => 3,
        FsKind::Luks => 4,
        FsKind::Lvm => 5,
        FsKind::Exfat => 6,
        FsKind::Fat => 7,
        FsKind::Swap => 8,
        FsKind::Iso9660 => 9,
        FsKind::Unknown => 10,
    }
}

proof fn lemma_luks(b: Seq<u8>)
    ensures
        (bytes::text_at(b, 0, "LUKS"@) && two_at(b, 4, 0xba, 0xbe)) == carries(b, FsKind::Luks),
{
    reveal_strlit("LUKS");
    let m = seq![0x4cu8, 0x55, 0x4b, 0x53];
    let all = seq![0x4cu8, 0x55, 0x4b, 0x53, 0xba, 0xbe];
    bytes::lemma_text_is_bytes(b, 0, "LUKS"@, m);
    if b.len() >= 6 {
        assert(b.subrange(0, 6).take(4) =~= b.subrange(0, 4));
        assert(all.take(4) =~= m);
        assert(b[4] == b.subrange(0, 6)[4] && b[5] == b.subrange(0, 6)[5]);
        if bytes::text_at(b, 0, "LUKS"@) && two_at(b, 4, 0xba, 0xbe) {
            assert forall|i: int| 0 <= i < 6 implies b.subrange(0, 6)[i] == all[i] by {
                if i < 4 {
                    assert(b.subrange(0, 4)[i] == m[i]);
                }
            }
            assert(b.subrange(0, 6) =~= all);
        }
    }
}

proof fn lemma_ext(b: Seq<u8>)
    ensures
        two_at(b, 0x438, 0x53, 0xef) == carries(b, FsKind::Ext),
{
    let m = seq![0x53u8, 0xef];
    if two_at(b, 0x438, 0x53, 0xef) {
        assert(b.subrange(0x438, 0x43a) =~= m);
    }
    if bytes::holds(b, 0x438, m) {
        assert(b.subrange(0x438, 0x43a)[0] == m[0] && b.subrange(0x438, 0x43a)[1] == m[1]);
    }
}

proof fn lemma_magics(b: Seq<u8>)
    ensures
        bytes::text_at(b, 0, "XFSB"@) == bytes::holds(b, 0, seq![0x58u8, 0x46, 0x53, 0x42]),
        bytes::text_at(b, 3, "NTFS    "@) == bytes::holds(b, 3, ntfs_name()),
        bytes::text_at(b, 0x10040, "_BHRfS_M"@) == bytes::holds(b, 0x10040, btrfs_name()),
        bytes::text_at(b, 0, "LABELONE"@) == bytes::holds(b, 0, label_one()),
        bytes::text_at(b, 0x200, "LABELONE"@) == bytes::holds(b, 0x200, label_one()),
        bytes::text_at(b, 0x400, "LABELONE"@) == bytes::holds(b, 0x400, label_one()),
        bytes::text_at(b, 0x600, "LABELONE"@) == bytes::holds(b, 0x600, label_one()),
        bytes::text_at(b, 3, "EXFAT"@) == bytes::holds(b, 3, seq![0x45u8, 0x58, 0x46, 0x41, 0x54]),
        bytes::text_at(b, 0x36, "FAT"@) == bytes::holds(b, 0x36, seq![0x46u8, 0x41, 0x54]),
        bytes::text_at(b, 0x52, "FAT"@) == bytes::holds(b, 0x52, seq![0x46u8, 0x41, 0x54]),
        bytes::text_at(b, 0xff6, "SWAPSPACE2"@) == bytes::holds(b, 0xff6, swap_space()),
        bytes::text_at(b, 0x1ffa, "SWAPSPACE2"@) == bytes::holds(b, 0x1ffa, swap_space()),
        bytes::text_at(b, 0xfff6, "SWAPSPACE2"@) == bytes::holds(b, 0xfff6, swap_space()),
        bytes::text_at(b, 0x8001, "CD001"@) == bytes::holds(b, 0x8001, seq![0x43u8, 0x44, 0x30, 0x30, 0x31]),
{
    reveal_strlit("CD001");
    reveal_strlit("EXFAT");
    reveal_strlit("FAT");
    reveal_strlit("LABELONE");
    reveal_strlit("NTFS    ");
    reveal_strlit("SWAPSPACE2");
    reveal_strlit("XFSB");
    reveal_strlit("_BHRfS_M");
    bytes::lemma_text_is_bytes(b, 0, "XFSB"@, seq![0x58u8, 0x46, 0x53, 0x42]);
    bytes::lemma_text_is_bytes(b, 3, "NTFS    "@, ntfs_name());
    bytes::lemma_text_is_bytes(b, 0x10040, "_BHRfS_M"@, btrfs_name());
    bytes::lemma_text_is_bytes(b, 0, "LABELONE"@, label_one());
    bytes::lemma_text_is_bytes(b, 0x200, "LABELONE"@, label_one());
    bytes::lemma_text_is_bytes(b, 0x400, "LABELONE"@, label_one());
    bytes::lemma_text_is_bytes(b, 0x600, "LABELONE"@, label_one());
    bytes::lemma_text_is_bytes(b, 3, "EXFAT"@, seq![0x45u8, 0x58, 0x46, 0x41, 0x54]);
    bytes::lemma_text_is_bytes(b, 0x36, "FAT"@, seq![0x46u8, 0x41, 0x54]);
    bytes::lemma_text_is_bytes(b, 0x52, "FAT"@, seq![0x46u8, 0x41, 0x54]);
    bytes::lemma_text_is_bytes(b, 0xff6, "SWAPSPACE2"@, swap_space());
    bytes::lemma_text_is_bytes(b, 0x1ffa, "SWAPSPACE2"@, swap_space());
    bytes::lemma_text_is_bytes(b, 0xfff6, "SWAPSPACE2"@, swap_space());
    bytes::lemma_text_is_bytes(b, 0x8001, "CD001"@, seq![0x43u8, 0x44, 0x30, 0x30, 0x31]);
}

/// A filesystem is of the kind whose magic its first bytes hold; of several
/// magics the one whose turn comes first counts, and without any the kind is
/// unknown.
pub proof fn law_filesystems_are_known_by_their_magic<D: ReadSeek>(dev: D, offset: u64, kind: FsKind)
    ensures
        ({
            let b = device::window(dev, offset, 0x10048);
            let found = fs_at(dev, offset);
            carries(b, found) && (carries(b, kind) ==> turn(found) <= turn(kind))
        }),
{
    let b = device::window(dev, offset, 0x10048);
    lemma_magics(b);
    lemma_luks(b);
    lemma_ext(b);
}

proof fn lemma_hex_row(s: Seq<u8>, n: nat)
    ensures
        hex_row(s, n).len() == 2 * n,
        forall|i: int|
            0 <= i < n ==> hex_row(s, n).subrange(2 * i, 2 * i + 2) == text::hex2(#[trigger] s[i]),
    decreases n,
{
    if n > 0 {
        lemma_hex_row(s, (n - 1) as nat);
        let before = hex_row(s, (n - 1) as nat);
        let all = hex_row(s, n);
        assert forall|i: int| 0 <= i < n implies all.subrange(2 * i, 2 * i + 2) == text::hex2(
            #[trigger] s[i],
        ) by {
            if i < n - 1 {
                assert(all.subrange(2 * i, 2 * i + 2) =~= before.subrange(2 * i, 2 * i + 2));
            } else {
                assert(all.subrange(2 * i, 2 * i + 2) =~= text::hex2(s[i]));
            }
        }
    }
}

proof fn lemma_zero_found(s: Seq<u8>)
    ensures
        0 <= zero_at(s) <= s.len(),
        forall|k: int| 0 <= k < zero_at(s) ==> #[trigger] s[k] != 0,
        zero_at(s) < s.len() ==> s[zero_at(s)] == 0,
    decreases s.len(),
{
    if s.len() > 0 && s[0] != 0 {
        let r = s.skip(1);
        lemma_zero_found(r);
        assert forall|k: int| 0 <= k < zero_at(s) implies #[trigger] s[k] != 0 by {
            if k > 0 {
                assert(r[k - 1] == s[k]);
            }
        }
        if zero_at(s) < s.len() {
            assert(r[zero_at(r)] == s[zero_at(s)]);
        }
    }
}

/// A swap area keeps its own name: the digits are those of the 16 bytes from
/// 1036 on, and the label is the text of the bytes from 1052 on up to a zero,
/// 16 at most, without white space around it.
pub proof fn law_swap_says_its_own_name<D: ReadSeek>(dev: D, offset: u64)
    ensures
        swap_at(dev, offset) matches Some(v) ==> {
            let page = device::window(dev, offset, 65536);
            &&& page.len() >= 4096
            &&& v.uuid.len() == 32
            &&& forall|i: int|
                0 <= i < 16 ==> v.uuid.subrange(2 * i, 2 * i + 2) == text::hex2(
                    #[trigger] page[1036 + i],
                )
            &&& exists|n: int|
                {
                    &&& 0 <= n <= 16
                    &&& forall|k: int| 0 <= k < n ==> #[trigger] page[1052 + k] != 0
                    &&& n < 16 ==> page[1052 + n] == 0
                    &&& v.label == text::trim(
                        text::utf8_lossy(#[trigger] page.subrange(1052, 1052 + n)),
                    )
                }
        },
{
    let page = device::window(dev, offset, 65536);
    if let Some(v) = swap_at(dev, offset) {
        lemma_swap_page_len(page);
        let id = page.skip(1036);
        lemma_hex_row(id, 16);
        assert forall|i: int| 0 <= i < 16 implies v.uuid.subrange(2 * i, 2 * i + 2) == text::hex2(
            #[trigger] page[1036 + i],
        ) by {
            assert(id[i] == page[1036 + i]);
        }
        let field = page.subrange(1052, 1068);
        lemma_zero_found(field);
        let n = zero_at(field);
        assert forall|k: int| 0 <= k < n implies #[trigger] page[1052 + k] != 0 by {
            assert(field[k] == page[1052 + k]);
        }
        if n < 16 {
            assert(field[n] == page[1052 + n]);
        }
        assert(field.take(n) =~= page.subrange(1052, 1052 + n));
    }
}

/// A filesystem ends behind as many blocks as its superblock counts: the end
/// that is estimated is the product, where 64 bits can count it.
pub proof fn law_ends_are_counted_in_blocks<D: ReadSeek>(dev: D, offset: u64)
    requires
        offset + 0x10000 <= u64::MAX,
    ensures
        ({
            let b = device::window(dev, offset, 1024);
            let btrfs = device::window(dev, (offset + 0x10000) as u64, 0x78);
            let ext = device::window(dev, (offset + 1024) as u64, 1024);
            let is_btrfs = btrfs.len() == 0x78 && bytes::holds(btrfs, 0x40, btrfs_name());
            let is_ntfs = bytes::holds(b, 3, ntfs_name());
            let is_xfs = bytes::holds(b, 0, seq![0x58u8, 0x46, 0x53, 0x42]);
            let is_ext = ext.len() >= 0x160 && ext[0x38] == 0x53 && ext[0x39] == 0xef;
            let end = fs_end(dev, offset);
            if b.len() < 64 {
                end is None
            } else if is_btrfs {
                let total = offset + bytes::le_at(btrfs, 0x70, 8);
                end is Some && (total <= u64::MAX ==> end == Some(total as u64))
            } else if is_ntfs {
                let cluster = bytes::le_at(b, 11, 2) * b[13];
                let sectors = if bytes::le_at(b, 40, 8) != 0 {
                    bytes::le_at(b, 40, 8)
                } else {
                    bytes::le_at(b, 19, 4)
                };
                &&& end is Some <==> cluster != 0
                &&& cluster != 0 && cluster * sectors <= u64::MAX ==> end == Some(
                    (cluster * sectors) as u64,
                )
            } else if is_xfs {
                let block = bytes::be_at(b, 4, 4);
                let blocks = bytes::be_at(b, 8, 8);
                &&& end is Some <==> block != 0
                &&& block != 0 && block * blocks <= u64::MAX ==> end == Some(
                    (block * blocks) as u64,
                )
            } else if is_ext {
                let block = 1024 * power2::pow2(bytes::le_at(ext, 0x18, 4));
                let blocks = if (ext[0x60] & 0x80u8) != 0 {
                    bytes::le_at(ext, 4, 4) + 0x1_0000_0000 * bytes::le_at(ext, 0x150, 4)
                } else {
                    bytes::le_at(ext, 4, 4)
                };
                if block <= u64::MAX && blocks * block <= u64::MAX {
                    end == Some((blocks * block) as u64)
                } else {
                    end is None
                }
            } else {
                end is None
            }
        }),
{
    let b = device::window(dev, offset, 1024);
    let btrfs = device::window(dev, (offset + 0x10000) as u64, 0x78);
    let ext = device::window(dev, (offset + 1024) as u64, 1024);
    reveal_strlit("_BHRfS_M");
    reveal_strlit("NTFS    ");
    reveal_strlit("XFSB");
    bytes::lemma_text_is_bytes(btrfs, 0x40, "_BHRfS_M"@, btrfs_name());
    bytes::lemma_text_is_bytes(b, 3, "NTFS    "@, ntfs_name());
    bytes::lemma_text_is_bytes(b, 0, "XFSB"@, seq![0x58u8, 0x46, 0x53, 0x42]);
    lemma_cluster(b);
    lemma_wide(ext);
    let cluster = bytes::le_at(b, 11, 2) * b[13];
    let sectors = if bytes::le_at(b, 40, 8) != 0 {
        bytes::le_at(b, 40, 8)
    } else {
        bytes::le_at(b, 19, 4)
    };
    assert(cluster * sectors >= 0) by (nonlinear_arith)
        requires
            cluster >= 0,
            sectors >= 0,
    ;
}

proof fn lemma_cluster(b: Seq<u8>)
    ensures
        0 <= bytes::le_at(b, 11, 2) * b[13] <= 0xffff * 0xff,
        bytes::le_at(b, 11, 2) * b[13] == 0 <==> bytes::le_at(b, 11, 2) == 0 || b[13] == 0,
{
    reveal_with_fuel(bytes::le_at, 3);
    let x = bytes::le_at(b, 11, 2) as int;
    let y = b[13] as int;
    assert(0 <= x * y <= 0xffff * 0xff && (x * y == 0 <==> x == 0 || y == 0)) by (nonlinear_arith)
        requires
            0 <= x <= 0xffff,
            0 <= y <= 0xff,
    ;
}

proof fn lemma_wide(b: Seq<u8>)
    ensures
        bytes::le_at(b, 0x60, 4) <= u32::MAX,
        bytes::le_at(b, 0x18, 4) <= u32::MAX,
        ((bytes::le_at(b, 0x60, 4) as u32) & 0x80 != 0) <==> (b[0x60] & 0x80u8) != 0,
{
    reveal_with_fuel(bytes::le_at, 5);
    let n = bytes::le_at(b, 0x60, 4) as u32;
    let low = b[0x60];
    assert(n % 256 == low as u32);
    assert(n % 256 == low as u32 ==> ((n & 0x80 != 0) <==> (low & 0x80u8) != 0)) by (bit_vector);
}

} // verus!
