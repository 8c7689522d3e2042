//! What to grow on a disk, found out without changing it.
//!
//! A partition that holds data never moves. So only the partition that ends
//! last can grow, or, where that one is swap, the one that ends before it: swap
//! can be deleted and made anew.
//!
//! Sizes of devices and partitions count sectors of 512 bytes, as the kernel
//! does; places in a partition table count blocks (`lba`) of `lba_bytes` bytes.
use super::device;
use super::device::ReadSeek;
use super::fs;
use super::fs::{
    btrfs_multi_device, read_swap_info, sniff_fs, superfloppy_fs_end_bytes, FsKind, SwapInfo,
};
use super::policy::{GrowPolicy, PartSpec, PolicyView};
use super::table;
use super::table::{parse_table, sat_add, sat_mul, EntryView, Label, PartEntry, PartTable, TableView};
use crate::text;
use crate::text::{chars_of, push_decimal};
use crate::utils::{MAX_SECTORS, SECTOR};
use vstd::prelude::*;
use vstd::string::*;

verus! {

/// Less than 1 MiB behind the last partition is not worth growing into.
pub const MIN_FREE_SECTORS: u64 = 2048;

/// A block address as a number of 512-byte sectors.
pub open spec fn lba_sectors(lba: u64, lba_bytes: u64) -> u64 {
    table::sat(lba * lba_bytes) / SECTOR
}

/// A block address as an offset in bytes.
pub open spec fn lba_offset(lba: u64, lba_bytes: u64) -> u64 {
    table::sat(lba * lba_bytes)
}

/// A number of 512-byte sectors as a number of whole blocks.
pub open spec fn sectors_lba(sectors: u64, lba_bytes: u64) -> u64 {
    table::sat(sectors * SECTOR) / lba_bytes
}

pub fn lba_to_sysfs(lba: u64, lba_bytes: u64) -> (r: u64)
    ensures
        r == lba_sectors(lba, lba_bytes),
{
    sat_mul(lba, lba_bytes) / SECTOR
}

pub fn lba_to_bytes(lba: u64, lba_bytes: u64) -> (r: u64)
    ensures
        r == lba_offset(lba, lba_bytes),
{
    sat_mul(lba, lba_bytes)
}

pub fn sysfs_to_lba(sectors: u64, lba_bytes: u64) -> (r: u64)
    requires
        lba_bytes > 0,
    ensures
        r == sectors_lba(sectors, lba_bytes),
{
    sat_mul(sectors, SECTOR) / lba_bytes
}

/// The kernel puts a `p` between the name of a disk and the number of a
/// partition where the name ends in a digit.
pub open spec fn part_name(disk: Seq<char>, num: u32) -> Seq<char> {
    if disk.len() > 0 && text::is_digit(disk.last()) {
        disk + "p"@ + text::decimal(num as nat)
    } else {
        disk + text::decimal(num as nat)
    }
}

pub fn part_dev_name(disk_name: &str, num: u32) -> (r: String)
    ensures
        r@ == part_name(disk_name@, num),
{
    let v = chars_of(disk_name);
    let mut s = disk_name.to_owned();
    if v.len() > 0 {
        let c: char = v[v.len() - 1];
        if '0' <= c && c <= '9' {
            s.append("p");
        }
    }
    push_decimal(&mut s, num as u64);
    s
}

/// The device node of a partition.
pub open spec fn part_node(disk: Seq<char>, num: u32) -> Seq<char> {
    "/dev/"@ + part_name(disk, num)
}

pub fn part_node_of(disk_name: &str, num: u32) -> (r: String)
    ensures
        r@ == part_node(disk_name@, num),
{
    let mut s = "/dev/".to_owned();
    s.append(part_dev_name(disk_name, num).as_str());
    s
}

/// What stands behind the last slash of a path.
pub open spec fn base_name(s: Seq<char>) -> Seq<char>
    decreases s.len(),
{
    if s.len() == 0 || s.last() == '/' {
        seq![]
    } else {
        base_name(s.drop_last()).push(s.last())
    }
}

/// The kernel's name for the disk at a device node.
pub fn disk_name_of(disk_dev: &str) -> (r: String)
    ensures
        r@ == base_name(disk_dev@),
{
    let v = chars_of(disk_dev);
    let mut i: usize = v.len();
    proof {
        assert(v@.take(i as int) =~= v@);
        assert(base_name(v@) + v@.skip(i as int) =~= base_name(v@));
    }
    while i > 0 && v[i - 1] != '/'
        invariant
            i <= v@.len(),
            base_name(v@) == base_name(v@.take(i as int)) + v@.skip(i as int),
        decreases i,
    {
        proof {
            let t = v@.take(i as int);
            assert(t.drop_last() =~= v@.take(i - 1));
            assert(t.last() == v@[i - 1]);
            assert(base_name(t) + v@.skip(i as int) =~= base_name(v@.take(i - 1)) + v@.skip(
                i - 1,
            ));
        }
        i = i - 1;
    }
    proof {
        let t = v@.take(i as int);
        assert(i > 0 ==> t.last() == v@[i - 1]);
        assert(base_name(t) =~= Seq::<char>::empty());
        assert(base_name(t) + v@.skip(i as int) =~= v@.skip(i as int));
        assert(v@.skip(i as int) =~= v@.subrange(i as int, v@.len() as int));
    }
    text::string_of(&text::part(&v, i, v.len()))
}

/// How a root partition grows past the swap behind it: swap is deleted, root
/// grows, and swap comes back at the end of the disk.
#[derive(Debug, Clone)]
pub struct SurgeryPlan {
    pub swap_num: u32,
    pub root_num: u32,
    pub root_first_lba: u64,
    pub root_ptype: String,
    pub swap_first_lba: u64,
    pub swap_sectors: u64,
    pub swap_ptype: String,
    pub swap_uuid: String,
    pub swap_label: String,
    /// GPT: the GUID of the swap partition.
    pub swap_partuuid: Option<String>,
}

#[derive(Debug, Clone)]
pub enum GrowAction {
    /// Grow a partition, then its filesystem.
    PartitionGrow {
        part_num: u32,
        part_dev: String,
        fs: FsKind,
        surgery: Option<SurgeryPlan>,
        /// The largest size the partition can get, in 512-byte sectors. With
        /// surgery it is only known once the backup header has moved.
        expected_new_sectors: Option<u64>,
        old_sectors: u64,
        is_gpt: bool,
    },
    /// There is no partition table: grow the filesystem.
    FilesystemOnly { fs: FsKind, fs_dev: String },
}

#[derive(Debug, Clone)]
pub struct GrowPlan {
    pub action: Option<GrowAction>,
    pub skip_reason: Option<String>,
}

#[verifier::ext_equal]
pub struct SurgeryView {
    pub swap_num: u32,
    pub root_num: u32,
    pub root_first_lba: u64,
    pub root_ptype: Seq<char>,
    pub swap_first_lba: u64,
    pub swap_sectors: u64,
    pub swap_ptype: Seq<char>,
    pub swap_uuid: Seq<char>,
    pub swap_label: Seq<char>,
    pub swap_partuuid: Option<Seq<char>>,
}

#[verifier::ext_equal]
pub enum ActionView {
    PartitionGrow {
        part_num: u32,
        part_dev: Seq<char>,
        fs: FsKind,
        surgery: Option<SurgeryView>,
        expected_new_sectors: Option<u64>,
        old_sectors: u64,
        is_gpt: bool,
    },
    FilesystemOnly { fs: FsKind, fs_dev: Seq<char> },
}

#[verifier::ext_equal]
pub struct PlanView {
    pub action: Option<ActionView>,
    pub skip_reason: Option<Seq<char>>,
}

impl View for SurgeryPlan {
    type V = SurgeryView;

    open spec fn view(&self) -> SurgeryView {
        SurgeryView {
            swap_num: self.swap_num,
            root_num: self.root_num,
            root_first_lba: self.root_first_lba,
            root_ptype: self.root_ptype@,
            swap_first_lba: self.swap_first_lba,
            swap_sectors: self.swap_sectors,
            swap_ptype: self.swap_ptype@,
            swap_uuid: self.swap_uuid@,
            swap_label: self.swap_label@,
            swap_partuuid: text::opt_text(self.swap_partuuid),
        }
    }
}

pub open spec fn surgery_view(s: Option<SurgeryPlan>) -> Option<SurgeryView> {
    match s {
        Some(s) => Some(s@),
        None => None,
    }
}

impl View for GrowAction {
    type V = ActionView;

    open spec fn view(&self) -> ActionView {
        match self {
            GrowAction::PartitionGrow {
                part_num,
                part_dev,
                fs,
                surgery,
                expected_new_sectors,
                old_sectors,
                is_gpt,
            } => ActionView::PartitionGrow {
                part_num: *part_num,
                part_dev: part_dev@,
                fs: *fs,
                surgery: surgery_view(*surgery),
                expected_new_sectors: *expected_new_sectors,
                old_sectors: *old_sectors,
                is_gpt: *is_gpt,
            },
            GrowAction::FilesystemOnly { fs, fs_dev } => ActionView::FilesystemOnly {
                fs: *fs,
                fs_dev: fs_dev@,
            },
        }
    }
}

pub open spec fn action_view(a: Option<GrowAction>) -> Option<ActionView> {
    match a {
        Some(a) => Some(a@),
        None => None,
    }
}

impl View for GrowPlan {
    type V = PlanView;

    open spec fn view(&self) -> PlanView {
        PlanView { action: action_view(self.action), skip_reason: text::opt_text(self.skip_reason) }
    }
}

/// The filesystems that can grow where they stand.
pub open spec fn growable(fs: FsKind) -> bool {
    fs is Ext || fs is Xfs || fs is Ntfs || fs is Btrfs || fs is Lvm
}

pub fn is_growable(fs: FsKind) -> (r: bool)
    ensures
        r == growable(fs),
{
    match fs {
        FsKind::Ext | FsKind::Xfs | FsKind::Ntfs | FsKind::Btrfs | FsKind::Lvm => true,
        _ => false,
    }
}

pub open spec fn unsupported(fs: FsKind) -> Seq<char> {
    match fs {
        FsKind::Luks => "LUKS encryption not supported"@,
        FsKind::Fat | FsKind::Exfat => "FAT/exFAT cannot be resized in place"@,
        FsKind::Iso9660 => "ISO9660 filesystem"@,
        FsKind::Swap => "swap on superfloppy is not growable"@,
        FsKind::Unknown => "unknown filesystem"@,
        _ => "unsupported filesystem"@,
    }
}

fn unsupported_reason(fs: FsKind) -> (r: &'static str)
    ensures
        r@ == unsupported(fs),
{
    match fs {
        FsKind::Luks => "LUKS encryption not supported",
        FsKind::Fat | FsKind::Exfat => "FAT/exFAT cannot be resized in place",
        FsKind::Iso9660 => "ISO9660 filesystem",
        FsKind::Swap => "swap on superfloppy is not growable",
        FsKind::Unknown => "unknown filesystem",
        _ => "unsupported filesystem",
    }
}

pub open spec fn skipped(reason: Seq<char>) -> PlanView {
    PlanView { action: None, skip_reason: Some(reason) }
}

fn skip(reason: &str) -> (r: GrowPlan)
    ensures
        r@ == skipped(reason@),
{
    GrowPlan { action: None, skip_reason: Some(reason.to_owned()) }
}

/// Which of the first `n` entries, `except` aside, ends last; of those that end
/// at the same block, the latest in the table. Below zero where there is none.
pub open spec fn ends_last(es: Seq<EntryView>, except: int, n: nat) -> int
    decreases n,
{
    if n == 0 {
        -1
    } else {
        let before = ends_last(es, except, (n - 1) as nat);
        if n - 1 == except {
            before
        } else if before < 0 || es[before].last_lba <= es[n - 1].last_lba {
            n - 1
        } else {
            before
        }
    }
}

/// The entry that ends last.
pub open spec fn last_index(es: Seq<EntryView>) -> int {
    ends_last(es, -1, es.len())
}

/// The entry that ends last but one.
pub open spec fn prev_index(es: Seq<EntryView>) -> int {
    ends_last(es, last_index(es), es.len())
}

fn find_ends_last(es: &Vec<PartEntry>, except: Option<usize>) -> (r: Option<usize>)
    ensures
        ({
            let x = match except {
                Some(i) => i as int,
                None => -1int,
            };
            let k = ends_last(table::entry_views(es@), x, es@.len());
            match r {
                Some(i) => i == k && i < es@.len(),
                None => k < 0,
            }
        }),
{
    let ghost v = table::entry_views(es@);
    let ghost x = match except {
        Some(i) => i as int,
        None => -1int,
    };
    let mut best: Option<usize> = None;
    let mut i: usize = 0;
    while i < es.len()
        invariant
            i <= es@.len(),
            v == table::entry_views(es@),
            x == (match except {
                Some(i) => i as int,
                None => -1int,
            }),
            match best {
                Some(b) => b == ends_last(v, x, i as nat) && b < i,
                None => ends_last(v, x, i as nat) < 0,
            },
        decreases es@.len() - i,
    {
        let skipped = match except {
            Some(e) => e == i,
            None => false,
        };
        if !skipped {
            let better = match best {
                Some(b) => es[b].last_lba <= es[i].last_lba,
                None => true,
            };
            if better {
                best = Some(i);
            }
        }
        i = i + 1;
    }
    best
}

/// The number of `size`-byte blocks that `n` bytes fill or begin.
pub open spec fn blocks_for(n: int, size: int) -> int {
    (n + size - 1) / size
}

/// Where the space for partitions ends, in sectors: a GPT keeps room for its
/// backup behind it, and an MBR counts blocks in 32 bits.
pub open spec fn usable_sectors(t: TableView, device_sectors: u64, lba_bytes: u64) -> u64 {
    if t.label is Gpt {
        let (n, size) = match t.gpt_meta {
            Some(m) => m,
            None => (128, 128),
        };
        let reserved = lba_sectors((1 + blocks_for(n * size, lba_bytes as int)) as u64, lba_bytes);
        if reserved <= device_sectors {
            (device_sectors - reserved) as u64
        } else {
            0
        }
    } else {
        let limit = lba_sectors(0x1_0000_0000, lba_bytes);
        if device_sectors <= limit {
            device_sectors
        } else {
            limit
        }
    }
}

fn usable_end(t: &PartTable, device_sectors: u64, lba_bytes: u64) -> (r: u64)
    requires
        t.label is Gpt ==> lba_bytes > 0,
    ensures
        r == usable_sectors(t@, device_sectors, lba_bytes),
{
    match t.label {
        Label::Gpt => {
            let (n, size): (u32, u32) = match t.gpt_meta {
                Some(m) => m,
                None => (128, 128),
            };
            assert(0 <= n * size <= 0xffff_ffff * 0xffff_ffff) by (nonlinear_arith)
                requires
                    n <= 0xffff_ffff,
                    size <= 0xffff_ffff,
            ;
            let total: u64 = n as u64 * size as u64;
            let whole: u64 = total / lba_bytes;
            let blocks: u64 = if total % lba_bytes == 0 {
                whole
            } else {
                whole + 1
            };
            proof {
                lemma_blocks_for(total as int, lba_bytes as int);
            }
            let reserved: u64 = lba_to_sysfs(1 + blocks, lba_bytes);
            if reserved <= device_sectors {
                device_sectors - reserved
            } else {
                0
            }
        },
        _ => {
            let limit: u64 = lba_to_sysfs(0x1_0000_0000, lba_bytes);
            if device_sectors <= limit {
                device_sectors
            } else {
                limit
            }
        },
    }
}

proof fn lemma_blocks_for(n: int, size: int)
    requires
        0 <= n,
        0 < size,
    ensures
        n / size <= n,
        blocks_for(n, size) == if n % size == 0 {
            n / size
        } else {
            n / size + 1
        },
{
    vstd::arithmetic::div_mod::lemma_fundamental_div_mod(n, size);
    let q = n / size;
    let r = n % size;
    assert(0 <= r < size) by {
        vstd::arithmetic::div_mod::lemma_mod_bound(n, size);
    }
    assert(q >= 0 && q <= n) by (nonlinear_arith)
        requires
            n == size * q + r,
            0 <= r < size,
            0 <= n,
            size > 0,
    ;
    if r == 0 {
        assert(n + size - 1 == q * size + (size - 1)) by (nonlinear_arith)
            requires
                n == size * q,
        ;
        vstd::arithmetic::div_mod::lemma_fundamental_div_mod_converse(
            n + size - 1,
            size,
            q,
            size - 1,
        );
    } else {
        assert(n + size - 1 == size * (q + 1) + (r - 1)) by (nonlinear_arith)
            requires
                n == size * q + r,
        ;
        vstd::arithmetic::div_mod::lemma_fundamental_div_mod_converse(
            n + size - 1,
            size,
            q + 1,
            r - 1,
        );
    }
}

/// The free sectors behind a partition.
pub open spec fn free_behind(usable: u64, e: EntryView, lba_bytes: u64) -> int {
    let end = lba_sectors(table::sat(e.last_lba + 1), lba_bytes);
    if end <= usable {
        usable - end
    } else {
        0
    }
}

/// What to do on a disk of `size` bytes that a filesystem fills without a
/// partition table, where the filesystem says that it ends at `end`.
pub open spec fn decided_floppy(
    kind: FsKind,
    spans: bool,
    end: Option<u64>,
    path: Seq<char>,
    size: u64,
) -> PlanView {
    if !growable(kind) {
        skipped(unsupported(kind))
    } else if kind is Btrfs && spans {
        skipped("btrfs multi-device filesystem"@)
    } else if end matches Some(end) && size - end < MIN_FREE_SECTORS * SECTOR {
        skipped("no free space after filesystem"@)
    } else {
        PlanView {
            action: Some(ActionView::FilesystemOnly { fs: kind, fs_dev: path }),
            skip_reason: None,
        }
    }
}

/// What to do on a disk without a partition table.
pub open spec fn floppy_plan<D: ReadSeek>(
    dev: D,
    path: Seq<char>,
    device_sectors: u64,
) -> PlanView {
    decided_floppy(
        fs::fs_at(dev, 0),
        fs::btrfs_spans_devices(dev, 0),
        fs::fs_end(dev, 0),
        path,
        table::sat(device_sectors * SECTOR),
    )
}

/// What is said where the policy names another partition than the candidate.
pub open spec fn not_candidate(n: u32, candidate: u32) -> Seq<char> {
    "partition "@ + text::decimal(n as nat)
        + " is not the growth candidate (candidate: partition "@ + text::decimal(
        candidate as nat,
    ) + ")"@
}

/// The plan that `part` asks of the candidate `e`.
pub open spec fn declared_plan(
    e: EntryView,
    kind: FsKind,
    surgery: Option<SurgeryView>,
    gpt: bool,
    usable: u64,
    disk_name: Seq<char>,
    lba_bytes: u64,
    part: PartSpec,
) -> PlanView {
    match part {
        PartSpec::Number(n) if n != e.num => skipped(not_candidate(n, e.num)),
        _ => PlanView {
            action: Some(
                ActionView::PartitionGrow {
                    part_num: e.num,
                    part_dev: part_node(disk_name, e.num),
                    fs: kind,
                    surgery,
                    expected_new_sectors: match surgery {
                        Some(_) => None,
                        None => Some((usable - lba_sectors(e.first_lba, lba_bytes)) as u64),
                    },
                    old_sectors: lba_sectors(
                        table::sat(e.last_lba - e.first_lba + 1),
                        lba_bytes,
                    ),
                    is_gpt: gpt,
                },
            ),
            skip_reason: None,
        },
    }
}

/// How `prev` grows past the swap partition `last`.
pub open spec fn surgery_of(last: EntryView, prev: EntryView, swap: fs::SwapView) -> SurgeryView {
    SurgeryView {
        swap_num: last.num,
        root_num: prev.num,
        root_first_lba: prev.first_lba,
        root_ptype: prev.ptype,
        swap_first_lba: last.first_lba,
        swap_sectors: table::sat(last.last_lba - last.first_lba + 1),
        swap_ptype: last.ptype,
        swap_uuid: swap.uuid,
        swap_label: swap.label,
        swap_partuuid: last.partuuid,
    }
}

/// What the last two partitions of a disk hold: their filesystems, whether a
/// btrfs among them counts several devices, and the swap area of the last one.
pub struct Held {
    pub last_fs: FsKind,
    pub last_spans: bool,
    pub prev_fs: FsKind,
    pub prev_spans: bool,
    pub swap: Option<fs::SwapView>,
}

/// What the last two partitions of a disk hold.
pub open spec fn held<D: ReadSeek>(dev: D, t: TableView, lba_bytes: u64) -> Held {
    let last_at = lba_offset(t.entries[last_index(t.entries)].first_lba, lba_bytes);
    let prev_at = lba_offset(t.entries[prev_index(t.entries)].first_lba, lba_bytes);
    Held {
        last_fs: fs::fs_at(dev, last_at),
        last_spans: fs::btrfs_spans_devices(dev, last_at),
        prev_fs: fs::fs_at(dev, prev_at),
        prev_spans: fs::btrfs_spans_devices(dev, prev_at),
        swap: fs::swap_at(dev, last_at),
    }
}

/// What to do on a disk with a partition table `t` whose space ends at `usable`.
pub open spec fn decided_plan(
    t: TableView,
    h: Held,
    usable: u64,
    disk_name: Seq<char>,
    lba_bytes: u64,
    part: PartSpec,
) -> PlanView {
    let gpt = t.label is Gpt;
    let last = t.entries[last_index(t.entries)];
    let prev = t.entries[prev_index(t.entries)];
    if t.entries.len() == 0 {
        skipped("no partitions"@)
    } else if free_behind(usable, last, lba_bytes) < MIN_FREE_SECTORS {
        skipped("no free space after last partition"@)
    } else if h.last_fs is Btrfs && h.last_spans {
        skipped("btrfs multi-device filesystem"@)
    } else if h.last_fs is Swap {
        if t.entries.len() < 2 {
            skipped("swap is the only partition"@)
        } else if prev.is_container {
            skipped("MBR logical/extended not supported in v1"@)
        } else if h.prev_fs is Btrfs && h.prev_spans {
            skipped("btrfs multi-device filesystem"@)
        } else if !growable(h.prev_fs) {
            skipped("swap last, no growable partition before it"@)
        } else {
            match h.swap {
                None => skipped("cannot read swap header"@),
                Some(swap) => declared_plan(
                    prev,
                    h.prev_fs,
                    Some(surgery_of(last, prev, swap)),
                    gpt,
                    usable,
                    disk_name,
                    lba_bytes,
                    part,
                ),
            }
        }
    } else if last.is_container {
        skipped("MBR logical/extended not supported in v1"@)
    } else if growable(h.last_fs) {
        declared_plan(last, h.last_fs, None, gpt, usable, disk_name, lba_bytes, part)
    } else {
        skipped(unsupported(h.last_fs))
    }
}

/// What to do on a disk with a partition table.
pub open spec fn table_plan<D: ReadSeek>(
    dev: D,
    t: TableView,
    disk_name: Seq<char>,
    device_sectors: u64,
    lba_bytes: u64,
    part: PartSpec,
) -> PlanView {
    decided_plan(
        t,
        held(dev, t, lba_bytes),
        usable_sectors(t, device_sectors, lba_bytes),
        disk_name,
        lba_bytes,
        part,
    )
}

/// What to grow on a disk, where it could be opened.
pub open spec fn plan_of<D: ReadSeek>(
    dev: Option<D>,
    path: Seq<char>,
    disk_name: Seq<char>,
    device_sectors: u64,
    lba_bytes: u64,
    policy: PolicyView,
) -> PlanView {
    match dev {
        None => skipped("cannot open device"@),
        Some(d) => match table::table_of(d, lba_bytes) {
            None => skipped("cannot parse partition table"@),
            Some(t) => if t.label is Superfloppy {
                floppy_plan(d, path, device_sectors)
            } else {
                table_plan(d, t, disk_name, device_sectors, lba_bytes, policy.part)
            },
        },
    }
}

/// What holds of every plan that [`analyze_with`] makes.
pub open spec fn plan_fits(p: PlanView) -> bool {
    match p.action {
        Some(ActionView::PartitionGrow { fs, old_sectors, .. }) => growable(fs)
            && old_sectors <= MAX_SECTORS,
        Some(ActionView::FilesystemOnly { fs, .. }) => growable(fs),
        None => true,
    }
}

pub open spec fn opened<D>(dev: Option<&D>) -> Option<D> {
    match dev {
        Some(d) => Some(*d),
        None => None,
    }
}

fn plan_floppy<D: ReadSeek>(dev: &D, path: &str, device_sectors: u64) -> (r: GrowPlan)
    ensures
        r@ == floppy_plan(*dev, path@, device_sectors),
{
    let kind = sniff_fs(dev, 0);
    if !is_growable(kind) {
        return skip(unsupported_reason(kind));
    }
    if kind == FsKind::Btrfs && btrfs_multi_device(dev, 0) {
        return skip("btrfs multi-device filesystem");
    }
    if let Some(end) = superfloppy_fs_end_bytes(dev, 0) {
        let size: u64 = sat_mul(device_sectors, SECTOR);
        if size < end || size - end < MIN_FREE_SECTORS * SECTOR {
            return skip("no free space after filesystem");
        }
    }
    GrowPlan {
        action: Some(GrowAction::FilesystemOnly { fs: kind, fs_dev: path.to_owned() }),
        skip_reason: None,
    }
}

proof fn lemma_lba_sectors_monotone(a: u64, b: u64, lba_bytes: u64)
    requires
        a <= b,
    ensures
        lba_sectors(a, lba_bytes) <= lba_sectors(b, lba_bytes),
{
    assert(0 <= a * lba_bytes <= b * lba_bytes) by (nonlinear_arith)
        requires
            a <= b,
    ;
}

fn plan_declared(
    e: &PartEntry,
    kind: FsKind,
    surgery: Option<SurgeryPlan>,
    gpt: bool,
    usable: u64,
    disk_name: &str,
    lba_bytes: u64,
    part: PartSpec,
) -> (r: GrowPlan)
    requires
        e.first_lba <= e.last_lba,
        surgery is None ==> lba_sectors(e.first_lba, lba_bytes) <= usable,
    ensures
        r@ == declared_plan(
            e@,
            kind,
            surgery_view(surgery),
            gpt,
            usable,
            disk_name@,
            lba_bytes,
            part,
        ),
{
    if let PartSpec::Number(n) = part {
        if n != e.num {
            let mut s = "partition ".to_owned();
            push_decimal(&mut s, n as u64);
            s.append(" is not the growth candidate (candidate: partition ");
            push_decimal(&mut s, e.num as u64);
            s.append(")");
            return GrowPlan { action: None, skip_reason: Some(s) };
        }
    }
    let old_sectors: u64 = lba_to_sysfs(sat_add(e.last_lba - e.first_lba, 1), lba_bytes);
    let expected_new_sectors: Option<u64> = match &surgery {
        Some(_) => None,
        None => Some(usable - lba_to_sysfs(e.first_lba, lba_bytes)),
    };
    GrowPlan {
        action: Some(
            GrowAction::PartitionGrow {
                part_num: e.num,
                part_dev: part_node_of(disk_name, e.num),
                fs: kind,
                surgery,
                expected_new_sectors,
                old_sectors,
                is_gpt: gpt,
            },
        ),
        skip_reason: None,
    }
}

fn copy_text(s: &Option<String>) -> (r: Option<String>)
    ensures
        text::opt_text(r) == text::opt_text(*s),
{
    match s {
        Some(t) => Some(t.clone()),
        None => None,
    }
}

fn make_surgery(last: &PartEntry, prev: &PartEntry, swap: SwapInfo) -> (r: SurgeryPlan)
    requires
        last.first_lba <= last.last_lba,
    ensures
        r@ == surgery_of(last@, prev@, swap@),
{
    SurgeryPlan {
        swap_num: last.num,
        root_num: prev.num,
        root_first_lba: prev.first_lba,
        root_ptype: prev.ptype.clone(),
        swap_first_lba: last.first_lba,
        swap_sectors: sat_add(last.last_lba - last.first_lba, 1),
        swap_ptype: last.ptype.clone(),
        swap_uuid: swap.uuid,
        swap_label: swap.label,
        swap_partuuid: copy_text(&last.partuuid),
    }
}

/// Every entry of a partition table ends no earlier than it begins.
pub open spec fn entries_ordered(es: Seq<EntryView>) -> bool {
    forall|i: int| 0 <= i < es.len() ==> (#[trigger] es[i]).first_lba <= es[i].last_lba
}

pub proof fn lemma_ends_last(es: Seq<EntryView>, except: int, n: nat)
    requires
        n <= es.len(),
    ensures
        -1 <= ends_last(es, except, n) < n,
        ends_last(es, except, n) != except || except < 0,
        ends_last(es, except, n) < 0 <==> (n == 0 || (n == 1 && except == 0)),
        forall|j: int|
            0 <= j < n && j != except ==> ends_last(es, except, n) >= 0 && (#[trigger] es[j]).last_lba
                <= es[ends_last(es, except, n)].last_lba,
        forall|j: int|
            ends_last(es, except, n) < j < n && j != except && ends_last(es, except, n) >= 0
                ==> (#[trigger] es[j]).last_lba < es[ends_last(es, except, n)].last_lba,
    decreases n,
{
    if n > 0 {
        lemma_ends_last(es, except, (n - 1) as nat);
    }
}

fn plan_table<D: ReadSeek>(
    dev: &D,
    t: PartTable,
    disk_name: &str,
    device_sectors: u64,
    lba_bytes: u64,
    part: PartSpec,
) -> (r: GrowPlan)
    requires
        t@.label is Gpt && t@.entries.len() > 0 ==> lba_bytes > 0,
        entries_ordered(t@.entries),
    ensures
        r@ == table_plan(*dev, t@, disk_name@, device_sectors, lba_bytes, part),
{
    let ghost es = t@.entries;
    proof {
        lemma_ends_last(es, -1, es.len());
        lemma_ends_last(es, last_index(es), es.len());
    }
    let Some(li) = find_ends_last(&t.entries, None) else {
        return skip("no partitions");
    };
    let gpt = t.label == Label::Gpt;
    let usable: u64 = usable_end(&t, device_sectors, lba_bytes);
    let last = &t.entries[li];
    assert(last@ == es[last_index(es)]);
    let end: u64 = lba_to_sysfs(sat_add(last.last_lba, 1), lba_bytes);
    let free: u64 = if end <= usable {
        usable - end
    } else {
        0
    };
    if free < MIN_FREE_SECTORS {
        return skip("no free space after last partition");
    }
    proof {
        lemma_lba_sectors_monotone(last.first_lba, table::sat(last.last_lba + 1), lba_bytes);
    }
    let last_at: u64 = lba_to_bytes(last.first_lba, lba_bytes);
    let last_fs = sniff_fs(dev, last_at);
    if last_fs == FsKind::Btrfs && btrfs_multi_device(dev, last_at) {
        return skip("btrfs multi-device filesystem");
    }
    if last_fs == FsKind::Swap {
        let Some(pi) = find_ends_last(&t.entries, Some(li)) else {
            return skip("swap is the only partition");
        };
        let prev = &t.entries[pi];
        assert(prev@ == es[prev_index(es)]);
        if prev.is_container {
            return skip("MBR logical/extended not supported in v1");
        }
        let prev_at: u64 = lba_to_bytes(prev.first_lba, lba_bytes);
        let prev_fs = sniff_fs(dev, prev_at);
        if prev_fs == FsKind::Btrfs && btrfs_multi_device(dev, prev_at) {
            return skip("btrfs multi-device filesystem");
        }
        if !is_growable(prev_fs) {
            return skip("swap last, no growable partition before it");
        }
        let Some(swap) = read_swap_info(dev, last_at) else {
            return skip("cannot read swap header");
        };
        let surgery = make_surgery(last, prev, swap);
        return plan_declared(
            prev,
            prev_fs,
            Some(surgery),
            gpt,
            usable,
            disk_name,
            lba_bytes,
            part,
        );
    }
    if last.is_container {
        return skip("MBR logical/extended not supported in v1");
    }
    if is_growable(last_fs) {
        plan_declared(last, last_fs, None, gpt, usable, disk_name, lba_bytes, part)
    } else {
        skip(unsupported_reason(last_fs))
    }
}

/// Whether the room for the backup of a GPT can be counted in blocks: only
/// blocks of no bytes do not allow it.
pub open spec fn measurable<D: ReadSeek>(dev: Option<D>, lba_bytes: u64) -> bool {
    lba_bytes > 0 || match dev {
        Some(d) => match table::table_of(d, lba_bytes) {
            Some(t) => !(t.label is Gpt && t.entries.len() > 0),
            None => true,
        },
        None => true,
    }
}

/// Finds out what to grow on a disk. `dev` is the disk, where it could be
/// opened, and `dev_path` its device node.
pub fn analyze_with<D: ReadSeek>(
    dev: Option<&D>,
    dev_path: &str,
    disk_name: &str,
    device_sectors: u64,
    lba_bytes: u64,
    policy: &GrowPolicy,
) -> (r: GrowPlan)
    requires
        measurable(opened(dev), lba_bytes),
    ensures
        r@ == plan_of(
            opened(dev),
            dev_path@,
            disk_name@,
            device_sectors,
            lba_bytes,
            policy@,
        ),
        plan_fits(r@),
{
    let Some(d) = dev else {
        return skip("cannot open device");
    };
    let Some(t) = parse_table(d, lba_bytes) else {
        return skip("cannot parse partition table");
    };
    if t.label == Label::Superfloppy {
        return plan_floppy(d, dev_path, device_sectors);
    }
    proof {
        lemma_table_ordered(*d, lba_bytes);
    }
    plan_table(d, t, disk_name, device_sectors, lba_bytes, policy.part)
}

proof fn lemma_mbr_ordered(s: Seq<u8>, n: nat)
    ensures
        entries_ordered(table::mbr_entries(s, n)),
    decreases n,
{
    if n > 0 {
        lemma_mbr_ordered(s, (n - 1) as nat);
        lemma_slot_ordered(s, n - 1);
    }
}

proof fn lemma_slot_ordered(s: Seq<u8>, i: int)
    ensures
        match table::mbr_slot(s, i) {
            Some(e) => e.first_lba <= e.last_lba,
            None => true,
        },
{
    reveal_with_fuel(crate::bytes::le_at, 5);
}

proof fn lemma_gpt_ordered<D: ReadSeek>(
    dev: D,
    lba_bytes: u64,
    entry_lba: u64,
    entry_size: u32,
    i: nat,
    n: nat,
)
    ensures
        entries_ordered(table::gpt_entries(dev, lba_bytes, entry_lba, entry_size, i, n)),
    decreases n - i,
{
    if i < n {
        lemma_gpt_ordered(dev, lba_bytes, entry_lba, entry_size, i + 1, n);
        let b = device::window(
            dev,
            table::gpt_entry_offset(entry_lba, entry_size, lba_bytes, i as int),
            128,
        );
        let rest = table::gpt_entries(dev, lba_bytes, entry_lba, entry_size, i + 1, n);
        if b.len() >= 128 {
            if let Some(e) = table::gpt_entry(b, (i + 1) as u32) {
                reveal_with_fuel(crate::bytes::le_at, 9);
                assert(e.first_lba <= e.last_lba);
                let all = seq![e] + rest;
                assert forall|k: int| 0 <= k < all.len() implies (#[trigger] all[k]).first_lba
                    <= all[k].last_lba by {
                    if k > 0 {
                        assert(all[k] == rest[k - 1]);
                    }
                }
            }
        }
    }
}

pub proof fn lemma_table_ordered<D: ReadSeek>(dev: D, lba_bytes: u64)
    ensures
        match table::table_of(dev, lba_bytes) {
            Some(t) => entries_ordered(t.entries),
            None => true,
        },
{
    let s = device::window(dev, 0, 512);
    let h = device::window(dev, lba_bytes, 512);
    lemma_mbr_ordered(s, 4);
    lemma_gpt_ordered(
        dev,
        lba_bytes,
        crate::bytes::le_at(h, 72, 8) as u64,
        crate::bytes::le_at(h, 84, 4) as u32,
        0,
        crate::bytes::le_at(h, 80, 4),
    );
}

proof fn lemma_decided_acts(
    t: TableView,
    h: Held,
    usable: u64,
    disk_name: Seq<char>,
    lba_bytes: u64,
    part: PartSpec,
)
    ensures
        ({
            let plan = decided_plan(t, h, usable, disk_name, lba_bytes, part);
            plan.action is Some <==> plan.skip_reason is None
        }),
{
}

proof fn lemma_floppy_acts(
    kind: FsKind,
    spans: bool,
    end: Option<u64>,
    path: Seq<char>,
    size: u64,
)
    ensures
        ({
            let plan = decided_floppy(kind, spans, end, path, size);
            plan.action is Some <==> plan.skip_reason is None
        }),
{
}

/// A plan either grows something or says why not.
pub proof fn law_plan_acts_or_explains<D: ReadSeek>(
    dev: Option<D>,
    path: Seq<char>,
    disk_name: Seq<char>,
    device_sectors: u64,
    lba_bytes: u64,
    policy: PolicyView,
)
    ensures
        ({
            let plan = plan_of(dev, path, disk_name, device_sectors, lba_bytes, policy);
            plan.action is Some <==> plan.skip_reason is None
        }),
{
    if let Some(d) = dev {
        lemma_floppy_acts(
            fs::fs_at(d, 0),
            fs::btrfs_spans_devices(d, 0),
            fs::fs_end(d, 0),
            path,
            table::sat(device_sectors * SECTOR),
        );
        if let Some(t) = table::table_of(d, lba_bytes) {
            lemma_decided_acts(
                t,
                held(d, t, lba_bytes),
                usable_sectors(t, device_sectors, lba_bytes),
                disk_name,
                lba_bytes,
                policy.part,
            );
        }
    }
}

/// No partition with data moves: what grows is the partition that ends last on
/// the disk or, where that one is swap, the one that ends before it. It keeps
/// its first block, and its filesystem is one that can grow.
pub proof fn law_only_the_end_grows<D: ReadSeek>(
    dev: D,
    path: Seq<char>,
    disk_name: Seq<char>,
    device_sectors: u64,
    lba_bytes: u64,
    policy: PolicyView,
)
    ensures
        plan_of(Some(dev), path, disk_name, device_sectors, lba_bytes, policy).action matches Some(
            ActionView::PartitionGrow { part_num, fs, surgery, is_gpt, .. },
        ) ==> {
            let t = table::table_of(dev, lba_bytes)->0;
            let es = t.entries;
            let l = last_index(es);
            let p = prev_index(es);
            &&& table::table_of(dev, lba_bytes) is Some
            &&& is_gpt == t.label is Gpt
            &&& growable(fs)
            &&& 0 <= l < es.len()
            &&& forall|j: int|
                0 <= j < es.len() ==> (#[trigger] es[j]).last_lba <= es[l].last_lba
            &&& match surgery {
                None => {
                    &&& part_num == es[l].num
                    &&& !es[l].is_container
                    &&& fs == fs::fs_at(dev, lba_offset(es[l].first_lba, lba_bytes))
                },
                Some(s) => {
                    &&& fs::fs_at(dev, lba_offset(es[l].first_lba, lba_bytes)) is Swap
                    &&& 0 <= p < es.len() && p != l
                    &&& forall|j: int|
                        0 <= j < es.len() && j != l ==> (#[trigger] es[j]).last_lba
                            <= es[p].last_lba
                    &&& part_num == es[p].num == s.root_num
                    &&& !es[p].is_container
                    &&& fs == fs::fs_at(dev, lba_offset(es[p].first_lba, lba_bytes))
                    &&& s.root_first_lba == es[p].first_lba
                    &&& s.swap_num == es[l].num
                    &&& s.swap_first_lba == es[l].first_lba
                },
            }
        },
{
    lemma_floppy_grows_no_partition(
        fs::fs_at(dev, 0),
        fs::btrfs_spans_devices(dev, 0),
        fs::fs_end(dev, 0),
        path,
        table::sat(device_sectors * SECTOR),
    );
    if let Some(t) = table::table_of(dev, lba_bytes) {
        lemma_ends_last(t.entries, -1, t.entries.len());
        lemma_ends_last(t.entries, last_index(t.entries), t.entries.len());
        lemma_decided_candidate(
            t,
            held(dev, t, lba_bytes),
            usable_sectors(t, device_sectors, lba_bytes),
            disk_name,
            lba_bytes,
            policy.part,
        );
    }
}

proof fn lemma_decided_candidate(
    t: TableView,
    h: Held,
    usable: u64,
    disk_name: Seq<char>,
    lba_bytes: u64,
    part: PartSpec,
)
    ensures
        decided_plan(t, h, usable, disk_name, lba_bytes, part).action matches Some(
            ActionView::PartitionGrow { part_num, fs, surgery, is_gpt, .. },
        ) ==> {
            let es = t.entries;
            let last = es[last_index(es)];
            let prev = es[prev_index(es)];
            &&& is_gpt == t.label is Gpt
            &&& growable(fs)
            &&& es.len() > 0
            &&& free_behind(usable, last, lba_bytes) >= MIN_FREE_SECTORS
            &&& match surgery {
                None => part_num == last.num && !last.is_container && fs == h.last_fs,
                Some(s) => {
                    &&& es.len() > 1
                    &&& h.last_fs is Swap
                    &&& part_num == prev.num == s.root_num
                    &&& !prev.is_container
                    &&& fs == h.prev_fs
                    &&& s.root_first_lba == prev.first_lba
                    &&& s.swap_num == last.num
                    &&& s.swap_first_lba == last.first_lba
                },
            }
        },
{
}

/// A partition grows only where 1 MiB or more is free behind every partition.
pub proof fn law_grows_into_free_space<D: ReadSeek>(
    dev: D,
    path: Seq<char>,
    disk_name: Seq<char>,
    device_sectors: u64,
    lba_bytes: u64,
    policy: PolicyView,
)
    ensures
        plan_of(Some(dev), path, disk_name, device_sectors, lba_bytes, policy).action is Some
            && plan_of(
            Some(dev),
            path,
            disk_name,
            device_sectors,
            lba_bytes,
            policy,
        ).action->0 is PartitionGrow ==> {
            let t = table::table_of(dev, lba_bytes)->0;
            let usable = usable_sectors(t, device_sectors, lba_bytes);
            forall|j: int|
                0 <= j < t.entries.len() ==> free_behind(usable, #[trigger] t.entries[j], lba_bytes)
                    >= MIN_FREE_SECTORS
        },
{
    if let Some(t) = table::table_of(dev, lba_bytes) {
        let es = t.entries;
        let l = last_index(es);
        lemma_ends_last(es, -1, es.len());
        let usable = usable_sectors(t, device_sectors, lba_bytes);
        lemma_floppy_grows_no_partition(
            fs::fs_at(dev, 0),
            fs::btrfs_spans_devices(dev, 0),
            fs::fs_end(dev, 0),
            path,
            table::sat(device_sectors * SECTOR),
        );
        lemma_decided_candidate(
            t,
            held(dev, t, lba_bytes),
            usable,
            disk_name,
            lba_bytes,
            policy.part,
        );
        assert forall|j: int|
            0 <= j < es.len() && free_behind(usable, es[l], lba_bytes)
                >= MIN_FREE_SECTORS implies free_behind(usable, #[trigger] es[j], lba_bytes)
            >= MIN_FREE_SECTORS by {
            lemma_lba_sectors_monotone(
                table::sat(es[j].last_lba + 1),
                table::sat(es[l].last_lba + 1),
                lba_bytes,
            );
        }
    }
}

/// The sectors of two runs of blocks add up to those of both, but for what is
/// less than a sector.
proof fn lemma_sectors_add_up(first: int, len: int, lba_bytes: int)
    requires
        0 <= first,
        0 <= len,
        0 <= lba_bytes,
    ensures
        first * lba_bytes + len * lba_bytes == (first + len) * lba_bytes,
        0 <= first * lba_bytes <= (first + len) * lba_bytes,
        0 <= len * lba_bytes <= (first + len) * lba_bytes,
        (first * lba_bytes) / 512 + (len * lba_bytes) / 512 <= ((first + len) * lba_bytes) / 512,
        lba_bytes % 512 == 0 ==> (first * lba_bytes) / 512 + (len * lba_bytes) / 512 == ((first
            + len) * lba_bytes) / 512,
{
    let a = first * lba_bytes;
    let b = len * lba_bytes;
    assert(a + b == (first + len) * lba_bytes && a >= 0 && b >= 0) by (nonlinear_arith)
        requires
            a == first * lba_bytes,
            b == len * lba_bytes,
            first >= 0,
            len >= 0,
            lba_bytes >= 0,
    ;
    if lba_bytes % 512 == 0 {
        let q = lba_bytes / 512;
        assert(a == 512 * (first * q) && b == 512 * (len * q)) by (nonlinear_arith)
            requires
                lba_bytes == 512 * q,
                a == first * lba_bytes,
                b == len * lba_bytes,
        ;
    }
}

proof fn lemma_gains(usable: u64, e: EntryView, lba_bytes: u64)
    requires
        e.first_lba <= e.last_lba,
        (e.last_lba + 1) * lba_bytes <= u64::MAX,
        free_behind(usable, e, lba_bytes) > 0,
    ensures
        ({
            let new = usable - lba_sectors(e.first_lba, lba_bytes);
            let old_sectors = lba_sectors(table::sat(e.last_lba - e.first_lba + 1), lba_bytes);
            &&& new >= old_sectors + free_behind(usable, e, lba_bytes)
            &&& lba_bytes % 512 == 0 ==> new == old_sectors + free_behind(usable, e, lba_bytes)
        }),
{
    let first = e.first_lba as int;
    let len = e.last_lba - e.first_lba + 1;
    let l = lba_bytes as int;
    lemma_sectors_add_up(first, len, l);
    assert(first + len == e.last_lba + 1);
    if e.last_lba == u64::MAX {
        assert(l == 0) by (nonlinear_arith)
            requires
                (e.last_lba + 1) * l <= u64::MAX,
                e.last_lba == u64::MAX,
                l >= 0,
        ;
    }
}

proof fn lemma_end_fits(usable: u64, e: EntryView, lba_bytes: u64)
    requires
        usable <= MAX_SECTORS,
        free_behind(usable, e, lba_bytes) > 0,
    ensures
        (e.last_lba + 1) * lba_bytes <= u64::MAX,
{
    let l = lba_bytes as int;
    let end = table::sat(e.last_lba + 1);
    assert(end * l >= 0) by (nonlinear_arith)
        requires
            l >= 0,
            end >= 0,
    ;
    assert(end * l <= u64::MAX - 511);
    if e.last_lba == u64::MAX {
        assert(l == 0) by (nonlinear_arith)
            requires
                end * l < u64::MAX,
                end == u64::MAX,
                l >= 0,
        ;
    }
}

/// The last partition gains all that is free behind it, 1 MiB or more, as long
/// as its end in bytes fits 64 bits; on a disk whose size in bytes fits, it
/// does. Blocks that are no whole number of sectors may add one sector.
pub proof fn law_last_partition_gains<D: ReadSeek>(
    dev: D,
    path: Seq<char>,
    disk_name: Seq<char>,
    device_sectors: u64,
    lba_bytes: u64,
    policy: PolicyView,
)
    ensures
        plan_of(Some(dev), path, disk_name, device_sectors, lba_bytes, policy).action matches Some(
            ActionView::PartitionGrow { expected_new_sectors: Some(new), old_sectors, .. },
        ) ==> {
            let t = table::table_of(dev, lba_bytes)->0;
            let e = t.entries[last_index(t.entries)];
            let free = free_behind(usable_sectors(t, device_sectors, lba_bytes), e, lba_bytes);
            &&& free >= MIN_FREE_SECTORS
            &&& (e.last_lba + 1) * lba_bytes <= u64::MAX ==> {
                &&& new >= old_sectors + free
                &&& lba_bytes % 512 == 0 ==> new == old_sectors + free
            }
            &&& device_sectors <= MAX_SECTORS ==> (e.last_lba + 1) * lba_bytes <= u64::MAX
        },
{
    lemma_table_ordered(dev, lba_bytes);
    if let Some(t) = table::table_of(dev, lba_bytes) {
        lemma_ends_last(t.entries, -1, t.entries.len());
        lemma_decided_gains(
            t,
            held(dev, t, lba_bytes),
            usable_sectors(t, device_sectors, lba_bytes),
            disk_name,
            lba_bytes,
            policy.part,
        );
        lemma_floppy_grows_no_partition(
            fs::fs_at(dev, 0),
            fs::btrfs_spans_devices(dev, 0),
            fs::fs_end(dev, 0),
            path,
            table::sat(device_sectors * SECTOR),
        );
        lemma_usable(t, device_sectors, lba_bytes);
    }
}

proof fn lemma_usable(t: TableView, device_sectors: u64, lba_bytes: u64)
    ensures
        usable_sectors(t, device_sectors, lba_bytes) <= device_sectors,
{
}

pub proof fn lemma_floppy_grows_no_partition(
    kind: FsKind,
    spans: bool,
    end: Option<u64>,
    path: Seq<char>,
    size: u64,
)
    ensures
        decided_floppy(kind, spans, end, path, size).action matches Some(a) ==> a is FilesystemOnly,
{
}

proof fn lemma_decided_gains(
    t: TableView,
    h: Held,
    usable: u64,
    disk_name: Seq<char>,
    lba_bytes: u64,
    part: PartSpec,
)
    requires
        entries_ordered(t.entries),
        t.entries.len() > 0 ==> 0 <= last_index(t.entries) < t.entries.len(),
    ensures
        decided_plan(t, h, usable, disk_name, lba_bytes, part).action matches Some(
            ActionView::PartitionGrow { expected_new_sectors: Some(new), old_sectors, .. },
        ) ==> {
            let e = t.entries[last_index(t.entries)];
            let free = free_behind(usable, e, lba_bytes);
            &&& free >= MIN_FREE_SECTORS
            &&& (e.last_lba + 1) * lba_bytes <= u64::MAX ==> {
                &&& new >= old_sectors + free
                &&& lba_bytes % 512 == 0 ==> new == old_sectors + free
            }
            &&& usable <= MAX_SECTORS ==> (e.last_lba + 1) * lba_bytes <= u64::MAX
        },
{
    let e = t.entries[last_index(t.entries)];
    if t.entries.len() > 0 && free_behind(usable, e, lba_bytes) >= MIN_FREE_SECTORS {
        assert(e.first_lba <= e.last_lba);
        if (e.last_lba + 1) * lba_bytes <= u64::MAX {
            lemma_gains(usable, e, lba_bytes);
        }
        if usable <= MAX_SECTORS {
            lemma_end_fits(usable, e, lba_bytes);
        }
    }
}

/// What a plan becomes where the policy names partition `n`: it stays as it is,
/// unless it grows another partition.
pub open spec fn narrowed(plan: PlanView, n: u32) -> PlanView {
    match plan.action {
        Some(ActionView::PartitionGrow { part_num, .. }) if part_num != n => skipped(
            not_candidate(n, part_num),
        ),
        _ => plan,
    }
}

proof fn lemma_decided_narrows(
    t: TableView,
    h: Held,
    usable: u64,
    disk_name: Seq<char>,
    lba_bytes: u64,
    n: u32,
)
    ensures
        decided_plan(t, h, usable, disk_name, lba_bytes, PartSpec::Number(n)) == narrowed(
            decided_plan(t, h, usable, disk_name, lba_bytes, PartSpec::Auto),
            n,
        ),
{
}

/// To name a partition never widens what may grow: the plan is the one without
/// a name, and where that one grows another partition, nothing grows.
pub proof fn law_naming_a_partition_only_narrows<D: ReadSeek>(
    dev: Option<D>,
    path: Seq<char>,
    disk_name: Seq<char>,
    device_sectors: u64,
    lba_bytes: u64,
    policy: PolicyView,
    n: u32,
)
    ensures
        plan_of(
            dev,
            path,
            disk_name,
            device_sectors,
            lba_bytes,
            PolicyView { part: PartSpec::Number(n), ..policy },
        ) == narrowed(
            plan_of(
                dev,
                path,
                disk_name,
                device_sectors,
                lba_bytes,
                PolicyView { part: PartSpec::Auto, ..policy },
            ),
            n,
        ),
{
    if let Some(d) = dev {
        lemma_floppy_grows_no_partition(
            fs::fs_at(d, 0),
            fs::btrfs_spans_devices(d, 0),
            fs::fs_end(d, 0),
            path,
            table::sat(device_sectors * SECTOR),
        );
        if let Some(t) = table::table_of(d, lba_bytes) {
            lemma_decided_narrows(
                t,
                held(d, t, lba_bytes),
                usable_sectors(t, device_sectors, lba_bytes),
                disk_name,
                lba_bytes,
                n,
            );
        }
    }
}

/// A partition that the policy names is grown or nothing is.
pub proof fn law_declared_partition_or_none<D: ReadSeek>(
    dev: Option<D>,
    path: Seq<char>,
    disk_name: Seq<char>,
    device_sectors: u64,
    lba_bytes: u64,
    policy: PolicyView,
    n: u32,
)
    requires
        policy.part == PartSpec::Number(n),
    ensures
        plan_of(dev, path, disk_name, device_sectors, lba_bytes, policy).action matches Some(
            ActionView::PartitionGrow { part_num, .. },
        ) ==> part_num == n,
{
    law_naming_a_partition_only_narrows(
        dev,
        path,
        disk_name,
        device_sectors,
        lba_bytes,
        policy,
        n,
    );
}

} // verus!
