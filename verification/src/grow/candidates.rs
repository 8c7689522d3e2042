//! What grows and what does not, said of the disk itself: which partition it
//! is, why no other, and that swap comes back as it was.
use super::device;
use super::device::ReadSeek;
use super::fs;
use super::fs::FsKind;
use super::plan;
use super::plan::{ActionView, PlanView, SurgeryView};
use super::policy::{PartSpec, PolicyView};
use super::table;
use super::table::{EntryView, Label, TableView};
use crate::bytes;
use crate::text;
use vstd::prelude::*;

verus! {

/// Whether entry `l`, of all but `except`, ends last; of those that end at the
/// same block, it is the latest in the table.
pub open spec fn is_last(es: Seq<EntryView>, l: int, except: int) -> bool {
    &&& 0 <= l < es.len()
    &&& l != except
    &&& forall|j: int|
        0 <= j < es.len() && j != except ==> (#[trigger] es[j]).last_lba <= es[l].last_lba
    &&& forall|j: int|
        l < j < es.len() && j != except ==> (#[trigger] es[j]).last_lba < es[l].last_lba
}

/// Where block `lba` begins, as far as 64 bits can count it.
pub open spec fn place(lba: u64, lba_bytes: u64) -> u64 {
    if lba * lba_bytes > u64::MAX {
        u64::MAX
    } else {
        (lba * lba_bytes) as u64
    }
}

/// Whether the btrfs at `offset` counts several devices.
pub open spec fn several_devices<D: ReadSeek>(dev: D, offset: u64) -> bool {
    let sb = device::window(dev, (offset + 0x10000) as u64, 0x90);
    sb.len() == 0x90 && bytes::le_at(sb, 0x88, 8) >= 2
}

/// Whether the filesystem at `offset` is one that grows.
pub open spec fn grows_at<D: ReadSeek>(dev: D, offset: u64) -> bool {
    let k = fs::fs_at(dev, offset);
    k == FsKind::Ext || k == FsKind::Xfs || k == FsKind::Ntfs || k == FsKind::Lvm || (k
        == FsKind::Btrfs && !several_devices(dev, offset))
}

/// Whether a policy lets partition `num` grow.
pub open spec fn lets_grow(policy: PolicyView, num: u32) -> bool {
    policy.part == PartSpec::Auto || policy.part == PartSpec::Number(num)
}

proof fn lemma_last(es: Seq<EntryView>, l: int, except: int)
    requires
        is_last(es, l, except),
    ensures
        plan::ends_last(es, except, es.len()) == l,
{
    plan::lemma_ends_last(es, except, es.len());
    let k = plan::ends_last(es, except, es.len());
    assert(k >= 0) by {
        assert(es[l].last_lba <= es[l].last_lba);
    }
    assert(es[k].last_lba <= es[l].last_lba && es[l].last_lba <= es[k].last_lba);
}

proof fn lemma_place(lba: u64, lba_bytes: u64)
    ensures
        place(lba, lba_bytes) == plan::lba_offset(lba, lba_bytes),
{
    assert(lba * lba_bytes >= 0) by (nonlinear_arith);
}

/// The sectors that partitions can take up: on a GPT all but those of the backup
/// at the end, a block for the header and as many as the entries fill or begin;
/// on an MBR those in the first 2^32 blocks.
pub proof fn law_space_for_partitions(
    t: TableView,
    count: u32,
    size: u32,
    device_sectors: u64,
    lba_bytes: u64,
    blocks: int,
)
    requires
        lba_bytes > 0,
        blocks >= 0,
        (blocks - 1) * lba_bytes < count * size <= blocks * lba_bytes,
    ensures
        ({
            let usable = plan::usable_sectors(t, device_sectors, lba_bytes);
            let reserved = ((1 + blocks) * lba_bytes) / 512;
            &&& usable <= device_sectors
            &&& t.label is Gpt && t.gpt_meta == Some((count, size)) && (1 + blocks) * lba_bytes
                <= u64::MAX ==> usable == if reserved <= device_sectors {
                device_sectors - reserved
            } else {
                0
            }
            &&& !(t.label is Gpt) && 0x1_0000_0000 * lba_bytes <= u64::MAX ==> {
                if device_sectors * 512 <= 0x1_0000_0000 * lba_bytes {
                    usable == device_sectors
                } else {
                    usable * 512 <= 0x1_0000_0000 * lba_bytes < (usable + 1) * 512
                }
            }
        }),
{
    let n = count * size;
    let l = lba_bytes as int;
    assert(n >= 0) by (nonlinear_arith)
        requires
            n == count * size,
            count >= 0,
            size >= 0,
    ;
    let r = n + l - 1 - blocks * l;
    assert(0 <= r < l && n + l - 1 == blocks * l + r) by (nonlinear_arith)
        requires
            r == n + l - 1 - blocks * l,
            (blocks - 1) * l < n <= blocks * l,
    ;
    vstd::arithmetic::div_mod::lemma_fundamental_div_mod_converse(n + l - 1, l, blocks, r);
    assert(plan::blocks_for(n, l) == blocks);
    assert((1 + blocks) * l >= 1 + blocks) by (nonlinear_arith)
        requires
            l >= 1,
            blocks >= 0,
    ;
}

/// What is free behind a partition is what lies between its end and the end of
/// the space for partitions, in whole sectors.
pub proof fn law_free_space(usable: u64, e: EntryView, lba_bytes: u64)
    requires
        (e.last_lba + 1) * lba_bytes <= u64::MAX,
        e.last_lba < u64::MAX,
    ensures
        ({
            let end = ((e.last_lba + 1) * lba_bytes) / 512;
            plan::free_behind(usable, e, lba_bytes) == if end <= usable {
                usable - end
            } else {
                0
            }
        }),
{
    assert((e.last_lba + 1) * lba_bytes >= 0) by (nonlinear_arith);
}

/// How the sizes of a partition are stated: what it has, and up to where it can
/// grow.
pub open spec fn sized(
    a: ActionView,
    e: EntryView,
    usable: u64,
    lba_bytes: u64,
) -> bool {
    &&& a matches ActionView::PartitionGrow { expected_new_sectors, old_sectors, surgery, .. }
    &&& (e.last_lba + 1) * lba_bytes <= u64::MAX && e.last_lba < u64::MAX ==> {
        &&& old_sectors == ((e.last_lba - e.first_lba + 1) * lba_bytes) / 512
        &&& surgery is None ==> expected_new_sectors == Some(
            (usable - (e.first_lba * lba_bytes) / 512) as u64,
        )
    }
    &&& surgery is Some ==> expected_new_sectors is None
}

proof fn lemma_sized(e: EntryView, lba_bytes: u64)
    requires
        e.first_lba <= e.last_lba,
        (e.last_lba + 1) * lba_bytes <= u64::MAX,
        e.last_lba < u64::MAX,
    ensures
        plan::lba_sectors(e.first_lba, lba_bytes) == (e.first_lba * lba_bytes) / 512,
        plan::lba_sectors(table::sat(e.last_lba - e.first_lba + 1), lba_bytes) == ((e.last_lba
            - e.first_lba + 1) * lba_bytes) / 512,
{
    let len = e.last_lba - e.first_lba + 1;
    assert(0 <= e.first_lba * lba_bytes <= (e.last_lba + 1) * lba_bytes) by (nonlinear_arith)
        requires
            0 <= e.first_lba <= e.last_lba,
            lba_bytes >= 0,
    ;
    assert(0 <= len * lba_bytes <= (e.last_lba + 1) * lba_bytes) by (nonlinear_arith)
        requires
            0 <= len <= e.last_lba + 1,
            lba_bytes >= 0,
    ;
}

/// The partition that ends last grows, where 1 MiB or more is free behind it, it
/// holds a filesystem that grows and no other partitions, and the policy lets it.
pub proof fn law_last_partition_grows<D: ReadSeek>(
    dev: D,
    path: Seq<char>,
    disk_name: Seq<char>,
    device_sectors: u64,
    lba_bytes: u64,
    policy: PolicyView,
    t: TableView,
    l: int,
)
    requires
        table::table_of(dev, lba_bytes) == Some(t),
        t.label == Label::Gpt || t.label == Label::Mbr,
        is_last(t.entries, l, -1),
        plan::free_behind(
            plan::usable_sectors(t, device_sectors, lba_bytes),
            t.entries[l],
            lba_bytes,
        ) >= 2048,
        !t.entries[l].is_container,
        grows_at(dev, place(t.entries[l].first_lba, lba_bytes)),
        lets_grow(policy, t.entries[l].num),
    ensures
        ({
            let e = t.entries[l];
            let p = plan::plan_of(Some(dev), path, disk_name, device_sectors, lba_bytes, policy);
            &&& p.skip_reason is None
            &&& p.action matches Some(a) && sized(
                a,
                e,
                plan::usable_sectors(t, device_sectors, lba_bytes),
                lba_bytes,
            )
            &&& p.action matches Some(
                ActionView::PartitionGrow { part_num, part_dev, fs, surgery, is_gpt, .. },
            ) && {
                &&& part_num == e.num
                &&& part_dev == plan::part_node(disk_name, e.num)
                &&& fs == fs::fs_at(dev, place(e.first_lba, lba_bytes))
                &&& surgery is None
                &&& is_gpt == (t.label == Label::Gpt)
            }
        }),
{
    let e = t.entries[l];
    lemma_last(t.entries, l, -1);
    lemma_place(e.first_lba, lba_bytes);
    plan::lemma_table_ordered(dev, lba_bytes);
    if (e.last_lba + 1) * lba_bytes <= u64::MAX && e.last_lba < u64::MAX {
        lemma_sized(e, lba_bytes);
    }
}

/// The partition before a swap partition that ends last grows, under the same
/// conditions, and swap makes way.
pub proof fn law_partition_before_swap_grows<D: ReadSeek>(
    dev: D,
    path: Seq<char>,
    disk_name: Seq<char>,
    device_sectors: u64,
    lba_bytes: u64,
    policy: PolicyView,
    t: TableView,
    l: int,
    k: int,
)
    requires
        table::table_of(dev, lba_bytes) == Some(t),
        t.label == Label::Gpt || t.label == Label::Mbr,
        is_last(t.entries, l, -1),
        is_last(t.entries, k, l),
        plan::free_behind(
            plan::usable_sectors(t, device_sectors, lba_bytes),
            t.entries[l],
            lba_bytes,
        ) >= 2048,
        fs::fs_at(dev, place(t.entries[l].first_lba, lba_bytes)) == FsKind::Swap,
        !t.entries[k].is_container,
        grows_at(dev, place(t.entries[k].first_lba, lba_bytes)),
        lets_grow(policy, t.entries[k].num),
    ensures
        ({
            let e = t.entries[k];
            let p = plan::plan_of(Some(dev), path, disk_name, device_sectors, lba_bytes, policy);
            &&& p.skip_reason is None
            &&& p.action matches Some(a) && sized(
                a,
                e,
                plan::usable_sectors(t, device_sectors, lba_bytes),
                lba_bytes,
            )
            &&& p.action matches Some(
                ActionView::PartitionGrow { part_num, part_dev, fs, surgery, is_gpt, .. },
            ) && {
                &&& part_num == e.num
                &&& part_dev == plan::part_node(disk_name, e.num)
                &&& fs == fs::fs_at(dev, place(e.first_lba, lba_bytes))
                &&& surgery is Some
                &&& is_gpt == (t.label == Label::Gpt)
            }
        }),
{
    let e = t.entries[k];
    lemma_last(t.entries, l, -1);
    lemma_last(t.entries, k, l);
    lemma_place(e.first_lba, lba_bytes);
    lemma_place(t.entries[l].first_lba, lba_bytes);
    plan::lemma_table_ordered(dev, lba_bytes);
    fs::law_sniffed_swap_can_be_read(dev, place(t.entries[l].first_lba, lba_bytes));
    if (e.last_lba + 1) * lba_bytes <= u64::MAX && e.last_lba < u64::MAX {
        lemma_sized(e, lba_bytes);
    }
}

/// Without a partition table the filesystem on the disk itself grows, where it
/// is one that grows and does not say that it leaves less than 1 MiB behind it.
pub proof fn law_filesystem_without_table_grows<D: ReadSeek>(
    dev: D,
    path: Seq<char>,
    disk_name: Seq<char>,
    device_sectors: u64,
    lba_bytes: u64,
    policy: PolicyView,
    t: TableView,
)
    requires
        table::table_of(dev, lba_bytes) == Some(t),
        t.label == Label::Superfloppy,
        device_sectors * 512 <= u64::MAX,
    ensures
        ({
            let p = plan::plan_of(Some(dev), path, disk_name, device_sectors, lba_bytes, policy);
            let full = fs::fs_end(dev, 0) matches Some(end) && device_sectors * 512 - end
                < 1024 * 1024;
            let grown = PlanView {
                action: Some(
                    ActionView::FilesystemOnly { fs: fs::fs_at(dev, 0), fs_dev: path },
                ),
                skip_reason: None,
            };
            &&& grows_at(dev, 0) && !full ==> p == grown
            &&& !grows_at(dev, 0) || full ==> p.action is None && p.skip_reason is Some
            &&& grows_at(dev, 0) && full ==> p.skip_reason == Some(
                "no free space after filesystem"@,
            )
            &&& fs::fs_at(dev, 0) == FsKind::Btrfs && several_devices(dev, 0) ==> p.skip_reason
                == Some("btrfs multi-device filesystem"@)
            &&& fs::fs_at(dev, 0) == FsKind::Swap ==> p.skip_reason == Some(
                "swap on superfloppy is not growable"@,
            )
            &&& fs::fs_at(dev, 0) == FsKind::Luks ==> p.skip_reason == Some(
                "LUKS encryption not supported"@,
            )
            &&& fs::fs_at(dev, 0) == FsKind::Unknown ==> p.skip_reason == Some(
                "unknown filesystem"@,
            )
        }),
{
}

/// What is made anew where swap was deleted is the partition that ends last, as
/// its entry states it: its number, first block, length, type and GUID, and the
/// name and the label of its swap area. Root is the partition that ends before
/// it.
#[verifier::rlimit(30)]
pub proof fn law_swap_comes_back_as_it_was<D: ReadSeek>(
    dev: D,
    path: Seq<char>,
    disk_name: Seq<char>,
    device_sectors: u64,
    lba_bytes: u64,
    policy: PolicyView,
    t: TableView,
    l: int,
    k: int,
)
    requires
        table::table_of(dev, lba_bytes) == Some(t),
        is_last(t.entries, l, -1),
        is_last(t.entries, k, l),
    ensures
        plan::plan_of(
            Some(dev),
            path,
            disk_name,
            device_sectors,
            lba_bytes,
            policy,
        ).action matches Some(ActionView::PartitionGrow { surgery: Some(s), part_num, .. }) ==> {
            let swap = t.entries[l];
            let root = t.entries[k];
            &&& s.swap_num == swap.num && s.swap_first_lba == swap.first_lba
            &&& swap.last_lba - swap.first_lba < u64::MAX ==> s.swap_sectors == swap.last_lba
                - swap.first_lba + 1
            &&& s.swap_ptype == swap.ptype && s.swap_partuuid == swap.partuuid
            &&& s.root_num == root.num == part_num && s.root_first_lba == root.first_lba
            &&& s.root_ptype == root.ptype
            &&& fs::swap_at(dev, place(swap.first_lba, lba_bytes)) == Some(
                (fs::SwapView { uuid: s.swap_uuid, label: s.swap_label }),
            )
            &&& stated_on_disk(dev, lba_bytes, t.label, s)
        },
{
    lemma_last(t.entries, l, -1);
    lemma_last(t.entries, k, l);
    lemma_place(t.entries[l].first_lba, lba_bytes);
    lemma_decided_surgery(
        t,
        plan::held(dev, t, lba_bytes),
        plan::usable_sectors(t, device_sectors, lba_bytes),
        disk_name,
        lba_bytes,
        policy.part,
    );
    plan::lemma_table_ordered(dev, lba_bytes);
    plan::lemma_floppy_grows_no_partition(
        fs::fs_at(dev, 0),
        fs::btrfs_spans_devices(dev, 0),
        fs::fs_end(dev, 0),
        path,
        table::sat(device_sectors * crate::utils::SECTOR),
    );
    if let Some(swap) = fs::swap_at(dev, place(t.entries[l].first_lba, lba_bytes)) {
        lemma_stated(dev, lba_bytes, t, l, k, swap);
    }
}

proof fn lemma_decided_surgery(
    t: TableView,
    h: plan::Held,
    usable: u64,
    disk_name: Seq<char>,
    lba_bytes: u64,
    part: PartSpec,
)
    ensures
        plan::decided_plan(t, h, usable, disk_name, lba_bytes, part).action matches Some(
            ActionView::PartitionGrow { surgery: Some(s), part_num, .. },
        ) ==> {
            let root = t.entries[plan::prev_index(t.entries)];
            &&& h.swap is Some
            &&& part_num == root.num
            &&& s == plan::surgery_of(
                t.entries[plan::last_index(t.entries)],
                root,
                h.swap->0,
            )
        },
{
}

proof fn lemma_stated<D: ReadSeek>(
    dev: D,
    lba_bytes: u64,
    t: TableView,
    l: int,
    k: int,
    swap: fs::SwapView,
)
    requires
        table::table_of(dev, lba_bytes) == Some(t),
        t.label != Label::Superfloppy,
        0 <= l < t.entries.len(),
        0 <= k < t.entries.len(),
    ensures
        stated_on_disk(
            dev,
            lba_bytes,
            t.label,
            plan::surgery_of(t.entries[l], t.entries[k], swap),
        ),
{
    let a = t.entries[l];
    let b = t.entries[k];
    if t.label == Label::Gpt {
        let h = device::window(dev, lba_bytes, 512);
        table::law_gpt_lists_every_entry_in_use(dev, lba_bytes);
        assert(table::entry_says(table::entry_bytes(dev, lba_bytes, h, a.num - 1), a));
        assert(table::entry_says(table::entry_bytes(dev, lba_bytes, h, b.num - 1), b));
    } else {
        let s = device::window(dev, 0, 512);
        table::law_mbr_lists_every_slot_in_use(dev, lba_bytes);
        assert(table::slot_says(s, a.num - 1, a));
        assert(table::slot_says(s, b.num - 1, b));
    }
}

/// Whether the bytes on the disk state the types and the GUID that a surgery
/// goes by.
pub open spec fn stated_on_disk<D: ReadSeek>(
    dev: D,
    lba_bytes: u64,
    label: Label,
    s: SurgeryView,
) -> bool {
    if label == Label::Gpt {
        let h = device::window(dev, lba_bytes, 512);
        let swap = table::entry_bytes(dev, lba_bytes, h, s.swap_num - 1);
        let root = table::entry_bytes(dev, lba_bytes, h, s.root_num - 1);
        &&& s.swap_partuuid == Some(table::guid(swap, 16))
        &&& s.swap_ptype == table::guid(swap, 0)
        &&& s.root_ptype == table::guid(root, 0)
        &&& s.swap_first_lba == bytes::le_at(swap, 32, 8)
        &&& s.root_first_lba == bytes::le_at(root, 32, 8)
    } else {
        let b = device::window(dev, 0, 512);
        &&& s.swap_partuuid is None
        &&& s.swap_ptype == text::hex2(b[450 + 16 * (s.swap_num - 1)])
        &&& s.root_ptype == text::hex2(b[450 + 16 * (s.root_num - 1)])
        &&& s.swap_first_lba == bytes::le_at(b, 454 + 16 * (s.swap_num - 1), 4)
        &&& s.root_first_lba == bytes::le_at(b, 454 + 16 * (s.root_num - 1), 4)
    }
}

/// A disk with a table on which nothing grows says why, as far as its last
/// partition decides it.
pub proof fn law_skipped_partitions_say_why<D: ReadSeek>(
    dev: D,
    path: Seq<char>,
    disk_name: Seq<char>,
    device_sectors: u64,
    lba_bytes: u64,
    policy: PolicyView,
    t: TableView,
    l: int,
)
    requires
        table::table_of(dev, lba_bytes) == Some(t),
        t.label == Label::Gpt || t.label == Label::Mbr,
        is_last(t.entries, l, -1),
    ensures
        ({
            let e = t.entries[l];
            let p = plan::plan_of(Some(dev), path, disk_name, device_sectors, lba_bytes, policy);
            let at = place(e.first_lba, lba_bytes);
            let k = fs::fs_at(dev, at);
            if plan::free_behind(plan::usable_sectors(t, device_sectors, lba_bytes), e, lba_bytes)
                < 2048 {
                p == plan::skipped("no free space after last partition"@)
            } else if k == FsKind::Btrfs && several_devices(dev, at) {
                p == plan::skipped("btrfs multi-device filesystem"@)
            } else if k == FsKind::Swap {
                t.entries.len() == 1 ==> p == plan::skipped("swap is the only partition"@)
            } else if e.is_container {
                p == plan::skipped("MBR logical/extended not supported in v1"@)
            } else if k == FsKind::Luks {
                p == plan::skipped("LUKS encryption not supported"@)
            } else if k == FsKind::Fat || k == FsKind::Exfat {
                p == plan::skipped("FAT/exFAT cannot be resized in place"@)
            } else if k == FsKind::Iso9660 {
                p == plan::skipped("ISO9660 filesystem"@)
            } else if k == FsKind::Unknown {
                p == plan::skipped("unknown filesystem"@)
            } else {
                p.action is Some <==> lets_grow(policy, e.num)
            }
        }),
{
    lemma_last(t.entries, l, -1);
    lemma_place(t.entries[l].first_lba, lba_bytes);
    let es = t.entries;
    plan::lemma_ends_last(es, l, es.len());
}

/// Behind a swap partition nothing grows but the partition that ends before it,
/// and where that one does not grow the disk is skipped with the reason.
pub proof fn law_skipped_partitions_before_swap_say_why<D: ReadSeek>(
    dev: D,
    path: Seq<char>,
    disk_name: Seq<char>,
    device_sectors: u64,
    lba_bytes: u64,
    policy: PolicyView,
    t: TableView,
    l: int,
    k: int,
)
    requires
        table::table_of(dev, lba_bytes) == Some(t),
        t.label == Label::Gpt || t.label == Label::Mbr,
        is_last(t.entries, l, -1),
        is_last(t.entries, k, l),
        fs::fs_at(dev, place(t.entries[l].first_lba, lba_bytes)) == FsKind::Swap,
        plan::free_behind(
            plan::usable_sectors(t, device_sectors, lba_bytes),
            t.entries[l],
            lba_bytes,
        ) >= 2048,
    ensures
        ({
            let e = t.entries[k];
            let p = plan::plan_of(Some(dev), path, disk_name, device_sectors, lba_bytes, policy);
            let at = place(e.first_lba, lba_bytes);
            let kind = fs::fs_at(dev, at);
            if e.is_container {
                p == plan::skipped("MBR logical/extended not supported in v1"@)
            } else if kind == FsKind::Btrfs && several_devices(dev, at) {
                p == plan::skipped("btrfs multi-device filesystem"@)
            } else if !grows_at(dev, at) {
                p == plan::skipped("swap last, no growable partition before it"@)
            } else {
                p.action is Some <==> lets_grow(policy, e.num)
            }
        }),
{
    lemma_last(t.entries, l, -1);
    lemma_last(t.entries, k, l);
    lemma_place(t.entries[l].first_lba, lba_bytes);
    lemma_place(t.entries[k].first_lba, lba_bytes);
    fs::law_sniffed_swap_can_be_read(dev, place(t.entries[l].first_lba, lba_bytes));
}

/// A disk that cannot be read, or whose table lists nothing, is skipped with the
/// reason.
pub proof fn law_unreadable_disks_are_skipped<D: ReadSeek>(
    dev: Option<D>,
    path: Seq<char>,
    disk_name: Seq<char>,
    device_sectors: u64,
    lba_bytes: u64,
    policy: PolicyView,
)
    ensures
        ({
            let p = plan::plan_of(dev, path, disk_name, device_sectors, lba_bytes, policy);
            match dev {
                None => p == plan::skipped("cannot open device"@),
                Some(d) => match table::table_of(d, lba_bytes) {
                    None => p == plan::skipped("cannot parse partition table"@),
                    Some(t) => t.label != Label::Superfloppy && t.entries.len() == 0 ==> p
                        == plan::skipped("no partitions"@),
                },
            }
        }),
{
}

/// The node of a partition is the name of its disk and its number, with a `p`
/// between them where the name ends in a digit.
pub proof fn law_partitions_are_named_after_their_disk(disk: Seq<char>, num: u32)
    requires
        disk.len() > 0,
    ensures
        ({
            let digit = '0' <= disk.last() <= '9';
            plan::part_node(disk, num) == "/dev/"@ + (if digit {
                disk + seq!['p'] + text::decimal(num as nat)
            } else {
                disk + text::decimal(num as nat)
            })
        }),
{
    reveal_strlit("p");
    assert("p"@ =~= seq!['p']);
}

/// A disk is named by what stands behind the last slash of its node.
pub proof fn law_disks_are_named_by_their_node(dir: Seq<char>, name: Seq<char>)
    requires
        !name.contains('/'),
    ensures
        plan::base_name(dir + seq!['/'] + name) == name,
        plan::base_name(name) == name,
    decreases name.len(),
{
    let all = dir + seq!['/'] + name;
    if name.len() == 0 {
        assert(all.last() == '/');
    } else {
        let before = name.drop_last();
        assert(!before.contains('/')) by {
            assert forall|i: int| 0 <= i < before.len() implies before[i] != '/' by {
                assert(name.contains(name[i]));
            }
        }
        assert(name.contains(name.last()));
        law_disks_are_named_by_their_node(dir, before);
        assert(all.last() == name.last());
        assert(all.drop_last() =~= dir + seq!['/'] + before);
        assert(before.push(name.last()) =~= name);
    }
}

/// Blocks are counted in whole sectors, and sectors in whole blocks.
pub proof fn law_units_are_converted(n: u64, lba_bytes: u64)
    requires
        lba_bytes > 0,
    ensures
        n * lba_bytes <= u64::MAX ==> plan::lba_sectors(n, lba_bytes) == (n * lba_bytes) / 512
            && plan::lba_offset(n, lba_bytes) == n * lba_bytes,
        n * 512 <= u64::MAX ==> plan::sectors_lba(n, lba_bytes) == (n * 512) / (lba_bytes as int),
{
    assert(n * lba_bytes >= 0) by (nonlinear_arith);
    assert(0 <= (n * 512) / (lba_bytes as int) <= n * 512) by (nonlinear_arith)
        requires
            lba_bytes > 0,
            n >= 0,
    ;
}

} // verus!
