//! The words of a run: the command lines of its tools, its reasons, and what it
//! tells the user to do by hand.
use super::fs::FsKind;
use super::outcome;
use super::outcome::GrowOutcome;
use super::plan;
use super::plan::{part_node_of, SurgeryPlan, SurgeryView};
use super::run;
use super::run::{
    Command, Finish, FsError, GrowRun, Job, Manual, Reason, RunView, Tool, GROW_MNT,
};
use super::success;
use crate::text;
use crate::text::{chars_of, decimal_of, part, push_decimal, push_decimal_int, string_of};
use crate::utils::BOOT_MEDIA_DIR;
use vstd::prelude::*;
use vstd::string::*;

verus! {

/// A tool and what to call it with.
pub struct CommandLine {
    pub tool: Tool,
    pub args: Vec<String>,
    pub stdin: Option<String>,
}

pub open spec fn tool_text(t: Tool) -> Seq<char> {
    match t {
        Tool::Sfdisk => "sfdisk"@,
        Tool::Mkswap => "mkswap"@,
        Tool::Partx => "partx"@,
        Tool::E2fsck => "e2fsck"@,
        Tool::Resize2fs => "resize2fs"@,
        Tool::XfsGrowfs => "xfs_growfs"@,
        Tool::Ntfsresize => "ntfsresize"@,
        Tool::Btrfs => "btrfs"@,
        Tool::Lvm => "lvm"@,
    }
}

pub fn tool_name(t: Tool) -> (r: &'static str)
    ensures
        r@ == tool_text(t),
{
    match t {
        Tool::Sfdisk => "sfdisk",
        Tool::Mkswap => "mkswap",
        Tool::Partx => "partx",
        Tool::E2fsck => "e2fsck",
        Tool::Resize2fs => "resize2fs",
        Tool::XfsGrowfs => "xfs_growfs",
        Tool::Ntfsresize => "ntfsresize",
        Tool::Btrfs => "btrfs",
        Tool::Lvm => "lvm",
    }
}

/// Where a tool stands on the installation medium.
pub fn tool_path(t: Tool) -> (r: String)
    ensures
        r@ == BOOT_MEDIA_DIR@ + "/grow/"@ + tool_text(t),
{
    let mut s = BOOT_MEDIA_DIR.to_owned();
    s.append("/grow/");
    s.append(tool_name(t));
    s
}

/// The tool of a command.
pub open spec fn tool_of(c: Command) -> Tool {
    match c {
        Command::Relocate
        | Command::GrowLast
        | Command::DeleteSwap
        | Command::ResizeRoot
        | Command::CreateSwap
        | Command::RestorePartUuid => Tool::Sfdisk,
        Command::MakeSwap => Tool::Mkswap,
        Command::PartxAdd | Command::PartxUpdate => Tool::Partx,
        Command::CheckExt => Tool::E2fsck,
        Command::ResizeExt => Tool::Resize2fs,
        Command::GrowXfs => Tool::XfsGrowfs,
        Command::GrowBtrfs => Tool::Btrfs,
        Command::CheckNtfs | Command::ResizeNtfs => Tool::Ntfsresize,
        Command::PvResize
        | Command::PvGroup
        | Command::GroupVolumes
        | Command::ActivateGroup
        | Command::ExtendVolume
        | Command::VolumeNode => Tool::Lvm,
    }
}

pub open spec fn surgery(s: RunView) -> SurgeryView {
    s.surgery->0
}

/// The device node of the swap partition.
pub open spec fn swap_node(s: RunView) -> Seq<char> {
    plan::part_node(s.disk_name, surgery(s).swap_num)
}

/// A UUID with dashes between its groups, as `mkswap` wants it.
pub open spec fn dashed(u: Seq<char>) -> Seq<char> {
    if u.len() == 32 {
        u.subrange(0, 8) + "-"@ + u.subrange(8, 12) + "-"@ + u.subrange(12, 16) + "-"@ + u.subrange(
            16,
            20,
        ) + "-"@ + u.subrange(20, 32)
    } else {
        u
    }
}

pub open spec fn volume_path(s: RunView) -> Seq<char> {
    "/dev/"@ + s.vg + "/"@ + s.lv
}

/// The arguments of a command.
pub open spec fn args_of(s: RunView, c: Command) -> Seq<Seq<char>> {
    match c {
        Command::Relocate => seq!["--relocate"@, "gpt-bak-std"@, s.disk],
        Command::GrowLast => seq!["-N"@, text::decimal(s.part_num as nat), s.disk],
        Command::DeleteSwap => seq![
            "--delete"@,
            s.disk,
            text::decimal(surgery(s).swap_num as nat),
        ],
        Command::ResizeRoot => seq!["-N"@, text::decimal(surgery(s).root_num as nat), s.disk],
        Command::CreateSwap => seq!["-N"@, text::decimal(surgery(s).swap_num as nat), s.disk],
        Command::RestorePartUuid => seq![
            "--part-uuid"@,
            s.disk,
            text::decimal(surgery(s).swap_num as nat),
            surgery(s).swap_partuuid->0,
        ],
        Command::MakeSwap => if surgery(s).swap_label.len() == 0 {
            seq!["-U"@, dashed(surgery(s).swap_uuid), swap_node(s)]
        } else {
            seq![
                "-U"@,
                dashed(surgery(s).swap_uuid),
                "-L"@,
                surgery(s).swap_label,
                swap_node(s),
            ]
        },
        Command::PartxAdd => seq!["-a"@, s.disk],
        Command::PartxUpdate => seq!["-u"@, s.disk],
        Command::CheckExt => seq!["-fp"@, s.target],
        Command::ResizeExt => seq![s.target],
        Command::GrowXfs => seq!["-d"@, GROW_MNT@],
        Command::GrowBtrfs => seq!["filesystem"@, "resize"@, "max"@, GROW_MNT@],
        Command::CheckNtfs => seq!["-n"@, "-P"@, s.target],
        Command::ResizeNtfs => seq!["-ff"@, "-P"@, s.target],
        Command::PvResize => seq!["pvresize"@, s.target],
        Command::PvGroup => seq!["pvs"@, "--noheadings"@, "-o"@, "vg_name"@, s.target],
        Command::GroupVolumes => seq!["lvs"@, "--noheadings"@, "-o"@, "lv_name,lv_attr"@, s.vg],
        Command::ActivateGroup => seq!["vgchange"@, "-ay"@, s.vg],
        Command::ExtendVolume => seq!["lvextend"@, "-l"@, "+100%FREE"@, volume_path(s)],
        Command::VolumeNode => seq!["lvs"@, "--noheadings"@, "-o"@, "dm_path"@, volume_path(s)],
    }
}

/// What a command reads: `sfdisk` takes the new start, size and type of a
/// partition, and keeps what it is not given.
pub open spec fn stdin_of(s: RunView, c: Command) -> Option<Seq<char>> {
    match c {
        Command::GrowLast => Some(", +\n"@),
        Command::ResizeRoot => Some(
            ", "@ + text::decimal(s.root_new_size as nat) + ", type="@ + surgery(s).root_ptype
                + "\n"@,
        ),
        Command::CreateSwap => Some(
            text::decimal(s.new_swap_start as nat) + ", "@ + text::decimal(
                surgery(s).swap_sectors as nat,
            ) + ", type="@ + surgery(s).swap_ptype + "\n"@,
        ),
        _ => None,
    }
}

fn args1(a: &str) -> (r: Vec<String>)
    ensures
        text::strings(r@) == seq![a@],
{
    let mut v: Vec<String> = Vec::new();
    v.push(a.to_owned());
    assert(text::strings(v@) =~= seq![a@]);
    v
}

fn args2(a: &str, b: &str) -> (r: Vec<String>)
    ensures
        text::strings(r@) == seq![a@, b@],
{
    let mut v = args1(a);
    let ghost before = text::strings(v@);
    v.push(b.to_owned());
    assert(text::strings(v@) =~= before.push(b@));
    assert(text::strings(v@) =~= seq![a@, b@]);
    v
}

fn args3(a: &str, b: &str, c: &str) -> (r: Vec<String>)
    ensures
        text::strings(r@) == seq![a@, b@, c@],
{
    let mut v = args2(a, b);
    let ghost before = text::strings(v@);
    v.push(c.to_owned());
    assert(text::strings(v@) =~= before.push(c@));
    assert(text::strings(v@) =~= seq![a@, b@, c@]);
    v
}

fn args4(a: &str, b: &str, c: &str, d: &str) -> (r: Vec<String>)
    ensures
        text::strings(r@) == seq![a@, b@, c@, d@],
{
    let mut v = args3(a, b, c);
    let ghost before = text::strings(v@);
    v.push(d.to_owned());
    assert(text::strings(v@) =~= before.push(d@));
    assert(text::strings(v@) =~= seq![a@, b@, c@, d@]);
    v
}

fn args5(a: &str, b: &str, c: &str, d: &str, e: &str) -> (r: Vec<String>)
    ensures
        text::strings(r@) == seq![a@, b@, c@, d@, e@],
{
    let mut v = args4(a, b, c, d);
    let ghost before = text::strings(v@);
    v.push(e.to_owned());
    assert(text::strings(v@) =~= before.push(e@));
    assert(text::strings(v@) =~= seq![a@, b@, c@, d@, e@]);
    v
}

fn dashed_of(u: &str) -> (r: String)
    ensures
        r@ == dashed(u@),
{
    let v = chars_of(u);
    if v.len() != 32 {
        return u.to_owned();
    }
    let mut s = string_of(&part(&v, 0, 8));
    s.append("-");
    s.append(string_of(&part(&v, 8, 12)).as_str());
    s.append("-");
    s.append(string_of(&part(&v, 12, 16)).as_str());
    s.append("-");
    s.append(string_of(&part(&v, 16, 20)).as_str());
    s.append("-");
    s.append(string_of(&part(&v, 20, 32)).as_str());
    s
}

/// `a`, the exit code and `b`.
pub open spec fn with_code(a: Seq<char>, c: i32, b: Seq<char>) -> Seq<char> {
    a + text::decimal_int(c as int) + b
}

fn coded(a: &str, c: i32, b: &str) -> (r: String)
    ensures
        r@ == with_code(a@, c, b@),
{
    let mut s = a.to_owned();
    push_decimal_int(&mut s, c);
    s.append(b);
    s
}

/// `a`, a text and `b`.
pub open spec fn around(a: Seq<char>, t: Seq<char>, b: Seq<char>) -> Seq<char> {
    a + t + b
}

fn wrapped(a: &str, t: &str, b: &str) -> (r: String)
    ensures
        r@ == around(a@, t@, b@),
{
    let mut s = a.to_owned();
    s.append(t);
    s.append(b);
    s
}

/// The first `n` names, with commas between them.
pub open spec fn listed(names: Seq<Seq<char>>, n: nat) -> Seq<char>
    decreases n,
{
    if n == 0 {
        seq![]
    } else if n == 1 {
        names[0]
    } else {
        listed(names, (n - 1) as nat) + ", "@ + names[n - 1]
    }
}

pub open spec fn tool_texts(ts: Seq<Tool>) -> Seq<Seq<char>> {
    Seq::new(ts.len(), |i: int| tool_text(ts[i]))
}

pub open spec fn first_texts(v: Seq<(Seq<char>, Seq<char>)>) -> Seq<Seq<char>> {
    Seq::new(v.len(), |i: int| v[i].0)
}

/// Which tools are not there.
pub open spec fn missing_text(s: RunView) -> Seq<char> {
    "tools not bundled: "@ + listed(tool_texts(s.missing), s.missing.len())
}

pub open spec fn kind_text(k: FsKind) -> Seq<char> {
    match k {
        FsKind::Ext => "Ext"@,
        FsKind::Xfs => "Xfs"@,
        FsKind::Ntfs => "Ntfs"@,
        FsKind::Btrfs => "Btrfs"@,
        FsKind::Swap => "Swap"@,
        FsKind::Luks => "Luks"@,
        FsKind::Lvm => "Lvm"@,
        FsKind::Fat => "Fat"@,
        FsKind::Exfat => "Exfat"@,
        FsKind::Iso9660 => "Iso9660"@,
        FsKind::Unknown => "Unknown"@,
    }
}

fn kind_name(k: FsKind) -> (r: &'static str)
    ensures
        r@ == kind_text(k),
{
    match k {
        FsKind::Ext => "Ext",
        FsKind::Xfs => "Xfs",
        FsKind::Ntfs => "Ntfs",
        FsKind::Btrfs => "Btrfs",
        FsKind::Swap => "Swap",
        FsKind::Luks => "Luks",
        FsKind::Lvm => "Lvm",
        FsKind::Fat => "Fat",
        FsKind::Exfat => "Exfat",
        FsKind::Iso9660 => "Iso9660",
        FsKind::Unknown => "Unknown",
    }
}

/// Why a filesystem did not grow.
pub open spec fn fs_error_text(s: RunView, e: FsError) -> Seq<char> {
    match e {
        FsError::Unsupported => "unsupported filesystem"@,
        FsError::E2fsckSpawn => "e2fsck spawn failed"@,
        FsError::E2fsckRejected(c) => with_code("e2fsck rejected (exit "@, c, ", filesystem inconsistent)"@),
        FsError::Resize2fsSpawn => "resize2fs spawn failed"@,
        FsError::Resize2fsFailed(c) => with_code("resize2fs failed (exit "@, c, ")"@),
        FsError::XfsMount => "XFS kernel support unavailable"@,
        FsError::XfsGrow => "xfs_growfs failed"@,
        FsError::BtrfsMount => "Btrfs kernel support unavailable"@,
        FsError::BtrfsGrow => "btrfs filesystem resize failed"@,
        FsError::NtfsSpawn => "ntfsresize spawn failed"@,
        FsError::NtfsRejected(c) => with_code("ntfsresize dry-run rejected (exit "@, c, ", volume dirty or hibernated)"@),
        FsError::NtfsFailed(c) => with_code("ntfsresize failed (exit "@, c, ")"@),
        FsError::LvmSpawn => "lvm spawn failed"@,
        FsError::PvResizeFailed(c) => with_code("pvresize failed (exit "@, c, ")"@),
        FsError::PvsFailed(c) => with_code("pvs failed (exit "@, c, ")"@),
        FsError::NoGroup => "PV not in any volume group"@,
        FsError::LvsFailed(c) => with_code("lvs failed (exit "@, c, ")"@),
        FsError::ActivateFailed(c) => with_code("vgchange -ay failed (exit "@, c, ")"@),
        FsError::ExtendFailed(c) => with_code("lvextend failed (exit "@, c, ")"@),
        FsError::NodeFailed(c) => with_code("lvs dm_path failed (exit "@, c, ")"@),
        FsError::NoNode => "cannot resolve LV device path"@,
        FsError::VolumeUndeclared => "volume group "@ + s.vg + " has "@ + text::decimal(
            s.lvs.len(),
        ) + " logical volumes; declare one via grow.conf 'lv=<name>' (found: "@ + listed(
            first_texts(s.lvs),
            s.lvs.len(),
        ) + ")"@,
        FsError::NodeUnreadable => "cannot open LV device "@ + s.target,
        FsError::VolumeNotGrowable(k) => around(
            "LV filesystem not growable ("@,
            kind_text(k),
            ")"@,
        ),
        FsError::VolumeToolsMissing => missing_text(s) + " (LV "@ + s.target + ")"@,
    }
}

/// Why a run ended as it did.
pub open spec fn reason_text(s: RunView, r: Reason) -> Seq<char> {
    match r {
        Reason::Nothing => ""@,
        Reason::NoDeviceSize => "cannot read device size"@,
        Reason::RelocateUnknown => "gpt relocate failed (state unknown)"@,
        Reason::GrowFailed(c) => with_code("sfdisk partition grow failed (exit "@, c, ")"@),
        Reason::SfdiskSpawn => "sfdisk spawn failed"@,
        Reason::RereadFailed => "kernel partition reread failed"@,
        Reason::HeaderLost => "cannot re-read GPT header after relocate"@,
        Reason::SwapUnderflow => "surgery plan arithmetic underflow (abnormal last usable lba)"@,
        Reason::RootUnderflow => "surgery plan arithmetic underflow (root start)"@,
        Reason::DeleteFailed(c) => with_code("swap delete failed (exit "@, c, ")"@),
        Reason::RootFailed(c) => with_code("swap deleted; target unchanged (root expand exit "@, c, ")"@),
        Reason::SwapFailed(c) => with_code("target expanded; swap missing (recreate exit "@, c, ")"@),
        Reason::PartUuidFailed => "target expanded; swap recreation incomplete (part-uuid restore failed)"@,
        Reason::MkswapFailed(c) => with_code("target expanded; swap recreation incomplete (mkswap exit "@, c, ")"@),
        Reason::MkswapSpawn => "mkswap spawn failed"@,
        Reason::Planned => match s.skip_reason {
            Some(t) => t,
            None => "not growable"@,
        },
        Reason::ToolsMissing => missing_text(s),
        Reason::RelocateFailed => around(
            "gpt backup header relocate failed (repair: sfdisk --relocate gpt-bak-std "@,
            s.disk,
            ")"@,
        ),
        Reason::Fs(e) => fs_error_text(s, e),
        Reason::FsAfterGrow(e) => around(
            "partition expanded; filesystem resize failed ("@,
            fs_error_text(s, e),
            ")"@,
        ),
        Reason::FsAfterSurgery(e) => around(
            "swap rebuilt; fs resize failed ("@,
            fs_error_text(s, e),
            ")"@,
        ),
    }
}

/// How to grow a filesystem by hand.
pub open spec fn fs_commands(fs: FsKind, dev: Seq<char>) -> Seq<char> {
    match fs {
        FsKind::Ext => "e2fsck -fp "@ + dev + " && resize2fs "@ + dev,
        FsKind::Xfs => around(
            "mount -t xfs "@,
            dev,
            " /mnt && xfs_growfs -d /mnt && umount /mnt"@,
        ),
        FsKind::Ntfs => "ntfsresize "@ + dev,
        FsKind::Btrfs => around(
            "mount -t btrfs "@,
            dev,
            " /mnt && btrfs filesystem resize max /mnt && umount /mnt"@,
        ),
        FsKind::Lvm => around(
            "pvresize "@,
            dev,
            "; pvs; vgchange -ay <vg>; lvextend -l +100%FREE <vg>/<lv>; resize2fs /dev/mapper/<vg>-<lv> (xfs: mount+xfs_growfs -d, btrfs: mount+btrfs filesystem resize max)"@,
        ),
        _ => ""@,
    }
}

/// Letters, digits, `_`, `.` and `-` stay; a label is read from the disk, and
/// no other character of it may reach a shell.
pub open spec fn shell_safe(c: char) -> char {
    if ('a' <= c <= 'z') || ('A' <= c <= 'Z') || text::is_digit(c) || c == '_' || c == '.' || c
        == '-' {
        c
    } else {
        '_'
    }
}

pub open spec fn shell_safe_text(t: Seq<char>) -> Seq<char> {
    Seq::new(t.len(), |i: int| shell_safe(t[i]))
}

pub open spec fn mkswap_command(s: RunView) -> Seq<char> {
    let label = surgery(s).swap_label;
    "mkswap -U "@ + dashed(surgery(s).swap_uuid) + (if label.len() == 0 {
        seq![]
    } else {
        " -L "@ + shell_safe_text(label)
    }) + " "@ + swap_node(s)
}

pub open spec fn partuuid_command(s: RunView) -> Seq<char> {
    match surgery(s).swap_partuuid {
        Some(u) => "; sfdisk --part-uuid "@ + s.disk + " "@ + text::decimal(
            surgery(s).swap_num as nat,
        ) + " "@ + u,
        None => seq![],
    }
}

/// How to make the swap partition anew at `start`.
pub open spec fn recreate_commands(s: RunView, start: u64) -> Seq<char> {
    "printf '"@ + text::decimal(start as nat) + ", "@ + text::decimal(
        surgery(s).swap_sectors as nat,
    ) + ", type="@ + surgery(s).swap_ptype + "' | sfdisk -N "@ + text::decimal(
        surgery(s).swap_num as nat,
    ) + " "@ + s.disk + partuuid_command(s) + "; "@ + mkswap_command(s)
}

/// How to grow the last partition.
pub open spec fn grow_commands(s: RunView) -> Seq<char> {
    "printf ', +' | sfdisk -N "@ + text::decimal(s.part_num as nat) + " "@ + s.disk + " && "@
}

/// How to delete swap and to let root take its place.
pub open spec fn move_commands(s: RunView) -> Seq<char> {
    "sfdisk --delete "@ + s.disk + " "@ + text::decimal(surgery(s).swap_num as nat)
        + " && printf ', "@ + text::decimal(s.root_new_size as nat) + ", type="@ + surgery(
        s,
    ).root_ptype + "' | sfdisk -N "@ + text::decimal(surgery(s).root_num as nat) + " "@ + s.disk
        + " && "@
}

/// What the user can do by hand.
pub open spec fn manual_text(s: RunView, m: Manual) -> Seq<char> {
    match m {
        Manual::Nothing => ""@,
        Manual::GrowFs => fs_commands(s.plan_fs, s.part_dev),
        Manual::GrowLast => grow_commands(s) + fs_commands(s.plan_fs, s.part_dev),
        Manual::MoveSwap => move_commands(s) + recreate_commands(s, s.new_swap_start) + "; "@
            + fs_commands(s.plan_fs, s.part_dev),
        Manual::SwapBack => recreate_commands(s, surgery(s).swap_first_lba),
        Manual::SwapAtEnd => recreate_commands(s, s.new_swap_start),
        Manual::SwapArea => mkswap_command(s) + partuuid_command(s),
    }
}

/// The report of a run that has ended.
pub open spec fn outcome_of(s: RunView, f: Finish) -> outcome::OutcomeView {
    outcome::OutcomeView {
        status: f.status,
        device: s.disk,
        reason: reason_text(s, f.reason),
        manual_cmd: manual_text(s, f.manual),
        old_bytes: f.old_bytes,
        new_bytes: f.new_bytes,
    }
}

pub fn manual_cmd_for_fs(fs: FsKind, dev: &str) -> (r: String)
    ensures
        r@ == fs_commands(fs, dev@),
{
    match fs {
        FsKind::Ext => {
            let mut s = "e2fsck -fp ".to_owned();
            s.append(dev);
            s.append(" && resize2fs ");
            s.append(dev);
            s
        },
        FsKind::Xfs => wrapped(
            "mount -t xfs ",
            dev,
            " /mnt && xfs_growfs -d /mnt && umount /mnt",
        ),
        FsKind::Ntfs => {
            let mut s = "ntfsresize ".to_owned();
            s.append(dev);
            s
        },
        FsKind::Btrfs => wrapped(
            "mount -t btrfs ",
            dev,
            " /mnt && btrfs filesystem resize max /mnt && umount /mnt",
        ),
        FsKind::Lvm => wrapped(
            "pvresize ",
            dev,
            "; pvs; vgchange -ay <vg>; lvextend -l +100%FREE <vg>/<lv>; resize2fs /dev/mapper/<vg>-<lv> (xfs: mount+xfs_growfs -d, btrfs: mount+btrfs filesystem resize max)",
        ),
        _ => "".to_owned(),
    }
}

fn safe_label(t: &str) -> (r: String)
    ensures
        r@ == shell_safe_text(t@),
{
    let v = chars_of(t);
    let mut s = String::new();
    let mut i: usize = 0;
    while i < v.len()
        invariant
            i <= v@.len(),
            s@ == shell_safe_text(v@.take(i as int)),
        decreases v@.len() - i,
    {
        let c: char = v[i];
        let keep = ('a' <= c && c <= 'z') || ('A' <= c && c <= 'Z') || ('0' <= c && c <= '9') || c
            == '_' || c == '.' || c == '-';
        s.push(
            if keep {
                c
            } else {
                '_'
            },
        );
        i = i + 1;
        assert(s@ =~= shell_safe_text(v@.take(i as int)));
    }
    assert(v@.take(v@.len() as int) =~= v@);
    s
}

impl GrowRun {
    fn mkswap_cmd(&self, g: &SurgeryPlan) -> (r: String)
        requires
            self@.surgery == Some(g@),
        ensures
            r@ == mkswap_command(self@),
    {
        let mut s = "mkswap -U ".to_owned();
        s.append(dashed_of(g.swap_uuid.as_str()).as_str());
        let label = chars_of(g.swap_label.as_str());
        if label.len() > 0 {
            let mut l = " -L ".to_owned();
            l.append(safe_label(g.swap_label.as_str()).as_str());
            s.append(l.as_str());
        } else {
            assert(s@ + Seq::<char>::empty() =~= s@);
        }
        s.append(" ");
        s.append(part_node_of(self.disk_name.as_str(), g.swap_num).as_str());
        s
    }

    fn partuuid_cmd(&self, g: &SurgeryPlan) -> (r: String)
        requires
            self@.surgery == Some(g@),
        ensures
            r@ == partuuid_command(self@),
    {
        match &g.swap_partuuid {
            Some(u) => {
                let mut s = "; sfdisk --part-uuid ".to_owned();
                s.append(self.disk.as_str());
                s.append(" ");
                push_decimal(&mut s, g.swap_num as u64);
                s.append(" ");
                s.append(u.as_str());
                s
            },
            None => String::new(),
        }
    }

    fn recreate_cmd(&self, g: &SurgeryPlan, start: u64) -> (r: String)
        requires
            self@.surgery == Some(g@),
        ensures
            r@ == recreate_commands(self@, start),
    {
        let mut s = "printf '".to_owned();
        push_decimal(&mut s, start);
        s.append(", ");
        push_decimal(&mut s, g.swap_sectors);
        s.append(", type=");
        s.append(g.swap_ptype.as_str());
        s.append("' | sfdisk -N ");
        push_decimal(&mut s, g.swap_num as u64);
        s.append(" ");
        s.append(self.disk.as_str());
        s.append(self.partuuid_cmd(g).as_str());
        s.append("; ");
        s.append(self.mkswap_cmd(g).as_str());
        s
    }

    fn grow_cmd(&self) -> (r: String)
        ensures
            r@ == grow_commands(self@),
    {
        let mut s = "printf ', +' | sfdisk -N ".to_owned();
        push_decimal(&mut s, self.part_num as u64);
        s.append(" ");
        s.append(self.disk.as_str());
        s.append(" && ");
        s
    }

    fn move_cmd(&self, g: &SurgeryPlan) -> (r: String)
        requires
            self@.surgery == Some(g@),
        ensures
            r@ == move_commands(self@),
    {
        let mut s = "sfdisk --delete ".to_owned();
        s.append(self.disk.as_str());
        s.append(" ");
        push_decimal(&mut s, g.swap_num as u64);
        s.append(" && printf ', ");
        push_decimal(&mut s, self.root_new_size);
        s.append(", type=");
        s.append(g.root_ptype.as_str());
        s.append("' | sfdisk -N ");
        push_decimal(&mut s, g.root_num as u64);
        s.append(" ");
        s.append(self.disk.as_str());
        s.append(" && ");
        s
    }

    fn manual_cmd(&self, m: Manual) -> (r: String)
        requires
            m is SwapBack || m is SwapAtEnd || m is SwapArea || m is MoveSwap
                ==> self.surgery is Some,
        ensures
            r@ == manual_text(self@, m),
    {
        match (m, &self.surgery) {
            (Manual::GrowFs, _) => manual_cmd_for_fs(self.plan_fs, self.part_dev.as_str()),
            (Manual::GrowLast, _) => {
                let mut s = self.grow_cmd();
                s.append(manual_cmd_for_fs(self.plan_fs, self.part_dev.as_str()).as_str());
                s
            },
            (Manual::MoveSwap, Some(g)) => {
                let mut s = self.move_cmd(g);
                s.append(self.recreate_cmd(g, self.new_swap_start).as_str());
                s.append("; ");
                s.append(manual_cmd_for_fs(self.plan_fs, self.part_dev.as_str()).as_str());
                s
            },
            (Manual::SwapBack, Some(g)) => self.recreate_cmd(g, g.swap_first_lba),
            (Manual::SwapAtEnd, Some(g)) => self.recreate_cmd(g, self.new_swap_start),
            (Manual::SwapArea, Some(g)) => {
                let mut s = self.mkswap_cmd(g);
                s.append(self.partuuid_cmd(g).as_str());
                s
            },
            _ => "".to_owned(),
        }
    }

    fn missing_reason(&self) -> (r: String)
        ensures
            r@ == missing_text(self@),
    {
        let ghost names = tool_texts(self.missing@);
        let mut s = String::new();
        let mut i: usize = 0;
        assert(s@ =~= listed(names, 0));
        while i < self.missing.len()
            invariant
                i <= self.missing@.len(),
                names == tool_texts(self.missing@),
                s@ == listed(names, i as nat),
            decreases self.missing@.len() - i,
        {
            let ghost before = s@;
            if i > 0 {
                s.append(", ");
            }
            s.append(tool_name(self.missing[i]));
            proof {
                if i == 0 {
                    assert(s@ =~= names[0]);
                }
            }
            i = i + 1;
        }
        let mut r = "tools not bundled: ".to_owned();
        r.append(s.as_str());
        r
    }

    fn volume_names(&self) -> (r: String)
        ensures
            r@ == listed(first_texts(self@.lvs), self@.lvs.len()),
    {
        let ghost names = first_texts(self@.lvs);
        let mut s = String::new();
        let mut i: usize = 0;
        assert(s@ =~= listed(names, 0));
        while i < self.lvs.len()
            invariant
                i <= self.lvs@.len(),
                names == first_texts(self@.lvs),
                s@ == listed(names, i as nat),
            decreases self.lvs@.len() - i,
        {
            assert(names[i as int] == self.lvs@[i as int].0@);
            if i > 0 {
                s.append(", ");
            }
            s.append(self.lvs[i].0.as_str());
            proof {
                if i == 0 {
                    assert(s@ =~= names[0]);
                }
            }
            i = i + 1;
        }
        s
    }

    fn fs_error(&self, e: FsError) -> (r: String)
        ensures
            r@ == fs_error_text(self@, e),
    {
        match e {
            FsError::Unsupported => "unsupported filesystem".to_owned(),
            FsError::E2fsckSpawn => "e2fsck spawn failed".to_owned(),
            FsError::E2fsckRejected(c) => coded("e2fsck rejected (exit ", c, ", filesystem inconsistent)"),
            FsError::Resize2fsSpawn => "resize2fs spawn failed".to_owned(),
            FsError::Resize2fsFailed(c) => coded("resize2fs failed (exit ", c, ")"),
            FsError::XfsMount => "XFS kernel support unavailable".to_owned(),
            FsError::XfsGrow => "xfs_growfs failed".to_owned(),
            FsError::BtrfsMount => "Btrfs kernel support unavailable".to_owned(),
            FsError::BtrfsGrow => "btrfs filesystem resize failed".to_owned(),
            FsError::NtfsSpawn => "ntfsresize spawn failed".to_owned(),
            FsError::NtfsRejected(c) => coded("ntfsresize dry-run rejected (exit ", c, ", volume dirty or hibernated)"),
            FsError::NtfsFailed(c) => coded("ntfsresize failed (exit ", c, ")"),
            FsError::LvmSpawn => "lvm spawn failed".to_owned(),
            FsError::PvResizeFailed(c) => coded("pvresize failed (exit ", c, ")"),
            FsError::PvsFailed(c) => coded("pvs failed (exit ", c, ")"),
            FsError::NoGroup => "PV not in any volume group".to_owned(),
            FsError::LvsFailed(c) => coded("lvs failed (exit ", c, ")"),
            FsError::ActivateFailed(c) => coded("vgchange -ay failed (exit ", c, ")"),
            FsError::ExtendFailed(c) => coded("lvextend failed (exit ", c, ")"),
            FsError::NodeFailed(c) => coded("lvs dm_path failed (exit ", c, ")"),
            FsError::NoNode => "cannot resolve LV device path".to_owned(),
            FsError::VolumeUndeclared => {
                let mut s = "volume group ".to_owned();
                s.append(self.vg.as_str());
                s.append(" has ");
                push_decimal(&mut s, self.lvs.len() as u64);
                s.append(" logical volumes; declare one via grow.conf 'lv=<name>' (found: ");
                s.append(self.volume_names().as_str());
                s.append(")");
                s
            },
            FsError::NodeUnreadable => {
                let mut s = "cannot open LV device ".to_owned();
                s.append(self.target.as_str());
                s
            },
            FsError::VolumeNotGrowable(k) => wrapped(
                "LV filesystem not growable (",
                kind_name(k),
                ")",
            ),
            FsError::VolumeToolsMissing => {
                let mut s = self.missing_reason();
                s.append(" (LV ");
                s.append(self.target.as_str());
                s.append(")");
                s
            },
        }
    }

    fn reason(&self, r: Reason) -> (t: String)
        ensures
            t@ == reason_text(self@, r),
    {
        match r {
            Reason::Nothing => "".to_owned(),
            Reason::NoDeviceSize => "cannot read device size".to_owned(),
            Reason::RelocateUnknown => "gpt relocate failed (state unknown)".to_owned(),
            Reason::GrowFailed(c) => coded("sfdisk partition grow failed (exit ", c, ")"),
            Reason::SfdiskSpawn => "sfdisk spawn failed".to_owned(),
            Reason::RereadFailed => "kernel partition reread failed".to_owned(),
            Reason::HeaderLost => "cannot re-read GPT header after relocate".to_owned(),
            Reason::SwapUnderflow => "surgery plan arithmetic underflow (abnormal last usable lba)".to_owned(),
            Reason::RootUnderflow => "surgery plan arithmetic underflow (root start)".to_owned(),
            Reason::DeleteFailed(c) => coded("swap delete failed (exit ", c, ")"),
            Reason::RootFailed(c) => coded("swap deleted; target unchanged (root expand exit ", c, ")"),
            Reason::SwapFailed(c) => coded("target expanded; swap missing (recreate exit ", c, ")"),
            Reason::PartUuidFailed => "target expanded; swap recreation incomplete (part-uuid restore failed)".to_owned(),
            Reason::MkswapFailed(c) => coded("target expanded; swap recreation incomplete (mkswap exit ", c, ")"),
            Reason::MkswapSpawn => "mkswap spawn failed".to_owned(),
            Reason::Planned => match &self.skip_reason {
                Some(t) => t.clone(),
                None => "not growable".to_owned(),
            },
            Reason::ToolsMissing => self.missing_reason(),
            Reason::RelocateFailed => wrapped(
                "gpt backup header relocate failed (repair: sfdisk --relocate gpt-bak-std ",
                self.disk.as_str(),
                ")",
            ),
            Reason::Fs(e) => self.fs_error(e),
            Reason::FsAfterGrow(e) => wrapped(
                "partition expanded; filesystem resize failed (",
                self.fs_error(e).as_str(),
                ")",
            ),
            Reason::FsAfterSurgery(e) => wrapped(
                "swap rebuilt; fs resize failed (",
                self.fs_error(e).as_str(),
                ")",
            ),
        }
    }

    /// The report of a run that has ended.
    pub fn report(&self, f: Finish) -> (r: GrowOutcome)
        requires
            run::sound(self@),
            run::job_of(self@) == Job::Finish(f),
        ensures
            r@ == outcome_of(self@, f),
    {
        GrowOutcome {
            status: f.status,
            device: self.disk.clone(),
            reason: self.reason(f.reason),
            manual_cmd: self.manual_cmd(f.manual),
            old_bytes: f.old_bytes,
            new_bytes: f.new_bytes,
        }
    }

    fn volume_node(&self) -> (r: String)
        ensures
            r@ == volume_path(self@),
    {
        let mut s = "/dev/".to_owned();
        s.append(self.vg.as_str());
        s.append("/");
        s.append(self.lv.as_str());
        s
    }

    fn swap_command(&self, c: Command, g: &SurgeryPlan) -> (r: CommandLine)
        requires
            self@.surgery == Some(g@),
            c is RestorePartUuid ==> g.swap_partuuid is Some,
            c is DeleteSwap || c is ResizeRoot || c is CreateSwap || c is RestorePartUuid
                || c is MakeSwap,
        ensures
            r.tool == tool_of(c),
            text::strings(r.args@) == args_of(self@, c),
            text::opt_text(r.stdin) == stdin_of(self@, c),
    {
        let disk = self.disk.as_str();
        let swap = decimal_of(g.swap_num as u64);
        match c {
            Command::DeleteSwap => CommandLine {
                tool: Tool::Sfdisk,
                args: args3("--delete", disk, swap.as_str()),
                stdin: None,
            },
            Command::ResizeRoot => {
                let mut s = ", ".to_owned();
                push_decimal(&mut s, self.root_new_size);
                s.append(", type=");
                s.append(g.root_ptype.as_str());
                s.append("\n");
                CommandLine {
                    tool: Tool::Sfdisk,
                    args: args3("-N", decimal_of(g.root_num as u64).as_str(), disk),
                    stdin: Some(s),
                }
            },
            Command::CreateSwap => {
                let mut s = decimal_of(self.new_swap_start);
                s.append(", ");
                push_decimal(&mut s, g.swap_sectors);
                s.append(", type=");
                s.append(g.swap_ptype.as_str());
                s.append("\n");
                CommandLine {
                    tool: Tool::Sfdisk,
                    args: args3("-N", swap.as_str(), disk),
                    stdin: Some(s),
                }
            },
            Command::MakeSwap => {
                let uuid = dashed_of(g.swap_uuid.as_str());
                let node = part_node_of(self.disk_name.as_str(), g.swap_num);
                let label = chars_of(g.swap_label.as_str());
                let args = if label.len() == 0 {
                    args3("-U", uuid.as_str(), node.as_str())
                } else {
                    args5("-U", uuid.as_str(), "-L", g.swap_label.as_str(), node.as_str())
                };
                CommandLine { tool: Tool::Mkswap, args, stdin: None }
            },
            _ => {
                let args = match &g.swap_partuuid {
                    Some(u) => args4("--part-uuid", disk, swap.as_str(), u.as_str()),
                    None => Vec::new(),
                };
                CommandLine { tool: Tool::Sfdisk, args, stdin: None }
            },
        }
    }

    /// The command line of the current job.
    pub fn command_line(&self, c: Command) -> (r: CommandLine)
        requires
            run::sound(self@),
            run::job_of(self@) == Job::Run(c) || run::job_of(self@) == Job::Capture(c),
        ensures
            r.tool == tool_of(c),
            text::strings(r.args@) == args_of(self@, c),
            text::opt_text(r.stdin) == stdin_of(self@, c),
    {
        let disk = self.disk.as_str();
        let target = self.target.as_str();
        match (c, &self.surgery) {
            (Command::Relocate, _) => CommandLine {
                tool: Tool::Sfdisk,
                args: args3("--relocate", "gpt-bak-std", disk),
                stdin: None,
            },
            (Command::GrowLast, _) => CommandLine {
                tool: Tool::Sfdisk,
                args: args3("-N", decimal_of(self.part_num as u64).as_str(), disk),
                stdin: Some(", +\n".to_owned()),
            },
            (Command::PartxAdd, _) => CommandLine {
                tool: Tool::Partx,
                args: args2("-a", disk),
                stdin: None,
            },
            (Command::PartxUpdate, _) => CommandLine {
                tool: Tool::Partx,
                args: args2("-u", disk),
                stdin: None,
            },
            (Command::CheckExt, _) => CommandLine {
                tool: Tool::E2fsck,
                args: args2("-fp", target),
                stdin: None,
            },
            (Command::ResizeExt, _) => CommandLine {
                tool: Tool::Resize2fs,
                args: args1(target),
                stdin: None,
            },
            (Command::GrowXfs, _) => CommandLine {
                tool: Tool::XfsGrowfs,
                args: args2("-d", GROW_MNT),
                stdin: None,
            },
            (Command::GrowBtrfs, _) => CommandLine {
                tool: Tool::Btrfs,
                args: args4("filesystem", "resize", "max", GROW_MNT),
                stdin: None,
            },
            (Command::CheckNtfs, _) => CommandLine {
                tool: Tool::Ntfsresize,
                args: args3("-n", "-P", target),
                stdin: None,
            },
            (Command::ResizeNtfs, _) => CommandLine {
                tool: Tool::Ntfsresize,
                args: args3("-ff", "-P", target),
                stdin: None,
            },
            (Command::PvResize, _) => CommandLine {
                tool: Tool::Lvm,
                args: args2("pvresize", target),
                stdin: None,
            },
            (Command::PvGroup, _) => CommandLine {
                tool: Tool::Lvm,
                args: args5("pvs", "--noheadings", "-o", "vg_name", target),
                stdin: None,
            },
            (Command::GroupVolumes, _) => CommandLine {
                tool: Tool::Lvm,
                args: args5("lvs", "--noheadings", "-o", "lv_name,lv_attr", self.vg.as_str()),
                stdin: None,
            },
            (Command::ActivateGroup, _) => CommandLine {
                tool: Tool::Lvm,
                args: args3("vgchange", "-ay", self.vg.as_str()),
                stdin: None,
            },
            (Command::ExtendVolume, _) => CommandLine {
                tool: Tool::Lvm,
                args: args4("lvextend", "-l", "+100%FREE", self.volume_node().as_str()),
                stdin: None,
            },
            (Command::VolumeNode, _) => CommandLine {
                tool: Tool::Lvm,
                args: args5("lvs", "--noheadings", "-o", "dm_path", self.volume_node().as_str()),
                stdin: None,
            },
            (c, Some(g)) => self.swap_command(c, g),
            (_, None) => CommandLine { tool: Tool::Sfdisk, args: Vec::new(), stdin: None },
        }
    }

    /// The name of the filesystem that [`Job::Mount`] mounts, which is that of
    /// its kernel module too.
    pub fn mount_type(&self) -> (r: &'static str)
        requires
            run::sound(self@),
            run::job_of(self@) is Mount,
        ensures
            r@ == if self.fs is Xfs {
                "xfs"@
            } else {
                "btrfs"@
            },
    {
        if self.fs == FsKind::Xfs {
            "xfs"
        } else {
            "btrfs"
        }
    }
}

/// What the user is told to do by hand is never empty where there is something
/// to do.
#[verifier::rlimit(30)]
pub proof fn law_manual_commands_say_something(s: RunView, f: Finish)
    requires
        run::sound(s),
        run::job_of(s) == Job::Finish(f),
        !(f.manual is Nothing),
    ensures
        outcome_of(s, f).manual_cmd.len() > 0,
{
    reveal_strlit("e2fsck -fp ");
    reveal_strlit("mount -t xfs ");
    reveal_strlit("ntfsresize ");
    reveal_strlit("mount -t btrfs ");
    reveal_strlit("pvresize ");
    reveal_strlit("printf '");
    reveal_strlit("mkswap -U ");
}

/// No character of a label that a shell could take for its own reaches a
/// command that the user is told to run.
pub proof fn law_labels_are_shell_safe(t: Seq<char>, i: int)
    requires
        0 <= i < t.len(),
    ensures
        ({
            let c = shell_safe_text(t)[i];
            ('a' <= c <= 'z') || ('A' <= c <= 'Z') || ('0' <= c <= '9') || c == '_' || c == '.'
                || c == '-'
        }),
{
}

/// The commands of a surgery are about the partitions of its plan, by their
/// numbers on the disk: swap is deleted, root is given its new size and keeps
/// its type, and swap gets back its length, type, GUID, name and label.
pub proof fn law_surgery_commands_follow_the_plan(s: RunView, g: SurgeryView)
    requires
        s.surgery == Some(g),
    ensures
        args_of(s, Command::DeleteSwap) == seq![
            "--delete"@,
            s.disk,
            text::decimal(g.swap_num as nat),
        ],
        args_of(s, Command::ResizeRoot) == seq!["-N"@, text::decimal(g.root_num as nat), s.disk],
        args_of(s, Command::CreateSwap) == seq!["-N"@, text::decimal(g.swap_num as nat), s.disk],
        stdin_of(s, Command::ResizeRoot) == Some(
            ", "@ + text::decimal(s.root_new_size as nat) + ", type="@ + g.root_ptype + "\n"@,
        ),
        stdin_of(s, Command::CreateSwap) == Some(
            text::decimal(s.new_swap_start as nat) + ", "@ + text::decimal(g.swap_sectors as nat)
                + ", type="@ + g.swap_ptype + "\n"@,
        ),
        g.swap_partuuid matches Some(u) ==> args_of(s, Command::RestorePartUuid) == seq![
            "--part-uuid"@,
            s.disk,
            text::decimal(g.swap_num as nat),
            u,
        ],
        ({
            let a = args_of(s, Command::MakeSwap);
            &&& a[0] == "-U"@ && a[1] == dashed(g.swap_uuid)
            &&& a.last() == plan::part_node(s.disk_name, g.swap_num)
            &&& g.swap_label.len() == 0 ==> a.len() == 3
            &&& g.swap_label.len() > 0 ==> a.len() == 5 && a[2] == "-L"@ && a[3] == g.swap_label
        }),
        forall|c: Command| #[trigger]
            stdin_of(s, c) is Some <==> c == Command::GrowLast || c == Command::ResizeRoot || c
                == Command::CreateSwap,
{
}

/// Each command names what it works on: the disk, or the node whose filesystem
/// or volume grows, or the group and the volume that were found.
pub proof fn law_commands_name_what_they_work_on(s: RunView)
    ensures
        args_of(s, Command::Relocate) == seq!["--relocate"@, "gpt-bak-std"@, s.disk],
        args_of(s, Command::GrowLast) == seq!["-N"@, text::decimal(s.part_num as nat), s.disk],
        stdin_of(s, Command::GrowLast) == Some(", +\n"@),
        args_of(s, Command::PartxAdd) == seq!["-a"@, s.disk],
        args_of(s, Command::PartxUpdate) == seq!["-u"@, s.disk],
        args_of(s, Command::CheckExt) == seq!["-fp"@, s.target],
        args_of(s, Command::ResizeExt) == seq![s.target],
        args_of(s, Command::GrowXfs) == seq!["-d"@, "/tmp/.growmnt"@],
        args_of(s, Command::GrowBtrfs) == seq!["filesystem"@, "resize"@, "max"@, "/tmp/.growmnt"@],
        args_of(s, Command::CheckNtfs).last() == s.target,
        args_of(s, Command::CheckNtfs)[0] == "-n"@,
        args_of(s, Command::ResizeNtfs).last() == s.target,
        !args_of(s, Command::ResizeNtfs).contains("-n"@) || s.target == "-n"@,
        args_of(s, Command::PvResize) == seq!["pvresize"@, s.target],
        args_of(s, Command::PvGroup).last() == s.target,
        args_of(s, Command::GroupVolumes).last() == s.vg,
        args_of(s, Command::ActivateGroup) == seq!["vgchange"@, "-ay"@, s.vg],
        args_of(s, Command::ExtendVolume) == seq![
            "lvextend"@,
            "-l"@,
            "+100%FREE"@,
            "/dev/"@ + s.vg + "/"@ + s.lv,
        ],
        args_of(s, Command::VolumeNode).last() == "/dev/"@ + s.vg + "/"@ + s.lv,
{
    reveal_strlit("-n");
    reveal_strlit("-ff");
    reveal_strlit("-P");
    let a = args_of(s, Command::ResizeNtfs);
    assert("-ff"@.len() != "-n"@.len());
    assert("-P"@[1] != "-n"@[1]);
}

/// A name of 32 digits keeps its digits, with dashes between its groups of 8,
/// 4, 4, 4 and 12.
pub proof fn law_dashes_only_part_the_digits(u: Seq<char>)
    requires
        u.len() == 32,
    ensures
        ({
            let d = dashed(u);
            &&& d.len() == 36
            &&& d[8] == '-' && d[13] == '-' && d[18] == '-' && d[23] == '-'
            &&& forall|i: int|
                0 <= i < 32 ==> #[trigger] u[i] == d[i + if i < 8 {
                    0int
                } else if i < 12 {
                    1int
                } else if i < 16 {
                    2int
                } else if i < 20 {
                    3int
                } else {
                    4int
                }]
        }),
{
    reveal_strlit("-");
}

/// A report says of the disk how the run ended and the sizes that it came to. A
/// plan that grows nothing gives its own reason.
pub proof fn law_reports_say_how_a_run_ended(s: RunView, f: Finish)
    ensures
        ({
            let o = outcome_of(s, f);
            &&& o.device == s.disk && o.status == f.status
            &&& o.old_bytes == f.old_bytes && o.new_bytes == f.new_bytes
            &&& f.reason == Reason::Planned && s.skip_reason is Some ==> Some(o.reason)
                == s.skip_reason
            &&& f.reason == Reason::Nothing ==> o.reason.len() == 0
            &&& f.manual == Manual::Nothing ==> o.manual_cmd.len() == 0
        }),
{
    reveal_strlit("");
}

/// Characters that a shell does not take for its own stay as they are.
pub proof fn law_plain_labels_stay(t: Seq<char>, i: int)
    requires
        0 <= i < t.len(),
        ('a' <= t[i] <= 'z') || ('A' <= t[i] <= 'Z') || ('0' <= t[i] <= '9') || t[i] == '_' || t[i]
            == '.' || t[i] == '-',
    ensures
        shell_safe_text(t).len() == t.len(),
        shell_safe_text(t)[i] == t[i],
{
}

/// What is left to do by hand after a surgery that stopped: swap is made anew
/// where the run would have put it, or where it was while root has not grown;
/// where swap is still there it is deleted and root grown before that; and the
/// swap area and the GUID come last.
pub proof fn law_surgeries_are_finished_by_hand(s: RunView, g: SurgeryView)
    requires
        s.surgery == Some(g),
    ensures
        ({
            let num = text::decimal(g.swap_num as nat);
            let uuid = match g.swap_partuuid {
                Some(u) => "; sfdisk --part-uuid "@ + s.disk + " "@ + num + " "@ + u,
                None => seq![],
            };
            let label = if g.swap_label.len() == 0 {
                seq![]
            } else {
                " -L "@ + shell_safe_text(g.swap_label)
            };
            let mkswap = "mkswap -U "@ + dashed(g.swap_uuid) + label + " "@ + plan::part_node(
                s.disk_name,
                g.swap_num,
            );
            let back = RunView { new_swap_start: g.swap_first_lba, ..s };
            &&& manual_text(s, Manual::SwapArea) == mkswap + uuid
            &&& manual_text(s, Manual::SwapAtEnd) == "printf '"@ + text::decimal(
                s.new_swap_start as nat,
            ) + ", "@ + text::decimal(g.swap_sectors as nat) + ", type="@ + g.swap_ptype
                + "' | sfdisk -N "@ + num + " "@ + s.disk + uuid + "; "@ + mkswap
            &&& manual_text(s, Manual::SwapBack) == manual_text(back, Manual::SwapAtEnd)
            &&& manual_text(s, Manual::MoveSwap) == "sfdisk --delete "@ + s.disk + " "@ + num
                + " && printf ', "@ + text::decimal(s.root_new_size as nat) + ", type="@
                + g.root_ptype + "' | sfdisk -N "@ + text::decimal(g.root_num as nat) + " "@
                + s.disk + " && "@ + manual_text(s, Manual::SwapAtEnd) + "; "@ + manual_text(
                s,
                Manual::GrowFs,
            )
        }),
{
}

/// What is left to do by hand where a partition or a filesystem did not grow:
/// the tools of the filesystem are called on the node of the partition, after
/// the partition has been grown where it has not.
pub proof fn law_filesystems_are_grown_by_hand(s: RunView)
    ensures
        ({
            let d = s.part_dev;
            let m = manual_text(s, Manual::GrowFs);
            &&& s.plan_fs == FsKind::Ext ==> m == "e2fsck -fp "@ + d + " && resize2fs "@ + d
            &&& s.plan_fs == FsKind::Xfs ==> m == "mount -t xfs "@ + d
                + " /mnt && xfs_growfs -d /mnt && umount /mnt"@
            &&& s.plan_fs == FsKind::Btrfs ==> m == "mount -t btrfs "@ + d
                + " /mnt && btrfs filesystem resize max /mnt && umount /mnt"@
            &&& s.plan_fs == FsKind::Ntfs ==> m == "ntfsresize "@ + d
            &&& manual_text(s, Manual::GrowLast) == "printf ', +' | sfdisk -N "@ + text::decimal(
                s.part_num as nat,
            ) + " "@ + s.disk + " && "@ + m
        }),
{
}

/// A list of names has a comma and a space between each two of them.
pub proof fn law_names_are_listed_with_commas(names: Seq<Seq<char>>, x: Seq<char>)
    ensures
        names.len() > 0 ==> listed(names.push(x), names.len() + 1) == listed(names, names.len())
            + ", "@ + x,
        listed(seq![x], 1) == x,
        listed(seq![], 0).len() == 0,
{
    lemma_listed_push(names, x, names.len());
}

proof fn lemma_listed_push(names: Seq<Seq<char>>, x: Seq<char>, n: nat)
    requires
        n <= names.len(),
    ensures
        listed(names.push(x), n) == listed(names, n),
    decreases n,
{
    if n > 0 {
        lemma_listed_push(names, x, (n - 1) as nat);
        assert(names.push(x)[n - 1] == names[n - 1]);
    }
}

/// A run that names the tools it misses names each of them, and one that cannot
/// choose a volume names the group and all its volumes.
pub proof fn law_reasons_name_what_is_missing(s: RunView)
    ensures
        reason_text(s, Reason::ToolsMissing) == "tools not bundled: "@ + listed(
            Seq::new(s.missing.len(), |i: int| tool_text(s.missing[i])),
            s.missing.len(),
        ),
        fs_error_text(s, FsError::VolumeUndeclared) == "volume group "@ + s.vg + " has "@
            + text::decimal(s.lvs.len())
            + " logical volumes; declare one via grow.conf 'lv=<name>' (found: "@ + listed(
            Seq::new(s.lvs.len(), |i: int| s.lvs[i].0),
            s.lvs.len(),
        ) + ")"@,
{
    assert(tool_texts(s.missing) =~= Seq::new(s.missing.len(), |i: int| tool_text(s.missing[i])));
    assert(first_texts(s.lvs) =~= Seq::new(s.lvs.len(), |i: int| s.lvs[i].0));
}

/// A reason tells how the command of the table ended that failed, and what had
/// happened by then.
pub proof fn law_reasons_tell_how_a_command_ended(s: RunView, c: i32, e: FsError)
    ensures
        ({
            let n = text::decimal_int(c as int);
            let t = fs_error_text(s, e);
            &&& reason_text(s, Reason::GrowFailed(c)) == "sfdisk partition grow failed (exit "@ + n
                + ")"@
            &&& reason_text(s, Reason::DeleteFailed(c)) == "swap delete failed (exit "@ + n + ")"@
            &&& reason_text(s, Reason::RootFailed(c))
                == "swap deleted; target unchanged (root expand exit "@ + n + ")"@
            &&& reason_text(s, Reason::SwapFailed(c))
                == "target expanded; swap missing (recreate exit "@ + n + ")"@
            &&& reason_text(s, Reason::MkswapFailed(c))
                == "target expanded; swap recreation incomplete (mkswap exit "@ + n + ")"@
            &&& reason_text(s, Reason::Fs(e)) == t
            &&& reason_text(s, Reason::FsAfterGrow(e))
                == "partition expanded; filesystem resize failed ("@ + t + ")"@
            &&& reason_text(s, Reason::FsAfterSurgery(e)) == "swap rebuilt; fs resize failed ("@ + t
                + ")"@
            &&& fs_error_text(s, FsError::E2fsckRejected(c)) == "e2fsck rejected (exit "@ + n
                + ", filesystem inconsistent)"@
            &&& fs_error_text(s, FsError::Resize2fsFailed(c)) == "resize2fs failed (exit "@ + n
                + ")"@
            &&& fs_error_text(s, FsError::NtfsFailed(c)) == "ntfsresize failed (exit "@ + n + ")"@
            &&& fs_error_text(s, FsError::PvResizeFailed(c)) == "pvresize failed (exit "@ + n + ")"@
            &&& fs_error_text(s, FsError::ExtendFailed(c)) == "lvextend failed (exit "@ + n + ")"@
        }),
{
}

/// Each command is run by the tool that it belongs to, under its own name.
pub proof fn law_commands_are_run_by_their_tools(c: Command)
    ensures
        tool_of(c) == success::tool_of(c),
        tool_text(Tool::Sfdisk) == "sfdisk"@,
        tool_text(Tool::Mkswap) == "mkswap"@,
        tool_text(Tool::Partx) == "partx"@,
        tool_text(Tool::E2fsck) == "e2fsck"@,
        tool_text(Tool::Resize2fs) == "resize2fs"@,
        tool_text(Tool::XfsGrowfs) == "xfs_growfs"@,
        tool_text(Tool::Ntfsresize) == "ntfsresize"@,
        tool_text(Tool::Btrfs) == "btrfs"@,
        tool_text(Tool::Lvm) == "lvm"@,
{
}

} // verus!
