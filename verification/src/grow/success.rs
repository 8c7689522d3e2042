//! Runs in which nothing goes wrong: they end as expanded, with the commands
//! that the plan calls for and no others.
use super::fs::FsKind;
use super::guarantees;
use super::guarantees::{fits, played};
use super::outcome::Status;
use super::plan;
use super::plan::{ActionView, PlanView, SurgeryView};
use super::policy::PolicyView;
use super::run;
use super::run::{
    Command, Finish, FsError, Job, Manual, Reason, ReplyView, RunView, Step, Tool, Wait,
};
use super::trouble;
use crate::text;
use crate::utils::MAX_SECTORS;
use vstd::prelude::*;

verus! {

/// The filesystems that grow on a logical volume.
pub open spec fn grows_on_volume(k: FsKind) -> bool {
    k == FsKind::Ext || k == FsKind::Xfs || k == FsKind::Btrfs
}

/// What grows on a partition or on a whole disk.
pub open spec fn grows_on_disk(k: FsKind) -> bool {
    grows_on_volume(k) || k == FsKind::Ntfs || k == FsKind::Lvm
}

/// Whether the first `blocks` blocks have room for swap at their end and for
/// root before it.
pub open spec fn roomy(g: SurgeryView, blocks: int) -> bool {
    0 < g.swap_sectors && g.root_first_lba + g.swap_sectors <= blocks
}

/// The blocks of the disk that an MBR can address.
pub open spec fn mbr_blocks(s: RunView) -> int {
    let all = (s.device_sectors * 512) / (s.lba_bytes as int);
    if all < 0x1_0000_0000 {
        all
    } else {
        0x1_0000_0000
    }
}

/// Whether a plan can be carried out on the disk of a run.
pub open spec fn doable(s: RunView, p: PlanView) -> bool {
    match p.action {
        None => false,
        Some(ActionView::FilesystemOnly { fs, .. }) => grows_on_disk(fs),
        Some(ActionView::PartitionGrow { fs, surgery, is_gpt, .. }) => grows_on_disk(fs) && (
        surgery matches Some(g) ==> !is_gpt ==> roomy(g, mbr_blocks(s))),
    }
}

/// Whether a partition of `n` sectors is as large as the run made it.
pub open spec fn large_enough(s: RunView, num: u32, n: u64) -> bool {
    &&& n <= MAX_SECTORS
    &&& match s.surgery {
        None => n >= s.expected,
        Some(g) => {
            &&& num == g.root_num ==> n * 512 >= s.root_new_size * s.lba_bytes
            &&& num == g.swap_num ==> n * 512 >= g.swap_sectors * s.lba_bytes
        },
    }
}

/// Whether a reply is the one that is hoped for: a tool is there, a command ends
/// well, a file can be read, the kernel shows what was written to the disk.
pub open spec fn hoped_for(s: RunView, r: ReplyView) -> bool {
    &&& run::answers(s, r)
    &&& match (run::job_of(s), r) {
        (Job::ReadGeometry, ReplyView::Geometry(Some((n, _)))) => n <= MAX_SECTORS,
        (Job::Analyze, ReplyView::Plan(p)) => doable(s, p),
        (Job::FindTools, ReplyView::Present(v)) => forall|i: int|
            0 <= i < v.len() ==> #[trigger] v[i],
        (Job::Run(_), ReplyView::Exit(c)) => c == Some(0i32),
        (Job::Capture(Command::GroupVolumes), ReplyView::Output(Some((c, out)))) => c == 0
            && run::chosen_volume(
            run::volume_rows(text::lines(out), text::lines(out).len()),
            s.lv_declared,
        ) is Some,
        (Job::Capture(_), ReplyView::Output(Some((c, out)))) => c == 0 && text::trim(out).len()
            > 0,
        (Job::ReadHeader, ReplyView::Header(Some(last))) => s.surgery matches Some(g) ==> roomy(
            g,
            last + 1,
        ),
        (Job::ReadPartSize(num), ReplyView::Size(Some(n))) => large_enough(s, num, n),
        (Job::FindBackup, ReplyView::Answer(b)) => b,
        (Job::Mount, ReplyView::Answer(b)) => b,
        (Job::SniffTarget, ReplyView::Kind(Some(k))) => grows_on_volume(k),
        (Job::ReadTolerance, _) => true,
        (Job::Sleep, _) => true,
        (Job::Unmount, _) => true,
        (Job::PrepareLvm, _) => true,
        (Job::PrepareLook, _) => true,
        _ => false,
    }
}

/// Whether every reply of a row was hoped for.
pub open spec fn going_well(s: RunView, rs: Seq<ReplyView>) -> bool
    decreases rs.len(),
{
    rs.len() == 0 || (going_well(s, rs.drop_last()) && hoped_for(
        played(s, rs.drop_last()),
        rs.last(),
    ))
}

/// The commands that were run, in their order.
pub open spec fn commands(s: RunView, rs: Seq<ReplyView>) -> Seq<Command>
    decreases rs.len(),
{
    if rs.len() == 0 {
        seq![]
    } else {
        let before = commands(s, rs.drop_last());
        match run::job_of(played(s, rs.drop_last())) {
            Job::Run(c) => before.push(c),
            _ => before,
        }
    }
}

/// The backup of a GPT moves first.
pub open spec fn opening_orders(s: RunView) -> Seq<Command> {
    if s.is_gpt {
        seq![].push(Command::Relocate)
    } else {
        seq![]
    }
}

/// Swap goes, root grows, and swap comes back, with the GUID of its partition.
pub open spec fn moving_orders(s: RunView) -> Seq<Command> {
    let c = opening_orders(s).push(Command::DeleteSwap).push(Command::ResizeRoot).push(
        Command::CreateSwap,
    );
    match s.surgery {
        Some(g) if g.swap_partuuid is Some => c.push(Command::RestorePartUuid),
        _ => c,
    }
}

/// What changes the table of a disk, and the swap area with it.
pub open spec fn table_orders(s: RunView) -> Seq<Command> {
    if !s.partition {
        seq![]
    } else if s.surgery is None {
        opening_orders(s).push(Command::GrowLast)
    } else {
        moving_orders(s).push(Command::MakeSwap)
    }
}

/// What comes before the filesystem itself grows.
pub open spec fn ground_orders(s: RunView) -> Seq<Command> {
    if s.plan_fs == FsKind::Lvm {
        table_orders(s).push(Command::PvResize).push(Command::ActivateGroup).push(
            Command::ExtendVolume,
        )
    } else {
        table_orders(s)
    }
}

/// All that is run until a filesystem `k` has grown. A pool of volumes holds no
/// filesystem.
pub open spec fn all_orders(s: RunView, k: FsKind) -> Seq<Command> {
    let c = ground_orders(s);
    match k {
        FsKind::Ext => c.push(Command::CheckExt).push(Command::ResizeExt),
        FsKind::Xfs => c.push(Command::GrowXfs),
        FsKind::Btrfs => c.push(Command::GrowBtrfs),
        FsKind::Ntfs => c.push(Command::CheckNtfs).push(Command::ResizeNtfs),
        _ => c,
    }
}

/// How a run ends that has grown what it was to grow.
pub open spec fn good_end(s: RunView) -> Finish {
    Finish {
        status: Status::Expanded,
        reason: Reason::Nothing,
        manual: Manual::Nothing,
        old_bytes: if s.partition {
            (s.old_sectors * 512) as u64
        } else {
            0
        },
        new_bytes: if !s.partition {
            (s.device_sectors * 512) as u64
        } else if s.surgery is None {
            (s.new_sectors * 512) as u64
        } else if s.root_new_size * s.lba_bytes <= u64::MAX {
            (s.root_new_size * s.lba_bytes) as u64
        } else {
            u64::MAX
        },
    }
}

/// Where swap and root go.
spec fn laid_out(s: RunView) -> bool {
    s.surgery matches Some(g) ==> {
        &&& g.root_first_lba + s.root_new_size == s.new_swap_start
        &&& !s.is_gpt ==> s.new_swap_start + g.swap_sectors == mbr_blocks(s)
    }
}

/// What has been run by the time a run stands at a step.
spec fn on_path(s: RunView, c: Seq<Command>) -> bool {
    let moved = moving_orders(s);
    let early = grows_on_disk(s.plan_fs) && s.fs == s.plan_fs;
    let kind = grows_on_disk(s.fs) && (s.fs == s.plan_fs || (s.plan_fs == FsKind::Lvm
        && grows_on_volume(s.fs)));
    let volume = s.fs == FsKind::Lvm && s.plan_fs == FsKind::Lvm;
    let table = table_orders(s);
    let ground = ground_orders(s);
    let waits = |wait: Wait, min: u64| match wait {
        Wait::Last => c == table && min <= s.expected,
        Wait::Root => c == moved && laid_out(s) && min == plan::lba_sectors(
            s.root_new_size,
            s.lba_bytes,
        ),
        Wait::Swap => c == moved && laid_out(s) && (s.surgery matches Some(g) ==> min
            == plan::lba_sectors(g.swap_sectors, s.lba_bytes)),
    };
    &&& s.device_sectors <= MAX_SECTORS
    &&& match s.step {
        Step::Geometry | Step::Analyze => c.len() == 0,
        Step::Tools | Step::LookPrepare | Step::LookGroup | Step::LookVolumes => c.len() == 0
            && early && (s.surgery matches Some(g) ==> !s.is_gpt ==> roomy(g, mbr_blocks(s))),
        Step::Relocate => c.len() == 0 && early && s.is_gpt,
        Step::BackupHeader | Step::MainHeader => false,
        Step::SurgeryHeader => c == opening_orders(s) && early && s.is_gpt,
        Step::GrowLast => c == opening_orders(s) && early,
        Step::DeleteSwap => c == opening_orders(s) && early && laid_out(s),
        Step::ResizeRoot => c == opening_orders(s).push(Command::DeleteSwap) && early && laid_out(s),
        Step::CreateSwap => c == opening_orders(s).push(Command::DeleteSwap).push(
            Command::ResizeRoot,
        ) && early && laid_out(s),
        Step::PartUuid => c.push(Command::RestorePartUuid) == moved && early && laid_out(s),
        Step::Tolerance | Step::NewSize => c == table && early,
        Step::Poll { wait, min, .. } => waits(wait, min) && early,
        Step::Pause { .. } | Step::Probe { .. } | Step::Partx { .. } => false,
        Step::Mkswap => c == moved && early && laid_out(s),
        Step::LvmPrepare | Step::PvResize => c == table && volume,
        Step::PvGroup | Step::GroupVolumes | Step::ActivateGroup => c == table.push(
            Command::PvResize,
        ) && volume,
        Step::ExtendVolume => c == table.push(Command::PvResize).push(Command::ActivateGroup)
            && volume,
        Step::VolumeNode | Step::VolumeFs => c == ground && volume && !run::is_pool(s.lvs, s.lv),
        Step::VolumeTools => c == ground && s.plan_fs == FsKind::Lvm && grows_on_volume(s.fs)
            && !run::is_pool(s.lvs, s.lv),
        Step::CheckExt => c == ground && s.fs == FsKind::Ext && kind,
        Step::ResizeExt => c == ground.push(Command::CheckExt) && s.fs == FsKind::Ext && kind,
        Step::CheckNtfs => c == ground && s.fs == FsKind::Ntfs && kind,
        Step::ResizeNtfs => c == ground.push(Command::CheckNtfs) && s.fs == FsKind::Ntfs && kind,
        Step::Mount | Step::GrowMounted => c == ground && (s.fs == FsKind::Xfs || s.fs
            == FsKind::Btrfs) && kind,
        Step::Unmount { grown } => grown && c == all_orders(s, s.fs) && (s.fs == FsKind::Xfs
            || s.fs == FsKind::Btrfs) && kind,
        Step::Finished(f) => f == good_end(s) && c == all_orders(s, s.fs) && kind,
    }
    &&& match s.step {
        Step::CheckExt
        | Step::ResizeExt
        | Step::CheckNtfs
        | Step::ResizeNtfs
        | Step::Mount
        | Step::GrowMounted
        | Step::Unmount { .. } => s.plan_fs == FsKind::Lvm ==> !run::is_pool(s.lvs, s.lv),
        Step::Finished(_) => s.plan_fs == FsKind::Lvm ==> (run::is_pool(s.lvs, s.lv) <==> s.fs
            == FsKind::Lvm),
        _ => true,
    }
    &&& match s.step {
        Step::CheckExt
        | Step::ResizeExt
        | Step::CheckNtfs
        | Step::ResizeNtfs
        | Step::Mount
        | Step::GrowMounted
        | Step::Unmount { .. }
        | Step::LvmPrepare
        | Step::PvResize
        | Step::PvGroup
        | Step::GroupVolumes
        | Step::ActivateGroup
        | Step::ExtendVolume
        | Step::VolumeNode
        | Step::VolumeFs
        | Step::VolumeTools
        | Step::Finished(_) => {
            &&& s.partition && s.surgery is None ==> s.new_sectors >= s.expected
            &&& laid_out(s)
        },
        _ => true,
    }
}

/// What has been run once a reply has come.
spec fn and_ran(s: RunView, c: Seq<Command>) -> Seq<Command> {
    match run::job_of(s) {
        Job::Run(x) => c.push(x),
        _ => c,
    }
}

proof fn lemma_lvm(s: RunView, r: ReplyView, c: Seq<Command>)
    requires
        run::sound(s),
        hoped_for(s, r),
        on_path(s, c),
        guarantees::phase_of(s.step) is Filesystem,
    ensures
        on_path(run::lvm_advanced(s, r), and_ran(s, c)) || !(s.step is LvmPrepare
            || s.step is PvResize || s.step is PvGroup || s.step is GroupVolumes
            || s.step is ActivateGroup || s.step is ExtendVolume || s.step is VolumeNode
            || s.step is VolumeFs || s.step is VolumeTools),
{
    reveal(run::lvm_advanced);
    reveal(run::volumes_listed);
    if let ReplyView::Present(v) = r {
        guarantees::lemma_none_absent(run::needed(s), v, v.len());
    }
}

proof fn lemma_fs(s: RunView, r: ReplyView, c: Seq<Command>)
    requires
        run::sound(s),
        hoped_for(s, r),
        on_path(s, c),
        guarantees::phase_of(s.step) is Filesystem,
    ensures
        on_path(run::fs_advanced(s, r), and_ran(s, c)) || s.step is NewSize,
{
    reveal(run::fs_advanced);
    lemma_lvm(s, r, c);
}

proof fn lemma_sectors(blocks: u64, lba_bytes: u64, n: u64)
    requires
        n * 512 >= blocks * lba_bytes,
    ensures
        n >= plan::lba_sectors(blocks, lba_bytes),
{
    assert(blocks * lba_bytes >= 0) by (nonlinear_arith);
}

proof fn lemma_surgery(s: RunView, r: ReplyView, c: Seq<Command>)
    requires
        run::sound(s),
        hoped_for(s, r),
        on_path(s, c),
        s.step is SurgeryHeader || s.step is DeleteSwap || s.step is ResizeRoot
            || s.step is CreateSwap || s.step is PartUuid || s.step is Mkswap,
    ensures
        on_path(run::surgery_advanced(s, r), and_ran(s, c)),
{
    reveal(run::surgery_advanced);
    lemma_root_bytes(s);
}

pub proof fn lemma_root_bytes(s: RunView)
    ensures
        s.root_new_size * s.lba_bytes >= 0,
{
    assert(s.root_new_size * s.lba_bytes >= 0) by (nonlinear_arith);
}

proof fn lemma_last(s: RunView, r: ReplyView, c: Seq<Command>)
    requires
        run::sound(s),
        hoped_for(s, r),
        on_path(s, c),
        s.step is GrowLast || s.step is Tolerance || s.step is Poll || s.step is NewSize,
    ensures
        on_path(run::last_advanced(s, r), and_ran(s, c)),
{
    reveal(run::last_advanced);
    if let ReplyView::Size(Some(n)) = r {
        if let Some(g) = s.surgery {
            if n * 512 >= s.root_new_size * s.lba_bytes {
                lemma_sectors(s.root_new_size, s.lba_bytes, n);
            }
            if n * 512 >= g.swap_sectors * s.lba_bytes {
                lemma_sectors(g.swap_sectors, s.lba_bytes, n);
            }
        }
    }
}

proof fn lemma_mbr(s: RunView)
    requires
        run::sound(s),
        s.device_sectors <= MAX_SECTORS,
        mbr_blocks(s) > 0,
    ensures
        run::mbr_last(s) == mbr_blocks(s) - 1,
{
    let n = (s.device_sectors * 512) / (s.lba_bytes as int);
    assert(n <= s.device_sectors * 512) by (nonlinear_arith)
        requires
            n == (s.device_sectors * 512) / (s.lba_bytes as int),
            s.lba_bytes > 0,
    ;
}

proof fn lemma_edit(s: RunView)
    requires
        run::sound(s),
        s.partition,
        s.device_sectors <= MAX_SECTORS,
        grows_on_disk(s.plan_fs) && s.fs == s.plan_fs,
        s.surgery matches Some(g) ==> !s.is_gpt ==> roomy(g, mbr_blocks(s)),
    ensures
        on_path(run::edit_table(s), opening_orders(s)),
        on_path(run::begin_edit(s), seq![]),
{
    if s.surgery is Some && !s.is_gpt {
        lemma_mbr(s);
    }
}

proof fn lemma_setup(s: RunView, r: ReplyView, c: Seq<Command>)
    requires
        run::sound(s),
        hoped_for(s, r),
        on_path(s, c),
    ensures
        on_path(run::advanced(s, r), and_ran(s, c)),
{
    reveal(run::advanced);
    reveal(run::look_advanced);
    reveal(run::volumes_seen);
    if c.len() == 0 {
        assert(c =~= Seq::<Command>::empty());
    }
    match s.step {
        Step::Tools => {
            if let ReplyView::Present(v) = r {
                guarantees::lemma_none_absent(run::needed(s), v, v.len());
                let t = RunView { missing: seq![], ..s };
                if s.partition {
                    lemma_edit(t);
                }
            }
        },
        Step::Geometry | Step::Analyze => {},
        Step::LookPrepare => {},
        Step::LookGroup => {},
        Step::LookVolumes => {
            if let ReplyView::Output(Some((_, out))) = r {
                let ls = text::lines(out);
                lemma_edit(RunView { lvs: run::volume_rows(ls, ls.len()), ..s });
            }
        },
        Step::Relocate => {
            lemma_edit(RunView { moved: true, ..s });
        },
        Step::GrowLast | Step::Tolerance | Step::Poll { .. } | Step::NewSize => {
            lemma_last(s, r, c);
        },
        Step::SurgeryHeader
        | Step::DeleteSwap
        | Step::ResizeRoot
        | Step::CreateSwap
        | Step::PartUuid
        | Step::Mkswap => {
            reveal(run::last_advanced);
            lemma_surgery(s, r, c);
        },
        _ => {
            reveal(run::last_advanced);
            reveal(run::surgery_advanced);
            lemma_fs(s, r, c);
        },
    }
}

proof fn lemma_played(disk: Seq<char>, policy: PolicyView, rs: Seq<ReplyView>)
    requires
        policy.enabled,
        going_well(run::started(disk, policy), rs),
    ensures
        ({
            let s = run::started(disk, policy);
            let t = played(s, rs);
            &&& run::sound(t)
            &&& fits(s, rs)
            &&& on_path(t, commands(s, rs))
        }),
    decreases rs.len(),
{
    let s = run::started(disk, policy);
    if rs.len() > 0 {
        let before = rs.drop_last();
        lemma_played(disk, policy, before);
        let t = played(s, before);
        run::lemma_sound(t, rs.last());
        lemma_setup(t, rs.last(), commands(s, before));
    }
}

/// A run in which every reply is hoped for ends as expanded, with the sizes that
/// were reached, and has then run just the commands that its plan calls for, in
/// their order. It does end: it takes at most 2000 replies.
pub proof fn law_runs_without_trouble_expand(
    disk: Seq<char>,
    policy: PolicyView,
    rs: Seq<ReplyView>,
)
    requires
        policy.enabled,
        going_well(run::started(disk, policy), rs),
    ensures
        ({
            let s = run::started(disk, policy);
            let t = played(s, rs);
            &&& t.step matches Step::Finished(f) ==> {
                &&& f == good_end(t)
                &&& commands(s, rs) == all_orders(t, t.fs)
                &&& if t.plan_fs == FsKind::Lvm {
                    if run::is_pool(t.lvs, t.lv) {
                        t.fs == FsKind::Lvm
                    } else {
                        grows_on_volume(t.fs)
                    }
                } else {
                    t.fs == t.plan_fs
                }
                &&& t.partition && t.surgery is None ==> t.new_sectors >= t.expected
                &&& t.surgery matches Some(g) ==> {
                    &&& g.root_first_lba + t.root_new_size == t.new_swap_start
                    &&& !t.is_gpt ==> t.new_swap_start + g.swap_sectors == mbr_blocks(t)
                }
            }
            &&& rs.len() <= 2000
            &&& rs.len() == 2000 ==> t.step is Finished
        }),
{
    lemma_played(disk, policy, rs);
    guarantees::law_runs_end(disk, policy, rs);
}

/// A volume is asked for its tools just where it holds a filesystem that grows
/// on a volume; any other ends the run.
pub proof fn law_filesystems_on_volumes_go_on(s: RunView, k: FsKind)
    requires
        s.step is VolumeFs,
    ensures
        ({
            let t = run::advanced(s, ReplyView::Kind(Some(k)));
            &&& k == FsKind::Ext || k == FsKind::Xfs || k == FsKind::Btrfs ==> run::job_of(t)
                == Job::FindTools && t.fs == k && t.target == s.target
            &&& !(k == FsKind::Ext || k == FsKind::Xfs || k == FsKind::Btrfs)
                ==> trouble::ends_without_growing(s, t, FsError::VolumeNotGrowable(k))
        }),
{
    reveal(run::advanced);
    reveal(run::look_advanced);
    reveal(run::last_advanced);
    reveal(run::surgery_advanced);
    reveal(run::fs_advanced);
    reveal(run::lvm_advanced);
}

/// On a GPT swap ends at the last usable block that the header states, where
/// there is room for it and for root before it; without room nothing is edited.
pub proof fn law_swap_goes_to_the_end(s: RunView, g: SurgeryView, last: u64)
    requires
        s.step is SurgeryHeader,
        s.surgery == Some(g),
    ensures
        ({
            let t = run::advanced(s, ReplyView::Header(Some(last)));
            if roomy(g, last + 1) {
                &&& run::job_of(t) == Job::Run(Command::DeleteSwap)
                &&& t.new_swap_start + g.swap_sectors == last + 1
                &&& g.root_first_lba + t.root_new_size == t.new_swap_start
            } else {
                t.step matches Step::Finished(f) && f.status == if s.moved {
                    Status::Failed
                } else {
                    Status::Skipped
                }
            }
        }),
        run::advanced(s, ReplyView::Header(None)).step matches Step::Finished(f)
            && f.status is Failed && f.reason is HeaderLost,
{
    reveal(run::advanced);
    reveal(run::look_advanced);
    reveal(run::last_advanced);
    reveal(run::surgery_advanced);
}

/// The tool that a command belongs to.
pub open spec fn tool_of(c: Command) -> Tool {
    match c {
        Command::Relocate
        | Command::GrowLast
        | Command::DeleteSwap
        | Command::ResizeRoot
        | Command::CreateSwap
        | Command::RestorePartUuid => Tool::Sfdisk,
        Command::MakeSwap => Tool::Mkswap,
        Command::PartxAdd | Command::PartxUpdate => Tool::Partx,
        Command::CheckExt => Tool::E2fsck,
        Command::ResizeExt => Tool::Resize2fs,
        Command::GrowXfs => Tool::XfsGrowfs,
        Command::GrowBtrfs => Tool::Btrfs,
        Command::CheckNtfs | Command::ResizeNtfs => Tool::Ntfsresize,
        _ => Tool::Lvm,
    }
}

/// Before a disk is changed, every tool that the commands of the plan belong to
/// is looked for, and so are the tools of a filesystem on a volume.
pub proof fn law_tools_are_looked_for_first(s: RunView, i: int)
    requires
        s.step is Tools && s.fs == s.plan_fs || s.step is VolumeTools && s.plan_fs == FsKind::Lvm,
        0 <= i < all_orders(s, s.fs).len(),
        s.step is VolumeTools ==> i >= ground_orders(s).len(),
    ensures
        run::needed(s).contains(tool_of(all_orders(s, s.fs)[i])),
        s.step is Tools && s.partition ==> run::needed(s).contains(Tool::Partx),
{
    let n = run::needed(s);
    let c = all_orders(s, s.fs)[i];
    if s.step is Tools && s.partition {
        assert(n[0] == Tool::Sfdisk && n[1] == Tool::Mkswap && n[2] == Tool::Partx);
    }
    let at: int = if s.step is Tools && s.partition {
        3
    } else {
        0
    };
    let f = run::fs_tools(s.fs);
    assert forall|k: int| 0 <= k < f.len() implies n[at + k] == #[trigger] f[k] by {}
    match s.fs {
        FsKind::Ext => {
            assert(f[0] == Tool::E2fsck && f[1] == Tool::Resize2fs);
            assert(n[at + 0] == f[0] && n[at + 1] == f[1]);
        },
        FsKind::Xfs | FsKind::Btrfs | FsKind::Ntfs | FsKind::Lvm => {
            assert(n[at + 0] == f[0]);
        },
        _ => {},
    }
}

proof fn lemma_absent(tools: Seq<Tool>, present: Seq<bool>, n: nat)
    requires
        n <= present.len(),
        n <= tools.len(),
    ensures
        forall|i: int|
            0 <= i < n && !#[trigger] present[i] ==> run::absent(tools, present, n).contains(
                tools[i],
            ),
        forall|t: Tool| #[trigger]
            run::absent(tools, present, n).contains(t) ==> exists|i: int|
                0 <= i < n && !#[trigger] present[i] && tools[i] == t,
        run::absent(tools, present, n).len() == 0 <==> forall|i: int|
            0 <= i < n ==> #[trigger] present[i],
    decreases n,
{
    if n > 0 {
        let before = run::absent(tools, present, (n - 1) as nat);
        let all = run::absent(tools, present, n);
        lemma_absent(tools, present, (n - 1) as nat);
        assert forall|i: int| 0 <= i < n && !#[trigger] present[i] implies all.contains(
            tools[i],
        ) by {
            if i < n - 1 {
                let k = choose|k: int| 0 <= k < before.len() && before[k] == tools[i];
                assert(all[k] == tools[i]);
            } else {
                assert(all[all.len() - 1] == tools[i]);
            }
        }
        assert forall|t: Tool| #[trigger] all.contains(t) implies exists|i: int|
            0 <= i < n && !#[trigger] present[i] && tools[i] == t by {
            let k = choose|k: int| 0 <= k < all.len() && all[k] == t;
            if k < before.len() {
                assert(before[k] == t);
                assert(before.contains(t));
            } else {
                assert(!present[n - 1] && tools[n - 1] == t);
            }
        }
    }
}

/// Where a tool is missing, the run ends without changing anything further and
/// names the tools that are missing: as skipped before the table is edited.
pub proof fn law_missing_tools_end_a_run(s: RunView, present: Seq<bool>)
    requires
        s.step is Tools || s.step is VolumeTools,
        present.len() == run::needed(s).len(),
        exists|i: int| 0 <= i < present.len() && !#[trigger] present[i],
    ensures
        ({
            let t = run::advanced(s, ReplyView::Present(present));
            &&& s.step is Tools ==> (t.step matches Step::Finished(f) && f.status is Skipped
                && f.reason is ToolsMissing)
            &&& s.step is VolumeTools ==> trouble::ends_without_growing(
                s,
                t,
                FsError::VolumeToolsMissing,
            )
            &&& forall|x: Tool| #[trigger]
                t.missing.contains(x) <==> exists|i: int|
                    0 <= i < present.len() && !#[trigger] present[i] && run::needed(s)[i] == x
        }),
{
    reveal(run::advanced);
    reveal(run::look_advanced);
    reveal(run::last_advanced);
    reveal(run::surgery_advanced);
    reveal(run::fs_advanced);
    reveal(run::lvm_advanced);
    let n = run::needed(s);
    lemma_absent(n, present, n.len());
    let all = run::absent(n, present, n.len());
    assert forall|x: Tool| #[trigger] all.contains(x) <==> exists|i: int|
        0 <= i < present.len() && !#[trigger] present[i] && n[i] == x by {
        if exists|i: int| 0 <= i < present.len() && !#[trigger] present[i] && n[i] == x {
            let i = choose|i: int| 0 <= i < present.len() && !#[trigger] present[i] && n[i] == x;
            assert(all.contains(n[i]));
        }
    }
}

/// One more line that `lvs` prints is one more volume, unless it is blank.
pub proof fn law_each_line_is_a_volume(ls: Seq<Seq<char>>, line: Seq<char>)
    ensures
        ({
            let before = run::volume_rows(ls, ls.len());
            let after = run::volume_rows(ls.push(line), ls.len() + 1);
            let w = text::words(line);
            if w.len() == 0 {
                after == before
            } else {
                &&& after.len() == before.len() + 1
                &&& after.drop_last() == before
                &&& after.last().0 == w[0]
                &&& after.last().1 == if w.len() > 1 {
                    w[1]
                } else {
                    seq![]
                }
            }
        }),
        run::volume_rows(seq![], 0).len() == 0,
{
    lemma_rows(ls, line, ls.len());
    let before = run::volume_rows(ls, ls.len());
    let after = run::volume_rows(ls.push(line), ls.len() + 1);
    if text::words(line).len() > 0 {
        assert(after.drop_last() =~= before);
    }
}

proof fn lemma_rows(ls: Seq<Seq<char>>, line: Seq<char>, n: nat)
    requires
        n <= ls.len(),
    ensures
        run::volume_rows(ls.push(line), n) == run::volume_rows(ls, n),
    decreases n,
{
    if n > 0 {
        lemma_rows(ls, line, (n - 1) as nat);
        assert(ls.push(line)[n - 1] == ls[n - 1]);
    }
}

/// A single volume grows whatever its name; of several, the one that the policy
/// names, where it is among them.
pub proof fn law_volumes_that_are_named_grow(
    lvs: Seq<(Seq<char>, Seq<char>)>,
    declared: Option<Seq<char>>,
    i: int,
)
    requires
        0 <= i < lvs.len(),
    ensures
        lvs.len() == 1 ==> run::chosen_volume(lvs, declared) == Some(lvs[i].0),
        declared == Some(lvs[i].0) ==> run::chosen_volume(lvs, declared) == declared,
        run::is_pool(lvs, lvs[i].0) <==> exists|k: int|
            0 <= k < lvs.len() && (#[trigger] lvs[k]).0 == lvs[i].0 && lvs[k].1.len() > 0
                && lvs[k].1[0] == 't',
{
}

/// What a tool prints of a group or a node is taken without white space around
/// it, and the next job is on it; the volume that is chosen is the one that is
/// extended.
pub proof fn law_names_are_taken_from_the_tools(s: RunView, out: Seq<char>)
    requires
        text::trim(out).len() > 0,
    ensures
        ({
            let t = run::advanced(s, ReplyView::Output(Some((0i32, out))));
            let rows = run::volume_rows(text::lines(out), text::lines(out).len());
            let lv = run::chosen_volume(rows, s.lv_declared);
            &&& s.step is LookGroup || s.step is PvGroup ==> t.vg == text::trim(out)
                && run::job_of(t) == Job::Capture(Command::GroupVolumes)
            &&& s.step is VolumeNode ==> t.target == text::trim(out) && run::job_of(t)
                == Job::SniffTarget
            &&& s.step is GroupVolumes && lv is Some ==> Some(t.lv) == lv && t.lvs == rows && t.vg
                == s.vg && run::job_of(t) == Job::Run(Command::ActivateGroup)
            &&& s.step is GroupVolumes && lv is None ==> t.step is Finished
        }),
{
    reveal(run::advanced);
    reveal(run::look_advanced);
    reveal(run::last_advanced);
    reveal(run::surgery_advanced);
    reveal(run::fs_advanced);
    reveal(run::lvm_advanced);
    reveal(run::volumes_listed);
}

/// Nothing is looked for that the plan does not need: besides the tools of its
/// commands only those that every change of a table takes along.
pub proof fn law_no_other_tools_are_looked_for(s: RunView, i: int)
    requires
        s.step is Tools && s.fs == s.plan_fs || s.step is VolumeTools,
        grows_on_disk(s.fs),
        0 <= i < run::needed(s).len(),
    ensures
        ({
            let t = run::needed(s)[i];
            ||| s.step is Tools && s.partition && (t == Tool::Sfdisk || t == Tool::Mkswap || t
                == Tool::Partx)
            ||| match s.fs {
                FsKind::Ext => t == Tool::E2fsck || t == Tool::Resize2fs,
                FsKind::Xfs => t == Tool::XfsGrowfs,
                FsKind::Btrfs => t == Tool::Btrfs,
                FsKind::Ntfs => t == Tool::Ntfsresize,
                _ => t == Tool::Lvm,
            }
        }),
{
}

/// The first job on a filesystem: `ext` and NTFS are checked, XFS and btrfs are
/// mounted, and for a physical volume the device mapper is prepared before it is
/// resized.
#[verifier::rlimit(30)]
pub proof fn law_filesystems_grow_their_own_way(s: RunView, r: ReplyView)
    requires
        grows_on_disk(s.fs),
        s.step is NewSize && r is Size || s.step is Mkswap && r == ReplyView::Exit(Some(0i32)),
    ensures
        ({
            let t = run::advanced(s, r);
            let u = run::advanced(t, ReplyView::Done);
            match s.fs {
                FsKind::Ext => run::job_of(t) == Job::Run(Command::CheckExt),
                FsKind::Ntfs => run::job_of(t) == Job::Run(Command::CheckNtfs),
                FsKind::Lvm => run::job_of(t) == Job::PrepareLvm && run::job_of(u) == Job::Run(
                    Command::PvResize,
                ),
                _ => run::job_of(t) == Job::Mount,
            }
        }),
{
    reveal(run::advanced);
    reveal(run::look_advanced);
    reveal(run::last_advanced);
    reveal(run::surgery_advanced);
    reveal(run::fs_advanced);
    reveal(run::lvm_advanced);
}

} // verus!
