//! Carrying a plan out, one job at a time.
//!
//! A run is a state machine. [`GrowRun::job`] says what is to be done next, the
//! caller does it and hands the reply to [`GrowRun::advance`]. Each job either
//! reads something or runs one tool; `sfdisk` alone writes the partition table.
//!
//! A run ends as disabled, skipped, expanded, partial or failed. Once the
//! partition table has been edited or the backup of a GPT moved, a later failure
//! is never reported as skipped. One that is partial says how to go on by hand.
use super::fs::FsKind;
use super::plan;
use super::plan::{
    lba_to_sysfs, sysfs_to_lba, GrowAction, GrowPlan, PlanView, SurgeryPlan, SurgeryView,
};
use super::policy::{GrowPolicy, PolicyView};
use super::table::sat_mul;
use super::{outcome, table};
use crate::text;
use crate::text::{chars_of, same_str, split_lines, split_words, string_of, trimmed_str};
use crate::utils::{MAX_SECTORS, SECTOR};
use outcome::Status;
use vstd::prelude::*;
use vstd::string::*;

verus! {

/// How often the kernel is asked for the size of a partition before `partx`
/// gets its turn, and again after that.
pub const POLL_TRIES: u32 = 100;

/// How long to wait between two such questions.
pub const POLL_INTERVAL_MS: u64 = 100;

/// Where a filesystem is mounted while it grows.
pub const GROW_MNT: &'static str = "/tmp/.growmnt";

#[derive(Debug, Clone, Copy, PartialEq, Eq, Structural)]
pub enum Phase {
    Analyze,
    Partition,
    KernelReread,
    Filesystem,
    Done,
}

#[derive(Debug, Clone, Copy, PartialEq, Eq, Structural)]
pub enum Tool {
    Sfdisk,
    Mkswap,
    Partx,
    E2fsck,
    Resize2fs,
    XfsGrowfs,
    Ntfsresize,
    Btrfs,
    Lvm,
}

/// A tool with its arguments, which the run knows.
#[derive(Debug, Clone, Copy, PartialEq, Eq, Structural)]
pub enum Command {
    /// Move the backup header of a GPT to the end of the disk.
    Relocate,
    /// Grow the last partition as far as it goes.
    GrowLast,
    DeleteSwap,
    ResizeRoot,
    CreateSwap,
    RestorePartUuid,
    MakeSwap,
    /// Tell the kernel of a partition that it does not know.
    PartxAdd,
    /// Tell the kernel of a partition whose size changed.
    PartxUpdate,
    CheckExt,
    ResizeExt,
    GrowXfs,
    GrowBtrfs,
    CheckNtfs,
    ResizeNtfs,
    PvResize,
    PvGroup,
    GroupVolumes,
    ActivateGroup,
    ExtendVolume,
    VolumeNode,
}

/// Which partition the kernel is to show at its new size.
#[derive(Debug, Clone, Copy, PartialEq, Eq, Structural)]
pub enum Wait {
    Last,
    Root,
    Swap,
}

/// Why a filesystem did not grow.
#[derive(Debug, Clone, Copy, PartialEq, Eq, Structural)]
pub enum FsError {
    Unsupported,
    E2fsckSpawn,
    E2fsckRejected(i32),
    Resize2fsSpawn,
    Resize2fsFailed(i32),
    XfsMount,
    XfsGrow,
    BtrfsMount,
    BtrfsGrow,
    NtfsSpawn,
    NtfsRejected(i32),
    NtfsFailed(i32),
    LvmSpawn,
    PvResizeFailed(i32),
    PvsFailed(i32),
    NoGroup,
    LvsFailed(i32),
    VolumeUndeclared,
    ActivateFailed(i32),
    ExtendFailed(i32),
    NodeFailed(i32),
    NoNode,
    NodeUnreadable,
    VolumeNotGrowable(FsKind),
    VolumeToolsMissing,
}

/// Why a run ended as it did.
#[derive(Debug, Clone, Copy, PartialEq, Eq, Structural)]
pub enum Reason {
    Nothing,
    NoDeviceSize,
    /// The plan says why.
    Planned,
    ToolsMissing,
    RelocateFailed,
    RelocateUnknown,
    GrowFailed(i32),
    SfdiskSpawn,
    RereadFailed,
    HeaderLost,
    SwapUnderflow,
    RootUnderflow,
    DeleteFailed(i32),
    RootFailed(i32),
    SwapFailed(i32),
    PartUuidFailed,
    MkswapFailed(i32),
    MkswapSpawn,
    Fs(FsError),
    FsAfterGrow(FsError),
    FsAfterSurgery(FsError),
}

/// What the user can do by hand to finish.
#[derive(Debug, Clone, Copy, PartialEq, Eq, Structural)]
pub enum Manual {
    Nothing,
    /// Grow the filesystem.
    GrowFs,
    /// Grow the last partition, then its filesystem.
    GrowLast,
    /// Take swap out of the way of root, then grow the filesystem of root.
    MoveSwap,
    /// Make the swap partition anew where it was, then the swap area.
    SwapBack,
    /// Make the swap partition anew at the end of the disk, then the swap area.
    SwapAtEnd,
    /// Make the swap area anew.
    SwapArea,
}

#[derive(Debug, Clone, Copy, PartialEq, Eq, Structural)]
pub struct Finish {
    pub status: Status,
    pub reason: Reason,
    pub manual: Manual,
    pub old_bytes: u64,
    pub new_bytes: u64,
}

/// Where a run stands: what it has asked for and not yet been told.
#[derive(Debug, Clone, Copy, PartialEq, Eq, Structural)]
pub enum Step {
    Geometry,
    Analyze,
    Tools,
    /// The volumes of a physical volume are looked at before anything changes.
    LookPrepare,
    LookGroup,
    LookVolumes,
    Relocate,
    BackupHeader,
    MainHeader,
    GrowLast,
    Tolerance,
    /// Asking for a partition's size, `left` more times.
    Poll { wait: Wait, min: u64, left: u32, again: bool },
    Pause { wait: Wait, min: u64, left: u32, again: bool },
    /// Asking whether the kernel knows the partition at all.
    Probe { wait: Wait, min: u64 },
    Partx { wait: Wait, min: u64, add: bool },
    NewSize,
    SurgeryHeader,
    DeleteSwap,
    ResizeRoot,
    CreateSwap,
    PartUuid,
    Mkswap,
    CheckExt,
    ResizeExt,
    CheckNtfs,
    ResizeNtfs,
    Mount,
    GrowMounted,
    Unmount { grown: bool },
    LvmPrepare,
    PvResize,
    PvGroup,
    GroupVolumes,
    ActivateGroup,
    ExtendVolume,
    VolumeNode,
    VolumeFs,
    VolumeTools,
    Finished(Finish),
}

/// What the caller is to do.
#[derive(Debug, Clone, Copy, PartialEq, Eq, Structural)]
pub enum Job {
    /// Read the size of the disk and of its blocks.
    ReadGeometry,
    /// Make a plan with `analyze_with`.
    Analyze,
    /// See which of the needed tools are there.
    FindTools,
    Run(Command),
    /// Run a command and keep what it prints.
    Capture(Command),
    /// See whether the backup header stands at the end of the disk.
    FindBackup,
    ReadHeader,
    /// Read how coarsely `sfdisk` aligns on this disk.
    ReadTolerance,
    ReadPartSize(u32),
    Sleep,
    /// Load the module of the filesystem and mount the target.
    Mount,
    Unmount,
    /// Load the device mapper and make the directories that `lvm` wants.
    PrepareLvm,
    /// Let the kernel read the partition table that was written to the disk,
    /// and do what [`Job::PrepareLvm`] asks for.
    PrepareLook,
    /// Open the target and sniff its filesystem.
    SniffTarget,
    /// Report the outcome.
    Finish(Finish),
}

/// What a job has brought.
pub enum Reply {
    Done,
    /// How a tool ended, unless it could not be started.
    Exit(Option<i32>),
    /// How a tool ended and what it printed, unless it could not be started.
    Output(Option<(i32, String)>),
    /// The sectors of the disk and the bytes of a block.
    Geometry(Option<(u64, u64)>),
    Plan(GrowPlan),
    /// For each needed tool whether it is there.
    Present(Vec<bool>),
    Answer(bool),
    /// The last usable block that the GPT header states.
    Header(Option<u64>),
    Tolerance(u64),
    Size(Option<u64>),
    Kind(Option<FsKind>),
}

pub enum ReplyView {
    Done,
    Exit(Option<i32>),
    Output(Option<(i32, Seq<char>)>),
    Geometry(Option<(u64, u64)>),
    Plan(PlanView),
    Present(Seq<bool>),
    Answer(bool),
    Header(Option<u64>),
    Tolerance(u64),
    Size(Option<u64>),
    Kind(Option<FsKind>),
}

impl View for Reply {
    type V = ReplyView;

    open spec fn view(&self) -> ReplyView {
        match self {
            Reply::Done => ReplyView::Done,
            Reply::Exit(c) => ReplyView::Exit(*c),
            Reply::Output(o) => ReplyView::Output(
                match o {
                    Some((c, t)) => Some((*c, t@)),
                    None => None,
                },
            ),
            Reply::Geometry(g) => ReplyView::Geometry(*g),
            Reply::Plan(p) => ReplyView::Plan(p@),
            Reply::Present(v) => ReplyView::Present(v@),
            Reply::Answer(b) => ReplyView::Answer(*b),
            Reply::Header(h) => ReplyView::Header(*h),
            Reply::Tolerance(t) => ReplyView::Tolerance(*t),
            Reply::Size(s) => ReplyView::Size(*s),
            Reply::Kind(k) => ReplyView::Kind(*k),
        }
    }
}

/// A run of the grow process on one disk.
pub struct GrowRun {
    pub disk: String,
    pub disk_name: String,
    pub lv_declared: Option<String>,
    pub device_sectors: u64,
    pub lba_bytes: u64,
    pub skip_reason: Option<String>,
    /// Whether a partition grows, or only a filesystem.
    pub partition: bool,
    pub part_num: u32,
    pub part_dev: String,
    pub plan_fs: FsKind,
    pub is_gpt: bool,
    /// Whether the backup of the GPT has been moved.
    pub moved: bool,
    pub old_sectors: u64,
    pub expected: u64,
    pub surgery: Option<SurgeryPlan>,
    pub phase: Phase,
    pub step: Step,
    /// The filesystem that grows now and the node it stands on.
    pub fs: FsKind,
    pub target: String,
    pub missing: Vec<Tool>,
    pub new_sectors: u64,
    pub new_swap_start: u64,
    pub root_new_size: u64,
    pub vg: String,
    pub lv: String,
    pub lvs: Vec<(String, String)>,
}

#[verifier::ext_equal]
pub struct RunView {
    pub disk: Seq<char>,
    pub disk_name: Seq<char>,
    pub lv_declared: Option<Seq<char>>,
    pub device_sectors: u64,
    pub lba_bytes: u64,
    pub skip_reason: Option<Seq<char>>,
    pub partition: bool,
    pub part_num: u32,
    pub part_dev: Seq<char>,
    pub plan_fs: FsKind,
    pub is_gpt: bool,
    pub moved: bool,
    pub old_sectors: u64,
    pub expected: u64,
    pub surgery: Option<SurgeryView>,
    pub phase: Phase,
    pub step: Step,
    pub fs: FsKind,
    pub target: Seq<char>,
    pub missing: Seq<Tool>,
    pub new_sectors: u64,
    pub new_swap_start: u64,
    pub root_new_size: u64,
    pub vg: Seq<char>,
    pub lv: Seq<char>,
    pub lvs: Seq<(Seq<char>, Seq<char>)>,
}

pub open spec fn rows(v: Seq<(String, String)>) -> Seq<(Seq<char>, Seq<char>)> {
    Seq::new(v.len(), |i: int| (v[i].0@, v[i].1@))
}

impl View for GrowRun {
    type V = RunView;

    open spec fn view(&self) -> RunView {
        RunView {
            disk: self.disk@,
            disk_name: self.disk_name@,
            lv_declared: text::opt_text(self.lv_declared),
            device_sectors: self.device_sectors,
            lba_bytes: self.lba_bytes,
            skip_reason: text::opt_text(self.skip_reason),
            partition: self.partition,
            part_num: self.part_num,
            part_dev: self.part_dev@,
            plan_fs: self.plan_fs,
            is_gpt: self.is_gpt,
            moved: self.moved,
            old_sectors: self.old_sectors,
            expected: self.expected,
            surgery: plan::surgery_view(self.surgery),
            phase: self.phase,
            step: self.step,
            fs: self.fs,
            target: self.target@,
            missing: self.missing@,
            new_sectors: self.new_sectors,
            new_swap_start: self.new_swap_start,
            root_new_size: self.root_new_size,
            vg: self.vg@,
            lv: self.lv@,
            lvs: rows(self.lvs@),
        }
    }
}

/// The job of each step.
pub open spec fn job_of(s: RunView) -> Job {
    match s.step {
        Step::Geometry => Job::ReadGeometry,
        Step::Analyze => Job::Analyze,
        Step::Tools => Job::FindTools,
        Step::LookPrepare => Job::PrepareLook,
        Step::LookGroup => Job::Capture(Command::PvGroup),
        Step::LookVolumes => Job::Capture(Command::GroupVolumes),
        Step::Relocate => Job::Run(Command::Relocate),
        Step::BackupHeader => Job::FindBackup,
        Step::MainHeader => Job::ReadHeader,
        Step::GrowLast => Job::Run(Command::GrowLast),
        Step::Tolerance => Job::ReadTolerance,
        Step::Poll { wait, .. } => Job::ReadPartSize(awaited(s, wait)),
        Step::Pause { .. } => Job::Sleep,
        Step::Probe { wait, .. } => Job::ReadPartSize(awaited(s, wait)),
        Step::Partx { add, .. } => Job::Run(
            if add {
                Command::PartxAdd
            } else {
                Command::PartxUpdate
            },
        ),
        Step::NewSize => Job::ReadPartSize(s.part_num),
        Step::SurgeryHeader => Job::ReadHeader,
        Step::DeleteSwap => Job::Run(Command::DeleteSwap),
        Step::ResizeRoot => Job::Run(Command::ResizeRoot),
        Step::CreateSwap => Job::Run(Command::CreateSwap),
        Step::PartUuid => Job::Run(Command::RestorePartUuid),
        Step::Mkswap => Job::Run(Command::MakeSwap),
        Step::CheckExt => Job::Run(Command::CheckExt),
        Step::ResizeExt => Job::Run(Command::ResizeExt),
        Step::CheckNtfs => Job::Run(Command::CheckNtfs),
        Step::ResizeNtfs => Job::Run(Command::ResizeNtfs),
        Step::Mount => Job::Mount,
        Step::GrowMounted => Job::Run(
            if s.fs is Xfs {
                Command::GrowXfs
            } else {
                Command::GrowBtrfs
            },
        ),
        Step::Unmount { .. } => Job::Unmount,
        Step::LvmPrepare => Job::PrepareLvm,
        Step::PvResize => Job::Run(Command::PvResize),
        Step::PvGroup => Job::Capture(Command::PvGroup),
        Step::GroupVolumes => Job::Capture(Command::GroupVolumes),
        Step::ActivateGroup => Job::Run(Command::ActivateGroup),
        Step::ExtendVolume => Job::Run(Command::ExtendVolume),
        Step::VolumeNode => Job::Capture(Command::VolumeNode),
        Step::VolumeFs => Job::SniffTarget,
        Step::VolumeTools => Job::FindTools,
        Step::Finished(f) => Job::Finish(f),
    }
}

/// The number of the partition that a run waits for.
pub open spec fn awaited(s: RunView, wait: Wait) -> u32 {
    match (wait, s.surgery) {
        (Wait::Root, Some(g)) => g.root_num,
        (Wait::Swap, Some(g)) => g.swap_num,
        _ => s.part_num,
    }
}

/// Whether a reply is one that the job asked for.
pub open spec fn answers(s: RunView, r: ReplyView) -> bool {
    match job_of(s) {
        Job::ReadGeometry => match r {
            ReplyView::Geometry(Some((_, lba))) => lba > 0,
            ReplyView::Geometry(None) => true,
            _ => false,
        },
        Job::Analyze => match r {
            ReplyView::Plan(p) => plan::plan_fits(p) && (p.action matches Some(a)
                && a is FilesystemOnly ==> s.device_sectors <= MAX_SECTORS),
            _ => false,
        },
        Job::FindTools => match r {
            ReplyView::Present(v) => v.len() == needed(s).len(),
            _ => false,
        },
        Job::Run(_) => r is Exit,
        Job::Capture(_) => r is Output,
        Job::FindBackup => r is Answer,
        Job::ReadHeader => r is Header,
        Job::ReadTolerance => r is Tolerance,
        Job::ReadPartSize(_) => match r {
            ReplyView::Size(Some(n)) => s.step is NewSize ==> n <= MAX_SECTORS,
            ReplyView::Size(None) => true,
            _ => false,
        },
        Job::Sleep => r is Done,
        Job::Mount => r is Answer,
        Job::Unmount => r is Done,
        Job::PrepareLvm => r is Done,
        Job::PrepareLook => r is Done,
        Job::SniffTarget => r is Kind,
        Job::Finish(_) => false,
    }
}

/// The tools that a filesystem needs to grow.
pub open spec fn fs_tools(fs: FsKind) -> Seq<Tool> {
    match fs {
        FsKind::Ext => seq![Tool::E2fsck, Tool::Resize2fs],
        FsKind::Xfs => seq![Tool::XfsGrowfs],
        FsKind::Ntfs => seq![Tool::Ntfsresize],
        FsKind::Btrfs => seq![Tool::Btrfs],
        FsKind::Lvm => seq![Tool::Lvm],
        _ => seq![],
    }
}

/// The tools that must be there before the next step.
pub open spec fn needed(s: RunView) -> Seq<Tool> {
    if s.step is Tools && s.partition {
        seq![Tool::Sfdisk, Tool::Mkswap, Tool::Partx] + fs_tools(s.fs)
    } else {
        fs_tools(s.fs)
    }
}

/// Those of the first `n` needed tools that are not there.
pub open spec fn absent(tools: Seq<Tool>, present: Seq<bool>, n: nat) -> Seq<Tool>
    decreases n,
{
    if n == 0 {
        seq![]
    } else {
        let before = absent(tools, present, (n - 1) as nat);
        if present[n - 1] {
            before
        } else {
            before.push(tools[n - 1])
        }
    }
}

pub open spec fn bytes_of(sectors: u64) -> u64 {
    (sectors * SECTOR) as u64
}

pub open spec fn at(s: RunView, step: Step) -> RunView {
    RunView { step, ..s }
}

pub open spec fn entering(s: RunView, phase: Phase) -> RunView {
    RunView { phase, ..s }
}

pub open spec fn ended(
    s: RunView,
    status: Status,
    reason: Reason,
    manual: Manual,
    old_bytes: u64,
    new_bytes: u64,
) -> RunView {
    RunView {
        phase: Phase::Done,
        step: Step::Finished(Finish { status, reason, manual, old_bytes, new_bytes }),
        ..s
    }
}

/// The run ends without anything to report but why.
pub open spec fn dropped(s: RunView, status: Status, reason: Reason) -> RunView {
    ended(s, status, reason, Manual::Nothing, 0, 0)
}

/// A run on a disk under a policy, before its first reply.
pub open spec fn started(disk: Seq<char>, policy: PolicyView) -> RunView {
    let s = RunView {
        disk,
        disk_name: plan::base_name(disk),
        lv_declared: policy.lv,
        device_sectors: 0,
        lba_bytes: SECTOR,
        skip_reason: None,
        partition: false,
        part_num: 0,
        part_dev: seq![],
        plan_fs: FsKind::Unknown,
        is_gpt: false,
        moved: false,
        old_sectors: 0,
        expected: 0,
        surgery: None,
        phase: Phase::Analyze,
        step: Step::Geometry,
        fs: FsKind::Unknown,
        target: seq![],
        missing: seq![],
        new_sectors: 0,
        new_swap_start: 0,
        root_new_size: 0,
        vg: seq![],
        lv: seq![],
        lvs: seq![],
    };
    if policy.enabled {
        s
    } else {
        dropped(s, Status::Disabled, Reason::Nothing)
    }
}

/// A plan has come.
pub open spec fn planned(s: RunView, p: PlanView) -> RunView {
    match p.action {
        None => dropped(
            RunView { skip_reason: p.skip_reason, ..s },
            Status::Skipped,
            Reason::Planned,
        ),
        Some(plan::ActionView::FilesystemOnly { fs, fs_dev }) => RunView {
            step: Step::Tools,
            plan_fs: fs,
            fs,
            target: fs_dev,
            ..s
        },
        Some(
            plan::ActionView::PartitionGrow {
                part_num,
                part_dev,
                fs,
                surgery,
                expected_new_sectors,
                old_sectors,
                is_gpt,
            },
        ) => RunView {
            step: Step::Tools,
            partition: true,
            part_num,
            part_dev,
            plan_fs: fs,
            is_gpt,
            old_sectors,
            expected: match expected_new_sectors {
                Some(n) => n,
                None => 0,
            },
            surgery,
            fs,
            target: part_dev,
            ..s
        },
    }
}

/// It is known which tools are there.
pub open spec fn tools_found(s: RunView, present: Seq<bool>) -> RunView {
    let t = RunView { missing: absent(needed(s), present, needed(s).len()), ..s };
    if t.missing.len() > 0 {
        dropped(t, Status::Skipped, Reason::ToolsMissing)
    } else if !s.partition {
        grow_fs(entering(t, Phase::Filesystem))
    } else if s.fs is Lvm {
        at(t, Step::LookPrepare)
    } else {
        begin_edit(t)
    }
}

/// The table is to be edited, a GPT only once its backup has been moved.
pub open spec fn begin_edit(s: RunView) -> RunView {
    if s.is_gpt {
        at(entering(s, Phase::Partition), Step::Relocate)
    } else {
        edit_table(entering(s, Phase::Partition))
    }
}

/// The table can be edited: the backup of a GPT stands where it belongs.
pub open spec fn edit_table(s: RunView) -> RunView {
    match s.surgery {
        None => at(s, Step::GrowLast),
        Some(_) => if s.is_gpt {
            at(s, Step::SurgeryHeader)
        } else {
            place_swap(s, mbr_last(s))
        },
    }
}

/// The last block that an MBR can address on the disk.
pub open spec fn mbr_last(s: RunView) -> u64 {
    let n = plan::sectors_lba(s.device_sectors, s.lba_bytes);
    if n >= 0x1_0000_0000 {
        0xffff_ffff
    } else if n > 0 {
        (n - 1) as u64
    } else {
        0
    }
}

/// How a run ends that finds before its first edit that swap cannot make way:
/// nothing has changed, unless the backup of a GPT had to be moved.
pub open spec fn unedited(s: RunView) -> Status {
    if s.moved {
        Status::Failed
    } else {
        Status::Skipped
    }
}

/// Swap is to end at the last usable block, and root to end before swap.
pub open spec fn place_swap(s: RunView, usable_last: u64) -> RunView {
    match s.surgery {
        None => s,
        Some(g) => if g.swap_sectors == 0 || g.swap_sectors - 1 > usable_last {
            dropped(s, unedited(s), Reason::SwapUnderflow)
        } else if usable_last - (g.swap_sectors - 1) < g.root_first_lba {
            dropped(s, unedited(s), Reason::RootUnderflow)
        } else {
            RunView {
                step: Step::DeleteSwap,
                new_swap_start: (usable_last - (g.swap_sectors - 1)) as u64,
                root_new_size: (usable_last - (g.swap_sectors - 1) - g.root_first_lba) as u64,
                ..s
            }
        },
    }
}

pub open spec fn new_root_bytes(s: RunView) -> u64 {
    table::sat(s.root_new_size * s.lba_bytes)
}

/// The kernel is asked until it shows a partition with `min` sectors or more.
pub open spec fn wait_for(s: RunView, wait: Wait, min: u64) -> RunView {
    at(s, Step::Poll { wait, min, left: POLL_TRIES, again: false })
}

/// The kernel is asked for root and then for swap.
pub open spec fn wait_for_root(s: RunView) -> RunView {
    wait_for(
        entering(s, Phase::KernelReread),
        Wait::Root,
        plan::lba_sectors(s.root_new_size, s.lba_bytes),
    )
}

/// The kernel shows the partition at its new size.
pub open spec fn visible(s: RunView, wait: Wait) -> RunView {
    match wait {
        Wait::Last => at(entering(s, Phase::Filesystem), Step::NewSize),
        Wait::Root => match s.surgery {
            Some(g) => wait_for(s, Wait::Swap, plan::lba_sectors(g.swap_sectors, s.lba_bytes)),
            None => s,
        },
        Wait::Swap => at(s, Step::Mkswap),
    }
}

/// The kernel does not show the partition at its new size.
pub open spec fn unseen(s: RunView, wait: Wait) -> RunView {
    ended(
        s,
        Status::Failed,
        Reason::RereadFailed,
        if wait is Last {
            Manual::GrowFs
        } else {
            Manual::SwapArea
        },
        bytes_of(s.old_sectors),
        0,
    )
}

/// The filesystem is to grow.
pub open spec fn grow_fs(s: RunView) -> RunView {
    match s.fs {
        FsKind::Ext => at(s, Step::CheckExt),
        FsKind::Xfs | FsKind::Btrfs => at(s, Step::Mount),
        FsKind::Ntfs => at(s, Step::CheckNtfs),
        FsKind::Lvm => at(s, Step::LvmPrepare),
        _ => fs_failed(s, FsError::Unsupported),
    }
}

pub open spec fn fs_grown(s: RunView) -> RunView {
    if !s.partition {
        ended(
            s,
            Status::Expanded,
            Reason::Nothing,
            Manual::Nothing,
            0,
            bytes_of(s.device_sectors),
        )
    } else if s.surgery is None {
        ended(
            s,
            Status::Expanded,
            Reason::Nothing,
            Manual::Nothing,
            bytes_of(s.old_sectors),
            bytes_of(s.new_sectors),
        )
    } else {
        ended(
            s,
            Status::Expanded,
            Reason::Nothing,
            Manual::Nothing,
            bytes_of(s.old_sectors),
            new_root_bytes(s),
        )
    }
}

/// Without a partition table nothing has changed; with one it has.
pub open spec fn fs_failed(s: RunView, e: FsError) -> RunView {
    if !s.partition {
        dropped(s, Status::Skipped, Reason::Fs(e))
    } else if s.surgery is None {
        ended(
            s,
            Status::Partial,
            Reason::FsAfterGrow(e),
            Manual::GrowFs,
            bytes_of(s.old_sectors),
            bytes_of(s.new_sectors),
        )
    } else {
        ended(
            s,
            Status::Partial,
            Reason::FsAfterSurgery(e),
            Manual::GrowFs,
            bytes_of(s.old_sectors),
            new_root_bytes(s),
        )
    }
}

/// The volumes that `lvs` lists, each with its attributes.
pub open spec fn volume_rows(ls: Seq<Seq<char>>, n: nat) -> Seq<(Seq<char>, Seq<char>)>
    decreases n,
{
    if n == 0 {
        seq![]
    } else {
        let before = volume_rows(ls, (n - 1) as nat);
        let w = text::words(ls[n - 1]);
        if w.len() == 0 {
            before
        } else if w.len() == 1 {
            before.push((w[0], seq![]))
        } else {
            before.push((w[0], w[1]))
        }
    }
}

/// A group with one volume grows that one; a group with several grows the one
/// that the policy names, and none by guess.
pub open spec fn chosen_volume(
    lvs: Seq<(Seq<char>, Seq<char>)>,
    declared: Option<Seq<char>>,
) -> Option<Seq<char>> {
    if lvs.len() == 1 {
        Some(lvs[0].0)
    } else {
        match declared {
            Some(d) => if exists|i: int| 0 <= i < lvs.len() && (#[trigger] lvs[i]).0 == d {
                Some(d)
            } else {
                None
            },
            None => None,
        }
    }
}

/// Whether `lv` is a pool, which has no filesystem of its own.
pub open spec fn is_pool(lvs: Seq<(Seq<char>, Seq<char>)>, lv: Seq<char>) -> bool {
    exists|i: int|
        0 <= i < lvs.len() && (#[trigger] lvs[i]).0 == lv && lvs[i].1.len() > 0 && lvs[i].1[0]
            == 't'
}

/// What `lvs` printed has come.
#[verifier::opaque]
pub open spec fn volumes_listed(s: RunView, out: Seq<char>) -> RunView {
    let ls = text::lines(out);
    let t = RunView { lvs: volume_rows(ls, ls.len()), ..s };
    match chosen_volume(t.lvs, s.lv_declared) {
        None => fs_failed(t, FsError::VolumeUndeclared),
        Some(lv) => RunView { lv, step: Step::ActivateGroup, ..t },
    }
}

/// Before anything changes, `lvs` has listed the volumes of the group. Without
/// one that is to grow, nothing is edited.
#[verifier::opaque]
pub open spec fn volumes_seen(s: RunView, out: Seq<char>) -> RunView {
    let ls = text::lines(out);
    let t = RunView { lvs: volume_rows(ls, ls.len()), ..s };
    match chosen_volume(t.lvs, s.lv_declared) {
        None => dropped(t, Status::Skipped, Reason::Fs(FsError::VolumeUndeclared)),
        Some(_) => begin_edit(t),
    }
}

/// A run that looks at the volumes before anything changes, after a reply. What
/// cannot be looked at is left to the tools that come later.
#[verifier::opaque]
pub open spec fn look_advanced(s: RunView, r: ReplyView) -> RunView {
    match (s.step, r) {
        (Step::LookPrepare, ReplyView::Done) => at(s, Step::LookGroup),
        (Step::LookGroup, ReplyView::Output(o)) => match o {
            Some((0, out)) => if text::trim(out).len() == 0 {
                begin_edit(s)
            } else {
                RunView { vg: text::trim(out), step: Step::LookVolumes, ..s }
            },
            _ => begin_edit(s),
        },
        (Step::LookVolumes, ReplyView::Output(o)) => match o {
            Some((0, out)) => volumes_seen(s, out),
            _ => begin_edit(s),
        },
        _ => last_advanced(s, r),
    }
}

/// A run after a reply. A reply that does not answer the job changes nothing.
#[verifier::opaque]
pub open spec fn advanced(s: RunView, r: ReplyView) -> RunView {
    match (s.step, r) {
        (Step::Geometry, ReplyView::Geometry(None)) => dropped(
            s,
            Status::Failed,
            Reason::NoDeviceSize,
        ),
        (Step::Geometry, ReplyView::Geometry(Some((device_sectors, lba_bytes)))) => RunView {
            device_sectors,
            lba_bytes,
            step: Step::Analyze,
            ..s
        },
        (Step::Analyze, ReplyView::Plan(p)) => planned(s, p),
        (Step::Tools, ReplyView::Present(v)) => tools_found(s, v),
        (Step::Relocate, ReplyView::Exit(c)) => if c == Some(0i32) {
            edit_table(RunView { moved: true, ..s })
        } else {
            at(s, Step::BackupHeader)
        },
        (Step::BackupHeader, ReplyView::Answer(b)) => if b {
            edit_table(s)
        } else {
            at(s, Step::MainHeader)
        },
        (Step::MainHeader, ReplyView::Header(h)) => if h is Some {
            dropped(s, Status::Skipped, Reason::RelocateFailed)
        } else {
            dropped(s, Status::Failed, Reason::RelocateUnknown)
        },
        _ => look_advanced(s, r),
    }
}

/// A run that grows the last partition or waits for the kernel, after a reply.
#[verifier::opaque]
pub open spec fn last_advanced(s: RunView, r: ReplyView) -> RunView {
    match (s.step, r) {
        (Step::GrowLast, ReplyView::Exit(c)) => match c {
            Some(0) => at(entering(s, Phase::KernelReread), Step::Tolerance),
            Some(n) => if s.is_gpt {
                ended(
                    s,
                    Status::Partial,
                    Reason::GrowFailed(n),
                    Manual::GrowLast,
                    bytes_of(s.old_sectors),
                    0,
                )
            } else {
                dropped(s, Status::Skipped, Reason::GrowFailed(n))
            },
            None => dropped(s, Status::Failed, Reason::SfdiskSpawn),
        },
        (Step::Tolerance, ReplyView::Tolerance(t)) => if s.old_sectors < s.expected - t {
            wait_for(s, Wait::Last, (s.expected - t) as u64)
        } else {
            visible(s, Wait::Last)
        },
        (Step::Poll { wait, min, left, again }, ReplyView::Size(n)) => match n {
            Some(n) if n >= min => visible(s, wait),
            _ => at(s, Step::Pause { wait, min, left, again }),
        },
        (Step::Pause { wait, min, left, again }, ReplyView::Done) => if left > 1 {
            at(s, Step::Poll { wait, min, left: (left - 1) as u32, again })
        } else if !again {
            at(s, Step::Probe { wait, min })
        } else {
            unseen(s, wait)
        },
        (Step::Probe { wait, min }, ReplyView::Size(n)) => at(
            s,
            Step::Partx { wait, min, add: n is None },
        ),
        (Step::Partx { wait, min, .. }, ReplyView::Exit(_)) => at(
            s,
            Step::Poll { wait, min, left: POLL_TRIES, again: true },
        ),
        (Step::NewSize, ReplyView::Size(n)) => grow_fs(
            RunView {
                new_sectors: match n {
                    Some(n) => n,
                    None => s.old_sectors,
                },
                ..s
            },
        ),
        _ => surgery_advanced(s, r),
    }
}

/// A run that moves swap out of the way of root, after a reply.
#[verifier::opaque]
pub open spec fn surgery_advanced(s: RunView, r: ReplyView) -> RunView {
    match (s.step, r) {
        (Step::SurgeryHeader, ReplyView::Header(h)) => match h {
            Some(last) => place_swap(s, last),
            None => dropped(s, Status::Failed, Reason::HeaderLost),
        },
        (Step::DeleteSwap, ReplyView::Exit(c)) => match c {
            Some(0) => at(s, Step::ResizeRoot),
            Some(n) => if s.moved {
                ended(
                    s,
                    Status::Partial,
                    Reason::DeleteFailed(n),
                    Manual::MoveSwap,
                    bytes_of(s.old_sectors),
                    0,
                )
            } else {
                dropped(s, Status::Skipped, Reason::DeleteFailed(n))
            },
            None => dropped(s, Status::Failed, Reason::SfdiskSpawn),
        },
        (Step::ResizeRoot, ReplyView::Exit(c)) => match c {
            Some(0) => at(s, Step::CreateSwap),
            Some(n) => ended(s, Status::Partial, Reason::RootFailed(n), Manual::SwapBack, 0, 0),
            None => ended(s, Status::Failed, Reason::SfdiskSpawn, Manual::SwapBack, 0, 0),
        },
        (Step::CreateSwap, ReplyView::Exit(c)) => match c {
            Some(0) => match s.surgery {
                Some(g) if g.swap_partuuid is Some => at(s, Step::PartUuid),
                _ => wait_for_root(s),
            },
            Some(n) => ended(
                s,
                Status::Partial,
                Reason::SwapFailed(n),
                Manual::SwapAtEnd,
                bytes_of(s.old_sectors),
                0,
            ),
            None => ended(
                s,
                Status::Failed,
                Reason::SfdiskSpawn,
                Manual::SwapAtEnd,
                bytes_of(s.old_sectors),
                0,
            ),
        },
        (Step::PartUuid, ReplyView::Exit(c)) => if c == Some(0i32) {
            wait_for_root(s)
        } else {
            ended(
                s,
                Status::Partial,
                Reason::PartUuidFailed,
                Manual::SwapArea,
                bytes_of(s.old_sectors),
                0,
            )
        },
        (Step::Mkswap, ReplyView::Exit(c)) => match c {
            Some(0) => grow_fs(entering(s, Phase::Filesystem)),
            Some(n) => ended(
                s,
                Status::Partial,
                Reason::MkswapFailed(n),
                Manual::SwapArea,
                bytes_of(s.old_sectors),
                new_root_bytes(s),
            ),
            None => ended(
                s,
                Status::Failed,
                Reason::MkswapSpawn,
                Manual::SwapArea,
                bytes_of(s.old_sectors),
                0,
            ),
        },
        _ => fs_advanced(s, r),
    }
}

/// A run that grows a filesystem, after a reply.
#[verifier::opaque]
pub open spec fn fs_advanced(s: RunView, r: ReplyView) -> RunView {
    match (s.step, r) {
        (Step::CheckExt, ReplyView::Exit(c)) => match c {
            None => fs_failed(s, FsError::E2fsckSpawn),
            Some(n) => if 0 <= n <= 2 {
                at(s, Step::ResizeExt)
            } else {
                fs_failed(s, FsError::E2fsckRejected(n))
            },
        },
        (Step::ResizeExt, ReplyView::Exit(c)) => match c {
            None => fs_failed(s, FsError::Resize2fsSpawn),
            Some(0) => fs_grown(s),
            Some(n) => fs_failed(s, FsError::Resize2fsFailed(n)),
        },
        (Step::CheckNtfs, ReplyView::Exit(c)) => match c {
            None => fs_failed(s, FsError::NtfsSpawn),
            Some(0) => at(s, Step::ResizeNtfs),
            Some(n) => fs_failed(s, FsError::NtfsRejected(n)),
        },
        (Step::ResizeNtfs, ReplyView::Exit(c)) => match c {
            None => fs_failed(s, FsError::NtfsSpawn),
            Some(0) => fs_grown(s),
            Some(n) => fs_failed(s, FsError::NtfsFailed(n)),
        },
        (Step::Mount, ReplyView::Answer(b)) => if b {
            at(s, Step::GrowMounted)
        } else {
            fs_failed(
                s,
                if s.fs is Xfs {
                    FsError::XfsMount
                } else {
                    FsError::BtrfsMount
                },
            )
        },
        (Step::GrowMounted, ReplyView::Exit(c)) => at(
            s,
            Step::Unmount { grown: c == Some(0i32) },
        ),
        (Step::Unmount { grown }, ReplyView::Done) => if grown {
            fs_grown(s)
        } else {
            fs_failed(
                s,
                if s.fs is Xfs {
                    FsError::XfsGrow
                } else {
                    FsError::BtrfsGrow
                },
            )
        },
        _ => lvm_advanced(s, r),
    }
}

/// A run that grows a logical volume, after a reply.
#[verifier::opaque]
pub open spec fn lvm_advanced(s: RunView, r: ReplyView) -> RunView {
    match (s.step, r) {
        (Step::LvmPrepare, ReplyView::Done) => at(s, Step::PvResize),
        (Step::PvResize, ReplyView::Exit(c)) => match c {
            None => fs_failed(s, FsError::LvmSpawn),
            Some(0) => at(s, Step::PvGroup),
            Some(n) => fs_failed(s, FsError::PvResizeFailed(n)),
        },
        (Step::PvGroup, ReplyView::Output(o)) => match o {
            None => fs_failed(s, FsError::LvmSpawn),
            Some((0, out)) => if text::trim(out).len() == 0 {
                fs_failed(s, FsError::NoGroup)
            } else {
                RunView { vg: text::trim(out), step: Step::GroupVolumes, ..s }
            },
            Some((n, _)) => fs_failed(s, FsError::PvsFailed(n)),
        },
        (Step::GroupVolumes, ReplyView::Output(o)) => match o {
            None => fs_failed(s, FsError::LvmSpawn),
            Some((0, out)) => volumes_listed(s, out),
            Some((n, _)) => fs_failed(s, FsError::LvsFailed(n)),
        },
        (Step::ActivateGroup, ReplyView::Exit(c)) => match c {
            None => fs_failed(s, FsError::LvmSpawn),
            Some(0) => at(s, Step::ExtendVolume),
            Some(n) => fs_failed(s, FsError::ActivateFailed(n)),
        },
        (Step::ExtendVolume, ReplyView::Exit(c)) => match c {
            None => fs_failed(s, FsError::LvmSpawn),
            Some(0) => if is_pool(s.lvs, s.lv) {
                fs_grown(s)
            } else {
                at(s, Step::VolumeNode)
            },
            Some(n) => fs_failed(s, FsError::ExtendFailed(n)),
        },
        (Step::VolumeNode, ReplyView::Output(o)) => match o {
            None => fs_failed(s, FsError::LvmSpawn),
            Some((0, out)) => if text::trim(out).len() == 0 {
                fs_failed(s, FsError::NoNode)
            } else {
                RunView { target: text::trim(out), step: Step::VolumeFs, ..s }
            },
            Some((n, _)) => fs_failed(s, FsError::NodeFailed(n)),
        },
        (Step::VolumeFs, ReplyView::Kind(k)) => match k {
            None => fs_failed(s, FsError::NodeUnreadable),
            Some(k) => if k is Ext || k is Xfs || k is Btrfs {
                RunView { fs: k, step: Step::VolumeTools, ..s }
            } else {
                fs_failed(s, FsError::VolumeNotGrowable(k))
            },
        },
        (Step::VolumeTools, ReplyView::Present(v)) => {
            let t = RunView { missing: absent(needed(s), v, needed(s).len()), ..s };
            if t.missing.len() > 0 {
                fs_failed(t, FsError::VolumeToolsMissing)
            } else {
                grow_fs(t)
            }
        },
        _ => s,
    }
}

/// What holds of a run between two replies.
pub open spec fn sound(s: RunView) -> bool {
    &&& s.lba_bytes > 0
    &&& !(s.step is Geometry || s.step is Analyze || s.step is Finished) && !s.partition
        ==> s.device_sectors <= MAX_SECTORS
    &&& s.old_sectors <= MAX_SECTORS
    &&& s.new_sectors <= MAX_SECTORS
    &&& s.surgery is Some ==> s.partition
    &&& !(s.step is Geometry || s.step is Analyze || s.step is Finished) ==> plan::growable(
        s.plan_fs,
    )
    &&& match s.step {
        Step::GrowLast | Step::Tolerance | Step::NewSize => s.partition && s.surgery is None,
        Step::SurgeryHeader
        | Step::DeleteSwap
        | Step::ResizeRoot
        | Step::CreateSwap
        | Step::Mkswap => s.surgery is Some,
        Step::PartUuid => s.surgery matches Some(g) && g.swap_partuuid is Some,
        Step::LookPrepare
        | Step::LookGroup
        | Step::LookVolumes
        | Step::Relocate
        | Step::BackupHeader
        | Step::MainHeader => s.partition,
        Step::Poll { wait, left, .. } | Step::Pause { wait, left, .. } => left > 0 && (wait is Last
            ==> s.partition && s.surgery is None) && (!(wait is Last) ==> s.surgery is Some),
        Step::Probe { wait, .. } | Step::Partx { wait, .. } => (wait is Last ==> s.partition
            && s.surgery is None) && (!(wait is Last) ==> s.surgery is Some),
        Step::VolumeTools => s.fs is Ext || s.fs is Xfs || s.fs is Btrfs,
        Step::Mount | Step::GrowMounted | Step::Unmount { .. } => s.fs is Xfs || s.fs is Btrfs,
        Step::Geometry | Step::Analyze => !s.partition && s.surgery is None,
        Step::Finished(f) => match f.manual {
            Manual::SwapBack | Manual::SwapAtEnd | Manual::SwapArea | Manual::MoveSwap =>
                s.surgery is Some,
            Manual::GrowFs | Manual::GrowLast => plan::growable(s.plan_fs),
            Manual::Nothing => true,
        },
        _ => true,
    }
}

fn tools_of(fs: FsKind, table: bool) -> (r: Vec<Tool>)
    ensures
        r@ == if table {
            seq![Tool::Sfdisk, Tool::Mkswap, Tool::Partx] + fs_tools(fs)
        } else {
            fs_tools(fs)
        },
{
    let mut v: Vec<Tool> = Vec::new();
    if table {
        v.push(Tool::Sfdisk);
        v.push(Tool::Mkswap);
        v.push(Tool::Partx);
    }
    match fs {
        FsKind::Ext => {
            v.push(Tool::E2fsck);
            v.push(Tool::Resize2fs);
        },
        FsKind::Xfs => {
            v.push(Tool::XfsGrowfs);
        },
        FsKind::Ntfs => {
            v.push(Tool::Ntfsresize);
        },
        FsKind::Btrfs => {
            v.push(Tool::Btrfs);
        },
        FsKind::Lvm => {
            v.push(Tool::Lvm);
        },
        _ => {},
    }
    assert(v@ =~= if table {
        seq![Tool::Sfdisk, Tool::Mkswap, Tool::Partx] + fs_tools(fs)
    } else {
        fs_tools(fs)
    });
    v
}

fn absent_of(tools: &Vec<Tool>, present: &Vec<bool>) -> (r: Vec<Tool>)
    requires
        tools@.len() == present@.len(),
    ensures
        r@ == absent(tools@, present@, tools@.len()),
{
    let mut v: Vec<Tool> = Vec::new();
    let mut i: usize = 0;
    while i < tools.len()
        invariant
            i <= tools@.len(),
            tools@.len() == present@.len(),
            v@ == absent(tools@, present@, i as nat),
        decreases tools@.len() - i,
    {
        if !present[i] {
            v.push(tools[i]);
        }
        i = i + 1;
    }
    v
}

fn volume_rows_of(out: &str) -> (r: Vec<(String, String)>)
    ensures
        rows(r@) == volume_rows(text::lines(out@), text::lines(out@).len()),
{
    let ls = split_lines(&chars_of(out));
    let ghost all = text::lines(out@);
    let mut v: Vec<(String, String)> = Vec::new();
    let mut i: usize = 0;
    assert(rows(v@) =~= volume_rows(all, 0));
    while i < ls.len()
        invariant
            i <= ls@.len(),
            text::texts(ls@) == all,
            rows(v@) == volume_rows(all, i as nat),
        decreases ls@.len() - i,
    {
        let ws = split_words(&ls[i]);
        let ghost w = text::words(all[i as int]);
        let ghost before = rows(v@);
        assert(all[i as int] == ls@[i as int]@);
        if ws.len() > 0 {
            assert(ws@[0]@ == w[0]);
            let name = string_of(&ws[0]);
            let attr = if ws.len() > 1 {
                assert(ws@[1]@ == w[1]);
                string_of(&ws[1])
            } else {
                String::new()
            };
            let ghost row = (name@, attr@);
            v.push((name, attr));
            assert(rows(v@) =~= before.push(row));
            assert(ws@.len() == 1 ==> attr@ =~= Seq::<char>::empty());
        }
        i = i + 1;
    }
    v
}

/// What a tool printed, as the run wants it.
pub fn captured_text(stdout: &Vec<u8>) -> (r: String)
    ensures
        r@ == text::trim(text::utf8_lossy(stdout@)),
{
    trimmed_str(text::from_utf8_lossy(stdout).as_str())
}

impl GrowRun {
    /// A run on the disk at a device node.
    pub fn start(disk: &str, policy: &GrowPolicy) -> (r: GrowRun)
        ensures
            r@ == started(disk@, policy@),
            sound(r@),
    {
        let mut run = GrowRun {
            disk: disk.to_owned(),
            disk_name: plan::disk_name_of(disk),
            lv_declared: match &policy.lv {
                Some(t) => Some(t.clone()),
                None => None,
            },
            device_sectors: 0,
            lba_bytes: SECTOR,
            skip_reason: None,
            partition: false,
            part_num: 0,
            part_dev: String::new(),
            plan_fs: FsKind::Unknown,
            is_gpt: false,
            moved: false,
            old_sectors: 0,
            expected: 0,
            surgery: None,
            phase: Phase::Analyze,
            step: Step::Geometry,
            fs: FsKind::Unknown,
            target: String::new(),
            missing: Vec::new(),
            new_sectors: 0,
            new_swap_start: 0,
            root_new_size: 0,
            vg: String::new(),
            lv: String::new(),
            lvs: Vec::new(),
        };
        assert(run.lvs@.len() == 0);
        assert(rows(run.lvs@) =~= Seq::<(Seq<char>, Seq<char>)>::empty());
        if !policy.enabled {
            run.drop_out(Status::Disabled, Reason::Nothing);
        }
        run
    }

    /// What is to be done next.
    pub fn job(&self) -> (r: Job)
        ensures
            r == job_of(self@),
    {
        match self.step {
            Step::Geometry => Job::ReadGeometry,
            Step::Analyze => Job::Analyze,
            Step::Tools => Job::FindTools,
            Step::LookPrepare => Job::PrepareLook,
            Step::LookGroup => Job::Capture(Command::PvGroup),
            Step::LookVolumes => Job::Capture(Command::GroupVolumes),
            Step::Relocate => Job::Run(Command::Relocate),
            Step::BackupHeader => Job::FindBackup,
            Step::MainHeader => Job::ReadHeader,
            Step::GrowLast => Job::Run(Command::GrowLast),
            Step::Tolerance => Job::ReadTolerance,
            Step::Poll { wait, .. } => Job::ReadPartSize(self.awaited_part(wait)),
            Step::Pause { .. } => Job::Sleep,
            Step::Probe { wait, .. } => Job::ReadPartSize(self.awaited_part(wait)),
            Step::Partx { add, .. } => Job::Run(
                if add {
                    Command::PartxAdd
                } else {
                    Command::PartxUpdate
                },
            ),
            Step::NewSize => Job::ReadPartSize(self.part_num),
            Step::SurgeryHeader => Job::ReadHeader,
            Step::DeleteSwap => Job::Run(Command::DeleteSwap),
            Step::ResizeRoot => Job::Run(Command::ResizeRoot),
            Step::CreateSwap => Job::Run(Command::CreateSwap),
            Step::PartUuid => Job::Run(Command::RestorePartUuid),
            Step::Mkswap => Job::Run(Command::MakeSwap),
            Step::CheckExt => Job::Run(Command::CheckExt),
            Step::ResizeExt => Job::Run(Command::ResizeExt),
            Step::CheckNtfs => Job::Run(Command::CheckNtfs),
            Step::ResizeNtfs => Job::Run(Command::ResizeNtfs),
            Step::Mount => Job::Mount,
            Step::GrowMounted => Job::Run(
                if self.fs == FsKind::Xfs {
                    Command::GrowXfs
                } else {
                    Command::GrowBtrfs
                },
            ),
            Step::Unmount { .. } => Job::Unmount,
            Step::LvmPrepare => Job::PrepareLvm,
            Step::PvResize => Job::Run(Command::PvResize),
            Step::PvGroup => Job::Capture(Command::PvGroup),
            Step::GroupVolumes => Job::Capture(Command::GroupVolumes),
            Step::ActivateGroup => Job::Run(Command::ActivateGroup),
            Step::ExtendVolume => Job::Run(Command::ExtendVolume),
            Step::VolumeNode => Job::Capture(Command::VolumeNode),
            Step::VolumeFs => Job::SniffTarget,
            Step::VolumeTools => Job::FindTools,
            Step::Finished(f) => Job::Finish(f),
        }
    }

    fn awaited_part(&self, wait: Wait) -> (r: u32)
        ensures
            r == awaited(self@, wait),
    {
        match (wait, &self.surgery) {
            (Wait::Root, Some(g)) => g.root_num,
            (Wait::Swap, Some(g)) => g.swap_num,
            _ => self.part_num,
        }
    }

    /// The tools that [`Job::FindTools`] asks for.
    pub fn needed_tools(&self) -> (r: Vec<Tool>)
        ensures
            r@ == needed(self@),
    {
        let table = match self.step {
            Step::Tools => self.partition,
            _ => false,
        };
        tools_of(self.fs, table)
    }

    fn go(&mut self, step: Step)
        ensures
            final(self)@ == at(old(self)@, step),
    {
        self.step = step;
    }

    fn enter(&mut self, phase: Phase)
        ensures
            final(self)@ == entering(old(self)@, phase),
    {
        self.phase = phase;
    }

    fn end(
        &mut self,
        status: Status,
        reason: Reason,
        manual: Manual,
        old_bytes: u64,
        new_bytes: u64,
    )
        ensures
            final(self)@ == ended(old(self)@, status, reason, manual, old_bytes, new_bytes),
    {
        self.phase = Phase::Done;
        self.step = Step::Finished(Finish { status, reason, manual, old_bytes, new_bytes });
    }

    fn drop_out(&mut self, status: Status, reason: Reason)
        ensures
            final(self)@ == dropped(old(self)@, status, reason),
    {
        self.end(status, reason, Manual::Nothing, 0, 0);
    }

    fn old_bytes(&self) -> (r: u64)
        requires
            self.old_sectors <= MAX_SECTORS,
        ensures
            r == bytes_of(self.old_sectors),
    {
        self.old_sectors * SECTOR
    }

    fn root_bytes(&self) -> (r: u64)
        ensures
            r == new_root_bytes(self@),
    {
        sat_mul(self.root_new_size, self.lba_bytes)
    }

    fn on_plan(&mut self, p: GrowPlan)
        requires
            old(self).step is Analyze,
            sound(old(self)@),
            plan::plan_fits(p@),
        ensures
            final(self)@ == planned(old(self)@, p@),
    {
        match p.action {
            None => {
                self.skip_reason = p.skip_reason;
                self.drop_out(Status::Skipped, Reason::Planned);
            },
            Some(GrowAction::FilesystemOnly { fs, fs_dev }) => {
                self.plan_fs = fs;
                self.fs = fs;
                self.target = fs_dev;
                self.go(Step::Tools);
            },
            Some(
                GrowAction::PartitionGrow {
                    part_num,
                    part_dev,
                    fs,
                    surgery,
                    expected_new_sectors,
                    old_sectors,
                    is_gpt,
                },
            ) => {
                self.partition = true;
                self.part_num = part_num;
                self.target = part_dev.clone();
                self.part_dev = part_dev;
                self.plan_fs = fs;
                self.is_gpt = is_gpt;
                self.old_sectors = old_sectors;
                self.expected = match expected_new_sectors {
                    Some(n) => n,
                    None => 0,
                };
                self.surgery = surgery;
                self.fs = fs;
                self.go(Step::Tools);
            },
        }
    }

    fn on_tools(&mut self, present: &Vec<bool>)
        requires
            old(self).step is Tools,
            sound(old(self)@),
            present@.len() == needed(old(self)@).len(),
        ensures
            final(self)@ == tools_found(old(self)@, present@),
    {
        self.missing = absent_of(&self.needed_tools(), present);
        if self.missing.len() > 0 {
            self.drop_out(Status::Skipped, Reason::ToolsMissing);
        } else if !self.partition {
            self.enter(Phase::Filesystem);
            self.start_fs();
        } else if self.fs == FsKind::Lvm {
            self.go(Step::LookPrepare);
        } else {
            self.begin();
        }
    }

    fn begin(&mut self)
        requires
            old(self).lba_bytes > 0,
        ensures
            final(self)@ == begin_edit(old(self)@),
    {
        self.enter(Phase::Partition);
        if self.is_gpt {
            self.go(Step::Relocate);
        } else {
            self.start_edit();
        }
    }

    fn end_unedited(&mut self, reason: Reason)
        ensures
            final(self)@ == dropped(old(self)@, unedited(old(self)@), reason),
    {
        if self.moved {
            self.drop_out(Status::Failed, reason);
        } else {
            self.drop_out(Status::Skipped, reason);
        }
    }

    fn start_edit(&mut self)
        requires
            old(self).lba_bytes > 0,
        ensures
            final(self)@ == edit_table(old(self)@),
    {
        if self.surgery.is_none() {
            self.go(Step::GrowLast);
        } else if self.is_gpt {
            self.go(Step::SurgeryHeader);
        } else {
            let n: u64 = sysfs_to_lba(self.device_sectors, self.lba_bytes);
            let last: u64 = if n >= 0x1_0000_0000 {
                0xffff_ffff
            } else if n > 0 {
                n - 1
            } else {
                0
            };
            self.place(last);
        }
    }

    fn place(&mut self, usable_last: u64)
        ensures
            final(self)@ == place_swap(old(self)@, usable_last),
    {
        let Some(g) = &self.surgery else {
            return ;
        };
        let sectors: u64 = g.swap_sectors;
        let root: u64 = g.root_first_lba;
        if sectors == 0 || sectors - 1 > usable_last {
            self.end_unedited(Reason::SwapUnderflow);
            return ;
        }
        let start: u64 = usable_last - (sectors - 1);
        if start < root {
            self.end_unedited(Reason::RootUnderflow);
            return ;
        }
        self.new_swap_start = start;
        self.root_new_size = start - root;
        self.go(Step::DeleteSwap);
    }

    fn wait(&mut self, wait: Wait, min: u64)
        ensures
            final(self)@ == wait_for(old(self)@, wait, min),
    {
        self.go(Step::Poll { wait, min, left: POLL_TRIES, again: false });
    }

    fn wait_root(&mut self)
        ensures
            final(self)@ == wait_for_root(old(self)@),
    {
        self.enter(Phase::KernelReread);
        let min: u64 = lba_to_sysfs(self.root_new_size, self.lba_bytes);
        self.wait(Wait::Root, min);
    }

    fn on_visible(&mut self, wait: Wait)
        ensures
            final(self)@ == visible(old(self)@, wait),
    {
        match wait {
            Wait::Last => {
                self.enter(Phase::Filesystem);
                self.go(Step::NewSize);
            },
            Wait::Root => {
                if let Some(g) = &self.surgery {
                    let min: u64 = lba_to_sysfs(g.swap_sectors, self.lba_bytes);
                    self.wait(Wait::Swap, min);
                }
            },
            Wait::Swap => {
                self.go(Step::Mkswap);
            },
        }
    }

    fn on_unseen(&mut self, wait: Wait)
        requires
            old(self).old_sectors <= MAX_SECTORS,
        ensures
            final(self)@ == unseen(old(self)@, wait),
    {
        let manual = match wait {
            Wait::Last => Manual::GrowFs,
            _ => Manual::SwapArea,
        };
        let old_bytes: u64 = self.old_bytes();
        self.end(Status::Failed, Reason::RereadFailed, manual, old_bytes, 0);
    }

    fn start_fs(&mut self)
        requires
            old(self).old_sectors <= MAX_SECTORS,
            old(self).new_sectors <= MAX_SECTORS,
        ensures
            final(self)@ == grow_fs(old(self)@),
    {
        match self.fs {
            FsKind::Ext => self.go(Step::CheckExt),
            FsKind::Xfs | FsKind::Btrfs => self.go(Step::Mount),
            FsKind::Ntfs => self.go(Step::CheckNtfs),
            FsKind::Lvm => self.go(Step::LvmPrepare),
            _ => self.fail_fs(FsError::Unsupported),
        }
    }

    fn fail_fs(&mut self, e: FsError)
        requires
            old(self).old_sectors <= MAX_SECTORS,
            old(self).new_sectors <= MAX_SECTORS,
        ensures
            final(self)@ == fs_failed(old(self)@, e),
    {
        let old_bytes: u64 = self.old_bytes();
        if !self.partition {
            self.drop_out(Status::Skipped, Reason::Fs(e));
        } else if self.surgery.is_none() {
            let new_bytes: u64 = self.new_sectors * SECTOR;
            self.end(
                Status::Partial,
                Reason::FsAfterGrow(e),
                Manual::GrowFs,
                old_bytes,
                new_bytes,
            );
        } else {
            let new_bytes: u64 = self.root_bytes();
            self.end(
                Status::Partial,
                Reason::FsAfterSurgery(e),
                Manual::GrowFs,
                old_bytes,
                new_bytes,
            );
        }
    }

    fn end_fs(&mut self)
        requires
            !old(self).partition ==> old(self).device_sectors <= MAX_SECTORS,
            old(self).old_sectors <= MAX_SECTORS,
            old(self).new_sectors <= MAX_SECTORS,
        ensures
            final(self)@ == fs_grown(old(self)@),
    {
        let old_bytes: u64 = if self.partition {
            self.old_bytes()
        } else {
            0
        };
        let new_bytes: u64 = if !self.partition {
            self.device_sectors * SECTOR
        } else if self.surgery.is_none() {
            self.new_sectors * SECTOR
        } else {
            self.root_bytes()
        };
        self.end(Status::Expanded, Reason::Nothing, Manual::Nothing, old_bytes, new_bytes);
    }

    fn choose_volume(&self) -> (r: Option<String>)
        ensures
            text::opt_text(r) == chosen_volume(self@.lvs, self@.lv_declared),
    {
        if self.lvs.len() == 1 {
            assert(self@.lvs[0].0 == self.lvs@[0].0@);
            return Some(self.lvs[0].0.clone());
        }
        match &self.lv_declared {
            Some(d) => if self.lists(d.as_str()) {
                Some(d.clone())
            } else {
                None
            },
            None => None,
        }
    }

    fn on_volumes(&mut self, out: &str)
        requires
            old(self).old_sectors <= MAX_SECTORS,
            old(self).new_sectors <= MAX_SECTORS,
        ensures
            final(self)@ == volumes_listed(old(self)@, out@),
    {
        reveal(volumes_listed);
        self.lvs = volume_rows_of(out);
        match self.choose_volume() {
            Some(lv) => {
                self.lv = lv;
                self.go(Step::ActivateGroup);
            },
            None => self.fail_fs(FsError::VolumeUndeclared),
        }
    }

    fn on_look(&mut self, out: &str)
        requires
            old(self).lba_bytes > 0,
        ensures
            final(self)@ == volumes_seen(old(self)@, out@),
    {
        reveal(volumes_seen);
        self.lvs = volume_rows_of(out);
        match self.choose_volume() {
            Some(_) => self.begin(),
            None => self.drop_out(Status::Skipped, Reason::Fs(FsError::VolumeUndeclared)),
        }
    }

    fn lists(&self, name: &str) -> (r: bool)
        ensures
            r == exists|i: int|
                0 <= i < self@.lvs.len() && (#[trigger] self@.lvs[i]).0 == name@,
    {
        let mut i: usize = 0;
        while i < self.lvs.len()
            invariant
                i <= self.lvs@.len(),
                forall|k: int| 0 <= k < i ==> (#[trigger] self@.lvs[k]).0 != name@,
            decreases self.lvs@.len() - i,
        {
            assert(self@.lvs[i as int].0 == self.lvs@[i as int].0@);
            if same_str(self.lvs[i].0.as_str(), name) {
                return true;
            }
            i = i + 1;
        }
        false
    }

    fn on_pool(&self) -> (r: bool)
        ensures
            r == is_pool(self@.lvs, self@.lv),
    {
        let mut i: usize = 0;
        while i < self.lvs.len()
            invariant
                i <= self.lvs@.len(),
                forall|k: int|
                    0 <= k < i ==> !((#[trigger] self@.lvs[k]).0 == self@.lv && self@.lvs[k].1.len()
                        > 0 && self@.lvs[k].1[0] == 't'),
            decreases self.lvs@.len() - i,
        {
            assert(self@.lvs[i as int] == (self.lvs@[i as int].0@, self.lvs@[i as int].1@));
            if same_str(self.lvs[i].0.as_str(), self.lv.as_str()) {
                let attr = chars_of(self.lvs[i].1.as_str());
                if attr.len() > 0 && attr[0] == 't' {
                    return true;
                }
            }
            i = i + 1;
        }
        false
    }

    /// Takes the reply to the current job.
    pub fn advance(&mut self, reply: Reply)
        requires
            sound(old(self)@),
            answers(old(self)@, reply@),
        ensures
            final(self)@ == advanced(old(self)@, reply@),
            sound(final(self)@),
    {
        reveal(advanced);
        proof {
            lemma_sound(self@, reply@);
        }
        match (self.step, reply) {
            (Step::Geometry, Reply::Geometry(g)) => match g {
                None => self.drop_out(Status::Failed, Reason::NoDeviceSize),
                Some((device_sectors, lba_bytes)) => {
                    self.device_sectors = device_sectors;
                    self.lba_bytes = lba_bytes;
                    self.go(Step::Analyze);
                },
            },
            (Step::Analyze, Reply::Plan(p)) => self.on_plan(p),
            (Step::Tools, Reply::Present(v)) => self.on_tools(&v),
            (Step::Relocate, Reply::Exit(c)) => match c {
                Some(0) => {
                    self.moved = true;
                    self.start_edit();
                },
                _ => self.go(Step::BackupHeader),
            },
            (Step::BackupHeader, Reply::Answer(b)) => if b {
                self.start_edit();
            } else {
                self.go(Step::MainHeader);
            },
            (Step::MainHeader, Reply::Header(h)) => if h.is_some() {
                self.drop_out(Status::Skipped, Reason::RelocateFailed);
            } else {
                self.drop_out(Status::Failed, Reason::RelocateUnknown);
            },
            (_, reply) => self.advance_look(reply),
        }
    }

    fn advance_look(&mut self, reply: Reply)
        requires
            sound(old(self)@),
            answers(old(self)@, reply@),
        ensures
            final(self)@ == look_advanced(old(self)@, reply@),
    {
        reveal(look_advanced);
        match (self.step, reply) {
            (Step::LookPrepare, Reply::Done) => self.go(Step::LookGroup),
            (Step::LookGroup, Reply::Output(o)) => match o {
                Some((0, out)) => {
                    let name = text::trimmed(&chars_of(out.as_str()));
                    if name.len() == 0 {
                        self.begin();
                    } else {
                        self.vg = string_of(&name);
                        self.go(Step::LookVolumes);
                    }
                },
                _ => self.begin(),
            },
            (Step::LookVolumes, Reply::Output(o)) => match o {
                Some((0, out)) => self.on_look(out.as_str()),
                _ => self.begin(),
            },
            (_, reply) => self.advance_last(reply),
        }
    }

    fn advance_last(&mut self, reply: Reply)
        requires
            sound(old(self)@),
            answers(old(self)@, reply@),
        ensures
            final(self)@ == last_advanced(old(self)@, reply@),
    {
        reveal(last_advanced);
        match (self.step, reply) {
            (Step::GrowLast, Reply::Exit(c)) => match c {
                Some(0) => {
                    self.enter(Phase::KernelReread);
                    self.go(Step::Tolerance);
                },
                Some(n) => if self.is_gpt {
                    let old_bytes: u64 = self.old_bytes();
                    self.end(
                        Status::Partial,
                        Reason::GrowFailed(n),
                        Manual::GrowLast,
                        old_bytes,
                        0,
                    );
                } else {
                    self.drop_out(Status::Skipped, Reason::GrowFailed(n));
                },
                None => self.drop_out(Status::Failed, Reason::SfdiskSpawn),
            },
            (Step::Tolerance, Reply::Tolerance(t)) => {
                let min: u64 = self.expected.saturating_sub(t);
                if self.old_sectors < min {
                    self.wait(Wait::Last, min);
                } else {
                    self.on_visible(Wait::Last);
                }
            },
            (Step::Poll { wait, min, left, again }, Reply::Size(n)) => {
                let there = match n {
                    Some(n) => n >= min,
                    None => false,
                };
                if there {
                    self.on_visible(wait);
                } else {
                    self.go(Step::Pause { wait, min, left, again });
                }
            },
            (Step::Pause { wait, min, left, again }, Reply::Done) => if left > 1 {
                self.go(Step::Poll { wait, min, left: left - 1, again });
            } else if !again {
                self.go(Step::Probe { wait, min });
            } else {
                self.on_unseen(wait);
            },
            (Step::Probe { wait, min }, Reply::Size(n)) => {
                self.go(Step::Partx { wait, min, add: n.is_none() });
            },
            (Step::Partx { wait, min, .. }, Reply::Exit(_)) => {
                self.go(Step::Poll { wait, min, left: POLL_TRIES, again: true });
            },
            (Step::NewSize, Reply::Size(n)) => {
                self.new_sectors = match n {
                    Some(n) => n,
                    None => self.old_sectors,
                };
                self.start_fs();
            },
            (_, reply) => self.advance_surgery(reply),
        }
    }

    fn advance_surgery(&mut self, reply: Reply)
        requires
            sound(old(self)@),
            answers(old(self)@, reply@),
        ensures
            final(self)@ == surgery_advanced(old(self)@, reply@),
    {
        reveal(surgery_advanced);
        match (self.step, reply) {
            (Step::SurgeryHeader, Reply::Header(h)) => match h {
                Some(last) => self.place(last),
                None => self.drop_out(Status::Failed, Reason::HeaderLost),
            },
            (Step::DeleteSwap, Reply::Exit(c)) => match c {
                Some(0) => self.go(Step::ResizeRoot),
                Some(n) => if self.moved {
                    let old_bytes: u64 = self.old_bytes();
                    self.end(
                        Status::Partial,
                        Reason::DeleteFailed(n),
                        Manual::MoveSwap,
                        old_bytes,
                        0,
                    );
                } else {
                    self.drop_out(Status::Skipped, Reason::DeleteFailed(n));
                },
                None => self.drop_out(Status::Failed, Reason::SfdiskSpawn),
            },
            (Step::ResizeRoot, Reply::Exit(c)) => match c {
                Some(0) => self.go(Step::CreateSwap),
                Some(n) => self.end(
                    Status::Partial,
                    Reason::RootFailed(n),
                    Manual::SwapBack,
                    0,
                    0,
                ),
                None => self.end(Status::Failed, Reason::SfdiskSpawn, Manual::SwapBack, 0, 0),
            },
            (Step::CreateSwap, Reply::Exit(c)) => {
                let old_bytes: u64 = self.old_bytes();
                match c {
                    Some(0) => {
                        let named = match &self.surgery {
                            Some(g) => g.swap_partuuid.is_some(),
                            None => false,
                        };
                        if named {
                            self.go(Step::PartUuid);
                        } else {
                            self.wait_root();
                        }
                    },
                    Some(n) => self.end(
                        Status::Partial,
                        Reason::SwapFailed(n),
                        Manual::SwapAtEnd,
                        old_bytes,
                        0,
                    ),
                    None => self.end(
                        Status::Failed,
                        Reason::SfdiskSpawn,
                        Manual::SwapAtEnd,
                        old_bytes,
                        0,
                    ),
                }
            },
            (Step::PartUuid, Reply::Exit(c)) => match c {
                Some(0) => self.wait_root(),
                _ => {
                    let old_bytes: u64 = self.old_bytes();
                    self.end(
                        Status::Partial,
                        Reason::PartUuidFailed,
                        Manual::SwapArea,
                        old_bytes,
                        0,
                    );
                },
            },
            (Step::Mkswap, Reply::Exit(c)) => {
                let old_bytes: u64 = self.old_bytes();
                let new_bytes: u64 = self.root_bytes();
                match c {
                    Some(0) => {
                        self.enter(Phase::Filesystem);
                        self.start_fs();
                    },
                    Some(n) => self.end(
                        Status::Partial,
                        Reason::MkswapFailed(n),
                        Manual::SwapArea,
                        old_bytes,
                        new_bytes,
                    ),
                    None => self.end(
                        Status::Failed,
                        Reason::MkswapSpawn,
                        Manual::SwapArea,
                        old_bytes,
                        0,
                    ),
                }
            },
            (_, reply) => self.advance_fs(reply),
        }
    }

    fn advance_fs(&mut self, reply: Reply)
        requires
            sound(old(self)@),
            answers(old(self)@, reply@),
        ensures
            final(self)@ == fs_advanced(old(self)@, reply@),
    {
        reveal(fs_advanced);
        match (self.step, reply) {
            (Step::CheckExt, Reply::Exit(c)) => match c {
                None => self.fail_fs(FsError::E2fsckSpawn),
                Some(n) => if 0 <= n && n <= 2 {
                    self.go(Step::ResizeExt);
                } else {
                    self.fail_fs(FsError::E2fsckRejected(n));
                },
            },
            (Step::ResizeExt, Reply::Exit(c)) => match c {
                None => self.fail_fs(FsError::Resize2fsSpawn),
                Some(0) => self.end_fs(),
                Some(n) => self.fail_fs(FsError::Resize2fsFailed(n)),
            },
            (Step::CheckNtfs, Reply::Exit(c)) => match c {
                None => self.fail_fs(FsError::NtfsSpawn),
                Some(0) => self.go(Step::ResizeNtfs),
                Some(n) => self.fail_fs(FsError::NtfsRejected(n)),
            },
            (Step::ResizeNtfs, Reply::Exit(c)) => match c {
                None => self.fail_fs(FsError::NtfsSpawn),
                Some(0) => self.end_fs(),
                Some(n) => self.fail_fs(FsError::NtfsFailed(n)),
            },
            (Step::Mount, Reply::Answer(b)) => if b {
                self.go(Step::GrowMounted);
            } else if self.fs == FsKind::Xfs {
                self.fail_fs(FsError::XfsMount);
            } else {
                self.fail_fs(FsError::BtrfsMount);
            },
            (Step::GrowMounted, Reply::Exit(c)) => {
                let grown = match c {
                    Some(n) => n == 0,
                    None => false,
                };
                self.go(Step::Unmount { grown });
            },
            (Step::Unmount { grown }, Reply::Done) => if grown {
                self.end_fs();
            } else if self.fs == FsKind::Xfs {
                self.fail_fs(FsError::XfsGrow);
            } else {
                self.fail_fs(FsError::BtrfsGrow);
            },
            (_, reply) => self.advance_lvm(reply),
        }
    }

    fn advance_lvm(&mut self, reply: Reply)
        requires
            sound(old(self)@),
            answers(old(self)@, reply@),
        ensures
            final(self)@ == lvm_advanced(old(self)@, reply@),
    {
        reveal(lvm_advanced);
        match (self.step, reply) {
            (Step::LvmPrepare, Reply::Done) => self.go(Step::PvResize),
            (Step::PvResize, Reply::Exit(c)) => match c {
                None => self.fail_fs(FsError::LvmSpawn),
                Some(0) => self.go(Step::PvGroup),
                Some(n) => self.fail_fs(FsError::PvResizeFailed(n)),
            },
            (Step::PvGroup, Reply::Output(o)) => match o {
                None => self.fail_fs(FsError::LvmSpawn),
                Some((n, out)) => if n != 0 {
                    self.fail_fs(FsError::PvsFailed(n));
                } else {
                    let name = text::trimmed(&chars_of(out.as_str()));
                    if name.len() == 0 {
                        self.fail_fs(FsError::NoGroup);
                    } else {
                        self.vg = string_of(&name);
                        self.go(Step::GroupVolumes);
                    }
                },
            },
            (Step::GroupVolumes, Reply::Output(o)) => match o {
                None => self.fail_fs(FsError::LvmSpawn),
                Some((n, out)) => if n != 0 {
                    self.fail_fs(FsError::LvsFailed(n));
                } else {
                    self.on_volumes(out.as_str());
                },
            },
            (Step::ActivateGroup, Reply::Exit(c)) => match c {
                None => self.fail_fs(FsError::LvmSpawn),
                Some(0) => self.go(Step::ExtendVolume),
                Some(n) => self.fail_fs(FsError::ActivateFailed(n)),
            },
            (Step::ExtendVolume, Reply::Exit(c)) => match c {
                None => self.fail_fs(FsError::LvmSpawn),
                Some(0) => if self.on_pool() {
                    self.end_fs();
                } else {
                    self.go(Step::VolumeNode);
                },
                Some(n) => self.fail_fs(FsError::ExtendFailed(n)),
            },
            (Step::VolumeNode, Reply::Output(o)) => match o {
                None => self.fail_fs(FsError::LvmSpawn),
                Some((n, out)) => if n != 0 {
                    self.fail_fs(FsError::NodeFailed(n));
                } else {
                    let node = text::trimmed(&chars_of(out.as_str()));
                    if node.len() == 0 {
                        self.fail_fs(FsError::NoNode);
                    } else {
                        self.target = string_of(&node);
                        self.go(Step::VolumeFs);
                    }
                },
            },
            (Step::VolumeFs, Reply::Kind(k)) => match k {
                None => self.fail_fs(FsError::NodeUnreadable),
                Some(k) => match k {
                    FsKind::Ext | FsKind::Xfs | FsKind::Btrfs => {
                        self.fs = k;
                        self.go(Step::VolumeTools);
                    },
                    _ => self.fail_fs(FsError::VolumeNotGrowable(k)),
                },
            },
            (Step::VolumeTools, Reply::Present(v)) => {
                self.missing = absent_of(&self.needed_tools(), &v);
                if self.missing.len() > 0 {
                    self.fail_fs(FsError::VolumeToolsMissing);
                } else {
                    self.start_fs();
                }
            },
            _ => {},
        }
    }
}

/// The list of volumes leads on to the chosen one, or ends the run.
pub proof fn lemma_volumes_listed(s: RunView, out: Seq<char>)
    ensures
        ({
            let t = volumes_listed(s, out);
            let u = RunView { lvs: t.lvs, ..s };
            t == fs_failed(u, FsError::VolumeUndeclared) || t == (RunView {
                lv: t.lv,
                step: Step::ActivateGroup,
                ..u
            })
        }),
{
    reveal(volumes_listed);
}

#[verifier::rlimit(30)]
proof fn lemma_sound_lvm(s: RunView, r: ReplyView)
    requires
        sound(s),
        answers(s, r),
    ensures
        sound(lvm_advanced(s, r)),
{
    reveal(lvm_advanced);
    if let ReplyView::Output(Some((_, out))) = r {
        lemma_volumes_listed(s, out);
    }
}

proof fn lemma_sound_fs(s: RunView, r: ReplyView)
    requires
        sound(s),
        answers(s, r),
    ensures
        sound(fs_advanced(s, r)),
{
    reveal(fs_advanced);
    lemma_sound_lvm(s, r);
}

proof fn lemma_sound_surgery(s: RunView, r: ReplyView)
    requires
        sound(s),
        answers(s, r),
    ensures
        sound(surgery_advanced(s, r)),
{
    reveal(surgery_advanced);
    lemma_sound_fs(s, r);
}

proof fn lemma_sound_last(s: RunView, r: ReplyView)
    requires
        sound(s),
        answers(s, r),
    ensures
        sound(last_advanced(s, r)),
{
    reveal(last_advanced);
    lemma_sound_surgery(s, r);
}

/// The look at the volumes leads on to the first edit, or ends the run.
pub proof fn lemma_volumes_seen(s: RunView, out: Seq<char>)
    ensures
        ({
            let t = volumes_seen(s, out);
            let u = RunView { lvs: t.lvs, ..s };
            t == begin_edit(u) || t == dropped(
                u,
                Status::Skipped,
                Reason::Fs(FsError::VolumeUndeclared),
            )
        }),
{
    reveal(volumes_seen);
}

proof fn lemma_sound_look(s: RunView, r: ReplyView)
    requires
        sound(s),
        answers(s, r),
    ensures
        sound(look_advanced(s, r)),
{
    reveal(look_advanced);
    if let ReplyView::Output(Some((_, out))) = r {
        lemma_volumes_seen(s, out);
    }
    lemma_sound_last(s, r);
}

/// A reply keeps a run sound.
pub proof fn lemma_sound(s: RunView, r: ReplyView)
    requires
        sound(s),
        answers(s, r),
    ensures
        sound(advanced(s, r)),
{
    reveal(advanced);
    lemma_sound_look(s, r);
}

} // verus!
