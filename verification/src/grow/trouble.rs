//! Runs in which something goes wrong: what is tried again, what ends a run,
//! and as what it ends.
use super::fs::FsKind;
use super::outcome::Status;
use super::plan;
use super::plan::{ActionView, PlanView};
use super::policy::PolicyView;
use super::run;
use super::run::{Command, FsError, Job, Manual, Reason, ReplyView, RunView, Step, Wait};
use super::success;
use crate::text;
use vstd::prelude::*;

verus! {

/// A run takes over its plan as it is. One that grows nothing is skipped, with
/// the reason that the plan gives.
pub proof fn law_plans_are_taken_over(s: RunView, p: PlanView)
    requires
        s.step is Analyze,
    ensures
        ({
            let t = run::advanced(s, ReplyView::Plan(p));
            match p.action {
                None => {
                    &&& t.step matches Step::Finished(f) && f.status is Skipped
                        && f.reason is Planned
                    &&& t.skip_reason == p.skip_reason
                },
                Some(ActionView::FilesystemOnly { fs, fs_dev }) => {
                    &&& run::job_of(t) == Job::FindTools
                    &&& t.partition == s.partition && t.surgery == s.surgery
                    &&& t.plan_fs == fs && t.fs == fs && t.target == fs_dev
                },
                Some(
                    ActionView::PartitionGrow {
                        part_num,
                        part_dev,
                        fs,
                        surgery,
                        expected_new_sectors,
                        old_sectors,
                        is_gpt,
                    },
                ) => {
                    &&& run::job_of(t) == Job::FindTools
                    &&& t.partition
                    &&& t.part_num == part_num && t.part_dev == part_dev && t.target == part_dev
                    &&& t.plan_fs == fs && t.fs == fs
                    &&& t.surgery == surgery && t.is_gpt == is_gpt
                    &&& expected_new_sectors matches Some(n) ==> t.expected == n
                    &&& t.old_sectors == old_sectors
                },
            }
        }),
{
    reveal(run::advanced);
}

/// Whether two states of a run follow the same plan on the same disk.
pub open spec fn same_plan(s: RunView, t: RunView) -> bool {
    &&& s.disk == t.disk && s.disk_name == t.disk_name && s.lv_declared == t.lv_declared
    &&& s.device_sectors == t.device_sectors && s.lba_bytes == t.lba_bytes
    &&& s.partition == t.partition && s.part_num == t.part_num && s.part_dev == t.part_dev
    &&& s.plan_fs == t.plan_fs && s.is_gpt == t.is_gpt && s.surgery == t.surgery
    &&& s.old_sectors == t.old_sectors && s.expected == t.expected
}

proof fn lemma_same_lvm(s: RunView, r: ReplyView)
    ensures
        same_plan(s, run::lvm_advanced(s, r)),
        s.step is VolumeNode || s.target == run::lvm_advanced(s, r).target,
        s.step is VolumeFs || s.fs == run::lvm_advanced(s, r).fs,
        s.new_swap_start == run::lvm_advanced(s, r).new_swap_start,
        s.root_new_size == run::lvm_advanced(s, r).root_new_size,
{
    reveal(run::lvm_advanced);
    match s.step {
        Step::GroupVolumes => {
            if let ReplyView::Output(Some((_, out))) = r {
                run::lemma_volumes_listed(s, out);
            }
        },
        Step::LvmPrepare | Step::PvResize | Step::PvGroup => {},
        Step::ActivateGroup | Step::ExtendVolume | Step::VolumeNode => {},
        Step::VolumeFs | Step::VolumeTools => {},
        _ => {},
    }
}

proof fn lemma_same_fs(s: RunView, r: ReplyView)
    ensures
        same_plan(s, run::fs_advanced(s, r)),
        s.step is VolumeNode || s.target == run::fs_advanced(s, r).target,
        s.step is VolumeFs || s.fs == run::fs_advanced(s, r).fs,
        s.new_swap_start == run::fs_advanced(s, r).new_swap_start,
        s.root_new_size == run::fs_advanced(s, r).root_new_size,
{
    reveal(run::fs_advanced);
    lemma_same_lvm(s, r);
}

proof fn lemma_same_surgery(s: RunView, r: ReplyView)
    ensures
        same_plan(s, run::surgery_advanced(s, r)),
        s.step is VolumeNode || s.target == run::surgery_advanced(s, r).target,
        s.step is VolumeFs || s.fs == run::surgery_advanced(s, r).fs,
        s.step is SurgeryHeader || s.new_swap_start == run::surgery_advanced(s, r).new_swap_start
            && s.root_new_size == run::surgery_advanced(s, r).root_new_size,
{
    reveal(run::surgery_advanced);
    lemma_same_fs(s, r);
}

proof fn lemma_same_last(s: RunView, r: ReplyView)
    ensures
        same_plan(s, run::last_advanced(s, r)),
        s.step is VolumeNode || s.target == run::last_advanced(s, r).target,
        s.step is VolumeFs || s.fs == run::last_advanced(s, r).fs,
        s.step is SurgeryHeader || s.new_swap_start == run::last_advanced(s, r).new_swap_start
            && s.root_new_size == run::last_advanced(s, r).root_new_size,
{
    reveal(run::last_advanced);
    lemma_same_surgery(s, r);
}

/// Once there is a plan, no reply changes it. The node that is worked on and its
/// filesystem are those of the plan until a volume takes their place, and where
/// swap and root go is settled before swap is deleted.
#[verifier::rlimit(30)]
pub proof fn law_plans_stay(s: RunView, r: ReplyView)
    requires
        !(s.step is Geometry || s.step is Analyze),
    ensures
        ({
            let t = run::advanced(s, r);
            &&& same_plan(s, t)
            &&& t.target == s.target || s.step is VolumeNode
            &&& t.fs == s.fs || s.step is VolumeFs
            &&& t.new_swap_start == s.new_swap_start && t.root_new_size == s.root_new_size
                || s.step is Tools || s.step is LookGroup || s.step is LookVolumes
                || s.step is Relocate || s.step is BackupHeader || s.step is SurgeryHeader
        }),
{
    reveal(run::advanced);
    reveal(run::look_advanced);
    reveal(run::volumes_seen);
    lemma_same_last(s, r);
}

/// Whether a command works on a filesystem or a volume rather than on the table.
pub open spec fn on_filesystem(c: Command) -> bool {
    match c {
        Command::CheckExt
        | Command::ResizeExt
        | Command::GrowXfs
        | Command::GrowBtrfs
        | Command::CheckNtfs
        | Command::ResizeNtfs
        | Command::PvResize
        | Command::ActivateGroup
        | Command::ExtendVolume => true,
        _ => false,
    }
}

/// How a run ends whose command failed. A command of the table that could not
/// even be started is a failure; otherwise it counts whether anything on the
/// disk has changed.
pub open spec fn failing_status(s: RunView, c: Command, code: Option<i32>) -> Status {
    let changed = match c {
        Command::GrowLast => s.is_gpt,
        Command::DeleteSwap => s.moved,
        Command::ResizeRoot
        | Command::CreateSwap
        | Command::RestorePartUuid
        | Command::MakeSwap => true,
        _ => s.partition,
    };
    if code is None && !on_filesystem(c) && c != Command::RestorePartUuid {
        Status::Failed
    } else if changed {
        Status::Partial
    } else {
        Status::Skipped
    }
}

/// What is left to do by hand after a command that failed.
pub open spec fn failing_manual(c: Command) -> Manual {
    match c {
        Command::GrowLast => Manual::GrowLast,
        Command::DeleteSwap => Manual::MoveSwap,
        Command::ResizeRoot => Manual::SwapBack,
        Command::CreateSwap => Manual::SwapAtEnd,
        Command::RestorePartUuid | Command::MakeSwap => Manual::SwapArea,
        _ => Manual::GrowFs,
    }
}

/// What is said of a command on a filesystem that failed.
pub open spec fn fs_complaint(c: Command, code: Option<i32>) -> FsError {
    match (c, code) {
        (Command::CheckExt, None) => FsError::E2fsckSpawn,
        (Command::CheckExt, Some(n)) => FsError::E2fsckRejected(n),
        (Command::ResizeExt, None) => FsError::Resize2fsSpawn,
        (Command::ResizeExt, Some(n)) => FsError::Resize2fsFailed(n),
        (Command::GrowXfs, _) => FsError::XfsGrow,
        (Command::GrowBtrfs, _) => FsError::BtrfsGrow,
        (Command::CheckNtfs, None) => FsError::NtfsSpawn,
        (Command::CheckNtfs, Some(n)) => FsError::NtfsRejected(n),
        (Command::ResizeNtfs, None) => FsError::NtfsSpawn,
        (Command::ResizeNtfs, Some(n)) => FsError::NtfsFailed(n),
        (_, None) => FsError::LvmSpawn,
        (Command::PvResize, Some(n)) => FsError::PvResizeFailed(n),
        (Command::ActivateGroup, Some(n)) => FsError::ActivateFailed(n),
        (_, Some(n)) => FsError::ExtendFailed(n),
    }
}

/// What is said of a command that failed.
pub open spec fn complaint(s: RunView, c: Command, code: Option<i32>) -> Reason {
    if on_filesystem(c) {
        let e = fs_complaint(c, code);
        if !s.partition {
            Reason::Fs(e)
        } else if s.surgery is None {
            Reason::FsAfterGrow(e)
        } else {
            Reason::FsAfterSurgery(e)
        }
    } else {
        match (c, code) {
            (Command::RestorePartUuid, _) => Reason::PartUuidFailed,
            (Command::MakeSwap, None) => Reason::MkswapSpawn,
            (Command::MakeSwap, Some(n)) => Reason::MkswapFailed(n),
            (_, None) => Reason::SfdiskSpawn,
            (Command::GrowLast, Some(n)) => Reason::GrowFailed(n),
            (Command::DeleteSwap, Some(n)) => Reason::DeleteFailed(n),
            (Command::ResizeRoot, Some(n)) => Reason::RootFailed(n),
            (_, Some(n)) => Reason::SwapFailed(n),
        }
    }
}

/// Whether `u` is how a run ends whose command failed.
pub open spec fn ends_as_failed(s: RunView, c: Command, code: Option<i32>, u: RunView) -> bool {
    &&& u.step matches Step::Finished(f) && {
        &&& f.status == failing_status(s, c, code)
        &&& f.reason == complaint(s, c, code)
        &&& f.status is Skipped ==> f.manual is Nothing
        &&& f.status is Partial ==> f.manual == failing_manual(c)
        &&& (f.old_bytes, f.new_bytes) == failing_sizes(s, c, code)
    }
}

/// The sizes that are reported after a command that failed: those from before,
/// once something has changed, and those that were reached, where they are
/// certain.
pub open spec fn failing_sizes(s: RunView, c: Command, code: Option<i32>) -> (u64, u64) {
    let old_bytes = (s.old_sectors * 512) as u64;
    let new_bytes = success::good_end(s).new_bytes;
    match c {
        Command::ResizeRoot => (0, 0),
        Command::CreateSwap | Command::RestorePartUuid => (old_bytes, 0),
        Command::MakeSwap => (
            old_bytes,
            if code is Some {
                new_bytes
            } else {
                0
            },
        ),
        Command::GrowLast | Command::DeleteSwap => if failing_status(s, c, code) is Partial {
            (old_bytes, 0)
        } else {
            (0, 0)
        },
        _ => if s.partition {
            (old_bytes, new_bytes)
        } else {
            (0, 0)
        },
    }
}

proof fn lemma_reach_table(s: RunView, r: ReplyView)
    requires
        !(s.step is Geometry || s.step is Analyze || s.step is Tools || s.step is LookPrepare
            || s.step is LookGroup || s.step is LookVolumes || s.step is Relocate
            || s.step is BackupHeader || s.step is MainHeader),
    ensures
        run::advanced(s, r) == run::last_advanced(s, r),
{
    reveal(run::advanced);
    reveal(run::look_advanced);
}

proof fn lemma_reach_fs(s: RunView, r: ReplyView)
    requires
        s.step is CheckExt || s.step is ResizeExt || s.step is CheckNtfs || s.step is ResizeNtfs
            || s.step is GrowMounted || s.step is Unmount || s.step is PvResize
            || s.step is ActivateGroup || s.step is ExtendVolume,
    ensures
        run::advanced(s, r) == run::fs_advanced(s, r),
{
    lemma_reach_table(s, r);
    reveal(run::last_advanced);
    reveal(run::surgery_advanced);
}

proof fn lemma_failing_table(s: RunView, c: Command, code: Option<i32>)
    requires
        run::sound(s),
        run::job_of(s) == Job::Run(c),
        code != Some(0i32),
        !on_filesystem(c),
        !(c == Command::Relocate || c == Command::PartxAdd || c == Command::PartxUpdate),
    ensures
        ends_as_failed(s, c, code, run::advanced(s, ReplyView::Exit(code))),
{
    lemma_reach_table(s, ReplyView::Exit(code));
    success::lemma_root_bytes(s);
    reveal(run::last_advanced);
    reveal(run::surgery_advanced);
}

proof fn lemma_failing_fs(s: RunView, c: Command, code: Option<i32>, e: FsError)
    requires
        on_filesystem(c),
        code != Some(0i32),
        e == fs_complaint(c, code),
    ensures
        ends_as_failed(s, c, code, run::fs_failed(s, e)),
{
    success::lemma_root_bytes(s);
}

/// A command that fails ends the run, after the mount was undone where there is
/// one, and the run is never reported as expanded. What follows `--relocate` and
/// `partx` is for the disk and the kernel to say, and `e2fsck` may have repaired
/// something.
pub proof fn law_failing_commands_end_a_run(s: RunView, c: Command, code: Option<i32>)
    requires
        run::sound(s),
        run::job_of(s) == Job::Run(c),
        code != Some(0i32),
        !(c == Command::Relocate || c == Command::PartxAdd || c == Command::PartxUpdate),
        !(c == Command::CheckExt && (code == Some(1i32) || code == Some(2i32))),
    ensures
        ({
            let t = run::advanced(s, ReplyView::Exit(code));
            if c == Command::GrowXfs || c == Command::GrowBtrfs {
                &&& run::job_of(t) == Job::Unmount
                &&& ends_as_failed(s, c, code, run::advanced(t, ReplyView::Done))
            } else {
                ends_as_failed(s, c, code, t)
            }
        }),
        !(failing_status(s, c, code) is Expanded),
{
    let r = ReplyView::Exit(code);
    if on_filesystem(c) {
        let e = fs_complaint(c, code);
        lemma_failing_fs(s, c, code, e);
        lemma_reach_fs(s, r);
        reveal(run::fs_advanced);
        if s.step is GrowMounted {
            let t = run::advanced(s, r);
            assert(t == run::at(s, Step::Unmount { grown: false }));
            lemma_reach_fs(t, ReplyView::Done);
            assert(run::advanced(t, ReplyView::Done) == run::fs_failed(t, e));
            lemma_failing_fs(t, c, code, e);
        } else if s.step is PvResize || s.step is ActivateGroup || s.step is ExtendVolume {
            reveal(run::lvm_advanced);
            assert(run::advanced(s, r) == run::fs_failed(s, e));
        } else {
            assert(run::advanced(s, r) == run::fs_failed(s, e));
        }
    } else {
        lemma_failing_table(s, c, code);
    }
}

/// `e2fsck` that found nothing or repaired what it found lets the filesystem
/// grow.
pub proof fn law_repaired_filesystems_grow(s: RunView, n: i32)
    requires
        run::job_of(s) == Job::Run(Command::CheckExt),
    ensures
        ({
            let t = run::advanced(s, ReplyView::Exit(Some(n)));
            run::job_of(t) == Job::Run(Command::ResizeExt) <==> n == 0 || n == 1 || n == 2
        }),
{
    reveal(run::advanced);
    reveal(run::look_advanced);
    reveal(run::last_advanced);
    reveal(run::surgery_advanced);
    reveal(run::fs_advanced);
}

/// Whether the first edit comes next, or what it needs to know; or swap cannot
/// make way.
pub open spec fn about_to_edit(t: RunView) -> bool {
    match t.surgery {
        None => run::job_of(t) == Job::Run(Command::GrowLast),
        Some(g) => if t.is_gpt {
            run::job_of(t) == Job::ReadHeader
        } else if success::roomy(g, run::mbr_last(t) + 1) {
            run::job_of(t) == Job::Run(Command::DeleteSwap)
        } else {
            t.step is Finished
        },
    }
}

/// A GPT is edited where its backup could be moved or stands at the end already.
/// Where neither holds the disk is left alone: the run is skipped while the
/// header can still be read, and has failed otherwise.
pub proof fn law_gpt_backups_come_first(s: RunView, code: Option<i32>, at_end: bool, h: Option<u64>)
    requires
        run::sound(s),
        s.step is Relocate,
        s.is_gpt,
    ensures
        ({
            let t = run::advanced(s, ReplyView::Exit(code));
            let u = run::advanced(t, ReplyView::Answer(at_end));
            let v = run::advanced(u, ReplyView::Header(h));
            if code == Some(0i32) {
                about_to_edit(t) && t.moved
            } else {
                &&& run::job_of(t) == Job::FindBackup
                &&& t.moved == s.moved
                &&& if at_end {
                    about_to_edit(u)
                } else {
                    &&& run::job_of(u) == Job::ReadHeader
                    &&& v.step matches Step::Finished(f) && if h is Some {
                        f.status is Skipped && f.reason is RelocateFailed
                    } else {
                        f.status is Failed && f.reason is RelocateUnknown
                    }
                }
            }
        }),
{
    reveal(run::advanced);
}

/// The volumes of a group are looked at first, but where they cannot be listed
/// the run goes on to its first edit.
pub proof fn law_what_cannot_be_listed_stops_nothing(
    s: RunView,
    o: Option<(i32, Seq<char>)>,
)
    requires
        run::sound(s),
        s.step is LookGroup || s.step is LookVolumes,
        o matches Some((n, out)) ==> n != 0 || (s.step is LookGroup && text::trim(out).len() == 0),
    ensures
        ({
            let t = run::advanced(s, ReplyView::Output(o));
            if s.is_gpt {
                run::job_of(t) == Job::Run(Command::Relocate)
            } else {
                about_to_edit(t)
            }
        }),
{
    reveal(run::advanced);
    reveal(run::look_advanced);
}

/// Whether a run ends because a filesystem cannot grow: as skipped where nothing
/// but the filesystem was to change, and else as partial.
pub open spec fn ends_without_growing(s: RunView, t: RunView, e: FsError) -> bool {
    t.step matches Step::Finished(f) && if !s.partition {
        f.status is Skipped && f.reason == Reason::Fs(e)
    } else {
        f.status is Partial && f.manual is GrowFs && f.reason == if s.surgery is None {
            Reason::FsAfterGrow(e)
        } else {
            Reason::FsAfterSurgery(e)
        }
    }
}

/// A tool of the volumes that prints nothing of use ends the run, and so does a
/// filesystem that cannot be mounted or read.
#[verifier::rlimit(30)]
pub proof fn law_volumes_that_cannot_be_read_end_a_run(
    s: RunView,
    o: Option<(i32, Seq<char>)>,
)
    requires
        run::sound(s),
    ensures
        ({
            let useless = o matches Some((n, out)) ==> n != 0 || (text::trim(out).len() == 0
                && !(s.step is GroupVolumes));
            let t = run::advanced(s, ReplyView::Output(o));
            let unmounted = run::advanced(s, ReplyView::Answer(false));
            let unread = run::advanced(s, ReplyView::Kind(None));
            let printed = match (s.step, o) {
                (_, None) => FsError::LvmSpawn,
                (Step::PvGroup, Some((n, _))) => if n == 0 {
                    FsError::NoGroup
                } else {
                    FsError::PvsFailed(n)
                },
                (Step::GroupVolumes, Some((n, _))) => FsError::LvsFailed(n),
                (_, Some((n, _))) => if n == 0 {
                    FsError::NoNode
                } else {
                    FsError::NodeFailed(n)
                },
            };
            &&& useless && (s.step is PvGroup || s.step is GroupVolumes || s.step is VolumeNode)
                ==> ends_without_growing(s, t, printed)
            &&& s.step is Mount ==> ends_without_growing(
                s,
                unmounted,
                if s.fs == FsKind::Xfs {
                    FsError::XfsMount
                } else {
                    FsError::BtrfsMount
                },
            )
            &&& s.step is VolumeFs ==> ends_without_growing(s, unread, FsError::NodeUnreadable)
        }),
{
    reveal(run::advanced);
    reveal(run::look_advanced);
    reveal(run::last_advanced);
    reveal(run::surgery_advanced);
    reveal(run::fs_advanced);
    reveal(run::lvm_advanced);
}

/// The kernel is asked for a partition until it shows the size: it has 100 tries,
/// then `partx` tells it, and it has 100 more. A size that is large enough ends
/// the waiting; when the tries are used up the run has failed.
#[verifier::rlimit(30)]
pub proof fn law_the_kernel_is_asked_again(
    s: RunView,
    wait: Wait,
    min: u64,
    left: u32,
    again: bool,
    n: Option<u64>,
    known: Option<u64>,
    code: Option<i32>,
)
    requires
        s.step == (Step::Poll { wait, min, left, again }),
        left > 0,
    ensures
        ({
            let large = n matches Some(n) && n >= min;
            let t = run::advanced(s, ReplyView::Size(n));
            let u = run::advanced(t, ReplyView::Done);
            let v = run::advanced(u, ReplyView::Size(known));
            let w = run::advanced(v, ReplyView::Exit(code));
            if large {
                match (wait, s.surgery) {
                    (Wait::Last, _) => run::job_of(t) == Job::ReadPartSize(s.part_num)
                        && t.step is NewSize,
                    (Wait::Root, Some(g)) => {
                        &&& t.step matches Step::Poll { wait: w2, left: l2, min: m2, again: a2 }
                            && w2 is Swap && l2 == 100 && !a2 && (g.swap_sectors * s.lba_bytes
                            <= u64::MAX ==> m2 * 512 <= g.swap_sectors * s.lba_bytes < (m2 + 1)
                            * 512)
                        &&& run::job_of(t) == Job::ReadPartSize(g.swap_num)
                    },
                    (Wait::Root, None) => true,
                    (Wait::Swap, _) => run::job_of(t) == Job::Run(Command::MakeSwap),
                }
            } else {
                &&& run::job_of(t) == Job::Sleep
                &&& if left > 1 {
                    u.step == (Step::Poll { wait, min, left: (left - 1) as u32, again })
                } else if again {
                    u.step matches Step::Finished(f) && f.status is Failed
                        && f.reason is RereadFailed && f.manual == if wait is Last {
                        Manual::GrowFs
                    } else {
                        Manual::SwapArea
                    }
                } else {
                    &&& run::job_of(u) == run::job_of(s)
                    &&& run::job_of(v) == Job::Run(
                        if known is None {
                            Command::PartxAdd
                        } else {
                            Command::PartxUpdate
                        },
                    )
                    &&& w.step == (Step::Poll { wait, min, left: 100, again: true })
                }
            }
        }),
{
    reveal(run::advanced);
    reveal(run::look_advanced);
    reveal(run::last_advanced);
    if let Some(g) = s.surgery {
        assert(g.swap_sectors * s.lba_bytes >= 0) by (nonlinear_arith);
    }
}

/// After an edit the kernel is asked for the partitions that were changed, until
/// each has the size that it was given: root first, then swap; the last
/// partition may be short by what `sfdisk` aligns, and is not waited for where
/// that is all it gains.
pub proof fn law_the_kernel_is_asked_after_edits(s: RunView, tolerance: u64)
    requires
        run::sound(s),
    ensures
        ({
            let t = run::advanced(s, ReplyView::Exit(Some(0i32)));
            let u = run::advanced(s, ReplyView::Tolerance(tolerance));
            &&& s.step is GrowLast ==> run::job_of(t) == Job::ReadTolerance
            &&& s.step is Tolerance && s.expected - tolerance > s.old_sectors ==> u.step == (
            Step::Poll {
                wait: Wait::Last,
                min: (s.expected - tolerance) as u64,
                left: 100,
                again: false,
            })
            &&& s.step is Tolerance && s.expected - tolerance <= s.old_sectors ==> u.step
                is NewSize
            &&& s.step is PartUuid ==> {
                &&& t.step matches Step::Poll { wait, min, left, again } && wait is Root && left
                    == 100 && !again && (s.root_new_size * s.lba_bytes <= u64::MAX ==> min * 512
                    <= s.root_new_size * s.lba_bytes < (min + 1) * 512)
                &&& run::job_of(t) == Job::ReadPartSize((s.surgery->0).root_num)
            }
            &&& s.step is CreateSwap && (s.surgery->0).swap_partuuid is None ==> {
                &&& t.step matches Step::Poll { wait, min, left, again } && wait is Root && left
                    == 100 && !again && (s.root_new_size * s.lba_bytes <= u64::MAX ==> min * 512
                    <= s.root_new_size * s.lba_bytes < (min + 1) * 512)
                &&& run::job_of(t) == Job::ReadPartSize((s.surgery->0).root_num)
            }
        }),
{
    reveal(run::advanced);
    reveal(run::look_advanced);
    reveal(run::last_advanced);
    reveal(run::surgery_advanced);
    success::lemma_root_bytes(s);
}

/// A run is on the disk that it was started for and under the policy that it was
/// given, and first asks for the size of the disk. Without a size it has failed;
/// with one it makes its plan.
pub proof fn law_runs_begin_with_the_size(
    disk: Seq<char>,
    policy: PolicyView,
    n: u64,
    lba_bytes: u64,
)
    requires
        policy.enabled,
    ensures
        ({
            let s = run::started(disk, policy);
            let t = run::advanced(s, ReplyView::Geometry(Some((n, lba_bytes))));
            let u = run::advanced(s, ReplyView::Geometry(None));
            &&& s.disk == disk && s.disk_name == plan::base_name(disk) && s.lv_declared == policy.lv
            &&& run::job_of(s) == Job::ReadGeometry
            &&& run::job_of(t) == Job::Analyze
            &&& t.device_sectors == n && t.lba_bytes == lba_bytes
            &&& t.disk == disk && t.disk_name == s.disk_name && t.lv_declared == policy.lv
            &&& u.step matches Step::Finished(f) && f.status is Failed
        }),
{
    reveal(run::advanced);
}

/// The size that is reported is the one that the kernel shows at the end, or the
/// old one where it shows none.
pub proof fn law_the_new_size_is_what_the_kernel_shows(s: RunView, n: Option<u64>)
    requires
        s.step is NewSize,
    ensures
        ({
            let t = run::advanced(s, ReplyView::Size(n));
            &&& n matches Some(n) ==> t.new_sectors == n
            &&& n is None ==> t.new_sectors == s.old_sectors
        }),
{
    reveal(run::advanced);
    reveal(run::look_advanced);
    reveal(run::last_advanced);
}

} // verus!
