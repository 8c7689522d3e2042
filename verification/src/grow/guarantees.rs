//! What holds of every run, whatever the tools and the kernel reply.
use super::policy::PolicyView;
use super::run;
use super::run::{Command, FsError, Job, Phase, Reason, ReplyView, RunView, Step, Wait};
use crate::text;
use vstd::prelude::*;

verus! {

/// A run after a row of replies.
pub open spec fn played(s: RunView, rs: Seq<ReplyView>) -> RunView
    decreases rs.len(),
{
    if rs.len() == 0 {
        s
    } else {
        run::advanced(played(s, rs.drop_last()), rs.last())
    }
}

/// Whether each of a row of replies answers the job of its time.
pub open spec fn fits(s: RunView, rs: Seq<ReplyView>) -> bool
    decreases rs.len(),
{
    rs.len() == 0 || (fits(s, rs.drop_last()) && run::answers(
        played(s, rs.drop_last()),
        rs.last(),
    ))
}

/// Whether a command was run and ended well.
pub open spec fn done(s: RunView, rs: Seq<ReplyView>, c: Command) -> bool
    decreases rs.len(),
{
    rs.len() > 0 && (done(s, rs.drop_last(), c) || (run::job_of(played(s, rs.drop_last()))
        == Job::Run(c) && rs.last() == ReplyView::Exit(Some(0i32))))
}

/// Whether the partitions of the table were edited.
pub open spec fn edited(s: RunView, rs: Seq<ReplyView>) -> bool {
    done(s, rs, Command::GrowLast) || done(s, rs, Command::DeleteSwap) || done(
        s,
        rs,
        Command::ResizeRoot,
    ) || done(s, rs, Command::CreateSwap) || done(s, rs, Command::RestorePartUuid)
}

/// How many more replies a run takes at most.
pub open spec fn rank(step: Step) -> nat {
    match step {
        Step::Geometry => 2000,
        Step::Analyze => 1999,
        Step::Tools => 1998,
        Step::LookPrepare => 1997,
        Step::LookGroup => 1996,
        Step::LookVolumes => 1995,
        Step::Relocate => 1994,
        Step::BackupHeader => 1993,
        Step::MainHeader => 1992,
        Step::SurgeryHeader => 1991,
        Step::DeleteSwap => 1990,
        Step::ResizeRoot => 1989,
        Step::CreateSwap => 1988,
        Step::PartUuid => 1987,
        Step::GrowLast => 1986,
        Step::Tolerance => 1985,
        Step::Poll { wait, left, again, .. } => waiting_rank(wait, left, again) + 1,
        Step::Pause { wait, left, again, .. } => waiting_rank(wait, left, again),
        Step::Probe { wait, .. } => waiting_rank(wait, 0, false) + 1,
        Step::Partx { wait, .. } => waiting_rank(wait, 0, false),
        Step::NewSize => 51,
        Step::Mkswap => 50,
        Step::LvmPrepare => 40,
        Step::PvResize => 39,
        Step::PvGroup => 38,
        Step::GroupVolumes => 37,
        Step::ActivateGroup => 36,
        Step::ExtendVolume => 35,
        Step::VolumeNode => 34,
        Step::VolumeFs => 33,
        Step::VolumeTools => 32,
        Step::CheckExt => 3,
        Step::ResizeExt => 2,
        Step::CheckNtfs => 3,
        Step::ResizeNtfs => 2,
        Step::Mount => 3,
        Step::GrowMounted => 2,
        Step::Unmount { .. } => 1,
        Step::Finished(_) => 0,
    }
}

/// Each of the two rounds of questions takes two replies for a try.
pub open spec fn waiting_rank(wait: Wait, left: u32, again: bool) -> nat {
    let base: nat = if wait is Swap {
        100
    } else {
        800
    };
    base + 2 * left as nat + if again {
        0nat
    } else {
        300nat
    }
}

/// What the steps between two replies keep of the tries that are left.
pub open spec fn bounded(step: Step) -> bool {
    match step {
        Step::Poll { left, .. } | Step::Pause { left, .. } => left <= run::POLL_TRIES,
        _ => true,
    }
}

/// Where a run can stand once the table has been edited.
pub open spec fn past_edit(s: RunView) -> bool {
    match s.step {
        Step::Geometry
        | Step::Analyze
        | Step::Tools
        | Step::LookPrepare
        | Step::LookGroup
        | Step::LookVolumes
        | Step::Relocate
        | Step::BackupHeader
        | Step::MainHeader
        | Step::SurgeryHeader
        | Step::GrowLast
        | Step::DeleteSwap => false,
        Step::Finished(f) => f.status is Expanded || ((f.status is Partial || f.status is Failed)
            && !(f.manual is Nothing)),
        _ => s.partition,
    }
}

/// Where a run can stand once the backup header of the GPT was moved.
pub open spec fn past_move(s: RunView) -> bool {
    match s.step {
        Step::Geometry
        | Step::Analyze
        | Step::Tools
        | Step::LookPrepare
        | Step::LookGroup
        | Step::LookVolumes
        | Step::Relocate
        | Step::BackupHeader
        | Step::MainHeader => false,
        Step::Finished(f) => f.status is Expanded || f.status is Partial || f.status is Failed,
        _ => s.partition && s.is_gpt && s.moved,
    }
}

/// Why swap was not taken out of the way of root.
pub open spec fn before_surgery(reason: Reason) -> bool {
    reason is SwapUnderflow || reason is RootUnderflow || reason is DeleteFailed
}

/// Whether a run that could not take swap out of the way of root is skipped
/// just where the backup header of the GPT did not have to be moved.
pub open spec fn told_apart(s: RunView) -> bool {
    s.step matches Step::Finished(f) ==> (before_surgery(f.reason) ==> (f.status is Skipped
        <==> !s.moved))
}

/// The phase that each step belongs to.
pub open spec fn phase_of(step: Step) -> Phase {
    match step {
        Step::Geometry
        | Step::Analyze
        | Step::Tools
        | Step::LookPrepare
        | Step::LookGroup
        | Step::LookVolumes => Phase::Analyze,
        Step::Relocate
        | Step::BackupHeader
        | Step::MainHeader
        | Step::GrowLast
        | Step::SurgeryHeader
        | Step::DeleteSwap
        | Step::ResizeRoot
        | Step::CreateSwap
        | Step::PartUuid => Phase::Partition,
        Step::Tolerance
        | Step::Poll { .. }
        | Step::Pause { .. }
        | Step::Probe { .. }
        | Step::Partx { .. }
        | Step::Mkswap => Phase::KernelReread,
        Step::Finished(_) => Phase::Done,
        _ => Phase::Filesystem,
    }
}

/// The order of the phases.
pub open spec fn phase_rank(p: Phase) -> nat {
    match p {
        Phase::Analyze => 0,
        Phase::Partition => 1,
        Phase::KernelReread => 2,
        Phase::Filesystem => 3,
        Phase::Done => 4,
    }
}

/// Whether a run that ends half done says how to go on by hand.
pub open spec fn helps(s: RunView) -> bool {
    s.step matches Step::Finished(f) ==> (f.status is Partial ==> !(f.manual is Nothing))
}

/// The order in which swap makes way: it is deleted, then root grows, then swap
/// comes back.
pub open spec fn in_order(s: RunView, deleted: bool, resized: bool, created: bool) -> bool {
    match s.step {
        Step::ResizeRoot => deleted,
        Step::CreateSwap => deleted && resized,
        Step::PartUuid | Step::Mkswap => deleted && resized && created,
        Step::Poll { wait, .. }
        | Step::Pause { wait, .. }
        | Step::Probe { wait, .. }
        | Step::Partx { wait, .. } => !(wait is Last) ==> deleted && resized && created,
        Step::Finished(f) => f.status is Expanded && s.surgery is Some ==> deleted && resized
            && created,
        Step::CheckExt
        | Step::ResizeExt
        | Step::CheckNtfs
        | Step::ResizeNtfs
        | Step::Mount
        | Step::GrowMounted
        | Step::Unmount { .. }
        | Step::LvmPrepare
        | Step::PvResize
        | Step::PvGroup
        | Step::GroupVolumes
        | Step::ActivateGroup
        | Step::ExtendVolume
        | Step::VolumeNode
        | Step::VolumeFs
        | Step::VolumeTools => s.surgery is Some ==> deleted && resized && created,
        _ => true,
    }
}

/// A finished run takes no reply and does not change any more.
pub proof fn law_finished_stays(s: RunView, r: ReplyView)
    requires
        s.step is Finished,
    ensures
        !run::answers(s, r),
        run::advanced(s, r) == s,
{
    reveal(run::advanced);
    reveal(run::look_advanced);
    reveal(run::last_advanced);
    reveal(run::surgery_advanced);
    reveal(run::fs_advanced);
    reveal(run::lvm_advanced);
}

/// Which part of the machine a step belongs to.
spec fn stage(step: Step) -> nat {
    match step {
        Step::Geometry
        | Step::Analyze
        | Step::Tools
        | Step::LookPrepare
        | Step::LookGroup
        | Step::LookVolumes
        | Step::Relocate
        | Step::BackupHeader
        | Step::MainHeader => 0,
        Step::GrowLast
        | Step::Tolerance
        | Step::Poll { .. }
        | Step::Pause { .. }
        | Step::Probe { .. }
        | Step::Partx { .. }
        | Step::NewSize => 1,
        Step::SurgeryHeader
        | Step::DeleteSwap
        | Step::ResizeRoot
        | Step::CreateSwap
        | Step::PartUuid
        | Step::Mkswap => 2,
        Step::CheckExt
        | Step::ResizeExt
        | Step::CheckNtfs
        | Step::ResizeNtfs
        | Step::Mount
        | Step::GrowMounted
        | Step::Unmount { .. } => 3,
        _ => 4,
    }
}

spec fn well_done(s: RunView, r: ReplyView, c: Command) -> bool {
    run::job_of(s) == Job::Run(c) && r == ReplyView::Exit(Some(0i32))
}

/// What one reply does to a run.
spec fn progress(s: RunView, r: ReplyView, t: RunView, d: bool, z: bool, c: bool) -> bool {
    &&& rank(t.step) < rank(s.step)
    &&& bounded(t.step)
    &&& past_edit(s) ==> past_edit(t)
    &&& (well_done(s, r, Command::GrowLast) || well_done(s, r, Command::DeleteSwap) || well_done(
        s,
        r,
        Command::ResizeRoot,
    ) || well_done(s, r, Command::CreateSwap) || well_done(s, r, Command::RestorePartUuid))
        ==> past_edit(t)
    &&& past_move(s) ==> past_move(t)
    &&& well_done(s, r, Command::Relocate) && s.partition && s.is_gpt ==> past_move(t)
    &&& s.phase == phase_of(s.step) ==> {
        &&& t.phase == phase_of(t.step)
        &&& phase_rank(s.phase) <= phase_rank(t.phase)
    }
    &&& t.step is Relocate ==> t.partition && t.is_gpt
    &&& helps(t)
    &&& t.moved == (s.moved || well_done(s, r, Command::Relocate))
    &&& told_apart(t)
    &&& in_order(
        t,
        d || well_done(s, r, Command::DeleteSwap),
        z || well_done(s, r, Command::ResizeRoot),
        c || well_done(s, r, Command::CreateSwap),
    )
}

proof fn lemma_fs_ends(
    s: RunView,
    r: ReplyView,
    t: RunView,
    e: FsError,
    d: bool,
    z: bool,
    c: bool,
)
    requires
        stage(s.step) >= 3,
        !(s.step is Finished),
        t.partition == s.partition,
        t.is_gpt == s.is_gpt,
        t.moved == s.moved,
        t.surgery == s.surgery,
        in_order(s, d, z, c),
    ensures
        progress(s, r, run::fs_failed(t, e), d, z, c),
        progress(s, r, run::fs_grown(t), d, z, c),
{
}

proof fn lemma_fs_moves(s: RunView, r: ReplyView, t: RunView, d: bool, z: bool, c: bool)
    requires
        stage(s.step) >= 3,
        stage(t.step) >= 3,
        !(s.step is Finished),
        !(t.step is Finished),
        t.partition == s.partition,
        t.is_gpt == s.is_gpt,
        t.moved == s.moved,
        t.surgery == s.surgery,
        t.phase == s.phase,
        rank(t.step) < rank(s.step),
        in_order(s, d, z, c),
    ensures
        progress(s, r, t, d, z, c),
{
}

#[verifier::rlimit(30)]
proof fn lemma_lvm(s: RunView, r: ReplyView, d: bool, z: bool, c: bool)
    requires
        run::sound(s),
        run::answers(s, r),
        bounded(s.step),
        in_order(s, d, z, c),
        stage(s.step) >= 4,
    ensures
        progress(s, r, run::lvm_advanced(s, r), d, z, c),
{
    reveal(run::lvm_advanced);
    let t = run::lvm_advanced(s, r);
    if let ReplyView::Output(Some((_, out))) = r {
        run::lemma_volumes_listed(s, out);
    }
    assert(t.partition == s.partition && t.is_gpt == s.is_gpt && t.moved == s.moved && t.surgery == s.surgery);
    if t.step is Finished {
        lemma_fs_ends(s, r, s, FsError::Unsupported, d, z, c);
        let f = t.step->Finished_0;
        assert(f.status is Expanded || f.status is Skipped || f.status is Partial);
        assert(f.status is Skipped ==> !s.partition);
        assert(f.status is Partial ==> f.manual is GrowFs);
    } else {
        assert(stage(t.step) >= 3);
        lemma_fs_moves(s, r, t, d, z, c);
    }
}

#[verifier::rlimit(30)]
proof fn lemma_fs(s: RunView, r: ReplyView, d: bool, z: bool, c: bool)
    requires
        run::sound(s),
        run::answers(s, r),
        bounded(s.step),
        in_order(s, d, z, c),
        stage(s.step) >= 3,
    ensures
        progress(s, r, run::fs_advanced(s, r), d, z, c),
{
    reveal(run::fs_advanced);
    if stage(s.step) > 3 {
        lemma_lvm(s, r, d, z, c);
    }
}

proof fn lemma_surgery(s: RunView, r: ReplyView, d: bool, z: bool, c: bool)
    requires
        run::sound(s),
        run::answers(s, r),
        bounded(s.step),
        in_order(s, d, z, c),
        stage(s.step) >= 2,
    ensures
        progress(s, r, run::surgery_advanced(s, r), d, z, c),
{
    reveal(run::surgery_advanced);
    if stage(s.step) > 2 {
        lemma_fs(s, r, d, z, c);
    }
}

#[verifier::rlimit(30)]
proof fn lemma_last(s: RunView, r: ReplyView, d: bool, z: bool, c: bool)
    requires
        run::sound(s),
        run::answers(s, r),
        bounded(s.step),
        in_order(s, d, z, c),
        stage(s.step) >= 1,
    ensures
        progress(s, r, run::last_advanced(s, r), d, z, c),
{
    reveal(run::last_advanced);
    if stage(s.step) > 1 {
        lemma_surgery(s, r, d, z, c);
    }
}

proof fn lemma_look(s: RunView, r: ReplyView, d: bool, z: bool, c: bool)
    requires
        run::sound(s),
        run::answers(s, r),
        bounded(s.step),
        in_order(s, d, z, c),
    ensures
        progress(s, r, run::look_advanced(s, r), d, z, c) || stage(s.step) == 0 && !(
        s.step is LookPrepare || s.step is LookGroup || s.step is LookVolumes),
{
    reveal(run::look_advanced);
    if let ReplyView::Output(Some((_, out))) = r {
        run::lemma_volumes_seen(s, out);
    }
    if stage(s.step) > 0 {
        lemma_last(s, r, d, z, c);
    }
}

#[verifier::rlimit(30)]
proof fn lemma_setup(s: RunView, r: ReplyView, d: bool, z: bool, c: bool)
    requires
        run::sound(s),
        run::answers(s, r),
        bounded(s.step),
        in_order(s, d, z, c),
    ensures
        progress(s, r, run::advanced(s, r), d, z, c),
{
    reveal(run::advanced);
    lemma_look(s, r, d, z, c);
}

/// Every reply brings a run nearer to its end.
pub proof fn law_replies_run_out(s: RunView, r: ReplyView)
    requires
        run::sound(s),
        bounded(s.step),
        run::answers(s, r),
    ensures
        rank(run::advanced(s, r).step) < rank(s.step),
        bounded(run::advanced(s, r).step),
{
    lemma_setup(s, r, true, true, true);
}

proof fn lemma_played(disk: Seq<char>, policy: PolicyView, rs: Seq<ReplyView>)
    requires
        fits(run::started(disk, policy), rs),
    ensures
        ({
            let s = run::started(disk, policy);
            let t = played(s, rs);
            &&& run::sound(t)
            &&& bounded(t.step)
            &&& edited(s, rs) ==> past_edit(t)
            &&& done(s, rs, Command::Relocate) ==> past_move(t)
            &&& t.step is Relocate ==> t.partition && t.is_gpt
            &&& t.phase == phase_of(t.step)
            &&& helps(t)
            &&& t.moved == done(s, rs, Command::Relocate)
            &&& told_apart(t)
            &&& in_order(
                t,
                done(s, rs, Command::DeleteSwap),
                done(s, rs, Command::ResizeRoot),
                done(s, rs, Command::CreateSwap),
            )
            &&& rs.len() + rank(t.step) <= rank(s.step)
        }),
    decreases rs.len(),
{
    let s = run::started(disk, policy);
    if rs.len() > 0 {
        let before = rs.drop_last();
        lemma_played(disk, policy, before);
        let t = played(s, before);
        run::lemma_sound(t, rs.last());
        lemma_setup(
            t,
            rs.last(),
            done(s, before, Command::DeleteSwap),
            done(s, before, Command::ResizeRoot),
            done(s, before, Command::CreateSwap),
        );
    }
}

/// A run ends: it takes at most 2000 replies.
pub proof fn law_runs_end(disk: Seq<char>, policy: PolicyView, rs: Seq<ReplyView>)
    requires
        fits(run::started(disk, policy), rs),
    ensures
        rs.len() <= 2000,
        rs.len() == 2000 ==> played(run::started(disk, policy), rs).step is Finished,
{
    lemma_played(disk, policy, rs);
    lemma_rank_zero(played(run::started(disk, policy), rs).step);
}

proof fn lemma_rank_zero(step: Step)
    ensures
        rank(step) == 0 <==> step is Finished,
{
}

/// Once partitions have been edited, a run ends as expanded, partial or failed,
/// never as skipped; and unless it is expanded, it tells the user what to do by
/// hand.
pub proof fn law_edits_are_never_skipped(
    disk: Seq<char>,
    policy: PolicyView,
    rs: Seq<ReplyView>,
)
    requires
        fits(run::started(disk, policy), rs),
        edited(run::started(disk, policy), rs),
    ensures
        played(run::started(disk, policy), rs).step matches Step::Finished(f) ==> {
            &&& f.status is Expanded || f.status is Partial || f.status is Failed
            &&& !(f.status is Expanded) ==> !(f.manual is Nothing)
        },
{
    lemma_played(disk, policy, rs);
}

/// Once the backup header of a GPT was moved, a run is never reported as
/// skipped.
pub proof fn law_moved_headers_are_reported(
    disk: Seq<char>,
    policy: PolicyView,
    rs: Seq<ReplyView>,
)
    requires
        fits(run::started(disk, policy), rs),
        done(run::started(disk, policy), rs, Command::Relocate),
    ensures
        played(run::started(disk, policy), rs).step matches Step::Finished(f) ==> f.status is Expanded
            || f.status is Partial || f.status is Failed,
{
    lemma_played(disk, policy, rs);
}

/// A run that could not take swap out of the way of root is skipped where the
/// backup header of the GPT was not moved, and only there.
pub proof fn law_unchanged_disks_are_skipped(
    disk: Seq<char>,
    policy: PolicyView,
    rs: Seq<ReplyView>,
)
    requires
        fits(run::started(disk, policy), rs),
    ensures
        played(run::started(disk, policy), rs).step matches Step::Finished(f) ==> (before_surgery(
            f.reason,
        ) ==> (f.status is Skipped <==> !done(
            run::started(disk, policy),
            rs,
            Command::Relocate,
        ))),
{
    lemma_played(disk, policy, rs);
}

/// A group with several volumes of which the policy names none is skipped
/// before anything on the disk has changed.
pub proof fn law_undeclared_volumes_are_skipped(
    disk: Seq<char>,
    policy: PolicyView,
    rs: Seq<ReplyView>,
    out: Seq<char>,
)
    requires
        fits(run::started(disk, policy), rs),
        played(run::started(disk, policy), rs).step is LookVolumes,
        run::chosen_volume(
            run::volume_rows(text::lines(out), text::lines(out).len()),
            played(run::started(disk, policy), rs).lv_declared,
        ) is None,
    ensures
        ({
            let s = run::started(disk, policy);
            let t = run::advanced(played(s, rs), ReplyView::Output(Some((0i32, out))));
            &&& t.step matches Step::Finished(f) && f.status is Skipped
            &&& !edited(s, rs)
            &&& !done(s, rs, Command::Relocate)
        }),
{
    lemma_played(disk, policy, rs);
    reveal(run::advanced);
    reveal(run::look_advanced);
    reveal(run::volumes_seen);
}

pub proof fn lemma_none_absent(tools: Seq<run::Tool>, present: Seq<bool>, n: nat)
    requires
        n <= present.len(),
        forall|i: int| 0 <= i < present.len() ==> #[trigger] present[i],
    ensures
        run::absent(tools, present, n) == Seq::<run::Tool>::empty(),
    decreases n,
{
    if n > 0 {
        lemma_none_absent(tools, present, (n - 1) as nat);
    }
}

/// Where the partition to grow is a physical volume and all tools are there,
/// the volumes are listed first; and where none of them is to grow, the run
/// ends as skipped.
pub proof fn law_volumes_are_listed_first(
    s: RunView,
    present: Seq<bool>,
    group: Seq<char>,
    out: Seq<char>,
)
    requires
        s.step is Tools,
        s.partition,
        s.fs is Lvm,
        present.len() == run::needed(s).len(),
        forall|i: int| 0 <= i < present.len() ==> #[trigger] present[i],
        text::trim(group).len() > 0,
        run::chosen_volume(
            run::volume_rows(text::lines(out), text::lines(out).len()),
            s.lv_declared,
        ) is None,
    ensures
        ({
            let a = run::advanced(s, ReplyView::Present(present));
            let b = run::advanced(a, ReplyView::Done);
            let c = run::advanced(b, ReplyView::Output(Some((0i32, group))));
            let d = run::advanced(c, ReplyView::Output(Some((0i32, out))));
            &&& run::job_of(a) == Job::PrepareLook
            &&& run::job_of(b) == Job::Capture(Command::PvGroup)
            &&& run::job_of(c) == Job::Capture(Command::GroupVolumes)
            &&& d.step matches Step::Finished(f) && f.status is Skipped
        }),
{
    lemma_none_absent(run::needed(s), present, present.len());
    reveal(run::advanced);
    reveal(run::look_advanced);
    reveal(run::volumes_seen);
}

/// A run that ends half done tells the user what to do by hand.
pub proof fn law_half_done_runs_help(disk: Seq<char>, policy: PolicyView, rs: Seq<ReplyView>)
    requires
        fits(run::started(disk, policy), rs),
    ensures
        helps(played(run::started(disk, policy), rs)),
{
    lemma_played(disk, policy, rs);
}

/// The phases that a run reports follow each other in their order, and each
/// belongs to the step that the run stands at.
pub proof fn law_phases_go_forward(
    disk: Seq<char>,
    policy: PolicyView,
    rs: Seq<ReplyView>,
    r: ReplyView,
)
    requires
        fits(run::started(disk, policy), rs.push(r)),
    ensures
        ({
            let t = played(run::started(disk, policy), rs);
            let u = played(run::started(disk, policy), rs.push(r));
            &&& t.phase == phase_of(t.step)
            &&& u.phase == phase_of(u.step)
            &&& phase_rank(t.phase) <= phase_rank(u.phase)
        }),
{
    assert(rs.push(r).drop_last() =~= rs);
    let s = run::started(disk, policy);
    lemma_played(disk, policy, rs);
    lemma_setup(
        played(s, rs),
        r,
        done(s, rs, Command::DeleteSwap),
        done(s, rs, Command::ResizeRoot),
        done(s, rs, Command::CreateSwap),
    );
}

/// Swap makes way in order: root is resized only after swap was deleted, swap
/// is made anew only after root was resized, and its area and the filesystem
/// follow only after that.
pub proof fn law_surgery_keeps_its_order(
    disk: Seq<char>,
    policy: PolicyView,
    rs: Seq<ReplyView>,
)
    requires
        fits(run::started(disk, policy), rs),
    ensures
        ({
            let s = run::started(disk, policy);
            let t = played(s, rs);
            let job = run::job_of(t);
            &&& job == Job::Run(Command::ResizeRoot) ==> done(s, rs, Command::DeleteSwap)
            &&& job == Job::Run(Command::CreateSwap) ==> done(s, rs, Command::ResizeRoot)
            &&& job == Job::Run(Command::MakeSwap) ==> done(s, rs, Command::CreateSwap)
            &&& job == Job::Run(Command::RestorePartUuid) ==> done(s, rs, Command::CreateSwap)
            &&& t.surgery is Some && (job == Job::Run(Command::ResizeExt) || job == Job::Run(
                Command::ResizeNtfs,
            ) || job == Job::Run(Command::GrowXfs) || job == Job::Run(Command::GrowBtrfs) || job
                == Job::Run(Command::PvResize)) ==> done(s, rs, Command::DeleteSwap) && done(
                s,
                rs,
                Command::ResizeRoot,
            ) && done(s, rs, Command::CreateSwap)
        }),
{
    lemma_played(disk, policy, rs);
}

/// Swap is the only partition that is ever deleted, and only where the plan
/// says how to make it anew.
pub proof fn law_only_swap_is_deleted(
    disk: Seq<char>,
    policy: PolicyView,
    rs: Seq<ReplyView>,
)
    requires
        fits(run::started(disk, policy), rs),
    ensures
        run::job_of(played(run::started(disk, policy), rs)) == Job::Run(Command::DeleteSwap)
            ==> played(run::started(disk, policy), rs).surgery is Some,
{
    lemma_played(disk, policy, rs);
}

/// A run that the policy does not enable does nothing.
pub proof fn law_disabled_runs_do_nothing(disk: Seq<char>, policy: PolicyView)
    requires
        !policy.enabled,
    ensures
        run::started(disk, policy).step matches Step::Finished(f) && f.status is Disabled,
{
}

/// Swap keeps its length and ends at the last usable block; root keeps its
/// first block and ends right before swap.
pub proof fn law_surgery_layout(s: RunView, usable_last: u64)
    requires
        s.surgery is Some,
        run::place_swap(s, usable_last).step is DeleteSwap,
    ensures
        ({
            let g = s.surgery->0;
            let t = run::place_swap(s, usable_last);
            &&& t.surgery == s.surgery
            &&& t.new_swap_start + g.swap_sectors == usable_last + 1
            &&& g.root_first_lba + t.root_new_size == t.new_swap_start
        }),
{
}

spec fn grown_by(s: RunView, r: ReplyView) -> bool {
    s.step == (Step::Unmount { grown: true }) || (r == ReplyView::Exit(Some(0i32)) && (
    s.step is ResizeExt || s.step is ResizeNtfs || (s.step is ExtendVolume && run::is_pool(
        s.lvs,
        s.lv,
    ))))
}

spec fn expanded(s: RunView) -> bool {
    s.step matches Step::Finished(f) && f.status is Expanded
}

proof fn lemma_expanded_fs(s: RunView, r: ReplyView)
    requires
        run::sound(s),
        run::answers(s, r),
        expanded(run::fs_advanced(s, r)),
    ensures
        grown_by(s, r),
{
    reveal(run::fs_advanced);
    reveal(run::lvm_advanced);
    if let ReplyView::Output(Some((_, out))) = r {
        run::lemma_volumes_listed(s, out);
    }
}

proof fn lemma_expanded_table(s: RunView, r: ReplyView)
    requires
        run::sound(s),
        run::answers(s, r),
        expanded(run::last_advanced(s, r)),
    ensures
        grown_by(s, r),
{
    reveal(run::last_advanced);
    reveal(run::surgery_advanced);
    if expanded(run::fs_advanced(s, r)) {
        lemma_expanded_fs(s, r);
    }
}

/// A run is reported as expanded only after the last tool of the filesystem
/// ended well.
pub proof fn law_expanded_only_when_grown(s: RunView, r: ReplyView)
    requires
        run::sound(s),
        run::answers(s, r),
        run::advanced(s, r).step matches Step::Finished(f) && f.status is Expanded,
    ensures
        s.step == (Step::Unmount { grown: true }) || (r == ReplyView::Exit(Some(0i32)) && (
        s.step is ResizeExt || s.step is ResizeNtfs || (s.step is ExtendVolume && run::is_pool(
            s.lvs,
            s.lv,
        )))),
{
    reveal(run::advanced);
    reveal(run::look_advanced);
    if let ReplyView::Output(Some((_, out))) = r {
        run::lemma_volumes_seen(s, out);
    }
    if expanded(run::last_advanced(s, r)) {
        lemma_expanded_table(s, r);
    }
}

/// With several volumes in a group, none is grown by guess.
pub proof fn law_volume_is_never_guessed(
    lvs: Seq<(Seq<char>, Seq<char>)>,
    declared: Option<Seq<char>>,
)
    requires
        lvs.len() != 1,
    ensures
        run::chosen_volume(lvs, declared) matches Some(v) ==> declared == Some(v) && exists|i: int|
            0 <= i < lvs.len() && (#[trigger] lvs[i]).0 == v,
{
}

} // verus!
