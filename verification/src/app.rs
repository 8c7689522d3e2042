//! The installer as the user sees it: its screens, what moves it from one to
//! another, and how writing and growing are followed.
use crate::disk;
use crate::disk::DiskInfo;
use crate::grow;
use crate::grow::outcome;
use crate::grow::outcome::GrowOutcome;
use crate::text;
use crate::text::{chars_of, has_prefix, parse_up_to, split_lines, split_words};
use crate::theme;
use crate::theme::Theme;
use vstd::prelude::*;

verus! {

#[derive(Debug, Clone, Copy, PartialEq, Eq, Structural)]
pub enum Screen {
    DiskList,
    Confirmation,
    Writing,
    WriteError,
    Growing,
    Success,
}

/// What happens to the machine when the installer ends.
#[derive(Debug, Clone, Copy, PartialEq, Eq, Structural)]
pub enum ExitAction {
    Nothing,
    PowerOff,
    Reboot,
}

impl Default for ExitAction {
    fn default() -> (r: Self)
        ensures
            r == ExitAction::Nothing,
    {
        ExitAction::Nothing
    }
}

#[derive(Debug, Clone, Copy, PartialEq, Eq, Structural)]
pub enum ConfirmButton {
    No,
    Yes,
}

impl Default for ConfirmButton {
    fn default() -> (r: Self)
        ensures
            r == ConfirmButton::No,
    {
        ConfirmButton::No
    }
}

pub open spec fn other_button(b: ConfirmButton) -> ConfirmButton {
    match b {
        ConfirmButton::No => ConfirmButton::Yes,
        ConfirmButton::Yes => ConfirmButton::No,
    }
}

impl ConfirmButton {
    pub fn toggle(&mut self)
        ensures
            *final(self) == other_button(*old(self)),
    {
        *self = match self {
            ConfirmButton::No => ConfirmButton::Yes,
            ConfirmButton::Yes => ConfirmButton::No,
        };
    }
}

#[derive(Debug, Clone, Copy, PartialEq, Eq, Structural)]
pub enum SuccessAction {
    Reboot,
    Back,
}

impl Default for SuccessAction {
    fn default() -> (r: Self)
        ensures
            r == SuccessAction::Reboot,
    {
        SuccessAction::Reboot
    }
}

pub open spec fn other_action(a: SuccessAction) -> SuccessAction {
    match a {
        SuccessAction::Reboot => SuccessAction::Back,
        SuccessAction::Back => SuccessAction::Reboot,
    }
}

impl SuccessAction {
    pub fn toggle(&mut self)
        ensures
            *final(self) == other_action(*old(self)),
    {
        *self = match self {
            SuccessAction::Reboot => SuccessAction::Back,
            SuccessAction::Back => SuccessAction::Reboot,
        };
    }
}

/// Toggling twice changes nothing.
pub proof fn law_toggles_undo_themselves(b: ConfirmButton, a: SuccessAction)
    ensures
        other_button(other_button(b)) == b,
        other_button(b) != b,
        other_action(other_action(a)) == a,
        other_action(a) != a,
{
}

/// What the system says of a child process.
#[derive(Debug, Clone, Copy, PartialEq, Eq, Structural)]
pub enum ChildPoll {
    Running,
    /// It has ended, well or not.
    Exited(bool),
    /// The system does not say.
    Unknown,
}

/// How far the process that writes the image has come.
#[derive(Debug)]
pub struct WriteProgress {
    pub disk_name: String,
    pub disk_model: String,
    pub total_bytes: u64,
    pub written_bytes: u64,
    /// The bytes of the last advance, for the speed.
    pub delta_bytes: u64,
    /// Whether the process is still to be waited for.
    pub has_child: bool,
    pub finished: bool,
    pub success: bool,
    pub spinner_index: usize,
}

#[verifier::ext_equal]
pub struct WriteView {
    pub disk_name: Seq<char>,
    pub disk_model: Seq<char>,
    pub total_bytes: u64,
    pub written_bytes: u64,
    pub delta_bytes: u64,
    pub has_child: bool,
    pub finished: bool,
    pub success: bool,
    pub spinner_index: usize,
}

impl View for WriteProgress {
    type V = WriteView;

    open spec fn view(&self) -> WriteView {
        WriteView {
            disk_name: self.disk_name@,
            disk_model: self.disk_model@,
            total_bytes: self.total_bytes,
            written_bytes: self.written_bytes,
            delta_bytes: self.delta_bytes,
            has_child: self.has_child,
            finished: self.finished,
            success: self.success,
            spinner_index: self.spinner_index,
        }
    }
}

/// The count of written bytes in a line of the process's `io` file.
pub open spec fn wchar_in(line: Seq<char>) -> Option<u64> {
    let w = text::words(line);
    if text::starts_with(line, "wchar:"@) && w.len() > 1 {
        match text::parse_number(w[1], u64::MAX as nat) {
            Some(n) => Some(n as u64),
            None => None,
        }
    } else {
        None
    }
}

/// The count of written bytes in the first line that has one.
pub open spec fn first_wchar(ls: Seq<Seq<char>>) -> Option<u64>
    decreases ls.len(),
{
    if ls.len() == 0 {
        None
    } else {
        match wchar_in(ls[0]) {
            Some(n) => Some(n),
            None => first_wchar(ls.skip(1)),
        }
    }
}

/// The count of written bytes, or the last one known.
pub open spec fn written_now(io: Option<Seq<char>>, last: u64) -> u64 {
    match io {
        Some(c) => match first_wchar(text::lines(c)) {
            Some(n) => n,
            None => last,
        },
        None => last,
    }
}

/// A process after the system was asked for it. Once it has ended and been
/// waited for, it is not asked for again.
pub open spec fn polled(p: WriteView, poll: ChildPoll) -> WriteView {
    match poll {
        ChildPoll::Exited(ok) if p.has_child => WriteView {
            finished: true,
            success: ok,
            has_child: false,
            ..p
        },
        ChildPoll::Unknown if p.has_child => WriteView { finished: true, success: false, ..p },
        _ => p,
    }
}

/// Whether the process has ended well, once it has ended.
pub open spec fn verdict(p: WriteView, poll: ChildPoll) -> Option<bool> {
    if !p.has_child {
        Some(true)
    } else {
        match poll {
            ChildPoll::Running => None,
            ChildPoll::Exited(ok) => Some(ok),
            ChildPoll::Unknown => Some(false),
        }
    }
}

impl WriteProgress {
    /// A process that has begun to write `total_bytes` to a disk.
    pub fn new(disk: &DiskInfo, total_bytes: u64) -> (r: WriteProgress)
        ensures
            r@ == (WriteView {
                disk_name: disk@.name,
                disk_model: match disk@.model {
                    Some(m) => m,
                    None => seq![],
                },
                total_bytes,
                written_bytes: 0,
                delta_bytes: 0,
                has_child: true,
                finished: false,
                success: false,
                spinner_index: 0,
            }),
    {
        WriteProgress {
            disk_name: disk.name.clone(),
            disk_model: match &disk.model {
                Some(m) => m.clone(),
                None => String::new(),
            },
            total_bytes,
            written_bytes: 0,
            delta_bytes: 0,
            has_child: true,
            finished: false,
            success: false,
            spinner_index: 0,
        }
    }

    /// Takes a new count of written bytes; a smaller one is no news.
    pub fn update_progress(&mut self, new_written: u64)
        ensures
            final(self)@ == if new_written > old(self).written_bytes {
                WriteView {
                    delta_bytes: (new_written - old(self).written_bytes) as u64,
                    written_bytes: new_written,
                    ..old(self)@
                }
            } else {
                old(self)@
            },
    {
        if new_written > self.written_bytes {
            self.delta_bytes = new_written - self.written_bytes;
            self.written_bytes = new_written;
        }
    }

    /// The count of written bytes that the process's `io` file gives, where it
    /// could be read.
    pub fn read_written_bytes(&self, io: Option<&str>) -> (r: u64)
        ensures
            r == written_now(grow::policy::str_text(io), self.written_bytes),
    {
        let Some(content) = io else {
            return self.written_bytes;
        };
        let ls = split_lines(&chars_of(content));
        let ghost all = text::texts(ls@);
        let mut i: usize = 0;
        assert(all.skip(0) =~= all);
        while i < ls.len()
            invariant
                i <= ls@.len(),
                all == text::texts(ls@),
                all == text::lines(content@),
                io == Some(content),
                first_wchar(all) == first_wchar(all.skip(i as int)),
            decreases ls@.len() - i,
        {
            assert(all.skip(i as int).skip(1) =~= all.skip(i + 1));
            assert(all.skip(i as int)[0] == ls@[i as int]@);
            let w = split_words(&ls[i]);
            if has_prefix(&ls[i], "wchar:") && w.len() > 1 {
                assert(text::texts(w@)[1] == w@[1]@);
                if let Some(n) = parse_up_to(&w[1], u64::MAX) {
                    return n;
                }
            }
            i = i + 1;
        }
        self.written_bytes
    }

    /// Takes what the system says of the process, with its `io` file as it was
    /// read just before. Gives whether the process has ended well, once it has
    /// ended, and the count of written bytes.
    pub fn check_and_read_io(&mut self, io: Option<&str>, poll: ChildPoll) -> (r: (
        Option<bool>,
        u64,
    ))
        ensures
            final(self)@ == polled(old(self)@, poll),
            r.0 == verdict(old(self)@, poll),
            r.1 == written_now(grow::policy::str_text(io), old(self).written_bytes),
    {
        let count: u64 = self.read_written_bytes(io);
        if !self.has_child {
            return (Some(true), count);
        }
        match poll {
            ChildPoll::Exited(ok) => {
                self.finished = true;
                self.success = ok;
                self.has_child = false;
                (Some(ok), count)
            },
            ChildPoll::Running => (None, count),
            ChildPoll::Unknown => {
                self.finished = true;
                self.success = false;
                (Some(false), count)
            },
        }
    }

    /// The process has been killed.
    pub fn abort(&mut self)
        ensures
            final(self)@ == aborted(old(self)@),
    {
        self.has_child = false;
        self.finished = true;
        self.success = false;
    }
}

pub open spec fn aborted(p: WriteView) -> WriteView {
    WriteView { has_child: false, finished: true, success: false, ..p }
}

/// How far the process that grows the image has come. It is never killed: that
/// could leave a partition table half written.
#[derive(Debug)]
pub struct GrowProgress {
    pub disk_name: String,
    pub phase_text: String,
    pub spinner_index: usize,
    /// Times count milliseconds.
    pub started: u64,
    pub last_change: u64,
    /// When the status file last changed: seconds and nanoseconds.
    pub last_mtime: Option<(u64, u32)>,
}

#[verifier::ext_equal]
pub struct GrowView {
    pub disk_name: Seq<char>,
    pub phase_text: Seq<char>,
    pub spinner_index: usize,
    pub started: u64,
    pub last_change: u64,
    pub last_mtime: Option<(u64, u32)>,
}

impl View for GrowProgress {
    type V = GrowView;

    open spec fn view(&self) -> GrowView {
        GrowView {
            disk_name: self.disk_name@,
            phase_text: self.phase_text@,
            spinner_index: self.spinner_index,
            started: self.started,
            last_change: self.last_change,
            last_mtime: self.last_mtime,
        }
    }
}

/// The process after a look at its status file, with the time of the file's
/// last change and what it holds.
pub open spec fn looked(
    g: GrowView,
    mtime: Option<(u64, u32)>,
    content: Option<Seq<char>>,
    now: u64,
) -> GrowView {
    if mtime is Some && mtime != g.last_mtime {
        GrowView {
            last_mtime: mtime,
            last_change: now,
            phase_text: match outcome::status_read(content) {
                Some(t) => t,
                None => g.phase_text,
            },
            ..g
        }
    } else {
        g
    }
}

/// The time from `then` to `now`; none where `now` is earlier.
pub open spec fn since(then: u64, now: u64) -> u64 {
    if now >= then {
        (now - then) as u64
    } else {
        0
    }
}

/// What growing has come to, once the process has ended or hangs. A process
/// that ended without a result has failed.
pub open spec fn verdict_of(
    g: GrowView,
    poll: ChildPoll,
    result: Option<Seq<char>>,
    now: u64,
) -> Option<outcome::OutcomeView> {
    if poll is Exited {
        match outcome::outcome_read(result) {
            Some(o) => Some(o),
            None => Some(outcome::failure("no result reported"@)),
        }
    } else if since(g.last_change, now) >= outcome::HANG_TIMEOUT_SECS * 1000 {
        Some(outcome::failure("grow process hangs"@))
    } else {
        None
    }
}

impl GrowProgress {
    /// A process that has begun to grow the image on a disk.
    pub fn new(disk_name: &str, now: u64) -> (r: GrowProgress)
        ensures
            r@ == (GrowView {
                disk_name: disk_name@,
                phase_text: "Analyzing disk layout"@,
                spinner_index: 0,
                started: now,
                last_change: now,
                last_mtime: None,
            }),
    {
        GrowProgress {
            disk_name: disk_name.to_owned(),
            phase_text: "Analyzing disk layout".to_owned(),
            spinner_index: 0,
            started: now,
            last_change: now,
            last_mtime: None,
        }
    }

    /// Looks at the status file: at the time of its last change and at what it
    /// holds.
    pub fn poll_status(&mut self, mtime: Option<(u64, u32)>, content: Option<&str>, now: u64)
        ensures
            final(self)@ == looked(old(self)@, mtime, grow::policy::str_text(content), now),
    {
        let Some((secs, nanos)) = mtime else {
            return ;
        };
        let same = match self.last_mtime {
            Some((s, n)) => s == secs && n == nanos,
            None => false,
        };
        if same {
            return ;
        }
        self.last_mtime = Some((secs, nanos));
        self.last_change = now;
        if let Some(t) = outcome::read_status_line(content) {
            self.phase_text = t;
        }
    }

    /// How many milliseconds the status file has not changed for.
    pub fn stalled_for(&self, now: u64) -> (r: u64)
        ensures
            r == since(self.last_change, now),
    {
        if now >= self.last_change {
            now - self.last_change
        } else {
            0
        }
    }

    /// Whether the process hangs.
    pub fn hangs(&self, now: u64) -> (r: bool)
        ensures
            r == (since(self.last_change, now) >= outcome::HANG_TIMEOUT_SECS * 1000),
    {
        self.stalled_for(now) >= outcome::HANG_TIMEOUT_SECS * 1000
    }

    /// Whether the process has ended. Where the system does not say, it has not.
    pub fn child_exited(&self, poll: ChildPoll) -> (r: bool)
        ensures
            r == (poll is Exited),
    {
        match poll {
            ChildPoll::Exited(_) => true,
            _ => false,
        }
    }

    /// What growing has come to, once the process has ended or hangs: `result`
    /// is what stands in the result file. A process that still runs has come to
    /// nothing yet.
    pub fn verdict(&self, poll: ChildPoll, result: Option<&str>, now: u64) -> (r: Option<
        GrowOutcome,
    >)
        ensures
            outcome::outcome_view(r) == verdict_of(
                self@,
                poll,
                grow::policy::str_text(result),
                now,
            ),
    {
        if self.child_exited(poll) {
            match outcome::read_result(result) {
                Some(o) => Some(o),
                None => Some(GrowOutcome::failed("no result reported")),
            }
        } else if self.hangs(now) {
            Some(GrowOutcome::failed("grow process hangs"))
        } else {
            None
        }
    }

    /// How many seconds the process has run.
    pub fn elapsed_secs(&self, now: u64) -> (r: u64)
        ensures
            r == since(self.started, now) / 1000,
    {
        if now >= self.started {
            (now - self.started) / 1000
        } else {
            0
        }
    }
}

#[derive(Debug, Clone, Copy, PartialEq, Eq, Structural)]
pub enum NotificationLevel {
    Error,
    Warning,
    Info,
}

/// A message that is shown for some ticks.
#[derive(Debug, Clone)]
pub struct Notification {
    pub message: String,
    pub level: NotificationLevel,
    pub ttl: u16,
}

#[verifier::ext_equal]
pub struct NoteView {
    pub message: Seq<char>,
    pub level: NotificationLevel,
    pub ttl: u16,
}

impl View for Notification {
    type V = NoteView;

    open spec fn view(&self) -> NoteView {
        NoteView { message: self.message@, level: self.level, ttl: self.ttl }
    }
}

pub open spec fn note_views(v: Seq<Notification>) -> Seq<NoteView> {
    Seq::new(v.len(), |i: int| v[i]@)
}

/// For how many ticks a message is shown.
pub open spec fn lifetime(level: NotificationLevel) -> u16 {
    match level {
        NotificationLevel::Error => 100,
        NotificationLevel::Warning => 60,
        NotificationLevel::Info => 40,
    }
}

/// The first `n` messages a tick later: those whose time was up are gone.
pub open spec fn aged(notes: Seq<NoteView>, n: nat) -> Seq<NoteView>
    decreases n,
{
    if n == 0 {
        seq![]
    } else {
        let before = aged(notes, (n - 1) as nat);
        if notes[n - 1].ttl > 0 {
            before.push(NoteView { ttl: (notes[n - 1].ttl - 1) as u16, ..notes[n - 1] })
        } else {
            before
        }
    }
}

/// Seconds from success to the reboot.
pub const REBOOT_SECONDS: u8 = 5;

/// Ticks in a second.
pub const TICKS_PER_SECOND: u64 = 10;

/// The state of the installer.
pub struct App {
    pub running: bool,
    pub screen: Screen,
    pub disks: Vec<DiskInfo>,
    /// Which disk of the list is selected.
    pub selected: Option<usize>,
    pub confirm_button: ConfirmButton,
    pub progress: Option<WriteProgress>,
    pub grow: Option<GrowProgress>,
    /// What growing has come to, for the last screen.
    pub grow_outcome: Option<GrowOutcome>,
    pub success_action: SuccessAction,
    pub reboot_counting: bool,
    pub reboot_countdown: u8,
    pub reboot_last_tick: u64,
    pub notifications: Vec<Notification>,
    pub show_help: bool,
    pub theme: Theme,
    pub tick_count: u64,
    pub exit_action: ExitAction,
}

#[verifier::ext_equal]
pub struct AppView {
    pub running: bool,
    pub screen: Screen,
    pub disks: Seq<disk::DiskView>,
    pub selected: Option<usize>,
    pub confirm_button: ConfirmButton,
    pub progress: Option<WriteView>,
    pub grow: Option<GrowView>,
    pub grow_outcome: Option<outcome::OutcomeView>,
    pub success_action: SuccessAction,
    pub reboot_counting: bool,
    pub reboot_countdown: u8,
    pub reboot_last_tick: u64,
    pub notifications: Seq<NoteView>,
    pub show_help: bool,
    pub theme: theme::ThemeView,
    pub tick_count: u64,
    pub exit_action: ExitAction,
}

pub open spec fn write_view(p: Option<WriteProgress>) -> Option<WriteView> {
    match p {
        Some(p) => Some(p@),
        None => None,
    }
}

pub open spec fn grow_view(g: Option<GrowProgress>) -> Option<GrowView> {
    match g {
        Some(g) => Some(g@),
        None => None,
    }
}

impl View for App {
    type V = AppView;

    open spec fn view(&self) -> AppView {
        AppView {
            running: self.running,
            screen: self.screen,
            disks: disk::disk_views(self.disks@),
            selected: self.selected,
            confirm_button: self.confirm_button,
            progress: write_view(self.progress),
            grow: grow_view(self.grow),
            grow_outcome: outcome::outcome_view(self.grow_outcome),
            success_action: self.success_action,
            reboot_counting: self.reboot_counting,
            reboot_countdown: self.reboot_countdown,
            reboot_last_tick: self.reboot_last_tick,
            notifications: note_views(self.notifications@),
            show_help: self.show_help,
            theme: self.theme@,
            tick_count: self.tick_count,
            exit_action: self.exit_action,
        }
    }
}

/// What holds of the installer between two events.
pub open spec fn sound(a: AppView) -> bool {
    &&& a.reboot_last_tick <= a.tick_count
    &&& a.screen is Writing ==> a.progress is Some
    &&& a.selected matches Some(i) ==> i < a.disks.len()
}

/// The installer at its start.
pub open spec fn opened(disks: Seq<disk::DiskView>) -> AppView {
    AppView {
        running: true,
        screen: Screen::DiskList,
        disks,
        selected: if disks.len() > 0 {
            Some(0)
        } else {
            None
        },
        confirm_button: ConfirmButton::No,
        progress: None,
        grow: None,
        grow_outcome: None,
        success_action: SuccessAction::Reboot,
        reboot_counting: false,
        reboot_countdown: REBOOT_SECONDS,
        reboot_last_tick: 0,
        notifications: seq![],
        show_help: false,
        theme: theme::default_theme(),
        tick_count: 0,
        exit_action: ExitAction::Nothing,
    }
}

/// The selection in a new list: the same row where there is one, else the first.
pub open spec fn reselected(selected: Option<usize>, n: nat) -> Option<usize> {
    match selected {
        Some(i) => if i < n {
            Some(i)
        } else if n > 0 {
            Some(0)
        } else {
            None
        },
        None => None,
    }
}

/// The selection a row further down or up in a list of `n`; behind the last row
/// comes the first.
pub open spec fn stepped(selected: Option<usize>, n: nat, down: bool) -> Option<usize> {
    match selected {
        _ if n == 0 => selected,
        None => Some(0),
        Some(i) => if down {
            if i + 1 < n {
                Some((i + 1) as usize)
            } else {
                Some(0)
            }
        } else if 0 < i < n {
            Some((i - 1) as usize)
        } else {
            Some((n - 1) as usize)
        },
    }
}

/// Whether a disk of the list is selected.
pub open spec fn has_selection(a: AppView) -> bool {
    a.selected matches Some(i) && i < a.disks.len()
}

/// The user has chosen the selected disk.
pub open spec fn disk_chosen(a: AppView) -> AppView {
    if has_selection(a) {
        AppView { confirm_button: ConfirmButton::No, screen: Screen::Confirmation, ..a }
    } else {
        noted(a, "No disk selected"@, NotificationLevel::Warning)
    }
}

pub open spec fn noted(a: AppView, message: Seq<char>, level: NotificationLevel) -> AppView {
    AppView {
        notifications: a.notifications.push(NoteView { message, level, ttl: lifetime(level) }),
        ..a
    }
}

/// The user has chosen the selected button of the last screen: the first time
/// "reboot" starts the countdown, the second time it ends it.
pub open spec fn success_chosen(a: AppView) -> AppView {
    match a.success_action {
        SuccessAction::Back => AppView { screen: Screen::DiskList, progress: None, ..a },
        SuccessAction::Reboot => if a.reboot_counting {
            AppView { exit_action: ExitAction::Reboot, running: false, ..a }
        } else {
            AppView { reboot_counting: true, reboot_last_tick: a.tick_count, ..a }
        },
    }
}

/// Whether growing follows on writing: the image is written, the policy asks
/// for it and it is known on which disk.
pub open spec fn growing_follows(a: AppView, ended: Option<bool>, enabled: bool) -> bool {
    ended == Some(true) && enabled && has_selection(a)
}

/// The installer after a look at the process that writes.
pub open spec fn write_looked(a: AppView, ended: Option<bool>, enabled: bool) -> AppView {
    match ended {
        None => a,
        Some(false) => AppView { screen: Screen::WriteError, ..a },
        Some(true) => if growing_follows(a, ended, enabled) {
            a
        } else {
            succeeded(a)
        },
    }
}

pub open spec fn spun(i: usize) -> usize {
    ((i + 1) % 10) as usize
}

/// Whether a second of the countdown has passed at tick `tick`.
pub open spec fn second_passed(a: AppView, tick: int) -> bool {
    a.screen is Success && a.reboot_counting && tick - a.reboot_last_tick >= TICKS_PER_SECOND
        && a.reboot_countdown > 0
}

/// Whether nothing that a tick counts is at its end, and what the screen shows
/// is there.
pub open spec fn can_tick(a: AppView) -> bool {
    &&& a.tick_count < u64::MAX
    &&& a.screen is Writing ==> a.progress is Some && (a.progress->0).spinner_index < usize::MAX
    &&& a.screen is Growing && a.grow is Some ==> (a.grow->0).spinner_index < usize::MAX
    &&& a.screen is Success && a.reboot_counting ==> a.reboot_last_tick <= a.tick_count + 1
}

/// The installer a tick later.
pub open spec fn ticked(a: AppView) -> AppView {
    let t = AppView {
        tick_count: (a.tick_count + 1) as u64,
        notifications: aged(a.notifications, a.notifications.len()),
        progress: match a.progress {
            Some(p) if a.screen is Writing => Some(
                WriteView { spinner_index: spun(p.spinner_index), ..p },
            ),
            _ => a.progress,
        },
        grow: match a.grow {
            Some(g) if a.screen is Growing => Some(
                GrowView { spinner_index: spun(g.spinner_index), ..g },
            ),
            _ => a.grow,
        },
        ..a
    };
    if second_passed(a, a.tick_count + 1) {
        let left = (a.reboot_countdown - 1) as u8;
        let u = AppView { reboot_last_tick: t.tick_count, reboot_countdown: left, ..t };
        if left == 0 {
            AppView { exit_action: ExitAction::Reboot, running: false, ..u }
        } else {
            u
        }
    } else {
        t
    }
}

/// The screen of success, with its countdown at the start.
pub open spec fn succeeded(a: AppView) -> AppView {
    AppView {
        success_action: SuccessAction::Reboot,
        reboot_counting: false,
        reboot_countdown: REBOOT_SECONDS,
        reboot_last_tick: a.tick_count,
        grow: None,
        screen: Screen::Success,
        ..a
    }
}

/// The screen of writing. What growing came to the last time is forgotten.
pub open spec fn writing(a: AppView, p: WriteView) -> AppView {
    AppView {
        progress: Some(p),
        grow: None,
        grow_outcome: None,
        screen: Screen::Writing,
        ..a
    }
}

fn age(notes: &mut Vec<Notification>)
    ensures
        note_views(final(notes)@) == aged(note_views(old(notes)@), old(notes)@.len()),
{
    let ghost all = note_views(notes@);
    let mut kept: Vec<Notification> = Vec::new();
    let mut i: usize = 0;
    assert(note_views(kept@) =~= aged(all, 0));
    while i < notes.len()
        invariant
            i <= notes@.len(),
            notes@.len() == all.len(),
            all == note_views(notes@),
            note_views(kept@) == aged(all, i as nat),
        decreases notes@.len() - i,
    {
        assert(all[i as int] == notes@[i as int]@);
        if notes[i].ttl > 0 {
            let ghost before = note_views(kept@);
            let n = Notification {
                message: notes[i].message.clone(),
                level: notes[i].level,
                ttl: notes[i].ttl - 1,
            };
            let ghost v = n@;
            kept.push(n);
            assert(note_views(kept@) =~= before.push(v));
        }
        i = i + 1;
    }
    *notes = kept;
}

fn spin(i: usize) -> (r: usize)
    requires
        i < usize::MAX,
    ensures
        r == spun(i),
{
    (i + 1) % 10
}

impl App {
    /// The installer with the disks of the machine.
    pub fn new(disks: Vec<DiskInfo>) -> (r: App)
        ensures
            r@ == opened(disk::disk_views(disks@)),
            sound(r@),
    {
        let selected: Option<usize> = if disks.len() > 0 {
            Some(0)
        } else {
            None
        };
        let r = App {
            running: true,
            screen: Screen::DiskList,
            disks,
            selected,
            confirm_button: ConfirmButton::default(),
            progress: None,
            grow: None,
            grow_outcome: None,
            success_action: SuccessAction::default(),
            reboot_counting: false,
            reboot_countdown: REBOOT_SECONDS,
            reboot_last_tick: 0,
            notifications: Vec::new(),
            show_help: false,
            theme: Theme::default(),
            tick_count: 0,
            exit_action: ExitAction::default(),
        };
        assert(r@.notifications =~= Seq::<NoteView>::empty());
        r
    }

    /// Takes a new list of disks.
    pub fn refresh_disks(&mut self, disks: Vec<DiskInfo>)
        ensures
            final(self)@ == (AppView {
                selected: reselected(old(self).selected, disks@.len()),
                disks: disk::disk_views(disks@),
                ..old(self)@
            }),
            sound(old(self)@) ==> sound(final(self)@),
    {
        self.disks = disks;
        if let Some(i) = self.selected {
            if i >= self.disks.len() {
                self.selected = if self.disks.len() > 0 {
                    Some(0)
                } else {
                    None
                };
            }
        }
    }

    pub fn selected_disk(&self) -> (r: Option<&DiskInfo>)
        ensures
            match self.selected {
                Some(i) if i < self.disks@.len() => r == Some(&self.disks@[i as int]),
                _ => r is None,
            },
    {
        match self.selected {
            Some(i) => if i < self.disks.len() {
                Some(&self.disks[i])
            } else {
                None
            },
            None => None,
        }
    }

    /// Selects the next row of the list, down or up.
    pub fn select(&mut self, down: bool)
        ensures
            final(self)@ == (AppView {
                selected: stepped(old(self)@.selected, old(self)@.disks.len(), down),
                ..old(self)@
            }),
            sound(old(self)@) ==> sound(final(self)@),
    {
        let n: usize = self.disks.len();
        if n == 0 {
            return ;
        }
        self.selected = match self.selected {
            None => Some(0),
            Some(i) => if down {
                if i < n - 1 {
                    Some(i + 1)
                } else {
                    Some(0)
                }
            } else if 0 < i && i < n {
                Some(i - 1)
            } else {
                Some(n - 1)
            },
        };
    }

    /// The user chooses the selected disk.
    pub fn choose_disk(&mut self)
        ensures
            final(self)@ == disk_chosen(old(self)@),
    {
        if self.selected_disk().is_some() {
            self.goto_confirmation();
        } else {
            self.notify("No disk selected".to_owned(), NotificationLevel::Warning);
        }
    }

    /// The user chooses the selected button of the last screen. Says whether the
    /// list of disks is to be read anew.
    pub fn choose_success(&mut self) -> (r: bool)
        ensures
            final(self)@ == success_chosen(old(self)@),
            r == (old(self).success_action is Back),
    {
        match self.success_action {
            SuccessAction::Back => {
                self.goto_disk_list();
                true
            },
            SuccessAction::Reboot => {
                if self.reboot_counting {
                    self.skip_reboot_countdown();
                } else {
                    self.reboot_counting = true;
                    self.reboot_last_tick = self.tick_count;
                }
                false
            },
        }
    }

    /// Takes what a look at the process that writes has brought, and whether the
    /// policy asks for growing. Says whether growing is to begin.
    pub fn look_at_writer(&mut self, ended: Option<bool>, enabled: bool) -> (r: bool)
        ensures
            final(self)@ == write_looked(old(self)@, ended, enabled),
            r == growing_follows(old(self)@, ended, enabled),
    {
        match ended {
            None => false,
            Some(false) => {
                self.goto_write_error();
                false
            },
            Some(true) => {
                if enabled && self.selected_disk().is_some() {
                    true
                } else {
                    self.goto_success();
                    false
                }
            },
        }
    }

    /// Growing has come to its end.
    pub fn end_growing(&mut self, o: GrowOutcome)
        ensures
            final(self)@ == succeeded(AppView { grow_outcome: Some(o@), ..old(self)@ }),
    {
        self.grow_outcome = Some(o);
        self.goto_success();
    }

    pub fn has_disks(&self) -> (r: bool)
        ensures
            r == (self@.disks.len() > 0),
    {
        self.disks.len() > 0
    }

    /// A tenth of a second has passed.
    pub fn tick(&mut self)
        requires
            can_tick(old(self)@),
        ensures
            final(self)@ == ticked(old(self)@),
            sound(old(self)@) ==> sound(final(self)@),
    {
        self.tick_count = self.tick_count + 1;
        age(&mut self.notifications);
        if self.screen == Screen::Writing {
            if let Some(p) = &mut self.progress {
                p.spinner_index = spin(p.spinner_index);
            }
        }
        if self.screen == Screen::Growing {
            if let Some(g) = &mut self.grow {
                g.spinner_index = spin(g.spinner_index);
            }
        }
        if self.screen == Screen::Success && self.reboot_counting && self.tick_count
            - self.reboot_last_tick >= TICKS_PER_SECOND && self.reboot_countdown > 0 {
            self.reboot_last_tick = self.tick_count;
            self.reboot_countdown = self.reboot_countdown - 1;
            if self.reboot_countdown == 0 {
                self.exit_action = ExitAction::Reboot;
                self.running = false;
            }
        }
    }

    /// Shows a message.
    pub fn notify(&mut self, message: String, level: NotificationLevel)
        ensures
            final(self)@ == noted(old(self)@, message@, level),
    {
        let ttl: u16 = match level {
            NotificationLevel::Error => 100,
            NotificationLevel::Warning => 60,
            NotificationLevel::Info => 40,
        };
        let n = Notification { message, level, ttl };
        let ghost v = n@;
        let ghost before = note_views(self.notifications@);
        self.notifications.push(n);
        assert(note_views(self.notifications@) =~= before.push(v));
    }

    pub fn goto_disk_list(&mut self)
        ensures
            final(self)@ == (AppView { screen: Screen::DiskList, progress: None, ..old(self)@ }),
    {
        self.screen = Screen::DiskList;
        self.progress = None;
    }

    /// Asks for confirmation, with "no" preselected.
    pub fn goto_confirmation(&mut self)
        ensures
            final(self)@ == (AppView {
                confirm_button: ConfirmButton::No,
                screen: Screen::Confirmation,
                ..old(self)@
            }),
    {
        self.confirm_button = ConfirmButton::No;
        self.screen = Screen::Confirmation;
    }

    pub fn goto_writing(&mut self, progress: WriteProgress)
        ensures
            final(self)@ == writing(old(self)@, progress@),
    {
        self.progress = Some(progress);
        self.grow = None;
        self.grow_outcome = None;
        self.screen = Screen::Writing;
    }

    pub fn goto_growing(&mut self, grow: GrowProgress)
        ensures
            final(self)@ == (AppView {
                grow: Some(grow@),
                screen: Screen::Growing,
                ..old(self)@
            }),
    {
        self.grow = Some(grow);
        self.screen = Screen::Growing;
    }

    pub fn goto_write_error(&mut self)
        ensures
            final(self)@ == (AppView { screen: Screen::WriteError, ..old(self)@ }),
    {
        self.screen = Screen::WriteError;
    }

    pub fn goto_success(&mut self)
        ensures
            final(self)@ == succeeded(old(self)@),
    {
        self.success_action = SuccessAction::default();
        self.reboot_counting = false;
        self.reboot_countdown = REBOOT_SECONDS;
        self.reboot_last_tick = self.tick_count;
        self.grow = None;
        self.screen = Screen::Success;
    }

    pub fn skip_reboot_countdown(&mut self)
        ensures
            final(self)@ == (AppView {
                exit_action: ExitAction::Reboot,
                running: false,
                ..old(self)@
            }),
    {
        self.exit_action = ExitAction::Reboot;
        self.running = false;
    }

    /// Ends the installer and powers the machine off. A process that writes is
    /// given up; the caller kills it.
    pub fn quit(&mut self)
        ensures
            final(self)@ == (AppView {
                progress: match old(self)@.progress {
                    Some(p) => Some(aborted(p)),
                    None => None,
                },
                exit_action: ExitAction::PowerOff,
                running: false,
                ..old(self)@
            }),
    {
        if let Some(p) = &mut self.progress {
            p.abort();
        }
        self.exit_action = ExitAction::PowerOff;
        self.running = false;
    }
}

/// What growing came to for one image is not shown for the next.
pub proof fn law_no_stale_outcome(a: AppView, p: WriteView)
    ensures
        writing(a, p).grow_outcome is None,
        writing(a, p).grow is None,
        sound(a) ==> sound(writing(a, p)),
{
}

/// What the user does and what the processes come to keep the installer sound.
pub proof fn law_the_installer_stays_sound(
    a: AppView,
    down: bool,
    ended: Option<bool>,
    enabled: bool,
    o: outcome::OutcomeView,
)
    requires
        sound(a),
    ensures
        sound(AppView { selected: stepped(a.selected, a.disks.len(), down), ..a }),
        sound(disk_chosen(a)),
        sound(success_chosen(a)),
        sound(write_looked(a, ended, enabled)),
        sound(succeeded(AppView { grow_outcome: Some(o), ..a })),
        sound(ticked(a)) || a.tick_count == u64::MAX,
{
}

/// A step down and a step up lead back to the same row.
pub proof fn law_steps_undo_each_other(i: usize, n: usize)
    requires
        i < n,
    ensures
        stepped(stepped(Some(i), n as nat, true), n as nat, false) == Some(i),
        stepped(stepped(Some(i), n as nat, false), n as nat, true) == Some(i),
{
}

/// `n` ticks later.
pub open spec fn ticked_times(a: AppView, n: nat) -> AppView
    decreases n,
{
    if n == 0 {
        a
    } else {
        ticked(ticked_times(a, (n - 1) as nat))
    }
}

proof fn lemma_countdown(a: AppView, n: nat)
    requires
        a.screen is Success,
        a.reboot_counting,
        a.running,
        a.reboot_countdown == REBOOT_SECONDS,
        a.reboot_last_tick == a.tick_count,
        a.tick_count + n <= u64::MAX,
        n <= 50,
    ensures
        ({
            let t = ticked_times(a, n);
            &&& t.screen is Success && t.reboot_counting
            &&& t.tick_count == a.tick_count + n
            &&& t.reboot_countdown == REBOOT_SECONDS - n / 10
            &&& t.reboot_last_tick == a.tick_count + 10 * (n / 10)
            &&& t.running == (n < 50)
            &&& n == 50 ==> t.exit_action is Reboot
        }),
    decreases n,
{
    if n > 0 {
        lemma_countdown(a, (n - 1) as nat);
    }
}

/// Once the countdown runs, the machine reboots after five seconds of ticks and
/// not before.
pub proof fn law_reboot_after_five_seconds(a: AppView, n: nat)
    requires
        a.screen is Success,
        a.reboot_counting,
        a.running,
        a.reboot_countdown == REBOOT_SECONDS,
        a.reboot_last_tick == a.tick_count,
        a.tick_count + n <= u64::MAX,
        n <= REBOOT_SECONDS * TICKS_PER_SECOND,
    ensures
        ticked_times(a, n).running == (n < REBOOT_SECONDS * TICKS_PER_SECOND),
        n == REBOOT_SECONDS * TICKS_PER_SECOND ==> ticked_times(a, n).exit_action is Reboot,
{
    lemma_countdown(a, n);
}

/// The selection moves by one and comes round at either end; without disks it
/// does not move, and without a selection the first disk is taken.
pub proof fn law_the_selection_comes_round(i: usize, n: usize)
    requires
        i < n,
    ensures
        stepped(Some(i), n as nat, true) == Some(((i + 1) % (n as int)) as usize),
        stepped(Some(i), n as nat, false) == Some(((i + n - 1) % (n as int)) as usize),
        stepped(None, n as nat, true) == Some(0usize),
        stepped(None, n as nat, false) == Some(0usize),
        stepped(None, 0, true) is None,
        stepped(None, 0, false) is None,
{
    if i + 1 < n {
        vstd::arithmetic::div_mod::lemma_small_mod((i + 1) as nat, n as nat);
    } else {
        vstd::arithmetic::div_mod::lemma_mod_self_0(n as int);
    }
    if i > 0 {
        assert((i + n - 1) % (n as int) == i - 1) by {
            vstd::arithmetic::div_mod::lemma_mod_add_multiples_vanish(i - 1, n as int);
            vstd::arithmetic::div_mod::lemma_small_mod((i - 1) as nat, n as nat);
        }
    } else {
        vstd::arithmetic::div_mod::lemma_small_mod((n - 1) as nat, n as nat);
    }
}

/// A new list of disks keeps the selection where it still names a disk, and
/// otherwise selects the first, where there is one.
pub proof fn law_refreshing_keeps_the_selection(i: usize, n: nat)
    ensures
        i < n ==> reselected(Some(i), n) == Some(i),
        i >= n > 0 ==> reselected(Some(i), n) == Some(0usize),
        reselected(Some(i), 0) is None,
        reselected(None, n) is None,
{
}

/// A disk that is selected is asked about with `No` chosen; without one the user
/// is told, and nothing else changes.
pub proof fn law_disks_are_confirmed_first(a: AppView, i: usize)
    ensures
        a.selected == Some(i) && i < a.disks.len() ==> {
            let b = disk_chosen(a);
            &&& b.screen == Screen::Confirmation && b.confirm_button == ConfirmButton::No
            &&& b.notifications == a.notifications && b.selected == a.selected && b.disks == a.disks
        },
        a.selected is None ==> {
            let b = disk_chosen(a);
            &&& b.screen == a.screen
            &&& b.notifications.len() == a.notifications.len() + 1
            &&& b.notifications.last().level == NotificationLevel::Warning
        },
{
}

proof fn lemma_aged_push(notes: Seq<NoteView>, x: NoteView, n: nat)
    requires
        n <= notes.len(),
    ensures
        aged(notes.push(x), n) == aged(notes, n),
    decreases n,
{
    if n > 0 {
        lemma_aged_push(notes, x, (n - 1) as nat);
        assert(notes.push(x)[n - 1] == notes[n - 1]);
    }
}

/// Each note loses one tick of its life and keeps what it says, and one without
/// any left is gone. Errors live for ten seconds, warnings for six and other
/// notes for four.
pub proof fn law_notes_age(notes: Seq<NoteView>, x: NoteView)
    ensures
        ({
            let before = aged(notes, notes.len());
            let after = aged(notes.push(x), notes.len() + 1);
            if x.ttl == 0 {
                after == before
            } else {
                &&& after.len() == before.len() + 1
                &&& after.drop_last() == before
                &&& after.last().ttl + 1 == x.ttl
                &&& after.last().message == x.message && after.last().level == x.level
            }
        }),
        aged(seq![], 0).len() == 0,
        lifetime(NotificationLevel::Error) == 100,
        lifetime(NotificationLevel::Warning) == 60,
        lifetime(NotificationLevel::Info) == 40,
{
    lemma_aged_push(notes, x, notes.len());
    assert(notes.push(x)[notes.len() as int] == x);
    let before = aged(notes, notes.len());
    let after = aged(notes.push(x), notes.len() + 1);
    if x.ttl > 0 {
        assert(after.drop_last() =~= before);
    }
}

/// Time alone moves nothing but notes, spinners and a countdown that is on: the
/// screen, the disks and the selection stay, and only the last screen can end
/// the installer, with a reboot.
pub proof fn law_time_changes_little(a: AppView)
    requires
        a.tick_count < u64::MAX,
    ensures
        ({
            let b = ticked(a);
            &&& b.tick_count == a.tick_count + 1
            &&& b.screen == a.screen && b.disks == a.disks && b.selected == a.selected
            &&& b.confirm_button == a.confirm_button && b.success_action == a.success_action
            &&& b.reboot_counting == a.reboot_counting && b.show_help == a.show_help
            &&& b.grow_outcome == a.grow_outcome
            &&& b.progress is Some == a.progress is Some && b.grow is Some == a.grow is Some
            &&& b.progress matches Some(q) ==> q == (WriteView {
                spinner_index: q.spinner_index,
                ..(a.progress->0)
            })
            &&& b.grow matches Some(h) ==> h == (GrowView {
                spinner_index: h.spinner_index,
                ..(a.grow->0)
            })
            &&& !(a.screen == Screen::Success && a.reboot_counting) ==> b.running == a.running
                && b.exit_action == a.exit_action && b.reboot_countdown == a.reboot_countdown
            &&& a.running && !b.running ==> b.exit_action == ExitAction::Reboot
                && b.reboot_countdown == 0
        }),
{
}

/// The countdown takes five seconds of ten ticks each.
pub proof fn law_the_countdown_takes_fifty_ticks(a: AppView)
    requires
        a.tick_count <= u64::MAX - 50,
    ensures
        ({
            let b = AppView { running: true, ..success_chosen(succeeded(a)) };
            &&& b.reboot_countdown == 5
            &&& b.reboot_counting
            &&& ticked_times(b, 49).running
            &&& ticked_times(b, 49).reboot_countdown == 1
            &&& !ticked_times(b, 50).running
            &&& ticked_times(b, 50).exit_action == ExitAction::Reboot
        }),
{
    let b = AppView { running: true, ..success_chosen(succeeded(a)) };
    lemma_countdown(b, 49);
    lemma_countdown(b, 50);
}

/// On the last screen going back shows the disks, and asking for a reboot starts
/// the countdown; asking again does not wait for it.
pub proof fn law_the_last_screen_offers_two_ways(a: AppView)
    ensures
        a.success_action == SuccessAction::Back ==> success_chosen(a).screen == Screen::DiskList
            && success_chosen(a).running == a.running && success_chosen(a).progress is None,
        a.success_action == SuccessAction::Reboot && !a.reboot_counting ==> {
            let b = success_chosen(a);
            b.reboot_counting && b.reboot_last_tick == a.tick_count && b.running == a.running
                && b.screen == a.screen
        },
        a.success_action == SuccessAction::Reboot && a.reboot_counting ==> !success_chosen(
            a,
        ).running && success_chosen(a).exit_action == ExitAction::Reboot,
{
}

/// Writing that still runs changes nothing; writing that failed is shown as an
/// error; writing that went well is followed by growing where the policy asks
/// for it, and otherwise by the last screen.
pub proof fn law_writing_leads_on(a: AppView, enabled: bool)
    ensures
        write_looked(a, None, enabled) == a && !growing_follows(a, None, enabled),
        write_looked(a, Some(false), enabled).screen == Screen::WriteError && !growing_follows(
            a,
            Some(false),
            enabled,
        ),
        growing_follows(a, Some(true), enabled) <==> enabled && (a.selected matches Some(i) && i
            < a.disks.len()),
        !growing_follows(a, Some(true), enabled) ==> write_looked(a, Some(true), enabled).screen
            == Screen::Success,
        growing_follows(a, Some(true), enabled) ==> write_looked(a, Some(true), enabled) == a,
{
}

/// Writing has gone well just where its process ended well; a process that
/// cannot be asked has not.
pub proof fn law_writing_is_judged_by_its_process(p: WriteView, poll: ChildPoll)
    requires
        p.has_child,
    ensures
        verdict(p, poll) is None <==> poll == ChildPoll::Running,
        verdict(p, poll) == Some(true) <==> poll == ChildPoll::Exited(true),
        poll == ChildPoll::Running ==> polled(p, poll) == p,
        poll != ChildPoll::Running ==> {
            let q = polled(p, poll);
            &&& q.finished
            &&& q.success <==> poll == ChildPoll::Exited(true)
            &&& q.written_bytes == p.written_bytes && q.total_bytes == p.total_bytes
            &&& q.disk_name == p.disk_name && q.disk_model == p.disk_model
        },
        aborted(p).finished && !aborted(p).success && !aborted(p).has_child,
{
}

/// Whether a line states how many bytes a process has written.
pub open spec fn states_bytes(line: Seq<char>, n: nat) -> bool {
    let w = text::words(line);
    &&& text::starts_with(line, "wchar:"@)
    &&& w.len() >= 2
    &&& text::parse_number(w[1], u64::MAX as nat) == Some(n)
}

proof fn lemma_first_wchar(ls: Seq<Seq<char>>)
    ensures
        forall|i: int, n: nat|
            0 <= i < ls.len() && #[trigger] states_bytes(ls[i], n) && (forall|j: int, m: nat|
                0 <= j < i ==> !#[trigger] states_bytes(ls[j], m)) ==> first_wchar(ls) == Some(
                n as u64,
            ),
        (forall|i: int, n: nat| 0 <= i < ls.len() ==> !#[trigger] states_bytes(ls[i], n))
            ==> first_wchar(ls) is None,
    decreases ls.len(),
{
    if ls.len() > 0 {
        let rest = ls.skip(1);
        lemma_first_wchar(rest);
        let l = ls[0];
        let v = text::parse_number(text::words(l)[1], u64::MAX as nat);
        assert(wchar_in(l) is Some ==> states_bytes(l, v->0));
        assert forall|i: int, n: nat|
            0 <= i < ls.len() && #[trigger] states_bytes(ls[i], n) && (forall|j: int, m: nat|
                0 <= j < i ==> !#[trigger] states_bytes(ls[j], m)) implies first_wchar(ls) == Some(
            n as u64,
        ) by {
            if i > 0 {
                assert(!states_bytes(ls[0], v->0));
                assert(rest[i - 1] == ls[i]);
                assert(states_bytes(rest[i - 1], n));
                assert forall|j: int, m: nat| 0 <= j < i - 1 implies !#[trigger] states_bytes(
                    rest[j],
                    m,
                ) by {
                    assert(rest[j] == ls[j + 1]);
                    assert(!states_bytes(ls[j + 1], m));
                }
            }
        }
        if forall|i: int, n: nat| 0 <= i < ls.len() ==> !#[trigger] states_bytes(ls[i], n) {
            assert(!states_bytes(ls[0], v->0));
            assert forall|j: int, m: nat| 0 <= j < rest.len() implies !#[trigger] states_bytes(
                rest[j],
                m,
            ) by {
                assert(rest[j] == ls[j + 1]);
                assert(!states_bytes(ls[j + 1], m));
            }
        }
    }
}

/// The bytes that were written are those of the first line that states them;
/// where none does the last number stays.
pub proof fn law_written_bytes_are_read(io: Seq<char>, last: u64, i: int, n: nat)
    ensures
        ({
            let ls = text::lines(io);
            &&& 0 <= i < ls.len() && states_bytes(ls[i], n) && (forall|j: int, m: nat|
                0 <= j < i ==> !#[trigger] states_bytes(ls[j], m)) ==> written_now(Some(io), last)
                == n
            &&& (forall|j: int, m: nat| 0 <= j < ls.len() ==> !#[trigger] states_bytes(ls[j], m))
                ==> written_now(Some(io), last) == last
        }),
        written_now(None, last) == last,
{
    lemma_first_wchar(text::lines(io));
}

/// Growing is judged by the result that its process left: where it left none it
/// has failed, and where its status has not changed for ten minutes it hangs.
/// Until then there is no verdict.
pub proof fn law_growing_is_judged_by_its_result(
    g: GrowView,
    poll: ChildPoll,
    result: Option<Seq<char>>,
    now: u64,
)
    ensures
        ({
            let v = verdict_of(g, poll, result, now);
            let read = outcome::outcome_read(result);
            &&& poll is Exited && read is Some ==> v == read
            &&& poll is Exited && read is None ==> (v matches Some(o) && o.status is Failed)
            &&& !(poll is Exited) && now - g.last_change >= 600_000 ==> (v matches Some(o)
                && o.status is Failed)
            &&& !(poll is Exited) && now - g.last_change < 600_000 ==> v is None
        }),
{
}

/// A status file that has changed is read, and the time of the change is kept;
/// one that has not changes nothing.
pub proof fn law_changes_are_noticed(
    g: GrowView,
    mtime: Option<(u64, u32)>,
    content: Option<Seq<char>>,
    now: u64,
)
    ensures
        ({
            let h = looked(g, mtime, content, now);
            &&& mtime is None || mtime == g.last_mtime ==> h == g
            &&& mtime is Some && mtime != g.last_mtime ==> {
                &&& h.last_change == now && h.last_mtime == mtime
                &&& outcome::status_read(content) matches Some(t) ==> h.phase_text == t
                &&& outcome::status_read(content) is None ==> h.phase_text == g.phase_text
                &&& h.disk_name == g.disk_name && h.started == g.started && h.spinner_index
                    == g.spinner_index
            }
        }),
{
}

/// The installer opens on the list of disks with the first one selected.
pub proof fn law_the_installer_opens_on_the_disks(disks: Seq<disk::DiskView>)
    ensures
        ({
            let a = opened(disks);
            &&& a.running && a.screen == Screen::DiskList && a.disks == disks
            &&& disks.len() > 0 ==> a.selected == Some(0usize)
            &&& disks.len() == 0 ==> a.selected is None
            &&& a.progress is None && a.grow is None && a.grow_outcome is None
            &&& a.exit_action == ExitAction::Nothing && !a.reboot_counting && !a.show_help
            &&& a.notifications.len() == 0 && a.confirm_button == ConfirmButton::No
        }),
{
}

/// A message is shown behind the others, at its level, for its full life.
pub proof fn law_messages_are_shown(a: AppView, message: Seq<char>, level: NotificationLevel)
    ensures
        ({
            let b = noted(a, message, level);
            &&& b.notifications.drop_last() == a.notifications
            &&& b.notifications.last().message == message
            &&& b.notifications.last().level == level
            &&& b.notifications.last().ttl == lifetime(level)
            &&& b.screen == a.screen && b.selected == a.selected && b.running == a.running
        }),
{
    assert(noted(a, message, level).notifications.drop_last() =~= a.notifications);
}

/// Time that has passed is never below zero.
pub proof fn law_time_goes_forward(then: u64, now: u64)
    ensures
        now >= then ==> since(then, now) == now - then,
        now < then ==> since(then, now) == 0,
{
}

} // verus!
