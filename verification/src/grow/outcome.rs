//! How a run is reported: the status file while it lasts, the result file when
//! it has ended.
use super::run::Phase;
use crate::text;
use crate::text::{
    chars_of, find_from, has_prefix, is_text, parse_up_to, part, split_lines,
    string_of, trimmed,
};
use vstd::prelude::*;
use vstd::string::*;

verus! {

pub const STATUS_FILE: &'static str = "/run/grow.status";

pub const RESULT_FILE: &'static str = "/run/grow.result";

pub const LOG_FILE: &'static str = "/run/grow.log";

/// A run whose status file has not changed for so many seconds hangs.
pub const HANG_TIMEOUT_SECS: u64 = 600;

#[derive(Debug, Clone, Copy, PartialEq, Eq, Structural)]
pub enum Status {
    Disabled,
    Expanded,
    Skipped,
    Partial,
    Failed,
}

impl Default for Status {
    fn default() -> (r: Self)
        ensures
            r == Status::Failed,
    {
        Status::Failed
    }
}

/// What a run has come to.
#[derive(Debug, Clone)]
pub struct GrowOutcome {
    pub status: Status,
    pub device: String,
    pub reason: String,
    pub manual_cmd: String,
    pub old_bytes: u64,
    pub new_bytes: u64,
}

#[verifier::ext_equal]
pub struct OutcomeView {
    pub status: Status,
    pub device: Seq<char>,
    pub reason: Seq<char>,
    pub manual_cmd: Seq<char>,
    pub old_bytes: u64,
    pub new_bytes: u64,
}

impl View for GrowOutcome {
    type V = OutcomeView;

    open spec fn view(&self) -> OutcomeView {
        OutcomeView {
            status: self.status,
            device: self.device@,
            reason: self.reason@,
            manual_cmd: self.manual_cmd@,
            old_bytes: self.old_bytes,
            new_bytes: self.new_bytes,
        }
    }
}

impl Default for GrowOutcome {
    fn default() -> (r: Self)
        ensures
            r@ == no_outcome(),
    {
        GrowOutcome {
            status: Status::Failed,
            device: String::new(),
            reason: String::new(),
            manual_cmd: String::new(),
            old_bytes: 0,
            new_bytes: 0,
        }
    }
}

pub open spec fn no_outcome() -> OutcomeView {
    OutcomeView {
        status: Status::Failed,
        device: seq![],
        reason: seq![],
        manual_cmd: seq![],
        old_bytes: 0,
        new_bytes: 0,
    }
}

/// What a run has come to that failed for the given reason.
pub open spec fn failure(reason: Seq<char>) -> OutcomeView {
    OutcomeView { reason, ..no_outcome() }
}

impl GrowOutcome {
    /// What a run has come to that failed for the given reason.
    pub fn failed(reason: &str) -> (r: GrowOutcome)
        ensures
            r@ == failure(reason@),
    {
        let mut r = GrowOutcome::default();
        r.reason = reason.to_owned();
        r
    }
}

pub open spec fn status_word(s: Status) -> Seq<char> {
    match s {
        Status::Disabled => "disabled"@,
        Status::Expanded => "expanded"@,
        Status::Skipped => "skipped"@,
        Status::Partial => "partial"@,
        Status::Failed => "failed"@,
    }
}

impl Status {
    pub fn as_str(self) -> (r: &'static str)
        ensures
            r@ == status_word(self),
    {
        match self {
            Status::Disabled => "disabled",
            Status::Expanded => "expanded",
            Status::Skipped => "skipped",
            Status::Partial => "partial",
            Status::Failed => "failed",
        }
    }
}

/// The status that a word stands for. An unknown word counts as a failure.
pub open spec fn status_of(w: Seq<char>) -> Status {
    if w == "disabled"@ {
        Status::Disabled
    } else if w == "expanded"@ {
        Status::Expanded
    } else if w == "skipped"@ {
        Status::Skipped
    } else if w == "partial"@ {
        Status::Partial
    } else {
        Status::Failed
    }
}

fn read_status(w: &Vec<char>) -> (r: Status)
    ensures
        r == status_of(w@),
{
    if is_text(w, "disabled") {
        Status::Disabled
    } else if is_text(w, "expanded") {
        Status::Expanded
    } else if is_text(w, "skipped") {
        Status::Skipped
    } else if is_text(w, "partial") {
        Status::Partial
    } else {
        Status::Failed
    }
}

/// A line of the result file.
pub open spec fn field_line(key: Seq<char>, value: Seq<char>) -> Seq<char> {
    key + "="@ + value + "\n"@
}

/// A line of the result file, unless there is nothing to say.
pub open spec fn text_field(key: Seq<char>, value: Seq<char>) -> Seq<char> {
    if value.len() == 0 {
        seq![]
    } else {
        field_line(key, value)
    }
}

/// A line of the result file, unless the number is zero.
pub open spec fn number_field(key: Seq<char>, n: u64) -> Seq<char> {
    if n == 0 {
        seq![]
    } else {
        field_line(key, text::decimal(n as nat))
    }
}

/// What the result file holds.
pub open spec fn result_text(o: OutcomeView) -> Seq<char> {
    field_line("status"@, status_word(o.status)) + (field_line("device"@, o.device) + (text_field(
        "reason"@,
        o.reason,
    ) + (text_field("manual_cmd"@, o.manual_cmd) + (number_field("old_bytes"@, o.old_bytes)
        + number_field("new_bytes"@, o.new_bytes)))))
}

fn push_field(s: &mut String, key: &str, value: &str)
    ensures
        final(s)@ == old(s)@ + field_line(key@, value@),
{
    s.append(key);
    s.append("=");
    s.append(value);
    s.append("\n");
    assert(s@ =~= old(s)@ + field_line(key@, value@));
}

fn push_text_field(s: &mut String, key: &str, value: &str)
    ensures
        final(s)@ == old(s)@ + text_field(key@, value@),
{
    if chars_of(value).len() > 0 {
        push_field(s, key, value);
    } else {
        assert(s@ =~= old(s)@ + text_field(key@, value@));
    }
}

fn push_number_field(s: &mut String, key: &str, n: u64)
    ensures
        final(s)@ == old(s)@ + number_field(key@, n),
{
    if n > 0 {
        push_field(s, key, text::decimal_of(n).as_str());
    } else {
        assert(s@ =~= old(s)@ + number_field(key@, n));
    }
}

/// Writes down what a run has come to.
pub fn render_result(o: &GrowOutcome) -> (r: String)
    ensures
        r@ == result_text(o@),
{
    let mut s = String::new();
    push_field(&mut s, "status", o.status.as_str());
    push_field(&mut s, "device", o.device.as_str());
    push_text_field(&mut s, "reason", o.reason.as_str());
    push_text_field(&mut s, "manual_cmd", o.manual_cmd.as_str());
    push_number_field(&mut s, "old_bytes", o.old_bytes);
    push_number_field(&mut s, "new_bytes", o.new_bytes);
    assert(s@ =~= result_text(o@));
    s
}

/// The key and the value of a line.
pub open spec fn field_of(line: Seq<char>) -> Option<(Seq<char>, Seq<char>)> {
    match text::split_once(line, '=') {
        Some((k, v)) => Some((text::trim(k), text::trim(v))),
        None => None,
    }
}

/// The value that the last line with `key` gives it.
pub open spec fn value_of(ls: Seq<Seq<char>>, key: Seq<char>) -> Option<Seq<char>>
    decreases ls.len(),
{
    if ls.len() == 0 {
        None
    } else {
        match field_of(ls.last()) {
            Some((k, v)) if k == key => Some(v),
            _ => value_of(ls.drop_last(), key),
        }
    }
}

pub open spec fn text_value(v: Option<Seq<char>>) -> Seq<char> {
    match v {
        Some(t) => t,
        None => seq![],
    }
}

pub open spec fn number_value(v: Option<Seq<char>>) -> u64 {
    match v {
        Some(t) => match text::parse_number(t, u64::MAX as nat) {
            Some(n) => n as u64,
            None => 0,
        },
        None => 0,
    }
}

/// What the lines of a result file say, whether or not there is a status.
pub open spec fn fields_read(ls: Seq<Seq<char>>) -> OutcomeView {
    OutcomeView {
        status: match value_of(ls, "status"@) {
            Some(w) => status_of(w),
            None => Status::Failed,
        },
        device: text_value(value_of(ls, "device"@)),
        reason: text_value(value_of(ls, "reason"@)),
        manual_cmd: text_value(value_of(ls, "manual_cmd"@)),
        old_bytes: number_value(value_of(ls, "old_bytes"@)),
        new_bytes: number_value(value_of(ls, "new_bytes"@)),
    }
}

/// What a result file says, where it could be read and has a status.
pub open spec fn outcome_read(content: Option<Seq<char>>) -> Option<OutcomeView> {
    match content {
        Some(c) => if value_of(text::lines(c), "status"@) is Some {
            Some(fields_read(text::lines(c)))
        } else {
            None
        },
        None => None,
    }
}

pub open spec fn outcome_view(o: Option<GrowOutcome>) -> Option<OutcomeView> {
    match o {
        Some(o) => Some(o@),
        None => None,
    }
}

fn field(line: &Vec<char>) -> (r: Option<(Vec<char>, Vec<char>)>)
    ensures
        match r {
            Some((k, v)) => field_of(line@) == Some((k@, v@)),
            None => field_of(line@) is None,
        },
{
    let n: usize = find_from(line, 0, '=');
    assert(line@.skip(0) =~= line@);
    if n == line.len() {
        return None;
    }
    let k = part(line, 0, n);
    let v = part(line, n + 1, line.len());
    assert(k@ =~= line@.take(n as int));
    assert(v@ =~= line@.skip(n + 1));
    Some((trimmed(&k), trimmed(&v)))
}

fn number(v: &Vec<char>) -> (r: u64)
    ensures
        r == number_value(Some(v@)),
{
    match parse_up_to(v, u64::MAX) {
        Some(n) => n,
        None => 0,
    }
}

proof fn lemma_keys()
    ensures
        "status"@ != "device"@,
        "status"@ != "reason"@,
        "status"@ != "manual_cmd"@,
        "status"@ != "old_bytes"@,
        "status"@ != "new_bytes"@,
        "device"@ != "reason"@,
        "device"@ != "manual_cmd"@,
        "device"@ != "old_bytes"@,
        "device"@ != "new_bytes"@,
        "reason"@ != "manual_cmd"@,
        "reason"@ != "old_bytes"@,
        "reason"@ != "new_bytes"@,
        "manual_cmd"@ != "old_bytes"@,
        "manual_cmd"@ != "new_bytes"@,
        "old_bytes"@ != "new_bytes"@,
{
    reveal_strlit("status");
    reveal_strlit("device");
    reveal_strlit("reason");
    reveal_strlit("manual_cmd");
    reveal_strlit("old_bytes");
    reveal_strlit("new_bytes");
    assert("status"@[0] == 's' && "device"@[0] == 'd' && "reason"@[0] == 'r' && "manual_cmd"@[0]
        == 'm' && "old_bytes"@[0] == 'o' && "new_bytes"@[0] == 'n');
}

/// Reads a result file, where it could be read.
pub fn read_result(content: Option<&str>) -> (r: Option<GrowOutcome>)
    ensures
        outcome_view(r) == outcome_read(super::policy::str_text(content)),
{
    let Some(content) = content else {
        return None;
    };
    let ls = split_lines(&chars_of(content));
    let ghost all = text::texts(ls@);
    let mut out = GrowOutcome::default();
    let mut has_status = false;
    let mut i: usize = 0;
    proof {
        lemma_keys();
        assert(out@ =~= fields_read(all.take(0)));
    }
    while i < ls.len()
        invariant
            i <= ls@.len(),
            all == text::texts(ls@),
            out@ == fields_read(all.take(i as int)),
            has_status == value_of(all.take(i as int), "status"@) is Some,
        decreases ls@.len() - i,
    {
        let ghost now = all.take(i + 1);
        proof {
            assert(now.drop_last() =~= all.take(i as int));
            assert(now.last() == ls@[i as int]@);
            lemma_keys();
        }
        if let Some((k, v)) = field(&ls[i]) {
            if is_text(&k, "status") {
                out.status = read_status(&v);
                has_status = true;
            } else if is_text(&k, "device") {
                out.device = string_of(&v);
            } else if is_text(&k, "reason") {
                out.reason = string_of(&v);
            } else if is_text(&k, "manual_cmd") {
                out.manual_cmd = string_of(&v);
            } else if is_text(&k, "old_bytes") {
                out.old_bytes = number(&v);
            } else if is_text(&k, "new_bytes") {
                out.new_bytes = number(&v);
            }
        }
        assert(out@ =~= fields_read(now));
        i = i + 1;
    }
    assert(all.take(all.len() as int) =~= all);
    if has_status {
        Some(out)
    } else {
        None
    }
}

pub open spec fn phase_word(p: Phase) -> Seq<char> {
    match p {
        Phase::Analyze => "analyze"@,
        Phase::Partition => "partition"@,
        Phase::KernelReread => "kernel-reread"@,
        Phase::Filesystem => "filesystem"@,
        Phase::Done => "done"@,
    }
}

fn phase_str(p: Phase) -> (r: &'static str)
    ensures
        r@ == phase_word(p),
{
    match p {
        Phase::Analyze => "analyze",
        Phase::Partition => "partition",
        Phase::KernelReread => "kernel-reread",
        Phase::Filesystem => "filesystem",
        Phase::Done => "done",
    }
}

/// What the status file holds in a phase.
pub open spec fn status_text(p: Phase) -> Seq<char> {
    "phase="@ + phase_word(p) + "\n"@
}

/// Writes down the phase of a run.
pub fn render_phase(p: Phase) -> (r: String)
    ensures
        r@ == status_text(p),
{
    let mut s = "phase=".to_owned();
    s.append(phase_str(p));
    s.append("\n");
    s
}

/// What the user is shown for the word of a phase.
pub open spec fn title_of(w: Seq<char>) -> Seq<char> {
    if w == "analyze"@ {
        "Analyzing disk layout"@
    } else if w == "partition"@ {
        "Resizing partition table"@
    } else if w == "kernel-reread"@ {
        "Syncing kernel partition table"@
    } else if w == "filesystem"@ {
        "Expanding filesystem"@
    } else if w == "done"@ {
        "Finishing"@
    } else {
        "Working"@
    }
}

/// What the user is shown for a status file, where it could be read.
pub open spec fn status_read(content: Option<Seq<char>>) -> Option<Seq<char>> {
    match content {
        Some(c) => if text::lines(c).len() == 0 {
            None
        } else {
            match text::strip_prefix(text::lines(c)[0], "phase="@) {
                Some(w) => Some(title_of(text::trim(w))),
                None => None,
            }
        },
        None => None,
    }
}

/// Reads a status file, where it could be read.
pub fn read_status_line(content: Option<&str>) -> (r: Option<String>)
    ensures
        text::opt_text(r) == status_read(super::policy::str_text(content)),
{
    let Some(content) = content else {
        return None;
    };
    let ls = split_lines(&chars_of(content));
    if ls.len() == 0 {
        return None;
    }
    let first = &ls[0];
    assert(text::texts(ls@)[0] == first@);
    if !has_prefix(first, "phase=") {
        return None;
    }
    proof {
        reveal_strlit("phase=");
    }
    let rest = part(first, 6, first.len());
    assert(rest@ =~= first@.skip("phase="@.len() as int));
    let w = trimmed(&rest);
    let title = if is_text(&w, "analyze") {
        "Analyzing disk layout"
    } else if is_text(&w, "partition") {
        "Resizing partition table"
    } else if is_text(&w, "kernel-reread") {
        "Syncing kernel partition table"
    } else if is_text(&w, "filesystem") {
        "Expanding filesystem"
    } else if is_text(&w, "done") {
        "Finishing"
    } else {
        "Working"
    };
    Some(title.to_owned())
}

proof fn lemma_value_of_add(a: Seq<Seq<char>>, b: Seq<Seq<char>>, key: Seq<char>)
    ensures
        value_of(a + b, key) == (match value_of(b, key) {
            Some(v) => Some(v),
            None => value_of(a, key),
        }),
    decreases b.len(),
{
    if b.len() == 0 {
        assert(a + b =~= a);
    } else {
        assert((a + b).drop_last() =~= a + b.drop_last());
        assert((a + b).last() == b.last());
        lemma_value_of_add(a, b.drop_last(), key);
    }
}

spec fn is_key(k: Seq<char>) -> bool {
    text::is_plain(k) && !k.contains('=') && k.len() > 0
}

/// The line that a field gives, if it gives one.
spec fn one_line(present: bool, key: Seq<char>, value: Seq<char>) -> Seq<Seq<char>> {
    if present {
        seq![key + "="@ + value]
    } else {
        seq![]
    }
}

proof fn lemma_one_line(present: bool, key: Seq<char>, value: Seq<char>, k: Seq<char>)
    requires
        is_key(key),
        text::is_plain(value),
    ensures
        value_of(one_line(present, key, value), k) == if present && k == key {
            Some(value)
        } else {
            None
        },
{
    reveal_strlit("=");
    reveal_with_fuel(value_of, 2);
    let ls = one_line(present, key, value);
    if present {
        assert("="@ =~= seq!['=']);
        text::lemma_split_once(key, '=', value);
        text::lemma_trim_plain(key);
        text::lemma_trim_plain(value);
        assert(field_of(ls.last()) == Some((key, value)));
        assert(ls.drop_last() =~= Seq::<Seq<char>>::empty());
    }
}

proof fn lemma_field_lines(
    present: bool,
    key: Seq<char>,
    value: Seq<char>,
    rest: Seq<char>,
)
    requires
        is_key(key),
        text::is_plain(value),
    ensures
        text::lines(
            (if present {
                field_line(key, value)
            } else {
                seq![]
            }) + rest,
        ) == one_line(present, key, value) + text::lines(rest),
{
    reveal_strlit("=");
    reveal_strlit("\n");
    if present {
        let a = key + "="@ + value;
        assert("\n"@ =~= seq!['\n']);
        assert forall|i: int| 0 <= i < a.len() implies a[i] != '\n' by {
            if i < key.len() {
                assert(key.contains(key[i]));
            } else if i > key.len() {
                assert(value.contains(value[i - key.len() - 1]));
            }
        }
        assert(value.len() > 0 ==> a.last() == value.last());
        assert(value.len() == 0 ==> a.last() == '=');
        text::lemma_lines_cons(a, rest);
        assert(field_line(key, value) + rest =~= a + seq!['\n'] + rest);
    } else {
        assert(Seq::<char>::empty() + rest =~= rest);
        assert(Seq::<Seq<char>>::empty() + text::lines(rest) =~= text::lines(rest));
    }
}

proof fn lemma_words_are_plain(st: Status)
    ensures
        is_key("status"@),
        is_key("device"@),
        is_key("reason"@),
        is_key("manual_cmd"@),
        is_key("old_bytes"@),
        is_key("new_bytes"@),
        text::is_plain(status_word(st)),
        status_of(status_word(st)) == st,
{
    reveal_strlit("status");
    reveal_strlit("device");
    reveal_strlit("reason");
    reveal_strlit("manual_cmd");
    reveal_strlit("old_bytes");
    reveal_strlit("new_bytes");
    reveal_strlit("disabled");
    reveal_strlit("expanded");
    reveal_strlit("skipped");
    reveal_strlit("partial");
    reveal_strlit("failed");
    assert("disabled"@[0] == 'd' && "expanded"@[0] == 'e' && "skipped"@[0] == 's' && "partial"@[0]
        == 'p' && "failed"@[0] == 'f');
}

/// What a result file says is what was written to it, where the texts stand on
/// a line of their own.
#[verifier::rlimit(30)]
pub proof fn law_result_reads_back(o: OutcomeView)
    requires
        text::is_plain(o.device),
        text::is_plain(o.reason),
        text::is_plain(o.manual_cmd),
    ensures
        outcome_read(Some(result_text(o))) == Some(o),
{
    lemma_words_are_plain(o.status);
    lemma_keys();
    let word = status_word(o.status);
    let old_text = text::decimal(o.old_bytes as nat);
    let new_text = text::decimal(o.new_bytes as nat);
    text::lemma_decimal_plain(o.old_bytes as nat);
    text::lemma_decimal_plain(o.new_bytes as nat);
    text::law_decimal_parses(o.old_bytes as nat, u64::MAX as nat);
    text::law_decimal_parses(o.new_bytes as nat, u64::MAX as nat);
    let none = Seq::<char>::empty();
    let t6 = number_field("new_bytes"@, o.new_bytes);
    let t5 = number_field("old_bytes"@, o.old_bytes) + t6;
    let t4 = text_field("manual_cmd"@, o.manual_cmd) + t5;
    let t3 = text_field("reason"@, o.reason) + t4;
    let t2 = field_line("device"@, o.device) + t3;
    lemma_field_lines(true, "status"@, word, t2);
    lemma_field_lines(true, "device"@, o.device, t3);
    lemma_field_lines(o.reason.len() > 0, "reason"@, o.reason, t4);
    lemma_field_lines(o.manual_cmd.len() > 0, "manual_cmd"@, o.manual_cmd, t5);
    lemma_field_lines(o.old_bytes > 0, "old_bytes"@, old_text, t6);
    lemma_field_lines(o.new_bytes > 0, "new_bytes"@, new_text, none);
    assert(t6 + none =~= t6);
    let l6 = one_line(o.new_bytes > 0, "new_bytes"@, new_text);
    let l5 = one_line(o.old_bytes > 0, "old_bytes"@, old_text) + l6;
    let l4 = one_line(o.manual_cmd.len() > 0, "manual_cmd"@, o.manual_cmd) + l5;
    let l3 = one_line(o.reason.len() > 0, "reason"@, o.reason) + l4;
    let l2 = one_line(true, "device"@, o.device) + l3;
    let l1 = one_line(true, "status"@, word) + l2;
    assert(l6 + text::lines(none) =~= l6);
    assert(text::lines(result_text(o)) == l1);
    assert forall|k: Seq<char>| #[trigger] value_of(l1, k) == expected_value(o, k) by {
        lemma_one_line(true, "status"@, word, k);
        lemma_one_line(true, "device"@, o.device, k);
        lemma_one_line(o.reason.len() > 0, "reason"@, o.reason, k);
        lemma_one_line(o.manual_cmd.len() > 0, "manual_cmd"@, o.manual_cmd, k);
        lemma_one_line(o.old_bytes > 0, "old_bytes"@, old_text, k);
        lemma_one_line(o.new_bytes > 0, "new_bytes"@, new_text, k);
        lemma_value_of_add(one_line(true, "status"@, word), l2, k);
        lemma_value_of_add(one_line(true, "device"@, o.device), l3, k);
        lemma_value_of_add(one_line(o.reason.len() > 0, "reason"@, o.reason), l4, k);
        lemma_value_of_add(
            one_line(o.manual_cmd.len() > 0, "manual_cmd"@, o.manual_cmd),
            l5,
            k,
        );
        lemma_value_of_add(one_line(o.old_bytes > 0, "old_bytes"@, old_text), l6, k);
    }
    assert(fields_read(l1) =~= o);
}

spec fn expected_value(o: OutcomeView, k: Seq<char>) -> Option<Seq<char>> {
    if k == "status"@ {
        Some(status_word(o.status))
    } else if k == "device"@ {
        Some(o.device)
    } else if k == "reason"@ && o.reason.len() > 0 {
        Some(o.reason)
    } else if k == "manual_cmd"@ && o.manual_cmd.len() > 0 {
        Some(o.manual_cmd)
    } else if k == "old_bytes"@ && o.old_bytes > 0 {
        Some(text::decimal(o.old_bytes as nat))
    } else if k == "new_bytes"@ && o.new_bytes > 0 {
        Some(text::decimal(o.new_bytes as nat))
    } else {
        None
    }
}

/// The user is shown the phase that was written to the status file.
pub proof fn law_phase_reads_back(p: Phase)
    ensures
        status_read(Some(status_text(p))) == Some(title_of(phase_word(p))),
        title_of(phase_word(p)) != "Working"@,
{
    reveal_strlit("phase=");
    reveal_strlit("\n");
    reveal_strlit("analyze");
    reveal_strlit("partition");
    reveal_strlit("kernel-reread");
    reveal_strlit("filesystem");
    reveal_strlit("done");
    reveal_strlit("Working");
    reveal_strlit("Analyzing disk layout");
    reveal_strlit("Resizing partition table");
    reveal_strlit("Syncing kernel partition table");
    reveal_strlit("Expanding filesystem");
    reveal_strlit("Finishing");
    let w = phase_word(p);
    let a = "phase="@ + w;
    assert(text::is_plain(w));
    assert("\n"@ =~= seq!['\n']);
    assert(!a.contains('\n')) by {
        assert forall|i: int| 0 <= i < a.len() implies a[i] != '\n' by {
            if i >= 6 {
                assert(w.contains(w[i - 6]));
            }
        }
    }
    assert(a.last() == w.last());
    text::lemma_lines_cons(a, seq![]);
    assert(status_text(p) =~= a + seq!['\n'] + Seq::<char>::empty());
    assert(text::lines(status_text(p))[0] == a);
    assert(a.take(6) =~= "phase="@);
    assert(a.skip(6) =~= w);
    text::lemma_trim_plain(w);
    let t = title_of(w);
    assert(t[0] != 'W');
}

/// Each line `key=value` of a result sets the field of its key and no other; a
/// word that is no status means that the run has failed, and a result without a
/// status says nothing.
pub proof fn law_results_are_read_by_key(
    ls: Seq<Seq<char>>,
    line: Seq<char>,
    key: Seq<char>,
    value: Seq<char>,
)
    requires
        field_of(line) == Some((key, value)),
    ensures
        ({
            let a = fields_read(ls);
            let b = fields_read(ls.push(line));
            &&& key == "status"@ ==> b == (OutcomeView { status: status_of(value), ..a })
            &&& key == "device"@ ==> b == (OutcomeView { device: value, ..a })
            &&& key == "reason"@ ==> b == (OutcomeView { reason: value, ..a })
            &&& key == "manual_cmd"@ ==> b == (OutcomeView { manual_cmd: value, ..a })
            &&& key == "old_bytes"@ ==> {
                &&& b == (OutcomeView { old_bytes: b.old_bytes, ..a })
                &&& match text::parse_number(value, u64::MAX as nat) {
                    Some(n) => b.old_bytes == n,
                    None => b.old_bytes == 0,
                }
            }
            &&& key == "new_bytes"@ ==> {
                &&& b == (OutcomeView { new_bytes: b.new_bytes, ..a })
                &&& match text::parse_number(value, u64::MAX as nat) {
                    Some(n) => b.new_bytes == n,
                    None => b.new_bytes == 0,
                }
            }
        }),
        fields_read(seq![]).status == Status::Failed,
        value != "disabled"@ && value != "expanded"@ && value != "skipped"@ && value != "partial"@
            ==> status_of(value) == Status::Failed,
        outcome_read(None) is None,
{
    lemma_keys();
    assert(ls.push(line).drop_last() =~= ls);
}

/// The words that stand for a status and for a phase, and what the user is shown
/// of a phase.
pub proof fn law_words_of_a_report()
    ensures
        status_word(Status::Disabled) == "disabled"@,
        status_word(Status::Expanded) == "expanded"@,
        status_word(Status::Skipped) == "skipped"@,
        status_word(Status::Partial) == "partial"@,
        status_word(Status::Failed) == "failed"@,
        status_read(Some(status_text(Phase::Analyze))) == Some("Analyzing disk layout"@),
        status_read(Some(status_text(Phase::Partition))) == Some("Resizing partition table"@),
        status_read(Some(status_text(Phase::KernelReread))) == Some(
            "Syncing kernel partition table"@,
        ),
        status_read(Some(status_text(Phase::Filesystem))) == Some("Expanding filesystem"@),
        status_read(Some(status_text(Phase::Done))) == Some("Finishing"@),
{
    law_phase_reads_back(Phase::Analyze);
    law_phase_reads_back(Phase::Partition);
    law_phase_reads_back(Phase::KernelReread);
    law_phase_reads_back(Phase::Filesystem);
    law_phase_reads_back(Phase::Done);
    reveal_strlit("analyze");
    reveal_strlit("partition");
    reveal_strlit("kernel-reread");
    reveal_strlit("filesystem");
    reveal_strlit("done");
    assert("analyze"@[0] == 'a' && "partition"@[0] == 'p' && "kernel-reread"@[0] == 'k');
    assert("filesystem"@[0] == 'f' && "done"@[0] == 'd');
}

} // verus!
