//! What `grow.conf` on the installation medium asks for.
use crate::text;
use crate::text::{
    chars_of, find_from, is_text, parse_up_to, part, split_lines, split_words, string_of, trimmed,
};
use vstd::prelude::*;

verus! {

/// Where the policy stands on the installation medium.
pub const GROW_CONF: &'static str = "/media/cdrom/grow/grow.conf";

/// Which partition the policy wants to grow.
#[derive(Debug, Clone, Copy, PartialEq, Eq, Structural)]
pub enum PartSpec {
    Auto,
    Number(u32),
}

#[derive(Debug, Clone)]
pub struct GrowPolicy {
    pub enabled: bool,
    pub part: PartSpec,
    /// The logical volume that gets the space where a volume group has several.
    pub lv: Option<String>,
}

/// What a policy says.
pub struct PolicyView {
    pub enabled: bool,
    pub part: PartSpec,
    pub lv: Option<Seq<char>>,
}

impl View for GrowPolicy {
    type V = PolicyView;

    open spec fn view(&self) -> PolicyView {
        PolicyView { enabled: self.enabled, part: self.part, lv: text::opt_text(self.lv) }
    }
}

pub open spec fn default_policy() -> PolicyView {
    PolicyView { enabled: false, part: PartSpec::Auto, lv: None }
}

impl Default for GrowPolicy {
    fn default() -> (r: Self)
        ensures
            r@ == default_policy(),
    {
        GrowPolicy { enabled: false, part: PartSpec::Auto, lv: None }
    }
}

/// The key and the value of a line, unless it is empty, a comment or no pair.
pub open spec fn pair_of(line: Seq<char>) -> Option<(Seq<char>, Seq<char>)> {
    let t = text::trim(line);
    if t.len() == 0 || t[0] == '#' {
        None
    } else {
        match text::split_once(t, '=') {
            Some((k, v)) => Some((text::trim(k), text::trim(v))),
            None => None,
        }
    }
}

/// The value that the last line with `key` gives it.
pub open spec fn setting(ls: Seq<Seq<char>>, key: Seq<char>) -> Option<Seq<char>>
    decreases ls.len(),
{
    if ls.len() == 0 {
        None
    } else {
        match pair_of(ls.last()) {
            Some((k, v)) => if k == key {
                Some(v)
            } else {
                setting(ls.drop_last(), key)
            },
            None => setting(ls.drop_last(), key),
        }
    }
}

/// `part=` names a partition by its number; every other value means `auto`.
pub open spec fn part_setting(v: Option<Seq<char>>) -> PartSpec {
    match v {
        Some(t) => match text::parse_number(t, u32::MAX as nat) {
            Some(n) => PartSpec::Number(n as u32),
            None => PartSpec::Auto,
        },
        None => PartSpec::Auto,
    }
}

/// `lv=` names a logical volume, unless its value is empty or `auto`.
pub open spec fn lv_setting(v: Option<Seq<char>>) -> Option<Seq<char>> {
    match v {
        Some(t) => if t.len() == 0 || t == "auto"@ {
            None
        } else {
            Some(t)
        },
        None => None,
    }
}

/// What the lines of a policy file say.
pub open spec fn policy_of(ls: Seq<Seq<char>>) -> PolicyView {
    PolicyView {
        enabled: setting(ls, "enabled"@) == Some("1"@),
        part: part_setting(setting(ls, "part"@)),
        lv: lv_setting(setting(ls, "lv"@)),
    }
}

/// Whether the kernel command line switches growing off.
pub open spec fn grow_off(cmdline: Option<Seq<char>>) -> bool {
    match cmdline {
        Some(c) => text::words(c).contains("grow=off"@),
        None => false,
    }
}

/// The policy that a policy file and the kernel command line give. A file that
/// cannot be read gives the default, which grows nothing.
pub open spec fn effective_policy(
    content: Option<Seq<char>>,
    cmdline: Option<Seq<char>>,
) -> PolicyView {
    match content {
        Some(c) => {
            let p = policy_of(text::lines(c));
            PolicyView { enabled: p.enabled && !grow_off(cmdline), ..p }
        },
        None => default_policy(),
    }
}

pub open spec fn str_text(s: Option<&str>) -> Option<Seq<char>> {
    match s {
        Some(t) => Some(t@),
        None => None,
    }
}

fn pair(line: &Vec<char>) -> (r: Option<(Vec<char>, Vec<char>)>)
    ensures
        match r {
            Some((k, v)) => pair_of(line@) == Some((k@, v@)),
            None => pair_of(line@) is None,
        },
{
    let t = trimmed(line);
    if t.len() == 0 || t[0] == '#' {
        return None;
    }
    let n: usize = find_from(&t, 0, '=');
    assert(t@.skip(0) =~= t@);
    if n == t.len() {
        return None;
    }
    let k = part(&t, 0, n);
    let v = part(&t, n + 1, t.len());
    assert(k@ =~= t@.take(n as int));
    assert(v@ =~= t@.skip(n + 1));
    Some((trimmed(&k), trimmed(&v)))
}

proof fn lemma_keys_differ()
    ensures
        "enabled"@ != "part"@,
        "enabled"@ != "lv"@,
        "part"@ != "lv"@,
        text::parse_number("auto"@, u32::MAX as nat) is None,
{
    reveal_strlit("enabled");
    reveal_strlit("part");
    reveal_strlit("lv");
    reveal_strlit("auto");
    assert("enabled"@.len() == 7);
    assert("part"@.len() == 4);
    assert("lv"@.len() == 2);
    assert(!text::is_digit("auto"@[0]));
}

/// The policy of a file with the given content, where it could be read, under
/// the given kernel command line, where that could be read.
pub fn load_policy_from(content: Option<&str>, cmdline: Option<&str>) -> (r: GrowPolicy)
    ensures
        r@ == effective_policy(str_text(content), str_text(cmdline)),
{
    let mut policy = GrowPolicy::default();
    let Some(content) = content else {
        return policy;
    };
    let ls = split_lines(&chars_of(content));
    let ghost all = text::texts(ls@);
    proof {
        lemma_keys_differ();
    }
    assert(policy@ == policy_of(all.take(0)));
    let mut i: usize = 0;
    while i < ls.len()
        invariant
            i <= ls@.len(),
            all == text::texts(ls@),
            policy@ == policy_of(all.take(i as int)),
            "enabled"@ != "part"@,
            "enabled"@ != "lv"@,
            "part"@ != "lv"@,
            text::parse_number("auto"@, u32::MAX as nat) is None,
        decreases ls@.len() - i,
    {
        let ghost now = all.take(i + 1);
        proof {
            assert(now.drop_last() =~= all.take(i as int));
            assert(now.last() == ls@[i as int]@);
        }
        if let Some((k, v)) = pair(&ls[i]) {
            if is_text(&k, "enabled") {
                policy.enabled = is_text(&v, "1");
            } else if is_text(&k, "part") {
                policy.part = match parse_up_to(&v, u32::MAX as u64) {
                    Some(n) => PartSpec::Number(n as u32),
                    None => PartSpec::Auto,
                };
            } else if is_text(&k, "lv") {
                policy.lv = if v.len() == 0 || is_text(&v, "auto") {
                    None
                } else {
                    Some(string_of(&v))
                };
            }
        }
        i = i + 1;
    }
    assert(all.take(all.len() as int) =~= all);
    if let Some(c) = cmdline {
        if switched_off(c) {
            policy.enabled = false;
        }
    }
    policy
}

fn switched_off(cmdline: &str) -> (r: bool)
    ensures
        r == grow_off(Some(cmdline@)),
{
    let ws = split_words(&chars_of(cmdline));
    let mut i: usize = 0;
    while i < ws.len()
        invariant
            i <= ws@.len(),
            text::texts(ws@) == text::words(cmdline@),
            forall|k: int| 0 <= k < i ==> text::texts(ws@)[k] != "grow=off"@,
        decreases ws@.len() - i,
    {
        if is_text(&ws[i], "grow=off") {
            assert(text::texts(ws@)[i as int] == "grow=off"@);
            return true;
        }
        i = i + 1;
    }
    false
}

/// The policy of the installation medium: `conf` is what stands at
/// [`GROW_CONF`].
pub fn load_policy(conf: Option<&str>, cmdline: Option<&str>) -> (r: GrowPolicy)
    ensures
        r@ == effective_policy(str_text(conf), str_text(cmdline)),
{
    load_policy_from(conf, cmdline)
}

/// Whether the policy of the installation medium asks for growing at all.
pub fn quick_enabled(conf: Option<&str>, cmdline: Option<&str>) -> (r: bool)
    ensures
        r == effective_policy(str_text(conf), str_text(cmdline)).enabled,
{
    load_policy(conf, cmdline).enabled
}

/// `grow=off` on the kernel command line overrules every policy file.
pub proof fn law_grow_off_wins(content: Option<Seq<char>>, cmdline: Seq<char>)
    requires
        text::words(cmdline).contains("grow=off"@),
    ensures
        !effective_policy(content, Some(cmdline)).enabled,
{
}

/// A policy that cannot be read grows nothing.
pub proof fn law_missing_policy_is_disabled(cmdline: Option<Seq<char>>)
    ensures
        effective_policy(None, cmdline) == default_policy(),
        !default_policy().enabled,
{
}

/// Lines with unknown keys change nothing.
pub proof fn law_unknown_keys_are_ignored(ls: Seq<Seq<char>>, line: Seq<char>)
    requires
        match pair_of(line) {
            Some((k, _)) => k != "enabled"@ && k != "part"@ && k != "lv"@,
            None => true,
        },
    ensures
        policy_of(ls.push(line)) == policy_of(ls),
{
    assert(ls.push(line).drop_last() =~= ls);
}

/// A line `key=value` is taken apart at its first `=`, and white space around
/// either side does not count; a line that begins with `#` says nothing.
pub proof fn law_lines_are_taken_apart(line: Seq<char>, key: Seq<char>, value: Seq<char>)
    ensures
        text::trim(line) == key + seq!['='] + value && !key.contains('=') && !(key.len() > 0
            && key[0] == '#') ==> pair_of(line) == Some((text::trim(key), text::trim(value))),
        text::trim(line).len() > 0 && text::trim(line)[0] == '#' ==> pair_of(line) is None,
        !text::trim(line).contains('=') ==> pair_of(line) is None,
{
    let t = text::trim(line);
    text::lemma_find(t, '=');
    let n = text::find(t, '=');
    if !t.contains('=') {
        if n < t.len() {
            assert(t[n] == '=');
        }
    }
    if t == key + seq!['='] + value && !key.contains('=') {
        let k = key.len() as int;
        assert(t[k] == '=');
        assert(n == k) by {
            if n < k {
                assert(key[n] == t[n]);
                assert(key.contains('='));
            }
        }
        assert(t.take(n) =~= key);
        assert(t.skip(n + 1) =~= value);
        if k > 0 {
            assert(t[0] == key[0]);
        }
    }
}

/// The last line with a key counts, and changes nothing but what the key stands
/// for: `enabled` is on with `1` and off with anything else, `part` names a
/// partition by a number and means any with anything else, `lv` names a volume
/// unless it is empty or `auto`.
pub proof fn law_last_setting_counts(
    ls: Seq<Seq<char>>,
    line: Seq<char>,
    key: Seq<char>,
    value: Seq<char>,
)
    requires
        pair_of(line) == Some((key, value)),
    ensures
        ({
            let before = policy_of(ls);
            let after = policy_of(ls.push(line));
            &&& key == "enabled"@ ==> after == (PolicyView { enabled: value == "1"@, ..before })
            &&& key == "part"@ ==> {
                &&& after == (PolicyView { part: after.part, ..before })
                &&& match text::parse_number(value, 0xffff_ffff) {
                    Some(n) => after.part == PartSpec::Number(n as u32),
                    None => after.part == PartSpec::Auto,
                }
            }
            &&& key == "lv"@ ==> after == (PolicyView {
                lv: if value.len() == 0 || value == "auto"@ {
                    None
                } else {
                    Some(value)
                },
                ..before
            })
        }),
        policy_of(seq![]) == (PolicyView { enabled: false, part: PartSpec::Auto, lv: None }),
{
    lemma_keys_differ();
    assert(ls.push(line).drop_last() =~= ls);
    reveal_strlit("1");
}

/// Without `grow=off` on the kernel command line the policy is what the lines of
/// its file say; with it only `enabled` differs.
pub proof fn law_policy_files_are_followed(content: Seq<char>, cmdline: Option<Seq<char>>)
    ensures
        ({
            let p = policy_of(text::lines(content));
            let q = effective_policy(Some(content), cmdline);
            let off = cmdline matches Some(c) && text::words(c).contains("grow=off"@);
            q == (PolicyView { enabled: p.enabled && !off, ..p })
        }),
{
}

} // verus!
