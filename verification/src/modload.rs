//! Loading kernel modules: which modules a module needs, in which order they go
//! in, and where their files are.
//!
//! `modules.dep` names each module by the path of its `.ko` file and lists the
//! files that it needs. A module is known by the stem of its file, in which `-`
//! and `_` are the same.
use crate::paths;
use crate::paths::{file_name_of, join, same_path};
use crate::text;
use crate::text::{
    chars_of, has_suffix, part, same_str, split_lines, split_words, string_of, trimmed, trimmed_str,
};
use crate::utils::BOOT_MEDIA_DIR;
use vstd::prelude::*;
use vstd::string::*;

verus! {

/// A module as `modules.dep` describes it.
#[derive(Debug, Clone)]
pub struct Entry {
    /// The canonical name.
    pub key: String,
    /// The path of the file below a module root.
    pub path: String,
    /// The stems of the files that it needs.
    pub deps: Vec<String>,
}

#[verifier::ext_equal]
pub struct EntryView {
    pub key: Seq<char>,
    pub path: Seq<char>,
    pub deps: Seq<Seq<char>>,
}

impl View for Entry {
    type V = EntryView;

    open spec fn view(&self) -> EntryView {
        EntryView { key: self.key@, path: self.path@, deps: text::strings(self.deps@) }
    }
}

/// The dependency table, and the directories that module files stand in.
pub struct ModuleLoader {
    /// Where module files are looked for, in this order.
    pub bases: Vec<String>,
    pub entries: Vec<Entry>,
}

#[verifier::ext_equal]
pub struct LoaderView {
    pub bases: Seq<Seq<char>>,
    pub entries: Seq<EntryView>,
}

pub open spec fn entry_views(v: Seq<Entry>) -> Seq<EntryView> {
    Seq::new(v.len(), |i: int| v[i]@)
}

impl View for ModuleLoader {
    type V = LoaderView;

    open spec fn view(&self) -> LoaderView {
        LoaderView { bases: text::strings(self.bases@), entries: entry_views(self.entries@) }
    }
}

/// The kernel writes `_` for `-` in the names of modules.
pub open spec fn canonical_char(c: char) -> char {
    if c == '-' {
        '_'
    } else {
        c
    }
}

pub open spec fn canonical_text(s: Seq<char>) -> Seq<char> {
    Seq::new(s.len(), |i: int| canonical_char(s[i]))
}

/// The canonical name of a module.
pub fn canonical(name: &str) -> (r: String)
    ensures
        r@ == canonical_text(name@),
{
    let v = chars_of(name);
    let mut s = String::new();
    let mut i: usize = 0;
    while i < v.len()
        invariant
            i <= v@.len(),
            s@ == canonical_text(v@.take(i as int)),
        decreases v@.len() - i,
    {
        let c: char = v[i];
        s.push(
            if c == '-' {
                '_'
            } else {
                c
            },
        );
        i = i + 1;
        assert(s@ =~= canonical_text(v@.take(i as int)));
    }
    assert(v@.take(v@.len() as int) =~= v@);
    s
}

/// The name of a file without `.ko`; a path that names no such file stays as it
/// is.
pub open spec fn stem(path: Seq<char>) -> Seq<char> {
    match paths::file_name(path) {
        Some(f) => if text::ends_with(f, ".ko"@) {
            f.take(f.len() - ".ko"@.len())
        } else {
            path
        },
        None => path,
    }
}

pub fn stem_of(path: &str) -> (r: String)
    ensures
        r@ == stem(path@),
{
    proof {
        reveal_strlit(".ko");
    }
    if let Some(f) = file_name_of(path) {
        let v = chars_of(f.as_str());
        if has_suffix(&v, ".ko") {
            let s = part(&v, 0, v.len() - 3);
            assert(s@ =~= v@.take(v@.len() - ".ko"@.len()));
            return string_of(&s);
        }
    }
    path.to_owned()
}

/// The first `n` lines with those joined that a backslash continues.
pub open spec fn folded(ls: Seq<Seq<char>>, n: nat) -> Seq<char>
    decreases n,
{
    if n == 0 {
        seq![]
    } else {
        let before = folded(ls, (n - 1) as nat);
        let l = ls[n - 1];
        if l.len() > 0 && l.last() == '\\' {
            before + text::trim_end(l.drop_last()) + " "@
        } else {
            before + l + "\n"@
        }
    }
}

/// A text with its continued lines joined.
pub fn fold_continuations(t: &str) -> (r: String)
    ensures
        r@ == folded(text::lines(t@), text::lines(t@).len()),
{
    let ls = split_lines(&chars_of(t));
    let ghost all = text::texts(ls@);
    let mut s = String::new();
    let mut i: usize = 0;
    assert(s@ =~= folded(all, 0));
    while i < ls.len()
        invariant
            i <= ls@.len(),
            all == text::texts(ls@),
            s@ == folded(all, i as nat),
        decreases ls@.len() - i,
    {
        let l = &ls[i];
        assert(all[i as int] == l@);
        if l.len() > 0 && l[l.len() - 1] == '\\' {
            let mut n: usize = l.len() - 1;
            while n > 0 && text::space(l[n - 1])
                invariant
                    n < l@.len(),
                    forall|k: int| n <= k < l@.len() - 1 ==> text::is_space(l@[k]),
                decreases n,
            {
                n = n - 1;
            }
            let head = part(l, 0, n);
            proof {
                let d = l@.drop_last();
                text::lemma_trim_end_unique(d, n as int);
                assert(head@ =~= d.take(n as int));
            }
            s.append(string_of(&head).as_str());
            s.append(" ");
        } else {
            s.append(string_of(l).as_str());
            s.append("\n");
        }
        i = i + 1;
    }
    s
}

/// The stems of paths.
pub open spec fn stems(ws: Seq<Seq<char>>) -> Seq<Seq<char>> {
    Seq::new(ws.len(), |i: int| stem(ws[i]))
}

/// The module that a line of `modules.dep` describes.
pub open spec fn line_entry(l: Seq<char>) -> Option<EntryView> {
    match text::split_once(l, ':') {
        Some((p, d)) => Some(
            EntryView {
                key: canonical_text(stem(text::trim(p))),
                path: text::trim(p),
                deps: stems(text::words(d)),
            },
        ),
        None => None,
    }
}

/// Where the entry of a module stands, or the number of entries.
pub open spec fn position(es: Seq<EntryView>, key: Seq<char>) -> int
    decreases es.len(),
{
    if es.len() == 0 {
        0
    } else if es[0].key == key {
        0
    } else {
        1 + position(es.skip(1), key)
    }
}

pub open spec fn known(es: Seq<EntryView>, key: Seq<char>) -> bool {
    position(es, key) < es.len()
}

/// `es` with `e` in place of the entry of the same name, or behind all others.
pub open spec fn inserted(es: Seq<EntryView>, e: EntryView) -> Seq<EntryView> {
    if known(es, e.key) {
        es.update(position(es, e.key), e)
    } else {
        es.push(e)
    }
}

/// The table that the first `n` lines give: of several lines for a module the
/// last counts, and a line without a colon says nothing.
pub open spec fn dep_table(ls: Seq<Seq<char>>, n: nat) -> Seq<EntryView>
    decreases n,
{
    if n == 0 {
        seq![]
    } else {
        let before = dep_table(ls, (n - 1) as nat);
        match line_entry(ls[n - 1]) {
            Some(e) => inserted(before, e),
            None => before,
        }
    }
}

/// The table of a `modules.dep`.
pub open spec fn table_of(dep_text: Seq<char>) -> Seq<EntryView> {
    let ls = text::lines(dep_text);
    let folded_lines = text::lines(folded(ls, ls.len()));
    dep_table(folded_lines, folded_lines.len())
}

pub proof fn lemma_position(es: Seq<EntryView>, key: Seq<char>)
    ensures
        0 <= position(es, key) <= es.len(),
        known(es, key) ==> es[position(es, key)].key == key,
        forall|i: int| 0 <= i < position(es, key) ==> (#[trigger] es[i]).key != key,
    decreases es.len(),
{
    if es.len() > 0 && es[0].key != key {
        lemma_position(es.skip(1), key);
        assert forall|i: int| 0 <= i < position(es, key) implies (#[trigger] es[i]).key != key by {
            if i > 0 {
                assert(es[i] == es.skip(1)[i - 1]);
            }
        }
        if known(es, key) {
            assert(es[position(es, key)] == es.skip(1)[position(es.skip(1), key)]);
        }
    }
}

pub proof fn lemma_position_unique(es: Seq<EntryView>, key: Seq<char>, n: int)
    requires
        0 <= n <= es.len(),
        n < es.len() ==> es[n].key == key,
        forall|i: int| 0 <= i < n ==> (#[trigger] es[i]).key != key,
    ensures
        position(es, key) == n,
{
    lemma_position(es, key);
    let m = position(es, key);
    if m < n {
        assert(es[m].key != key);
    }
    if n < m {
        assert(es[n].key != key);
    }
}

fn find_key(es: &Vec<Entry>, key: &str) -> (r: usize)
    ensures
        r == position(entry_views(es@), key@),
        r <= es@.len(),
{
    let ghost v = entry_views(es@);
    let mut i: usize = 0;
    while i < es.len()
        invariant
            i <= es@.len(),
            v == entry_views(es@),
            forall|k: int| 0 <= k < i ==> (#[trigger] v[k]).key != key@,
        decreases es@.len() - i,
    {
        assert(v[i as int].key == es@[i as int].key@);
        if same_str(es[i].key.as_str(), key) {
            proof {
                lemma_position_unique(v, key@, i as int);
            }
            return i;
        }
        i = i + 1;
    }
    proof {
        lemma_position_unique(v, key@, i as int);
    }
    i
}

fn parse_line(l: &Vec<char>) -> (r: Option<Entry>)
    ensures
        match r {
            Some(e) => line_entry(l@) == Some(e@),
            None => line_entry(l@) is None,
        },
{
    let n: usize = text::find_from(l, 0, ':');
    assert(l@.skip(0) =~= l@);
    if n == l.len() {
        return None;
    }
    let p = part(l, 0, n);
    let d = part(l, n + 1, l.len());
    assert(p@ =~= l@.take(n as int));
    assert(d@ =~= l@.skip(n + 1));
    let path = string_of(&trimmed(&p));
    let ws = split_words(&d);
    let mut deps: Vec<String> = Vec::new();
    let mut i: usize = 0;
    while i < ws.len()
        invariant
            i <= ws@.len(),
            deps@.len() == i,
            text::texts(ws@) == text::words(d@),
            forall|k: int| 0 <= k < i ==> (#[trigger] deps@[k])@ == stem(text::words(d@)[k]),
        decreases ws@.len() - i,
    {
        assert(text::texts(ws@)[i as int] == ws@[i as int]@);
        deps.push(stem_of(string_of(&ws[i]).as_str()));
        i = i + 1;
    }
    let e = Entry { key: canonical(stem_of(path.as_str()).as_str()), path, deps };
    assert(e@.deps =~= stems(text::words(d@)));
    Some(e)
}

/// Reads a `modules.dep` whose continued lines have been joined.
pub fn parse_modules_dep(t: &str) -> (r: Vec<Entry>)
    ensures
        entry_views(r@) == dep_table(text::lines(t@), text::lines(t@).len()),
{
    let ls = split_lines(&chars_of(t));
    let ghost all = text::texts(ls@);
    let mut out: Vec<Entry> = Vec::new();
    let mut i: usize = 0;
    assert(entry_views(out@) =~= dep_table(all, 0));
    while i < ls.len()
        invariant
            i <= ls@.len(),
            all == text::texts(ls@),
            entry_views(out@) == dep_table(all, i as nat),
        decreases ls@.len() - i,
    {
        assert(all[i as int] == ls@[i as int]@);
        if let Some(e) = parse_line(&ls[i]) {
            let ghost before = entry_views(out@);
            let ghost v = e@;
            let k: usize = find_key(&out, e.key.as_str());
            if k < out.len() {
                out.set(k, e);
                assert(entry_views(out@) =~= before.update(k as int, v));
            } else {
                out.push(e);
                assert(entry_views(out@) =~= before.push(v));
            }
        }
        i = i + 1;
    }
    out
}

/// The entries whose modules are not among `path`.
pub open spec fn open_count(es: Seq<EntryView>, path: Seq<Seq<char>>) -> nat
    decreases es.len(),
{
    if es.len() == 0 {
        0
    } else {
        open_count(es.drop_last(), path) + if path.contains(es.last().key) {
            0nat
        } else {
            1nat
        }
    }
}

proof fn lemma_open_count(es: Seq<EntryView>, path: Seq<Seq<char>>, key: Seq<char>)
    ensures
        open_count(es, path.push(key)) <= open_count(es, path),
        !path.contains(key) && (exists|i: int| 0 <= i < es.len() && (#[trigger] es[i]).key == key)
            ==> open_count(es, path.push(key)) < open_count(es, path),
    decreases es.len(),
{
    if es.len() > 0 {
        let before = es.drop_last();
        lemma_open_count(before, path, key);
        let k = es.last().key;
        if path.contains(k) {
            let i = choose|i: int| 0 <= i < path.len() && path[i] == k;
            assert(path.push(key)[i] == k);
        }
        if k == key {
            assert(path.push(key)[path.len() as int] == key);
        } else if path.push(key).contains(k) {
            let i = choose|i: int| 0 <= i < path.push(key).len() && path.push(key)[i] == k;
            assert(path[i] == k);
        }
        if exists|i: int| 0 <= i < es.len() && (#[trigger] es[i]).key == key {
            let i = choose|i: int| 0 <= i < es.len() && (#[trigger] es[i]).key == key;
            if i < before.len() {
                assert(before[i].key == key);
            }
        }
    }
}

proof fn lemma_open_count_step(es: Seq<EntryView>, path: Seq<Seq<char>>, key: Seq<char>)
    requires
        known(es, key),
        !path.contains(key),
    ensures
        open_count(es, path.push(key)) < open_count(es, path),
{
    lemma_position(es, key);
    assert(es[position(es, key)].key == key);
    lemma_open_count(es, path, key);
}

/// What a walk comes to: the modules to load so far, in order, or what is
/// wrong.
pub enum Walk {
    Order(Seq<Seq<char>>),
    Error(Seq<char>),
}

/// A walk from the module `name` down to all that it needs, depth first. `path`
/// holds the modules that led here and `order` those that are settled. A module
/// is settled once all that it needs is.
pub open spec fn walk(
    es: Seq<EntryView>,
    name: Seq<char>,
    path: Seq<Seq<char>>,
    order: Seq<Seq<char>>,
) -> Walk
    decreases open_count(es, path), 0int,
    via walk_decreases
{
    let key = canonical_text(name);
    if !known(es, key) {
        Walk::Error("'"@ + name + "' not in modules.dep"@)
    } else if path.contains(key) {
        Walk::Error("dependency cycle at '"@ + key + "'"@)
    } else if order.contains(key) {
        Walk::Order(order)
    } else {
        let deps = es[position(es, key)].deps;
        match walk_all(es, deps, path.push(key), order) {
            Walk::Order(o) => Walk::Order(o.push(key)),
            Walk::Error(e) => Walk::Error("dep of "@ + key + ": "@ + e),
        }
    }
}

#[via_fn]
proof fn walk_decreases(
    es: Seq<EntryView>,
    name: Seq<char>,
    path: Seq<Seq<char>>,
    order: Seq<Seq<char>>,
) {
    let key = canonical_text(name);
    if known(es, key) && !path.contains(key) {
        lemma_open_count_step(es, path, key);
    }
}

/// The walk from each of `names` in turn.
pub open spec fn walk_all(
    es: Seq<EntryView>,
    names: Seq<Seq<char>>,
    path: Seq<Seq<char>>,
    order: Seq<Seq<char>>,
) -> Walk
    decreases open_count(es, path), names.len() + 1,
{
    if names.len() == 0 {
        Walk::Order(order)
    } else {
        match walk_all(es, names.drop_last(), path, order) {
            Walk::Order(o) => walk(es, names.last(), path, o),
            Walk::Error(e) => Walk::Error(e),
        }
    }
}

proof fn lemma_walk_all_error(
    es: Seq<EntryView>,
    names: Seq<Seq<char>>,
    path: Seq<Seq<char>>,
    order: Seq<Seq<char>>,
    n: int,
)
    requires
        0 <= n <= names.len(),
        walk_all(es, names.take(n), path, order) is Error,
    ensures
        walk_all(es, names, path, order) == walk_all(es, names.take(n), path, order),
    decreases names.len() - n,
{
    if n < names.len() {
        assert(names.take(n + 1).drop_last() =~= names.take(n));
        lemma_walk_all_error(es, names, path, order, n + 1);
    } else {
        assert(names.take(n) =~= names);
    }
}

/// The modules to load for `name`, in order, or what is wrong.
pub open spec fn load_order(l: LoaderView, name: Seq<char>) -> Walk {
    walk(l.entries, name, seq![], seq![])
}

/// Whether a result is what a walk came to.
pub open spec fn is_walk(r: Result<Vec<String>, String>, w: Walk) -> bool {
    match r {
        Ok(v) => w == Walk::Order(text::strings(v@)),
        Err(e) => w == Walk::Error(e@),
    }
}

/// Where the modules of a kernel stand.
pub open spec fn base_of(osrelease: Seq<char>) -> Seq<char> {
    paths::joined("/lib/modules"@, text::trim(osrelease))
}

/// Where the modules of a kernel stand, by what `osrelease` of the kernel says.
pub fn module_base(osrelease: &str) -> (r: String)
    ensures
        r@ == base_of(osrelease@),
{
    join("/lib/modules", trimmed_str(osrelease).as_str())
}

/// The directory on the installation medium for the modules of a kernel.
pub open spec fn media_root(ver: Seq<char>) -> Seq<char> {
    paths::joined(paths::joined(BOOT_MEDIA_DIR@, "grow/modules"@), ver)
}

/// A loader that looks on the installation medium too.
pub open spec fn with_media_root(l: LoaderView) -> LoaderView {
    match paths::file_name(l.bases[0]) {
        None => l,
        Some(ver) => if exists|i: int|
            0 <= i < l.bases.len() && paths::parts(#[trigger] l.bases[i]) == paths::parts(
                media_root(ver),
            ) {
            l
        } else {
            LoaderView { bases: l.bases.push(media_root(ver)), ..l }
        },
    }
}

/// The directory that the kernel has for a loaded module.
pub open spec fn loaded_path(stem: Seq<char>) -> Seq<char> {
    paths::joined("/sys/module"@, canonical_text(stem))
}

/// What became of loading the file in one of the module roots.
#[derive(Debug, Clone, Copy, PartialEq, Eq, Structural)]
pub enum Attempt {
    /// The file cannot be opened.
    Missing,
    Inserted,
    /// The kernel refused, with this error number.
    Refused(i32),
}

/// What to do next for a module.
#[derive(Debug, Clone)]
pub enum Finit {
    /// Try this file.
    Try(String),
    Loaded,
    Failed(String),
}

pub enum FinitView {
    Try(Seq<char>),
    Loaded,
    Failed(Seq<char>),
}

impl View for Finit {
    type V = FinitView;

    open spec fn view(&self) -> FinitView {
        match self {
            Finit::Try(p) => FinitView::Try(p@),
            Finit::Loaded => FinitView::Loaded,
            Finit::Failed(e) => FinitView::Failed(e@),
        }
    }
}

/// How `nix` prints an error number.
pub uninterp spec fn errno_text(code: i32) -> Seq<char>;

/// `nix::errno::Errno` printed: the text depends on the number alone.
#[verifier::external_body]
fn print_errno(code: i32) -> (r: String)
    ensures
        r@ == errno_text(code),
{
    nix::errno::Errno::from_raw(code).to_string()
}

/// `nix::errno::Errno::EEXIST` is the error number 17 on Linux, and
/// `nix::errno::Errno::from_raw` gives it for that number and for no other.
#[verifier::external_body]
fn means_exists(code: i32) -> (r: bool)
    ensures
        r == (code == 17),
{
    nix::errno::Errno::from_raw(code) == nix::errno::Errno::EEXIST
}

/// The first attempt that found a file, or the number of attempts.
pub open spec fn first_found(tried: Seq<Attempt>) -> int
    decreases tried.len(),
{
    if tried.len() == 0 || tried[0] != Attempt::Missing {
        0
    } else {
        1 + first_found(tried.skip(1))
    }
}

/// What comes after the attempts in the first module roots. The first root that
/// has the file decides; a module that the kernel already has counts as loaded.
pub open spec fn finit_of(l: LoaderView, key: Seq<char>, tried: Seq<Attempt>) -> FinitView {
    let n = first_found(tried);
    let path = l.entries[position(l.entries, key)].path;
    if !known(l.entries, key) {
        FinitView::Failed("'"@ + key + "' not in modules.dep"@)
    } else if n < tried.len() && n < l.bases.len() {
        match tried[n] {
            Attempt::Refused(code) => if code == 17 {
                FinitView::Loaded
            } else {
                FinitView::Failed(refusal(paths::joined(l.bases[n], path), errno_text(code)))
            },
            _ => FinitView::Loaded,
        }
    } else if tried.len() < l.bases.len() {
        FinitView::Try(paths::joined(l.bases[tried.len() as int], path))
    } else {
        FinitView::Failed("kext '"@ + path + "' not found in any module root"@)
    }
}

/// What is said of a file that the kernel refused.
pub open spec fn refusal(path: Seq<char>, error: Seq<char>) -> Seq<char> {
    "finit_module "@ + path + ": "@ + error
}

/// What is said of a file that the kernel refused.
pub fn refusal_text(path: &str, error: &str) -> (r: String)
    ensures
        r@ == refusal(path@, error@),
{
    let mut s = "finit_module ".to_owned();
    s.append(path);
    s.append(": ");
    s.append(error);
    s
}

pub proof fn lemma_first_found(tried: Seq<Attempt>, n: int)
    requires
        0 <= n <= tried.len(),
        forall|i: int| 0 <= i < n ==> tried[i] == Attempt::Missing,
        n < tried.len() ==> tried[n] != Attempt::Missing,
    ensures
        first_found(tried) == n,
    decreases tried.len(),
{
    if n > 0 {
        assert forall|i: int| 0 <= i < n - 1 implies tried.skip(1)[i] == Attempt::Missing by {
            assert(tried[i + 1] == Attempt::Missing);
        }
        lemma_first_found(tried.skip(1), n - 1);
    }
}

impl ModuleLoader {
    /// A loader for the kernel that calls itself `osrelease`, with the text of
    /// its `modules.dep`.
    pub fn new(osrelease: &str, dep_text: &str) -> (r: ModuleLoader)
        ensures
            r@ == (LoaderView {
                bases: seq![base_of(osrelease@)],
                entries: table_of(dep_text@),
            }),
    {
        let mut bases: Vec<String> = Vec::new();
        bases.push(module_base(osrelease));
        assert(text::strings(bases@) =~= seq![base_of(osrelease@)]);
        let folded = fold_continuations(dep_text);
        ModuleLoader { bases, entries: parse_modules_dep(folded.as_str()) }
    }

    /// Adds the module directory of the installation medium, once. It holds
    /// files only: what they need stands in the table already.
    pub fn add_media_module_root(&mut self)
        requires
            old(self)@.bases.len() > 0,
        ensures
            final(self)@ == with_media_root(old(self)@),
    {
        assert(self@.bases[0] == self.bases@[0]@);
        let Some(ver) = file_name_of(self.bases[0].as_str()) else {
            return ;
        };
        let root = join(join(BOOT_MEDIA_DIR, "grow/modules").as_str(), ver.as_str());
        let mut i: usize = 0;
        while i < self.bases.len()
            invariant
                i <= self.bases@.len(),
                *self == *old(self),
                root@ == media_root(ver@),
                paths::file_name(old(self)@.bases[0]) == Some(ver@),
                forall|k: int|
                    0 <= k < i ==> paths::parts(#[trigger] self@.bases[k]) != paths::parts(root@),
            decreases self.bases@.len() - i,
        {
            assert(self@.bases[i as int] == self.bases@[i as int]@);
            if same_path(self.bases[i].as_str(), root.as_str()) {
                assert(paths::parts(old(self)@.bases[i as int]) == paths::parts(media_root(ver@)));
                return ;
            }
            i = i + 1;
        }
        self.bases.push(root);
        assert(self@.bases =~= old(self)@.bases.push(root@));
    }

    /// The name under which a module stands in the table.
    pub fn lookup_stem(&self, name: &str) -> (r: Result<String, String>)
        ensures
            match r {
                Ok(k) => k@ == canonical_text(name@) && known(self@.entries, k@),
                Err(e) => !known(self@.entries, canonical_text(name@)) && e@ == "'"@ + name@
                    + "' not in modules.dep"@,
            },
    {
        let key = canonical(name);
        if find_key(&self.entries, key.as_str()) < self.entries.len() {
            Ok(key)
        } else {
            let mut s = "'".to_owned();
            s.append(name);
            s.append("' not in modules.dep");
            Err(s)
        }
    }

    fn visit(&self, name: &str, path: &mut Vec<String>, order: &mut Vec<String>) -> (r: Result<
        (),
        String,
    >)
        ensures
            match r {
                Ok(_) => walk(
                    self@.entries,
                    name@,
                    text::strings(old(path)@),
                    text::strings(old(order)@),
                ) == Walk::Order(text::strings(final(order)@)) && text::strings(final(path)@)
                    == text::strings(old(path)@),
                Err(e) => walk(
                    self@.entries,
                    name@,
                    text::strings(old(path)@),
                    text::strings(old(order)@),
                ) == Walk::Error(e@),
            },
        decreases open_count(self@.entries, text::strings(old(path)@)),
    {
        let ghost es = self@.entries;
        let ghost path0 = text::strings(path@);
        let ghost order0 = text::strings(order@);
        let key = self.lookup_stem(name)?;
        if lists(path, key.as_str()) {
            let mut s = "dependency cycle at '".to_owned();
            s.append(key.as_str());
            s.append("'");
            return Err(s);
        }
        if lists(order, key.as_str()) {
            return Ok(());
        }
        proof {
            lemma_open_count_step(es, path0, key@);
        }
        let at: usize = find_key(&self.entries, key.as_str());
        let deps = &self.entries[at].deps;
        let ghost names = text::strings(deps@);
        assert(es[position(es, key@)].deps == names);
        path.push(key.clone());
        let ghost path1 = path0.push(key@);
        assert(text::strings(path@) =~= path1);
        let mut i: usize = 0;
        assert(names.take(0) =~= Seq::<Seq<char>>::empty());
        while i < deps.len()
            invariant
                i <= deps@.len(),
                es == self@.entries,
                names == text::strings(deps@),
                text::strings(path@) == path1,
                path1 == path0.push(key@),
                path0 == text::strings(old(path)@),
                order0 == text::strings(old(order)@),
                known(es, key@),
                key@ == canonical_text(name@),
                !path0.contains(key@),
                !order0.contains(key@),
                es[position(es, key@)].deps == names,
                open_count(es, path1) < open_count(es, path0),
                walk_all(es, names.take(i as int), path1, order0) == Walk::Order(
                    text::strings(order@),
                ),
            decreases deps@.len() - i,
        {
            let ghost now = names.take(i + 1);
            proof {
                assert(now.drop_last() =~= names.take(i as int));
                assert(now.last() == deps@[i as int]@);
            }
            if let Err(e) = self.visit(deps[i].as_str(), path, order) {
                proof {
                    lemma_walk_all_error(es, names, path1, order0, i + 1);
                }
                let mut s = "dep of ".to_owned();
                s.append(key.as_str());
                s.append(": ");
                s.append(e.as_str());
                return Err(s);
            }
            i = i + 1;
        }
        assert(names.take(names.len() as int) =~= names);
        let ghost settled = text::strings(order@);
        let ghost full = path@;
        proof {
            assert(full.len() == path1.len());
        }
        path.pop();
        assert(text::strings(path@) =~= text::strings(full).drop_last());
        assert(path1.drop_last() =~= path0);
        let ghost last = key@;
        order.push(key);
        assert(text::strings(order@) =~= settled.push(last));
        Ok(())
    }

    /// The modules to load for `name`, in order: each comes after all that it
    /// needs, and once.
    pub fn resolve_order(&self, name: &str) -> (r: Result<Vec<String>, String>)
        ensures
            is_walk(r, load_order(self@, name@)),
    {
        let mut path: Vec<String> = Vec::new();
        let mut order: Vec<String> = Vec::new();
        assert(text::strings(path@) =~= Seq::<Seq<char>>::empty());
        assert(text::strings(order@) =~= Seq::<Seq<char>>::empty());
        match self.visit(name, &mut path, &mut order) {
            Ok(_) => Ok(order),
            Err(e) => Err(e),
        }
    }

    /// What to do next for the module `stem`, after what became of its file in
    /// the first module roots.
    pub fn finit(&self, stem: &str, tried: &Vec<Attempt>) -> (r: Finit)
        ensures
            r@ == finit_of(self@, stem@, tried@),
    {
        let at: usize = find_key(&self.entries, stem);
        if at == self.entries.len() {
            let mut s = "'".to_owned();
            s.append(stem);
            s.append("' not in modules.dep");
            return Finit::Failed(s);
        }
        let path = self.entries[at].path.as_str();
        assert(self@.entries[position(self@.entries, stem@)].path == path@);
        let mut n: usize = 0;
        while n < tried.len() && tried[n] == Attempt::Missing
            invariant
                n <= tried@.len(),
                forall|i: int| 0 <= i < n ==> tried@[i] == Attempt::Missing,
            decreases tried@.len() - n,
        {
            n = n + 1;
        }
        proof {
            lemma_first_found(tried@, n as int);
        }
        if n < tried.len() && n < self.bases.len() {
            match tried[n] {
                Attempt::Refused(code) => {
                    if means_exists(code) {
                        Finit::Loaded
                    } else {
                        assert(self@.bases[n as int] == self.bases@[n as int]@);
                        let full = join(self.bases[n].as_str(), path);
                        Finit::Failed(refusal_text(full.as_str(), print_errno(code).as_str()))
                    }
                },
                _ => Finit::Loaded,
            }
        } else if tried.len() < self.bases.len() {
            assert(self@.bases[tried@.len() as int] == self.bases@[tried@.len() as int]@);
            Finit::Try(join(self.bases[tried.len()].as_str(), path))
        } else {
            let mut s = "kext '".to_owned();
            s.append(path);
            s.append("' not found in any module root");
            Finit::Failed(s)
        }
    }

    /// The directory that the kernel has for a loaded module.
    pub fn loaded_dir(stem: &str) -> (r: String)
        ensures
            r@ == loaded_path(stem@),
    {
        join("/sys/module", canonical(stem).as_str())
    }
}

fn lists(v: &Vec<String>, t: &str) -> (r: bool)
    ensures
        r == text::strings(v@).contains(t@),
{
    let mut i: usize = 0;
    while i < v.len()
        invariant
            i <= v@.len(),
            forall|k: int| 0 <= k < i ==> text::strings(v@)[k] != t@,
        decreases v@.len() - i,
    {
        assert(text::strings(v@)[i as int] == v@[i as int]@);
        if same_str(v[i].as_str(), t) {
            return true;
        }
        i = i + 1;
    }
    false
}

/// Whether every module of `order` is known and stands behind all that it
/// needs.
pub open spec fn in_order(es: Seq<EntryView>, order: Seq<Seq<char>>) -> bool {
    forall|i: int|
        0 <= i < order.len() ==> known(es, #[trigger] order[i]) && needs_met(
            es,
            order[i],
            order.take(i),
        )
}

/// Whether all that a module needs is among `before`.
pub open spec fn needs_met(es: Seq<EntryView>, key: Seq<char>, before: Seq<Seq<char>>) -> bool {
    let deps = es[position(es, key)].deps;
    forall|j: int|
        0 <= j < deps.len() ==> before.contains(canonical_text(#[trigger] deps[j]))
}

/// Whether a set of modules holds all that its members need.
pub open spec fn closed_under_needs(es: Seq<EntryView>, s: Set<Seq<char>>) -> bool {
    forall|x: Seq<char>, j: int|
        #![trigger s.contains(x), es[position(es, x)].deps[j]]
        s.contains(x) && known(es, x) && 0 <= j < es[position(es, x)].deps.len() ==> s.contains(
            canonical_text(es[position(es, x)].deps[j]),
        )
}

/// Whether all members of a set are known and `rank` falls from each of them to
/// all that it needs: nothing in the set needs itself.
pub open spec fn loadable(
    es: Seq<EntryView>,
    key: Seq<char>,
    s: Set<Seq<char>>,
    rank: spec_fn(Seq<char>) -> nat,
) -> bool {
    &&& s.contains(key)
    &&& closed_under_needs(es, s)
    &&& forall|x: Seq<char>| #[trigger] s.contains(x) ==> known(es, x)
    &&& forall|x: Seq<char>, j: int|
        #![trigger s.contains(x), es[position(es, x)].deps[j]]
        s.contains(x) && 0 <= j < es[position(es, x)].deps.len() ==> rank(
            canonical_text(es[position(es, x)].deps[j]),
        ) < rank(x)
}

/// What a walk that comes to an order adds to `order`.
spec fn extends(
    es: Seq<EntryView>,
    path: Seq<Seq<char>>,
    order: Seq<Seq<char>>,
    o: Seq<Seq<char>>,
) -> bool {
    &&& order.len() <= o.len()
    &&& o.take(order.len() as int) == order
    &&& in_order(es, o)
    &&& o.no_duplicates()
    &&& forall|i: int| order.len() <= i < o.len() ==> !path.contains(#[trigger] o[i])
}

proof fn lemma_walk(
    es: Seq<EntryView>,
    name: Seq<char>,
    path: Seq<Seq<char>>,
    order: Seq<Seq<char>>,
)
    requires
        in_order(es, order),
        order.no_duplicates(),
    ensures
        match walk(es, name, path, order) {
            Walk::Order(o) => extends(es, path, order, o) && o.contains(canonical_text(name)),
            Walk::Error(_) => true,
        },
    decreases open_count(es, path), 0int,
{
    let key = canonical_text(name);
    if known(es, key) && !path.contains(key) {
        if order.contains(key) {
            assert(order.take(order.len() as int) =~= order);
        } else {
            let deps = es[position(es, key)].deps;
            lemma_open_count_step(es, path, key);
            lemma_walk_all(es, deps, path.push(key), order);
            if let Walk::Order(o) = walk_all(es, deps, path.push(key), order) {
                let p = o.push(key);
                assert(path.push(key)[path.len() as int] == key);
                assert(!o.contains(key)) by {
                    if o.contains(key) {
                        let i = choose|i: int| 0 <= i < o.len() && o[i] == key;
                        if i < order.len() {
                            assert(o.take(order.len() as int)[i] == key);
                            assert(order.contains(key));
                        } else {
                            assert(!path.push(key).contains(o[i]));
                        }
                    }
                }
                assert(p.take(order.len() as int) =~= o.take(order.len() as int));
                assert forall|i: int| 0 <= i < p.len() implies known(es, #[trigger] p[i])
                    && needs_met(es, p[i], p.take(i)) by {
                    if i < o.len() {
                        assert(p[i] == o[i]);
                        assert(p.take(i) =~= o.take(i));
                    } else {
                        assert(p.take(i) =~= o);
                    }
                }
                assert forall|i: int| order.len() <= i < p.len() implies !path.contains(
                    #[trigger] p[i],
                ) by {
                    if i < o.len() {
                        assert(p[i] == o[i]);
                        assert(!path.push(key).contains(o[i]));
                        if path.contains(o[i]) {
                            let k = choose|k: int| 0 <= k < path.len() && path[k] == o[i];
                            assert(path.push(key)[k] == o[i]);
                        }
                    }
                }
                assert(p[o.len() as int] == key);
            }
        }
    }
}

proof fn lemma_walk_all(
    es: Seq<EntryView>,
    names: Seq<Seq<char>>,
    path: Seq<Seq<char>>,
    order: Seq<Seq<char>>,
)
    requires
        in_order(es, order),
        order.no_duplicates(),
    ensures
        match walk_all(es, names, path, order) {
            Walk::Order(o) => extends(es, path, order, o) && (forall|j: int|
                0 <= j < names.len() ==> o.contains(canonical_text(#[trigger] names[j]))),
            Walk::Error(_) => true,
        },
    decreases open_count(es, path), names.len() + 1,
{
    if names.len() == 0 {
        assert(order.take(order.len() as int) =~= order);
    } else {
        lemma_walk_all(es, names.drop_last(), path, order);
        if let Walk::Order(o) = walk_all(es, names.drop_last(), path, order) {
            lemma_walk(es, names.last(), path, o);
            if let Walk::Order(p) = walk(es, names.last(), path, o) {
                assert(p.take(order.len() as int) =~= o.take(order.len() as int)) by {
                    assert(p.take(order.len() as int) =~= p.take(o.len() as int).take(
                        order.len() as int,
                    ));
                }
                assert forall|i: int| order.len() <= i < p.len() implies !path.contains(
                    #[trigger] p[i],
                ) by {
                    if i < o.len() {
                        assert(p.take(o.len() as int)[i] == p[i]);
                        assert(!path.contains(o[i]));
                    }
                }
                assert forall|j: int| 0 <= j < names.len() implies p.contains(
                    canonical_text(#[trigger] names[j]),
                ) by {
                    if j < names.len() - 1 {
                        let d = canonical_text(names.drop_last()[j]);
                        assert(o.contains(d));
                        let i = choose|i: int| 0 <= i < o.len() && o[i] == d;
                        assert(p.take(o.len() as int)[i] == p[i]);
                    }
                }
            }
        }
    }
}

/// The order in which modules are loaded holds each once, each behind all that
/// it needs, and the module that was asked for.
pub proof fn law_needs_come_first(l: LoaderView, name: Seq<char>)
    ensures
        load_order(l, name) matches Walk::Order(o) ==> {
            &&& o.no_duplicates()
            &&& in_order(l.entries, o)
            &&& o.contains(canonical_text(name))
        },
{
    lemma_walk(l.entries, name, seq![], seq![]);
}

proof fn lemma_walk_within(
    es: Seq<EntryView>,
    name: Seq<char>,
    path: Seq<Seq<char>>,
    order: Seq<Seq<char>>,
    s: Set<Seq<char>>,
)
    requires
        closed_under_needs(es, s),
        s.contains(canonical_text(name)),
        forall|i: int| 0 <= i < order.len() ==> s.contains(#[trigger] order[i]),
    ensures
        walk(es, name, path, order) matches Walk::Order(o) ==> forall|i: int|
            0 <= i < o.len() ==> s.contains(#[trigger] o[i]),
    decreases open_count(es, path), 0int,
{
    let key = canonical_text(name);
    if known(es, key) && !path.contains(key) && !order.contains(key) {
        let deps = es[position(es, key)].deps;
        lemma_open_count_step(es, path, key);
        assert forall|j: int| 0 <= j < deps.len() implies s.contains(
            canonical_text(#[trigger] deps[j]),
        ) by {
            assert(s.contains(key));
        }
        lemma_walk_all_within(es, deps, path.push(key), order, s);
    }
}

proof fn lemma_walk_all_within(
    es: Seq<EntryView>,
    names: Seq<Seq<char>>,
    path: Seq<Seq<char>>,
    order: Seq<Seq<char>>,
    s: Set<Seq<char>>,
)
    requires
        closed_under_needs(es, s),
        forall|j: int| 0 <= j < names.len() ==> s.contains(canonical_text(#[trigger] names[j])),
        forall|i: int| 0 <= i < order.len() ==> s.contains(#[trigger] order[i]),
    ensures
        walk_all(es, names, path, order) matches Walk::Order(o) ==> forall|i: int|
            0 <= i < o.len() ==> s.contains(#[trigger] o[i]),
    decreases open_count(es, path), names.len() + 1,
{
    if names.len() > 0 {
        let before = names.drop_last();
        assert forall|j: int| 0 <= j < before.len() implies s.contains(
            canonical_text(#[trigger] before[j]),
        ) by {
            assert(before[j] == names[j]);
        }
        lemma_walk_all_within(es, before, path, order, s);
        if let Walk::Order(o) = walk_all(es, before, path, order) {
            assert(names.last() == names[names.len() - 1]);
            lemma_walk_within(es, names.last(), path, o, s);
        }
    }
}

/// Nothing is loaded that the module does not need: every set that holds the
/// module and all that its members need holds the whole order.
pub proof fn law_nothing_else_is_loaded(l: LoaderView, name: Seq<char>, s: Set<Seq<char>>)
    requires
        closed_under_needs(l.entries, s),
        s.contains(canonical_text(name)),
    ensures
        load_order(l, name) matches Walk::Order(o) ==> forall|i: int|
            0 <= i < o.len() ==> s.contains(#[trigger] o[i]),
{
    lemma_walk_within(l.entries, name, seq![], seq![], s);
}

proof fn lemma_walk_succeeds(
    es: Seq<EntryView>,
    name: Seq<char>,
    path: Seq<Seq<char>>,
    order: Seq<Seq<char>>,
    top: Seq<char>,
    s: Set<Seq<char>>,
    rank: spec_fn(Seq<char>) -> nat,
)
    requires
        loadable(es, top, s, rank),
        s.contains(canonical_text(name)),
        forall|i: int| 0 <= i < path.len() ==> rank(#[trigger] path[i]) > rank(
            canonical_text(name),
        ),
    ensures
        walk(es, name, path, order) is Order,
    decreases open_count(es, path), 0int,
{
    let key = canonical_text(name);
    if !path.contains(key) && !order.contains(key) {
        let deps = es[position(es, key)].deps;
        lemma_open_count_step(es, path, key);
        let below = path.push(key);
        assert forall|j: int| 0 <= j < deps.len() implies s.contains(
            canonical_text(#[trigger] deps[j]),
        ) && rank(canonical_text(deps[j])) < rank(key) by {
            assert(s.contains(key));
        }
        assert forall|i: int| 0 <= i < below.len() implies rank(#[trigger] below[i]) >= rank(
            key,
        ) by {
            if i < path.len() {
                assert(below[i] == path[i]);
            }
        }
        lemma_walk_all_succeeds(es, deps, below, order, top, s, rank, rank(key));
    }
}

proof fn lemma_walk_all_succeeds(
    es: Seq<EntryView>,
    names: Seq<Seq<char>>,
    path: Seq<Seq<char>>,
    order: Seq<Seq<char>>,
    top: Seq<char>,
    s: Set<Seq<char>>,
    rank: spec_fn(Seq<char>) -> nat,
    bound: nat,
)
    requires
        loadable(es, top, s, rank),
        forall|j: int|
            0 <= j < names.len() ==> s.contains(canonical_text(#[trigger] names[j])) && rank(
                canonical_text(names[j]),
            ) < bound,
        forall|i: int| 0 <= i < path.len() ==> rank(#[trigger] path[i]) >= bound,
    ensures
        walk_all(es, names, path, order) is Order,
    decreases open_count(es, path), names.len() + 1,
{
    if names.len() > 0 {
        let before = names.drop_last();
        assert forall|j: int| 0 <= j < before.len() implies s.contains(
            canonical_text(#[trigger] before[j]),
        ) && rank(canonical_text(before[j])) < bound by {
            assert(before[j] == names[j]);
        }
        lemma_walk_all_succeeds(es, before, path, order, top, s, rank, bound);
        let o = walk_all(es, before, path, order)->Order_0;
        assert(names.last() == names[names.len() - 1]);
        lemma_walk_succeeds(es, names.last(), path, o, top, s, rank);
    }
}

/// A module can be loaded if and only if all that it needs, near and far, is
/// known and nothing among it needs itself.
pub proof fn law_loads_unless_missing_or_circular(l: LoaderView, name: Seq<char>)
    ensures
        load_order(l, name) is Order <==> exists|
            s: Set<Seq<char>>,
            rank: spec_fn(Seq<char>) -> nat,
        | #[trigger] loadable(l.entries, canonical_text(name), s, rank),
{
    let key = canonical_text(name);
    let es = l.entries;
    if load_order(l, name) is Order {
        law_needs_come_first(l, name);
        let o = load_order(l, name)->Order_0;
        let s = Set::new(|x: Seq<char>| o.contains(x));
        let rank = |x: Seq<char>| o.index_of(x) as nat;
        assert forall|x: Seq<char>, j: int|
            #![trigger s.contains(x), es[position(es, x)].deps[j]]
            s.contains(x) && 0 <= j < es[position(es, x)].deps.len() implies s.contains(
            canonical_text(es[position(es, x)].deps[j]),
        ) && rank(canonical_text(es[position(es, x)].deps[j])) < rank(x) by {
            let i = o.index_of(x);
            assert(o[i] == x);
            let d = canonical_text(es[position(es, x)].deps[j]);
            assert(needs_met(es, o[i], o.take(i)));
            assert(o.take(i).contains(d));
            let k = choose|k: int| 0 <= k < i && o.take(i)[k] == d;
            assert(o[k] == d);
            assert(o.contains(d));
            assert(o.index_of(d) == k) by {
                let m = o.index_of(d);
                assert(o[m] == d);
            }
        }
        assert forall|x: Seq<char>| #[trigger] s.contains(x) implies known(es, x) by {
            let i = o.index_of(x);
            assert(o[i] == x);
        }
        assert(loadable(es, key, s, rank));
    }
    if exists|s: Set<Seq<char>>, rank: spec_fn(Seq<char>) -> nat| #[trigger]
        loadable(es, key, s, rank) {
        let (s, rank) = choose|s: Set<Seq<char>>, rank: spec_fn(Seq<char>) -> nat| #[trigger]
            loadable(es, key, s, rank);
        lemma_walk_succeeds(es, name, seq![], seq![], key, s, rank);
    }
}

/// Names that differ only in `-` and `_` load the same modules.
pub proof fn law_dashes_and_underscores_are_the_same(
    l: LoaderView,
    a: Seq<char>,
    b: Seq<char>,
)
    requires
        canonical_text(a) == canonical_text(b),
        load_order(l, a) is Order,
    ensures
        load_order(l, b) == load_order(l, a),
{
}

/// The last of the first `n` lines that describes a module.
pub open spec fn last_line(ls: Seq<Seq<char>>, n: nat, key: Seq<char>) -> Option<EntryView>
    decreases n,
{
    if n == 0 {
        None
    } else {
        match line_entry(ls[n - 1]) {
            Some(e) if e.key == key => Some(e),
            _ => last_line(ls, (n - 1) as nat, key),
        }
    }
}

/// The table knows a module if and only if a line describes it, and what it
/// says of the module is what the last such line says.
pub proof fn law_last_line_counts(ls: Seq<Seq<char>>, n: nat, key: Seq<char>)
    requires
        n <= ls.len(),
    ensures
        ({
            let es = dep_table(ls, n);
            match last_line(ls, n, key) {
                Some(e) => known(es, key) && es[position(es, key)] == e,
                None => !known(es, key),
            }
        }),
    decreases n,
{
    if n > 0 {
        law_last_line_counts(ls, (n - 1) as nat, key);
        let before = dep_table(ls, (n - 1) as nat);
        if let Some(e) = line_entry(ls[n - 1]) {
            lemma_position(before, key);
            lemma_position(before, e.key);
            let es = inserted(before, e);
            let k = position(before, e.key);
            if e.key == key {
                lemma_position_unique(es, key, k);
            } else {
                let m = position(before, key);
                if known(before, e.key) || m < before.len() {
                    assert forall|i: int| 0 <= i < m implies (#[trigger] es[i]).key != key by {
                        if i != k {
                            assert(es[i] == before[i]);
                        }
                    }
                    lemma_position_unique(es, key, m);
                } else {
                    assert forall|i: int| 0 <= i < es.len() implies (#[trigger] es[i]).key
                        != key by {
                        if i < before.len() {
                            assert(es[i] == before[i]);
                        }
                    }
                    lemma_position_unique(es, key, es.len() as int);
                }
            }
        }
    }
}

/// The installation medium is added once.
pub proof fn law_media_root_is_added_once(l: LoaderView)
    requires
        l.bases.len() > 0,
    ensures
        with_media_root(with_media_root(l)) == with_media_root(l),
{
    let m = with_media_root(l);
    if m.bases.len() > l.bases.len() {
        let ver = paths::file_name(l.bases[0])->0;
        assert(m.bases[0] == l.bases[0]);
        assert(paths::parts(m.bases[l.bases.len() as int]) == paths::parts(media_root(ver)));
    }
}

/// A module file is known by its name without `.ko`, whatever directory it
/// stands in.
pub proof fn law_modules_are_named_by_their_files(dir: Seq<char>, name: Seq<char>)
    requires
        !name.contains('/'),
    ensures
        stem(dir + seq!['/'] + name + ".ko"@) == name,
        stem(name + ".ko"@) == name,
{
    reveal_strlit(".ko");
    reveal_strlit(".");
    reveal_strlit("..");
    let f = name + ".ko"@;
    let p = dir + seq!['/'] + name + ".ko"@;
    assert(p =~= dir + seq!['/'] + f);
    assert(!f.contains('/')) by {
        assert forall|i: int| 0 <= i < f.len() implies f[i] != '/' by {
            if i < name.len() {
                assert(name[i] == f[i]);
                assert(name.contains(name[i]));
            }
        }
    }
    assert(f.last() == 'o');
    assert("."@.last() == '.' && ".."@.last() == '.');
    paths::law_slashes_part_paths(dir, f);
    paths::law_slashes_part_paths(f, seq![]);
    assert(paths::parts(p).last() == f);
    assert(paths::parts(f).last() == f);
    assert(f.skip(f.len() - 3) =~= ".ko"@);
    assert(f.take(f.len() - 3) =~= name);
}

/// A line of `modules.dep` describes the module of the file before its colon,
/// and each word behind the colon is a module that it needs.
pub proof fn law_lines_describe_modules(file: Seq<char>, needs: Seq<char>)
    requires
        !file.contains(':'),
    ensures
        ({
            let w = text::words(needs);
            &&& line_entry(file + seq![':'] + needs) matches Some(e)
            &&& e.path == text::trim(file)
            &&& e.key == canonical_text(stem(text::trim(file)))
            &&& e.deps.len() == w.len()
            &&& forall|i: int| 0 <= i < w.len() ==> #[trigger] e.deps[i] == stem(w[i])
        }),
        line_entry(file) is None,
{
    let l = file + seq![':'] + needs;
    let n = file.len() as int;
    text::lemma_find(l, ':');
    text::lemma_find(file, ':');
    assert(l[n] == ':');
    assert(text::find(l, ':') == n) by {
        let k = text::find(l, ':');
        if k < n {
            assert(file[k] == l[k]);
            assert(file.contains(':'));
        }
    }
    assert(l.take(n) =~= file);
    assert(l.skip(n + 1) =~= needs);
    if text::find(file, ':') < file.len() {
        assert(file[text::find(file, ':')] == ':');
    }
}

/// The canonical name of a module has the length of its name and differs from it
/// in dashes only, which become underscores.
pub proof fn law_only_dashes_are_replaced(s: Seq<char>, i: int)
    requires
        0 <= i < s.len(),
    ensures
        canonical_text(s).len() == s.len(),
        s[i] == '-' ==> canonical_text(s)[i] == '_',
        s[i] != '-' ==> canonical_text(s)[i] == s[i],
        canonical_text(canonical_text(s)) == canonical_text(s),
{
    assert(canonical_text(canonical_text(s)) =~= canonical_text(s));
}

proof fn lemma_folded_push(ls: Seq<Seq<char>>, l: Seq<char>, n: nat)
    requires
        n <= ls.len(),
    ensures
        folded(ls.push(l), n) == folded(ls, n),
    decreases n,
{
    if n > 0 {
        lemma_folded_push(ls, l, (n - 1) as nat);
        assert(ls.push(l)[n - 1] == ls[n - 1]);
    }
}

/// A line that ends in a backslash is continued by the next: a space takes the
/// place of the backslash, of the white space before it and of the line feed.
/// Other lines keep their line feed.
pub proof fn law_continued_lines_are_joined(ls: Seq<Seq<char>>, l: Seq<char>)
    ensures
        l.len() > 0 && l.last() == '\\' ==> folded(ls.push(l), ls.len() + 1) == folded(ls, ls.len())
            + text::trim_end(l.drop_last()) + seq![' '],
        !(l.len() > 0 && l.last() == '\\') ==> folded(ls.push(l), ls.len() + 1) == folded(
            ls,
            ls.len(),
        ) + l + seq!['\n'],
        folded(seq![], 0).len() == 0,
{
    reveal_strlit(" ");
    reveal_strlit("\n");
    assert(" "@ =~= seq![' ']);
    assert("\n"@ =~= seq!['\n']);
    lemma_folded_push(ls, l, ls.len());
    assert(ls.push(l)[ls.len() as int] == l);
}

/// Files are looked for in the roots in turn, under the path that the table
/// gives; the first root that has the file decides, and where none has it
/// loading fails.
pub proof fn law_roots_are_searched_in_turn(l: LoaderView, key: Seq<char>, tried: Seq<Attempt>, n: int)
    requires
        known(l.entries, key),
        0 <= n <= tried.len() <= l.bases.len(),
        forall|i: int| 0 <= i < n ==> tried[i] == Attempt::Missing,
        n < tried.len() ==> tried[n] != Attempt::Missing,
    ensures
        ({
            let path = l.entries[position(l.entries, key)].path;
            let f = finit_of(l, key, tried);
            if n < tried.len() {
                match tried[n] {
                    Attempt::Refused(code) => if code == 17 {
                        f is Loaded
                    } else {
                        f is Failed
                    },
                    _ => f is Loaded,
                }
            } else if n < l.bases.len() {
                f == FinitView::Try(paths::joined(l.bases[n], path))
            } else {
                f is Failed
            }
        }),
{
    lemma_first_found(tried, n);
}

/// The installation medium is looked at last, in its directory for the kernel
/// that the first root is for.
pub proof fn law_media_root_comes_last(l: LoaderView)
    requires
        l.bases.len() > 0,
        paths::file_name(l.bases[0]) is Some,
    ensures
        ({
            let ver = paths::file_name(l.bases[0])->0;
            let root = paths::joined(paths::joined("/media/cdrom"@, "grow/modules"@), ver);
            let m = with_media_root(l);
            &&& m.entries == l.entries
            &&& m.bases == l.bases || m.bases == l.bases.push(root)
            &&& exists|i: int|
                0 <= i < m.bases.len() && paths::parts(#[trigger] m.bases[i]) == paths::parts(root)
        }),
{
    let ver = paths::file_name(l.bases[0])->0;
    let m = with_media_root(l);
    if m.bases != l.bases {
        assert(m.bases[l.bases.len() as int] == media_root(ver));
    }
}

proof fn lemma_walk_paths(
    es: Seq<EntryView>,
    name: Seq<char>,
    p: Seq<Seq<char>>,
    q: Seq<Seq<char>>,
    order: Seq<Seq<char>>,
)
    requires
        walk(es, name, p, order) is Order,
        walk(es, name, q, order) is Order,
    ensures
        walk(es, name, p, order) == walk(es, name, q, order),
    decreases open_count(es, p), 0int,
{
    let key = canonical_text(name);
    if !order.contains(key) {
        lemma_open_count_step(es, p, key);
        let deps = es[position(es, key)].deps;
        lemma_walk_all_paths(es, deps, p.push(key), q.push(key), order);
    }
}

proof fn lemma_walk_all_paths(
    es: Seq<EntryView>,
    names: Seq<Seq<char>>,
    p: Seq<Seq<char>>,
    q: Seq<Seq<char>>,
    order: Seq<Seq<char>>,
)
    requires
        walk_all(es, names, p, order) is Order,
        walk_all(es, names, q, order) is Order,
    ensures
        walk_all(es, names, p, order) == walk_all(es, names, q, order),
    decreases open_count(es, p), names.len() + 1,
{
    if names.len() > 0 {
        lemma_walk_all_paths(es, names.drop_last(), p, q, order);
        let o = walk_all(es, names.drop_last(), p, order)->Order_0;
        lemma_walk_paths(es, names.last(), p, q, o);
    }
}

proof fn lemma_walk_all_begins(
    es: Seq<EntryView>,
    names: Seq<Seq<char>>,
    path: Seq<Seq<char>>,
    order: Seq<Seq<char>>,
    n: nat,
)
    requires
        n <= names.len(),
        in_order(es, order),
        order.no_duplicates(),
        walk_all(es, names, path, order) is Order,
    ensures
        walk_all(es, names.take(n as int), path, order) is Order,
        (walk_all(es, names.take(n as int), path, order)->Order_0).is_prefix_of(
            walk_all(es, names, path, order)->Order_0,
        ),
    decreases names.len(),
{
    if n == names.len() {
        assert(names.take(n as int) =~= names);
    } else {
        let before = names.drop_last();
        lemma_walk_all_begins(es, before, path, order, n);
        assert(before.take(n as int) =~= names.take(n as int));
        lemma_walk_all(es, before, path, order);
        let o = walk_all(es, before, path, order)->Order_0;
        lemma_walk(es, names.last(), path, o);
        let last = walk(es, names.last(), path, o)->Order_0;
        let first = walk_all(es, names.take(n as int), path, order)->Order_0;
        assert(first =~= last.take(first.len() as int)) by {
            assert(o == last.take(o.len() as int));
            assert(first == o.take(first.len() as int));
        }
    }
}

/// What a module needs is loaded in the order in which its line lists it: the
/// order begins with all that the first of them takes, and the module itself
/// comes last.
pub proof fn law_needs_are_loaded_as_listed(l: LoaderView, name: Seq<char>)
    requires
        load_order(l, name) is Order,
    ensures
        ({
            let key = canonical_text(name);
            let deps = l.entries[position(l.entries, key)].deps;
            let o = load_order(l, name)->Order_0;
            &&& o.len() > 0 && o.last() == key
            &&& deps.len() > 0 && load_order(l, deps[0]) is Order ==> (load_order(
                l,
                deps[0],
            )->Order_0).is_prefix_of(o)
            &&& deps.len() == 0 ==> o.len() == 1
        }),
{
    let es = l.entries;
    let key = canonical_text(name);
    let none = Seq::<Seq<char>>::empty();
    let deps = es[position(es, key)].deps;
    if deps.len() > 0 && load_order(l, deps[0]) is Order {
        let path = none.push(key);
        lemma_walk_all_begins(es, deps, path, none, 1);
        let first = deps.take(1);
        assert(first.drop_last() =~= Seq::<Seq<char>>::empty());
        assert(first.last() == deps[0]);
        reveal_with_fuel(walk_all, 2);
        assert(walk_all(es, first, path, none) == walk(es, deps[0], path, none));
        lemma_walk_paths(es, deps[0], path, none, none);
    }
}

/// The modules of a kernel stand in the directory of its release, and a loaded
/// module in that of its canonical name.
pub proof fn law_modules_have_their_directories(release: Seq<char>, name: Seq<char>)
    ensures
        base_of(release) == paths::joined("/lib/modules"@, text::trim(release)),
        loaded_path(name) == paths::joined("/sys/module"@, canonical_text(name)),
{
}

/// A table is read from the lines of `modules.dep` once those that are continued
/// have been joined.
pub proof fn law_tables_are_read_from_joined_lines(dep_text: Seq<char>, key: Seq<char>)
    ensures
        ({
            let ls = text::lines(dep_text);
            let joined = text::lines(folded(ls, ls.len()));
            let es = table_of(dep_text);
            match last_line(joined, joined.len(), key) {
                Some(e) => known(es, key) && es[position(es, key)] == e,
                None => !known(es, key),
            }
        }),
{
    let ls = text::lines(dep_text);
    let joined = text::lines(folded(ls, ls.len()));
    law_last_line_counts(joined, joined.len(), key);
}

} // verus!
