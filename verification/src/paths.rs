//! Paths as text.
use crate::text;
use crate::text::{chars_of, is_text, part, string_of};
use vstd::prelude::*;
use vstd::string::*;

verus! {

/// `b` taken from the directory `a`; an absolute `b` stands for itself.
pub open spec fn joined(a: Seq<char>, b: Seq<char>) -> Seq<char> {
    if b.len() > 0 && b[0] == '/' {
        b
    } else if a.len() == 0 || a.last() == '/' {
        a + b
    } else {
        a + "/"@ + b
    }
}

/// `b` taken from the directory `a`.
pub fn join(a: &str, b: &str) -> (r: String)
    ensures
        r@ == joined(a@, b@),
{
    let v = chars_of(a);
    let w = chars_of(b);
    if w.len() > 0 && w[0] == '/' {
        return b.to_owned();
    }
    let mut s = a.to_owned();
    if v.len() > 0 && v[v.len() - 1] != '/' {
        s.append("/");
    }
    s.append(b);
    s
}

/// A part of a path, unless it is empty or stands for the directory itself.
pub open spec fn kept(p: Seq<char>) -> Seq<Seq<char>> {
    if p.len() == 0 || p == "."@ {
        seq![]
    } else {
        seq![p]
    }
}

/// The parts of a path between its slashes.
pub open spec fn parts(s: Seq<char>) -> Seq<Seq<char>>
    decreases s.len(),
    via parts_decreases
{
    let n = text::find(s, '/');
    if n < s.len() {
        kept(s.take(n)) + parts(s.skip(n + 1))
    } else {
        kept(s)
    }
}

#[via_fn]
proof fn parts_decreases(s: Seq<char>) {
    text::lemma_find(s, '/');
}

/// The last part of a path, unless it leads up.
pub open spec fn file_name(s: Seq<char>) -> Option<Seq<char>> {
    let p = parts(s);
    if p.len() == 0 || p.last() == ".."@ {
        None
    } else {
        Some(p.last())
    }
}

/// The parts of a path between its slashes.
pub fn split_parts(v: &Vec<char>) -> (r: Vec<Vec<char>>)
    ensures
        text::texts(r@) == parts(v@),
{
    let mut out: Vec<Vec<char>> = Vec::new();
    let mut at: usize = 0;
    assert(v@.skip(0) =~= v@);
    assert(text::texts(out@) + parts(v@) =~= parts(v@));
    loop
        invariant
            at <= v@.len(),
            text::texts(out@) + parts(v@.skip(at as int)) == parts(v@),
        decreases v@.len() - at,
    {
        let ghost rest = v@.skip(at as int);
        let ghost before = text::texts(out@);
        let end: usize = text::find_from(v, at, '/');
        let p = part(v, at, end);
        proof {
            text::lemma_find(rest, '/');
            assert(p@ =~= rest.take(end - at));
            if end < v@.len() {
                assert(rest.skip(end - at + 1) =~= v@.skip(end + 1));
            } else {
                assert(p@ =~= rest);
            }
        }
        let ghost piece = kept(p@);
        if p.len() > 0 && !is_text(&p, ".") {
            out.push(p);
            assert(text::texts(out@) =~= before.push(p@));
        }
        assert(text::texts(out@) =~= before + piece);
        if end == v.len() {
            return out;
        }
        assert(text::texts(out@) + parts(v@.skip(end + 1)) =~= before + parts(rest));
        at = end + 1;
    }
}

/// The last part of a path, unless it leads up.
pub fn file_name_of(s: &str) -> (r: Option<String>)
    ensures
        text::opt_text(r) == file_name(s@),
{
    let p = split_parts(&chars_of(s));
    if p.len() == 0 {
        return None;
    }
    let last = &p[p.len() - 1];
    assert(text::texts(p@).last() == last@);
    if is_text(last, "..") {
        None
    } else {
        Some(string_of(last))
    }
}

/// Whether two absolute paths have the same parts.
pub fn same_path(a: &str, b: &str) -> (r: bool)
    ensures
        r == (parts(a@) == parts(b@)),
{
    let p = split_parts(&chars_of(a));
    let q = split_parts(&chars_of(b));
    if p.len() != q.len() {
        assert(text::texts(p@).len() != text::texts(q@).len());
        return false;
    }
    let mut i: usize = 0;
    while i < p.len()
        invariant
            i <= p@.len(),
            p@.len() == q@.len(),
            text::texts(p@) == parts(a@),
            text::texts(q@) == parts(b@),
            forall|k: int| 0 <= k < i ==> text::texts(p@)[k] == text::texts(q@)[k],
        decreases p@.len() - i,
    {
        if !text::same(&p[i], &q[i]) {
            assert(text::texts(p@)[i as int] != text::texts(q@)[i as int]);
            return false;
        }
        i = i + 1;
    }
    assert(text::texts(p@) =~= text::texts(q@));
    true
}

/// A path is taken from a directory by a slash between them, unless the
/// directory ends in one; a path from the root stands for itself.
pub proof fn law_paths_are_joined_by_one_slash(a: Seq<char>, b: Seq<char>)
    ensures
        a.len() > 0 && a.last() != '/' && !(b.len() > 0 && b[0] == '/') ==> joined(a, b) == a
            + seq!['/'] + b,
        a.len() > 0 && a.last() == '/' && !(b.len() > 0 && b[0] == '/') ==> joined(a, b) == a + b,
        b.len() > 0 && b[0] == '/' ==> joined(a, b) == b,
{
    reveal_strlit("/");
    assert("/"@ =~= seq!['/']);
}

/// The parts of a path are those before a slash and then those behind it; a part
/// without a slash stands for itself, unless it is empty or a dot.
pub proof fn law_slashes_part_paths(a: Seq<char>, b: Seq<char>)
    ensures
        parts(a + seq!['/'] + b) == parts(a) + parts(b),
        !a.contains('/') && a.len() > 0 && a != "."@ ==> parts(a) == seq![a],
        parts(seq![]).len() == 0,
        parts("."@).len() == 0,
    decreases a.len(),
{
    reveal_strlit(".");
    let all = a + seq!['/'] + b;
    let n = text::find(a, '/');
    text::lemma_find(a, '/');
    text::lemma_find(all, '/');
    text::lemma_find("."@, '/');
    assert(all[a.len() as int] == '/');
    let m = text::find(all, '/');
    if n < a.len() {
        assert(all[n] == a[n]);
        assert(m == n) by {
            if m < n {
                assert(all[m] == a[m]);
            }
        }
        let r = a.skip(n + 1);
        law_slashes_part_paths(r, b);
        assert(all.take(n) =~= a.take(n));
        assert(all.skip(n + 1) =~= r + seq!['/'] + b);
        assert(kept(a.take(n)) + (parts(r) + parts(b)) =~= kept(a.take(n)) + parts(r) + parts(b));
    } else {
        assert(m == a.len()) by {
            if m < a.len() {
                assert(all[m] == a[m]);
            }
        }
        assert(all.take(m) =~= a);
        assert(all.skip(m + 1) =~= b);
    }
    if !a.contains('/') && n < a.len() {
        assert(a[n] == '/');
    }
    if text::find("."@, '/') < 1 {
        assert("."@[0] == '.');
    }
}

} // verus!
