//! Putting things in order.
use crate::text::chars_of;
use vstd::prelude::*;

verus! {

/// Whether `a` stands no later than `b` in a list ordered by characters.
pub open spec fn text_le(a: Seq<char>, b: Seq<char>) -> bool
    decreases a.len(),
{
    a.len() == 0 || (b.len() > 0 && (a[0] < b[0] || (a[0] == b[0] && text_le(
        a.skip(1),
        b.skip(1),
    ))))
}

/// Whether `a` stands no later than `b` in a list ordered by characters.
pub fn is_text_le(a: &str, b: &str) -> (r: bool)
    ensures
        r == text_le(a@, b@),
{
    let v = chars_of(a);
    let w = chars_of(b);
    let mut i: usize = 0;
    assert(v@.skip(0) =~= v@);
    assert(w@.skip(0) =~= w@);
    while i < v.len()
        invariant
            i <= v@.len(),
            i <= w@.len(),
            v@ == a@,
            w@ == b@,
            text_le(v@, w@) == text_le(v@.skip(i as int), w@.skip(i as int)),
        decreases v@.len() - i,
    {
        assert(v@.skip(i as int).skip(1) =~= v@.skip(i + 1));
        if i == w.len() {
            return false;
        }
        assert(w@.skip(i as int).skip(1) =~= w@.skip(i + 1));
        if v[i] < w[i] {
            return true;
        }
        if v[i] != w[i] {
            return false;
        }
        i = i + 1;
    }
    true
}

pub proof fn lemma_text_le_total(a: Seq<char>, b: Seq<char>)
    ensures
        text_le(a, b) || text_le(b, a),
    decreases a.len(),
{
    if a.len() > 0 && b.len() > 0 {
        lemma_text_le_total(a.skip(1), b.skip(1));
    }
}

pub proof fn lemma_text_le_transitive(a: Seq<char>, b: Seq<char>, c: Seq<char>)
    requires
        text_le(a, b),
        text_le(b, c),
    ensures
        text_le(a, c),
    decreases a.len(),
{
    if a.len() > 0 && a[0] == b[0] && b[0] == c[0] {
        lemma_text_le_transitive(a.skip(1), b.skip(1), c.skip(1));
    }
}

/// Where `x` goes in `s`: behind all at the end of which it may stand.
pub open spec fn place<T>(s: Seq<T>, x: T, le: spec_fn(T, T) -> bool) -> int
    decreases s.len(),
{
    if s.len() == 0 || le(s.last(), x) {
        s.len() as int
    } else {
        place(s.drop_last(), x, le)
    }
}

/// `s` in order; what is equal keeps its order.
pub open spec fn sorted<T>(s: Seq<T>, le: spec_fn(T, T) -> bool) -> Seq<T>
    decreases s.len(),
{
    if s.len() == 0 {
        s
    } else {
        let before = sorted(s.drop_last(), le);
        before.insert(place(before, s.last(), le), s.last())
    }
}

pub open spec fn in_order<T>(s: Seq<T>, le: spec_fn(T, T) -> bool) -> bool {
    forall|i: int, j: int| 0 <= i < j < s.len() ==> le(#[trigger] s[i], #[trigger] s[j])
}

pub open spec fn is_total<T>(le: spec_fn(T, T) -> bool) -> bool {
    &&& forall|a: T, b: T| #[trigger] le(a, b) || le(b, a)
    &&& forall|a: T, b: T, c: T| #[trigger] le(a, b) && #[trigger] le(b, c) ==> le(a, c)
}

pub proof fn lemma_place<T>(s: Seq<T>, x: T, le: spec_fn(T, T) -> bool)
    ensures
        0 <= place(s, x, le) <= s.len(),
        forall|i: int| place(s, x, le) <= i < s.len() ==> !le(#[trigger] s[i], x),
        place(s, x, le) > 0 ==> le(s[place(s, x, le) - 1], x),
    decreases s.len(),
{
    if s.len() > 0 && !le(s.last(), x) {
        lemma_place(s.drop_last(), x, le);
        let n = place(s, x, le);
        assert forall|i: int| n <= i < s.len() implies !le(#[trigger] s[i], x) by {
            if i < s.len() - 1 {
                assert(s.drop_last()[i] == s[i]);
            }
        }
    }
}

/// `place` is the only position with what `lemma_place` says.
pub proof fn lemma_place_unique<T>(s: Seq<T>, x: T, le: spec_fn(T, T) -> bool, n: int)
    requires
        0 <= n <= s.len(),
        forall|i: int| n <= i < s.len() ==> !le(#[trigger] s[i], x),
        n > 0 ==> le(s[n - 1], x),
    ensures
        place(s, x, le) == n,
{
    lemma_place(s, x, le);
    let m = place(s, x, le);
    if m < n {
        assert(!le(s[n - 1], x));
    }
    if n < m {
        assert(!le(s[m - 1], x));
    }
}

/// Sorting puts in order and neither adds nor drops anything.
pub proof fn law_sorted<T>(s: Seq<T>, le: spec_fn(T, T) -> bool)
    requires
        is_total(le),
    ensures
        in_order(sorted(s, le), le),
        sorted(s, le).to_multiset() == s.to_multiset(),
        sorted(s, le).len() == s.len(),
    decreases s.len(),
{
    if s.len() > 0 {
        let x = s.last();
        law_sorted(s.drop_last(), le);
        let before = sorted(s.drop_last(), le);
        lemma_place(before, x, le);
        let n = place(before, x, le);
        let t = before.insert(n, x);
        assert forall|i: int, j: int| 0 <= i < j < t.len() implies le(
            #[trigger] t[i],
            #[trigger] t[j],
        ) by {
            if j == n {
                assert(t[i] == before[i]);
                if i < n - 1 {
                    assert(le(before[i], before[n - 1]));
                }
            } else if i == n {
                assert(t[j] == before[j - 1]);
                assert(!le(before[j - 1], x));
                assert(le(x, before[j - 1]) || le(before[j - 1], x));
            } else {
                let a = if i < n {
                    i
                } else {
                    i - 1
                };
                let b = if j < n {
                    j
                } else {
                    j - 1
                };
                assert(t[i] == before[a] && t[j] == before[b]);
            }
        }
        assert(s =~= s.drop_last().push(x));
        assert(t.to_multiset() =~= before.to_multiset().insert(x)) by {
            broadcast use vstd::seq_lib::group_to_multiset_ensures;

            assert(t.remove(n) =~= before);
            assert(t[n] == x);
            assert(t.contains(x));
            assert(t.to_multiset().count(x) > 0);
        }
        assert(s.to_multiset() =~= s.drop_last().to_multiset().insert(x)) by {
            broadcast use vstd::seq_lib::group_to_multiset_ensures;

        }
    }
}

/// A text stands no later than another where it is a beginning of it, or where
/// the first character in which they differ is the smaller one.
pub proof fn law_texts_are_ordered_by_characters(a: Seq<char>, b: Seq<char>)
    ensures
        text_le(a, b) <==> (a.len() <= b.len() && b.take(a.len() as int) == a) || exists|n: int|
            0 <= n < a.len() && n < b.len() && a[n] < b[n] && #[trigger] a.take(n) == b.take(n),
    decreases a.len(),
{
    if a.len() == 0 {
        assert(b.take(0) =~= a);
    } else if b.len() > 0 {
        let x = a.skip(1);
        let y = b.skip(1);
        law_texts_are_ordered_by_characters(x, y);
        if text_le(a, b) {
            if a[0] < b[0] {
                assert(a.take(0) =~= b.take(0));
            } else if x.len() <= y.len() && y.take(x.len() as int) == x {
                assert forall|i: int| 0 <= i < a.len() implies b[i] == a[i] by {
                    if i > 0 {
                        assert(y.take(x.len() as int)[i - 1] == x[i - 1]);
                    }
                }
                assert(b.take(a.len() as int) =~= a);
            } else {
                let n = choose|n: int|
                    0 <= n < x.len() && n < y.len() && x[n] < y[n] && #[trigger] x.take(n)
                        == y.take(n);
                assert forall|i: int| 0 <= i < n + 1 implies a[i] == b[i] by {
                    if i > 0 {
                        assert(x.take(n)[i - 1] == y.take(n)[i - 1]);
                    }
                }
                assert(a.take(n + 1) =~= b.take(n + 1));
            }
        }
        if a.len() <= b.len() && b.take(a.len() as int) == a {
            assert(b.take(a.len() as int)[0] == a[0]);
            assert forall|i: int| 0 <= i < x.len() implies y[i] == x[i] by {
                assert(b.take(a.len() as int)[i + 1] == a[i + 1]);
            }
            assert(y.take(x.len() as int) =~= x);
        } else if exists|n: int|
            0 <= n < a.len() && n < b.len() && a[n] < b[n] && #[trigger] a.take(n) == b.take(n) {
            let n = choose|n: int|
                0 <= n < a.len() && n < b.len() && a[n] < b[n] && #[trigger] a.take(n) == b.take(n);
            if n > 0 {
                assert(a.take(n)[0] == b.take(n)[0]);
                assert forall|i: int| 0 <= i < n - 1 implies x[i] == y[i] by {
                    assert(a.take(n)[i + 1] == b.take(n)[i + 1]);
                }
                assert(x.take(n - 1) =~= y.take(n - 1));
            }
        }
    }
}

} // verus!
