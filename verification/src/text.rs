//! Text as sequences of characters: white space, lines, words, numbers.
use vstd::prelude::*;

verus! {

/// `String::push` appends the character to the end of the string.
pub assume_specification[ String::push ](s: &mut String, c: char)
    ensures
        final(s)@ == old(s)@.push(c),
;

/// The characters with the Unicode property White_Space.
pub open spec fn is_space(c: char) -> bool {
    ||| '\u{9}' <= c <= '\u{d}'
    ||| c == '\u{20}'
    ||| c == '\u{85}'
    ||| c == '\u{a0}'
    ||| c == '\u{1680}'
    ||| '\u{2000}' <= c <= '\u{200a}'
    ||| c == '\u{2028}'
    ||| c == '\u{2029}'
    ||| c == '\u{202f}'
    ||| c == '\u{205f}'
    ||| c == '\u{3000}'
}

pub open spec fn is_digit(c: char) -> bool {
    '0' <= c <= '9'
}

/// The texts that a vector of character vectors holds.
pub open spec fn texts(v: Seq<Vec<char>>) -> Seq<Seq<char>> {
    Seq::new(v.len(), |i: int| v[i]@)
}

/// The texts that a vector of strings holds.
pub open spec fn strings(v: Seq<String>) -> Seq<Seq<char>> {
    Seq::new(v.len(), |i: int| v[i]@)
}

/// The text that an optional string holds.
pub open spec fn opt_text(s: Option<String>) -> Option<Seq<char>> {
    match s {
        Some(t) => Some(t@),
        None => None,
    }
}

/// `s` without its leading white space.
pub open spec fn trim_start(s: Seq<char>) -> Seq<char>
    decreases s.len(),
{
    if s.len() > 0 && is_space(s[0]) {
        trim_start(s.skip(1))
    } else {
        s
    }
}

/// `s` without its trailing white space.
pub open spec fn trim_end(s: Seq<char>) -> Seq<char>
    decreases s.len(),
{
    if s.len() > 0 && is_space(s.last()) {
        trim_end(s.drop_last())
    } else {
        s
    }
}

/// `s` without white space at either end.
pub open spec fn trim(s: Seq<char>) -> Seq<char> {
    trim_end(trim_start(s))
}

/// The position of the first `c` in `s`, or the length of `s`.
pub open spec fn find(s: Seq<char>, c: char) -> int
    decreases s.len(),
{
    if s.len() == 0 || s[0] == c {
        0
    } else {
        1 + find(s.skip(1), c)
    }
}

/// The position of the first white space in `s`, or the length of `s`.
pub open spec fn word_len(s: Seq<char>) -> int
    decreases s.len(),
{
    if s.len() == 0 || is_space(s[0]) {
        0
    } else {
        1 + word_len(s.skip(1))
    }
}

pub open spec fn strip_cr(s: Seq<char>) -> Seq<char> {
    if s.len() > 0 && s.last() == '\r' {
        s.drop_last()
    } else {
        s
    }
}

/// The lines of `s`: each ends at a line feed, which with a carriage return
/// before it is no part of the line; the last line needs no line feed.
pub open spec fn lines(s: Seq<char>) -> Seq<Seq<char>>
    decreases s.len(),
    via lines_decreases
{
    if s.len() == 0 {
        seq![]
    } else if find(s, '\n') < s.len() {
        seq![strip_cr(s.take(find(s, '\n')))] + lines(s.skip(find(s, '\n') + 1))
    } else {
        seq![s]
    }
}

#[via_fn]
proof fn lines_decreases(s: Seq<char>) {
    lemma_find(s, '\n');
}

/// The maximal runs of characters in `s` that are no white space.
pub open spec fn words(s: Seq<char>) -> Seq<Seq<char>>
    decreases s.len(),
    via words_decreases
{
    let t = trim_start(s);
    if t.len() == 0 {
        seq![]
    } else {
        seq![t.take(word_len(t))] + words(t.skip(word_len(t)))
    }
}

#[via_fn]
proof fn words_decreases(s: Seq<char>) {
    lemma_trim_start(s);
    lemma_word_len(trim_start(s));
}

/// What stands before and behind the first `c` in `s`.
pub open spec fn split_once(s: Seq<char>, c: char) -> Option<(Seq<char>, Seq<char>)> {
    if find(s, c) < s.len() {
        Some((s.take(find(s, c)), s.skip(find(s, c) + 1)))
    } else {
        None
    }
}

pub open spec fn starts_with(s: Seq<char>, p: Seq<char>) -> bool {
    p.len() <= s.len() && s.take(p.len() as int) == p
}

pub open spec fn ends_with(s: Seq<char>, p: Seq<char>) -> bool {
    p.len() <= s.len() && s.skip(s.len() - p.len()) == p
}

/// `s` behind the prefix `p`, where it has that prefix.
pub open spec fn strip_prefix(s: Seq<char>, p: Seq<char>) -> Option<Seq<char>> {
    if starts_with(s, p) {
        Some(s.skip(p.len() as int))
    } else {
        None
    }
}

pub open spec fn all_digits(s: Seq<char>) -> bool {
    forall|i: int| 0 <= i < s.len() ==> is_digit(#[trigger] s[i])
}

/// The number that a row of decimal digits stands for.
pub open spec fn digits_value(s: Seq<char>) -> nat
    decreases s.len(),
{
    if s.len() == 0 {
        0
    } else {
        10 * digits_value(s.drop_last()) + (s.last() as nat - '0' as nat) as nat
    }
}

/// The number that `s` spells in decimal, an optional `+` before it, where it
/// spells one that is at most `max`.
pub open spec fn parse_number(s: Seq<char>, max: nat) -> Option<nat> {
    let d = if s.len() > 0 && s[0] == '+' {
        s.skip(1)
    } else {
        s
    };
    if d.len() > 0 && all_digits(d) && digits_value(d) <= max {
        Some(digits_value(d))
    } else {
        None
    }
}

pub open spec fn digit(n: nat) -> char {
    ('0' as nat + n) as char
}

/// The decimal digits of `n`.
pub open spec fn decimal(n: nat) -> Seq<char>
    decreases n,
{
    if n < 10 {
        seq![digit(n)]
    } else {
        decimal(n / 10).push(digit(n % 10))
    }
}

/// The decimal digits of `i`, with a sign before them where it is negative.
pub open spec fn decimal_int(i: int) -> Seq<char> {
    if i < 0 {
        seq!['-'] + decimal((-i) as nat)
    } else {
        decimal(i as nat)
    }
}

/// The lower-case hexadecimal digit for `n`.
pub open spec fn hex_digit(n: nat) -> char {
    if n < 10 {
        ('0' as nat + n) as char
    } else {
        ('a' as nat + (n - 10)) as char
    }
}

/// `b` as two hexadecimal digits.
pub open spec fn hex2(b: u8) -> Seq<char> {
    seq![hex_digit(b as nat / 16), hex_digit(b as nat % 16)]
}

pub proof fn lemma_find(s: Seq<char>, c: char)
    ensures
        0 <= find(s, c) <= s.len(),
        forall|i: int| 0 <= i < find(s, c) ==> s[i] != c,
        find(s, c) < s.len() ==> s[find(s, c)] == c,
    decreases s.len(),
{
    if s.len() == 0 || s[0] == c {
    } else {
        lemma_find(s.skip(1), c);
        assert forall|i: int| 0 <= i < find(s, c) implies s[i] != c by {
            if i > 0 {
                assert(s.skip(1)[i - 1] != c);
            }
        }
    }
}

/// The position that `find` gives is the only one with what `lemma_find` says.
pub proof fn lemma_find_unique(s: Seq<char>, c: char, n: int)
    requires
        0 <= n <= s.len(),
        forall|i: int| 0 <= i < n ==> s[i] != c,
        n < s.len() ==> s[n] == c,
    ensures
        find(s, c) == n,
{
    lemma_find(s, c);
    if find(s, c) < n {
        assert(s[find(s, c)] != c);
    }
    if n < find(s, c) {
        assert(s[n] != c);
    }
}

pub proof fn lemma_word_len(s: Seq<char>)
    ensures
        0 <= word_len(s) <= s.len(),
        forall|i: int| 0 <= i < word_len(s) ==> !is_space(s[i]),
        word_len(s) < s.len() ==> is_space(s[word_len(s)]),
        s.len() > 0 && !is_space(s[0]) ==> word_len(s) > 0,
    decreases s.len(),
{
    if s.len() == 0 || is_space(s[0]) {
    } else {
        lemma_word_len(s.skip(1));
        assert forall|i: int| 0 <= i < word_len(s) implies !is_space(s[i]) by {
            if i > 0 {
                assert(!is_space(s.skip(1)[i - 1]));
            }
        }
    }
}

pub proof fn lemma_word_len_unique(s: Seq<char>, n: int)
    requires
        0 <= n <= s.len(),
        forall|i: int| 0 <= i < n ==> !is_space(s[i]),
        n < s.len() ==> is_space(s[n]),
    ensures
        word_len(s) == n,
{
    lemma_word_len(s);
    if word_len(s) < n {
        assert(!is_space(s[word_len(s)]));
    }
    if n < word_len(s) {
        assert(!is_space(s[n]));
    }
}

/// `trim_start` gives the rest of `s` from its first character that is no white
/// space.
pub proof fn lemma_trim_start(s: Seq<char>)
    ensures
        trim_start(s).len() <= s.len(),
        trim_start(s) == s.skip(s.len() - trim_start(s).len()),
        forall|i: int| 0 <= i < s.len() - trim_start(s).len() ==> is_space(s[i]),
        trim_start(s).len() > 0 ==> !is_space(trim_start(s)[0]),
    decreases s.len(),
{
    if s.len() > 0 && is_space(s[0]) {
        let t = s.skip(1);
        lemma_trim_start(t);
        assert(s.skip(s.len() - trim_start(s).len()) =~= t.skip(t.len() - trim_start(t).len()));
        assert forall|i: int| 0 <= i < s.len() - trim_start(s).len() implies is_space(s[i]) by {
            if i > 0 {
                assert(is_space(t[i - 1]));
            }
        }
    } else {
        assert(s.skip(0) =~= s);
    }
}

pub proof fn lemma_trim_start_unique(s: Seq<char>, n: int)
    requires
        0 <= n <= s.len(),
        forall|i: int| 0 <= i < n ==> is_space(s[i]),
        n < s.len() ==> !is_space(s[n]),
    ensures
        trim_start(s) == s.skip(n),
{
    lemma_trim_start(s);
    let m = s.len() - trim_start(s).len();
    if m < n {
        assert(is_space(s[m]));
        assert(s.skip(m)[0] == s[m]);
    }
    if n < m {
        assert(is_space(s[n]));
    }
}

pub proof fn lemma_trim_end(s: Seq<char>)
    ensures
        trim_end(s).len() <= s.len(),
        trim_end(s) == s.take(trim_end(s).len() as int),
        forall|i: int| trim_end(s).len() <= i < s.len() ==> is_space(s[i]),
        trim_end(s).len() > 0 ==> !is_space(trim_end(s).last()),
    decreases s.len(),
{
    if s.len() > 0 && is_space(s.last()) {
        let t = s.drop_last();
        lemma_trim_end(t);
        assert(s.take(trim_end(s).len() as int) =~= t.take(trim_end(t).len() as int));
        assert forall|i: int| trim_end(s).len() <= i < s.len() implies is_space(s[i]) by {
            if i < s.len() - 1 {
                assert(is_space(t[i]));
            }
        }
    } else {
        assert(s.take(s.len() as int) =~= s);
    }
}

pub proof fn lemma_trim_end_unique(s: Seq<char>, n: int)
    requires
        0 <= n <= s.len(),
        forall|i: int| n <= i < s.len() ==> is_space(s[i]),
        n > 0 ==> !is_space(s[n - 1]),
    ensures
        trim_end(s) == s.take(n),
{
    lemma_trim_end(s);
    let m = trim_end(s).len() as int;
    if m < n {
        assert(is_space(s[n - 1]));
    }
    if n < m {
        assert(is_space(s[m - 1]));
        assert(s.take(m).last() == s[m - 1]);
    }
}

pub fn space(c: char) -> (r: bool)
    ensures
        r == is_space(c),
{
    ('\u{9}' <= c && c <= '\u{d}') || c == '\u{20}' || c == '\u{85}' || c == '\u{a0}' || c
        == '\u{1680}' || ('\u{2000}' <= c && c <= '\u{200a}') || c == '\u{2028}' || c == '\u{2029}'
        || c == '\u{202f}' || c == '\u{205f}' || c == '\u{3000}'
}

/// The characters of a string.
pub fn chars_of(s: &str) -> (r: Vec<char>)
    ensures
        r@ == s@,
{
    let mut r: Vec<char> = Vec::new();
    for c in it: s.chars()
        invariant
            r@ == it.seq().take(it.index()),
            it.seq() == s@,
    {
        r.push(c);
    }
    assert(s@.take(s@.len() as int) =~= s@);
    r
}

/// The string that some characters spell.
pub fn string_of(v: &Vec<char>) -> (r: String)
    ensures
        r@ == v@,
{
    let mut r: String = String::new();
    let mut i: usize = 0;
    while i < v.len()
        invariant
            i <= v@.len(),
            r@ == v@.take(i as int),
        decreases v@.len() - i,
    {
        r.push(v[i]);
        i = i + 1;
        assert(v@.take(i as int) =~= v@.take(i - 1).push(v@[i - 1]));
    }
    assert(v@.take(v@.len() as int) =~= v@);
    r
}

/// The characters of `v` from `from` to just before `to`.
pub fn part(v: &Vec<char>, from: usize, to: usize) -> (r: Vec<char>)
    requires
        from <= to <= v@.len(),
    ensures
        r@ == v@.subrange(from as int, to as int),
{
    let mut r: Vec<char> = Vec::new();
    let mut i: usize = from;
    while i < to
        invariant
            from <= i <= to <= v@.len(),
            r@ == v@.subrange(from as int, i as int),
        decreases to - i,
    {
        r.push(v[i]);
        i = i + 1;
        assert(v@.subrange(from as int, i as int) =~= v@.subrange(from as int, i - 1).push(
            v@[i - 1],
        ));
    }
    r
}

/// The position of the first `c` in `v` from `from` on, or the length of `v`.
pub fn find_from(v: &Vec<char>, from: usize, c: char) -> (r: usize)
    requires
        from <= v@.len(),
    ensures
        from <= r <= v@.len(),
        r - from == find(v@.skip(from as int), c),
{
    let mut i: usize = from;
    while i < v.len() && v[i] != c
        invariant
            from <= i <= v@.len(),
            forall|k: int| from <= k < i ==> v@[k] != c,
        decreases v@.len() - i,
    {
        i = i + 1;
    }
    proof {
        lemma_find_unique(v@.skip(from as int), c, i - from);
    }
    i
}

/// The bounds of `v` from `from` to `to` without white space at either end.
pub fn trim_bounds(v: &Vec<char>, from: usize, to: usize) -> (r: (usize, usize))
    requires
        from <= to <= v@.len(),
    ensures
        from <= r.0 <= r.1 <= to,
        v@.subrange(r.0 as int, r.1 as int) == trim(v@.subrange(from as int, to as int)),
{
    let mut a: usize = from;
    while a < to && space(v[a])
        invariant
            from <= a <= to <= v@.len(),
            forall|k: int| from <= k < a ==> is_space(v@[k]),
        decreases to - a,
    {
        a = a + 1;
    }
    let mut b: usize = to;
    while a < b && space(v[b - 1])
        invariant
            from <= a <= b <= to <= v@.len(),
            forall|k: int| b <= k < to ==> is_space(v@[k]),
        decreases b,
    {
        b = b - 1;
    }
    proof {
        let s = v@.subrange(from as int, to as int);
        assert forall|k: int| 0 <= k < a - from implies is_space(s[k]) by {
            assert(s[k] == v@[from + k]);
        }
        lemma_trim_start_unique(s, a - from);
        let t = s.skip(a - from);
        assert forall|k: int| b - a <= k < t.len() implies is_space(t[k]) by {
            assert(t[k] == v@[a + k]);
        }
        lemma_trim_end_unique(t, b - a);
        assert(t.take(b - a) =~= v@.subrange(a as int, b as int));
    }
    (a, b)
}

/// `v` without white space at either end.
pub fn trimmed(v: &Vec<char>) -> (r: Vec<char>)
    ensures
        r@ == trim(v@),
{
    let (a, b) = trim_bounds(v, 0, v.len());
    assert(v@.subrange(0, v@.len() as int) =~= v@);
    part(v, a, b)
}

/// A string without white space at either end.
pub fn trimmed_str(s: &str) -> (r: String)
    ensures
        r@ == trim(s@),
{
    string_of(&trimmed(&chars_of(s)))
}

/// The lines of `v`.
pub fn split_lines(v: &Vec<char>) -> (r: Vec<Vec<char>>)
    ensures
        texts(r@) == lines(v@),
{
    let mut out: Vec<Vec<char>> = Vec::new();
    let mut at: usize = 0;
    assert(v@.skip(0) =~= v@);
    while at < v.len()
        invariant
            at <= v@.len(),
            texts(out@) + lines(v@.skip(at as int)) == lines(v@),
        decreases v@.len() - at,
    {
        let ghost rest = v@.skip(at as int);
        let ghost before = texts(out@);
        let end: usize = find_from(v, at, '\n');
        let cut: usize = if end < v.len() && at < end && v[end - 1] == '\r' {
            end - 1
        } else {
            end
        };
        let line = part(v, at, cut);
        proof {
            lemma_find(rest, '\n');
            if end < v@.len() {
                assert(rest.take(end - at) =~= v@.subrange(at as int, end as int));
                assert(line@ =~= strip_cr(rest.take(end - at)));
                assert(rest.skip(end - at + 1) =~= v@.skip(end + 1));
            } else {
                assert(line@ =~= rest);
                assert(v@.skip(v@.len() as int) =~= Seq::<char>::empty());
            }
        }
        out.push(line);
        proof {
            assert(texts(out@) =~= before.push(line@));
            if end < v@.len() {
                assert(texts(out@) + lines(v@.skip(end + 1)) =~= before + lines(rest));
            } else {
                assert(lines(v@.skip(v@.len() as int)) =~= Seq::<Seq<char>>::empty());
                assert(texts(out@) + Seq::<Seq<char>>::empty() =~= before + lines(rest));
            }
        }
        at = if end < v.len() {
            end + 1
        } else {
            end
        };
    }
    proof {
        assert(v@.skip(at as int) =~= Seq::<char>::empty());
        assert(lines(v@.skip(at as int)) =~= Seq::<Seq<char>>::empty());
        assert(texts(out@) + lines(v@.skip(at as int)) =~= texts(out@));
    }
    out
}

/// The words of `v`.
pub fn split_words(v: &Vec<char>) -> (r: Vec<Vec<char>>)
    ensures
        texts(r@) == words(v@),
{
    let mut out: Vec<Vec<char>> = Vec::new();
    let mut at: usize = 0;
    assert(v@.skip(0) =~= v@);
    loop
        invariant
            at <= v@.len(),
            texts(out@) + words(v@.skip(at as int)) == words(v@),
        decreases v@.len() - at,
    {
        let ghost rest = v@.skip(at as int);
        let ghost before = texts(out@);
        let mut a: usize = at;
        while a < v.len() && space(v[a])
            invariant
                at <= a <= v@.len(),
                forall|k: int| at <= k < a ==> is_space(v@[k]),
            decreases v@.len() - a,
        {
            a = a + 1;
        }
        let ghost t = v@.skip(a as int);
        proof {
            lemma_trim_start_unique(rest, a - at);
            assert(rest.skip(a - at) =~= t);
        }
        if a == v.len() {
            assert(words(rest) =~= Seq::<Seq<char>>::empty());
            assert(before + words(rest) =~= before);
            return out;
        }
        let mut b: usize = a;
        while b < v.len() && !space(v[b])
            invariant
                a <= b <= v@.len(),
                forall|k: int| a <= k < b ==> !is_space(v@[k]),
            decreases v@.len() - b,
        {
            b = b + 1;
        }
        let word = part(v, a, b);
        proof {
            lemma_word_len_unique(t, b - a);
            lemma_word_len(t);
            assert(t.take(b - a) =~= word@);
            assert(t.skip(b - a) =~= v@.skip(b as int));
        }
        out.push(word);
        proof {
            assert(texts(out@) =~= before.push(word@));
            assert(texts(out@) + words(v@.skip(b as int)) =~= before + words(rest));
        }
        at = b;
    }
}

/// Whether `v` spells `s`.
pub fn is_text(v: &Vec<char>, s: &str) -> (r: bool)
    ensures
        r == (v@ == s@),
{
    let w = chars_of(s);
    same(v, &w)
}

/// Whether two texts are the same.
pub fn same(v: &Vec<char>, w: &Vec<char>) -> (r: bool)
    ensures
        r == (v@ == w@),
{
    if v.len() != w.len() {
        return false;
    }
    let mut i: usize = 0;
    while i < v.len()
        invariant
            i <= v@.len(),
            v@.len() == w@.len(),
            forall|k: int| 0 <= k < i ==> v@[k] == w@[k],
        decreases v@.len() - i,
    {
        if v[i] != w[i] {
            return false;
        }
        i = i + 1;
    }
    assert(v@ =~= w@);
    true
}

/// Whether two strings are the same.
pub fn same_str(s: &str, t: &str) -> (r: bool)
    ensures
        r == (s@ == t@),
{
    let v = chars_of(s);
    is_text(&v, t)
}

/// Whether `v` begins with `p`.
pub fn has_prefix(v: &Vec<char>, p: &str) -> (r: bool)
    ensures
        r == starts_with(v@, p@),
{
    let w = chars_of(p);
    if w.len() > v.len() {
        return false;
    }
    let head = part(v, 0, w.len());
    assert(head@ =~= v@.take(p@.len() as int));
    same(&head, &w)
}

/// Whether `v` ends with `p`.
pub fn has_suffix(v: &Vec<char>, p: &str) -> (r: bool)
    ensures
        r == ends_with(v@, p@),
{
    let w = chars_of(p);
    if w.len() > v.len() {
        return false;
    }
    let tail = part(v, v.len() - w.len(), v.len());
    assert(tail@ =~= v@.skip(v@.len() - p@.len()));
    same(&tail, &w)
}

proof fn lemma_digits_prefix(s: Seq<char>, n: int)
    requires
        0 <= n <= s.len(),
        all_digits(s),
    ensures
        digits_value(s.take(n)) <= digits_value(s),
    decreases s.len() - n,
{
    if n < s.len() {
        assert(s.take(n + 1).drop_last() =~= s.take(n));
        assert(is_digit(s[n]));
        lemma_digits_prefix(s, n + 1);
    } else {
        assert(s.take(n) =~= s);
    }
}

/// The number that `v` spells in decimal, where it is at most `max`.
pub fn parse_up_to(v: &Vec<char>, max: u64) -> (r: Option<u64>)
    ensures
        match r {
            Some(n) => parse_number(v@, max as nat) == Some(n as nat),
            None => parse_number(v@, max as nat) is None,
        },
{
    let start: usize = if v.len() > 0 && v[0] == '+' {
        1
    } else {
        0
    };
    let ghost d = v@.skip(start as int);
    proof {
        assert(start == 0 ==> d =~= v@);
    }
    if start == v.len() {
        return None;
    }
    let mut n: u64 = 0;
    let mut i: usize = start;
    while i < v.len()
        invariant
            start <= i <= v@.len(),
            d == v@.skip(start as int),
            d == (if v@.len() > 0 && v@[0] == '+' {
                v@.skip(1)
            } else {
                v@
            }),
            all_digits(d.take(i - start)),
            n == digits_value(d.take(i - start)),
            n <= max,
        decreases v@.len() - i,
    {
        let c = v[i];
        assert(d[i - start] == c);
        if c < '0' || '9' < c {
            assert(!is_digit(d[i - start]));
            return None;
        }
        let ghost more = d.take(i - start + 1);
        proof {
            assert(more.drop_last() =~= d.take(i - start));
            assert(more.last() == c);
            assert forall|k: int| 0 <= k < more.len() implies is_digit(#[trigger] more[k]) by {
                if k < i - start {
                    assert(more[k] == d.take(i - start)[k]);
                }
            }
        }
        let digit: u64 = (c as u32 - '0' as u32) as u64;
        let over = match n.checked_mul(10) {
            None => true,
            Some(m) => match m.checked_add(digit) {
                None => true,
                Some(k) => k > max,
            },
        };
        if over {
            proof {
                assert(digits_value(more) > max);
                if all_digits(d) {
                    lemma_digits_prefix(d, i - start + 1);
                }
            }
            return None;
        }
        n = n * 10 + digit;
        i = i + 1;
    }
    assert(d.take(d.len() as int) =~= d);
    Some(n)
}

fn digit_char(n: u64) -> (r: char)
    requires
        n < 10,
    ensures
        r == digit(n as nat),
{
    match n {
        0 => '0',
        1 => '1',
        2 => '2',
        3 => '3',
        4 => '4',
        5 => '5',
        6 => '6',
        7 => '7',
        8 => '8',
        _ => '9',
    }
}

/// The decimal digits of `n` at the end of `s`.
pub fn push_decimal(s: &mut String, n: u64)
    ensures
        final(s)@ == old(s)@ + decimal(n as nat),
    decreases n,
{
    if n < 10 {
        s.push(digit_char(n));
        assert(s@ =~= old(s)@ + decimal(n as nat));
    } else {
        push_decimal(s, n / 10);
        s.push(digit_char(n % 10));
        assert(s@ =~= old(s)@ + decimal(n as nat));
    }
}

/// The decimal digits of `n`.
pub fn decimal_of(n: u64) -> (r: String)
    ensures
        r@ == decimal(n as nat),
{
    let mut s = String::new();
    push_decimal(&mut s, n);
    assert(s@ =~= decimal(n as nat));
    s
}

/// The decimal digits of `i`, with its sign, at the end of `s`.
pub fn push_decimal_int(s: &mut String, i: i32)
    ensures
        final(s)@ == old(s)@ + decimal_int(i as int),
{
    if i < 0 {
        s.push('-');
        let m: i64 = -(i as i64);
        push_decimal(s, m as u64);
        assert(s@ =~= old(s)@ + decimal_int(i as int));
    } else {
        push_decimal(s, i as u64);
    }
}

fn hex_char(n: u8) -> (r: char)
    requires
        n < 16,
    ensures
        r == hex_digit(n as nat),
{
    match n {
        0 => '0',
        1 => '1',
        2 => '2',
        3 => '3',
        4 => '4',
        5 => '5',
        6 => '6',
        7 => '7',
        8 => '8',
        9 => '9',
        10 => 'a',
        11 => 'b',
        12 => 'c',
        13 => 'd',
        14 => 'e',
        _ => 'f',
    }
}

/// `b` as two hexadecimal digits at the end of `s`.
pub fn push_hex2(s: &mut String, b: u8)
    ensures
        final(s)@ == old(s)@ + hex2(b),
{
    s.push(hex_char(b / 16));
    s.push(hex_char(b % 16));
    assert(s@ =~= old(s)@ + hex2(b));
}

/// What `String::from_utf8_lossy` makes of a row of bytes.
pub uninterp spec fn utf8_lossy(b: Seq<u8>) -> Seq<char>;

/// `String::from_utf8_lossy`: the text that the bytes encode, where they are
/// UTF-8; where they are not, a text with replacement characters that depends
/// on the bytes alone.
#[verifier::external_body]
pub(crate) fn from_utf8_lossy(b: &Vec<u8>) -> (r: String)
    ensures
        r@ == utf8_lossy(b@),
        vstd::utf8::valid_utf8(b@) ==> r@ == vstd::utf8::decode_utf8(b@),
{
    String::from_utf8_lossy(b).into_owned()
}

/// A number reads back from its decimal digits.
pub proof fn law_decimal_parses(n: nat, max: nat)
    requires
        n <= max,
    ensures
        parse_number(decimal(n), max) == Some(n),
        all_digits(decimal(n)),
        decimal(n).len() > 0,
{
    lemma_decimal(n);
    assert(is_digit(decimal(n)[0]));
}

proof fn lemma_decimal(n: nat)
    ensures
        decimal(n).len() > 0,
        all_digits(decimal(n)),
        digits_value(decimal(n)) == n,
    decreases n,
{
    reveal_with_fuel(digits_value, 2);
    if n < 10 {
        assert(decimal(n).drop_last() =~= Seq::<char>::empty());
    } else {
        lemma_decimal(n / 10);
        assert(decimal(n).drop_last() =~= decimal(n / 10));
        assert forall|i: int| 0 <= i < decimal(n).len() implies is_digit(
            #[trigger] decimal(n)[i],
        ) by {
            if i < decimal(n / 10).len() {
                assert(decimal(n)[i] == decimal(n / 10)[i]);
            }
        }
    }
}

/// Text that stands on a line of its own and comes back as it was written: no
/// line feed, no white space at either end.
pub open spec fn is_plain(t: Seq<char>) -> bool {
    &&& !t.contains('\n')
    &&& t.len() > 0 ==> !is_space(t[0]) && !is_space(t.last())
}

pub proof fn lemma_trim_plain(t: Seq<char>)
    requires
        is_plain(t),
    ensures
        trim(t) == t,
{
    lemma_trim_start_unique(t, 0);
    assert(t.skip(0) =~= t);
    lemma_trim_end_unique(t, t.len() as int);
    assert(t.take(t.len() as int) =~= t);
}

/// A line and its line feed come first among the lines.
pub proof fn lemma_lines_cons(a: Seq<char>, rest: Seq<char>)
    requires
        !a.contains('\n'),
        a.len() > 0 ==> a.last() != '\r',
    ensures
        lines(a + seq!['\n'] + rest) == seq![a] + lines(rest),
{
    let s = a + seq!['\n'] + rest;
    let n = a.len() as int;
    assert forall|i: int| 0 <= i < n implies s[i] != '\n' by {
        assert(s[i] == a[i]);
        assert(a.contains(a[i]));
    }
    assert(s[n] == '\n');
    lemma_find_unique(s, '\n', n);
    assert(s.take(n) =~= a);
    assert(s.skip(n + 1) =~= rest);
}

/// A key without `=` is split from its value at the first `=`.
pub proof fn lemma_split_once(k: Seq<char>, c: char, v: Seq<char>)
    requires
        !k.contains(c),
    ensures
        split_once(k + seq![c] + v, c) == Some((k, v)),
{
    let s = k + seq![c] + v;
    let n = k.len() as int;
    assert forall|i: int| 0 <= i < n implies s[i] != c by {
        assert(s[i] == k[i]);
        assert(k.contains(k[i]));
    }
    lemma_find_unique(s, c, n);
    assert(s.take(n) =~= k);
    assert(s.skip(n + 1) =~= v);
}

pub proof fn lemma_decimal_plain(n: nat)
    ensures
        is_plain(decimal(n)),
{
    lemma_decimal(n);
    assert forall|i: int| 0 <= i < decimal(n).len() implies decimal(n)[i] != '\n' by {
        assert(is_digit(decimal(n)[i]));
    }
    assert(is_digit(decimal(n)[0]));
    assert(is_digit(decimal(n)[decimal(n).len() - 1]));
}

/// A text is trimmed to the stretch of it that begins and ends with something
/// else than white space and has nothing but white space around it.
pub proof fn law_only_white_space_is_trimmed(s: Seq<char>)
    ensures
        exists|a: int, b: int|
            {
                let t = trim(s);
                &&& 0 <= a <= b <= s.len()
                &&& t == #[trigger] s.subrange(a, b)
                &&& forall|i: int| 0 <= i < a ==> is_space(#[trigger] s[i])
                &&& forall|i: int| b <= i < s.len() ==> is_space(#[trigger] s[i])
                &&& t.len() > 0 ==> !is_space(t[0]) && !is_space(t.last())
            },
        is_space(' ') && is_space('\t') && is_space('\n') && is_space('\r'),
        is_space('\u{b}') && is_space('\u{c}') && is_space('\u{85}') && is_space('\u{a0}'),
        is_space('\u{2003}') && is_space('\u{2028}') && is_space('\u{3000}'),
        forall|c: char| '!' <= c <= '~' ==> !is_space(c),
{
    let m = trim_start(s);
    let t = trim(s);
    lemma_trim_start(s);
    lemma_trim_end(m);
    let a = s.len() - m.len();
    let b = a + t.len();
    assert(t =~= s.subrange(a, b));
    assert forall|i: int| b <= i < s.len() implies is_space(#[trigger] s[i]) by {
        assert(is_space(m[i - a]));
    }
    if t.len() > 0 {
        assert(t[0] == m[0]);
    }
}

/// The words of two texts with white space between them are those of the first
/// and then those of the second; a text without white space is one word.
pub proof fn law_white_space_parts_words(a: Seq<char>, c: char, b: Seq<char>)
    requires
        is_space(c),
    ensures
        words(a + seq![c] + b) == words(a) + words(b),
        (forall|i: int| 0 <= i < a.len() ==> !is_space(#[trigger] a[i])) && a.len() > 0 ==> words(a)
            == seq![a],
        words(seq![]).len() == 0,
    decreases a.len(),
{
    let all = a + seq![c] + b;
    let t = trim_start(a);
    let n = a.len() - t.len();
    lemma_trim_start(a);
    lemma_word_len(t);
    let w = word_len(t);
    if t.len() == 0 {
        lemma_trim_start(b);
        let m = b.len() - trim_start(b).len();
        assert forall|i: int| 0 <= i < a.len() + 1 + m implies is_space(#[trigger] all[i]) by {
            if i < a.len() {
                assert(is_space(a[i]));
            } else if i > a.len() {
                assert(is_space(b[i - a.len() - 1]));
            }
        }
        if m < b.len() {
            assert(trim_start(b)[0] == b[m]);
            assert(all[a.len() + 1 + m] == b[m]);
        }
        lemma_trim_start_unique(all, a.len() + 1 + m);
        assert(all.skip(a.len() + 1 + m) =~= b.skip(m));
        assert(words(a) + words(b) =~= words(b));
    } else {
        let u = t + seq![c] + b;
        assert forall|i: int| 0 <= i < n implies is_space(#[trigger] all[i]) by {
            assert(is_space(a[i]));
        }
        assert(all[n] == t[0]);
        lemma_trim_start_unique(all, n);
        assert(all.skip(n) =~= u);
        assert forall|i: int| 0 <= i < w implies !is_space(#[trigger] u[i]) by {
            assert(!is_space(t[i]));
        }
        if w < t.len() {
            assert(u[w] == t[w]);
        } else {
            assert(u[w] == c);
        }
        lemma_word_len_unique(u, w);
        let r = t.skip(w);
        law_white_space_parts_words(r, c, b);
        assert(u.take(w) =~= t.take(w));
        assert(u.skip(w) =~= r + seq![c] + b);
        assert(words(all) == seq![t.take(w)] + (words(r) + words(b)));
        assert(words(a) + words(b) =~= seq![t.take(w)] + (words(r) + words(b)));
    }
    if (forall|i: int| 0 <= i < a.len() ==> !is_space(#[trigger] a[i])) && a.len() > 0 {
        assert(!is_space(a[0]));
        lemma_trim_start_unique(a, 0);
        assert(a.skip(0) =~= a);
        lemma_word_len_unique(a, a.len() as int);
        assert(a.take(a.len() as int) =~= a);
        assert(a.skip(a.len() as int) =~= seq![]);
        assert(words(a) =~= seq![a]);
    }
}

/// A line feed ends a line, with a carriage return before it or without one, and
/// the lines behind it follow; a text without a line feed is one line.
pub proof fn law_line_feeds_part_lines(line: Seq<char>, rest: Seq<char>)
    requires
        !line.contains('\n'),
    ensures
        !(line.len() > 0 && line.last() == '\r') ==> lines(line + seq!['\n'] + rest) == seq![line]
            + lines(rest),
        lines(line + seq!['\r', '\n'] + rest) == seq![line] + lines(rest),
        line.len() > 0 ==> lines(line) == seq![line],
        lines(seq![]).len() == 0,
{
    let a = line + seq!['\n'] + rest;
    let b = line + seq!['\r', '\n'] + rest;
    let n = line.len() as int;
    lemma_find(a, '\n');
    lemma_find(b, '\n');
    lemma_find(line, '\n');
    assert(a[n] == '\n' && b[n] == '\r' && b[n + 1] == '\n');
    assert(find(a, '\n') == n) by {
        if find(a, '\n') < n {
            assert(line[find(a, '\n')] == '\n');
        }
    }
    assert(find(b, '\n') == n + 1) by {
        if find(b, '\n') < n {
            assert(line[find(b, '\n')] == '\n');
        }
    }
    assert(a.take(n) =~= line);
    assert(a.skip(n + 1) =~= rest);
    assert(b.take(n + 1) =~= line.push('\r'));
    assert(b.take(n + 1).drop_last() =~= line);
    assert(b.skip(n + 2) =~= rest);
    if find(line, '\n') < line.len() {
        assert(line[find(line, '\n')] == '\n');
    }
}

/// A number is read from digits alone, one digit after the other, each counting
/// ten times less than the one before it; a `+` may stand before them.
pub proof fn law_digits_count_by_tens(s: Seq<char>, c: char, max: nat)
    ensures
        s.len() > 0 && all_digits(s) && is_digit(c) ==> digits_value(s.push(c)) == 10
            * digits_value(s) + (c as int - '0' as int),
        is_digit(c) ==> digits_value(seq![c]) == c as int - '0' as int,
        all_digits(s) && s.len() > 0 && digits_value(s) <= max ==> parse_number(s, max) == Some(
            digits_value(s),
        ) && parse_number(seq!['+'] + s, max) == Some(digits_value(s)),
        all_digits(s) && digits_value(s) > max ==> parse_number(s, max) is None,
        s.len() > 0 && s[0] != '+' && !all_digits(s) ==> parse_number(s, max) is None,
        parse_number(seq![], max) is None,
{
    reveal_with_fuel(digits_value, 2);
    assert(s.push(c).drop_last() =~= s);
    assert(seq![c].drop_last() =~= Seq::<char>::empty());
    assert((seq!['+'] + s).skip(1) =~= s);
    if s.len() > 0 && all_digits(s) {
        assert(is_digit(s[0]));
    }
}

/// A number is written without zeros before it, and a minus stands before one
/// below zero.
pub proof fn law_numbers_have_no_leading_zeros(n: nat)
    ensures
        n > 0 ==> decimal(n)[0] != '0',
        decimal(0) == seq!['0'],
        n > 0 ==> decimal_int(-(n as int)) == seq!['-'] + decimal(n),
        decimal_int(n as int) == decimal(n),
    decreases n,
{
    if n >= 10 {
        law_numbers_have_no_leading_zeros(n / 10);
        lemma_decimal(n / 10);
    }
    assert(decimal(0) =~= seq!['0']);
}

/// Two hexadecimal digits tell a byte: the first counts sixteens, and letters
/// are small.
pub proof fn law_hexadecimal_digits_tell_a_byte(b: u8, i: int)
    requires
        0 <= i < 2,
    ensures
        ({
            let c = hex2(b)[i];
            let n = if i == 0 {
                b / 16
            } else {
                b % 16
            };
            &&& hex2(b).len() == 2
            &&& n < 10 ==> c as int == '0' as int + n
            &&& n >= 10 ==> c as int == 'a' as int + n - 10
        }),
{
}

} // verus!
