//! Numbers and names at fixed places in a row of bytes.
use vstd::prelude::*;

verus! {

/// The number that the `n` bytes of `s` from `at` on hold, lowest byte first.
pub open spec fn le_at(s: Seq<u8>, at: int, n: nat) -> nat
    decreases n,
{
    if n == 0 {
        0
    } else {
        s[at] as nat + 256 * le_at(s, at + 1, (n - 1) as nat)
    }
}

/// The number that the `n` bytes of `s` from `at` on hold, highest byte first.
pub open spec fn be_at(s: Seq<u8>, at: int, n: nat) -> nat
    decreases n,
{
    if n == 0 {
        0
    } else {
        256 * be_at(s, at, (n - 1) as nat) + s[at + n - 1] as nat
    }
}

/// Whether `s` holds from `at` on the bytes of an ASCII text.
pub open spec fn text_at(s: Seq<u8>, at: int, t: Seq<char>) -> bool {
    &&& at + t.len() <= s.len()
    &&& forall|i: int| 0 <= i < t.len() ==> s[at + i] as int == #[trigger] t[i] as int
}

pub fn le16(b: &Vec<u8>, at: usize) -> (r: u16)
    requires
        at + 2 <= b.len(),
    ensures
        r == le_at(b@, at as int, 2),
{
    reveal_with_fuel(le_at, 3);
    b[at] as u16 + 256 * (b[at + 1] as u16)
}

pub fn le32(b: &Vec<u8>, at: usize) -> (r: u32)
    requires
        at + 4 <= b.len(),
    ensures
        r == le_at(b@, at as int, 4),
{
    reveal_with_fuel(le_at, 5);
    b[at] as u32 + 0x100 * (b[at + 1] as u32) + 0x1_0000 * (b[at + 2] as u32) + 0x100_0000 * (
    b[at + 3] as u32)
}

pub fn le64(b: &Vec<u8>, at: usize) -> (r: u64)
    requires
        at + 8 <= b.len(),
    ensures
        r == le_at(b@, at as int, 8),
{
    reveal_with_fuel(le_at, 9);
    b[at] as u64 + 0x100 * (b[at + 1] as u64) + 0x1_0000 * (b[at + 2] as u64) + 0x100_0000 * (
    b[at + 3] as u64) + 0x1_0000_0000 * (b[at + 4] as u64) + 0x100_0000_0000 * (b[at + 5] as u64)
        + 0x1_0000_0000_0000 * (b[at + 6] as u64) + 0x100_0000_0000_0000 * (b[at + 7] as u64)
}

pub fn be32(b: &Vec<u8>, at: usize) -> (r: u32)
    requires
        at + 4 <= b.len(),
    ensures
        r == be_at(b@, at as int, 4),
{
    reveal_with_fuel(be_at, 5);
    0x100_0000 * (b[at] as u32) + 0x1_0000 * (b[at + 1] as u32) + 0x100 * (b[at + 2] as u32)
        + b[at + 3] as u32
}

pub fn be64(b: &Vec<u8>, at: usize) -> (r: u64)
    requires
        at + 8 <= b.len(),
    ensures
        r == be_at(b@, at as int, 8),
{
    reveal_with_fuel(be_at, 9);
    0x100_0000_0000_0000 * (b[at] as u64) + 0x1_0000_0000_0000 * (b[at + 1] as u64)
        + 0x100_0000_0000 * (b[at + 2] as u64) + 0x1_0000_0000 * (b[at + 3] as u64) + 0x100_0000 * (
    b[at + 4] as u64) + 0x1_0000 * (b[at + 5] as u64) + 0x100 * (b[at + 6] as u64) + b[at
        + 7] as u64
}

/// Whether `b` holds from `at` on the bytes of an ASCII text.
pub fn magic(b: &Vec<u8>, at: usize, t: &str) -> (r: bool)
    ensures
        r == text_at(b@, at as int, t@),
{
    let w = crate::text::chars_of(t);
    if at > b.len() || w.len() > b.len() - at {
        return false;
    }
    let mut i: usize = 0;
    while i < w.len()
        invariant
            i <= w@.len(),
            w@ == t@,
            at + w@.len() <= b.len(),
            forall|k: int| 0 <= k < i ==> b@[at + k] as int == #[trigger] t@[k] as int,
        decreases w@.len() - i,
    {
        let c: char = w[i];
        if b[at + i] as char != c {
            assert(b@[at + i] as int != t@[i as int] as int);
            return false;
        }
        i = i + 1;
    }
    true
}

/// Whether `s` holds the bytes `m` from `at` on.
pub open spec fn holds(s: Seq<u8>, at: int, m: Seq<u8>) -> bool {
    at + m.len() <= s.len() && s.subrange(at, at + m.len()) == m
}

/// To hold a text is to hold the bytes of its characters.
pub proof fn lemma_text_is_bytes(s: Seq<u8>, at: int, t: Seq<char>, m: Seq<u8>)
    requires
        0 <= at,
        t.len() == m.len(),
        forall|i: int| 0 <= i < t.len() ==> #[trigger] t[i] as int == m[i] as int,
    ensures
        text_at(s, at, t) == holds(s, at, m),
{
    if text_at(s, at, t) {
        let w = s.subrange(at, at + m.len());
        assert forall|i: int| 0 <= i < m.len() implies w[i] == m[i] by {
            assert(s[at + i] as int == t[i] as int);
        }
        assert(w =~= m);
    }
    if holds(s, at, m) {
        assert forall|i: int| 0 <= i < t.len() implies s[at + i] as int == #[trigger] t[i] as int by {
            assert(s.subrange(at, at + m.len())[i] == m[i]);
        }
    }
}

} // verus!
