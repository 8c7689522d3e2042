//! Reading from a disk at a given place.
use vstd::prelude::*;

verus! {

/// The first `n` bytes of `s`, or all of them where there are fewer.
pub open spec fn first_bytes(s: Seq<u8>, n: nat) -> Seq<u8> {
    if n <= s.len() {
        s.take(n as int)
    } else {
        s
    }
}

/// A disk, a partition or an image of one that can be read at any place.
pub trait ReadSeek: Sized {
    /// The bytes that can be read from `offset` on, up to where the device ends
    /// or a read fails. Of a device outside the program only this is known:
    /// that it gives the same bytes again.
    closed spec fn rest(&self, offset: u64) -> Seq<u8> {
        arbitrary::<spec_fn(Self, u64) -> Seq<u8>>()(*self, offset)
    }

    /// Reads up to `len` bytes from `offset` on.
    fn read_at(&self, offset: u64, len: usize) -> (r: Vec<u8>)
        ensures
            r@ == first_bytes(self.rest(offset), len as nat),
            offset + r@.len() <= 0x1_0000_0000_0000_0000,
    ;
}

/// The bytes that reading `len` bytes from `offset` on gives: fewer where the
/// device ends or a read fails.
pub open spec fn window<D: ReadSeek>(dev: D, offset: u64, len: nat) -> Seq<u8> {
    first_bytes(dev.rest(offset), len)
}

/// Reads up to `len` bytes from `offset` on.
pub fn read<D: ReadSeek>(dev: &D, offset: u64, len: usize) -> (r: Vec<u8>)
    ensures
        r@ == window(*dev, offset, len as nat),
        r@.len() <= len,
        offset + r@.len() <= 0x1_0000_0000_0000_0000,
{
    dev.read_at(offset, len)
}

/// A shorter read gives the first bytes of a longer one.
pub proof fn law_shorter_reads_agree<D: ReadSeek>(dev: D, offset: u64, short: nat, long: nat)
    requires
        short <= long,
    ensures
        window(dev, offset, short) == first_bytes(window(dev, offset, long), short),
        window(dev, offset, short).len() <= short,
{
    assert(window(dev, offset, short) =~= first_bytes(window(dev, offset, long), short));
}

/// A disk image in memory.
pub struct Image {
    pub bytes: Vec<u8>,
}

impl ReadSeek for Image {
    /// The bytes of the image from the place on.
    open spec fn rest(&self, offset: u64) -> Seq<u8> {
        if offset <= self.bytes@.len() {
            self.bytes@.skip(offset as int)
        } else {
            seq![]
        }
    }

    fn read_at(&self, offset: u64, len: usize) -> (r: Vec<u8>) {
        let mut r: Vec<u8> = Vec::new();
        let total: usize = self.bytes.len();
        if offset >= total as u64 {
            assert(r@ =~= first_bytes(self.rest(offset), len as nat));
            return r;
        }
        let from: usize = offset as usize;
        let to: usize = if len <= total - from {
            from + len
        } else {
            total
        };
        let mut i: usize = from;
        while i < to
            invariant
                from <= i <= to <= self.bytes@.len(),
                r@ == self.bytes@.subrange(from as int, i as int),
            decreases to - i,
        {
            r.push(self.bytes[i]);
            i = i + 1;
            assert(r@ =~= self.bytes@.subrange(from as int, i as int));
        }
        assert(r@ =~= first_bytes(self.rest(offset), len as nat));
        r
    }
}

impl Image {
    pub fn new(bytes: Vec<u8>) -> (r: Image)
        ensures
            r.bytes == bytes,
    {
        Image { bytes }
    }
}

/// An image gives the bytes that it holds, as far as it reaches.
pub proof fn law_images_give_their_bytes(image: Image, offset: u64, len: nat, i: int)
    ensures
        ({
            let w = window(image, offset, len);
            let total = image.bytes@.len();
            &&& offset + len <= total ==> w.len() == len
            &&& offset <= total < offset + len ==> w.len() == total - offset
            &&& offset > total ==> w.len() == 0
            &&& 0 <= i < w.len() ==> w[i] == image.bytes@[offset + i]
        }),
{
}

} // verus!
