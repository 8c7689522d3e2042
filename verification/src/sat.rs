//! What an ATA disk says of itself, asked for through SCSI (SAT).
//!
//! IDENTIFY DEVICE is sent in an ATA PASS-THROUGH command of 16 bytes or, for
//! old bridges, of 12. The answer holds strings in 16-bit words whose bytes are
//! swapped.
use crate::bytes;
use crate::bytes::le16;
use crate::text;
use crate::text::{chars_of, from_utf8_lossy, part, string_of};
use vstd::prelude::*;

verus! {

pub const SG_CHECK_CONDITION: u8 = 0x02;

pub const SG_DRIVER_SENSE: u16 = 0x08;

/// How long the kernel waits for the disk.
pub const TIMEOUT_MS: u32 = 5000;

/// What IDENTIFY DEVICE tells of a disk.
#[derive(Debug, Clone)]
pub struct IdentifyData {
    pub model: String,
    pub serial: String,
    /// 0: not reported, 1: no moving parts, otherwise turns per minute.
    pub rotation_rate: u16,
}

#[verifier::ext_equal]
pub struct IdentifyView {
    pub model: Seq<char>,
    pub serial: Seq<char>,
    pub rotation_rate: u16,
}

impl View for IdentifyData {
    type V = IdentifyView;

    open spec fn view(&self) -> IdentifyView {
        IdentifyView {
            model: self.model@,
            serial: self.serial@,
            rotation_rate: self.rotation_rate,
        }
    }
}

/// The 16 bytes of the command that asks for IDENTIFY data: the opcode, the
/// protocol (data in), the flags (one block from the device), the count of
/// sectors, the device register and the ATA command.
pub open spec fn identify_command(wide: bool) -> Seq<u8> {
    if wide {
        seq![0x85, 0x04, 0x0e, 0, 0, 0, 1, 0, 0, 0, 0, 0, 0, 0x40, 0xec, 0]
    } else {
        seq![0xa1, 0x08, 0x0e, 0, 1, 0, 0, 0, 0x40, 0xec, 0, 0, 0, 0, 0, 0]
    }
}

/// The command that asks for IDENTIFY data, in its form of `cdb_len` bytes.
pub fn identify_cdb(cdb_len: usize) -> (r: Vec<u8>)
    ensures
        r@ == identify_command(cdb_len == 16),
{
    let mut cdb: Vec<u8> = Vec::new();
    let mut i: usize = 0;
    while i < 16
        invariant
            i <= 16,
            cdb@ == Seq::new(i as nat, |k: int| 0u8),
        decreases 16 - i,
    {
        cdb.push(0);
        i = i + 1;
        assert(cdb@ =~= Seq::new(i as nat, |k: int| 0u8));
    }
    if cdb_len == 16 {
        cdb.set(0, 0x85);
        cdb.set(1, 0x04);
        cdb.set(2, 0x0e);
        cdb.set(6, 1);
        cdb.set(13, 0x40);
        cdb.set(14, 0xec);
    } else {
        cdb.set(0, 0xa1);
        cdb.set(1, 0x08);
        cdb.set(2, 0x0e);
        cdb.set(4, 1);
        cdb.set(8, 0x40);
        cdb.set(9, 0xec);
    }
    assert(cdb@ =~= identify_command(cdb_len == 16));
    cdb
}

/// Where the ATA Status Return descriptor stands in sense data, from `off` on.
/// Each descriptor begins with its code and the number of bytes that follow.
pub open spec fn status_descriptor(sb: Seq<u8>, off: int) -> Option<int>
    decreases sb.len() - off,
{
    if off < 0 || off + 2 > sb.len() || off + 2 + sb[off + 1] > sb.len() {
        None
    } else if sb[off] == 0x09 && sb[off + 1] >= 0x0c {
        Some(off)
    } else {
        status_descriptor(sb, off + 2 + sb[off + 1])
    }
}

/// Whether sense data are in the format that has descriptors.
pub open spec fn has_descriptors(sb: Seq<u8>) -> bool {
    sb[0] == 0x72
}

/// Whether sense data reach as far as the registers of the descriptor that they
/// hold.
pub open spec fn readable(sb: Seq<u8>) -> bool {
    &&& sb.len() > 0
    &&& has_descriptors(sb) ==> (status_descriptor(sb, 8) matches Some(o) ==> o + 15 < sb.len())
}

/// The error and the status register that sense data report.
pub open spec fn ata_status(sb: Seq<u8>) -> Option<(u8, u8)> {
    if !has_descriptors(sb) {
        None
    } else {
        match status_descriptor(sb, 8) {
            Some(o) => Some((sb[o + 5], sb[o + 15])),
            None => None,
        }
    }
}

fn find_status(sb: &Vec<u8>) -> (r: Option<usize>)
    ensures
        match r {
            Some(o) => status_descriptor(sb@, 8) == Some(o as int),
            None => status_descriptor(sb@, 8) is None,
        },
{
    let total: usize = sb.len();
    let mut off: usize = 8;
    while off <= total && total - off >= 2
        invariant
            total == sb.len(),
            status_descriptor(sb@, 8) == status_descriptor(sb@, off as int),
            8 <= off,
        decreases total - off,
    {
        let len: usize = sb[off + 1] as usize;
        if len > total - off - 2 {
            return None;
        }
        if sb[off] == 0x09 && len >= 0x0c {
            return Some(off);
        }
        off = off + 2 + len;
    }
    None
}

/// Whether [`ata_status_from_sense`] can read sense data.
pub fn sense_is_readable(sb: &Vec<u8>) -> (r: bool)
    ensures
        r == readable(sb@),
{
    if sb.len() == 0 {
        return false;
    }
    if sb[0] != 0x72 {
        return true;
    }
    match find_status(sb) {
        Some(o) => sb.len() > 15 && o < sb.len() - 15,
        None => true,
    }
}

/// The error and the status register that sense data report.
pub fn ata_status_from_sense(sb: &Vec<u8>) -> (r: Option<(u8, u8)>)
    requires
        readable(sb@),
    ensures
        r == ata_status(sb@),
{
    if sb[0] != 0x72 {
        return None;
    }
    match find_status(sb) {
        Some(o) => {
            assert(o + 15 < sb.len());
            Some((sb[o + 5], sb[o + 15]))
        },
        None => None,
    }
}

/// What the kernel reports of a command that it passed through.
pub struct SgReply {
    /// What the system call returned.
    pub rc: i32,
    pub host_status: u16,
    pub status: u8,
    pub driver_status: u16,
    pub sense: Vec<u8>,
}

/// Whether the command has reached the disk: the host saw no error, and the
/// status is good or a condition to check.
pub open spec fn answered(r: SgReply) -> bool {
    &&& r.rc != -1
    &&& r.host_status == 0
    &&& r.status == 0 || r.status == SG_CHECK_CONDITION
    &&& r.driver_status == 0 || r.driver_status == SG_DRIVER_SENSE
}

/// Whether the disk carried the command out: it reached the disk, and the
/// registers, where they are reported, show no error and no bit of busy, fault,
/// request or error. Without registers a good status is enough.
pub open spec fn carried_out(r: SgReply) -> bool {
    &&& answered(r)
    &&& match ata_status(r.sense@) {
        Some((err, st)) => err == 0 && st & 0xa9 == 0,
        None => r.status == 0,
    }
}

impl SgReply {
    /// Whether the command has reached the disk. The sense data count only
    /// where it has.
    pub fn has_answer(&self) -> (r: bool)
        ensures
            r == answered(*self),
    {
        self.rc != -1 && self.host_status == 0 && (self.status == 0 || self.status
            == SG_CHECK_CONDITION) && (self.driver_status == 0 || self.driver_status
            == SG_DRIVER_SENSE)
    }
}

/// Whether the disk carried the command out.
pub fn identify_succeeded(r: &SgReply) -> (ok: bool)
    requires
        answered(*r) ==> readable(r.sense@),
    ensures
        ok == carried_out(*r),
{
    if !r.has_answer() {
        return false;
    }
    match ata_status_from_sense(&r.sense) {
        Some((err, st)) => err == 0 && st & 0xa9 == 0,
        None => r.status == 0,
    }
}

/// What to do next to identify a disk.
#[derive(Debug, Clone, Copy, PartialEq, Eq, Structural)]
pub enum ProbeStep {
    /// Send the command in its form of so many bytes.
    Send(usize),
    /// The data that came with the last reply count: read them with [`probe`].
    Read,
    /// The disk does not say what it is.
    GiveUp,
}

/// What comes after the last form of the command and whether it was carried
/// out. The long form goes first, the short form is for bridges that do not
/// know the long one.
pub open spec fn probe_after(last: Option<(usize, bool)>) -> ProbeStep {
    match last {
        None => ProbeStep::Send(16),
        Some((_, true)) => ProbeStep::Read,
        Some((len, false)) => if len == 16 {
            ProbeStep::Send(12)
        } else {
            ProbeStep::GiveUp
        },
    }
}

/// What to do next to identify a disk, after the reply to the last form of the
/// command.
pub fn probe_step(last: Option<(usize, &SgReply)>) -> (r: ProbeStep)
    requires
        last matches Some((_, p)) ==> (answered(*p) ==> readable(p.sense@)),
    ensures
        r == probe_after(
            match last {
                Some((len, p)) => Some((len, carried_out(*p))),
                None => None,
            },
        ),
{
    match last {
        None => ProbeStep::Send(16),
        Some((len, p)) => if identify_succeeded(p) {
            ProbeStep::Read
        } else if len == 16 {
            ProbeStep::Send(12)
        } else {
            ProbeStep::GiveUp
        },
    }
}

/// Identifying a disk takes two commands at most.
pub proof fn law_two_forms_are_tried(first: bool, second: bool)
    ensures
        probe_after(None) == ProbeStep::Send(16),
        probe_after(Some((16, first))) == if first {
            ProbeStep::Read
        } else {
            ProbeStep::Send(12)
        },
        probe_after(Some((12, second))) == if second {
            ProbeStep::Read
        } else {
            ProbeStep::GiveUp
        },
{
}

/// The bytes of `count` words from word `start` on, the higher byte of each
/// word first.
pub open spec fn swapped(data: Seq<u8>, start: nat, count: nat) -> Seq<u8> {
    Seq::new(
        2 * count,
        |i: int|
            if i % 2 == 0 {
                data[2 * start + i + 1]
            } else {
                data[2 * start + i - 1]
            },
    )
}

pub open spec fn is_padding(c: char) -> bool {
    c == ' ' || c == '\0'
}

pub open spec fn strip_front(s: Seq<char>) -> Seq<char>
    decreases s.len(),
{
    if s.len() > 0 && is_padding(s[0]) {
        strip_front(s.skip(1))
    } else {
        s
    }
}

pub open spec fn strip_back(s: Seq<char>) -> Seq<char>
    decreases s.len(),
{
    if s.len() > 0 && is_padding(s.last()) {
        strip_back(s.drop_last())
    } else {
        s
    }
}

/// A text without spaces and zeros at either end.
pub open spec fn unpadded(s: Seq<char>) -> Seq<char> {
    strip_back(strip_front(s))
}

/// A text without spaces and zeros at either end.
pub fn strip_padding(t: &str) -> (r: String)
    ensures
        r@ == unpadded(t@),
{
    let v = chars_of(t);
    let mut a: usize = 0;
    assert(v@.skip(0) =~= v@);
    while a < v.len() && (v[a] == ' ' || v[a] == '\0')
        invariant
            a <= v@.len(),
            strip_front(v@) == strip_front(v@.skip(a as int)),
        decreases v@.len() - a,
    {
        assert(v@.skip(a as int).skip(1) =~= v@.skip(a + 1));
        a = a + 1;
    }
    let ghost s = v@.skip(a as int);
    assert(strip_front(v@) == s);
    let mut b: usize = v.len();
    assert(s.take(s.len() as int) =~= s);
    while a < b && (v[b - 1] == ' ' || v[b - 1] == '\0')
        invariant
            a <= b <= v@.len(),
            s == v@.skip(a as int),
            strip_back(s) == strip_back(s.take(b - a)),
        decreases b,
    {
        assert(s.take(b - a).drop_last() =~= s.take(b - a - 1));
        b = b - 1;
    }
    assert(s.take(b - a) =~= v@.subrange(a as int, b as int));
    string_of(&part(&v, a, b))
}

/// The string in `count` words from word `start` on.
pub open spec fn words_text(data: Seq<u8>, start: nat, count: nat) -> Seq<char> {
    unpadded(text::utf8_lossy(swapped(data, start, count)))
}

/// The string in `count` words of IDENTIFY data from word `start` on.
pub fn decode_words(data: &Vec<u8>, start: usize, count: usize) -> (r: String)
    requires
        2 * (start + count) <= data@.len(),
    ensures
        r@ == words_text(data@, start as nat, count as nat),
{
    let total: usize = data.len();
    let mut out: Vec<u8> = Vec::new();
    let mut w: usize = 0;
    assert(out@ =~= swapped(data@, start as nat, 0));
    while w < count
        invariant
            w <= count,
            total == data.len(),
            2 * (start + count) <= total,
            out@ == swapped(data@, start as nat, w as nat),
        decreases count - w,
    {
        let off: usize = 2 * (start + w);
        out.push(data[off + 1]);
        out.push(data[off]);
        w = w + 1;
        assert(out@ =~= swapped(data@, start as nat, w as nat));
    }
    strip_padding(from_utf8_lossy(&out).as_str())
}

/// What IDENTIFY data say, given the texts of their model and serial fields.
/// Data of a packet device, or without a model, say nothing.
pub open spec fn identified(
    data: Seq<u8>,
    model: Seq<char>,
    serial: Seq<char>,
) -> Option<IdentifyView> {
    if bytes::le_at(data, 0, 2) >= 0x8000 || model.len() == 0 {
        None
    } else {
        Some(
            IdentifyView {
                model,
                serial,
                rotation_rate: bytes::le_at(data, 434, 2) as u16,
            },
        )
    }
}

pub open spec fn identify_view(d: Option<IdentifyData>) -> Option<IdentifyView> {
    match d {
        Some(d) => Some(d@),
        None => None,
    }
}

/// What IDENTIFY data say, given the texts of their model and serial fields.
pub fn identify_from(data: &Vec<u8>, model: String, serial: String) -> (r: Option<IdentifyData>)
    requires
        data.len() == 512,
    ensures
        identify_view(r) == identified(data@, model@, serial@),
{
    if le16(data, 0) >= 0x8000 || chars_of(model.as_str()).len() == 0 {
        return None;
    }
    Some(IdentifyData { model, serial, rotation_rate: le16(data, 434) })
}

/// What the 512 bytes of IDENTIFY data say of a disk: its model stands in words
/// 27 to 46, its serial number in words 10 to 19, its rotation rate in word
/// 217.
pub fn probe(data: &Vec<u8>) -> (r: Option<IdentifyData>)
    requires
        data.len() == 512,
    ensures
        identify_view(r) == identified(
            data@,
            words_text(data@, 27, 20),
            words_text(data@, 10, 10),
        ),
{
    let model = decode_words(data, 27, 20);
    let serial = decode_words(data, 10, 10);
    identify_from(data, model, serial)
}

/// The registers stand in the first descriptor with code 9 and 12 bytes or more
/// behind its length; every other descriptor is passed over by its length.
pub proof fn law_other_descriptors_are_passed_over(sb: Seq<u8>, off: int)
    requires
        0 <= off,
        off + 2 <= sb.len(),
        off + 2 + sb[off + 1] <= sb.len(),
    ensures
        sb[off] == 9 && sb[off + 1] >= 12 ==> status_descriptor(sb, off) == Some(off),
        sb[off] != 9 || sb[off + 1] < 12 ==> status_descriptor(sb, off) == status_descriptor(
            sb,
            off + 2 + sb[off + 1],
        ),
        status_descriptor(sb, sb.len() as int) is None,
{
}

/// A command was carried out where the system call and the host report no
/// error and the registers, if there are any, neither an error nor one of the
/// bits 7 (busy), 5 (fault), 3 (request) and 0 (error) of the status. Without
/// registers the status of the command itself must be good.
pub proof fn law_disks_answer_for_themselves(r: SgReply, o: int)
    requires
        r.sense@.len() > 0,
    ensures
        ({
            let sb = r.sense@;
            let reached = r.rc != -1 && r.host_status == 0 && (r.status == 0 || r.status == 2) && (
            r.driver_status == 0 || r.driver_status == 8);
            let found = sb[0] == 0x72 && status_descriptor(sb, 8) == Some(o);
            let st = sb[o + 15];
            &&& carried_out(r) ==> reached
            &&& reached && found ==> (carried_out(r) <==> sb[o + 5] == 0 && st & 0x80 == 0 && st
                & 0x20 == 0 && st & 0x08 == 0 && st & 0x01 == 0)
            &&& reached && (sb[0] != 0x72 || status_descriptor(sb, 8) is None) ==> (carried_out(r)
                <==> r.status == 0)
        }),
{
    let st = r.sense@[o + 15];
    assert(st & 0xa9 == 0 <==> st & 0x80 == 0 && st & 0x20 == 0 && st & 0x08 == 0 && st & 0x01
        == 0) by (bit_vector);
}

proof fn lemma_strip_front(s: Seq<char>)
    ensures
        ({
            let t = strip_front(s);
            &&& t.len() <= s.len()
            &&& t == s.skip(s.len() - t.len())
            &&& forall|i: int| 0 <= i < s.len() - t.len() ==> is_padding(#[trigger] s[i])
            &&& t.len() > 0 ==> !is_padding(t[0])
        }),
    decreases s.len(),
{
    if s.len() > 0 && is_padding(s[0]) {
        let r = s.skip(1);
        lemma_strip_front(r);
        let t = strip_front(s);
        assert(t =~= s.skip(s.len() - t.len()));
        assert forall|i: int| 0 <= i < s.len() - t.len() implies is_padding(#[trigger] s[i]) by {
            if i > 0 {
                assert(is_padding(r[i - 1]));
            }
        }
    } else {
        assert(s.skip(0) =~= s);
    }
}

proof fn lemma_strip_back(s: Seq<char>)
    ensures
        ({
            let t = strip_back(s);
            &&& t.len() <= s.len()
            &&& t == s.take(t.len() as int)
            &&& forall|i: int| t.len() <= i < s.len() ==> is_padding(#[trigger] s[i])
            &&& t.len() > 0 ==> !is_padding(t.last())
        }),
    decreases s.len(),
{
    if s.len() > 0 && is_padding(s.last()) {
        let r = s.drop_last();
        lemma_strip_back(r);
        let t = strip_back(s);
        assert(t =~= s.take(t.len() as int));
        assert forall|i: int| t.len() <= i < s.len() implies is_padding(#[trigger] s[i]) by {
            if i < s.len() - 1 {
                assert(is_padding(r[i]));
            }
        }
    } else {
        assert(s.take(s.len() as int) =~= s);
    }
}

/// Padding is taken off both ends and nowhere else: what is left is a stretch of
/// the text that begins and ends with something else than a space or a zero, and
/// around it stand only spaces and zeros.
pub proof fn law_only_padding_is_taken_off(s: Seq<char>)
    ensures
        exists|a: int, b: int|
            {
                let t = unpadded(s);
                &&& 0 <= a <= b <= s.len()
                &&& t == #[trigger] s.subrange(a, b)
                &&& forall|i: int| 0 <= i < a ==> s[i] == ' ' || s[i] == '\0'
                &&& forall|i: int| b <= i < s.len() ==> s[i] == ' ' || s[i] == '\0'
                &&& t.len() > 0 ==> !(t[0] == ' ' || t[0] == '\0') && !(t.last() == ' ' || t.last()
                    == '\0')
            },
{
    let m = strip_front(s);
    let t = unpadded(s);
    lemma_strip_front(s);
    lemma_strip_back(m);
    let a = s.len() - m.len();
    let b = a + t.len();
    assert(t =~= s.subrange(a, b));
    assert forall|i: int| 0 <= i < a implies s[i] == ' ' || s[i] == '\0' by {
        assert(is_padding(s[i]));
    }
    assert forall|i: int| b <= i < s.len() implies s[i] == ' ' || s[i] == '\0' by {
        assert(is_padding(m[i - a]));
        assert(m[i - a] == s[i]);
    }
    if t.len() > 0 {
        assert(t[0] == m[0]);
    }
}

/// The two bytes of each word of a string stand the wrong way round: swapping
/// them twice gives the data back.
pub proof fn law_words_are_swapped(data: Seq<u8>, start: nat, count: nat, i: int)
    requires
        0 <= i < count,
        2 * (start + count) <= data.len(),
    ensures
        swapped(data, start, count).len() == 2 * count,
        swapped(data, start, count)[2 * i] == data[2 * (start + i) + 1],
        swapped(data, start, count)[2 * i + 1] == data[2 * (start + i)],
        swapped(swapped(data, start, count), 0, count) == data.subrange(
            2 * start as int,
            2 * (start + count) as int,
        ),
{
    let s = swapped(data, start, count);
    let d = data.subrange(2 * start as int, 2 * (start + count) as int);
    let t = swapped(s, 0, count);
    assert forall|k: int| 0 <= k < 2 * count implies t[k] == d[k] by {
        if k % 2 == 0 {
            assert(t[k] == s[k + 1]);
        } else {
            assert(t[k] == s[k - 1]);
        }
    }
    assert(t =~= d);
}

/// A disk is identified where bit 15 of the first word is not set, which marks
/// packet devices, and it names a model; it then has the texts that were read
/// and the rate of word 217.
pub proof fn law_disks_are_identified(data: Seq<u8>, model: Seq<char>, serial: Seq<char>)
    requires
        data.len() == 512,
    ensures
        identified(data, model, serial) is Some <==> data[1] < 0x80 && model.len() > 0,
        identified(data, model, serial) matches Some(d) ==> d.model == model && d.serial == serial
            && d.rotation_rate == data[434] + 256 * data[435],
{
    reveal_with_fuel(bytes::le_at, 3);
}

/// Either form of the command asks the disk to send one block of IDENTIFY data:
/// the form tells where its count and the ATA command stand, and all other bytes
/// are zero.
pub proof fn law_commands_ask_for_one_block(i: int)
    requires
        0 <= i < 16,
    ensures
        ({
            let c = identify_command(true);
            &&& c.len() == 16
            &&& c[0] == 0x85 && c[1] == 0x04 && c[2] == 0x0e
            &&& c[6] == 1 && c[13] == 0x40 && c[14] == 0xec
            &&& i > 2 && i != 6 && i != 13 && i != 14 ==> c[i] == 0
        }),
        ({
            let c = identify_command(false);
            &&& c.len() == 16
            &&& c[0] == 0xa1 && c[1] == 0x08 && c[2] == 0x0e
            &&& c[4] == 1 && c[8] == 0x40 && c[9] == 0xec
            &&& i > 2 && i != 4 && i != 8 && i != 9 ==> c[i] == 0
        }),
{
}

} // verus!
