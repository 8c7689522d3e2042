//! Partition tables: GPT, MBR or none at all.
use super::device;
use super::device::ReadSeek;
use crate::bytes;
use crate::bytes::{le32, le64, magic};
use crate::text;
use crate::text::push_hex2;
use crate::utils::SECTOR;
use vstd::arithmetic::power2;
use vstd::prelude::*;

verus! {

#[derive(Debug, Clone, Copy, PartialEq, Eq, Structural)]
pub enum Label {
    Gpt,
    Mbr,
    /// No partition table: a filesystem may fill the whole disk.
    Superfloppy,
}

#[derive(Debug, Clone)]
pub struct PartEntry {
    pub num: u32,
    pub first_lba: u64,
    pub last_lba: u64,
    /// An extended MBR partition, which only holds other partitions.
    pub is_container: bool,
    /// MBR: the type byte in hexadecimal; GPT: the type GUID.
    pub ptype: String,
    /// GPT: the GUID of the partition itself.
    pub partuuid: Option<String>,
}

#[derive(Debug, Clone)]
pub struct PartTable {
    pub label: Label,
    pub entries: Vec<PartEntry>,
    /// GPT: how many entries the table has and how many bytes each takes.
    pub gpt_meta: Option<(u32, u32)>,
    /// GPT: the last usable block as the header of the image states it. The
    /// image may be smaller than the disk it was written to.
    pub gpt_last_usable_lba: Option<u64>,
}

#[verifier::ext_equal]
pub struct EntryView {
    pub num: u32,
    pub first_lba: u64,
    pub last_lba: u64,
    pub is_container: bool,
    pub ptype: Seq<char>,
    pub partuuid: Option<Seq<char>>,
}

#[verifier::ext_equal]
pub struct TableView {
    pub label: Label,
    pub entries: Seq<EntryView>,
    pub gpt_meta: Option<(u32, u32)>,
    pub gpt_last_usable_lba: Option<u64>,
}

impl View for PartEntry {
    type V = EntryView;

    open spec fn view(&self) -> EntryView {
        EntryView {
            num: self.num,
            first_lba: self.first_lba,
            last_lba: self.last_lba,
            is_container: self.is_container,
            ptype: self.ptype@,
            partuuid: text::opt_text(self.partuuid),
        }
    }
}

pub open spec fn entry_views(v: Seq<PartEntry>) -> Seq<EntryView> {
    Seq::new(v.len(), |i: int| v[i]@)
}

impl View for PartTable {
    type V = TableView;

    open spec fn view(&self) -> TableView {
        TableView {
            label: self.label,
            entries: entry_views(self.entries@),
            gpt_meta: self.gpt_meta,
            gpt_last_usable_lba: self.gpt_last_usable_lba,
        }
    }
}

/// `x`, or the largest 64-bit number where `x` is larger.
pub open spec fn sat(x: int) -> u64 {
    if x > u64::MAX {
        u64::MAX
    } else {
        x as u64
    }
}

pub fn sat_mul(a: u64, b: u64) -> (r: u64)
    ensures
        r == sat(a * b),
{
    assert(a * b >= 0) by (nonlinear_arith);
    match a.checked_mul(b) {
        Some(x) => x,
        None => u64::MAX,
    }
}

pub fn sat_add(a: u64, b: u64) -> (r: u64)
    ensures
        r == sat(a + b),
{
    match a.checked_add(b) {
        Some(x) => x,
        None => u64::MAX,
    }
}

/// A GUID in its usual form: of the 16 bytes, the first three groups stand
/// lowest byte first.
pub open spec fn guid(b: Seq<u8>, at: int) -> Seq<char> {
    text::hex2(b[at + 3]) + text::hex2(b[at + 2]) + text::hex2(b[at + 1]) + text::hex2(b[at])
        + seq!['-'] + text::hex2(b[at + 5]) + text::hex2(b[at + 4]) + seq!['-'] + text::hex2(
        b[at + 7],
    ) + text::hex2(b[at + 6]) + seq!['-'] + text::hex2(b[at + 8]) + text::hex2(b[at + 9])
        + seq!['-'] + text::hex2(b[at + 10]) + text::hex2(b[at + 11]) + text::hex2(b[at + 12])
        + text::hex2(b[at + 13]) + text::hex2(b[at + 14]) + text::hex2(b[at + 15])
}

fn push_dash(s: &mut String)
    ensures
        final(s)@ == old(s)@ + seq!['-'],
{
    s.push('-');
    assert(s@ =~= old(s)@ + seq!['-']);
}

fn guid_str(b: &Vec<u8>, at: usize) -> (r: String)
    requires
        at + 16 <= b.len(),
    ensures
        r@ == guid(b@, at as int),
{
    let mut s = String::new();
    push_hex2(&mut s, b[at + 3]);
    assert(s@ =~= text::hex2(b@[at + 3]));
    push_hex2(&mut s, b[at + 2]);
    push_hex2(&mut s, b[at + 1]);
    push_hex2(&mut s, b[at]);
    push_dash(&mut s);
    push_hex2(&mut s, b[at + 5]);
    push_hex2(&mut s, b[at + 4]);
    push_dash(&mut s);
    push_hex2(&mut s, b[at + 7]);
    push_hex2(&mut s, b[at + 6]);
    push_dash(&mut s);
    push_hex2(&mut s, b[at + 8]);
    push_hex2(&mut s, b[at + 9]);
    push_dash(&mut s);
    push_hex2(&mut s, b[at + 10]);
    push_hex2(&mut s, b[at + 11]);
    push_hex2(&mut s, b[at + 12]);
    push_hex2(&mut s, b[at + 13]);
    push_hex2(&mut s, b[at + 14]);
    push_hex2(&mut s, b[at + 15]);
    s
}

/// The entry in slot `i` of the four in the first sector, unless its type or
/// its length is zero.
pub open spec fn mbr_slot(s: Seq<u8>, i: int) -> Option<EntryView> {
    let at = 446 + 16 * i;
    let start = bytes::le_at(s, at + 8, 4);
    let sectors = bytes::le_at(s, at + 12, 4);
    if s[at + 4] == 0 || sectors == 0 {
        None
    } else {
        Some(
            EntryView {
                num: (i + 1) as u32,
                first_lba: start as u64,
                last_lba: (start + sectors - 1) as u64,
                is_container: s[at + 4] == 0x05 || s[at + 4] == 0x0f || s[at + 4] == 0x85,
                ptype: text::hex2(s[at + 4]),
                partuuid: None,
            },
        )
    }
}

/// The entries in the first `n` slots.
pub open spec fn mbr_entries(s: Seq<u8>, n: nat) -> Seq<EntryView>
    decreases n,
{
    if n == 0 {
        seq![]
    } else {
        let before = mbr_entries(s, (n - 1) as nat);
        match mbr_slot(s, n - 1) {
            Some(e) => before.push(e),
            None => before,
        }
    }
}

/// Whether slot `i` guards a GPT against tools that know only the MBR.
pub open spec fn guards_gpt(s: Seq<u8>, i: int) -> bool {
    mbr_slot(s, i) is Some && s[446 + 16 * i + 4] == 0xee
}

pub open spec fn has_guard(s: Seq<u8>) -> bool {
    guards_gpt(s, 0) || guards_gpt(s, 1) || guards_gpt(s, 2) || guards_gpt(s, 3)
}

pub open spec fn is_gpt_header(h: Seq<u8>) -> bool {
    h.len() == 512 && bytes::text_at(h, 0, "EFI PART"@)
}

pub open spec fn power_of_two(n: nat) -> bool
    decreases n,
{
    n == 1 || (n > 1 && n % 2 == 0 && power_of_two(n / 2))
}

fn is_power_of_two(n: u32) -> (r: bool)
    ensures
        r == power_of_two(n as nat),
    decreases n,
{
    if n == 1 {
        true
    } else if n > 1 && n % 2 == 0 {
        is_power_of_two(n / 2)
    } else {
        false
    }
}

/// Where entry `i` of a GPT stands on the disk.
pub open spec fn gpt_entry_offset(entry_lba: u64, entry_size: u32, lba_bytes: u64, i: int) -> u64 {
    sat(sat(entry_lba * lba_bytes) + i * entry_size)
}

/// The entry that its bytes describe, unless its type is zero or it ends
/// before it begins.
pub open spec fn gpt_entry(b: Seq<u8>, num: u32) -> Option<EntryView> {
    let first = bytes::le_at(b, 32, 8);
    let last = bytes::le_at(b, 40, 8);
    if b.take(16) == Seq::new(16, |k: int| 0u8) || last < first {
        None
    } else {
        Some(
            EntryView {
                num,
                first_lba: first as u64,
                last_lba: last as u64,
                is_container: false,
                ptype: guid(b, 0),
                partuuid: Some(guid(b, 16)),
            },
        )
    }
}

/// The entries of a GPT from number `i` on, up to the first that cannot be
/// read.
pub open spec fn gpt_entries<D: ReadSeek>(
    dev: D,
    lba_bytes: u64,
    entry_lba: u64,
    entry_size: u32,
    i: nat,
    n: nat,
) -> Seq<EntryView>
    decreases n - i,
{
    if i >= n {
        seq![]
    } else {
        let b = device::window(dev, gpt_entry_offset(entry_lba, entry_size, lba_bytes, i as int), 128);
        if b.len() < 128 {
            seq![]
        } else {
            let rest = gpt_entries(dev, lba_bytes, entry_lba, entry_size, i + 1, n);
            match gpt_entry(b, (i + 1) as u32) {
                Some(e) => seq![e] + rest,
                None => rest,
            }
        }
    }
}

/// The table that a GPT header describes. An entry takes 128 bytes times a
/// power of two; a header that counts more than 65536 entries is damaged.
pub open spec fn gpt_table<D: ReadSeek>(dev: D, lba_bytes: u64, h: Seq<u8>) -> Option<TableView> {
    let entry_lba = bytes::le_at(h, 72, 8) as u64;
    let count = bytes::le_at(h, 80, 4);
    let size = bytes::le_at(h, 84, 4);
    if size < 128 || !power_of_two(size) || count > 65536 {
        None
    } else {
        Some(
            TableView {
                label: Label::Gpt,
                entries: gpt_entries(dev, lba_bytes, entry_lba, size as u32, 0, count),
                gpt_meta: Some((count as u32, size as u32)),
                gpt_last_usable_lba: Some(bytes::le_at(h, 64, 8) as u64),
            },
        )
    }
}

pub open spec fn no_table() -> TableView {
    TableView { label: Label::Superfloppy, entries: seq![], gpt_meta: None, gpt_last_usable_lba: None }
}

/// The partition table of a disk whose blocks have `lba_bytes` bytes, unless
/// its first sector cannot be read or its GPT is damaged.
pub open spec fn table_of<D: ReadSeek>(dev: D, lba_bytes: u64) -> Option<TableView> {
    let s = device::window(dev, 0, 512);
    let h = device::window(dev, lba_bytes, 512);
    if s.len() < 512 {
        None
    } else if s[510] != 0x55 || s[511] != 0xaa {
        Some(no_table())
    } else if has_guard(s) && is_gpt_header(h) {
        gpt_table(dev, lba_bytes, h)
    } else if mbr_entries(s, 4).len() == 0 {
        Some(no_table())
    } else {
        Some(
            TableView {
                label: Label::Mbr,
                entries: mbr_entries(s, 4),
                gpt_meta: None,
                gpt_last_usable_lba: None,
            },
        )
    }
}

pub open spec fn table_view(t: Option<PartTable>) -> Option<TableView> {
    match t {
        Some(t) => Some(t@),
        None => None,
    }
}

fn read_mbr_slot(s: &Vec<u8>, i: u32) -> (r: Option<PartEntry>)
    requires
        s.len() == 512,
        i < 4,
    ensures
        match r {
            Some(e) => mbr_slot(s@, i as int) == Some(e@),
            None => mbr_slot(s@, i as int) is None,
        },
{
    let at: usize = 446 + i as usize * 16;
    let ptype: u8 = s[at + 4];
    let start: u32 = le32(s, at + 8);
    let sectors: u32 = le32(s, at + 12);
    if ptype == 0 || sectors == 0 {
        return None;
    }
    let mut name = String::new();
    push_hex2(&mut name, ptype);
    assert(name@ =~= text::hex2(ptype));
    Some(
        PartEntry {
            num: i + 1,
            first_lba: start as u64,
            last_lba: start as u64 + sectors as u64 - 1,
            is_container: ptype == 0x05 || ptype == 0x0f || ptype == 0x85,
            ptype: name,
            partuuid: None,
        },
    )
}

fn read_gpt_entry(b: &Vec<u8>, num: u32) -> (r: Option<PartEntry>)
    requires
        b.len() == 128,
    ensures
        match r {
            Some(e) => gpt_entry(b@, num) == Some(e@),
            None => gpt_entry(b@, num) is None,
        },
{
    let mut k: usize = 0;
    while k < 16 && b[k] == 0
        invariant
            k <= 16,
            b@.len() == 128,
            forall|j: int| 0 <= j < k ==> b@[j] == 0,
        decreases 16 - k,
    {
        k = k + 1;
    }
    let first: u64 = le64(b, 32);
    let last: u64 = le64(b, 40);
    proof {
        let zero = Seq::new(16, |k: int| 0u8);
        if k == 16 {
            assert(b@.take(16) =~= zero);
        } else {
            assert(b@.take(16)[k as int] != zero[k as int]);
        }
    }
    if k == 16 || last < first {
        return None;
    }
    Some(
        PartEntry {
            num,
            first_lba: first,
            last_lba: last,
            is_container: false,
            ptype: guid_str(b, 0),
            partuuid: Some(guid_str(b, 16)),
        },
    )
}

#[verifier::rlimit(60)]
fn read_gpt_entries<D: ReadSeek>(
    dev: &D,
    lba_bytes: u64,
    entry_lba: u64,
    entry_size: u32,
    count: u32,
) -> (r: Vec<PartEntry>)
    requires
        count <= 65536,
    ensures
        entry_views(r@) == gpt_entries(*dev, lba_bytes, entry_lba, entry_size, 0, count as nat),
{
    let mut out: Vec<PartEntry> = Vec::new();
    let mut i: u32 = 0;
    let ghost all = gpt_entries(*dev, lba_bytes, entry_lba, entry_size, 0, count as nat);
    assert(entry_views(out@) + all =~= all);
    while i < count
        invariant
            i <= count <= 65536,
            entry_views(out@) + gpt_entries(
                *dev,
                lba_bytes,
                entry_lba,
                entry_size,
                i as nat,
                count as nat,
            ) == all,
            all == gpt_entries(*dev, lba_bytes, entry_lba, entry_size, 0, count as nat),
        decreases count - i,
    {
        let ghost before = entry_views(out@);
        let ghost rest = gpt_entries(
            *dev,
            lba_bytes,
            entry_lba,
            entry_size,
            (i + 1) as nat,
            count as nat,
        );
        assert(i * entry_size <= 65536 * 0xffff_ffff) by (nonlinear_arith)
            requires
                i <= 65536,
                entry_size <= 0xffff_ffff,
        ;
        let step: u64 = i as u64 * entry_size as u64;
        let off: u64 = sat_add(sat_mul(entry_lba, lba_bytes), step);
        assert(off == gpt_entry_offset(entry_lba, entry_size, lba_bytes, i as int));
        let b = device::read(dev, off, 128);
        if b.len() < 128 {
            assert(before + Seq::<EntryView>::empty() =~= before);
            return out;
        }
        if let Some(e) = read_gpt_entry(&b, i + 1) {
            let ghost v = e@;
            out.push(e);
            assert(entry_views(out@) =~= before.push(v));
            assert(entry_views(out@) + rest =~= before + (seq![v] + rest));
        }
        i = i + 1;
    }
    assert(entry_views(out@) + Seq::<EntryView>::empty() =~= entry_views(out@));
    out
}

/// Reads the partition table of a disk whose blocks have `lba_bytes` bytes.
pub fn parse_table<D: ReadSeek>(dev: &D, lba_bytes: u64) -> (r: Option<PartTable>)
    ensures
        table_view(r) == table_of(*dev, lba_bytes),
{
    let s = device::read(dev, 0, 512);
    if s.len() < 512 {
        return None;
    }
    let none = PartTable {
        label: Label::Superfloppy,
        entries: Vec::new(),
        gpt_meta: None,
        gpt_last_usable_lba: None,
    };
    assert(none@ =~= no_table());
    if s[510] != 0x55 || s[511] != 0xaa {
        return Some(none);
    }
    let mut entries: Vec<PartEntry> = Vec::new();
    let mut guard: bool = false;
    let mut i: u32 = 0;
    assert(entry_views(entries@) =~= mbr_entries(s@, 0));
    while i < 4
        invariant
            i <= 4,
            s.len() == 512,
            entry_views(entries@) == mbr_entries(s@, i as nat),
            guard == ((i > 0 && guards_gpt(s@, 0)) || (i > 1 && guards_gpt(s@, 1)) || (i > 2
                && guards_gpt(s@, 2)) || (i > 3 && guards_gpt(s@, 3))),
        decreases 4 - i,
    {
        let ghost before = entry_views(entries@);
        if let Some(e) = read_mbr_slot(&s, i) {
            if s[446 + i as usize * 16 + 4] == 0xee {
                guard = true;
            }
            let ghost v = e@;
            entries.push(e);
            assert(entry_views(entries@) =~= before.push(v));
        }
        i = i + 1;
    }
    if guard {
        let h = device::read(dev, lba_bytes, 512);
        if h.len() == 512 && magic(&h, 0, "EFI PART") {
            let entry_lba: u64 = le64(&h, 72);
            let count: u32 = le32(&h, 80);
            let size: u32 = le32(&h, 84);
            if size < 128 || !is_power_of_two(size) || count > 65536 {
                return None;
            }
            let last_usable: u64 = le64(&h, 64);
            return Some(
                PartTable {
                    label: Label::Gpt,
                    entries: read_gpt_entries(dev, lba_bytes, entry_lba, size, count),
                    gpt_meta: Some((count, size)),
                    gpt_last_usable_lba: Some(last_usable),
                },
            );
        }
    }
    if entries.len() == 0 {
        return Some(none);
    }
    Some(PartTable { label: Label::Mbr, entries, gpt_meta: None, gpt_last_usable_lba: None })
}

/// The last usable block, the number of entries and the bytes of an entry that
/// the GPT header of a disk states.
pub open spec fn gpt_header<D: ReadSeek>(dev: D, lba_bytes: u64) -> Option<(u64, (u32, u32))> {
    let h = device::window(dev, lba_bytes, 512);
    if is_gpt_header(h) {
        Some(
            (
                bytes::le_at(h, 48, 8) as u64,
                (bytes::le_at(h, 80, 4) as u32, bytes::le_at(h, 84, 4) as u32),
            ),
        )
    } else {
        None
    }
}

/// Reads the GPT header of a disk, where it could be opened.
pub fn read_gpt_header<D: ReadSeek>(dev: Option<&D>, lba_bytes: u64) -> (r: Option<
    (u64, (u32, u32)),
>)
    ensures
        r == (match dev {
            Some(d) => gpt_header(*d, lba_bytes),
            None => None,
        }),
{
    let Some(d) = dev else {
        return None;
    };
    let h = device::read(d, lba_bytes, 512);
    if h.len() < 512 || !magic(&h, 0, "EFI PART") {
        return None;
    }
    Some((le64(&h, 48), (le32(&h, 80), le32(&h, 84))))
}

/// Whether the last block of a disk holds a GPT header that names that block
/// as its own place.
pub open spec fn backup_at_end<D: ReadSeek>(dev: D, device_sectors: u64, lba_bytes: u64) -> bool {
    let size = device_sectors * SECTOR;
    let h = device::window(dev, (size - lba_bytes) as u64, 512);
    &&& lba_bytes <= size <= u64::MAX
    &&& is_gpt_header(h)
    &&& bytes::le_at(h, 24, 8) == size / (lba_bytes as int) - 1
}

/// Whether the backup header of a GPT stands where it belongs, on a disk that
/// could be opened.
pub fn backup_header_at_end<D: ReadSeek>(
    dev: Option<&D>,
    device_sectors: u64,
    lba_bytes: u64,
) -> (r: bool)
    requires
        lba_bytes > 0,
    ensures
        r == (match dev {
            Some(d) => backup_at_end(*d, device_sectors, lba_bytes),
            None => false,
        }),
{
    let Some(d) = dev else {
        return false;
    };
    let Some(size) = device_sectors.checked_mul(SECTOR) else {
        return false;
    };
    if size < lba_bytes {
        return false;
    }
    assert(size / lba_bytes >= 1) by (nonlinear_arith)
        requires
            size >= lba_bytes,
            lba_bytes > 0,
    ;
    let own: u64 = size / lba_bytes - 1;
    let h = device::read(d, size - lba_bytes, 512);
    h.len() == 512 && magic(&h, 0, "EFI PART") && le64(&h, 24) == own
}

/// The bytes of entry `i` of the table that the GPT header `h` points to.
pub open spec fn entry_bytes<D: ReadSeek>(dev: D, lba_bytes: u64, h: Seq<u8>, i: int) -> Seq<u8> {
    let start = bytes::le_at(h, 72, 8) * lba_bytes;
    let from = if start > u64::MAX {
        u64::MAX as int
    } else {
        start as int
    };
    let at = from + i * bytes::le_at(h, 84, 4);
    device::window(
        dev,
        if at > u64::MAX {
            u64::MAX
        } else {
            at as u64
        },
        128,
    )
}

/// Whether the entries of a GPT up to number `i` can be read.
pub open spec fn entries_reach<D: ReadSeek>(dev: D, lba_bytes: u64, h: Seq<u8>, i: int) -> bool {
    forall|j: int| 0 <= j <= i ==> (#[trigger] entry_bytes(dev, lba_bytes, h, j)).len() == 128
}

/// Whether the bytes of an entry have a type and end no earlier than they
/// begin.
pub open spec fn entry_in_use(b: Seq<u8>) -> bool {
    &&& exists|k: int| 0 <= k < 16 && #[trigger] b[k] != 0
    &&& bytes::le_at(b, 32, 8) <= bytes::le_at(b, 40, 8)
}

/// Whether `e` says what the bytes of a GPT entry do.
pub open spec fn entry_says(b: Seq<u8>, e: EntryView) -> bool {
    &&& e.first_lba == bytes::le_at(b, 32, 8)
    &&& e.last_lba == bytes::le_at(b, 40, 8)
    &&& e.ptype == guid(b, 0)
    &&& e.partuuid == Some(guid(b, 16))
    &&& !e.is_container
}

/// Whether slot `i` of the four in the first sector has a type and a length.
pub open spec fn slot_in_use(s: Seq<u8>, i: int) -> bool {
    s[450 + 16 * i] != 0 && bytes::le_at(s, 458 + 16 * i, 4) != 0
}

/// Whether `e` says what slot `i` of the first sector does.
pub open spec fn slot_says(s: Seq<u8>, i: int, e: EntryView) -> bool {
    let ptype = s[450 + 16 * i];
    &&& e.first_lba == bytes::le_at(s, 454 + 16 * i, 4)
    &&& e.last_lba + 1 == bytes::le_at(s, 454 + 16 * i, 4) + bytes::le_at(s, 458 + 16 * i, 4)
    &&& e.ptype == text::hex2(ptype)
    &&& e.partuuid is None
    &&& e.is_container <==> (ptype == 0x05 || ptype == 0x0f || ptype == 0x85)
}

proof fn lemma_le4(s: Seq<u8>, at: int)
    ensures
        bytes::le_at(s, at, 4) <= u32::MAX,
{
    reveal_with_fuel(bytes::le_at, 5);
}

proof fn lemma_le8(s: Seq<u8>, at: int)
    ensures
        bytes::le_at(s, at, 8) <= u64::MAX,
{
    reveal_with_fuel(bytes::le_at, 9);
}

proof fn lemma_gpt_entry(b: Seq<u8>, num: u32)
    requires
        b.len() == 128,
    ensures
        gpt_entry(b, num) is Some <==> entry_in_use(b),
        gpt_entry(b, num) matches Some(e) ==> e.num == num && entry_says(b, e),
{
    let zero = Seq::new(16, |k: int| 0u8);
    lemma_le8(b, 32);
    lemma_le8(b, 40);
    if b.take(16) == zero {
        assert forall|k: int| 0 <= k < 16 implies b[k] == 0 by {
            assert(b.take(16)[k] == zero[k]);
        }
    } else {
        assert(exists|k: int| 0 <= k < 16 && #[trigger] b[k] != 0) by {
            if forall|k: int| 0 <= k < 16 ==> b[k] == 0 {
                assert(b.take(16) =~= zero);
            }
        }
    }
}

proof fn lemma_entry_bytes<D: ReadSeek>(dev: D, lba_bytes: u64, h: Seq<u8>, i: int)
    requires
        0 <= i,
    ensures
        entry_bytes(dev, lba_bytes, h, i) == device::window(
            dev,
            gpt_entry_offset(
                bytes::le_at(h, 72, 8) as u64,
                bytes::le_at(h, 84, 4) as u32,
                lba_bytes,
                i,
            ),
            128,
        ),
{
    lemma_le8(h, 72);
    lemma_le4(h, 84);
    assert(bytes::le_at(h, 72, 8) * lba_bytes >= 0) by (nonlinear_arith)
        requires
            bytes::le_at(h, 72, 8) >= 0,
    ;
    assert(i * bytes::le_at(h, 84, 4) >= 0) by (nonlinear_arith)
        requires
            bytes::le_at(h, 84, 4) >= 0,
            i >= 0,
    ;
}

/// Whether the bytes of entry `i` are in use, and whether `e` says what they do.
#[verifier::opaque]
spec fn row_used<D: ReadSeek>(dev: D, lba_bytes: u64, h: Seq<u8>, i: int) -> bool {
    entry_in_use(entry_bytes(dev, lba_bytes, h, i))
}

#[verifier::opaque]
spec fn row_says<D: ReadSeek>(dev: D, lba_bytes: u64, h: Seq<u8>, i: int, e: EntryView) -> bool {
    entry_says(entry_bytes(dev, lba_bytes, h, i), e)
}

#[verifier::opaque]
spec fn row_there<D: ReadSeek>(dev: D, lba_bytes: u64, h: Seq<u8>, i: int) -> bool {
    entry_bytes(dev, lba_bytes, h, i).len() == 128
}

/// The entries of a GPT from number `i` on.
#[verifier::opaque]
spec fn rows_from<D: ReadSeek>(dev: D, lba_bytes: u64, h: Seq<u8>, i: nat, n: nat) -> Seq<EntryView> {
    gpt_entries(
        dev,
        lba_bytes,
        bytes::le_at(h, 72, 8) as u64,
        bytes::le_at(h, 84, 4) as u32,
        i,
        n,
    )
}

#[verifier::rlimit(30)]
proof fn lemma_rows_step<D: ReadSeek>(dev: D, lba_bytes: u64, h: Seq<u8>, i: nat, n: nat)
    requires
        i <= n <= 65536,
    ensures
        ({
            let es = rows_from(dev, lba_bytes, h, i, n);
            let rest = rows_from(dev, lba_bytes, h, i + 1, n);
            if i == n || !row_there(dev, lba_bytes, h, i as int) {
                es.len() == 0
            } else if row_used(dev, lba_bytes, h, i as int) {
                &&& es.len() == 1 + rest.len()
                &&& es[0].num == i + 1
                &&& row_says(dev, lba_bytes, h, i as int, es[0])
                &&& forall|k: int| 0 <= k < rest.len() ==> #[trigger] es[k + 1] == rest[k]
            } else {
                es == rest
            }
        }),
{
    reveal(rows_from);
    reveal(row_there);
    reveal(row_used);
    reveal(row_says);
    if i < n {
        let b = entry_bytes(dev, lba_bytes, h, i as int);
        lemma_entry_bytes(dev, lba_bytes, h, i as int);
        assert(b.len() <= 128);
        if b.len() == 128 {
            lemma_gpt_entry(b, (i + 1) as u32);
        }
    }
}

proof fn lemma_rows_sound<D: ReadSeek>(dev: D, lba_bytes: u64, h: Seq<u8>, i: nat, n: nat)
    requires
        i <= n <= 65536,
    ensures
        ({
            let es = rows_from(dev, lba_bytes, h, i, n);
            &&& forall|k: int|
                0 <= k < es.len() ==> {
                    let m = (#[trigger] es[k]).num - 1;
                    &&& i <= m < n
                    &&& forall|j: int| i <= j <= m ==> #[trigger] row_there(dev, lba_bytes, h, j)
                    &&& row_used(dev, lba_bytes, h, m)
                    &&& row_says(dev, lba_bytes, h, m, es[k])
                }
            &&& forall|k: int, m: int|
                0 <= k < m < es.len() ==> (#[trigger] es[k]).num < (#[trigger] es[m]).num
        }),
    decreases n - i,
{
    lemma_rows_step(dev, lba_bytes, h, i, n);
    if i < n {
        lemma_rows_sound(dev, lba_bytes, h, i + 1, n);
        let es = rows_from(dev, lba_bytes, h, i, n);
        let rest = rows_from(dev, lba_bytes, h, i + 1, n);
        if row_there(dev, lba_bytes, h, i as int) && row_used(dev, lba_bytes, h, i as int) {
            assert forall|k: int| 1 <= k < es.len() implies #[trigger] es[k] == rest[k - 1] by {
                assert(es[(k - 1) + 1] == rest[k - 1]);
            }
        }
    }
}

proof fn lemma_rows_complete<D: ReadSeek>(
    dev: D,
    lba_bytes: u64,
    h: Seq<u8>,
    i: nat,
    n: nat,
    m: int,
)
    requires
        i <= m < n <= 65536,
        forall|j: int| i <= j <= m ==> #[trigger] row_there(dev, lba_bytes, h, j),
        row_used(dev, lba_bytes, h, m),
    ensures
        exists|k: int|
            0 <= k < rows_from(dev, lba_bytes, h, i, n).len() && (#[trigger] rows_from(
                dev,
                lba_bytes,
                h,
                i,
                n,
            )[k]).num == m + 1 && row_says(
                dev,
                lba_bytes,
                h,
                m,
                rows_from(dev, lba_bytes, h, i, n)[k],
            ),
    decreases n - i,
{
    let es = rows_from(dev, lba_bytes, h, i, n);
    lemma_rows_step(dev, lba_bytes, h, i, n);
    assert(row_there(dev, lba_bytes, h, i as int));
    if m == i {
        assert(es[0].num == m + 1);
    } else {
        let rest = rows_from(dev, lba_bytes, h, i + 1, n);
        lemma_rows_complete(dev, lba_bytes, h, i + 1, n, m);
        let k = choose|k: int|
            0 <= k < rest.len() && (#[trigger] rest[k]).num == m + 1 && row_says(
                dev,
                lba_bytes,
                h,
                m,
                rest[k],
            );
        if row_used(dev, lba_bytes, h, i as int) {
            assert(es[k + 1] == rest[k]);
        } else {
            assert(es[k] == rest[k]);
        }
    }
}

proof fn lemma_power_of_two(n: nat)
    ensures
        power_of_two(n) <==> exists|k: nat| n == #[trigger] power2::pow2(k),
    decreases n,
{
    if n == 1 {
        power2::lemma2_to64();
        assert(n == power2::pow2(0));
    } else if n > 1 {
        lemma_power_of_two(n / 2);
        if power_of_two(n) {
            let k = choose|k: nat| n / 2 == #[trigger] power2::pow2(k);
            power2::lemma_pow2_unfold(k + 1);
            assert(n == power2::pow2(k + 1));
        }
        if exists|k: nat| n == #[trigger] power2::pow2(k) {
            let k = choose|k: nat| n == #[trigger] power2::pow2(k);
            power2::lemma2_to64();
            assert(k > 0);
            power2::lemma_pow2_unfold(k);
            assert(n / 2 == power2::pow2((k - 1) as nat));
        }
    } else {
        assert forall|k: nat| n != #[trigger] power2::pow2(k) by {
            power2::lemma_pow2_pos(k);
        }
    }
}

proof fn lemma_entry_sizes(n: nat)
    ensures
        n >= 128 && power_of_two(n) <==> exists|k: nat| n == 128 * #[trigger] power2::pow2(k),
{
    lemma_power_of_two(n);
    power2::lemma2_to64();
    if n >= 128 && power_of_two(n) {
        let k = choose|k: nat| n == #[trigger] power2::pow2(k);
        if k < 7 {
            power2::lemma_pow2_strictly_increases(k, 7);
        }
        power2::lemma_pow2_adds(7, (k - 7) as nat);
        assert(n == 128 * power2::pow2((k - 7) as nat));
    }
    if exists|k: nat| n == 128 * #[trigger] power2::pow2(k) {
        let k = choose|k: nat| n == 128 * #[trigger] power2::pow2(k);
        power2::lemma_pow2_pos(k);
        power2::lemma_pow2_adds(7, k);
        assert(n == power2::pow2(7 + k));
    }
}

/// The table of a GPT lists every entry in use up to the first that cannot be
/// read, with the place, the type and the GUID that its bytes state, and lists
/// nothing else. The entries stand in the order of their numbers.
pub proof fn law_gpt_lists_every_entry_in_use<D: ReadSeek>(dev: D, lba_bytes: u64)
    ensures
        table_of(dev, lba_bytes) matches Some(t) ==> (t.label is Gpt ==> {
            let h = device::window(dev, lba_bytes, 512);
            let es = t.entries;
            &&& forall|i: int|
                0 <= i < bytes::le_at(h, 80, 4) && entries_reach(dev, lba_bytes, h, i)
                    && entry_in_use(#[trigger] entry_bytes(dev, lba_bytes, h, i)) ==> exists|k: int|
                    0 <= k < es.len() && (#[trigger] es[k]).num == i + 1 && entry_says(
                        entry_bytes(dev, lba_bytes, h, i),
                        es[k],
                    )
            &&& forall|k: int|
                0 <= k < es.len() ==> {
                    let i = (#[trigger] es[k]).num - 1;
                    &&& 0 <= i < bytes::le_at(h, 80, 4)
                    &&& entries_reach(dev, lba_bytes, h, i)
                    &&& entry_in_use(entry_bytes(dev, lba_bytes, h, i))
                    &&& entry_says(entry_bytes(dev, lba_bytes, h, i), es[k])
                }
            &&& forall|k: int, m: int|
                0 <= k < m < es.len() ==> (#[trigger] es[k]).num < (#[trigger] es[m]).num
        }),
{
    let h = device::window(dev, lba_bytes, 512);
    let n = bytes::le_at(h, 80, 4);
    if let Some(t) = table_of(dev, lba_bytes) {
        if t.label is Gpt {
            let es = t.entries;
            assert(es == rows_from(dev, lba_bytes, h, 0, n) && n <= 65536) by {
                reveal(rows_from);
            }
            assert forall|i: int|
                0 <= i < n && entries_reach(dev, lba_bytes, h, i) && entry_in_use(
                    #[trigger] entry_bytes(dev, lba_bytes, h, i),
                ) implies exists|k: int|
                0 <= k < es.len() && (#[trigger] es[k]).num == i + 1 && entry_says(
                    entry_bytes(dev, lba_bytes, h, i),
                    es[k],
                ) by {
                reveal(row_there);
                reveal(row_used);
                reveal(row_says);
                lemma_rows_complete(dev, lba_bytes, h, 0, n, i);
                let k = choose|k: int|
                    0 <= k < es.len() && (#[trigger] es[k]).num == i + 1 && row_says(
                        dev,
                        lba_bytes,
                        h,
                        i,
                        es[k],
                    );
                assert(es[k].num == i + 1);
            }
            lemma_rows_sound(dev, lba_bytes, h, 0, n);
            assert forall|k: int| 0 <= k < es.len() implies {
                let i = (#[trigger] es[k]).num - 1;
                &&& 0 <= i < n
                &&& entries_reach(dev, lba_bytes, h, i)
                &&& entry_in_use(entry_bytes(dev, lba_bytes, h, i))
                &&& entry_says(entry_bytes(dev, lba_bytes, h, i), es[k])
            } by {
                reveal(row_there);
                reveal(row_used);
                reveal(row_says);
                let i = es[k].num - 1;
                assert forall|j: int| 0 <= j <= i implies (#[trigger] entry_bytes(
                    dev,
                    lba_bytes,
                    h,
                    j,
                )).len() == 128 by {
                    assert(row_there(dev, lba_bytes, h, j));
                }
            }
        }
    }
}

proof fn lemma_mbr_lists(s: Seq<u8>, n: nat)
    requires
        n <= 4,
    ensures
        ({
            let es = mbr_entries(s, n);
            &&& forall|i: int|
                0 <= i < n && #[trigger] slot_in_use(s, i) ==> exists|k: int|
                    0 <= k < es.len() && (#[trigger] es[k]).num == i + 1 && slot_says(s, i, es[k])
            &&& forall|k: int|
                0 <= k < es.len() ==> {
                    let i = (#[trigger] es[k]).num - 1;
                    0 <= i < n && slot_in_use(s, i) && slot_says(s, i, es[k])
                }
            &&& forall|k: int, m: int|
                0 <= k < m < es.len() ==> (#[trigger] es[k]).num < (#[trigger] es[m]).num
        }),
    decreases n,
{
    if n > 0 {
        let before = mbr_entries(s, (n - 1) as nat);
        let es = mbr_entries(s, n);
        lemma_mbr_lists(s, (n - 1) as nat);
        lemma_le4(s, 454 + 16 * (n - 1));
        lemma_le4(s, 458 + 16 * (n - 1));
        if slot_in_use(s, n - 1) {
            assert(es[es.len() - 1].num == n && slot_says(s, n - 1, es[es.len() - 1]));
        }
        assert forall|i: int| 0 <= i < n && #[trigger] slot_in_use(s, i) implies exists|k: int|
            0 <= k < es.len() && (#[trigger] es[k]).num == i + 1 && slot_says(s, i, es[k]) by {
            if i < n - 1 {
                let k = choose|k: int|
                    0 <= k < before.len() && (#[trigger] before[k]).num == i + 1 && slot_says(
                        s,
                        i,
                        before[k],
                    );
                assert(es[k] == before[k]);
            }
        }
    }
}

/// The table of an MBR lists every slot of the four that has a type and a
/// length, as its bytes state it, and nothing else, in the order of the slots.
pub proof fn law_mbr_lists_every_slot_in_use<D: ReadSeek>(dev: D, lba_bytes: u64)
    ensures
        table_of(dev, lba_bytes) matches Some(t) ==> (t.label is Mbr ==> {
            let s = device::window(dev, 0, 512);
            let es = t.entries;
            &&& forall|i: int|
                0 <= i < 4 && #[trigger] slot_in_use(s, i) ==> exists|k: int|
                    0 <= k < es.len() && (#[trigger] es[k]).num == i + 1 && slot_says(s, i, es[k])
            &&& forall|k: int|
                0 <= k < es.len() ==> {
                    let i = (#[trigger] es[k]).num - 1;
                    0 <= i < 4 && slot_in_use(s, i) && slot_says(s, i, es[k])
                }
            &&& forall|k: int, m: int|
                0 <= k < m < es.len() ==> (#[trigger] es[k]).num < (#[trigger] es[m]).num
        }),
{
    lemma_mbr_lists(device::window(dev, 0, 512), 4);
}

/// Whether `h` is a block that begins with the name of a GPT header.
pub open spec fn names_gpt(h: Seq<u8>) -> bool {
    h.len() == 512 && bytes::holds(h, 0, seq![0x45u8, 0x46, 0x49, 0x20, 0x50, 0x41, 0x52, 0x54])
}

proof fn lemma_names_gpt(h: Seq<u8>)
    ensures
        names_gpt(h) == is_gpt_header(h),
{
    reveal_strlit("EFI PART");
    bytes::lemma_text_is_bytes(
        h,
        0,
        "EFI PART"@,
        seq![0x45u8, 0x46, 0x49, 0x20, 0x50, 0x41, 0x52, 0x54],
    );
}

/// The kinds of tables are told apart by the first sector and the block behind
/// it: without the signature there is no table; a slot in use of type EE and a
/// header make a GPT, which is damaged where its numbers are out of bounds; any
/// other slot in use makes an MBR.
pub proof fn law_tables_are_told_apart<D: ReadSeek>(dev: D, lba_bytes: u64)
    ensures
        ({
            let s = device::window(dev, 0, 512);
            let h = device::window(dev, lba_bytes, 512);
            let signed = s[510] == 0x55 && s[511] == 0xaa;
            let guarded = exists|i: int|
                0 <= i < 4 && #[trigger] slot_in_use(s, i) && s[450 + 16 * i] == 0xee;
            let count = bytes::le_at(h, 80, 4);
            let size = bytes::le_at(h, 84, 4);
            let sane = count <= 65536 && exists|k: nat| size == 128 * #[trigger] power2::pow2(k);
            let used = exists|i: int| 0 <= i < 4 && #[trigger] slot_in_use(s, i);
            let t = table_of(dev, lba_bytes);
            if s.len() < 512 {
                t is None
            } else if !signed {
                t == Some(no_table())
            } else if guarded && names_gpt(h) {
                if sane {
                    &&& t matches Some(t)
                    &&& t.label is Gpt
                    &&& t.gpt_meta == Some((count as u32, size as u32))
                    &&& t.gpt_last_usable_lba == Some(bytes::le_at(h, 64, 8) as u64)
                } else {
                    t is None
                }
            } else if used {
                &&& t matches Some(t)
                &&& t.label is Mbr
                &&& t.gpt_meta is None
                &&& t.gpt_last_usable_lba is None
            } else {
                t == Some(no_table())
            }
        }),
        no_table().label is Superfloppy,
        no_table().entries.len() == 0,
{
    let s = device::window(dev, 0, 512);
    let h = device::window(dev, lba_bytes, 512);
    lemma_names_gpt(h);
    lemma_entry_sizes(bytes::le_at(h, 84, 4));
    lemma_mbr_lists(s, 4);
    let guarded = exists|i: int|
        0 <= i < 4 && #[trigger] slot_in_use(s, i) && s[450 + 16 * i] == 0xee;
    assert(guarded == has_guard(s)) by {
        assert forall|i: int| 0 <= i < 4 implies guards_gpt(s, i) == (#[trigger] slot_in_use(s, i)
            && s[450 + 16 * i] == 0xee) by {}
        if has_guard(s) {
            let i: int = if guards_gpt(s, 0) {
                0
            } else if guards_gpt(s, 1) {
                1
            } else if guards_gpt(s, 2) {
                2
            } else {
                3
            };
            assert(slot_in_use(s, i) && s[450 + 16 * i] == 0xee);
        }
    }
    let es = mbr_entries(s, 4);
    if es.len() > 0 {
        assert(slot_in_use(s, es[0].num - 1));
    }
}

/// The header of a GPT is found by its name, and says what its bytes hold.
pub proof fn law_headers_say_what_they_hold<D: ReadSeek>(
    dev: D,
    device_sectors: u64,
    lba_bytes: u64,
)
    requires
        lba_bytes > 0,
    ensures
        ({
            let h = device::window(dev, lba_bytes, 512);
            match gpt_header(dev, lba_bytes) {
                Some((last, (count, size))) => {
                    &&& names_gpt(h)
                    &&& last == bytes::le_at(h, 48, 8)
                    &&& count == bytes::le_at(h, 80, 4)
                    &&& size == bytes::le_at(h, 84, 4)
                },
                None => !names_gpt(h),
            }
        }),
        forall|blocks: int|
            device_sectors * 512 <= u64::MAX && 1 <= blocks && #[trigger] (blocks * lba_bytes)
                <= device_sectors * 512 < (blocks + 1) * lba_bytes ==> {
                let end = device::window(dev, (device_sectors * 512 - lba_bytes) as u64, 512);
                backup_at_end(dev, device_sectors, lba_bytes) <==> names_gpt(end) && bytes::le_at(
                    end,
                    24,
                    8,
                ) == blocks - 1
            },
        backup_at_end(dev, device_sectors, lba_bytes) ==> lba_bytes <= device_sectors * 512
            <= u64::MAX,
{
    let h = device::window(dev, lba_bytes, 512);
    lemma_names_gpt(h);
    lemma_le8(h, 48);
    lemma_le4(h, 80);
    lemma_le4(h, 84);
    let size = device_sectors * 512;
    lemma_names_gpt(device::window(dev, (size - lba_bytes) as u64, 512));
    assert forall|blocks: int|
        1 <= blocks && #[trigger] (blocks * lba_bytes) <= size < (blocks + 1) * lba_bytes implies size
        / (lba_bytes as int) == blocks by {
        let r = size - blocks * lba_bytes;
        assert(r < lba_bytes) by (nonlinear_arith)
            requires
                size < (blocks + 1) * lba_bytes,
                r == size - blocks * lba_bytes,
        ;
        vstd::arithmetic::div_mod::lemma_fundamental_div_mod_converse(
            size,
            lba_bytes as int,
            blocks,
            r,
        );
    }
    assert forall|blocks: int|
        1 <= blocks && #[trigger] (blocks * lba_bytes) <= size implies lba_bytes <= size by {
        assert(blocks * lba_bytes >= lba_bytes) by (nonlinear_arith)
            requires
                blocks >= 1,
                lba_bytes > 0,
        ;
    }
}

/// Where the digits of byte `k` stand in a GUID.
pub open spec fn guid_place(k: int) -> int {
    if k < 4 {
        2 * (3 - k)
    } else if k < 6 {
        9 + 2 * (5 - k)
    } else if k < 8 {
        14 + 2 * (7 - k)
    } else if k < 10 {
        19 + 2 * (k - 8)
    } else {
        24 + 2 * (k - 10)
    }
}

/// A GUID is written in groups of 8, 4, 4, 4 and 12 digits; the bytes of the
/// first three groups stand the other way round.
pub proof fn law_guids_are_written_in_groups(b: Seq<u8>, at: int, k: int)
    requires
        0 <= k < 16,
    ensures
        ({
            let g = guid(b, at);
            &&& g.len() == 36
            &&& g[8] == '-' && g[13] == '-' && g[18] == '-' && g[23] == '-'
            &&& g[guid_place(k)] == text::hex_digit((b[at + k] / 16) as nat)
            &&& g[guid_place(k) + 1] == text::hex_digit((b[at + k] % 16) as nat)
        }),
{
    let g = guid(b, at);
    let h = |i: int| text::hex2(b[at + i]);
    let d = seq!['-'];
    let g1 = h(3) + h(2) + h(1) + h(0);
    let g2 = h(5) + h(4);
    let g3 = h(7) + h(6);
    let g4 = h(8) + h(9);
    let g5 = h(10) + h(11) + h(12) + h(13) + h(14) + h(15);
    assert(g1.len() == 8 && g2.len() == 4 && g3.len() == 4 && g4.len() == 4 && g5.len() == 12);
    assert(g =~= g1 + d + g2 + d + g3 + d + g4 + d + g5);
}

/// Products and sums are counted up to what 64 bits hold.
pub proof fn law_numbers_stop_at_the_largest(x: int)
    ensures
        0 <= x <= u64::MAX ==> sat(x) == x,
        x > u64::MAX ==> sat(x) == u64::MAX,
{
}

} // verus!
