//! The disks of a machine, as the kernel describes them.
use crate::grow::plan;
use crate::order;
use crate::order::is_text_le;
use crate::paths;
use crate::paths::split_parts;
use crate::sat;
use crate::sat::IdentifyData;
use crate::text;
use crate::text::{
    chars_of, has_prefix, is_text, parse_up_to, part, split_lines, split_words, string_of, trimmed,
};
use crate::utils;
use crate::utils::{format_bytes, MAX_SECTORS, SECTOR};
use vstd::prelude::*;
use vstd::string::*;

verus! {

/// What the kernel and the disk itself say of a block device. A file that
/// cannot be read is `None`.
pub struct SysBlock {
    pub name: String,
    pub ro: Option<String>,
    /// In sectors.
    pub size: Option<String>,
    /// The files that may hold the model, the first that is there counts.
    pub models: Vec<Option<String>>,
    pub serial: Option<String>,
    pub removable: Option<String>,
    pub rotational: Option<String>,
    /// The table of mounts.
    pub mounts: Option<String>,
    /// Whether the device stands on a SAS bus.
    pub sas: bool,
    /// Where the device stands in the tree of devices.
    pub device_link: Option<String>,
    /// What an `sd` disk says of itself.
    pub identify: Option<IdentifyData>,
}

#[verifier::ext_equal]
pub struct SysView {
    pub name: Seq<char>,
    pub ro: Option<Seq<char>>,
    pub size: Option<Seq<char>>,
    pub models: Seq<Option<Seq<char>>>,
    pub serial: Option<Seq<char>>,
    pub removable: Option<Seq<char>>,
    pub rotational: Option<Seq<char>>,
    pub mounts: Option<Seq<char>>,
    pub sas: bool,
    pub device_link: Option<Seq<char>>,
    pub identify: Option<sat::IdentifyView>,
}

impl View for SysBlock {
    type V = SysView;

    open spec fn view(&self) -> SysView {
        SysView {
            name: self.name@,
            ro: text::opt_text(self.ro),
            size: text::opt_text(self.size),
            models: Seq::new(self.models@.len(), |i: int| text::opt_text(self.models@[i])),
            serial: text::opt_text(self.serial),
            removable: text::opt_text(self.removable),
            rotational: text::opt_text(self.rotational),
            mounts: text::opt_text(self.mounts),
            sas: self.sas,
            device_link: text::opt_text(self.device_link),
            identify: sat::identify_view(self.identify),
        }
    }
}

/// A disk that an image can be written to.
#[derive(Debug, Clone)]
pub struct DiskInfo {
    pub name: String,
    pub dev_path: String,
    pub size_bytes: u64,
    /// The size for people to read.
    pub size_str: String,
    /// NVMe, VirtIO, eMMC, IDE, USB, SATA, SAS, ATA or Unknown.
    pub transport: String,
    /// SSD or HDD; empty where neither is certain.
    pub disk_type: String,
    pub is_removable: bool,
    pub is_mounted: bool,
    pub mount_point: Option<String>,
    /// What the disk calls itself, or else what the kernel calls it.
    pub model: Option<String>,
    pub serial: Option<String>,
}

#[verifier::ext_equal]
pub struct DiskView {
    pub name: Seq<char>,
    pub dev_path: Seq<char>,
    pub size_bytes: u64,
    pub size_str: Seq<char>,
    pub transport: Seq<char>,
    pub disk_type: Seq<char>,
    pub is_removable: bool,
    pub is_mounted: bool,
    pub mount_point: Option<Seq<char>>,
    pub model: Option<Seq<char>>,
    pub serial: Option<Seq<char>>,
}

impl View for DiskInfo {
    type V = DiskView;

    open spec fn view(&self) -> DiskView {
        DiskView {
            name: self.name@,
            dev_path: self.dev_path@,
            size_bytes: self.size_bytes,
            size_str: self.size_str@,
            transport: self.transport@,
            disk_type: self.disk_type@,
            is_removable: self.is_removable,
            is_mounted: self.is_mounted,
            mount_point: text::opt_text(self.mount_point),
            model: text::opt_text(self.model),
            serial: text::opt_text(self.serial),
        }
    }
}

pub open spec fn disk_views(v: Seq<DiskInfo>) -> Seq<DiskView> {
    Seq::new(v.len(), |i: int| v[i]@)
}

/// The names of disks begin with one of these.
pub open spec fn is_disk(name: Seq<char>) -> bool {
    text::starts_with(name, "sd"@) || text::starts_with(name, "nvme"@) || text::starts_with(
        name,
        "vd"@,
    ) || text::starts_with(name, "hd"@) || text::starts_with(name, "mmcblk"@)
}

/// Whether the kernel gives such a name to disks.
pub fn is_disk_name(name: &str) -> (r: bool)
    ensures
        r == is_disk(name@),
{
    let v = chars_of(name);
    has_prefix(&v, "sd") || has_prefix(&v, "nvme") || has_prefix(&v, "vd") || has_prefix(&v, "hd")
        || has_prefix(&v, "mmcblk")
}

/// The number in a file of the kernel, zero where there is none up to `max`.
pub open spec fn number_in(content: Option<Seq<char>>, max: nat) -> nat {
    match content {
        Some(c) => match text::parse_number(text::trim(c), max) {
            Some(n) => n,
            None => 0,
        },
        None => 0,
    }
}

fn read_number(content: &Option<String>, max: u64) -> (r: u64)
    ensures
        r == number_in(text::opt_text(*content), max as nat),
{
    match content {
        Some(c) => match parse_up_to(&trimmed(&chars_of(c.as_str())), max) {
            Some(n) => n,
            None => 0,
        },
        None => 0,
    }
}

/// The sectors that a block device has.
pub open spec fn sectors_of(b: SysView) -> nat {
    number_in(b.size, u64::MAX as nat)
}

/// The text of a file without white space around it, unless that is empty.
pub open spec fn some_text(content: Option<Seq<char>>) -> Option<Seq<char>> {
    match content {
        Some(c) => if text::trim(c).len() == 0 {
            None
        } else {
            Some(text::trim(c))
        },
        None => None,
    }
}

fn read_text(content: &Option<String>) -> (r: Option<String>)
    ensures
        text::opt_text(r) == some_text(text::opt_text(*content)),
{
    match content {
        Some(c) => {
            let t = trimmed(&chars_of(c.as_str()));
            if t.len() == 0 {
                None
            } else {
                Some(string_of(&t))
            }
        },
        None => None,
    }
}

/// The first of several files that is there.
pub open spec fn first_there(files: Seq<Option<Seq<char>>>) -> Option<Seq<char>>
    decreases files.len(),
{
    if files.len() == 0 {
        None
    } else if files[0] is Some {
        files[0]
    } else {
        first_there(files.skip(1))
    }
}

fn read_first(files: &Vec<Option<String>>) -> (r: Option<String>)
    ensures
        text::opt_text(r) == some_text(
            first_there(Seq::new(files@.len(), |i: int| text::opt_text(files@[i]))),
        ),
{
    let ghost all = Seq::new(files@.len(), |i: int| text::opt_text(files@[i]));
    let mut i: usize = 0;
    assert(all.skip(0) =~= all);
    while i < files.len()
        invariant
            i <= files@.len(),
            all == Seq::new(files@.len(), |i: int| text::opt_text(files@[i])),
            first_there(all) == first_there(all.skip(i as int)),
        decreases files@.len() - i,
    {
        assert(all.skip(i as int).skip(1) =~= all.skip(i + 1));
        assert(all.skip(i as int)[0] == text::opt_text(files@[i as int]));
        if files[i].is_some() {
            return read_text(&files[i]);
        }
        i = i + 1;
    }
    None
}

/// Whether a part of a path is `prefix` and a number, as in `usb1` or `ata3`.
pub open spec fn numbered(comp: Seq<char>, prefix: Seq<char>) -> bool {
    match text::strip_prefix(comp, prefix) {
        Some(rest) => is_number(rest),
        None => false,
    }
}

/// Whether a part of a path is `prefix` and a number.
pub fn is_numbered_kernel_dev(comp: &Vec<char>, prefix: &str) -> (r: bool)
    ensures
        r == numbered(comp@, prefix@),
{
    if !has_prefix(comp, prefix) {
        return false;
    }
    digits_from(comp, chars_of(prefix).len())
}

/// The bus that a part of a device path names.
pub open spec fn bus_of(comp: Seq<char>) -> Option<Seq<char>> {
    if numbered(comp, "usb"@) {
        Some("USB"@)
    } else if numbered(comp, "ata"@) {
        Some("SATA"@)
    } else if numbered(comp, "virtio"@) {
        Some("VirtIO"@)
    } else {
        None
    }
}

/// The first bus that the parts of a device path name.
pub open spec fn first_bus(parts: Seq<Seq<char>>) -> Seq<char>
    decreases parts.len(),
{
    if parts.len() == 0 {
        "Unknown"@
    } else {
        match bus_of(parts[0]) {
            Some(b) => b,
            None => first_bus(parts.skip(1)),
        }
    }
}

/// How an `sd` disk is connected, as far as its place among the devices shows.
pub open spec fn sd_transport(sas: bool, link: Option<Seq<char>>) -> Seq<char> {
    if sas {
        "SAS"@
    } else {
        match link {
            Some(l) => first_bus(paths::parts(l)),
            None => "Unknown"@,
        }
    }
}

/// How an `sd` disk is connected, as far as its place among the devices shows.
pub fn detect_sd_transport(sas: bool, link: &Option<String>) -> (r: &'static str)
    ensures
        r@ == sd_transport(sas, text::opt_text(*link)),
{
    if sas {
        return "SAS";
    }
    let Some(l) = link else {
        return "Unknown";
    };
    let comps = split_parts(&chars_of(l.as_str()));
    let ghost all = text::texts(comps@);
    let mut i: usize = 0;
    assert(all.skip(0) =~= all);
    while i < comps.len()
        invariant
            i <= comps@.len(),
            all == text::texts(comps@),
            all == paths::parts(l@),
            first_bus(all) == first_bus(all.skip(i as int)),
            !sas,
            *link == Some(*l),
        decreases comps@.len() - i,
    {
        assert(all.skip(i as int).skip(1) =~= all.skip(i + 1));
        assert(all.skip(i as int)[0] == comps@[i as int]@);
        if is_numbered_kernel_dev(&comps[i], "usb") {
            return "USB";
        }
        if is_numbered_kernel_dev(&comps[i], "ata") {
            return "SATA";
        }
        if is_numbered_kernel_dev(&comps[i], "virtio") {
            return "VirtIO";
        }
        i = i + 1;
    }
    "Unknown"
}

/// How a disk is connected, by its name or its place among the devices.
pub open spec fn transport_of(name: Seq<char>, sas: bool, link: Option<Seq<char>>) -> Seq<char> {
    if text::starts_with(name, "nvme"@) {
        "NVMe"@
    } else if text::starts_with(name, "vd"@) {
        "VirtIO"@
    } else if text::starts_with(name, "mmcblk"@) {
        "eMMC"@
    } else if text::starts_with(name, "hd"@) {
        "IDE"@
    } else if text::starts_with(name, "sd"@) {
        sd_transport(sas, link)
    } else {
        "Unknown"@
    }
}

/// How a disk is connected, by its name or its place among the devices.
pub fn detect_transport(name: &str, sas: bool, link: &Option<String>) -> (r: &'static str)
    ensures
        r@ == transport_of(name@, sas, text::opt_text(*link)),
{
    let v = chars_of(name);
    if has_prefix(&v, "nvme") {
        "NVMe"
    } else if has_prefix(&v, "vd") {
        "VirtIO"
    } else if has_prefix(&v, "mmcblk") {
        "eMMC"
    } else if has_prefix(&v, "hd") {
        "IDE"
    } else if has_prefix(&v, "sd") {
        detect_sd_transport(sas, link)
    } else {
        "Unknown"
    }
}

/// What is certain of a medium: NVMe is solid state, and the kernel knows what
/// turns.
pub open spec fn disk_type_of(name: Seq<char>, rotational: Option<Seq<char>>) -> Seq<char> {
    if text::starts_with(name, "nvme"@) {
        "SSD"@
    } else if number_in(rotational, 255) == 1 {
        "HDD"@
    } else {
        ""@
    }
}

/// What is certain of a medium.
pub fn detect_disk_type(name: &str, rotational: &Option<String>) -> (r: &'static str)
    ensures
        r@ == disk_type_of(name@, text::opt_text(*rotational)),
{
    if has_prefix(&chars_of(name), "nvme") {
        "SSD"
    } else if read_number(rotational, 255) == 1 {
        "HDD"
    } else {
        ""
    }
}

/// Whether a text is a number.
pub open spec fn is_number(s: Seq<char>) -> bool {
    s.len() > 0 && text::all_digits(s)
}

/// Whether `rest` stands behind the name of a disk in the name of one of its
/// partitions: a number, with a `p` before it where the name ends in a digit.
pub open spec fn names_part(name: Seq<char>, rest: Seq<char>) -> bool {
    if name.len() > 0 && text::is_digit(name.last()) {
        rest.len() > 0 && rest[0] == 'p' && is_number(rest.skip(1))
    } else {
        is_number(rest)
    }
}

/// Whether a device name is that of a disk or of one of its partitions.
pub open spec fn is_part_of(dev: Seq<char>, name: Seq<char>) -> bool {
    dev == name || match text::strip_prefix(dev, name) {
        Some(rest) => names_part(name, rest),
        None => false,
    }
}

/// Where a line of the table of mounts says that a disk is mounted.
pub open spec fn mount_in(line: Seq<char>, name: Seq<char>) -> Option<Seq<char>> {
    let w = text::words(line);
    if w.len() < 2 {
        None
    } else {
        match text::strip_prefix(w[0], "/dev/"@) {
            Some(dev) => if is_part_of(dev, name) {
                Some(w[1])
            } else {
                None
            },
            None => None,
        }
    }
}

/// Where the first line that speaks of a disk says that it is mounted.
pub open spec fn first_mount(ls: Seq<Seq<char>>, name: Seq<char>) -> Option<Seq<char>>
    decreases ls.len(),
{
    if ls.len() == 0 {
        None
    } else {
        match mount_in(ls[0], name) {
            Some(m) => Some(m),
            None => first_mount(ls.skip(1), name),
        }
    }
}

/// Where a disk or one of its partitions is mounted.
pub open spec fn mounted_at(name: Seq<char>, mounts: Option<Seq<char>>) -> Option<Seq<char>> {
    if text::trim(name).len() == 0 {
        None
    } else {
        match mounts {
            Some(m) => first_mount(text::lines(m), name),
            None => None,
        }
    }
}

fn mount_of(line: &Vec<char>, name: &str) -> (r: Option<String>)
    ensures
        text::opt_text(r) == mount_in(line@, name@),
{
    proof {
        reveal_strlit("/dev/");
    }
    let w = split_words(line);
    let ghost words = text::texts(w@);
    if w.len() < 2 {
        return None;
    }
    assert(words[0] == w@[0]@ && words[1] == w@[1]@);
    if !has_prefix(&w[0], "/dev/") {
        return None;
    }
    let dev = part(&w[0], 5, w[0].len());
    assert(dev@ =~= w@[0]@.skip("/dev/"@.len() as int));
    if is_text(&dev, name) {
        return Some(string_of(&w[1]));
    }
    if !has_prefix(&dev, name) {
        return None;
    }
    let disk = chars_of(name);
    let n: usize = disk.len();
    if n > 0 && '0' <= disk[n - 1] && disk[n - 1] <= '9' {
        if dev.len() > n && dev[n] == 'p' && digits_from(&dev, n + 1) {
            assert(dev@.skip(n as int).skip(1) =~= dev@.skip(n + 1));
            return Some(string_of(&w[1]));
        }
        assert(dev@.len() > n ==> dev@.skip(n as int).skip(1) =~= dev@.skip(n + 1));
        return None;
    }
    if digits_from(&dev, n) {
        Some(string_of(&w[1]))
    } else {
        None
    }
}

/// Whether `v` is a number from `from` on.
fn digits_from(v: &Vec<char>, from: usize) -> (r: bool)
    requires
        from <= v@.len(),
    ensures
        r == is_number(v@.skip(from as int)),
{
    let ghost rest = v@.skip(from as int);
    let mut i: usize = from;
    while i < v.len()
        invariant
            from <= i <= v@.len(),
            rest == v@.skip(from as int),
            forall|k: int| 0 <= k < i - from ==> text::is_digit(#[trigger] rest[k]),
        decreases v@.len() - i,
    {
        let c: char = v[i];
        assert(rest[i - from] == c);
        if c < '0' || '9' < c {
            assert(!text::is_digit(rest[i - from]));
            return false;
        }
        i = i + 1;
    }
    v.len() > from
}

/// Whether a disk or one of its partitions is mounted, and where.
pub fn check_mounted(name: &str, mounts: &Option<String>) -> (r: (bool, Option<String>))
    ensures
        r.0 == (mounted_at(name@, text::opt_text(*mounts)) is Some),
        text::opt_text(r.1) == mounted_at(name@, text::opt_text(*mounts)),
{
    if trimmed(&chars_of(name)).len() == 0 {
        return (false, None);
    }
    let Some(m) = mounts else {
        return (false, None);
    };
    let ls = split_lines(&chars_of(m.as_str()));
    let ghost all = text::texts(ls@);
    let mut i: usize = 0;
    assert(all.skip(0) =~= all);
    while i < ls.len()
        invariant
            i <= ls@.len(),
            all == text::texts(ls@),
            all == text::lines(m@),
            *mounts == Some(*m),
            text::trim(name@).len() > 0,
            first_mount(all, name@) == first_mount(all.skip(i as int), name@),
        decreases ls@.len() - i,
    {
        assert(all.skip(i as int).skip(1) =~= all.skip(i + 1));
        assert(all.skip(i as int)[0] == ls@[i as int]@);
        let found = mount_of(&ls[i], name);
        if found.is_some() {
            return (true, found);
        }
        i = i + 1;
    }
    (false, None)
}

/// What an `sd` disk says of itself; other disks are not asked.
pub open spec fn identity(b: SysView) -> Option<sat::IdentifyView> {
    if text::starts_with(b.name, "sd"@) {
        b.identify
    } else {
        None
    }
}

/// Whether the kernel lets a block device be written to.
pub open spec fn is_writable(b: SysView) -> bool {
    b.ro matches Some(t) && text::trim(t) == "0"@
}

/// The disk that a block device is, unless it is read-only. What the disk says
/// of itself goes before what the kernel says.
pub open spec fn disk_of(b: SysView) -> Option<DiskView> {
    let id = identity(b);
    let bytes = (sectors_of(b) * SECTOR) as u64;
    let place = transport_of(b.name, b.sas, b.device_link);
    let mount = mounted_at(b.name, b.mounts);
    if !is_writable(b) {
        None
    } else {
        Some(
            DiskView {
                name: b.name,
                dev_path: "/dev/"@ + b.name,
                size_bytes: bytes,
                size_str: utils::size_text(bytes as nat),
                transport: if id is Some && place == "Unknown"@ {
                    "ATA"@
                } else {
                    place
                },
                disk_type: match id {
                    Some(d) if d.rotation_rate == 1 => "SSD"@,
                    Some(d) if d.rotation_rate > 1 => "HDD"@,
                    _ => disk_type_of(b.name, b.rotational),
                },
                is_removable: number_in(b.removable, 255) == 1,
                is_mounted: mount is Some,
                mount_point: mount,
                model: match id {
                    Some(d) => Some(d.model),
                    None => some_text(first_there(b.models)),
                },
                serial: match id {
                    Some(d) if d.serial.len() > 0 => Some(d.serial),
                    _ => some_text(b.serial),
                },
            },
        )
    }
}

pub open spec fn disk_view(d: Option<DiskInfo>) -> Option<DiskView> {
    match d {
        Some(d) => Some(d@),
        None => None,
    }
}

/// Whether the size of a block device can be counted in bytes, where it is to
/// be counted.
pub open spec fn countable(b: SysView) -> bool {
    is_writable(b) ==> sectors_of(b) <= MAX_SECTORS
}

impl SysBlock {
    /// Whether the kernel lets the device be written to.
    pub fn writable(&self) -> (r: bool)
        ensures
            r == is_writable(self@),
    {
        match &self.ro {
            Some(ro) => is_text(&trimmed(&chars_of(ro.as_str())), "0"),
            None => false,
        }
    }

    /// Whether the size of the device can be counted in bytes, where it is to
    /// be counted.
    pub fn is_countable(&self) -> (r: bool)
        ensures
            r == countable(self@),
    {
        !self.writable() || read_number(&self.size, u64::MAX) <= MAX_SECTORS
    }
}

/// The disks among block devices, in the order of the devices.
pub open spec fn disks_among(bs: Seq<SysView>, n: nat) -> Seq<DiskView>
    decreases n,
{
    if n == 0 {
        seq![]
    } else {
        let before = disks_among(bs, (n - 1) as nat);
        if !is_disk(bs[n - 1].name) {
            before
        } else {
            match disk_of(bs[n - 1]) {
                Some(d) => before.push(d),
                None => before,
            }
        }
    }
}

pub open spec fn sys_views(v: Seq<SysBlock>) -> Seq<SysView> {
    Seq::new(v.len(), |i: int| v[i]@)
}

/// Disks are listed by name.
pub open spec fn by_name() -> spec_fn(DiskView, DiskView) -> bool {
    |a: DiskView, b: DiskView| order::text_le(a.name, b.name)
}

/// The disks that an image can be written to, by name.
pub open spec fn disk_list(bs: Seq<SysView>) -> Seq<DiskView> {
    order::sorted(disks_among(bs, bs.len()), by_name())
}

impl DiskInfo {
    /// The disk that a block device is, unless it is read-only.
    pub fn from_sys_block(b: &SysBlock) -> (r: Option<DiskInfo>)
        requires
            countable(b@),
        ensures
            disk_view(r) == disk_of(b@),
    {
        if !b.writable() {
            return None;
        }
        let name = b.name.as_str();
        let size_bytes: u64 = read_number(&b.size, u64::MAX) * SECTOR;
        let (is_mounted, mount_point) = check_mounted(name, &b.mounts);
        let id: Option<&IdentifyData> = if has_prefix(&chars_of(name), "sd") {
            b.identify.as_ref()
        } else {
            None
        };
        let place = detect_transport(name, b.sas, &b.device_link);
        let transport = if id.is_some() && text::same_str(place, "Unknown") {
            "ATA"
        } else {
            place
        };
        let rate: u16 = match id {
            Some(d) => d.rotation_rate,
            None => 0,
        };
        let disk_type = if rate == 1 {
            "SSD"
        } else if rate > 1 {
            "HDD"
        } else {
            detect_disk_type(name, &b.rotational)
        };
        let model = match id {
            Some(d) => Some(d.model.clone()),
            None => read_first(&b.models),
        };
        let mut serial: Option<String> = None;
        if let Some(d) = id {
            if chars_of(d.serial.as_str()).len() > 0 {
                serial = Some(d.serial.clone());
            }
        }
        if serial.is_none() {
            serial = read_text(&b.serial);
        }
        let mut dev_path = "/dev/".to_owned();
        dev_path.append(name);
        Some(
            DiskInfo {
                name: name.to_owned(),
                dev_path,
                size_bytes,
                size_str: format_bytes(size_bytes),
                transport: transport.to_owned(),
                disk_type: disk_type.to_owned(),
                is_removable: read_number(&b.removable, 255) == 1,
                is_mounted,
                mount_point,
                model,
                serial,
            },
        )
    }

    /// The disks among the block devices of a machine that an image can be
    /// written to, by name.
    pub fn enumerate(blocks: &Vec<SysBlock>) -> (r: Vec<DiskInfo>)
        requires
            forall|i: int|
                0 <= i < blocks@.len() && is_disk((#[trigger] blocks@[i])@.name) ==> countable(
                    blocks@[i]@,
                ),
        ensures
            disk_views(r@) == disk_list(sys_views(blocks@)),
    {
        let ghost bs = sys_views(blocks@);
        let mut out: Vec<DiskInfo> = Vec::new();
        let mut i: usize = 0;
        assert(disk_views(out@) =~= Seq::<DiskView>::empty());
        assert(order::sorted(disks_among(bs, 0), by_name()) =~= Seq::<DiskView>::empty());
        while i < blocks.len()
            invariant
                i <= blocks@.len(),
                bs == sys_views(blocks@),
                forall|i: int|
                    0 <= i < blocks@.len() && is_disk((#[trigger] blocks@[i])@.name) ==> countable(
                        blocks@[i]@,
                    ),
                disk_views(out@) == order::sorted(disks_among(bs, i as nat), by_name()),
            decreases blocks@.len() - i,
        {
            assert(bs[i as int] == blocks@[i as int]@);
            let ghost before = disks_among(bs, i as nat);
            if is_disk_name(blocks[i].name.as_str()) {
                if let Some(d) = DiskInfo::from_sys_block(&blocks[i]) {
                    assert(before.push(d@).drop_last() =~= before);
                    insert_by_name(&mut out, d);
                }
            }
            i = i + 1;
        }
        out
    }
}

fn insert_by_name(v: &mut Vec<DiskInfo>, d: DiskInfo)
    ensures
        disk_views(final(v)@) == disk_views(old(v)@).insert(
            order::place(disk_views(old(v)@), d@, by_name()),
            d@,
        ),
{
    let ghost s = disk_views(v@);
    let mut i: usize = v.len();
    while i > 0 && !is_text_le(v[i - 1].name.as_str(), d.name.as_str())
        invariant
            i <= v@.len(),
            s == disk_views(v@),
            forall|k: int| i <= k < s.len() ==> !by_name()(#[trigger] s[k], d@),
        decreases i,
    {
        assert(s[i - 1] == v@[i - 1]@);
        i = i - 1;
    }
    proof {
        assert(i > 0 ==> s[i - 1] == v@[i - 1]@);
        order::lemma_place_unique(s, d@, by_name(), i as int);
    }
    let ghost x = d@;
    v.insert(i, d);
    assert(disk_views(v@) =~= s.insert(i as int, x));
}

/// The list of disks is in the order of their names, and holds each disk among
/// the block devices as often as it is there.
pub proof fn law_disks_are_listed_by_name(bs: Seq<SysView>)
    ensures
        order::in_order(disk_list(bs), by_name()),
        disk_list(bs).to_multiset() == disks_among(bs, bs.len()).to_multiset(),
{
    assert(order::is_total(by_name())) by {
        assert forall|a: DiskView, b: DiskView| #[trigger] by_name()(a, b) || by_name()(b, a) by {
            order::lemma_text_le_total(a.name, b.name);
        }
        assert forall|a: DiskView, b: DiskView, c: DiskView| #[trigger]
            by_name()(a, b) && #[trigger] by_name()(b, c) implies by_name()(a, c) by {
            order::lemma_text_le_transitive(a.name, b.name, c.name);
        }
    }
    order::law_sorted(disks_among(bs, bs.len()), by_name());
}

/// The partitions of a disk count as its own.
pub proof fn law_own_partitions_count(disk: Seq<char>, num: u32)
    ensures
        is_part_of(plan::part_name(disk, num), disk),
{
    reveal_strlit("p");
    let number = text::decimal(num as nat);
    let dev = plan::part_name(disk, num);
    let rest = dev.skip(disk.len() as int);
    text::law_decimal_parses(num as nat, num as nat);
    assert(dev.take(disk.len() as int) =~= disk);
    if disk.len() > 0 && text::is_digit(disk.last()) {
        assert(rest =~= "p"@ + number);
        assert(rest.skip(1) =~= number);
    } else {
        assert(rest =~= number);
    }
}

/// Every disk can be written to, and one that is mounted says where.
pub proof fn law_read_only_devices_are_no_disks(b: SysView)
    requires
        disk_of(b) is Some,
    ensures
        is_writable(b),
        (disk_of(b)->0).is_mounted == (disk_of(b)->0).mount_point is Some,
{
}

/// Whether a block device has a name as disks have them and can be written to.
pub open spec fn can_be_chosen(b: SysView) -> bool {
    &&& b.ro matches Some(t) && text::trim(t) == "0"@
    &&& text::starts_with(b.name, "sd"@) || text::starts_with(b.name, "nvme"@)
        || text::starts_with(b.name, "vd"@) || text::starts_with(b.name, "hd"@)
        || text::starts_with(b.name, "mmcblk"@)
}

proof fn lemma_among_push(bs: Seq<SysView>, b: SysView, n: nat)
    requires
        n <= bs.len(),
    ensures
        disks_among(bs.push(b), n) == disks_among(bs, n),
    decreases n,
{
    if n > 0 {
        lemma_among_push(bs, b, (n - 1) as nat);
        assert(bs.push(b)[n - 1] == bs[n - 1]);
    }
}

/// Whatever stands among the block devices already, one more of them is listed
/// as the disk it is, just where it has the name of a disk and can be written
/// to: nothing else about it counts.
pub proof fn law_each_device_that_can_be_chosen_is_listed(bs: Seq<SysView>, b: SysView)
    ensures
        can_be_chosen(b) ==> disk_of(b) is Some,
        disk_list(bs.push(b)).to_multiset() == if can_be_chosen(b) {
            disk_list(bs).to_multiset().insert(disk_of(b)->0)
        } else {
            disk_list(bs).to_multiset()
        },
        disk_list(bs.push(b)).len() == disk_list(bs).len() + if can_be_chosen(b) {
            1int
        } else {
            0int
        },
        disk_list(seq![]).len() == 0,
{
    broadcast use vstd::seq_lib::group_to_multiset_ensures;

    law_disks_are_listed_by_name(bs);
    law_disks_are_listed_by_name(bs.push(b));
    lemma_among_push(bs, b, bs.len());
    assert(bs.push(b)[bs.len() as int] == b);
    let before = disks_among(bs, bs.len());
    let after = disks_among(bs.push(b), bs.push(b).len());
    assert(disk_list(seq![]).len() == 0);
    if can_be_chosen(b) {
        assert(after == before.push(disk_of(b)->0));
    } else {
        assert(after == before);
    }
    assert(disk_list(bs).len() == disk_list(bs).to_multiset().len());
    assert(disk_list(bs.push(b)).len() == disk_list(bs.push(b)).to_multiset().len());
}

proof fn lemma_among(bs: Seq<SysView>, n: nat)
    requires
        n <= bs.len(),
    ensures
        forall|i: int|
            0 <= i < n && can_be_chosen(#[trigger] bs[i]) ==> disk_of(bs[i]) is Some && disks_among(
                bs,
                n,
            ).contains(disk_of(bs[i])->0),
        forall|d: DiskView| #[trigger]
            disks_among(bs, n).contains(d) ==> exists|i: int|
                0 <= i < n && can_be_chosen(#[trigger] bs[i]) && disk_of(bs[i]) == Some(d),
    decreases n,
{
    if n > 0 {
        lemma_among(bs, (n - 1) as nat);
        let before = disks_among(bs, (n - 1) as nat);
        let all = disks_among(bs, n);
        assert forall|i: int| 0 <= i < n && can_be_chosen(#[trigger] bs[i]) implies disk_of(
            bs[i],
        ) is Some && all.contains(disk_of(bs[i])->0) by {
            let d = disk_of(bs[i])->0;
            if i < n - 1 {
                let k = choose|k: int| 0 <= k < before.len() && before[k] == d;
                assert(all[k] == d);
            } else {
                assert(all[all.len() - 1] == d);
            }
        }
        assert forall|d: DiskView| #[trigger] all.contains(d) implies exists|i: int|
            0 <= i < n && can_be_chosen(#[trigger] bs[i]) && disk_of(bs[i]) == Some(d) by {
            let k = choose|k: int| 0 <= k < all.len() && all[k] == d;
            if k < before.len() {
                assert(before[k] == d);
                assert(before.contains(d));
            } else {
                assert(can_be_chosen(bs[n - 1]) && disk_of(bs[n - 1]) == Some(d));
            }
        }
    }
}

/// Every block device with the name of a disk that can be written to is in the
/// list, and nothing else is. The list is in the order of the names.
pub proof fn law_the_list_of_disks_is_complete(bs: Seq<SysView>)
    ensures
        forall|i: int|
            0 <= i < bs.len() && can_be_chosen(#[trigger] bs[i]) ==> disk_of(bs[i]) is Some
                && disk_list(bs).contains(disk_of(bs[i])->0),
        forall|d: DiskView| #[trigger]
            disk_list(bs).contains(d) ==> exists|i: int|
                0 <= i < bs.len() && can_be_chosen(#[trigger] bs[i]) && disk_of(bs[i]) == Some(d),
        forall|i: int, j: int|
            0 <= i < j < disk_list(bs).len() ==> order::text_le(
                (#[trigger] disk_list(bs)[i]).name,
                (#[trigger] disk_list(bs)[j]).name,
            ),
{
    broadcast use vstd::seq_lib::group_to_multiset_ensures;

    lemma_among(bs, bs.len());
    law_disks_are_listed_by_name(bs);
    let among = disks_among(bs, bs.len());
    let list = disk_list(bs);
    assert forall|d: DiskView| #[trigger] list.contains(d) <==> among.contains(d) by {
        assert(list.to_multiset().count(d) == among.to_multiset().count(d));
    }
    assert forall|i: int, j: int| 0 <= i < j < list.len() implies order::text_le(
        (#[trigger] list[i]).name,
        (#[trigger] list[j]).name,
    ) by {
        assert(by_name()(list[i], list[j]));
    }
}

/// A disk is described by the files of its device: the size counts sectors of
/// 512 bytes, `1` in `removable` makes it removable, and an `sd` disk that says
/// its own model and serial number is believed before the kernel.
pub proof fn law_disks_say_what_was_read(b: SysView)
    requires
        countable(b),
    ensures
        disk_of(b) matches Some(d) ==> {
            let number = |c: Option<Seq<char>>, max: nat| match c {
                Some(c) => text::parse_number(text::trim(c), max),
                None => None,
            };
            let plain = |c: Option<Seq<char>>| match c {
                Some(c) if text::trim(c).len() > 0 => Some(text::trim(c)),
                _ => None,
            };
            let sd = text::starts_with(b.name, "sd"@);
            let says = sd && b.identify is Some;
            let id = b.identify->0;
            &&& d.name == b.name
            &&& d.dev_path == "/dev/"@ + b.name
            &&& d.size_bytes == 512 * match number(b.size, u64::MAX as nat) {
                Some(n) => n,
                None => 0,
            }
            &&& d.size_str == utils::size_text(d.size_bytes as nat)
            &&& d.is_removable <==> number(b.removable, 255) == Some(1nat)
            &&& says ==> d.model == Some(id.model)
            &&& !says ==> (forall|i: int|
                0 <= i < b.models.len() && (#[trigger] b.models[i]) is Some && (forall|j: int|
                    0 <= j < i ==> (#[trigger] b.models[j]) is None) ==> d.model == plain(
                    b.models[i],
                ))
            &&& !says && (forall|i: int| 0 <= i < b.models.len() ==> (#[trigger] b.models[i])
                is None) ==> d.model is None
            &&& says && id.serial.len() > 0 ==> d.serial == Some(id.serial)
            &&& !(says && id.serial.len() > 0) ==> d.serial == plain(b.serial)
            &&& d.is_mounted <==> d.mount_point is Some
            &&& says && id.rotation_rate == 1 ==> d.disk_type == "SSD"@
            &&& says && id.rotation_rate > 1 ==> d.disk_type == "HDD"@
            &&& !says || id.rotation_rate == 0 ==> d.disk_type == if text::starts_with(
                b.name,
                "nvme"@,
            ) {
                "SSD"@
            } else if number(b.rotational, 255) == Some(1nat) {
                "HDD"@
            } else {
                ""@
            }
        },
{
    lemma_first_there(b.models);
}

proof fn lemma_first_there(files: Seq<Option<Seq<char>>>)
    ensures
        forall|i: int|
            0 <= i < files.len() && (#[trigger] files[i]) is Some && (forall|j: int|
                0 <= j < i ==> (#[trigger] files[j]) is None) ==> first_there(files) == files[i],
        (forall|i: int| 0 <= i < files.len() ==> (#[trigger] files[i]) is None) ==> first_there(
            files,
        ) is None,
    decreases files.len(),
{
    if files.len() > 0 {
        let rest = files.skip(1);
        lemma_first_there(rest);
        assert forall|i: int|
            0 <= i < files.len() && (#[trigger] files[i]) is Some && (forall|j: int|
                0 <= j < i ==> (#[trigger] files[j]) is None) implies first_there(files)
            == files[i] by {
            if i > 0 {
                assert(files[0] is None);
                assert(rest[i - 1] == files[i]);
                assert forall|j: int| 0 <= j < i - 1 implies (#[trigger] rest[j]) is None by {
                    assert(files[j + 1] is None);
                }
            }
        }
        if forall|i: int| 0 <= i < files.len() ==> (#[trigger] files[i]) is None {
            assert(files[0] is None);
            assert forall|i: int| 0 <= i < rest.len() implies (#[trigger] rest[i]) is None by {
                assert(files[i + 1] is None);
            }
        }
    }
}

/// Whether a line of the table of mounts speaks of a disk: its first word is the
/// node of the disk or of one of its partitions, a number behind the name, with
/// a `p` between them where the name ends in a digit.
pub open spec fn speaks_of(line: Seq<char>, name: Seq<char>) -> bool {
    let w = text::words(line);
    let node = "/dev/"@ + name;
    &&& w.len() >= 2
    &&& w[0] == node || exists|digits: Seq<char>| #[trigger]
        is_number(digits) && w[0] == node + (if name.len() > 0 && text::is_digit(name.last()) {
            seq!['p'] + digits
        } else {
            digits
        })
}

proof fn lemma_mount_in(line: Seq<char>, name: Seq<char>)
    ensures
        mount_in(line, name) == if speaks_of(line, name) {
            Some(text::words(line)[1])
        } else {
            None
        },
{
    reveal_strlit("/dev/");
    let w = text::words(line);
    let node = "/dev/"@ + name;
    let digit = name.len() > 0 && text::is_digit(name.last());
    if w.len() >= 2 {
        let x = w[0];
        if mount_in(line, name) is Some {
            let dev = x.skip(5);
            assert(x =~= "/dev/"@ + dev);
            if dev != name {
                let rest = dev.skip(name.len() as int);
                assert(x =~= node + rest);
                if digit {
                    assert(rest =~= seq!['p'] + rest.skip(1));
                    assert(is_number(rest.skip(1)));
                } else {
                    assert(is_number(rest));
                }
            } else {
                assert(x =~= node);
            }
        }
        if speaks_of(line, name) {
            if x == node {
                assert(x.take(5) =~= "/dev/"@);
                assert(x.skip(5) =~= name);
            } else {
                let d = choose|d: Seq<char>| #[trigger]
                    is_number(d) && x == node + (if digit {
                        seq!['p'] + d
                    } else {
                        d
                    });
                let rest = if digit {
                    seq!['p'] + d
                } else {
                    d
                };
                assert(x.take(5) =~= "/dev/"@);
                assert(x.skip(5) =~= name + rest);
                assert(x.skip(5).take(name.len() as int) =~= name);
                assert(x.skip(5).skip(name.len() as int) =~= rest);
                if digit {
                    assert(rest.skip(1) =~= d);
                }
            }
        }
    }
}

proof fn lemma_first_mount(ls: Seq<Seq<char>>, name: Seq<char>)
    ensures
        forall|i: int|
            0 <= i < ls.len() && speaks_of(#[trigger] ls[i], name) && (forall|j: int|
                0 <= j < i ==> !speaks_of(#[trigger] ls[j], name)) ==> first_mount(ls, name)
                == Some(text::words(ls[i])[1]),
        (forall|i: int| 0 <= i < ls.len() ==> !speaks_of(#[trigger] ls[i], name)) ==> first_mount(
            ls,
            name,
        ) is None,
    decreases ls.len(),
{
    if ls.len() > 0 {
        let rest = ls.skip(1);
        lemma_mount_in(ls[0], name);
        lemma_first_mount(rest, name);
        assert forall|i: int|
            0 <= i < ls.len() && speaks_of(#[trigger] ls[i], name) && (forall|j: int|
                0 <= j < i ==> !speaks_of(#[trigger] ls[j], name)) implies first_mount(ls, name)
            == Some(text::words(ls[i])[1]) by {
            if i > 0 {
                assert(!speaks_of(ls[0], name));
                assert(rest[i - 1] == ls[i]);
                assert forall|j: int| 0 <= j < i - 1 implies !speaks_of(#[trigger] rest[j], name) by {
                    assert(!speaks_of(ls[j + 1], name));
                }
            }
        }
        if forall|i: int| 0 <= i < ls.len() ==> !speaks_of(#[trigger] ls[i], name) {
            assert(!speaks_of(ls[0], name));
            assert forall|i: int| 0 <= i < rest.len() implies !speaks_of(
                #[trigger] rest[i],
                name,
            ) by {
                assert(!speaks_of(ls[i + 1], name));
            }
        }
    }
}

/// A disk is mounted where the first line that speaks of it says, and not
/// mounted where none does.
pub proof fn law_mounts_are_found(name: Seq<char>, mounts: Seq<char>)
    requires
        text::trim(name).len() > 0,
    ensures
        ({
            let ls = text::lines(mounts);
            let m = mounted_at(name, Some(mounts));
            &&& forall|i: int|
                0 <= i < ls.len() && speaks_of(#[trigger] ls[i], name) && (forall|j: int|
                    0 <= j < i ==> !speaks_of(#[trigger] ls[j], name)) ==> m == Some(
                    text::words(ls[i])[1],
                )
            &&& (forall|i: int| 0 <= i < ls.len() ==> !speaks_of(#[trigger] ls[i], name)) ==> m
                is None
        }),
        mounted_at(name, None) is None,
{
    lemma_first_mount(text::lines(mounts), name);
}

/// Whether a part of a device path is a word and a number.
pub open spec fn word_and_number(part: Seq<char>, word: Seq<char>) -> bool {
    exists|digits: Seq<char>| #[trigger] is_number(digits) && part == word + digits
}

proof fn lemma_numbered(part: Seq<char>, word: Seq<char>)
    ensures
        numbered(part, word) == word_and_number(part, word),
{
    if numbered(part, word) {
        let rest = part.skip(word.len() as int);
        assert(part =~= word + rest);
        assert(is_number(rest));
    }
    if word_and_number(part, word) {
        let d = choose|d: Seq<char>| #[trigger] is_number(d) && part == word + d;
        assert(part.take(word.len() as int) =~= word);
        assert(part.skip(word.len() as int) =~= d);
    }
}

/// Whether a part of a device path names a bus.
pub open spec fn names_bus(part: Seq<char>) -> bool {
    word_and_number(part, "usb"@) || word_and_number(part, "ata"@) || word_and_number(
        part,
        "virtio"@,
    )
}

proof fn lemma_first_bus(parts: Seq<Seq<char>>)
    ensures
        forall|i: int|
            0 <= i < parts.len() && names_bus(#[trigger] parts[i]) && (forall|j: int|
                0 <= j < i ==> !names_bus(#[trigger] parts[j])) ==> {
                &&& word_and_number(parts[i], "usb"@) ==> first_bus(parts) == "USB"@
                &&& word_and_number(parts[i], "ata"@) ==> first_bus(parts) == "SATA"@
                &&& word_and_number(parts[i], "virtio"@) ==> first_bus(parts) == "VirtIO"@
            },
        (forall|i: int| 0 <= i < parts.len() ==> !names_bus(#[trigger] parts[i])) ==> first_bus(
            parts,
        ) == "Unknown"@,
    decreases parts.len(),
{
    if parts.len() > 0 {
        let rest = parts.skip(1);
        lemma_first_bus(rest);
        lemma_numbered(parts[0], "usb"@);
        lemma_numbered(parts[0], "ata"@);
        lemma_numbered(parts[0], "virtio"@);
        reveal_strlit("usb");
        reveal_strlit("ata");
        reveal_strlit("virtio");
        assert(word_and_number(parts[0], "usb"@) ==> parts[0][0] == 'u');
        assert(word_and_number(parts[0], "ata"@) ==> parts[0][0] == 'a');
        assert(word_and_number(parts[0], "virtio"@) ==> parts[0][0] == 'v');
        assert forall|i: int|
            0 <= i < parts.len() && names_bus(#[trigger] parts[i]) && (forall|j: int|
                0 <= j < i ==> !names_bus(#[trigger] parts[j])) implies {
            &&& word_and_number(parts[i], "usb"@) ==> first_bus(parts) == "USB"@
            &&& word_and_number(parts[i], "ata"@) ==> first_bus(parts) == "SATA"@
            &&& word_and_number(parts[i], "virtio"@) ==> first_bus(parts) == "VirtIO"@
        } by {
            if i > 0 {
                assert(!names_bus(parts[0]));
                assert(rest[i - 1] == parts[i]);
                assert forall|j: int| 0 <= j < i - 1 implies !names_bus(#[trigger] rest[j]) by {
                    assert(!names_bus(parts[j + 1]));
                }
            }
        }
        if forall|i: int| 0 <= i < parts.len() ==> !names_bus(#[trigger] parts[i]) {
            assert(!names_bus(parts[0]));
            assert forall|i: int| 0 <= i < rest.len() implies !names_bus(#[trigger] rest[i]) by {
                assert(!names_bus(parts[i + 1]));
            }
        }
    }
}

/// How a disk is connected: its name says so for all but `sd` disks, and for
/// those the bus that the path of the device names first. An `sd` disk without a
/// bus that answered speaks ATA.
pub proof fn law_transports_are_told_apart(b: SysView, link: Seq<char>)
    requires
        b.device_link == Some(link),
    ensures
        disk_of(b) matches Some(d) ==> {
            let parts = paths::parts(link);
            let named = |p: Seq<char>| text::starts_with(b.name, p);
            &&& named("nvme"@) ==> d.transport == "NVMe"@
            &&& named("vd"@) ==> d.transport == "VirtIO"@
            &&& named("mmcblk"@) ==> d.transport == "eMMC"@
            &&& named("hd"@) ==> d.transport == "IDE"@
            &&& named("sd"@) && b.sas ==> d.transport == "SAS"@
            &&& named("sd"@) && !b.sas ==> (forall|i: int|
                0 <= i < parts.len() && names_bus(#[trigger] parts[i]) && (forall|j: int|
                    0 <= j < i ==> !names_bus(#[trigger] parts[j])) ==> {
                    &&& word_and_number(parts[i], "usb"@) ==> d.transport == "USB"@
                    &&& word_and_number(parts[i], "ata"@) ==> d.transport == "SATA"@
                    &&& word_and_number(parts[i], "virtio"@) ==> d.transport == "VirtIO"@
                })
            &&& named("sd"@) && !b.sas && (forall|i: int|
                0 <= i < parts.len() ==> !names_bus(#[trigger] parts[i])) ==> d.transport
                == if b.identify is Some {
                "ATA"@
            } else {
                "Unknown"@
            }
        },
{
    lemma_prefixes(b.name);
    lemma_first_bus(paths::parts(link));
    lemma_bus_names();
}

proof fn lemma_bus_names()
    ensures
        "USB"@ != "Unknown"@ && "SATA"@ != "Unknown"@ && "VirtIO"@ != "Unknown"@ && "SAS"@
            != "Unknown"@,
{
    reveal_strlit("USB");
    reveal_strlit("SATA");
    reveal_strlit("VirtIO");
    reveal_strlit("SAS");
    reveal_strlit("Unknown");
    assert("USB"@.len() == 3 && "SATA"@.len() == 4 && "VirtIO"@.len() == 6 && "SAS"@.len() == 3);
    assert("Unknown"@.len() == 7);
}

proof fn lemma_prefixes(name: Seq<char>)
    ensures
        text::starts_with(name, "nvme"@) ==> name[0] == 'n',
        text::starts_with(name, "vd"@) ==> name[0] == 'v',
        text::starts_with(name, "mmcblk"@) ==> name[0] == 'm',
        text::starts_with(name, "hd"@) ==> name[0] == 'h',
        text::starts_with(name, "sd"@) ==> name[0] == 's',
{
    reveal_strlit("nvme");
    reveal_strlit("vd");
    reveal_strlit("mmcblk");
    reveal_strlit("hd");
    reveal_strlit("sd");
    if text::starts_with(name, "nvme"@) {
        assert(name.take(4)[0] == name[0]);
    }
    if text::starts_with(name, "vd"@) {
        assert(name.take(2)[0] == name[0]);
    }
    if text::starts_with(name, "mmcblk"@) {
        assert(name.take(6)[0] == name[0]);
    }
    if text::starts_with(name, "hd"@) {
        assert(name.take(2)[0] == name[0]);
    }
    if text::starts_with(name, "sd"@) {
        assert(name.take(2)[0] == name[0]);
    }
}

} // verus!
