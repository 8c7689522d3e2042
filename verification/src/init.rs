//! Starting up as the first process: virtual filesystems, kernel modules, and
//! the medium that the image stands on.
//!
//! Nothing is assumed of the hardware: every device that may hold the medium is
//! tried.
use crate::order;
use crate::order::is_text_le;
use crate::text;
use crate::text::{
    chars_of, has_prefix, is_text, parse_up_to, part, push_decimal, split_lines, split_words,
    string_of, trimmed,
};
use crate::utils::BOOT_MEDIA_DIR;
use vstd::prelude::*;
use vstd::string::*;

verus! {

/// Where the squashfs with the image is mounted.
pub const IMAGE_DIR: &'static str = "/image";

/// The squashfs on the installation medium.
pub const SQUASHFS_FILE: &'static str = "/media/cdrom/image.squashfs";

pub const LOOP_CONTROL: &'static str = "/dev/loop-control";

/// Requests to loop devices, as the kernel numbers them.
pub const LOOP_CTL_GET_FREE: u64 = 0x4c82;

pub const LOOP_CLR_FD: u64 = 0x4c01;

pub const LOOP_CONFIGURE: u64 = 0x4c0a;

pub const LO_FLAGS_READ_ONLY: u32 = 1;

pub const LOOP_MAJOR: u64 = 7;

/// How often the devices are searched for the medium.
pub const MAX_SCAN_TRIES: u32 = 15;

/// The phases of starting up, in order.
#[derive(Debug, Clone, Copy, PartialEq, Eq, Structural)]
pub enum InitPhase {
    SetupPath,
    MountVirtualFs,
    ParseCmdline,
    LoadModules,
    ScanBootMedia,
    VerifyImage,
}

pub open spec fn phase_after(last: Option<InitPhase>) -> Option<InitPhase> {
    match last {
        None => Some(InitPhase::SetupPath),
        Some(InitPhase::SetupPath) => Some(InitPhase::MountVirtualFs),
        Some(InitPhase::MountVirtualFs) => Some(InitPhase::ParseCmdline),
        Some(InitPhase::ParseCmdline) => Some(InitPhase::LoadModules),
        Some(InitPhase::LoadModules) => Some(InitPhase::ScanBootMedia),
        Some(InitPhase::ScanBootMedia) => Some(InitPhase::VerifyImage),
        Some(InitPhase::VerifyImage) => None,
    }
}

/// The phase that follows when `last` went well. A phase that fails ends the
/// start.
pub fn run_init(last: Option<InitPhase>) -> (r: Option<InitPhase>)
    ensures
        r == phase_after(last),
{
    match last {
        None => Some(InitPhase::SetupPath),
        Some(InitPhase::SetupPath) => Some(InitPhase::MountVirtualFs),
        Some(InitPhase::MountVirtualFs) => Some(InitPhase::ParseCmdline),
        Some(InitPhase::ParseCmdline) => Some(InitPhase::LoadModules),
        Some(InitPhase::LoadModules) => Some(InitPhase::ScanBootMedia),
        Some(InitPhase::ScanBootMedia) => Some(InitPhase::VerifyImage),
        Some(InitPhase::VerifyImage) => None,
    }
}

/// What a mount forbids.
#[derive(Debug, Clone, Copy, PartialEq, Eq, Structural)]
pub struct MountFlags {
    pub rdonly: bool,
    pub noexec: bool,
    pub nosuid: bool,
    pub nodev: bool,
}

/// A filesystem to mount, but for where it comes from.
#[derive(Debug, Clone, Copy)]
pub struct MountSpec {
    pub source: &'static str,
    pub target: &'static str,
    pub fstype: &'static str,
    pub flags: MountFlags,
    pub data: Option<&'static str>,
}

pub struct MountView {
    pub source: Seq<char>,
    pub target: Seq<char>,
    pub fstype: Seq<char>,
    pub flags: MountFlags,
    pub data: Option<Seq<char>>,
}

impl View for MountSpec {
    type V = MountView;

    open spec fn view(&self) -> MountView {
        MountView {
            source: self.source@,
            target: self.target@,
            fstype: self.fstype@,
            flags: self.flags,
            data: match self.data {
                Some(d) => Some(d@),
                None => None,
            },
        }
    }
}

/// Whether a device is read and written by characters or by blocks.
#[derive(Debug, Clone, Copy, PartialEq, Eq, Structural)]
pub enum NodeKind {
    Character,
    Block,
}

/// What a device node is, wherever it stands.
#[derive(Debug, Clone, Copy, PartialEq, Eq, Structural)]
pub struct DeviceNode {
    pub kind: NodeKind,
    pub mode: u32,
    pub device: u64,
}

/// A device node to make.
#[derive(Debug, Clone, Copy)]
pub struct NodeSpec {
    pub path: &'static str,
    pub node: DeviceNode,
    /// Whether a node that is there already stays.
    pub keep: bool,
}

/// The number that the kernel packs from the major and the minor number of a
/// device.
pub open spec fn device_of(major: u64, minor: u64) -> u64 {
    ((major & 0xffff_f000) << 32) | ((major & 0xfff) << 8) | ((minor & 0xffff_ff00) << 12) | (minor
        & 0xff)
}

/// `nix::sys::stat::makedev` on Linux: the low twelve bits of the major number
/// and the low eight of the minor number stand where they always stood, the
/// bits above them higher up.
#[verifier::external_body]
fn pack_device(major: u64, minor: u64) -> (r: u64)
    ensures
        r == device_of(major, minor),
{
    nix::sys::stat::makedev(major, minor)
}

/// The node of a block device that only the owner may use.
pub open spec fn block_node(major: u64, minor: u64) -> DeviceNode {
    DeviceNode { kind: NodeKind::Block, mode: 0o600, device: device_of(major, minor) }
}

/// The number of the device with the given major and minor number.
pub fn device_number(major: u64, minor: u64) -> (r: u64)
    ensures
        r == device_of(major, minor),
{
    pack_device(major, minor)
}

/// Where mounting the virtual filesystems stands.
#[derive(Debug, Clone, Copy, PartialEq, Eq, Structural)]
pub enum VfsStep {
    Proc,
    Sys,
    Dev,
    /// The kernel makes no device nodes by itself.
    DevFallback,
    BlockNodes,
    LoopControl,
    Pts,
    Shm,
    NullNode,
    KmsgNode,
    PtmxNode,
    Mtab,
    Ready,
    Failed(VfsRoot),
}

/// The filesystems without which nothing works.
#[derive(Debug, Clone, Copy, PartialEq, Eq, Structural)]
pub enum VfsRoot {
    Proc,
    Sys,
    Dev,
}

/// What is to be done for a step.
#[derive(Debug, Clone, Copy)]
pub enum VfsJob {
    Mount(MountSpec),
    /// Make the nodes of all block devices that the kernel lists.
    MakeBlockNodes,
    MakeNode(NodeSpec),
    /// Make `/etc/mtab` point to `/proc/mounts`.
    LinkMtab,
    Stop,
}

/// The directories that everything else is mounted on.
pub fn virtual_dirs() -> (r: Vec<&'static str>)
    ensures
        r@.len() == 12,
        r@[0]@ == "/proc"@,
        r@[1]@ == "/sys"@,
        r@[2]@ == "/dev"@,
        r@[3]@ == "/run"@,
        r@[4]@ == "/tmp"@,
        r@[5]@ == BOOT_MEDIA_DIR@,
        r@[6]@ == IMAGE_DIR@,
        r@[7]@ == "/dev/pts"@,
        r@[8]@ == "/dev/shm"@,
        r@[9]@ == "/etc"@,
        r@[10]@ == "/root"@,
        r@[11]@ == "/var/log"@,
{
    let mut v: Vec<&'static str> = Vec::new();
    v.push("/proc");
    v.push("/sys");
    v.push("/dev");
    v.push("/run");
    v.push("/tmp");
    v.push(BOOT_MEDIA_DIR);
    v.push(IMAGE_DIR);
    v.push("/dev/pts");
    v.push("/dev/shm");
    v.push("/etc");
    v.push("/root");
    v.push("/var/log");
    v
}

pub open spec fn vfs_flags(noexec: bool, nodev: bool) -> MountFlags {
    MountFlags { rdonly: false, noexec, nosuid: true, nodev }
}

pub open spec fn vfs_mount(
    source: Seq<char>,
    target: Seq<char>,
    flags: MountFlags,
    data: Option<Seq<char>>,
) -> MountView {
    MountView { source, target, fstype: source, flags, data }
}

/// The filesystem that a step mounts.
pub open spec fn vfs_mount_of(step: VfsStep) -> Option<MountView> {
    match step {
        VfsStep::Proc => Some(vfs_mount("proc"@, "/proc"@, vfs_flags(true, true), None)),
        VfsStep::Sys => Some(vfs_mount("sysfs"@, "/sys"@, vfs_flags(true, true), None)),
        VfsStep::Dev => Some(
            vfs_mount("devtmpfs"@, "/dev"@, vfs_flags(false, false), Some("mode=0755,size=2M"@)),
        ),
        VfsStep::DevFallback => Some(
            vfs_mount("tmpfs"@, "/dev"@, vfs_flags(false, false), Some("mode=0755,size=2M"@)),
        ),
        VfsStep::Pts => Some(
            vfs_mount("devpts"@, "/dev/pts"@, vfs_flags(true, false), Some("gid=5,mode=0620"@)),
        ),
        VfsStep::Shm => Some(vfs_mount("tmpfs"@, "/dev/shm"@, vfs_flags(true, true), None)),
        _ => None,
    }
}

pub open spec fn character_node(mode: u32, major: u64, minor: u64) -> DeviceNode {
    DeviceNode { kind: NodeKind::Character, mode, device: device_of(major, minor) }
}

/// The path of the node that a step makes, what it is, and whether one that is
/// there stays.
pub open spec fn vfs_node_of(step: VfsStep) -> Option<(Seq<char>, DeviceNode, bool)> {
    match step {
        VfsStep::LoopControl => Some((LOOP_CONTROL@, character_node(0o600, 10, 237), false)),
        VfsStep::NullNode => Some(("/dev/null"@, character_node(0o666, 1, 3), true)),
        VfsStep::KmsgNode => Some(("/dev/kmsg"@, character_node(0o660, 1, 11), true)),
        VfsStep::PtmxNode => Some(("/dev/ptmx"@, character_node(0o666, 5, 2), true)),
        _ => None,
    }
}

fn mount_spec(
    source: &'static str,
    target: &'static str,
    noexec: bool,
    nodev: bool,
    data: Option<&'static str>,
) -> (r: VfsJob)
    ensures
        r matches VfsJob::Mount(m) && m@ == vfs_mount(
            source@,
            target@,
            vfs_flags(noexec, nodev),
            match data {
                Some(d) => Some(d@),
                None => None,
            },
        ),
{
    VfsJob::Mount(
        MountSpec {
            source,
            target,
            fstype: source,
            flags: MountFlags { rdonly: false, noexec, nosuid: true, nodev },
            data,
        },
    )
}

fn node_spec(path: &'static str, mode: u32, major: u64, minor: u64, keep: bool) -> (r: VfsJob)
    ensures
        r matches VfsJob::MakeNode(n) && n.path@ == path@ && n.node == character_node(
            mode,
            major,
            minor,
        ) && n.keep == keep,
{
    let node = DeviceNode { kind: NodeKind::Character, mode, device: pack_device(major, minor) };
    VfsJob::MakeNode(NodeSpec { path, node, keep })
}

/// What is to be done for a step of mounting the virtual filesystems.
pub fn vfs_job(step: VfsStep) -> (r: VfsJob)
    ensures
        match r {
            VfsJob::Mount(m) => vfs_mount_of(step) == Some(m@),
            VfsJob::MakeBlockNodes => step is BlockNodes,
            VfsJob::MakeNode(n) => vfs_node_of(step) == Some((n.path@, n.node, n.keep)),
            VfsJob::LinkMtab => step is Mtab,
            VfsJob::Stop => step is Ready || step is Failed,
        },
{
    match step {
        VfsStep::Proc => mount_spec("proc", "/proc", true, true, None),
        VfsStep::Sys => mount_spec("sysfs", "/sys", true, true, None),
        VfsStep::Dev => mount_spec(
            "devtmpfs",
            "/dev",
            false,
            false,
            Some("mode=0755,size=2M"),
        ),
        VfsStep::DevFallback => mount_spec(
            "tmpfs",
            "/dev",
            false,
            false,
            Some("mode=0755,size=2M"),
        ),
        VfsStep::BlockNodes => VfsJob::MakeBlockNodes,
        VfsStep::LoopControl => node_spec(LOOP_CONTROL, 0o600, 10, 237, false),
        VfsStep::Pts => mount_spec("devpts", "/dev/pts", true, false, Some("gid=5,mode=0620")),
        VfsStep::Shm => mount_spec("tmpfs", "/dev/shm", true, true, None),
        VfsStep::NullNode => node_spec("/dev/null", 0o666, 1, 3, true),
        VfsStep::KmsgNode => node_spec("/dev/kmsg", 0o660, 1, 11, true),
        VfsStep::PtmxNode => node_spec("/dev/ptmx", 0o666, 5, 2, true),
        VfsStep::Mtab => VfsJob::LinkMtab,
        VfsStep::Ready => VfsJob::Stop,
        VfsStep::Failed(_) => VfsJob::Stop,
    }
}

/// The step that follows, by whether the job went well. `/proc`, `/sys` and
/// `/dev` must be there; the rest is done as far as it goes.
pub open spec fn vfs_after(step: VfsStep, ok: bool) -> VfsStep {
    match step {
        VfsStep::Proc => if ok {
            VfsStep::Sys
        } else {
            VfsStep::Failed(VfsRoot::Proc)
        },
        VfsStep::Sys => if ok {
            VfsStep::Dev
        } else {
            VfsStep::Failed(VfsRoot::Sys)
        },
        VfsStep::Dev => if ok {
            VfsStep::Pts
        } else {
            VfsStep::DevFallback
        },
        VfsStep::DevFallback => if ok {
            VfsStep::BlockNodes
        } else {
            VfsStep::Failed(VfsRoot::Dev)
        },
        VfsStep::BlockNodes => VfsStep::LoopControl,
        VfsStep::LoopControl => VfsStep::Pts,
        VfsStep::Pts => VfsStep::Shm,
        VfsStep::Shm => VfsStep::NullNode,
        VfsStep::NullNode => VfsStep::KmsgNode,
        VfsStep::KmsgNode => VfsStep::PtmxNode,
        VfsStep::PtmxNode => VfsStep::Mtab,
        VfsStep::Mtab => VfsStep::Ready,
        VfsStep::Ready => VfsStep::Ready,
        VfsStep::Failed(r) => VfsStep::Failed(r),
    }
}

/// The step that follows, by whether the job went well.
pub fn vfs_next(step: VfsStep, ok: bool) -> (r: VfsStep)
    ensures
        r == vfs_after(step, ok),
{
    match step {
        VfsStep::Proc => if ok {
            VfsStep::Sys
        } else {
            VfsStep::Failed(VfsRoot::Proc)
        },
        VfsStep::Sys => if ok {
            VfsStep::Dev
        } else {
            VfsStep::Failed(VfsRoot::Sys)
        },
        VfsStep::Dev => if ok {
            VfsStep::Pts
        } else {
            VfsStep::DevFallback
        },
        VfsStep::DevFallback => if ok {
            VfsStep::BlockNodes
        } else {
            VfsStep::Failed(VfsRoot::Dev)
        },
        VfsStep::BlockNodes => VfsStep::LoopControl,
        VfsStep::LoopControl => VfsStep::Pts,
        VfsStep::Pts => VfsStep::Shm,
        VfsStep::Shm => VfsStep::NullNode,
        VfsStep::NullNode => VfsStep::KmsgNode,
        VfsStep::KmsgNode => VfsStep::PtmxNode,
        VfsStep::PtmxNode => VfsStep::Mtab,
        VfsStep::Mtab => VfsStep::Ready,
        VfsStep::Ready => VfsStep::Ready,
        VfsStep::Failed(r) => VfsStep::Failed(r),
    }
}

/// What is said of a filesystem that cannot be mounted.
pub open spec fn vfs_error_text(root: VfsRoot, error: Seq<char>) -> Seq<char> {
    (match root {
        VfsRoot::Proc => "mount /proc: "@,
        VfsRoot::Sys => "mount /sys: "@,
        VfsRoot::Dev => "mount /dev: "@,
    }) + error
}

/// What is said of a filesystem that cannot be mounted.
pub fn vfs_error(root: VfsRoot, error: &str) -> (r: String)
    ensures
        r@ == vfs_error_text(root, error@),
{
    let mut s = match root {
        VfsRoot::Proc => "mount /proc: ".to_owned(),
        VfsRoot::Sys => "mount /sys: ".to_owned(),
        VfsRoot::Dev => "mount /dev: ".to_owned(),
    };
    s.append(error);
    s
}

/// The steps from `Proc` on, with whether each job went well.
pub open spec fn vfs_run(oks: Seq<bool>) -> VfsStep
    decreases oks.len(),
{
    if oks.len() == 0 {
        VfsStep::Proc
    } else {
        vfs_after(vfs_run(oks.drop_last()), oks.last())
    }
}

spec fn vfs_rank(step: VfsStep) -> nat {
    match step {
        VfsStep::Proc => 12,
        VfsStep::Sys => 11,
        VfsStep::Dev => 10,
        VfsStep::DevFallback => 9,
        VfsStep::BlockNodes => 8,
        VfsStep::LoopControl => 7,
        VfsStep::Pts => 6,
        VfsStep::Shm => 5,
        VfsStep::NullNode => 4,
        VfsStep::KmsgNode => 3,
        VfsStep::PtmxNode => 2,
        VfsStep::Mtab => 1,
        _ => 0,
    }
}

proof fn lemma_vfs_run(oks: Seq<bool>)
    ensures
        vfs_rank(vfs_run(oks)) == 0 || vfs_rank(vfs_run(oks)) + oks.len() <= 12,
        vfs_run(oks) is Sys ==> oks.len() == 1 && oks[0],
        vfs_run(oks) is Dev || vfs_run(oks) is DevFallback ==> oks.len() >= 2 && oks[0] && oks[1],
        vfs_rank(vfs_run(oks)) < 9 && !(vfs_run(oks) is Failed) ==> oks.len() >= 3 && oks[0]
            && oks[1] && (oks[2] || (oks.len() >= 4 && oks[3])),
        vfs_run(oks) is DevFallback ==> oks.len() == 3 && !oks[2],
        vfs_run(oks) is Dev ==> oks.len() == 2,
        vfs_run(oks) is Proc ==> oks.len() == 0,
    decreases oks.len(),
{
    if oks.len() > 0 {
        let before = oks.drop_last();
        lemma_vfs_run(before);
        assert(before.len() > 0 ==> before[0] == oks[0]);
        assert(before.len() > 1 ==> before[1] == oks[1]);
        assert(before.len() > 2 ==> before[2] == oks[2]);
        assert(before.len() > 3 ==> before[3] == oks[3]);
    }
}

/// Mounting takes at most twelve jobs, and ends as ready only where `/proc`,
/// `/sys` and one of the two kinds of `/dev` were mounted.
pub proof fn law_vfs_ready_means_mounted(oks: Seq<bool>)
    ensures
        oks.len() >= 12 ==> vfs_run(oks) is Ready || vfs_run(oks) is Failed,
        vfs_run(oks) is Ready ==> oks.len() >= 3 && oks[0] && oks[1] && (oks[2] || (oks.len() >= 4
            && oks[3])),
{
    lemma_vfs_run(oks);
}

/// The major and minor number that the kernel writes as `major:minor`.
pub open spec fn dev_numbers(content: Seq<char>) -> Option<(u64, u64)> {
    match text::split_once(text::trim(content), ':') {
        Some((a, b)) => match (
            text::parse_number(a, u64::MAX as nat),
            text::parse_number(b, u64::MAX as nat),
        ) {
            (Some(a), Some(b)) => Some((a as u64, b as u64)),
            _ => None,
        },
        None => None,
    }
}

/// The major and minor number that the kernel writes as `major:minor`.
pub fn parse_dev_numbers(content: &str) -> (r: Option<(u64, u64)>)
    ensures
        r == dev_numbers(content@),
{
    let t = trimmed(&chars_of(content));
    let n: usize = text::find_from(&t, 0, ':');
    assert(t@.skip(0) =~= t@);
    if n == t.len() {
        return None;
    }
    let a = part(&t, 0, n);
    let b = part(&t, n + 1, t.len());
    assert(a@ =~= t@.take(n as int));
    assert(b@ =~= t@.skip(n + 1));
    match (parse_up_to(&a, u64::MAX), parse_up_to(&b, u64::MAX)) {
        (Some(x), Some(y)) => Some((x, y)),
        _ => None,
    }
}

/// The node of the block device that the kernel gives these numbers, where it
/// writes them as `major:minor`.
pub fn block_device_node(content: &str) -> (r: Option<DeviceNode>)
    ensures
        r == (match dev_numbers(content@) {
            Some((major, minor)) => Some(block_node(major, minor)),
            None => None,
        }),
{
    match parse_dev_numbers(content) {
        Some((major, minor)) => Some(
            DeviceNode {
                kind: NodeKind::Block,
                mode: 0o600,
                device: device_number(major, minor),
            },
        ),
        None => None,
    }
}

/// Whether the kernel command line asks for quiet.
pub fn is_quiet(cmdline: &str) -> (r: bool)
    ensures
        r == text::words(cmdline@).contains("quiet"@),
{
    let ws = split_words(&chars_of(cmdline));
    let mut i: usize = 0;
    while i < ws.len()
        invariant
            i <= ws@.len(),
            text::texts(ws@) == text::words(cmdline@),
            forall|k: int| 0 <= k < i ==> text::texts(ws@)[k] != "quiet"@,
        decreases ws@.len() - i,
    {
        if is_text(&ws[i], "quiet") {
            assert(text::texts(ws@)[i as int] == "quiet"@);
            return true;
        }
        i = i + 1;
    }
    false
}

/// The modules that the first `n` lines of a list name: blank lines and
/// comments name none.
pub open spec fn listed_modules(ls: Seq<Seq<char>>, n: nat) -> Seq<Seq<char>>
    decreases n,
{
    if n == 0 {
        seq![]
    } else {
        let before = listed_modules(ls, (n - 1) as nat);
        let l = text::trim(ls[n - 1]);
        if l.len() == 0 || l[0] == '#' {
            before
        } else {
            before.push(l)
        }
    }
}

/// The modules that a list names.
pub fn module_list(content: &str) -> (r: Vec<String>)
    ensures
        text::strings(r@) == listed_modules(text::lines(content@), text::lines(content@).len()),
{
    let ls = split_lines(&chars_of(content));
    let ghost all = text::texts(ls@);
    let mut out: Vec<String> = Vec::new();
    let mut i: usize = 0;
    assert(text::strings(out@) =~= listed_modules(all, 0));
    while i < ls.len()
        invariant
            i <= ls@.len(),
            all == text::texts(ls@),
            text::strings(out@) == listed_modules(all, i as nat),
        decreases ls@.len() - i,
    {
        assert(all[i as int] == ls@[i as int]@);
        let l = trimmed(&ls[i]);
        if l.len() > 0 && l[0] != '#' {
            let ghost before = text::strings(out@);
            out.push(string_of(&l));
            assert(text::strings(out@) =~= before.push(l@));
        }
        i = i + 1;
    }
    out
}

/// Whether `p` stands somewhere in `s`.
pub open spec fn has_within(s: Seq<char>, p: Seq<char>) -> bool {
    exists|i: int| 0 <= i <= s.len() - p.len() && #[trigger] s.subrange(i, i + p.len()) == p
}

fn finds_within(v: &Vec<char>, p: &str) -> (r: bool)
    ensures
        r == has_within(v@, p@),
{
    let w = chars_of(p);
    if w.len() > v.len() {
        return false;
    }
    let last: usize = v.len() - w.len();
    let mut i: usize = 0;
    loop
        invariant
            w@ == p@,
            last == v@.len() - w@.len(),
            i <= last <= v@.len(),
            last + w@.len() == v.len(),
            forall|k: int| 0 <= k < i ==> #[trigger] v@.subrange(k, k + w@.len()) != w@,
        decreases last - i,
    {
        let head = part(v, i, i + w.len());
        if text::same(&head, &w) {
            assert(v@.subrange(i as int, i + p@.len()) == p@);
            return true;
        }
        if i == last {
            return false;
        }
        i = i + 1;
    }
}

/// Whether the machine calls itself one of VMware's.
pub open spec fn is_vmware(vendor: Option<Seq<char>>) -> bool {
    match vendor {
        Some(v) => has_within(text::trim(v), "VMware"@),
        None => false,
    }
}

/// The modules that a machine needs by its vendor.
pub fn vendor_modules(vendor: Option<&str>) -> (r: Vec<&'static str>)
    ensures
        is_vmware(crate::grow::policy::str_text(vendor)) ==> r@.len() == 3 && r@[0]@ == "ata_piix"@
            && r@[1]@ == "mptspi"@ && r@[2]@ == "sr_mod"@,
        !is_vmware(crate::grow::policy::str_text(vendor)) ==> r@.len() == 0,
{
    let mut out: Vec<&'static str> = Vec::new();
    if let Some(v) = vendor {
        if finds_within(&trimmed(&chars_of(v)), "VMware") {
            out.push("ata_piix");
            out.push("mptspi");
            out.push("sr_mod");
        }
    }
    out
}

/// How many milliseconds to wait before a search for the medium. The first comes
/// at once; from then on the pause doubles from a quarter of a second to a
/// second.
pub open spec fn pause_before(attempt: nat) -> nat
    decreases attempt,
{
    if attempt == 0 {
        0
    } else {
        let twice = 2 * pause_before((attempt - 1) as nat);
        if twice < 250 {
            250
        } else if twice > 1000 {
            1000
        } else {
            twice
        }
    }
}

/// How many milliseconds to wait before a search for the medium, unless it has
/// been searched for often enough.
pub fn scan_delay(attempt: u32) -> (r: Option<u64>)
    ensures
        match r {
            Some(ms) => attempt < MAX_SCAN_TRIES && ms == pause_before(attempt as nat),
            None => attempt >= MAX_SCAN_TRIES,
        },
{
    if attempt >= MAX_SCAN_TRIES {
        return None;
    }
    let mut ms: u64 = 0;
    let mut i: u32 = 0;
    while i < attempt
        invariant
            i <= attempt,
            attempt < MAX_SCAN_TRIES,
            ms == pause_before(i as nat),
            ms <= 1000,
        decreases attempt - i,
    {
        let twice: u64 = 2 * ms;
        ms = if twice < 250 {
            250
        } else if twice > 1000 {
            1000
        } else {
            twice
        };
        i = i + 1;
    }
    Some(ms)
}

/// What is said where no medium was found.
pub fn scan_error() -> (r: String)
    ensures
        r@ == "Boot media not found after "@ + text::decimal(MAX_SCAN_TRIES as nat)
            + " scan attempts"@,
{
    let mut s = "Boot media not found after ".to_owned();
    push_decimal(&mut s, MAX_SCAN_TRIES as u64);
    s.append(" scan attempts");
    s
}

/// A pause never exceeds a second.
pub proof fn law_pauses_are_bounded(attempt: nat)
    ensures
        pause_before(attempt) <= 1000,
        pause_before(attempt) <= pause_before(attempt + 1),
    decreases attempt,
{
    if attempt > 0 {
        law_pauses_are_bounded((attempt - 1) as nat);
    }
    reveal_with_fuel(pause_before, 3);
}

/// Whether the mode of a file has the bits of a block device.
pub open spec fn block_mode(mode: u32) -> bool {
    mode & 0o060000 == 0o060000
}

/// `nix::sys::stat::SFlag::from_bits_truncate` and `contains`: of a mode, the
/// bits of the file type count, and those of `S_IFBLK` must all be set.
#[verifier::external_body]
fn has_block_flag(mode: u32) -> (r: bool)
    ensures
        r == block_mode(mode),
{
    nix::sys::stat::SFlag::from_bits_truncate(mode).contains(nix::sys::stat::SFlag::S_IFBLK)
}

/// Whether a file of the given mode, where there is one, is a block device.
pub fn is_block_device(mode: Option<u32>) -> (r: bool)
    ensures
        r == (mode matches Some(m) && block_mode(m)),
{
    match mode {
        Some(m) => has_block_flag(m),
        None => false,
    }
}

/// The names of devices that may hold the medium begin with one of these.
pub open spec fn may_hold_medium(name: Seq<char>) -> bool {
    text::starts_with(name, "sr"@) || text::starts_with(name, "sd"@) || text::starts_with(
        name,
        "nvme"@,
    ) || text::starts_with(name, "vd"@) || text::starts_with(name, "hd"@) || text::starts_with(
        name,
        "mmcblk"@,
    )
}

fn is_candidate_name(name: &str) -> (r: bool)
    ensures
        r == may_hold_medium(name@),
{
    let v = chars_of(name);
    has_prefix(&v, "sr") || has_prefix(&v, "sd") || has_prefix(&v, "nvme") || has_prefix(&v, "vd")
        || has_prefix(&v, "hd") || has_prefix(&v, "mmcblk")
}

/// The node of a block device by the name that the kernel lists it under, and
/// the node's mode, where there is one.
pub struct Found {
    pub name: String,
    pub mode: Option<u32>,
}

pub open spec fn found_views(v: Seq<Found>) -> Seq<(Seq<char>, Option<u32>)> {
    Seq::new(v.len(), |i: int| (v[i].name@, v[i].mode))
}

/// The nodes among the first `n` that may hold the medium.
pub open spec fn candidates(fs: Seq<(Seq<char>, Option<u32>)>, n: nat) -> Seq<Seq<char>>
    decreases n,
{
    if n == 0 {
        seq![]
    } else {
        let before = candidates(fs, (n - 1) as nat);
        let (name, mode) = fs[n - 1];
        if may_hold_medium(name) && (mode matches Some(m) && block_mode(m)) {
            before.push("/dev/"@ + name)
        } else {
            before
        }
    }
}

pub open spec fn is_optical(dev: Seq<char>) -> bool {
    text::starts_with(dev, "/dev/sr"@)
}

/// Optical drives come first; within each kind the name decides.
pub open spec fn tried_before() -> spec_fn(Seq<char>, Seq<char>) -> bool {
    |a: Seq<char>, b: Seq<char>|
        if is_optical(a) != is_optical(b) {
            is_optical(a)
        } else {
            order::text_le(a, b)
        }
}

fn is_tried_before(a: &str, b: &str) -> (r: bool)
    ensures
        r == tried_before()(a@, b@),
{
    let x = has_prefix(&chars_of(a), "/dev/sr");
    let y = has_prefix(&chars_of(b), "/dev/sr");
    if x != y {
        x
    } else {
        is_text_le(a, b)
    }
}

fn insert_device(v: &mut Vec<String>, d: String)
    ensures
        text::strings(final(v)@) == text::strings(old(v)@).insert(
            order::place(text::strings(old(v)@), d@, tried_before()),
            d@,
        ),
{
    let ghost s = text::strings(v@);
    let mut i: usize = v.len();
    while i > 0 && !is_tried_before(v[i - 1].as_str(), d.as_str())
        invariant
            i <= v@.len(),
            s == text::strings(v@),
            forall|k: int| i <= k < s.len() ==> !tried_before()(#[trigger] s[k], d@),
        decreases i,
    {
        assert(s[i - 1] == v@[i - 1]@);
        i = i - 1;
    }
    proof {
        assert(i > 0 ==> s[i - 1] == v@[i - 1]@);
        order::lemma_place_unique(s, d@, tried_before(), i as int);
    }
    let ghost x = d@;
    v.insert(i, d);
    assert(text::strings(v@) =~= s.insert(i as int, x));
}

/// The nodes that may hold the medium, in the order in which they are tried.
pub open spec fn candidate_list(fs: Seq<(Seq<char>, Option<u32>)>) -> Seq<Seq<char>> {
    order::sorted(candidates(fs, fs.len()), tried_before())
}

/// The nodes that may hold the medium, in the order in which they are tried.
pub fn enumerate_candidate_devices(found: &Vec<Found>) -> (r: Vec<String>)
    ensures
        text::strings(r@) == candidate_list(found_views(found@)),
{
    let ghost fs = found_views(found@);
    let mut out: Vec<String> = Vec::new();
    let mut i: usize = 0;
    assert(text::strings(out@) =~= order::sorted(candidates(fs, 0), tried_before()));
    while i < found.len()
        invariant
            i <= found@.len(),
            fs == found_views(found@),
            text::strings(out@) == order::sorted(candidates(fs, i as nat), tried_before()),
        decreases found@.len() - i,
    {
        let f = &found[i];
        assert(fs[i as int] == (f.name@, f.mode));
        if is_candidate_name(f.name.as_str()) && is_block_device(f.mode) {
            let mut path = "/dev/".to_owned();
            path.append(f.name.as_str());
            assert(candidates(fs, i as nat).push(path@).drop_last() =~= candidates(fs, i as nat));
            insert_device(&mut out, path);
        }
        i = i + 1;
    }
    out
}

/// All optical drives are tried before all other devices, and each candidate is
/// tried as often as it was found.
pub proof fn law_optical_drives_come_first(fs: Seq<(Seq<char>, Option<u32>)>)
    ensures
        ({
            let l = candidate_list(fs);
            &&& l.to_multiset() == candidates(fs, fs.len()).to_multiset()
            &&& order::in_order(l, tried_before())
            &&& forall|i: int, j: int|
                0 <= i < j < l.len() && is_optical(#[trigger] l[j]) ==> is_optical(#[trigger] l[i])
        }),
{
    assert(order::is_total(tried_before())) by {
        assert forall|a: Seq<char>, b: Seq<char>| #[trigger]
            tried_before()(a, b) || tried_before()(b, a) by {
            order::lemma_text_le_total(a, b);
        }
        assert forall|a: Seq<char>, b: Seq<char>, c: Seq<char>| #[trigger]
            tried_before()(a, b) && #[trigger] tried_before()(b, c) implies tried_before()(
            a,
            c,
        ) by {
            if is_optical(a) == is_optical(b) && is_optical(b) == is_optical(c) {
                order::lemma_text_le_transitive(a, b, c);
            }
        }
    }
    order::law_sorted(candidates(fs, fs.len()), tried_before());
    let l = candidate_list(fs);
    assert forall|i: int, j: int| 0 <= i < j < l.len() && is_optical(#[trigger] l[j]) implies is_optical(
        #[trigger] l[i],
    ) by {
        assert(tried_before()(l[i], l[j]));
    }
}

/// What is known of the image file: whether it is a regular file and how long
/// it is, or why it cannot be looked at.
pub enum ImageStat {
    File { regular: bool, len: u64 },
    Missing(String),
}

/// What is wrong with the image file.
pub open spec fn image_fault(s: ImageStat) -> Option<Seq<char>> {
    match s {
        ImageStat::File { regular, len } => if regular && len > 0 {
            None
        } else {
            Some("image.img empty or not a regular file"@)
        },
        ImageStat::Missing(e) => Some("image.img not found in squashfs: "@ + e@),
    }
}

/// Whether there is an image to write.
pub fn verify_image(s: &ImageStat) -> (r: Result<(), String>)
    ensures
        match r {
            Ok(_) => image_fault(*s) is None,
            Err(e) => image_fault(*s) == Some(e@),
        },
{
    match s {
        ImageStat::File { regular, len } => {
            if *regular && *len > 0 {
                Ok(())
            } else {
                Err("image.img empty or not a regular file".to_owned())
            }
        },
        ImageStat::Missing(e) => {
            let mut t = "image.img not found in squashfs: ".to_owned();
            t.append(e.as_str());
            Err(t)
        },
    }
}

/// Where trying a device as the medium stands.
#[derive(Debug, Clone, Copy, PartialEq, Eq, Structural)]
pub enum BootStep {
    /// Nothing may be left mounted from the device before.
    Release,
    Iso,
    Vfat,
    FindSquashfs,
    ReleaseImage,
    OpenControl,
    FreeLoop,
    FindLoopNode,
    MakeLoopNode,
    OpenSquashfs,
    OpenLoop,
    Configure,
    /// The loop device was not configured: it is cleared.
    ClearConfig,
    MountImage,
    /// The image was not mounted: the loop device is cleared.
    Detach,
    /// The medium is of no use: it is unmounted.
    GiveUp,
    Ended(bool),
}

/// What a job of a try has brought.
#[derive(Debug, Clone, Copy, PartialEq, Eq, Structural)]
pub enum BootReply {
    /// Whether it went well, or whether the file is there.
    Answer(bool),
    /// The number of a free loop device, below zero where there is none.
    Loop(i32),
}

/// A device that is tried as the medium.
pub struct BootTry {
    pub step: BootStep,
    pub loop_num: u32,
}

pub open spec fn medium_flags() -> MountFlags {
    MountFlags { rdonly: true, noexec: false, nosuid: true, nodev: true }
}

/// The step that follows. A device is the medium if it holds the squashfs and
/// that can be mounted through a loop device.
pub open spec fn boot_after(step: BootStep, r: BootReply) -> BootStep {
    let ok = r == BootReply::Answer(true);
    match step {
        BootStep::Release => BootStep::Iso,
        BootStep::Iso => if ok {
            BootStep::FindSquashfs
        } else {
            BootStep::Vfat
        },
        BootStep::Vfat => if ok {
            BootStep::FindSquashfs
        } else {
            BootStep::Ended(false)
        },
        BootStep::FindSquashfs => if ok {
            BootStep::ReleaseImage
        } else {
            BootStep::GiveUp
        },
        BootStep::ReleaseImage => BootStep::OpenControl,
        BootStep::OpenControl => if ok {
            BootStep::FreeLoop
        } else {
            BootStep::GiveUp
        },
        BootStep::FreeLoop => match r {
            BootReply::Loop(n) if n >= 0 => BootStep::FindLoopNode,
            _ => BootStep::GiveUp,
        },
        BootStep::FindLoopNode => if ok {
            BootStep::OpenSquashfs
        } else {
            BootStep::MakeLoopNode
        },
        BootStep::MakeLoopNode => BootStep::OpenSquashfs,
        BootStep::OpenSquashfs => if ok {
            BootStep::OpenLoop
        } else {
            BootStep::GiveUp
        },
        BootStep::OpenLoop => if ok {
            BootStep::Configure
        } else {
            BootStep::GiveUp
        },
        BootStep::Configure => if ok {
            BootStep::MountImage
        } else {
            BootStep::ClearConfig
        },
        BootStep::ClearConfig => BootStep::GiveUp,
        BootStep::MountImage => if ok {
            BootStep::Ended(true)
        } else {
            BootStep::Detach
        },
        BootStep::Detach => BootStep::GiveUp,
        BootStep::GiveUp => BootStep::Ended(false),
        BootStep::Ended(b) => BootStep::Ended(b),
    }
}

/// The loop device that a reply names.
pub open spec fn loop_after(t: BootTry, r: BootReply) -> u32 {
    match (t.step, r) {
        (BootStep::FreeLoop, BootReply::Loop(n)) if n >= 0 => n as u32,
        _ => t.loop_num,
    }
}

/// The node of a loop device.
pub open spec fn loop_node(n: u32) -> Seq<char> {
    "/dev/loop"@ + text::decimal(n as nat)
}

impl BootTry {
    pub fn new() -> (r: BootTry)
        ensures
            r.step == BootStep::Release,
            r.loop_num == 0,
    {
        BootTry { step: BootStep::Release, loop_num: 0 }
    }

    /// Takes the reply to the job of the current step.
    pub fn advance(&mut self, reply: BootReply)
        ensures
            final(self).step == boot_after(old(self).step, reply),
            final(self).loop_num == loop_after(*old(self), reply),
    {
        let ok = match reply {
            BootReply::Answer(b) => b,
            _ => false,
        };
        self.step = match self.step {
            BootStep::Release => BootStep::Iso,
            BootStep::Iso => if ok {
                BootStep::FindSquashfs
            } else {
                BootStep::Vfat
            },
            BootStep::Vfat => if ok {
                BootStep::FindSquashfs
            } else {
                BootStep::Ended(false)
            },
            BootStep::FindSquashfs => if ok {
                BootStep::ReleaseImage
            } else {
                BootStep::GiveUp
            },
            BootStep::ReleaseImage => BootStep::OpenControl,
            BootStep::OpenControl => if ok {
                BootStep::FreeLoop
            } else {
                BootStep::GiveUp
            },
            BootStep::FreeLoop => match reply {
                BootReply::Loop(n) => if n >= 0 {
                    self.loop_num = n as u32;
                    BootStep::FindLoopNode
                } else {
                    BootStep::GiveUp
                },
                _ => BootStep::GiveUp,
            },
            BootStep::FindLoopNode => if ok {
                BootStep::OpenSquashfs
            } else {
                BootStep::MakeLoopNode
            },
            BootStep::MakeLoopNode => BootStep::OpenSquashfs,
            BootStep::OpenSquashfs => if ok {
                BootStep::OpenLoop
            } else {
                BootStep::GiveUp
            },
            BootStep::OpenLoop => if ok {
                BootStep::Configure
            } else {
                BootStep::GiveUp
            },
            BootStep::Configure => if ok {
                BootStep::MountImage
            } else {
                BootStep::ClearConfig
            },
            BootStep::ClearConfig => BootStep::GiveUp,
            BootStep::MountImage => if ok {
                BootStep::Ended(true)
            } else {
                BootStep::Detach
            },
            BootStep::Detach => BootStep::GiveUp,
            BootStep::GiveUp => BootStep::Ended(false),
            BootStep::Ended(b) => BootStep::Ended(b),
        };
    }

    /// The node of the loop device that was found.
    pub fn loop_path(&self) -> (r: String)
        ensures
            r@ == loop_node(self.loop_num),
    {
        let mut s = "/dev/loop".to_owned();
        push_decimal(&mut s, self.loop_num as u64);
        s
    }

    /// What the node of the loop device that was found is.
    pub fn loop_device(&self) -> (r: DeviceNode)
        ensures
            r == block_node(LOOP_MAJOR, self.loop_num as u64),
    {
        DeviceNode {
            kind: NodeKind::Block,
            mode: 0o600,
            device: device_number(LOOP_MAJOR, self.loop_num as u64),
        }
    }

    /// The kind of filesystem that a step mounts, where it mounts one, the
    /// place, and what the mount forbids.
    pub fn mount(&self) -> (r: Option<(&'static str, &'static str, MountFlags)>)
        ensures
            match r {
                Some((fstype, target, flags)) => flags == medium_flags() && match self.step {
                    BootStep::Iso => fstype@ == "iso9660"@ && target@ == BOOT_MEDIA_DIR@,
                    BootStep::Vfat => fstype@ == "vfat"@ && target@ == BOOT_MEDIA_DIR@,
                    BootStep::MountImage => fstype@ == "squashfs"@ && target@ == IMAGE_DIR@,
                    _ => false,
                },
                None => !(self.step is Iso || self.step is Vfat || self.step is MountImage),
            },
    {
        let flags = MountFlags { rdonly: true, noexec: false, nosuid: true, nodev: true };
        match self.step {
            BootStep::Iso => Some(("iso9660", BOOT_MEDIA_DIR, flags)),
            BootStep::Vfat => Some(("vfat", BOOT_MEDIA_DIR, flags)),
            BootStep::MountImage => Some(("squashfs", IMAGE_DIR, flags)),
            _ => None,
        }
    }
}

/// The step of a try after a row of replies.
pub open spec fn boot_run(rs: Seq<BootReply>) -> BootStep
    decreases rs.len(),
{
    if rs.len() == 0 {
        BootStep::Release
    } else {
        boot_after(boot_run(rs.drop_last()), rs.last())
    }
}

/// Whether the medium is mounted after a row of replies.
pub open spec fn medium_mounted(rs: Seq<BootReply>) -> bool
    decreases rs.len(),
{
    if rs.len() == 0 {
        false
    } else {
        let before = boot_run(rs.drop_last());
        if before is Iso || before is Vfat {
            rs.last() == BootReply::Answer(true)
        } else if before is GiveUp {
            false
        } else {
            medium_mounted(rs.drop_last())
        }
    }
}

/// Whether a loop device is bound to the squashfs after a row of replies.
pub open spec fn loop_bound(rs: Seq<BootReply>) -> bool
    decreases rs.len(),
{
    if rs.len() == 0 {
        false
    } else {
        let before = boot_run(rs.drop_last());
        if before is Configure {
            rs.last() == BootReply::Answer(true)
        } else if before is ClearConfig || before is Detach {
            false
        } else {
            loop_bound(rs.drop_last())
        }
    }
}

proof fn lemma_boot_run(rs: Seq<BootReply>)
    ensures
        medium_mounted(rs) == match boot_run(rs) {
            BootStep::Release | BootStep::Iso | BootStep::Vfat => false,
            BootStep::Ended(b) => b,
            _ => true,
        },
        loop_bound(rs) == match boot_run(rs) {
            BootStep::MountImage | BootStep::Detach => true,
            BootStep::Ended(b) => b,
            _ => false,
        },
    decreases rs.len(),
{
    if rs.len() > 0 {
        lemma_boot_run(rs.drop_last());
    }
}

/// A try leaves the medium and the image mounted where it found them, and
/// leaves nothing behind where it did not: neither a mount nor a bound loop
/// device.
pub proof fn law_failed_tries_leave_nothing(rs: Seq<BootReply>)
    requires
        boot_run(rs) is Ended,
    ensures
        medium_mounted(rs) == (boot_run(rs) == BootStep::Ended(true)),
        loop_bound(rs) == (boot_run(rs) == BootStep::Ended(true)),
{
    lemma_boot_run(rs);
}

spec fn boot_rank(step: BootStep) -> nat {
    match step {
        BootStep::Release => 15,
        BootStep::Iso => 14,
        BootStep::Vfat => 13,
        BootStep::FindSquashfs => 12,
        BootStep::ReleaseImage => 11,
        BootStep::OpenControl => 10,
        BootStep::FreeLoop => 9,
        BootStep::FindLoopNode => 8,
        BootStep::MakeLoopNode => 7,
        BootStep::OpenSquashfs => 6,
        BootStep::OpenLoop => 5,
        BootStep::Configure => 4,
        BootStep::MountImage => 3,
        BootStep::ClearConfig => 2,
        BootStep::Detach => 2,
        BootStep::GiveUp => 1,
        BootStep::Ended(_) => 0,
    }
}

proof fn lemma_boot_rank(rs: Seq<BootReply>)
    ensures
        boot_run(rs) is Ended || boot_rank(boot_run(rs)) + rs.len() <= 15,
    decreases rs.len(),
{
    if rs.len() > 0 {
        lemma_boot_rank(rs.drop_last());
    }
}

/// A try ends after at most fifteen replies.
pub proof fn law_tries_end(rs: Seq<BootReply>)
    requires
        rs.len() >= 15,
    ensures
        boot_run(rs) is Ended,
{
    lemma_boot_rank(rs);
}

/// Whether a reply lets a try go on. An ISO image need not be there where a FAT
/// is, and a loop device need not have its node yet.
pub open spec fn lets_go_on(step: BootStep, r: BootReply) -> bool {
    match step {
        BootStep::Vfat
        | BootStep::FindSquashfs
        | BootStep::OpenControl
        | BootStep::OpenSquashfs
        | BootStep::OpenLoop
        | BootStep::Configure
        | BootStep::MountImage => r == BootReply::Answer(true),
        BootStep::FreeLoop => r matches BootReply::Loop(n) && n >= 0,
        _ => true,
    }
}

/// Whether every reply of a row let the try go on.
pub open spec fn nothing_missing(rs: Seq<BootReply>) -> bool
    decreases rs.len(),
{
    rs.len() == 0 || (nothing_missing(rs.drop_last()) && lets_go_on(
        boot_run(rs.drop_last()),
        rs.last(),
    ))
}

proof fn lemma_nothing_missing(rs: Seq<BootReply>)
    ensures
        nothing_missing(rs) <==> !(boot_run(rs) is ClearConfig || boot_run(rs) is Detach
            || boot_run(rs) is GiveUp || boot_run(rs) == BootStep::Ended(false)),
    decreases rs.len(),
{
    if rs.len() > 0 {
        lemma_nothing_missing(rs.drop_last());
    }
}

/// A device is the medium just where nothing that a try needs was missing: one
/// of the two filesystems, the squashfs, a loop device, and that it can be bound
/// and mounted.
pub proof fn law_media_are_found_where_nothing_is_missing(rs: Seq<BootReply>)
    requires
        boot_run(rs) is Ended,
    ensures
        boot_run(rs) == BootStep::Ended(true) <==> nothing_missing(rs),
{
    lemma_nothing_missing(rs);
}

/// A try works on the loop device that the kernel named.
pub proof fn law_the_named_loop_device_is_used(t: BootTry, r: BootReply, n: i32)
    ensures
        t.step is FreeLoop && r == BootReply::Loop(n) && n >= 0 ==> loop_after(t, r) == n
            && boot_after(t.step, r) is FindLoopNode,
        !(t.step is FreeLoop) ==> loop_after(t, r) == t.loop_num,
        t.step is FreeLoop && r == BootReply::Loop(n) && n < 0 ==> boot_after(t.step, r) is GiveUp,
{
}

proof fn lemma_vfs_row(oks: Seq<bool>, n: int)
    requires
        0 <= n < oks.len(),
    ensures
        vfs_run(oks.take(n + 1)) == vfs_after(vfs_run(oks.take(n)), oks[n]),
{
    assert(oks.take(n + 1).drop_last() =~= oks.take(n));
}

/// Where `/proc`, `/sys` and `/dev` can be mounted, everything else is tried in
/// turn, whatever comes of it; where the kernel makes no nodes by itself, those
/// of the block devices are made first.
pub proof fn law_virtual_filesystems_are_set_up_in_turn(oks: Seq<bool>)
    requires
        oks.len() == 12,
        oks[0] && oks[1],
    ensures
        vfs_run(oks.take(0)) == VfsStep::Proc,
        vfs_run(oks.take(1)) == VfsStep::Sys,
        vfs_run(oks.take(2)) == VfsStep::Dev,
        oks[2] ==> {
            &&& vfs_run(oks.take(3)) == VfsStep::Pts
            &&& vfs_run(oks.take(4)) == VfsStep::Shm
            &&& vfs_run(oks.take(5)) == VfsStep::NullNode
            &&& vfs_run(oks.take(6)) == VfsStep::KmsgNode
            &&& vfs_run(oks.take(7)) == VfsStep::PtmxNode
            &&& vfs_run(oks.take(8)) == VfsStep::Mtab
            &&& vfs_run(oks.take(9)) == VfsStep::Ready
        },
        !oks[2] ==> vfs_run(oks.take(3)) == VfsStep::DevFallback,
        !oks[2] && oks[3] ==> {
            &&& vfs_run(oks.take(4)) == VfsStep::BlockNodes
            &&& vfs_run(oks.take(5)) == VfsStep::LoopControl
            &&& vfs_run(oks.take(6)) == VfsStep::Pts
            &&& vfs_run(oks.take(7)) == VfsStep::Shm
            &&& vfs_run(oks.take(8)) == VfsStep::NullNode
            &&& vfs_run(oks.take(9)) == VfsStep::KmsgNode
            &&& vfs_run(oks.take(10)) == VfsStep::PtmxNode
            &&& vfs_run(oks.take(11)) == VfsStep::Mtab
            &&& vfs_run(oks.take(12)) == VfsStep::Ready
        },
        !oks[2] && !oks[3] ==> vfs_run(oks.take(4)) == VfsStep::Failed(VfsRoot::Dev),
{
    lemma_vfs_row(oks, 0);
    lemma_vfs_row(oks, 1);
    lemma_vfs_row(oks, 2);
    lemma_vfs_row(oks, 3);
    lemma_vfs_row(oks, 4);
    lemma_vfs_row(oks, 5);
    lemma_vfs_row(oks, 6);
    lemma_vfs_row(oks, 7);
    lemma_vfs_row(oks, 8);
    lemma_vfs_row(oks, 9);
    lemma_vfs_row(oks, 10);
    lemma_vfs_row(oks, 11);
}

/// What must be mounted and cannot be ends the start, and is named.
pub proof fn law_missing_roots_are_named()
    ensures
        vfs_after(VfsStep::Proc, false) == VfsStep::Failed(VfsRoot::Proc),
        vfs_after(VfsStep::Sys, false) == VfsStep::Failed(VfsRoot::Sys),
        vfs_after(VfsStep::DevFallback, false) == VfsStep::Failed(VfsRoot::Dev),
        forall|step: VfsStep|
            !(step is Proc || step is Sys || step is Dev || step is DevFallback) ==> #[trigger]
            vfs_after(step, false) == vfs_after(step, true),
{
}

/// The phases of starting up come in their order, each once.
pub proof fn law_phases_follow_each_other(p: InitPhase)
    ensures
        phase_after(None) == Some(InitPhase::SetupPath),
        p != InitPhase::VerifyImage <==> phase_after(Some(p)) is Some,
        phase_after(Some(p)) matches Some(q) ==> init_place(q) == init_place(p) + 1,
{
}

/// The place of a phase among the others: images are verified on a medium that
/// was found, and that takes modules, which are named on the command line.
pub open spec fn init_place(p: InitPhase) -> int {
    match p {
        InitPhase::SetupPath => 0,
        InitPhase::MountVirtualFs => 1,
        InitPhase::ParseCmdline => 2,
        InitPhase::LoadModules => 3,
        InitPhase::ScanBootMedia => 4,
        InitPhase::VerifyImage => 5,
    }
}

/// Whether a node may hold the medium: it is that of a block device with one of
/// the names of disks and drives.
pub open spec fn can_be_tried(f: (Seq<char>, Option<u32>)) -> bool {
    &&& f.1 matches Some(m) && m & 0o060000 == 0o060000
    &&& text::starts_with(f.0, "sr"@) || text::starts_with(f.0, "sd"@) || text::starts_with(
        f.0,
        "nvme"@,
    ) || text::starts_with(f.0, "vd"@) || text::starts_with(f.0, "hd"@) || text::starts_with(
        f.0,
        "mmcblk"@,
    )
}

proof fn lemma_candidates_push(
    fs: Seq<(Seq<char>, Option<u32>)>,
    f: (Seq<char>, Option<u32>),
    n: nat,
)
    requires
        n <= fs.len(),
    ensures
        candidates(fs.push(f), n) == candidates(fs, n),
    decreases n,
{
    if n > 0 {
        lemma_candidates_push(fs, f, (n - 1) as nat);
        assert(fs.push(f)[n - 1] == fs[n - 1]);
    }
}

/// Whatever was found already, one more node is tried just where it may hold the
/// medium.
pub proof fn law_each_device_is_tried(
    fs: Seq<(Seq<char>, Option<u32>)>,
    f: (Seq<char>, Option<u32>),
)
    ensures
        candidate_list(fs.push(f)).to_multiset() == if can_be_tried(f) {
            candidate_list(fs).to_multiset().insert("/dev/"@ + f.0)
        } else {
            candidate_list(fs).to_multiset()
        },
        candidate_list(seq![]).len() == 0,
{
    broadcast use vstd::seq_lib::group_to_multiset_ensures;

    law_optical_drives_come_first(fs);
    law_optical_drives_come_first(fs.push(f));
    lemma_candidates_push(fs, f, fs.len());
    assert(fs.push(f)[fs.len() as int] == f);
    let before = candidates(fs, fs.len());
    let after = candidates(fs.push(f), fs.push(f).len());
    if can_be_tried(f) {
        assert(after == before.push("/dev/"@ + f.0));
    } else {
        assert(after == before);
    }
}

/// Drives of the same kind are tried in the order of their names.
pub proof fn law_devices_of_a_kind_are_tried_by_name(fs: Seq<(Seq<char>, Option<u32>)>)
    ensures
        ({
            let l = candidate_list(fs);
            forall|i: int, j: int|
                0 <= i < j < l.len() && text::starts_with(l[i], "/dev/sr"@) == text::starts_with(
                    l[j],
                    "/dev/sr"@,
                ) ==> order::text_le(#[trigger] l[i], #[trigger] l[j])
        }),
        ({
            let l = candidate_list(fs);
            forall|i: int, j: int|
                0 <= i < j < l.len() && text::starts_with(#[trigger] l[j], "/dev/sr"@)
                    ==> text::starts_with(#[trigger] l[i], "/dev/sr"@)
        }),
{
    law_optical_drives_come_first(fs);
    let l = candidate_list(fs);
    assert forall|i: int, j: int|
        0 <= i < j < l.len() && text::starts_with(l[i], "/dev/sr"@) == text::starts_with(
            l[j],
            "/dev/sr"@,
        ) implies order::text_le(#[trigger] l[i], #[trigger] l[j]) by {
        assert(tried_before()(l[i], l[j]));
    }
}

proof fn lemma_modules_push(ls: Seq<Seq<char>>, line: Seq<char>, n: nat)
    requires
        n <= ls.len(),
    ensures
        listed_modules(ls.push(line), n) == listed_modules(ls, n),
    decreases n,
{
    if n > 0 {
        lemma_modules_push(ls, line, (n - 1) as nat);
        assert(ls.push(line)[n - 1] == ls[n - 1]);
    }
}

/// One more line of a list of modules names one more module, without the white
/// space around it, unless the line is blank or begins with `#`.
pub proof fn law_each_line_names_a_module(ls: Seq<Seq<char>>, line: Seq<char>)
    ensures
        ({
            let before = listed_modules(ls, ls.len());
            let after = listed_modules(ls.push(line), ls.len() + 1);
            let l = text::trim(line);
            &&& l.len() > 0 && l[0] != '#' ==> after == before.push(l)
            &&& l.len() == 0 || l[0] == '#' ==> after == before
        }),
        listed_modules(seq![], 0).len() == 0,
{
    lemma_modules_push(ls, line, ls.len());
    assert(ls.push(line)[ls.len() as int] == line);
}

/// The first search comes at once; the pauses are then a quarter, a half and
/// from the third on a whole second.
pub proof fn law_pauses_double(attempt: nat)
    ensures
        pause_before(0) == 0,
        pause_before(1) == 250,
        pause_before(2) == 500,
        attempt >= 3 ==> pause_before(attempt) == 1000,
    decreases attempt,
{
    reveal_with_fuel(pause_before, 4);
    if attempt > 3 {
        law_pauses_double((attempt - 1) as nat);
    }
}

/// An image can be written where it is a regular file that is not empty.
pub proof fn law_images_must_hold_something(regular: bool, len: u64)
    ensures
        image_fault(ImageStat::File { regular, len }) is None <==> regular && len > 0,
        forall|s: ImageStat| s is Missing ==> (#[trigger] image_fault(s)) is Some,
{
}

/// The numbers of a device stand before and behind a colon, and those of common
/// devices are packed into two bytes.
pub proof fn law_device_numbers_are_read(content: Seq<char>, major: nat, minor: nat)
    requires
        major <= u64::MAX,
        minor <= u64::MAX,
        text::trim(content) == text::decimal(major) + seq![':'] + text::decimal(minor),
    ensures
        dev_numbers(content) == Some((major as u64, minor as u64)),
        major < 0x1000 && minor < 0x100 ==> device_of(major as u64, minor as u64) == 256 * major
            + minor,
{
    let a = text::decimal(major);
    let b = text::decimal(minor);
    let t = text::trim(content);
    text::law_decimal_parses(major, u64::MAX as nat);
    text::law_decimal_parses(minor, u64::MAX as nat);
    text::lemma_find(t, ':');
    let n = a.len() as int;
    assert(t[n] == ':');
    assert(text::find(t, ':') == n) by {
        let k = text::find(t, ':');
        if k < n {
            assert(a[k] == t[k]);
            assert(text::is_digit(a[k]));
        }
    }
    assert(t.take(n) =~= a);
    assert(t.skip(n + 1) =~= b);
    if major < 0x1000 && minor < 0x100 {
        let x = major as u64;
        let y = minor as u64;
        assert(((x & 0xffff_f000) << 32) | ((x & 0xfff) << 8) | ((y & 0xffff_ff00) << 12) | (y
            & 0xff) == 256 * x + y) by (bit_vector)
            requires
                x < 0x1000,
                y < 0x100,
        ;
    }
}

/// Nothing that is mounted while starting up may hold programs that change the
/// user; the filesystems of the kernel hold no programs at all, and only `/dev`
/// and what is in it hold devices. The medium and the image are never written.
pub proof fn law_mounts_forbid_what_they_can(step: VfsStep)
    ensures
        vfs_mount_of(step) matches Some(m) ==> {
            &&& m.flags.nosuid && !m.flags.rdonly
            &&& m.flags.noexec <==> m.target != "/dev"@
            &&& m.flags.nodev <==> m.target != "/dev"@ && m.target != "/dev/pts"@
            &&& m.source == m.fstype
        },
        medium_flags().rdonly && medium_flags().nosuid && medium_flags().nodev
            && !medium_flags().noexec,
        vfs_mount_of(VfsStep::Proc) matches Some(m) && m.target == "/proc"@ && m.fstype == "proc"@,
        vfs_mount_of(VfsStep::Sys) matches Some(m) && m.target == "/sys"@ && m.fstype == "sysfs"@,
        vfs_mount_of(VfsStep::Dev) matches Some(m) && m.target == "/dev"@ && m.fstype
            == "devtmpfs"@,
        vfs_mount_of(VfsStep::DevFallback) matches Some(m) && m.target == "/dev"@ && m.fstype
            == "tmpfs"@,
        vfs_mount_of(VfsStep::Pts) matches Some(m) && m.target == "/dev/pts"@ && m.fstype
            == "devpts"@,
        vfs_mount_of(VfsStep::Shm) matches Some(m) && m.target == "/dev/shm"@ && m.fstype
            == "tmpfs"@,
{
    reveal_strlit("/dev");
    reveal_strlit("/proc");
    reveal_strlit("/sys");
    reveal_strlit("/dev/pts");
    reveal_strlit("/dev/shm");
    assert("/dev"@.len() == 4 && "/proc"@.len() == 5 && "/dev/pts"@.len() == 8 && "/dev/shm"@.len()
        == 8);
    assert("/sys"@[1] == 's' && "/dev"@[1] == 'd' && "/dev/pts"@[5] == 'p' && "/dev/shm"@[5] == 's');
    assert("/sys"@.len() == 4);
}

/// The nodes that are made by hand: those for everyone are open to everyone, and
/// nodes of block devices to the owner alone.
pub proof fn law_nodes_are_those_of_the_kernel(major: u64, minor: u64, n: u32)
    ensures
        vfs_node_of(VfsStep::NullNode) == Some(("/dev/null"@, character_node(0o666, 1, 3), true)),
        vfs_node_of(VfsStep::KmsgNode) == Some(("/dev/kmsg"@, character_node(0o660, 1, 11), true)),
        vfs_node_of(VfsStep::PtmxNode) == Some(("/dev/ptmx"@, character_node(0o666, 5, 2), true)),
        vfs_node_of(VfsStep::LoopControl) == Some(
            ("/dev/loop-control"@, character_node(0o600, 10, 237), false),
        ),
        character_node(n, major, minor).kind == NodeKind::Character,
        character_node(n, major, minor).mode == n,
        block_node(major, minor).kind == NodeKind::Block,
        block_node(major, minor).mode == 0o600,
        block_node(major, minor).device == device_of(major, minor),
        character_node(n, major, minor).device == device_of(major, minor),
        loop_node(n) == "/dev/loop"@ + text::decimal(n as nat),
{
}

/// A machine is one of VMware's where its vendor has that name in it, whatever
/// stands around it.
pub proof fn law_vendors_are_known_by_their_name(vendor: Seq<char>, a: Seq<char>, b: Seq<char>)
    ensures
        text::trim(vendor) == a + "VMware"@ + b ==> is_vmware(Some(vendor)),
        is_vmware(Some(vendor)) ==> exists|x: Seq<char>, y: Seq<char>|
            text::trim(vendor) == #[trigger] (x + "VMware"@ + y),
        !is_vmware(None),
{
    let t = text::trim(vendor);
    let p = "VMware"@;
    if t == a + p + b {
        assert(t.subrange(a.len() as int, a.len() as int + p.len()) =~= p);
    }
    if is_vmware(Some(vendor)) {
        let i = choose|i: int|
            0 <= i <= t.len() - p.len() && #[trigger] t.subrange(i, i + p.len()) == p;
        let x = t.take(i);
        let y = t.skip(i + p.len());
        assert forall|k: int| 0 <= k < t.len() implies t[k] == (x + p + y)[k] by {
            if i <= k < i + p.len() {
                assert(t.subrange(i, i + p.len())[k - i] == p[k - i]);
            }
        }
        assert(t =~= x + p + y);
    }
}

} // verus!
