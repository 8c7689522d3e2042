//! Disks, the installer's screens, starting up, and sizes for people to read.

use disktui_lite::app::{
    App, ChildPoll, ConfirmButton, ExitAction, GrowProgress, NotificationLevel, Screen,
    SuccessAction, WriteProgress,
};
use disktui_lite::disk::{
    check_mounted, detect_disk_type, detect_transport, is_disk_name, is_numbered_kernel_dev,
    DiskInfo, SysBlock,
};
use disktui_lite::grow::{GrowOutcome, Status};
use disktui_lite::init::{
    block_device_node, device_number, enumerate_candidate_devices, is_block_device, is_quiet, module_list,
    parse_dev_numbers, run_init, scan_delay, scan_error, vendor_modules, verify_image, vfs_error,
    vfs_job, vfs_next, virtual_dirs, BootReply, BootStep, BootTry, DeviceNode, Found, ImageStat, InitPhase, NodeKind,
    VfsJob, VfsRoot, VfsStep,
};
use disktui_lite::order::is_text_le;
use disktui_lite::paths::{file_name_of, join, same_path};
use disktui_lite::sat::IdentifyData;
use disktui_lite::theme::Theme;
use disktui_lite::utils::{format_bytes, IMAGE_FILE, SECTOR};

fn some(t: &str) -> Option<String> {
    Some(t.to_string())
}

fn block(name: &str) -> SysBlock {
    SysBlock {
        name: name.to_string(),
        ro: some("0\n"),
        size: some("2000000\n"),
        models: vec![None, some("Disk Model \n")],
        serial: some(" S1\n"),
        removable: some("0\n"),
        rotational: some("1\n"),
        mounts: None,
        sas: false,
        device_link: None,
        identify: None,
    }
}

#[test]
fn disks_are_described() {
    let d = DiskInfo::from_sys_block(&block("hda")).unwrap();
    assert_eq!(d.name, "hda");
    assert_eq!(d.dev_path, "/dev/hda");
    assert_eq!(d.size_bytes, 2000000 * 512);
    assert_eq!(d.size_str, "1.0GB");
    assert_eq!(d.transport, "IDE");
    assert_eq!(d.disk_type, "HDD");
    assert!(!d.is_removable);
    assert!(!d.is_mounted);
    assert_eq!(d.mount_point, None);
    assert_eq!(d.model.as_deref(), Some("Disk Model"));
    assert_eq!(d.serial.as_deref(), Some("S1"));
}

#[test]
fn read_only_devices_are_no_disks() {
    let mut b = block("sda");
    b.ro = some("1\n");
    assert!(DiskInfo::from_sys_block(&b).is_none());
    b.ro = None;
    assert!(DiskInfo::from_sys_block(&b).is_none());
}

#[test]
fn what_a_disk_says_goes_first() {
    let mut b = block("sdb");
    b.identify = Some(IdentifyData {
        model: "Own Name".to_string(),
        serial: String::new(),
        rotation_rate: 1,
    });
    let d = DiskInfo::from_sys_block(&b).unwrap();
    assert_eq!(d.model.as_deref(), Some("Own Name"));
    assert_eq!(d.serial.as_deref(), Some("S1"));
    assert_eq!(d.disk_type, "SSD");
    assert_eq!(d.transport, "ATA");
    b.identify = Some(IdentifyData {
        model: "Own Name".to_string(),
        serial: "S2".to_string(),
        rotation_rate: 5400,
    });
    b.device_link = some("../../devices/pci0/usb2/2-1/host0");
    let d = DiskInfo::from_sys_block(&b).unwrap();
    assert_eq!(d.serial.as_deref(), Some("S2"));
    assert_eq!(d.disk_type, "HDD");
    assert_eq!(d.transport, "USB");
    // A rate that is not reported leaves the kernel's word.
    b.identify.as_mut().unwrap().rotation_rate = 0;
    b.rotational = some("0\n");
    assert_eq!(DiskInfo::from_sys_block(&b).unwrap().disk_type, "");
    // Only sd disks are asked.
    b.name = "vda".to_string();
    let d = DiskInfo::from_sys_block(&b).unwrap();
    assert_eq!(d.model.as_deref(), Some("Disk Model"));
    assert_eq!(d.transport, "VirtIO");
}

#[test]
fn disks_without_numbers_or_names() {
    let mut b = block("sda");
    b.size = None;
    b.models = vec![None, some(" \n"), some("later")];
    b.serial = None;
    b.removable = some("1\n");
    let d = DiskInfo::from_sys_block(&b).unwrap();
    assert_eq!(d.size_bytes, 0);
    assert_eq!(d.size_str, "0B");
    assert_eq!(d.model, None);
    assert_eq!(d.serial, None);
    assert!(d.is_removable);
    assert_eq!(d.transport, "Unknown");
    b.size = some("36028797018963968");
    assert!(!b.is_countable());
    b.ro = some("1");
    assert!(b.is_countable());
    assert!(!b.writable());
    b.ro = some("0");
    b.size = some("36028797018963967");
    assert!(b.is_countable());
}

#[test]
fn transports_are_detected() {
    assert_eq!(detect_transport("nvme0n1", false, &None), "NVMe");
    assert_eq!(detect_transport("mmcblk0", false, &None), "eMMC");
    assert_eq!(detect_transport("sda", true, &some("x/usb1/y")), "SAS");
    assert_eq!(detect_transport("sda", false, &some("../pci/ata3/host")), "SATA");
    assert_eq!(detect_transport("sda", false, &some("../virtio0/host")), "VirtIO");
    assert_eq!(detect_transport("sda", false, &some("../usbx/ata/host")), "Unknown");
    assert_eq!(detect_transport("sr0", false, &None), "Unknown");
    assert_eq!(detect_disk_type("nvme0n1", &None), "SSD");
    assert_eq!(detect_disk_type("sda", &some("0")), "");
    let usb: Vec<char> = "usb12".chars().collect();
    assert!(is_numbered_kernel_dev(&usb, "usb"));
    assert!(!is_numbered_kernel_dev(&usb, "usb12"));
}

#[test]
fn mounts_are_found() {
    let mounts = some("proc /proc proc\n/dev/sda1 /mnt ext4\n/dev/nvme0n1p2 /x xfs\n/dev/sdab /y\n");
    assert_eq!(check_mounted("sda", &mounts), (true, some("/mnt")));
    assert_eq!(check_mounted("nvme0n1", &mounts), (true, some("/x")));
    assert_eq!(check_mounted("sdab", &mounts), (true, some("/y")));
    assert_eq!(check_mounted("sdb", &mounts), (false, None));
    assert_eq!(check_mounted(" ", &some("/dev/1 /z")), (false, None));
    assert_eq!(check_mounted("sda", &None), (false, None));
    let mounts = some("/dev/sdaa1 /mnt ext4 rw 0 0\n/dev/sda2 /boot ext4 rw 0 0\n");
    assert_eq!(check_mounted("sda", &mounts), (true, some("/boot")));
    let mounts = some("/dev/mmcblk10p1 /mnt ext4 rw 0 0\n/dev/mmcblk1 /x\n");
    assert_eq!(check_mounted("mmcblk1", &mounts), (true, some("/x")));
    assert_eq!(check_mounted("mmcblk10", &mounts), (true, some("/mnt")));
    for line in ["mmcblk10p1", "mmcblk1boot0", "mmcblk1p", "mmcblk1p1x", "mmcblk12"] {
        let mounts = Some(format!("/dev/{line} /mnt ext4 rw 0 0\n"));
        assert_eq!(check_mounted("mmcblk1", &mounts), (false, None));
    }
    assert_eq!(check_mounted("nvme0n1", &some("/dev/nvme0n10p1 /mnt\n")), (false, None));
    assert_eq!(check_mounted("sda", &some("/dev/sdap1 /mnt\n")), (false, None));
}

#[test]
fn disks_are_listed_by_name() {
    let blocks = vec![block("vdb"), block("loop0"), block("sdb"), block("sda"), block("nvme0n1")];
    let names: Vec<String> = DiskInfo::enumerate(&blocks).into_iter().map(|d| d.name).collect();
    assert_eq!(names, &["nvme0n1", "sda", "sdb", "vdb"]);
    assert!(is_disk_name("mmcblk0"));
    assert!(!is_disk_name("sr0"));
    assert!(is_text_le("sda", "sda1"));
    assert!(!is_text_le("sdb", "sda1"));
    assert!(is_text_le("", ""));
}

// The installer

fn app() -> App {
    App::new(DiskInfo::enumerate(&vec![block("sda"), block("sdb")]))
}

#[test]
fn the_installer_opens_on_the_list() {
    let a = app();
    assert!(a.running);
    assert_eq!(a.screen, Screen::DiskList);
    assert_eq!(a.selected, Some(0));
    assert_eq!(a.selected_disk().unwrap().name, "sda");
    assert!(a.has_disks());
    assert_eq!(a.exit_action, ExitAction::Nothing);
    let empty = App::new(vec![]);
    assert_eq!(empty.selected, None);
    assert!(empty.selected_disk().is_none());
    assert!(!empty.has_disks());
}

#[test]
fn the_selection_survives_a_refresh() {
    let mut a = app();
    a.selected = Some(1);
    a.refresh_disks(DiskInfo::enumerate(&vec![block("sda"), block("sdc")]));
    assert_eq!(a.selected, Some(1));
    a.refresh_disks(DiskInfo::enumerate(&vec![block("sda")]));
    assert_eq!(a.selected, Some(0));
    a.refresh_disks(vec![]);
    assert_eq!(a.selected, None);
    a.refresh_disks(DiskInfo::enumerate(&vec![block("sda")]));
    assert_eq!(a.selected, None);
}

#[test]
fn toggles_undo_themselves() {
    let mut b = ConfirmButton::default();
    assert_eq!(b, ConfirmButton::No);
    b.toggle();
    assert_eq!(b, ConfirmButton::Yes);
    b.toggle();
    assert_eq!(b, ConfirmButton::No);
    let mut s = SuccessAction::default();
    s.toggle();
    assert_eq!(s, SuccessAction::Back);
    s.toggle();
    assert_eq!(s, SuccessAction::Reboot);
}

#[test]
fn screens_follow_each_other() {
    let mut a = app();
    a.confirm_button = ConfirmButton::Yes;
    a.goto_confirmation();
    assert_eq!((a.screen, a.confirm_button), (Screen::Confirmation, ConfirmButton::No));
    a.grow_outcome = Some(GrowOutcome::default());
    let p = WriteProgress::new(a.selected_disk().unwrap(), 1000);
    a.goto_writing(p);
    assert_eq!(a.screen, Screen::Writing);
    assert!(a.grow_outcome.is_none());
    for _ in 0..12 {
        a.tick();
    }
    assert_eq!(a.progress.as_ref().unwrap().spinner_index, 2);
    a.goto_growing(GrowProgress::new("sda", 5));
    assert_eq!(a.screen, Screen::Growing);
    a.tick();
    assert_eq!(a.grow.as_ref().unwrap().spinner_index, 1);
    assert_eq!(a.progress.as_ref().unwrap().spinner_index, 2);
    a.goto_write_error();
    assert_eq!(a.screen, Screen::WriteError);
    a.goto_disk_list();
    assert!(a.progress.is_none());
    assert_eq!(a.screen, Screen::DiskList);
    a.skip_reboot_countdown();
    assert_eq!((a.running, a.exit_action), (false, ExitAction::Reboot));
}

#[test]
fn the_machine_reboots_after_five_seconds() {
    let mut a = app();
    for _ in 0..7 {
        a.tick();
    }
    a.goto_success();
    a.reboot_counting = true;
    for _ in 0..49 {
        a.tick();
    }
    assert!(a.running);
    assert_eq!(a.reboot_countdown, 1);
    a.tick();
    assert!(!a.running);
    assert_eq!(a.exit_action, ExitAction::Reboot);
    // Without the countdown nothing happens.
    let mut a = app();
    a.goto_success();
    for _ in 0..100 {
        a.tick();
    }
    assert!(a.running);
}

#[test]
fn messages_fade() {
    let mut a = app();
    a.notify("one".to_string(), NotificationLevel::Info);
    a.notify("two".to_string(), NotificationLevel::Warning);
    a.notify("three".to_string(), NotificationLevel::Error);
    assert_eq!(a.notifications[2].ttl, 100);
    for _ in 0..40 {
        a.tick();
    }
    assert_eq!(a.notifications.len(), 3);
    a.tick();
    let left: Vec<&str> = a.notifications.iter().map(|n| n.message.as_str()).collect();
    assert_eq!(left, &["two", "three"]);
    assert_eq!(a.notifications[0].ttl, 19);
}

#[test]
fn quitting_gives_the_writer_up() {
    let mut a = app();
    let mut p = WriteProgress::new(&DiskInfo::from_sys_block(&block("sda")).unwrap(), 1000);
    assert_eq!(p.disk_model, "Disk Model");
    p.success = true;
    a.goto_writing(p);
    a.quit();
    let p = a.progress.as_ref().unwrap();
    assert!(p.finished && !p.success && !p.has_child);
    assert_eq!((a.running, a.exit_action), (false, ExitAction::PowerOff));
}

#[test]
fn writing_is_followed() {
    let mut p = WriteProgress::new(&DiskInfo::from_sys_block(&block("sda")).unwrap(), 1000);
    p.update_progress(300);
    assert_eq!((p.written_bytes, p.delta_bytes), (300, 300));
    p.update_progress(200);
    assert_eq!((p.written_bytes, p.delta_bytes), (300, 300));
    p.update_progress(450);
    assert_eq!((p.written_bytes, p.delta_bytes), (450, 150));
    let io = "rchar: 9\nwchar: 777\nsyscr: 1\n";
    assert_eq!(p.read_written_bytes(Some(io)), 777);
    assert_eq!(p.read_written_bytes(Some("wchar: x\nwchar:\n")), 450);
    assert_eq!(p.read_written_bytes(None), 450);
    assert_eq!(p.check_and_read_io(Some(io), ChildPoll::Running), (None, 777));
    assert!(!p.finished);
    assert_eq!(p.check_and_read_io(Some(io), ChildPoll::Unknown), (Some(false), 777));
    assert!(p.finished && p.has_child);
    assert_eq!(p.check_and_read_io(None, ChildPoll::Exited(true)), (Some(true), 450));
    assert!(p.success && !p.has_child);
    assert_eq!(p.check_and_read_io(None, ChildPoll::Exited(false)), (Some(true), 450));
    assert!(p.success);
    p.abort();
    assert!(!p.success);
}

#[test]
fn growing_is_followed() {
    let mut g = GrowProgress::new("sda", 1000);
    assert_eq!(g.phase_text, "Analyzing disk layout");
    g.poll_status(None, Some("phase=done\n"), 2000);
    assert_eq!(g.stalled_for(3000), 2000);
    g.poll_status(Some((7, 0)), Some("phase=partition\n"), 4000);
    assert_eq!(g.phase_text, "Resizing partition table");
    assert_eq!(g.stalled_for(4500), 500);
    g.poll_status(Some((7, 0)), Some("phase=done\n"), 5000);
    assert_eq!(g.phase_text, "Resizing partition table");
    g.poll_status(Some((7, 1)), None, 6000);
    assert_eq!(g.phase_text, "Resizing partition table");
    assert_eq!(g.stalled_for(6000), 0);
    assert_eq!(g.stalled_for(5), 0);
    assert_eq!(g.elapsed_secs(61500), 60);
    assert!(g.child_exited(ChildPoll::Exited(false)));
    assert!(!g.child_exited(ChildPoll::Running));
    assert!(!g.child_exited(ChildPoll::Unknown));
    assert!(!g.hangs(6000 + 599_999));
    assert!(g.hangs(6000 + 600_000));
}

#[test]
fn the_theme_has_its_colours() {
    let t = Theme::default();
    assert_eq!((t.focus_border, t.header, t.error, t.success), (2, 3, 1, 2));
    assert_eq!((t.progress_bar_filled, t.progress_bar_empty), ("█", "░"));
}

#[test]
fn the_selection_wraps_around() {
    let mut a = app();
    a.select(false);
    assert_eq!(a.selected, Some(1));
    a.select(true);
    assert_eq!(a.selected, Some(0));
    a.select(true);
    assert_eq!(a.selected, Some(1));
    a.selected = None;
    a.select(false);
    assert_eq!(a.selected, Some(0));
    let mut empty = App::new(vec![]);
    empty.select(true);
    assert_eq!(empty.selected, None);
    empty.choose_disk();
    assert_eq!(empty.screen, Screen::DiskList);
    assert_eq!(empty.notifications[0].message, "No disk selected");
    a.choose_disk();
    assert_eq!(a.screen, Screen::Confirmation);
}

#[test]
fn the_last_screen_reboots_or_goes_back() {
    let mut a = app();
    a.goto_success();
    assert!(!a.choose_success());
    assert!(a.reboot_counting && a.running);
    assert!(!a.choose_success());
    assert_eq!((a.running, a.exit_action), (false, ExitAction::Reboot));
    let mut a = app();
    a.goto_success();
    a.success_action.toggle();
    assert!(a.choose_success());
    assert_eq!((a.running, a.screen), (true, Screen::DiskList));
}

#[test]
fn growing_follows_on_writing() {
    let mut a = app();
    assert!(a.look_at_writer(Some(true), true));
    assert_eq!(a.screen, Screen::DiskList);
    assert!(!a.look_at_writer(None, true));
    assert_eq!(a.screen, Screen::DiskList);
    assert!(!a.look_at_writer(Some(false), true));
    assert_eq!(a.screen, Screen::WriteError);
    assert!(!a.look_at_writer(Some(true), false));
    assert_eq!(a.screen, Screen::Success);
    let mut a = app();
    a.selected = None;
    assert!(!a.look_at_writer(Some(true), true));
    assert_eq!(a.screen, Screen::Success);
}

#[test]
fn growing_comes_to_an_end() {
    let g = GrowProgress::new("sda", 1000);
    let result = Some("status=skipped\nreason=x\n");
    assert!(g.verdict(ChildPoll::Running, result, 2000).is_none());
    assert!(g.verdict(ChildPoll::Unknown, result, 600_999).is_none());
    let o = g.verdict(ChildPoll::Running, result, 601_000).unwrap();
    assert_eq!((o.status, o.reason.as_str()), (Status::Failed, "grow process hangs"));
    let o = g.verdict(ChildPoll::Exited(true), result, 601_000).unwrap();
    assert_eq!((o.status, o.reason.as_str()), (Status::Skipped, "x"));
    let o = g.verdict(ChildPoll::Exited(true), None, 2000).unwrap();
    assert_eq!((o.status, o.reason.as_str()), (Status::Failed, "no result reported"));
    let mut a = app();
    a.goto_growing(g);
    a.end_growing(o);
    assert_eq!(a.screen, Screen::Success);
    assert!(a.grow.is_none() && a.grow_outcome.is_some());
}

// Starting up

#[test]
fn the_start_has_its_order() {
    let mut phases = vec![];
    let mut last = None;
    while let Some(p) = run_init(last) {
        phases.push(p);
        last = Some(p);
    }
    assert_eq!(
        phases,
        &[
            InitPhase::SetupPath,
            InitPhase::MountVirtualFs,
            InitPhase::ParseCmdline,
            InitPhase::LoadModules,
            InitPhase::ScanBootMedia,
            InitPhase::VerifyImage,
        ]
    );
}

fn vfs(fails: &[&str]) -> (Vec<String>, VfsStep) {
    let mut log = vec![];
    let mut step = VfsStep::Proc;
    loop {
        let mut ok = true;
        match vfs_job(step) {
            VfsJob::Mount(m) => {
                let f = m.flags;
                let what = format!("{} {}", m.fstype, m.target);
                ok = !fails.contains(&what.as_str());
                log.push(format!(
                    "{what} {}{}{}{} {}",
                    f.rdonly as u8,
                    f.noexec as u8,
                    f.nosuid as u8,
                    f.nodev as u8,
                    m.data.unwrap_or("-")
                ));
            }
            VfsJob::MakeBlockNodes => log.push("nodes".to_string()),
            VfsJob::MakeNode(n) => {
                let d = n.node;
                assert_eq!(d.kind, NodeKind::Character);
                log.push(format!("node {} {:o} {:x} {}", n.path, d.mode, d.device, n.keep))
            }
            VfsJob::LinkMtab => log.push("mtab".to_string()),
            VfsJob::Stop => return (log, step),
        }
        step = vfs_next(step, ok);
    }
}

#[test]
fn virtual_filesystems_are_mounted() {
    let (log, step) = vfs(&[]);
    assert_eq!(step, VfsStep::Ready);
    assert_eq!(
        log,
        &[
            "proc /proc 0111 -",
            "sysfs /sys 0111 -",
            "devtmpfs /dev 0010 mode=0755,size=2M",
            "devpts /dev/pts 0110 gid=5,mode=0620",
            "tmpfs /dev/shm 0111 -",
            "node /dev/null 666 103 true",
            "node /dev/kmsg 660 10b true",
            "node /dev/ptmx 666 502 true",
            "mtab",
        ]
    );
    let (log, step) = vfs(&["devtmpfs /dev", "devpts /dev/pts", "tmpfs /dev/shm"]);
    assert_eq!(step, VfsStep::Ready);
    assert_eq!(log[3], "tmpfs /dev 0010 mode=0755,size=2M");
    assert_eq!(log[4], "nodes");
    assert_eq!(log[5], "node /dev/loop-control 600 aed false");
    assert_eq!(log.len(), 12);
    assert_eq!(vfs(&["proc /proc"]).1, VfsStep::Failed(VfsRoot::Proc));
    assert_eq!(vfs(&["sysfs /sys"]).1, VfsStep::Failed(VfsRoot::Sys));
    assert_eq!(vfs(&["devtmpfs /dev", "tmpfs /dev"]).1, VfsStep::Failed(VfsRoot::Dev));
    assert_eq!(vfs_error(VfsRoot::Sys, "EPERM"), "mount /sys: EPERM");
    assert_eq!(vfs_error(VfsRoot::Proc, "x"), "mount /proc: x");
    assert_eq!(vfs_error(VfsRoot::Dev, "x"), "mount /dev: x");
    let dirs = virtual_dirs();
    assert_eq!(dirs.len(), 12);
    assert!(dirs.contains(&"/media/cdrom") && dirs.contains(&"/image"));
}

#[test]
fn device_numbers_are_packed() {
    assert_eq!(device_number(8, 1), 0x801);
    assert_eq!(device_number(259, 300), 0x11032c);
    assert_eq!(device_number(0x12345, 0x12345678), 0x1212345634578);
    assert_eq!(parse_dev_numbers("8:1\n"), Some((8, 1)));
    assert_eq!(parse_dev_numbers("8 1\n"), None);
    assert_eq!(parse_dev_numbers("8:\n"), None);
    assert_eq!(parse_dev_numbers("x:1"), None);
    let node = DeviceNode { kind: NodeKind::Block, mode: 0o600, device: 0x801 };
    assert_eq!(block_device_node("8:1\n"), Some(node));
    assert_eq!(block_device_node("8\n"), None);
}

#[test]
fn command_lines_and_lists_are_read() {
    assert!(is_quiet("root=/dev/sda quiet\n"));
    assert!(!is_quiet("quietly"));
    assert_eq!(module_list("# boot\nloop\n\n  squashfs \n#x\n"), &["loop", "squashfs"]);
    assert_eq!(vendor_modules(Some("VMware, Inc.\n")), &["ata_piix", "mptspi", "sr_mod"]);
    assert!(vendor_modules(Some("vmware")).is_empty());
    assert!(vendor_modules(Some("")).is_empty());
    assert!(vendor_modules(None).is_empty());
}

#[test]
fn scans_back_off() {
    let delays: Vec<Option<u64>> = (0..16).map(scan_delay).collect();
    let mut expected = vec![Some(0), Some(250), Some(500)];
    expected.extend(vec![Some(1000); 12]);
    expected.push(None);
    assert_eq!(delays, expected);
    assert_eq!(scan_error(), "Boot media not found after 15 scan attempts");
}

#[test]
fn optical_drives_are_tried_first() {
    let found: Vec<Found> = [
        ("sdb", Some(0o060660)),
        ("sda1", Some(0o060660)),
        ("sr1", Some(0o060660)),
        ("loop0", Some(0o060660)),
        ("sdc", Some(0o020660)),
        ("sdd", None),
        ("sr0", Some(0o060660)),
        ("nvme0n1", Some(0o060660)),
    ]
    .into_iter()
    .map(|(n, mode)| Found { name: n.to_string(), mode })
    .collect();
    assert_eq!(
        enumerate_candidate_devices(&found),
        &["/dev/sr0", "/dev/sr1", "/dev/nvme0n1", "/dev/sda1", "/dev/sdb"]
    );
    assert!(is_block_device(Some(0o060000)));
    assert!(!is_block_device(Some(0o100644)));
    assert!(!is_block_device(Some(0o040755)));
    assert!(!is_block_device(None));
}

#[test]
fn images_are_verified() {
    assert!(verify_image(&ImageStat::File { regular: true, len: 1 }).is_ok());
    for s in [
        ImageStat::File { regular: true, len: 0 },
        ImageStat::File { regular: false, len: 1 },
    ] {
        assert_eq!(verify_image(&s).unwrap_err(), "image.img empty or not a regular file");
    }
    assert_eq!(
        verify_image(&ImageStat::Missing("gone".to_string())).unwrap_err(),
        "image.img not found in squashfs: gone"
    );
    assert_eq!(IMAGE_FILE, "/image/image.img");
    assert_eq!(SECTOR, 512);
}

fn try_device(fails: &[BootStep], free: i32) -> (Vec<BootStep>, BootTry) {
    let mut t = BootTry::new();
    let mut log = vec![];
    while !matches!(t.step, BootStep::Ended(_)) {
        log.push(t.step);
        let reply = if t.step == BootStep::FreeLoop {
            BootReply::Loop(free)
        } else {
            BootReply::Answer(!fails.contains(&t.step))
        };
        t.advance(reply);
    }
    (log, t)
}

#[test]
fn media_are_tried() {
    let (log, t) = try_device(&[BootStep::FindLoopNode], 3);
    assert_eq!(t.step, BootStep::Ended(true));
    assert_eq!(t.loop_path(), "/dev/loop3");
    let node = DeviceNode { kind: NodeKind::Block, mode: 0o600, device: 0x703 };
    assert_eq!(t.loop_device(), node);
    assert_eq!(
        log,
        &[
            BootStep::Release,
            BootStep::Iso,
            BootStep::FindSquashfs,
            BootStep::ReleaseImage,
            BootStep::OpenControl,
            BootStep::FreeLoop,
            BootStep::FindLoopNode,
            BootStep::MakeLoopNode,
            BootStep::OpenSquashfs,
            BootStep::OpenLoop,
            BootStep::Configure,
            BootStep::MountImage,
        ]
    );
    let (log, t) = try_device(&[BootStep::Iso, BootStep::Vfat], 0);
    assert_eq!(t.step, BootStep::Ended(false));
    assert_eq!(log.last(), Some(&BootStep::Vfat));
    for (step, before) in [
        (BootStep::FindSquashfs, BootStep::FindSquashfs),
        (BootStep::OpenControl, BootStep::OpenControl),
        (BootStep::OpenSquashfs, BootStep::OpenSquashfs),
        (BootStep::OpenLoop, BootStep::OpenLoop),
        (BootStep::Configure, BootStep::ClearConfig),
        (BootStep::MountImage, BootStep::Detach),
    ] {
        let (log, t) = try_device(&[step], 0);
        assert_eq!(t.step, BootStep::Ended(false));
        assert_eq!(&log[log.len() - 2..], &[before, BootStep::GiveUp]);
    }
    let (log, _) = try_device(&[], -1);
    assert_eq!(&log[log.len() - 2..], &[BootStep::FreeLoop, BootStep::GiveUp]);
}

#[test]
fn media_are_mounted_read_only() {
    let mut t = BootTry::new();
    assert!(t.mount().is_none());
    t.advance(BootReply::Answer(true));
    let (fs, at, flags) = t.mount().unwrap();
    assert_eq!((fs, at), ("iso9660", "/media/cdrom"));
    assert!(flags.rdonly && flags.nosuid && flags.nodev && !flags.noexec);
    t.advance(BootReply::Answer(false));
    assert_eq!(t.mount().unwrap().0, "vfat");
}

// Texts

#[test]
fn paths_are_joined_and_taken_apart() {
    assert_eq!(join("/a", "b"), "/a/b");
    assert_eq!(join("/a/", "b"), "/a/b");
    assert_eq!(join("/a", "/b"), "/b");
    assert_eq!(join("/a", ""), "/a/");
    assert_eq!(join("", "b"), "b");
    assert_eq!(file_name_of("/a/b/").as_deref(), Some("b"));
    assert_eq!(file_name_of("/a/./.").as_deref(), Some("a"));
    assert_eq!(file_name_of("/a/.."), None);
    assert_eq!(file_name_of("/"), None);
    assert!(same_path("/a//b/.", "/a/b"));
    assert!(!same_path("/a/b", "/a/c"));
    assert!(!same_path("/a/b", "/a/b/c"));
}

/// Sizes as floating-point arithmetic gives them.
fn expected_size(bytes: u64) -> String {
    for (unit, name) in [
        (1_000_000_000_000u64, "TB"),
        (1_000_000_000, "GB"),
        (1_000_000, "MB"),
        (1_000, "KB"),
    ] {
        if bytes >= unit {
            return if bytes % unit == 0 {
                format!("{}{}", bytes / unit, name)
            } else {
                format!("{:.1}{}", bytes as f64 / unit as f64, name)
            };
        }
    }
    format!("{}B", bytes)
}

#[test]
fn sizes_for_people() {
    assert_eq!(format_bytes(0), "0B");
    assert_eq!(format_bytes(999), "999B");
    assert_eq!(format_bytes(1000), "1KB");
    assert_eq!(format_bytes(1250), "1.2KB");
    assert_eq!(format_bytes(1350), "1.4KB");
    assert_eq!(format_bytes(1050), "1.1KB");
    assert_eq!(format_bytes(1150), "1.1KB");
    assert_eq!(format_bytes(999_999), "1000.0KB");
    assert_eq!(format_bytes(500_107_862_016), "500.1GB");
    assert_eq!(format_bytes(2_000_000_000_000), "2TB");
    assert_eq!(format_bytes(u64::MAX), "18446744.1TB");
}

#[test]
fn sizes_agree_with_floating_point() {
    let mut x = 0x9e37_79b9_7f4a_7c15u64;
    for i in 0..200_000u64 {
        x ^= x << 13;
        x ^= x >> 7;
        x ^= x << 17;
        let n = x >> (i % 64);
        assert_eq!(format_bytes(n), expected_size(n), "{n}");
    }
    // At and around the halves of a tenth.
    for unit in [1_000u64, 1_000_000, 1_000_000_000, 1_000_000_000_000] {
        for k in 0..2000u64 {
            let tie = unit + unit / 20 * (2 * k + 1);
            for n in [tie - 1, tie, tie + 1] {
                assert_eq!(format_bytes(n), expected_size(n), "{n}");
            }
        }
        for k in 0..2000u64 {
            let far = unit.saturating_mul(17_000_000).saturating_add(unit / 20 * (2 * k + 1));
            assert_eq!(format_bytes(far), expected_size(far), "{far}");
        }
    }
}
