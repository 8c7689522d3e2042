//! Runs of the grow process, from the first job to the report.

use disktui_lite::grow::outcome::{render_phase, render_result};
use disktui_lite::grow::render::{manual_cmd_for_fs, tool_name, tool_path};
use disktui_lite::grow::run::{captured_text, Job, Phase, Reply, Tool};
use disktui_lite::grow::{
    read_result, read_status_line, FsKind, GrowAction, GrowOutcome, GrowPlan, GrowPolicy, GrowRun,
    PartSpec, Status, SurgeryPlan,
};

fn policy(lv: Option<&str>) -> GrowPolicy {
    GrowPolicy { enabled: true, part: PartSpec::Auto, lv: lv.map(|s| s.to_string()) }
}

fn last(fs: FsKind, is_gpt: bool) -> GrowPlan {
    GrowPlan {
        action: Some(GrowAction::PartitionGrow {
            part_num: 2,
            part_dev: "/dev/sda2".to_string(),
            fs,
            surgery: None,
            expected_new_sectors: Some(20000),
            old_sectors: 10000,
            is_gpt,
        }),
        skip_reason: None,
    }
}

fn surgery(is_gpt: bool, label: &str) -> GrowPlan {
    GrowPlan {
        action: Some(GrowAction::PartitionGrow {
            part_num: 1,
            part_dev: "/dev/sda1".to_string(),
            fs: FsKind::Ext,
            surgery: Some(SurgeryPlan {
                swap_num: 2,
                root_num: 1,
                root_first_lba: 2048,
                root_ptype: "83".to_string(),
                swap_first_lba: 6144,
                swap_sectors: 1024,
                swap_ptype: "82".to_string(),
                swap_uuid: "00112233445566778899aabbccddeeff".to_string(),
                swap_label: label.to_string(),
                swap_partuuid: if is_gpt { Some("guid".to_string()) } else { None },
            }),
            expected_new_sectors: None,
            old_sectors: 4096,
            is_gpt,
        }),
        skip_reason: None,
    }
}

/// A machine that replies to every job, and notes what it was asked.
struct Machine {
    plan: Option<GrowPlan>,
    /// What each command replies, by the start of its command line.
    exits: Vec<(&'static str, Option<i32>)>,
    outputs: Vec<(&'static str, Option<(i32, &'static str)>)>,
    absent: Vec<Tool>,
    sizes: Vec<Option<u64>>,
    backup: bool,
    header: Option<u64>,
    mounts: bool,
    kind: Option<FsKind>,
    log: Vec<String>,
    phases: Vec<Phase>,
}

fn machine(plan: GrowPlan) -> Machine {
    Machine {
        plan: Some(plan),
        exits: vec![],
        outputs: vec![],
        absent: vec![],
        sizes: vec![],
        backup: false,
        header: None,
        mounts: true,
        kind: None,
        log: vec![],
        phases: vec![],
    }
}

impl Machine {
    fn run(&mut self, policy: &GrowPolicy) -> GrowOutcome {
        let mut run = GrowRun::start("/dev/sda", policy);
        for _ in 0..2001 {
            if self.phases.last() != Some(&run.phase) {
                self.phases.push(run.phase);
            }
            let reply = match run.job() {
                Job::ReadGeometry => Reply::Geometry(Some((30000, 512))),
                Job::Analyze => Reply::Plan(self.plan.take().unwrap()),
                Job::FindTools => Reply::Present(
                    run.needed_tools().iter().map(|t| !self.absent.contains(t)).collect(),
                ),
                Job::Run(c) => {
                    let line = run.command_line(c);
                    let mut text = format!("{} {}", tool_name(line.tool), line.args.join(" "));
                    if let Some(stdin) = &line.stdin {
                        text = format!("{text} < {stdin:?}");
                    }
                    let exit = self
                        .exits
                        .iter()
                        .find(|(p, _)| text.starts_with(p))
                        .map(|(_, e)| *e)
                        .unwrap_or(Some(0));
                    self.log.push(text);
                    Reply::Exit(exit)
                }
                Job::Capture(c) => {
                    let line = run.command_line(c);
                    let text = format!("{} {}", tool_name(line.tool), line.args.join(" "));
                    let out = self
                        .outputs
                        .iter()
                        .find(|(p, _)| text.starts_with(p))
                        .map(|(_, o)| *o)
                        .unwrap_or(Some((0, "")));
                    self.log.push(text);
                    Reply::Output(out.map(|(c, t)| (c, captured_text(&t.as_bytes().to_vec()))))
                }
                Job::FindBackup => Reply::Answer(self.backup),
                Job::ReadHeader => Reply::Header(self.header),
                Job::ReadTolerance => Reply::Tolerance(2048),
                Job::ReadPartSize(n) => {
                    self.log.push(format!("size {n}"));
                    Reply::Size(if self.sizes.is_empty() { Some(50000) } else { self.sizes.remove(0) })
                }
                Job::Sleep => Reply::Done,
                Job::Mount => {
                    self.log.push(format!("mount {} {}", run.mount_type(), run.target));
                    Reply::Answer(self.mounts)
                }
                Job::Unmount => {
                    self.log.push("umount".to_string());
                    Reply::Done
                }
                Job::PrepareLvm => Reply::Done,
                Job::PrepareLook => {
                    self.log.push("look".to_string());
                    Reply::Done
                }
                Job::SniffTarget => Reply::Kind(self.kind),
                Job::Finish(f) => return run.report(f),
            };
            run.advance(reply);
        }
        panic!("the run does not end");
    }
}

#[test]
fn disabled_runs_do_nothing() {
    let run = GrowRun::start("/dev/sda", &GrowPolicy::default());
    let Job::Finish(f) = run.job() else { panic!() };
    let o = run.report(f);
    assert_eq!(o.status, Status::Disabled);
    assert_eq!(render_result(&o), "status=disabled\ndevice=/dev/sda\n");
}

#[test]
fn unreadable_sizes_fail() {
    let mut run = GrowRun::start("/dev/sda", &policy(None));
    run.advance(Reply::Geometry(None));
    let Job::Finish(f) = run.job() else { panic!() };
    let o = run.report(f);
    assert_eq!(o.status, Status::Failed);
    assert_eq!(o.reason, "cannot read device size");
}

#[test]
fn plans_that_skip_are_reported() {
    let mut m = machine(GrowPlan { action: None, skip_reason: Some("no partitions".to_string()) });
    let o = m.run(&policy(None));
    assert_eq!(o.status, Status::Skipped);
    assert_eq!(o.reason, "no partitions");
    let o = machine(GrowPlan { action: None, skip_reason: None }).run(&policy(None));
    assert_eq!(o.reason, "not growable");
}

#[test]
fn missing_tools_skip() {
    let mut m = machine(last(FsKind::Ext, false));
    m.absent = vec![Tool::Resize2fs, Tool::Sfdisk];
    let o = m.run(&policy(None));
    assert_eq!(o.status, Status::Skipped);
    assert_eq!(o.reason, "tools not bundled: sfdisk, resize2fs");
    assert!(m.log.is_empty());
}

#[test]
fn the_last_ext_partition_grows() {
    let mut m = machine(last(FsKind::Ext, true));
    m.sizes = vec![Some(10000), Some(19000), Some(19500)];
    let o = m.run(&policy(None));
    assert_eq!(
        m.log,
        &[
            "sfdisk --relocate gpt-bak-std /dev/sda",
            "sfdisk -N 2 /dev/sda < \", +\\n\"",
            "size 2",
            "size 2",
            "size 2",
            "e2fsck -fp /dev/sda2",
            "resize2fs /dev/sda2",
        ]
    );
    assert_eq!(
        m.phases,
        &[
            Phase::Analyze,
            Phase::Partition,
            Phase::KernelReread,
            Phase::Filesystem,
            Phase::Done,
        ]
    );
    assert_eq!(o.status, Status::Expanded);
    assert_eq!(o.old_bytes, 10000 * 512);
    assert_eq!(o.new_bytes, 19500 * 512);
    assert_eq!(
        render_result(&o),
        "status=expanded\ndevice=/dev/sda\nold_bytes=5120000\nnew_bytes=9984000\n"
    );
}

#[test]
fn relocation_that_fails_is_looked_into() {
    let run = |backup, header| {
        let mut m = machine(last(FsKind::Ext, true));
        m.exits = vec![("sfdisk --relocate", Some(1))];
        m.backup = backup;
        m.header = header;
        m.run(&policy(None))
    };
    assert_eq!(run(true, None).status, Status::Expanded);
    let o = run(false, Some(9));
    assert_eq!(o.status, Status::Skipped);
    assert_eq!(
        o.reason,
        "gpt backup header relocate failed (repair: sfdisk --relocate gpt-bak-std /dev/sda)"
    );
    let o = run(false, None);
    assert_eq!(o.status, Status::Failed);
    assert_eq!(o.reason, "gpt relocate failed (state unknown)");
}

#[test]
fn growing_that_fails_depends_on_the_table() {
    let run = |gpt, exit| {
        let mut m = machine(last(FsKind::Ext, gpt));
        m.exits = vec![("sfdisk -N", exit)];
        m.run(&policy(None))
    };
    let o = run(false, Some(3));
    assert_eq!((o.status, o.reason.as_str()), (Status::Skipped, "sfdisk partition grow failed (exit 3)"));
    let o = run(true, Some(-1));
    assert_eq!((o.status, o.reason.as_str()), (Status::Partial, "sfdisk partition grow failed (exit -1)"));
    assert_eq!(o.old_bytes, 5120000);
    assert_eq!(
        o.manual_cmd,
        "printf ', +' | sfdisk -N 2 /dev/sda && e2fsck -fp /dev/sda2 && resize2fs /dev/sda2"
    );
    let o = run(true, None);
    assert_eq!((o.status, o.reason.as_str()), (Status::Failed, "sfdisk spawn failed"));
}

#[test]
fn kernels_that_do_not_reread_are_told_and_given_up() {
    let mut m = machine(last(FsKind::Xfs, false));
    m.sizes = vec![Some(10000); 201];
    let o = m.run(&policy(None));
    assert_eq!(m.log.iter().filter(|l| *l == "size 2").count(), 201);
    assert_eq!(m.log[101], "size 2");
    assert_eq!(m.log[102], "partx -u /dev/sda");
    assert_eq!((o.status, o.reason.as_str()), (Status::Failed, "kernel partition reread failed"));
    assert_eq!(
        o.manual_cmd,
        "mount -t xfs /dev/sda2 /mnt && xfs_growfs -d /mnt && umount /mnt"
    );
    // A partition that the kernel does not know is added.
    let mut m = machine(last(FsKind::Xfs, false));
    m.sizes = vec![None; 101];
    assert_eq!(m.run(&policy(None)).status, Status::Expanded);
    assert!(m.log.contains(&"partx -a /dev/sda".to_string()));
}

#[test]
fn partitions_without_room_are_not_waited_for() {
    let mut plan = last(FsKind::Ext, false);
    if let Some(GrowAction::PartitionGrow { expected_new_sectors, .. }) = &mut plan.action {
        *expected_new_sectors = Some(12048);
    }
    let mut m = machine(plan);
    m.sizes = vec![None];
    let o = m.run(&policy(None));
    assert_eq!(m.log.iter().filter(|l| *l == "size 2").count(), 1);
    assert_eq!(o.new_bytes, 10000 * 512);
}

#[test]
fn filesystems_that_do_not_grow_leave_a_command() {
    let run = |fs, exits: Vec<(&'static str, Option<i32>)>| {
        let mut m = machine(last(fs, false));
        m.exits = exits;
        let o = m.run(&policy(None));
        assert_eq!(o.status, Status::Partial);
        assert!(!o.manual_cmd.is_empty());
        o.reason
    };
    let p = |t: &str| format!("partition expanded; filesystem resize failed ({t})");
    assert_eq!(
        run(FsKind::Ext, vec![("e2fsck", Some(4))]),
        p("e2fsck rejected (exit 4, filesystem inconsistent)")
    );
    assert_eq!(run(FsKind::Ext, vec![("e2fsck", None)]), p("e2fsck spawn failed"));
    assert_eq!(run(FsKind::Ext, vec![("resize2fs", Some(1))]), p("resize2fs failed (exit 1)"));
    assert_eq!(run(FsKind::Ext, vec![("resize2fs", None)]), p("resize2fs spawn failed"));
    assert_eq!(run(FsKind::Xfs, vec![("xfs_growfs", Some(1))]), p("xfs_growfs failed"));
    assert_eq!(run(FsKind::Btrfs, vec![("btrfs", None)]), p("btrfs filesystem resize failed"));
    assert_eq!(
        run(FsKind::Ntfs, vec![("ntfsresize -n", Some(1))]),
        p("ntfsresize dry-run rejected (exit 1, volume dirty or hibernated)")
    );
    assert_eq!(run(FsKind::Ntfs, vec![("ntfsresize -ff", Some(2))]), p("ntfsresize failed (exit 2)"));
    assert_eq!(run(FsKind::Ntfs, vec![("ntfsresize -ff", None)]), p("ntfsresize spawn failed"));
    // The check of ext may have repaired something.
    let mut m = machine(last(FsKind::Ext, false));
    m.exits = vec![("e2fsck", Some(2))];
    assert_eq!(m.run(&policy(None)).status, Status::Expanded);
}

#[test]
fn mounted_filesystems_are_unmounted_again() {
    let mut m = machine(last(FsKind::Btrfs, false));
    m.run(&policy(None));
    let tail: Vec<&str> = m.log.iter().rev().take(3).rev().map(|s| s.as_str()).collect();
    assert_eq!(
        tail,
        &["mount btrfs /dev/sda2", "btrfs filesystem resize max /tmp/.growmnt", "umount"]
    );
    let mut m = machine(last(FsKind::Xfs, false));
    m.mounts = false;
    let o = m.run(&policy(None));
    assert_eq!(
        o.reason,
        "partition expanded; filesystem resize failed (XFS kernel support unavailable)"
    );
    let mut m = machine(last(FsKind::Btrfs, false));
    m.mounts = false;
    assert!(m.run(&policy(None)).reason.contains("Btrfs kernel support unavailable"));
}

#[test]
fn whole_disk_filesystems_grow_without_a_table() {
    let plan = || GrowPlan {
        action: Some(GrowAction::FilesystemOnly { fs: FsKind::Ntfs, fs_dev: "/dev/sda".to_string() }),
        skip_reason: None,
    };
    let mut m = machine(plan());
    let o = m.run(&policy(None));
    assert_eq!(m.log, &["ntfsresize -n -P /dev/sda", "ntfsresize -ff -P /dev/sda"]);
    assert_eq!(m.phases, &[Phase::Analyze, Phase::Filesystem, Phase::Done]);
    assert_eq!((o.status, o.old_bytes, o.new_bytes), (Status::Expanded, 0, 30000 * 512));
    let mut m = machine(plan());
    m.exits = vec![("ntfsresize", Some(1))];
    let o = m.run(&policy(None));
    assert_eq!(o.status, Status::Skipped);
    assert_eq!(o.manual_cmd, "");
    let mut m = machine(plan());
    m.absent = vec![Tool::Ntfsresize, Tool::Sfdisk];
    assert_eq!(m.run(&policy(None)).reason, "tools not bundled: ntfsresize");
}

#[test]
fn swap_makes_way_for_root() {
    let mut m = machine(surgery(false, "my swap"));
    let o = m.run(&policy(None));
    assert_eq!(
        m.log,
        &[
            "sfdisk --delete /dev/sda 2",
            "sfdisk -N 1 /dev/sda < \", 26928, type=83\\n\"",
            "sfdisk -N 2 /dev/sda < \"28976, 1024, type=82\\n\"",
            "size 1",
            "size 2",
            "mkswap -U 00112233-4455-6677-8899-aabbccddeeff -L my swap /dev/sda2",
            "e2fsck -fp /dev/sda1",
            "resize2fs /dev/sda1",
        ]
    );
    assert_eq!((o.status, o.old_bytes, o.new_bytes), (Status::Expanded, 4096 * 512, 26928 * 512));
    // On a GPT the last usable block is read after the move, and the
    // partition gets its GUID back.
    let mut m = machine(surgery(true, ""));
    m.header = Some(29966);
    let o = m.run(&policy(None));
    assert_eq!(
        m.log,
        &[
            "sfdisk --relocate gpt-bak-std /dev/sda",
            "sfdisk --delete /dev/sda 2",
            "sfdisk -N 1 /dev/sda < \", 26895, type=83\\n\"",
            "sfdisk -N 2 /dev/sda < \"28943, 1024, type=82\\n\"",
            "sfdisk --part-uuid /dev/sda 2 guid",
            "size 1",
            "size 2",
            "mkswap -U 00112233-4455-6677-8899-aabbccddeeff /dev/sda2",
            "e2fsck -fp /dev/sda1",
            "resize2fs /dev/sda1",
        ]
    );
    assert_eq!(o.status, Status::Expanded);
}

#[test]
fn surgery_stops_before_the_table_is_touched() {
    let mut m = machine(surgery(true, ""));
    let o = m.run(&policy(None));
    assert_eq!((o.status, o.reason.as_str()), (Status::Failed, "cannot re-read GPT header after relocate"));
    let run = |header| {
        let mut m = machine(surgery(true, ""));
        m.header = Some(header);
        m.run(&policy(None))
    };
    let o = run(1022);
    assert_eq!(
        (o.status, o.reason.as_str()),
        (Status::Failed, "surgery plan arithmetic underflow (abnormal last usable lba)")
    );
    let o = run(3000);
    assert_eq!(
        (o.status, o.reason.as_str()),
        (Status::Failed, "surgery plan arithmetic underflow (root start)")
    );
    // The backup of a GPT has been moved by then; an MBR is as it was.
    let mut m = machine(surgery(true, ""));
    m.header = Some(29966);
    m.exits = vec![("sfdisk --delete", Some(1))];
    let o = m.run(&policy(None));
    assert_eq!((o.status, o.reason.as_str()), (Status::Partial, "swap delete failed (exit 1)"));
    assert_eq!(
        o.manual_cmd,
        "sfdisk --delete /dev/sda 2 && printf ', 26895, type=83' | sfdisk -N 1 /dev/sda && \
         printf '28943, 1024, type=82' | sfdisk -N 2 /dev/sda; \
         sfdisk --part-uuid /dev/sda 2 guid; \
         mkswap -U 00112233-4455-6677-8899-aabbccddeeff /dev/sda2; \
         e2fsck -fp /dev/sda1 && resize2fs /dev/sda1"
    );
    // Where the backup stands at the end already, nothing has been moved.
    let still = |header, delete| {
        let mut m = machine(surgery(true, ""));
        m.header = Some(header);
        m.backup = true;
        m.exits = vec![("sfdisk --relocate", Some(1)), ("sfdisk --delete", delete)];
        m.run(&policy(None))
    };
    let o = still(29966, Some(1));
    assert_eq!((o.status, o.reason.as_str()), (Status::Skipped, "swap delete failed (exit 1)"));
    assert_eq!(still(29966, Some(0)).status, Status::Expanded);
    assert_eq!(still(29966, None).status, Status::Failed);
    assert_eq!(still(1022, Some(0)).status, Status::Skipped);
    assert_eq!(still(3000, Some(0)).status, Status::Skipped);
    let mut plan = surgery(false, "");
    if let Some(GrowAction::PartitionGrow { surgery: Some(s), .. }) = &mut plan.action {
        s.swap_sectors = 30001;
    }
    let o = machine(plan).run(&policy(None));
    assert_eq!(
        (o.status, o.reason.as_str()),
        (Status::Skipped, "surgery plan arithmetic underflow (abnormal last usable lba)")
    );
    let mut m = machine(surgery(false, ""));
    m.exits = vec![("sfdisk --delete", Some(1))];
    let o = m.run(&policy(None));
    assert_eq!((o.status, o.reason.as_str()), (Status::Skipped, "swap delete failed (exit 1)"));
    let mut m = machine(surgery(false, ""));
    m.exits = vec![("sfdisk --delete", None)];
    assert_eq!(m.run(&policy(None)).status, Status::Failed);
}

#[test]
fn surgery_that_fails_midway_says_how_to_go_on() {
    let run = |gpt: bool, label: &'static str, exits: Vec<(&'static str, Option<i32>)>| {
        let mut m = machine(surgery(gpt, label));
        m.header = Some(29966);
        m.exits = exits;
        m.run(&policy(None))
    };
    let o = run(false, "a b;c", vec![("sfdisk -N 1", Some(1))]);
    assert_eq!(o.status, Status::Partial);
    assert_eq!(o.reason, "swap deleted; target unchanged (root expand exit 1)");
    assert_eq!(
        o.manual_cmd,
        "printf '6144, 1024, type=82' | sfdisk -N 2 /dev/sda; \
         mkswap -U 00112233-4455-6677-8899-aabbccddeeff -L a_b_c /dev/sda2"
    );
    assert_eq!((o.old_bytes, o.new_bytes), (0, 0));
    let o = run(false, "", vec![("sfdisk -N 1", None)]);
    assert_eq!((o.status, o.reason.as_str()), (Status::Failed, "sfdisk spawn failed"));
    assert!(!o.manual_cmd.is_empty());
    let o = run(true, "", vec![("sfdisk -N 2", Some(5))]);
    assert_eq!(o.status, Status::Partial);
    assert_eq!(o.reason, "target expanded; swap missing (recreate exit 5)");
    assert_eq!(
        o.manual_cmd,
        "printf '28943, 1024, type=82' | sfdisk -N 2 /dev/sda; \
         sfdisk --part-uuid /dev/sda 2 guid; \
         mkswap -U 00112233-4455-6677-8899-aabbccddeeff /dev/sda2"
    );
    assert_eq!(o.old_bytes, 4096 * 512);
    let o = run(true, "", vec![("sfdisk --part-uuid", None)]);
    assert_eq!(o.status, Status::Partial);
    assert_eq!(
        o.reason,
        "target expanded; swap recreation incomplete (part-uuid restore failed)"
    );
    assert_eq!(
        o.manual_cmd,
        "mkswap -U 00112233-4455-6677-8899-aabbccddeeff /dev/sda2; \
         sfdisk --part-uuid /dev/sda 2 guid"
    );
    let o = run(false, "", vec![("mkswap", Some(2))]);
    assert_eq!(o.reason, "target expanded; swap recreation incomplete (mkswap exit 2)");
    assert_eq!(o.new_bytes, 26928 * 512);
    let o = run(false, "", vec![("mkswap", None)]);
    assert_eq!((o.status, o.reason.as_str()), (Status::Failed, "mkswap spawn failed"));
    let o = run(false, "", vec![("resize2fs", Some(1))]);
    assert_eq!(o.status, Status::Partial);
    assert_eq!(o.reason, "swap rebuilt; fs resize failed (resize2fs failed (exit 1))");
    assert_eq!(o.manual_cmd, "e2fsck -fp /dev/sda1 && resize2fs /dev/sda1");
}

#[test]
fn surgery_waits_for_both_partitions() {
    let mut m = machine(surgery(false, ""));
    m.sizes = vec![Some(26928), Some(1023)];
    let mut sizes = vec![Some(26928)];
    sizes.extend(vec![Some(1023); 201]);
    m.sizes = sizes;
    let o = m.run(&policy(None));
    assert_eq!((o.status, o.reason.as_str()), (Status::Failed, "kernel partition reread failed"));
    assert_eq!(o.manual_cmd, "mkswap -U 00112233-4455-6677-8899-aabbccddeeff /dev/sda2");
}

fn volumes(list: &'static str) -> Machine {
    let mut m = machine(last(FsKind::Lvm, false));
    m.outputs = vec![
        ("lvm pvs", Some((0, "  vg0 \n"))),
        ("lvm lvs --noheadings -o lv_name", Some((0, list))),
        ("lvm lvs --noheadings -o dm_path", Some((0, "  /dev/mapper/vg0-root\n"))),
    ];
    m.kind = Some(FsKind::Ext);
    m
}

#[test]
fn the_only_volume_grows() {
    let mut m = volumes("  root -wi-a-----\n");
    let o = m.run(&policy(None));
    assert_eq!(
        &m.log[m.log.len() - 8..],
        &[
            "lvm pvresize /dev/sda2",
            "lvm pvs --noheadings -o vg_name /dev/sda2",
            "lvm lvs --noheadings -o lv_name,lv_attr vg0",
            "lvm vgchange -ay vg0",
            "lvm lvextend -l +100%FREE /dev/vg0/root",
            "lvm lvs --noheadings -o dm_path /dev/vg0/root",
            "e2fsck -fp /dev/mapper/vg0-root",
            "resize2fs /dev/mapper/vg0-root",
        ]
    );
    assert_eq!(o.status, Status::Expanded);
}

#[test]
fn one_of_several_volumes_must_be_declared() {
    let list = "  root -wi-a-----\n  home -wi-a-----\n";
    let mut m = volumes(list);
    let o = m.run(&policy(None));
    assert_eq!(o.status, Status::Skipped);
    assert_eq!(
        o.reason,
        "volume group vg0 has 2 logical volumes; \
         declare one via grow.conf 'lv=<name>' (found: root, home)"
    );
    assert_eq!(
        m.log,
        &[
            "look",
            "lvm pvs --noheadings -o vg_name /dev/sda2",
            "lvm lvs --noheadings -o lv_name,lv_attr vg0",
        ]
    );
    assert_eq!(m.phases, &[Phase::Analyze, Phase::Done]);
    assert_eq!(volumes(list).run(&policy(Some("var"))).status, Status::Skipped);
    let mut m = volumes(list);
    assert_eq!(m.run(&policy(Some("home"))).status, Status::Expanded);
    assert!(m.log.contains(&"lvm lvextend -l +100%FREE /dev/vg0/home".to_string()));
    assert!(volumes("").run(&policy(None)).reason.contains("has 0 logical volumes"));
}

#[test]
fn pools_have_no_filesystem() {
    let mut m = volumes("  pool twi-aotz--\n");
    assert_eq!(m.run(&policy(None)).status, Status::Expanded);
    assert_eq!(m.log.last().unwrap(), "lvm lvextend -l +100%FREE /dev/vg0/pool");
}

#[test]
fn volumes_that_do_not_grow_are_explained() {
    let run = |change: &dyn Fn(&mut Machine)| {
        let mut m = volumes("root -wi-a-----");
        change(&mut m);
        let o = m.run(&policy(None));
        assert_eq!(o.status, Status::Partial);
        let head = "partition expanded; filesystem resize failed (";
        o.reason[head.len()..o.reason.len() - 1].to_string()
    };
    assert_eq!(run(&|m| m.exits = vec![("lvm pvresize", Some(5))]), "pvresize failed (exit 5)");
    assert_eq!(run(&|m| m.exits = vec![("lvm pvresize", None)]), "lvm spawn failed");
    assert_eq!(run(&|m| m.outputs[0].1 = Some((5, ""))), "pvs failed (exit 5)");
    assert_eq!(run(&|m| m.outputs[0].1 = Some((0, " \n"))), "PV not in any volume group");
    assert_eq!(run(&|m| m.outputs[1].1 = Some((5, ""))), "lvs failed (exit 5)");
    assert_eq!(run(&|m| m.exits = vec![("lvm vgchange", Some(5))]), "vgchange -ay failed (exit 5)");
    assert_eq!(run(&|m| m.exits = vec![("lvm lvextend", Some(5))]), "lvextend failed (exit 5)");
    assert_eq!(run(&|m| m.outputs[2].1 = Some((5, ""))), "lvs dm_path failed (exit 5)");
    assert_eq!(run(&|m| m.outputs[2].1 = Some((0, ""))), "cannot resolve LV device path");
    assert_eq!(run(&|m| m.outputs[2].1 = None), "lvm spawn failed");
    assert_eq!(run(&|m| m.kind = None), "cannot open LV device /dev/mapper/vg0-root");
    assert_eq!(run(&|m| m.kind = Some(FsKind::Lvm)), "LV filesystem not growable (Lvm)");
    assert_eq!(run(&|m| m.kind = Some(FsKind::Iso9660)), "LV filesystem not growable (Iso9660)");
    assert_eq!(
        run(&|m| m.absent = vec![Tool::E2fsck]),
        "tools not bundled: e2fsck (LV /dev/mapper/vg0-root)"
    );
}

#[test]
fn printed_bytes_become_text() {
    assert_eq!(captured_text(&b"  vg0 \n".to_vec()), "vg0");
    assert_eq!(captured_text(&vec![b'a', 0xff, b'\n']), "a\u{fffd}");
}

#[test]
fn tools_stand_on_the_medium() {
    assert_eq!(tool_path(Tool::Sfdisk), "/media/cdrom/grow/sfdisk");
    assert_eq!(tool_path(Tool::XfsGrowfs), "/media/cdrom/grow/xfs_growfs");
    for (t, n) in [
        (Tool::Mkswap, "mkswap"),
        (Tool::Partx, "partx"),
        (Tool::E2fsck, "e2fsck"),
        (Tool::Resize2fs, "resize2fs"),
        (Tool::Ntfsresize, "ntfsresize"),
        (Tool::Btrfs, "btrfs"),
        (Tool::Lvm, "lvm"),
    ] {
        assert_eq!(tool_name(t), n);
    }
    assert_eq!(manual_cmd_for_fs(FsKind::Ntfs, "/dev/sda2"), "ntfsresize /dev/sda2");
    assert_eq!(
        manual_cmd_for_fs(FsKind::Btrfs, "/dev/sda2"),
        "mount -t btrfs /dev/sda2 /mnt && btrfs filesystem resize max /mnt && umount /mnt"
    );
    assert_eq!(manual_cmd_for_fs(FsKind::Fat, "/dev/sda2"), "");
}

// Reports

#[test]
fn results_read_back() {
    for status in [
        Status::Disabled,
        Status::Expanded,
        Status::Skipped,
        Status::Partial,
        Status::Failed,
    ] {
        let o = GrowOutcome {
            status,
            device: "/dev/sda".to_string(),
            reason: "a = b".to_string(),
            manual_cmd: "x; y".to_string(),
            old_bytes: 1,
            new_bytes: u64::MAX,
        };
        let back = read_result(Some(&render_result(&o))).unwrap();
        assert_eq!(back.status, o.status);
        assert_eq!(back.device, o.device);
        assert_eq!(back.reason, o.reason);
        assert_eq!(back.manual_cmd, o.manual_cmd);
        assert_eq!(back.old_bytes, o.old_bytes);
        assert_eq!(back.new_bytes, o.new_bytes);
    }
}

#[test]
fn results_are_read_leniently() {
    assert!(read_result(None).is_none());
    assert!(read_result(Some("device=/dev/sda\n")).is_none());
    let o = read_result(Some("status = what\nold_bytes=x\nnoise\nnew_bytes=5\r\nnew_bytes=7\n")).unwrap();
    assert_eq!(o.status, Status::Failed);
    assert_eq!(o.old_bytes, 0);
    assert_eq!(o.new_bytes, 7);
    assert_eq!(o.device, "");
}

#[test]
fn phases_read_back() {
    assert_eq!(render_phase(Phase::KernelReread), "phase=kernel-reread\n");
    for (p, t) in [
        (Phase::Analyze, "Analyzing disk layout"),
        (Phase::Partition, "Resizing partition table"),
        (Phase::KernelReread, "Syncing kernel partition table"),
        (Phase::Filesystem, "Expanding filesystem"),
        (Phase::Done, "Finishing"),
    ] {
        assert_eq!(read_status_line(Some(&render_phase(p))).as_deref(), Some(t));
    }
    assert_eq!(read_status_line(Some("phase=other\n")).as_deref(), Some("Working"));
    assert_eq!(read_status_line(Some("other\n")), None);
    assert_eq!(read_status_line(Some("")), None);
    assert_eq!(read_status_line(None), None);
}
