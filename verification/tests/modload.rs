//! Kernel modules.

use disktui_lite::loading::{LoadJob, LoadReply};
use disktui_lite::modload::{canonical, stem_of, Attempt, Entry, Finit, ModuleLoader};

fn loader(text: &str) -> ModuleLoader {
    ModuleLoader::new("test", text)
}

fn entry<'a>(l: &'a ModuleLoader, key: &str) -> Option<&'a Entry> {
    l.entries.iter().find(|e| e.key == key)
}

#[test]
fn parse_plain_line_and_deps() {
    let l = loader(
        "kernel/fs/xfs/xfs.ko: kernel/lib/crc32c.ko kernel/crypto/crc32c_generic.ko\n\
         kernel/lib/crc32c.ko:\n",
    );
    let entry = entry(&l, "xfs").unwrap();
    assert_eq!(entry.path, "kernel/fs/xfs/xfs.ko");
    assert_eq!(entry.deps, &["crc32c", "crc32c_generic"]);
}

#[test]
fn parse_folded_continuation_lines() {
    let l = loader(
        "kernel/fs/btrfs/btrfs.ko: kernel/lib/zlib.ko \\\n\tkernel/lib/xxhash.ko \\\n\tkernel/crypto/sha256.ko\nkernel/fs/ext4/ext4.ko:\n",
    );
    let e = entry(&l, "btrfs").unwrap();
    assert_eq!(e.deps, &["zlib", "xxhash", "sha256"]);
    assert!(entry(&l, "ext4").is_some());
}

#[test]
fn malformed_lines_are_skipped() {
    let l = loader("this line has no colon\n\nkernel/a.ko:\n");
    assert_eq!(l.entries.len(), 1);
    assert!(entry(&l, "a").is_some());
}

#[test]
fn diamond_dependency_appears_once() {
    let l = loader("a.ko: c.ko b.ko\nb.ko: c.ko\nc.ko:\n");
    let order = l.resolve_order("a").unwrap();
    assert_eq!(order, &["c", "b", "a"]);
}

#[test]
fn cycle_is_detected() {
    let l = loader("a.ko: b.ko\nb.ko: a.ko\n");
    let err = l.resolve_order("a").unwrap_err();
    assert!(err.contains("cycle"), "unexpected error: {err}");
    assert_eq!(err, "dep of a: dep of b: dependency cycle at 'a'");
}

#[test]
fn dash_underscore_names_resolve() {
    let l = loader("kernel/drivers/md/dm-mod.ko:\n");
    assert_eq!(l.lookup_stem("dm_mod").unwrap(), "dm_mod");
    assert_eq!(l.lookup_stem("dm-mod").unwrap(), "dm_mod");
    assert_eq!(canonical("dm-mod"), "dm_mod");
}

#[test]
fn stem_of_various() {
    assert_eq!(stem_of("kernel/fs/xfs/xfs.ko"), "xfs");
    assert_eq!(stem_of("dm-mod.ko"), "dm-mod");
    assert_eq!(stem_of("noext"), "noext");
}

#[test]
fn stem_of_odd_paths() {
    assert_eq!(stem_of("kernel/noext"), "kernel/noext");
    assert_eq!(stem_of("kernel/x.ko/"), "x");
    assert_eq!(stem_of("kernel/x.ko/."), "x");
    assert_eq!(stem_of("kernel/.."), "kernel/..");
    assert_eq!(stem_of(""), "");
    assert_eq!(stem_of(".ko"), "");
}

#[test]
fn missing_modules_are_named() {
    let l = loader("a.ko: b.ko\n");
    assert_eq!(l.resolve_order("x").unwrap_err(), "'x' not in modules.dep");
    assert_eq!(l.resolve_order("a").unwrap_err(), "dep of a: 'b' not in modules.dep");
}

#[test]
fn dashes_and_underscores_load_the_same() {
    let l = loader("dm-mod.ko: a-b.ko\na_b.ko:\n");
    assert_eq!(l.resolve_order("dm-mod").unwrap(), &["a_b", "dm_mod"]);
    assert_eq!(l.resolve_order("dm_mod").unwrap(), &["a_b", "dm_mod"]);
}

#[test]
fn needs_come_first_and_nothing_else() {
    let l = loader("a.ko: b.ko c.ko\nb.ko: d.ko\nc.ko: d.ko b.ko\nd.ko:\nother.ko: a.ko\n");
    assert_eq!(l.resolve_order("a").unwrap(), &["d", "b", "c", "a"]);
}

#[test]
fn the_last_line_for_a_module_counts() {
    let l = loader("x/a.ko: b.ko\nb.ko:\ny/a.ko:\n");
    assert_eq!(l.entries.len(), 2);
    assert_eq!(entry(&l, "a").unwrap().path, "y/a.ko");
    assert_eq!(l.resolve_order("a").unwrap(), &["a"]);
}

#[test]
fn the_medium_is_added_once() {
    let mut l = ModuleLoader::new(" 6.1.0-9-amd64\n", "a.ko:\n");
    assert_eq!(l.bases, &["/lib/modules/6.1.0-9-amd64"]);
    l.add_media_module_root();
    l.add_media_module_root();
    assert_eq!(
        l.bases,
        &["/lib/modules/6.1.0-9-amd64", "/media/cdrom/grow/modules/6.1.0-9-amd64"]
    );
}

#[test]
fn modules_are_looked_for_in_each_root() {
    let mut l = ModuleLoader::new("6.1", "kernel/a.ko:\n");
    l.add_media_module_root();
    let next = |tried: Vec<Attempt>| match l.finit("a", &tried) {
        Finit::Try(p) => format!("try {p}"),
        Finit::Loaded => "loaded".to_string(),
        Finit::Failed(e) => format!("failed {e}"),
    };
    assert_eq!(next(vec![]), "try /lib/modules/6.1/kernel/a.ko");
    assert_eq!(
        next(vec![Attempt::Missing]),
        "try /media/cdrom/grow/modules/6.1/kernel/a.ko"
    );
    assert_eq!(
        next(vec![Attempt::Missing, Attempt::Missing]),
        "failed kext 'kernel/a.ko' not found in any module root"
    );
    assert_eq!(next(vec![Attempt::Inserted]), "loaded");
    // The kernel has the module already.
    assert_eq!(next(vec![Attempt::Refused(17)]), "loaded");
    assert_eq!(
        next(vec![Attempt::Missing, Attempt::Refused(1)]),
        "failed finit_module /media/cdrom/grow/modules/6.1/kernel/a.ko: EPERM: Operation not permitted"
    );
    assert!(matches!(l.finit("x", &vec![]), Finit::Failed(e) if e == "'x' not in modules.dep"));
    assert_eq!(ModuleLoader::loaded_dir("dm-mod"), "/sys/module/dm_mod");
}

/// Loads a module on a machine that has some modules and some files, and notes
/// which files were inserted.
fn load(
    l: &ModuleLoader,
    name: &str,
    has: &[&str],
    files: &[(&str, Attempt)],
) -> (Result<(), String>, Vec<String>) {
    let mut s = l.load(name);
    let mut inserted = vec![];
    loop {
        let reply = match s.job() {
            LoadJob::Look(dir) => LoadReply::There(has.contains(&dir.as_str())),
            LoadJob::Insert(path) => {
                let a = files.iter().find(|f| f.0 == path).map(|f| f.1).unwrap_or(Attempt::Missing);
                if a == Attempt::Inserted {
                    inserted.push(path);
                }
                LoadReply::Tried(a)
            }
            LoadJob::Done => return (Ok(()), inserted),
            LoadJob::Failed(e) => return (Err(e), inserted),
        };
        s.advance(l, reply);
    }
}

#[test]
fn modules_are_loaded_in_turn() {
    let mut l = ModuleLoader::new("6.1\n", "a.ko: b.ko c.ko\nb.ko: c-x.ko\nc.ko:\nc-x.ko:\n");
    l.add_media_module_root();
    let all = [
        ("/lib/modules/6.1/a.ko", Attempt::Inserted),
        ("/lib/modules/6.1/b.ko", Attempt::Inserted),
        ("/media/cdrom/grow/modules/6.1/c.ko", Attempt::Inserted),
        ("/lib/modules/6.1/c-x.ko", Attempt::Inserted),
    ];
    let (r, inserted) = load(&l, "a", &[], &all);
    assert_eq!(r, Ok(()));
    assert_eq!(
        inserted,
        &[
            "/lib/modules/6.1/c-x.ko",
            "/lib/modules/6.1/b.ko",
            "/media/cdrom/grow/modules/6.1/c.ko",
            "/lib/modules/6.1/a.ko",
        ]
    );
    // What the kernel has is passed over.
    let (r, inserted) = load(&l, "a", &["/sys/module/c_x", "/sys/module/c"], &all);
    assert_eq!(r, Ok(()));
    assert_eq!(inserted, &["/lib/modules/6.1/b.ko", "/lib/modules/6.1/a.ko"]);
    let has = ["/sys/module/a", "/sys/module/b", "/sys/module/c", "/sys/module/c_x"];
    let (r, inserted) = load(&l, "a", &has, &all);
    assert_eq!((r, inserted.len()), (Ok(()), 0));
}

#[test]
fn the_first_failure_ends_loading() {
    let l = ModuleLoader::new("6.1\n", "a.ko: b.ko c.ko\nb.ko:\nc.ko:\n");
    let files = [
        ("/lib/modules/6.1/a.ko", Attempt::Inserted),
        ("/lib/modules/6.1/b.ko", Attempt::Refused(1)),
        ("/lib/modules/6.1/c.ko", Attempt::Inserted),
    ];
    let (r, inserted) = load(&l, "a", &[], &files);
    assert_eq!(
        r.unwrap_err(),
        "finit_module /lib/modules/6.1/b.ko: EPERM: Operation not permitted"
    );
    assert!(inserted.is_empty());
    let (r, inserted) = load(&l, "a", &[], &files[..1]);
    assert_eq!(r.unwrap_err(), "kext 'b.ko' not found in any module root");
    assert!(inserted.is_empty());
    // A module that the kernel has by now counts as loaded.
    let files = [
        ("/lib/modules/6.1/a.ko", Attempt::Inserted),
        ("/lib/modules/6.1/b.ko", Attempt::Refused(17)),
        ("/lib/modules/6.1/c.ko", Attempt::Inserted),
    ];
    let (r, inserted) = load(&l, "a", &[], &files);
    assert_eq!((r, inserted.len()), (Ok(()), 2));
}

#[test]
fn broken_orders_insert_nothing() {
    let files = [("/lib/modules/6.1/c.ko", Attempt::Inserted)];
    let l = ModuleLoader::new("6.1\n", "a.ko: c.ko b.ko\nc.ko:\n");
    let (r, inserted) = load(&l, "a", &[], &files);
    assert_eq!(r.unwrap_err(), "dep of a: 'b' not in modules.dep");
    assert!(inserted.is_empty());
    let l = ModuleLoader::new("6.1\n", "a.ko: c.ko b.ko\nb.ko: a.ko\nc.ko:\n");
    let (r, inserted) = load(&l, "a", &[], &files);
    assert_eq!(r.unwrap_err(), "dep of a: dep of b: dependency cycle at 'a'");
    assert!(inserted.is_empty());
}
