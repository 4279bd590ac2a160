use nocruft::classify::{is_build_artifact, is_genuine_creation, is_history_file, is_system_path};
use nocruft::cli::{NocruftFlags, PatternSet};
use nocruft::hostpath::HostPath;
use nocruft::output::{
    emit, emit_plain, filter_event, insert_path, keeps, probe, warn_delete_incompatible, Deletion,
    Emission, PathFacts,
};
use nocruft::pathres::CapturedEvent;

fn path(s: &str) -> HostPath {
    HostPath::from_text(s)
}

fn event(raw: &str, syscall: u32) -> CapturedEvent {
    CapturedEvent {
        ts_ns: 11,
        pid: 12,
        syscall,
        dirfd: -100,
        flags: 13,
        truncated: false,
        raw_path: raw.to_string(),
        resolved_base: None,
        resolve_note: None,
    }
}

fn plain() -> NocruftFlags {
    NocruftFlags::default()
}

const HERE: PathFacts = PathFacts { exists: true, btime_ns: None };

#[test]
fn system_paths() {
    for s in [
        "/dev/null", "/proc/1/x", "/sys/a", "/run/user/1000/bus", "/var/run/x",
        "/tmp/.X11-unix/X0", "/tmp/.ICE-unix/1", "/tmp/.X1-unix/y", "/tmp/.X-unix/y",
    ] {
        assert!(is_system_path(&path(s)), "{}", s);
    }
    for s in [
        "/dev", "/device/x", "/home/dev/x", "/tmp/.X11-unix", "/tmp/.X11-unixx/y",
        "/tmp/x/.X11-unix/y", "/tmp/.Xunix/y", "dev/null", "/home/me/x",
    ] {
        assert!(!is_system_path(&path(s)), "{}", s);
    }
    assert!(!is_system_path(&HostPath { bytes: b"/dev/\xff".to_vec() }));
}

#[test]
fn history_files() {
    for n in [
        ".bash_history", ".zsh_history", ".zhistory", ".python_history", ".node_repl_history",
        ".mysql_history", ".psql_history", ".rediscli_history", ".sqlite_history", ".lesshst",
        ".viminfo", ".lua_history", ".gdb_history",
    ] {
        assert!(is_history_file(&path(&format!("/home/me/{}", n))), "{}", n);
    }
    for s in ["/home/me/bash_history", "/home/.bash_history/x", "/", "/home/me/.bash_history2"] {
        assert!(!is_history_file(&path(s)), "{}", s);
    }
    assert!(is_history_file(&HostPath { bytes: b"/\xff/.viminfo".to_vec() }));
}

#[test]
fn build_artifacts() {
    for s in [
        "/w/.git", "/w/.git/HEAD", "/w/node_modules/x/y", "/w/__pycache__/a", "/w/.next/a",
        "/w/.pytest_cache", "/w/.mypy_cache/a", "/w/.ruff_cache", "/w/.tox/a",
        "/w/target/debug/a", "/w/target/release/a", "/w/target/wasm32-unknown/a",
        "/w/target/aarch64-x", "/w/target/x86_64-x/b", "/w/a.pyc", "/w/a.pyo",
    ] {
        assert!(is_build_artifact(&path(s)), "{}", s);
    }
    for s in [
        "/w/git", "/w/.github/x", "/w/target", "/w/target/debug", "/w/target/doc/x",
        "/wtarget/debug/x", "/w/.pyc", "/w/a.py", "/w/pyc",
    ] {
        assert!(!is_build_artifact(&path(s)), "{}", s);
    }
    assert!(is_build_artifact(&HostPath { bytes: b"/\xff/.git/x".to_vec() }));
    assert!(!is_build_artifact(&HostPath { bytes: b"/\xff/target/debug/x".to_vec() }));
}

#[test]
fn genuine_creations() {
    let open = event("/x", 3);
    assert!(is_genuine_creation(&open, Some(10), 10));
    assert!(is_genuine_creation(&open, Some(11), 10));
    assert!(!is_genuine_creation(&open, Some(9), 10));
    assert!(is_genuine_creation(&open, None, 10));
    assert!(is_genuine_creation(&event("/x", 4), Some(9), 10));
}

fn kept(p: &str, facts: PathFacts, flags: &NocruftFlags, inc: bool, exc: bool) -> bool {
    keeps(&path(p), &event(p, 3), &facts, flags, 10, inc, exc)
}

#[test]
fn order_of_the_rules() {
    let gone = PathFacts { exists: false, btime_ns: None };
    assert!(kept("/w/x", HERE, &plain(), false, false));
    assert!(!kept("/w/x", gone, &plain(), false, false));
    assert!(!kept("/w/x", gone, &plain(), true, false));
    assert!(kept("/w/x", gone, &NocruftFlags { include_deleted: true, ..plain() }, false, false));
    assert!(kept("/dev/x", HERE, &plain(), true, true));
    assert!(!kept("/w/x", HERE, &plain(), false, true));
    assert!(!kept("/dev/x", HERE, &plain(), false, false));
    assert!(kept("/dev/x", HERE, &NocruftFlags { include_system: true, ..plain() }, false, false));
    let old = PathFacts { exists: true, btime_ns: Some(9) };
    assert!(!kept("/w/x", old, &plain(), false, false));
    assert!(kept("/w/x", old, &NocruftFlags { include_modified: true, ..plain() }, false, false));
    assert!(!kept("/w/.viminfo", HERE, &plain(), false, false));
    assert!(kept("/w/.viminfo", HERE, &NocruftFlags { include_history: true, ..plain() }, false, false));
    assert!(!kept("/w/.git", HERE, &plain(), false, false));
    assert!(kept("/w/.git", HERE, &NocruftFlags { include_build: true, ..plain() }, false, false));
}

#[test]
fn more_flags_report_more() {
    let flags = NocruftFlags {
        include_deleted: true,
        include_system: true,
        include_modified: true,
        include_history: true,
        include_build: true,
        ..plain()
    };
    let old = PathFacts { exists: false, btime_ns: Some(0) };
    for s in ["/w/x", "/dev/x/.git/.viminfo", "/w/a.pyc"] {
        let p = filter_event(&event(s, 3), &old, &flags, 10, &PatternSet::default()).unwrap();
        assert_eq!(p.display(), s);
    }
}

fn patterns(keep: &[&str], drop: &[&str]) -> PatternSet {
    let flags = NocruftFlags {
        force_include: keep.iter().map(|s| s.to_string()).collect(),
        exclude: drop.iter().map(|s| s.to_string()).collect(),
        ..plain()
    };
    PatternSet::compile(&flags).unwrap()
}

#[test]
fn patterns_decide() {
    let none = patterns(&[], &[]);
    let set = patterns(&["/w/keep*"], &["/w/**"]);
    let f = |s: &str, p: &PatternSet| filter_event(&event(s, 4), &HERE, &plain(), 0, p).is_some();
    assert!(f("/w/other", &none));
    assert!(!f("/w/other", &set));
    assert!(f("/w/keep.pyc", &set));
    assert!(f("/v/other", &set));
}

#[test]
fn single_star_stays_between_separators() {
    let f = |s: &str, keep: &[&str], drop: &[&str]| {
        filter_event(&event(s, 3), &HERE, &plain(), 0, &patterns(keep, drop)).map(|p| p.display())
    };
    let deep = Some("/w/sub/x.log".to_string());
    assert_eq!(f("/w/sub/x.log", &[], &["/w/*.log"]), deep);
    assert_eq!(f("/w/sub/x.log", &[], &["/w/*"]), deep);
    assert_eq!(f("/w/sub/x.log", &[], &["/w/sub?x.log"]), deep);
    assert_eq!(f("/w/sub/x.log", &[], &["/w/sub[/]x.log"]), deep);
    assert_eq!(f("/w/x.log", &[], &["/w/*.log"]), None);
    assert_eq!(f("/w/.x.log", &[], &["/w/*.log"]), None);
    assert_eq!(f("/w/x.LOG", &[], &["/w/*.log"]), Some("/w/x.LOG".to_string()));
    for pattern in ["/w/**/*.log", "**/*.log", "/w/**", "/w/*/*.log"] {
        assert_eq!(f("/w/sub/x.log", &[], &[pattern]), None, "{}", pattern);
    }
    assert_eq!(f("/dev/sub/x", &["/dev/*"], &[]), None);
    assert_eq!(f("/dev/sub/x", &["/dev/**"], &[]), Some("/dev/sub/x".to_string()));
}

#[test]
fn path_that_is_not_utf8_is_matched_as_empty_text() {
    let mut ev = event("x", 4);
    ev.resolved_base = Some(HostPath { bytes: b"/\xff".to_vec() });
    assert!(filter_event(&ev, &HERE, &plain(), 0, &patterns(&[], &["/*"])).is_some());
    assert!(filter_event(&ev, &HERE, &plain(), 0, &patterns(&[], &["*"])).is_none());
    let p = filter_event(&ev, &HERE, &plain(), 0, &patterns(&[], &[])).unwrap();
    assert_eq!(p.bytes, b"/\xff/x".to_vec());
}

#[test]
fn probes() {
    let q = probe(&event("/a/./b", 3), &plain()).unwrap();
    assert_eq!(q.path.display(), "/a/b");
    assert!(q.wants_btime);
    assert!(!probe(&event("/a", 4), &plain()).unwrap().wants_btime);
    let flags = NocruftFlags { include_modified: true, ..plain() };
    assert!(!probe(&event("/a", 3), &flags).unwrap().wants_btime);
    assert!(probe(&event("a", 3), &plain()).is_none());
    let mut cut = event("/a", 3);
    cut.truncated = true;
    assert!(probe(&cut, &plain()).is_none());
}

#[test]
fn ordered_insertion() {
    let mut list: Vec<HostPath> = Vec::new();
    let paths = ["/b", "/a-b", "/a/b", "/a", "/b", "/", "/a/b"];
    let new: Vec<bool> = paths.iter().map(|s| insert_path(&mut list, path(s))).collect();
    assert_eq!(new, [true, true, true, true, false, true, false]);
    let shown: Vec<String> = list.iter().map(|p| p.display()).collect();
    assert_eq!(shown, ["/", "/a", "/a/b", "/a-b", "/b"]);
}

#[test]
fn plain_lines() {
    let lines = emit_plain(&vec![path("/a"), path("/b")], &plain());
    assert_eq!(lines, ["", "=== created paths (2) ===", "/a", "/b"]);
    let flags = NocruftFlags { dry_run_delete: true, ..plain() };
    let lines = emit_plain(&vec![path("/a")], &flags);
    assert_eq!(lines, ["", "=== created paths (1) ===", "would delete: /a"]);
    assert_eq!(emit_plain(&Vec::new(), &plain()), ["", "=== created paths (0) ==="]);
}

#[test]
fn ignored_deletions() {
    let flags = NocruftFlags { delete_interactive: true, delete_dangerous: true, ..plain() };
    assert_eq!(
        warn_delete_incompatible(&flags, "--nc-json"),
        [
            "nocruft: --nc-delete-interactive ignored with --nc-json",
            "nocruft: --nc-delete-dangerous ignored with --nc-json",
        ]
    );
    assert!(warn_delete_incompatible(&plain(), "--nc-json").is_empty());
    let flags = NocruftFlags { no_dedupe: true, ..flags };
    match emit(&Vec::new(), &Vec::new(), &flags, 0, &PatternSet::default()) {
        Emission::Events { warnings, .. } => {
            assert_eq!(warnings[0], "nocruft: --nc-delete-interactive ignored with --nc-no-dedupe");
        }
        _ => panic!("not events"),
    }
}

fn deletion(flags: NocruftFlags) -> Deletion {
    match emit(&Vec::new(), &Vec::new(), &flags, 0, &PatternSet::default()) {
        Emission::Summary { deletion, .. } => deletion,
        _ => panic!("not a summary"),
    }
}

#[test]
fn what_is_deleted() {
    let both = || NocruftFlags { delete_interactive: true, delete_dangerous: true, ..plain() };
    assert_eq!(deletion(plain()), Deletion::Nothing);
    assert_eq!(deletion(both()), Deletion::Dangerous);
    assert_eq!(
        deletion(NocruftFlags { delete_interactive: true, ..plain() }),
        Deletion::Interactive
    );
    assert_eq!(deletion(NocruftFlags { dry_run_delete: true, ..both() }), Deletion::Nothing);
}

#[test]
fn json_record() {
    let mut ev = event("x/../y", 5);
    ev.resolved_base = Some(path("/b"));
    let flags = NocruftFlags { json: true, include_deleted: true, ..plain() };
    let facts = PathFacts { exists: false, btime_ns: None };
    match emit(&vec![ev], &vec![facts], &flags, 0, &PatternSet::default()) {
        Emission::Json { records, .. } => {
            let r = &records[0];
            assert_eq!((r.ts_ns, r.pid, r.dirfd, r.flags), (11, 12, -100, 13));
            assert_eq!(r.syscall, "renameat");
            assert_eq!(r.raw_path, "x/../y");
            assert_eq!(r.resolved, "/b/y");
            assert!(!r.truncated && !r.exists);
        }
        _ => panic!("not json"),
    }
}

#[test]
fn json_has_a_record_for_each_event() {
    let events = vec![event("/w/a", 3), event("/dev/x", 3), event("/w/b", 4), event("/w/a", 5)];
    let facts = vec![HERE; 4];
    for no_dedupe in [false, true] {
        let flags = NocruftFlags { json: true, no_dedupe, ..plain() };
        match emit(&events, &facts, &flags, 0, &PatternSet::default()) {
            Emission::Json { records, .. } => {
                let seen: Vec<(&str, &str)> =
                    records.iter().map(|r| (r.syscall, r.resolved.as_str())).collect();
                assert_eq!(seen, [("openat", "/w/a"), ("mkdir", "/w/b"), ("renameat", "/w/a")]);
            }
            _ => panic!("not json"),
        }
    }
}
