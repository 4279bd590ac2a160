// Whole runs: the records of a traced tree go in, the report comes out. The file
// system is a table of paths and birth times.

use std::collections::HashMap;

use nocruft::bpf_events::{
    decode_event, Event, AT_FDCWD, EV_CHDIR, EV_EXIT_TRACKED, EV_FCHDIR, EV_FORK_TRACKED,
    EV_MKDIRAT, EV_OPENAT_CREATE, EV_OPENAT_DIR,
};
use nocruft::cli::{parse_argv, NocruftFlags, PatternSet};
use nocruft::hostpath::HostPath;
use nocruft::output::{emit, probe, Deletion, Emission, PathFacts};
use nocruft::tracker::State;

const START: u64 = 1_000_000;
const ROOT: u32 = 100;

struct Run {
    state: State,
    files: HashMap<String, u64>,
}

fn record(etype: u32, pid: u32, ppid: u32, dirfd: i32, result_fd: i32, path: &str) -> Event {
    let mut data: Vec<u8> = Vec::new();
    for w in [etype, pid, ppid, dirfd as u32, 0, 0, result_fd as u32, 0] {
        data.extend_from_slice(&w.to_le_bytes());
    }
    data.extend_from_slice(&9u64.to_le_bytes());
    data.extend_from_slice(path.as_bytes());
    data.resize(296, 0);
    decode_event(&data).unwrap()
}

impl Run {
    fn new() -> Run {
        let mut state = State::new();
        state.set_cwd(ROOT, HostPath::from_text("/home/me"));
        Run { state, files: HashMap::new() }
    }

    fn feed(&mut self, ev: Event) {
        let _ = self.state.handle_event(&ev, Err("gone".to_string()));
    }

    fn fork(&mut self, parent: u32, child: u32) {
        self.feed(record(EV_FORK_TRACKED, child, parent, 0, 0, ""));
    }

    fn exit(&mut self, pid: u32) {
        self.feed(record(EV_EXIT_TRACKED, pid, 0, 0, 0, ""));
    }

    fn chdir(&mut self, pid: u32, path: &str) {
        self.feed(record(EV_CHDIR, pid, 0, 0, 0, path));
    }

    fn touch(&mut self, pid: u32, path: &str) {
        self.files.entry(path.to_string()).or_insert(START + 5);
        self.feed(record(EV_OPENAT_CREATE, pid, 0, AT_FDCWD, 0, path));
    }

    fn mkdir(&mut self, pid: u32, path: &str, full: &str) {
        self.files.insert(full.to_string(), START + 5);
        self.feed(record(EV_MKDIRAT, pid, 0, AT_FDCWD, 0, path));
    }

    fn remove(&mut self, path: &str) {
        self.files.remove(path);
    }

    fn emission(&self, flags: &NocruftFlags) -> Emission {
        let patterns = PatternSet::compile(flags).unwrap();
        let mut facts: Vec<PathFacts> = Vec::new();
        for ev in &self.state.events {
            let mut f = PathFacts { exists: false, btime_ns: None };
            if let Some(q) = probe(ev, flags) {
                let btime = self.files.get(&q.path.display()).copied();
                f.exists = btime.is_some();
                if q.wants_btime {
                    f.btime_ns = btime;
                }
            }
            facts.push(f);
        }
        emit(&self.state.events, &facts, flags, START, &patterns)
    }

    fn summary(&self, flags: &NocruftFlags) -> Vec<String> {
        match self.emission(flags) {
            Emission::Summary { lines, paths, .. } => {
                assert_eq!(lines[0], "");
                assert_eq!(lines[1], format!("=== created paths ({}) ===", paths.len()));
                let shown: Vec<String> = paths.iter().map(|p| p.display()).collect();
                if !flags.dry_run_delete {
                    assert_eq!(lines[2..].to_vec(), shown);
                }
                shown
            }
            _ => panic!("not a summary"),
        }
    }
}

fn plain() -> NocruftFlags {
    NocruftFlags::default()
}

fn has(paths: &[String], p: &str) -> bool {
    paths.iter().any(|q| q == p)
}

#[test]
fn basic_creation_is_reported() {
    let script = "touch /tmp/nocruft-it-basic/a";
    let argv = ["--nc-exec", "sh", "--", "-c", script].iter().map(|s| s.to_string()).collect();
    let routed = parse_argv(argv).unwrap();
    assert_eq!(routed.nc_args, vec!["--nc-exec".to_string(), "sh".to_string()]);
    assert_eq!(routed.child_args, vec!["-c".to_string(), script.to_string()]);
    let mut run = Run::new();
    run.fork(ROOT, 101);
    run.touch(101, "/tmp/nocruft-it-basic/a");
    let paths = run.summary(&plain());
    assert!(has(&paths, "/tmp/nocruft-it-basic/a"), "missing a: {:?}", paths);
}

#[test]
fn deleted_path_omitted_by_default() {
    let mut run = Run::new();
    run.fork(ROOT, 101);
    run.touch(101, "/tmp/nocruft-it-deleted/tombstone");
    run.remove("/tmp/nocruft-it-deleted/tombstone");
    run.touch(101, "/tmp/nocruft-it-deleted/keeper");
    let paths = run.summary(&plain());
    assert!(has(&paths, "/tmp/nocruft-it-deleted/keeper"));
    assert!(
        !has(&paths, "/tmp/nocruft-it-deleted/tombstone"),
        "tombstone should be filtered: {:?}",
        paths
    );
}

#[test]
fn include_deleted_brings_back_tombstone() {
    let mut run = Run::new();
    run.fork(ROOT, 101);
    run.touch(101, "/tmp/nocruft-it-deleted-included/tombstone");
    run.remove("/tmp/nocruft-it-deleted-included/tombstone");
    let paths = run.summary(&NocruftFlags { include_deleted: true, ..plain() });
    assert!(
        has(&paths, "/tmp/nocruft-it-deleted-included/tombstone"),
        "tombstone should be reported with --nc-include-deleted: {:?}",
        paths
    );
}

#[test]
fn nested_child_creation_tracked() {
    let mut run = Run::new();
    run.fork(ROOT, 101);
    run.chdir(101, "/tmp/nocruft-it-nested");
    run.fork(101, 102);
    run.fork(102, 103);
    run.files.insert("/tmp/nocruft-it-nested/nested".to_string(), START);
    run.feed(record(EV_OPENAT_CREATE, 103, 0, AT_FDCWD, 0, "nested"));
    run.exit(103);
    let paths = run.summary(&plain());
    assert!(has(&paths, "/tmp/nocruft-it-nested/nested"), "nested creation missing: {:?}", paths);
}

#[test]
fn cwd_relative_resolution_through_mkdir_p() {
    let dir = "/tmp/nocruft-it-mkdirp";
    let mut run = Run::new();
    run.fork(ROOT, 101);
    run.chdir(101, dir);
    run.fork(101, 102);
    run.mkdir(102, "deep", &format!("{}/deep", dir));
    run.chdir(102, "deep");
    run.mkdir(102, "nest", &format!("{}/deep/nest", dir));
    run.chdir(102, "nest");
    run.mkdir(102, "three", &format!("{}/deep/nest/three", dir));
    let paths = run.summary(&plain());
    for child in ["deep", "deep/nest", "deep/nest/three"] {
        let full = format!("{}/{}", dir, child);
        assert!(has(&paths, &full), "{} missing: {:?}", full, paths);
    }
    assert_eq!(paths.len(), 3);
}

#[test]
fn modified_existing_file_filtered_by_btime() {
    let pre = "/tmp/nocruft-it-modified/preexisting.txt";
    let mut run = Run::new();
    run.files.insert(pre.to_string(), START - 1);
    run.fork(ROOT, 101);
    run.touch(101, pre);
    assert!(!has(&run.summary(&plain()), pre));
    let flags = NocruftFlags { include_modified: true, ..plain() };
    assert!(has(&run.summary(&flags), pre));
}

#[test]
fn build_artifact_filter_default_and_opt_in() {
    let dir = "/tmp/nocruft-it-build-artifact";
    let mut run = Run::new();
    run.fork(ROOT, 101);
    let modules = format!("{}/node_modules", dir);
    run.mkdir(101, &modules, &modules);
    run.touch(101, &format!("{}/node_modules/junk", dir));
    run.touch(101, &format!("{}/real", dir));
    let paths = run.summary(&plain());
    assert!(has(&paths, &format!("{}/real", dir)));
    assert!(!has(&paths, &format!("{}/node_modules/junk", dir)));
    let flags = NocruftFlags { include_build: true, ..plain() };
    assert!(has(&run.summary(&flags), &format!("{}/node_modules/junk", dir)));
}

#[test]
fn user_exclude_glob_drops_matches() {
    let dir = "/tmp/nocruft-it-exclude-glob";
    let mut run = Run::new();
    run.fork(ROOT, 101);
    run.touch(101, &format!("{}/keep.txt", dir));
    run.touch(101, &format!("{}/skip.log", dir));
    let flags = NocruftFlags { exclude: vec![format!("{}/**/*.log", dir)], ..plain() };
    let paths = run.summary(&flags);
    assert!(has(&paths, &format!("{}/keep.txt", dir)));
    assert!(!has(&paths, &format!("{}/skip.log", dir)));
}

#[test]
fn user_glob_forces_a_path_back() {
    let mut run = Run::new();
    run.touch(ROOT, "/home/me/.bash_history");
    run.touch(ROOT, "/home/me/.zsh_history");
    assert!(run.summary(&plain()).is_empty());
    let flags = NocruftFlags {
        force_include: vec!["**/.bash_history".to_string()],
        exclude: vec!["**".to_string()],
        ..plain()
    };
    assert_eq!(run.summary(&flags), vec!["/home/me/.bash_history".to_string()]);
    run.remove("/home/me/.bash_history");
    assert!(run.summary(&flags).is_empty());
}

#[test]
fn readme_session() {
    let mut run = Run::new();
    run.mkdir(ROOT, "/tmp/zonk", "/tmp/zonk");
    run.touch(ROOT, "/tmp/zonk/b");
    run.touch(ROOT, "/tmp/zonk/a");
    run.touch(ROOT, "/tmp/zonk/a");
    match run.emission(&plain()) {
        Emission::Summary { lines, deletion, .. } => {
            let expected =
                ["", "=== created paths (3) ===", "/tmp/zonk", "/tmp/zonk/a", "/tmp/zonk/b"];
            assert_eq!(lines, expected.iter().map(|s| s.to_string()).collect::<Vec<_>>());
            assert_eq!(deletion, Deletion::Nothing);
        }
        _ => panic!("not a summary"),
    }
}

#[test]
fn descriptor_of_an_opened_directory_is_followed() {
    let mut run = Run::new();
    run.feed(record(EV_OPENAT_DIR, ROOT, 0, AT_FDCWD, 5, "sub/./dir"));
    run.feed(record(EV_OPENAT_DIR, ROOT, 0, 5, 6, "below"));
    run.feed(record(EV_FCHDIR, ROOT, 0, 6, 0, ""));
    run.mkdir(ROOT, "x", "/home/me/sub/dir/below/x");
    assert_eq!(run.summary(&plain()), vec!["/home/me/sub/dir/below/x".to_string()]);
}

#[test]
fn all_reports_speak_of_the_same_paths() {
    let mut run = Run::new();
    run.touch(ROOT, "/w/b");
    run.touch(ROOT, "/w/a");
    run.touch(ROOT, "/w/b");
    run.touch(ROOT, "/dev/shm");
    run.touch(ROOT, "/w/x.pyc");
    let summary = run.summary(&plain());
    assert_eq!(summary, vec!["/w/a".to_string(), "/w/b".to_string()]);
    match run.emission(&NocruftFlags { json: true, ..plain() }) {
        Emission::Json { records, warnings } => {
            let shown: Vec<&str> = records.iter().map(|r| r.resolved.as_str()).collect();
            assert_eq!(shown, ["/w/b", "/w/a", "/w/b"]);
            let mut once: Vec<String> = shown.iter().map(|s| s.to_string()).collect();
            once.sort();
            once.dedup();
            assert_eq!(once, summary);
            assert!(records.iter().all(|r| r.exists && r.syscall == "openat"));
            assert!(warnings.is_empty());
        }
        _ => panic!("not json"),
    }
    match run.emission(&NocruftFlags { json: true, no_dedupe: true, ..plain() }) {
        Emission::Json { records, .. } => assert_eq!(records.len(), 3),
        _ => panic!("not json"),
    }
    match run.emission(&NocruftFlags { no_dedupe: true, dry_run_delete: true, ..plain() }) {
        Emission::Events { lines, .. } => {
            let expected = [
                "",
                "=== events (5) ===",
                "would delete: [openat] pid=100 /w/b",
                "would delete: [openat] pid=100 /w/a",
                "would delete: [openat] pid=100 /w/b",
            ];
            assert_eq!(lines, expected.iter().map(|s| s.to_string()).collect::<Vec<_>>());
        }
        _ => panic!("not events"),
    }
}

#[test]
fn paths_are_resolved_before_they_are_deduplicated() {
    let mut run = Run::new();
    run.files.insert("/home/me/x".to_string(), START);
    run.feed(record(EV_MKDIRAT, ROOT, 0, AT_FDCWD, 0, "x"));
    run.feed(record(EV_MKDIRAT, ROOT, 0, AT_FDCWD, 0, "./x/"));
    run.feed(record(EV_MKDIRAT, ROOT, 0, AT_FDCWD, 0, "/home/../home/me/x"));
    assert_eq!(run.summary(&plain()), vec!["/home/me/x".to_string()]);
}

#[test]
fn truncated_paths_are_dropped() {
    let mut run = Run::new();
    run.touch(ROOT, "/w/cut");
    run.state.events[0].truncated = true;
    let all = NocruftFlags {
        include_deleted: true,
        force_include: vec!["**".to_string()],
        ..plain()
    };
    assert!(run.summary(&all).is_empty());
}

#[test]
fn many_events_are_summarized_quickly() {
    let mut run = Run::new();
    for i in 0..20_000u32 {
        let p = format!("/w/{}", (i * 7919) % 20_000);
        run.touch(ROOT, &p);
    }
    let paths = run.summary(&plain());
    assert_eq!(paths.len(), 20_000);
    let mut sorted = paths.clone();
    sorted.sort();
    assert_eq!(paths, sorted);
}
