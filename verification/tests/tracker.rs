use nocruft::bpf_events::{
    creates, decode_event, syscall_name, Event, AT_FDCWD, EVENT_SZ, EV_CHDIR, EV_EXIT_TRACKED,
    EV_FCHDIR, EV_FORK_TRACKED, EV_LINKAT, EV_MKDIRAT, EV_MKNODAT, EV_OPENAT_CREATE, EV_OPENAT_DIR,
    EV_RENAMEAT2, EV_SYMLINKAT,
};
use nocruft::hostpath::HostPath;
use nocruft::pathres::CapturedEvent;
use nocruft::tracker::{Lookup, Outcome, State, MAX_EVENTS};

fn path(s: &str) -> HostPath {
    HostPath::from_text(s)
}

fn bytes(words: [u32; 8], ts: u64, path: &[u8]) -> Vec<u8> {
    let mut data: Vec<u8> = Vec::new();
    for w in words {
        data.extend_from_slice(&w.to_le_bytes());
    }
    data.extend_from_slice(&ts.to_le_bytes());
    data.extend_from_slice(path);
    data.resize(EVENT_SZ, 0);
    data
}

fn record(etype: u32, pid: u32, dirfd: i32, p: &str) -> Event {
    decode_event(&bytes([etype, pid, 7, dirfd as u32, 3, 0, 9, 0], 42, p.as_bytes())).unwrap()
}

fn failed() -> Result<HostPath, String> {
    Err("No such file".to_string())
}

fn cwd(s: &State, pid: u32) -> Option<String> {
    s.cwd_cache.get(&pid).map(|p| p.display())
}

fn fd(s: &State, pid: u32, fd: i32) -> Option<String> {
    s.fd_map.get(&pid).and_then(|t| t.get(&fd)).map(|p| p.display())
}

#[test]
fn record_is_decoded() {
    let mut data = bytes([1, 0x01020304, 3, (-100i32) as u32, 5, 6, (-1i32) as u32, 8], 0x0102030405060708, b"/a\0b");
    let ev = decode_event(&data).unwrap();
    assert_eq!(ev.etype, 1);
    assert_eq!(ev.pid, 0x01020304);
    assert_eq!(ev.ppid, 3);
    assert_eq!(ev.dirfd, -100);
    assert_eq!(ev.flags, 5);
    assert_eq!(ev.truncated, 6);
    assert_eq!(ev.result_fd, -1);
    assert_eq!(ev._pad, 8);
    assert_eq!(ev.ts_ns, 0x0102030405060708);
    assert_eq!(&ev.path[..4], b"/a\0b");
    data.push(1);
    assert_eq!(decode_event(&data).unwrap().pid, 0x01020304);
}

#[test]
fn short_record_is_refused() {
    let data = bytes([0; 8], 0, b"");
    assert!(decode_event(&data[..EVENT_SZ - 1]).is_none());
    assert!(decode_event(&[]).is_none());
    assert!(decode_event(&data).is_some());
}

#[test]
fn extreme_numbers_are_decoded() {
    let data = bytes([u32::MAX, u32::MAX, 0, 0x8000_0000, 0, 0, 0x7fff_ffff, 0], u64::MAX, &[0xff; 256]);
    let ev = decode_event(&data).unwrap();
    assert_eq!(ev.pid, u32::MAX);
    assert_eq!(ev.dirfd, i32::MIN);
    assert_eq!(ev.result_fd, i32::MAX);
    assert_eq!(ev.ts_ns, u64::MAX);
    assert_eq!(ev.path, [0xff; 256]);
}

#[test]
fn names_of_system_calls() {
    let names = [
        (EV_OPENAT_CREATE, "openat"),
        (EV_MKDIRAT, "mkdir"),
        (EV_RENAMEAT2, "renameat"),
        (EV_SYMLINKAT, "symlink"),
        (EV_LINKAT, "link"),
        (EV_MKNODAT, "mknod"),
        (EV_FORK_TRACKED, "fork"),
        (EV_EXIT_TRACKED, "exit"),
        (EV_CHDIR, "unknown"),
        (EV_FCHDIR, "unknown"),
        (EV_OPENAT_DIR, "unknown"),
        (0, "unknown"),
        (99, "unknown"),
    ];
    for (k, n) in names {
        assert_eq!(syscall_name(k), n);
    }
    assert!(creates(EV_MKNODAT) && !creates(EV_CHDIR));
}

#[test]
fn fork_inherits_the_directory() {
    let mut s = State::new();
    s.set_cwd(7, path("/home/me"));
    let ev = record(EV_FORK_TRACKED, 8, 0, "");
    assert_eq!(s.lookup(&ev), Lookup::Nothing);
    assert_eq!(s.handle_event(&ev, Ok(path("/racy"))), Outcome::Forked);
    assert_eq!(cwd(&s, 8).unwrap(), "/home/me");
    assert_eq!(cwd(&s, 7).unwrap(), "/home/me");
}

#[test]
fn fork_of_an_unknown_parent_is_looked_up() {
    let mut s = State::new();
    let ev = record(EV_FORK_TRACKED, 8, 0, "");
    assert_eq!(s.lookup(&ev), Lookup::Cwd { pid: 8 });
    assert_eq!(s.handle_event(&ev, failed()), Outcome::Forked);
    assert_eq!(cwd(&s, 8), None);
    assert_eq!(s.handle_event(&ev, Ok(path("/x"))), Outcome::Forked);
    assert_eq!(cwd(&s, 8).unwrap(), "/x");
}

#[test]
fn exit_forgets_the_process() {
    let mut s = State::new();
    s.set_cwd(8, path("/x"));
    s.set_fd(8, 3, path("/y"));
    s.set_cwd(9, path("/z"));
    s.set_fd(9, 3, path("/w"));
    let ev = record(EV_EXIT_TRACKED, 8, 0, "");
    assert_eq!(s.lookup(&ev), Lookup::Nothing);
    assert_eq!(s.handle_event(&ev, failed()), Outcome::Exited);
    assert_eq!(cwd(&s, 8), None);
    assert_eq!(fd(&s, 8, 3), None);
    assert_eq!(cwd(&s, 9).unwrap(), "/z");
    assert_eq!(fd(&s, 9, 3).unwrap(), "/w");
}

#[test]
fn chdir_to_an_absolute_path() {
    let mut s = State::new();
    let ev = record(EV_CHDIR, 8, 0, "/a/../b/./c");
    assert_eq!(s.lookup(&ev), Lookup::Nothing);
    assert_eq!(s.handle_event(&ev, failed()), Outcome::CwdChanged);
    assert_eq!(cwd(&s, 8).unwrap(), "/b/c");
}

#[test]
fn chdir_to_a_relative_path() {
    let mut s = State::new();
    s.set_cwd(8, path("/a/b"));
    let ev = record(EV_CHDIR, 8, 0, "../c");
    assert_eq!(s.lookup(&ev), Lookup::Nothing);
    assert_eq!(s.handle_event(&ev, Ok(path("/racy"))), Outcome::CwdChanged);
    assert_eq!(cwd(&s, 8).unwrap(), "/a/c");
}

#[test]
fn chdir_down_and_up_again() {
    let mut s = State::new();
    s.set_cwd(8, path("/a/b"));
    s.handle_event(&record(EV_CHDIR, 8, 0, "c"), failed());
    assert_eq!(cwd(&s, 8).as_deref(), Some("/a/b/c"));
    s.handle_event(&record(EV_CHDIR, 8, 0, ".."), failed());
    assert_eq!(cwd(&s, 8).as_deref(), Some("/a/b"));
}

#[test]
fn chdir_without_a_known_directory() {
    let mut s = State::new();
    let ev = record(EV_CHDIR, 8, 0, "c");
    assert_eq!(s.lookup(&ev), Lookup::Cwd { pid: 8 });
    assert_eq!(s.handle_event(&ev, failed()), Outcome::CwdUnknown);
    assert_eq!(cwd(&s, 8), None);
    assert_eq!(s.handle_event(&ev, Ok(path("/q"))), Outcome::CwdChanged);
    assert_eq!(cwd(&s, 8).unwrap(), "/q/c");
}

#[test]
fn fchdir_prefers_what_is_known() {
    let mut s = State::new();
    s.set_fd(8, 3, path("/known"));
    let ev = record(EV_FCHDIR, 8, 3, "");
    assert_eq!(s.lookup(&ev), Lookup::Nothing);
    assert_eq!(s.handle_event(&ev, Ok(path("/racy"))), Outcome::CwdChanged);
    assert_eq!(cwd(&s, 8).unwrap(), "/known");
}

#[test]
fn fchdir_to_an_unknown_descriptor() {
    let mut s = State::new();
    let ev = record(EV_FCHDIR, 8, 4, "");
    assert_eq!(s.lookup(&ev), Lookup::Fd { pid: 8, fd: 4 });
    assert_eq!(s.handle_event(&ev, failed()), Outcome::CwdUnknown);
    assert_eq!(cwd(&s, 8), None);
    // What the link holds is taken as it is.
    assert_eq!(s.handle_event(&ev, Ok(path("/x/./y"))), Outcome::CwdChanged);
    assert_eq!(cwd(&s, 8).unwrap(), "/x/./y");
}

#[test]
fn opened_directories_are_remembered() {
    let mut s = State::new();
    s.set_cwd(8, path("/a"));
    let ev = record(EV_OPENAT_DIR, 8, AT_FDCWD, "b/.");
    assert_eq!(s.lookup(&ev), Lookup::Nothing);
    assert_eq!(s.handle_event(&ev, failed()), Outcome::DirOpened);
    assert_eq!(fd(&s, 8, 9).unwrap(), "/a/b");
    assert_eq!(cwd(&s, 8).unwrap(), "/a");
    let ev = record(EV_OPENAT_DIR, 8, 9, "c");
    assert_eq!(s.lookup(&ev), Lookup::Nothing);
    assert_eq!(s.handle_event(&ev, failed()), Outcome::DirOpened);
    assert_eq!(fd(&s, 8, 9).unwrap(), "/a/b/c");
    let ev = record(EV_OPENAT_DIR, 8, 77, "/abs");
    assert_eq!(s.lookup(&ev), Lookup::Nothing);
    assert_eq!(s.handle_event(&ev, failed()), Outcome::DirOpened);
    assert_eq!(fd(&s, 8, 9).unwrap(), "/abs");
}

#[test]
fn opened_directories_that_cannot_be_told() {
    let mut s = State::new();
    let ev = record(EV_OPENAT_DIR, 8, AT_FDCWD, "b");
    assert_eq!(s.lookup(&ev), Lookup::Cwd { pid: 8 });
    assert_eq!(s.handle_event(&ev, failed()), Outcome::DirUnknown);
    let ev = record(EV_OPENAT_DIR, 8, 5, "b");
    assert_eq!(s.lookup(&ev), Lookup::Fd { pid: 8, fd: 5 });
    assert_eq!(s.handle_event(&ev, failed()), Outcome::DirUnknown);
    let ev = record(EV_OPENAT_DIR, 8, -5, "b");
    assert_eq!(s.lookup(&ev), Lookup::Nothing);
    assert_eq!(s.handle_event(&ev, Ok(path("/x"))), Outcome::DirUnknown);
    assert_eq!(fd(&s, 8, 9), None);
}

#[test]
fn creation_in_a_known_directory() {
    let mut s = State::new();
    s.set_cwd(8, path("/a"));
    let ev = record(EV_MKDIRAT, 8, AT_FDCWD, "b");
    assert_eq!(s.lookup(&ev), Lookup::Nothing);
    assert_eq!(s.handle_event(&ev, Ok(path("/racy"))), Outcome::Captured);
    let c = &s.events[0];
    assert_eq!((c.ts_ns, c.pid, c.syscall, c.dirfd, c.flags), (42, 8, EV_MKDIRAT, AT_FDCWD, 3));
    assert!(!c.truncated);
    assert_eq!(c.raw_path, "b");
    assert_eq!(c.resolved_base.as_ref().unwrap().display(), "/a");
    assert_eq!(c.resolve_note, None);
}

#[test]
fn creation_in_a_directory_that_is_looked_up() {
    let mut s = State::new();
    let ev = record(EV_SYMLINKAT, 8, AT_FDCWD, "b");
    assert_eq!(s.lookup(&ev), Lookup::Cwd { pid: 8 });
    assert_eq!(s.handle_event(&ev, Ok(path("/found"))), Outcome::Captured);
    assert_eq!(s.events[0].resolved_base.as_ref().unwrap().display(), "/found");
    assert_eq!(cwd(&s, 8).unwrap(), "/found");
}

#[test]
fn creation_in_an_unknown_directory() {
    let mut s = State::new();
    let ev = record(EV_LINKAT, 8, AT_FDCWD, "b");
    assert_eq!(s.handle_event(&ev, failed()), Outcome::Captured);
    assert!(s.events[0].resolved_base.is_none());
    assert_eq!(s.events[0].resolve_note.as_deref(), Some("cwd for pid 8 not known"));
}

#[test]
fn creation_below_a_descriptor() {
    let mut s = State::new();
    let ev = record(EV_MKNODAT, 8, 5, "b");
    assert_eq!(s.lookup(&ev), Lookup::Fd { pid: 8, fd: 5 });
    assert_eq!(s.handle_event(&ev, Ok(path("/live"))), Outcome::Captured);
    assert_eq!(s.events[0].resolved_base.as_ref().unwrap().display(), "/live");
    assert_eq!(s.handle_event(&ev, failed()), Outcome::Captured);
    assert_eq!(
        s.events[1].resolve_note.as_deref(),
        Some("readlink /proc/8/fd/5 failed: No such file")
    );
    assert_eq!(fd(&s, 8, 5), None);
}

#[test]
fn creation_below_a_directory_that_was_opened() {
    let mut s = State::new();
    s.set_cwd(7, path("/w"));
    s.set_fd(7, 5, path("/a"));
    let ev = record(EV_MKDIRAT, 7, 5, "sub");
    assert_eq!(s.lookup(&ev), Lookup::Nothing);
    assert_eq!(s.handle_event(&ev, failed()), Outcome::Captured);
    assert_eq!(s.handle_event(&ev, Ok(path("/racy"))), Outcome::Captured);
    assert_eq!(s.events.len(), 2);
    for c in &s.events {
        assert_eq!(c.resolved_base.as_ref().unwrap().display(), "/a");
        assert_eq!(c.resolve_note, None);
    }
}

#[test]
fn creation_with_a_strange_descriptor() {
    let mut s = State::new();
    let ev = record(EV_RENAMEAT2, 8, -7, "b");
    assert_eq!(s.lookup(&ev), Lookup::Nothing);
    assert_eq!(s.handle_event(&ev, Ok(path("/x"))), Outcome::Captured);
    assert!(s.events[0].resolved_base.is_none());
    assert_eq!(s.events[0].resolve_note.as_deref(), Some("unrecognized dirfd -7"));
}

#[test]
fn creation_of_an_absolute_path() {
    let mut s = State::new();
    let ev = record(EV_OPENAT_CREATE, 8, 5, "/b");
    assert_eq!(s.lookup(&ev), Lookup::Nothing);
    assert_eq!(s.handle_event(&ev, failed()), Outcome::Captured);
    assert!(s.events[0].resolved_base.is_none());
    assert_eq!(s.events[0].resolve_note, None);
}

#[test]
fn truncation_is_noted() {
    let mut s = State::new();
    let ev = decode_event(&bytes([EV_MKDIRAT, 8, 7, 0, 0, 2, 0, 0], 1, b"/long")).unwrap();
    let _ = s.handle_event(&ev, failed());
    assert!(s.events[0].truncated);
}

#[test]
fn unknown_records_change_nothing() {
    let mut s = State::new();
    for k in [0, 12, u32::MAX] {
        let ev = record(k, 8, 0, "/x");
        assert_eq!(s.lookup(&ev), Lookup::Nothing);
        assert_eq!(s.handle_event(&ev, Ok(path("/y"))), Outcome::Unrecognized);
    }
    assert!(s.events.is_empty() && s.cwd_cache.is_empty() && s.fd_map.is_empty());
}

#[test]
fn links_under_proc() {
    assert_eq!(Lookup::Nothing.link(), None);
    assert_eq!(Lookup::Cwd { pid: 4294967295 }.link().unwrap(), "/proc/4294967295/cwd");
    assert_eq!(Lookup::Fd { pid: 10, fd: -2147483648 }.link().unwrap(), "/proc/10/fd/-2147483648");
    assert_eq!(Lookup::Fd { pid: 0, fd: 0 }.link().unwrap(), "/proc/0/fd/0");
}

fn small_event() -> CapturedEvent {
    CapturedEvent {
        ts_ns: 0,
        pid: 0,
        syscall: EV_MKDIRAT,
        dirfd: 0,
        flags: 0,
        truncated: false,
        raw_path: String::new(),
        resolved_base: None,
        resolve_note: None,
    }
}

#[test]
fn events_are_limited() {
    let mut s = State::new();
    for _ in 0..MAX_EVENTS {
        assert_eq!(s.push_event(small_event()), Outcome::Captured);
    }
    assert!(!s.overflow_warned);
    assert_eq!(s.push_event(small_event()), Outcome::Dropped { first: true });
    assert_eq!(s.push_event(small_event()), Outcome::Dropped { first: false });
    let ev = record(EV_MKDIRAT, 8, AT_FDCWD, "/x");
    assert_eq!(s.handle_event(&ev, failed()), Outcome::Dropped { first: false });
    assert_eq!(s.events.len(), MAX_EVENTS);
    assert!(s.overflow_warned);
}
