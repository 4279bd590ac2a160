//! What is known of the traced processes, and how each record changes it.

use crate::bpf_events;
use crate::bpf_events::{
    creates, Event, AT_FDCWD, EV_CHDIR, EV_EXIT_TRACKED, EV_FCHDIR, EV_FORK_TRACKED, EV_OPENAT_DIR,
};
use crate::hostpath;
use crate::hostpath::HostPath;
use crate::pathres;
use crate::pathres::{cstr_to_string, CapturedEvent, CapturedView};
use crate::text;
use crate::text::{decimal_text, signed_text};
use std::collections::HashMap;
use vstd::prelude::*;
use vstd::string::*;
use vstd::utf8::*;

verus! {

/// How many events are kept at most.
pub const MAX_EVENTS: usize = 100_000;

/// What is known of the traced processes.
pub struct State {
    /// The creation events, in the order of their arrival.
    pub events: Vec<CapturedEvent>,
    /// Whether it has been said that events are being dropped.
    pub overflow_warned: bool,
    /// The current directory of each process.
    pub cwd_cache: HashMap<u32, HostPath>,
    /// The directories that each process has opened, by descriptor.
    pub fd_map: HashMap<u32, HashMap<i32, HostPath>>,
}

/// What the state holds.
#[verifier::ext_equal]
pub struct StateView {
    pub events: Seq<CapturedView>,
    pub overflow_warned: bool,
    pub cwds: Map<u32, Seq<u8>>,
    pub fds: Map<(u32, i32), Seq<u8>>,
}

impl View for State {
    type V = StateView;

    open spec fn view(&self) -> StateView {
        StateView {
            events: pathres::captured(self.events@),
            overflow_warned: self.overflow_warned,
            cwds: Map::new(
                |pid: u32| self.cwd_cache@.contains_key(pid),
                |pid: u32| self.cwd_cache@[pid]@,
            ),
            fds: Map::new(
                |k: (u32, i32)|
                    self.fd_map@.contains_key(k.0) && self.fd_map@[k.0]@.contains_key(k.1),
                |k: (u32, i32)| self.fd_map@[k.0]@[k.1]@,
            ),
        }
    }
}

/// A link under `/proc` whose target has to be read before a record can be dealt
/// with.
#[derive(Clone, Copy, Debug, PartialEq, Eq, Structural)]
pub enum Lookup {
    /// None: everything needed is known.
    Nothing,
    /// The current directory of a process.
    Cwd { pid: u32 },
    /// The file behind a descriptor of a process.
    Fd { pid: u32, fd: i32 },
}

/// What became of a record.
#[derive(Clone, Copy, Debug, PartialEq, Eq, Structural)]
pub enum Outcome {
    /// A process was born, with or without a known directory.
    Forked,
    /// A process is gone.
    Exited,
    /// A process changed its directory.
    CwdChanged,
    /// A process changed its directory to one that cannot be told.
    CwdUnknown,
    /// A process opened a directory.
    DirOpened,
    /// A process opened a directory that cannot be told.
    DirUnknown,
    /// A creation was kept.
    Captured,
    /// A creation was dropped because too many are held; `first` for the first.
    Dropped { first: bool },
    /// The kind of the record is not known.
    Unrecognized,
}

/// What a link turned out to hold: its target, or why it could not be read.
pub open spec fn link_target(found: Result<HostPath, String>) -> Result<Seq<u8>, Seq<char>> {
    match found {
        Ok(p) => Ok(p@),
        Err(e) => Err(e@),
    }
}

/// The target of a link, if it could be read.
pub open spec fn target_of(found: Result<Seq<u8>, Seq<char>>) -> Option<Seq<u8>> {
    match found {
        Ok(p) => Some(p),
        Err(_) => None,
    }
}

/// `known`, or else `other`.
pub open spec fn or_else(known: Option<Seq<u8>>, other: Option<Seq<u8>>) -> Option<Seq<u8>> {
    match known {
        Some(p) => Some(p),
        None => other,
    }
}

/// `name` seen from the directory `base`, if there is one.
pub open spec fn seen_from(base: Option<Seq<u8>>, name: Seq<u8>) -> Option<Seq<u8>> {
    match base {
        Some(b) => Some(hostpath::joined(b, name)),
        None => None,
    }
}

/// The path of a record, as text.
pub open spec fn raw_text(ev: Event) -> Seq<char> {
    text::shown(pathres::until_nul(ev.path@))
}

/// The path of a record, as bytes.
pub open spec fn raw_path(ev: Event) -> Seq<u8> {
    encode_utf8(raw_text(ev))
}

/// The name under `/proc` of the current directory of a process.
pub open spec fn cwd_link(pid: u32) -> Seq<char> {
    "/proc/"@ + text::decimal(pid as nat) + "/cwd"@
}

/// The name under `/proc` of a descriptor of a process.
pub open spec fn fd_link(pid: u32, fd: i32) -> Seq<char> {
    "/proc/"@ + text::decimal(pid as nat) + "/fd/"@ + text::signed_decimal(fd as int)
}

impl StateView {
    /// The current directory of a process, if known.
    pub open spec fn cwd_of(self, pid: u32) -> Option<Seq<u8>> {
        if self.cwds.contains_key(pid) {
            Some(self.cwds[pid])
        } else {
            None
        }
    }

    /// The directory behind a descriptor of a process, if known.
    pub open spec fn fd_of(self, pid: u32, fd: i32) -> Option<Seq<u8>> {
        if self.fds.contains_key((pid, fd)) {
            Some(self.fds[(pid, fd)])
        } else {
            None
        }
    }

    /// The link that has to be read for a name relative to `pid`'s directory.
    pub open spec fn cwd_lookup(self, pid: u32, asked: u32) -> Lookup {
        if self.cwds.contains_key(pid) {
            Lookup::Nothing
        } else {
            Lookup::Cwd { pid: asked }
        }
    }

    /// The link that has to be read for a descriptor.
    pub open spec fn fd_lookup(self, pid: u32, fd: i32) -> Lookup {
        if self.fds.contains_key((pid, fd)) {
            Lookup::Nothing
        } else {
            Lookup::Fd { pid, fd }
        }
    }

    /// The link that has to be read before `ev` can be dealt with.
    pub open spec fn lookup(self, ev: Event) -> Lookup {
        let relative = !hostpath::is_absolute(raw_path(ev));
        if ev.etype == EV_FORK_TRACKED {
            self.cwd_lookup(ev.ppid, ev.pid)
        } else if ev.etype == EV_CHDIR && relative {
            self.cwd_lookup(ev.pid, ev.pid)
        } else if ev.etype == EV_FCHDIR {
            self.fd_lookup(ev.pid, ev.dirfd)
        } else if (ev.etype == EV_OPENAT_DIR || bpf_events::is_creation(ev.etype)) && relative {
            if ev.dirfd == AT_FDCWD {
                self.cwd_lookup(ev.pid, ev.pid)
            } else if ev.dirfd < 0 {
                Lookup::Nothing
            } else {
                self.fd_lookup(ev.pid, ev.dirfd)
            }
        } else {
            Lookup::Nothing
        }
    }

    /// The directory that a record about directories speaks of, as written.
    pub open spec fn spoken_dir(self, ev: Event, found: Option<Seq<u8>>) -> Option<Seq<u8>> {
        let name = raw_path(ev);
        if ev.etype == EV_FORK_TRACKED {
            or_else(self.cwd_of(ev.ppid), found)
        } else if ev.etype == EV_FCHDIR {
            or_else(self.fd_of(ev.pid, ev.dirfd), found)
        } else if hostpath::is_absolute(name) {
            Some(name)
        } else if ev.etype == EV_CHDIR || ev.dirfd == AT_FDCWD {
            seen_from(or_else(self.cwd_of(ev.pid), found), name)
        } else if ev.dirfd >= 0 {
            seen_from(or_else(self.fd_of(ev.pid, ev.dirfd), found), name)
        } else {
            None
        }
    }

    /// The same directory as it is remembered: names are brought to their
    /// shortest form, directories that are known already stay as they are.
    pub open spec fn entered_dir(self, ev: Event, found: Option<Seq<u8>>) -> Option<Seq<u8>> {
        match self.spoken_dir(ev, found) {
            Some(p) => if ev.etype == EV_CHDIR || ev.etype == EV_OPENAT_DIR {
                Some(hostpath::cleaned(p))
            } else {
                Some(p)
            },
            None => None,
        }
    }

    /// The state once `dir` is known to be the directory that `ev` speaks of.
    pub open spec fn with_dir(self, ev: Event, dir: Option<Seq<u8>>) -> StateView {
        match dir {
            Some(p) => if ev.etype == EV_OPENAT_DIR {
                StateView { fds: self.fds.insert((ev.pid, ev.result_fd), p), ..self }
            } else {
                StateView { cwds: self.cwds.insert(ev.pid, p), ..self }
            },
            None => self,
        }
    }

    /// The state once a process is gone: nothing is known of it any more.
    pub open spec fn without(self, pid: u32) -> StateView {
        StateView {
            cwds: self.cwds.remove(pid),
            fds: Map::new(
                |k: (u32, i32)| self.fds.contains_key(k) && k.0 != pid,
                |k: (u32, i32)| self.fds[k],
            ),
            ..self
        }
    }

    /// The directory that the path of a creation starts from.
    pub open spec fn base_dir(self, ev: Event, found: Option<Seq<u8>>) -> Option<Seq<u8>> {
        if hostpath::is_absolute(raw_path(ev)) {
            None
        } else if ev.dirfd == AT_FDCWD {
            or_else(self.cwd_of(ev.pid), found)
        } else if ev.dirfd >= 0 {
            or_else(self.fd_of(ev.pid, ev.dirfd), found)
        } else {
            None
        }
    }

    /// Why a creation has no such directory.
    pub open spec fn base_note(self, ev: Event, found: Result<Seq<u8>, Seq<char>>) -> Option<
        Seq<char>,
    > {
        if hostpath::is_absolute(raw_path(ev)) || self.base_dir(ev, target_of(found)) is Some {
            None
        } else if ev.dirfd == AT_FDCWD {
            Some("cwd for pid "@ + text::decimal(ev.pid as nat) + " not known"@)
        } else if ev.dirfd >= 0 {
            Some("readlink "@ + fd_link(ev.pid, ev.dirfd) + " failed: "@ + found->Err_0)
        } else {
            Some("unrecognized dirfd "@ + text::signed_decimal(ev.dirfd as int))
        }
    }

    /// What is kept of a creation.
    pub open spec fn capture_of(self, ev: Event, found: Result<Seq<u8>, Seq<char>>) -> CapturedView {
        CapturedView {
            ts_ns: ev.ts_ns,
            pid: ev.pid,
            syscall: ev.etype,
            dirfd: ev.dirfd,
            flags: ev.flags,
            truncated: ev.truncated != 0,
            raw_path: raw_text(ev),
            resolved_base: self.base_dir(ev, target_of(found)),
            resolve_note: self.base_note(ev, found),
        }
    }

    /// The state with one more event, unless it is full.
    pub open spec fn pushed(self, ev: CapturedView) -> StateView {
        if self.events.len() >= MAX_EVENTS {
            StateView { overflow_warned: true, ..self }
        } else {
            StateView { events: self.events.push(ev), ..self }
        }
    }

    /// What becomes of one more event.
    pub open spec fn push_outcome(self) -> Outcome {
        if self.events.len() >= MAX_EVENTS {
            Outcome::Dropped { first: !self.overflow_warned }
        } else {
            Outcome::Captured
        }
    }

    /// The state after a creation. A current directory that had to be looked up
    /// is remembered.
    pub open spec fn with_creation(self, ev: Event, found: Result<Seq<u8>, Seq<char>>) -> StateView {
        let seeded = if !hostpath::is_absolute(raw_path(ev)) && ev.dirfd == AT_FDCWD
            && self.cwd_of(ev.pid) is None && found is Ok {
            StateView { cwds: self.cwds.insert(ev.pid, found->Ok_0), ..self }
        } else {
            self
        };
        seeded.pushed(self.capture_of(ev, found))
    }

    /// The state after a record.
    pub open spec fn after(self, ev: Event, found: Result<Seq<u8>, Seq<char>>) -> StateView {
        if ev.etype == EV_FORK_TRACKED || ev.etype == EV_CHDIR || ev.etype == EV_FCHDIR || ev.etype
            == EV_OPENAT_DIR {
            self.with_dir(ev, self.entered_dir(ev, target_of(found)))
        } else if ev.etype == EV_EXIT_TRACKED {
            self.without(ev.pid)
        } else if bpf_events::is_creation(ev.etype) {
            self.with_creation(ev, found)
        } else {
            self
        }
    }

    /// What becomes of a record.
    pub open spec fn outcome(self, ev: Event, found: Result<Seq<u8>, Seq<char>>) -> Outcome {
        let told = self.spoken_dir(ev, target_of(found)) is Some;
        if ev.etype == EV_FORK_TRACKED {
            Outcome::Forked
        } else if ev.etype == EV_EXIT_TRACKED {
            Outcome::Exited
        } else if ev.etype == EV_CHDIR || ev.etype == EV_FCHDIR {
            if told {
                Outcome::CwdChanged
            } else {
                Outcome::CwdUnknown
            }
        } else if ev.etype == EV_OPENAT_DIR {
            if told {
                Outcome::DirOpened
            } else {
                Outcome::DirUnknown
            }
        } else if bpf_events::is_creation(ev.etype) {
            self.push_outcome()
        } else {
            Outcome::Unrecognized
        }
    }

    /// Never more events than the limit, and a warning only once it was reached.
    pub open spec fn wf(self) -> bool {
        &&& self.events.len() <= MAX_EVENTS
        &&& self.overflow_warned ==> self.events.len() == MAX_EVENTS
    }
}

impl Lookup {
    /// The name of the link to read.
    pub fn link(&self) -> (r: Option<String>)
        ensures
            match *self {
                Lookup::Nothing => r is None,
                Lookup::Cwd { pid } => r is Some && r->0@ == cwd_link(pid),
                Lookup::Fd { pid, fd } => r is Some && r->0@ == fd_link(pid, fd),
            },
    {
        match *self {
            Lookup::Nothing => None,
            Lookup::Cwd { pid } => {
                let mut r = "/proc/".to_string();
                r.append(decimal_text(pid as u64).as_str());
                r.append("/cwd");
                Some(r)
            },
            Lookup::Fd { pid, fd } => Some(fd_link_text(pid, fd)),
        }
    }
}

fn fd_link_text(pid: u32, fd: i32) -> (r: String)
    ensures
        r@ == fd_link(pid, fd),
{
    let mut r = "/proc/".to_string();
    r.append(decimal_text(pid as u64).as_str());
    r.append("/fd/");
    r.append(signed_text(fd).as_str());
    r
}

fn join_opt(base: Option<HostPath>, name: &HostPath) -> (r: Option<HostPath>)
    ensures
        hostpath::opt_path(r) == seen_from(hostpath::opt_path(base), name@),
{
    match base {
        Some(b) => Some(b.join(name)),
        None => None,
    }
}

fn copy_opt(p: Option<&HostPath>) -> (r: Option<HostPath>)
    ensures
        match p {
            Some(p) => hostpath::opt_path(r) == Some(p@),
            None => r is None,
        },
{
    match p {
        Some(p) => Some(p.clone()),
        None => None,
    }
}

/// What an optional path behind a reference holds.
pub open spec fn opt_path_ref(p: Option<&HostPath>) -> Option<Seq<u8>> {
    match p {
        Some(p) => Some(p@),
        None => None,
    }
}

impl State {
    /// Nothing is known yet.
    pub fn new() -> (r: State)
        ensures
            r@ == (StateView {
                events: Seq::empty(),
                overflow_warned: false,
                cwds: Map::empty(),
                fds: Map::empty(),
            }),
            r@.wf(),
    {
        let r = State {
            events: Vec::new(),
            overflow_warned: false,
            cwd_cache: HashMap::new(),
            fd_map: HashMap::new(),
        };
        assert(r@.events =~= Seq::empty());
        assert(r@.cwds =~= Map::empty());
        assert(r@.fds =~= Map::empty());
        r
    }

    /// Remembers the current directory of a process.
    pub fn set_cwd(&mut self, pid: u32, dir: HostPath)
        ensures
            final(self)@ == (StateView { cwds: old(self)@.cwds.insert(pid, dir@), ..old(self)@ }),
    {
        let ghost before = self@;
        let ghost p = dir@;
        self.cwd_cache.insert(pid, dir);
        assert(self@.cwds =~= before.cwds.insert(pid, p));
        assert(self@.fds =~= before.fds);
    }

    /// Remembers the directory behind a descriptor of a process.
    pub fn set_fd(&mut self, pid: u32, fd: i32, dir: HostPath)
        ensures
            final(self)@ == (StateView {
                fds: old(self)@.fds.insert((pid, fd), dir@),
                ..old(self)@
            }),
    {
        let ghost before = self@;
        let ghost p = dir@;
        let mut table: HashMap<i32, HostPath> = match self.fd_map.remove(&pid) {
            Some(t) => t,
            None => HashMap::new(),
        };
        table.insert(fd, dir);
        self.fd_map.insert(pid, table);
        assert(self@.fds =~= before.fds.insert((pid, fd), p));
        assert(self@.cwds =~= before.cwds);
    }

    /// Forgets a process.
    pub fn forget(&mut self, pid: u32)
        ensures
            final(self)@ == old(self)@.without(pid),
    {
        let ghost before = self@;
        self.cwd_cache.remove(&pid);
        self.fd_map.remove(&pid);
        assert(self@.cwds =~= before.without(pid).cwds);
        assert(self@.fds =~= before.without(pid).fds);
    }

    fn known_cwd(&self, pid: u32) -> (r: Option<&HostPath>)
        ensures
            opt_path_ref(r) == self@.cwd_of(pid),
    {
        self.cwd_cache.get(&pid)
    }

    fn known_fd(&self, pid: u32, fd: i32) -> (r: Option<&HostPath>)
        ensures
            opt_path_ref(r) == self@.fd_of(pid, fd),
    {
        match self.fd_map.get(&pid) {
            Some(t) => t.get(&fd),
            None => None,
        }
    }

    /// Keeps one more event, unless the limit has been reached; then the event is
    /// dropped, and the first time that happens is told from the later ones.
    pub fn push_event(&mut self, ev: CapturedEvent) -> (r: Outcome)
        ensures
            final(self)@ == old(self)@.pushed(ev@),
            r == old(self)@.push_outcome(),
            old(self)@.wf() ==> final(self)@.wf(),
    {
        let ghost before = self@;
        if self.events.len() >= MAX_EVENTS {
            let first = !self.overflow_warned;
            self.overflow_warned = true;
            assert(self@ =~= before.pushed(ev@));
            return Outcome::Dropped { first };
        }
        self.events.push(ev);
        assert(self@.events =~= before.events.push(ev@));
        assert(self@ =~= before.pushed(ev@));
        Outcome::Captured
    }

    /// The link that has to be read before `ev` can be dealt with. What is known
    /// already is preferred: by the time the link is read it may have changed.
    pub fn lookup(&self, ev: &Event) -> (r: Lookup)
        ensures
            r == self@.lookup(*ev),
    {
        let relative = !HostPath::from_text(cstr_to_string(&ev.path).as_str()).absolute();
        let pid = ev.pid;
        if ev.etype == EV_FORK_TRACKED {
            if self.known_cwd(ev.ppid).is_some() {
                Lookup::Nothing
            } else {
                Lookup::Cwd { pid }
            }
        } else if ev.etype == EV_FCHDIR {
            if self.known_fd(pid, ev.dirfd).is_some() {
                Lookup::Nothing
            } else {
                Lookup::Fd { pid, fd: ev.dirfd }
            }
        } else if !relative {
            Lookup::Nothing
        } else if ev.etype == EV_CHDIR || ((ev.etype == EV_OPENAT_DIR || creates(ev.etype))
            && ev.dirfd == AT_FDCWD) {
            if self.known_cwd(pid).is_some() {
                Lookup::Nothing
            } else {
                Lookup::Cwd { pid }
            }
        } else if (ev.etype == EV_OPENAT_DIR || creates(ev.etype)) && ev.dirfd >= 0 {
            if self.known_fd(pid, ev.dirfd).is_some() {
                Lookup::Nothing
            } else {
                Lookup::Fd { pid, fd: ev.dirfd }
            }
        } else {
            Lookup::Nothing
        }
    }

    /// The directory that a fork, a change of directory or the opening of a
    /// directory speaks of, as written; `found` is what the link that
    /// `lookup` asks for turned out to hold.
    pub fn spoken_dir(&self, ev: &Event, found: Option<HostPath>) -> (r: Option<HostPath>)
        ensures
            hostpath::opt_path(r) == self@.spoken_dir(*ev, hostpath::opt_path(found)),
    {
        if ev.etype == EV_FORK_TRACKED {
            return match self.known_cwd(ev.ppid) {
                Some(p) => Some(p.clone()),
                None => found,
            };
        }
        if ev.etype == EV_FCHDIR {
            return match self.known_fd(ev.pid, ev.dirfd) {
                Some(p) => Some(p.clone()),
                None => found,
            };
        }
        let name = HostPath::from_text(cstr_to_string(&ev.path).as_str());
        if name.absolute() {
            return Some(name);
        }
        if ev.etype == EV_CHDIR || ev.dirfd == AT_FDCWD {
            let base = match self.known_cwd(ev.pid) {
                Some(p) => Some(p.clone()),
                None => found,
            };
            join_opt(base, &name)
        } else if ev.dirfd >= 0 {
            let base = match self.known_fd(ev.pid, ev.dirfd) {
                Some(p) => Some(p.clone()),
                None => found,
            };
            join_opt(base, &name)
        } else {
            None
        }
    }

    /// Remembers `dir` as the directory that `ev` speaks of.
    pub fn enter(&mut self, ev: &Event, dir: Option<HostPath>)
        ensures
            final(self)@ == old(self)@.with_dir(*ev, hostpath::opt_path(dir)),
    {
        match dir {
            Some(p) => {
                if ev.etype == EV_OPENAT_DIR {
                    self.set_fd(ev.pid, ev.result_fd, p);
                } else {
                    self.set_cwd(ev.pid, p);
                }
            },
            None => {},
        }
    }

    /// Keeps a creation, with the directory that its path starts from or a note
    /// why there is none.
    pub fn capture(&mut self, ev: &Event, found: Result<HostPath, String>) -> (r: Outcome)
        ensures
            final(self)@ == old(self)@.with_creation(*ev, link_target(found)),
            r == old(self)@.push_outcome(),
            old(self)@.wf() ==> final(self)@.wf(),
    {
        let ghost before = self@;
        let ghost target = link_target(found);
        let raw_path = cstr_to_string(&ev.path);
        let mut resolved_base: Option<HostPath> = None;
        let mut resolve_note: Option<String> = None;
        if !HostPath::from_text(raw_path.as_str()).absolute() {
            if ev.dirfd == AT_FDCWD {
                let known = copy_opt(self.known_cwd(ev.pid));
                match known {
                    Some(p) => {
                        resolved_base = Some(p);
                    },
                    None => match found {
                        Ok(p) => {
                            self.set_cwd(ev.pid, p.clone());
                            resolved_base = Some(p);
                        },
                        Err(_) => {
                            let mut note = "cwd for pid ".to_string();
                            note.append(decimal_text(ev.pid as u64).as_str());
                            note.append(" not known");
                            resolve_note = Some(note);
                        },
                    },
                }
            } else if ev.dirfd >= 0 {
                let known = copy_opt(self.known_fd(ev.pid, ev.dirfd));
                match known {
                    Some(p) => {
                        resolved_base = Some(p);
                    },
                    None => match found {
                        Ok(p) => {
                            resolved_base = Some(p);
                        },
                        Err(e) => {
                            let mut note = "readlink ".to_string();
                            note.append(fd_link_text(ev.pid, ev.dirfd).as_str());
                            note.append(" failed: ");
                            note.append(e.as_str());
                            resolve_note = Some(note);
                        },
                    },
                }
            } else {
                let mut note = "unrecognized dirfd ".to_string();
                note.append(signed_text(ev.dirfd).as_str());
                resolve_note = Some(note);
            }
        }
        let kept = CapturedEvent {
            ts_ns: ev.ts_ns,
            pid: ev.pid,
            syscall: ev.etype,
            dirfd: ev.dirfd,
            flags: ev.flags,
            truncated: ev.truncated != 0,
            raw_path,
            resolved_base,
            resolve_note,
        };
        assert(kept@ == before.capture_of(*ev, target));
        self.push_event(kept)
    }

    /// Deals with a record; `found` is what the link that `lookup` asks for
    /// turned out to hold, or why it could not be read.
    pub fn handle_event(&mut self, ev: &Event, found: Result<HostPath, String>) -> (r: Outcome)
        ensures
            final(self)@ == old(self)@.after(*ev, link_target(found)),
            r == old(self)@.outcome(*ev, link_target(found)),
            old(self)@.wf() ==> final(self)@.wf(),
    {
        if ev.etype == EV_EXIT_TRACKED {
            self.forget(ev.pid);
            return Outcome::Exited;
        }
        if creates(ev.etype) {
            return self.capture(ev, found);
        }
        if ev.etype != EV_FORK_TRACKED && ev.etype != EV_CHDIR && ev.etype != EV_FCHDIR && ev.etype
            != EV_OPENAT_DIR {
            return Outcome::Unrecognized;
        }
        let target = match found {
            Ok(p) => Some(p),
            Err(_) => None,
        };
        let spoken = self.spoken_dir(ev, target);
        let told = spoken.is_some();
        let dir = match spoken {
            Some(p) => if ev.etype == EV_CHDIR || ev.etype == EV_OPENAT_DIR {
                Some(p.clean())
            } else {
                Some(p)
            },
            None => None,
        };
        self.enter(ev, dir);
        if ev.etype == EV_FORK_TRACKED {
            Outcome::Forked
        } else if ev.etype == EV_OPENAT_DIR {
            if told {
                Outcome::DirOpened
            } else {
                Outcome::DirUnknown
            }
        } else if told {
            Outcome::CwdChanged
        } else {
            Outcome::CwdUnknown
        }
    }
}

} // verus!
