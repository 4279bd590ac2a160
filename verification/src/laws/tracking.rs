//! What each kind of record does to what is known of the traced processes.
//!
//! The kinds are written as the numbers that the BPF program uses for them.

use crate::bpf_events::Event;
use crate::hostpath;
use crate::hostpath::HostPath;
use crate::pathres;
use crate::text;
use crate::tracker;
use crate::tracker::{Lookup, Outcome, State, StateView};
use vstd::prelude::*;
use vstd::utf8::*;

verus! {

/// The numbers of the records that report a creation: an opened, made, renamed,
/// symbolically linked or linked file, and a special file.
pub open spec fn numbers_a_creation(etype: u32) -> bool {
    3 <= etype <= 7 || etype == 11
}

/// Nothing is known afterwards of the other processes that was not known before, and
/// nothing is forgotten.
pub open spec fn others_stay(s: StateView, t: StateView, pid: u32) -> bool {
    &&& forall|q: u32|
        q != pid ==> (#[trigger] t.cwds.contains_key(q) <==> s.cwds.contains_key(q))
    &&& forall|q: u32| q != pid && s.cwds.contains_key(q) ==> #[trigger] t.cwds[q] == s.cwds[q]
}

/// A creation moves nobody: a directory that is known stays, and so does every
/// descriptor. A directory becomes known by a creation only where it was not, for a
/// path relative to it, and is then what the link held.
pub proof fn law_creations_move_nobody(s: StateView, ev: Event, found: Result<Seq<u8>, Seq<char>>)
    requires
        numbers_a_creation(ev.etype),
    ensures
        s.after(ev, found).fds == s.fds,
        forall|pid: u32|
            s.cwds.contains_key(pid) ==> s.after(ev, found).cwds.contains_key(pid)
                && #[trigger] s.after(ev, found).cwds[pid] == s.cwds[pid],
        forall|pid: u32| #[trigger]
            s.after(ev, found).cwds.contains_key(pid) && !s.cwds.contains_key(pid) ==> pid == ev.pid
                && ev.dirfd == -100 && !hostpath::is_absolute(tracker::raw_path(ev)) && found == Ok::<
                Seq<u8>,
                Seq<char>,
            >(s.after(ev, found).cwds[pid]),
        !s.cwds.contains_key(ev.pid) && ev.dirfd == -100 && !hostpath::is_absolute(
            tracker::raw_path(ev),
        ) && found is Ok ==> s.after(ev, found).cwds.contains_key(ev.pid),
{
}

/// Every creation is kept as long as there is room, and once there is none it is
/// dropped without a trace but the warning.
pub proof fn law_creations_are_kept(s: StateView, ev: Event, found: Result<Seq<u8>, Seq<char>>)
    requires
        numbers_a_creation(ev.etype),
    ensures
        s.events.len() < 100_000 ==> {
            &&& s.after(ev, found).events.len() == s.events.len() + 1
            &&& s.after(ev, found).events.drop_last() == s.events
            &&& s.after(ev, found).overflow_warned == s.overflow_warned
            &&& s.outcome(ev, found) == Outcome::Captured
        },
        s.events.len() >= 100_000 ==> {
            &&& s.after(ev, found).events == s.events
            &&& s.after(ev, found).overflow_warned
            &&& s.outcome(ev, found) == (Outcome::Dropped { first: !s.overflow_warned })
        },
{
    if s.events.len() < 100_000 {
        assert(s.after(ev, found).events.drop_last() =~= s.events);
    }
}

/// What is kept of a creation is what its record said.
pub proof fn law_kept_creation_is_the_recorded_one(
    s: StateView,
    ev: Event,
    found: Result<Seq<u8>, Seq<char>>,
)
    requires
        numbers_a_creation(ev.etype),
        s.events.len() < 100_000,
    ensures
        ({
            let kept = s.after(ev, found).events.last();
            &&& kept.ts_ns == ev.ts_ns
            &&& kept.pid == ev.pid
            &&& kept.syscall == ev.etype
            &&& kept.dirfd == ev.dirfd
            &&& kept.flags == ev.flags
            &&& kept.truncated <==> ev.truncated != 0
            &&& encode_utf8(kept.raw_path) == tracker::raw_path(ev)
        }),
{
}

/// The directory that the path of a creation starts from: none for an absolute path;
/// for the current directory or a descriptor the one that is known, or else what the
/// link held; none for any other descriptor.
pub proof fn law_creations_start_from_their_directory(
    s: StateView,
    ev: Event,
    found: Result<Seq<u8>, Seq<char>>,
)
    requires
        numbers_a_creation(ev.etype),
        s.events.len() < 100_000,
    ensures
        ({
            let base = s.after(ev, found).events.last().resolved_base;
            let note = s.after(ev, found).events.last().resolve_note;
            let relative = !hostpath::is_absolute(tracker::raw_path(ev));
            let here = relative && ev.dirfd == -100;
            let below = relative && ev.dirfd >= 0;
            let known_here = s.cwds.contains_key(ev.pid);
            let known_below = s.fds.contains_key((ev.pid, ev.dirfd));
            &&& here && known_here ==> base == Some(s.cwds[ev.pid])
            &&& below && known_below ==> base == Some(s.fds[(ev.pid, ev.dirfd)])
            &&& ((here && !known_here) || (below && !known_below)) && found is Ok ==> base == Some(
                found->Ok_0,
            )
            &&& ((here && !known_here) || (below && !known_below)) && found is Err ==> base is None
            &&& !here && !below ==> base is None
            &&& note is Some <==> relative && base is None
            &&& here && base is None ==> note == Some(
                "cwd for pid "@ + text::decimal(ev.pid as nat) + " not known"@,
            )
            &&& below && base is None ==> note == Some(
                "readlink "@ + ("/proc/"@ + text::decimal(ev.pid as nat) + "/fd/"@
                    + text::signed_decimal(ev.dirfd as int)) + " failed: "@ + found->Err_0,
            )
            &&& relative && !here && !below ==> note == Some(
                "unrecognized dirfd "@ + text::signed_decimal(ev.dirfd as int),
            )
        }),
{
}

/// Only creations are kept as events.
pub proof fn law_other_records_keep_no_event(
    s: StateView,
    ev: Event,
    found: Result<Seq<u8>, Seq<char>>,
)
    requires
        !numbers_a_creation(ev.etype),
    ensures
        s.after(ev, found).events == s.events,
        s.after(ev, found).overflow_warned == s.overflow_warned,
        s.outcome(ev, found) != Outcome::Captured,
        !(s.outcome(ev, found) is Dropped),
{
}

/// A fork tells where the child is and nothing else: where its parent is, or else
/// where its own link led; descriptors are not inherited.
pub proof fn law_fork_places_the_child(s: StateView, ev: Event, found: Result<Seq<u8>, Seq<char>>)
    requires
        ev.etype == 1,
    ensures
        s.after(ev, found).fds == s.fds,
        others_stay(s, s.after(ev, found), ev.pid),
        s.outcome(ev, found) == Outcome::Forked,
        s.cwds.contains_key(ev.ppid) ==> s.after(ev, found).cwds.contains_key(ev.pid) && s.after(
            ev,
            found,
        ).cwds[ev.pid] == s.cwds[ev.ppid],
        !s.cwds.contains_key(ev.ppid) && found is Ok ==> s.after(ev, found).cwds.contains_key(
            ev.pid,
        ) && s.after(ev, found).cwds[ev.pid] == found->Ok_0,
        !s.cwds.contains_key(ev.ppid) && found is Err ==> s.after(ev, found).cwds == s.cwds,
{
}

/// An exit forgets the process, its descriptors, and nothing else.
pub proof fn law_exit_forgets_the_process_only(
    s: StateView,
    ev: Event,
    found: Result<Seq<u8>, Seq<char>>,
)
    requires
        ev.etype == 2,
    ensures
        others_stay(s, s.after(ev, found), ev.pid),
        !s.after(ev, found).cwds.contains_key(ev.pid),
        forall|k: (u32, i32)| #[trigger]
            s.after(ev, found).fds.contains_key(k) <==> s.fds.contains_key(k) && k.0 != ev.pid,
        forall|k: (u32, i32)|
            s.fds.contains_key(k) && k.0 != ev.pid ==> #[trigger] s.after(ev, found).fds[k]
                == s.fds[k],
        s.outcome(ev, found) == Outcome::Exited,
{
}

/// A change of directory by name leads to the name itself where it is absolute, and
/// otherwise to the name as seen from where the process was; if that cannot be told,
/// nothing changes.
pub proof fn law_chdir_moves_the_process(s: StateView, ev: Event, found: Result<Seq<u8>, Seq<char>>)
    requires
        ev.etype == 8,
    ensures
        ({
            let t = s.after(ev, found);
            let name = tracker::raw_path(ev);
            let known = s.cwds.contains_key(ev.pid);
            let gone = !hostpath::is_absolute(name) && !known && found is Err;
            &&& t.fds == s.fds
            &&& others_stay(s, t, ev.pid)
            &&& gone ==> t.cwds == s.cwds && s.outcome(ev, found) == Outcome::CwdUnknown
            &&& !gone ==> t.cwds.contains_key(ev.pid) && s.outcome(ev, found) == Outcome::CwdChanged
            &&& hostpath::is_absolute(name) ==> t.cwds[ev.pid] == hostpath::cleaned(name)
            &&& !hostpath::is_absolute(name) && known ==> t.cwds[ev.pid] == hostpath::cleaned(
                hostpath::joined(s.cwds[ev.pid], name),
            )
            &&& !hostpath::is_absolute(name) && !known && found is Ok ==> t.cwds[ev.pid]
                == hostpath::cleaned(hostpath::joined(found->Ok_0, name))
        }),
{
}

/// A change of directory by descriptor leads to what is known of the descriptor, or
/// else to what its link held; if neither, nothing changes.
pub proof fn law_fchdir_moves_the_process(
    s: StateView,
    ev: Event,
    found: Result<Seq<u8>, Seq<char>>,
)
    requires
        ev.etype == 9,
    ensures
        ({
            let t = s.after(ev, found);
            let known = s.fds.contains_key((ev.pid, ev.dirfd));
            &&& t.fds == s.fds
            &&& others_stay(s, t, ev.pid)
            &&& known ==> t.cwds.contains_key(ev.pid) && t.cwds[ev.pid] == s.fds[(ev.pid, ev.dirfd)]
            &&& !known && found is Ok ==> t.cwds.contains_key(ev.pid) && t.cwds[ev.pid]
                == found->Ok_0
            &&& !known && found is Err ==> t.cwds == s.cwds && s.outcome(ev, found)
                == Outcome::CwdUnknown
            &&& known || found is Ok ==> s.outcome(ev, found) == Outcome::CwdChanged
        }),
{
}

/// The opening of a directory tells what is behind the new descriptor and moves
/// nobody.
pub proof fn law_opened_directory_is_remembered(
    s: StateView,
    ev: Event,
    found: Result<Seq<u8>, Seq<char>>,
)
    requires
        ev.etype == 10,
    ensures
        ({
            let t = s.after(ev, found);
            let name = tracker::raw_path(ev);
            let k = (ev.pid, ev.result_fd);
            let here = !hostpath::is_absolute(name) && ev.dirfd == -100;
            let below = !hostpath::is_absolute(name) && ev.dirfd >= 0;
            let known_here = s.cwds.contains_key(ev.pid);
            let known_below = s.fds.contains_key((ev.pid, ev.dirfd));
            let told = hostpath::is_absolute(name) || (here && known_here) || (below && known_below)
                || ((here || below) && found is Ok);
            &&& t.cwds == s.cwds
            &&& forall|j: (u32, i32)|
                j != k ==> (#[trigger] t.fds.contains_key(j) <==> s.fds.contains_key(j))
            &&& forall|j: (u32, i32)| j != k && s.fds.contains_key(j) ==> #[trigger] t.fds[j] == s.fds[j]
            &&& told ==> t.fds.contains_key(k) && s.outcome(ev, found) == Outcome::DirOpened
            &&& !told ==> t.fds == s.fds && s.outcome(ev, found) == Outcome::DirUnknown
            &&& hostpath::is_absolute(name) ==> t.fds[k] == hostpath::cleaned(name)
            &&& here && known_here ==> t.fds[k] == hostpath::cleaned(
                hostpath::joined(s.cwds[ev.pid], name),
            )
            &&& below && known_below ==> t.fds[k] == hostpath::cleaned(
                hostpath::joined(s.fds[(ev.pid, ev.dirfd)], name),
            )
            &&& ((here && !known_here) || (below && !known_below)) && found is Ok ==> t.fds[k]
                == hostpath::cleaned(hostpath::joined(found->Ok_0, name))
        }),
{
}

/// A record of any other kind changes nothing.
pub proof fn law_unknown_kinds_change_nothing(
    s: StateView,
    ev: Event,
    found: Result<Seq<u8>, Seq<char>>,
)
    requires
        ev.etype == 0 || ev.etype > 11,
    ensures
        s.after(ev, found) == s,
        s.outcome(ev, found) == Outcome::Unrecognized,
        s.lookup(ev) == Lookup::Nothing,
{
}

/// A link is read only for the process of the record, and only where what it holds is
/// not known: the current directory where that of the process, or at a fork that of
/// its parent, is missing; a descriptor where it is the one of the record and missing.
pub proof fn law_links_are_read_only_for_what_is_missing(s: StateView, ev: Event)
    ensures
        s.lookup(ev) matches Lookup::Cwd { pid } ==> pid == ev.pid && (if ev.etype == 1 {
            !s.cwds.contains_key(ev.ppid)
        } else {
            !s.cwds.contains_key(ev.pid) && !hostpath::is_absolute(tracker::raw_path(ev))
        }),
        s.lookup(ev) matches Lookup::Fd { pid, fd } ==> pid == ev.pid && fd == ev.dirfd
            && !s.fds.contains_key((ev.pid, ev.dirfd)) && ev.etype != 1 && ev.etype != 8,
        ev.etype == 2 ==> s.lookup(ev) == Lookup::Nothing,
{
}

/// A link that is read is put to use: whether it could be read, and what it held, is
/// seen in what is known afterwards.
pub proof fn law_links_that_are_read_matter(s: StateView, ev: Event, dir: Seq<u8>, why: Seq<char>)
    requires
        s.lookup(ev) != Lookup::Nothing,
        s.events.len() < 100_000,
    ensures
        ({
            let t = s.after(ev, Ok(dir));
            let u = s.after(ev, Err(why));
            &&& ev.etype == 1 || ev.etype == 9 ==> t.cwds.contains_key(ev.pid) && t.cwds[ev.pid]
                == dir && u == s
            &&& ev.etype == 8 || ev.etype == 10 ==> u == s
            &&& numbers_a_creation(ev.etype) ==> t.events.last().resolved_base == Some(dir)
                && u.events.last().resolved_base is None && u.events.last().resolve_note is Some
        }),
{
}

/// Whatever the record, handling it leaves the event list as it was or with one event
/// more behind it, leaves every other process alone, and says what happened.
pub proof fn law_handling_is_what_the_record_does(
    state: &mut State,
    ev: &Event,
    found: Result<HostPath, String>,
    r: Outcome,
)
    requires
        call_ensures(State::handle_event, (state, ev, found), r),
    ensures
        final(state)@ == old(state)@.after(*ev, tracker::link_target(found)),
        r == old(state)@.outcome(*ev, tracker::link_target(found)),
        others_stay(old(state)@, final(state)@, ev.pid),
        old(state)@.events.is_prefix_of(final(state)@.events),
        final(state)@.events.len() <= old(state)@.events.len() + 1,
        final(state)@.events.len() == old(state)@.events.len() + 1 <==> r == Outcome::Captured,
{
    let before = old(state)@.events;
    let after = final(state)@.events;
    assert(before =~= after.subrange(0, before.len() as int));
}

/// Keeping a creation and handling its record come to the same.
pub proof fn law_capturing_is_handling(
    state: &mut State,
    ev: &Event,
    found: Result<HostPath, String>,
    r: Outcome,
)
    requires
        call_ensures(State::capture, (state, ev, found), r),
        numbers_a_creation(ev.etype),
    ensures
        final(state)@ == old(state)@.after(*ev, tracker::link_target(found)),
        final(state)@.fds == old(state)@.fds,
        old(state)@.cwds.contains_key(ev.pid) ==> final(state)@.cwds == old(state)@.cwds,
        r == old(state)@.outcome(*ev, tracker::link_target(found)),
{
}

/// The link that is asked for is named as `/proc` names it.
pub proof fn law_links_are_named_as_in_proc(l: &Lookup, r: Option<String>)
    requires
        call_ensures(Lookup::link, (l,), r),
    ensures
        *l == Lookup::Nothing <==> r is None,
        *l matches Lookup::Cwd { pid } ==> r->0@ == "/proc/"@ + text::decimal(pid as nat) + "/cwd"@,
        *l matches Lookup::Fd { pid, fd } ==> "/proc/"@.is_prefix_of(r->0@) && r->0@ == "/proc/"@
            + text::decimal(pid as nat) + "/fd/"@ + text::signed_decimal(fd as int),
{
    if let Lookup::Fd { pid, fd } = *l {
        let name = r->0@;
        assert("/proc/"@ =~= name.subrange(0, "/proc/"@.len() as int));
    }
}

/// Asking for a link changes nothing, and the one that is asked for is the one that
/// the record needs.
pub proof fn law_lookup_is_of_the_record(state: &State, ev: &Event, r: Lookup)
    requires
        call_ensures(State::lookup, (state, ev), r),
    ensures
        r == state@.lookup(*ev),
        r matches Lookup::Cwd { pid } ==> pid == ev.pid,
        r matches Lookup::Fd { pid, fd } ==> pid == ev.pid && fd == ev.dirfd,
        ev.etype == 9 && !state@.fds.contains_key((ev.pid, ev.dirfd)) ==> r == (Lookup::Fd {
            pid: ev.pid,
            fd: ev.dirfd,
        }),
        ev.etype == 1 && !state@.cwds.contains_key(ev.ppid) ==> r == (Lookup::Cwd { pid: ev.pid }),
        (ev.etype == 8 || ((ev.etype == 10 || numbers_a_creation(ev.etype)) && ev.dirfd == -100))
            && !hostpath::is_absolute(tracker::raw_path(*ev)) && !state@.cwds.contains_key(ev.pid)
            ==> r == (Lookup::Cwd { pid: ev.pid }),
        (ev.etype == 10 || numbers_a_creation(ev.etype)) && ev.dirfd >= 0 && !hostpath::is_absolute(
            tracker::raw_path(*ev),
        ) && !state@.fds.contains_key((ev.pid, ev.dirfd)) ==> r == (Lookup::Fd {
            pid: ev.pid,
            fd: ev.dirfd,
        }),
{
}

/// What is remembered by hand is found again, and nothing else changes.
pub proof fn law_set_directory_is_known(state: &mut State, pid: u32, dir: HostPath)
    requires
        call_ensures(State::set_cwd, (state, pid, dir), ()),
    ensures
        final(state)@.cwds.contains_key(pid) && final(state)@.cwds[pid] == dir@,
        others_stay(old(state)@, final(state)@, pid),
        final(state)@.fds == old(state)@.fds,
        final(state)@.events == old(state)@.events,
{
}

/// At the start nothing is known, nothing was captured and nothing was said.
pub proof fn law_nothing_is_known_at_the_start(r: State)
    requires
        call_ensures(State::new, (), r),
    ensures
        r@.events.len() == 0,
        !r@.overflow_warned,
        forall|pid: u32| !#[trigger] r@.cwds.contains_key(pid),
        forall|k: (u32, i32)| !#[trigger] r@.fds.contains_key(k),
{
}

/// A directory that is remembered for a descriptor is found under it, and nothing else
/// changes.
pub proof fn law_set_descriptor_is_known(state: &mut State, pid: u32, fd: i32, dir: HostPath)
    requires
        call_ensures(State::set_fd, (state, pid, fd, dir), ()),
    ensures
        final(state)@.fds.contains_key((pid, fd)) && final(state)@.fds[(pid, fd)] == dir@,
        forall|k: (u32, i32)|
            k != (pid, fd) ==> (#[trigger] final(state)@.fds.contains_key(k)
                <==> old(state)@.fds.contains_key(k)),
        forall|k: (u32, i32)|
            k != (pid, fd) && old(state)@.fds.contains_key(k) ==> #[trigger] final(state)@.fds[k]
                == old(state)@.fds[k],
        final(state)@.cwds == old(state)@.cwds,
        final(state)@.events == old(state)@.events,
{
}

/// The path of a record is what stands in front of the first zero byte of its
/// buffer, or all of the buffer where there is none.
pub proof fn law_recorded_path_ends_at_zero(ev: Event, name: Seq<u8>, rest: Seq<u8>)
    requires
        ev.path@ == name.push(0u8) + rest || ev.path@ == name,
        forall|i: int| 0 <= i < name.len() ==> #[trigger] name[i] != 0,
    ensures
        tracker::raw_path(ev) == encode_utf8(text::shown(name)),
        valid_utf8(name) ==> tracker::raw_path(ev) == name,
{
    lemma_name_before_zero(name, rest);
    if valid_utf8(name) {
        decode_utf8_encode_utf8(name);
    }
}

proof fn lemma_name_before_zero(name: Seq<u8>, rest: Seq<u8>)
    requires
        forall|i: int| 0 <= i < name.len() ==> #[trigger] name[i] != 0,
    ensures
        pathres::until_nul(name.push(0u8) + rest) == name,
        pathres::until_nul(name) == name,
    decreases name.len(),
{
    let whole = name.push(0u8) + rest;
    if name.len() == 0 {
        assert(whole.first() == 0);
        assert(name =~= Seq::empty());
    } else {
        let tail = name.drop_first();
        assert(whole.first() == name[0]);
        assert(whole.drop_first() =~= tail.push(0u8) + rest);
        assert forall|i: int| 0 <= i < tail.len() implies #[trigger] tail[i] != 0 by {
            assert(tail[i] == name[i + 1]);
        }
        lemma_name_before_zero(tail, rest);
        assert(seq![name[0]] + tail =~= name);
    }
}

} // verus!
