//! What holds of the library as a whole.

pub mod arguments;
pub mod host;
pub mod kinds;
pub mod paths;
pub mod records;
pub mod removal;
pub mod reports;
pub mod texts;
pub mod tracking;

use crate::bpf_events;
use crate::bpf_events::{
    Event, AT_FDCWD, EV_CHDIR, EV_EXIT_TRACKED, EV_FCHDIR, EV_FORK_TRACKED, EV_OPENAT_CREATE,
    EV_OPENAT_DIR,
};
use crate::cli;
use crate::cli::NocruftFlags;
use crate::delete;
use crate::hostpath;
use crate::order;
use crate::output;
use crate::output::{JsonView, PathFacts, Setup};
use crate::pathres;
use crate::pathres::CapturedView;
use crate::text;
use crate::tracker;
use crate::tracker::{Lookup, Outcome, StateView, MAX_EVENTS};
use vstd::prelude::*;
use vstd::utf8::*;

verus! {

/// What is known is used before anything is looked up: where no link has to be
/// read, what a link would have held makes no difference.
pub proof fn law_known_state_needs_no_lookup(
    s: StateView,
    ev: Event,
    a: Result<Seq<u8>, Seq<char>>,
    b: Result<Seq<u8>, Seq<char>>,
)
    requires
        s.lookup(ev) == Lookup::Nothing,
    ensures
        s.after(ev, a) == s.after(ev, b),
        s.outcome(ev, a) == s.outcome(ev, b),
{
}

/// A record changes what is known of its own process and of no other.
pub proof fn law_records_touch_their_process_only(
    s: StateView,
    ev: Event,
    found: Result<Seq<u8>, Seq<char>>,
    pid: u32,
    fd: i32,
)
    requires
        pid != ev.pid,
    ensures
        s.after(ev, found).cwd_of(pid) == s.cwd_of(pid),
        s.after(ev, found).fd_of(pid, fd) == s.fd_of(pid, fd),
{
}

/// A child starts in the directory of its parent, whose own directory stays.
pub proof fn law_fork_inherits_directory(
    s: StateView,
    ev: Event,
    found: Result<Seq<u8>, Seq<char>>,
)
    requires
        ev.etype == EV_FORK_TRACKED,
        s.cwd_of(ev.ppid) is Some,
    ensures
        s.after(ev, found).cwd_of(ev.pid) == s.cwd_of(ev.ppid),
        s.after(ev, found).cwd_of(ev.ppid) == s.cwd_of(ev.ppid),
{
}

/// Once a process is gone nothing is known of it.
pub proof fn law_exit_forgets(
    s: StateView,
    ev: Event,
    found: Result<Seq<u8>, Seq<char>>,
    fd: i32,
)
    requires
        ev.etype == EV_EXIT_TRACKED,
    ensures
        s.after(ev, found).cwd_of(ev.pid) is None,
        s.after(ev, found).fd_of(ev.pid, fd) is None,
{
}

/// What the opening of a directory told is what a change to its descriptor leads
/// to, whatever else could be looked up by then.
pub proof fn law_opened_directory_is_entered(
    s: StateView,
    open: Event,
    at_open: Result<Seq<u8>, Seq<char>>,
    enter: Event,
    at_enter: Result<Seq<u8>, Seq<char>>,
)
    requires
        open.etype == EV_OPENAT_DIR,
        s.outcome(open, at_open) == Outcome::DirOpened,
        enter.etype == EV_FCHDIR,
        enter.pid == open.pid,
        enter.dirfd == open.result_fd,
    ensures
        s.after(open, at_open).lookup(enter) == Lookup::Nothing,
        s.after(open, at_open).after(enter, at_enter).cwd_of(enter.pid) == s.entered_dir(
            open,
            tracker::target_of(at_open),
        ),
{
}

/// What is created below the descriptor of a directory that was opened while its
/// process was followed starts from that directory, whatever the link under `/proc`
/// holds by then.
pub proof fn law_creations_below_opened_directory(
    s: StateView,
    open: Event,
    at_open: Result<Seq<u8>, Seq<char>>,
    create: Event,
    at_create: Result<Seq<u8>, Seq<char>>,
)
    requires
        open.etype == EV_OPENAT_DIR,
        s.outcome(open, at_open) == Outcome::DirOpened,
        bpf_events::is_creation(create.etype),
        create.pid == open.pid,
        create.dirfd == open.result_fd,
        create.dirfd >= 0,
        !hostpath::is_absolute(tracker::raw_path(create)),
    ensures
        s.after(open, at_open).lookup(create) == Lookup::Nothing,
        s.after(open, at_open).capture_of(create, at_create).resolved_base == s.entered_dir(
            open,
            tracker::target_of(at_open),
        ),
        s.after(open, at_open).capture_of(create, at_create).resolve_note is None,
{
}

/// After a change of directory the relative creations of the process start from
/// the new directory.
pub proof fn law_creations_follow_directory(
    s: StateView,
    enter: Event,
    at_enter: Result<Seq<u8>, Seq<char>>,
    create: Event,
    at_create: Result<Seq<u8>, Seq<char>>,
)
    requires
        enter.etype == EV_CHDIR || enter.etype == EV_FCHDIR,
        s.outcome(enter, at_enter) == Outcome::CwdChanged,
        bpf_events::is_creation(create.etype),
        create.pid == enter.pid,
        create.dirfd == AT_FDCWD,
        !hostpath::is_absolute(tracker::raw_path(create)),
    ensures
        s.after(enter, at_enter).lookup(create) == Lookup::Nothing,
        s.after(enter, at_enter).capture_of(create, at_create).resolved_base == s.entered_dir(
            enter,
            tracker::target_of(at_enter),
        ),
        s.after(enter, at_enter).capture_of(create, at_create).resolve_note is None,
{
}

/// Events are kept in the order of their arrival and never taken back: a record
/// adds at most one, behind all others, and only a creation adds one.
pub proof fn law_events_only_grow(s: StateView, ev: Event, found: Result<Seq<u8>, Seq<char>>)
    ensures
        s.after(ev, found).events == (if bpf_events::is_creation(ev.etype) && s.events.len()
            < MAX_EVENTS {
            s.events.push(s.capture_of(ev, found))
        } else {
            s.events
        }),
{
}

/// A creation has a base or an absolute path, or says why it has none.
pub proof fn law_unresolved_creations_are_explained(
    s: StateView,
    ev: Event,
    found: Result<Seq<u8>, Seq<char>>,
)
    ensures
        (pathres::located(s.capture_of(ev, found)) is None) == (s.capture_of(
            ev,
            found,
        ).resolve_note is Some),
{
}

/// The number of events never passes the limit.
pub proof fn law_limit_is_kept(s: StateView, ev: Event, found: Result<Seq<u8>, Seq<char>>)
    requires
        s.wf(),
    ensures
        s.after(ev, found).wf(),
{
}

/// A record together with what was found for it.
pub struct Input {
    pub ev: Event,
    pub found: Result<Seq<u8>, Seq<char>>,
}

/// The state after a run of records.
pub open spec fn after_run(s: StateView, run: Seq<Input>) -> StateView
    decreases run.len(),
{
    if run.len() == 0 {
        s
    } else {
        after_run(s, run.drop_last()).after(run.last().ev, run.last().found)
    }
}

/// What became of the record at position `i` of a run.
pub open spec fn outcome_at(s: StateView, run: Seq<Input>, i: int) -> Outcome {
    after_run(s, run.take(i)).outcome(run[i].ev, run[i].found)
}

/// Over a whole run the limit on the events is kept.
pub proof fn law_limit_is_kept_over_run(s: StateView, run: Seq<Input>)
    requires
        s.wf(),
    ensures
        after_run(s, run).wf(),
        after_run(s, run).events.len() <= MAX_EVENTS,
    decreases run.len(),
{
    if run.len() > 0 {
        law_limit_is_kept_over_run(s, run.drop_last());
    }
}

/// What is known of a process that no record of a run is about does not change.
pub proof fn law_other_processes_unchanged_over_run(s: StateView, run: Seq<Input>, pid: u32, fd: i32)
    requires
        forall|i: int| 0 <= i < run.len() ==> (#[trigger] run[i]).ev.pid != pid,
    ensures
        after_run(s, run).cwd_of(pid) == s.cwd_of(pid),
        after_run(s, run).fd_of(pid, fd) == s.fd_of(pid, fd),
    decreases run.len(),
{
    if run.len() > 0 {
        let last = run.last();
        assert(run[run.len() - 1] == last);
        law_other_processes_unchanged_over_run(s, run.drop_last(), pid, fd);
        law_records_touch_their_process_only(
            after_run(s, run.drop_last()),
            last.ev,
            last.found,
            pid,
            fd,
        );
    }
}

proof fn lemma_warning_stays(s: StateView, run: Seq<Input>, i: int)
    requires
        0 <= i <= run.len(),
        after_run(s, run.take(i)).overflow_warned,
    ensures
        after_run(s, run).overflow_warned,
    decreases run.len(),
{
    if i == run.len() {
        assert(run.take(i) =~= run);
    } else {
        assert(run.drop_last().take(i) =~= run.take(i));
        lemma_warning_stays(s, run.drop_last(), i);
    }
}

/// That events are being dropped is said once.
pub proof fn law_overflow_is_reported_once(s: StateView, run: Seq<Input>, i: int, j: int)
    requires
        0 <= i < j < run.len(),
        outcome_at(s, run, i) == (Outcome::Dropped { first: true }),
    ensures
        outcome_at(s, run, j) != (Outcome::Dropped { first: true }),
{
    assert(run.take(i + 1).drop_last() =~= run.take(i));
    assert(run.take(i + 1).last() == run[i]);
    assert(after_run(s, run.take(i + 1)).overflow_warned);
    assert(run.take(j).take(i + 1) =~= run.take(i + 1));
    lemma_warning_stays(s, run.take(j), i + 1);
}

/// The parts of an entry of a directory are those of the directory and the name.
pub proof fn law_entry_has_one_more_part(dir: Seq<u8>, name: Seq<u8>)
    requires
        dir.len() > 0,
        hostpath::is_plain_name(name),
    ensures
        hostpath::components(hostpath::joined(dir, name)) == hostpath::components(dir).push(
            hostpath::Part::Name(name),
        ),
{
    hostpath::lemma_joined_part(dir, hostpath::Part::Name(name));
}

/// An entry of a clean absolute directory is a clean absolute path.
pub proof fn law_entry_of_clean_directory_is_clean(dir: Seq<u8>, name: Seq<u8>)
    requires
        hostpath::is_clean(dir),
        hostpath::is_absolute(dir),
        hostpath::is_plain_name(name),
    ensures
        hostpath::is_clean(hostpath::joined(dir, name)),
        hostpath::is_absolute(hostpath::joined(dir, name)),
        hostpath::cleaned(hostpath::joined(dir, name)) == hostpath::joined(dir, name),
{
    law_entry_has_one_more_part(dir, name);
    let list = hostpath::components(dir);
    let new = list.push(hostpath::Part::Name(name));
    assert(new.drop_last() =~= list);
    assert(list[0] is Root);
    assert(new[0] == list[0]);
    assert forall|i: int| 0 <= i < new.len() implies !(#[trigger] new[i] is Current) by {
        if i < list.len() {
            assert(new[i] == list[i]);
        }
    }
    assert forall|i: int, j: int|
        0 <= i <= j < new.len() && (#[trigger] new[j]) is Parent implies (
    #[trigger] new[i]) is Parent by {
        if j < list.len() {
            assert(new[j] == list[j]);
            assert(new[i] == list[i]);
        }
    }
    hostpath::lemma_clean_stays(hostpath::joined(dir, name));
}

/// A process that enters a directory by its name, as `mkdir -p` does on its way
/// down, is then known to be in that entry of the directory it was in.
pub proof fn law_step_down_is_followed(
    s: StateView,
    ev: Event,
    found: Result<Seq<u8>, Seq<char>>,
    dir: Seq<u8>,
)
    requires
        ev.etype == EV_CHDIR,
        s.cwd_of(ev.pid) == Some(dir),
        hostpath::is_clean(dir),
        hostpath::is_absolute(dir),
        hostpath::is_plain_name(tracker::raw_path(ev)),
    ensures
        s.after(ev, found).cwd_of(ev.pid) == Some(hostpath::joined(dir, tracker::raw_path(ev))),
        hostpath::is_clean(hostpath::joined(dir, tracker::raw_path(ev))),
        hostpath::is_absolute(hostpath::joined(dir, tracker::raw_path(ev))),
{
    law_entry_of_clean_directory_is_clean(dir, tracker::raw_path(ev));
    assert(tracker::raw_path(ev)[0] != hostpath::SLASH);
}

/// A path that was brought to its shortest form stays as it is when that is done
/// again.
pub proof fn law_cleaning_is_idempotent(p: Seq<u8>)
    ensures
        hostpath::is_clean(hostpath::cleaned(p)),
        hostpath::cleaned(hostpath::cleaned(p)) == hostpath::cleaned(p),
{
    hostpath::lemma_cleaned(p);
    hostpath::lemma_clean_stays(hostpath::cleaned(p));
}

/// From an entry of a clean absolute directory `..` leads back to the directory.
pub proof fn law_parent_undoes_entry(dir: Seq<u8>, name: Seq<u8>)
    requires
        hostpath::is_clean(dir),
        hostpath::is_absolute(dir),
        hostpath::is_plain_name(name),
    ensures
        hostpath::cleaned(
            hostpath::joined(hostpath::joined(dir, name), seq![hostpath::DOT, hostpath::DOT]),
        ) == dir,
{
    law_entry_of_clean_directory_is_clean(dir, name);
    law_entry_has_one_more_part(dir, name);
    let entry = hostpath::joined(dir, name);
    let list = hostpath::components(dir);
    let inner = list.push(hostpath::Part::Name(name));
    assert(inner.last() is Name);
    hostpath::lemma_joined_part(entry, hostpath::Part::Parent);
    hostpath::lemma_reduced_stays(inner);
    assert(inner.push(hostpath::Part::Parent).drop_last() =~= inner);
    assert(inner.drop_last() =~= list);
}

/// A process that enters a directory by its name and leaves it through `..` is
/// known to be where it was.
pub proof fn law_step_up_is_followed(
    s: StateView,
    down: Event,
    up: Event,
    found: Result<Seq<u8>, Seq<char>>,
    found_next: Result<Seq<u8>, Seq<char>>,
    dir: Seq<u8>,
)
    requires
        down.etype == EV_CHDIR,
        up.etype == EV_CHDIR,
        up.pid == down.pid,
        s.cwd_of(down.pid) == Some(dir),
        hostpath::is_clean(dir),
        hostpath::is_absolute(dir),
        hostpath::is_plain_name(tracker::raw_path(down)),
        tracker::raw_path(up) == seq![hostpath::DOT, hostpath::DOT],
    ensures
        s.after(down, found).after(up, found_next).cwd_of(up.pid) == Some(dir),
{
    law_step_down_is_followed(s, down, found, dir);
    law_parent_undoes_entry(dir, tracker::raw_path(down));
}

/// What a process creates by a plain name lies in the directory that it is in.
pub proof fn law_plain_creation_resolves_in_directory(
    s: StateView,
    ev: Event,
    found: Result<Seq<u8>, Seq<char>>,
    dir: Seq<u8>,
)
    requires
        bpf_events::is_creation(ev.etype),
        ev.dirfd == AT_FDCWD,
        s.cwd_of(ev.pid) == Some(dir),
        hostpath::is_clean(dir),
        hostpath::is_absolute(dir),
        hostpath::is_plain_name(tracker::raw_path(ev)),
    ensures
        pathres::resolved(s.capture_of(ev, found)) == Some(
            hostpath::joined(dir, tracker::raw_path(ev)),
        ),
{
    law_entry_of_clean_directory_is_clean(dir, tracker::raw_path(ev));
    assert(tracker::raw_path(ev)[0] != hostpath::SLASH);
}

/// An absolute path means the same whatever the base.
pub proof fn law_absolute_paths_need_no_base(ev: CapturedView, base: Option<Seq<u8>>)
    requires
        hostpath::is_absolute(encode_utf8(ev.raw_path)),
    ensures
        pathres::resolved(CapturedView { resolved_base: base, ..ev }) == pathres::resolved(ev),
        pathres::resolved(ev) is Some,
{
}

/// The order of paths is a strict order that tells any two clean paths apart.
pub proof fn law_paths_are_ordered(a: Seq<u8>, b: Seq<u8>, c: Seq<u8>)
    ensures
        !hostpath::path_less(a, a),
        hostpath::path_less(a, b) && hostpath::path_less(b, c) ==> hostpath::path_less(a, c),
        hostpath::is_clean(a) && hostpath::is_clean(b) ==> a == b || hostpath::path_less(a, b)
            || hostpath::path_less(b, a),
{
    let x = hostpath::path_key(a);
    let y = hostpath::path_key(b);
    order::lemma_list_irreflexive(x);
    if hostpath::path_less(a, b) && hostpath::path_less(b, c) {
        order::lemma_list_transitive(x, y, hostpath::path_key(c));
    }
    order::lemma_list_total(x, y);
    if hostpath::is_clean(a) && hostpath::is_clean(b) && x == y {
        hostpath::lemma_clean_paths_spelled_once(a, b);
    }
}

/// A directory comes before what lies in it.
pub proof fn law_directory_before_entry(dir: Seq<u8>, name: Seq<u8>)
    requires
        dir.len() > 0,
        hostpath::is_plain_name(name),
    ensures
        hostpath::path_less(dir, hostpath::joined(dir, name)),
{
    law_entry_has_one_more_part(dir, name);
    let a = hostpath::path_key(dir);
    let b = hostpath::path_key(hostpath::joined(dir, name));
    assert(order::list_less_at(a, b, a.len() as int));
}

/// An event whose path was cut off is never reported.
pub proof fn law_truncated_is_never_reported(ev: CapturedView, facts: PathFacts, s: Setup)
    requires
        ev.truncated,
    ensures
        output::verdict(ev, facts, s) is None,
{
}

/// What the user wants to see is reported although a pattern excludes it or a
/// default leaves it out, as long as it is there or deleted paths are asked for.
pub proof fn law_wanted_paths_are_reported(ev: CapturedView, facts: PathFacts, s: Setup, p: Seq<u8>)
    requires
        !ev.truncated,
        pathres::resolved(ev) == Some(p),
        output::matches_one_of(s.includes, p),
    ensures
        output::verdict(ev, facts, s) == (if s.flags.include_deleted || facts.exists {
            Some(p)
        } else {
            None
        }),
{
}

/// What the user does not want to see is not reported, unless they also want it.
pub proof fn law_unwanted_paths_are_dropped(
    ev: CapturedView,
    facts: PathFacts,
    s: Setup,
    p: Seq<u8>,
)
    requires
        pathres::resolved(ev) == Some(p),
        output::matches_one_of(s.excludes, p),
        !output::matches_one_of(s.includes, p),
    ensures
        output::verdict(ev, facts, s) is None,
{
}

/// `more` asks for every kind of path that `less` asks for.
pub open spec fn asks_for_more(less: NocruftFlags, more: NocruftFlags) -> bool {
    &&& less.include_deleted ==> more.include_deleted
    &&& less.include_system ==> more.include_system
    &&& less.include_modified ==> more.include_modified
    &&& less.include_history ==> more.include_history
    &&& less.include_build ==> more.include_build
}

/// Asking for more kinds of paths takes none away, and changes none.
pub proof fn law_more_flags_report_more(
    ev: CapturedView,
    facts: PathFacts,
    s: Setup,
    more: NocruftFlags,
)
    requires
        asks_for_more(s.flags, more),
        output::verdict(ev, facts, s) is Some,
    ensures
        output::verdict(ev, facts, Setup { flags: more, ..s }) == output::verdict(ev, facts, s),
{
}

/// With every kind asked for and nothing excluded, everything that resolves is
/// reported.
pub proof fn law_all_flags_report_everything(ev: CapturedView, facts: PathFacts, s: Setup)
    requires
        s.flags.include_deleted,
        s.flags.include_system,
        s.flags.include_modified,
        s.flags.include_history,
        s.flags.include_build,
        s.excludes.len() == 0,
        !ev.truncated,
    ensures
        output::verdict(ev, facts, s) == pathres::resolved(ev),
{
}

/// The file system is asked no more than needed: where a probe does not want the
/// birth time, or there is no probe, the answer makes no difference.
pub proof fn law_unasked_facts_do_not_matter(ev: CapturedView, a: PathFacts, b: PathFacts, s: Setup)
    ensures
        a.exists == b.exists && !(ev.syscall == EV_OPENAT_CREATE && !s.flags.include_modified)
            ==> output::verdict(ev, a, s) == output::verdict(ev, b, s),
        ev.truncated || pathres::resolved(ev) is None ==> output::verdict(ev, a, s)
            == output::verdict(ev, b, s),
{
}

proof fn lemma_ordered_distinct(list: Seq<Seq<u8>>)
    requires
        output::strictly_ordered(list),
    ensures
        list.no_duplicates(),
{
    assert forall|i: int, j: int| 0 <= i < list.len() && 0 <= j < list.len() && i
        != j implies list[i] != list[j] by {
        order::lemma_list_irreflexive(hostpath::path_key(list[i]));
        if i < j {
            assert(hostpath::path_less(list[i], list[j]));
        } else {
            assert(hostpath::path_less(list[j], list[i]));
        }
    }
}

proof fn lemma_ordered_unique(a: Seq<Seq<u8>>, b: Seq<Seq<u8>>)
    requires
        output::strictly_ordered(a),
        output::strictly_ordered(b),
        forall|p: Seq<u8>| #[trigger] a.contains(p) <==> b.contains(p),
    ensures
        a == b,
    decreases a.len(),
{
    if a.len() == 0 {
        if b.len() > 0 {
            assert(b.contains(b[0]));
            assert(a.contains(b[0]));
        }
        assert(a =~= b);
    } else {
        lemma_ordered_distinct(a);
        lemma_ordered_distinct(b);
        let x = a.last();
        assert(a.contains(x));
        let i = choose|i: int| 0 <= i < b.len() && b[i] == x;
        let y = b.last();
        assert(b.contains(y));
        assert(a.contains(y));
        let j = choose|j: int| 0 <= j < a.len() && a[j] == y;
        if i < b.len() - 1 {
            assert(hostpath::path_less(b[i], b[b.len() - 1]));
            if j < a.len() - 1 {
                assert(hostpath::path_less(a[j], a[a.len() - 1]));
                law_paths_are_ordered(x, y, x);
            }
            order::lemma_list_irreflexive(hostpath::path_key(x));
        }
        let c = a.drop_last();
        let d = b.drop_last();
        assert forall|p: Seq<u8>| #[trigger] c.contains(p) <==> d.contains(p) by {
            if c.contains(p) {
                let k = choose|k: int| 0 <= k < c.len() && c[k] == p;
                assert(a[k] == p);
                assert(a.contains(p));
                let m = choose|m: int| 0 <= m < b.len() && b[m] == p;
                assert(d[m] == p);
            }
            if d.contains(p) {
                let k = choose|k: int| 0 <= k < d.len() && d[k] == p;
                assert(b[k] == p);
                assert(b.contains(p));
                assert(a.contains(p));
                let m = choose|m: int| 0 <= m < a.len() && a[m] == p;
                assert(c[m] == p);
            }
        }
        lemma_ordered_unique(c, d);
        assert(a =~= c.push(x));
        assert(b =~= d.push(y));
    }
}

/// There is one summary: it does not depend on the order in which the events
/// came, nor on how often a path was created.
pub proof fn law_summary_is_unique(
    a: Seq<Seq<u8>>,
    b: Seq<Seq<u8>>,
    first: Seq<Seq<u8>>,
    second: Seq<Seq<u8>>,
)
    requires
        output::is_summary(a, first),
        output::is_summary(b, second),
        forall|p: Seq<u8>| #[trigger] first.contains(p) <==> second.contains(p),
    ensures
        a == b,
{
    assert forall|p: Seq<u8>| #[trigger] a.contains(p) <==> b.contains(p) by {
        assert(first.contains(p) <==> second.contains(p));
    }
    lemma_ordered_unique(a, b);
}

/// The paths that records show.
pub open spec fn resolved_texts(json: Seq<JsonView>) -> Seq<Seq<char>> {
    json.map_values(|j: JsonView| j.resolved)
}

/// The reports on single events have one entry for each event that is reported, in
/// the order of arrival; the JSON records show the paths under which they are.
pub proof fn law_event_reports_are_complete(
    events: Seq<CapturedView>,
    facts: Seq<PathFacts>,
    v: Seq<Option<Seq<u8>>>,
    dry_run: bool,
)
    ensures
        output::event_entries(events, v, dry_run).len() == output::reported(v).len(),
        resolved_texts(output::json_records(events, facts, v)) == delete::shown_list(
            output::reported(v),
        ),
    decreases v.len(),
{
    let json = output::json_records(events, facts, v);
    let list = output::reported(v);
    if v.len() > 0 {
        law_event_reports_are_complete(events, facts, v.drop_last(), dry_run);
        let front = output::json_records(events, facts, v.drop_last());
        let head = output::reported(v.drop_last());
        if let Some(p) = v.last() {
            assert(resolved_texts(json) =~= resolved_texts(front).push(text::shown(p)));
            assert(delete::shown_list(list) =~= delete::shown_list(head).push(text::shown(p)));
        }
    } else {
        assert(resolved_texts(json) =~= delete::shown_list(list));
    }
}

/// The JSON report and the summary speak of the same paths: each path of the
/// summary has a record, and each record is of a path of the summary.
pub proof fn law_json_reports_the_summary(
    events: Seq<CapturedView>,
    facts: Seq<PathFacts>,
    v: Seq<Option<Seq<u8>>>,
    list: Seq<Seq<u8>>,
)
    requires
        output::is_summary(list, output::reported(v)),
    ensures
        ({
            let shown = resolved_texts(output::json_records(events, facts, v));
            &&& forall|i: int| 0 <= i < list.len() ==> shown.contains(text::shown(#[trigger] list[i]))
            &&& forall|k: int|
                0 <= k < shown.len() ==> delete::shown_list(list).contains(#[trigger] shown[k])
        }),
{
    let all = output::reported(v);
    let shown = resolved_texts(output::json_records(events, facts, v));
    law_event_reports_are_complete(events, facts, v, false);
    assert forall|i: int| 0 <= i < list.len() implies shown.contains(
        text::shown(#[trigger] list[i]),
    ) by {
        assert(list.contains(list[i]));
        let k = choose|k: int| 0 <= k < all.len() && all[k] == list[i];
        assert(shown[k] == text::shown(list[i]));
    }
    assert forall|k: int| 0 <= k < shown.len() implies delete::shown_list(list).contains(
        #[trigger] shown[k],
    ) by {
        assert(all.contains(all[k]));
        assert(list.contains(all[k]));
        let i = choose|i: int| 0 <= i < list.len() && list[i] == all[k];
        assert(delete::shown_list(list)[i] == shown[k]);
    }
}

/// A dry run deletes nothing, whatever else is asked for.
pub proof fn law_dry_run_deletes_nothing(flags: NocruftFlags)
    requires
        flags.dry_run_delete,
    ensures
        output::deletion(flags) == output::Deletion::Nothing,
{
}

/// `a` is a directory above `b`: its parts are the first of those of `b`.
pub open spec fn is_above(a: Seq<u8>, b: Seq<u8>) -> bool {
    hostpath::components(a).len() < hostpath::components(b).len() && hostpath::components(
        a,
    ).is_prefix_of(hostpath::components(b))
}

/// What lies in a directory is removed before the directory.
pub proof fn law_children_before_parents(
    list: Seq<Seq<u8>>,
    targets: Seq<Seq<u8>>,
    parent: int,
    child: int,
)
    requires
        delete::is_deletion_order(list, targets),
        0 <= parent < list.len(),
        0 <= child < list.len(),
        is_above(list[parent], list[child]),
    ensures
        child < parent,
{
    if parent < child {
        assert(delete::depth(list[parent]) >= delete::depth(list[child]));
    }
}

proof fn lemma_count_at_depth(list: Seq<Seq<u8>>, p: Seq<u8>)
    ensures
        list.to_multiset().count(p) == list.filter(
            delete::at_depth(delete::depth(p)),
        ).to_multiset().count(p),
    decreases list.len(),
{
    reveal(Seq::filter);
    broadcast use vstd::seq_lib::group_to_multiset_ensures;

    let f = delete::at_depth(delete::depth(p));
    if list.len() > 0 {
        let head = list.drop_last();
        lemma_count_at_depth(head, p);
        assert(list =~= head.push(list.last()));
        assert(list.to_multiset() =~= head.to_multiset().insert(list.last()));
        if f(list.last()) {
            assert(list.filter(f) == head.filter(f).push(list.last()));
            assert(list.filter(f).to_multiset() =~= head.filter(f).to_multiset().insert(
                list.last(),
            ));
        } else {
            assert(list.filter(f) == head.filter(f));
        }
    }
}

/// Each target is removed once: ordering them drops none and adds none.
pub proof fn law_order_keeps_targets(list: Seq<Seq<u8>>, targets: Seq<Seq<u8>>)
    requires
        delete::is_deletion_order(list, targets),
    ensures
        list.to_multiset() == targets.to_multiset(),
{
    assert forall|p: Seq<u8>| #[trigger]
        list.to_multiset().count(p) == targets.to_multiset().count(p) by {
        lemma_count_at_depth(list, p);
        lemma_count_at_depth(targets, p);
        assert(list.filter(delete::at_depth(delete::depth(p))) == targets.filter(
            delete::at_depth(delete::depth(p)),
        ));
    }
    assert(list.to_multiset() =~= targets.to_multiset());
}

/// What is removed is what was selected: a path is among the targets when it was
/// offered at a selected position, and only then.
pub proof fn law_selected_paths_are_removed(
    offered: Seq<Seq<u8>>,
    selected: Seq<usize>,
    targets: Seq<Seq<u8>>,
    p: Seq<u8>,
)
    requires
        delete::positions_within(selected, offered.len()),
        delete::is_deletion_order(targets, delete::chosen(offered, selected)),
    ensures
        targets.contains(p) <==> exists|i: int|
            0 <= i < selected.len() && offered[#[trigger] selected[i] as int] == p,
{
    broadcast use vstd::seq_lib::group_to_multiset_ensures;

    let picked = delete::chosen(offered, selected);
    law_order_keeps_targets(targets, picked);
    assert(targets.contains(p) <==> targets.to_multiset().count(p) > 0);
    assert(picked.contains(p) <==> picked.to_multiset().count(p) > 0);
    if picked.contains(p) {
        let i = choose|i: int| 0 <= i < picked.len() && picked[i] == p;
        assert(offered[selected[i] as int] == p);
    }
    if exists|i: int| 0 <= i < selected.len() && offered[#[trigger] selected[i] as int] == p {
        let i = choose|i: int|
            0 <= i < selected.len() && offered[#[trigger] selected[i] as int] == p;
        assert(picked[i] == p);
    }
}

/// Only what was offered is removed.
pub proof fn law_only_offered_paths_are_removed(
    offered: Seq<Seq<u8>>,
    selected: Seq<usize>,
    targets: Seq<Seq<u8>>,
    p: Seq<u8>,
)
    requires
        delete::positions_within(selected, offered.len()),
        delete::is_deletion_order(targets, delete::chosen(offered, selected)),
        targets.contains(p),
    ensures
        offered.contains(p),
{
    law_selected_paths_are_removed(offered, selected, targets, p);
    let i = choose|i: int|
        0 <= i < selected.len() && offered[#[trigger] selected[i] as int] == p;
    assert(selected[i] < offered.len());
}

/// No argument is the separator.
pub open spec fn separator_free(argv: Seq<Seq<char>>) -> bool {
    forall|i: int| 0 <= i < argv.len() ==> #[trigger] argv[i] != "--"@
}

proof fn lemma_rest_is_separator_free(argv: Seq<Seq<char>>, n: int)
    requires
        separator_free(argv),
        0 <= n <= argv.len(),
    ensures
        separator_free(argv.skip(n)),
{
    assert forall|i: int| 0 <= i < argv.skip(n).len() implies #[trigger] argv.skip(n)[i]
        != "--"@ by {
        assert(argv.skip(n)[i] == argv[i + n]);
    }
}

/// Behind the separator every argument belongs to the child, even one that looks
/// like an option of nocruft; the separator itself is not passed on.
pub proof fn law_separator_shields_the_rest(argv: Seq<Seq<char>>, rest: Seq<Seq<char>>)
    requires
        separator_free(argv),
        cli::routed(argv) is Ok,
    ensures
        cli::routed(argv.push("--"@) + rest) == Ok::<cli::Route, Seq<char>>(
            cli::Route {
                nc: cli::routed(argv)->Ok_0.nc,
                child: cli::routed(argv)->Ok_0.child + rest,
            },
        ),
    decreases argv.len(),
{
    let all = argv.push("--"@) + rest;
    if argv.len() == 0 {
        assert(all.skip(1) =~= rest);
        assert(Seq::<Seq<char>>::empty() + rest =~= rest);
    } else {
        let n: int = if cli::takes_value(argv[0]) {
            2
        } else {
            1
        };
        assert(all[0] == argv[0]);
        lemma_rest_is_separator_free(argv, n);
        law_separator_shields_the_rest(argv.skip(n), rest);
        assert(all.skip(n) =~= argv.skip(n).push("--"@) + rest);
        assert(all.take(n) =~= argv.take(n));
        let tail = cli::routed(argv.skip(n))->Ok_0;
        assert(argv.take(n) + (tail.child + rest) =~= (argv.take(n) + tail.child) + rest);
    }
}

/// Arguments that are not nocruft's own reach the child as they are, in order.
pub proof fn law_foreign_arguments_pass_through(argv: Seq<Seq<char>>)
    requires
        separator_free(argv),
        forall|i: int| 0 <= i < argv.len() ==> !cli::is_own(#[trigger] argv[i]),
    ensures
        cli::routed(argv) == Ok::<cli::Route, Seq<char>>(
            cli::Route { nc: Seq::empty(), child: argv },
        ),
    decreases argv.len(),
{
    if argv.len() == 0 {
        assert(argv =~= Seq::empty());
    } else {
        if cli::takes_value(argv[0]) {
            lemma_value_flags_are_own(argv[0]);
        }
        let rest = argv.skip(1);
        lemma_rest_is_separator_free(argv, 1);
        assert forall|i: int| 0 <= i < rest.len() implies !cli::is_own(#[trigger] rest[i]) by {
            assert(rest[i] == argv[i + 1]);
        }
        law_foreign_arguments_pass_through(rest);
        assert(argv.take(1) + rest =~= argv);
    }
}

proof fn lemma_value_flags_are_own(tok: Seq<char>)
    requires
        cli::takes_value(tok),
    ensures
        cli::is_own(tok),
{
    reveal_strlit("--nc-");
    reveal_strlit("--nc-exec");
    reveal_strlit("--nc-exclude");
    reveal_strlit("--nc-include");
    assert("--nc-"@ =~= tok.subrange(0, 5));
}

/// In front of the separator no option of nocruft reaches the child.
pub proof fn law_own_arguments_stay(argv: Seq<Seq<char>>, k: int)
    requires
        separator_free(argv),
        cli::routed(argv) is Ok,
        0 <= k < cli::routed(argv)->Ok_0.child.len(),
    ensures
        !cli::is_own(cli::routed(argv)->Ok_0.child[k]),
    decreases argv.len(),
{
    if argv.len() > 0 {
        let n: int = if cli::takes_value(argv[0]) {
            2
        } else {
            1
        };
        lemma_rest_is_separator_free(argv, n);
        let tail = cli::routed(argv.skip(n))->Ok_0;
        if cli::takes_value(argv[0]) || cli::is_own(argv[0]) {
            law_own_arguments_stay(argv.skip(n), k);
        } else if k > 0 {
            law_own_arguments_stay(argv.skip(n), k - 1);
            assert((argv.take(1) + tail.child)[k] == tail.child[k - 1]);
        } else {
            assert((argv.take(1) + tail.child)[0] == argv[0]);
        }
    }
}

/// No argument in front of the separator gets lost or is dealt out twice.
pub proof fn law_arguments_are_conserved(argv: Seq<Seq<char>>)
    requires
        separator_free(argv),
        cli::routed(argv) is Ok,
    ensures
        (cli::routed(argv)->Ok_0.nc + cli::routed(argv)->Ok_0.child).to_multiset()
            == argv.to_multiset(),
    decreases argv.len(),
{
    broadcast use vstd::seq_lib::group_to_multiset_ensures;

    if argv.len() == 0 {
        assert(cli::routed(argv)->Ok_0.nc + cli::routed(argv)->Ok_0.child =~= argv);
    } else {
        let n: int = if cli::takes_value(argv[0]) {
            2
        } else {
            1
        };
        lemma_rest_is_separator_free(argv, n);
        law_arguments_are_conserved(argv.skip(n));
        let tail = cli::routed(argv.skip(n))->Ok_0;
        assert(argv =~= argv.take(n) + argv.skip(n));
        vstd::seq_lib::lemma_multiset_commutative(argv.take(n), argv.skip(n));
        vstd::seq_lib::lemma_multiset_commutative(tail.nc, tail.child);
        if cli::takes_value(argv[0]) || cli::is_own(argv[0]) {
            assert((argv.take(n) + tail.nc) + tail.child =~= argv.take(n) + (tail.nc + tail.child));
            vstd::seq_lib::lemma_multiset_commutative(argv.take(n), tail.nc + tail.child);
        } else {
            vstd::seq_lib::lemma_multiset_commutative(tail.nc, argv.take(1) + tail.child);
            vstd::seq_lib::lemma_multiset_commutative(argv.take(1), tail.child);
            assert((tail.nc + (argv.take(1) + tail.child)).to_multiset()
                =~= argv.take(1).to_multiset().add((tail.nc + tail.child).to_multiset()));
        }
    }
}

/// The command line is refused only because its last argument lacks the value it
/// takes.
pub proof fn law_only_a_missing_value_is_refused(argv: Seq<Seq<char>>)
    requires
        cli::routed(argv) is Err,
    ensures
        argv.len() > 0,
        cli::routed(argv)->Err_0 == argv.last(),
        cli::takes_value(argv.last()),
    decreases argv.len(),
{
    let n: int = if cli::takes_value(argv[0]) {
        2
    } else {
        1
    };
    if !(cli::takes_value(argv[0]) && argv.len() == 1) {
        law_only_a_missing_value_is_refused(argv.skip(n));
        assert(argv.skip(n).last() == argv.last());
    }
}

} // verus!
