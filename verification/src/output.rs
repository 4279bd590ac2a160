//! Which events are reported, and how.

use crate::bpf_events;
use crate::bpf_events::{syscall_name, EV_OPENAT_CREATE};
use crate::classify;
use crate::classify::{is_build_artifact, is_genuine_creation, is_history_file, is_system_path};
use crate::cli::{NocruftFlags, PatternSet};
use crate::hostpath;
use crate::hostpath::HostPath;
use crate::order::Comparison;
use crate::outside;
use crate::pathres;
use crate::pathres::{resolve, CapturedEvent, CapturedView};
use crate::text;
use crate::text::decimal_text;
use vstd::prelude::*;
use vstd::string::*;

verus! {

/// What the file system says of the path of an event.
#[derive(Clone, Copy, Debug)]
pub struct PathFacts {
    /// Something is there, be it a dangling link.
    pub exists: bool,
    /// When it was created, where that can be told.
    pub btime_ns: Option<u64>,
}

/// What has to be asked of the file system about an event.
#[derive(Debug)]
pub struct Probe {
    /// The path to ask about.
    pub path: HostPath,
    /// Whether the birth time matters.
    pub wants_btime: bool,
}

/// Everything but the events that decides what is reported.
pub struct Setup {
    pub flags: NocruftFlags,
    pub start: u64,
    pub includes: Seq<glob::Pattern>,
    pub excludes: Seq<glob::Pattern>,
}

/// The setup that is made of these arguments.
pub open spec fn setup(flags: NocruftFlags, start: u64, patterns: PatternSet) -> Setup {
    Setup { flags, start, includes: patterns.includes@, excludes: patterns.excludes@ }
}

/// The text that patterns are held against; a path that is not UTF-8 is treated
/// as the empty text.
pub open spec fn match_text(p: Seq<u8>) -> Seq<char> {
    match hostpath::path_text(p) {
        Some(t) => t,
        None => Seq::empty(),
    }
}

/// A pattern matches a text: letters count with their case, only `**` spans
/// separators, and a leading dot is nothing special.
pub open spec fn pattern_matches(pattern: glob::Pattern, t: Seq<char>) -> bool {
    outside::glob_matches(pattern, t, true, true, false)
}

/// One of the patterns matches the path.
pub open spec fn matches_one_of(patterns: Seq<glob::Pattern>, p: Seq<u8>) -> bool {
    exists|i: int|
        0 <= i < patterns.len() && pattern_matches(#[trigger] patterns[i], match_text(p))
}

/// The path lies deeper than any of the patterns reaches: each was written
/// without `**` and with fewer separators than the path has.
pub open spec fn deeper_than_all(patterns: Seq<glob::Pattern>, p: Seq<u8>) -> bool {
    forall|i: int|
        0 <= i < patterns.len() ==> outside::out_of_reach(#[trigger] patterns[i], match_text(p))
}

/// No kind of path that is left out by default covers this one, or the flag that
/// brings the kind back is set.
pub open spec fn passes_defaults(
    p: Seq<u8>,
    syscall: u32,
    btime: Option<u64>,
    flags: NocruftFlags,
    start: u64,
) -> bool {
    &&& flags.include_system || !classify::system_path(p)
    &&& flags.include_modified || classify::genuine_creation(syscall, btime, start)
    &&& flags.include_history || !classify::history_file(p)
    &&& flags.include_build || !classify::build_artifact(p)
}

/// Whether the event with the path `p` is reported. A path that is gone is
/// dropped unless the flag says otherwise; of the others one that the user wants
/// is kept whatever else holds, and one that they do not want is dropped; the
/// defaults decide the rest.
pub open spec fn kept(
    p: Seq<u8>,
    syscall: u32,
    facts: PathFacts,
    flags: NocruftFlags,
    start: u64,
    included: bool,
    excluded: bool,
) -> bool {
    &&& flags.include_deleted || facts.exists
    &&& included || (!excluded && passes_defaults(p, syscall, facts.btime_ns, flags, start))
}

/// The path under which an event is reported, if it is. An event whose path was
/// cut off is not: what it would resolve to is wrong.
pub open spec fn verdict(ev: CapturedView, facts: PathFacts, s: Setup) -> Option<Seq<u8>> {
    if ev.truncated {
        None
    } else {
        match pathres::resolved(ev) {
            Some(p) => if kept(
                p,
                ev.syscall,
                facts,
                s.flags,
                s.start,
                matches_one_of(s.includes, p),
                matches_one_of(s.excludes, p),
            ) {
                Some(p)
            } else {
                None
            },
            None => None,
        }
    }
}

/// The verdict on each event.
pub open spec fn verdicts(
    events: Seq<CapturedView>,
    facts: Seq<PathFacts>,
    s: Setup,
) -> Seq<Option<Seq<u8>>> {
    Seq::new(events.len(), |i: int| verdict(events[i], facts[i], s))
}

/// The paths of the events that are reported, one for each, in order.
pub open spec fn reported(v: Seq<Option<Seq<u8>>>) -> Seq<Seq<u8>>
    decreases v.len(),
{
    if v.len() == 0 {
        Seq::empty()
    } else {
        let head = reported(v.drop_last());
        match v.last() {
            Some(p) => head.push(p),
            None => head,
        }
    }
}

/// The paths stand in order, none of them twice.
pub open spec fn strictly_ordered(list: Seq<Seq<u8>>) -> bool {
    forall|i: int, j: int|
        0 <= i < j < list.len() ==> hostpath::path_less(#[trigger] list[i], #[trigger] list[j])
}

/// `list` holds the same paths as `all`, each once and in order.
pub open spec fn is_summary(list: Seq<Seq<u8>>, all: Seq<Seq<u8>>) -> bool {
    &&& strictly_ordered(list)
    &&& forall|p: Seq<u8>| #[trigger] list.contains(p) <==> all.contains(p)
}

fn any_match(patterns: &Vec<glob::Pattern>, p: &HostPath) -> (r: bool)
    ensures
        r == matches_one_of(patterns@, p@),
        deeper_than_all(patterns@, p@) ==> !r,
{
    let t = match p.to_text() {
        Some(t) => t,
        None => "",
    };
    proof {
        reveal_strlit("");
        assert(""@ =~= Seq::empty());
    }
    let mut i: usize = 0;
    while i < patterns.len()
        invariant
            i <= patterns.len(),
            t@ == match_text(p@),
            forall|k: int|
                0 <= k < i ==> !pattern_matches(#[trigger] patterns@[k], t@),
        decreases patterns.len() - i,
    {
        if outside::match_glob(&patterns[i], t, true, true, false) {
            return true;
        }
        i = i + 1;
    }
    false
}

/// Whether the event with the path `p` is reported; `included` and `excluded` say
/// whether a pattern of the user matches the path.
pub fn keeps(
    p: &HostPath,
    ev: &CapturedEvent,
    facts: &PathFacts,
    flags: &NocruftFlags,
    start_unix_ns: u64,
    included: bool,
    excluded: bool,
) -> (r: bool)
    ensures
        r == kept(p@, ev.syscall, *facts, *flags, start_unix_ns, included, excluded),
{
    if !flags.include_deleted && !facts.exists {
        return false;
    }
    if included {
        return true;
    }
    if excluded {
        return false;
    }
    if !flags.include_system && is_system_path(p) {
        return false;
    }
    if !flags.include_modified && !is_genuine_creation(ev, facts.btime_ns, start_unix_ns) {
        return false;
    }
    if !flags.include_history && is_history_file(p) {
        return false;
    }
    if !flags.include_build && is_build_artifact(p) {
        return false;
    }
    true
}

/// What has to be asked of the file system before the verdict on an event.
/// Nothing, for an event that is dropped whatever the answer.
pub fn probe(ev: &CapturedEvent, flags: &NocruftFlags) -> (r: Option<Probe>)
    ensures
        r is Some == (!ev.truncated && pathres::resolved(ev@) is Some),
        r matches Some(q) ==> {
            &&& Some(q.path@) == pathres::resolved(ev@)
            &&& q.wants_btime == (ev.syscall == EV_OPENAT_CREATE && !flags.include_modified)
        },
{
    if ev.truncated {
        return None;
    }
    match resolve(ev) {
        Some(path) => Some(
            Probe { path, wants_btime: ev.syscall == EV_OPENAT_CREATE && !flags.include_modified },
        ),
        None => None,
    }
}

/// The path under which an event is reported, if it is. All ways of reporting go
/// by this one rule.
///
/// A single `*` does not span separators: patterns without `**` that hold fewer
/// separators than the path are as good as not given.
pub fn filter_event(
    ev: &CapturedEvent,
    facts: &PathFacts,
    flags: &NocruftFlags,
    start_unix_ns: u64,
    patterns: &PatternSet,
) -> (r: Option<HostPath>)
    ensures
        hostpath::opt_path(r) == verdict(ev@, *facts, setup(*flags, start_unix_ns, *patterns)),
        r matches Some(p) ==> hostpath::is_clean(p@),
        pathres::resolved(ev@) matches Some(p) && deeper_than_all(patterns.excludes@, p)
            ==> hostpath::opt_path(r) == verdict(
            ev@,
            *facts,
            Setup { excludes: Seq::empty(), ..setup(*flags, start_unix_ns, *patterns) },
        ),
        pathres::resolved(ev@) matches Some(p) && deeper_than_all(patterns.includes@, p)
            ==> hostpath::opt_path(r) == verdict(
            ev@,
            *facts,
            Setup { includes: Seq::empty(), ..setup(*flags, start_unix_ns, *patterns) },
        ),
{
    if ev.truncated {
        return None;
    }
    let abs = match resolve(ev) {
        Some(p) => p,
        None => {
            return None;
        },
    };
    let included = any_match(&patterns.includes, &abs);
    let excluded = any_match(&patterns.excludes, &abs);
    if keeps(&abs, ev, facts, flags, start_unix_ns, included, excluded) {
        Some(abs)
    } else {
        None
    }
}

/// The verdict on each event.
pub fn filter_all(
    events: &Vec<CapturedEvent>,
    facts: &Vec<PathFacts>,
    flags: &NocruftFlags,
    start_unix_ns: u64,
    patterns: &PatternSet,
) -> (r: Vec<Option<HostPath>>)
    requires
        events@.len() == facts@.len(),
    ensures
        opt_paths(r@) == verdicts(
            pathres::captured(events@),
            facts@,
            setup(*flags, start_unix_ns, *patterns),
        ),
        all_clean(r@),
{
    let ghost all = verdicts(
        pathres::captured(events@),
        facts@,
        setup(*flags, start_unix_ns, *patterns),
    );
    let mut r: Vec<Option<HostPath>> = Vec::new();
    let mut i: usize = 0;
    while i < events.len()
        invariant
            i <= events.len(),
            events@.len() == facts@.len(),
            all == verdicts(
                pathres::captured(events@),
                facts@,
                setup(*flags, start_unix_ns, *patterns),
            ),
            opt_paths(r@) == all.take(i as int),
            all_clean(r@),
        decreases events.len() - i,
    {
        let ghost before = r@;
        let v = filter_event(&events[i], &facts[i], flags, start_unix_ns, patterns);
        assert(pathres::captured(events@)[i as int] == events@[i as int]@);
        assert(hostpath::opt_path(v) == all[i as int]);
        r.push(v);
        assert(opt_paths(r@) =~= opt_paths(before).push(all[i as int]));
        assert(all.take(i + 1) =~= all.take(i as int).push(all[i as int]));
        i = i + 1;
    }
    assert(all.take(all.len() as int) =~= all);
    r
}

/// What each optional path of a list holds.
pub open spec fn opt_paths(list: Seq<Option<HostPath>>) -> Seq<Option<Seq<u8>>> {
    list.map_values(|p: Option<HostPath>| hostpath::opt_path(p))
}

/// Each path of the list is in its shortest form.
pub open spec fn all_clean(list: Seq<Option<HostPath>>) -> bool {
    forall|i: int|
        0 <= i < list.len() ==> (#[trigger] list[i] matches Some(p) ==> hostpath::is_clean(p@))
}

/// Each path of the list is in its shortest form.
pub open spec fn clean_list(list: Seq<Seq<u8>>) -> bool {
    forall|i: int| 0 <= i < list.len() ==> hostpath::is_clean(#[trigger] list[i])
}

proof fn lemma_insert_ordered(list: Seq<Seq<u8>>, k: int, p: Seq<u8>)
    requires
        strictly_ordered(list),
        0 <= k <= list.len(),
        forall|j: int| 0 <= j < k ==> hostpath::path_less(#[trigger] list[j], p),
        k < list.len() ==> hostpath::path_less(p, list[k]),
    ensures
        strictly_ordered(list.insert(k, p)),
        forall|q: Seq<u8>| #[trigger] list.insert(k, p).contains(q) <==> list.contains(q) || q == p,
{
    let new = list.insert(k, p);
    assert forall|i: int, j: int| 0 <= i < j < new.len() implies hostpath::path_less(
        #[trigger] new[i],
        #[trigger] new[j],
    ) by {
        if i == k {
            assert(new[j] == list[j - 1]);
            if j - 1 > k {
                crate::order::lemma_list_transitive(
                    hostpath::path_key(p),
                    hostpath::path_key(list[k]),
                    hostpath::path_key(list[j - 1]),
                );
            }
        } else if j == k {
            assert(new[i] == list[i]);
        } else {
            let a = if i < k {
                i
            } else {
                i - 1
            };
            let b = if j < k {
                j
            } else {
                j - 1
            };
            assert(new[i] == list[a]);
            assert(new[j] == list[b]);
        }
    }
    assert forall|q: Seq<u8>| #[trigger] new.contains(q) <==> list.contains(q) || q == p by {
        if new.contains(q) {
            let i = choose|i: int| 0 <= i < new.len() && new[i] == q;
            if i < k {
                assert(list[i] == q);
            } else if i > k {
                assert(list[i - 1] == q);
            }
        }
        if list.contains(q) {
            let i = choose|i: int| 0 <= i < list.len() && list[i] == q;
            if i < k {
                assert(new[i] == q);
            } else {
                assert(new[i + 1] == q);
            }
        }
        assert(new[k] == p);
    }
}

/// Adds a path to an ordered list, unless it is in it already. Says whether it was
/// new.
pub fn insert_path(list: &mut Vec<HostPath>, p: HostPath) -> (r: bool)
    requires
        strictly_ordered(hostpath::paths(old(list)@)),
        clean_list(hostpath::paths(old(list)@)),
        hostpath::is_clean(p@),
    ensures
        strictly_ordered(hostpath::paths(final(list)@)),
        clean_list(hostpath::paths(final(list)@)),
        r == !hostpath::paths(old(list)@).contains(p@),
        forall|q: Seq<u8>| #[trigger]
            hostpath::paths(final(list)@).contains(q) <==> hostpath::paths(old(list)@).contains(q)
                || q == p@,
{
    let ghost before = hostpath::paths(list@);
    let mut low: usize = 0;
    let mut high: usize = list.len();
    while low < high
        invariant
            low <= high <= list.len(),
            before == hostpath::paths(list@),
            list@ == old(list)@,
            strictly_ordered(before),
            clean_list(before),
            hostpath::is_clean(p@),
            forall|j: int| 0 <= j < low ==> hostpath::path_less(#[trigger] before[j], p@),
            forall|j: int|
                high <= j < before.len() ==> hostpath::path_less(p@, #[trigger] before[j]),
        decreases high - low,
    {
        let mid: usize = low + (high - low) / 2;
        assert(before[mid as int] == list@[mid as int]@);
        match list[mid].compare(&p) {
            Comparison::Less => {
                proof {
                    assert forall|j: int| 0 <= j < mid + 1 implies hostpath::path_less(
                        #[trigger] before[j],
                        p@,
                    ) by {
                        if j < mid {
                            crate::order::lemma_list_transitive(
                                hostpath::path_key(before[j]),
                                hostpath::path_key(before[mid as int]),
                                hostpath::path_key(p@),
                            );
                        }
                    }
                }
                low = mid + 1;
            },
            Comparison::Greater => {
                proof {
                    assert forall|j: int| mid <= j < before.len() implies hostpath::path_less(
                        p@,
                        #[trigger] before[j],
                    ) by {
                        if j > mid {
                            crate::order::lemma_list_transitive(
                                hostpath::path_key(p@),
                                hostpath::path_key(before[mid as int]),
                                hostpath::path_key(before[j]),
                            );
                        }
                    }
                }
                high = mid;
            },
            Comparison::Equal => {
                proof {
                    hostpath::lemma_clean_paths_spelled_once(before[mid as int], p@);
                    assert(before.contains(p@));
                }
                return false;
            },
        }
    }
    proof {
        crate::order::lemma_list_irreflexive(hostpath::path_key(p@));
        assert(!before.contains(p@));
        lemma_insert_ordered(before, low as int, p@);
    }
    let ghost q = p@;
    list.insert(low, p);
    proof {
        let new = before.insert(low as int, q);
        assert(hostpath::paths(list@) =~= new);
        assert forall|i: int| 0 <= i < new.len() implies hostpath::is_clean(#[trigger] new[i]) by {
            if i < low {
                assert(new[i] == before[i]);
            } else if i > low {
                assert(new[i] == before[i - 1]);
            }
        }
    }
    true
}

proof fn lemma_push_contains(list: Seq<Seq<u8>>, p: Seq<u8>)
    ensures
        forall|q: Seq<u8>| #[trigger] list.push(p).contains(q) <==> list.contains(q) || q == p,
{
    assert forall|q: Seq<u8>| #[trigger] list.push(p).contains(q) <==> list.contains(q) || q
        == p by {
        if list.contains(q) {
            let j = choose|j: int| 0 <= j < list.len() && list[j] == q;
            assert(list.push(p)[j] == q);
        }
        assert(list.push(p)[list.len() as int] == p);
    }
}

fn summarize(v: &Vec<Option<HostPath>>) -> (r: Vec<HostPath>)
    requires
        all_clean(v@),
    ensures
        is_summary(hostpath::paths(r@), reported(opt_paths(v@))),
        clean_list(hostpath::paths(r@)),
{
    let ghost all = opt_paths(v@);
    let mut r: Vec<HostPath> = Vec::new();
    let mut i: usize = 0;
    proof {
        assert(all.take(0) =~= Seq::empty());
        assert(hostpath::paths(r@) =~= Seq::empty());
    }
    while i < v.len()
        invariant
            i <= v.len(),
            all == opt_paths(v@),
            all.len() == v.len(),
            all_clean(v@),
            is_summary(hostpath::paths(r@), reported(all.take(i as int))),
            clean_list(hostpath::paths(r@)),
        decreases v.len() - i,
    {
        let ghost head = reported(all.take(i as int));
        let ghost before = hostpath::paths(r@);
        proof {
            assert(all[i as int] == hostpath::opt_path(v@[i as int]));
            assert(all.take(i + 1).drop_last() =~= all.take(i as int));
            assert(all.take(i + 1).last() == all[i as int]);
        }
        match &v[i] {
            Some(p) => {
                insert_path(&mut r, p.clone());
                proof {
                    lemma_push_contains(head, p@);
                    let now = hostpath::paths(r@);
                    assert forall|q: Seq<u8>| #[trigger]
                        now.contains(q) <==> reported(all.take(i + 1)).contains(q) by {
                        assert(before.contains(q) <==> head.contains(q));
                    }
                }
            },
            None => {},
        }
        i = i + 1;
    }
    assert(all.take(all.len() as int) =~= all);
    r
}

/// The paths that are reported: each once, in order.
pub fn build_summary(
    events: &Vec<CapturedEvent>,
    facts: &Vec<PathFacts>,
    flags: &NocruftFlags,
    start_unix_ns: u64,
    patterns: &PatternSet,
) -> (r: Vec<HostPath>)
    requires
        events@.len() == facts@.len(),
    ensures
        is_summary(
            hostpath::paths(r@),
            reported(
                verdicts(
                    pathres::captured(events@),
                    facts@,
                    setup(*flags, start_unix_ns, *patterns),
                ),
            ),
        ),
        clean_list(hostpath::paths(r@)),
{
    let v = filter_all(events, facts, flags, start_unix_ns, patterns);
    summarize(&v)
}

/// What stands in front of each reported path.
pub open spec fn line_prefix(dry_run: bool) -> Seq<char> {
    if dry_run {
        "would delete: "@
    } else {
        Seq::empty()
    }
}

/// The lines of the plain summary.
pub open spec fn summary_lines(list: Seq<Seq<u8>>, dry_run: bool) -> Seq<Seq<char>> {
    seq![
        Seq::<char>::empty(),
        "=== created paths ("@ + text::decimal(list.len()) + ") ==="@,
    ] + Seq::new(list.len(), |i: int| line_prefix(dry_run) + text::shown(list[i]))
}

/// The line of one event.
pub open spec fn event_line(ev: CapturedView, p: Seq<u8>, dry_run: bool) -> Seq<char> {
    line_prefix(dry_run) + "["@ + bpf_events::syscall_text(ev.syscall) + "] pid="@ + text::decimal(
        ev.pid as nat,
    ) + " "@ + text::shown(p)
}

/// The lines of the events that are reported, in order.
pub open spec fn event_entries(
    events: Seq<CapturedView>,
    v: Seq<Option<Seq<u8>>>,
    dry_run: bool,
) -> Seq<Seq<char>>
    decreases v.len(),
{
    if v.len() == 0 {
        Seq::empty()
    } else {
        let head = event_entries(events, v.drop_last(), dry_run);
        match v.last() {
            Some(p) => head.push(event_line(events[v.len() - 1], p, dry_run)),
            None => head,
        }
    }
}

/// The lines of the report on single events. The head line counts all events
/// that were captured.
pub open spec fn event_lines(
    events: Seq<CapturedView>,
    v: Seq<Option<Seq<u8>>>,
    dry_run: bool,
) -> Seq<Seq<char>> {
    seq![Seq::<char>::empty(), "=== events ("@ + text::decimal(events.len()) + ") ==="@]
        + event_entries(events, v, dry_run)
}

fn line_start(dry_run: bool) -> (r: String)
    ensures
        r@ == line_prefix(dry_run),
{
    if dry_run {
        "would delete: ".to_string()
    } else {
        String::new()
    }
}

fn head_line(front: &str, count: usize) -> (r: String)
    ensures
        r@ == front@ + text::decimal(count as nat) + ") ==="@,
{
    let mut r = front.to_string();
    r.append(decimal_text(count as u64).as_str());
    r.append(") ===");
    r
}

/// The lines of the plain summary.
pub fn emit_plain(summary: &Vec<HostPath>, flags: &NocruftFlags) -> (r: Vec<String>)
    ensures
        text::texts(r@) == summary_lines(hostpath::paths(summary@), flags.dry_run_delete),
{
    let ghost list = hostpath::paths(summary@);
    let ghost all = summary_lines(list, flags.dry_run_delete);
    let mut r: Vec<String> = Vec::new();
    r.push(String::new());
    r.push(head_line("=== created paths (", summary.len()));
    assert(text::texts(r@) =~= all.take(2));
    let mut i: usize = 0;
    while i < summary.len()
        invariant
            i <= summary.len(),
            list == hostpath::paths(summary@),
            all == summary_lines(list, flags.dry_run_delete),
            all.len() == summary.len() + 2,
            text::texts(r@) == all.take(i + 2),
        decreases summary.len() - i,
    {
        let ghost before = text::texts(r@);
        let mut line = line_start(flags.dry_run_delete);
        line.append(summary[i].display().as_str());
        let ghost t = line@;
        r.push(line);
        proof {
            assert(list[i as int] == summary@[i as int]@);
            assert(all[i + 2] == t);
            assert(text::texts(r@) =~= before.push(t));
            assert(all.take(i + 3) =~= all.take(i + 2).push(t));
        }
        i = i + 1;
    }
    assert(all.take(all.len() as int) =~= all);
    r
}

/// The lines of the report on single events.
pub fn emit_plain_no_dedupe(
    events: &Vec<CapturedEvent>,
    facts: &Vec<PathFacts>,
    flags: &NocruftFlags,
    start_unix_ns: u64,
    patterns: &PatternSet,
) -> (r: Vec<String>)
    requires
        events@.len() == facts@.len(),
    ensures
        text::texts(r@) == event_lines(
            pathres::captured(events@),
            verdicts(
                pathres::captured(events@),
                facts@,
                setup(*flags, start_unix_ns, *patterns),
            ),
            flags.dry_run_delete,
        ),
{
    let v = filter_all(events, facts, flags, start_unix_ns, patterns);
    let ghost evs = pathres::captured(events@);
    let ghost all = opt_paths(v@);
    let ghost dry = flags.dry_run_delete;
    let mut r: Vec<String> = Vec::new();
    r.push(String::new());
    r.push(head_line("=== events (", events.len()));
    let ghost front = text::texts(r@);
    proof {
        assert(all.len() == v.len());
        assert(all.take(0) =~= Seq::empty());
        assert(front + event_entries(evs, all.take(0), dry) =~= front);
        assert(front =~= seq![
            Seq::<char>::empty(),
            "=== events ("@ + text::decimal(evs.len()) + ") ==="@,
        ]);
    }
    let mut i: usize = 0;
    while i < events.len()
        invariant
            i <= events.len(),
            v.len() == events.len(),
            evs == pathres::captured(events@),
            all == opt_paths(v@),
            all.len() == v.len(),
            dry == flags.dry_run_delete,
            text::texts(r@) == front + event_entries(evs, all.take(i as int), dry),
        decreases events.len() - i,
    {
        let ghost before = text::texts(r@);
        let ghost head = event_entries(evs, all.take(i as int), dry);
        proof {
            assert(all[i as int] == hostpath::opt_path(v@[i as int]));
            assert(evs[i as int] == events@[i as int]@);
            assert(all.take(i + 1).drop_last() =~= all.take(i as int));
            assert(all.take(i + 1).last() == all[i as int]);
        }
        match &v[i] {
            Some(p) => {
                let ev = &events[i];
                let mut line = line_start(flags.dry_run_delete);
                line.append("[");
                line.append(syscall_name(ev.syscall));
                line.append("] pid=");
                line.append(decimal_text(ev.pid as u64).as_str());
                line.append(" ");
                line.append(p.display().as_str());
                let ghost t = line@;
                r.push(line);
                proof {
                    assert(t == event_line(evs[i as int], p@, dry));
                    assert(text::texts(r@) =~= before.push(t));
                    assert((front + head).push(t) =~= front + head.push(t));
                }
            },
            None => {},
        }
        i = i + 1;
    }
    assert(all.take(all.len() as int) =~= all);
    r
}

/// One record of the JSON report.
#[derive(Debug)]
pub struct JsonRecord {
    pub ts_ns: u64,
    pub pid: u32,
    pub syscall: &'static str,
    pub dirfd: i32,
    pub flags: u32,
    pub truncated: bool,
    pub raw_path: String,
    pub resolved: String,
    pub exists: bool,
}

/// What a record of the JSON report holds.
pub struct JsonView {
    pub ts_ns: u64,
    pub pid: u32,
    pub syscall: Seq<char>,
    pub dirfd: i32,
    pub flags: u32,
    pub truncated: bool,
    pub raw_path: Seq<char>,
    pub resolved: Seq<char>,
    pub exists: bool,
}

impl View for JsonRecord {
    type V = JsonView;

    open spec fn view(&self) -> JsonView {
        JsonView {
            ts_ns: self.ts_ns,
            pid: self.pid,
            syscall: self.syscall@,
            dirfd: self.dirfd,
            flags: self.flags,
            truncated: self.truncated,
            raw_path: self.raw_path@,
            resolved: self.resolved@,
            exists: self.exists,
        }
    }
}

/// What each record of a list holds.
pub open spec fn records(list: Seq<JsonRecord>) -> Seq<JsonView> {
    list.map_values(|j: JsonRecord| j@)
}

/// The record of an event that is reported under the path `p`.
pub open spec fn record_of(ev: CapturedView, p: Seq<u8>, exists_now: bool) -> JsonView {
    JsonView {
        ts_ns: ev.ts_ns,
        pid: ev.pid,
        syscall: bpf_events::syscall_text(ev.syscall),
        dirfd: ev.dirfd,
        flags: ev.flags,
        truncated: ev.truncated,
        raw_path: ev.raw_path,
        resolved: text::shown(p),
        exists: exists_now,
    }
}

/// The records of the events that are reported, one for each, in order.
pub open spec fn json_records(
    events: Seq<CapturedView>,
    facts: Seq<PathFacts>,
    v: Seq<Option<Seq<u8>>>,
) -> Seq<JsonView>
    decreases v.len(),
{
    if v.len() == 0 {
        Seq::empty()
    } else {
        let head = json_records(events, facts, v.drop_last());
        let k = v.len() - 1;
        match v.last() {
            Some(p) => head.push(record_of(events[k], p, facts[k].exists)),
            None => head,
        }
    }
}

/// The records of the JSON report: one for each event that is reported.
pub fn emit_json(
    events: &Vec<CapturedEvent>,
    facts: &Vec<PathFacts>,
    flags: &NocruftFlags,
    start_unix_ns: u64,
    patterns: &PatternSet,
) -> (r: Vec<JsonRecord>)
    requires
        events@.len() == facts@.len(),
    ensures
        records(r@) == json_records(
            pathres::captured(events@),
            facts@,
            verdicts(
                pathres::captured(events@),
                facts@,
                setup(*flags, start_unix_ns, *patterns),
            ),
        ),
{
    let v = filter_all(events, facts, flags, start_unix_ns, patterns);
    let ghost evs = pathres::captured(events@);
    let ghost all = opt_paths(v@);
    let mut r: Vec<JsonRecord> = Vec::new();
    proof {
        assert(all.len() == v.len());
        assert(all.take(0) =~= Seq::empty());
        assert(records(r@) =~= Seq::empty());
    }
    let mut i: usize = 0;
    while i < events.len()
        invariant
            i <= events.len(),
            events.len() == facts.len(),
            v.len() == events.len(),
            evs == pathres::captured(events@),
            all == opt_paths(v@),
            all.len() == v.len(),
            records(r@) == json_records(evs, facts@, all.take(i as int)),
        decreases events.len() - i,
    {
        let ghost before = records(r@);
        proof {
            assert(all[i as int] == hostpath::opt_path(v@[i as int]));
            assert(evs[i as int] == events@[i as int]@);
            assert(all.take(i + 1).drop_last() =~= all.take(i as int));
            assert(all.take(i + 1).last() == all[i as int]);
        }
        match &v[i] {
            Some(p) => {
                let ev = &events[i];
                let j = JsonRecord {
                    ts_ns: ev.ts_ns,
                    pid: ev.pid,
                    syscall: syscall_name(ev.syscall),
                    dirfd: ev.dirfd,
                    flags: ev.flags,
                    truncated: ev.truncated,
                    raw_path: ev.raw_path.clone(),
                    resolved: p.display(),
                    exists: facts[i].exists,
                };
                let ghost t = j@;
                r.push(j);
                assert(records(r@) =~= before.push(t));
            },
            None => {},
        }
        i = i + 1;
    }
    assert(all.take(all.len() as int) =~= all);
    r
}

/// What is deleted after the report.
#[derive(Clone, Copy, Debug, PartialEq, Eq, Structural)]
pub enum Deletion {
    Nothing,
    /// What the user picks.
    Interactive,
    /// Everything that was reported.
    Dangerous,
}

/// What is deleted after the summary: nothing in a dry run; otherwise the bulk
/// deletion wins over the interactive one.
pub open spec fn deletion(flags: NocruftFlags) -> Deletion {
    if flags.dry_run_delete {
        Deletion::Nothing
    } else if flags.delete_dangerous {
        Deletion::Dangerous
    } else if flags.delete_interactive {
        Deletion::Interactive
    } else {
        Deletion::Nothing
    }
}

/// What is said when a deletion is asked for together with a report that allows
/// none.
pub open spec fn ignored_deletions(flags: NocruftFlags, mode: Seq<char>) -> Seq<Seq<char>> {
    let a = if flags.delete_interactive {
        seq!["nocruft: --nc-delete-interactive ignored with "@ + mode]
    } else {
        Seq::empty()
    };
    let b = if flags.delete_dangerous {
        seq!["nocruft: --nc-delete-dangerous ignored with "@ + mode]
    } else {
        Seq::empty()
    };
    a + b
}

/// Says that a deletion is ignored in this mode.
pub fn warn_delete_incompatible(flags: &NocruftFlags, mode: &str) -> (r: Vec<String>)
    ensures
        text::texts(r@) == ignored_deletions(*flags, mode@),
{
    let mut r: Vec<String> = Vec::new();
    if flags.delete_interactive {
        let mut line = "nocruft: --nc-delete-interactive ignored with ".to_string();
        line.append(mode);
        r.push(line);
    }
    if flags.delete_dangerous {
        let mut line = "nocruft: --nc-delete-dangerous ignored with ".to_string();
        line.append(mode);
        r.push(line);
    }
    assert(text::texts(r@) =~= ignored_deletions(*flags, mode@));
    r
}

/// The report, and what follows it.
#[derive(Debug)]
pub enum Emission {
    /// JSON records for standard output, then warnings for standard error.
    Json { records: Vec<JsonRecord>, warnings: Vec<String> },
    /// Lines for standard output, then warnings for standard error.
    Events { lines: Vec<String>, warnings: Vec<String> },
    /// Lines for standard output, and the paths that they report.
    Summary { lines: Vec<String>, paths: Vec<HostPath>, deletion: Deletion },
}

/// The report on the events and what is to be deleted after it. `facts` holds
/// what the file system says of the path of each event.
pub fn emit(
    events: &Vec<CapturedEvent>,
    facts: &Vec<PathFacts>,
    flags: &NocruftFlags,
    start_unix_ns: u64,
    patterns: &PatternSet,
) -> (r: Emission)
    requires
        events@.len() == facts@.len(),
    ensures
        ({
            let evs = pathres::captured(events@);
            let v = verdicts(evs, facts@, setup(*flags, start_unix_ns, *patterns));
            match r {
                Emission::Json { records: list, warnings } => {
                    &&& flags.json
                    &&& records(list@) == json_records(evs, facts@, v)
                    &&& text::texts(warnings@) == ignored_deletions(*flags, "--nc-json"@)
                },
                Emission::Events { lines, warnings } => {
                    &&& !flags.json && flags.no_dedupe
                    &&& text::texts(lines@) == event_lines(evs, v, flags.dry_run_delete)
                    &&& text::texts(warnings@) == ignored_deletions(*flags, "--nc-no-dedupe"@)
                },
                Emission::Summary { lines, paths, deletion: d } => {
                    &&& !flags.json && !flags.no_dedupe
                    &&& is_summary(hostpath::paths(paths@), reported(v))
                    &&& clean_list(hostpath::paths(paths@))
                    &&& text::texts(lines@) == summary_lines(
                        hostpath::paths(paths@),
                        flags.dry_run_delete,
                    )
                    &&& d == deletion(*flags)
                },
            }
        }),
{
    if flags.json {
        let records = emit_json(events, facts, flags, start_unix_ns, patterns);
        let warnings = warn_delete_incompatible(flags, "--nc-json");
        return Emission::Json { records, warnings };
    }
    if flags.no_dedupe {
        let lines = emit_plain_no_dedupe(events, facts, flags, start_unix_ns, patterns);
        let warnings = warn_delete_incompatible(flags, "--nc-no-dedupe");
        return Emission::Events { lines, warnings };
    }
    let paths = build_summary(events, facts, flags, start_unix_ns, patterns);
    let lines = emit_plain(&paths, flags);
    let deletion = if flags.dry_run_delete {
        Deletion::Nothing
    } else if flags.delete_dangerous {
        Deletion::Dangerous
    } else if flags.delete_interactive {
        Deletion::Interactive
    } else {
        Deletion::Nothing
    };
    Emission::Summary { lines, paths, deletion }
}

} // verus!
