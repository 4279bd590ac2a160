//! Which events are reported, and what the reports say of them.

use crate::bpf_events;
use crate::classify;
use crate::cli::{NocruftFlags, PatternSet};
use crate::hostpath;
use crate::hostpath::HostPath;
use crate::output;
use crate::output::{
    emit, emit_plain, filter_event, insert_path, probe, warn_delete_incompatible, Deletion, Emission, PathFacts,
    Probe, Setup,
};
use crate::outside;
use crate::pathres;
use crate::pathres::{CapturedEvent, CapturedView};
use crate::text;
use vstd::prelude::*;
use vstd::string::*;
use vstd::utf8::*;

verus! {

/// Each default filter has a flag of its own: what it leaves out stays out whatever
/// the other flags are, unless the user asked for the path.
pub proof fn law_each_filter_has_its_own_flag(
    ev: CapturedView,
    facts: PathFacts,
    s: Setup,
    p: Seq<u8>,
)
    requires
        pathres::resolved(ev) == Some(p),
        !output::matches_one_of(s.includes, p),
    ensures
        classify::system_path(p) && !s.flags.include_system ==> output::verdict(ev, facts, s)
            is None,
        classify::history_file(p) && !s.flags.include_history ==> output::verdict(ev, facts, s)
            is None,
        classify::build_artifact(p) && !s.flags.include_build ==> output::verdict(ev, facts, s)
            is None,
        ev.syscall == 3 && facts.btime_ns is Some && facts.btime_ns->0 < s.start
            && !s.flags.include_modified ==> output::verdict(ev, facts, s) is None,
        output::matches_one_of(s.excludes, p) ==> output::verdict(ev, facts, s) is None,
{
}

/// What is gone, or was cut off, is reported to nobody: the first unless the flag for
/// it is set, the second in any case. No pattern changes that.
pub proof fn law_gone_paths_need_their_flag(ev: CapturedView, facts: PathFacts, s: Setup)
    ensures
        !facts.exists && !s.flags.include_deleted ==> output::verdict(ev, facts, s) is None,
        ev.truncated ==> output::verdict(ev, facts, s) is None,
        pathres::resolved(ev) is None ==> output::verdict(ev, facts, s) is None,
{
}

/// A path that is there, and that no filter and no pattern covers, is reported under
/// its resolved form.
pub proof fn law_ordinary_events_are_reported(
    ev: CapturedView,
    facts: PathFacts,
    s: Setup,
    p: Seq<u8>,
)
    requires
        !ev.truncated,
        pathres::resolved(ev) == Some(p),
        facts.exists || s.flags.include_deleted,
        !output::matches_one_of(s.excludes, p),
        s.flags.include_system || !classify::system_path(p),
        s.flags.include_history || !classify::history_file(p),
        s.flags.include_build || !classify::build_artifact(p),
        s.flags.include_modified || ev.syscall != 3 || facts.btime_ns is None || facts.btime_ns->0
            >= s.start,
    ensures
        output::verdict(ev, facts, s) == Some(p),
{
}

/// A path that the user wants is reported though they also exclude it and though every
/// filter covers it.
pub proof fn law_wanted_beats_everything_but_absence(
    ev: CapturedView,
    facts: PathFacts,
    s: Setup,
    p: Seq<u8>,
)
    requires
        !ev.truncated,
        pathres::resolved(ev) == Some(p),
        facts.exists,
        output::matches_one_of(s.includes, p),
    ensures
        output::verdict(ev, facts, s) == Some(p),
{
}

/// Only the five flags that bring paths back decide: where two sets of flags agree on
/// them, the same events are reported, whatever is printed or deleted otherwise.
pub proof fn law_only_filter_flags_decide(ev: CapturedView, facts: PathFacts, a: Setup, b: Setup)
    requires
        a.start == b.start,
        a.includes == b.includes,
        a.excludes == b.excludes,
        a.flags.include_deleted == b.flags.include_deleted,
        a.flags.include_system == b.flags.include_system,
        a.flags.include_modified == b.flags.include_modified,
        a.flags.include_history == b.flags.include_history,
        a.flags.include_build == b.flags.include_build,
    ensures
        output::verdict(ev, facts, a) == output::verdict(ev, facts, b),
{
}

/// A flag brings back only what its own filter covers: where two verdicts differ
/// between sets of flags that differ in one of them, the path is of that kind.
pub proof fn law_flag_brings_back_its_own_kind(
    ev: CapturedView,
    facts: PathFacts,
    s: Setup,
    p: Seq<u8>,
    on: bool,
)
    requires
        pathres::resolved(ev) == Some(p),
    ensures
        output::verdict(ev, facts, s) != output::verdict(
            ev,
            facts,
            Setup { flags: NocruftFlags { include_system: on, ..s.flags }, ..s },
        ) ==> classify::system_path(p),
        output::verdict(ev, facts, s) != output::verdict(
            ev,
            facts,
            Setup { flags: NocruftFlags { include_history: on, ..s.flags }, ..s },
        ) ==> classify::history_file(p),
        output::verdict(ev, facts, s) != output::verdict(
            ev,
            facts,
            Setup { flags: NocruftFlags { include_build: on, ..s.flags }, ..s },
        ) ==> classify::build_artifact(p),
        output::verdict(ev, facts, s) != output::verdict(
            ev,
            facts,
            Setup { flags: NocruftFlags { include_modified: on, ..s.flags }, ..s },
        ) ==> ev.syscall == 3 && facts.btime_ns is Some && facts.btime_ns->0 < s.start,
        output::verdict(ev, facts, s) != output::verdict(
            ev,
            facts,
            Setup { flags: NocruftFlags { include_deleted: on, ..s.flags }, ..s },
        ) ==> !facts.exists,
{
}

/// A path is matched by a list of patterns when one of them matches it, whichever that
/// is: only `**` spans separators, case counts, and a leading dot is nothing special.
pub proof fn law_one_pattern_is_enough(
    patterns: Seq<glob::Pattern>,
    pattern: glob::Pattern,
    p: Seq<u8>,
)
    ensures
        !output::matches_one_of(Seq::empty(), p),
        output::matches_one_of(patterns.push(pattern), p) <==> output::matches_one_of(patterns, p)
            || outside::glob_matches(pattern, output::match_text(p), true, true, false),
{
    let all = patterns.push(pattern);
    let t = output::match_text(p);
    if output::matches_one_of(patterns, p) {
        let i = choose|i: int|
            0 <= i < patterns.len() && output::pattern_matches(#[trigger] patterns[i], t);
        assert(all[i] == patterns[i]);
    }
    if output::matches_one_of(all, p) {
        let i = choose|i: int| 0 <= i < all.len() && output::pattern_matches(#[trigger] all[i], t);
        if i < patterns.len() {
            assert(all[i] == patterns[i]);
        }
    }
    assert(all[patterns.len() as int] == pattern);
}

/// What patterns are held against is the path itself, where it is UTF-8.
pub proof fn law_patterns_see_the_whole_path(p: Seq<u8>)
    ensures
        valid_utf8(p) ==> encode_utf8(output::match_text(p)) == p,
        !valid_utf8(p) ==> output::match_text(p) == Seq::<char>::empty(),
{
    if valid_utf8(p) {
        decode_utf8_encode_utf8(p);
    }
}

/// What comes through the filter is the resolved path of the event, in its shortest
/// form, and nothing else comes through.
pub proof fn law_filter_gives_the_resolved_path(
    ev: &CapturedEvent,
    facts: &PathFacts,
    flags: &NocruftFlags,
    start: u64,
    patterns: &PatternSet,
    r: Option<HostPath>,
)
    requires
        call_ensures(filter_event, (ev, facts, flags, start, patterns), r),
    ensures
        r matches Some(p) ==> Some(p@) == pathres::resolved(ev@) && hostpath::is_clean(p@)
            && !ev.truncated && (facts.exists || flags.include_deleted),
        hostpath::opt_path(r) == output::verdict(
            ev@,
            *facts,
            Setup {
                flags: *flags,
                start,
                includes: patterns.includes@,
                excludes: patterns.excludes@,
            },
        ),
{
}

/// The file system is asked about the path that would be reported, and about its
/// birth wherever that could change the verdict.
pub proof fn law_needed_facts_are_asked(
    ev: &CapturedEvent,
    s: Setup,
    here: bool,
    a: Option<u64>,
    b: Option<u64>,
    r: Option<Probe>,
)
    requires
        call_ensures(probe, (ev, &s.flags), r),
    ensures
        r is None ==> output::verdict(ev@, PathFacts { exists: here, btime_ns: a }, s) is None,
        r matches Some(q) ==> Some(q.path@) == pathres::resolved(ev@),
        r is Some && output::verdict(ev@, PathFacts { exists: here, btime_ns: a }, s)
            != output::verdict(ev@, PathFacts { exists: here, btime_ns: b }, s)
            ==> r->0.wants_btime,
{
}

/// The positions of the events that are reported.
pub open spec fn kept_positions(v: Seq<Option<Seq<u8>>>) -> Seq<int>
    decreases v.len(),
{
    if v.len() == 0 {
        Seq::empty()
    } else {
        let head = kept_positions(v.drop_last());
        if v.last() is Some {
            head.push(v.len() - 1)
        } else {
            head
        }
    }
}

/// The positions rise, each is of an event that is reported, and none is missing.
pub proof fn law_kept_positions_are_all(v: Seq<Option<Seq<u8>>>)
    ensures
        forall|k: int|
            0 <= k < kept_positions(v).len() ==> 0 <= #[trigger] kept_positions(v)[k] < v.len()
                && v[kept_positions(v)[k]] is Some,
        forall|j: int, k: int|
            0 <= j < k < kept_positions(v).len() ==> (#[trigger] kept_positions(v)[j]) < (
            #[trigger] kept_positions(v)[k]),
        forall|i: int|
            0 <= i < v.len() && (#[trigger] v[i]) is Some ==> kept_positions(v).contains(i),
        output::reported(v).len() == kept_positions(v).len(),
        forall|k: int|
            0 <= k < kept_positions(v).len() ==> Some(#[trigger] output::reported(v)[k])
                == v[kept_positions(v)[k]],
    decreases v.len(),
{
    if v.len() > 0 {
        let w = v.drop_last();
        let last = v.len() - 1;
        law_kept_positions_are_all(w);
        assert forall|k: int| 0 <= k < kept_positions(v).len() implies 0
            <= #[trigger] kept_positions(v)[k] < v.len() && v[kept_positions(v)[k]] is Some by {
            if k < kept_positions(w).len() {
                assert(kept_positions(v)[k] == kept_positions(w)[k]);
                assert(w[kept_positions(w)[k]] == v[kept_positions(w)[k]]);
            }
        }
        assert forall|i: int| 0 <= i < v.len() && (#[trigger] v[i]) is Some implies kept_positions(
            v,
        ).contains(i) by {
            if i < last {
                assert(w[i] == v[i]);
                let k = choose|k: int|
                    0 <= k < kept_positions(w).len() && kept_positions(w)[k] == i;
                assert(kept_positions(v)[k] == i);
            } else {
                assert(kept_positions(v)[kept_positions(v).len() - 1] == i);
            }
        }
        assert forall|k: int| 0 <= k < kept_positions(v).len() implies Some(
            #[trigger] output::reported(v)[k],
        ) == v[kept_positions(v)[k]] by {
            if k < kept_positions(w).len() {
                assert(output::reported(v)[k] == output::reported(w)[k]);
                assert(kept_positions(v)[k] == kept_positions(w)[k]);
                assert(w[kept_positions(w)[k]] == v[kept_positions(w)[k]]);
            }
        }
    }
}

/// The line of each event that is reported: what is said in a dry run, the system call
/// in brackets, the process, and behind a space the path under which it is reported.
pub proof fn law_event_line_shows_the_reported_path(
    events: Seq<CapturedView>,
    v: Seq<Option<Seq<u8>>>,
    dry_run: bool,
    k: int,
)
    requires
        0 <= k < kept_positions(v).len(),
        events.len() == v.len(),
    ensures
        output::event_entries(events, v, dry_run).len() == kept_positions(v).len(),
        ({
            let i = kept_positions(v)[k];
            let line = output::event_entries(events, v, dry_run)[k];
            let front = if dry_run {
                "would delete: "@
            } else {
                Seq::<char>::empty()
            };
            &&& line == front + "["@ + bpf_events::syscall_text(events[i].syscall) + "] pid="@
                + text::decimal(events[i].pid as nat) + " "@ + text::shown(output::reported(v)[k])
            &&& (" "@ + text::shown(output::reported(v)[k])).is_suffix_of(line)
        }),
{
    law_kept_positions_are_all(v);
    lemma_event_line(events, v, dry_run, k);
    let i = kept_positions(v)[k];
    let line = output::event_entries(events, v, dry_run)[k];
    let tail = " "@ + text::shown(output::reported(v)[k]);
    assert(tail =~= line.subrange(line.len() - tail.len(), line.len() as int));
}

proof fn lemma_event_line(
    events: Seq<CapturedView>,
    v: Seq<Option<Seq<u8>>>,
    dry_run: bool,
    k: int,
)
    requires
        events.len() >= v.len(),
    ensures
        output::event_entries(events, v, dry_run).len() == kept_positions(v).len(),
        0 <= k < kept_positions(v).len() ==> output::event_entries(events, v, dry_run)[k] == (
        if dry_run {
            "would delete: "@
        } else {
            Seq::<char>::empty()
        }) + "["@ + bpf_events::syscall_text(events[kept_positions(v)[k]].syscall) + "] pid="@
            + text::decimal(events[kept_positions(v)[k]].pid as nat) + " "@ + text::shown(
            v[kept_positions(v)[k]]->0,
        ),
    decreases v.len(),
{
    if v.len() > 0 {
        let w = v.drop_last();
        lemma_event_line(events, w, dry_run, k);
        law_kept_positions_are_all(w);
        if 0 <= k < kept_positions(w).len() {
            assert(w[kept_positions(w)[k]] == v[kept_positions(w)[k]]);
        }
    }
}

/// The JSON record of each event that is reported holds what its record said, the path
/// under which it is reported, and whether that path was there.
pub proof fn law_json_record_holds_the_event(
    events: Seq<CapturedView>,
    facts: Seq<PathFacts>,
    v: Seq<Option<Seq<u8>>>,
    k: int,
)
    requires
        0 <= k < kept_positions(v).len(),
        events.len() == v.len(),
        facts.len() == v.len(),
    ensures
        output::json_records(events, facts, v).len() == kept_positions(v).len(),
        ({
            let i = kept_positions(v)[k];
            let j = output::json_records(events, facts, v)[k];
            &&& j.ts_ns == events[i].ts_ns
            &&& j.pid == events[i].pid
            &&& j.dirfd == events[i].dirfd
            &&& j.flags == events[i].flags
            &&& j.truncated == events[i].truncated
            &&& j.raw_path == events[i].raw_path
            &&& j.exists == facts[i].exists
            &&& j.syscall == bpf_events::syscall_text(events[i].syscall)
            &&& j.resolved == text::shown(output::reported(v)[k])
        }),
{
    law_kept_positions_are_all(v);
    lemma_json_record(events, facts, v, k);
}

proof fn lemma_json_record(
    events: Seq<CapturedView>,
    facts: Seq<PathFacts>,
    v: Seq<Option<Seq<u8>>>,
    k: int,
)
    requires
        events.len() >= v.len(),
        facts.len() >= v.len(),
    ensures
        output::json_records(events, facts, v).len() == kept_positions(v).len(),
        0 <= k < kept_positions(v).len() ==> output::json_records(events, facts, v)[k]
            == output::record_of(
            events[kept_positions(v)[k]],
            v[kept_positions(v)[k]]->0,
            facts[kept_positions(v)[k]].exists,
        ),
    decreases v.len(),
{
    if v.len() > 0 {
        let w = v.drop_last();
        lemma_json_record(events, facts, w, k);
        law_kept_positions_are_all(w);
        if 0 <= k < kept_positions(w).len() {
            assert(w[kept_positions(w)[k]] == v[kept_positions(w)[k]]);
        }
    }
}

/// The two reports on single events say the same: what stands in the line of an event
/// is what stands in its record.
pub proof fn law_lines_and_records_agree(
    events: Seq<CapturedView>,
    facts: Seq<PathFacts>,
    v: Seq<Option<Seq<u8>>>,
    k: int,
)
    requires
        0 <= k < output::json_records(events, facts, v).len(),
        events.len() == v.len(),
        facts.len() == v.len(),
    ensures
        output::event_entries(events, v, false).len() == output::json_records(
            events,
            facts,
            v,
        ).len(),
        ({
            let j = output::json_records(events, facts, v)[k];
            output::event_entries(events, v, false)[k] == "["@ + j.syscall + "] pid="@
                + text::decimal(j.pid as nat) + " "@ + j.resolved
        }),
{
    lemma_json_record(events, facts, v, k);
    law_json_record_holds_the_event(events, facts, v, k);
    law_event_line_shows_the_reported_path(events, v, false, k);
    assert(Seq::<char>::empty() + "["@ =~= "["@);
}

/// The verdict on the event at position `i`.
pub open spec fn verdict_at(
    events: &Vec<CapturedEvent>,
    facts: &Vec<PathFacts>,
    flags: &NocruftFlags,
    start: u64,
    patterns: &PatternSet,
    i: int,
) -> Option<Seq<u8>> {
    output::verdict(
        events@[i]@,
        facts@[i],
        Setup { flags: *flags, start, includes: patterns.includes@, excludes: patterns.excludes@ },
    )
}

/// The JSON report comes before the report on events, and that before the summary.
pub proof fn law_flags_choose_the_report(
    events: &Vec<CapturedEvent>,
    facts: &Vec<PathFacts>,
    flags: &NocruftFlags,
    start: u64,
    patterns: &PatternSet,
    r: Emission,
)
    requires
        call_ensures(emit, (events, facts, flags, start, patterns), r),
    ensures
        r is Json <==> flags.json,
        r is Events <==> !flags.json && flags.no_dedupe,
        r is Summary <==> !flags.json && !flags.no_dedupe,
{
}

/// What is deleted after the summary: nothing in a dry run; otherwise everything
/// wherever the bulk deletion is asked for, with or without the interactive one; what
/// the user picks where only that is asked for; and nothing where neither is.
pub proof fn law_flags_choose_the_deletion(
    events: &Vec<CapturedEvent>,
    facts: &Vec<PathFacts>,
    flags: &NocruftFlags,
    start: u64,
    patterns: &PatternSet,
    r: Emission,
)
    requires
        call_ensures(emit, (events, facts, flags, start, patterns), r),
        r is Summary,
    ensures
        r->deletion == Deletion::Dangerous <==> !flags.dry_run_delete && flags.delete_dangerous,
        r->deletion == Deletion::Interactive <==> !flags.dry_run_delete && !flags.delete_dangerous
            && flags.delete_interactive,
        r->deletion == Deletion::Nothing <==> flags.dry_run_delete || (!flags.delete_dangerous
            && !flags.delete_interactive),
        r->deletion == output::deletion(*flags),
{
}

/// The paths of the summary are those under which some event is reported, in order
/// and none twice; the lines are a blank one, their number, and one for each.
pub proof fn law_summary_lists_every_reported_path(
    events: &Vec<CapturedEvent>,
    facts: &Vec<PathFacts>,
    flags: &NocruftFlags,
    start: u64,
    patterns: &PatternSet,
    r: Emission,
    q: Seq<u8>,
)
    requires
        call_ensures(emit, (events, facts, flags, start, patterns), r),
        r is Summary,
        events@.len() == facts@.len(),
    ensures
        ({
            let list = hostpath::paths(r->paths@);
            let lines = text::texts(r->Summary_lines@);
            &&& list.contains(q) <==> exists|i: int|
                0 <= i < events@.len() && #[trigger] verdict_at(
                    events,
                    facts,
                    flags,
                    start,
                    patterns,
                    i,
                ) == Some(q)
            &&& forall|i: int, j: int|
                0 <= i < j < list.len() ==> hostpath::path_less(
                    #[trigger] list[i],
                    #[trigger] list[j],
                )
            &&& lines.len() == list.len() + 2
            &&& lines[0] == Seq::<char>::empty()
            &&& lines[1] == "=== created paths ("@ + text::decimal(list.len()) + ") ==="@
            &&& forall|i: int|
                0 <= i < list.len() ==> lines[i + 2] == (if flags.dry_run_delete {
                    "would delete: "@ + text::shown(#[trigger] list[i])
                } else {
                    text::shown(list[i])
                })
        }),
{
    let v = output::verdicts(
        pathres::captured(events@),
        facts@,
        output::setup(*flags, start, *patterns),
    );
    law_kept_positions_are_all(v);
    let list = hostpath::paths(r->paths@);
    let lines = text::texts(r->Summary_lines@);
    assert forall|i: int| 0 <= i < events@.len() implies v[i] == #[trigger] verdict_at(
        events,
        facts,
        flags,
        start,
        patterns,
        i,
    ) by {
        assert(pathres::captured(events@)[i] == events@[i]@);
    }
    if list.contains(q) {
        assert(output::reported(v).contains(q));
        let k = choose|k: int| 0 <= k < output::reported(v).len() && output::reported(v)[k] == q;
        let i = kept_positions(v)[k];
        assert(verdict_at(events, facts, flags, start, patterns, i) == Some(q));
    }
    if exists|i: int|
        0 <= i < events@.len() && #[trigger] verdict_at(events, facts, flags, start, patterns, i)
            == Some(q) {
        let i = choose|i: int|
            0 <= i < events@.len() && #[trigger] verdict_at(
                events,
                facts,
                flags,
                start,
                patterns,
                i,
            ) == Some(q);
        assert(v[i] is Some);
        let k = choose|k: int| 0 <= k < kept_positions(v).len() && kept_positions(v)[k] == i;
        assert(Some(output::reported(v)[k]) == v[i]);
        assert(output::reported(v).contains(q));
        assert(list.contains(q));
    }
    assert forall|i: int| 0 <= i < list.len() implies lines[i + 2] == (if flags.dry_run_delete {
        "would delete: "@ + text::shown(#[trigger] list[i])
    } else {
        text::shown(list[i])
    }) by {
        assert(Seq::<char>::empty() + text::shown(list[i]) =~= text::shown(list[i]));
    }
}

/// The report on events is a blank line, the number of all events that were captured,
/// and the lines of those that are reported; the JSON report is the records of those.
pub proof fn law_event_reports_hold_the_reported_events(
    events: &Vec<CapturedEvent>,
    facts: &Vec<PathFacts>,
    flags: &NocruftFlags,
    start: u64,
    patterns: &PatternSet,
    r: Emission,
)
    requires
        call_ensures(emit, (events, facts, flags, start, patterns), r),
        events@.len() == facts@.len(),
    ensures
        ({
            let evs = Seq::new(events@.len(), |i: int| events@[i]@);
            let v = Seq::new(
                events@.len(),
                |i: int| verdict_at(events, facts, flags, start, patterns, i),
            );
            &&& r is Events ==> {
                let lines = text::texts(r->Events_lines@);
                &&& lines.len() == kept_positions(v).len() + 2
                &&& lines[0] == Seq::<char>::empty()
                &&& lines[1] == "=== events ("@ + text::decimal(events@.len()) + ") ==="@
                &&& lines.skip(2) == output::event_entries(evs, v, flags.dry_run_delete)
            }
            &&& r is Json ==> output::records(r->records@) == output::json_records(evs, facts@, v)
                && r->records@.len() == kept_positions(v).len()
        }),
{
    let evs = Seq::new(events@.len(), |i: int| events@[i]@);
    let v = Seq::new(
        events@.len(),
        |i: int| verdict_at(events, facts, flags, start, patterns, i),
    );
    assert(pathres::captured(events@) =~= evs);
    let w = output::verdicts(evs, facts@, output::setup(*flags, start, *patterns));
    assert forall|i: int| 0 <= i < events@.len() implies v[i] == w[i] by {
        assert(evs[i] == events@[i]@);
    }
    assert(v =~= w);
    lemma_event_line(evs, v, flags.dry_run_delete, 0);
    lemma_json_record(evs, facts@, v, 0);
    if r is Events {
        let lines = text::texts(r->Events_lines@);
        assert(lines.skip(2) =~= output::event_entries(evs, v, flags.dry_run_delete));
    }
    if r is Json {
        assert(output::records(r->records@).len() == r->records@.len());
    }
}

/// A deletion that is asked for with a report that allows none is ignored, and that is
/// said of each deletion by its name, of none that was not asked for.
pub proof fn law_ignored_deletions_are_named(flags: &NocruftFlags, mode: &str, r: Vec<String>)
    requires
        call_ensures(warn_delete_incompatible, (flags, mode), r),
    ensures
        text::texts(r@).contains("nocruft: --nc-delete-interactive ignored with "@ + mode@)
            <==> flags.delete_interactive,
        text::texts(r@).contains("nocruft: --nc-delete-dangerous ignored with "@ + mode@)
            <==> flags.delete_dangerous,
        r@.len() == (if flags.delete_interactive {
            1nat
        } else {
            0
        }) + (if flags.delete_dangerous {
            1nat
        } else {
            0
        }),
{
    let a = "nocruft: --nc-delete-interactive ignored with "@ + mode@;
    let b = "nocruft: --nc-delete-dangerous ignored with "@ + mode@;
    let list = text::texts(r@);
    reveal_strlit("nocruft: --nc-delete-interactive ignored with ");
    reveal_strlit("nocruft: --nc-delete-dangerous ignored with ");
    assert(a.len() != b.len());
    assert(list.len() == r@.len());
    if flags.delete_interactive {
        assert(list[0] == a);
    }
    if flags.delete_dangerous {
        assert(list[list.len() - 1] == b);
    }
}

/// With a report that allows no deletion, the ones asked for are named together with
/// the option that chose the report.
pub proof fn law_reports_warn_of_ignored_deletions(
    events: &Vec<CapturedEvent>,
    facts: &Vec<PathFacts>,
    flags: &NocruftFlags,
    start: u64,
    patterns: &PatternSet,
    r: Emission,
)
    requires
        call_ensures(emit, (events, facts, flags, start, patterns), r),
        !(r is Summary),
    ensures
        ({
            let said = text::texts(
                match r {
                    Emission::Json { warnings, .. } => warnings@,
                    Emission::Events { warnings, .. } => warnings@,
                    Emission::Summary { lines, .. } => lines@,
                },
            );
            let mode = if flags.json {
                "--nc-json"@
            } else {
                "--nc-no-dedupe"@
            };
            &&& flags.delete_interactive ==> said.contains(
                "nocruft: --nc-delete-interactive ignored with "@ + mode,
            )
            &&& flags.delete_dangerous ==> said.contains(
                "nocruft: --nc-delete-dangerous ignored with "@ + mode,
            )
            &&& said.len() == (if flags.delete_interactive {
                1nat
            } else {
                0
            }) + (if flags.delete_dangerous {
                1nat
            } else {
                0
            })
        }),
{
    let said = text::texts(
        match r {
            Emission::Json { warnings, .. } => warnings@,
            Emission::Events { warnings, .. } => warnings@,
            Emission::Summary { lines, .. } => lines@,
        },
    );
    let mode = if flags.json {
        "--nc-json"@
    } else {
        "--nc-no-dedupe"@
    };
    if flags.delete_interactive {
        assert(said[0] == "nocruft: --nc-delete-interactive ignored with "@ + mode);
    }
    if flags.delete_dangerous {
        assert(said[said.len() - 1] == "nocruft: --nc-delete-dangerous ignored with "@ + mode);
    }
}

/// A path is added to an ordered list once: it is said whether it was new, it is there
/// afterwards, and so is everything that was there, still in order.
pub proof fn law_insertion_adds_once(list: &mut Vec<HostPath>, p: HostPath, r: bool, q: Seq<u8>)
    requires
        call_ensures(insert_path, (list, p), r),
    ensures
        r <==> !hostpath::paths(old(list)@).contains(p@),
        hostpath::paths(final(list)@).contains(q) <==> hostpath::paths(old(list)@).contains(q) || q
            == p@,
        output::strictly_ordered(hostpath::paths(final(list)@)),
{
}

/// The lines of a list of paths name its length and each of its paths in turn.
pub proof fn law_plain_lines_name_each_path(
    list: &Vec<HostPath>,
    flags: &NocruftFlags,
    r: Vec<String>,
    i: int,
)
    requires
        call_ensures(emit_plain, (list, flags), r),
        0 <= i < list@.len(),
    ensures
        r@.len() == list@.len() + 2,
        r@[0]@ == Seq::<char>::empty(),
        r@[1]@ == "=== created paths ("@ + text::decimal(list@.len()) + ") ==="@,
        flags.dry_run_delete ==> r@[i + 2]@ == "would delete: "@ + text::shown(list@[i]@),
        !flags.dry_run_delete ==> r@[i + 2]@ == text::shown(list@[i]@),
{
    let lines = text::texts(r@);
    assert(lines.len() == r@.len());
    assert(lines[0] == r@[0]@);
    assert(lines[1] == r@[1]@);
    assert(lines[i + 2] == r@[i + 2]@);
    assert(hostpath::paths(list@)[i] == list@[i]@);
    assert(Seq::<char>::empty() + text::shown(list@[i]@) =~= text::shown(list@[i]@));
}

} // verus!
