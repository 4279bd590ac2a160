//! What is removed, and who has to agree.

use crate::delete;
use crate::delete::{
    confirm_line, confirm_single_key, dangerous_delete, deletion_confirmed, deletion_order,
    done_line, interactive_delete, removal, selection_made, tally, DeleteOutcome, DeletePlan,
    KeyMotion, PromptEvent, Removal, TargetMeta,
};
use crate::hostpath;
use crate::hostpath::HostPath;
use crate::laws;
use crate::text;
use vstd::prelude::*;
use vstd::string::*;

verus! {

/// Only what is a directory itself is removed as one, so a link never leads to the
/// removal of what it points to; what is gone is left alone; all else is removed as
/// a file.
pub proof fn law_links_are_removed_as_files(found: Option<TargetMeta>, r: Removal)
    requires
        call_ensures(removal, (found,), r),
    ensures
        r == Removal::RemoveDir <==> (found matches Some(m) && m.is_dir && !m.is_symlink),
        r == Removal::Skip <==> found is None,
        r == Removal::RemoveFile <==> (found matches Some(m) && (!m.is_dir || m.is_symlink)),
{
}

/// Ordering the targets keeps each of them, however often it occurs; a directory
/// comes behind everything below it, and targets of one depth keep their order.
pub proof fn law_removal_goes_upwards(
    targets: &Vec<HostPath>,
    r: Vec<HostPath>,
    i: int,
    j: int,
    d: nat,
)
    requires
        call_ensures(deletion_order, (targets,), r),
    ensures
        hostpath::paths(r@).to_multiset() == hostpath::paths(targets@).to_multiset(),
        0 <= i < j < r@.len() ==> hostpath::components(r@[i]@).len() >= hostpath::components(
            r@[j]@,
        ).len() && !laws::is_above(r@[i]@, r@[j]@),
        hostpath::paths(r@).filter(|p: Seq<u8>| hostpath::components(p).len() == d)
            == hostpath::paths(targets@).filter(|p: Seq<u8>| hostpath::components(p).len() == d),
{
    let list = hostpath::paths(r@);
    let all = hostpath::paths(targets@);
    laws::law_order_keeps_targets(list, all);
    if 0 <= i < j < r@.len() {
        assert(list[i] == r@[i]@);
        assert(list[j] == r@[j]@);
        assert(delete::depth(list[i]) >= delete::depth(list[j]));
    }
    assert(delete::at_depth(d) =~= (|p: Seq<u8>| hostpath::components(p).len() == d));
    assert(list.filter(delete::at_depth(d)) == all.filter(delete::at_depth(d)));
}

/// The bulk deletion asks nothing and removes exactly the paths it is given; where
/// there are none it says so.
pub proof fn law_bulk_deletion_removes_everything(paths: &Vec<HostPath>, r: DeletePlan)
    requires
        call_ensures(dangerous_delete, (paths,), r),
    ensures
        paths@.len() == 0 ==> (r matches DeletePlan::Nothing { lines } && lines@.len() == 2
            && lines@[0]@ == Seq::<char>::empty() && lines@[1]@ == "(nothing to delete)"@),
        paths@.len() > 0 ==> (r matches DeletePlan::Delete { lines, targets } && lines@.len() == 2
            && lines@[0]@ == Seq::<char>::empty() && lines@[1]@
            == "--nc-delete-dangerous: deleting "@ + text::decimal(paths@.len())
            + " path(s) without confirmation"@ && hostpath::paths(targets@).to_multiset()
            == hostpath::paths(paths@).to_multiset()),
{
    match r {
        DeletePlan::Nothing { lines } => {
            assert(text::texts(lines@).len() == lines@.len());
            assert(text::texts(lines@)[0] == lines@[0]@);
            assert(text::texts(lines@)[1] == lines@[1]@);
        },
        DeletePlan::Delete { lines, targets } => {
            assert(text::texts(lines@).len() == lines@.len());
            assert(text::texts(lines@)[0] == lines@[0]@);
            assert(text::texts(lines@)[1] == lines@[1]@);
            laws::law_order_keeps_targets(hostpath::paths(targets@), hostpath::paths(paths@));
        },
        _ => {},
    }
}

/// The interactive deletion removes nothing by itself: it offers every path, in order
/// and as it is shown, where there are any and somebody can answer.
pub proof fn law_interactive_deletion_asks_first(
    paths: &Vec<HostPath>,
    is_terminal: bool,
    r: DeletePlan,
)
    requires
        call_ensures(interactive_delete, (paths, is_terminal), r),
    ensures
        !(r is Delete) && !(r is Confirm),
        r is Nothing <==> paths@.len() == 0,
        r is Refuse <==> paths@.len() > 0 && !is_terminal,
        r is Ask <==> paths@.len() > 0 && is_terminal,
        r matches DeletePlan::Ask { items } ==> items@.len() == paths@.len() && forall|i: int|
            0 <= i < items@.len() ==> (#[trigger] items@[i])@ == text::shown(paths@[i]@),
        r matches DeletePlan::Refuse { warning } ==> warning@
            == "nocruft: --nc-delete-interactive requires an interactive terminal"@,
{
    if let DeletePlan::Ask { items } = r {
        let shown = text::texts(items@);
        assert(shown.len() == items@.len());
        assert forall|i: int| 0 <= i < items@.len() implies (#[trigger] items@[i])@ == text::shown(
            paths@[i]@,
        ) by {
            assert(shown[i] == items@[i]@);
            assert(hostpath::paths(paths@)[i] == paths@[i]@);
        }
    }
}

/// A selection removes nothing by itself either: one that was left, or that holds
/// nothing, ends the deletion, and any other leads to a question about all of it.
pub proof fn law_selection_is_confirmed_first(selected: Option<Vec<usize>>, r: DeletePlan)
    requires
        call_ensures(selection_made, (selected,), r),
    ensures
        !(r is Delete),
        r is Confirm <==> selected is Some && selected->0@.len() > 0,
        r is Nothing <==> selected is None || selected->0@.len() == 0,
        r matches DeletePlan::Confirm { question, selected: s } ==> s@ == selected->0@ && question@
            == "Delete "@ + text::decimal(s@.len()) + " path(s)?"@,
{
}

/// Without a yes nothing is removed; with one, the selected paths are, each as often as
/// it was selected, and no others.
pub proof fn law_only_a_yes_removes(
    offered: &Vec<HostPath>,
    selected: &Vec<usize>,
    yes: bool,
    r: DeletePlan,
)
    requires
        call_ensures(deletion_confirmed, (offered, selected, yes), r),
    ensures
        r is Delete <==> yes,
        r is Nothing <==> !yes,
        r matches DeletePlan::Delete { targets, .. } ==> hostpath::paths(targets@).to_multiset()
            == Seq::new(
            selected@.len(),
            |i: int| offered@[selected@[i] as int]@,
        ).to_multiset() || !delete::positions_within(selected@, offered@.len()),
{
    if let DeletePlan::Delete { targets, .. } = r {
        let picked = Seq::new(selected@.len(), |i: int| offered@[selected@[i] as int]@);
        if delete::positions_within(selected@, offered@.len()) {
            assert forall|i: int| 0 <= i < selected@.len() implies picked[i] == delete::chosen(
                hostpath::paths(offered@),
                selected@,
            )[i] by {
                assert(selected@[i] < offered@.len());
            }
            assert(picked =~= delete::chosen(hostpath::paths(offered@), selected@));
            laws::law_order_keeps_targets(hostpath::paths(targets@), picked);
        }
    }
}

/// A yes is a `y` of either case going down or being held; every other key that goes
/// down, and a failure to read, is a no; what is not a key, or comes up, is no answer.
pub proof fn law_a_yes_is_a_y(ev: PromptEvent, r: Option<bool>)
    requires
        call_ensures(confirm_single_key, (ev,), r),
    ensures
        r == Some(true) <==> (ev matches PromptEvent::Key { motion, letter } && (motion
            == KeyMotion::Press || motion == KeyMotion::Repeat) && (letter == Some('y') || letter
            == Some('Y'))),
        r is None <==> ev is Other || (ev matches PromptEvent::Key { motion, .. } && motion
            == KeyMotion::Release),
{
}

/// Of a whole line only `y`, `Y` and `yes` are a yes, with any white space around
/// them.
pub proof fn law_a_line_is_trimmed_first(
    line: &str,
    word: Seq<char>,
    a: Seq<char>,
    b: Seq<char>,
    r: bool,
)
    requires
        call_ensures(confirm_line, (line,), r),
        line@ == a + word + b,
        forall|i: int| 0 <= i < a.len() ==> text::is_white(#[trigger] a[i]),
        forall|i: int| 0 <= i < b.len() ==> text::is_white(#[trigger] b[i]),
        word.len() > 0 ==> !text::is_white(word.first()) && !text::is_white(word.last()),
    ensures
        r <==> word == "y"@ || word == "Y"@ || word == "yes"@,
{
    laws::texts::law_trimming_takes_the_ends(a, word, b);
}

/// Every attempt counts once: as removed, as failed, or as gone before.
pub proof fn law_attempts_are_counted_once(list: &Vec<DeleteOutcome>, r: (usize, usize))
    requires
        call_ensures(tally, (list,), r),
    ensures
        r.0 + r.1 + list@.filter(|o: DeleteOutcome| o is Gone).len() == list@.len(),
        r.0 == list@.filter(|o: DeleteOutcome| o is Deleted).len(),
        r.1 == list@.filter(|o: DeleteOutcome| o is Failed).len(),
{
    lemma_outcomes_add_up(list@);
}

proof fn lemma_outcomes_add_up(list: Seq<DeleteOutcome>)
    ensures
        list.filter(|o: DeleteOutcome| o is Deleted).len() + list.filter(
            |o: DeleteOutcome| o is Failed,
        ).len() + list.filter(|o: DeleteOutcome| o is Gone).len() == list.len(),
    decreases list.len(),
{
    reveal(Seq::filter);
    if list.len() > 0 {
        lemma_outcomes_add_up(list.drop_last());
    }
}

/// The last line gives the number of removed paths first, that of failures second.
pub proof fn law_last_line_gives_both_numbers(ok: usize, fail: usize, r: String)
    requires
        call_ensures(done_line, (ok, fail), r),
    ensures
        r@ == "done: "@ + text::decimal(ok as nat) + " deleted, "@ + text::decimal(fail as nat)
            + " failed"@,
{
}

/// The line about an attempt ends in the path, or for a failure in the path and why,
/// and each kind of outcome has a line of its own.
pub proof fn law_attempt_line_names_the_path(o: &DeleteOutcome, p: &HostPath, r: String)
    requires
        call_ensures(DeleteOutcome::line, (o, p), r),
    ensures
        *o is Gone ==> r@ == "skip (gone): "@ + text::shown(p@),
        *o is Deleted ==> r@ == "deleted: "@ + text::shown(p@),
        *o matches DeleteOutcome::Failed(why) ==> r@ == "failed: "@ + text::shown(p@) + ": "@ + why@,
{
}

} // verus!
