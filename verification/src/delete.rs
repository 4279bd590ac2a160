//! Removing what was reported: in what order, and who has to agree.

use crate::hostpath;
use crate::hostpath::HostPath;
use crate::text;
use crate::text::{chars_eq, decimal_text, text_chars, trim_chars};
use vstd::prelude::*;
use vstd::string::*;

verus! {

/// How deep a path is: the number of its parts.
pub open spec fn depth(p: Seq<u8>) -> nat {
    hostpath::components(p).len()
}

/// The paths of depth `d`.
pub open spec fn at_depth(d: nat) -> spec_fn(Seq<u8>) -> bool {
    |p: Seq<u8>| depth(p) == d
}

/// No path is followed by a deeper one.
pub open spec fn deepest_first(list: Seq<Seq<u8>>) -> bool {
    forall|i: int, j: int|
        0 <= i < j < list.len() ==> depth(#[trigger] list[i]) >= depth(#[trigger] list[j])
}

/// `list` is `targets` with the deepest first; paths of the same depth stand in
/// the order in which they stood.
pub open spec fn is_deletion_order(list: Seq<Seq<u8>>, targets: Seq<Seq<u8>>) -> bool {
    &&& deepest_first(list)
    &&& forall|d: nat| #[trigger] list.filter(at_depth(d)) == targets.filter(at_depth(d))
}

proof fn lemma_filter_step(list: Seq<Seq<u8>>, i: int, d: nat)
    requires
        0 <= i < list.len(),
    ensures
        list.take(i + 1).filter(at_depth(d)) == (if depth(list[i]) == d {
            list.take(i).filter(at_depth(d)).push(list[i])
        } else {
            list.take(i).filter(at_depth(d))
        }),
{
    reveal(Seq::filter);
    assert(list.take(i + 1).drop_last() =~= list.take(i));
}

proof fn lemma_filter_bucket(list: Seq<Seq<u8>>, d: nat, e: nat)
    ensures
        list.filter(at_depth(d)).filter(at_depth(e)) == (if d == e {
            list.filter(at_depth(d))
        } else {
            Seq::empty()
        }),
        forall|i: int|
            0 <= i < list.filter(at_depth(d)).len() ==> depth(
                #[trigger] list.filter(at_depth(d))[i],
            ) == d,
    decreases list.len(),
{
    reveal(Seq::filter);
    if list.len() > 0 {
        lemma_filter_bucket(list.drop_last(), d, e);
        let head = list.drop_last().filter(at_depth(d));
        if depth(list.last()) == d {
            assert(head.push(list.last()).drop_last() =~= head);
        }
    }
}

proof fn lemma_filter_deep(list: Seq<Seq<u8>>, d: nat)
    requires
        forall|i: int| 0 <= i < list.len() ==> depth(#[trigger] list[i]) < d,
    ensures
        list.filter(at_depth(d)) == Seq::<Seq<u8>>::empty(),
    decreases list.len(),
{
    reveal(Seq::filter);
    if list.len() > 0 {
        lemma_filter_deep(list.drop_last(), d);
    }
}

fn greatest(list: &Vec<usize>) -> (r: usize)
    ensures
        forall|i: int| 0 <= i < list@.len() ==> list@[i] <= r,
{
    let mut r: usize = 0;
    let mut i: usize = 0;
    while i < list.len()
        invariant
            i <= list.len(),
            forall|k: int| 0 <= k < i ==> list@[k] <= r,
        decreases list.len() - i,
    {
        if list[i] > r {
            r = list[i];
        }
        i = i + 1;
    }
    r
}

fn depths(targets: &Vec<HostPath>) -> (r: Vec<usize>)
    ensures
        r@.len() == targets@.len(),
        forall|i: int| 0 <= i < r@.len() ==> r@[i] == depth(targets@[i]@),
{
    let mut r: Vec<usize> = Vec::new();
    let mut i: usize = 0;
    while i < targets.len()
        invariant
            i <= targets.len(),
            r@.len() == i,
            forall|k: int| 0 <= k < i ==> r@[k] == depth(targets@[k]@),
        decreases targets.len() - i,
    {
        r.push(targets[i].depth());
        i = i + 1;
    }
    r
}

/// The order in which paths are removed: the deepest first, so that a directory
/// is empty of what was reported by the time its turn comes.
pub fn deletion_order(targets: &Vec<HostPath>) -> (r: Vec<HostPath>)
    ensures
        is_deletion_order(hostpath::paths(r@), hostpath::paths(targets@)),
{
    let levels = depths(targets);
    let top: usize = greatest(&levels);
    let ghost all = hostpath::paths(targets@);
    let mut r: Vec<HostPath> = Vec::new();
    let mut d: usize = top;
    let mut more = true;
    proof {
        assert(hostpath::paths(r@) =~= Seq::empty());
        reveal(Seq::filter);
        assert forall|e: nat| e > top implies all.filter(at_depth(e)) == Seq::<Seq<u8>>::empty() by {
            assert forall|i: int| 0 <= i < all.len() implies depth(#[trigger] all[i]) < e by {
                assert(all[i] == targets@[i]@);
                assert(levels@[i] <= top);
            }
            lemma_filter_deep(all, e);
        }
    }
    // Everything deeper than `d`, and `d` itself once `more` is false, is in place.
    while more
        invariant
            all == hostpath::paths(targets@),
            levels@.len() == targets@.len(),
            forall|i: int| 0 <= i < levels@.len() ==> levels@[i] == depth(targets@[i]@),
            deepest_first(hostpath::paths(r@)),
            forall|i: int|
                0 <= i < r@.len() ==> depth(#[trigger] hostpath::paths(r@)[i]) >= d,
            more ==> forall|i: int|
                0 <= i < r@.len() ==> depth(#[trigger] hostpath::paths(r@)[i]) > d,
            !more ==> d == 0,
            forall|e: nat|
                (e > d || !more) ==> #[trigger] hostpath::paths(r@).filter(at_depth(e))
                    == all.filter(at_depth(e)),
            forall|e: nat|
                (e < d || (more && e == d)) ==> #[trigger] hostpath::paths(r@).filter(at_depth(e))
                    == Seq::<Seq<u8>>::empty(),
        decreases d + (if more { 1int } else { 0 }),
    {
        let ghost before = hostpath::paths(r@);
        let ghost bucket = all.filter(at_depth(d as nat));
        let mut i: usize = 0;
        proof {
            reveal(Seq::filter);
            assert(all.take(0).filter(at_depth(d as nat)) =~= Seq::empty());
            assert(before + Seq::<Seq<u8>>::empty() =~= before);
        }
        while i < targets.len()
            invariant
                i <= targets.len(),
                all == hostpath::paths(targets@),
                levels@.len() == targets@.len(),
                forall|k: int| 0 <= k < levels@.len() ==> levels@[k] == depth(targets@[k]@),
                hostpath::paths(r@) == before + all.take(i as int).filter(at_depth(d as nat)),
            decreases targets.len() - i,
        {
            let ghost now = hostpath::paths(r@);
            let ghost head = all.take(i as int).filter(at_depth(d as nat));
            proof {
                assert(all[i as int] == targets@[i as int]@);
                lemma_filter_step(all, i as int, d as nat);
            }
            if levels[i] == d {
                r.push(targets[i].clone());
                assert(hostpath::paths(r@) =~= now.push(all[i as int]));
                assert((before + head).push(all[i as int]) =~= before + head.push(all[i as int]));
            }
            i = i + 1;
        }
        let ghost after = hostpath::paths(r@);
        proof {
            assert(all.take(all.len() as int) =~= all);
            assert(after == before + bucket);
            lemma_filter_bucket(all, d as nat, d as nat);
            assert forall|e: nat| #[trigger]
                after.filter(at_depth(e)) == before.filter(at_depth(e)) + bucket.filter(
                    at_depth(e),
                ) by {
                Seq::filter_distributes_over_add(before, bucket, at_depth(e));
            }
            assert forall|e: nat| e >= d implies #[trigger] after.filter(at_depth(e))
                == all.filter(at_depth(e)) by {
                lemma_filter_bucket(all, d as nat, e);
                if e > d {
                    assert(before.filter(at_depth(e)) == all.filter(at_depth(e)));
                    assert(after.filter(at_depth(e)) =~= before.filter(at_depth(e)));
                } else {
                    assert(before.filter(at_depth(e)) == Seq::<Seq<u8>>::empty());
                    assert(after.filter(at_depth(e)) =~= bucket);
                }
            }
            assert forall|e: nat| e < d implies #[trigger] after.filter(at_depth(e)) == Seq::<
                Seq<u8>,
            >::empty() by {
                lemma_filter_bucket(all, d as nat, e);
                assert(before.filter(at_depth(e)) == Seq::<Seq<u8>>::empty());
                assert(after.filter(at_depth(e)) =~= Seq::<Seq<u8>>::empty());
            }
            assert forall|k: int| 0 <= k < after.len() implies depth(#[trigger] after[k]) >= d by {
                if k < before.len() {
                    assert(after[k] == before[k]);
                } else {
                    assert(after[k] == bucket[k - before.len()]);
                }
            }
            assert forall|j: int, k: int| 0 <= j < k < after.len() implies depth(
                #[trigger] after[j],
            ) >= depth(#[trigger] after[k]) by {
                if k < before.len() {
                    assert(after[j] == before[j] && after[k] == before[k]);
                } else {
                    assert(after[k] == bucket[k - before.len()]);
                    if j >= before.len() {
                        assert(after[j] == bucket[j - before.len()]);
                    } else {
                        assert(after[j] == before[j]);
                    }
                }
            }
        }
        if d == 0 {
            more = false;
        } else {
            d = d - 1;
        }
    }
    r
}

/// What is found where a path is to be removed, links not followed.
#[derive(Clone, Copy, Debug, PartialEq, Eq, Structural)]
pub struct TargetMeta {
    pub is_dir: bool,
    pub is_symlink: bool,
}

/// How a path is removed.
#[derive(Clone, Copy, Debug, PartialEq, Eq, Structural)]
pub enum Removal {
    /// Not at all: it is gone.
    Skip,
    /// As a directory, which has to be empty.
    RemoveDir,
    /// As a file or a link.
    RemoveFile,
}

/// How a path is removed, by what is found there. A directory is never removed
/// with its contents.
pub fn removal(found: Option<TargetMeta>) -> (r: Removal)
    ensures
        r == match found {
            None => Removal::Skip,
            Some(m) => if m.is_dir && !m.is_symlink {
                Removal::RemoveDir
            } else {
                Removal::RemoveFile
            },
        },
{
    match found {
        None => Removal::Skip,
        Some(m) => if m.is_dir && !m.is_symlink {
            Removal::RemoveDir
        } else {
            Removal::RemoveFile
        },
    }
}

/// What came of an attempt to remove a path.
#[derive(Debug)]
pub enum DeleteOutcome {
    /// It was gone already.
    Gone,
    Deleted,
    /// It could not be removed; the text says why.
    Failed(String),
}

/// What is said about an attempt to remove a path.
pub open spec fn outcome_text(p: Seq<u8>, o: DeleteOutcome) -> Seq<char> {
    match o {
        DeleteOutcome::Gone => "skip (gone): "@ + text::shown(p),
        DeleteOutcome::Deleted => "deleted: "@ + text::shown(p),
        DeleteOutcome::Failed(e) => "failed: "@ + text::shown(p) + ": "@ + e@,
    }
}

impl DeleteOutcome {
    /// What is said about the attempt to remove `p`.
    pub fn line(&self, p: &HostPath) -> (r: String)
        ensures
            r@ == outcome_text(p@, *self),
    {
        match self {
            DeleteOutcome::Gone => {
                let mut r = "skip (gone): ".to_string();
                r.append(p.display().as_str());
                r
            },
            DeleteOutcome::Deleted => {
                let mut r = "deleted: ".to_string();
                r.append(p.display().as_str());
                r
            },
            DeleteOutcome::Failed(e) => {
                let mut r = "failed: ".to_string();
                r.append(p.display().as_str());
                r.append(": ");
                r.append(e.as_str());
                r
            },
        }
    }
}

/// How many of the attempts removed their path.
pub open spec fn deleted_count(list: Seq<DeleteOutcome>) -> nat {
    list.filter(|o: DeleteOutcome| o is Deleted).len()
}

/// How many of the attempts failed.
pub open spec fn failed_count(list: Seq<DeleteOutcome>) -> nat {
    list.filter(|o: DeleteOutcome| o is Failed).len()
}

/// How many of the attempts removed their path, and how many failed. What was
/// gone already counts as neither.
pub fn tally(list: &Vec<DeleteOutcome>) -> (r: (usize, usize))
    ensures
        r.0 == deleted_count(list@),
        r.1 == failed_count(list@),
        r.0 + r.1 <= list@.len(),
{
    let mut ok: usize = 0;
    let mut fail: usize = 0;
    let mut i: usize = 0;
    proof {
        reveal(Seq::filter);
    }
    while i < list.len()
        invariant
            i <= list.len(),
            ok == deleted_count(list@.take(i as int)),
            fail == failed_count(list@.take(i as int)),
            ok + fail <= i,
        decreases list.len() - i,
    {
        proof {
            reveal(Seq::filter);
            assert(list@.take(i + 1).drop_last() =~= list@.take(i as int));
            assert(list@.take(i + 1).last() == list@[i as int]);
        }
        match &list[i] {
            DeleteOutcome::Gone => {},
            DeleteOutcome::Deleted => {
                ok = ok + 1;
            },
            DeleteOutcome::Failed(_) => {
                fail = fail + 1;
            },
        }
        i = i + 1;
    }
    assert(list@.take(list@.len() as int) =~= list@);
    (ok, fail)
}

/// The last line of a deletion.
pub fn done_line(ok: usize, fail: usize) -> (r: String)
    ensures
        r@ == "done: "@ + text::decimal(ok as nat) + " deleted, "@ + text::decimal(fail as nat)
            + " failed"@,
{
    let mut r = "done: ".to_string();
    r.append(decimal_text(ok as u64).as_str());
    r.append(" deleted, ");
    r.append(decimal_text(fail as u64).as_str());
    r.append(" failed");
    r
}

/// What is done about a deletion.
#[derive(Debug)]
pub enum DeletePlan {
    /// Nothing but to print these lines.
    Nothing { lines: Vec<String> },
    /// Nothing but to print this line on standard error.
    Refuse { warning: String },
    /// Print a blank line, and let the user choose among these items.
    Ask { items: Vec<String> },
    /// Ask this question; on a yes the paths at these positions are deleted.
    Confirm { question: String, selected: Vec<usize> },
    /// Print these lines, and remove the targets in this order.
    Delete { lines: Vec<String>, targets: Vec<HostPath> },
}

/// The lines that say that there is nothing to delete.
pub open spec fn nothing_lines() -> Seq<Seq<char>> {
    seq![Seq::<char>::empty(), "(nothing to delete)"@]
}

fn nothing_to_delete() -> (r: Vec<String>)
    ensures
        text::texts(r@) == nothing_lines(),
{
    let mut r: Vec<String> = Vec::new();
    r.push(String::new());
    r.push("(nothing to delete)".to_string());
    assert(text::texts(r@) =~= nothing_lines());
    r
}

/// The bulk deletion: every path, without a question.
pub fn dangerous_delete(paths: &Vec<HostPath>) -> (r: DeletePlan)
    ensures
        match r {
            DeletePlan::Nothing { lines } => paths@.len() == 0 && text::texts(lines@)
                == nothing_lines(),
            DeletePlan::Delete { lines, targets } => {
                &&& paths@.len() > 0
                &&& text::texts(lines@) == seq![
                    Seq::<char>::empty(),
                    "--nc-delete-dangerous: deleting "@ + text::decimal(paths@.len())
                        + " path(s) without confirmation"@,
                ]
                &&& is_deletion_order(hostpath::paths(targets@), hostpath::paths(paths@))
            },
            _ => false,
        },
{
    if paths.len() == 0 {
        return DeletePlan::Nothing { lines: nothing_to_delete() };
    }
    let mut line = "--nc-delete-dangerous: deleting ".to_string();
    line.append(decimal_text(paths.len() as u64).as_str());
    line.append(" path(s) without confirmation");
    let ghost t = line@;
    let mut lines: Vec<String> = Vec::new();
    lines.push(String::new());
    lines.push(line);
    assert(text::texts(lines@) =~= seq![Seq::<char>::empty(), t]);
    DeletePlan::Delete { lines, targets: deletion_order(paths) }
}

/// The items among which the user chooses.
pub open spec fn shown_list(list: Seq<Seq<u8>>) -> Seq<Seq<char>> {
    list.map_values(|p: Seq<u8>| text::shown(p))
}

/// The interactive deletion, at its start.
pub fn interactive_delete(paths: &Vec<HostPath>, is_terminal: bool) -> (r: DeletePlan)
    ensures
        match r {
            DeletePlan::Nothing { lines } => paths@.len() == 0 && text::texts(lines@)
                == nothing_lines(),
            DeletePlan::Refuse { warning } => {
                &&& paths@.len() > 0 && !is_terminal
                &&& warning@
                    == "nocruft: --nc-delete-interactive requires an interactive terminal"@
            },
            DeletePlan::Ask { items } => {
                &&& paths@.len() > 0 && is_terminal
                &&& text::texts(items@) == shown_list(hostpath::paths(paths@))
            },
            _ => false,
        },
{
    if paths.len() == 0 {
        return DeletePlan::Nothing { lines: nothing_to_delete() };
    }
    if !is_terminal {
        return DeletePlan::Refuse {
            warning: "nocruft: --nc-delete-interactive requires an interactive terminal".to_string(
            ),
        };
    }
    let ghost all = shown_list(hostpath::paths(paths@));
    let mut items: Vec<String> = Vec::new();
    let mut i: usize = 0;
    while i < paths.len()
        invariant
            i <= paths.len(),
            all == shown_list(hostpath::paths(paths@)),
            all.len() == paths.len(),
            text::texts(items@) == all.take(i as int),
        decreases paths.len() - i,
    {
        let ghost before = text::texts(items@);
        let item = paths[i].display();
        let ghost t = item@;
        items.push(item);
        proof {
            assert(all[i as int] == t);
            assert(text::texts(items@) =~= before.push(t));
            assert(all.take(i + 1) =~= all.take(i as int).push(t));
        }
        i = i + 1;
    }
    assert(all.take(all.len() as int) =~= all);
    DeletePlan::Ask { items }
}

/// What is printed when the user does not go through with a deletion.
pub open spec fn aborted_lines() -> Seq<Seq<char>> {
    seq!["aborted, nothing deleted"@]
}

fn single_line(s: &str) -> (r: Vec<String>)
    ensures
        text::texts(r@) == seq![s@],
{
    let mut r: Vec<String> = Vec::new();
    r.push(s.to_string());
    assert(text::texts(r@) =~= seq![s@]);
    r
}

/// The interactive deletion, once the user has chosen; `selected` holds the
/// positions of the chosen items, or is `None` when they left the prompt.
pub fn selection_made(selected: Option<Vec<usize>>) -> (r: DeletePlan)
    ensures
        match selected {
            None => r matches DeletePlan::Nothing { lines } && text::texts(lines@)
                == aborted_lines(),
            Some(items) => if items@.len() == 0 {
                r matches DeletePlan::Nothing { lines } && text::texts(lines@)
                    == seq!["no paths selected"@]
            } else {
                r matches DeletePlan::Confirm { question, selected: s } && question@ == "Delete "@
                    + text::decimal(items@.len()) + " path(s)?"@ && s@ == items@
            },
        },
{
    match selected {
        None => DeletePlan::Nothing { lines: single_line("aborted, nothing deleted") },
        Some(items) => {
            if items.len() == 0 {
                return DeletePlan::Nothing { lines: single_line("no paths selected") };
            }
            let mut question = "Delete ".to_string();
            question.append(decimal_text(items.len() as u64).as_str());
            question.append(" path(s)?");
            DeletePlan::Confirm { question, selected: items }
        },
    }
}

/// The offered paths at the given positions.
pub open spec fn chosen(offered: Seq<Seq<u8>>, selected: Seq<usize>) -> Seq<Seq<u8>> {
    Seq::new(selected.len(), |i: int| offered[selected[i] as int])
}

/// Each position is one of a list of this length.
pub open spec fn positions_within(selected: Seq<usize>, len: nat) -> bool {
    forall|i: int| 0 <= i < selected.len() ==> #[trigger] selected[i] < len
}

/// The interactive deletion, once the user has answered the question: the offered
/// paths at the selected positions are removed, or nothing is.
pub fn deletion_confirmed(offered: &Vec<HostPath>, selected: &Vec<usize>, yes: bool) -> (r:
    DeletePlan)
    requires
        positions_within(selected@, offered@.len()),
    ensures
        if yes {
            r matches DeletePlan::Delete { lines, targets } && lines@.len() == 0
                && is_deletion_order(
                hostpath::paths(targets@),
                chosen(hostpath::paths(offered@), selected@),
            )
        } else {
            r matches DeletePlan::Nothing { lines } && text::texts(lines@) == aborted_lines()
        },
{
    if !yes {
        return DeletePlan::Nothing { lines: single_line("aborted, nothing deleted") };
    }
    let ghost all = chosen(hostpath::paths(offered@), selected@);
    let mut picked: Vec<HostPath> = Vec::new();
    let mut i: usize = 0;
    while i < selected.len()
        invariant
            i <= selected.len(),
            positions_within(selected@, offered@.len()),
            all == chosen(hostpath::paths(offered@), selected@),
            all.len() == selected.len(),
            hostpath::paths(picked@) == all.take(i as int),
        decreases selected.len() - i,
    {
        let ghost before = hostpath::paths(picked@);
        let k: usize = selected[i];
        assert(selected@[i as int] < offered@.len());
        let p = offered[k].clone();
        let ghost t = p@;
        picked.push(p);
        proof {
            assert(hostpath::paths(offered@)[k as int] == t);
            assert(all[i as int] == t);
            assert(hostpath::paths(picked@) =~= before.push(t));
            assert(all.take(i + 1) =~= all.take(i as int).push(t));
        }
        i = i + 1;
    }
    assert(all.take(all.len() as int) =~= all);
    DeletePlan::Delete { lines: Vec::new(), targets: deletion_order(&picked) }
}

/// Whether a key went down, was held or came up.
#[derive(Clone, Copy, Debug, PartialEq, Eq, Structural)]
pub enum KeyMotion {
    Press,
    Repeat,
    Release,
}

/// What a terminal reported while a question stood open.
#[derive(Clone, Copy, Debug, PartialEq, Eq, Structural)]
pub enum PromptEvent {
    /// Reading failed.
    ReadFailed,
    /// The key of a character, or `None` for any other key.
    Key { motion: KeyMotion, letter: Option<char> },
    /// Not a key.
    Other,
}

/// The answer that an event gives, if any: `y` and `Y` are a yes, every other key
/// is a no, and so is a failure. Keys count when they go down.
pub open spec fn key_answer(ev: PromptEvent) -> Option<bool> {
    match ev {
        PromptEvent::ReadFailed => Some(false),
        PromptEvent::Key { motion, letter } => if motion == KeyMotion::Release {
            None
        } else {
            Some(letter == Some('y') || letter == Some('Y'))
        },
        PromptEvent::Other => None,
    }
}

/// The answer that an event gives; `None` as long as there is none.
pub fn confirm_single_key(ev: PromptEvent) -> (r: Option<bool>)
    ensures
        r == key_answer(ev),
{
    match ev {
        PromptEvent::ReadFailed => Some(false),
        PromptEvent::Key { motion, letter } => {
            if motion == KeyMotion::Release {
                return None;
            }
            match letter {
                Some(c) => Some(c == 'y' || c == 'Y'),
                None => Some(false),
            }
        },
        PromptEvent::Other => None,
    }
}

/// The answer that a whole line gives, where keys cannot be read one by one.
pub fn confirm_line(line: &str) -> (r: bool)
    ensures
        r == (text::trimmed(line@) == "y"@ || text::trimmed(line@) == "Y"@ || text::trimmed(line@)
            == "yes"@),
{
    let t = trim_chars(&text_chars(line));
    chars_eq(&t, "y") || chars_eq(&t, "Y") || chars_eq(&t, "yes")
}

} // verus!
