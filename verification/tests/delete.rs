use nocruft::delete::{
    confirm_line, confirm_single_key, dangerous_delete, deletion_confirmed, deletion_order,
    done_line, interactive_delete, removal, selection_made, tally, DeleteOutcome, DeletePlan,
    KeyMotion, PromptEvent, Removal, TargetMeta,
};
use nocruft::hostpath::HostPath;

fn paths(list: &[&str]) -> Vec<HostPath> {
    list.iter().map(|s| HostPath::from_text(s)).collect()
}

fn shown(list: &[HostPath]) -> Vec<String> {
    list.iter().map(|p| p.display()).collect()
}

#[test]
fn deepest_first_and_stable() {
    let order = deletion_order(&paths(&["/b", "/a", "/a/x/y", "/b/q", "/a/x", "/", "/b/q"]));
    assert_eq!(shown(&order), ["/a/x/y", "/b/q", "/a/x", "/b/q", "/b", "/a", "/"]);
    assert!(deletion_order(&Vec::new()).is_empty());
}

#[test]
fn children_go_before_their_parents() {
    let list = paths(&["/t", "/t/a", "/t/a/b", "/t/a/b/c", "/t/z"]);
    let order = shown(&deletion_order(&list));
    let at = |s: &str| order.iter().position(|p| p == s).unwrap();
    assert!(at("/t/a/b/c") < at("/t/a/b") && at("/t/a/b") < at("/t/a") && at("/t/a") < at("/t"));
    assert!(at("/t/z") < at("/t"));
}

#[test]
fn order_agrees_with_a_stable_sort() {
    let names: Vec<String> =
        (0..500).map(|i| format!("/{}{}", "d/".repeat(i * 7 % 13), i)).collect();
    let mut expected = names.clone();
    expected.sort_by_key(|p| std::cmp::Reverse(p.split('/').count()));
    let list: Vec<HostPath> = names.iter().map(|s| HostPath::from_text(s)).collect();
    assert_eq!(shown(&deletion_order(&list)), expected);
}

#[test]
fn how_a_path_is_removed() {
    let meta = |is_dir: bool, is_symlink: bool| Some(TargetMeta { is_dir, is_symlink });
    assert_eq!(removal(None), Removal::Skip);
    assert_eq!(removal(meta(true, false)), Removal::RemoveDir);
    assert_eq!(removal(meta(false, false)), Removal::RemoveFile);
    assert_eq!(removal(meta(false, true)), Removal::RemoveFile);
    assert_eq!(removal(meta(true, true)), Removal::RemoveFile);
}

#[test]
fn lines_about_attempts() {
    let p = HostPath::from_text("/a");
    assert_eq!(DeleteOutcome::Gone.line(&p), "skip (gone): /a");
    assert_eq!(DeleteOutcome::Deleted.line(&p), "deleted: /a");
    assert_eq!(
        DeleteOutcome::Failed("Directory not empty".to_string()).line(&p),
        "failed: /a: Directory not empty"
    );
}

#[test]
fn attempts_are_counted() {
    let list = vec![
        DeleteOutcome::Deleted,
        DeleteOutcome::Gone,
        DeleteOutcome::Failed(String::new()),
        DeleteOutcome::Deleted,
    ];
    assert_eq!(tally(&list), (2, 1));
    assert_eq!(tally(&Vec::new()), (0, 0));
    assert_eq!(done_line(2, 1), "done: 2 deleted, 1 failed");
}

#[test]
fn bulk_deletion() {
    match dangerous_delete(&paths(&["/a", "/a/b"])) {
        DeletePlan::Delete { lines, targets } => {
            assert_eq!(
                lines,
                ["", "--nc-delete-dangerous: deleting 2 path(s) without confirmation"]
            );
            assert_eq!(shown(&targets), ["/a/b", "/a"]);
        }
        _ => panic!("no deletion"),
    }
}

#[test]
fn nothing_to_delete() {
    for plan in [dangerous_delete(&Vec::new()), interactive_delete(&Vec::new(), true)] {
        match plan {
            DeletePlan::Nothing { lines } => assert_eq!(lines, ["", "(nothing to delete)"]),
            _ => panic!("something to delete"),
        }
    }
}

#[test]
fn interactive_deletion_needs_a_terminal() {
    match interactive_delete(&paths(&["/a"]), false) {
        DeletePlan::Refuse { warning } => assert_eq!(
            warning,
            "nocruft: --nc-delete-interactive requires an interactive terminal"
        ),
        _ => panic!("not refused"),
    }
}

#[test]
fn interactive_deletion_offers_the_paths() {
    match interactive_delete(&paths(&["/a", "/b"]), true) {
        DeletePlan::Ask { items } => assert_eq!(items, ["/a", "/b"]),
        _ => panic!("not asked"),
    }
}

#[test]
fn selection_leads_to_a_question() {
    match selection_made(Some(vec![4, 0])) {
        DeletePlan::Confirm { question, selected } => {
            assert_eq!(question, "Delete 2 path(s)?");
            assert_eq!(selected, [4, 0]);
        }
        _ => panic!("no question"),
    }
}

#[test]
fn selection_can_be_left() {
    match selection_made(None) {
        DeletePlan::Nothing { lines } => assert_eq!(lines, ["aborted, nothing deleted"]),
        _ => panic!("not aborted"),
    }
    match selection_made(Some(Vec::new())) {
        DeletePlan::Nothing { lines } => assert_eq!(lines, ["no paths selected"]),
        _ => panic!("not empty"),
    }
}

#[test]
fn only_a_yes_deletes() {
    let offered = paths(&["/a", "/a/b", "/c"]);
    match deletion_confirmed(&offered, &vec![0, 1], true) {
        DeletePlan::Delete { lines, targets } => {
            assert!(lines.is_empty());
            assert_eq!(shown(&targets), ["/a/b", "/a"]);
        }
        _ => panic!("no deletion"),
    }
    match deletion_confirmed(&offered, &vec![0], false) {
        DeletePlan::Nothing { lines } => assert_eq!(lines, ["aborted, nothing deleted"]),
        _ => panic!("deletion"),
    }
}

#[test]
fn selected_paths_are_deleted_even_if_not_utf8() {
    let odd = HostPath { bytes: b"/w/\xff".to_vec() };
    let twin = HostPath { bytes: "/w/\u{fffd}".as_bytes().to_vec() };
    let offered = vec![twin, odd];
    match interactive_delete(&offered, true) {
        DeletePlan::Ask { items } => assert_eq!(items[0], items[1]),
        _ => panic!("not asked"),
    }
    match deletion_confirmed(&offered, &vec![1], true) {
        DeletePlan::Delete { targets, .. } => {
            assert_eq!(targets.len(), 1);
            assert_eq!(targets[0].bytes, b"/w/\xff".to_vec());
        }
        _ => panic!("no deletion"),
    }
}

#[test]
fn only_offered_paths_are_deleted() {
    let offered = paths(&["/a", "/b/c", "/d"]);
    match deletion_confirmed(&offered, &vec![2, 1], true) {
        DeletePlan::Delete { targets, .. } => assert_eq!(shown(&targets), ["/b/c", "/d"]),
        _ => panic!("no deletion"),
    }
}

fn key(letter: Option<char>) -> PromptEvent {
    PromptEvent::Key { motion: KeyMotion::Press, letter }
}

#[test]
fn keys_answer() {
    assert_eq!(confirm_single_key(key(Some('y'))), Some(true));
    assert_eq!(confirm_single_key(key(Some('Y'))), Some(true));
    for c in ['n', 'N', 'c', 'x', ' '] {
        assert_eq!(confirm_single_key(key(Some(c))), Some(false));
    }
    assert_eq!(confirm_single_key(key(None)), Some(false));
    let held = PromptEvent::Key { motion: KeyMotion::Repeat, letter: Some('y') };
    assert_eq!(confirm_single_key(held), Some(true));
}

#[test]
fn other_events_are_passed_over() {
    let up = PromptEvent::Key { motion: KeyMotion::Release, letter: Some('y') };
    assert_eq!(confirm_single_key(up), None);
    assert_eq!(confirm_single_key(PromptEvent::Other), None);
    assert_eq!(confirm_single_key(PromptEvent::ReadFailed), Some(false));
}

#[test]
fn lines_answer() {
    for s in ["y", "Y\n", " yes \r\n", "\u{a0}y\u{3000}"] {
        assert!(confirm_line(s), "{:?}", s);
    }
    for s in ["", "n\n", "Yes", "YES", "y y", "yess"] {
        assert!(!confirm_line(s), "{:?}", s);
    }
}
