use kiln::diff::{apply_diff, calculate_diff, diff_tag_sets, find_tag_by_id, has_changes};
use kiln::kiln::{Diff, FileDiff, FileTagState};
use kiln::tags::{TagId, TagPair, TagValue};

fn text_pair(id: TagId, val: &str) -> TagPair {
    TagPair::from_id(id, TagValue::Text(String::from(val)))
}

fn same_ops(a: &[Diff], b: &[Diff]) -> bool {
    if a.len() != b.len() {
        return false;
    }
    for (x, y) in a.iter().zip(b.iter()) {
        let eq = match (x, y) {
            (Diff::Add(p), Diff::Add(q)) => p == q,
            (Diff::Delete(p), Diff::Delete(q)) => p == q,
            (Diff::Modify(po, pn), Diff::Modify(qo, qn)) => po == qo && pn == qn,
            _ => false,
        };
        if !eq {
            return false;
        }
    }
    true
}

#[test]
fn modify_then_add_in_desired_order() {
    let desired = vec![text_pair(TagId::TIT2, "New Title"), text_pair(TagId::TPE1, "Artist")];
    let current = vec![text_pair(TagId::TIT2, "Old Title")];
    let preserved: Vec<TagId> = Vec::new();
    let ops = diff_tag_sets(&desired, &current, &preserved);
    assert_eq!(ops.len(), 2);
    match &ops[0] {
        Diff::Modify(old, new) => {
            assert!(*old == text_pair(TagId::TIT2, "Old Title"));
            assert!(*new == text_pair(TagId::TIT2, "New Title"));
        },
        _ => panic!("first operation should be the Modify"),
    }
    match &ops[1] {
        Diff::Add(added) => assert!(*added == text_pair(TagId::TPE1, "Artist")),
        _ => panic!("second operation should be the Add"),
    }
}

#[test]
fn preserve_exempts_from_delete_only() {
    let desired: Vec<TagPair> = Vec::new();
    let current = vec![text_pair(TagId::TALB, "X"), text_pair(TagId::TCON, "Rock")];
    let preserved = vec![TagId::TCON];
    let ops = diff_tag_sets(&desired, &current, &preserved);
    assert_eq!(ops.len(), 1);
    match &ops[0] {
        Diff::Delete(gone) => assert!(*gone == text_pair(TagId::TALB, "X")),
        _ => panic!("the only operation should be the Delete of the album"),
    }
}

#[test]
fn preserve_does_not_exempt_from_modify() {
    let desired = vec![text_pair(TagId::TCON, "Jazz")];
    let current = vec![text_pair(TagId::TCON, "Rock")];
    let preserved = vec![TagId::TCON];
    let ops = diff_tag_sets(&desired, &current, &preserved);
    assert_eq!(ops.len(), 1);
    assert!(matches!(ops[0], Diff::Modify(_, _)));
}

#[test]
fn equal_values_yield_no_op() {
    let desired = vec![text_pair(TagId::TPE1, "Same")];
    let current = vec![text_pair(TagId::TPE1, "Same")];
    let preserved: Vec<TagId> = Vec::new();
    let ops = diff_tag_sets(&desired, &current, &preserved);
    assert_eq!(ops.len(), 0);
}

#[test]
fn diffing_is_deterministic() {
    let desired = vec![text_pair(TagId::TIT2, "A"), text_pair(TagId::TPE1, "B")];
    let current = vec![text_pair(TagId::TIT2, "C"), text_pair(TagId::TALB, "D")];
    let preserved = vec![TagId::TCON];
    let first = diff_tag_sets(&desired, &current, &preserved);
    let second = diff_tag_sets(&desired, &current, &preserved);
    assert!(same_ops(&first, &second));
}

#[test]
fn applying_a_diff_then_rediffing_is_empty() {
    let desired = vec![text_pair(TagId::TIT2, "New"), text_pair(TagId::TPE1, "Artist")];
    let current = vec![
        text_pair(TagId::TIT2, "Old"),
        text_pair(TagId::TALB, "Gone"),
        text_pair(TagId::TCON, "Rock"),
    ];
    let preserved = vec![TagId::TCON];
    let ops = diff_tag_sets(&desired, &current, &preserved);
    let after = apply_diff(&current, &ops);
    let again = diff_tag_sets(&desired, &after, &preserved);
    assert_eq!(again.len(), 0);
}

#[test]
fn apply_diff_updates_deletes_and_adds() {
    let current = vec![text_pair(TagId::TIT2, "Old"), text_pair(TagId::TALB, "Gone")];
    let ops = vec![
        Diff::Modify(text_pair(TagId::TIT2, "Old"), text_pair(TagId::TIT2, "New")),
        Diff::Add(text_pair(TagId::TPE1, "Artist")),
        Diff::Delete(text_pair(TagId::TALB, "Gone")),
    ];
    let after = apply_diff(&current, &ops);
    assert_eq!(after.len(), 2);
    assert!(after[0] == text_pair(TagId::TIT2, "New"));
    assert!(after[1] == text_pair(TagId::TPE1, "Artist"));
}

#[test]
fn find_tag_by_id_returns_first_match() {
    let tags = vec![text_pair(TagId::TPE1, "a"), text_pair(TagId::TALB, "b")];
    let found = find_tag_by_id(&tags, TagId::TALB).expect("TALB is present");
    assert!(found == text_pair(TagId::TALB, "b"));
    assert!(find_tag_by_id(&tags, TagId::TCON).is_none());
}

#[test]
fn calculate_diff_walks_desired_files_in_order() {
    let desired = vec![
        FileTagState { filepath: String::from("a.mp3"), tags: vec![text_pair(TagId::TPE1, "x")] },
        FileTagState { filepath: String::from("b.mp3"), tags: vec![text_pair(TagId::TALB, "y")] },
    ];
    let current = vec![
        FileTagState { filepath: String::from("b.mp3"), tags: vec![text_pair(TagId::TALB, "z")] },
    ];
    let preserved: Vec<TagId> = Vec::new();
    let diffs = calculate_diff(&desired, &current, &preserved);
    assert_eq!(diffs.len(), 2);
    assert_eq!(diffs[0].filepath, "a.mp3");
    assert_eq!(diffs[0].diffs.len(), 1);
    assert!(matches!(diffs[0].diffs[0], Diff::Add(_)));
    assert_eq!(diffs[1].filepath, "b.mp3");
    assert_eq!(diffs[1].diffs.len(), 1);
    assert!(matches!(diffs[1].diffs[0], Diff::Modify(_, _)));
}

#[test]
fn untagged_current_file_yields_all_adds() {
    let desired = vec![
        FileTagState {
            filepath: String::from("new.mp3"),
            tags: vec![text_pair(TagId::TPE1, "a"), text_pair(TagId::TALB, "b")],
        },
    ];
    let current: Vec<FileTagState> = Vec::new();
    let preserved: Vec<TagId> = Vec::new();
    let diffs = calculate_diff(&desired, &current, &preserved);
    assert_eq!(diffs[0].diffs.len(), 2);
    assert!(matches!(diffs[0].diffs[0], Diff::Add(_)));
    assert!(matches!(diffs[0].diffs[1], Diff::Add(_)));
}

#[test]
fn has_changes_reports_any_nonempty_file() {
    let none = vec![FileDiff::from(String::from("a.mp3"))];
    assert!(!has_changes(&none));
    let mut one = FileDiff::from(String::from("b.mp3"));
    one.diffs.push(Diff::Add(text_pair(TagId::TPE1, "x")));
    let some = vec![FileDiff::from(String::from("a.mp3")), one];
    assert!(has_changes(&some));
}
