use menma::memo::Memo;
use menma::search::{lowered_path_matches, narrow, pick_marked, search_hits};

fn memos(paths: &[&str]) -> Vec<Memo> {
    paths.iter().map(|p| Memo::new(p.to_string(), vec![p.to_uppercase()])).collect()
}

fn paths(memos: &Vec<Memo>) -> Vec<String> {
    memos.iter().map(|m| m.get_path().clone()).collect()
}

#[test]
fn narrow_keeps_the_hits_in_their_order() {
    let list = memos(&["notes/work.md", "notes/home.md", "work/plan.md", "x.md"]);
    let kept = narrow(&list, "work");
    assert_eq!(paths(&kept), vec!["notes/work.md", "work/plan.md"]);
    assert_eq!(kept[1].get_tags(), &vec!["WORK/PLAN.MD".to_string()]);
}

#[test]
fn narrow_pays_no_regard_to_case() {
    let list = memos(&["Notes/Work.md", "notes/home.md", "WORK/plan.md"]);
    assert_eq!(paths(&narrow(&list, "work")), vec!["Notes/Work.md", "WORK/plan.md"]);
    assert_eq!(paths(&narrow(&list, "WoRk")), vec!["Notes/Work.md", "WORK/plan.md"]);
    assert_eq!(paths(&narrow(&list, "HOME")), vec!["notes/home.md"]);
}

#[test]
fn narrow_leaves_the_list_as_it_is_where_nothing_is_hit() {
    let list = memos(&["a.md", "b.md"]);
    assert_eq!(paths(&narrow(&list, "zzz")), vec!["a.md", "b.md"]);
    let empty = memos(&[]);
    assert_eq!(narrow(&empty, "a").len(), 0);
}

#[test]
fn narrow_with_an_empty_query_hits_everything() {
    let list = memos(&["a.md", "b.md"]);
    assert_eq!(paths(&narrow(&list, "")), vec!["a.md", "b.md"]);
}

#[test]
fn narrow_applied_to_its_own_result_changes_nothing() {
    let list = memos(&["a1.md", "b.md", "A2.md"]);
    let once = narrow(&list, "a");
    let twice = narrow(&once, "a");
    assert_eq!(paths(&once), vec!["a1.md", "A2.md"]);
    assert_eq!(paths(&twice), paths(&once));
}

#[test]
fn search_hits_may_be_none() {
    let list = memos(&["a.md", "b.md"]);
    assert_eq!(search_hits(&list, "zzz").len(), 0);
    assert_eq!(paths(&search_hits(&list, "B.")), vec!["b.md"]);
}

#[test]
fn pick_marked_keeps_the_marked_memos() {
    let list = memos(&["a", "b", "c"]);
    assert_eq!(paths(&pick_marked(&list, &vec![true, false, true])), vec!["a", "c"]);
    assert_eq!(pick_marked(&list, &vec![false, false, false]).len(), 0);
    assert_eq!(paths(&pick_marked(&list, &vec![true, true, true])), vec!["a", "b", "c"]);
}

#[test]
fn lowered_path_matches_compares_as_given() {
    assert!(lowered_path_matches("notes/work.md", "work"));
    assert!(!lowered_path_matches("notes/work.md", "Work"));
    assert!(lowered_path_matches("notes/work.md", ""));
}
