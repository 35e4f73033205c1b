use menma::interface::App;
use menma::memo::Memo;
use menma::selection::{Selection, SelectionList, TabsState};

fn memos(paths: &[&str]) -> Vec<Memo> {
    paths.iter().map(|p| Memo::new(p.to_string(), vec![])).collect()
}

fn listed(app: &App) -> Vec<String> {
    app.folders[0].items().iter().map(|m| m.get_path().clone()).collect()
}

#[test]
fn a_new_app_lists_the_memos_in_one_pane() {
    let app = App::new("menma", &memos(&["a.md", "b.md"]), true);
    assert_eq!(app.title, "menma");
    assert!(!app.should_quit);
    assert!(!app.show_chart);
    assert!(app.enhanced_graphics);
    assert_eq!(app.folders.len(), 1);
    assert_eq!(app.folders_index, 0);
    assert_eq!(app.path_copied, "");
    assert_eq!(app.tabs.titles(), &vec!["Tab0", "Tab1", "Tab2"]);
    assert_eq!(app.tabs.index(), 0);
    assert_eq!(listed(&app), vec!["a.md", "b.md"]);
    assert_eq!(app.folders[0].state(), Selection::Unselected);
}

#[test]
fn keys_move_the_cursor_of_the_focused_pane() {
    let mut app = App::new("menma", &memos(&["a.md", "b.md", "c.md"]), false);
    assert_eq!(app.on_key('j', (0, 0)), None);
    assert_eq!(app.folders[0].state(), Selection::Selected(0));
    app.on_key('j', (0, 0));
    assert_eq!(app.folders[0].state(), Selection::Selected(1));
    app.on_key('k', (0, 0));
    app.on_key('k', (0, 0));
    assert_eq!(app.folders[0].state(), Selection::Selected(2));
    app.on_down();
    assert_eq!(app.folders[0].state(), Selection::Selected(0));
    app.on_up();
    assert_eq!(app.folders[0].state(), Selection::Selected(2));
}

#[test]
fn the_open_key_hands_back_the_selected_path() {
    let mut app = App::new("menma", &memos(&["a.md", "b.md"]), false);
    assert_eq!(app.on_key('c', (0, 0)), None);
    app.on_key('j', (0, 0));
    app.on_key('j', (0, 0));
    assert_eq!(app.on_key('c', (0, 0)), Some("b.md".to_string()));
    assert_eq!(app.on_enter_dir(), Some("b.md".to_string()));
    assert_eq!(app.folders[0].state(), Selection::Selected(1));
    assert_eq!(app.on_key('j', (3, 4)), None);
}

#[test]
fn keys_set_the_switches_and_the_focus() {
    let mut app = App::new("menma", &memos(&["a.md"]), false);
    app.on_key('t', (0, 0));
    assert!(app.show_chart);
    app.on_key('t', (0, 0));
    assert!(!app.show_chart);
    app.on_key('l', (0, 0));
    assert_eq!(app.folders_index, 0);
    app.on_key('h', (0, 0));
    assert_eq!(app.folders_index, 0);
    app.on_key('x', (0, 0));
    assert!(!app.should_quit);
    app.on_key('e', (0, 0));
    assert!(app.should_quit);
    assert_eq!(app.folders[0].state(), Selection::Unselected);
    assert_eq!(listed(&app), vec!["a.md"]);
}

#[test]
fn the_tabs_follow_left_and_right() {
    let mut app = App::new("menma", &memos(&[]), false);
    app.on_right();
    assert_eq!(app.tabs.index(), 1);
    app.on_right();
    app.on_right();
    assert_eq!(app.tabs.index(), 0);
    app.on_left();
    assert_eq!(app.tabs.index(), 2);
}

#[test]
fn a_search_with_hits_replaces_the_list_and_clears_the_cursor() {
    let mut app = App::new("menma", &memos(&["Work/a.md", "home/b.md", "work/c.md"]), false);
    app.on_down();
    app.on_down();
    app.search_string_in_this_path("WORK");
    assert_eq!(listed(&app), vec!["Work/a.md", "work/c.md"]);
    assert_eq!(app.folders[0].state(), Selection::Unselected);
}

#[test]
fn a_search_without_hits_changes_nothing() {
    let mut app = App::new("menma", &memos(&["Work/a.md", "home/b.md"]), false);
    app.on_down();
    app.on_down();
    app.search_string_in_this_path("zzz");
    assert_eq!(listed(&app), vec!["Work/a.md", "home/b.md"]);
    assert_eq!(app.folders[0].state(), Selection::Selected(1));
}

#[test]
fn add_task_changes_nothing() {
    let mut app = App::new("menma", &memos(&["a.md"]), false);
    app.on_down();
    app.add_task();
    assert_eq!(listed(&app), vec!["a.md"]);
    assert_eq!(app.folders[0].state(), Selection::Selected(0));
}

#[test]
fn the_focus_moves_only_to_a_pane_that_exists() {
    let mut app = App::new("menma", &memos(&["a.md", "b.md"]), false);
    app.on_down();
    app.on_focus_right_pain();
    assert_eq!(app.folders_index, 0);
    app.on_key('l', (0, 0));
    assert_eq!(app.folders_index, 0);
    assert_eq!(app.on_key('j', (0, 0)), None);
    assert_eq!(app.folders[0].state(), Selection::Selected(1));

    app.folders.push(SelectionList::with_items(memos(&["x.md"])));
    app.on_focus_right_pain();
    assert_eq!(app.folders_index, 1);
    app.on_key('j', (0, 0));
    assert_eq!(app.folders[1].state(), Selection::Selected(0));
    assert_eq!(app.folders[0].state(), Selection::Selected(1));
    assert_eq!(app.on_key('c', (0, 0)), Some("x.md".to_string()));
    app.on_key('h', (0, 0));
    assert_eq!(app.folders_index, 0);
    assert_eq!(app.on_key('c', (0, 0)), Some("b.md".to_string()));
    app.on_key('l', (0, 0));
    assert_eq!(app.folders_index, 1);
    assert_eq!(app.folders[0].state(), Selection::Selected(1));
    assert_eq!(app.folders[1].state(), Selection::Selected(0));
    assert_eq!(listed(&app), vec!["a.md", "b.md"]);
}

#[test]
fn the_focus_stays_where_there_is_no_pane() {
    let mut app = App::new("menma", &memos(&["a.md"]), false);
    app.folders.clear();
    app.on_focus_left_pain();
    assert_eq!(app.folders_index, 0);
    app.on_focus_right_pain();
    assert_eq!(app.folders_index, 0);
}

#[test]
fn a_row_without_tabs_stays_as_it_is() {
    let mut app = App::new("menma", &memos(&["a.md"]), false);
    app.tabs = TabsState::new(vec![]);
    app.on_right();
    assert_eq!(app.tabs.index(), 0);
    app.on_left();
    assert_eq!(app.tabs.index(), 0);
    assert_eq!(app.tabs.titles().len(), 0);
    let mut tabs = TabsState::new(vec![]);
    tabs.next();
    tabs.previous();
    assert_eq!(tabs.index(), 0);
    let mut one = TabsState::new(vec!["only"]);
    one.next();
    assert_eq!(one.index(), 0);
    one.previous();
    assert_eq!(one.index(), 0);
}
