use menma::selection::{Selection, SelectionList, TabsState};

#[test]
fn next_in_an_empty_list_stays_empty() {
    let mut list: SelectionList<u8> = SelectionList::with_items(vec![]);
    assert_eq!(list.state(), Selection::Empty);
    list.next();
    assert_eq!(list.state(), Selection::Empty);
    assert_eq!(list.selected(), None);
    list.previous();
    assert_eq!(list.state(), Selection::Empty);
}

#[test]
fn next_selects_the_first_item_where_none_was_selected() {
    let mut list = SelectionList::with_items(vec!['a', 'b', 'c']);
    assert_eq!(list.state(), Selection::Unselected);
    list.next();
    assert_eq!(list.state(), Selection::Selected(0));
}

#[test]
fn next_wraps_around_after_the_last_item() {
    let mut list = SelectionList::with_items(vec!['a', 'b', 'c']);
    list.next();
    assert_eq!(list.state(), Selection::Selected(0));
    list.next();
    assert_eq!(list.state(), Selection::Selected(1));
    list.next();
    assert_eq!(list.state(), Selection::Selected(2));
    list.next();
    assert_eq!(list.state(), Selection::Selected(0));
}

#[test]
fn previous_selects_the_last_item_where_none_was_selected() {
    let mut list = SelectionList::with_items(vec!['a', 'b', 'c']);
    list.previous();
    assert_eq!(list.state(), Selection::Selected(2));
}

#[test]
fn previous_wraps_around_before_the_first_item() {
    let mut list = SelectionList::with_items(vec!['a', 'b', 'c']);
    list.next();
    list.previous();
    assert_eq!(list.state(), Selection::Selected(2));
    list.previous();
    assert_eq!(list.state(), Selection::Selected(1));
    list.previous();
    assert_eq!(list.state(), Selection::Selected(0));
}

#[test]
fn a_list_of_one_item_keeps_it_selected() {
    let mut list = SelectionList::with_items(vec!['a']);
    list.next();
    assert_eq!(list.state(), Selection::Selected(0));
    list.next();
    assert_eq!(list.state(), Selection::Selected(0));
    list.previous();
    assert_eq!(list.state(), Selection::Selected(0));
}

#[test]
fn replace_items_clears_the_cursor() {
    let mut list = SelectionList::with_items(vec!['a', 'b', 'c']);
    list.next();
    list.next();
    list.replace_items(vec!['x', 'y', 'z']);
    assert_eq!(list.state(), Selection::Unselected);
    assert_eq!(list.items(), &vec!['x', 'y', 'z']);
    list.next();
    list.replace_items(vec![]);
    assert_eq!(list.state(), Selection::Empty);
    assert_eq!(list.len(), 0);
    let mut empty: SelectionList<char> = SelectionList::with_items(vec![]);
    empty.replace_items(vec![]);
    assert_eq!(empty.state(), Selection::Empty);
    let mut unselected = SelectionList::with_items(vec!['a']);
    unselected.replace_items(vec![]);
    assert_eq!(unselected.state(), Selection::Empty);
}

#[test]
fn open_selected_gives_the_selected_item() {
    let mut list = SelectionList::with_items(vec!['a', 'b', 'c']);
    assert_eq!(list.open_selected(), None);
    list.next();
    list.next();
    assert_eq!(list.open_selected(), Some(&'b'));
    list.unselect();
    assert_eq!(list.open_selected(), None);
    let empty: SelectionList<char> = SelectionList::with_items(vec![]);
    assert_eq!(empty.open_selected(), None);
}

#[test]
fn select_refuses_an_index_that_is_out_of_range() {
    let mut list = SelectionList::with_items(vec!['a', 'b', 'c']);
    assert!(list.select(2));
    assert_eq!(list.state(), Selection::Selected(2));
    assert!(!list.select(3));
    assert_eq!(list.state(), Selection::Selected(2));
    assert!(list.select(0));
    assert_eq!(list.selected(), Some(0));
    let mut empty: SelectionList<char> = SelectionList::with_items(vec![]);
    assert!(!empty.select(0));
    assert_eq!(empty.state(), Selection::Empty);
}

#[test]
fn as_many_steps_as_items_lead_back() {
    for len in 1..6usize {
        for start in 0..len {
            let mut list = SelectionList::with_items((0..len).collect::<Vec<usize>>());
            assert!(list.select(start));
            for _ in 0..len {
                list.next();
            }
            assert_eq!(list.state(), Selection::Selected(start));
            list.next();
            list.previous();
            assert_eq!(list.state(), Selection::Selected(start));
        }
    }
}

#[test]
fn tabs_wrap_around_at_both_ends() {
    let mut tabs = TabsState::new(vec!["Tab0", "Tab1", "Tab2"]);
    assert_eq!(tabs.index(), 0);
    assert_eq!(tabs.titles(), &vec!["Tab0", "Tab1", "Tab2"]);
    tabs.previous();
    assert_eq!(tabs.index(), 2);
    tabs.next();
    assert_eq!(tabs.index(), 0);
    tabs.next();
    assert_eq!(tabs.index(), 1);
    tabs.previous();
    assert_eq!(tabs.index(), 0);
}
