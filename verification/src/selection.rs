//! A list with a cursor that moves through it and wraps around at both ends,
//! and the state of a row of tabs.

use vstd::arithmetic::div_mod::{
    lemma_add_mod_noop_right, lemma_mod_add_multiples_vanish, lemma_small_mod,
};
use vstd::prelude::*;

verus! {

/// The three states of a list with a cursor.
#[derive(Clone, Copy, Debug, PartialEq, Eq, Structural)]
pub enum Selection {
    /// The list has no items.
    Empty,
    /// The list has items and none is selected.
    Unselected,
    /// The item at this index is selected.
    Selected(usize),
}

/// What a `SelectionList` stands for: its items and the index of the selected
/// one, if any.
pub struct SelectionView<T> {
    pub items: Seq<T>,
    pub cursor: Option<int>,
}

impl<T> SelectionView<T> {
    /// The cursor, where it is set, points at an item, so that an empty list
    /// has no cursor; and the items can be counted in a `usize`.
    pub open spec fn wf(self) -> bool {
        &&& self.items.len() <= usize::MAX
        &&& self.cursor matches Some(i) ==> 0 <= i < self.items.len()
    }

    /// The state that the list is in.
    pub open spec fn state(self) -> Selection {
        if self.items.len() == 0 {
            Selection::Empty
        } else {
            match self.cursor {
                None => Selection::Unselected,
                Some(i) => Selection::Selected(i as usize),
            }
        }
    }
}

/// The cursor after a step forward in a list of `len` items: it stays unset
/// in an empty list, goes to the first item where none was selected, and
/// otherwise goes on by one, from the last item back to the first.
pub open spec fn cursor_after_next(len: int, cursor: Option<int>) -> Option<int> {
    if len <= 0 {
        None
    } else {
        match cursor {
            None => Some(0),
            Some(i) => Some((i + 1) % len),
        }
    }
}

/// The cursor after a step back in a list of `len` items: it stays unset in
/// an empty list, goes to the last item where none was selected, and
/// otherwise goes back by one, from the first item to the last.
pub open spec fn cursor_after_previous(len: int, cursor: Option<int>) -> Option<int> {
    if len <= 0 {
        None
    } else {
        match cursor {
            None => Some(len - 1),
            Some(i) => Some((i - 1 + len) % len),
        }
    }
}

/// The cursor after `steps` steps forward.
pub open spec fn cursor_after_nexts(len: int, cursor: Option<int>, steps: nat) -> Option<int>
    decreases steps,
{
    if steps == 0 {
        cursor
    } else {
        cursor_after_next(len, cursor_after_nexts(len, cursor, (steps - 1) as nat))
    }
}

impl<T> SelectionView<T> {
    /// The list after a step forward.
    pub open spec fn after_next(self) -> Self {
        SelectionView {
            items: self.items,
            cursor: cursor_after_next(self.items.len() as int, self.cursor),
        }
    }

    /// The list after a step back.
    pub open spec fn after_previous(self) -> Self {
        SelectionView {
            items: self.items,
            cursor: cursor_after_previous(self.items.len() as int, self.cursor),
        }
    }

    /// The list after `steps` steps forward.
    pub open spec fn after_nexts(self, steps: nat) -> Self {
        SelectionView {
            items: self.items,
            cursor: cursor_after_nexts(self.items.len() as int, self.cursor, steps),
        }
    }
}

/// A step forward leaves an empty list empty, selects the first item where
/// none was selected, and keeps the list well formed.
pub proof fn lemma_next_states<T>(list: SelectionView<T>)
    requires
        list.wf(),
    ensures
        list.after_next().wf(),
        list.state() == Selection::Empty ==> list.after_next().state() == Selection::Empty,
        list.state() == Selection::Unselected ==> list.after_next().state() == Selection::Selected(
            0,
        ),
        list.state() matches Selection::Selected(i) ==> list.after_next().state()
            == Selection::Selected(((i + 1) % (list.items.len() as int)) as usize),
{
    if list.items.len() > 0 {
        if let Some(i) = list.cursor {
            lemma_step_in_range(list.items.len() as int, i);
        }
    }
}

/// A step back leaves an empty list empty, selects the last item where none
/// was selected, and keeps the list well formed.
pub proof fn lemma_previous_states<T>(list: SelectionView<T>)
    requires
        list.wf(),
    ensures
        list.after_previous().wf(),
        list.state() == Selection::Empty ==> list.after_previous().state() == Selection::Empty,
        list.state() == Selection::Unselected ==> list.after_previous().state()
            == Selection::Selected((list.items.len() - 1) as usize),
        list.state() matches Selection::Selected(i) ==> list.after_previous().state()
            == Selection::Selected(
            ((i - 1 + list.items.len()) % (list.items.len() as int)) as usize,
        ),
{
    if list.items.len() > 0 {
        if let Some(i) = list.cursor {
            lemma_step_in_range(list.items.len() as int, i);
        }
    }
}

/// One step from an index of a list of `len` items, either way, gives an
/// index of that list: the next one or the one before, with the two ends
/// joined.
pub proof fn lemma_step_in_range(len: int, i: int)
    requires
        0 <= i < len,
    ensures
        (i + 1) % len == (if i + 1 == len { 0 } else { i + 1 }),
        (i - 1 + len) % len == (if i == 0 { len - 1 } else { i - 1 }),
{
    assert((i + 1) % len == (if i + 1 == len { 0 } else { i + 1 })) by (nonlinear_arith)
        requires 0 <= i < len;
    assert((i - 1 + len) % len == (if i == 0 { len - 1 } else { i - 1 })) by (nonlinear_arith)
        requires 0 <= i < len;
}

/// After `steps` steps forward from the item at `i`, the item at
/// `(i + steps) % len` is selected.
pub proof fn lemma_nexts_from_selected(len: int, i: int, steps: nat)
    requires
        0 <= i < len,
    ensures
        cursor_after_nexts(len, Some(i), steps) == Some((i + steps) % len),
    decreases steps,
{
    if steps == 0 {
        lemma_small_mod(i as nat, len as nat);
    } else {
        lemma_nexts_from_selected(len, i, (steps - 1) as nat);
        lemma_add_mod_noop_right(1, i + steps - 1, len);
        assert((i + steps - 1) % len + 1 == 1 + (i + steps - 1) % len);
        assert(1 + (i + steps - 1) == i + steps);
    }
}

/// As many steps forward as the list has items lead back to the item from
/// which they started.
pub proof fn lemma_next_wraps_around<T>(list: SelectionView<T>)
    requires
        list.wf(),
        list.cursor is Some,
    ensures
        list.after_nexts(list.items.len()) == list,
{
    let len = list.items.len() as int;
    let i = list.cursor->0;
    lemma_nexts_from_selected(len, i, list.items.len());
    lemma_mod_add_multiples_vanish(i, len);
    lemma_small_mod(i as nat, len as nat);
    assert(i + len == len + i);
}

/// A step back undoes a step forward, and a step forward a step back, where
/// an item is selected.
pub proof fn lemma_previous_undoes_next<T>(list: SelectionView<T>)
    requires
        list.wf(),
        list.cursor is Some,
    ensures
        list.after_next().after_previous() == list,
        list.after_previous().after_next() == list,
{
    let len = list.items.len() as int;
    let i = list.cursor->0;
    lemma_step_in_range(len, i);
    let forward = if i + 1 == len { 0 } else { i + 1 };
    let back = if i == 0 { len - 1 } else { i - 1 };
    lemma_step_in_range(len, forward);
    lemma_step_in_range(len, back);
}

/// The items of a vector can be counted in a `usize`.
proof fn lemma_vec_len_fits<T>(items: &Vec<T>)
    ensures
        items@.len() <= usize::MAX,
{
    assert(items.len() == items@.len());
}

/// An ordered list of items with a cursor that selects at most one of them.
pub struct SelectionList<T> {
    items: Vec<T>,
    cursor: Option<usize>,
}

impl<T> View for SelectionList<T> {
    type V = SelectionView<T>;

    closed spec fn view(&self) -> SelectionView<T> {
        SelectionView {
            items: self.items@,
            cursor: match self.cursor {
                Some(i) => Some(i as int),
                None => None,
            },
        }
    }
}

impl<T> SelectionList<T> {
    #[verifier::type_invariant]
    spec fn cursor_points_at_an_item(self) -> bool {
        self.cursor matches Some(i) ==> i < self.items@.len()
    }

    /// A list of the given items with nothing selected.
    pub fn with_items(items: Vec<T>) -> (list: Self)
        ensures
            list@.items == items@,
            list@.cursor is None,
            list@.wf(),
    {
        proof {
            lemma_vec_len_fits(&items);
        }
        SelectionList { items: items, cursor: None }
    }

    /// The items, in their order.
    pub fn items(&self) -> (items: &Vec<T>)
        ensures
            items@ == self@.items,
    {
        &self.items
    }

    /// The number of items.
    pub fn len(&self) -> (n: usize)
        ensures
            n == self@.items.len(),
    {
        self.items.len()
    }

    /// The index of the selected item, if one is selected. It is the index of
    /// an item of the list.
    pub fn selected(&self) -> (cursor: Option<usize>)
        ensures
            self@.wf(),
            match cursor {
                Some(i) => self@.cursor == Some(i as int),
                None => self@.cursor is None,
            },
    {
        proof {
            use_type_invariant(self);
            lemma_vec_len_fits(&self.items);
        }
        self.cursor
    }

    /// The state that the list is in.
    pub fn state(&self) -> (state: Selection)
        ensures
            state == self@.state(),
    {
        if self.items.len() == 0 {
            Selection::Empty
        } else {
            match self.cursor {
                None => Selection::Unselected,
                Some(i) => Selection::Selected(i),
            }
        }
    }

    /// Moves the cursor one item forward. In an empty list nothing happens;
    /// where nothing is selected the first item is selected; from the last
    /// item the cursor goes to the first.
    pub fn next(&mut self)
        ensures
            final(self)@ == old(self)@.after_next(),
            final(self)@.wf(),
    {
        proof {
            use_type_invariant(&*self);
        }
        let n = self.items.len();
        if n == 0 {
            return;
        }
        let moved: usize = match self.cursor {
            None => 0,
            Some(i) => {
                proof {
                    lemma_step_in_range(n as int, i as int);
                }
                if i + 1 == n {
                    0
                } else {
                    i + 1
                }
            },
        };
        self.cursor = Some(moved);
    }

    /// Moves the cursor one item back. In an empty list nothing happens;
    /// where nothing is selected the last item is selected; from the first
    /// item the cursor goes to the last.
    pub fn previous(&mut self)
        ensures
            final(self)@ == old(self)@.after_previous(),
            final(self)@.wf(),
    {
        proof {
            use_type_invariant(&*self);
        }
        let n = self.items.len();
        if n == 0 {
            return;
        }
        let moved: usize = match self.cursor {
            None => n - 1,
            Some(i) => {
                proof {
                    lemma_step_in_range(n as int, i as int);
                }
                if i == 0 {
                    n - 1
                } else {
                    i - 1
                }
            },
        };
        self.cursor = Some(moved);
    }

    /// Clears the cursor.
    pub fn unselect(&mut self)
        ensures
            final(self)@.items == old(self)@.items,
            final(self)@.cursor is None,
            final(self)@.wf(),
    {
        proof {
            lemma_vec_len_fits(&self.items);
        }
        self.cursor = None;
    }

    /// Selects the item at `index`. An index that is not that of an item is
    /// refused: it is reported by `false`, and the list stays as it was.
    pub fn select(&mut self, index: usize) -> (done: bool)
        ensures
            done == (index < old(self)@.items.len()),
            final(self)@.items == old(self)@.items,
            done ==> final(self)@.cursor == Some(index as int),
            !done ==> final(self)@.cursor == old(self)@.cursor,
            final(self)@.wf(),
    {
        proof {
            use_type_invariant(&*self);
        }
        if index < self.items.len() {
            self.cursor = Some(index);
            true
        } else {
            false
        }
    }

    /// Puts `new_items` in place of the items. The cursor is always cleared:
    /// an index into the former items says nothing about the new ones.
    pub fn replace_items(&mut self, new_items: Vec<T>)
        ensures
            final(self)@.items == new_items@,
            final(self)@.cursor is None,
            final(self)@.wf(),
            new_items@.len() == 0 ==> final(self)@.state() == Selection::Empty,
            new_items@.len() > 0 ==> final(self)@.state() == Selection::Unselected,
    {
        proof {
            lemma_vec_len_fits(&new_items);
        }
        self.cursor = None;
        self.items = new_items;
    }

    /// The selected item, for the opener. Where nothing is selected there is
    /// nothing to open.
    pub fn open_selected(&self) -> (item: Option<&T>)
        ensures
            match item {
                Some(item) => self@.cursor matches Some(i) && 0 <= i < self@.items.len()
                    && *item == self@.items[i],
                None => self@.cursor is None,
            },
    {
        proof {
            use_type_invariant(self);
        }
        match self.cursor {
            Some(i) => Some(&self.items[i]),
            None => None,
        }
    }
}

/// The texts of a sequence of titles.
pub open spec fn title_texts(titles: Seq<&str>) -> Seq<Seq<char>> {
    Seq::new(titles.len(), |i: int| titles[i]@)
}

/// What a `TabsState` stands for: the titles of the tabs and the index of the
/// tab that is shown.
pub struct TabsView {
    pub titles: Seq<Seq<char>>,
    pub index: int,
}

impl TabsView {
    /// The row with the tab to the right shown, and the first tab after the
    /// last. A row without tabs stays as it is.
    pub open spec fn after_next(self) -> TabsView {
        if self.titles.len() == 0 {
            self
        } else {
            TabsView { titles: self.titles, index: (self.index + 1) % (self.titles.len() as int) }
        }
    }

    /// The row with the tab to the left shown, and the last tab before the
    /// first. A row without tabs stays as it is.
    pub open spec fn after_previous(self) -> TabsView {
        if self.titles.len() == 0 {
            self
        } else if self.index > 0 {
            TabsView { titles: self.titles, index: self.index - 1 }
        } else {
            TabsView { titles: self.titles, index: self.titles.len() - 1 }
        }
    }
}

/// A row of tabs, one of which is shown.
pub struct TabsState<'a> {
    titles: Vec<&'a str>,
    index: usize,
}

impl<'a> View for TabsState<'a> {
    type V = TabsView;

    closed spec fn view(&self) -> TabsView {
        TabsView { titles: title_texts(self.titles@), index: self.index as int }
    }
}

impl<'a> TabsState<'a> {
    #[verifier::type_invariant]
    spec fn index_points_at_a_tab(self) -> bool {
        if self.titles@.len() == 0 {
            self.index == 0
        } else {
            self.index < self.titles@.len()
        }
    }

    /// Tabs of the given titles, the first of which is shown.
    pub fn new(titles: Vec<&'a str>) -> (tabs: Self)
        ensures
            tabs@.titles == title_texts(titles@),
            tabs@.index == 0,
    {
        TabsState { titles: titles, index: 0 }
    }

    /// The titles of the tabs.
    pub fn titles(&self) -> (titles: &Vec<&'a str>)
        ensures
            title_texts(titles@) == self@.titles,
    {
        &self.titles
    }

    /// The index of the tab that is shown. Where there are tabs it is the
    /// index of one of them.
    pub fn index(&self) -> (index: usize)
        ensures
            index == self@.index,
            self@.titles.len() > 0 ==> index < self@.titles.len(),
    {
        proof {
            use_type_invariant(self);
        }
        self.index
    }

    /// Shows the tab to the right, and the first tab after the last. Where
    /// there are no tabs nothing happens.
    pub fn next(&mut self)
        ensures
            final(self)@ == old(self)@.after_next(),
    {
        proof {
            use_type_invariant(&*self);
            assert(self@.titles.len() == self.titles@.len());
        }
        let n = self.titles.len();
        if n == 0 {
            return;
        }
        proof {
            lemma_step_in_range(n as int, self.index as int);
        }
        if self.index + 1 == n {
            self.index = 0;
        } else {
            self.index = self.index + 1;
        }
    }

    /// Shows the tab to the left, and the last tab before the first. Where
    /// there are no tabs nothing happens.
    pub fn previous(&mut self)
        ensures
            final(self)@ == old(self)@.after_previous(),
    {
        proof {
            use_type_invariant(&*self);
            assert(self@.titles.len() == self.titles@.len());
        }
        let n = self.titles.len();
        if n == 0 {
            return;
        }
        if self.index > 0 {
            self.index = self.index - 1;
        } else {
            self.index = n - 1;
        }
    }
}

} // verus!
