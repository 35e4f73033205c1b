//! The state behind the interactive view: the panes, the focus, the tabs and
//! the two switches, and what each key does to them. Drawing the view and
//! opening a memo are left to the caller: a key that opens a memo hands its
//! path back.

use crate::memo::{clone_memos, memo_views, Memo, MemoView};
use crate::search::{hits, search_hits};
use crate::selection::{SelectionList, SelectionView, TabsState, TabsView};
use vstd::prelude::*;

verus! {

/// What one pane stands for: the memos it lists and its cursor.
pub open spec fn pane_view(pane: SelectionList<Memo>) -> SelectionView<MemoView> {
    SelectionView { items: memo_views(pane@.items), cursor: pane@.cursor }
}

/// What the panes stand for.
pub open spec fn pane_views(panes: Seq<SelectionList<Memo>>) -> Seq<SelectionView<MemoView>> {
    Seq::new(panes.len(), |i: int| pane_view(panes[i]))
}

/// The state of the interactive view.
pub struct App<'a> {
    pub title: &'a str,
    pub should_quit: bool,
    pub tabs: TabsState<'a>,
    pub show_chart: bool,
    pub folders: Vec<SelectionList<Memo>>,
    pub enhanced_graphics: bool,
    pub folders_index: usize,
    pub path_copied: String,
}

/// What an `App` stands for.
pub struct AppView {
    pub title: Seq<char>,
    pub should_quit: bool,
    pub tabs: TabsView,
    pub show_chart: bool,
    pub folders: Seq<SelectionView<MemoView>>,
    pub enhanced_graphics: bool,
    pub folders_index: int,
    pub path_copied: Seq<char>,
}

impl AppView {
    /// The focus is on one of the panes.
    pub open spec fn has_focused_pane(self) -> bool {
        0 <= self.folders_index < self.folders.len()
    }

    /// The pane that has the focus.
    pub open spec fn focused(self) -> SelectionView<MemoView>
        recommends
            self.has_focused_pane(),
    {
        self.folders[self.folders_index]
    }

    /// The state with `pane` in place of the pane that has the focus.
    pub open spec fn with_focused(self, pane: SelectionView<MemoView>) -> AppView
        recommends
            self.has_focused_pane(),
    {
        AppView { folders: self.folders.update(self.folders_index, pane), ..self }
    }

    /// The state with the focus on the pane at `pane`, where there is such a
    /// pane; the state as it is where there is none. No list changes.
    pub open spec fn with_focus_on(self, pane: int) -> AppView {
        if 0 <= pane < self.folders.len() {
            AppView { folders_index: pane, ..self }
        } else {
            self
        }
    }

    /// The state after a search in the pane that has the focus: where memos
    /// are hit they take the place of the pane's list, with nothing selected;
    /// where none is hit everything stays as it was, the cursor too.
    pub open spec fn after_search(self, query: Seq<char>) -> AppView
        recommends
            self.has_focused_pane(),
    {
        let found = hits(self.focused().items, query);
        if found.len() == 0 {
            self
        } else {
            self.with_focused(SelectionView { items: found, cursor: None })
        }
    }

    /// The path of the memo that the pane with the focus has selected.
    pub open spec fn selected_path(self) -> Option<Seq<char>>
        recommends
            self.has_focused_pane(),
    {
        match self.focused().cursor {
            Some(i) => Some(self.focused().items[i].path),
            None => None,
        }
    }

    /// Whether a key acts on the pane that has the focus.
    pub open spec fn key_needs_pane(c: char) -> bool {
        c == 'j' || c == 'k' || c == 'c'
    }

    /// The state after a key: `e` asks to quit, `t` switches the chart on or
    /// off, `j` and `k` move the cursor of the focused pane forward and back,
    /// `h` and `l` put the focus on the left and the right pane where there is
    /// such a pane. Every other key, and `c`, leaves the state as it is.
    pub open spec fn after_key(self, c: char) -> AppView {
        if c == 'e' {
            AppView { should_quit: true, ..self }
        } else if c == 't' {
            AppView { show_chart: !self.show_chart, ..self }
        } else if c == 'j' {
            self.with_focused(self.focused().after_next())
        } else if c == 'k' {
            self.with_focused(self.focused().after_previous())
        } else if c == 'l' {
            self.with_focus_on(1)
        } else if c == 'h' {
            self.with_focus_on(0)
        } else {
            self
        }
    }

    /// The path that a key asks to open: that of the selected memo for `c`,
    /// none for every other key.
    pub open spec fn opened_by_key(self, c: char) -> Option<Seq<char>> {
        if c == 'c' {
            self.selected_path()
        } else {
            None
        }
    }
}

/// No key and no search takes the focus off the panes: where the focus is on
/// a pane before, it is on a pane after, and the number of panes is the same.
pub proof fn lemma_focus_stays_on_a_pane(app: AppView, c: char, query: Seq<char>)
    requires
        app.has_focused_pane(),
    ensures
        app.after_key(c).has_focused_pane(),
        app.after_key(c).folders.len() == app.folders.len(),
        app.after_search(query).has_focused_pane(),
        app.after_search(query).folders.len() == app.folders.len(),
        app.with_focus_on(0).has_focused_pane(),
        app.with_focus_on(1).has_focused_pane(),
{
}

/// Switching the focus changes no list.
pub proof fn lemma_focus_switch_keeps_lists(app: AppView, pane: int)
    ensures
        app.with_focus_on(pane).folders == app.folders,
        app.with_focus_on(pane) == (AppView {
            folders_index: app.with_focus_on(pane).folders_index,
            ..app
        }),
{
}

impl<'a> View for App<'a> {
    type V = AppView;

    open spec fn view(&self) -> AppView {
        AppView {
            title: self.title@,
            should_quit: self.should_quit,
            tabs: self.tabs@,
            show_chart: self.show_chart,
            folders: pane_views(self.folders@),
            enhanced_graphics: self.enhanced_graphics,
            folders_index: self.folders_index as int,
            path_copied: self.path_copied@,
        }
    }
}

impl<'a> App<'a> {
    /// The state at the start: one pane that lists the given memos with
    /// nothing selected, the focus on it, three tabs of which the first is
    /// shown, the chart off.
    pub fn new(title: &'a str, lst_memo: &Vec<Memo>, enhanced_graphics: bool) -> (app: App<'a>)
        ensures
            app@.title == title@,
            !app@.should_quit,
            app@.tabs.titles == seq!["Tab0"@, "Tab1"@, "Tab2"@],
            app@.tabs.index == 0,
            !app@.show_chart,
            app@.folders == seq![
                SelectionView { items: memo_views(lst_memo@), cursor: None::<int> },
            ],
            app@.enhanced_graphics == enhanced_graphics,
            app@.folders_index == 0,
            app@.path_copied == Seq::<char>::empty(),
            app@.has_focused_pane(),
    {
        let mut titles: Vec<&'a str> = Vec::new();
        titles.push("Tab0");
        titles.push("Tab1");
        titles.push("Tab2");
        let tabs = TabsState::new(titles);
        let pane = SelectionList::with_items(clone_memos(lst_memo));
        let mut folders: Vec<SelectionList<Memo>> = Vec::new();
        folders.push(pane);
        let app = App {
            title: title,
            should_quit: false,
            tabs: tabs,
            show_chart: false,
            folders: folders,
            enhanced_graphics: enhanced_graphics,
            folders_index: 0,
            path_copied: String::new(),
        };
        assert(app@.tabs.titles =~= seq!["Tab0"@, "Tab1"@, "Tab2"@]);
        assert(app@.folders =~= seq![
            SelectionView { items: memo_views(lst_memo@), cursor: None::<int> },
        ]);
        app
    }

    /// Moves the cursor of the focused pane one memo back.
    pub fn on_up(&mut self)
        requires
            old(self)@.has_focused_pane(),
        ensures
            final(self)@ == old(self)@.with_focused(old(self)@.focused().after_previous()),
            final(self)@.has_focused_pane(),
    {
        let index = self.folders_index;
        let ghost before = pane_views(self.folders@);
        self.folders[index].previous();
        assert(pane_views(self.folders@) =~= before.update(
            index as int,
            before[index as int].after_previous(),
        ));
    }

    /// Moves the cursor of the focused pane one memo forward.
    pub fn on_down(&mut self)
        requires
            old(self)@.has_focused_pane(),
        ensures
            final(self)@ == old(self)@.with_focused(old(self)@.focused().after_next()),
            final(self)@.has_focused_pane(),
    {
        let index = self.folders_index;
        let ghost before = pane_views(self.folders@);
        self.folders[index].next();
        assert(pane_views(self.folders@) =~= before.update(
            index as int,
            before[index as int].after_next(),
        ));
    }

    /// Shows the tab to the right.
    pub fn on_right(&mut self)
        ensures
            final(self)@ == (AppView { tabs: old(self)@.tabs.after_next(), ..old(self)@ }),
    {
        self.tabs.next();
    }

    /// Shows the tab to the left.
    pub fn on_left(&mut self)
        ensures
            final(self)@ == (AppView { tabs: old(self)@.tabs.after_previous(), ..old(self)@ }),
    {
        self.tabs.previous();
    }

    /// The path of the memo to open: that of the memo which the focused pane
    /// has selected. Where nothing is selected there is nothing to open.
    pub fn on_enter_dir(&self) -> (path: Option<String>)
        requires
            self@.has_focused_pane(),
        ensures
            path is Some <==> self@.selected_path() is Some,
            path matches Some(path) ==> Some(path@) == self@.selected_path(),
    {
        match self.folders[self.folders_index].open_selected() {
            Some(memo) => Some(memo.get_path().clone()),
            None => None,
        }
    }

    /// Puts the focus on the left pane. Where there is no pane the focus stays
    /// where it is. No list changes.
    pub fn on_focus_left_pain(&mut self)
        ensures
            final(self)@ == old(self)@.with_focus_on(0),
            final(self)@.folders == old(self)@.folders,
            old(self)@.has_focused_pane() ==> final(self)@.has_focused_pane(),
    {
        if self.folders.len() > 0 {
            self.folders_index = 0;
        }
    }

    /// Puts the focus on the right pane. Where there is no right pane the
    /// focus stays where it is. No list changes.
    pub fn on_focus_right_pain(&mut self)
        ensures
            final(self)@ == old(self)@.with_focus_on(1),
            final(self)@.folders == old(self)@.folders,
            old(self)@.has_focused_pane() ==> final(self)@.has_focused_pane(),
    {
        if self.folders.len() > 1 {
            self.folders_index = 1;
        }
    }

    /// Searches the focused pane: the memos whose path holds `search`,
    /// without regard to case, take the place of its list, and nothing is
    /// selected. Where no path holds it, the pane stays as it was.
    pub fn search_string_in_this_path(&mut self, search: &str)
        requires
            old(self)@.has_focused_pane(),
        ensures
            final(self)@ == old(self)@.after_search(search@),
            final(self)@.has_focused_pane(),
    {
        let index = self.folders_index;
        let ghost before = pane_views(self.folders@);
        let lst_new = search_hits(self.folders[index].items(), search);
        if lst_new.len() > 0 {
            let ghost found = memo_views(lst_new@);
            self.folders[index] = SelectionList::with_items(lst_new);
            assert(pane_views(self.folders@) =~= before.update(
                index as int,
                SelectionView { items: found, cursor: None::<int> },
            ));
        }
    }

    /// Handles a key and hands back the path of the memo to open, if the key
    /// asks for one. The second argument, the position of the pointer, is not
    /// used.
    pub fn on_key(&mut self, c: char, pos: (u16, u16)) -> (path: Option<String>)
        requires
            AppView::key_needs_pane(c) ==> old(self)@.has_focused_pane(),
        ensures
            final(self)@ == old(self)@.after_key(c),
            old(self)@.has_focused_pane() ==> final(self)@.has_focused_pane(),
            path is Some <==> old(self)@.opened_by_key(c) is Some,
            path matches Some(path) ==> Some(path@) == old(self)@.opened_by_key(c),
    {
        if c == 'e' {
            self.should_quit = true;
            None
        } else if c == 't' {
            self.show_chart = !self.show_chart;
            None
        } else if c == 'j' {
            self.on_down();
            None
        } else if c == 'k' {
            self.on_up();
            None
        } else if c == 'c' {
            self.on_enter_dir()
        } else if c == 'l' {
            self.on_focus_right_pain();
            None
        } else if c == 'h' {
            self.on_focus_left_pain();
            None
        } else {
            None
        }
    }

    /// Adds nothing yet: the state stays as it is.
    pub fn add_task(&mut self)
        ensures
            final(self)@ == old(self)@,
    {
    }
}

} // verus!
