//! The session controller: it owns the state of a browsing session and turns
//! key and pointer events into changes of that state and into outcomes for
//! the caller.
use vstd::prelude::*;
use crate::catalog::{view_of, filter_items};
use crate::config::CustomKeybindings;
use crate::lists::{dedup_ids, toggle_id, move_to_front, rename_id};
use crate::seqs::{
    ids, toggled, moved_front, renamed, dedup_of, lemma_dedup, lemma_renamed, lemma_toggled_distinct,
    lemma_moved_front_distinct,
};
use crate::tab::{
    Tab, TabConfig, active_of, active_tabs, lemma_active_tabs, lemma_position_in_range, next_of,
    prev_of, next_tab, prev_tab, position_of,
};
use crate::cache::{PreviewCache, rekeyed};
use crate::text::{push_char, pop_char, trim, trim_of, target_path, rename_target, name_of, file_name};
use crate::tab::title_of;
use crate::lists::contains_id;

verus! {

/// A key as the browser sees it.
#[derive(Clone, Copy, Debug, PartialEq, Eq, Structural)]
pub enum Key {
    Char(char),
    Enter,
    Esc,
    Backspace,
    Tab,
    Up,
    Down,
    PageUp,
    PageDown,
    Other,
}

/// One key event handed to the controller.
#[derive(Clone, Copy, Debug, PartialEq, Eq, Structural)]
pub struct Input {
    pub key: Key,
}

/// The rename dialog: the item being renamed, the text typed so far and the
/// message of the last failed attempt.
#[derive(Clone, Debug)]
pub struct RenameState {
    pub original_path: String,
    pub current_input: String,
    pub error: Option<String>,
}

/// What the caller is to do after an event.
#[derive(Clone, Debug)]
pub enum Outcome {
    /// Nothing beyond redrawing.
    Continue,
    /// The favorites list changed and is to be saved.
    FavoritesChanged,
    /// The session ends with `item` chosen; the history is to be saved when
    /// it changed.
    Chosen { item: String, history_changed: bool },
    /// The file `from` is to be renamed to `to`, unless `to` exists.
    RenameAttempt { from: String, to: String },
    /// The session ends with nothing chosen.
    Quit,
}

/// Why a rename that the controller asked for did not happen.
#[derive(Clone, Debug)]
pub enum RenameFailure {
    /// A file already has the target name.
    AlreadyExists,
    /// The file system refused, with this message.
    Io(String),
}

/// What the caller is to do after a rename went through.
#[derive(Clone, Debug)]
pub struct RenameEffects {
    /// The favorites list changed and is to be saved.
    pub save_favorites: bool,
    /// A preview to decode for the new path, when it is shown and not cached.
    pub decode: Option<String>,
}

/// The kinds of pointer event the browser reacts to.
#[derive(Clone, Copy, Debug, PartialEq, Eq, Structural)]
pub enum MouseKind {
    Down,
    ScrollUp,
    ScrollDown,
    Other,
}

/// A region of the screen, in cells.
#[derive(Clone, Copy, Debug, PartialEq, Eq, Structural)]
pub struct Rect {
    pub x: u16,
    pub y: u16,
    pub width: u16,
    pub height: u16,
}

/// A pointer event with the screen regions of the list and of the tabs.
#[derive(Clone, Copy, Debug, PartialEq, Eq, Structural)]
pub struct MouseInput {
    pub kind: MouseKind,
    pub column: u16,
    pub row: u16,
    pub list_area: Rect,
    pub tabs_area: Rect,
}

/// The cell `(column, row)` lies in `r`.
pub open spec fn in_rect(column: int, row: int, r: Rect) -> bool {
    r.x <= column < r.x + r.width && r.y <= row < r.y + r.height
}

/// What a key does in the normal (not renaming) state.
#[derive(Clone, Copy, Debug, PartialEq, Eq, Structural)]
pub enum Action {
    ToggleMulti,
    NextTab,
    PrevTab,
    StartSearch,
    EndSearch,
    SearchPush(char),
    SearchPop,
    MoveDown,
    MoveUp,
    PageDown,
    PageUp,
    ToggleFavorite,
    StartRename,
    Choose,
    Quit,
    Ignore,
}

/// The state of a browsing session.
#[derive(Clone, Debug)]
pub struct Controller {
    pub wallpapers: Vec<String>,
    pub history: Vec<String>,
    pub favorites: Vec<String>,
    pub tabs: Vec<Tab>,
    pub current_tab: Tab,
    pub search_query: String,
    pub in_search: bool,
    pub selected: usize,
    pub multi_select: bool,
    pub selected_items: Vec<usize>,
    pub rename_state: Option<RenameState>,
    pub last_preview: Option<String>,
    pub keybindings: CustomKeybindings,
    pub vim_motion: bool,
    pub mouse_support: bool,
}

/// A valid selection: 0 in an empty view, else an index of the view.
pub open spec fn selection_ok(sel: int, n: int) -> bool {
    (n == 0 && sel == 0) || (0 <= sel < n)
}

/// The selection after the view has `n` items: kept when valid, else the
/// last item, or 0 in an empty view.
pub open spec fn clamped(sel: int, n: int) -> int {
    if n == 0 {
        0
    } else if sel >= n {
        n - 1
    } else {
        sel
    }
}

/// One step down, wrapping from the last item to the first.
pub open spec fn step_down(sel: int, n: int) -> int {
    if sel + 1 < n {
        sel + 1
    } else {
        0
    }
}

/// One step up, wrapping from the first item to the last.
pub open spec fn step_up(sel: int, n: int) -> int {
    if sel > 0 {
        sel - 1
    } else if n > 0 {
        n - 1
    } else {
        0
    }
}

/// Five steps down, or to the first item when fewer are left.
pub open spec fn page_down(sel: int, n: int) -> int {
    if sel + 5 < n {
        sel + 5
    } else {
        0
    }
}

/// Five steps up, or to the last item when fewer are left.
pub open spec fn page_up(sel: int, n: int) -> int {
    if sel >= 5 {
        sel - 5
    } else if n > 0 {
        n - 1
    } else {
        0
    }
}

/// The multi-select set after index `i` was visited.
pub open spec fn visited(items: Seq<usize>, multi: bool, i: usize) -> Seq<usize> {
    if multi && !items.contains(i) {
        items.push(i)
    } else {
        items
    }
}

/// The favorites after toggling the items at the indices `items` of `view`,
/// one after the other; indices outside the view are skipped.
pub open spec fn toggle_all(
    favorites: Seq<Seq<char>>,
    view: Seq<Seq<char>>,
    items: Seq<usize>,
) -> Seq<Seq<char>>
    decreases items.len(),
{
    if items.len() == 0 {
        favorites
    } else {
        let prev = toggle_all(favorites, view, items.drop_last());
        let i = items.last() as int;
        if i < view.len() {
            toggled(prev, view[i])
        } else {
            prev
        }
    }
}

impl Controller {
    /// The items on show.
    pub open spec fn view(&self) -> Seq<Seq<char>> {
        view_of(
            self.current_tab,
            ids(self.wallpapers@),
            ids(self.history@),
            ids(self.favorites@),
            self.search_query@,
        )
    }

    /// The invariant of a session: no list holds an item twice, the
    /// categories on show are distinct and hold the current one, and the
    /// selection is valid for the view.
    pub open spec fn wf(&self) -> bool {
        &&& ids(self.wallpapers@).no_duplicates()
        &&& ids(self.history@).no_duplicates()
        &&& ids(self.favorites@).no_duplicates()
        &&& self.tabs@.no_duplicates()
        &&& self.tabs@.len() > 0
        &&& self.tabs@.contains(self.current_tab)
        &&& selection_ok(self.selected as int, self.view().len() as int)
    }

    /// Starts a session on the given lists (repeats dropped), with the
    /// categories that `tab_configs` enables.
    pub fn new(
        wallpapers: Vec<String>,
        history: Vec<String>,
        favorites: Vec<String>,
        tab_configs: &Vec<TabConfig>,
        keybindings: CustomKeybindings,
        vim_motion: bool,
        mouse_support: bool,
    ) -> (r: Controller)
        ensures
            r.wf(),
            ids(r.wallpapers@) == dedup_of(ids(wallpapers@)),
            ids(r.history@) == dedup_of(ids(history@)),
            ids(r.favorites@) == dedup_of(ids(favorites@)),
            r.tabs@ == active_of(tab_configs@),
            r.current_tab == active_of(tab_configs@)[0],
            r.search_query@.len() == 0,
            !r.in_search,
            r.selected == 0,
            !r.multi_select,
            r.selected_items@.len() == 0,
            r.rename_state is None,
            r.last_preview is None,
            r.keybindings == keybindings,
            r.vim_motion == vim_motion,
            r.mouse_support == mouse_support,
    {
        let tabs = active_tabs(tab_configs);
        proof {
            lemma_active_tabs(tab_configs@);
            lemma_dedup(ids(wallpapers@));
            lemma_dedup(ids(history@));
            lemma_dedup(ids(favorites@));
        }
        let first = tabs[0];
        let r = Controller {
            wallpapers: dedup_ids(&wallpapers),
            history: dedup_ids(&history),
            favorites: dedup_ids(&favorites),
            tabs,
            current_tab: first,
            search_query: String::new(),
            in_search: false,
            selected: 0,
            multi_select: false,
            selected_items: Vec::new(),
            rename_state: None,
            last_preview: None,
            keybindings,
            vim_motion,
            mouse_support,
        };
        assert(r.tabs@[0] == first);
        r
    }

    /// The items on show.
    pub fn filter_items(&self) -> (r: Vec<String>)
        ensures
            ids(r@) == self.view(),
    {
        filter_items(
            self.current_tab,
            &self.wallpapers,
            &self.history,
            &self.favorites,
            self.search_query.as_str(),
        )
    }

    /// Brings the selection back into the view after the view changed.
    pub fn adjust_selection(&mut self)
        ensures
            *final(self) == (Controller { selected: final(self).selected, ..*old(self) }),
            final(self).selected == clamped(old(self).selected as int, old(self).view().len() as int),
    {
        let n = self.filter_items().len();
        if n == 0 {
            self.selected = 0;
        } else if self.selected >= n {
            self.selected = n - 1;
        }
    }
    /// What `key` does in the normal state, in order of precedence.
    pub open spec fn action_for(&self, key: Key) -> Action {
        let kb = self.keybindings;
        let s = self.in_search;
        let n = self.view().len();
        match key {
            Key::Char(ch) => {
                if ch == kb.multi_select && !s {
                    Action::ToggleMulti
                } else if ch == 'l' && self.vim_motion && !s {
                    Action::NextTab
                } else if ch == 'h' && self.vim_motion && !s {
                    Action::PrevTab
                } else if ch == kb.search && self.current_tab == Tab::Wallpapers && !s {
                    Action::StartSearch
                } else if s {
                    Action::SearchPush(ch)
                } else if ch == 'j' && self.vim_motion {
                    Action::MoveDown
                } else if ch == 'k' && self.vim_motion {
                    Action::MoveUp
                } else if ch == kb.favorite && n > 0 {
                    Action::ToggleFavorite
                } else if ch == kb.rename && n > 0 && self.current_tab == Tab::Wallpapers {
                    Action::StartRename
                } else if ch == kb.quit {
                    Action::Quit
                } else {
                    Action::Ignore
                }
            },
            Key::Tab => if s {
                Action::Ignore
            } else {
                Action::NextTab
            },
            Key::Esc => if s {
                Action::EndSearch
            } else {
                Action::Ignore
            },
            Key::Enter => if s {
                Action::EndSearch
            } else if n > 0 {
                Action::Choose
            } else {
                Action::Ignore
            },
            Key::Backspace => if s {
                Action::SearchPop
            } else {
                Action::Ignore
            },
            Key::Down => Action::MoveDown,
            Key::Up => Action::MoveUp,
            Key::PageDown => Action::PageDown,
            Key::PageUp => Action::PageUp,
            Key::Other => Action::Ignore,
        }
    }

    /// What `key` does in the normal state.
    pub fn classify(&self, key: Key) -> (r: Action)
        ensures
            r == self.action_for(key),
    {
        let kb = self.keybindings;
        let s = self.in_search;
        let n = self.filter_items().len();
        match key {
            Key::Char(ch) => {
                if ch == kb.multi_select && !s {
                    Action::ToggleMulti
                } else if ch == 'l' && self.vim_motion && !s {
                    Action::NextTab
                } else if ch == 'h' && self.vim_motion && !s {
                    Action::PrevTab
                } else if ch == kb.search && self.current_tab == Tab::Wallpapers && !s {
                    Action::StartSearch
                } else if s {
                    Action::SearchPush(ch)
                } else if ch == 'j' && self.vim_motion {
                    Action::MoveDown
                } else if ch == 'k' && self.vim_motion {
                    Action::MoveUp
                } else if ch == kb.favorite && n > 0 {
                    Action::ToggleFavorite
                } else if ch == kb.rename && n > 0 && self.current_tab == Tab::Wallpapers {
                    Action::StartRename
                } else if ch == kb.quit {
                    Action::Quit
                } else {
                    Action::Ignore
                }
            },
            Key::Tab => if s {
                Action::Ignore
            } else {
                Action::NextTab
            },
            Key::Esc => if s {
                Action::EndSearch
            } else {
                Action::Ignore
            },
            Key::Enter => if s {
                Action::EndSearch
            } else if n > 0 {
                Action::Choose
            } else {
                Action::Ignore
            },
            Key::Backspace => if s {
                Action::SearchPop
            } else {
                Action::Ignore
            },
            Key::Down => Action::MoveDown,
            Key::Up => Action::MoveUp,
            Key::PageDown => Action::PageDown,
            Key::PageUp => Action::PageUp,
            Key::Other => Action::Ignore,
        }
    }

    /// The favorites after the favorite key: the multi-select set toggled
    /// when it is active and not empty, else the current item.
    pub open spec fn favorites_after_toggle(&self) -> Seq<Seq<char>> {
        if self.multi_select && self.selected_items@.len() > 0 {
            toggle_all(ids(self.favorites@), self.view(), self.selected_items@)
        } else {
            toggled(ids(self.favorites@), self.view()[self.selected as int])
        }
    }

    /// The state and outcome that `action` leads to from `self`.
    pub open spec fn action_effect(&self, action: Action, after: &Controller, out: Outcome) -> bool {
        let n = self.view().len() as int;
        let sel = self.selected as int;
        match action {
            Action::ToggleMulti => {
                &&& out is Continue
                &&& after.multi_select == !self.multi_select
                &&& after.selected_items@ == (if self.multi_select {
                    Seq::<usize>::empty()
                } else if self.selected_items@.contains(self.selected) {
                    self.selected_items@
                } else {
                    self.selected_items@.push(self.selected)
                })
                &&& *after == (Controller {
                    multi_select: after.multi_select,
                    selected_items: after.selected_items,
                    ..*self
                })
            },
            Action::NextTab | Action::PrevTab => {
                &&& out is Continue
                &&& after.current_tab == (if action is NextTab {
                    next_of(self.tabs@, self.current_tab)
                } else {
                    prev_of(self.tabs@, self.current_tab)
                })
                &&& after.selected == 0
                &&& !after.multi_select
                &&& after.selected_items@.len() == 0
                &&& *after == (Controller {
                    current_tab: after.current_tab,
                    selected: 0,
                    multi_select: false,
                    selected_items: after.selected_items,
                    ..*self
                })
            },
            Action::StartSearch => {
                &&& out is Continue
                &&& after.in_search
                &&& after.search_query@.len() == 0
                &&& *after == (Controller {
                    in_search: true,
                    search_query: after.search_query,
                    selected: 0,
                    ..*self
                })
            },
            Action::EndSearch => {
                &&& out is Continue
                &&& *after == (Controller { in_search: false, ..*self })
            },
            Action::SearchPush(ch) => {
                &&& out is Continue
                &&& after.search_query@ == self.search_query@.push(ch)
                &&& *after == (Controller { search_query: after.search_query, selected: 0, ..*self })
            },
            Action::SearchPop => {
                &&& out is Continue
                &&& after.search_query@ == (if self.search_query@.len() == 0 {
                    self.search_query@
                } else {
                    self.search_query@.drop_last()
                })
                &&& *after == (Controller { search_query: after.search_query, selected: 0, ..*self })
            },
            Action::MoveDown | Action::MoveUp | Action::PageDown | Action::PageUp => {
                let target = match action {
                    Action::MoveDown => step_down(sel, n),
                    Action::MoveUp => step_up(sel, n),
                    Action::PageDown => page_down(sel, n),
                    _ => page_up(sel, n),
                };
                &&& out is Continue
                &&& after.selected == target
                &&& after.selected_items@ == visited(
                    self.selected_items@,
                    self.multi_select,
                    target as usize,
                )
                &&& *after == (Controller {
                    selected: after.selected,
                    selected_items: after.selected_items,
                    ..*self
                })
            },
            Action::ToggleFavorite => {
                &&& out is FavoritesChanged
                &&& ids(after.favorites@) == self.favorites_after_toggle()
                &&& after.selected == clamped(sel, after.view().len() as int)
                &&& *after == (Controller {
                    favorites: after.favorites,
                    selected: after.selected,
                    ..*self
                })
            },
            Action::StartRename => {
                &&& out is Continue
                &&& after.rename_state matches Some(rs) && rs.original_path@ == self.view()[sel]
                    && rs.current_input@.len() == 0 && rs.error is None
                &&& *after == (Controller { rename_state: after.rename_state, ..*self })
            },
            Action::Choose => {
                let item = self.view()[sel];
                let w = self.current_tab == Tab::Wallpapers;
                &&& out matches Outcome::Chosen { item: chosen, history_changed } && chosen@ == item
                    && history_changed == w
                &&& ids(after.history@) == (if w {
                    moved_front(ids(self.history@), item)
                } else {
                    ids(self.history@)
                })
                &&& *after == (Controller { history: after.history, ..*self })
            },
            Action::Quit => {
                &&& out is Quit
                &&& *after == *self
            },
            Action::Ignore => {
                &&& out is Continue
                &&& *after == *self
            },
        }
    }

    fn toggle_multi(&mut self)
        requires
            old(self).wf(),
        ensures
            final(self).wf(),
            old(self).action_effect(Action::ToggleMulti, &*final(self), Outcome::Continue),
    {
        if self.multi_select {
            self.multi_select = false;
            self.selected_items = Vec::new();
            assert(self.selected_items@ =~= Seq::<usize>::empty());
        } else {
            self.multi_select = true;
            if !contains_index(&self.selected_items, self.selected) {
                self.selected_items.push(self.selected);
            }
        }
    }

    fn switch_tab(&mut self, forward: bool)
        requires
            old(self).wf(),
        ensures
            final(self).wf(),
            old(self).action_effect(
                if forward {
                    Action::NextTab
                } else {
                    Action::PrevTab
                },
                &*final(self),
                Outcome::Continue,
            ),
    {
        proof {
            lemma_position_in_range(self.tabs@, self.current_tab);
            let n = self.tabs@.len() as int;
            let p = position_of(self.tabs@, self.current_tab);
            vstd::arithmetic::div_mod::lemma_mod_bound(p + 1, n);
            assert(self.tabs@.contains(self.tabs@[(p + 1) % n]));
            assert(self.tabs@.contains(self.tabs@[n - 1]));
            if p > 0 {
                assert(self.tabs@.contains(self.tabs@[p - 1]));
            }
        }
        self.current_tab = if forward {
            next_tab(&self.tabs, self.current_tab)
        } else {
            prev_tab(&self.tabs, self.current_tab)
        };
        self.selected = 0;
        self.multi_select = false;
        self.selected_items = Vec::new();
    }

    fn move_selection(&mut self, action: Action)
        requires
            old(self).wf(),
            action is MoveDown || action is MoveUp || action is PageDown || action is PageUp,
        ensures
            final(self).wf(),
            old(self).action_effect(action, &*final(self), Outcome::Continue),
    {
        let n = self.filter_items().len();
        let sel = self.selected;
        let target: usize = match action {
            Action::MoveDown => if n > 0 && sel < n - 1 {
                sel + 1
            } else {
                0
            },
            Action::MoveUp => if sel > 0 {
                sel - 1
            } else if n > 0 {
                n - 1
            } else {
                0
            },
            Action::PageDown => if n > 5 && sel < n - 5 {
                sel + 5
            } else {
                0
            },
            _ => if sel >= 5 {
                sel - 5
            } else if n > 0 {
                n - 1
            } else {
                0
            },
        };
        self.selected = target;
        if self.multi_select && !contains_index(&self.selected_items, target) {
            self.selected_items.push(target);
        }
    }

    fn toggle_favorite(&mut self)
        requires
            old(self).wf(),
            old(self).view().len() > 0,
        ensures
            final(self).wf(),
            old(self).action_effect(Action::ToggleFavorite, &*final(self), Outcome::FavoritesChanged),
    {
        let view = self.filter_items();
        let ghost old_fav = ids(self.favorites@);
        if self.multi_select && self.selected_items.len() > 0 {
            let mut k: usize = 0;
            while k < self.selected_items.len()
                invariant
                    k <= self.selected_items@.len(),
                    ids(view@) == old(self).view(),
                    ids(self.favorites@) == toggle_all(
                        old_fav,
                        ids(view@),
                        self.selected_items@.take(k as int),
                    ),
                    ids(self.favorites@).no_duplicates(),
                    *self == (Controller { favorites: self.favorites, ..*old(self) }),
                decreases self.selected_items@.len() - k,
            {
                let i = self.selected_items[k];
                proof {
                    assert(self.selected_items@.take(k + 1).drop_last() =~= self.selected_items@.take(
                        k as int,
                    ));
                }
                if i < view.len() {
                    proof {
                        assert(ids(view@)[i as int] == view@[i as int]@);
                        lemma_toggled_distinct(ids(self.favorites@), view@[i as int]@);
                    }
                    toggle_id(&mut self.favorites, &view[i]);
                }
                k = k + 1;
            }
            assert(self.selected_items@.take(k as int) =~= self.selected_items@);
        } else {
            proof {
                assert(ids(view@)[self.selected as int] == view@[self.selected as int]@);
                lemma_toggled_distinct(ids(self.favorites@), view@[self.selected as int]@);
            }
            toggle_id(&mut self.favorites, &view[self.selected]);
        }
        self.adjust_selection();
    }

    fn choose_current(&mut self) -> (out: Outcome)
        requires
            old(self).wf(),
            old(self).view().len() > 0,
        ensures
            final(self).wf(),
            old(self).action_effect(Action::Choose, &*final(self), out),
    {
        let view = self.filter_items();
        let item = view[self.selected].clone();
        assert(ids(view@)[self.selected as int] == item@);
        let w = self.current_tab == Tab::Wallpapers;
        if w {
            proof {
                lemma_moved_front_distinct(ids(self.history@), item@);
            }
            move_to_front(&mut self.history, &item);
        }
        Outcome::Chosen { item, history_changed: w }
    }

    /// The outcome and state after `key` in the rename dialog.
    pub open spec fn rename_effect(&self, key: Key, after: &Controller, out: Outcome) -> bool {
        let rs = self.rename_state.unwrap();
        match key {
            Key::Char(ch) => {
                &&& out is Continue
                &&& after.rename_state matches Some(a) && a.original_path == rs.original_path
                    && a.current_input@ == rs.current_input@.push(ch) && a.error is None
                &&& *after == (Controller { rename_state: after.rename_state, ..*self })
            },
            Key::Backspace => {
                &&& out is Continue
                &&& after.rename_state matches Some(a) && a.original_path == rs.original_path
                    && a.current_input@ == (if rs.current_input@.len() == 0 {
                    rs.current_input@
                } else {
                    rs.current_input@.drop_last()
                }) && a.error is None
                &&& *after == (Controller { rename_state: after.rename_state, ..*self })
            },
            Key::Esc => {
                &&& out is Continue
                &&& *after == (Controller { rename_state: None, ..*self })
            },
            Key::Enter => {
                let name = trim_of(rs.current_input@);
                if name.len() == 0 {
                    &&& out is Continue
                    &&& after.rename_state matches Some(a) && a.original_path == rs.original_path
                        && a.current_input == rs.current_input && a.error is Some
                        && a.error.unwrap()@ == "Name cannot be empty"@
                    &&& *after == (Controller { rename_state: after.rename_state, ..*self })
                } else {
                    &&& out matches Outcome::RenameAttempt { from, to } && from@
                        == rs.original_path@ && to@ == target_path(rs.original_path@, name)
                    &&& *after == *self
                }
            },
            _ => {
                &&& out is Continue
                &&& *after == *self
            },
        }
    }

    /// Handles a key in the rename dialog.
    pub fn handle_rename_key(&mut self, key: Key) -> (out: Outcome)
        requires
            old(self).wf(),
            old(self).rename_state is Some,
        ensures
            final(self).wf(),
            old(self).rename_effect(key, &*final(self), out),
    {
        let mut rs = match self.rename_state.take() {
            Some(rs) => rs,
            None => {
                return Outcome::Continue;
            },
        };
        match key {
            Key::Char(ch) => {
                push_char(&mut rs.current_input, ch);
                rs.error = None;
                self.rename_state = Some(rs);
                Outcome::Continue
            },
            Key::Backspace => {
                pop_char(&mut rs.current_input);
                rs.error = None;
                self.rename_state = Some(rs);
                Outcome::Continue
            },
            Key::Esc => Outcome::Continue,
            Key::Enter => {
                let name = trim(rs.current_input.as_str());
                if name.unicode_len() == 0 {
                    rs.error = Some(String::from_str("Name cannot be empty"));
                    self.rename_state = Some(rs);
                    Outcome::Continue
                } else {
                    let to = rename_target(rs.original_path.as_str(), name);
                    let from = rs.original_path.clone();
                    self.rename_state = Some(rs);
                    Outcome::RenameAttempt { from, to }
                }
            },
            _ => {
                self.rename_state = Some(rs);
                Outcome::Continue
            },
        }
    }

    /// Shows why the rename did not happen; the typed text stays.
    pub fn rename_failed(&mut self, failure: RenameFailure)
        requires
            old(self).wf(),
            old(self).rename_state is Some,
        ensures
            final(self).wf(),
            final(self).rename_state matches Some(a) && a.original_path
                == old(self).rename_state.unwrap().original_path && a.current_input == old(
                self,
            ).rename_state.unwrap().current_input && a.error is Some && a.error.unwrap()@ == (
            match failure {
                RenameFailure::AlreadyExists => "File with that name already exists"@,
                RenameFailure::Io(m) => m@,
            }),
            *final(self) == (Controller { rename_state: final(self).rename_state, ..*old(self) }),
    {
        let msg = match failure {
            RenameFailure::AlreadyExists => String::from_str("File with that name already exists"),
            RenameFailure::Io(m) => m,
        };
        match self.rename_state.take() {
            Some(mut rs) => {
                rs.error = Some(msg);
                self.rename_state = Some(rs);
            },
            None => {},
        }
    }

    /// Carries a rename that went through into every list, the cache and
    /// the preview marker, and closes the dialog.
    pub fn rename_succeeded<T>(&mut self, cache: &mut PreviewCache<T>, from: &str, to: String) -> (r:
        RenameEffects)
        requires
            old(self).wf(),
            old(cache).wf(),
        ensures
            final(self).wf(),
            final(cache).wf(),
            ids(final(self).wallpapers@) == renamed(ids(old(self).wallpapers@), from@, to@),
            ids(final(self).history@) == renamed(ids(old(self).history@), from@, to@),
            ids(final(self).favorites@) == renamed(ids(old(self).favorites@), from@, to@),
            final(cache)@ == rekeyed(old(cache)@, from@, to@),
            final(cache).cap() == old(cache).cap(),
            from@ != to@ ==> !ids(final(self).wallpapers@).contains(from@),
            from@ != to@ ==> !ids(final(self).history@).contains(from@),
            from@ != to@ ==> !ids(final(self).favorites@).contains(from@),
            from@ != to@ ==> !final(cache).keys().contains(from@),
            ids(final(self).wallpapers@).contains(to@) == (ids(old(self).wallpapers@).contains(from@)
                || ids(old(self).wallpapers@).contains(to@)),
            ids(final(self).history@).contains(to@) == (ids(old(self).history@).contains(from@)
                || ids(old(self).history@).contains(to@)),
            ids(final(self).favorites@).contains(to@) == (ids(old(self).favorites@).contains(from@)
                || ids(old(self).favorites@).contains(to@)),
            final(cache).keys().contains(to@) == (old(cache).keys().contains(from@)
                || old(cache).keys().contains(to@)),
            final(self).rename_state is None,
            final(self).last_preview == (match old(self).last_preview {
                Some(p) => if p@ == from@ {
                    Some(to)
                } else {
                    Some(p)
                },
                None => None,
            }),
            final(self).selected == clamped(
                old(self).selected as int,
                final(self).view().len() as int,
            ),
            *final(self) == (Controller {
                wallpapers: final(self).wallpapers,
                history: final(self).history,
                favorites: final(self).favorites,
                rename_state: None,
                last_preview: final(self).last_preview,
                selected: final(self).selected,
                ..*old(self)
            }),
            r.save_favorites == (from@ != to@ && ids(old(self).favorites@).contains(from@)),
            r.decode == (if (old(self).last_preview matches Some(p) && p@ == from@)
                && !final(cache).keys().contains(to@) {
                Some(to)
            } else {
                None
            }),
    {
        proof {
            lemma_renamed(ids(self.wallpapers@), from@, to@);
            lemma_renamed(ids(self.history@), from@, to@);
            lemma_renamed(ids(self.favorites@), from@, to@);
        }
        let save_favorites = !crate::text::str_eq(from, to.as_str())
            && crate::lists::contains_id(&self.favorites, from);
        rename_id(&mut self.wallpapers, from, &to);
        rename_id(&mut self.history, from, &to);
        rename_id(&mut self.favorites, from, &to);
        let shown = match &self.last_preview {
            Some(p) => crate::text::str_eq(p.as_str(), from),
            None => false,
        };
        if shown {
            self.last_preview = Some(to.clone());
        }
        self.rename_state = None;
        let target = to.clone();
        cache.rename(from, to);
        self.adjust_selection();
        let decode = if shown && !cache.contains(target.as_str()) {
            Some(target)
        } else {
            None
        };
        RenameEffects { save_favorites, decode }
    }

    /// The state after a pointer event: a click in the list selects the row
    /// it hits, a click on the tab row switches to the tab it hits, and the
    /// wheel moves the selection by one without wrapping. Nothing happens
    /// while pointer support is off.
    pub open spec fn mouse_effect(&self, m: MouseInput, after: &Controller) -> bool {
        let n = self.view().len() as int;
        let sel = self.selected as int;
        let t = m.tabs_area;
        let nt = self.tabs@.len() as int;
        let tab_width = (t.width as int) / nt;
        let tab_hit = (m.column - t.x) / tab_width;
        let row_hit = m.row - m.list_area.y;
        if !self.mouse_support {
            *after == *self
        } else {
            match m.kind {
                MouseKind::Down => {
                    if t.y <= m.row < t.y + t.height && t.x <= m.column && tab_width > 0 && tab_hit < nt {
                        &&& after.selected_items@.len() == 0
                        &&& *after == (Controller {
                            current_tab: self.tabs@[tab_hit],
                            selected: 0,
                            multi_select: false,
                            selected_items: after.selected_items,
                            ..*self
                        })
                    } else if in_rect(m.column as int, m.row as int, m.list_area) && row_hit < n {
                        *after == (Controller { selected: row_hit as usize, ..*self })
                    } else {
                        *after == *self
                    }
                },
                MouseKind::ScrollUp => *after == (Controller {
                    selected: if sel > 0 {
                        (sel - 1) as usize
                    } else {
                        self.selected
                    },
                    ..*self
                }),
                MouseKind::ScrollDown => *after == (Controller {
                    selected: if sel + 1 < n {
                        (sel + 1) as usize
                    } else {
                        self.selected
                    },
                    ..*self
                }),
                MouseKind::Other => *after == *self,
            }
        }
    }

    /// The item under the selection, if the view is not empty.
    pub open spec fn current(&self) -> Option<Seq<char>> {
        if self.view().len() > 0 {
            Some(self.view()[self.selected as int])
        } else {
            None
        }
    }

    /// The item under the selection.
    pub fn current_item(&self) -> (r: Option<String>)
        requires
            self.wf(),
        ensures
            match r {
                Some(p) => self.current() == Some(p@),
                None => self.current() is None,
            },
    {
        let view = self.filter_items();
        if view.len() == 0 {
            None
        } else {
            let p = view[self.selected].clone();
            assert(ids(view@)[self.selected as int] == p@);
            Some(p)
        }
    }

    /// Whether `id` is the item under the selection.
    pub fn is_current(&self, id: &str) -> (r: bool)
        requires
            self.wf(),
        ensures
            r == (self.current() == Some(id@)),
    {
        match self.current_item() {
            Some(p) => crate::text::str_eq(p.as_str(), id),
            None => false,
        }
    }

    /// The item whose preview is to be shown next, when the selection moved
    /// to an item other than the one last previewed; it becomes the one last
    /// previewed.
    pub fn preview_target(&mut self) -> (r: Option<String>)
        requires
            old(self).wf(),
        ensures
            final(self).wf(),
            match old(self).current() {
                Some(p) => if old(self).last_preview matches Some(q) && q@ == p {
                    r is None && *final(self) == *old(self)
                } else {
                    r matches Some(t) && t@ == p && *final(self) == (Controller {
                        last_preview: r,
                        ..*old(self)
                    })
                },
                None => r is None && *final(self) == *old(self),
            },
    {
        match self.current_item() {
            Some(p) => {
                let same = match &self.last_preview {
                    Some(q) => crate::text::str_eq(q.as_str(), p.as_str()),
                    None => false,
                };
                if same {
                    None
                } else {
                    self.last_preview = Some(p.clone());
                    Some(p)
                }
            },
            None => None,
        }
    }

    /// The items to decode when the session starts: the first ten of the
    /// view, and no more than the cache can hold.
    pub fn preload_targets(&self, capacity: usize) -> (r: Vec<String>)
        ensures
            ids(r@) == self.view().take(
                vstd::math::min(
                    vstd::math::min(10, capacity as int),
                    self.view().len() as int,
                ),
            ),
    {
        let view = self.filter_items();
        let mut limit: usize = if capacity < 10 {
            capacity
        } else {
            10
        };
        if view.len() < limit {
            limit = view.len();
        }
        let mut out: Vec<String> = Vec::new();
        let mut i: usize = 0;
        while i < limit
            invariant
                i <= limit <= view@.len(),
                ids(out@) == ids(view@).take(i as int),
            decreases limit - i,
        {
            let s = view[i].clone();
            proof {
                crate::seqs::lemma_ids_push(out@, s);
                assert(ids(view@).take(i + 1) =~= ids(view@).take(i as int).push(s@));
            }
            out.push(s);
            i = i + 1;
        }
        out
    }

    /// The line shown for the item at index `i` of the view: its file name,
    /// marked `[x] ` in front when multi-select holds it and ` ★` behind when
    /// it is a favorite.
    pub open spec fn label_of(&self, i: int) -> Seq<char> {
        let p = self.view()[i];
        let marked = if self.multi_select && self.selected_items@.contains(i as usize) {
            "[x] "@
        } else {
            Seq::<char>::empty()
        };
        let star = if ids(self.favorites@).contains(p) {
            " ★"@
        } else {
            Seq::<char>::empty()
        };
        marked + name_of(p) + star
    }

    /// The lines shown for the items of the view.
    pub fn item_labels(&self) -> (r: Vec<String>)
        ensures
            r@.len() == self.view().len(),
            forall|i: int| 0 <= i < r@.len() ==> #[trigger] r@[i]@ == self.label_of(i),
    {
        let view = self.filter_items();
        let mut out: Vec<String> = Vec::new();
        let mut i: usize = 0;
        while i < view.len()
            invariant
                i <= view@.len(),
                ids(view@) == self.view(),
                out@.len() == i,
                forall|j: int| 0 <= j < i ==> #[trigger] out@[j]@ == self.label_of(j),
            decreases view@.len() - i,
        {
            let p = &view[i];
            assert(self.view()[i as int] == p@);
            let name = file_name(p.as_str());
            let lead = if self.multi_select && contains_index(&self.selected_items, i) {
                String::from_str("[x] ")
            } else {
                String::new()
            };
            let mut label = lead.concat(name.as_str());
            if contains_id(&self.favorites, p.as_str()) {
                label = label.concat(" ★");
            }
            proof {
                reveal_strlit(" ★");
                reveal_strlit("[x] ");
                assert(label@ =~= self.label_of(i as int));
            }
            out.push(label);
            i = i + 1;
        }
        out
    }

    /// The title over the list: the query being typed while searching, else
    /// the category's title.
    pub fn list_title(&self) -> (r: String)
        ensures
            r@ == (if self.in_search {
                "Search: "@ + self.search_query@ + " "@
            } else {
                title_of(self.current_tab)
            }),
    {
        if self.in_search {
            String::from_str("Search: ").concat(self.search_query.as_str()).concat(" ")
        } else {
            self.current_tab.title()
        }
    }
}

fn contains_index(v: &Vec<usize>, x: usize) -> (r: bool)
    ensures
        r == v@.contains(x),
{
    let mut i: usize = 0;
    while i < v.len()
        invariant
            i <= v@.len(),
            forall|j: int| 0 <= j < i ==> v@[j] != x,
        decreases v@.len() - i,
    {
        if v[i] == x {
            return true;
        }
        i = i + 1;
    }
    false
}

/// Handles a key in the normal state: decides what it does, does it, and
/// says what the caller is to do.
pub fn handle_input(c: &mut Controller, input: &Input) -> (out: Outcome)
    requires
        old(c).wf(),
    ensures
        final(c).wf(),
        old(c).action_effect(old(c).action_for(input.key), &*final(c), out),
{
    let a = c.classify(input.key);
    match a {
        Action::ToggleMulti => {
            c.toggle_multi();
            Outcome::Continue
        },
        Action::NextTab => {
            c.switch_tab(true);
            Outcome::Continue
        },
        Action::PrevTab => {
            c.switch_tab(false);
            Outcome::Continue
        },
        Action::StartSearch => {
            c.in_search = true;
            c.search_query = String::new();
            c.selected = 0;
            Outcome::Continue
        },
        Action::EndSearch => {
            c.in_search = false;
            Outcome::Continue
        },
        Action::SearchPush(ch) => {
            push_char(&mut c.search_query, ch);
            c.selected = 0;
            Outcome::Continue
        },
        Action::SearchPop => {
            pop_char(&mut c.search_query);
            c.selected = 0;
            Outcome::Continue
        },
        Action::MoveDown | Action::MoveUp | Action::PageDown | Action::PageUp => {
            c.move_selection(a);
            Outcome::Continue
        },
        Action::ToggleFavorite => {
            c.toggle_favorite();
            Outcome::FavoritesChanged
        },
        Action::StartRename => {
            let view = c.filter_items();
            let original_path = view[c.selected].clone();
            assert(ids(view@)[c.selected as int] == original_path@);
            c.rename_state = Some(
                RenameState { original_path, current_input: String::new(), error: None },
            );
            Outcome::Continue
        },
        Action::Choose => c.choose_current(),
        Action::Quit => Outcome::Quit,
        Action::Ignore => Outcome::Continue,
    }
}

/// Handles a key: in the rename dialog while it is open, else as in the
/// normal state.
pub fn handle_event(c: &mut Controller, input: &Input) -> (out: Outcome)
    requires
        old(c).wf(),
    ensures
        final(c).wf(),
        old(c).rename_state is Some ==> old(c).rename_effect(input.key, &*final(c), out),
        old(c).rename_state is None ==> old(c).action_effect(
            old(c).action_for(input.key),
            &*final(c),
            out,
        ),
{
    if c.rename_state.is_some() {
        c.handle_rename_key(input.key)
    } else {
        handle_input(c, input)
    }
}

/// Handles a pointer event.
pub fn handle_mouse(c: &mut Controller, input: &MouseInput)
    requires
        old(c).wf(),
    ensures
        final(c).wf(),
        old(c).mouse_effect(*input, &*final(c)),
{
    if !c.mouse_support {
        return;
    }
    let n = c.filter_items().len();
    match input.kind {
        MouseKind::Down => {
            let t = input.tabs_area;
            let nt = c.tabs.len();
            let in_tab_row = t.y <= input.row && (input.row - t.y) < t.height && t.x
                <= input.column;
            let tab_width: usize = (t.width as usize) / nt;
            if in_tab_row && tab_width > 0 && ((input.column - t.x) as usize) / tab_width < nt {
                let ti = ((input.column - t.x) as usize) / tab_width;
                proof {
                    assert(c.tabs@.contains(c.tabs@[ti as int]));
                }
                c.current_tab = c.tabs[ti];
                c.selected = 0;
                c.multi_select = false;
                c.selected_items = Vec::new();
                return;
            }
            let l = input.list_area;
            if l.x <= input.column && (input.column - l.x) < l.width && l.y <= input.row && (
            input.row - l.y) < l.height {
                let index = (input.row - l.y) as usize;
                if index < n {
                    c.selected = index;
                }
            }
        },
        MouseKind::ScrollUp => {
            if c.selected > 0 {
                c.selected = c.selected - 1;
            }
        },
        MouseKind::ScrollDown => {
            if n > 0 && c.selected < n - 1 {
                c.selected = c.selected + 1;
            }
        },
        MouseKind::Other => {},
    }
}

} // verus!
