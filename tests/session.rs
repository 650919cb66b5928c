use wallrs::cache::PreviewCache;
use wallrs::config::CustomKeybindings;
use wallrs::controller::{
    handle_event, handle_input, handle_mouse, Controller, Input, Key, MouseInput, MouseKind,
    Outcome, Rect, RenameFailure,
};
use wallrs::tab::{Tab, TabConfig};

fn strings(v: &[&str]) -> Vec<String> {
    v.iter().map(|s| s.to_string()).collect()
}

fn catalog() -> Vec<String> {
    strings(&["/w/a.jpg", "/w/b.png", "/w/c.jpeg"])
}

fn session(favorites: &[&str], history: &[&str]) -> Controller {
    Controller::new(
        catalog(),
        strings(history),
        strings(favorites),
        &TabConfig::default_tabs(),
        CustomKeybindings::default(),
        false,
        true,
    )
}

fn key(c: &mut Controller, k: Key) -> Outcome {
    handle_event(c, &Input { key: k })
}

fn invariant_holds(c: &Controller) -> bool {
    let n = c.filter_items().len();
    (n == 0 && c.selected == 0) || c.selected < n
}

#[test]
fn search_narrows_and_clearing_restores() {
    let mut c = session(&[], &[]);
    key(&mut c, Key::Char('/'));
    assert!(c.in_search);
    key(&mut c, Key::Char('b'));
    assert_eq!(c.filter_items(), strings(&["/w/b.png"]));
    key(&mut c, Key::Backspace);
    assert_eq!(c.filter_items(), catalog());
    key(&mut c, Key::Enter);
    assert!(!c.in_search);
}

#[test]
fn search_ignores_case() {
    let mut c = Controller::new(
        strings(&["/w/Beach.PNG", "/w/forest.jpg"]),
        vec![],
        vec![],
        &TabConfig::default_tabs(),
        CustomKeybindings::default(),
        false,
        false,
    );
    key(&mut c, Key::Char('/'));
    key(&mut c, Key::Char('B'));
    key(&mut c, Key::Char('E'));
    assert_eq!(c.filter_items(), strings(&["/w/Beach.PNG"]));
}

#[test]
fn search_matches_file_name_only() {
    let mut c = Controller::new(
        strings(&["/walls/x.png", "/w/y.png"]),
        vec![],
        vec![],
        &TabConfig::default_tabs(),
        CustomKeybindings::default(),
        false,
        false,
    );
    key(&mut c, Key::Char('/'));
    key(&mut c, Key::Char('a'));
    assert!(c.filter_items().is_empty());
    assert_eq!(c.selected, 0);
}

#[test]
fn favorite_toggled_twice() {
    let mut c = session(&[], &[]);
    key(&mut c, Key::Down);
    assert_eq!(c.selected, 1);
    assert!(matches!(key(&mut c, Key::Char('f')), Outcome::FavoritesChanged));
    assert_eq!(c.favorites, strings(&["/w/b.png"]));
    key(&mut c, Key::Char('f'));
    assert!(c.favorites.is_empty());
}

#[test]
fn favorite_goes_to_front() {
    let mut c = session(&["/w/c.jpeg"], &[]);
    key(&mut c, Key::Char('f'));
    assert_eq!(c.favorites, strings(&["/w/a.jpg", "/w/c.jpeg"]));
}

#[test]
fn favorite_toggle_not_at_front_changes_order() {
    let mut c = session(&["/w/a.jpg", "/w/b.png"], &[]);
    key(&mut c, Key::Down);
    key(&mut c, Key::Char('f'));
    key(&mut c, Key::Char('f'));
    assert_eq!(c.favorites, strings(&["/w/b.png", "/w/a.jpg"]));
}

#[test]
fn multi_select_toggles_every_visited_item() {
    let mut c = session(&[], &[]);
    key(&mut c, Key::Char('v'));
    assert!(c.multi_select);
    key(&mut c, Key::Down);
    key(&mut c, Key::Down);
    assert_eq!(c.selected_items, vec![0, 1, 2]);
    key(&mut c, Key::Char('f'));
    assert_eq!(c.favorites, strings(&["/w/c.jpeg", "/w/b.png", "/w/a.jpg"]));
    key(&mut c, Key::Char('v'));
    assert!(!c.multi_select);
    assert!(c.selected_items.is_empty());
}

#[test]
fn unfavoriting_in_favorites_keeps_selection_valid() {
    let mut c = session(&["/w/a.jpg", "/w/b.png"], &[]);
    key(&mut c, Key::Tab);
    key(&mut c, Key::Tab);
    assert_eq!(c.current_tab, Tab::Favorites);
    key(&mut c, Key::Down);
    assert_eq!(c.selected, 1);
    key(&mut c, Key::Char('f'));
    assert_eq!(c.favorites, strings(&["/w/a.jpg"]));
    assert_eq!(c.selected, 0);
    key(&mut c, Key::Char('f'));
    assert!(c.favorites.is_empty());
    assert_eq!(c.selected, 0);
    assert!(invariant_holds(&c));
}

#[test]
fn choosing_moves_to_front_of_history() {
    let mut c = session(&[], &["/w/b.png", "/w/a.jpg"]);
    match key(&mut c, Key::Enter) {
        Outcome::Chosen { item, history_changed } => {
            assert_eq!(item, "/w/a.jpg");
            assert!(history_changed);
        }
        _ => panic!("expected a choice"),
    }
    assert_eq!(c.history, strings(&["/w/a.jpg", "/w/b.png"]));
}

#[test]
fn choosing_from_history_leaves_it() {
    let mut c = session(&[], &["/w/b.png", "/w/a.jpg"]);
    key(&mut c, Key::Tab);
    key(&mut c, Key::Down);
    match key(&mut c, Key::Enter) {
        Outcome::Chosen { item, history_changed } => {
            assert_eq!(item, "/w/a.jpg");
            assert!(!history_changed);
        }
        _ => panic!("expected a choice"),
    }
    assert_eq!(c.history, strings(&["/w/b.png", "/w/a.jpg"]));
}

#[test]
fn navigation_wraps_both_ends() {
    let mut c = session(&[], &[]);
    key(&mut c, Key::Up);
    assert_eq!(c.selected, 2);
    key(&mut c, Key::Down);
    assert_eq!(c.selected, 0);
    key(&mut c, Key::PageDown);
    assert_eq!(c.selected, 0);
    key(&mut c, Key::PageUp);
    assert_eq!(c.selected, 2);
}

#[test]
fn paging_moves_by_five() {
    let paths: Vec<String> = (0..12).map(|i| format!("/w/{:02}.png", i)).collect();
    let mut c = Controller::new(
        paths,
        vec![],
        vec![],
        &TabConfig::default_tabs(),
        CustomKeybindings::default(),
        false,
        false,
    );
    key(&mut c, Key::PageDown);
    assert_eq!(c.selected, 5);
    key(&mut c, Key::PageDown);
    assert_eq!(c.selected, 10);
    key(&mut c, Key::PageDown);
    assert_eq!(c.selected, 0);
    key(&mut c, Key::PageUp);
    assert_eq!(c.selected, 11);
    key(&mut c, Key::PageUp);
    assert_eq!(c.selected, 6);
}

#[test]
fn vim_keys_move_and_switch() {
    let mut c = Controller::new(
        catalog(),
        vec![],
        vec![],
        &TabConfig::default_tabs(),
        CustomKeybindings::default(),
        true,
        false,
    );
    key(&mut c, Key::Char('j'));
    assert_eq!(c.selected, 1);
    key(&mut c, Key::Char('k'));
    assert_eq!(c.selected, 0);
    key(&mut c, Key::Char('l'));
    assert_eq!(c.current_tab, Tab::History);
    key(&mut c, Key::Char('h'));
    key(&mut c, Key::Char('h'));
    assert_eq!(c.current_tab, Tab::Favorites);
}

#[test]
fn tab_cycle_skips_disabled_and_returns() {
    let configs = vec![
        TabConfig { tab: Tab::Favorites, enabled: true },
        TabConfig { tab: Tab::History, enabled: false },
        TabConfig { tab: Tab::Wallpapers, enabled: true },
    ];
    let mut c = Controller::new(
        catalog(),
        vec![],
        vec![],
        &configs,
        CustomKeybindings::default(),
        false,
        false,
    );
    assert_eq!(c.tabs, vec![Tab::Favorites, Tab::Wallpapers]);
    assert_eq!(c.current_tab, Tab::Favorites);
    key(&mut c, Key::Tab);
    assert_eq!(c.current_tab, Tab::Wallpapers);
    key(&mut c, Key::Tab);
    assert_eq!(c.current_tab, Tab::Favorites);
}

#[test]
fn switching_tab_clears_multi_select() {
    let mut c = session(&[], &[]);
    key(&mut c, Key::Char('v'));
    key(&mut c, Key::Down);
    key(&mut c, Key::Tab);
    assert!(!c.multi_select);
    assert!(c.selected_items.is_empty());
    assert_eq!(c.selected, 0);
}

#[test]
fn quit_key_ends_session() {
    let mut c = session(&[], &[]);
    assert!(matches!(key(&mut c, Key::Char('q')), Outcome::Quit));
    key(&mut c, Key::Char('/'));
    assert!(matches!(key(&mut c, Key::Char('q')), Outcome::Continue));
    assert_eq!(c.search_query, "q");
}

#[test]
fn every_step_keeps_selection_valid() {
    let mut c = session(&["/w/a.jpg"], &["/w/c.jpeg"]);
    let keys = [
        Key::Up,
        Key::Char('f'),
        Key::Tab,
        Key::Down,
        Key::Tab,
        Key::Char('f'),
        Key::PageUp,
        Key::Tab,
        Key::Char('/'),
        Key::Char('z'),
        Key::Down,
        Key::Backspace,
        Key::Esc,
        Key::PageDown,
        Key::Char('v'),
        Key::Up,
        Key::Char('f'),
    ];
    for k in keys {
        handle_input(&mut c, &Input { key: k });
        assert!(invariant_holds(&c));
    }
}

#[test]
fn rename_appends_extension_and_propagates() {
    let mut c = session(&["/w/a.jpg"], &["/w/a.jpg"]);
    let mut cache: PreviewCache<u32> = PreviewCache::new(4);
    cache.insert("/w/a.jpg".to_string(), 7);
    assert_eq!(c.preview_target(), Some("/w/a.jpg".to_string()));
    key(&mut c, Key::Char('r'));
    assert!(c.rename_state.is_some());
    for ch in "sunset".chars() {
        key(&mut c, Key::Char(ch));
    }
    let (from, to) = match key(&mut c, Key::Enter) {
        Outcome::RenameAttempt { from, to } => (from, to),
        _ => panic!("expected a rename"),
    };
    assert_eq!(from, "/w/a.jpg");
    assert_eq!(to, "/w/sunset.jpg");
    let effects = c.rename_succeeded(&mut cache, &from, to);
    assert!(effects.save_favorites);
    assert_eq!(effects.decode, None);
    assert!(c.rename_state.is_none());
    assert_eq!(c.wallpapers, strings(&["/w/sunset.jpg", "/w/b.png", "/w/c.jpeg"]));
    assert_eq!(c.history, strings(&["/w/sunset.jpg"]));
    assert_eq!(c.favorites, strings(&["/w/sunset.jpg"]));
    assert_eq!(c.last_preview, Some("/w/sunset.jpg".to_string()));
    assert!(!cache.contains("/w/a.jpg"));
    assert_eq!(cache.peek("/w/sunset.jpg"), Some(&7));
}

#[test]
fn rename_collision_keeps_dialog() {
    let mut c = session(&[], &[]);
    key(&mut c, Key::Char('r'));
    for ch in "b".chars() {
        key(&mut c, Key::Char(ch));
    }
    match key(&mut c, Key::Enter) {
        Outcome::RenameAttempt { to, .. } => assert_eq!(to, "/w/b.jpg"),
        _ => panic!("expected a rename"),
    }
    c.rename_failed(RenameFailure::AlreadyExists);
    let rs = c.rename_state.as_ref().unwrap();
    assert_eq!(rs.error.as_deref(), Some("File with that name already exists"));
    assert_eq!(rs.current_input, "b");
    key(&mut c, Key::Char('x'));
    let rs = c.rename_state.as_ref().unwrap();
    assert_eq!(rs.error, None);
    assert_eq!(rs.current_input, "bx");
}

#[test]
fn rename_of_blank_name_is_refused() {
    let mut c = session(&[], &[]);
    key(&mut c, Key::Char('r'));
    key(&mut c, Key::Char(' '));
    key(&mut c, Key::Char(' '));
    assert!(matches!(key(&mut c, Key::Enter), Outcome::Continue));
    let rs = c.rename_state.as_ref().unwrap();
    assert_eq!(rs.error.as_deref(), Some("Name cannot be empty"));
    assert_eq!(rs.current_input, "  ");
    key(&mut c, Key::Esc);
    assert!(c.rename_state.is_none());
}

#[test]
fn rename_keeps_given_extension_and_trims() {
    let mut c = session(&[], &[]);
    key(&mut c, Key::Char('r'));
    for ch in " dusk.png ".chars() {
        key(&mut c, Key::Char(ch));
    }
    match key(&mut c, Key::Enter) {
        Outcome::RenameAttempt { to, .. } => assert_eq!(to, "/w/dusk.png"),
        _ => panic!("expected a rename"),
    }
}

#[test]
fn rename_not_offered_outside_wallpapers() {
    let mut c = session(&[], &["/w/a.jpg"]);
    key(&mut c, Key::Tab);
    key(&mut c, Key::Char('r'));
    assert!(c.rename_state.is_none());
}

#[test]
fn mouse_click_scroll_and_tabs() {
    let mut c = session(&[], &[]);
    let list_area = Rect { x: 0, y: 3, width: 40, height: 20 };
    let tabs_area = Rect { x: 0, y: 0, width: 81, height: 3 };
    let ev = |kind, column, row| MouseInput { kind, column, row, list_area, tabs_area };
    handle_mouse(&mut c, &ev(MouseKind::Down, 5, 5));
    assert_eq!(c.selected, 2);
    handle_mouse(&mut c, &ev(MouseKind::Down, 5, 10));
    assert_eq!(c.selected, 2);
    handle_mouse(&mut c, &ev(MouseKind::ScrollDown, 0, 0));
    assert_eq!(c.selected, 2);
    handle_mouse(&mut c, &ev(MouseKind::ScrollUp, 0, 0));
    handle_mouse(&mut c, &ev(MouseKind::ScrollUp, 0, 0));
    handle_mouse(&mut c, &ev(MouseKind::ScrollUp, 0, 0));
    assert_eq!(c.selected, 0);
    handle_mouse(&mut c, &ev(MouseKind::Down, 60, 1));
    assert_eq!(c.current_tab, Tab::Favorites);
    assert_eq!(c.selected, 0);
}

#[test]
fn mouse_ignored_when_disabled() {
    let mut c = Controller::new(
        catalog(),
        vec![],
        vec![],
        &TabConfig::default_tabs(),
        CustomKeybindings::default(),
        false,
        false,
    );
    let r = Rect { x: 0, y: 3, width: 40, height: 20 };
    let t = Rect { x: 0, y: 0, width: 80, height: 3 };
    handle_mouse(&mut c, &MouseInput { kind: MouseKind::Down, column: 1, row: 4, list_area: r, tabs_area: t });
    assert_eq!(c.selected, 0);
}

#[test]
fn preview_requested_once_per_selection() {
    let mut c = session(&[], &[]);
    assert_eq!(c.preview_target(), Some("/w/a.jpg".to_string()));
    assert_eq!(c.preview_target(), None);
    key(&mut c, Key::Down);
    assert!(c.is_current("/w/b.png"));
    assert!(!c.is_current("/w/a.jpg"));
    assert_eq!(c.preview_target(), Some("/w/b.png".to_string()));
    assert_eq!(c.preload_targets(2), strings(&["/w/a.jpg", "/w/b.png"]));
    assert_eq!(c.preload_targets(50), catalog());
}

#[test]
fn new_session_drops_repeats() {
    let c = Controller::new(
        strings(&["/w/a.jpg", "/w/a.jpg"]),
        strings(&["/w/x.png", "/w/y.png", "/w/x.png"]),
        vec![],
        &TabConfig::default_tabs(),
        CustomKeybindings::default(),
        false,
        false,
    );
    assert_eq!(c.wallpapers, strings(&["/w/a.jpg"]));
    assert_eq!(c.history, strings(&["/w/x.png", "/w/y.png"]));
}

#[test]
fn labels_mark_favorites_and_selection() {
    let mut c = session(&["/w/b.png"], &[]);
    assert_eq!(c.item_labels(), strings(&["a.jpg", "b.png ★", "c.jpeg"]));
    key(&mut c, Key::Char('v'));
    assert_eq!(c.item_labels(), strings(&["[x] a.jpg", "b.png ★", "c.jpeg"]));
    assert_eq!(c.list_title(), "Wallpapers");
    key(&mut c, Key::Tab);
    assert_eq!(c.list_title(), "History");
    key(&mut c, Key::Tab);
    key(&mut c, Key::Tab);
    key(&mut c, Key::Char('/'));
    key(&mut c, Key::Char('c'));
    assert_eq!(c.list_title(), "Search: c ");
    assert_eq!(c.item_labels(), strings(&["c.jpeg"]));
}
