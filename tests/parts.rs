use wallrs::cache::PreviewCache;
use wallrs::catalog::path_matches;
use wallrs::scan::{is_allowed_extension, is_wallpaper_path, sort_wallpapers};
use wallrs::tab::{active_tabs, next_tab, prev_tab, Tab, TabConfig};
use wallrs::text::{file_name, name_contains, rename_target};

fn strings(v: &[&str]) -> Vec<String> {
    v.iter().map(|s| s.to_string()).collect()
}

#[test]
fn catalog_sorted_by_file_name() {
    let found = strings(&["/w/b.png", "/w/a.jpg", "/w/c.jpeg"]);
    assert_eq!(sort_wallpapers(found), strings(&["/w/a.jpg", "/w/b.png", "/w/c.jpeg"]));
}

#[test]
fn catalog_sort_ignores_case_and_directories() {
    let found = strings(&["/z/B.png", "/a/c.png", "/m/a.PNG"]);
    assert_eq!(sort_wallpapers(found), strings(&["/m/a.PNG", "/z/B.png", "/a/c.png"]));
}

#[test]
fn catalog_sort_keeps_order_of_equal_names() {
    let found = strings(&["/b/x.png", "/a/X.png", "/c/a.png"]);
    assert_eq!(sort_wallpapers(found), strings(&["/c/a.png", "/b/x.png", "/a/X.png"]));
}

#[test]
fn wallpaper_extensions() {
    assert!(is_wallpaper_path("/w/a.JPG", false));
    assert!(is_wallpaper_path("/w/a.jpeg", false));
    assert!(is_wallpaper_path("/w/a.png", false));
    assert!(!is_wallpaper_path("/w/a.mp4", false));
    assert!(is_wallpaper_path("/w/a.MP4", true));
    assert!(!is_wallpaper_path("/w/notes.txt", true));
    assert!(!is_wallpaper_path("/w/.png", false));
    assert!(!is_wallpaper_path("/w.png/readme", false));
    assert!(is_allowed_extension("png", false));
    assert!(!is_allowed_extension("PNG", false));
}

#[test]
fn cache_evicts_least_recently_used() {
    let mut cache: PreviewCache<u8> = PreviewCache::new(2);
    cache.insert("a.jpg".to_string(), 1);
    cache.insert("b.png".to_string(), 2);
    cache.insert("c.jpeg".to_string(), 3);
    assert_eq!(cache.len(), 2);
    assert!(!cache.contains("a.jpg"));
    assert!(cache.contains("b.png"));
    assert!(cache.contains("c.jpeg"));
}

#[test]
fn cache_use_protects_entry() {
    let mut cache: PreviewCache<u8> = PreviewCache::new(2);
    cache.insert("a.jpg".to_string(), 1);
    cache.insert("b.png".to_string(), 2);
    assert!(cache.touch("a.jpg"));
    cache.insert("c.jpeg".to_string(), 3);
    assert!(cache.contains("a.jpg"));
    assert!(!cache.contains("b.png"));
    assert!(!cache.touch("b.png"));
}

#[test]
fn cache_reinsert_replaces_value() {
    let mut cache: PreviewCache<u8> = PreviewCache::new(2);
    cache.insert("a.jpg".to_string(), 1);
    cache.insert("a.jpg".to_string(), 9);
    assert_eq!(cache.len(), 1);
    assert_eq!(cache.peek("a.jpg"), Some(&9));
    assert_eq!(cache.peek("b.png"), None);
}

#[test]
fn cache_of_capacity_zero_stays_empty() {
    let mut cache: PreviewCache<u8> = PreviewCache::new(0);
    cache.insert("a.jpg".to_string(), 1);
    assert_eq!(cache.len(), 0);
    assert_eq!(cache.capacity(), 0);
}

#[test]
fn cache_rename_drops_stale_target() {
    let mut cache: PreviewCache<u8> = PreviewCache::new(3);
    cache.insert("a.jpg".to_string(), 1);
    cache.insert("s.jpg".to_string(), 2);
    cache.rename("a.jpg", "s.jpg".to_string());
    assert_eq!(cache.len(), 1);
    assert_eq!(cache.peek("s.jpg"), Some(&1));
}

#[test]
fn tab_names() {
    assert_eq!(Tab::from_name("  Favourites "), Some(Tab::Favorites));
    assert_eq!(Tab::from_name("RECENT"), Some(Tab::History));
    assert_eq!(Tab::from_name("wall"), Some(Tab::Wallpapers));
    assert_eq!(Tab::from_name("photos"), None);
    assert_eq!(Tab::from_normalized_name("History"), None);
    assert_eq!("favs".parse::<Tab>(), Ok(Tab::Favorites));
    assert_eq!(Tab::Wallpapers.title(), "Wallpapers");
    assert_eq!(Tab::History.title(), "History");
    assert_eq!(Tab::Favorites.title(), "Favorites");
}

#[test]
fn default_and_active_tabs() {
    let d = TabConfig::default_tabs();
    assert_eq!(active_tabs(&d), vec![Tab::Wallpapers, Tab::History, Tab::Favorites]);
    let none = vec![TabConfig { tab: Tab::History, enabled: false }];
    assert_eq!(active_tabs(&none), vec![Tab::Wallpapers, Tab::History, Tab::Favorites]);
    let dup = vec![
        TabConfig { tab: Tab::History, enabled: true },
        TabConfig { tab: Tab::History, enabled: true },
        TabConfig { tab: Tab::Favorites, enabled: true },
    ];
    assert_eq!(active_tabs(&dup), vec![Tab::History, Tab::Favorites]);
}

#[test]
fn cycling_returns_after_n_steps() {
    let tabs = vec![Tab::History, Tab::Wallpapers, Tab::Favorites];
    let mut t = Tab::Wallpapers;
    for _ in 0..3 {
        t = next_tab(&tabs, t);
        assert!(tabs.contains(&t));
    }
    assert_eq!(t, Tab::Wallpapers);
    assert_eq!(prev_tab(&tabs, Tab::History), Tab::Favorites);
}

#[test]
fn text_helpers() {
    assert_eq!(file_name("/a/b/c.png"), "c.png");
    assert_eq!(file_name("c.png"), "c.png");
    assert!(name_contains("sunset", "uns"));
    assert!(!name_contains("sunset", "sunsets"));
    assert!(name_contains("x", ""));
    assert!(path_matches("/Dir/Beach.PNG", "beach"));
    assert!(!path_matches("/beach/x.png", "beach"));
}

#[test]
fn rename_targets() {
    assert_eq!(rename_target("/w/a.jpg", "sunset"), "/w/sunset.jpg");
    assert_eq!(rename_target("/w/a.jpg", "sunset.png"), "/w/sunset.png");
    assert_eq!(rename_target("/w/noext", "x"), "/w/x");
    assert_eq!(rename_target("/w/.hidden", "x"), "/w/x");
    assert_eq!(rename_target("a.tar.gz", "b"), "b.gz");
}
