use wallrs::apply::{apply_commands, expand_args, replace_all};
use wallrs::config::{
    first_char, merge_command, parse_tabs, pick_list_position, pick_transition, CommandConfig,
    CommandsFile, Config, ConfigFile, CustomKeybindings, Session, TabEntry,
};
use wallrs::listfile::{parse_list, render_list};
use wallrs::tab::{Tab, TabConfig};

fn strings(v: &[&str]) -> Vec<String> {
    v.iter().map(|s| s.to_string()).collect()
}

fn some_strings(v: &[&str]) -> Vec<Option<String>> {
    v.iter().map(|s| Some(s.to_string())).collect()
}

fn empty_file() -> ConfigFile {
    ConfigFile {
        wallpaper_dir: None,
        vim_motion: None,
        enable_mouse_support: None,
        list_position: None,
        transition_type: None,
        commands: None,
        tabs: None,
        image_cache_size: None,
        search: None,
        favorite: None,
        multi_select: None,
        rename: None,
        quit: None,
    }
}

#[test]
fn defaults_without_files() {
    let c = Config::from_file(&empty_file(), Session::X11, "/home/u/Pictures/Wallpapers".to_string());
    assert_eq!(c.wallpaper_dir, "/home/u/Pictures/Wallpapers");
    assert_eq!(c.list_position, "left");
    assert_eq!(c.transition_type, "fade");
    assert_eq!(c.image_cache_size, 50);
    assert!(!c.vim_motion && !c.enable_mouse_support);
    assert_eq!(c.keybindings, CustomKeybindings::default());
    assert_eq!(c.tabs, TabConfig::default_tabs());
    assert_eq!(c.commands.feh, strings(&["--bg-scale", "{path}"]));
    assert_eq!(c.commands.wal, strings(&["-i", "{path}", "-n", "--backend", "wal"]));
}

#[test]
fn file_values_override_defaults() {
    let mut f = empty_file();
    f.wallpaper_dir = Some("/w".to_string());
    f.vim_motion = Some(true);
    f.list_position = Some("Right".to_string());
    f.transition_type = Some("sideways".to_string());
    f.image_cache_size = Some(3);
    f.favorite = Some("*x".to_string());
    f.quit = Some(String::new());
    f.tabs = Some(vec![
        TabEntry::Name("favs".to_string()),
        TabEntry::Table { name: Some("Recent".to_string()), enabled: Some(false) },
        TabEntry::Other,
    ]);
    f.commands = Some(CommandsFile {
        wal: None,
        swww: Some(some_strings(&["--transition-step", "90"])),
        feh: Some(vec![]),
    });
    let c = Config::from_file(&f, Session::Wayland, "/d".to_string());
    assert_eq!(c.wallpaper_dir, "/w");
    assert!(c.vim_motion);
    assert_eq!(c.session, Session::Wayland);
    assert_eq!(c.list_position, "right");
    assert_eq!(c.transition_type, "fade");
    assert_eq!(c.image_cache_size, 3);
    assert_eq!(c.keybindings.favorite, '*');
    assert_eq!(c.keybindings.quit, 'q');
    assert_eq!(
        c.tabs,
        vec![
            TabConfig { tab: Tab::Favorites, enabled: true },
            TabConfig { tab: Tab::History, enabled: false },
        ]
    );
    assert_eq!(c.commands.swww, strings(&["img", "--transition-step", "90", "{path}"]));
    assert_eq!(c.commands.feh, strings(&["--bg-scale", "{path}"]));
    assert_eq!(c.commands.wal, strings(&["-i", "{path}", "-n", "--backend", "wal"]));
}

#[test]
fn merge_keeps_user_lead_and_path() {
    let d = CommandConfig::defaults().swww;
    assert_eq!(
        merge_command(&d, &some_strings(&["img", "{path}", "--x"])),
        strings(&["img", "{path}", "--x"])
    );
    assert_eq!(
        merge_command(&d, &vec![None, Some("a".to_string())]),
        strings(&["img", "a", "{path}"])
    );
    assert_eq!(merge_command(&d, &vec![]), d);
}

#[test]
fn choices_are_checked() {
    assert_eq!(pick_list_position("TOP"), Some("top".to_string()));
    assert_eq!(pick_list_position("middle"), None);
    assert_eq!(pick_transition("Wipe"), Some("wipe".to_string()));
    assert_eq!(pick_transition("slide"), None);
    assert_eq!(first_char("xyz"), Some('x'));
    assert_eq!(first_char(""), None);
}

#[test]
fn tabs_without_known_names_keep_defaults() {
    assert!(parse_tabs(&vec![TabEntry::Name("photos".to_string()), TabEntry::Other]).is_none());
    assert!(parse_tabs(&vec![TabEntry::Table { name: None, enabled: Some(true) }]).is_none());
}

#[test]
fn list_file_round() {
    let text = "/w/a.jpg\r\n\n/w/b.png\n";
    assert_eq!(parse_list(text), strings(&["/w/a.jpg", "/w/b.png"]));
    assert!(parse_list("").is_empty());
    let list = strings(&["/w/a.jpg", "/w/b.png"]);
    assert_eq!(render_list(&list), "/w/a.jpg\n/w/b.png");
    assert_eq!(parse_list(&render_list(&list)), list);
    assert_eq!(render_list(&vec![]), "");
}

#[test]
fn placeholders_are_filled() {
    let args = strings(&["img", "{path}", "--transition-type", "{transition}"]);
    assert_eq!(
        expand_args(&args, "/w/a.jpg", ""),
        strings(&["img", "/w/a.jpg", "--transition-type", "fade"])
    );
    assert_eq!(expand_args(&args, "/w/a.jpg", "wipe")[3], "wipe");
    assert_eq!(replace_all("aXaXa", "X", "--"), "a--a--a");
    assert_eq!(replace_all("aaa", "aa", "b"), "ba");
    assert_eq!(replace_all("{path}{path}", "{path}", "p"), "pp");
}

#[test]
fn programs_for_each_session() {
    let mut c = Config::from_file(&empty_file(), Session::X11, "/d".to_string());
    let cmds = apply_commands(&c, "/w/a.jpg");
    assert_eq!(cmds.len(), 1);
    assert_eq!(cmds[0].program, "feh");
    assert_eq!(cmds[0].args, strings(&["--bg-scale", "/w/a.jpg"]));
    assert!(!cmds[0].quiet);
    c.session = Session::Wayland;
    c.pywal = true;
    c.hellwal = true;
    c.transition_type = "grow".to_string();
    let cmds = apply_commands(&c, "/w/a.jpg");
    assert_eq!(cmds.len(), 3);
    assert_eq!(cmds[0].program, "wal");
    assert_eq!(cmds[0].args, strings(&["-i", "/w/a.jpg", "-n", "--backend", "wal"]));
    assert!(cmds[0].quiet);
    assert_eq!(cmds[1].program, "hellwal");
    assert_eq!(cmds[2].program, "swww");
    assert_eq!(cmds[2].args[5], "grow");
}
