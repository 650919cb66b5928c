//! Settings that the browser is given: key bindings, categories and the
//! commands that apply a choice.
use vstd::prelude::*;
use crate::seqs::{ids, lemma_ids_push};
use crate::tab::{Tab, TabConfig, tab_named};
use crate::text::{contains_seq, lower_of, trim_of, lowercase, str_eq, name_contains};

verus! {

/// The characters bound to the browser's actions.
#[derive(Clone, Copy, Debug, PartialEq, Eq, Structural)]
pub struct CustomKeybindings {
    pub search: char,
    pub favorite: char,
    pub multi_select: char,
    pub rename: char,
    pub quit: char,
}

impl Default for CustomKeybindings {
    fn default() -> (r: Self)
        ensures
            r == (CustomKeybindings {
                search: '/',
                favorite: 'f',
                multi_select: 'v',
                rename: 'r',
                quit: 'q',
            }),
    {
        CustomKeybindings { search: '/', favorite: 'f', multi_select: 'v', rename: 'r', quit: 'q' }
    }
}

/// The kind of graphical session, which decides the program that sets the
/// wallpaper.
#[derive(Clone, Copy, Debug, PartialEq, Eq, Structural)]
pub enum Session {
    X11,
    Wayland,
}

/// The argument lists of the external programs.
#[derive(Clone, Debug)]
pub struct CommandConfig {
    pub wal: Vec<String>,
    pub swww: Vec<String>,
    pub feh: Vec<String>,
}

/// Everything the browser is configured with.
#[derive(Clone, Debug)]
pub struct Config {
    pub wallpaper_dir: String,
    pub session: Session,
    pub vim_motion: bool,
    pub enable_mouse_support: bool,
    pub keybindings: CustomKeybindings,
    pub tabs: Vec<TabConfig>,
    pub list_position: String,
    pub transition_type: String,
    pub commands: CommandConfig,
    pub image_cache_size: usize,
    pub pywal: bool,
    pub hellwal: bool,
}

/// The argument lists used when the configuration gives none.
pub open spec fn default_wal() -> Seq<Seq<char>> {
    seq!["-i"@, "{path}"@, "-n"@, "--backend"@, "wal"@]
}

pub open spec fn default_swww() -> Seq<Seq<char>> {
    seq![
        "img"@,
        "{path}"@,
        "--transition-fps"@,
        "60"@,
        "--transition-type"@,
        "{transition}"@,
    ]
}

pub open spec fn default_feh() -> Seq<Seq<char>> {
    seq!["--bg-scale"@, "{path}"@]
}

fn strs(v: &[&str]) -> (r: Vec<String>)
    ensures
        r@.len() == v@.len(),
        forall|i: int| 0 <= i < v@.len() ==> #[trigger] r@[i]@ == v@[i]@,
{
    let mut out: Vec<String> = Vec::new();
    let mut i: usize = 0;
    while i < v.len()
        invariant
            i <= v@.len(),
            out@.len() == i,
            forall|j: int| 0 <= j < i ==> #[trigger] out@[j]@ == v@[j]@,
        decreases v@.len() - i,
    {
        out.push(String::from_str(v[i]));
        i = i + 1;
    }
    out
}

impl CommandConfig {
    /// The default argument lists of the three programs.
    pub fn defaults() -> (r: CommandConfig)
        ensures
            ids(r.wal@) == default_wal(),
            ids(r.swww@) == default_swww(),
            ids(r.feh@) == default_feh(),
    {
        let wal = strs(&["-i", "{path}", "-n", "--backend", "wal"]);
        let swww = strs(
            &["img", "{path}", "--transition-fps", "60", "--transition-type", "{transition}"],
        );
        let feh = strs(&["--bg-scale", "{path}"]);
        assert(ids(wal@) =~= default_wal());
        assert(ids(swww@) =~= default_swww());
        assert(ids(feh@) =~= default_feh());
        CommandConfig { wal, swww, feh }
    }
}

/// The places the list can take beside the preview.
pub open spec fn is_list_position(v: Seq<char>) -> bool {
    v == "left"@ || v == "right"@ || v == "top"@ || v == "bottom"@
}

/// The transitions the wallpaper setter knows.
pub open spec fn is_transition(v: Seq<char>) -> bool {
    v == "fade"@ || v == "wipe"@ || v == "grow"@ || v == "outer"@ || v == "any"@ || v == "none"@
        || v == "random"@
}

/// Whether a lowercase value names a list position.
pub fn list_position_known(lower: &str) -> (r: bool)
    ensures
        r == is_list_position(lower@),
{
    str_eq(lower, "left") || str_eq(lower, "right") || str_eq(lower, "top") || str_eq(
        lower,
        "bottom",
    )
}

/// Whether a lowercase value names a transition.
pub fn transition_known(lower: &str) -> (r: bool)
    ensures
        r == is_transition(lower@),
{
    str_eq(lower, "fade") || str_eq(lower, "wipe") || str_eq(lower, "grow") || str_eq(
        lower,
        "outer",
    ) || str_eq(lower, "any") || str_eq(lower, "none") || str_eq(lower, "random")
}

/// A configured list position, lowercased, when it is one the layout knows.
pub fn pick_list_position(v: &str) -> (r: Option<String>)
    ensures
        match r {
            Some(p) => is_list_position(lower_of(v@)) && p@ == lower_of(v@),
            None => !is_list_position(lower_of(v@)),
        },
{
    let lower = lowercase(v);
    if list_position_known(lower.as_str()) {
        Some(lower)
    } else {
        None
    }
}

/// A configured transition, lowercased, when it is one the setter knows.
pub fn pick_transition(v: &str) -> (r: Option<String>)
    ensures
        match r {
            Some(p) => is_transition(lower_of(v@)) && p@ == lower_of(v@),
            None => !is_transition(lower_of(v@)),
        },
{
    let lower = lowercase(v);
    if transition_known(lower.as_str()) {
        Some(lower)
    } else {
        None
    }
}

/// The text entries of a configured argument array, in order.
pub open spec fn text_entries(custom: Seq<Option<String>>) -> Seq<Seq<char>>
    decreases custom.len(),
{
    if custom.len() == 0 {
        Seq::empty()
    } else {
        let prev = text_entries(custom.drop_last());
        match custom.last() {
            Some(s) => prev.push(s@),
            None => prev,
        }
    }
}

/// Some argument holds the `{path}` placeholder.
pub open spec fn has_path_arg(args: Seq<Seq<char>>) -> bool {
    exists|i: int| 0 <= i < args.len() && contains_seq(#[trigger] args[i], "{path}"@)
}

/// The user's arguments, after the program's default first argument unless
/// they start with `img` or `-i`.
pub open spec fn led_args(default: Seq<Seq<char>>, args: Seq<Seq<char>>) -> Seq<Seq<char>> {
    if args.len() > 0 && (args[0] == "img"@ || args[0] == "-i"@) {
        args
    } else {
        seq![default[0]] + args
    }
}

/// A configured argument array merged with the defaults: an empty one gives
/// the defaults; else its text entries, led as `led_args` says, with
/// `{path}` added at the end when no argument holds it.
pub open spec fn merged_args(default: Seq<Seq<char>>, custom: Seq<Option<String>>) -> Seq<
    Seq<char>,
> {
    if custom.len() == 0 {
        default
    } else {
        let lead = led_args(default, text_entries(custom));
        if has_path_arg(lead) {
            lead
        } else {
            lead.push("{path}"@)
        }
    }
}

/// Merges a configured argument array with the program's defaults.
pub fn merge_command(default: &Vec<String>, custom: &Vec<Option<String>>) -> (r: Vec<String>)
    requires
        default@.len() > 0,
    ensures
        ids(r@) == merged_args(ids(default@), custom@),
{
    if custom.len() == 0 {
        let mut out: Vec<String> = Vec::new();
        let mut i: usize = 0;
        while i < default.len()
            invariant
                i <= default@.len(),
                ids(out@) == ids(default@).take(i as int),
            decreases default@.len() - i,
        {
            let s = default[i].clone();
            proof {
                lemma_ids_push(out@, s);
                assert(ids(default@).take(i + 1) =~= ids(default@).take(i as int).push(s@));
            }
            out.push(s);
            i = i + 1;
        }
        assert(ids(default@).take(i as int) =~= ids(default@));
        return out;
    }
    let mut args: Vec<String> = Vec::new();
    let mut i: usize = 0;
    while i < custom.len()
        invariant
            i <= custom@.len(),
            ids(args@) == text_entries(custom@.take(i as int)),
        decreases custom@.len() - i,
    {
        proof {
            assert(custom@.take(i + 1).drop_last() =~= custom@.take(i as int));
        }
        match &custom[i] {
            Some(s) => {
                let c = s.clone();
                proof {
                    lemma_ids_push(args@, c);
                }
                args.push(c);
            },
            None => {},
        }
        i = i + 1;
    }
    assert(custom@.take(i as int) =~= custom@);
    let ghost entries = ids(args@);
    let keep_lead = args.len() > 0 && (str_eq(args[0].as_str(), "img") || str_eq(
        args[0].as_str(),
        "-i",
    ));
    let mut merged: Vec<String> = Vec::new();
    if !keep_lead {
        merged.push(default[0].clone());
    }
    let mut j: usize = 0;
    while j < args.len()
        invariant
            j <= args@.len(),
            default@.len() > 0,
            ids(args@) == entries,
            ids(merged@) == (if keep_lead {
                Seq::<Seq<char>>::empty()
            } else {
                seq![ids(default@)[0]]
            }) + entries.take(j as int),
        decreases args@.len() - j,
    {
        let s = args[j].clone();
        proof {
            lemma_ids_push(merged@, s);
            assert(entries.take(j + 1) =~= entries.take(j as int).push(s@));
        }
        merged.push(s);
        j = j + 1;
    }
    assert(entries.take(j as int) =~= entries);
    assert(keep_lead == (entries.len() > 0 && (entries[0] == "img"@ || entries[0] == "-i"@)));
    assert(Seq::<Seq<char>>::empty() + entries =~= entries);
    let ghost lead = ids(merged@);
    assert(lead == (if entries.len() > 0 && (entries[0] == "img"@ || entries[0] == "-i"@) {
        entries
    } else {
        seq![ids(default@)[0]] + entries
    }));
    let mut k: usize = 0;
    let mut found = false;
    let ghost mut wi: int = 0;
    while k < merged.len()
        invariant
            k <= merged@.len(),
            ids(merged@) == lead,
            found ==> 0 <= wi < lead.len() && contains_seq(lead[wi], "{path}"@),
            !found ==> forall|i: int| 0 <= i < k ==> !contains_seq(#[trigger] lead[i], "{path}"@),
        decreases merged@.len() - k,
    {
        if name_contains(merged[k].as_str(), "{path}") {
            assert(lead[k as int] == merged@[k as int]@);
            proof {
                wi = k as int;
            }
            found = true;
        }
        k = k + 1;
    }
    let ghost m = merged_args(ids(default@), custom@);
    assert(text_entries(custom@) == entries);
    if !found {
        let p = String::from_str("{path}");
        proof {
            lemma_ids_push(merged@, p);
            assert(!has_path_arg(lead));
            assert(m == lead.push("{path}"@));
        }
        merged.push(p);
    } else {
        assert(contains_seq(lead[wi], "{path}"@));
        assert(m == lead);
    }
    merged
}

/// One entry of the configured list of categories.
#[derive(Clone, Debug)]
pub enum TabEntry {
    /// A bare name: the category is shown.
    Name(String),
    /// A table with a name and an optional `enabled` flag (shown by default).
    Table { name: Option<String>, enabled: Option<bool> },
    /// Anything else, which is skipped.
    Other,
}

/// The category settings of the entries whose names are known, in order.
pub open spec fn tabs_of(entries: Seq<TabEntry>, names: Seq<Option<Tab>>) -> Seq<TabConfig>
    decreases entries.len(),
{
    if entries.len() == 0 || names.len() != entries.len() {
        Seq::empty()
    } else {
        let prev = tabs_of(entries.drop_last(), names.drop_last());
        match (entries.last(), names.last()) {
            (TabEntry::Name(_), Some(t)) => prev.push(TabConfig { tab: t, enabled: true }),
            (TabEntry::Table { name: Some(_), enabled }, Some(t)) => prev.push(
                TabConfig {
                    tab: t,
                    enabled: match enabled {
                        Some(b) => b,
                        None => true,
                    },
                },
            ),
            _ => prev,
        }
    }
}

/// What `Tab::from_name` makes of the name each entry carries.
pub open spec fn entry_names(entries: Seq<TabEntry>) -> Seq<Option<Tab>> {
    entries.map_values(
        |e: TabEntry|
            match e {
                TabEntry::Name(s) => tab_named(lower_of(trim_of(s@))),
                TabEntry::Table { name: Some(s), .. } => tab_named(lower_of(trim_of(s@))),
                _ => None,
            },
    )
}

/// The configured categories, or `None` when no entry names one, in which
/// case the defaults stay.
pub fn parse_tabs(entries: &Vec<TabEntry>) -> (r: Option<Vec<TabConfig>>)
    ensures
        match r {
            Some(v) => v@ == tabs_of(entries@, entry_names(entries@)) && v@.len() > 0,
            None => tabs_of(entries@, entry_names(entries@)).len() == 0,
        },
{
    let mut out: Vec<TabConfig> = Vec::new();
    let ghost names = entry_names(entries@);
    let mut i: usize = 0;
    while i < entries.len()
        invariant
            i <= entries@.len(),
            names == entry_names(entries@),
            names.len() == entries@.len(),
            out@ == tabs_of(entries@.take(i as int), names.take(i as int)),
        decreases entries@.len() - i,
    {
        proof {
            assert(entries@.take(i + 1).drop_last() =~= entries@.take(i as int));
            assert(names.take(i + 1).drop_last() =~= names.take(i as int));
        }
        match &entries[i] {
            TabEntry::Name(s) => {
                match Tab::from_name(s.as_str()) {
                    Some(t) => out.push(TabConfig { tab: t, enabled: true }),
                    None => {},
                }
            },
            TabEntry::Table { name: Some(s), enabled } => {
                match Tab::from_name(s.as_str()) {
                    Some(t) => {
                        let on = match enabled {
                            Some(b) => *b,
                            None => true,
                        };
                        out.push(TabConfig { tab: t, enabled: on });
                    },
                    None => {},
                }
            },
            _ => {},
        }
        i = i + 1;
    }
    assert(entries@.take(i as int) =~= entries@);
    assert(names.take(i as int) =~= names);
    if out.len() == 0 {
        None
    } else {
        Some(out)
    }
}

/// The first character of a configured key binding, if it has one.
pub fn first_char(s: &str) -> (r: Option<char>)
    ensures
        r == (if s@.len() > 0 {
            Some(s@[0])
        } else {
            None
        }),
{
    if s.unicode_len() > 0 {
        Some(s.get_char(0))
    } else {
        None
    }
}

/// The configured argument arrays, each as its entries (`None` for an entry
/// that is not text).
#[derive(Clone, Debug)]
pub struct CommandsFile {
    pub wal: Option<Vec<Option<String>>>,
    pub swww: Option<Vec<Option<String>>>,
    pub feh: Option<Vec<Option<String>>>,
}

/// What the configuration and key binding files hold, value by value; a
/// value that is missing or of the wrong kind is `None`.
#[derive(Clone, Debug)]
pub struct ConfigFile {
    pub wallpaper_dir: Option<String>,
    pub vim_motion: Option<bool>,
    pub enable_mouse_support: Option<bool>,
    pub list_position: Option<String>,
    pub transition_type: Option<String>,
    pub commands: Option<CommandsFile>,
    pub tabs: Option<Vec<TabEntry>>,
    pub image_cache_size: Option<usize>,
    pub search: Option<String>,
    pub favorite: Option<String>,
    pub multi_select: Option<String>,
    pub rename: Option<String>,
    pub quit: Option<String>,
}

/// A binding: the first character of the configured text, else `default`.
pub open spec fn bound(v: Option<String>, default: char) -> char {
    match v {
        Some(s) => if s@.len() > 0 {
            s@[0]
        } else {
            default
        },
        None => default,
    }
}

/// A command's arguments: merged with the defaults when configured.
pub open spec fn command_of(
    default: Seq<Seq<char>>,
    commands: Option<CommandsFile>,
    pick: spec_fn(CommandsFile) -> Option<Vec<Option<String>>>,
) -> Seq<Seq<char>> {
    match commands {
        Some(c) => match pick(c) {
            Some(v) => merged_args(default, v@),
            None => default,
        },
        None => default,
    }
}

fn bind(v: &Option<String>, default: char) -> (r: char)
    ensures
        r == bound(*v, default),
{
    match v {
        Some(s) => match first_char(s.as_str()) {
            Some(c) => c,
            None => default,
        },
        None => default,
    }
}

fn merge_opt(default: &Vec<String>, custom: &Option<Vec<Option<String>>>) -> (r: Vec<String>)
    requires
        default@.len() > 0,
    ensures
        ids(r@) == match *custom {
            Some(v) => merged_args(ids(default@), v@),
            None => ids(default@),
        },
{
    match custom {
        Some(v) => merge_command(default, v),
        None => merge_command(default, &Vec::new()),
    }
}

impl Config {
    /// The configuration that the files' values give, on top of the defaults:
    /// `wallpaper_dir` and the flags as given, the list position and the
    /// transition when they are known (in lowercase), the commands merged
    /// with the defaults, the categories when any entry names one, a cache
    /// of 50 previews, and each key binding from the first character of its
    /// text.
    pub fn from_file(file: &ConfigFile, session: Session, default_dir: String) -> (r: Config)
        ensures
            r.wallpaper_dir@ == (match file.wallpaper_dir {
                Some(d) => d@,
                None => default_dir@,
            }),
            r.session == session,
            r.vim_motion == (match file.vim_motion {
                Some(b) => b,
                None => false,
            }),
            r.enable_mouse_support == (match file.enable_mouse_support {
                Some(b) => b,
                None => false,
            }),
            r.list_position@ == (match file.list_position {
                Some(v) => if is_list_position(lower_of(v@)) {
                    lower_of(v@)
                } else {
                    "left"@
                },
                None => "left"@,
            }),
            r.transition_type@ == (match file.transition_type {
                Some(v) => if is_transition(lower_of(v@)) {
                    lower_of(v@)
                } else {
                    "fade"@
                },
                None => "fade"@,
            }),
            ids(r.commands.wal@) == command_of(default_wal(), file.commands, |c: CommandsFile| c.wal),
            ids(r.commands.swww@) == command_of(
                default_swww(),
                file.commands,
                |c: CommandsFile| c.swww,
            ),
            ids(r.commands.feh@) == command_of(default_feh(), file.commands, |c: CommandsFile| c.feh),
            r.tabs@ == (match file.tabs {
                Some(es) => if tabs_of(es@, entry_names(es@)).len() > 0 {
                    tabs_of(es@, entry_names(es@))
                } else {
                    seq![
                        TabConfig { tab: Tab::Wallpapers, enabled: true },
                        TabConfig { tab: Tab::History, enabled: true },
                        TabConfig { tab: Tab::Favorites, enabled: true },
                    ]
                },
                None => seq![
                    TabConfig { tab: Tab::Wallpapers, enabled: true },
                    TabConfig { tab: Tab::History, enabled: true },
                    TabConfig { tab: Tab::Favorites, enabled: true },
                ],
            }),
            r.image_cache_size == (match file.image_cache_size {
                Some(n) => n,
                None => 50,
            }),
            r.keybindings == (CustomKeybindings {
                search: bound(file.search, '/'),
                favorite: bound(file.favorite, 'f'),
                multi_select: bound(file.multi_select, 'v'),
                rename: bound(file.rename, 'r'),
                quit: bound(file.quit, 'q'),
            }),
            !r.pywal,
            !r.hellwal,
    {
        let wallpaper_dir = match &file.wallpaper_dir {
            Some(d) => d.clone(),
            None => default_dir,
        };
        let vim_motion = match file.vim_motion {
            Some(b) => b,
            None => false,
        };
        let enable_mouse_support = match file.enable_mouse_support {
            Some(b) => b,
            None => false,
        };
        let list_position = match &file.list_position {
            Some(v) => match pick_list_position(v.as_str()) {
                Some(p) => p,
                None => String::from_str("left"),
            },
            None => String::from_str("left"),
        };
        let transition_type = match &file.transition_type {
            Some(v) => match pick_transition(v.as_str()) {
                Some(p) => p,
                None => String::from_str("fade"),
            },
            None => String::from_str("fade"),
        };
        let defaults = CommandConfig::defaults();
        assert(ids(defaults.wal@).len() == defaults.wal@.len() && default_wal().len() == 5);
        assert(ids(defaults.swww@).len() == defaults.swww@.len() && default_swww().len() == 6);
        assert(ids(defaults.feh@).len() == defaults.feh@.len() && default_feh().len() == 2);
        let commands = match &file.commands {
            Some(c) => CommandConfig {
                wal: merge_opt(&defaults.wal, &c.wal),
                swww: merge_opt(&defaults.swww, &c.swww),
                feh: merge_opt(&defaults.feh, &c.feh),
            },
            None => defaults,
        };
        let tabs = match &file.tabs {
            Some(es) => match parse_tabs(es) {
                Some(v) => v,
                None => TabConfig::default_tabs(),
            },
            None => TabConfig::default_tabs(),
        };
        let image_cache_size = match file.image_cache_size {
            Some(n) => n,
            None => 50,
        };
        let keybindings = CustomKeybindings {
            search: bind(&file.search, '/'),
            favorite: bind(&file.favorite, 'f'),
            multi_select: bind(&file.multi_select, 'v'),
            rename: bind(&file.rename, 'r'),
            quit: bind(&file.quit, 'q'),
        };
        Config {
            wallpaper_dir,
            session,
            vim_motion,
            enable_mouse_support,
            keybindings,
            tabs,
            list_position,
            transition_type,
            commands,
            image_cache_size,
            pywal: false,
            hellwal: false,
        }
    }
}

} // verus!
