//! The three categories of items and their cyclic order.
use vstd::prelude::*;
use crate::text::{lower_of, trim_of, lowercase, trim, str_eq};

verus! {

/// One of the three groups of items the browser offers.
#[derive(Clone, Copy, Debug, PartialEq, Eq, Structural, Hash)]
pub enum Tab {
    Wallpapers,
    History,
    Favorites,
}

/// The title shown for a category.
pub open spec fn title_of(t: Tab) -> Seq<char> {
    match t {
        Tab::Wallpapers => "Wallpapers"@,
        Tab::History => "History"@,
        Tab::Favorites => "Favorites"@,
    }
}

/// The category that a trimmed, lowercase name stands for.
pub open spec fn tab_named(n: Seq<char>) -> Option<Tab> {
    if n == "wallpapers"@ || n == "wallpaper"@ || n == "wall"@ {
        Some(Tab::Wallpapers)
    } else if n == "history"@ || n == "recent"@ || n == "recents"@ {
        Some(Tab::History)
    } else if n == "favorites"@ || n == "favourites"@ || n == "favorite"@ || n == "favourite"@
        || n == "favs"@ {
        Some(Tab::Favorites)
    } else {
        None
    }
}

impl Tab {
    pub fn title(self) -> (r: String)
        ensures
            r@ == title_of(self),
    {
        match self {
            Tab::Wallpapers => String::from_str("Wallpapers"),
            Tab::History => String::from_str("History"),
            Tab::Favorites => String::from_str("Favorites"),
        }
    }

    /// Reads a category name, ignoring case and surrounding whitespace.
    pub fn from_name(s: &str) -> (r: Option<Tab>)
        ensures
            r == tab_named(lower_of(trim_of(s@))),
    {
        let t = trim(s);
        let l = lowercase(t);
        Tab::from_normalized_name(l.as_str())
    }

    /// Reads a category name that is already trimmed and lowercase.
    pub fn from_normalized_name(n: &str) -> (r: Option<Tab>)
        ensures
            r == tab_named(n@),
    {
        if str_eq(n, "wallpapers") || str_eq(n, "wallpaper") || str_eq(n, "wall") {
            Some(Tab::Wallpapers)
        } else if str_eq(n, "history") || str_eq(n, "recent") || str_eq(n, "recents") {
            Some(Tab::History)
        } else if str_eq(n, "favorites") || str_eq(n, "favourites") || str_eq(n, "favorite")
            || str_eq(n, "favourite") || str_eq(n, "favs") {
            Some(Tab::Favorites)
        } else {
            None
        }
    }
}

impl std::str::FromStr for Tab {
    type Err = ();

    fn from_str(s: &str) -> Result<Tab, ()> {
        match Tab::from_name(s) {
            Some(t) => Ok(t),
            None => Err(()),
        }
    }
}

/// A category with the flag that says whether it is shown.
#[derive(Clone, Copy, Debug, PartialEq, Eq, Structural)]
pub struct TabConfig {
    pub tab: Tab,
    pub enabled: bool,
}

/// The three categories in their default order, all shown.
pub open spec fn default_order() -> Seq<Tab> {
    seq![Tab::Wallpapers, Tab::History, Tab::Favorites]
}

/// The enabled categories of `cs` in order, each kept at its first occurrence.
pub open spec fn enabled_of(cs: Seq<TabConfig>) -> Seq<Tab>
    decreases cs.len(),
{
    if cs.len() == 0 {
        Seq::empty()
    } else {
        let prev = enabled_of(cs.drop_last());
        let c = cs.last();
        if c.enabled && !prev.contains(c.tab) {
            prev.push(c.tab)
        } else {
            prev
        }
    }
}

/// The categories on show: the enabled ones, or all three when none is.
pub open spec fn active_of(cs: Seq<TabConfig>) -> Seq<Tab> {
    if enabled_of(cs).len() == 0 {
        default_order()
    } else {
        enabled_of(cs)
    }
}

/// The first position of `t` in `tabs`.
pub open spec fn position_of(tabs: Seq<Tab>, t: Tab) -> int
    decreases tabs.len(),
{
    if tabs.len() == 0 {
        0
    } else if tabs[0] == t {
        0
    } else {
        1 + position_of(tabs.drop_first(), t)
    }
}

/// The category after `t` in the cycle `tabs`; `t` itself when it is not there.
pub open spec fn next_of(tabs: Seq<Tab>, t: Tab) -> Tab {
    if tabs.contains(t) {
        tabs[(position_of(tabs, t) + 1) % (tabs.len() as int)]
    } else {
        t
    }
}

/// The category before `t` in the cycle `tabs`; `t` itself when it is not there.
pub open spec fn prev_of(tabs: Seq<Tab>, t: Tab) -> Tab {
    if tabs.contains(t) {
        if position_of(tabs, t) == 0 {
            tabs.last()
        } else {
            tabs[position_of(tabs, t) - 1]
        }
    } else {
        t
    }
}

/// Where `k` forward steps through `tabs` lead from `t`.
pub open spec fn steps_from(tabs: Seq<Tab>, t: Tab, k: nat) -> Tab
    decreases k,
{
    if k == 0 {
        t
    } else {
        next_of(tabs, steps_from(tabs, t, (k - 1) as nat))
    }
}

impl TabConfig {
    pub fn default_tabs() -> (r: Vec<TabConfig>)
        ensures
            r@ == seq![
                TabConfig { tab: Tab::Wallpapers, enabled: true },
                TabConfig { tab: Tab::History, enabled: true },
                TabConfig { tab: Tab::Favorites, enabled: true },
            ],
    {
        let r = vec![
            TabConfig { tab: Tab::Wallpapers, enabled: true },
            TabConfig { tab: Tab::History, enabled: true },
            TabConfig { tab: Tab::Favorites, enabled: true },
        ];
        assert(r@ =~= seq![
            TabConfig { tab: Tab::Wallpapers, enabled: true },
            TabConfig { tab: Tab::History, enabled: true },
            TabConfig { tab: Tab::Favorites, enabled: true },
        ]);
        r
    }
}

fn tabs_contain(tabs: &Vec<Tab>, t: Tab) -> (r: bool)
    ensures
        r == tabs@.contains(t),
{
    let mut i: usize = 0;
    while i < tabs.len()
        invariant
            i <= tabs@.len(),
            forall|j: int| 0 <= j < i ==> tabs@[j] != t,
        decreases tabs@.len() - i,
    {
        if tabs[i] == t {
            return true;
        }
        i = i + 1;
    }
    false
}

/// The categories on show, in configured order.
pub fn active_tabs(configs: &Vec<TabConfig>) -> (r: Vec<Tab>)
    ensures
        r@ == active_of(configs@),
{
    let mut out: Vec<Tab> = Vec::new();
    let mut i: usize = 0;
    while i < configs.len()
        invariant
            i <= configs@.len(),
            out@ == enabled_of(configs@.take(i as int)),
        decreases configs@.len() - i,
    {
        let c = configs[i];
        assert(configs@.take(i + 1).drop_last() =~= configs@.take(i as int));
        if c.enabled && !tabs_contain(&out, c.tab) {
            out.push(c.tab);
        }
        i = i + 1;
    }
    assert(configs@.take(i as int) =~= configs@);
    if out.len() == 0 {
        let d = vec![Tab::Wallpapers, Tab::History, Tab::Favorites];
        assert(d@ =~= default_order());
        d
    } else {
        out
    }
}

/// The position of `t` in `tabs`, or 0 when it is not there.
pub fn tab_index(tabs: &Vec<Tab>, t: Tab) -> (r: usize)
    ensures
        tabs@.contains(t) ==> r == position_of(tabs@, t),
        !tabs@.contains(t) ==> r == 0,
{
    let mut i: usize = 0;
    while i < tabs.len()
        invariant
            i <= tabs@.len(),
            forall|j: int| 0 <= j < i ==> tabs@[j] != t,
        decreases tabs@.len() - i,
    {
        if tabs[i] == t {
            proof {
                lemma_position_first(tabs@, t, i as int);
            }
            return i;
        }
        i = i + 1;
    }
    0
}

proof fn lemma_position_first(tabs: Seq<Tab>, t: Tab, i: int)
    requires
        0 <= i < tabs.len(),
        tabs[i] == t,
        forall|j: int| 0 <= j < i ==> tabs[j] != t,
    ensures
        position_of(tabs, t) == i,
    decreases i,
{
    if i > 0 {
        assert forall|j: int| 0 <= j < i - 1 implies tabs.drop_first()[j] != t by {
            assert(tabs.drop_first()[j] == tabs[j + 1]);
        }
        lemma_position_first(tabs.drop_first(), t, i - 1);
    }
}

/// The category after `t` in the cycle of `tabs`.
pub fn next_tab(tabs: &Vec<Tab>, t: Tab) -> (r: Tab)
    ensures
        r == next_of(tabs@, t),
{
    if tabs_contain(tabs, t) {
        let p = tab_index(tabs, t);
        proof {
            lemma_position_in_range(tabs@, t);
        }
        assert(p < tabs.len());
        tabs[(p + 1) % tabs.len()]
    } else {
        t
    }
}

/// The category before `t` in the cycle of `tabs`.
pub fn prev_tab(tabs: &Vec<Tab>, t: Tab) -> (r: Tab)
    ensures
        r == prev_of(tabs@, t),
{
    if tabs_contain(tabs, t) {
        let p = tab_index(tabs, t);
        proof {
            lemma_position_in_range(tabs@, t);
        }
        if p == 0 {
            tabs[tabs.len() - 1]
        } else {
            tabs[p - 1]
        }
    } else {
        t
    }
}

pub proof fn lemma_position_in_range(tabs: Seq<Tab>, t: Tab)
    requires
        tabs.contains(t),
    ensures
        0 <= position_of(tabs, t) < tabs.len(),
        tabs[position_of(tabs, t)] == t,
    decreases tabs.len(),
{
    if tabs[0] != t {
        let k = choose|k: int| 0 <= k < tabs.len() && tabs[k] == t;
        assert(tabs.drop_first()[k - 1] == t);
        lemma_position_in_range(tabs.drop_first(), t);
    }
}

proof fn lemma_position_distinct(tabs: Seq<Tab>, i: int)
    requires
        tabs.no_duplicates(),
        0 <= i < tabs.len(),
    ensures
        position_of(tabs, tabs[i]) == i,
{
    lemma_position_first(tabs, tabs[i], i);
}

proof fn lemma_tab_steps(tabs: Seq<Tab>, i: int, k: nat)
    requires
        tabs.no_duplicates(),
        0 <= i < tabs.len(),
    ensures
        steps_from(tabs, tabs[i], k) == tabs[(i + k) % (tabs.len() as int)],
    decreases k,
{
    let n = tabs.len() as int;
    if k == 0 {
        vstd::arithmetic::div_mod::lemma_small_mod(i as nat, n as nat);
    } else {
        lemma_tab_steps(tabs, i, (k - 1) as nat);
        let j = (i + k - 1) % n;
        assert(0 <= j < n) by {
            vstd::arithmetic::div_mod::lemma_mod_bound(i + k - 1, n);
        }
        lemma_position_distinct(tabs, j);
        assert(tabs.contains(tabs[j]));
        assert((j + 1) % n == (i + k) % n) by {
            vstd::arithmetic::div_mod::lemma_add_mod_noop(i + k - 1, 1, n);
            vstd::arithmetic::div_mod::lemma_mod_twice(i + k - 1, n);
            vstd::arithmetic::div_mod::lemma_add_mod_noop(j, 1, n);
            vstd::arithmetic::div_mod::lemma_mod_twice(1, n);
        }
    }
}

/// Cycling forward through a list of distinct categories visits only those
/// categories, and comes back to the start after exactly as many steps as
/// there are categories.
pub proof fn lemma_tab_cycle(tabs: Seq<Tab>, i: int)
    requires
        tabs.no_duplicates(),
        0 <= i < tabs.len(),
    ensures
        steps_from(tabs, tabs[i], tabs.len()) == tabs[i],
        forall|k: nat| tabs.contains(#[trigger] steps_from(tabs, tabs[i], k)),
{
    let n = tabs.len() as int;
    lemma_tab_steps(tabs, i, tabs.len());
    assert((i + n) % n == i) by {
        vstd::arithmetic::div_mod::lemma_mod_add_multiples_vanish(i, n);
        vstd::arithmetic::div_mod::lemma_small_mod(i as nat, n as nat);
    }
    assert forall|k: nat| tabs.contains(#[trigger] steps_from(tabs, tabs[i], k)) by {
        lemma_tab_steps(tabs, i, k);
        vstd::arithmetic::div_mod::lemma_mod_bound(i + k, n);
        assert(tabs[(i + k) % n] == steps_from(tabs, tabs[i], k));
    }
}

/// The categories on show are distinct, each is enabled in the configuration
/// (or none is enabled and all three are shown), and there is at least one.
pub proof fn lemma_active_tabs(cs: Seq<TabConfig>)
    ensures
        active_of(cs).no_duplicates(),
        active_of(cs).len() > 0,
        forall|t: Tab|
            #[trigger] active_of(cs).contains(t) ==> (exists|j: int|
                0 <= j < cs.len() && cs[j].enabled && cs[j].tab == t) || enabled_of(cs).len()
                == 0,
{
    lemma_enabled_of(cs);
}

proof fn lemma_enabled_of(cs: Seq<TabConfig>)
    ensures
        enabled_of(cs).no_duplicates(),
        forall|t: Tab|
            #[trigger] enabled_of(cs).contains(t) ==> exists|j: int|
                0 <= j < cs.len() && cs[j].enabled && cs[j].tab == t,
    decreases cs.len(),
{
    if cs.len() > 0 {
        lemma_enabled_of(cs.drop_last());
        let prev = enabled_of(cs.drop_last());
        assert forall|t: Tab| #[trigger] enabled_of(cs).contains(t) implies exists|j: int|
            0 <= j < cs.len() && cs[j].enabled && cs[j].tab == t by {
            if prev.contains(t) {
                let j = choose|j: int|
                    0 <= j < cs.drop_last().len() && cs.drop_last()[j].enabled
                        && cs.drop_last()[j].tab == t;
                assert(cs[j] == cs.drop_last()[j]);
            } else {
                let e = enabled_of(cs);
                let k = choose|k: int| 0 <= k < e.len() && e[k] == t;
                if k < prev.len() {
                    assert(prev[k] == e[k]);
                }
                assert(cs[cs.len() - 1] == cs.last());
            }
        }
    }
}

} // verus!
