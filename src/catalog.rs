//! The filtered view of a category, and the rules for which files belong to
//! the catalog.
use vstd::prelude::*;
use crate::seqs::{ids, subseq_of, lemma_filter_subseq, lemma_ids_push};
use crate::tab::Tab;
use crate::text::{contains_seq, lower_of, name_of, file_name, lowercase, name_contains};

verus! {

broadcast use vstd::seq_lib::group_seq_lib_default, vstd::seq::Seq::lemma_filter_push,
    vstd::seq::Seq::lemma_filter_contains_rev;

/// A path matches a lowercase query when its lowercase file name holds it.
pub open spec fn matches_query(p: Seq<char>, lower_query: Seq<char>) -> bool {
    contains_seq(lower_of(name_of(p)), lower_query)
}

/// The items of `wallpapers` that match `query`, in catalog order; all of
/// them when the query is empty.
pub open spec fn searched(wallpapers: Seq<Seq<char>>, query: Seq<char>) -> Seq<Seq<char>> {
    if query.len() == 0 {
        wallpapers
    } else {
        wallpapers.filter(|p: Seq<char>| matches_query(p, lower_of(query)))
    }
}

/// What the browser shows for a category: the searched catalog for
/// Wallpapers, the list as it stands for the other two.
pub open spec fn view_of(
    tab: Tab,
    wallpapers: Seq<Seq<char>>,
    history: Seq<Seq<char>>,
    favorites: Seq<Seq<char>>,
    query: Seq<char>,
) -> Seq<Seq<char>> {
    match tab {
        Tab::Wallpapers => searched(wallpapers, query),
        Tab::History => history,
        Tab::Favorites => favorites,
    }
}

/// The list a category draws its items from.
pub open spec fn source_of(
    tab: Tab,
    wallpapers: Seq<Seq<char>>,
    history: Seq<Seq<char>>,
    favorites: Seq<Seq<char>>,
) -> Seq<Seq<char>> {
    match tab {
        Tab::Wallpapers => wallpapers,
        Tab::History => history,
        Tab::Favorites => favorites,
    }
}

/// Every item of the view is an item of the category's list, and the view
/// keeps the list's order.
pub proof fn lemma_view_within_source(
    tab: Tab,
    wallpapers: Seq<Seq<char>>,
    history: Seq<Seq<char>>,
    favorites: Seq<Seq<char>>,
    query: Seq<char>,
)
    ensures
        subseq_of(
            view_of(tab, wallpapers, history, favorites, query),
            source_of(tab, wallpapers, history, favorites),
        ),
        forall|p: Seq<char>|
            #[trigger] view_of(tab, wallpapers, history, favorites, query).contains(p)
                ==> source_of(tab, wallpapers, history, favorites).contains(p),
{
    let s = source_of(tab, wallpapers, history, favorites);
    if tab == Tab::Wallpapers && query.len() > 0 {
        lemma_filter_subseq(wallpapers, |p: Seq<char>| matches_query(p, lower_of(query)));
    } else {
        lemma_subseq_refl(s);
    }
}

proof fn lemma_subseq_refl(s: Seq<Seq<char>>)
    ensures
        subseq_of(s, s),
    decreases s.len(),
{
    if s.len() > 0 {
        lemma_subseq_refl(s.drop_last());
    }
}

/// Whether the path matches a query that is already lowercase.
pub fn path_matches(p: &str, lower_query: &str) -> (r: bool)
    ensures
        r == matches_query(p@, lower_query@),
{
    let name = file_name(p);
    let lname = lowercase(name.as_str());
    name_contains(lname.as_str(), lower_query)
}

/// The catalog items that match `query`, in catalog order.
pub fn search(wallpapers: &Vec<String>, query: &str) -> (r: Vec<String>)
    ensures
        ids(r@) == searched(ids(wallpapers@), query@),
{
    let mut out: Vec<String> = Vec::new();
    if query.unicode_len() == 0 {
        let mut i: usize = 0;
        while i < wallpapers.len()
            invariant
                i <= wallpapers@.len(),
                ids(out@) == ids(wallpapers@).take(i as int),
            decreases wallpapers@.len() - i,
        {
            let s = wallpapers[i].clone();
            proof {
                lemma_ids_push(out@, s);
                assert(ids(wallpapers@).take(i + 1) =~= ids(wallpapers@).take(i as int).push(s@));
            }
            out.push(s);
            i = i + 1;
        }
        assert(ids(wallpapers@).take(i as int) =~= ids(wallpapers@));
        return out;
    }
    let lq = lowercase(query);
    let ghost pred = |p: Seq<char>| matches_query(p, lower_of(query@));
    let mut i: usize = 0;
    while i < wallpapers.len()
        invariant
            i <= wallpapers@.len(),
            lq@ == lower_of(query@),
            pred == (|p: Seq<char>| matches_query(p, lower_of(query@))),
            ids(out@) == ids(wallpapers@).take(i as int).filter(pred),
        decreases wallpapers@.len() - i,
    {
        proof {
            assert(ids(wallpapers@).take(i + 1) =~= ids(wallpapers@).take(i as int).push(
                wallpapers@[i as int]@,
            ));
            ids(wallpapers@).take(i as int).lemma_filter_push(wallpapers@[i as int]@, pred);
        }
        if path_matches(wallpapers[i].as_str(), lq.as_str()) {
            let s = wallpapers[i].clone();
            proof {
                lemma_ids_push(out@, s);
            }
            out.push(s);
        }
        i = i + 1;
    }
    assert(ids(wallpapers@).take(i as int) =~= ids(wallpapers@));
    out
}

fn copy_list(v: &Vec<String>) -> (r: Vec<String>)
    ensures
        ids(r@) == ids(v@),
{
    let mut out: Vec<String> = Vec::new();
    let mut i: usize = 0;
    while i < v.len()
        invariant
            i <= v@.len(),
            ids(out@) == ids(v@).take(i as int),
        decreases v@.len() - i,
    {
        let s = v[i].clone();
        proof {
            lemma_ids_push(out@, s);
            assert(ids(v@).take(i + 1) =~= ids(v@).take(i as int).push(s@));
        }
        out.push(s);
        i = i + 1;
    }
    assert(ids(v@).take(i as int) =~= ids(v@));
    out
}

/// The items shown for `tab`.
pub fn filter_items(
    tab: Tab,
    wallpapers: &Vec<String>,
    history: &Vec<String>,
    favorites: &Vec<String>,
    query: &str,
) -> (r: Vec<String>)
    ensures
        ids(r@) == view_of(tab, ids(wallpapers@), ids(history@), ids(favorites@), query@),
{
    match tab {
        Tab::Wallpapers => search(wallpapers, query),
        Tab::History => copy_list(history),
        Tab::Favorites => copy_list(favorites),
    }
}

} // verus!
