//! The operations on the lists of paths, each proved against its statement
//! over identities.
use vstd::prelude::*;
use crate::seqs::{ids, without, toggled, moved_front, renamed, dedup_of, lemma_ids_push};
use crate::text::str_eq;

verus! {

broadcast use vstd::seq_lib::group_seq_lib_default, vstd::seq::Seq::lemma_filter_push;

/// Whether the list holds the identity `x`.
pub fn contains_id(v: &Vec<String>, x: &str) -> (r: bool)
    ensures
        r == ids(v@).contains(x@),
{
    let mut i: usize = 0;
    while i < v.len()
        invariant
            i <= v@.len(),
            forall|j: int| 0 <= j < i ==> v@[j]@ != x@,
        decreases v@.len() - i,
    {
        if str_eq(v[i].as_str(), x) {
            assert(ids(v@)[i as int] == x@);
            return true;
        }
        i = i + 1;
    }
    proof {
        if ids(v@).contains(x@) {
            let k = choose|k: int| 0 <= k < ids(v@).len() && ids(v@)[k] == x@;
            assert(v@[k]@ == x@);
        }
    }
    false
}

/// The list with every occurrence of `x` left out.
pub fn without_id(v: &Vec<String>, x: &str) -> (r: Vec<String>)
    ensures
        ids(r@) == without(ids(v@), x@),
{
    let mut out: Vec<String> = Vec::new();
    let mut i: usize = 0;
    while i < v.len()
        invariant
            i <= v@.len(),
            ids(out@) == without(ids(v@).take(i as int), x@),
        decreases v@.len() - i,
    {
        proof {
            let p = |y: Seq<char>| y != x@;
            assert(ids(v@).take(i + 1) =~= ids(v@).take(i as int).push(v@[i as int]@));
            ids(v@).take(i as int).lemma_filter_push(v@[i as int]@, p);
        }
        if !str_eq(v[i].as_str(), x) {
            let s = v[i].clone();
            proof {
                lemma_ids_push(out@, s);
            }
            out.push(s);
        }
        i = i + 1;
    }
    assert(ids(v@).take(i as int) =~= ids(v@));
    out
}

proof fn lemma_ids_front(v: Seq<String>, s: String)
    ensures
        ids(v.insert(0, s)) == seq![s@] + ids(v),
{
    assert(ids(v.insert(0, s)) =~= seq![s@] + ids(v));
}

/// Toggles the membership of `x`: removed when present, else put in front.
pub fn toggle_id(v: &mut Vec<String>, x: &String)
    ensures
        ids(final(v)@) == toggled(ids(old(v)@), x@),
{
    if contains_id(v, x.as_str()) {
        *v = without_id(v, x.as_str());
    } else {
        proof {
            lemma_ids_front(v@, *x);
        }
        v.insert(0, x.clone());
    }
}

/// Moves `x` to the front, dropping any earlier occurrence.
pub fn move_to_front(v: &mut Vec<String>, x: &String)
    ensures
        ids(final(v)@) == moved_front(ids(old(v)@), x@),
{
    let mut w = without_id(v, x.as_str());
    proof {
        lemma_ids_front(w@, *x);
    }
    w.insert(0, x.clone());
    *v = w;
}

/// Renames `from` to `to` in the list (see `renamed`).
pub fn rename_id(v: &mut Vec<String>, from: &str, to: &String)
    ensures
        ids(final(v)@) == renamed(ids(old(v)@), from@, to@),
{
    if str_eq(from, to.as_str()) || !contains_id(v, from) {
        return;
    }
    let w = without_id(v, to.as_str());
    let mut out: Vec<String> = Vec::new();
    let mut i: usize = 0;
    while i < w.len()
        invariant
            i <= w@.len(),
            ids(out@).len() == i,
            forall|j: int| 0 <= j < i ==> #[trigger] ids(out@)[j] == (if w@[j]@ == from@ {
                to@
            } else {
                w@[j]@
            }),
        decreases w@.len() - i,
    {
        let same = str_eq(w[i].as_str(), from);
        let s = if same {
            to.clone()
        } else {
            w[i].clone()
        };
        assert(same ==> s@ == to@);
        assert(!same ==> s@ == w@[i as int]@ && w@[i as int]@ != from@);
        proof {
            lemma_ids_push(out@, s);
        }
        out.push(s);
        i = i + 1;
    }
    assert(ids(out@) =~= renamed(ids(v@), from@, to@));
    *v = out;
}

/// The list with each identity kept at its first occurrence only.
pub fn dedup_ids(v: &Vec<String>) -> (r: Vec<String>)
    ensures
        ids(r@) == dedup_of(ids(v@)),
{
    let mut out: Vec<String> = Vec::new();
    let mut i: usize = 0;
    while i < v.len()
        invariant
            i <= v@.len(),
            ids(out@) == dedup_of(ids(v@).take(i as int)),
        decreases v@.len() - i,
    {
        assert(ids(v@).take(i + 1).drop_last() =~= ids(v@).take(i as int));
        if !contains_id(&out, v[i].as_str()) {
            let s = v[i].clone();
            proof {
                lemma_ids_push(out@, s);
            }
            out.push(s);
        }
        i = i + 1;
    }
    assert(ids(v@).take(i as int) =~= ids(v@));
    out
}

} // verus!
