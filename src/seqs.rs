//! The list operations of the catalog, stated over sequences of identities,
//! with their laws.
use vstd::prelude::*;

verus! {

broadcast use vstd::seq_lib::group_seq_lib_default, vstd::seq::Seq::lemma_filter_contains_rev,
    vstd::seq::Seq::lemma_filter_push;

/// The identities that a list of paths holds.
pub open spec fn ids(v: Seq<String>) -> Seq<Seq<char>> {
    v.map_values(|s: String| s@)
}

/// The first position of `x` in `s` (`s.len()` when it is not there).
pub open spec fn index_in<A>(s: Seq<A>, x: A) -> int
    decreases s.len(),
{
    if s.len() == 0 {
        0
    } else if s[0] == x {
        0
    } else {
        1 + index_in(s.drop_first(), x)
    }
}

/// `s` without any occurrence of `x`.
pub open spec fn without<A>(s: Seq<A>, x: A) -> Seq<A> {
    s.filter(|y: A| y != x)
}

/// Favorite toggling: `x` removed when present, else put in front.
pub open spec fn toggled<A>(s: Seq<A>, x: A) -> Seq<A> {
    if s.contains(x) {
        without(s, x)
    } else {
        seq![x] + s
    }
}

/// `x` moved (or put) to the front of `s`, with no other occurrence left.
pub open spec fn moved_front<A>(s: Seq<A>, x: A) -> Seq<A> {
    seq![x] + without(s, x)
}

/// `s` after `from` was renamed to `to`: every `from` becomes `to`, and a
/// stale `to` that was already there is dropped so that none is doubled.
pub open spec fn renamed<A>(s: Seq<A>, from: A, to: A) -> Seq<A> {
    if from == to || !s.contains(from) {
        s
    } else {
        without(s, to).map_values(|y: A| if y == from { to } else { y })
    }
}

/// `s` with each element kept at its first occurrence only.
pub open spec fn dedup_of<A>(s: Seq<A>) -> Seq<A>
    decreases s.len(),
{
    if s.len() == 0 {
        s
    } else {
        let d = dedup_of(s.drop_last());
        if d.contains(s.last()) {
            d
        } else {
            d.push(s.last())
        }
    }
}

/// `a` is `b` with some elements left out, the rest in the same order.
pub open spec fn subseq_of<A>(a: Seq<A>, b: Seq<A>) -> bool
    decreases b.len(),
{
    if a.len() == 0 {
        true
    } else if b.len() == 0 {
        false
    } else if a.last() == b.last() {
        subseq_of(a.drop_last(), b.drop_last())
    } else {
        subseq_of(a, b.drop_last())
    }
}

pub proof fn lemma_ids_push(v: Seq<String>, s: String)
    ensures
        ids(v.push(s)) == ids(v).push(s@),
{
    assert(ids(v.push(s)) =~= ids(v).push(s@));
}

pub proof fn lemma_index_in<A>(s: Seq<A>, x: A)
    requires
        s.contains(x),
    ensures
        0 <= index_in(s, x) < s.len(),
        s[index_in(s, x)] == x,
        forall|j: int| 0 <= j < index_in(s, x) ==> s[j] != x,
    decreases s.len(),
{
    if s[0] != x {
        let k = choose|k: int| 0 <= k < s.len() && s[k] == x;
        assert(s.drop_first()[k - 1] == x);
        lemma_index_in(s.drop_first(), x);
        assert forall|j: int| 0 <= j < index_in(s, x) implies s[j] != x by {
            if j > 0 {
                assert(s[j] == s.drop_first()[j - 1]);
            }
        }
    }
}

pub proof fn lemma_index_first<A>(s: Seq<A>, i: int)
    requires
        0 <= i < s.len(),
        forall|j: int| 0 <= j < i ==> s[j] != s[i],
    ensures
        index_in(s, s[i]) == i,
    decreases i,
{
    if i > 0 {
        assert forall|j: int| 0 <= j < i - 1 implies #[trigger] s.drop_first()[j] != s.drop_first()[i - 1] by {
            assert(s.drop_first()[j] == s[j + 1]);
        }
        lemma_index_first(s.drop_first(), i - 1);
    }
}

proof fn lemma_split_last<A>(s: Seq<A>)
    requires
        s.len() > 0,
    ensures
        s == s.drop_last().push(s.last()),
{
    assert(s =~= s.drop_last().push(s.last()));
}

/// What removing every `x` leaves: no `x`, every other element as before,
/// and no element doubled that was not doubled before.
pub proof fn lemma_without<A>(s: Seq<A>, x: A)
    ensures
        !without(s, x).contains(x),
        forall|y: A| y != x ==> (#[trigger] without(s, x).contains(y) <==> s.contains(y)),
        s.no_duplicates() ==> without(s, x).no_duplicates(),
        !s.contains(x) ==> without(s, x) == s,
        without(s, x).len() <= s.len(),
    decreases s.len(),
{
    let p = |y: A| y != x;
    if s.len() > 0 {
        let d = s.drop_last();
        lemma_without(d, x);
        lemma_split_last(s);
        d.lemma_filter_push(s.last(), p);
        assert(without(s, x) == if p(s.last()) {
            without(d, x).push(s.last())
        } else {
            without(d, x)
        });
        assert forall|y: A| y != x implies (#[trigger] without(s, x).contains(y) <==> s.contains(
            y,
        )) by {
            if s.contains(y) && y != s.last() {
                let k = choose|k: int| 0 <= k < s.len() && s[k] == y;
                assert(d[k] == y);
                assert(d.contains(y));
            }
            if without(s, x).contains(y) && y != s.last() {
                assert(without(d, x).contains(y) || without(d, x).push(s.last()).contains(y));
                if without(d, x).push(s.last()).contains(y) && p(s.last()) {
                    let k = choose|k: int|
                        0 <= k < without(d, x).push(s.last()).len() && without(d, x).push(
                            s.last(),
                        )[k] == y;
                    assert(without(d, x)[k] == y);
                }
                assert(d.contains(y));
                let k = choose|k: int| 0 <= k < d.len() && d[k] == y;
                assert(s[k] == y);
            }
            if y == s.last() {
                assert(s[s.len() - 1] == y);
                assert(without(s, x)[without(s, x).len() - 1] == y);
            }
        }
        if s.no_duplicates() {
            assert(d.no_duplicates()) by {
                assert forall|i: int, j: int|
                    0 <= i < d.len() && 0 <= j < d.len() && i != j implies d[i] != d[j] by {
                    assert(d[i] == s[i] && d[j] == s[j]);
                }
            }
            if p(s.last()) {
                assert(!d.contains(s.last())) by {
                    if d.contains(s.last()) {
                        let k = choose|k: int| 0 <= k < d.len() && d[k] == s.last();
                        assert(s[k] == s[s.len() - 1]);
                    }
                }
                let w = without(d, x);
                assert(!w.contains(s.last()));
                assert forall|i: int, j: int|
                    0 <= i < w.push(s.last()).len() && 0 <= j < w.push(s.last()).len() && i
                        != j implies w.push(s.last())[i] != w.push(s.last())[j] by {
                    if i < w.len() && j < w.len() {
                    } else if i < w.len() {
                        assert(w.contains(w[i]));
                    } else {
                        assert(w.contains(w[j]));
                    }
                }
            }
        }
        if !s.contains(x) {
            assert(!d.contains(x)) by {
                if d.contains(x) {
                    let k = choose|k: int| 0 <= k < d.len() && d[k] == x;
                    assert(s[k] == x);
                }
            }
            assert(s[s.len() - 1] == s.last());
        }
    } else {
        reveal(Seq::filter);
        assert(without(s, x) =~= s);
    }
}

proof fn lemma_without_front<A>(r: Seq<A>, x: A)
    ensures
        without(seq![x] + r, x) == without(r, x),
{
    let p = |y: A| y != x;
    Seq::<A>::filter_distributes_over_add(seq![x], r, p);
    Seq::<A>::empty().lemma_filter_push(x, p);
    reveal(Seq::filter);
    assert(Seq::<A>::empty().push(x) =~= seq![x]);
    assert(Seq::<A>::empty().filter(p) =~= Seq::<A>::empty());
    assert(seq![x].filter(p) =~= Seq::<A>::empty());
    assert(Seq::<A>::empty() + without(r, x) =~= without(r, x));
}

/// Toggling the same item twice gives back the same membership; and the same
/// order too, where the item was absent or stood once, at the front.
pub proof fn lemma_toggle_twice<A>(s: Seq<A>, x: A)
    ensures
        forall|y: A| #[trigger] toggled(toggled(s, x), x).contains(y) == s.contains(y),
        !s.contains(x) || (s.len() > 0 && s[0] == x && !s.drop_first().contains(x)) ==> toggled(
            toggled(s, x),
            x,
        ) == s,
{
    lemma_without(s, x);
    if s.contains(x) {
        let t = without(s, x);
        assert(toggled(s, x) == t);
        assert(toggled(t, x) == seq![x] + t);
        assert forall|y: A| #[trigger] toggled(toggled(s, x), x).contains(y) == s.contains(y) by {
            if y == x {
                assert((seq![x] + t)[0] == x);
            } else {
                if t.contains(y) {
                    let k = choose|k: int| 0 <= k < t.len() && t[k] == y;
                    assert((seq![x] + t)[k + 1] == y);
                }
                if (seq![x] + t).contains(y) {
                    let k = choose|k: int| 0 <= k < (seq![x] + t).len() && (seq![x] + t)[k] == y;
                    assert(t[k - 1] == y);
                }
            }
        }
        if s.len() > 0 && s[0] == x && !s.drop_first().contains(x) {
            let r = s.drop_first();
            assert(s =~= seq![x] + r);
            lemma_without_front(r, x);
            lemma_without(r, x);
        }
    } else {
        let t = seq![x] + s;
        assert(t[0] == x);
        assert(toggled(s, x) == t);
        lemma_without_front(s, x);
        assert(toggled(t, x) == s);
    }
}

/// Renaming in a list without duplicates leaves none: `from` is gone, `to`
/// stands where either stood, and every other element is as before.
pub proof fn lemma_renamed<A>(s: Seq<A>, from: A, to: A)
    requires
        s.no_duplicates(),
    ensures
        renamed(s, from, to).no_duplicates(),
        from != to ==> !renamed(s, from, to).contains(from),
        renamed(s, from, to).contains(to) == (s.contains(from) || s.contains(to)),
        forall|y: A|
            y != from && y != to ==> (#[trigger] renamed(s, from, to).contains(y) == s.contains(
                y,
            )),
{
    if from != to && s.contains(from) {
        let w = without(s, to);
        lemma_without(s, to);
        let f = |y: A| if y == from { to } else { y };
        let r = w.map_values(f);
        assert(r == renamed(s, from, to));
        assert(w.contains(from));
        let kf = choose|k: int| 0 <= k < w.len() && w[k] == from;
        assert(r[kf] == to);
        assert forall|i: int, j: int| 0 <= i < r.len() && 0 <= j < r.len() && i != j implies r[i]
            != r[j] by {
            assert(w[i] != w[j]);
            assert(w[i] != to && w[j] != to) by {
                assert(w.contains(w[i]));
                assert(w.contains(w[j]));
            }
        }
        assert(!r.contains(from)) by {
            if r.contains(from) {
                let k = choose|k: int| 0 <= k < r.len() && r[k] == from;
                assert(f(w[k]) == from);
            }
        }
        assert forall|y: A| y != from && y != to implies (#[trigger] r.contains(y) == s.contains(
            y,
        )) by {
            if r.contains(y) {
                let k = choose|k: int| 0 <= k < r.len() && r[k] == y;
                assert(w[k] == y);
                assert(w.contains(y));
            }
            if s.contains(y) {
                assert(w.contains(y));
                let k = choose|k: int| 0 <= k < w.len() && w[k] == y;
                assert(r[k] == y);
            }
        }
    }
}

/// Every element kept by a filter stands in the source, in the source's order.
pub proof fn lemma_filter_subseq<A>(s: Seq<A>, p: spec_fn(A) -> bool)
    ensures
        subseq_of(s.filter(p), s),
    decreases s.len(),
{
    if s.len() > 0 {
        let d = s.drop_last();
        lemma_split_last(s);
        d.lemma_filter_push(s.last(), p);
        lemma_filter_subseq(d, p);
        let a = s.filter(p);
        if p(s.last()) {
            assert(a.drop_last() =~= d.filter(p));
        } else if a.len() > 0 {
            assert(p(a[a.len() - 1]));
            assert(a.last() != s.last());
        }
    }
}

/// A list with its repeats dropped: no duplicates, the same elements.
pub proof fn lemma_dedup<A>(s: Seq<A>)
    ensures
        dedup_of(s).no_duplicates(),
        forall|y: A| #[trigger] dedup_of(s).contains(y) == s.contains(y),
    decreases s.len(),
{
    if s.len() > 0 {
        let d = s.drop_last();
        lemma_dedup(d);
        let e = dedup_of(d);
        assert forall|y: A| #[trigger] dedup_of(s).contains(y) == s.contains(y) by {
            if s.contains(y) {
                let k = choose|k: int| 0 <= k < s.len() && s[k] == y;
                if k < d.len() {
                    assert(d[k] == y);
                    assert(e.contains(y));
                    let j = choose|j: int| 0 <= j < e.len() && e[j] == y;
                    assert(dedup_of(s)[j] == y);
                } else {
                    assert(y == s.last());
                    if !e.contains(y) {
                        assert(dedup_of(s)[e.len() as int] == y);
                    }
                }
            }
            if dedup_of(s).contains(y) {
                let k = choose|k: int| 0 <= k < dedup_of(s).len() && dedup_of(s)[k] == y;
                if k < e.len() {
                    assert(e[k] == y);
                    assert(e.contains(y));
                    assert(d.contains(y));
                    let j = choose|j: int| 0 <= j < d.len() && d[j] == y;
                    assert(s[j] == y);
                } else {
                    assert(s[s.len() - 1] == y);
                }
            }
        }
        if !e.contains(s.last()) {
            assert forall|i: int, j: int|
                0 <= i < e.push(s.last()).len() && 0 <= j < e.push(s.last()).len() && i
                    != j implies e.push(s.last())[i] != e.push(s.last())[j] by {
                if i < e.len() && j < e.len() {
                } else if i < e.len() {
                    assert(e.contains(e[i]));
                } else {
                    assert(e.contains(e[j]));
                }
            }
        }
    }
}

proof fn lemma_prepend_distinct<A>(s: Seq<A>, x: A)
    requires
        s.no_duplicates(),
        !s.contains(x),
    ensures
        (seq![x] + s).no_duplicates(),
{
    let r = seq![x] + s;
    assert forall|a: int, b: int| 0 <= a < r.len() && 0 <= b < r.len() && a != b implies r[a]
        != r[b] by {
        if a == 0 {
            assert(s.contains(s[b - 1]));
        } else if b == 0 {
            assert(s.contains(s[a - 1]));
        } else {
            assert(r[a] == s[a - 1] && r[b] == s[b - 1]);
        }
    }
}

/// Toggling keeps a list free of duplicates.
pub proof fn lemma_toggled_distinct<A>(s: Seq<A>, x: A)
    requires
        s.no_duplicates(),
    ensures
        toggled(s, x).no_duplicates(),
{
    lemma_without(s, x);
    if !s.contains(x) {
        lemma_prepend_distinct(s, x);
    }
}

/// Moving to the front keeps a list free of duplicates.
pub proof fn lemma_moved_front_distinct<A>(s: Seq<A>, x: A)
    requires
        s.no_duplicates(),
    ensures
        moved_front(s, x).no_duplicates(),
        moved_front(s, x)[0] == x,
{
    lemma_without(s, x);
    lemma_prepend_distinct(without(s, x), x);
}

} // verus!
