//! Which files of a directory scan enter the catalog, and in what order.
use vstd::prelude::*;
use crate::seqs::ids;
use crate::text::{
    lower_of, name_of, has_extension, extension_of, lowercase, file_name, find_last, substring,
    str_eq, lemma_last_index_bounds,
};

verus! {

broadcast use vstd::seq_lib::group_to_multiset_ensures, vstd::seq_lib::group_seq_lib_default,
    vstd::seq::Seq::lemma_filter_push, vstd::seq::Seq::lemma_filter_contains_rev;

/// An extension, already lowercase, that the catalog takes: `jpg`, `jpeg`
/// and `png`, and `mp4` when videos are wanted.
pub open spec fn allowed_extension(lower_ext: Seq<char>, video: bool) -> bool {
    lower_ext == "jpg"@ || lower_ext == "jpeg"@ || lower_ext == "png"@ || (video && lower_ext
        == "mp4"@)
}

/// A path enters the catalog when its file name has an allowed extension,
/// in any case.
pub open spec fn is_wallpaper(p: Seq<char>, video: bool) -> bool {
    has_extension(name_of(p)) && allowed_extension(lower_of(extension_of(name_of(p))), video)
}

/// Whether a lowercase extension is one the catalog takes.
pub fn is_allowed_extension(lower_ext: &str, video: bool) -> (r: bool)
    ensures
        r == allowed_extension(lower_ext@, video),
{
    str_eq(lower_ext, "jpg") || str_eq(lower_ext, "jpeg") || str_eq(lower_ext, "png") || (video
        && str_eq(lower_ext, "mp4"))
}

/// Whether the file at `p` enters the catalog.
pub fn is_wallpaper_path(p: &str, video: bool) -> (r: bool)
    ensures
        r == is_wallpaper(p@, video),
{
    let name = file_name(p);
    proof {
        lemma_last_index_bounds(name@, '.');
    }
    let ns = name.as_str();
    let len = ns.unicode_len();
    match find_last(ns, '.') {
        Some(d) => {
            if d == 0 {
                return false;
            }
            let ext = substring(ns, d + 1, len);
            let lower = lowercase(ext.as_str());
            is_allowed_extension(lower.as_str(), video)
        },
        None => false,
    }
}

/// `a` comes before `b`, or equals it, in the order of their characters.
pub open spec fn chars_le(a: Seq<char>, b: Seq<char>) -> bool
    decreases a.len(),
{
    if a.len() == 0 {
        true
    } else if b.len() == 0 {
        false
    } else if (a[0] as u32) < (b[0] as u32) {
        true
    } else if (a[0] as u32) > (b[0] as u32) {
        false
    } else {
        chars_le(a.drop_first(), b.drop_first())
    }
}

/// The key the catalog is sorted by: the lowercase file name.
pub open spec fn sort_key(p: Seq<char>) -> Seq<char> {
    lower_of(name_of(p))
}

/// The items are in ascending order of their keys.
pub open spec fn sorted_by_key(s: Seq<Seq<char>>) -> bool {
    forall|i: int, j: int| 0 <= i < j < s.len() ==> chars_le(#[trigger] sort_key(s[i]), #[trigger] sort_key(s[j]))
}

/// The items of `s` whose key is `k`, in order.
pub open spec fn with_key(s: Seq<Seq<char>>, k: Seq<char>) -> Seq<Seq<char>> {
    s.filter(|p: Seq<char>| sort_key(p) == k)
}

proof fn lemma_with_key_none(s: Seq<Seq<char>>, k: Seq<char>)
    requires
        forall|j: int| 0 <= j < s.len() ==> sort_key(#[trigger] s[j]) != k,
    ensures
        with_key(s, k) == Seq::<Seq<char>>::empty(),
{
    let f = with_key(s, k);
    if f.len() > 0 {
        let e = f[0];
        assert(f.contains(e));
        assert(s.contains(e));
        assert(sort_key(e) == k);
    }
    assert(f =~= Seq::<Seq<char>>::empty());
}

proof fn lemma_insert_with_key(old: Seq<Seq<char>>, pos: int, x: Seq<char>, k: Seq<char>)
    requires
        sorted_by_key(old),
        0 <= pos <= old.len(),
        pos < old.len() ==> !chars_le(sort_key(old[pos]), sort_key(x)),
    ensures
        with_key(old.insert(pos, x), k) == if sort_key(x) == k {
            with_key(old, k).push(x)
        } else {
            with_key(old, k)
        },
{
    let a = old.take(pos);
    let b = old.skip(pos);
    assert(old.insert(pos, x) =~= a + seq![x] + b);
    assert(old =~= a + b);
    let pred = |p: Seq<char>| sort_key(p) == k;
    Seq::<Seq<char>>::empty().lemma_filter_push(x, pred);
    assert(seq![x] =~= Seq::<Seq<char>>::empty().push(x));
    reveal(Seq::filter);
    assert(Seq::<Seq<char>>::empty().filter(pred) =~= Seq::<Seq<char>>::empty());
    if sort_key(x) == k {
        assert forall|j: int| 0 <= j < b.len() implies sort_key(#[trigger] b[j]) != k by {
            assert(b[j] == old[pos + j]);
            if sort_key(old[pos + j]) == k {
                if j > 0 {
                    assert(chars_le(sort_key(old[pos]), sort_key(old[pos + j])));
                } else {
                    lemma_chars_le_refl(sort_key(x));
                }
            }
        }
        lemma_with_key_none(b, k);
        assert(with_key(a + seq![x] + b, k) =~= with_key(a, k).push(x));
        assert(with_key(a + b, k) =~= with_key(a, k));
    } else {
        assert(with_key(a + seq![x] + b, k) =~= with_key(a, k) + with_key(b, k));
    }
}

proof fn lemma_chars_le_refl(a: Seq<char>)
    ensures
        chars_le(a, a),
    decreases a.len(),
{
    if a.len() > 0 {
        lemma_chars_le_refl(a.drop_first());
    }
}

proof fn lemma_chars_le_total(a: Seq<char>, b: Seq<char>)
    ensures
        chars_le(a, b) || chars_le(b, a),
    decreases a.len(),
{
    if a.len() > 0 && b.len() > 0 && a[0] as u32 == b[0] as u32 {
        lemma_chars_le_total(a.drop_first(), b.drop_first());
    }
}

proof fn lemma_chars_le_trans(a: Seq<char>, b: Seq<char>, c: Seq<char>)
    requires
        chars_le(a, b),
        chars_le(b, c),
    ensures
        chars_le(a, c),
    decreases a.len(),
{
    if a.len() > 0 && b.len() > 0 && c.len() > 0 && a[0] as u32 == b[0] as u32 && b[0] as u32
        == c[0] as u32 {
        lemma_chars_le_trans(a.drop_first(), b.drop_first(), c.drop_first());
    }
}

/// Whether `a` comes before `b` or equals it.
fn key_le(a: &str, b: &str) -> (r: bool)
    ensures
        r == chars_le(a@, b@),
{
    let n = a.unicode_len();
    let m = b.unicode_len();
    let mut i: usize = 0;
    assert(a@.subrange(0, n as int) =~= a@);
    assert(b@.subrange(0, m as int) =~= b@);
    while i < n && i < m
        invariant
            n == a@.len(),
            m == b@.len(),
            i <= n,
            i <= m,
            chars_le(a@, b@) == chars_le(a@.subrange(i as int, n as int), b@.subrange(
                i as int,
                m as int,
            )),
        decreases n - i,
    {
        let x = a.get_char(i);
        let y = b.get_char(i);
        proof {
            let sa = a@.subrange(i as int, n as int);
            let sb = b@.subrange(i as int, m as int);
            assert(sa[0] == x && sb[0] == y);
            assert(sa.drop_first() =~= a@.subrange(i + 1, n as int));
            assert(sb.drop_first() =~= b@.subrange(i + 1, m as int));
        }
        if (x as u32) < (y as u32) {
            return true;
        }
        if (x as u32) > (y as u32) {
            return false;
        }
        i = i + 1;
    }
    proof {
        let sa = a@.subrange(i as int, n as int);
        let sb = b@.subrange(i as int, m as int);
        assert(sa.len() == 0 || sb.len() == 0);
    }
    i == n
}

/// The paths sorted by lowercase file name; paths with the same key keep
/// their order.
pub fn sort_wallpapers(paths: Vec<String>) -> (r: Vec<String>)
    ensures
        ids(r@).to_multiset() == ids(paths@).to_multiset(),
        sorted_by_key(ids(r@)),
        forall|k: Seq<char>| #[trigger] with_key(ids(r@), k) == with_key(ids(paths@), k),
{
    let mut keyed: Vec<(String, String)> = Vec::new();
    let ghost mut out_ids: Seq<Seq<char>> = Seq::empty();
    let mut k: usize = 0;
    while k < paths.len()
        invariant
            k <= paths@.len(),
            keyed@.len() == out_ids.len(),
            forall|i: int| 0 <= i < keyed@.len() ==> #[trigger] keyed@[i].1@ == out_ids[i],
            forall|i: int| 0 <= i < keyed@.len() ==> #[trigger] keyed@[i].0@ == sort_key(out_ids[i]),
            out_ids.to_multiset() == ids(paths@).take(k as int).to_multiset(),
            sorted_by_key(out_ids),
            forall|key: Seq<char>|
                #[trigger] with_key(out_ids, key) == with_key(ids(paths@).take(k as int), key),
        decreases paths@.len() - k,
    {
        let p = paths[k].clone();
        let name = file_name(p.as_str());
        let key = lowercase(name.as_str());
        let mut pos: usize = 0;
        let mut going = true;
        while going && pos < keyed.len()
            invariant
                pos <= keyed@.len(),
                keyed@.len() == out_ids.len(),
                forall|i: int| 0 <= i < keyed@.len() ==> #[trigger] keyed@[i].1@ == out_ids[i],
                forall|i: int|
                    0 <= i < keyed@.len() ==> #[trigger] keyed@[i].0@ == sort_key(out_ids[i]),
                key@ == sort_key(p@),
                forall|i: int| 0 <= i < pos ==> chars_le(sort_key(#[trigger] out_ids[i]), key@),
                !going ==> pos < keyed@.len() && !chars_le(sort_key(out_ids[pos as int]), key@),
            decreases keyed@.len() - pos + (if going {
                1int
            } else {
                0int
            }),
        {
            if key_le(keyed[pos].0.as_str(), key.as_str()) {
                pos = pos + 1;
            } else {
                going = false;
            }
        }
        let ghost old_ids = out_ids;
        proof {
            let new_ids = old_ids.insert(pos as int, p@);
            assert(ids(paths@).take(k + 1) =~= ids(paths@).take(k as int).push(p@));
            assert forall|i: int, j: int| 0 <= i < j < new_ids.len() implies chars_le(
                #[trigger] sort_key(new_ids[i]),
                #[trigger] sort_key(new_ids[j]),
            ) by {
                if j < pos {
                    assert(new_ids[i] == old_ids[i] && new_ids[j] == old_ids[j]);
                } else if j == pos {
                    assert(new_ids[i] == old_ids[i]);
                } else if i > pos {
                    assert(new_ids[i] == old_ids[i - 1] && new_ids[j] == old_ids[j - 1]);
                } else if i == pos {
                    assert(new_ids[j] == old_ids[j - 1]);
                    lemma_chars_le_total(sort_key(old_ids[pos as int]), key@);
                    if j - 1 > pos {
                        lemma_chars_le_trans(key@, sort_key(old_ids[pos as int]), sort_key(old_ids[j - 1]));
                    }
                } else {
                    assert(new_ids[i] == old_ids[i] && new_ids[j] == old_ids[j - 1]);
                }
            }
            assert forall|kk: Seq<char>| #[trigger]
                with_key(new_ids, kk) == with_key(ids(paths@).take(k + 1), kk) by {
                lemma_insert_with_key(old_ids, pos as int, p@, kk);
                ids(paths@).take(k as int).lemma_filter_push(
                    p@,
                    |q: Seq<char>| sort_key(q) == kk,
                );
            }
            out_ids = new_ids;
        }
        let ghost before = keyed@;
        let ghost pk = p@;
        let ghost kk = key@;
        keyed.insert(pos, (key, p));
        proof {
            assert forall|i: int| 0 <= i < keyed@.len() implies #[trigger] keyed@[i].1@ == out_ids[i]
                && keyed@[i].0@ == sort_key(out_ids[i]) by {
                if i < pos {
                    assert(keyed@[i] == before[i]);
                    assert(out_ids[i] == old_ids[i]);
                } else if i > pos {
                    assert(keyed@[i] == before[i - 1]);
                    assert(out_ids[i] == old_ids[i - 1]);
                } else {
                    assert(out_ids[i] == pk);
                }
            }
        }
        k = k + 1;
    }
    let mut r: Vec<String> = Vec::new();
    let mut i: usize = 0;
    while i < keyed.len()
        invariant
            i <= keyed@.len(),
            keyed@.len() == out_ids.len(),
            forall|i: int| 0 <= i < keyed@.len() ==> #[trigger] keyed@[i].1@ == out_ids[i],
            ids(r@) == out_ids.take(i as int),
        decreases keyed@.len() - i,
    {
        let s = keyed[i].1.clone();
        proof {
            crate::seqs::lemma_ids_push(r@, s);
            assert(out_ids.take(i + 1) =~= out_ids.take(i as int).push(s@));
        }
        r.push(s);
        i = i + 1;
    }
    assert(out_ids.take(i as int) =~= out_ids);
    assert(ids(paths@).take(k as int) =~= ids(paths@));
    r
}

} // verus!
