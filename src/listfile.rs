//! The text form of the history and favorites lists: one path per line,
//! most recent first.
use vstd::prelude::*;
use crate::seqs::{ids, lemma_ids_push};
use crate::text::{chars_of, push_char, pop_char};

verus! {

broadcast use vstd::seq_lib::group_seq_lib_default, vstd::seq::Seq::lemma_filter_push;

/// The pieces of `s` between line feeds, in order (one more than there are
/// line feeds).
pub open spec fn split_lines(s: Seq<char>) -> Seq<Seq<char>>
    decreases s.len(),
{
    if s.len() == 0 {
        seq![Seq::<char>::empty()]
    } else {
        let prev = split_lines(s.drop_last());
        if s.last() == '\n' {
            prev.push(Seq::<char>::empty())
        } else {
            prev.update(prev.len() - 1, prev.last().push(s.last()))
        }
    }
}

/// A line without the carriage return that may end it.
pub open spec fn strip_cr(l: Seq<char>) -> Seq<char> {
    if l.len() > 0 && l.last() == '\r' {
        l.drop_last()
    } else {
        l
    }
}

/// The entries a list file holds: its lines, carriage returns stripped,
/// empty ones left out.
pub open spec fn list_entries(s: Seq<char>) -> Seq<Seq<char>> {
    split_lines(s).map_values(|l: Seq<char>| strip_cr(l)).filter(|l: Seq<char>| l.len() > 0)
}

/// The text of a list: its entries joined by line feeds.
pub open spec fn joined(v: Seq<Seq<char>>) -> Seq<char>
    decreases v.len(),
{
    if v.len() == 0 {
        Seq::empty()
    } else if v.len() == 1 {
        v[0]
    } else {
        joined(v.drop_last()) + seq!['\n'] + v.last()
    }
}

proof fn lemma_entries_push(a: Seq<Seq<char>>, x: Seq<char>)
    ensures
        a.push(x).map_values(|l: Seq<char>| strip_cr(l)).filter(|l: Seq<char>| l.len() > 0) == if strip_cr(
            x,
        ).len() > 0 {
            a.map_values(|l: Seq<char>| strip_cr(l)).filter(|l: Seq<char>| l.len() > 0).push(
                strip_cr(x),
            )
        } else {
            a.map_values(|l: Seq<char>| strip_cr(l)).filter(|l: Seq<char>| l.len() > 0)
        },
{
    let f = |l: Seq<char>| strip_cr(l);
    let p = |l: Seq<char>| l.len() > 0;
    assert(a.push(x).map_values(f) =~= a.map_values(f).push(strip_cr(x)));
    a.map_values(f).lemma_filter_push(strip_cr(x), p);
}

/// Takes the carriage return off the end of `line`, if there is one.
fn strip_line(line: &mut String)
    ensures
        final(line)@ == strip_cr(old(line)@),
{
    let n = line.unicode_len();
    if n > 0 && line.get_char(n - 1) == '\r' {
        pop_char(line);
    }
}

/// The entries of a list file's text.
pub fn parse_list(text: &str) -> (r: Vec<String>)
    ensures
        ids(r@) == list_entries(text@),
{
    let cs = chars_of(text);
    let mut out: Vec<String> = Vec::new();
    let mut cur = String::new();
    let mut i: usize = 0;
    while i < cs.len()
        invariant
            i <= cs@.len(),
            cs@ == text@,
            split_lines(cs@.take(i as int)).len() >= 1,
            cur@ == split_lines(cs@.take(i as int)).last(),
            ids(out@) == split_lines(cs@.take(i as int)).drop_last().map_values(
                |l: Seq<char>| strip_cr(l),
            ).filter(|l: Seq<char>| l.len() > 0),
        decreases cs@.len() - i,
    {
        let c = cs[i];
        let ghost pre = cs@.take(i as int);
        let ghost lines = split_lines(pre);
        proof {
            assert(cs@.take(i + 1).drop_last() =~= pre);
            assert(cs@.take(i + 1).last() == c);
        }
        if c == '\n' {
            proof {
                assert(split_lines(cs@.take(i + 1)).drop_last() =~= lines);
                assert(lines =~= lines.drop_last().push(lines.last()));
                lemma_entries_push(lines.drop_last(), lines.last());
            }
            strip_line(&mut cur);
            if cur.unicode_len() > 0 {
                let done = cur;
                proof {
                    lemma_ids_push(out@, done);
                }
                out.push(done);
            }
            cur = String::new();
        } else {
            proof {
                assert(split_lines(cs@.take(i + 1)).drop_last() =~= lines.drop_last());
            }
            push_char(&mut cur, c);
        }
        i = i + 1;
    }
    let ghost lines = split_lines(cs@.take(i as int));
    proof {
        assert(cs@.take(i as int) =~= text@);
        assert(lines =~= lines.drop_last().push(lines.last()));
        lemma_entries_push(lines.drop_last(), lines.last());
    }
    strip_line(&mut cur);
    if cur.unicode_len() > 0 {
        proof {
            lemma_ids_push(out@, cur);
        }
        out.push(cur);
    }
    out
}

/// The text of a list file: the entries joined by line feeds.
pub fn render_list(list: &Vec<String>) -> (r: String)
    ensures
        r@ == joined(ids(list@)),
{
    let mut out = String::new();
    let mut i: usize = 0;
    while i < list.len()
        invariant
            i <= list@.len(),
            out@ == joined(ids(list@).take(i as int)),
        decreases list@.len() - i,
    {
        proof {
            assert(ids(list@).take(i + 1).drop_last() =~= ids(list@).take(i as int));
            assert(ids(list@).take(i + 1).last() == list@[i as int]@);
        }
        if i == 0 {
            out = list[i].clone();
            proof {
                assert(ids(list@).take(1) =~= seq![list@[0]@]);
            }
        } else {
            out = out.concat("\n");
            out = out.concat(list[i].as_str());
            proof {
                reveal_strlit("\n");
            }
        }
        i = i + 1;
    }
    assert(ids(list@).take(i as int) =~= ids(list@));
    out
}

} // verus!
