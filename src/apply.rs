//! The argument lists handed to the programs that apply a chosen wallpaper.
use vstd::prelude::*;
use crate::config::{Config, Session};
use crate::text::{chars_of, push_char};

verus! {

/// `s` with each occurrence of the non-empty `pat`, taken from left to right
/// without overlap, replaced by `rep`.
pub open spec fn replaced(s: Seq<char>, pat: Seq<char>, rep: Seq<char>) -> Seq<char>
    decreases s.len(),
{
    if pat.len() == 0 || s.len() < pat.len() {
        s
    } else if s.take(pat.len() as int) == pat {
        rep + replaced(s.skip(pat.len() as int), pat, rep)
    } else {
        seq![s[0]] + replaced(s.skip(1), pat, rep)
    }
}

/// The transition a setting names, `fade` when it is empty.
pub open spec fn transition_or_default(t: Seq<char>) -> Seq<char> {
    if t.len() == 0 {
        "fade"@
    } else {
        t
    }
}

/// An argument with `{path}` and then `{transition}` filled in.
pub open spec fn expanded(arg: Seq<char>, path: Seq<char>, transition: Seq<char>) -> Seq<char> {
    replaced(replaced(arg, "{path}"@, path), "{transition}"@, transition_or_default(transition))
}

fn matches_at(s: &Vec<char>, i: usize, pat: &Vec<char>) -> (r: bool)
    requires
        i + pat@.len() <= s@.len(),
    ensures
        r == (s@.subrange(i as int, i + pat@.len()) == pat@),
{
    let n = s.len();
    let mut j: usize = 0;
    while j < pat.len()
        invariant
            n == s@.len(),
            i + pat@.len() <= s@.len(),
            j <= pat@.len(),
            forall|t: int| 0 <= t < j ==> s@[i + t] == pat@[t],
        decreases pat@.len() - j,
    {
        if s[i + j] != pat[j] {
            assert(s@.subrange(i as int, i + pat@.len())[j as int] != pat@[j as int]);
            return false;
        }
        j = j + 1;
    }
    assert(s@.subrange(i as int, i + pat@.len()) =~= pat@);
    true
}

proof fn lemma_replaced_step(s: Seq<char>, i: int, pat: Seq<char>, rep: Seq<char>)
    requires
        pat.len() > 0,
        0 <= i <= s.len(),
    ensures
        i + pat.len() > s.len() ==> replaced(s.skip(i), pat, rep) == s.skip(i),
        i + pat.len() <= s.len() && s.subrange(i, i + pat.len()) == pat ==> replaced(s.skip(i), pat, rep)
            == rep + replaced(s.skip(i + pat.len()), pat, rep),
        i + pat.len() <= s.len() && s.subrange(i, i + pat.len()) != pat ==> replaced(s.skip(i), pat, rep)
            == seq![s[i]] + replaced(s.skip(i + 1), pat, rep),
{
    let t = s.skip(i);
    if i + pat.len() <= s.len() {
        assert(t.take(pat.len() as int) =~= s.subrange(i, i + pat.len()));
        assert(t.skip(pat.len() as int) =~= s.skip(i + pat.len()));
        assert(t.skip(1) =~= s.skip(i + 1));
        assert(t[0] == s[i]);
    }
}

/// `s` with every `pat` replaced by `rep`.
pub fn replace_all(s: &str, pat: &str, rep: &str) -> (r: String)
    requires
        pat@.len() > 0,
    ensures
        r@ == replaced(s@, pat@, rep@),
{
    let cs = chars_of(s);
    let ps = chars_of(pat);
    let rs = chars_of(rep);
    let mut out = String::new();
    let mut i: usize = 0;
    assert(s@.skip(0) =~= s@);
    assert(out@ + s@ =~= s@);
    while i < cs.len()
        invariant
            cs@ == s@,
            ps@ == pat@,
            rs@ == rep@,
            ps@.len() > 0,
            i <= cs@.len(),
            replaced(s@, pat@, rep@) == out@ + replaced(s@.skip(i as int), pat@, rep@),
        decreases cs@.len() - i,
    {
        proof {
            lemma_replaced_step(s@, i as int, pat@, rep@);
        }
        if ps.len() <= cs.len() - i && matches_at(&cs, i, &ps) {
            let ghost before = out@;
            let mut k: usize = 0;
            while k < rs.len()
                invariant
                    rs@ == rep@,
                    k <= rs@.len(),
                    out@ == before + rep@.take(k as int),
                decreases rs@.len() - k,
            {
                push_char(&mut out, rs[k]);
                proof {
                    assert(rep@.take(k + 1) =~= rep@.take(k as int).push(rs@[k as int]));
                    assert(before + rep@.take(k + 1) =~= (before + rep@.take(k as int)).push(
                        rs@[k as int],
                    ));
                }
                k = k + 1;
            }
            proof {
                assert(rep@.take(k as int) =~= rep@);
                assert((before + rep@) + replaced(s@.skip(i + ps@.len()), pat@, rep@) =~= before + (
                rep@ + replaced(s@.skip(i + ps@.len()), pat@, rep@)));
            }
            i = i + ps.len();
        } else {
            let ghost before = out@;
            push_char(&mut out, cs[i]);
            proof {
                if i + pat@.len() > s@.len() {
                    assert(replaced(s@.skip(i as int), pat@, rep@) == s@.skip(i as int));
                    lemma_rest_unchanged(s@, i as int, pat@, rep@);
                }
                assert(before.push(cs@[i as int]) + replaced(s@.skip(i + 1), pat@, rep@) =~= before
                    + (seq![s@[i as int]] + replaced(s@.skip(i + 1), pat@, rep@)));
            }
            i = i + 1;
        }
    }
    proof {
        assert(s@.skip(i as int) =~= Seq::<char>::empty());
        assert(out@ + Seq::<char>::empty() =~= out@);
    }
    out
}

proof fn lemma_rest_unchanged(s: Seq<char>, i: int, pat: Seq<char>, rep: Seq<char>)
    requires
        pat.len() > 0,
        0 <= i < s.len(),
        i + pat.len() > s.len(),
    ensures
        replaced(s.skip(i), pat, rep) == seq![s[i]] + replaced(s.skip(i + 1), pat, rep),
{
    lemma_replaced_step(s, i + 1, pat, rep);
    assert(s.skip(i) =~= seq![s[i]] + s.skip(i + 1));
}

/// Each argument with `{path}` and `{transition}` filled in; an empty
/// transition stands for `fade`.
pub fn expand_args(args: &Vec<String>, path: &str, transition: &str) -> (r: Vec<String>)
    ensures
        r@.len() == args@.len(),
        forall|i: int|
            0 <= i < args@.len() ==> #[trigger] r@[i]@ == expanded(args@[i]@, path@, transition@),
{
    let t = if transition.unicode_len() == 0 {
        String::from_str("fade")
    } else {
        String::from_str(transition)
    };
    let mut out: Vec<String> = Vec::new();
    let mut i: usize = 0;
    while i < args.len()
        invariant
            i <= args@.len(),
            t@ == transition_or_default(transition@),
            out@.len() == i,
            forall|j: int|
                0 <= j < i ==> #[trigger] out@[j]@ == expanded(args@[j]@, path@, transition@),
        decreases args@.len() - i,
    {
        proof {
            reveal_strlit("{path}");
            reveal_strlit("{transition}");
        }
        let with_path = replace_all(args[i].as_str(), "{path}", path);
        let full = replace_all(with_path.as_str(), "{transition}", t.as_str());
        out.push(full);
        i = i + 1;
    }
    out
}

/// One program to run, with its arguments; `quiet` programs run with their
/// output discarded.
#[derive(Clone, Debug)]
pub struct CommandLine {
    pub program: String,
    pub args: Vec<String>,
    pub quiet: bool,
}

/// The arguments all filled in for `path` and `transition`.
pub open spec fn all_expanded(
    r: Seq<String>,
    args: Seq<String>,
    path: Seq<char>,
    transition: Seq<char>,
) -> bool {
    &&& r.len() == args.len()
    &&& forall|i: int| 0 <= i < args.len() ==> #[trigger] r[i]@ == expanded(args[i]@, path, transition)
}

/// The programs that apply the wallpaper at `path`, in order: `wal` and
/// `hellwal` when color generation asks for them (both with the `wal`
/// arguments, quietly), then `swww` in a Wayland session or `feh` in an X11
/// one.
pub fn apply_commands(config: &Config, path: &str) -> (r: Vec<CommandLine>)
    ensures
        r@.len() == (if config.pywal { 1int } else { 0 }) + (if config.hellwal { 1int } else { 0 }) + 1,
        config.pywal ==> r@[0].program@ == "wal"@ && r@[0].quiet && all_expanded(
            r@[0].args@,
            config.commands.wal@,
            path@,
            config.transition_type@,
        ),
        config.hellwal ==> ({
            let k = if config.pywal { 1int } else { 0 };
            r@[k].program@ == "hellwal"@ && r@[k].quiet && all_expanded(
                r@[k].args@,
                config.commands.wal@,
                path@,
                config.transition_type@,
            )
        }),
        ({
            let last = r@[r@.len() - 1];
            &&& !last.quiet
            &&& config.session == Session::Wayland ==> last.program@ == "swww"@ && all_expanded(
                last.args@,
                config.commands.swww@,
                path@,
                config.transition_type@,
            )
            &&& config.session == Session::X11 ==> last.program@ == "feh"@ && all_expanded(
                last.args@,
                config.commands.feh@,
                path@,
                config.transition_type@,
            )
        }),
{
    let t = config.transition_type.as_str();
    let mut out: Vec<CommandLine> = Vec::new();
    if config.pywal {
        out.push(
            CommandLine {
                program: String::from_str("wal"),
                args: expand_args(&config.commands.wal, path, t),
                quiet: true,
            },
        );
    }
    if config.hellwal {
        out.push(
            CommandLine {
                program: String::from_str("hellwal"),
                args: expand_args(&config.commands.wal, path, t),
                quiet: true,
            },
        );
    }
    let setter = match config.session {
        Session::Wayland => CommandLine {
            program: String::from_str("swww"),
            args: expand_args(&config.commands.swww, path, t),
            quiet: false,
        },
        Session::X11 => CommandLine {
            program: String::from_str("feh"),
            args: expand_args(&config.commands.feh, path, t),
            quiet: false,
        },
    };
    out.push(setter);
    out
}

} // verus!
