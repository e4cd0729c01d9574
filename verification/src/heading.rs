//! The heading micro-grammar: command names, aliases and positional args.
//!
//! A heading's text carries the command name, `//`-separated aliases and
//! parenthesized positional arguments.  A trailing ` -- (name)` segment adds
//! one capture-everything argument.  Deeper headings repeat the parent chain
//! by convention, so their leading words are dropped.

use vstd::prelude::*;
use crate::command::{Arg, ArgModel};
use crate::scan::{find_char, find_char_idx};
use crate::text::{
    find_sub, find_sub_idx, join_spaced, join_with_spaces, lower_chars, lower_of,
    spec_trim, spec_remove_all, spec_words, split_ws, string_of, sub_chars, remove_all,
    trim_chars,
};

verus! {

/// An argument model fresh out of the heading parser: no value yet and no
/// trailing-capture mark.
pub open spec fn arg_model(
    name: Seq<char>,
    required: bool,
    default: Option<Seq<char>>,
    multiple: bool,
) -> ArgModel {
    ArgModel {
        name: name,
        val: Seq::empty(),
        required: required,
        default: default,
        multiple: multiple,
        last: false,
    }
}

/// Whether `s` ends with the three-dot ellipsis.
pub open spec fn ends_dots(s: Seq<char>) -> bool {
    s.len() >= 3 && s.subrange(s.len() - 3, s.len() as int) == seq!['.', '.', '.']
}

/// What one parenthesized token means: a trailing `?` makes the argument
/// optional, an ellipsis makes it variadic, `=value` gives it a default, and
/// otherwise it is required; the name is lowercased.
pub open spec fn spec_parse_arg(s: Seq<char>) -> ArgModel {
    if s.len() > 0 && s.last() == '?' {
        let base = s.drop_last();
        if base.len() > 0 && base.last() == '\u{2026}' {
            arg_model(lower_of(base.drop_last()), false, None, true)
        } else if ends_dots(base) {
            arg_model(lower_of(base.take(base.len() - 3)), false, None, true)
        } else {
            arg_model(lower_of(base), false, None, false)
        }
    } else if find_char_idx(s, '=', 0) is Some {
        let i = find_char_idx(s, '=', 0)->Some_0;
        arg_model(lower_of(s.take(i)), false, Some(s.skip(i + 1)), false)
    } else if s.len() > 0 && s.last() == '\u{2026}' {
        arg_model(lower_of(s.drop_last()), true, None, true)
    } else if ends_dots(s) {
        arg_model(lower_of(s.take(s.len() - 3)), true, None, true)
    } else {
        arg_model(lower_of(s), true, None, false)
    }
}

/// Decides whether `v` ends with the three-dot ellipsis.
fn has_dots_suffix(v: &Vec<char>) -> (r: bool)
    ensures
        r == ends_dots(v@),
{
    if v.len() >= 3 && v[v.len() - 3] == '.' && v[v.len() - 2] == '.' && v[v.len() - 1] == '.' {
        proof {
            assert(v@.subrange(v@.len() - 3, v@.len() as int) =~= seq!['.', '.', '.']);
        }
        true
    } else {
        proof {
            if v@.len() >= 3 {
                if v@.subrange(v@.len() - 3, v@.len() as int) == seq!['.', '.', '.'] {
                    assert(v@.subrange(v@.len() - 3, v@.len() as int)[0] == v@[v@.len() - 3]);
                    assert(v@.subrange(v@.len() - 3, v@.len() as int)[1] == v@[v@.len() - 2]);
                    assert(v@.subrange(v@.len() - 3, v@.len() as int)[2] == v@[v@.len() - 1]);
                }
            }
        }
        false
    }
}

/// Builds an [`Arg`] with the given pieces, converting to strings.
fn make_arg(name: &Vec<char>, required: bool, default: Option<Vec<char>>, multiple: bool) -> (r:
    Arg)
    ensures
        r@ == arg_model(
            name@,
            required,
            match default {
                Some(d) => Some(d@),
                None => None,
            },
            multiple,
        ),
{
    let n = string_of(name);
    let d = match default {
        Some(dv) => Some(string_of(&dv)),
        None => None,
    };
    Arg::new(n, required, d, multiple)
}

/// Parses one parenthesized heading token into an argument.
pub fn parse_arg(arg_str: &Vec<char>) -> (r: Arg)
    ensures
        r@ == spec_parse_arg(arg_str@),
{
    let n = arg_str.len();
    if n > 0 && arg_str[n - 1] == '?' {
        let base = sub_chars(arg_str, 0, n - 1);
        proof {
            assert(base@ =~= arg_str@.drop_last());
        }
        let b = base.len();
        if b > 0 && base[b - 1] == '\u{2026}' {
            let core_part = sub_chars(&base, 0, b - 1);
            proof {
                assert(core_part@ =~= base@.drop_last());
            }
            let low = lower_chars(&core_part);
            make_arg(&low, false, None, true)
        } else if has_dots_suffix(&base) {
            let core_part = sub_chars(&base, 0, b - 3);
            proof {
                assert(core_part@ =~= base@.take(base@.len() - 3));
            }
            let low = lower_chars(&core_part);
            make_arg(&low, false, None, true)
        } else {
            let low = lower_chars(&base);
            make_arg(&low, false, None, false)
        }
    } else if let Some(i) = find_char(arg_str, '=', 0) {
        let before = sub_chars(arg_str, 0, i);
        let after = sub_chars(arg_str, i + 1, n);
        proof {
            assert(before@ =~= arg_str@.take(i as int));
            assert(after@ =~= arg_str@.skip(i + 1 as int));
        }
        let low = lower_chars(&before);
        make_arg(&low, false, Some(after), false)
    } else if n > 0 && arg_str[n - 1] == '\u{2026}' {
        let core_part = sub_chars(arg_str, 0, n - 1);
        proof {
            assert(core_part@ =~= arg_str@.drop_last());
        }
        let low = lower_chars(&core_part);
        make_arg(&low, true, None, true)
    } else if has_dots_suffix(arg_str) {
        let core_part = sub_chars(arg_str, 0, n - 3);
        proof {
            assert(core_part@ =~= arg_str@.take(arg_str@.len() - 3));
        }
        let low = lower_chars(&core_part);
        make_arg(&low, true, None, true)
    } else {
        let low = lower_chars(arg_str);
        make_arg(&low, true, None, false)
    }
}

/// First position at or after `i` holding a parenthesis.
pub open spec fn find_paren_idx(s: Seq<char>, i: int) -> Option<int>
    decreases s.len() - i,
{
    if i < 0 || i >= s.len() {
        None
    } else if s[i] == '(' || s[i] == ')' {
        Some(i)
    } else {
        find_paren_idx(s, i + 1)
    }
}

/// Finds the first parenthesis at or after `from`.
fn find_paren(v: &Vec<char>, from: usize) -> (r: Option<usize>)
    requires
        from <= v@.len(),
    ensures
        match r {
            Some(k) => find_paren_idx(v@, from as int) == Some(k as int) && from <= k < v@.len(),
            None => find_paren_idx(v@, from as int) is None,
        },
{
    let mut i: usize = from;
    while i < v.len() && !(v[i] == '(' || v[i] == ')')
        invariant
            from <= i <= v@.len(),
            find_paren_idx(v@, from as int) == find_paren_idx(v@, i as int),
        decreases v@.len() - i,
    {
        i = i + 1;
    }
    if i < v.len() {
        Some(i)
    } else {
        None
    }
}

/// The trailing-capture pattern: the first position where ` -- (` is
/// followed by at least one non-parenthesis character and a closing
/// parenthesis; the result bounds the captured name.
pub open spec fn find_capture(t: Seq<char>, i: int) -> Option<(int, int)>
    decreases t.len() - i,
    when 0 <= i
{
    if i + 4 > t.len() {
        None
    } else if t.subrange(i, i + 4) == seq!['-', '-', ' ', '('] {
        match find_char_idx(t, ')', i + 4) {
            Some(j) => if j > i + 4 {
                Some((i + 4, j))
            } else {
                find_capture(t, i + 1)
            },
            None => find_capture(t, i + 1),
        }
    } else {
        find_capture(t, i + 1)
    }
}

/// Finds the trailing-capture pattern in the heading text.
fn find_capture_x(t: &Vec<char>, from: usize) -> (r: Option<(usize, usize)>)
    requires
        from <= t@.len(),
    ensures
        match r {
            Some((a, b)) => find_capture(t@, from as int) == Some((a as int, b as int)) && a <= b
                <= t@.len(),
            None => find_capture(t@, from as int) is None,
        },
{
    let n = t.len();
    let mut pat: Vec<char> = Vec::new();
    pat.push('-');
    pat.push('-');
    pat.push(' ');
    pat.push('(');
    proof {
        assert(pat@ =~= seq!['-', '-', ' ', '(']);
    }
    let mut i: usize = from;
    loop
        invariant
            from <= i <= t@.len() + 1,
            n == t@.len(),
            pat@ == seq!['-', '-', ' ', '('],
            find_capture(t@, from as int) == find_capture(t@, i as int),
        ensures
            find_capture(t@, from as int) is None,
        decreases t@.len() + 4 - i,
    {
        if i >= n || n - i < 4 {
            proof {
                assert(i + 4 > t@.len());
                assert(find_capture(t@, i as int) is None);
            }
            break ;
        }
        if crate::text::has_at(t, i, &pat) {
            proof {
                assert(t@.subrange(i as int, i + 4) =~= t@.subrange(i as int, i + pat@.len()));
                crate::scan::lemma_find_char_idx(t@, ')', i + 4);
            }
            match find_char(t, ')', i + 4) {
                Some(j) => {
                    if j > i + 4 {
                        proof {
                            assert(find_capture(t@, i as int) == Some((i + 4 as int, j as int)));
                        }
                        return Some((i + 4, j));
                    }
                },
                None => {},
            }
            i = i + 1;
        } else {
            proof {
                assert(t@.subrange(i as int, i + 4) =~= t@.subrange(i as int, i + pat@.len()));
            }
            i = i + 1;
        }
    }
    None
}

/// The parts of a heading: the document title keeps its first word, depth
/// two keeps everything, deeper levels drop the words repeating the parent
/// chain.
pub open spec fn spec_name_source(level: int, main: Seq<char>) -> Seq<char> {
    if level > 2 {
        let ws = spec_words(main);
        let k = if level - 2 <= ws.len() {
            level - 2
        } else {
            ws.len() as int
        };
        join_spaced(ws.skip(k))
    } else if level == 1 {
        let ws = spec_words(main);
        if ws.len() == 0 {
            Seq::empty()
        } else {
            ws[0]
        }
    } else {
        main
    }
}

/// What the heading parser returns: the lowercased name, the lowercased
/// alias text after the first `//`, and the positional arguments read from
/// the parenthesized tokens, with the trailing capture appended when the
/// ` -- (name)` pattern occurs.
pub open spec fn spec_parse_heading(level: int, t: Seq<char>) -> (Seq<char>, Seq<char>, Seq<
    ArgModel,
>) {
    let main = match find_sub_idx(t, seq![' ', '-', '-', ' '], 0) {
        Some(i) => t.take(i),
        None => t,
    };
    let name_src = spec_name_source(level, main);
    let name_part = match find_paren_idx(name_src, 0) {
        Some(i) => name_src.take(i),
        None => name_src,
    };
    let args_chars = match find_paren_idx(name_src, 0) {
        Some(i) => spec_remove_all(spec_remove_all(name_src.skip(i), seq!['(']), seq![')']),
        None => Seq::empty(),
    };
    let nm = spec_trim(name_part);
    let name = match find_sub_idx(nm, seq!['/', '/'], 0) {
        Some(i) => lower_of(nm.take(i)),
        None => lower_of(nm),
    };
    let alias = match find_sub_idx(nm, seq!['/', '/'], 0) {
        Some(i) => lower_of(nm.skip(i + 2)),
        None => Seq::empty(),
    };
    let wargs = spec_words(args_chars);
    let args0 = Seq::new(
        wargs.len(),
        |i: int|
            if 0 <= i < wargs.len() {
                spec_parse_arg(wargs[i])
            } else {
                arbitrary()
            },
    );
    let args = match find_capture(t, 0) {
        Some((a, b)) => args0.push(
            ArgModel { last: true, ..spec_parse_arg(t.subrange(a, b)) },
        ),
        None => args0,
    };
    (name, alias, args)
}

/// Parses a heading's text into its name, alias text and positional args.
pub fn parse_heading_to_cmd(heading_level: u8, text: &Vec<char>) -> (r: (String, String, Vec<
    Arg,
>))
    ensures
        r.0@ == spec_parse_heading(heading_level as int, text@).0,
        r.1@ == spec_parse_heading(heading_level as int, text@).1,
        r.2.deep_view() == spec_parse_heading(heading_level as int, text@).2,
{
    let ghost lvl = heading_level as int;
    let mut sep: Vec<char> = Vec::new();
    sep.push(' ');
    sep.push('-');
    sep.push('-');
    sep.push(' ');
    proof {
        assert(sep@ =~= seq![' ', '-', '-', ' ']);
    }
    let main = match find_sub(text, &sep, 0) {
        Some(i) => {
            let m = sub_chars(text, 0, i);
            proof {
                crate::text::lemma_find_sub_idx(text@, sep@, 0);
                assert(m@ =~= text@.take(i as int));
            }
            m
        },
        None => sub_chars(text, 0, text.len()),
    };
    proof {
        assert(text@.subrange(0, text@.len() as int) =~= text@);
    }
    let name_src: Vec<char> = if heading_level > 2 {
        let ws = split_ws(&main);
        let k: usize = if (heading_level - 2) as usize <= ws.len() {
            (heading_level - 2) as usize
        } else {
            ws.len()
        };
        let mut tail: Vec<Vec<char>> = Vec::new();
        let mut j: usize = k;
        while j < ws.len()
            invariant
                k <= j <= ws@.len(),
                tail.deep_view() =~= ws.deep_view().subrange(k as int, j as int),
            decreases ws@.len() - j,
        {
            let ghost prev = tail.deep_view();
            let w = sub_chars(&ws[j], 0, ws[j].len());
            proof {
                assert(w@ =~= ws@[j as int]@);
                assert(ws@[j as int]@ == ws.deep_view()[j as int]);
            }
            tail.push(w);
            proof {
                assert(tail.deep_view() =~= prev.push(w@));
                assert(tail.deep_view() =~= ws.deep_view().subrange(k as int, j + 1 as int));
            }
            j = j + 1;
        }
        proof {
            assert(tail.deep_view() =~= ws.deep_view().skip(k as int));
        }
        join_with_spaces(&tail)
    } else if heading_level == 1 {
        let ws = split_ws(&main);
        if ws.len() == 0 {
            Vec::new()
        } else {
            let w = sub_chars(&ws[0], 0, ws[0].len());
            proof {
                assert(w@ =~= ws@[0]@);
                assert(ws@[0]@ == ws.deep_view()[0]);
            }
            w
        }
    } else {
        main
    };
    proof {
        assert(name_src@ == spec_name_source(lvl, match find_sub_idx(
            text@,
            seq![' ', '-', '-', ' '],
            0,
        ) {
            Some(i) => text@.take(i),
            None => text@,
        }));
    }
    let (name_part, args_chars): (Vec<char>, Vec<char>) = match find_paren(&name_src, 0) {
        Some(i) => {
            let np = sub_chars(&name_src, 0, i);
            let rest = sub_chars(&name_src, i, name_src.len());
            proof {
                assert(np@ =~= name_src@.take(i as int));
                assert(rest@ =~= name_src@.skip(i as int));
            }
            let mut op: Vec<char> = Vec::new();
            op.push('(');
            let mut cp: Vec<char> = Vec::new();
            cp.push(')');
            proof {
                assert(op@ =~= seq!['(']);
                assert(cp@ =~= seq![')']);
            }
            let r1 = remove_all(&rest, &op);
            let r2 = remove_all(&r1, &cp);
            (np, r2)
        },
        None => (name_src, Vec::new()),
    };
    let nm = trim_chars(&name_part);
    let mut slashes: Vec<char> = Vec::new();
    slashes.push('/');
    slashes.push('/');
    proof {
        assert(slashes@ =~= seq!['/', '/']);
    }
    let (name_s, alias_s): (String, String) = match find_sub(&nm, &slashes, 0) {
        Some(i) => {
            proof {
                crate::text::lemma_find_sub_idx(nm@, slashes@, 0);
            }
            let nmlen = nm.len();
            proof {
                assert(nm@.len() == nmlen as int);
            }
            let before = sub_chars(&nm, 0, i);
            let after = sub_chars(&nm, i + 2, nmlen);
            proof {
                assert(before@ =~= nm@.take(i as int));
                assert(after@ =~= nm@.skip(i + 2 as int));
            }
            let lb = lower_chars(&before);
            let la = lower_chars(&after);
            (string_of(&lb), string_of(&la))
        },
        None => {
            let lb = lower_chars(&nm);
            (string_of(&lb), String::new())
        },
    };
    let wargs = split_ws(&args_chars);
    let mut out_args: Vec<Arg> = Vec::new();
    let mut i: usize = 0;
    let ghost wmodels = spec_words(args_chars@);
    while i < wargs.len()
        invariant
            0 <= i <= wargs@.len(),
            wargs.deep_view() == wmodels,
            out_args.deep_view().len() == i,
            forall|j: int| #![auto] 0 <= j < i ==> out_args.deep_view()[j] == spec_parse_arg(
                wmodels[j],
            ),
        decreases wargs@.len() - i,
    {
        let ghost prev = out_args.deep_view();
        let a = parse_arg(&wargs[i]);
        proof {
            assert(wargs@[i as int]@ == wargs.deep_view()[i as int]);
        }
        out_args.push(a);
        proof {
            assert(out_args.deep_view() =~= prev.push(a@));
        }
        i = i + 1;
    }
    let out_args2 = match find_capture_x(text, 0) {
        Some((a, b)) => {
            let cap = sub_chars(text, a, b);
            proof {
                assert(cap@ =~= text@.subrange(a as int, b as int));
            }
            let ghost prev = out_args.deep_view();
            let mut parsed = parse_arg(&cap);
            parsed.last = true;
            let mut oa = out_args;
            oa.push(parsed);
            proof {
                assert(oa.deep_view() =~= prev.push(parsed@));
            }
            oa
        },
        None => out_args,
    };
    proof {
        assert(out_args2.deep_view() =~= spec_parse_heading(lvl, text@).2);
    }
    (name_s, alias_s, out_args2)
}

} // verus!
