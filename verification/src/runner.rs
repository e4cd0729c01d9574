//! Argument pre-parsing: global flags and implicit defaults.
//!
//! Before the command tree dispatches anything, the raw arguments are walked
//! once to pick out the global options, find or insert the `--inkfile`
//! flag, and append the implicit `default` command where no subcommand was
//! named.  Numeric flag values are validated with the same grammar that a
//! float literal uses.

use vstd::prelude::*;
use vstd::string::StringExecFns;
use crate::scan::{find_char, find_char_idx};
use crate::text::{chars_eq, chars_of, matches_at, string_of, sub_chars};

verus! {

/// Model of [`CustomOpts`].
#[verifier::ext_equal]
pub struct OptsModel {
    pub interactive: bool,
    pub preview: bool,
    pub inkfile_opt: Seq<char>,
    pub print_all: bool,
}

/// The global options gathered before dispatch.
#[derive(Debug, Default)]
pub struct CustomOpts {
    /// Prompt for arguments before running.
    pub interactive: bool,
    /// Print the chosen command's source instead of running it.
    pub preview: bool,
    /// The inkfile path that was supplied, or empty.
    pub inkfile_opt: String,
    /// Print the whole merged document and exit.
    pub print_all: bool,
}

impl View for CustomOpts {
    type V = OptsModel;

    open spec fn view(&self) -> OptsModel {
        OptsModel {
            interactive: self.interactive,
            preview: self.preview,
            inkfile_opt: self.inkfile_opt@,
            print_all: self.print_all,
        }
    }
}

/// The options before any argument is seen.
pub open spec fn opts_init() -> OptsModel {
    OptsModel {
        interactive: false,
        preview: false,
        inkfile_opt: Seq::empty(),
        print_all: false,
    }
}

/// Whether `s` ends with `.md`.
pub open spec fn ends_md(s: Seq<char>) -> bool {
    s.len() >= 3 && s.subrange(s.len() - 3, s.len() as int) == ".md"@
}

/// The flags on which parsing stops because the command line is complete.
pub open spec fn early_exit_arg(a: Seq<char>) -> bool {
    a == "-h"@ || a == "--help"@ || a == "-V"@ || a == "--version"@ || a == "--inkjet-print-all"@
        || a == "--inkjet-dynamic-completions"@
}

/// One pass over the arguments from position `i`: returns the options, the
/// possibly extended arguments, the position expecting the inkfile value and
/// the position where the implicit `default` belongs.
pub open spec fn pre_loop(
    args: Seq<Seq<char>>,
    i: int,
    o: OptsModel,
    ink: int,
    defi: int,
) -> (OptsModel, Seq<Seq<char>>, int, int)
    decreases args.len() - i,
{
    if i < 0 || i >= args.len() {
        (o, args, ink, defi)
    } else {
        let a = args[i];
        if i == ink {
            let o2 = OptsModel { inkfile_opt: a, ..o };
            if i == args.len() - 1 {
                (o2, args.insert(i + 1, "default"@), ink, 1000)
            } else {
                pre_loop(args, i + 1, o2, ink, defi)
            }
        } else if a == "-i"@ || a == "--interactive"@ {
            pre_loop(args, i + 1, OptsModel { interactive: true, ..o }, ink, defi)
        } else if matches_at(a, 0, "--inkfile"@) || matches_at(a, 0, "-c"@) {
            match find_char_idx(a, '=', 0) {
                Some(e) => pre_loop(
                    args,
                    i + 1,
                    OptsModel { inkfile_opt: a.skip(e + 1), ..o },
                    999,
                    defi,
                ),
                None => pre_loop(args, i + 1, o, i + 1, defi),
            }
        } else if a == "--preview"@ || a == "-p"@ {
            pre_loop(args, i + 1, OptsModel { preview: true, ..o }, ink, defi)
        } else if a == "--inkjet-print-all"@ {
            (OptsModel { print_all: true, ..o }, args, ink, 1000)
        } else if ends_md(a) && ink == 1000 {
            pre_loop(args, i + 1, OptsModel { inkfile_opt: a, ..o }, i, defi)
        } else if a.len() == 0 || a[0] != '-' || early_exit_arg(a) {
            (o, args, ink, 1000)
        } else if a == "-"@ {
            pre_loop(args, i + 1, o, ink, defi)
        } else {
            (o, args, ink, i)
        }
    }
}

/// What pre-parsing does: a leading markdown filename or `-` becomes an
/// `--inkfile` value, the global flags are gathered, the implicit `default`
/// command is appended where no subcommand was named, and a bare inkfile
/// value gets its `--inkfile` flag inserted in front of it.
pub open spec fn spec_pre_parse(args0: Seq<Seq<char>>) -> (OptsModel, Seq<Seq<char>>) {
    let args1 = if args0.len() > 1 && (args0[1] == "-"@ || (ends_md(args0[1]) && !(args0[1].len()
        > 0 && args0[1][0] == '-'))) {
        args0.insert(1, "--inkfile"@)
    } else {
        args0
    };
    let r = pre_loop(args1, 1, opts_init(), 1000, 0);
    let o = r.0;
    let args2 = r.1;
    let ink = r.2;
    let defi = r.3;
    let args3 = if defi <= args2.len() {
        if defi == 0 {
            args2.push("default"@)
        } else {
            args2.insert(defi, "default"@)
        }
    } else {
        args2
    };
    let args4 = if ink <= args3.len() {
        if !(args3[ink - 1] == "-c"@ || args3[ink - 1] == "--inkfile"@) {
            args3.insert(ink, "--inkfile"@)
        } else {
            args3
        }
    } else {
        args3
    };
    (o, args4)
}

/// Compares an argument against a short literal.
fn arg_is(a: &String, lit: &str) -> (r: bool)
    ensures
        r == (a@ == lit@),
{
    let av = chars_of(a.as_str());
    let lv = chars_of(lit);
    chars_eq(&av, &lv)
}

/// Whether the argument starts with the literal.
fn arg_starts(a: &String, lit: &str) -> (r: bool)
    ensures
        r == matches_at(a@, 0, lit@),
{
    let av = chars_of(a.as_str());
    let lv = chars_of(lit);
    crate::text::has_at(&av, 0, &lv)
}

/// Whether the argument ends with `.md`.
fn arg_ends_md(a: &String) -> (r: bool)
    ensures
        r == ends_md(a@),
{
    let av = chars_of(a.as_str());
    let n = av.len();
    if n >= 3 && av[n - 3] == '.' && av[n - 2] == 'm' && av[n - 1] == 'd' {
        proof {
            reveal_strlit(".md");
            assert(av@.subrange(n - 3, n as int) =~= ".md"@);
        }
        true
    } else {
        proof {
            reveal_strlit(".md");
            if av@.len() >= 3 && av@.subrange(n - 3, n as int) == ".md"@ {
                assert(av@.subrange(n - 3, n as int)[0] == av@[n - 3]);
                assert(av@.subrange(n - 3, n as int)[1] == av@[n - 2]);
                assert(av@.subrange(n - 3, n as int)[2] == av@[n - 1]);
            }
        }
        false
    }
}

/// Converts a path argument to the canonical string form used internally;
/// for text that is already a string this keeps it as it is, as
/// `Path::to_str` does on valid text.
pub fn canonical_path(p: &str) -> (r: String)
    ensures
        r@ == p@,
{
    String::from_str(p)
}

/// Parses global flags and implicit defaults ahead of command dispatch.
#[verifier::rlimit(100)]
pub fn pre_parse(args: Vec<String>) -> (r: (CustomOpts, Vec<String>))
    ensures
        r.0@ == spec_pre_parse(args.deep_view()).0,
        r.1.deep_view() == spec_pre_parse(args.deep_view()).1,
{
    let ghost m0 = args.deep_view();
    let mut a = args;
    let mut opts = CustomOpts {
        interactive: false,
        preview: false,
        inkfile_opt: String::new(),
        print_all: false,
    };
    proof {
        assert(opts@ =~= opts_init());
    }
    if a.len() > 1 && (arg_is(&a[1], "-") || (arg_ends_md(&a[1]) && !arg_starts(&a[1], "-"))) {
        proof {
            reveal_strlit("-");
            assert("-"@ =~= seq!['-']);
            crate::text::lemma_matches_single(m0[1], '-');
        }
        let ghost prev = a.deep_view();
        a.insert(1, String::from_str("--inkfile"));
        proof {
            assert(a.deep_view() =~= prev.insert(1, "--inkfile"@));
        }
    } else {
        proof {
            reveal_strlit("-");
            if m0.len() > 1 {
                assert("-"@ =~= seq!['-']);
            crate::text::lemma_matches_single(m0[1], '-');
            }
        }
    }
    let ghost args1 = a.deep_view();
    let ghost loop_result = pre_loop(args1, 1, opts_init(), 1000, 0);
    let n = a.len();
    let mut i: usize = 1;
    let mut ink: usize = 1000;
    let mut defi: usize = 0;
    let mut broke = false;
    while i < n && !broke
        invariant
            1 <= i,
            i <= n || i == 1,
            1 <= ink,
            n == args1.len(),
            !broke ==> a.deep_view() == args1,
            !broke ==> loop_result == pre_loop(args1, i as int, opts@, ink as int, defi as int),
            broke ==> loop_result == (opts@, a.deep_view(), ink as int, defi as int),
        decreases n - i,
    {
        proof {
            assert(a.deep_view()[i as int] == a@[i as int]@);
        }
        if i == ink {
            opts.inkfile_opt = canonical_path(a[i].as_str());
            if i == n - 1 {
                defi = 1000;
                let ghost prev = a.deep_view();
                a.insert(i + 1, String::from_str("default"));
                proof {
                    assert(a.deep_view() =~= prev.insert(i + 1, "default"@));
                }
                broke = true;
            }
        } else if arg_is(&a[i], "-i") || arg_is(&a[i], "--interactive") {
            opts.interactive = true;
        } else if arg_starts(&a[i], "--inkfile") || arg_starts(&a[i], "-c") {
            let av = chars_of(a[i].as_str());
            match find_char(&av, '=', 0) {
                Some(e) => {
                    let avn = av.len();
                    let part2 = sub_chars(&av, e + 1, avn);
                    proof {
                        assert(part2@ =~= a.deep_view()[i as int].skip(e + 1));
                    }
                    let ps = string_of(&part2);
                    opts.inkfile_opt = canonical_path(ps.as_str());
                    ink = 999;
                },
                None => {
                    ink = i + 1;
                },
            }
        } else if arg_is(&a[i], "--preview") || arg_is(&a[i], "-p") {
            if !opts.preview {
                opts.preview = true;
            }
        } else if arg_is(&a[i], "--inkjet-print-all") {
            opts.print_all = true;
            defi = 1000;
            broke = true;
        } else if arg_ends_md(&a[i]) && ink == 1000 {
            opts.inkfile_opt = canonical_path(a[i].as_str());
            ink = i;
        } else if !arg_starts(&a[i], "-") || arg_is(&a[i], "-h") || arg_is(&a[i], "--help")
            || arg_is(&a[i], "-V") || arg_is(&a[i], "--version") || arg_is(
            &a[i],
            "--inkjet-print-all",
        ) || arg_is(&a[i], "--inkjet-dynamic-completions") {
            proof {
                reveal_strlit("-");
                assert("-"@ =~= seq!['-']);
                crate::text::lemma_matches_single(a.deep_view()[i as int], '-');
            }
            defi = 1000;
            broke = true;
        } else if arg_is(&a[i], "-") {
            proof {
                reveal_strlit("-");
                assert("-"@ =~= seq!['-']);
                crate::text::lemma_matches_single(a.deep_view()[i as int], '-');
            }
        } else {
            proof {
                reveal_strlit("-");
                assert("-"@ =~= seq!['-']);
                crate::text::lemma_matches_single(a.deep_view()[i as int], '-');
            }
            defi = i;
            broke = true;
        }
        i = i + 1;
    }
    proof {
        assert(loop_result == (opts@, a.deep_view(), ink as int, defi as int));
    }
    let alen = a.len();
    if defi <= alen {
        if defi == 0 {
            let ghost prev = a.deep_view();
            a.push(String::from_str("default"));
            proof {
                assert(a.deep_view() =~= prev.push("default"@));
            }
        } else {
            let ghost prev = a.deep_view();
            a.insert(defi, String::from_str("default"));
            proof {
                assert(a.deep_view() =~= prev.insert(defi as int, "default"@));
            }
        }
    }
    let alen2 = a.len();
    if ink <= alen2 {
        let is_flagged = arg_is(&a[ink - 1], "-c") || arg_is(&a[ink - 1], "--inkfile");
        proof {
            assert(a.deep_view()[ink - 1] == a@[ink - 1]@);
        }
        if !is_flagged {
            let ghost prev = a.deep_view();
            a.insert(ink, String::from_str("--inkfile"));
            proof {
                assert(a.deep_view() =~= prev.insert(ink as int, "--inkfile"@));
            }
        }
    }
    (opts, a)
}

/// A digit character.
pub open spec fn is_digit(c: char) -> bool {
    '0' <= c && c <= '9'
}

/// Every character a digit.
pub open spec fn all_digits(s: Seq<char>) -> bool {
    forall|i: int| 0 <= i < s.len() ==> is_digit(#[trigger] s[i])
}

/// The mantissa grammar of a float literal: digits with an optional point
/// and optional fraction digits, or a point with fraction digits.
pub open spec fn mantissa_ok(m: Seq<char>) -> bool {
    match find_char_idx(m, '.', 0) {
        Some(p) => if p == 0 {
            m.len() > 1 && all_digits(m.skip(1))
        } else {
            all_digits(m.take(p)) && all_digits(m.skip(p + 1))
        },
        None => m.len() > 0 && all_digits(m),
    }
}

/// The exponent grammar: an optional sign and at least one digit.
pub open spec fn exponent_ok(e: Seq<char>) -> bool {
    let b = if e.len() > 0 && (e[0] == '+' || e[0] == '-') {
        e.skip(1)
    } else {
        e
    };
    b.len() > 0 && all_digits(b)
}

/// First position holding `e` or `E`.
pub open spec fn find_exp_idx(s: Seq<char>, i: int) -> Option<int>
    decreases s.len() - i,
{
    if i < 0 || i >= s.len() {
        None
    } else if s[i] == 'e' || s[i] == 'E' {
        Some(i)
    } else {
        find_exp_idx(s, i + 1)
    }
}

/// Lowercased ASCII equality against a keyword.
pub open spec fn eq_ci(s: Seq<char>, w: Seq<char>) -> bool {
    s.len() == w.len() && forall|i: int|
        0 <= i < s.len() ==> (#[trigger] s[i]) == w[i] || (s[i] as u32) == (w[i] as u32) - 32
}

/// The grammar a string must match for `f32::from_str` to accept it: an
/// optional sign, then `inf`, `infinity` or `nan` in any case, or a decimal
/// number with an optional exponent.
pub open spec fn is_float_lit(s: Seq<char>) -> bool {
    let b = if s.len() > 0 && (s[0] == '+' || s[0] == '-') {
        s.skip(1)
    } else {
        s
    };
    eq_ci(b, "inf"@) || eq_ci(b, "infinity"@) || eq_ci(b, "nan"@) || (match find_exp_idx(b, 0) {
        Some(k) => mantissa_ok(b.take(k)) && exponent_ok(b.skip(k + 1)),
        None => mantissa_ok(b),
    })
}

/// Checks a character range run for digits.
fn check_digits(v: &Vec<char>, from: usize, to: usize) -> (r: bool)
    requires
        from <= to <= v@.len(),
    ensures
        r == all_digits(v@.subrange(from as int, to as int)),
{
    let mut i: usize = from;
    while i < to
        invariant
            from <= i <= to <= v@.len(),
            forall|j: int| from <= j < i ==> is_digit(#[trigger] v@[j]),
        decreases to - i,
    {
        if !('0' <= v[i] && v[i] <= '9') {
            proof {
                assert(v@.subrange(from as int, to as int)[i - from] == v@[i as int]);
            }
            return false;
        }
        i = i + 1;
    }
    proof {
        assert forall|j: int|
            0 <= j < v@.subrange(from as int, to as int).len() implies is_digit(
            #[trigger] v@.subrange(from as int, to as int)[j],
        ) by {
            assert(v@.subrange(from as int, to as int)[j] == v@[from + j]);
        }
    }
    true
}

/// Compares a fragment case-insensitively against a lowercase keyword.
fn check_ci(v: &Vec<char>, from: usize, lit: &str) -> (r: bool)
    requires
        from <= v@.len(),
    ensures
        r == eq_ci(v@.skip(from as int), lit@),
{
    let lv = chars_of(lit);
    let ghost sv = v@.skip(from as int);
    let vn = v.len();
    if vn - from != lv.len() {
        return false;
    }
    let mut i: usize = 0;
    while i < lv.len()
        invariant
            0 <= i <= lv@.len(),
            lv@ == lit@,
            from + lv@.len() == vn,
            vn == v@.len(),
            sv == v@.skip(from as int),
            sv.len() == lv@.len(),
            forall|j: int|
                0 <= j < i ==> (#[trigger] sv[j]) == lv@[j] || (sv[j] as u32) == (lv@[j] as u32)
                    - 32,
        decreases lv@.len() - i,
    {
        proof {
            assert(sv[i as int] == v@[from + i]);
        }
        let c = v[from + i];
        let l = lv[i];
        if !(c == l || ((l as u32) >= 32 && (c as u32) == (l as u32) - 32)) {
            proof {
                assert(sv[i as int] == c);
                assert(lit@[i as int] == l);
                assert(!((c as u32) == (l as u32) - 32));
                assert(!(sv[i as int] == lit@[i as int] || (sv[i as int] as u32) == (lit@[
                i as int] as u32) - 32));
            }
            return false;
        }
        i = i + 1;
    }
    true
}

/// Checks a fragment against the mantissa grammar.
fn mantissa_check(m: &Vec<char>) -> (r: bool)
    ensures
        r == mantissa_ok(m@),
{
    let n = m.len();
    match find_char(m, '.', 0) {
        Some(p) => {
            if p == 0 {
                proof {
                    assert(m@.skip(1) =~= m@.subrange(1, n as int));
                }
                m.len() > 1 && check_digits(m, 1, n)
            } else {
                proof {
                    assert(m@.take(p as int) =~= m@.subrange(0, p as int));
                    assert(m@.skip(p + 1 as int) =~= m@.subrange(p + 1 as int, n as int));
                }
                check_digits(m, 0, p) && check_digits(m, p + 1, n)
            }
        },
        None => {
            proof {
                assert(m@ =~= m@.subrange(0, n as int));
            }
            m.len() > 0 && check_digits(m, 0, n)
        },
    }
}

/// Checks a fragment against the exponent grammar.
fn exponent_check(e: &Vec<char>) -> (r: bool)
    ensures
        r == exponent_ok(e@),
{
    let n = e.len();
    let es: usize = if n > 0 && (e[0] == '+' || e[0] == '-') {
        1
    } else {
        0
    };
    proof {
        if es == 1 {
            assert(e@.skip(1) =~= e@.subrange(1, n as int));
        } else {
            assert(e@ =~= e@.subrange(0, n as int));
        }
    }
    es < n && check_digits(e, es, n)
}

/// Returns true if the flag is numeric and the supplied value does not
/// parse as a number: neither an integer nor a float literal accepts it.
pub fn is_invalid_number(is_num: bool, raw_value: &str) -> (r: bool)
    ensures
        r == (is_num && raw_value@.len() > 0 && !is_float_lit(raw_value@)),
{
    if !is_num {
        return false;
    }
    let v = chars_of(raw_value);
    if v.len() == 0 {
        return false;
    }
    let vn = v.len();
    let start: usize = if v[0] == '+' || v[0] == '-' {
        1
    } else {
        0
    };
    let bv = sub_chars(&v, start, vn);
    proof {
        if start == 1 {
            assert(bv@ =~= raw_value@.skip(1));
        } else {
            assert(bv@ =~= raw_value@);
        }
    }
    if check_ci(&bv, 0, "inf") || check_ci(&bv, 0, "infinity") || check_ci(&bv, 0, "nan") {
        proof {
            assert(bv@.skip(0) =~= bv@);
        }
        return false;
    }
    proof {
        assert(bv@.skip(0) =~= bv@);
    }
    let bn = bv.len();
    let mut k: usize = 0;
    while k < bn && !(bv[k] == 'e' || bv[k] == 'E')
        invariant
            0 <= k <= bn,
            bn == bv@.len(),
            find_exp_idx(bv@, 0) == find_exp_idx(bv@, k as int),
        decreases bn - k,
    {
        k = k + 1;
    }
    let ok: bool = if k < bn {
        proof {
            assert(find_exp_idx(bv@, 0) == Some(k as int));
        }
        let mv = sub_chars(&bv, 0, k);
        let ev = sub_chars(&bv, k + 1, bn);
        proof {
            assert(mv@ =~= bv@.take(k as int));
            assert(ev@ =~= bv@.skip(k + 1 as int));
        }
        let mok = mantissa_check(&mv);
        let eok = exponent_check(&ev);
        mok && eok
    } else {
        proof {
            assert(find_exp_idx(bv@, 0) is None);
        }
        mantissa_check(&bv)
    };
    !ok
}

/// The message for a flag value that should be numerical but is not.
pub fn not_number_err_msg(name: &str) -> (r: String)
    ensures
        r@ == "flag `"@ + name@ + "` expects a numerical value"@,
{
    let mut r = String::from_str("flag `");
    r.append(name);
    r.append("` expects a numerical value");
    r
}

} // verus!
