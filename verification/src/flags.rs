//! The OPTIONS list grammar: named flags in shorthand and structured form.
//!
//! A top-level OPTIONS item either uses the shorthand
//! `flag: -x --longname |type| description words`, or names the flag and
//! configures it in a nested list with `desc:`, `type:`, `flag:`, `choices:`
//! and `required` items.  A type other than string, number, bool or boolean
//! fails the whole compilation.

use vstd::prelude::*;
use vstd::string::StringExecFns;
use crate::command::{FlagModel, OptionFlag};
use crate::scan::{find_char, find_char_idx, lemma_find_char_idx};
use crate::text::{
    chars_eq, chars_of, spec_remove_all, spec_trim, spec_words, split_ws, string_of, sub_chars,
    remove_all, trim_chars,
};

verus! {

/// The message reported for a flag type other than string, number or bool.
pub open spec fn invalid_type_msg_spec(t: Seq<char>) -> Seq<char> {
    "Invalid flag type '"@ + t + "' Expected string | number | bool."@
}

/// Creates the message that is returned on a bad flag type.
pub fn invalid_type_msg(t: &str) -> (r: String)
    ensures
        r@ == invalid_type_msg_spec(t@),
{
    let mut r = String::from_str("Invalid flag type '");
    r.append(t);
    r.append("' Expected string | number | bool.");
    r
}

/// One word of a shorthand item applied to the flag under construction:
/// `--name` sets the long and flag name, `-c` the short letter, `|type|` the
/// value kind, `required` the required mark; other words gather into the
/// description.
pub open spec fn sh_words(
    ws: Seq<Seq<char>>,
    i: int,
    f: FlagModel,
    dw: Seq<char>,
) -> Result<(FlagModel, Seq<char>), Seq<char>>
    decreases ws.len() - i,
{
    if i < 0 || i >= ws.len() {
        Ok((f, dw))
    } else {
        let w = ws[i];
        if w.len() >= 2 && w[0] == '-' && w[1] == '-' {
            let nm = spec_remove_all(w, seq!['-', '-']);
            sh_words(ws, i + 1, FlagModel { long: nm, name: nm, ..f }, dw)
        } else if w.len() >= 1 && w[0] == '-' {
            let sh = if w.len() >= 2 {
                seq![w[1]]
            } else {
                Seq::<char>::empty()
            };
            sh_words(ws, i + 1, FlagModel { short: sh, ..f }, dw)
        } else if w.len() >= 1 && w[0] == '|' && w.last() == '|' {
            let kind = if w.len() >= 2 {
                w.subrange(1, w.len() - 1)
            } else {
                Seq::<char>::empty()
            };
            if kind == "string"@ {
                sh_words(ws, i + 1, FlagModel { takes_value: true, ..f }, dw)
            } else if kind == "number"@ {
                sh_words(
                    ws,
                    i + 1,
                    FlagModel { takes_value: true, validate_as_number: true, ..f },
                    dw,
                )
            } else if kind == "bool"@ || kind == "boolean"@ {
                sh_words(ws, i + 1, f, dw)
            } else {
                Err(invalid_type_msg_spec(kind))
            }
        } else if w == "required"@ {
            sh_words(ws, i + 1, FlagModel { required: true, ..f }, dw)
        } else {
            sh_words(ws, i + 1, f, dw + seq![' '] + w)
        }
    }
}

/// What a top-level OPTIONS item does to the flag under construction: with a
/// colon it is a definition (and the flag is sealed afterwards, the boolean);
/// the shorthand form starting `flag:` fills the fields from its words;
/// without a colon the item text names the flag.
pub open spec fn spec_opt_item(text: Seq<char>, f: FlagModel) -> Result<
    (FlagModel, bool),
    Seq<char>,
> {
    match find_char_idx(text, ':', 0) {
        Some(ci) => {
            let first = spec_trim(text.take(ci));
            if first == "flag"@ {
                let val = spec_trim(text.skip(ci + 1));
                match sh_words(spec_words(val), 0, f, Seq::empty()) {
                    Ok(pr) => Ok(
                        (FlagModel { desc: spec_trim(pr.1), ..pr.0 }, true),
                    ),
                    Err(e) => Err(e),
                }
            } else {
                Ok((f, true))
            }
        },
        None => Ok((FlagModel { name: text, ..f }, false)),
    }
}

/// Applies one token of a structured `flag:` value.
pub open spec fn apply_flag_token(tok: Seq<char>, f: FlagModel) -> FlagModel {
    if tok.len() >= 2 && tok[0] == '-' && tok[1] == '-' {
        FlagModel { long: spec_remove_all(tok, seq!['-', '-']), ..f }
    } else if tok.len() >= 1 && tok[0] == '-' {
        FlagModel {
            short: if tok.len() >= 2 {
                seq![tok[1]]
            } else {
                Seq::<char>::empty()
            },
            ..f
        }
    } else {
        f
    }
}

/// The comma-separated values of a `choices:` item, each trimmed.
pub open spec fn split_commas(s: Seq<char>) -> Seq<Seq<char>>
    decreases s.len(),
    when true
    via split_commas_dec
{
    match find_char_idx(s, ',', 0) {
        Some(i) => seq![spec_trim(s.take(i))] + split_commas(s.skip(i + 1)),
        None => seq![spec_trim(s)],
    }
}

#[via_fn]
proof fn split_commas_dec(s: Seq<char>) {
    lemma_find_char_idx(s, ',', 0);
}

/// What a nested OPTIONS item does to the flag under construction: `desc:`,
/// `type:`, `flag:`, `choices:` and `required` set the matching fields; an
/// unknown parameter changes nothing.
pub open spec fn spec_opt_config(text: Seq<char>, f: FlagModel) -> Result<FlagModel, Seq<char>> {
    let param = match find_char_idx(text, ':', 0) {
        Some(ci) => spec_trim(text.take(ci)),
        None => spec_trim(text),
    };
    let val = match find_char_idx(text, ':', 0) {
        Some(ci) => spec_trim(text.skip(ci + 1)),
        None => Seq::<char>::empty(),
    };
    if param == "desc"@ {
        Ok(FlagModel { desc: val, ..f })
    } else if param == "type"@ {
        if val == "string"@ {
            Ok(FlagModel { takes_value: true, ..f })
        } else if val == "number"@ {
            Ok(FlagModel { takes_value: true, validate_as_number: true, ..f })
        } else {
            Err(invalid_type_msg_spec(val))
        }
    } else if param == "flag"@ {
        match find_char_idx(val, ' ', 0) {
            Some(si) => Ok(
                apply_flag_token(val.skip(si + 1), apply_flag_token(val.take(si), f)),
            ),
            None => Ok(apply_flag_token(val, f)),
        }
    } else if param == "choices"@ {
        Ok(FlagModel { choices: split_commas(val), ..f })
    } else if param == "required"@ {
        Ok(FlagModel { required: true, ..f })
    } else {
        Ok(f)
    }
}

/// Compares a character vector against a short literal.
fn is_lit(v: &Vec<char>, lit: &str) -> (r: bool)
    ensures
        r == (v@ == lit@),
{
    let l = chars_of(lit);
    chars_eq(v, &l)
}

/// Applies one token of a structured `flag:` value to the flag.
fn apply_flag_token_x(tok: &Vec<char>, f: OptionFlag) -> (r: OptionFlag)
    ensures
        r@ == apply_flag_token(tok@, f@),
{
    let mut f2 = f;
    if tok.len() >= 2 && tok[0] == '-' && tok[1] == '-' {
        let mut dd: Vec<char> = Vec::new();
        dd.push('-');
        dd.push('-');
        proof {
            assert(dd@ =~= seq!['-', '-']);
        }
        let nm = remove_all(tok, &dd);
        f2.long = string_of(&nm);
        proof {
            assert(f2@ =~= apply_flag_token(tok@, f@));
        }
        f2
    } else if tok.len() >= 1 && tok[0] == '-' {
        let mut sh: Vec<char> = Vec::new();
        if tok.len() >= 2 {
            sh.push(tok[1]);
            proof {
                assert(sh@ =~= seq![tok@[1]]);
            }
        } else {
            proof {
                assert(sh@ =~= Seq::<char>::empty());
            }
        }
        f2.short = string_of(&sh);
        proof {
            assert(f2@ =~= apply_flag_token(tok@, f@));
        }
        f2
    } else {
        proof {
            assert(f2@ =~= apply_flag_token(tok@, f@));
        }
        f2
    }
}

/// Splits a `choices:` value on commas, trimming each part.
fn split_commas_x(v: &Vec<char>) -> (r: Vec<String>)
    ensures
        r.deep_view() == split_commas(v@),
{
    let mut r: Vec<String> = Vec::new();
    let mut rest = sub_chars(v, 0, v.len());
    proof {
        assert(rest@ =~= v@);
        assert(Seq::<Seq<char>>::empty() + split_commas(v@) =~= split_commas(v@));
    }
    loop
        invariant_except_break
            r.deep_view() + split_commas(rest@) == split_commas(v@),
        ensures
            r.deep_view() == split_commas(v@),
        decreases rest@.len(),
    {
        proof {
            lemma_find_char_idx(rest@, ',', 0);
        }
        let ghost prev = r.deep_view();
        match find_char(&rest, ',', 0) {
            Some(i) => {
                let part = sub_chars(&rest, 0, i);
                proof {
                    assert(part@ =~= rest@.take(i as int));
                }
                let t = trim_chars(&part);
                r.push(string_of(&t));
                let rn = rest.len();
                let rest2 = sub_chars(&rest, i + 1, rn);
                proof {
                    assert(rest2@ =~= rest@.skip(i + 1 as int));
                    assert(r.deep_view() =~= prev.push(spec_trim(rest@.take(i as int))));
                }
                rest = rest2;
            },
            None => {
                let t = trim_chars(&rest);
                r.push(string_of(&t));
                proof {
                    assert(r.deep_view() =~= prev.push(spec_trim(rest@)));
                    assert(r.deep_view() =~= split_commas(v@));
                }
                break ;
            },
        }
    }
    r
}

/// Handles one top-level OPTIONS item; a sealed flag is to be pushed by the
/// caller and replaced with a fresh accumulator.
#[verifier::loop_isolation(false)]
pub fn opt_item(text: &Vec<char>, f: OptionFlag) -> (r: Result<(OptionFlag, bool), String>)
    ensures
        match r {
            Ok(pr) => spec_opt_item(text@, f@) == Ok::<(FlagModel, bool), Seq<char>>(
                (pr.0@, pr.1),
            ),
            Err(e) => spec_opt_item(text@, f@) == Err::<(FlagModel, bool), Seq<char>>(e@),
        },
{
    let ghost f0 = f@;
    let n = text.len();
    let mut f2 = f;
    match find_char(text, ':', 0) {
        Some(ci) => {
            let head = sub_chars(text, 0, ci);
            proof {
                assert(head@ =~= text@.take(ci as int));
            }
            let first = trim_chars(&head);
            if is_lit(&first, "flag") {
                let tailv = sub_chars(text, ci + 1, n);
                proof {
                    assert(tailv@ =~= text@.skip(ci + 1 as int));
                }
                let val = trim_chars(&tailv);
                let ws = split_ws(&val);
                let mut dw: Vec<char> = Vec::new();
                let mut i: usize = 0;
                let ghost wm = spec_words(val@);
                proof {
                    assert(dw@ =~= Seq::<char>::empty());
                }
                while i < ws.len()
                    invariant
                        0 <= i <= ws@.len(),
                        ws.deep_view() == wm,
                        sh_words(wm, 0, f0, Seq::empty()) == sh_words(wm, i as int, f2@, dw@),
                    decreases ws@.len() - i,
                {
                    let w = &ws[i];
                    proof {
                        assert(w@ == wm[i as int]);
                    }
                    if w.len() >= 2 && w[0] == '-' && w[1] == '-' {
                        let mut dd: Vec<char> = Vec::new();
                        dd.push('-');
                        dd.push('-');
                        proof {
                            assert(dd@ =~= seq!['-', '-']);
                        }
                        let nm = remove_all(w, &dd);
                        f2.long = string_of(&nm);
                        f2.name = string_of(&nm);
                    } else if w.len() >= 1 && w[0] == '-' {
                        let mut sh: Vec<char> = Vec::new();
                        if w.len() >= 2 {
                            sh.push(w[1]);
                            proof {
                                assert(sh@ =~= seq![w@[1]]);
                            }
                        } else {
                            proof {
                                assert(sh@ =~= Seq::<char>::empty());
                            }
                        }
                        f2.short = string_of(&sh);
                    } else if w.len() >= 1 && w[0] == '|' && w[w.len() - 1] == '|' {
                        let kind = if w.len() >= 2 {
                            sub_chars(w, 1, w.len() - 1)
                        } else {
                            Vec::new()
                        };
                        proof {
                            if w@.len() >= 2 {
                                assert(kind@ =~= w@.subrange(1, w@.len() - 1));
                            } else {
                                assert(kind@ =~= Seq::<char>::empty());
                            }
                        }
                        if is_lit(&kind, "string") {
                            f2.takes_value = true;
                        } else if is_lit(&kind, "number") {
                            f2.takes_value = true;
                            f2.validate_as_number = true;
                        } else if is_lit(&kind, "bool") || is_lit(&kind, "boolean") {
                        } else {
                            let ks = string_of(&kind);
                            let msg = invalid_type_msg(ks.as_str());
                            proof {
                                assert(sh_words(wm, i as int, f2@, dw@) == Err::<
                                    (FlagModel, Seq<char>),
                                    Seq<char>,
                                >(invalid_type_msg_spec(kind@)));
                                assert(spec_opt_item(text@, f0) == Err::<
                                    (FlagModel, bool),
                                    Seq<char>,
                                >(invalid_type_msg_spec(kind@)));
                            }
                            return Err(msg);
                        }
                    } else if is_lit(w, "required") {
                        f2.required = true;
                    } else {
                        let ghost dwp = dw@;
                        dw.push(' ');
                        let mut k: usize = 0;
                        while k < w.len()
                            invariant
                                0 <= k <= w@.len(),
                                dw@ == dwp + seq![' '] + w@.subrange(0, k as int),
                            decreases w@.len() - k,
                        {
                            dw.push(w[k]);
                            proof {
                                assert(dwp + seq![' '] + w@.subrange(0, k + 1 as int) =~= (dwp
                                    + seq![' '] + w@.subrange(0, k as int)).push(w@[k as int]));
                            }
                            k = k + 1;
                        }
                        proof {
                            assert(w@.subrange(0, w@.len() as int) =~= w@);
                            assert(dw@ == dwp + seq![' '] + w@);
                        }
                    }
                    i = i + 1;
                }
                let dt = trim_chars(&dw);
                f2.desc = string_of(&dt);
                proof {
                    assert(spec_opt_item(text@, f0) == Ok::<(FlagModel, bool), Seq<char>>(
                        (f2@, true),
                    ));
                }
                Ok((f2, true))
            } else {
                Ok((f2, true))
            }
        },
        None => {
            f2.name = string_of(text);
            proof {
                assert(f2@ =~= (FlagModel { name: text@, ..f0 }));
            }
            Ok((f2, false))
        },
    }
}

/// Handles one nested OPTIONS item.
pub fn opt_config(text: &Vec<char>, f: OptionFlag) -> (r: Result<OptionFlag, String>)
    ensures
        match r {
            Ok(f2) => spec_opt_config(text@, f@) == Ok::<FlagModel, Seq<char>>(f2@),
            Err(e) => spec_opt_config(text@, f@) == Err::<FlagModel, Seq<char>>(e@),
        },
{
    let ghost f0 = f@;
    let n = text.len();
    let mut f2 = f;
    let (param, val): (Vec<char>, Vec<char>) = match find_char(text, ':', 0) {
        Some(ci) => {
            let head = sub_chars(text, 0, ci);
            let tailv = sub_chars(text, ci + 1, n);
            proof {
                assert(head@ =~= text@.take(ci as int));
                assert(tailv@ =~= text@.skip(ci + 1 as int));
            }
            (trim_chars(&head), trim_chars(&tailv))
        },
        None => (trim_chars(text), Vec::new()),
    };
    if is_lit(&param, "desc") {
        f2.desc = string_of(&val);
        proof {
            assert(f2@ =~= (FlagModel { desc: val@, ..f0 }));
        }
        Ok(f2)
    } else if is_lit(&param, "type") {
        if is_lit(&val, "string") {
            f2.takes_value = true;
            proof {
                assert(f2@ =~= (FlagModel { takes_value: true, ..f0 }));
            }
            Ok(f2)
        } else if is_lit(&val, "number") {
            f2.takes_value = true;
            f2.validate_as_number = true;
            proof {
                assert(f2@ =~= (FlagModel { takes_value: true, validate_as_number: true, ..f0 }));
            }
            Ok(f2)
        } else {
            let vs = string_of(&val);
            Err(invalid_type_msg(vs.as_str()))
        }
    } else if is_lit(&param, "flag") {
        match find_char(&val, ' ', 0) {
            Some(si) => {
                let vn = val.len();
                let t1 = sub_chars(&val, 0, si);
                let t2 = sub_chars(&val, si + 1, vn);
                proof {
                    assert(t1@ =~= val@.take(si as int));
                    assert(t2@ =~= val@.skip(si + 1 as int));
                }
                let fa = apply_flag_token_x(&t1, f2);
                let fb = apply_flag_token_x(&t2, fa);
                Ok(fb)
            },
            None => Ok(apply_flag_token_x(&val, f2)),
        }
    } else if is_lit(&param, "choices") {
        f2.choices = split_commas_x(&val);
        proof {
            assert(f2@ =~= (FlagModel { choices: split_commas(val@), ..f0 }));
        }
        Ok(f2)
    } else if is_lit(&param, "required") {
        f2.required = true;
        proof {
            assert(f2@ =~= (FlagModel { required: true, ..f0 }));
        }
        Ok(f2)
    } else {
        Ok(f2)
    }
}

} // verus!
