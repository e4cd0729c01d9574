//! Alias validation: no alias may repeat anywhere in the command tree.
//!
//! A command's aliases field holds `//`-separated alternate names.  After
//! the tree is built, every alias of every node is collected, and any alias
//! that occurs twice — among siblings or across branches — fails the
//! compilation.  Empty alias fragments are ignored.

use vstd::prelude::*;
use crate::command::{cmd_model, CmdModel, CommandBlock};
use crate::text::{chars_of, find_sub, find_sub_idx, string_of, sub_chars};

verus! {

/// The nonempty `//`-separated fragments of an aliases field.
pub open spec fn split_aliases(s: Seq<char>) -> Seq<Seq<char>>
    decreases s.len(),
    when true
    via split_aliases_dec
{
    match find_sub_idx(s, seq!['/', '/'], 0) {
        Some(i) => (if i > 0 {
            seq![s.take(i)]
        } else {
            Seq::<Seq<char>>::empty()
        }) + split_aliases(s.skip(i + 2)),
        None => if s.len() > 0 {
            seq![s]
        } else {
            Seq::<Seq<char>>::empty()
        },
    }
}

#[via_fn]
proof fn split_aliases_dec(s: Seq<char>) {
    crate::text::lemma_find_sub_idx(s, seq!['/', '/'], 0);
}

/// Every alias of the command and of its whole subtree, in walk order.
pub open spec fn all_aliases(c: CmdModel) -> Seq<Seq<char>>
    decreases c,
{
    split_aliases(c.aliases) + all_aliases_list(c.subcommands)
}

/// Every alias of a list of subtrees.
pub open spec fn all_aliases_list(l: Seq<CmdModel>) -> Seq<Seq<char>>
    decreases l,
{
    if l.len() == 0 {
        Seq::empty()
    } else {
        all_aliases(l[0]) + all_aliases_list(l.drop_first())
    }
}

/// Whether any alias occurs twice.
pub open spec fn has_dup_alias(s: Seq<Seq<char>>) -> bool {
    exists|i: int, j: int| 0 <= i < j < s.len() && s[i] == s[j]
}

/// Splits an aliases field into its nonempty fragments.
fn split_aliases_x(v: &Vec<char>, out: &mut Vec<String>)
    ensures
        final (out).deep_view() == old(out).deep_view() + split_aliases(v@),
{
    let mut sep: Vec<char> = Vec::new();
    sep.push('/');
    sep.push('/');
    proof {
        assert(sep@ =~= seq!['/', '/']);
    }
    let ghost base = out.deep_view();
    let mut rest = sub_chars(v, 0, v.len());
    proof {
        assert(rest@ =~= v@);
        assert(base + split_aliases(v@) =~= base + split_aliases(rest@));
    }
    loop
        invariant_except_break
            out.deep_view() + split_aliases(rest@) == base + split_aliases(v@),
        invariant
            sep@ == seq!['/', '/'],
        ensures
            out.deep_view() == base + split_aliases(v@),
        decreases rest@.len(),
    {
        let ghost prev = out.deep_view();
        let rn = rest.len();
        match find_sub(&rest, &sep, 0) {
            Some(i) => {
                if i > 0 {
                    let part = sub_chars(&rest, 0, i);
                    proof {
                        assert(part@ =~= rest@.take(i as int));
                    }
                    out.push(string_of(&part));
                    proof {
                        assert(out.deep_view() =~= prev.push(rest@.take(i as int)));
                    }
                }
                let rest2 = sub_chars(&rest, i + 2, rn);
                proof {
                    assert(rest2@ =~= rest@.skip(i + 2 as int));
                    assert(out.deep_view() + split_aliases(rest2@) =~= prev + split_aliases(
                        rest@,
                    ));
                }
                rest = rest2;
            },
            None => {
                if rest.len() > 0 {
                    let whole = sub_chars(&rest, 0, rn);
                    proof {
                        assert(whole@ =~= rest@);
                    }
                    out.push(string_of(&whole));
                    proof {
                        assert(out.deep_view() =~= prev.push(rest@));
                        assert(prev.push(rest@) =~= prev + split_aliases(rest@));
                    }
                } else {
                    proof {
                        assert(split_aliases(rest@) =~= Seq::<Seq<char>>::empty());
                        assert(out.deep_view() =~= prev + split_aliases(rest@));
                    }
                }
                break ;
            },
        }
    }
}

/// Collects every alias of the command's subtree.
fn collect_aliases(c: &CommandBlock, out: &mut Vec<String>)
    ensures
        final (out).deep_view() == old(out).deep_view() + all_aliases(cmd_model(*c)),
    decreases *c,
{
    let av = chars_of(c.aliases.as_str());
    split_aliases_x(&av, out);
    let ghost cm = cmd_model(*c);
    let ghost base1 = out.deep_view();
    let mut j: usize = 0;
    proof {
        assert(cmd_model(*c).subcommands.skip(0) =~= cmd_model(*c).subcommands);
    }
    while j < c.subcommands.len()
        invariant
            0 <= j <= c.subcommands@.len(),
            base1 == old(out).deep_view() + split_aliases(cmd_model(*c).aliases),
            out.deep_view() + all_aliases_list(cmd_model(*c).subcommands.skip(j as int)) == base1
                + all_aliases_list(cmd_model(*c).subcommands),
        decreases c.subcommands@.len() - j,
    {
        proof {
            assert(decreases_to!(*c => c.subcommands@[j as int]));
            assert(cmd_model(*c).subcommands[j as int] == cmd_model(c.subcommands@[j as int]));
            assert(cmd_model(*c).subcommands.skip(j as int)[0] == cmd_model(*c).subcommands[
                j as int]);
        }
        let ghost prev = out.deep_view();
        collect_aliases(&c.subcommands[j], out);
        proof {
            assert(cmd_model(*c).subcommands.skip(j as int).drop_first() =~= cmd_model(
                *c,
            ).subcommands.skip(j + 1 as int));
            assert(out.deep_view() + all_aliases_list(
                cmd_model(*c).subcommands.skip(j + 1 as int),
            ) =~= prev + all_aliases_list(cmd_model(*c).subcommands.skip(j as int)));
        }
        j = j + 1;
    }
    proof {
        assert(cmd_model(*c).subcommands.skip(c.subcommands@.len() as int)
            =~= Seq::<CmdModel>::empty());
        assert(all_aliases_list(Seq::<CmdModel>::empty()) =~= Seq::<Seq<char>>::empty());
        assert(out.deep_view() =~= old(out).deep_view() + all_aliases(cmd_model(*c)));
    }
}

/// Decides whether any string occurs twice in the list.
fn has_duplicate_str(v: &Vec<String>) -> (r: bool)
    ensures
        r == has_dup_alias(v.deep_view()),
{
    let mut i: usize = 0;
    while i < v.len()
        invariant
            0 <= i <= v@.len(),
            forall|a: int, b: int|
                0 <= a < b < v.deep_view().len() && a < i ==> v.deep_view()[a]
                    != v.deep_view()[b],
        decreases v@.len() - i,
    {
        let mut j: usize = i + 1;
        while j < v.len()
            invariant
                0 <= i < j <= v@.len(),
                forall|b: int| i < b < j ==> v.deep_view()[i as int] != v.deep_view()[b],
            decreases v@.len() - j,
        {
            proof {
                assert(v.deep_view()[i as int] == v@[i as int]@);
                assert(v.deep_view()[j as int] == v@[j as int]@);
            }
            if v[i] == v[j] {
                return true;
            }
            j = j + 1;
        }
        i = i + 1;
    }
    false
}

/// Walks the whole tree and reports whether any alias repeats anywhere in
/// it, among siblings or across branches.
pub fn validate_no_duplicate_aliases(cmd: &CommandBlock) -> (r: bool)
    ensures
        r == has_dup_alias(all_aliases(cmd_model(*cmd))),
{
    let mut all: Vec<String> = Vec::new();
    collect_aliases(cmd, &mut all);
    proof {
        assert(all.deep_view() =~= all_aliases(cmd_model(*cmd)));
    }
    has_duplicate_str(&all)
}

} // verus!
