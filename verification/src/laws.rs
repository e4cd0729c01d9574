//! The general laws of the compiler, stated and proved once.
//!
//! Each law here quantifies over all inputs; specific inputs and outputs are
//! exercised by the test suite instead.

use vstd::prelude::*;
use crate::alias::{all_aliases, has_dup_alias};
use crate::command::CmdModel;
use crate::parser::{dup_alias_msg, spec_compile, spec_flat};
use crate::scan::spec_scan;
use crate::tree::{
    cmds_flat, dedup_node, has_key_in, keep_cmd, same_key, spec_remove_dups, spec_treeify,
};

verus! {

/// Compiling depends on the document text alone: equal texts compile to
/// equal trees, with no hidden state in between.
pub proof fn lemma_compile_deterministic(a: Seq<char>, b: Seq<char>)
    requires
        a == b,
    ensures
        spec_compile(a) == spec_compile(b),
{
}

/// Pruning law: every command that treeification keeps carries a script, a
/// surviving child, or stands at the top level of the document.
pub proof fn lemma_treeify_pruned(cmds: Seq<CmdModel>)
    requires
        cmds_flat(cmds),
    ensures
        forall|k: int|
            0 <= k < spec_treeify(cmds).len() ==> keep_cmd(#[trigger] spec_treeify(cmds)[k]),
{
    if cmds.len() > 0 {
        crate::tree::lemma_group_flat(cmds);
        lemma_each_pruned(crate::tree::spec_group(cmds), cmds.len() as int);
        assert(spec_treeify(cmds) == crate::tree::treeify_each(
            crate::tree::spec_group(cmds),
            cmds.len() as int,
        ));
    } else {
        assert(spec_treeify(cmds) == Seq::<CmdModel>::empty());
    }
}

proof fn lemma_each_pruned(s: Seq<CmdModel>, b: int)
    requires
        crate::tree::subs_ok(s, b),
    ensures
        forall|k: int|
            0 <= k < crate::tree::treeify_each(s, b).len() ==> keep_cmd(
                #[trigger] crate::tree::treeify_each(s, b)[k],
            ),
    decreases s.len(),
{
    if s.len() > 0 {
        assert(forall|j: int| 0 <= j < s.drop_first().len() ==> s.drop_first()[j] == s[j + 1]);
        lemma_each_pruned(s.drop_first(), b);
        let e = if s[0].subcommands.len() > 0 {
            CmdModel { subcommands: spec_treeify(s[0].subcommands), ..s[0] }
        } else {
            s[0]
        };
        if keep_cmd(e) {
            assert forall|k: int|
                0 <= k < crate::tree::treeify_each(s, b).len() implies keep_cmd(
                #[trigger] crate::tree::treeify_each(s, b)[k],
            ) by {
                if k == 0 {
                    assert(crate::tree::treeify_each(s, b)[0] == e);
                } else {
                    assert(crate::tree::treeify_each(s, b)[k] == crate::tree::treeify_each(
                        s.drop_first(),
                        b,
                    )[k - 1]);
                }
            }
        }
    }
}

/// Override law, part one: after deduplication no two commands in a sibling
/// list share a name and level.
pub proof fn lemma_override_unique(s: Seq<CmdModel>)
    ensures
        forall|i: int, j: int|
            0 <= i < j < spec_remove_dups(s).len() ==> !same_key(
                #[trigger] spec_remove_dups(s)[i],
                #[trigger] spec_remove_dups(s)[j],
            ),
    decreases s.len(),
{
    lemma_override_survivors(s);
    if s.len() > 0 {
        lemma_override_unique(s.drop_first());
        let rest = spec_remove_dups(s.drop_first());
        if !has_key_in(s[0], s.drop_first()) {
            let node = dedup_node(s[0]);
            assert forall|i: int, j: int|
                0 <= i < j < spec_remove_dups(s).len() implies !same_key(
                #[trigger] spec_remove_dups(s)[i],
                #[trigger] spec_remove_dups(s)[j],
            ) by {
                if i == 0 {
                    assert(spec_remove_dups(s)[0] == node);
                    assert(spec_remove_dups(s)[j] == rest[j - 1]);
                    lemma_override_survivors(s.drop_first());
                    let tail = s.drop_first();
                    let w = choose|w: int|
                        0 <= w < tail.len() && rest[j - 1] == dedup_node(#[trigger] tail[w]);
                    assert(same_key(rest[j - 1], tail[w]));
                    if same_key(node, rest[j - 1]) {
                        assert(same_key(s[0], tail[w]));
                        assert(has_key_in(s[0], tail));
                    }
                } else {
                    assert(spec_remove_dups(s)[i] == rest[i - 1]);
                    assert(spec_remove_dups(s)[j] == rest[j - 1]);
                }
            }
        } else {
            assert(spec_remove_dups(s) == rest);
        }
    }
}

/// Override law, part two: every surviving command is the deduplication of
/// one of the input commands, and of one that no later definition overrides
/// — so of two same-named siblings the second's content is what survives.
pub proof fn lemma_override_survivors(s: Seq<CmdModel>)
    ensures
        forall|k: int|
            0 <= k < spec_remove_dups(s).len() ==> exists|w: int|
                0 <= w < s.len() && (#[trigger] spec_remove_dups(s)[k]) == dedup_node(
                    #[trigger] s[w],
                ) && !has_key_in(s[w], s.skip(w + 1)),
    decreases s.len(),
{
    if s.len() > 0 {
        lemma_override_survivors(s.drop_first());
        let rest = spec_remove_dups(s.drop_first());
        let tail = s.drop_first();
        assert(tail.skip(0) =~= tail);
        assert forall|k: int|
            0 <= k < spec_remove_dups(s).len() implies exists|w: int|
            0 <= w < s.len() && (#[trigger] spec_remove_dups(s)[k]) == dedup_node(
                #[trigger] s[w],
            ) && !has_key_in(s[w], s.skip(w + 1)) by {
            if !has_key_in(s[0], tail) && k == 0 {
                assert(spec_remove_dups(s)[0] == dedup_node(s[0]));
                assert(s.skip(1) =~= tail);
                assert(0 < s.len() && spec_remove_dups(s)[0] == dedup_node(s[0]) && !has_key_in(
                    s[0],
                    s.skip(0int + 1),
                ));
            } else {
                let kr = if has_key_in(s[0], tail) {
                    k
                } else {
                    k - 1
                };
                assert(spec_remove_dups(s)[k] == rest[kr]);
                let w = choose|w: int|
                    0 <= w < tail.len() && rest[kr] == dedup_node(#[trigger] tail[w])
                        && !has_key_in(tail[w], tail.skip(w + 1));
                assert(tail[w] == s[w + 1]);
                assert(tail.skip(w + 1) =~= s.skip(w + 2));
                assert(0 <= w + 1 < s.len() && spec_remove_dups(s)[k] == dedup_node(s[w + 1])
                    && !has_key_in(s[w + 1], s.skip(w + 1 + 1)));
            }
        }
    }
}

/// Single-command law: whenever the compiler's flat list holds the document
/// root and one scripted depth-two command, the finished tree is exactly the
/// root with that one command as its only child, its script — language tag
/// and source — kept as compiled.
pub proof fn lemma_single_scripted_command(root: CmdModel, cmd: CmdModel)
    requires
        root.cmd_level == 1,
        root.subcommands.len() == 0,
        cmd.cmd_level == 2,
        cmd.subcommands.len() == 0,
        cmd.script.source.len() > 0,
    ensures
        ({
            let all = spec_remove_dups(spec_treeify(seq![root, cmd]));
            &&& all.len() == 1
            &&& all[0].subcommands.len() == 1
            &&& all[0].subcommands[0].script == cmd.script
            &&& all[0].subcommands[0].name == cmd.name
            &&& all[0].subcommands[0].cmd_level == 2
            &&& all[0].cmd_level == 1
            &&& all[0].name == root.name
        }),
{
    reveal_with_fuel(crate::tree::group_from, 4);
    reveal_with_fuel(crate::tree::treeify_each, 3);
    reveal_with_fuel(crate::tree::spec_remove_dups, 3);
    let flat = seq![root, cmd];
    assert(cmds_flat(flat)) by {
        assert(flat[0] == root);
        assert(flat[1] == cmd);
    }
    let c2 = crate::tree::desc_trimmed(cmd);
    let g = CmdModel { subcommands: root.subcommands.push(c2), ..root };
    assert(crate::tree::spec_group(flat) =~= seq![g]) by {
        assert(flat[0] == root);
        assert(flat[1] == cmd);
        assert(crate::tree::desc_trimmed(flat[1]) == c2);
    }
    let inner = seq![c2];
    assert(cmds_flat(inner)) by {
        assert(inner[0] == c2);
    }
    assert(crate::tree::spec_group(inner) =~= seq![c2]) by {
        assert(inner[0] == c2);
    }
    assert(crate::tree::subs_ok(seq![c2], 1int)) by {
        assert(seq![c2][0] == c2);
    }
    assert(crate::tree::treeify_each(seq![c2], 1int) =~= seq![c2]) by {
        assert(seq![c2][0] == c2);
        assert(keep_cmd(c2));
        assert(seq![c2].drop_first() =~= Seq::<CmdModel>::empty());
    }
    assert(spec_treeify(inner) =~= seq![c2]);
    let e = CmdModel { subcommands: spec_treeify(g.subcommands), ..g };
    assert(g.subcommands =~= inner);
    assert(crate::tree::subs_ok(seq![g], 2int)) by {
        assert(seq![g][0] == g);
    }
    assert(crate::tree::treeify_each(seq![g], 2int) =~= seq![e]) by {
        assert(seq![g][0] == g);
        assert(keep_cmd(e));
        assert(seq![g].drop_first() =~= Seq::<CmdModel>::empty());
    }
    assert(spec_treeify(flat) =~= seq![e]);
    assert(spec_remove_dups(seq![e]) =~= seq![dedup_node(e)]) by {
        assert(seq![e][0] == e);
        assert(seq![e].drop_first() =~= Seq::<CmdModel>::empty());
        assert(!has_key_in(e, Seq::<CmdModel>::empty()));
    }
    assert(spec_remove_dups(e.subcommands) =~= seq![dedup_node(c2)]) by {
        assert(e.subcommands =~= seq![c2]);
        assert(seq![c2][0] == c2);
        assert(seq![c2].drop_first() =~= Seq::<CmdModel>::empty());
        assert(!has_key_in(c2, Seq::<CmdModel>::empty()));
    }
    assert(dedup_node(c2) == c2);
    let all = spec_remove_dups(spec_treeify(flat));
    assert(all =~= seq![dedup_node(e)]);
    assert(dedup_node(e).subcommands =~= seq![c2]);
}

/// Duplicate-alias law: a compiled tree never holds a repeated alias, and a
/// repeated alias in the built tree turns the whole compilation into the
/// duplicate-alias error.
pub proof fn lemma_duplicate_aliases_rejected(doc: Seq<char>)
    ensures
        spec_compile(doc) is Ok ==> !has_dup_alias(all_aliases(spec_compile(doc)->Ok_0)),
        (match spec_flat(spec_scan(doc)) {
            Ok(flat) => has_dup_alias(
                all_aliases(spec_remove_dups(spec_treeify(flat))[0]),
            ) ==> spec_compile(doc) == Err::<CmdModel, Seq<char>>(dup_alias_msg()),
            Err(e) => true,
        }),
{
}

} // verus!
