//! Treeification: from the flat command list to the nested command tree.
//!
//! The flat, depth-tagged sequence is grouped by level: a deeper command
//! becomes a pending child of the current one, an equal level closes the
//! current command.  When several top-level documents were concatenated,
//! every node from the second document title onward moves one level down.
//! After grouping, children are treeified in turn, and commands without a
//! script, surviving children or top-level standing are pruned.

use vstd::prelude::*;
use crate::command::{cmd_model, CmdModel, CommandBlock};
use crate::text::{
    chars_of, has_at, normalize_ws, spec_normalize_ws, spec_trim, string_of, sub_chars,
    trim_chars,
};

verus! {

/// The trailing marker stripped from descriptions.
pub open spec fn options_suffix() -> Seq<char> {
    seq!['O', 'P', 'T', 'I', 'O', 'N', 'S']
}

/// A description with whitespace collapsed and a trailing `OPTIONS` marker
/// removed: guards against the marker leaking into the description when no
/// blank line separated them.
pub open spec fn spec_trim_desc(s: Seq<char>) -> Seq<char> {
    let n = spec_normalize_ws(s);
    if n.len() >= 7 && n.subrange(n.len() - 7, n.len() as int) == options_suffix() {
        spec_trim(n.take(n.len() - 7))
    } else {
        n
    }
}

/// Normalizes whitespace and strips a trailing `OPTIONS` marker.
pub fn trim_and_remove_options(input: &Vec<char>) -> (r: Vec<char>)
    ensures
        r@ == spec_trim_desc(input@),
{
    let n = normalize_ws(input);
    let mut opts: Vec<char> = Vec::new();
    opts.push('O');
    opts.push('P');
    opts.push('T');
    opts.push('I');
    opts.push('O');
    opts.push('N');
    opts.push('S');
    proof {
        assert(opts@ =~= options_suffix());
    }
    if n.len() >= 7 && has_at(&n, n.len() - 7, &opts) {
        proof {
            assert(n@.subrange(n@.len() - 7, n@.len() as int) =~= n@.subrange(
                n@.len() - 7,
                n@.len() - 7 + opts@.len(),
            ));
        }
        let head = sub_chars(&n, 0, n.len() - 7);
        proof {
            assert(head@ =~= n@.take(n@.len() - 7));
        }
        trim_chars(&head)
    } else {
        proof {
            if n@.len() >= 7 {
                assert(n@.subrange(n@.len() - 7, n@.len() as int) =~= n@.subrange(
                    n@.len() - 7,
                    n@.len() - 7 + opts@.len(),
                ));
            }
        }
        n
    }
}

/// A command with its description cleaned for display.
pub open spec fn desc_trimmed(c: CmdModel) -> CmdModel {
    CmdModel { desc: spec_trim_desc(c.desc), ..c }
}

/// Every command still flat: no subcommands attached yet.
pub open spec fn cmds_flat(cmds: Seq<CmdModel>) -> bool {
    forall|i: int| 0 <= i < cmds.len() ==> (#[trigger] cmds[i]).subcommands.len() == 0
}

/// One level of grouping, walking the flat list with a current command:
/// deeper commands become pending children, equal levels close the current
/// command, and a second document title makes every later command one level
/// deeper.
pub open spec fn group_from(
    cmds: Seq<CmdModel>,
    i: int,
    tree: Seq<CmdModel>,
    cur: CmdModel,
    add_one: bool,
    allow: bool,
) -> Seq<CmdModel>
    decreases cmds.len() - i,
{
    if i < 0 || i >= cmds.len() {
        tree
    } else {
        let c1 = desc_trimmed(cmds[i]);
        let allow2 = allow || c1.cmd_level > 1;
        let add2 = add_one || (allow2 && c1.cmd_level == 1);
        let c2 = CmdModel {
            cmd_level: c1.cmd_level + if add2 {
                1int
            } else {
                0int
            },
            ..c1
        };
        let in_child = c2.cmd_level > cur.cmd_level;
        let in_sibling = !in_child && c2.cmd_level == cur.cmd_level && i > 0;
        let cur2 = if in_child {
            CmdModel { subcommands: cur.subcommands.push(c2), ..cur }
        } else if in_sibling {
            c2
        } else {
            cur
        };
        let tree2 = if in_sibling {
            tree.push(cur)
        } else {
            tree
        };
        let tree3 = if i == cmds.len() - 1 && c2.cmd_level >= cur2.cmd_level {
            tree2.push(cur2)
        } else {
            tree2
        };
        group_from(cmds, i + 1, tree3, cur2, add2, allow2)
    }
}

/// The grouped top level of a nonempty flat list.
pub open spec fn spec_group(cmds: Seq<CmdModel>) -> Seq<CmdModel> {
    group_from(cmds, 0, Seq::empty(), cmds[0], false, false)
}

/// Grouping gives each node at most `cmds.len() - 1` pending children, all
/// still flat: every child is one of the later flat commands, adjusted.
pub proof fn lemma_group_bounds(
    cmds: Seq<CmdModel>,
    i: int,
    tree: Seq<CmdModel>,
    cur: CmdModel,
    add_one: bool,
    allow: bool,
    bound: int,
)
    requires
        1 <= i <= cmds.len(),
        cmds_flat(cmds),
        cur.subcommands.len() + (cmds.len() - i) <= bound,
        forall|k: int|
            0 <= k < tree.len() ==> (#[trigger] tree[k]).subcommands.len() <= bound,
        forall|k: int, x: int|
            0 <= k < tree.len() && 0 <= x < tree[k].subcommands.len() ==> (
            #[trigger] tree[k].subcommands[x]).subcommands.len() == 0,
        forall|x: int|
            0 <= x < cur.subcommands.len() ==> (
            #[trigger] cur.subcommands[x]).subcommands.len() == 0,
    ensures
        ({
            let r = group_from(cmds, i, tree, cur, add_one, allow);
            &&& forall|k: int|
                0 <= k < r.len() ==> (#[trigger] r[k]).subcommands.len() <= bound
            &&& forall|k: int, x: int|
                0 <= k < r.len() && 0 <= x < r[k].subcommands.len() ==> (
                #[trigger] r[k].subcommands[x]).subcommands.len() == 0
        }),
    decreases cmds.len() - i,
{
    if i < cmds.len() {
        let c1 = desc_trimmed(cmds[i]);
        let allow2 = allow || c1.cmd_level > 1;
        let add2 = add_one || (allow2 && c1.cmd_level == 1);
        let c2 = CmdModel {
            cmd_level: c1.cmd_level + if add2 {
                1int
            } else {
                0int
            },
            ..c1
        };
        let in_child = c2.cmd_level > cur.cmd_level;
        let in_sibling = !in_child && c2.cmd_level == cur.cmd_level && i > 0;
        let cur2 = if in_child {
            CmdModel { subcommands: cur.subcommands.push(c2), ..cur }
        } else if in_sibling {
            c2
        } else {
            cur
        };
        let tree2 = if in_sibling {
            tree.push(cur)
        } else {
            tree
        };
        let tree3 = if i == cmds.len() - 1 && c2.cmd_level >= cur2.cmd_level {
            tree2.push(cur2)
        } else {
            tree2
        };
        assert(c2.subcommands.len() == 0);
        lemma_group_bounds(cmds, i + 1, tree3, cur2, add2, allow2, bound);
        assert(group_from(cmds, i, tree, cur, add_one, allow) == group_from(
            cmds,
            i + 1,
            tree3,
            cur2,
            add2,
            allow2,
        ));
    } else {
        assert(group_from(cmds, i, tree, cur, add_one, allow) == tree);
    }
}

/// The top-level grouping of a flat list: every grouped node has fewer
/// pending children than the list has commands, and the children are flat.
pub proof fn lemma_group_flat(cmds: Seq<CmdModel>)
    requires
        cmds.len() > 0,
        cmds_flat(cmds),
    ensures
        forall|k: int|
            0 <= k < spec_group(cmds).len() ==> (
            #[trigger] spec_group(cmds)[k]).subcommands.len() < cmds.len(),
        forall|k: int|
            0 <= k < spec_group(cmds).len() ==> cmds_flat(
                (#[trigger] spec_group(cmds)[k]).subcommands,
            ),
{
    let cur = cmds[0];
    let c1 = desc_trimmed(cmds[0]);
    let allow2 = false || c1.cmd_level > 1;
    let add2 = false || (allow2 && c1.cmd_level == 1);
    let c2 = CmdModel {
        cmd_level: c1.cmd_level + if add2 {
            1int
        } else {
            0int
        },
        ..c1
    };
    assert(!add2);
    assert(c2.cmd_level == cur.cmd_level);
    if cmds.len() == 1 {
        reveal_with_fuel(group_from, 3);
        assert(spec_group(cmds) == group_from(
            cmds,
            1,
            Seq::<CmdModel>::empty().push(cur),
            cur,
            add2,
            allow2,
        ));
        assert(spec_group(cmds) =~= Seq::<CmdModel>::empty().push(cur));
        assert(spec_group(cmds)[0].subcommands.len() == 0);
    } else {
        assert(spec_group(cmds) == group_from(cmds, 1, Seq::empty(), cur, add2, allow2));
        lemma_group_bounds(cmds, 1, Seq::empty(), cur, add2, allow2, cmds.len() - 1);
    }
    assert forall|k: int| 0 <= k < spec_group(cmds).len() implies cmds_flat(
        (#[trigger] spec_group(cmds)[k]).subcommands,
    ) by {
        let subs = spec_group(cmds)[k].subcommands;
        assert forall|x: int|
            0 <= x < subs.len() implies (#[trigger] subs[x]).subcommands.len() == 0 by {
            if cmds.len() > 1 {
                assert(spec_group(cmds)[k].subcommands[x].subcommands.len() == 0);
            }
        }
    }
}

/// Keep a node when it still matters: it has a script, surviving children,
/// or stands at the top level of the document.
pub open spec fn keep_cmd(c: CmdModel) -> bool {
    c.script.source.len() != 0 || c.subcommands.len() > 0 || c.cmd_level == 1
}

/// Pending children small enough and flat enough for treeification to
/// recurse on them.
pub open spec fn subs_ok(s: Seq<CmdModel>, b: int) -> bool {
    forall|j: int|
        0 <= j < s.len() ==> (#[trigger] s[j]).subcommands.len() < b && cmds_flat(
            s[j].subcommands,
        )
}

/// The command tree of a flat list: group one level, then treeify and prune
/// each grouped node in order.
pub open spec fn spec_treeify(cmds: Seq<CmdModel>) -> Seq<CmdModel>
    decreases cmds.len(), 1int, 0int,
    when cmds_flat(cmds)
    via spec_treeify_dec
{
    if cmds.len() == 0 {
        Seq::empty()
    } else {
        treeify_each(spec_group(cmds), cmds.len() as int)
    }
}

/// Treeifies and prunes the grouped nodes one by one: a node's pending
/// children become its treeified subcommands, and only nodes that
/// `keep_cmd` retains survive.
pub open spec fn treeify_each(s: Seq<CmdModel>, b: int) -> Seq<CmdModel>
    decreases b, 0int, s.len(),
    when subs_ok(s, b)
    via treeify_each_dec
{
    if s.len() == 0 {
        Seq::empty()
    } else {
        let e = if s[0].subcommands.len() > 0 {
            CmdModel { subcommands: spec_treeify(s[0].subcommands), ..s[0] }
        } else {
            s[0]
        };
        if keep_cmd(e) {
            seq![e] + treeify_each(s.drop_first(), b)
        } else {
            treeify_each(s.drop_first(), b)
        }
    }
}

#[via_fn]
proof fn spec_treeify_dec(cmds: Seq<CmdModel>) {
    if cmds.len() > 0 {
        lemma_group_flat(cmds);
    }
}

#[via_fn]
proof fn treeify_each_dec(s: Seq<CmdModel>, b: int) {
    if s.len() > 0 {
        assert(forall|j: int|
            0 <= j < s.drop_first().len() ==> s.drop_first()[j] == s[j + 1]);
    }
}

/// Levels the executable treeifier can handle: at least one, and when any
/// command sits at level one (so a document merge can shift levels), all of
/// them leave room for that shift.
pub open spec fn levels_ok(cmds: Seq<CmdModel>) -> bool {
    (forall|i: int| 0 <= i < cmds.len() ==> (#[trigger] cmds[i]).cmd_level >= 1) && ((forall|
        i: int,
    | 0 <= i < cmds.len() ==> (#[trigger] cmds[i]).cmd_level <= 254) || (forall|i: int|
        0 <= i < cmds.len() ==> (#[trigger] cmds[i]).cmd_level != 1))
}

/// Grouping a list of positive levels leaves only grouped nodes of positive
/// level whose pending children sit at level two or more.
pub proof fn lemma_group_levels(
    cmds: Seq<CmdModel>,
    i: int,
    tree: Seq<CmdModel>,
    cur: CmdModel,
    add_one: bool,
    allow: bool,
)
    requires
        1 <= i <= cmds.len(),
        cmds_flat(cmds),
        forall|j: int| 0 <= j < cmds.len() ==> (#[trigger] cmds[j]).cmd_level >= 1,
        cur.cmd_level >= 1,
        forall|k: int| 0 <= k < tree.len() ==> (#[trigger] tree[k]).cmd_level >= 1,
        forall|k: int, x: int|
            0 <= k < tree.len() && 0 <= x < tree[k].subcommands.len() ==> (
            #[trigger] tree[k].subcommands[x]).cmd_level >= 2,
        forall|x: int|
            0 <= x < cur.subcommands.len() ==> (#[trigger] cur.subcommands[x]).cmd_level >= 2,
    ensures
        ({
            let r = group_from(cmds, i, tree, cur, add_one, allow);
            &&& forall|k: int| 0 <= k < r.len() ==> (#[trigger] r[k]).cmd_level >= 1
            &&& forall|k: int, x: int|
                0 <= k < r.len() && 0 <= x < r[k].subcommands.len() ==> (
                #[trigger] r[k].subcommands[x]).cmd_level >= 2
        }),
    decreases cmds.len() - i,
{
    if i < cmds.len() {
        let c1 = desc_trimmed(cmds[i]);
        let allow2 = allow || c1.cmd_level > 1;
        let add2 = add_one || (allow2 && c1.cmd_level == 1);
        let c2 = CmdModel {
            cmd_level: c1.cmd_level + if add2 {
                1int
            } else {
                0int
            },
            ..c1
        };
        assert(c2.cmd_level >= 1);
        let in_child = c2.cmd_level > cur.cmd_level;
        let in_sibling = !in_child && c2.cmd_level == cur.cmd_level && i > 0;
        let cur2 = if in_child {
            CmdModel { subcommands: cur.subcommands.push(c2), ..cur }
        } else if in_sibling {
            c2
        } else {
            cur
        };
        if in_child {
            assert(c2.cmd_level >= 2);
            assert forall|x: int|
                0 <= x < cur2.subcommands.len() implies (
                #[trigger] cur2.subcommands[x]).cmd_level >= 2 by {
                if x < cur.subcommands.len() {
                    assert(cur2.subcommands[x] == cur.subcommands[x]);
                } else {
                    assert(cur2.subcommands[x] == c2);
                }
            }
        }
        assert(cur2.cmd_level >= 1);
        let tree2 = if in_sibling {
            tree.push(cur)
        } else {
            tree
        };
        let tree3 = if i == cmds.len() - 1 && c2.cmd_level >= cur2.cmd_level {
            tree2.push(cur2)
        } else {
            tree2
        };
        assert forall|k: int, x: int|
            0 <= k < tree3.len() && 0 <= x < tree3[k].subcommands.len() implies (
            #[trigger] tree3[k].subcommands[x]).cmd_level >= 2 by {
            if k < tree.len() {
                assert(tree3[k] == tree[k]);
            } else if in_sibling && k == tree.len() {
                assert(tree3[k] == cur);
            } else {
                assert(tree3[k] == cur2);
            }
        }
        assert forall|k: int| 0 <= k < tree3.len() implies (#[trigger] tree3[k]).cmd_level
            >= 1 by {
            if k < tree.len() {
                assert(tree3[k] == tree[k]);
            } else if in_sibling && k == tree.len() {
                assert(tree3[k] == cur);
            } else {
                assert(tree3[k] == cur2);
            }
        }
        lemma_group_levels(cmds, i + 1, tree3, cur2, add2, allow2);
        assert(group_from(cmds, i, tree, cur, add_one, allow) == group_from(
            cmds,
            i + 1,
            tree3,
            cur2,
            add2,
            allow2,
        ));
    } else {
        assert(group_from(cmds, i, tree, cur, add_one, allow) == tree);
    }
}

/// The top-level grouping of a list of positive levels: pending children sit
/// at level two or more, so their levels are in the treeifier's range.
pub proof fn lemma_group_levels_top(cmds: Seq<CmdModel>)
    requires
        cmds.len() > 0,
        cmds_flat(cmds),
        forall|j: int| 0 <= j < cmds.len() ==> (#[trigger] cmds[j]).cmd_level >= 1,
    ensures
        forall|k: int, x: int|
            0 <= k < spec_group(cmds).len() && 0 <= x < spec_group(cmds)[k].subcommands.len()
                ==> (#[trigger] spec_group(cmds)[k].subcommands[x]).cmd_level >= 2,
{
    let cur = cmds[0];
    let c1 = desc_trimmed(cmds[0]);
    let allow2 = false || c1.cmd_level > 1;
    let add2 = false || (allow2 && c1.cmd_level == 1);
    let c2 = CmdModel {
        cmd_level: c1.cmd_level + if add2 {
            1int
        } else {
            0int
        },
        ..c1
    };
    assert(!add2);
    assert(c2.cmd_level == cur.cmd_level);
    if cmds.len() == 1 {
        reveal_with_fuel(group_from, 3);
        assert(spec_group(cmds) =~= Seq::<CmdModel>::empty().push(cur));
    } else {
        assert(spec_group(cmds) == group_from(cmds, 1, Seq::empty(), cur, add2, allow2));
        lemma_group_levels(cmds, 1, Seq::empty(), cur, add2, allow2);
    }
}

/// Grouping a flat list that opens with a top-level command keeps at least
/// one node, and every grouped node stands at level one.
pub proof fn lemma_group_root(
    cmds: Seq<CmdModel>,
    i: int,
    tree: Seq<CmdModel>,
    cur: CmdModel,
    add_one: bool,
    allow: bool,
)
    requires
        1 <= i <= cmds.len(),
        forall|j: int| 0 <= j < cmds.len() ==> (#[trigger] cmds[j]).cmd_level >= 1,
        cur.cmd_level == 1,
        forall|k: int| 0 <= k < tree.len() ==> (#[trigger] tree[k]).cmd_level == 1,
    ensures
        ({
            let r = group_from(cmds, i, tree, cur, add_one, allow);
            &&& i < cmds.len() || tree.len() > 0 ==> r.len() > 0
            &&& forall|k: int| 0 <= k < r.len() ==> (#[trigger] r[k]).cmd_level == 1
        }),
    decreases cmds.len() - i,
{
    if i < cmds.len() {
        let c1 = desc_trimmed(cmds[i]);
        let allow2 = allow || c1.cmd_level > 1;
        let add2 = add_one || (allow2 && c1.cmd_level == 1);
        let c2 = CmdModel {
            cmd_level: c1.cmd_level + if add2 {
                1int
            } else {
                0int
            },
            ..c1
        };
        assert(c2.cmd_level >= 1);
        let in_child = c2.cmd_level > cur.cmd_level;
        let in_sibling = !in_child && c2.cmd_level == cur.cmd_level && i > 0;
        let cur2 = if in_child {
            CmdModel { subcommands: cur.subcommands.push(c2), ..cur }
        } else if in_sibling {
            c2
        } else {
            cur
        };
        assert(cur2.cmd_level == 1);
        let tree2 = if in_sibling {
            tree.push(cur)
        } else {
            tree
        };
        let tree3 = if i == cmds.len() - 1 && c2.cmd_level >= cur2.cmd_level {
            tree2.push(cur2)
        } else {
            tree2
        };
        if i == cmds.len() - 1 {
            assert(c2.cmd_level >= cur2.cmd_level);
            assert(tree3.len() > 0);
        }
        lemma_group_root(cmds, i + 1, tree3, cur2, add2, allow2);
    }
}

/// The command tree of a nonempty flat list headed by a top-level command
/// has a root.
pub proof fn lemma_treeify_nonempty(cmds: Seq<CmdModel>)
    requires
        cmds.len() > 0,
        cmds_flat(cmds),
        cmds[0].cmd_level == 1,
        forall|j: int| 0 <= j < cmds.len() ==> (#[trigger] cmds[j]).cmd_level >= 1,
    ensures
        spec_treeify(cmds).len() > 0,
{
    let cur = cmds[0];
    let c1 = desc_trimmed(cmds[0]);
    let allow2 = false || c1.cmd_level > 1;
    let add2 = false || (allow2 && c1.cmd_level == 1);
    assert(!add2);
    if cmds.len() == 1 {
        reveal_with_fuel(group_from, 3);
        assert(spec_group(cmds) =~= Seq::<CmdModel>::empty().push(cur));
    } else {
        assert(spec_group(cmds) == group_from(cmds, 1, Seq::empty(), cur, add2, allow2));
        lemma_group_root(cmds, 1, Seq::empty(), cur, add2, allow2);
    }
    let grouped = spec_group(cmds);
    assert(grouped.len() > 0);
    assert(grouped[0].cmd_level == 1);
    lemma_group_flat(cmds);
    let e = if grouped[0].subcommands.len() > 0 {
        CmdModel { subcommands: spec_treeify(grouped[0].subcommands), ..grouped[0] }
    } else {
        grouped[0]
    };
    assert(e.cmd_level == 1);
    assert(keep_cmd(e));
    assert(spec_treeify(cmds) == treeify_each(grouped, cmds.len() as int));
    assert(treeify_each(grouped, cmds.len() as int) == seq![e] + treeify_each(
        grouped.drop_first(),
        cmds.len() as int,
    ));
}

/// Treeifies a flat command list: groups one level, treeifies the pending
/// children of each grouped command, and prunes commands with no script, no
/// surviving children and no top-level standing.
pub fn treeify_commands(commands: Vec<CommandBlock>) -> (r: Vec<CommandBlock>)
    requires
        cmds_flat(commands.deep_view()),
        levels_ok(commands.deep_view()),
    ensures
        r.deep_view() == spec_treeify(commands.deep_view()),
    decreases commands.deep_view().len(),
{
    let ghost m = commands.deep_view();
    if commands.len() == 0 {
        let out: Vec<CommandBlock> = Vec::new();
        proof {
            assert(out.deep_view() =~= spec_treeify(m));
        }
        return out;
    }
    proof {
        assert(m.len() == commands@.len());
        assert(commands.deep_view()[0] == commands@[0]@);
    }
    let mut cur: CommandBlock = commands[0].clone();
    let mut tree: Vec<CommandBlock> = Vec::new();
    let mut add_one = false;
    let mut allow = false;
    let n = commands.len();
    let mut i: usize = 0;
    proof {
        assert(cmd_model(cur) == m[0]);
        assert(tree.deep_view() =~= Seq::<CmdModel>::empty());
    }
    while i < n
        invariant
            0 <= i <= n,
            n == m.len(),
            n == commands@.len(),
            m == commands.deep_view(),
            cmds_flat(m),
            levels_ok(m),
            add_one ==> forall|j: int| 0 <= j < m.len() ==> (#[trigger] m[j]).cmd_level <= 254,
            spec_group(m) == group_from(
                m,
                i as int,
                tree.deep_view(),
                cmd_model(cur),
                add_one,
                allow,
            ),
        decreases n - i,
    {
        let ghost g_tree0 = tree.deep_view();
        let ghost g_cur0 = cmd_model(cur);
        let ghost g_add0 = add_one;
        let ghost g_allow0 = allow;
        proof {
            assert(commands.deep_view()[i as int] == commands@[i as int]@);
        }
        let mut c: CommandBlock = commands[i].clone();
        let dv = chars_of(c.desc.as_str());
        let td = trim_and_remove_options(&dv);
        c.desc = string_of(&td);
        let ghost g_c1 = desc_trimmed(m[i as int]);
        proof {
            assert(cmd_model(c) =~= g_c1);
        }
        if c.cmd_level > 1 {
            allow = true;
        }
        if allow && c.cmd_level == 1 {
            add_one = true;
            proof {
                assert(m[i as int].cmd_level == 1);
            }
        }
        let ghost g_allow2 = g_allow0 || g_c1.cmd_level > 1;
        let ghost g_add2 = g_add0 || (g_allow2 && g_c1.cmd_level == 1);
        proof {
            assert(allow == g_allow2);
            assert(add_one == g_add2);
        }
        if add_one {
            c.cmd_level = c.cmd_level + 1;
        }
        let ghost g_c2 = CmdModel {
            cmd_level: g_c1.cmd_level + if g_add2 {
                1int
            } else {
                0int
            },
            ..g_c1
        };
        proof {
            assert(cmd_model(c) =~= g_c2);
        }
        let ghost g_in_child = g_c2.cmd_level > g_cur0.cmd_level;
        let ghost g_in_sibling = !g_in_child && g_c2.cmd_level == g_cur0.cmd_level && i > 0;
        let ghost g_cur2 = if g_in_child {
            CmdModel { subcommands: g_cur0.subcommands.push(g_c2), ..g_cur0 }
        } else if g_in_sibling {
            g_c2
        } else {
            g_cur0
        };
        let ghost g_tree2 = if g_in_sibling {
            g_tree0.push(g_cur0)
        } else {
            g_tree0
        };
        let clvl = c.cmd_level;
        if c.cmd_level > cur.cmd_level {
            cur.subcommands.push(c);
            proof {
                assert(cmd_model(cur).subcommands =~= g_cur0.subcommands.push(g_c2));
                assert(cmd_model(cur) =~= g_cur2);
            }
        } else if c.cmd_level == cur.cmd_level && i > 0 {
            core::mem::swap(&mut cur, &mut c);
            tree.push(c);
            proof {
                assert(tree.deep_view() =~= g_tree2);
                assert(cmd_model(cur) == g_cur2);
            }
        } else {
            proof {
                assert(cmd_model(cur) == g_cur2);
                assert(tree.deep_view() == g_tree2);
            }
        }
        proof {
            assert(cmd_model(cur) == g_cur2);
            assert(tree.deep_view() == g_tree2);
        }
        let ghost g_tree3 = if i == n - 1 && g_c2.cmd_level >= g_cur2.cmd_level {
            g_tree2.push(g_cur2)
        } else {
            g_tree2
        };
        if i == n - 1 && clvl >= cur.cmd_level {
            let sealed = cur.clone();
            tree.push(sealed);
            proof {
                assert(tree.deep_view() =~= g_tree3);
            }
        } else {
            proof {
                assert(tree.deep_view() == g_tree3);
            }
        }
        proof {
            assert(group_from(m, i as int, g_tree0, g_cur0, g_add0, g_allow0) == group_from(
                m,
                i + 1 as int,
                g_tree3,
                g_cur2,
                g_add2,
                g_allow2,
            ));
        }
        i = i + 1;
    }
    proof {
        assert(spec_group(m) == tree.deep_view());
        lemma_group_flat(m);
        lemma_group_levels_top(m);
    }
    let mut out: Vec<CommandBlock> = Vec::new();
    let mut rest = tree;
    let ghost grouped = spec_group(m);
    let ghost b = m.len() as int;
    proof {
        assert(out.deep_view() =~= Seq::<CmdModel>::empty());
        assert(rest.deep_view() == grouped);
        assert(Seq::<CmdModel>::empty() + treeify_each(grouped, b) =~= treeify_each(
            grouped,
            b,
        ));
        assert forall|k: int| 0 <= k < grouped.len() implies levels_ok(
            (#[trigger] grouped[k]).subcommands,
        ) by {
            assert forall|x: int|
                0 <= x < grouped[k].subcommands.len() implies (
                #[trigger] grouped[k].subcommands[x]).cmd_level >= 1 && grouped[k].subcommands[x].cmd_level
                    != 1 by {
                assert(grouped[k].subcommands[x].cmd_level >= 2);
            }
        }
    }
    while rest.len() > 0
        invariant
            m == commands.deep_view(),
            cmds_flat(m),
            m.len() > 0,
            b == m.len() as int,
            out.deep_view() + treeify_each(rest.deep_view(), b) == treeify_each(grouped, b),
            forall|k: int|
                0 <= k < rest.deep_view().len() ==> cmds_flat(
                    (#[trigger] rest.deep_view()[k]).subcommands,
                ) && rest.deep_view()[k].subcommands.len() < m.len() && levels_ok(
                    rest.deep_view()[k].subcommands,
                ),
        decreases rest@.len(),
    {
        let ghost rm = rest.deep_view();
        let mut el = rest.remove(0);
        proof {
            assert(cmd_model(el) == rm[0]);
            assert(rest.deep_view() =~= rm.drop_first());
        }
        let ghost g_e = if rm[0].subcommands.len() > 0 {
            CmdModel { subcommands: spec_treeify(rm[0].subcommands), ..rm[0] }
        } else {
            rm[0]
        };
        if el.subcommands.len() > 0 {
            let mut subs: Vec<CommandBlock> = Vec::new();
            core::mem::swap(&mut el.subcommands, &mut subs);
            proof {
                assert(subs.deep_view() == rm[0].subcommands);
            }
            let fixed = treeify_commands(subs);
            el.subcommands = fixed;
            proof {
                crate::command::lemma_cmd_subs(el);
                assert(cmd_model(el) =~= g_e);
            }
        } else {
            proof {
                assert(cmd_model(el) =~= g_e);
            }
        }
        let keep = el.script.has_script() || el.subcommands.len() > 0 || el.cmd_level == 1;
        proof {
            assert(keep == keep_cmd(g_e));
            assert(treeify_each(rm, b) == (if keep_cmd(g_e) {
                seq![g_e] + treeify_each(rm.drop_first(), b)
            } else {
                treeify_each(rm.drop_first(), b)
            }));
        }
        if keep {
            let ghost prev = out.deep_view();
            out.push(el);
            proof {
                assert(out.deep_view() =~= prev.push(g_e));
                assert(prev.push(g_e) + treeify_each(rm.drop_first(), b) =~= prev + (seq![g_e]
                    + treeify_each(rm.drop_first(), b)));
            }
        }
    }
    proof {
        assert(rest.deep_view() =~= Seq::<CmdModel>::empty());
        assert(out.deep_view() + treeify_each(Seq::<CmdModel>::empty(), b) =~= out.deep_view());
        assert(spec_treeify(m) == treeify_each(grouped, b));
        assert(out.deep_view() =~= spec_treeify(m));
    }
    out
}

/// Two commands that override each other: same name at the same level.
pub open spec fn same_key(a: CmdModel, b: CmdModel) -> bool {
    a.name == b.name && a.cmd_level == b.cmd_level
}

/// Whether a command with the same key occurs in `l`.
pub open spec fn has_key_in(c: CmdModel, l: Seq<CmdModel>) -> bool {
    exists|k: int| 0 <= k < l.len() && same_key(c, #[trigger] l[k])
}

/// A deduplicated command, its surviving subcommands deduplicated in turn.
pub open spec fn dedup_node(c: CmdModel) -> CmdModel
    decreases c,
{
    if c.subcommands.len() > 0 {
        CmdModel { subcommands: spec_remove_dups(c.subcommands), ..c }
    } else {
        c
    }
}

/// Later definitions override earlier ones: a command is dropped when a
/// command with the same name and level follows it, so of equal siblings
/// only the last survives, in source order.
pub open spec fn spec_remove_dups(s: Seq<CmdModel>) -> Seq<CmdModel>
    decreases s,
{
    if s.len() == 0 {
        Seq::empty()
    } else {
        let rest = spec_remove_dups(s.drop_first());
        if has_key_in(s[0], s.drop_first()) {
            rest
        } else {
            seq![dedup_node(s[0])] + rest
        }
    }
}

/// Deduplication keeps at least the last command.
pub proof fn lemma_dedup_nonempty(s: Seq<CmdModel>)
    requires
        s.len() > 0,
    ensures
        spec_remove_dups(s).len() > 0,
    decreases s.len(),
{
    if has_key_in(s[0], s.drop_first()) {
        lemma_dedup_nonempty(s.drop_first());
    }
}

/// Decides whether a command with the same name and level is in `rest`.
fn has_same_key(el: &CommandBlock, rest: &Vec<CommandBlock>) -> (r: bool)
    ensures
        r == has_key_in(cmd_model(*el), rest.deep_view()),
{
    let mut j: usize = 0;
    while j < rest.len()
        invariant
            0 <= j <= rest@.len(),
            forall|k: int| 0 <= k < j ==> !same_key(cmd_model(*el), rest.deep_view()[k]),
        decreases rest@.len() - j,
    {
        proof {
            assert(rest.deep_view()[j as int] == cmd_model(rest@[j as int]));
        }
        if el.name == rest[j].name && el.cmd_level == rest[j].cmd_level {
            return true;
        }
        j = j + 1;
    }
    false
}

/// Removes duplicate commands so that later definitions override earlier
/// ones: of two commands with the same name and level, only the one defined
/// last survives, and the surviving commands keep their source order.
pub fn remove_duplicates(cmds: Vec<CommandBlock>) -> (r: Vec<CommandBlock>)
    ensures
        r.deep_view() == spec_remove_dups(cmds.deep_view()),
    decreases cmds.deep_view(),
{
    let ghost m = cmds.deep_view();
    let mut out: Vec<CommandBlock> = Vec::new();
    let mut rest = cmds;
    let ghost mut idx: int = 0;
    proof {
        assert(out.deep_view() =~= Seq::<CmdModel>::empty());
        assert(m.skip(0) =~= m);
        assert(Seq::<CmdModel>::empty() + spec_remove_dups(m) =~= spec_remove_dups(m));
    }
    while rest.len() > 0
        invariant
            0 <= idx <= m.len(),
            rest.deep_view() == m.skip(idx),
            m == cmds.deep_view(),
            out.deep_view() + spec_remove_dups(rest.deep_view()) == spec_remove_dups(m),
        decreases rest@.len(),
    {
        let ghost rm = rest.deep_view();
        let mut el = rest.remove(0);
        proof {
            assert(cmd_model(el) == rm[0]);
            assert(rest.deep_view() =~= rm.drop_first());
            assert(rm[0] == m[idx]);
            assert(rest.deep_view() =~= m.skip(idx + 1));
        }
        if has_same_key(&el, &rest) {
            proof {
                assert(out.deep_view() + spec_remove_dups(rest.deep_view())
                    == spec_remove_dups(m));
            }
        } else {
            let ghost g_node = dedup_node(rm[0]);
            if el.subcommands.len() > 0 {
                let mut subs: Vec<CommandBlock> = Vec::new();
                core::mem::swap(&mut el.subcommands, &mut subs);
                proof {
                    crate::command::lemma_cmd_subs(el);
                    assert(subs.deep_view() == rm[0].subcommands);
                    assert(decreases_to!(m => m[idx]));
                    assert(decreases_to!(m[idx] => m[idx].subcommands));
                }
                let fixed = remove_duplicates(subs);
                el.subcommands = fixed;
                proof {
                    crate::command::lemma_cmd_subs(el);
                    assert(cmd_model(el) =~= g_node);
                }
            } else {
                proof {
                    assert(cmd_model(el) =~= g_node);
                }
            }
            let ghost prev = out.deep_view();
            out.push(el);
            proof {
                assert(out.deep_view() =~= prev.push(g_node));
                assert(prev.push(g_node) + spec_remove_dups(rm.drop_first()) =~= prev + (seq![
                    g_node,
                ] + spec_remove_dups(rm.drop_first())));
            }
        }
        proof {
            idx = idx + 1;
        }
    }
    proof {
        assert(rest.deep_view() =~= Seq::<CmdModel>::empty());
        assert(out.deep_view() + spec_remove_dups(Seq::<CmdModel>::empty())
            =~= out.deep_view());
    }
    out
}

} // verus!
