//! The event-stream compiler: from structural events to the command tree.
//!
//! The compiler walks the events in document order with one command under
//! construction, one flag accumulator, and a text buffer that every start
//! event resets.  Headings seal the previous command and open a new one;
//! fences attach scripts; block quotes feed the description; `OPTIONS` lists
//! feed the named flags; an `<!-- inkfile: PATH -->` comment retargets the
//! source file of the commands that follow.

use vstd::prelude::*;
use vstd::string::StringExecFns;
use crate::command::{
    cmd_model, empty_flag_model, new_cmd_model, spec_build, CmdModel, CommandBlock, FlagModel,
    OptionFlag, ScriptModel,
};
use crate::events::{Event, EventModel};
use crate::flags::{opt_config, opt_item, spec_opt_config, spec_opt_item};
use crate::heading::{parse_heading_to_cmd, spec_parse_heading};
use crate::text::{
    chars_eq, chars_of, find_sub, find_sub_idx, is_ws, is_ws_char, matches_at, string_of,
    sub_chars,
};

verus! {

/// The message for a heading whose parsed name is empty.
pub open spec fn empty_name_msg() -> Seq<char> {
    "unexpected empty heading name"@
}

/// The message for a heading whose parsed name still contains whitespace.
pub open spec fn spaces_msg(name: Seq<char>) -> Seq<char> {
    "Command names cannot contain spaces. Found '"@ + name
        + "'. Did you forget to wrap args in ()?"@
}

/// The language tags reserved for another platform and skipped here.
pub open spec fn reserved_lang(s: Seq<char>) -> bool {
    s == "powershell"@ || s == "batch"@ || s == "cmd"@
}

/// Whether any character of `s` is whitespace.
pub open spec fn has_ws_char(s: Seq<char>) -> bool {
    exists|i: int| 0 <= i < s.len() && is_ws_char(s[i])
}

/// The state of the event compiler between events.
#[verifier::ext_equal]
pub struct CompModel {
    /// The sealed commands, in document order.
    pub cmds: Seq<CmdModel>,
    /// The command under construction.
    pub cur: CmdModel,
    /// The flag under construction.
    pub flag: FlagModel,
    /// The text buffer, reset at every start event.
    pub text: Seq<char>,
    /// The OPTIONS list nesting depth, zero outside an OPTIONS list.
    pub list_level: int,
    /// Whether any command was sealed yet.
    pub first_pushed: bool,
    /// The source file for commands created from here on.
    pub file: Seq<char>,
    /// Whether a block quote is open.
    pub in_quote: bool,
}

/// The compiler's starting state: one empty level-one command.
pub open spec fn comp_init() -> CompModel {
    CompModel {
        cmds: Seq::empty(),
        cur: new_cmd_model(1),
        flag: empty_flag_model(),
        text: Seq::empty(),
        list_level: 0,
        first_pushed: false,
        file: Seq::empty(),
        in_quote: false,
    }
}

/// What one event does to the compiler state, or the error that stops the
/// compilation.
pub open spec fn comp_step(st: CompModel, ev: EventModel) -> Result<CompModel, Seq<char>> {
    match ev {
        EventModel::HeadingStart { level, pos } => {
            let st1 = if level > 1 || st.first_pushed {
                CompModel { cmds: st.cmds.push(spec_build(st.cur)), first_pushed: true, ..st }
            } else {
                st
            };
            Ok(
                CompModel {
                    cur: CmdModel {
                        inkjet_file: st1.file,
                        start: pos,
                        ..new_cmd_model(level)
                    },
                    text: Seq::empty(),
                    ..st1
                },
            )
        },
        EventModel::HeadingEnd { level } => {
            let vlevel = if st.first_pushed && level == 1 {
                2
            } else {
                level
            };
            let pr = spec_parse_heading(vlevel, st.text);
            if pr.0.len() == 0 {
                Err(empty_name_msg())
            } else if has_ws_char(pr.0) {
                Err(spaces_msg(pr.0))
            } else {
                let cur2 = CmdModel { name: pr.0, args: pr.2, ..st.cur };
                let cur3 = if pr.1.len() > 0 {
                    CmdModel { aliases: pr.1, ..cur2 }
                } else {
                    cur2
                };
                Ok(CompModel { cur: cur3, ..st })
            }
        },
        EventModel::FenceStart { info, pos } => {
            let st1 = if !reserved_lang(info) {
                CompModel {
                    cur: CmdModel {
                        end: pos,
                        script: ScriptModel { executor: info, ..st.cur.script },
                        ..st.cur
                    },
                    ..st
                }
            } else {
                st
            };
            Ok(CompModel { text: Seq::empty(), ..st1 })
        },
        EventModel::FenceEnd { info } => {
            if !reserved_lang(info) {
                Ok(
                    CompModel {
                        cur: CmdModel {
                            script: ScriptModel { source: st.text, ..st.cur.script },
                            ..st.cur
                        },
                        ..st
                    },
                )
            } else {
                Ok(st)
            }
        },
        EventModel::QuoteStart => Ok(CompModel { in_quote: true, text: Seq::empty(), ..st }),
        EventModel::QuoteEnd => Ok(CompModel { in_quote: false, ..st }),
        EventModel::ListStart => {
            let ll = if st.text == "OPTIONS"@ || st.list_level > 0 {
                st.list_level + 1
            } else {
                st.list_level
            };
            Ok(CompModel { list_level: ll, text: Seq::empty(), ..st })
        },
        EventModel::ListEnd => {
            let ll = if st.list_level - 1 > 0 {
                st.list_level - 1
            } else {
                0
            };
            if ll == 1 {
                Ok(
                    CompModel {
                        cur: CmdModel {
                            named_flags: st.cur.named_flags.push(st.flag),
                            ..st.cur
                        },
                        flag: empty_flag_model(),
                        list_level: ll,
                        ..st
                    },
                )
            } else {
                Ok(CompModel { list_level: ll, ..st })
            }
        },
        EventModel::ItemStart => Ok(CompModel { text: Seq::empty(), ..st }),
        EventModel::ItemEnd => Ok(st),
        EventModel::Boundary => Ok(CompModel { text: Seq::empty(), ..st }),
        EventModel::Text { text: t } => {
            let nt = st.text + t;
            let st1 = if st.in_quote {
                CompModel {
                    cur: CmdModel { desc: st.cur.desc + t + seq![' '], ..st.cur },
                    text: nt,
                    ..st
                }
            } else {
                CompModel { text: nt, ..st }
            };
            if st1.list_level == 1 {
                match spec_opt_item(nt, st1.flag) {
                    Ok(pr) => if pr.1 {
                        Ok(
                            CompModel {
                                cur: CmdModel {
                                    named_flags: st1.cur.named_flags.push(pr.0),
                                    ..st1.cur
                                },
                                flag: empty_flag_model(),
                                ..st1
                            },
                        )
                    } else {
                        Ok(CompModel { flag: pr.0, ..st1 })
                    },
                    Err(e) => Err(e),
                }
            } else if st1.list_level == 2 {
                match spec_opt_config(nt, st1.flag) {
                    Ok(f2) => Ok(CompModel { flag: f2, ..st1 }),
                    Err(e) => Err(e),
                }
            } else {
                Ok(st1)
            }
        },
        EventModel::Code { text: t } => {
            let wrapped = seq!['`'] + t + seq!['`'];
            let nt = st.text + wrapped;
            if st.in_quote {
                Ok(
                    CompModel {
                        cur: CmdModel { desc: st.cur.desc + wrapped + seq![' '], ..st.cur },
                        text: nt,
                        ..st
                    },
                )
            } else {
                Ok(CompModel { text: nt, ..st })
            }
        },
        EventModel::Html { text: t } => {
            let pfx = "<!-- inkfile: "@;
            let st1 = if matches_at(t, 0, pfx) {
                let rest = t.skip(pfx.len() as int);
                let fl = match find_sub_idx(rest, " -->"@, 0) {
                    Some(i) => rest.take(i),
                    None => rest,
                };
                CompModel { file: fl, ..st }
            } else {
                st
            };
            Ok(CompModel { text: st.text + t, ..st1 })
        },
    }
}

/// The compiler state after the events from `i` on, or the first error.
pub open spec fn comp_run(events: Seq<EventModel>, i: int, st: CompModel) -> Result<
    CompModel,
    Seq<char>,
>
    decreases events.len() - i,
{
    if i < 0 || i >= events.len() {
        Ok(st)
    } else {
        match comp_step(st, events[i]) {
            Ok(st2) => comp_run(events, i + 1, st2),
            Err(e) => Err(e),
        }
    }
}

/// The flat command list of an event sequence: the compiler runs over the
/// events and the command still under construction is sealed at the end.
pub open spec fn spec_flat(events: Seq<EventModel>) -> Result<Seq<CmdModel>, Seq<char>> {
    match comp_run(events, 0, comp_init()) {
        Ok(st) => Ok(st.cmds.push(spec_build(st.cur))),
        Err(e) => Err(e),
    }
}

/// A step never raises the list depth by more than one and never below zero.
pub proof fn lemma_step_list_level(st: CompModel, ev: EventModel)
    requires
        st.list_level >= 0,
    ensures
        match comp_step(st, ev) {
            Ok(st2) => 0 <= st2.list_level <= st.list_level + 1,
            Err(e) => true,
        },
{
}

/// The event compiler: the flat command list under construction.
pub struct Compiler {
    /// The sealed commands so far.
    pub cmds: Vec<CommandBlock>,
    /// The command under construction.
    pub cur: CommandBlock,
    /// The flag under construction.
    pub flag: OptionFlag,
    /// The text buffer.
    pub text: Vec<char>,
    /// The OPTIONS list nesting depth.
    pub list_level: u64,
    /// Whether any command was sealed yet.
    pub first_pushed: bool,
    /// The source file for commands created from here on.
    pub file: String,
    /// Whether a block quote is open.
    pub in_quote: bool,
}

impl View for Compiler {
    type V = CompModel;

    open spec fn view(&self) -> CompModel {
        CompModel {
            cmds: self.cmds.deep_view(),
            cur: cmd_model(self.cur),
            flag: self.flag@,
            text: self.text@,
            list_level: self.list_level as int,
            first_pushed: self.first_pushed,
            file: self.file@,
            in_quote: self.in_quote,
        }
    }
}

/// Decides whether the info string names a reserved language tag.
fn reserved(info: &Vec<char>) -> (r: bool)
    ensures
        r == reserved_lang(info@),
{
    let a = chars_of("powershell");
    let b = chars_of("batch");
    let c = chars_of("cmd");
    chars_eq(info, &a) || chars_eq(info, &b) || chars_eq(info, &c)
}

/// Decides whether any character is whitespace.
fn contains_ws(v: &Vec<char>) -> (r: bool)
    ensures
        r == has_ws_char(v@),
{
    let mut i: usize = 0;
    while i < v.len()
        invariant
            0 <= i <= v@.len(),
            forall|j: int| 0 <= j < i ==> !is_ws_char(v@[j]),
        decreases v@.len() - i,
    {
        if is_ws(v[i]) {
            return true;
        }
        i = i + 1;
    }
    false
}

impl Compiler {
    /// A compiler ready for the first event.
    pub fn new() -> (r: Self)
        ensures
            r@ == comp_init(),
    {
        let r = Compiler {
            cmds: Vec::new(),
            cur: CommandBlock::new(1),
            flag: OptionFlag::new(),
            text: Vec::new(),
            list_level: 0,
            first_pushed: false,
            file: String::new(),
            in_quote: false,
        };
        proof {
            assert(r@ =~= comp_init());
        }
        r
    }

    /// Applies one event, or stops the compilation with its error.
    #[verifier::loop_isolation(false)]
    fn step(&mut self, ev: &Event) -> (r: Result<(), String>)
        requires
            old(self)@.list_level < u64::MAX,
        ensures
            match r {
                Ok(u) => comp_step(old(self)@, ev@) == Ok::<CompModel, Seq<char>>(final (self)@),
                Err(e) => comp_step(old(self)@, ev@) == Err::<CompModel, Seq<char>>(e@),
            },
    {
        let ghost st0 = self@;
        match ev {
            Event::HeadingStart { level, pos } => {
                let mut fresh = CommandBlock::new(*level);
                core::mem::swap(&mut self.cur, &mut fresh);
                if *level > 1 || self.first_pushed {
                    let sealed = fresh.build();
                    self.cmds.push(sealed);
                    self.first_pushed = true;
                    proof {
                        assert(self.cmds.deep_view() =~= st0.cmds.push(spec_build(st0.cur)));
                    }
                }
                self.cur.inkjet_file = self.file.clone();
                self.cur.start = *pos;
                self.text.clear();
                proof {
                    assert(self@ =~= comp_step(st0, ev@)->Ok_0);
                }
                Ok(())
            },
            Event::HeadingEnd { level } => {
                let vlevel: u8 = if self.first_pushed && *level == 1 {
                    2
                } else {
                    *level
                };
                let (name, alias, args) = parse_heading_to_cmd(vlevel, &self.text);
                let namev = chars_of(name.as_str());
                if namev.len() == 0 {
                    Err(String::from_str("unexpected empty heading name"))
                } else if contains_ws(&namev) {
                    let mut msg = String::from_str("Command names cannot contain spaces. Found '");
                    msg.append(name.as_str());
                    msg.append("'. Did you forget to wrap args in ()?");
                    Err(msg)
                } else {
                    self.cur.name = name;
                    self.cur.args = args;
                    if !alias.as_str().is_empty() {
                        self.cur.aliases = alias;
                    }
                    proof {
                        assert(self@ =~= comp_step(st0, ev@)->Ok_0);
                    }
                    Ok(())
                }
            },
            Event::FenceStart { info, pos } => {
                if !reserved(info) {
                    self.cur.end = *pos;
                    self.cur.script.executor = string_of(info);
                }
                self.text.clear();
                proof {
                    assert(self@ =~= comp_step(st0, ev@)->Ok_0);
                }
                Ok(())
            },
            Event::FenceEnd { info } => {
                if !reserved(info) {
                    self.cur.script.source = string_of(&self.text);
                }
                proof {
                    assert(self@ =~= comp_step(st0, ev@)->Ok_0);
                }
                Ok(())
            },
            Event::QuoteStart => {
                self.in_quote = true;
                self.text.clear();
                proof {
                    assert(self@ =~= comp_step(st0, ev@)->Ok_0);
                }
                Ok(())
            },
            Event::QuoteEnd => {
                self.in_quote = false;
                proof {
                    assert(self@ =~= comp_step(st0, ev@)->Ok_0);
                }
                Ok(())
            },
            Event::ListStart => {
                let marker = chars_of("OPTIONS");
                if chars_eq(&self.text, &marker) || self.list_level > 0 {
                    self.list_level = self.list_level + 1;
                }
                self.text.clear();
                proof {
                    assert(self@ =~= comp_step(st0, ev@)->Ok_0);
                }
                Ok(())
            },
            Event::ListEnd => {
                if self.list_level > 1 {
                    self.list_level = self.list_level - 1;
                } else {
                    self.list_level = 0;
                }
                if self.list_level == 1 {
                    let mut tmp = OptionFlag::new();
                    core::mem::swap(&mut self.flag, &mut tmp);
                    self.cmds_push_flag(tmp);
                    proof {
                        assert(self@ =~= comp_step(st0, ev@)->Ok_0);
                    }
                    Ok(())
                } else {
                    proof {
                        assert(self@ =~= comp_step(st0, ev@)->Ok_0);
                    }
                    Ok(())
                }
            },
            Event::ItemStart => {
                self.text.clear();
                proof {
                    assert(self@ =~= comp_step(st0, ev@)->Ok_0);
                }
                Ok(())
            },
            Event::ItemEnd => {
                proof {
                    assert(self@ =~= comp_step(st0, ev@)->Ok_0);
                }
                Ok(())
            },
            Event::Boundary => {
                self.text.clear();
                proof {
                    assert(self@ =~= comp_step(st0, ev@)->Ok_0);
                }
                Ok(())
            },
            Event::Text { text: t } => {
                let mut seg = sub_chars(t, 0, t.len());
                proof {
                    assert(seg@ =~= t@);
                }
                self.text.append(&mut seg);
                proof {
                    assert(self.text@ =~= st0.text + t@);
                }
                if self.in_quote {
                    let ds = string_of(t);
                    self.cur.desc.append(ds.as_str());
                    self.cur.desc.append(" ");
                    proof {
                        reveal_strlit(" ");
                        assert(" "@ =~= seq![' ']);
                        assert(self.cur.desc@ =~= st0.cur.desc + t@ + seq![' ']);
                    }
                }
                let ghost st1 = comp_text_mid(st0, t@);
                proof {
                    assert(self@ =~= st1);
                }
                if self.list_level == 1 {
                    let mut tmp = OptionFlag::new();
                    core::mem::swap(&mut self.flag, &mut tmp);
                    match opt_item(&self.text, tmp) {
                        Ok((f2, sealed)) => {
                            if sealed {
                                self.cmds_push_flag(f2);
                                proof {
                                    assert(self@ =~= comp_step(st0, ev@)->Ok_0);
                                }
                                Ok(())
                            } else {
                                self.flag = f2;
                                proof {
                                    assert(self@ =~= comp_step(st0, ev@)->Ok_0);
                                }
                                Ok(())
                            }
                        },
                        Err(e) => {
                            proof {
                                assert(comp_step(st0, ev@) == Err::<CompModel, Seq<char>>(e@));
                            }
                            Err(e)
                        },
                    }
                } else if self.list_level == 2 {
                    let mut tmp = OptionFlag::new();
                    core::mem::swap(&mut self.flag, &mut tmp);
                    match opt_config(&self.text, tmp) {
                        Ok(f2) => {
                            self.flag = f2;
                            proof {
                                assert(self@ =~= comp_step(st0, ev@)->Ok_0);
                            }
                            Ok(())
                        },
                        Err(e) => {
                            proof {
                                assert(comp_step(st0, ev@) == Err::<CompModel, Seq<char>>(e@));
                            }
                            Err(e)
                        },
                    }
                } else {
                    proof {
                        assert(self@ =~= comp_step(st0, ev@)->Ok_0);
                    }
                    Ok(())
                }
            },
            Event::Code { text: t } => {
                self.text.push('`');
                let mut seg = sub_chars(t, 0, t.len());
                proof {
                    assert(seg@ =~= t@);
                }
                self.text.append(&mut seg);
                self.text.push('`');
                proof {
                    assert(self.text@ =~= st0.text + (seq!['`'] + t@ + seq!['`']));
                }
                if self.in_quote {
                    self.cur.desc.append("`");
                    let ds = string_of(t);
                    self.cur.desc.append(ds.as_str());
                    self.cur.desc.append("` ");
                    proof {
                        reveal_strlit("`");
                        reveal_strlit("` ");
                        assert("`"@ =~= seq!['`']);
                        assert("` "@ =~= seq!['`', ' ']);
                        assert(self.cur.desc@ =~= st0.cur.desc + (seq!['`'] + t@ + seq!['`'])
                            + seq![' ']);
                    }
                }
                proof {
                    assert(self@ =~= comp_step(st0, ev@)->Ok_0);
                }
                Ok(())
            },
            Event::Html { text: t } => {
                let pfx = chars_of("<!-- inkfile: ");
                if crate::text::has_at(t, 0, &pfx) {
                    let tn = t.len();
                    let rest = sub_chars(t, pfx.len(), tn);
                    proof {
                        assert(rest@ =~= t@.skip("<!-- inkfile: "@.len() as int));
                    }
                    let sfx = chars_of(" -->");
                    let fl = match find_sub(&rest, &sfx, 0) {
                        Some(i) => sub_chars(&rest, 0, i),
                        None => sub_chars(&rest, 0, rest.len()),
                    };
                    proof {
                        assert(fl@ =~= (match find_sub_idx(rest@, " -->"@, 0) {
                            Some(i) => rest@.take(i),
                            None => rest@,
                        }));
                    }
                    self.file = string_of(&fl);
                }
                let mut seg = sub_chars(t, 0, t.len());
                proof {
                    assert(seg@ =~= t@);
                }
                self.text.append(&mut seg);
                proof {
                    assert(self.text@ =~= st0.text + t@);
                    assert(self@ =~= comp_step(st0, ev@)->Ok_0);
                }
                Ok(())
            },
        }
    }

    /// Pushes a sealed flag onto the command under construction.
    fn cmds_push_flag(&mut self, f: OptionFlag)
        ensures
            final (self)@ == (CompModel {
                cur: CmdModel {
                    named_flags: old(self)@.cur.named_flags.push(f@),
                    ..old(self)@.cur
                },
                ..old(self)@
            }),
    {
        self.cur.named_flags.push(f);
        proof {
            assert(self@.cur.named_flags =~= old(self)@.cur.named_flags.push(f@));
            assert(self@ =~= (CompModel {
                cur: CmdModel {
                    named_flags: old(self)@.cur.named_flags.push(f@),
                    ..old(self)@.cur
                },
                ..old(self)@
            }));
        }
    }
}

/// The state after a text event's buffer and description updates, before the
/// OPTIONS handling.
pub open spec fn comp_text_mid(st: CompModel, t: Seq<char>) -> CompModel {
    if st.in_quote {
        CompModel {
            cur: CmdModel { desc: st.cur.desc + t + seq![' '], ..st.cur },
            text: st.text + t,
            ..st
        }
    } else {
        CompModel { text: st.text + t, ..st }
    }
}

/// The shape the compiler state keeps: sealed commands are flat with levels
/// one to six, the first sealed command is the document root, and a command
/// was sealed exactly when the first-push mark is set.
pub open spec fn st_shape(st: CompModel) -> bool {
    &&& forall|k: int|
        0 <= k < st.cmds.len() ==> (#[trigger] st.cmds[k]).subcommands.len() == 0 && 1
            <= st.cmds[k].cmd_level <= 6
    &&& st.cur.subcommands.len() == 0
    &&& 1 <= st.cur.cmd_level <= 6
    &&& (st.cmds.len() > 0 ==> st.cmds[0].cmd_level == 1)
    &&& (st.first_pushed <==> st.cmds.len() > 0)
    &&& (st.cmds.len() == 0 ==> st.cur.cmd_level == 1)
}

/// One event keeps the compiler state in shape.
pub proof fn lemma_step_shape(st: CompModel, ev: EventModel)
    requires
        st_shape(st),
        match ev {
            EventModel::HeadingStart { level, pos } => 1 <= level <= 6,
            _ => true,
        },
    ensures
        match comp_step(st, ev) {
            Ok(st2) => st_shape(st2),
            Err(e) => true,
        },
{
    match ev {
        EventModel::HeadingStart { level, pos } => {
            let st1 = if level > 1 || st.first_pushed {
                CompModel { cmds: st.cmds.push(spec_build(st.cur)), first_pushed: true, ..st }
            } else {
                st
            };
            assert(spec_build(st.cur).subcommands.len() == 0);
            assert(spec_build(st.cur).cmd_level == st.cur.cmd_level);
            if level > 1 || st.first_pushed {
                if st.cmds.len() == 0 {
                    assert(st1.cmds[0] == spec_build(st.cur));
                }
            }
        },
        _ => {},
    }
}

/// The message reported when two commands share an alias.
pub open spec fn dup_alias_msg() -> Seq<char> {
    "Please update inkjet files to remove duplicate aliases"@
}

/// What compiling a document means: scan it into events, run the event
/// compiler into the flat command list, treeify, apply overrides, and fail
/// when any alias repeats in the finished tree; the result is the document
/// root with every surviving command nested under it.
pub open spec fn spec_compile(doc: Seq<char>) -> Result<CmdModel, Seq<char>> {
    match spec_flat(crate::scan::spec_scan(doc)) {
        Err(e) => Err(e),
        Ok(flat) => {
            let all = crate::tree::spec_remove_dups(crate::tree::spec_treeify(flat));
            let root = all[0];
            if crate::alias::has_dup_alias(crate::alias::all_aliases(root)) {
                Err(dup_alias_msg())
            } else {
                Ok(root)
            }
        },
    }
}

/// The main inkjet markdown parsing logic: takes an inkfile's contents and
/// returns the parsed CommandBlock tree, or the message of the first error.
pub fn build_command_structure(inkfile_contents: &str) -> (r: Result<CommandBlock, String>)
    ensures
        match r {
            Ok(cmd) => spec_compile(inkfile_contents@) == Ok::<CmdModel, Seq<char>>(cmd@),
            Err(e) => spec_compile(inkfile_contents@) == Err::<CmdModel, Seq<char>>(e@),
        },
{
    let doc = chars_of(inkfile_contents);
    let events = crate::scan::scan(&doc);
    let ghost evm = events.deep_view();
    proof {
        crate::scan::lemma_scan_ok(doc@, 0, crate::scan::ModeModel::Top);
        assert(crate::scan::evs_ok(evm));
    }
    let mut comp = Compiler::new();
    let mut i: usize = 0;
    let n = events.len();
    while i < n
        invariant
            0 <= i <= n,
            n == events@.len(),
            evm == events.deep_view(),
            evm == crate::scan::spec_scan(doc@),
            doc@ == inkfile_contents@,
            crate::scan::evs_ok(evm),
            comp_run(evm, 0, comp_init()) == comp_run(evm, i as int, comp@),
            st_shape(comp@),
            comp@.list_level <= i as int,
        decreases n - i,
    {
        let ghost st0 = comp@;
        proof {
            assert(events.deep_view()[i as int] == events@[i as int]@);
            lemma_step_list_level(st0, evm[i as int]);
            lemma_step_shape(st0, evm[i as int]);
        }
        let stepped = comp.step(&events[i]);
        match stepped {
            Ok(()) => {},
            Err(e) => {
                proof {
                    assert(comp_run(evm, i as int, st0) == Err::<CompModel, Seq<char>>(e@));
                    assert(spec_flat(evm) == Err::<Seq<CmdModel>, Seq<char>>(e@));
                }
                return Err(e);
            },
        }
        i = i + 1;
    }
    let ghost stf = comp@;
    proof {
        assert(comp_run(evm, n as int, stf) == Ok::<CompModel, Seq<char>>(stf));
        assert(spec_flat(evm) == Ok::<Seq<CmdModel>, Seq<char>>(
            stf.cmds.push(spec_build(stf.cur)),
        ));
    }
    let Compiler { cmds: mut flat, cur, .. } = comp;
    let sealed = cur.build();
    flat.push(sealed);
    let ghost fm = stf.cmds.push(spec_build(stf.cur));
    proof {
        assert(flat.deep_view() =~= fm);
        assert(spec_build(stf.cur).subcommands.len() == 0);
        assert(spec_build(stf.cur).cmd_level == stf.cur.cmd_level);
        assert(crate::tree::cmds_flat(fm));
        assert forall|k: int| 0 <= k < fm.len() implies 1 <= (#[trigger] fm[k]).cmd_level
            <= 6 by {
            if k < stf.cmds.len() {
                assert(fm[k] == stf.cmds[k]);
            } else {
                assert(fm[k] == spec_build(stf.cur));
            }
        }
        assert(crate::tree::levels_ok(fm));
        assert(fm[0].cmd_level == 1) by {
            if stf.cmds.len() > 0 {
                assert(fm[0] == stf.cmds[0]);
            } else {
                assert(fm[0] == spec_build(stf.cur));
            }
        }
    }
    let tre = crate::tree::treeify_commands(flat);
    proof {
        crate::tree::lemma_treeify_nonempty(fm);
    }
    let mut all = crate::tree::remove_duplicates(tre);
    proof {
        crate::tree::lemma_dedup_nonempty(crate::tree::spec_treeify(fm));
        assert(all.deep_view().len() > 0);
        assert(all@.len() > 0);
    }
    let ghost allm = crate::tree::spec_remove_dups(crate::tree::spec_treeify(fm));
    let root = all.remove(0);
    proof {
        assert(cmd_model(root) == allm[0]);
    }
    if crate::alias::validate_no_duplicate_aliases(&root) {
        Err(String::from_str("Please update inkjet files to remove duplicate aliases"))
    } else {
        Ok(root)
    }
}

} // verus!
