//! The command tree: `CommandBlock` and its parts.
//!
//! A `CommandBlock` is one command extracted from a markdown document: its
//! heading depth, normalized name, aliases, description, script, positional
//! arguments, named flags and source location.  The mathematical models
//! (`CmdModel` and friends) mirror each field with sequences, and every
//! contract in the crate speaks in terms of them.

use vstd::prelude::*;
use vstd::string::StringExecFns;

verus! {

/// Model of a [`Script`]: the language tag and the source text.
#[verifier::ext_equal]
pub struct ScriptModel {
    pub executor: Seq<char>,
    pub source: Seq<char>,
}

/// Model of an [`Arg`].
#[verifier::ext_equal]
pub struct ArgModel {
    pub name: Seq<char>,
    pub val: Seq<char>,
    pub required: bool,
    pub default: Option<Seq<char>>,
    pub multiple: bool,
    pub last: bool,
}

/// Model of an [`OptionFlag`].
#[verifier::ext_equal]
pub struct FlagModel {
    pub name: Seq<char>,
    pub desc: Seq<char>,
    pub short: Seq<char>,
    pub long: Seq<char>,
    pub multiple: bool,
    pub takes_value: bool,
    pub validate_as_number: bool,
    pub required: bool,
    pub choices: Seq<Seq<char>>,
    pub val: Seq<char>,
}

/// Model of a [`CommandBlock`], with subcommands as a sequence of models.
#[verifier::ext_equal]
pub struct CmdModel {
    pub cmd_level: int,
    pub name: Seq<char>,
    pub aliases: Seq<char>,
    pub desc: Seq<char>,
    pub script: ScriptModel,
    pub subcommands: Seq<CmdModel>,
    pub args: Seq<ArgModel>,
    pub named_flags: Seq<FlagModel>,
    pub start: int,
    pub end: int,
    pub inkjet_file: Seq<char>,
    pub validation_error_msg: Seq<char>,
}

/// The source of a command: the language tag of its fenced code block and the
/// block's contents.  An empty `source` means the command has no script.
#[derive(Debug, PartialEq)]
pub struct Script {
    /// The executor to run the source with, i.e. sh, node, ruby, python.
    pub executor: String,
    /// The script source to execute.
    pub source: String,
}

impl View for Script {
    type V = ScriptModel;

    open spec fn view(&self) -> ScriptModel {
        ScriptModel { executor: self.executor@, source: self.source@ }
    }
}

impl Script {
    /// Create a new empty script.
    pub fn new() -> (r: Self)
        ensures
            r@ == (ScriptModel { executor: Seq::<char>::empty(), source: Seq::<char>::empty() }),
    {
        Self { executor: String::new(), source: String::new() }
    }

    /// Returns true if the script is non-empty.
    pub fn has_script(&self) -> (r: bool)
        ensures
            r == (self@.source.len() != 0),
    {
        !self.source.as_str().is_empty()
    }
}

/// One positional argument parsed from a parenthesized heading token.
#[derive(Debug, PartialEq)]
pub struct Arg {
    /// The name of the Arg.
    pub name: String,
    /// The value; empty after parsing, populated when matches are applied.
    pub val: String,
    /// If a required arg is not supplied, the CLI exits with an error.
    pub required: bool,
    /// The default value, when the heading token carries one.
    pub default: Option<String>,
    /// Whether this Arg may be supplied multiple times.
    pub multiple: bool,
    /// Whether this Arg captures everything after a literal `--` separator.
    pub last: bool,
}

impl DeepView for Arg {
    type V = ArgModel;

    open spec fn deep_view(&self) -> ArgModel {
        self.view()
    }
}

impl View for Arg {
    type V = ArgModel;

    open spec fn view(&self) -> ArgModel {
        ArgModel {
            name: self.name@,
            val: self.val@,
            required: self.required,
            default: match self.default {
                Some(d) => Some(d@),
                None => None,
            },
            multiple: self.multiple,
            last: self.last,
        }
    }
}

impl Arg {
    /// Create a new Arg; the value starts empty and the arg is no trailing
    /// capture.
    pub fn new(name: String, required: bool, default: Option<String>, multiple: bool) -> (r: Self)
        ensures
            r@ == (ArgModel {
                name: name@,
                val: Seq::<char>::empty(),
                required: required,
                default: match default {
                    Some(d) => Some(d@),
                    None => None,
                },
                multiple: multiple,
                last: false,
            }),
    {
        let r = Arg { name, val: String::new(), required, default, multiple, last: false };
        proof {
            assert(r.val@ =~= Seq::<char>::empty());
        }
        r
    }
}

/// One named flag parsed from an OPTIONS list item.
#[derive(Debug, PartialEq)]
pub struct OptionFlag {
    /// The flag name; also the environment variable a script receives.
    pub name: String,
    /// Text description displayed in help output.
    pub desc: String,
    /// The shorthand flag name, a single letter, as in -v.
    pub short: String,
    /// The longhand flag name, as in --verbose.
    pub long: String,
    /// Whether the flag may be given multiple times.
    pub multiple: bool,
    /// Whether the flag takes a value; boolean flags do not.
    pub takes_value: bool,
    /// Whether a supplied value must be numerical.
    pub validate_as_number: bool,
    /// Whether the flag must be supplied.
    pub required: bool,
    /// Allowed values; empty means unconstrained.
    pub choices: Vec<String>,
    /// The value of the flag; empty until matches are applied.
    pub val: String,
}

/// The model of an empty flag accumulator.
pub open spec fn empty_flag_model() -> FlagModel {
    FlagModel {
        name: Seq::empty(),
        desc: Seq::empty(),
        short: Seq::empty(),
        long: Seq::empty(),
        multiple: false,
        takes_value: false,
        validate_as_number: false,
        required: false,
        choices: Seq::empty(),
        val: Seq::empty(),
    }
}

impl DeepView for OptionFlag {
    type V = FlagModel;

    open spec fn deep_view(&self) -> FlagModel {
        self.view()
    }
}

impl View for OptionFlag {
    type V = FlagModel;

    open spec fn view(&self) -> FlagModel {
        FlagModel {
            name: self.name@,
            desc: self.desc@,
            short: self.short@,
            long: self.long@,
            multiple: self.multiple,
            takes_value: self.takes_value,
            validate_as_number: self.validate_as_number,
            required: self.required,
            choices: self.choices.deep_view(),
            val: self.val@,
        }
    }
}

impl OptionFlag {
    /// Create a new OptionFlag with every field empty or false.
    pub fn new() -> (r: Self)
        ensures
            r@ == empty_flag_model(),
    {
        let r = OptionFlag {
            name: String::new(),
            desc: String::new(),
            short: String::new(),
            long: String::new(),
            multiple: false,
            takes_value: false,
            validate_as_number: false,
            required: false,
            choices: Vec::new(),
            val: String::new(),
        };
        proof {
            assert(r.choices.deep_view() =~= Seq::<Seq<char>>::empty());
            assert(r@ =~= empty_flag_model());
        }
        r
    }
}

/// One command extracted from the document, with its subcommands.
#[derive(Debug)]
pub struct CommandBlock {
    /// The depth of the command; subcommands have a higher level.
    pub cmd_level: u8,
    /// The normalized (lowercased) name of this command.
    pub name: String,
    /// Alternative names, separated by `//` when there are several.
    pub aliases: String,
    /// Description accumulated from the preceding block quote.
    pub desc: String,
    /// The fenced code block contents and language tag.
    pub script: Script,
    /// The direct children of this command.
    pub subcommands: Vec<CommandBlock>,
    /// Positional args for this command, in heading order.
    pub args: Vec<Arg>,
    /// Named flags defined by this command's OPTIONS list.
    pub named_flags: Vec<OptionFlag>,
    /// Start of this command in the source document, in characters.
    pub start: usize,
    /// End of this command in the source document, in characters.
    pub end: usize,
    /// The file this command came from, when documents were concatenated.
    pub inkjet_file: String,
    /// Non-empty when a supplied flag value failed validation.
    pub validation_error_msg: String,
}

/// The model of a command block: every text field as a sequence and every
/// subcommand modelled in turn.
pub open spec fn cmd_model(c: CommandBlock) -> CmdModel
    decreases c,
{
    CmdModel {
        cmd_level: c.cmd_level as int,
        name: c.name@,
        aliases: c.aliases@,
        desc: c.desc@,
        script: c.script@,
        subcommands: Seq::new(
            c.subcommands@.len(),
            |i: int|
                if 0 <= i < c.subcommands@.len() {
                    cmd_model(c.subcommands@[i])
                } else {
                    arbitrary()
                },
        ),
        args: c.args.deep_view(),
        named_flags: c.named_flags.deep_view(),
        start: c.start as int,
        end: c.end as int,
        inkjet_file: c.inkjet_file@,
        validation_error_msg: c.validation_error_msg@,
    }
}

/// A command's modelled subcommands are the deep view of its subcommand
/// vector.
pub proof fn lemma_cmd_subs(c: CommandBlock)
    ensures
        cmd_model(c).subcommands == c.subcommands.deep_view(),
{
    assert(cmd_model(c).subcommands =~= c.subcommands.deep_view());
}

impl DeepView for CommandBlock {
    type V = CmdModel;

    open spec fn deep_view(&self) -> CmdModel {
        cmd_model(*self)
    }
}

impl View for CommandBlock {
    type V = CmdModel;

    open spec fn view(&self) -> CmdModel {
        cmd_model(*self)
    }
}

/// The model of a fresh command block at the given level.
pub open spec fn new_cmd_model(cmd_level: int) -> CmdModel {
    CmdModel {
        cmd_level: cmd_level,
        name: Seq::empty(),
        aliases: Seq::empty(),
        desc: Seq::empty(),
        script: ScriptModel { executor: Seq::empty(), source: Seq::empty() },
        subcommands: Seq::empty(),
        args: Seq::empty(),
        named_flags: Seq::empty(),
        start: 0,
        end: 0,
        inkjet_file: Seq::empty(),
        validation_error_msg: Seq::empty(),
    }
}

/// The model of the flag that `CommandBlock::build` appends to commands that
/// carry a script.
pub open spec fn verbose_flag_model() -> FlagModel {
    FlagModel {
        name: "verbose"@,
        desc: "Sets the level of verbosity"@,
        short: "v"@,
        long: "verbose"@,
        multiple: false,
        takes_value: false,
        validate_as_number: false,
        required: false,
        choices: Seq::empty(),
        val: Seq::empty(),
    }
}

/// What sealing a command does to its model: commands with a script gain the
/// default verbose flag, others are kept as they are.
pub open spec fn spec_build(c: CmdModel) -> CmdModel {
    if c.script.source.len() != 0 {
        CmdModel { named_flags: c.named_flags.push(verbose_flag_model()), ..c }
    } else {
        c
    }
}

impl CommandBlock {
    /// Create a new CommandBlock for the given level.
    pub fn new(cmd_level: u8) -> (r: Self)
        ensures
            r@ == new_cmd_model(cmd_level as int),
    {
        let r = CommandBlock {
            cmd_level,
            name: String::new(),
            aliases: String::new(),
            desc: String::new(),
            script: Script::new(),
            subcommands: Vec::new(),
            args: Vec::new(),
            named_flags: Vec::new(),
            start: 0,
            end: 0,
            inkjet_file: String::new(),
            validation_error_msg: String::new(),
        };
        proof {
            assert(r@.subcommands =~= Seq::<CmdModel>::empty());
            assert(r@.args =~= Seq::<ArgModel>::empty());
            assert(r@.named_flags =~= Seq::<FlagModel>::empty());
            assert(r@ =~= new_cmd_model(cmd_level as int));
        }
        r
    }

    /// Seal the block: commands that have a script gain the default verbose
    /// flag in their named flags.
    pub fn build(self) -> (r: Self)
        ensures
            r@ == spec_build(self@),
    {
        let ghost orig = self@;
        let mut me = self;
        if !me.script.source.as_str().is_empty() {
            let mut verbose = OptionFlag::new();
            verbose.name = String::from_str("verbose");
            verbose.desc = String::from_str("Sets the level of verbosity");
            verbose.short = String::from_str("v");
            verbose.long = String::from_str("verbose");
            proof {
                assert(verbose@ =~= verbose_flag_model());
            }
            me.named_flags.push(verbose);
            proof {
                assert(me@.named_flags =~= orig.named_flags.push(verbose_flag_model()));
                assert(me@.subcommands =~= orig.subcommands);
                assert(me@ =~= spec_build(orig));
            }
        } else {
            proof {
                assert(me@ =~= spec_build(orig));
            }
        }
        me
    }
}

impl Clone for Script {
    /// A cloned script carries the same executor and source.
    fn clone(&self) -> (r: Self)
        ensures
            r@ == self@,
    {
        Script { executor: self.executor.clone(), source: self.source.clone() }
    }
}

impl Clone for Arg {
    /// A cloned arg carries the same fields.
    fn clone(&self) -> (r: Self)
        ensures
            r@ == self@,
    {
        Arg {
            name: self.name.clone(),
            val: self.val.clone(),
            required: self.required,
            default: match &self.default {
                Some(d) => Some(d.clone()),
                None => None,
            },
            multiple: self.multiple,
            last: self.last,
        }
    }
}

impl Clone for OptionFlag {
    /// A cloned flag carries the same fields.
    fn clone(&self) -> (r: Self)
        ensures
            r@ == self@,
    {
        let r = OptionFlag {
            name: self.name.clone(),
            desc: self.desc.clone(),
            short: self.short.clone(),
            long: self.long.clone(),
            multiple: self.multiple,
            takes_value: self.takes_value,
            validate_as_number: self.validate_as_number,
            required: self.required,
            choices: self.choices.clone(),
            val: self.val.clone(),
        };
        proof {
            assert forall|i: int| 0 <= i < self.choices@.len() implies r.choices.deep_view()[i]
                == self.choices.deep_view()[i] by {
                assert(cloned::<String>(self.choices@[i], r.choices@[i]));
            }
            assert(r.choices.deep_view() =~= self.choices.deep_view());
            assert(r@ =~= self@);
        }
        r
    }
}

impl Clone for CommandBlock {
    /// A cloned command block has the same model, subcommands included.
    fn clone(&self) -> (r: Self)
        ensures
            r@ == self@,
        decreases *self,
    {
        let mut subs: Vec<CommandBlock> = Vec::new();
        let mut i: usize = 0;
        while i < self.subcommands.len()
            invariant
                i <= self.subcommands@.len(),
                subs@.len() == i,
                forall|j: int| #![auto] 0 <= j < i ==> subs@[j]@ == self.subcommands@[j]@,
            decreases self.subcommands@.len() - i,
        {
            proof {
                assert(decreases_to!(*self => self.subcommands@[i as int]));
            }
            let c = self.subcommands[i].clone();
            subs.push(c);
            i = i + 1;
        }
        let r = CommandBlock {
            cmd_level: self.cmd_level,
            name: self.name.clone(),
            aliases: self.aliases.clone(),
            desc: self.desc.clone(),
            script: self.script.clone(),
            subcommands: subs,
            args: self.args.clone(),
            named_flags: self.named_flags.clone(),
            start: self.start,
            end: self.end,
            inkjet_file: self.inkjet_file.clone(),
            validation_error_msg: self.validation_error_msg.clone(),
        };
        proof {
            assert forall|j: int| 0 <= j < self.args@.len() implies r.args.deep_view()[j]
                == self.args.deep_view()[j] by {
                assert(cloned::<Arg>(self.args@[j], r.args@[j]));
            }
            assert(r.args.deep_view() =~= self.args.deep_view());
            assert forall|j: int| 0 <= j < self.named_flags@.len() implies r@.named_flags[j]
                == self@.named_flags[j] by {
                assert(cloned::<OptionFlag>(self.named_flags@[j], r.named_flags@[j]));
            }
            assert(r@.named_flags =~= self@.named_flags);
            assert forall|j: int| 0 <= j < self.subcommands@.len() implies r@.subcommands[j]
                == self@.subcommands[j] by {
                assert(r@.subcommands[j] == subs@[j]@);
                assert(self@.subcommands[j] == self.subcommands@[j]@);
            }
            assert(r@.subcommands =~= self@.subcommands);
            assert(r@ =~= self@);
        }
        r
    }
}

} // verus!
