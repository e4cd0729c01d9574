use inkjet::command::CommandBlock;
use inkjet::parser::build_command_structure;
use inkjet::runner::{is_invalid_number, not_number_err_msg, pre_parse};
use inkjet::utils::{error_msg, info_msg, invalid_msg, warn_msg};

fn tree_of(doc: &str) -> CommandBlock {
    build_command_structure(doc).expect("document should compile")
}

fn child<'a>(tree: &'a CommandBlock, name: &str) -> &'a CommandBlock {
    tree.subcommands
        .iter()
        .find(|cmd| cmd.name == name)
        .expect("command missing")
}

#[test]
fn one_heading_one_script() {
    let tree = tree_of("## build\n```sh\nmake\n```\n");
    assert_eq!(tree.subcommands.len(), 1);
    let cmd = child(&tree, "build");
    assert_eq!(cmd.script.executor, "sh");
    assert_eq!(cmd.script.source, "make\n");
    assert_eq!(cmd.cmd_level, 2);
}

#[test]
fn compiling_twice_gives_identical_trees() {
    let doc = "# Title\n\n## serve (port)\n\n> desc here\n\n```bash\necho $port\n```\n";
    let a = tree_of(doc);
    let b = tree_of(doc);
    assert_eq!(format!("{:?}", a), format!("{:?}", b));
}

#[test]
fn override_takes_second_body() {
    let tree = tree_of(
        "## deploy\n```\necho first\n```\n\n## deploy\n```bash\necho second\n```\n",
    );
    let survivors: Vec<&CommandBlock> = tree
        .subcommands
        .iter()
        .filter(|c| c.name == "deploy")
        .collect();
    assert_eq!(survivors.len(), 1);
    assert_eq!(survivors[0].script.source, "echo second\n");
    assert_eq!(survivors[0].script.executor, "bash");
}

#[test]
fn pruned_leaf_but_kept_parent_with_scripted_child() {
    let doc = "## empty\n\n## parent\n\n### parent sub\n```\necho hi\n```\n";
    let tree = tree_of(doc);
    assert!(tree.subcommands.iter().all(|c| c.name != "empty"));
    let parent = child(&tree, "parent");
    assert!(!parent.script.has_script());
    assert_eq!(parent.subcommands.len(), 1);
    assert_eq!(parent.subcommands[0].name, "sub");
}

#[test]
fn cross_branch_alias_collision_fails() {
    let doc = "## one\n\n### one inner//default\n```\na\n```\n\n## two//default\n```\nb\n```\n";
    let err = build_command_structure(doc).expect_err("alias collision should fail");
    assert_eq!(err, "Please update inkjet files to remove duplicate aliases");
}

#[test]
fn heading_args_parse_with_defaults_and_variadics() {
    let tree = tree_of("## serve (port) (mode=prod) (tail...?)\n```\necho\n```\n");
    let serve = child(&tree, "serve");
    assert_eq!(serve.args.len(), 3);
    assert_eq!(serve.args[0].name, "port");
    assert!(serve.args[0].required);
    assert_eq!(serve.args[0].default, None);
    assert!(!serve.args[0].multiple);
    assert_eq!(serve.args[1].name, "mode");
    assert!(!serve.args[1].required);
    assert_eq!(serve.args[1].default.as_deref(), Some("prod"));
    assert!(!serve.args[1].multiple);
    assert_eq!(serve.args[2].name, "tail");
    assert!(!serve.args[2].required);
    assert_eq!(serve.args[2].default, None);
    assert!(serve.args[2].multiple);
}

#[test]
fn trailing_capture_after_double_dash() {
    let tree = tree_of("## run (name) -- (extras...?)\n```\necho\n```\n");
    let run = child(&tree, "run");
    assert_eq!(run.args.len(), 2);
    assert_eq!(run.args[0].name, "name");
    assert!(!run.args[0].last);
    assert_eq!(run.args[1].name, "extras");
    assert!(run.args[1].last);
    assert!(run.args[1].multiple);
    assert!(!run.args[1].required);
}

#[test]
fn shorthand_flag_fields() {
    let tree = tree_of(
        "## boolean\n**OPTIONS**\n- flag: -s --set |bool| Which port to serve on\n~~~\necho $set\n~~~\n",
    );
    let cmd = child(&tree, "boolean");
    let flag = &cmd.named_flags[0];
    assert_eq!(flag.short, "s");
    assert_eq!(flag.long, "set");
    assert_eq!(flag.name, "set");
    assert!(!flag.takes_value);
    assert_eq!(flag.desc, "Which port to serve on");
}

#[test]
fn end_to_end_boolean_scenario() {
    let tree = tree_of(
        "## boolean\n**OPTIONS**\n- flag: -s --set |bool| Which port to serve on\n~~~\necho $set\n~~~\n",
    );
    assert_eq!(tree.cmd_level, 1);
    let cmd = child(&tree, "boolean");
    assert_eq!(cmd.named_flags[0].short, "s");
    assert_eq!(cmd.named_flags[0].long, "set");
    assert!(!cmd.named_flags[0].takes_value);
    // Scripted commands also gain the default verbose flag, after the
    // flags their OPTIONS list defined.
    assert_eq!(cmd.named_flags.len(), 2);
    assert_eq!(cmd.named_flags[1].name, "verbose");
    assert_eq!(cmd.script.executor, "");
    assert_eq!(cmd.script.source, "echo $set\n");
}

#[test]
fn number_flag_sets_validation() {
    let tree = tree_of("## count\n**OPTIONS**\n- flag: --num |number| A number\n```\necho\n```\n");
    let flag = &child(&tree, "count").named_flags[0];
    assert!(flag.takes_value);
    assert!(flag.validate_as_number);
}

#[test]
fn required_word_marks_flag_required() {
    let tree = tree_of(
        "## push\n**OPTIONS**\n- flag: --tag |string| required The tag to push\n```\necho\n```\n",
    );
    let flag = &child(&tree, "push").named_flags[0];
    assert!(flag.required);
    assert!(flag.takes_value);
    assert_eq!(flag.desc, "The tag to push");
}

#[test]
fn structured_flag_with_choices() {
    let doc = "## color\n**OPTIONS**\n* val\n    * flag: --val\n    * type: string\n    * choices: RED, BLUE, GREEN\n    * desc: Your color\n```\necho $val\n```\n";
    let tree = tree_of(doc);
    let flag = &child(&tree, "color").named_flags[0];
    assert_eq!(flag.name, "val");
    assert_eq!(flag.long, "val");
    assert!(flag.takes_value);
    assert_eq!(flag.desc, "Your color");
    assert_eq!(flag.choices, vec!["RED", "BLUE", "GREEN"]);
}

#[test]
fn heading_names_are_lowercased() {
    let tree = tree_of("## MyCmd//Fast\n```\necho\n```\n");
    let cmd = child(&tree, "mycmd");
    assert_eq!(cmd.aliases, "fast");
}

#[test]
fn inkfile_comment_tags_following_commands() {
    let doc = "# root\n\n## before\n```\na\n```\n<!-- inkfile: imported/inkjet.md -->\n## after\n```\nb\n```\n";
    let tree = tree_of(doc);
    assert_eq!(child(&tree, "before").inkjet_file, "");
    assert_eq!(child(&tree, "after").inkjet_file, "imported/inkjet.md");
}

#[test]
fn merged_documents_nest_under_first_root() {
    let doc = "# main\n\n## echo\n```\necho hi\n```\n\n# second\n\n## other\n```\necho other\n```\n";
    let tree = tree_of(doc);
    assert_eq!(tree.name, "main");
    assert!(tree.subcommands.iter().any(|c| c.name == "echo"));
    let second = child(&tree, "second");
    assert_eq!(second.cmd_level, 2);
    assert!(second.subcommands.iter().any(|c| c.name == "other"));
}

#[test]
fn source_span_covers_heading_to_fence() {
    let doc = "## spanned\n\n> some text\n\n```\nbody\n```\n";
    let tree = tree_of(doc);
    let cmd = child(&tree, "spanned");
    let chars: Vec<char> = doc.chars().collect();
    let portion: String = chars[cmd.start..cmd.end].iter().collect();
    assert!(portion.starts_with("## spanned"));
    assert!(portion.contains("> some text"));
    assert!(!portion.contains("body"));
}

#[test]
fn reserved_language_tags_are_skipped() {
    let doc = "## task\n```powershell\nWrite-Output hi\n```\n";
    let tree = tree_of(doc);
    assert!(tree.subcommands.iter().all(|c| c.name != "task"));
}

#[test]
fn inline_code_kept_in_description() {
    let tree = tree_of("## fmt\n\n> Runs `cargo fmt` for you\n\n```\ncargo fmt\n```\n");
    assert_eq!(child(&tree, "fmt").desc, "Runs `cargo fmt` for you");
}

#[test]
fn document_with_no_headings_compiles_to_bare_root() {
    let tree = tree_of("just a paragraph\n");
    assert_eq!(tree.cmd_level, 1);
    assert_eq!(tree.name, "");
    assert!(tree.subcommands.is_empty());
}

#[test]
fn deeper_headings_drop_parent_words() {
    let doc = "## services\n\n### services start (name)\n```\necho $name\n```\n";
    let tree = tree_of(doc);
    let services = child(&tree, "services");
    assert_eq!(services.subcommands.len(), 1);
    assert_eq!(services.subcommands[0].name, "start");
    assert_eq!(services.subcommands[0].args[0].name, "name");
}

#[test]
fn number_validation_accepts_float_forms() {
    assert!(!is_invalid_number(true, "123.3456789"));
    assert!(!is_invalid_number(true, "-123"));
    assert!(!is_invalid_number(true, "+42"));
    assert!(!is_invalid_number(true, "1e5"));
    assert!(!is_invalid_number(true, "2.5E-3"));
    assert!(!is_invalid_number(true, ".5"));
    assert!(!is_invalid_number(true, "7."));
    assert!(!is_invalid_number(true, "inf"));
    assert!(!is_invalid_number(true, "NaN"));
    assert!(!is_invalid_number(true, ""));
    assert!(is_invalid_number(true, "a234"));
    assert!(is_invalid_number(true, "1.2.3"));
    assert!(is_invalid_number(true, "1e"));
    assert!(is_invalid_number(true, "."));
    assert!(is_invalid_number(true, "--5"));
}

#[test]
fn number_error_message_is_exact() {
    assert_eq!(
        not_number_err_msg("val"),
        "flag `val` expects a numerical value"
    );
}

#[test]
fn message_prefixes_are_exact() {
    assert_eq!(info_msg(), "INFO (inkjet):");
    assert_eq!(warn_msg(), "WARNING (inkjet):");
    assert_eq!(error_msg(), "ERROR (inkjet):");
    assert_eq!(invalid_msg(), "INVALID:");
}

#[test]
fn pre_parse_stops_at_subcommand() {
    let (opts, a) = pre_parse(
        ["inkjet", "serve", "--port", "8080"]
            .iter()
            .map(|s| s.to_string())
            .collect(),
    );
    assert!(!opts.interactive);
    assert!(!opts.preview);
    assert_eq!(a, vec!["inkjet", "serve", "--port", "8080"]);
}

#[test]
fn pre_parse_gathers_interactive_and_preview() {
    let (opts, _) = pre_parse(
        ["inkjet", "-i", "-p", "serve"]
            .iter()
            .map(|s| s.to_string())
            .collect(),
    );
    assert!(opts.interactive);
    assert!(opts.preview);
}

#[test]
fn pre_parse_print_all() {
    let (opts, a) = pre_parse(
        ["inkjet", "--inkjet-print-all"]
            .iter()
            .map(|s| s.to_string())
            .collect(),
    );
    assert!(opts.print_all);
    assert_eq!(a, vec!["inkjet", "--inkjet-print-all"]);
}
