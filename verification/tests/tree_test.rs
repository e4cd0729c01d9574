use inkjet::alias::validate_no_duplicate_aliases;
use inkjet::command::CommandBlock;
use inkjet::tree::{remove_duplicates, treeify_commands};

fn block(level: u8, name: &str, source: &str) -> CommandBlock {
    let mut b = CommandBlock::new(level);
    b.name = name.to_string();
    b.script.source = source.to_string();
    b
}

#[test]
fn treeify_nests_deeper_commands() {
    let flat = vec![
        block(1, "root", ""),
        block(2, "alpha", "echo a\n"),
        block(3, "inner", "echo i\n"),
        block(2, "beta", "echo b\n"),
    ];
    let tree = treeify_commands(flat);
    assert_eq!(tree.len(), 1);
    assert_eq!(tree[0].name, "root");
    assert_eq!(tree[0].subcommands.len(), 2);
    assert_eq!(tree[0].subcommands[0].name, "alpha");
    assert_eq!(tree[0].subcommands[0].subcommands[0].name, "inner");
    assert_eq!(tree[0].subcommands[1].name, "beta");
}

#[test]
fn treeify_prunes_scriptless_leaves() {
    let flat = vec![
        block(1, "root", ""),
        block(2, "kept", "echo\n"),
        block(2, "dropped", ""),
    ];
    let tree = treeify_commands(flat);
    let names: Vec<&str> = tree[0].subcommands.iter().map(|c| c.name.as_str()).collect();
    assert_eq!(names, vec!["kept"]);
}

#[test]
fn treeify_shifts_second_top_level_document() {
    let flat = vec![
        block(1, "first", ""),
        block(2, "one", "echo 1\n"),
        block(1, "second", ""),
        block(2, "two", "echo 2\n"),
    ];
    let tree = treeify_commands(flat);
    assert_eq!(tree.len(), 1);
    assert_eq!(tree[0].name, "first");
    let second = tree[0]
        .subcommands
        .iter()
        .find(|c| c.name == "second")
        .expect("shifted document root missing");
    assert_eq!(second.cmd_level, 2);
    assert_eq!(second.subcommands[0].name, "two");
    assert_eq!(second.subcommands[0].cmd_level, 3);
}

#[test]
fn remove_duplicates_keeps_last_definition() {
    let cmds = vec![
        block(2, "deploy", "echo old\n"),
        block(2, "status", "echo s\n"),
        block(2, "deploy", "echo new\n"),
    ];
    let kept = remove_duplicates(cmds);
    let names: Vec<&str> = kept.iter().map(|c| c.name.as_str()).collect();
    assert_eq!(names, vec!["status", "deploy"]);
    assert_eq!(kept[1].script.source, "echo new\n");
}

#[test]
fn validate_finds_cross_branch_alias_duplicates() {
    let mut root = block(1, "root", "");
    let mut a = block(2, "a", "echo\n");
    a.aliases = "x//y".to_string();
    let mut deep = block(3, "deep", "echo\n");
    deep.aliases = "y".to_string();
    let mut b = block(2, "b", "echo\n");
    b.subcommands.push(deep);
    root.subcommands.push(a);
    root.subcommands.push(b);
    assert!(validate_no_duplicate_aliases(&root));
}

#[test]
fn validate_accepts_distinct_aliases() {
    let mut root = block(1, "root", "");
    let mut a = block(2, "a", "echo\n");
    a.aliases = "x".to_string();
    let mut b = block(2, "b", "echo\n");
    b.aliases = "y".to_string();
    root.subcommands.push(a);
    root.subcommands.push(b);
    assert!(!validate_no_duplicate_aliases(&root));
}
