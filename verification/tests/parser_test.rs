use inkjet::parser::build_command_structure;

const TEST_INKJETFILE: &str = r#"
# Document Title

This is an example inkfile for the tests below.

## serve (port) -- extra info

> Serve the app on the `port`

~~~bash
echo "Serving on port $port"
~~~


## node (name)

> An example node script

Valid lang codes: js, javascript

```js
const { name } = process.env;
console.log(`Hello, ${name}!`);
```


## no_script

This command has no source/script.

## no_space
> this should be the description
**OPTIONS**
* whatever
    * flag: -w --whatever
    * desc: Whatever

~~~bash
echo "the description is wrong..."
~~~

"#;

#[test]
fn builds_boolean() {
    let tree = build_command_structure(
        r#"
## boolean

**OPTIONS**
- flag: -s --set |bool| Which port to serve on
~~~
echo $set
~~~
        "#,
    )
    .expect("build tree failed");
    let boolean_command = &tree
        .subcommands
        .iter()
        .find(|cmd| cmd.name == "boolean")
        .expect("boolean command missing");
    assert_eq!(boolean_command.name, "boolean");
    assert!(
        !boolean_command
            .named_flags
            .first()
            .expect("named flag not attached")
            .takes_value
    );
}

#[test]
fn validates_string_and_removes_duplicate() {
    let tree = build_command_structure(
        r#"
## string

> Should be ignored
OPTIONS
- flag: -s --str |bool| A boolean
```
echo "Ignore me"
```

## string
OPTIONS
- flag: -s --str |string| A string
```
echo "the string is $str"
```
        "#,
    )
    .expect("build tree failed");
    let string_command = &tree
        .subcommands
        .iter()
        .find(|cmd| cmd.name == "string")
        .expect("string command missing");
    assert_eq!(string_command.name, "string");
    assert!(
        string_command
            .named_flags
            .first()
            .expect("named flag not attached")
            .takes_value
    );
    assert!(
        !string_command
            .named_flags
            .first()
            .expect("named flag not attached")
            .validate_as_number
    );
}

#[test]
fn errors_on_duplicate_alias() {
    let result = build_command_structure(
        r#"
## first//default

> Should be ignored
OPTIONS
- flag: -s --str |bool| A boolean
```
echo "Ignore me"
```

## second//default
OPTIONS
- flag: -s --str |string| A string
```
echo "the string is $str"
```
        "#,
    );
    assert!(result.is_err());
    if let Err(ref message) = result {
        assert_eq!(
            message,
            "Please update inkjet files to remove duplicate aliases"
        );
    }
}

#[test]
fn parses_serve_command_description() {
    let tree = build_command_structure(TEST_INKJETFILE).expect("build tree failed");
    let serve_command = &tree
        .subcommands
        .iter()
        .find(|cmd| cmd.name == "serve")
        .expect("serve command missing");
    assert_eq!(serve_command.desc, "Serve the app on the `port`");
}

#[test]
fn parses_no_space_command_description() {
    let tree = build_command_structure(TEST_INKJETFILE).expect("build tree failed");
    let serve_command = &tree
        .subcommands
        .iter()
        .find(|cmd| cmd.name == "no_space")
        .expect("no_space command missing");
    assert_eq!(serve_command.desc, "this should be the description");
}

#[test]
fn fails_if_name_has_spaces() {
    let file = r#"
## sub

### a b c

> description

```
echo "abc"
```
       "#;
    let tree_result = build_command_structure(file);
    if let Err(e) = tree_result {
        assert!(
            e == "Command names cannot contain spaces. Found 'b c'. Did you forget to wrap args in ()?",
            "Unexpected error message: \"{}\"",
            e
        );
    } else {
        panic!("expected a parse error");
    }
}

#[test]
fn parses_serve_required_positional_arguments() {
    let tree = build_command_structure(TEST_INKJETFILE).expect("build tree failed");
    let serve_command = &tree
        .subcommands
        .iter()
        .find(|cmd| cmd.name == "serve")
        .expect("serve command missing");
    assert_eq!(serve_command.args.len(), 1);
    assert_eq!(serve_command.args.first().unwrap().name, "port");
}

#[test]
fn parses_serve_command_executor() {
    let tree = build_command_structure(TEST_INKJETFILE).expect("build tree failed");
    let serve_command = &tree
        .subcommands
        .iter()
        .find(|cmd| cmd.name == "serve")
        .expect("serve command missing");
    assert_eq!(serve_command.script.executor, "bash");
}

#[test]
fn parses_serve_command_source_with_tildes() {
    let tree = build_command_structure(TEST_INKJETFILE).expect("build tree failed");
    let serve_command = &tree
        .subcommands
        .iter()
        .find(|cmd| cmd.name == "serve")
        .expect("serve command missing");
    assert_eq!(
        serve_command.script.source,
        "echo \"Serving on port $port\"\n"
    );
}

#[test]
fn parses_node_command_source_with_backticks() {
    let tree = build_command_structure(TEST_INKJETFILE).expect("build tree failed");
    let node_command = &tree
        .subcommands
        .iter()
        .find(|cmd| cmd.name == "node")
        .expect("node command missing");
    assert_eq!(
        node_command.script.source,
        "const { name } = process.env;\nconsole.log(`Hello, ${name}!`);\n"
    );
}

#[test]
fn adds_verbose_named_flag_to_command_with_script() {
    let tree = build_command_structure(TEST_INKJETFILE).expect("build tree failed");
    let node_command = tree
        .subcommands
        .iter()
        .find(|cmd| cmd.name == "node")
        .expect("node command missing");

    assert_eq!(node_command.named_flags.len(), 1);
    assert_eq!(node_command.named_flags[0].name, "verbose");
    assert_eq!(
        node_command.named_flags[0].desc,
        "Sets the level of verbosity"
    );
    assert_eq!(node_command.named_flags[0].short, "v");
    assert_eq!(node_command.named_flags[0].long, "verbose");
    assert!(!node_command.named_flags[0].multiple);
    assert!(!node_command.named_flags[0].takes_value);
}

#[test]
fn excludes_no_script() {
    let tree = build_command_structure(TEST_INKJETFILE).expect("build tree failed");
    let cmd = tree.subcommands.iter().find(|cmd| cmd.name == "no_script");
    if cmd.is_some() {
        panic!("docs command should not exist")
    }
}

#[test]
fn fails_on_bad_flag_type() {
    let expected_err = "Invalid flag type 'invalid' Expected string | number | bool.";
    const FILE: &str = r#"
## check (arg?)
OPTIONS
- flag: -b |invalid| An invalid type
```
echo "Should not print $b"
```
"#;
    let err_str = build_command_structure(FILE).expect_err("invalid type should be Err");
    assert_eq!(err_str, expected_err);
    const FILE2: &str = r#"
## check
OPTIONS
* val
    * flag: --val
    * type: invalid
```
echo "Should not print $val"
        "#;
    let err_str2 = build_command_structure(FILE2).expect_err("invalid type should be Err");
    assert_eq!(err_str2, expected_err);
}

#[test]
fn fails_on_empty_name() {
    const FILE: &str = r#"
## //alias
```
echo "Should not print"
```
"#;
    let err_str = build_command_structure(FILE).expect_err("should error on no command name");
    assert_eq!(err_str, "unexpected empty heading name");
}

#[test]
fn removes_commands_without_code_blocks() {
    const FILE: &str = r#"
# MY COMMANDS

## Docs

Just some documentation.

## cmd

```bash
echo something
```

### docs two

#### docs two c
"#;
    let tree = build_command_structure(FILE).expect("failed to build tree");
    let docs_cmd = &tree.subcommands.iter().find(|cmd| cmd.name == "docs");
    if docs_cmd.is_some() {
        panic!("docs command should not exist")
    }
}

#[test]
fn errors_if_merged_h1_has_spaces() {
    let contents = r#"
<!-- inkfile: /home/ubuntu/code/github.com/brandonkal/inkjet/tests/spaces/inkjet.md -->
# Tests for Spaces

inkjet_import: all

## before

```
echo "This has spaces"
```
<!-- inkfile: /home/ubuntu/code/github.com/brandonkal/inkjet/tests/spaces/merged.inkjet.md -->
# Tests for Spaces

## merged

```
echo "This has spaces"
```
```
    "#;
    let tree = build_command_structure(contents);
    tree.expect_err("Command names cannot contain spaces. Found 'tests for spaces'. Did you forget to wrap args in ()?");
}

#[test]
fn preserves_arguments_order() {
    let contents = r#"
## order (one) (two) (three?)

> Test interactive mode with three positional args and three flags

Run this with and without specific options specified.

**OPTIONS**

- flag: -s --string |string| First option
- flag: --bool Second option
- flag: --number |number| Enter a number

```sh
echo "The values are one=$one two=$two three=$three"
echo "The flag values are string=$string bool=$bool number=$number"
```
    "#;
    let tree = build_command_structure(contents).expect("failed to build tree");
    let mut order_cmd = tree
        .subcommands
        .iter()
        .find(|cmd| cmd.name == "order")
        .unwrap()
        .clone();
    let mut ordered_result = String::new();
    for arg in order_cmd.args.iter_mut() {
        ordered_result.push_str(arg.name.clone().as_str())
    }
    assert_eq!(ordered_result, "onetwothree");
}
