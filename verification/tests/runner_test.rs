use inkjet::runner::{is_invalid_number, not_number_err_msg, pre_parse};

fn svec(parts: &[&str]) -> Vec<String> {
    parts.iter().map(|s| s.to_string()).collect()
}

#[test]
fn numbers() {
    let is_f = is_invalid_number(false, "string");
    assert!(!is_f);
    let is_f = is_invalid_number(true, "42");
    assert!(!is_f);
    let is_t = is_invalid_number(true, "abc");
    assert!(is_t);
    not_number_err_msg("flag");
}

#[test]
fn modify_args() {
    let (_, a) = pre_parse(svec(&["inkjet", "tests/simple_case/inkjet.md", "-p"]));
    assert_eq!(
        a,
        svec(&[
            "inkjet",
            "--inkfile",
            "tests/simple_case/inkjet.md",
            "-p",
            "default"
        ])
    );
}

#[test]
fn no_leak_to_positional_args() {
    let (_, a) = pre_parse(svec(&["inkjet", "tests/simple_case/inkjet.md"]));
    assert_eq!(
        a,
        svec(&[
            "inkjet",
            "--inkfile",
            "tests/simple_case/inkjet.md",
            "default"
        ])
    );
}

#[test]
fn modify_args2() {
    let x2 = svec(&["inkjet", "-p", "--inkfile", "file.txt", "-", "something"]);
    let (_, o) = pre_parse(x2.clone());
    assert_eq!(o, x2);
}

#[test]
fn inkfile_with_equals() {
    let (o, a) = pre_parse(svec(&["inkjet", "--inkfile=tests/simple_case/inkjet.md"]));
    assert_eq!(
        a,
        svec(&["inkjet", "--inkfile=tests/simple_case/inkjet.md", "default"])
    );
    assert!(o.inkfile_opt.contains("simple_case/inkjet.md"));
}

#[test]
fn implicit_inkfile_flag() {
    let (o, a) = pre_parse(svec(&["inkjet", "tests/simple_case/inkjet.md", "--flag"]));
    assert_eq!(
        a,
        svec(&[
            "inkjet",
            "--inkfile",
            "tests/simple_case/inkjet.md",
            "default",
            "--flag"
        ])
    );
    assert!(o.inkfile_opt.contains("simple_case/inkjet.md"));
}

#[test]
fn implicit_inkfile_param() {
    let (o, a) = pre_parse(svec(&[
        "inkjet",
        "-p",
        "tests/simple_case/inkjet.md",
        "--flag",
    ]));
    assert_eq!(
        a,
        svec(&[
            "inkjet",
            "-p",
            "--inkfile",
            "tests/simple_case/inkjet.md",
            "default",
            "--flag"
        ])
    );
    assert!(o.inkfile_opt.contains("simple_case/inkjet.md"));
}
