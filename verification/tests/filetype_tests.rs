use glu::filetype::FileType;
use glu::path_detection::{detect_path, PathDetection};

#[test]
fn from_str() {
    assert_eq!(FileType::from("js"), FileType::JavaScript);
    assert_eq!(FileType::from("javascript"), FileType::JavaScript);
    assert_eq!(FileType::from("foo"), FileType::Unknown);
}

#[test]
fn from_option_string() {
    assert_eq!(FileType::from(&Some("js".to_string())), FileType::JavaScript);
    assert_eq!(FileType::from(&Some("foo".to_string())), FileType::Unknown);
    assert_eq!(FileType::from(&None), FileType::Unknown);
}

#[test]
fn to_string() {
    assert_eq!(FileType::JavaScript.name(), "javascript".to_string());
    assert_eq!(FileType::Unknown.name(), "unknown".to_string());
}

fn check_some_ft(ft: FileType, line_number: usize, path: &str, lines: Vec<&str>) {
    assert_eq!(
        detect_path(ft, &lines),
        Some(PathDetection {
            line_number: line_number,
            path: path.to_string(),
        })
    );
}

fn check_none_ft(ft: FileType, lines: Vec<&str>) {
    assert_eq!(detect_path(ft, &lines), None);
}

#[test]
fn test_asm() {
    let ft = FileType::Asm;
    check_none_ft(ft, vec![]);
    check_none_ft(ft, vec![".intel_syntax noprefix"]);

    check_some_ft(ft, 0, "foo.asm", vec!["; foo.asm", "", ".intel_syntax noprefix"]);

    check_some_ft(ft, 1, "bar.s", vec![".intel_syntax noprefix", "; bar.s"]);
}

#[test]
fn test_bash() {
    let ft = FileType::Bash;
    check_none_ft(ft, vec![]);
    check_none_ft(ft, vec!["#!/bin/bash", "echo hello world"]);

    check_some_ft(ft, 0, "script.sh", vec!["# script.sh", "", "echo hello world"]);

    check_some_ft(
        ft,
        1,
        "second_line.sh",
        vec!["#!/bin/bash", "# second_line.sh", "set -ex", "", "echo hello world"],
    );
}

#[test]
fn test_c() {
    let ft = FileType::C;
    check_none_ft(ft, vec![]);
    check_none_ft(ft, vec!["#define FOO 1"]);

    check_some_ft(ft, 0, "main.c", vec!["// main.c", "", "#define FOO 1"]);

    check_some_ft(ft, 1, "header.h", vec!["// A header file", "// header.h", "", "#define FOO 1"]);
}

#[test]
fn test_rust() {
    let ft = FileType::Rust;
    check_none_ft(ft, vec!["fn main() {", "    println!('Hello world');", "}"]);
    check_some_ft(
        ft,
        0,
        "foo.rs",
        vec!["// foo.rs", "", "fn main() {", "    println!('Hello world');", "}"],
    );
}

#[test]
fn filetype_test_js() {
    let ft = FileType::JavaScript;
    check_none_ft(ft, vec![]);
    check_none_ft(ft, vec!["function foo() {", "    console.log(100);", "    ", "}"]);

    check_some_ft(
        ft,
        0,
        "foo.js",
        vec!["// foo.js", "", "function foo() {", "    console.log(100);", "    ", "}"],
    );

    check_some_ft(
        ft,
        2,
        "third_line.js",
        vec![
            "// First line",
            "// Second line",
            "// third_line.js",
            "",
            "function foo() {",
            "    console.log(100);",
            "    ",
            "}",
        ],
    );

    check_none_ft(
        ft,
        vec![
            "// First line",
            "// Second line",
            "// Third line",
            "// fourth_line.js",
            "",
            "function foo() {",
            "    console.log(100);",
            "    ",
            "}",
        ],
    );
}

#[test]
fn filetype_test_unknown() {
    let ft = FileType::Unknown;
    check_none_ft(ft, vec![]);
    check_none_ft(ft, vec!["Anything"]);
}
