use glu::download::is_url;
use glu::parse::parse;

#[test]
fn test_is_url() {
    assert_eq!(is_url(""), false);
    assert_eq!(is_url("file.md"), false);
    assert_eq!(is_url("/path/to/file.md"), false);
    assert_eq!(is_url("../path/to/file.md"), false);

    assert_eq!(is_url("http://foo/bar"), true);
    assert_eq!(is_url("https://foo/bar"), true);
    assert_eq!(is_url("ftp://foo/bar"), false);
}

#[test]
fn parse_extracts_fenced_blocks_in_order() {
    let md = "# Title\n\nProse.\n\n```js\n// foo.js\nlet x = 0;\n```\n\nMore prose.\n\n```bash\n# run.sh\necho hi\n```\n";
    let segments = parse(md);
    assert_eq!(segments.len(), 2);
    assert_eq!(segments[0].file_type, "javascript");
    assert_eq!(segments[0].file_name, "foo.js");
    assert_eq!(segments[0].contents, "let x = 0;\n");
    assert_eq!(segments[1].file_type, "bash");
    assert_eq!(segments[1].file_name, "run.sh");
    assert_eq!(segments[1].contents, "echo hi\n");
}

#[test]
fn parse_finds_nested_blocks() {
    // A fenced block inside another structural element is still found.
    let md = "- item\n\n  ```rust\n  // lib.rs\n  fn f() {}\n  ```\n";
    let segments = parse(md);
    assert_eq!(segments.len(), 1);
    assert_eq!(segments[0].file_type, "rust");
    assert_eq!(segments[0].file_name, "lib.rs");
    assert_eq!(segments[0].contents, "fn f() {}\n");
}

#[test]
fn parse_without_blocks_is_empty() {
    let segments = parse("Just prose, no code.\n");
    assert_eq!(segments.len(), 0);
}
