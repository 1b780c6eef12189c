use glu::filetype::FileType;
use glu::parse::RawCodeBlock;
use glu::segment_optimizer::{
    find_min_indent, fix_indents, optimize, path_detect_and_pop, trim_empty_lines, trim_indent,
    SegmentOptimizer,
};

#[test]
fn test_from_code_empty() {
    let block = RawCodeBlock { language_tag: None, raw_text: "".to_string() };
    let so = SegmentOptimizer::from_block(&block);
    assert_eq!(
        so,
        SegmentOptimizer {
            lines: vec![],
            inferred_type: FileType::Unknown,
            inferred_path: None,
        }
    );
}

#[test]
fn test_from_code_populated() {
    let block = RawCodeBlock {
        language_tag: Some("js".to_string()),
        raw_text: "// foo.js\n\nlet x = 0;".to_string(),
    };
    let so = SegmentOptimizer::from_block(&block);
    assert_eq!(
        so,
        SegmentOptimizer {
            lines: vec!["// foo.js", "", "let x = 0;"],
            inferred_type: FileType::JavaScript,
            inferred_path: None,
        }
    );
}

#[test]
fn test_find_min_indent() {
    assert_eq!(find_min_indent(&vec![]), 0);
    assert_eq!(find_min_indent(&vec!["Hello world"]), 0);
    assert_eq!(find_min_indent(&vec!["   Hello world"]), 3);
    assert_eq!(find_min_indent(&vec!["No space", " One space", "  Two space"]), 0);
    assert_eq!(find_min_indent(&vec!["  Ignore", "", "  empty lines"]), 2);
}

#[test]
fn test_trim_indent() {
    assert_eq!(trim_indent("", 5), "");
    assert_eq!(trim_indent("foo", 5), "foo");
    assert_eq!(trim_indent("   Three spaces", 0), "   Three spaces");
    assert_eq!(trim_indent("   Three spaces", 1), "  Three spaces");
    assert_eq!(trim_indent("   Three spaces", 2), " Three spaces");
    assert_eq!(trim_indent("   Three spaces", 3), "Three spaces");
    assert_eq!(trim_indent("   Three spaces", 4), "Three spaces");
}

#[test]
fn test_fix_indents() {
    let lines = vec![
        "    // foo.js",
        "",
        "    function foo() {",
        "        console.log(100);",
        "        ",
        "    }",
    ];

    assert_eq!(
        fix_indents(lines),
        vec!["// foo.js", "", "function foo() {", "    console.log(100);", "    ", "}",]
    );
}

#[test]
fn test_trim_empty_lines() {
    let lines = vec![
        "",
        "",
        "// foo.js",
        "",
        "function foo() {",
        "    console.log(100);",
        "    ",
        "}",
        "",
        "",
        "",
        "",
    ];

    assert_eq!(
        trim_empty_lines(lines),
        vec!["// foo.js", "", "function foo() {", "    console.log(100);", "    ", "}",]
    );
}

#[test]
fn test_path_detect_and_pop_empty() {
    let lines: Vec<&str> = vec![];
    let (found, remaining) = path_detect_and_pop(FileType::JavaScript, &lines);
    assert_eq!(found, None);
    assert_eq!(remaining, lines);
}

#[test]
fn test_path_detect_and_pop_real() {
    let lines = vec!["// First line", "// foo.js", "// Third line"];
    let (found, remaining) = path_detect_and_pop(FileType::JavaScript, &lines);
    assert_eq!(found, Some("foo.js".to_string()));
    assert_eq!(remaining, vec!["// First line", "// Third line"]);
}

#[test]
fn segment_optimizer_test_optimize() {
    let so = SegmentOptimizer {
        lines: vec![
            "",
            "",
            "    // foo.js",
            "",
            "    function foo() {",
            "        console.log(100);",
            "        ",
            "    }",
            "    ",
            "",
            "",
            "",
        ],
        inferred_type: FileType::JavaScript,
        inferred_path: None,
    };

    assert_eq!(
        optimize(so),
        SegmentOptimizer {
            lines: vec!["function foo() {", "    console.log(100);", "    ", "}",],
            inferred_type: FileType::JavaScript,
            inferred_path: Some("foo.js".to_string()),
        }
    );
}

#[test]
fn optimize_is_idempotent() {
    // Normalizing an already-converged state returns it unchanged.
    let make = || SegmentOptimizer {
        lines: vec!["  // a.rs", "", "  fn f() {}", "   "],
        inferred_type: FileType::Rust,
        inferred_path: None,
    };
    let once = optimize(make());
    let twice = optimize(optimize(make()));
    assert_eq!(once, twice);
}

#[test]
fn optimize_leaves_no_indent() {
    // After normalization the minimum indent over non-empty lines is zero.
    let so = SegmentOptimizer {
        lines: vec!["      deep", "        deeper", "", "      back"],
        inferred_type: FileType::Unknown,
        inferred_path: None,
    };
    let done = optimize(so);
    assert_eq!(find_min_indent(&done.lines), 0);
    assert_eq!(done.lines, vec!["deep", "  deeper", "", "back"]);
}

#[test]
fn optimize_all_blank_block() {
    // An all-blank block normalizes to no lines and no path.
    let so = SegmentOptimizer {
        lines: vec!["", "   ", ""],
        inferred_type: FileType::Bash,
        inferred_path: None,
    };
    let done = optimize(so);
    assert_eq!(done.lines, Vec::<&str>::new());
    assert_eq!(done.inferred_path, None);
}

#[test]
fn optimize_only_path_comment() {
    // A block holding only the path comment keeps the path and no lines.
    let so = SegmentOptimizer {
        lines: vec!["# run.sh"],
        inferred_type: FileType::Bash,
        inferred_path: None,
    };
    let done = optimize(so);
    assert_eq!(done.lines, Vec::<&str>::new());
    assert_eq!(done.inferred_path, Some("run.sh".to_string()));
}

#[test]
fn optimize_detects_path_at_most_once() {
    // Once a path is set, a later line that would also match stays put.
    let so = SegmentOptimizer {
        lines: vec!["// a.js", "// b.js", "x"],
        inferred_type: FileType::JavaScript,
        inferred_path: None,
    };
    let done = optimize(so);
    assert_eq!(done.inferred_path, Some("a.js".to_string()));
    assert_eq!(done.lines, vec!["// b.js", "x"]);
}
