use glu::filetype::FileType;
use glu::path_detection::{detect_path, PathDetection};

fn check_some_pd(ft: FileType, line_number: usize, path: &str, lines: Vec<&str>) {
    assert_eq!(
        detect_path(ft, &lines),
        Some(PathDetection {
            line_number: line_number,
            path: path.to_string(),
        })
    );
}

fn check_none_pd(ft: FileType, lines: Vec<&str>) {
    assert_eq!(detect_path(ft, &lines), None);
}

#[test]
fn path_detection_test_unknown() {
    let ft = FileType::Unknown;
    check_none_pd(ft, vec![]);
    check_none_pd(ft, vec!["Anything"]);
}

#[test]
fn path_detection_test_js() {
    let ft = FileType::JavaScript;
    check_none_pd(ft, vec![]);
    check_none_pd(ft, vec!["function foo() {", "    console.log(100);", "    ", "}"]);

    check_some_pd(
        ft,
        0,
        "foo.js",
        vec!["// foo.js", "", "function foo() {", "    console.log(100);", "    ", "}"],
    );

    check_some_pd(
        ft,
        2,
        "third_line.js",
        vec![
            "// First line",
            "// Second line",
            "// third_line.js",
            "",
            "function foo() {",
            "    console.log(100);",
            "    ",
            "}",
        ],
    );

    check_none_pd(
        ft,
        vec![
            "// First line",
            "// Second line",
            "// Third line",
            "// fourth_line.js",
            "",
            "function foo() {",
            "    console.log(100);",
            "    ",
            "}",
        ],
    );
}

#[test]
fn path_detection_window_boundary() {
    // A syntactically valid path comment on the fourth line (index 3) is
    // never detected.
    let ft = FileType::JavaScript;
    check_none_pd(ft, vec!["a", "b", "c", "// valid.js"]);
    // The same comment inside the window is detected.
    check_some_pd(ft, 2, "valid.js", vec!["a", "b", "// valid.js", "d"]);
}

#[test]
fn path_detection_greedy_and_boundary() {
    // The token is read greedily to the last fitting extension.
    check_some_pd(FileType::Asm, 0, "a.asm.s", vec!["; a.asm.s"]);
    // A longer extension does not match a shorter type's suffix.
    check_none_pd(FileType::JavaScript, vec!["// foo.jsx"]);
    // A match may sit after other text on the line.
    check_some_pd(FileType::JavaScript, 0, "foo.js", vec!["let x = 1; // foo.js"]);
    // The greedy token runs to the last fitting extension on the line.
    check_some_pd(FileType::JavaScript, 0, "a.js b.js", vec!["// a.js b.js"]);
    // The match starts at the leftmost leader from which the whole pattern
    // can be read.
    check_some_pd(FileType::JavaScript, 0, "foo.js", vec!["/// foo.js"]);
}
