use glu::parse::RawCodeBlock;
use glu::segment::Segment;

#[test]
fn test_optimize() {
    let block = RawCodeBlock {
        language_tag: Some("js".to_string()),
        raw_text: "// foo.js\n\nlet x = 0;".to_string(),
    };
    let seg = Segment::from_block(&block);

    assert_eq!(
        seg,
        Segment {
            file_type: "javascript".to_string(),
            file_name: "foo.js".to_string(),
            contents: "let x = 0;\n".to_string(),
        }
    );
}

#[test]
fn basic_tangle() {
    // An indented block with a path comment and a blank line converges to
    // the named, dedented segment.
    let block = RawCodeBlock {
        language_tag: Some("js".to_string()),
        raw_text: "    // foo.js\n\n    let x = 0;\n    ".to_string(),
    };
    let seg = Segment::from_block(&block);
    assert_eq!(seg.file_type, "javascript");
    assert_eq!(seg.file_name, "foo.js");
    assert_eq!(seg.contents, "let x = 0;\n");
}

#[test]
fn no_path_no_type() {
    let block = RawCodeBlock { language_tag: None, raw_text: "plain text".to_string() };
    let seg = Segment::from_block(&block);
    assert_eq!(seg.file_type, "unknown");
    assert_eq!(seg.file_name, "filename.txt");
    assert_eq!(seg.contents, "plain text\n");
}

#[test]
fn empty_block() {
    let block = RawCodeBlock { language_tag: None, raw_text: "".to_string() };
    let seg = Segment::from_block(&block);
    assert_eq!(seg.file_type, "unknown");
    assert_eq!(seg.file_name, "filename.txt");
    assert_eq!(seg.contents, "\n");
}
