use glu::segment::Segment;
use glu::writer::{confine, write_plan, WriteError};

fn seg(name: &str, contents: &str) -> Segment {
    Segment {
        file_type: "text".to_string(),
        file_name: name.to_string(),
        contents: contents.to_string(),
    }
}

#[test]
fn sandbox_rejection() {
    // A name that climbs out of the root fails the whole batch with
    // PathEscape; no write is planned for any segment.
    let plan = write_plan(&vec![seg("../../etc/passwd", "pwned")]);
    assert!(matches!(plan, Err(WriteError::PathEscape)));
}

#[test]
fn sandbox_rejects_absolute() {
    assert_eq!(confine("/etc/passwd"), Err(WriteError::PathEscape));
}

#[test]
fn sandbox_rejects_traversal() {
    assert_eq!(confine("../x"), Err(WriteError::PathEscape));
    assert_eq!(confine("a/../../x"), Err(WriteError::PathEscape));
}

#[test]
fn confine_normalizes() {
    assert_eq!(confine("a.txt"), Ok("a.txt".to_string()));
    assert_eq!(confine("./a/b.txt"), Ok("a/b.txt".to_string()));
    assert_eq!(confine("a//b/./c.txt"), Ok("a/b/c.txt".to_string()));
    assert_eq!(confine("a/../b.txt"), Ok("b.txt".to_string()));
}

#[test]
fn rejection_stops_the_batch() {
    // The batch aborts at the first escaping name: the later, harmless
    // segment is not planned either.
    let plan = write_plan(&vec![seg("ok.txt", "fine"), seg("/abs", "bad"), seg("late.txt", "x")]);
    assert!(matches!(plan, Err(WriteError::PathEscape)));
}

#[test]
fn overwrite_order_is_document_order() {
    // Two segments with the same name are planned in document order, so the
    // sequential writer leaves the second one's contents in the file.
    let plan = write_plan(&vec![seg("a.txt", "one\n"), seg("a.txt", "two\n")]).unwrap();
    assert_eq!(plan.len(), 2);
    assert_eq!(plan[0], ("a.txt".to_string(), "one\n".to_string()));
    assert_eq!(plan[1], ("a.txt".to_string(), "two\n".to_string()));
    let last_for_a: Vec<&(String, String)> =
        plan.iter().filter(|(n, _)| n == "a.txt").collect();
    assert_eq!(last_for_a.last().unwrap().1, "two\n");
}
