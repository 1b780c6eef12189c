//! Classification of a fence language tag into the closed set of
//! recognized file types, and the reverse mapping to a canonical name.
use crate::chartext::str_eq;
use vstd::prelude::*;

verus! {

#[derive(PartialEq, Eq, Structural, Debug, Copy, Clone)]
pub enum FileType {
    Asm,
    Bash,
    C,
    JavaScript,
    Rust,
    Unknown,
}

/// Case-sensitive exact-match lookup on the alias table; anything else is
/// `Unknown`.
pub open spec fn classify(tag: Seq<char>) -> FileType {
    if tag == "asm"@ {
        FileType::Asm
    } else if tag == "bash"@ {
        FileType::Bash
    } else if tag == "c"@ {
        FileType::C
    } else if tag == "javascript"@ || tag == "js"@ {
        FileType::JavaScript
    } else if tag == "rust"@ || tag == "rs"@ {
        FileType::Rust
    } else {
        FileType::Unknown
    }
}

/// An absent tag is `Unknown`.
pub open spec fn classify_opt(tag: Option<Seq<char>>) -> FileType {
    match tag {
        Some(t) => classify(t),
        None => FileType::Unknown,
    }
}

/// The canonical lowercase name of each type.
pub open spec fn name_of(ft: FileType) -> Seq<char> {
    match ft {
        FileType::Asm => "asm"@,
        FileType::Bash => "bash"@,
        FileType::C => "c"@,
        FileType::JavaScript => "javascript"@,
        FileType::Rust => "rust"@,
        FileType::Unknown => "unknown"@,
    }
}

impl From<&str> for FileType {
    fn from(item: &str) -> (r: FileType) {
        if str_eq(item, "asm") {
            FileType::Asm
        } else if str_eq(item, "bash") {
            FileType::Bash
        } else if str_eq(item, "c") {
            FileType::C
        } else if str_eq(item, "javascript") || str_eq(item, "js") {
            FileType::JavaScript
        } else if str_eq(item, "rust") || str_eq(item, "rs") {
            FileType::Rust
        } else {
            FileType::Unknown
        }
    }
}

impl vstd::std_specs::convert::FromSpecImpl<&str> for FileType {
    open spec fn obeys_from_spec() -> bool {
        true
    }

    open spec fn from_spec(v: &str) -> FileType {
        classify(v@)
    }
}

impl From<&Option<String>> for FileType {
    fn from(item: &Option<String>) -> (r: FileType) {
        match item {
            Some(s) => FileType::from(s.as_str()),
            None => FileType::Unknown,
        }
    }
}

impl vstd::std_specs::convert::FromSpecImpl<&Option<String>> for FileType {
    open spec fn obeys_from_spec() -> bool {
        true
    }

    open spec fn from_spec(v: &Option<String>) -> FileType {
        classify_opt(v.deep_view())
    }
}

impl FileType {
    /// The canonical lowercase name, used for a segment's `file_type` field.
    pub fn name(&self) -> (r: String)
        ensures
            r@ == name_of(*self),
    {
        match self {
            FileType::Asm => String::from_str("asm"),
            FileType::Bash => String::from_str("bash"),
            FileType::C => String::from_str("c"),
            FileType::JavaScript => String::from_str("javascript"),
            FileType::Rust => String::from_str("rust"),
            FileType::Unknown => String::from_str("unknown"),
        }
    }
}

} // verus!
