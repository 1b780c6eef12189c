//! Building the final named segment out of a converged normalization state.
use crate::chartext::{join_with, joined, str_eq};
use crate::filetype::name_of;
use crate::parse::RawCodeBlock;
use crate::segment_optimizer::{init_state, normalize_spec, NormalizationState, SegmentOptimizer};
use vstd::prelude::*;

verus! {

/// The textual model of a finished segment.
#[verifier::ext_equal]
pub struct SegModel {
    pub file_type: Seq<char>,
    pub file_name: Seq<char>,
    pub contents: Seq<char>,
}

/// A reconstructed file: its type's canonical name, its file name, and its
/// contents.
#[derive(Debug)]
pub struct Segment {
    pub file_type: String,
    pub file_name: String,
    pub contents: String,
}

impl View for Segment {
    type V = SegModel;

    open spec fn view(&self) -> SegModel {
        SegModel {
            file_type: self.file_type@,
            file_name: self.file_name@,
            contents: self.contents@,
        }
    }
}

impl PartialEq for Segment {
    fn eq(&self, other: &Self) -> (r: bool) {
        let r = str_eq(self.file_type.as_str(), other.file_type.as_str()) && str_eq(
            self.file_name.as_str(),
            other.file_name.as_str(),
        ) && str_eq(self.contents.as_str(), other.contents.as_str());
        proof {
            if r {
                assert(self@ =~~= other@);
            }
        }
        r
    }
}

impl vstd::std_specs::cmp::PartialEqSpecImpl for Segment {
    open spec fn obeys_eq_spec() -> bool {
        true
    }

    open spec fn eq_spec(&self, other: &Self) -> bool {
        self@ == other@
    }
}

/// The contents of a segment: the lines joined with a newline separator,
/// with exactly one trailing newline; `"\n"` alone for no lines.
pub open spec fn contents_of(lines: Seq<Seq<char>>) -> Seq<char> {
    joined(lines, "\n"@) + "\n"@
}

/// The segment built from a converged state: the type's canonical name, the
/// detected path or the fixed placeholder, and the joined contents.
pub open spec fn build_model(m: NormalizationState) -> SegModel {
    SegModel {
        file_type: name_of(m.file_type),
        file_name: match m.path {
            Some(p) => p,
            None => "filename.txt"@,
        },
        contents: contents_of(m.lines),
    }
}

/// What a raw block becomes: classify, normalize to the fixed point, build.
pub open spec fn segment_of(tag: Option<Seq<char>>, text: Seq<char>) -> SegModel {
    build_model(normalize_spec(init_state(tag, text)))
}

impl Segment {
    /// Classify and normalize one raw block and build its segment.
    pub fn from_block(block: &RawCodeBlock) -> (s: Segment)
        ensures
            s@ == segment_of(block.language_tag.deep_view(), block.raw_text@),
    {
        let so = SegmentOptimizer::from_block(block).optimize();
        let file_type = so.inferred_type.name();
        let mut contents = join_with(&so.lines, "\n");
        contents.append("\n");
        let file_name = match so.inferred_path {
            Some(p) => p,
            None => String::from_str("filename.txt"),
        };
        let s = Segment { file_type, file_name, contents };
        proof {
            assert(s@ =~~= segment_of(block.language_tag.deep_view(), block.raw_text@));
        }
        s
    }
}

} // verus!
