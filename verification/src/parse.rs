//! From document text to segments: the fenced code blocks are extracted by
//! the markdown parser, and each block is classified, normalized and built
//! into a named segment.
use crate::segment::{segment_of, Segment};
use vstd::prelude::*;

verus! {

/// One fenced code block of the document: its optional language tag and its
/// raw text.
pub struct RawCodeBlock {
    pub language_tag: Option<String>,
    pub raw_text: String,
}

/// The fenced code blocks of a document, in document order, as
/// (language tag, raw text) pairs: a function of the text alone.
pub uninterp spec fn code_blocks_of(md: Seq<char>) -> Seq<(Option<Seq<char>>, Seq<char>)>;

/// Relies on markdown::to_mdast with the default options, which parses
/// CommonMark deterministically and cannot fail with MDX off, and walks the
/// returned tree depth first, collecting every code node in document order.
#[verifier::external_body]
fn md_code_blocks(text: &str) -> (r: Vec<RawCodeBlock>)
    ensures
        r@.len() == code_blocks_of(text@).len(),
        forall|i: int|
            0 <= i < r@.len() ==> r@[i].language_tag.deep_view() == code_blocks_of(text@)[i].0
                && r@[i].raw_text@ == code_blocks_of(text@)[i].1,
{
    let tree = markdown::to_mdast(text, &markdown::ParseOptions::default()).expect(
        "to_mdast cannot fail with MDX off",
    );
    let mut stack: Vec<&markdown::mdast::Node> = vec![&tree];
    let mut out: Vec<RawCodeBlock> = Vec::new();
    while let Some(node) = stack.pop() {
        if let markdown::mdast::Node::Code(c) = node {
            out.push(RawCodeBlock { language_tag: c.lang.clone(), raw_text: c.value.clone() });
        } else if let Some(children) = node.children() {
            for child in children.iter().rev() {
                stack.push(child);
            }
        }
    }
    out
}

/// Extract every fenced code block of the document and turn each one into a
/// named segment, in document order.
pub fn parse(md_text: &str) -> (segments: Vec<Segment>)
    ensures
        segments@.len() == code_blocks_of(md_text@).len(),
        forall|i: int|
            0 <= i < segments@.len() ==> segments@[i]@ == segment_of(
                code_blocks_of(md_text@)[i].0,
                code_blocks_of(md_text@)[i].1,
            ),
{
    let blocks = md_code_blocks(md_text);
    let mut segments: Vec<Segment> = Vec::new();
    let mut i: usize = 0;
    while i < blocks.len()
        invariant
            0 <= i <= blocks.len(),
            blocks@.len() == code_blocks_of(md_text@).len(),
            forall|k: int|
                0 <= k < blocks@.len() ==> blocks@[k].language_tag.deep_view() == code_blocks_of(
                    md_text@,
                )[k].0 && blocks@[k].raw_text@ == code_blocks_of(md_text@)[k].1,
            segments@.len() == i,
            forall|k: int|
                0 <= k < i ==> segments@[k]@ == segment_of(
                    code_blocks_of(md_text@)[k].0,
                    code_blocks_of(md_text@)[k].1,
                ),
        decreases blocks.len() - i,
    {
        segments.push(Segment::from_block(&blocks[i]));
        i = i + 1;
    }
    segments
}

} // verus!
