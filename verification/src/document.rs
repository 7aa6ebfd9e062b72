//! The document as the pipeline sees it: typed nodes in document
//! (pre-order) sequence. Parsing text into these nodes and serializing the
//! rewritten tree back to text is the Markdown library's job, outside this
//! crate's scope; everything the pipeline decides is decided on this model.

use vstd::prelude::*;

verus! {

/// One node of the document, in document order. Nodes that the pipeline
/// never touches are `Other`.
#[derive(Debug)]
pub enum MdNode {
    /// The front-matter block's bytes.
    FrontMatter(Vec<u8>),
    /// A fenced code block: its info string and its literal bytes.
    CodeBlock { info: String, literal: Vec<u8> },
    /// Any other node, left untouched.
    Other,
}

pub open spec fn is_code_block(n: MdNode) -> bool {
    n is CodeBlock
}

pub open spec fn is_front_matter(n: MdNode) -> bool {
    n is FrontMatter
}

/// How many code blocks the document holds.
pub open spec fn count_code_blocks(doc: Seq<MdNode>) -> int
    decreases doc.len(),
{
    if doc.len() == 0 {
        0
    } else {
        count_code_blocks(doc.drop_last()) + if is_code_block(doc.last()) {
            1int
        } else {
            0int
        }
    }
}

pub proof fn lemma_count_code_blocks_mono(doc: Seq<MdNode>, a: int, b: int)
    requires
        0 <= a <= b <= doc.len(),
    ensures
        count_code_blocks(doc.take(a)) <= count_code_blocks(doc.take(b)),
    decreases b - a,
{
    if a < b {
        lemma_count_code_blocks_mono(doc, a, b - 1);
        assert(doc.take(b).drop_last() =~= doc.take(b - 1));
    }
}

/// Whether the document holds no front matter at all.
pub open spec fn fm_free(doc: Seq<MdNode>) -> bool {
    forall|i: int| 0 <= i < doc.len() ==> !is_front_matter(#[trigger] doc[i])
}

/// The index of the first front-matter node, or the document's length.
pub open spec fn first_fm(doc: Seq<MdNode>) -> int
    decreases doc.len(),
{
    if doc.len() == 0 {
        0
    } else if is_front_matter(doc[0]) {
        0
    } else {
        1 + first_fm(doc.drop_first())
    }
}

pub proof fn lemma_first_fm_bounds(doc: Seq<MdNode>)
    ensures
        0 <= first_fm(doc) <= doc.len(),
        forall|j: int| 0 <= j < first_fm(doc) ==> !is_front_matter(#[trigger] doc[j]),
        first_fm(doc) < doc.len() ==> is_front_matter(doc[first_fm(doc)]),
    decreases doc.len(),
{
    if doc.len() > 0 && !is_front_matter(doc[0]) {
        let t = doc.drop_first();
        lemma_first_fm_bounds(t);
        assert forall|j: int| 0 <= j < first_fm(doc) implies !is_front_matter(#[trigger] doc[j]) by {
            if j > 0 {
                assert(doc[j] == t[j - 1]);
            }
        }
        if first_fm(doc) < doc.len() {
            assert(doc[first_fm(doc)] == t[first_fm(t)]);
        }
    }
}

} // verus!
