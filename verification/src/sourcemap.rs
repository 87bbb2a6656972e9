//! Format-independent source structures shared by parsers and viewers.
use vstd::prelude::*;

pub mod mdx;
pub mod raw;

pub use mdx::MdxAdapter;
pub use raw::RawBinaryAdapter;

verus! {

/// A half-open byte range: `[start, start + len)`.
#[derive(Clone, Copy, Debug, PartialEq, Eq, Structural)]
pub struct ByteRange {
    pub start: usize,
    pub len: usize,
}

/// The end of a range, saturating at the largest machine offset.
pub open spec fn saturating_end(start: usize, len: usize) -> int {
    if start + len > usize::MAX { usize::MAX as int } else { start + len }
}

impl ByteRange {
    pub fn new(start: usize, len: usize) -> (r: Self)
        ensures
            r.start == start,
            r.len == len,
    {
        ByteRange { start, len }
    }

    pub fn end(self) -> (e: usize)
        ensures
            e == saturating_end(self.start, self.len),
    {
        self.start.saturating_add(self.len)
    }

    pub fn contains(self, offset: usize) -> (b: bool)
        ensures
            b <==> (self.start <= offset && offset < saturating_end(self.start, self.len)),
    {
        offset >= self.start && offset < self.end()
    }
}

/// Which byte representation a mapped range addresses.
#[derive(Clone, Copy, Debug, PartialEq, Eq, Hash, Structural)]
pub enum ByteCoordinateSpace {
    Original,
    Display,
    Logical,
}

/// A range together with the byte representation it addresses.
#[derive(Clone, Copy, Debug, PartialEq, Eq, Structural)]
pub struct MappedRange {
    pub space: ByteCoordinateSpace,
    pub range: ByteRange,
}

impl MappedRange {
    pub open spec fn original_spec(start: usize, len: usize) -> Self {
        MappedRange { space: ByteCoordinateSpace::Original, range: ByteRange { start, len } }
    }

    /// A range over the original bytes.
    pub fn original(start: usize, len: usize) -> (r: Self)
        ensures
            r == MappedRange::original_spec(start, len),
    {
        MappedRange { space: ByteCoordinateSpace::Original, range: ByteRange::new(start, len) }
    }

    /// The range a viewer over original or display bytes can show; logical ranges need a
    /// coordinate transform first and give `None`.
    pub fn hex_range(self) -> (r: Option<ByteRange>)
        ensures
            r == (if self.space is Logical {
                None
            } else {
                Some(self.range)
            }),
    {
        match self.space {
            ByteCoordinateSpace::Original | ByteCoordinateSpace::Display => Some(self.range),
            ByteCoordinateSpace::Logical => None,
        }
    }
}

/// A format-independent node of the source tree.
#[derive(Debug)]
pub struct SourceNode {
    pub id: u64,
    pub label: String,
    pub detail: String,
    pub copy_text: Option<String>,
    pub range: Option<MappedRange>,
    pub children: Vec<SourceNode>,
}

impl SourceNode {
    /// A node with a label and a detail, and no range, copy text or children.
    pub fn new(id: u64, label: &str, detail: &str) -> (node: Self)
        ensures
            node.id == id,
            node.label@ == label@,
            node.detail@ == detail@,
            node.copy_text is None,
            node.range is None,
            node.children@.len() == 0,
    {
        SourceNode::from_strings(id, label.to_owned(), detail.to_owned())
    }

    /// A node that owns its label and detail.
    pub fn from_strings(id: u64, label: String, detail: String) -> (node: Self)
        ensures
            node.id == id,
            node.label == label,
            node.detail == detail,
            node.copy_text is None,
            node.range is None,
            node.children@.len() == 0,
    {
        SourceNode { id, label, detail, copy_text: None, range: None, children: Vec::new() }
    }

    /// The node with `range` as its range.
    pub fn with_range(self, range: MappedRange) -> (node: Self)
        ensures
            node == (SourceNode { range: Some(range), ..self }),
    {
        SourceNode { range: Some(range), ..self }
    }

    /// The node with `text` as its copy text.
    pub fn with_copy_text(self, text: &str) -> (node: Self)
        ensures
            node.copy_text matches Some(copy) && copy@ == text@,
            node.id == self.id,
            node.label == self.label,
            node.detail == self.detail,
            node.range == self.range,
            node.children == self.children,
    {
        SourceNode { copy_text: Some(text.to_owned()), ..self }
    }

    /// The node with `children` as its children.
    pub fn with_children(self, children: Vec<SourceNode>) -> (node: Self)
        ensures
            node == (SourceNode { children, ..self }),
    {
        SourceNode { children, ..self }
    }
}

} // verus!
