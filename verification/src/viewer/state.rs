//! Tree nodes of the byte viewer and the messages its background workers send.
use vstd::prelude::*;

use crate::text::{decimal, push_decimal, push_str};

verus! {

/// A node of the viewer's tree.
#[derive(Debug)]
pub struct AstNode {
    pub title: String,
    pub detail: String,
    pub children: Vec<AstNode>,
    /// The number of children loaded on demand, when they are.
    pub lazy_count: Option<usize>,
    /// The absolute index of the first of those children.
    pub lazy_start: Option<usize>,
    /// The bytes `(start, len)` this node stands for in the input.
    pub byte_range: Option<(usize, usize)>,
}

impl AstNode {
    /// A node with a title and a detail, and no children, lazy data or range.
    pub fn new(title: &str, detail: &str) -> (node: Self)
        ensures
            node.title@ == title@,
            node.detail@ == detail@,
            node.children@.len() == 0,
            node.lazy_count is None,
            node.lazy_start is None,
            node.byte_range is None,
    {
        AstNode {
            title: title.to_owned(),
            detail: detail.to_owned(),
            children: Vec::new(),
            lazy_count: None,
            lazy_start: None,
            byte_range: None,
        }
    }

    /// The node with `children` as its children.
    pub fn with_children(self, children: Vec<AstNode>) -> (node: Self)
        ensures
            node == (AstNode { children, ..self }),
    {
        AstNode { children, ..self }
    }

    /// The node with `count` children to load on demand.
    pub fn with_lazy(self, count: usize) -> (node: Self)
        ensures
            node == (AstNode { lazy_count: Some(count), ..self }),
    {
        AstNode { lazy_count: Some(count), ..self }
    }

    /// The node with `count` children to load on demand, the first at absolute index `start`.
    pub fn with_lazy_range(self, start: usize, count: usize) -> (node: Self)
        ensures
            node == (AstNode { lazy_count: Some(count), lazy_start: Some(start), ..self }),
    {
        AstNode { lazy_count: Some(count), lazy_start: Some(start), ..self }
    }

    /// The node with `len` bytes from `start` as its range.
    pub fn with_byte_range(self, start: usize, len: usize) -> (node: Self)
        ensures
            node == (AstNode { byte_range: Some((start, len)), ..self }),
    {
        AstNode { byte_range: Some((start, len)), ..self }
    }
}

/// What a background worker sends the viewer.
pub enum AstBuildMessage {
    /// The whole tree of a newly parsed input.
    Full(Vec<AstNode>),
    /// Children of the node at `path`, the first at index `start`.
    Partial { path: Vec<usize>, start: usize, nodes: Vec<AstNode> },
    /// Inclusive ranges where the rebuilt bytes differ from the input, and the rebuilt bytes.
    Diff(Vec<(usize, usize)>, Vec<u8>),
    /// A message for the user.
    Error(String),
}

/// The end of the `index`-th group of a thousand commands among `total`.
pub open spec fn bucket_end(index: int, total: int) -> int {
    if 1000 * (index + 1) < total {
        1000 * (index + 1)
    } else {
        total
    }
}

/// The node of the `index`-th group of a thousand commands among `total`: titled
/// `[start..end]`, counting its commands, and loading them on demand from `start`.
pub open spec fn bucket_node(node: AstNode, index: int, total: int) -> bool {
    let start = 1000 * index;
    let end = bucket_end(index, total);
    &&& node.title@ == "["@ + decimal(start as nat) + ".."@ + decimal(end as nat) + "]"@
    &&& node.detail@ == decimal((end - start) as nat) + " commands"@
    &&& node.lazy_start == Some(start as usize)
    &&& node.lazy_count == Some((end - start) as usize)
    &&& node.children@.len() == 0
    &&& node.byte_range is None
}

/// The `Commands` node over `total` commands: its children group them by the thousand,
/// each loaded on demand.
pub fn commands_node(total: usize) -> (node: AstNode)
    requires
        (total + 999) / 1000 * 1000 <= usize::MAX,
    ensures
        node.title@ == "Commands"@,
        node.detail@ == decimal(total as nat) + " commands"@,
        node.children@.len() == (total + 999) / 1000,
        forall|i: int| 0 <= i < node.children@.len() ==> bucket_node(#[trigger] node.children@[i], i, total as int),
        node.lazy_count is None,
        node.lazy_start is None,
        node.byte_range is None,
{
    let mut buckets: Vec<AstNode> = Vec::new();
    let mut start: usize = 0;
    while start < total
        invariant
            (total + 999) / 1000 * 1000 <= usize::MAX,
            start == 1000 * buckets@.len(),
            buckets@.len() > 0 ==> 1000 * (buckets@.len() - 1) < total,
            forall|i: int| 0 <= i < buckets@.len() ==> bucket_node(#[trigger] buckets@[i], i, total as int),
        decreases total + 1000 - start,
    {
        assert(start + 1000 <= usize::MAX) by (nonlinear_arith)
            requires
                (total + 999) / 1000 * 1000 <= usize::MAX,
                start < total,
                start == 1000 * buckets@.len(),
        {
            assert(buckets@.len() + 1 <= (total + 999) / 1000);
        }
        let end = if start + 1000 < total {
            start + 1000
        } else {
            total
        };
        let mut title = String::new();
        push_str(&mut title, "[");
        push_decimal(&mut title, start as u64);
        push_str(&mut title, "..");
        push_decimal(&mut title, end as u64);
        push_str(&mut title, "]");
        let mut detail = String::new();
        push_decimal(&mut detail, (end - start) as u64);
        push_str(&mut detail, " commands");
        let mut node = AstNode::new("", "").with_lazy_range(start, end - start);
        node.title = title;
        node.detail = detail;
        buckets.push(node);
        start = start + 1000;
    }
    assert(buckets@.len() == (total + 999) / 1000) by (nonlinear_arith)
        requires
            start == 1000 * buckets@.len(),
            start >= total,
            buckets@.len() > 0 ==> 1000 * (buckets@.len() - 1) < total,
    ;
    let mut detail = String::new();
    push_decimal(&mut detail, total as u64);
    push_str(&mut detail, " commands");
    let mut node = AstNode::new("Commands", "").with_children(buckets);
    node.detail = detail;
    node
}

} // verus!
