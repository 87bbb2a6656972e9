//! Tree nodes shown by the debugger, and their construction from source nodes.
use vstd::prelude::*;

use crate::sourcemap::{ByteRange, MappedRange, RawBinaryAdapter, SourceNode};
use crate::sourcemap::raw::{block_count, block_node_ok};
use crate::text::{decimal, push_decimal, push_str};

verus! {

broadcast use vstd::std_specs::vec::group_vec_axioms;

/// A node of the debugger tree.
#[derive(Debug)]
pub struct AstNode {
    pub title: String,
    pub detail: String,
    pub children: Vec<AstNode>,
    /// The number of children loaded on demand, when they are.
    pub lazy_count: Option<usize>,
    /// The absolute index of the first of those children.
    pub lazy_start: Option<usize>,
    /// The MDX track the children come from.
    pub lazy_track: Option<usize>,
    /// The bytes a hex viewer highlights for this node.
    pub byte_range: Option<ByteRange>,
    /// The range this node maps, in its own coordinate space.
    pub mapped_range: Option<MappedRange>,
}

impl AstNode {
    /// A node from owned text, with no children, lazy data or ranges.
    pub fn from_strings(title: String, detail: String) -> (node: Self)
        ensures
            node.title == title,
            node.detail == detail,
            node.children@.len() == 0,
            node.lazy_count is None,
            node.lazy_start is None,
            node.lazy_track is None,
            node.byte_range is None,
            node.mapped_range is None,
    {
        AstNode {
            title,
            detail,
            children: Vec::new(),
            lazy_count: None,
            lazy_start: None,
            lazy_track: None,
            byte_range: None,
            mapped_range: None,
        }
    }

    /// A node with a title and a detail, and no children, lazy data or ranges.
    pub fn new(title: &str, detail: &str) -> (node: Self)
        ensures
            node.title@ == title@,
            node.detail@ == detail@,
            node.children@.len() == 0,
            node.lazy_count is None,
            node.lazy_start is None,
            node.lazy_track is None,
            node.byte_range is None,
            node.mapped_range is None,
    {
        AstNode::from_strings(title.to_owned(), detail.to_owned())
    }

    /// The node with `children` as its children.
    pub fn with_children(self, children: Vec<AstNode>) -> (node: Self)
        ensures
            node == (AstNode { children, ..self }),
    {
        AstNode { children, ..self }
    }

    /// The node with `count` children to load on demand.
    pub fn with_lazy(self, count: usize) -> (node: Self)
        ensures
            node == (AstNode { lazy_count: Some(count), ..self }),
    {
        AstNode { lazy_count: Some(count), ..self }
    }

    /// The node with `count` children to load on demand, the first at absolute index `start`.
    pub fn with_lazy_range(self, start: usize, count: usize) -> (node: Self)
        ensures
            node == (AstNode { lazy_count: Some(count), lazy_start: Some(start), ..self }),
    {
        AstNode { lazy_count: Some(count), lazy_start: Some(start), ..self }
    }

    /// The node whose children come from MDX track `track`.
    pub fn with_lazy_track(self, track: usize) -> (node: Self)
        ensures
            node == (AstNode { lazy_track: Some(track), ..self }),
    {
        AstNode { lazy_track: Some(track), ..self }
    }

    /// The node with `len` bytes from `start` of the original input as its range.
    pub fn with_byte_range(self, start: usize, len: usize) -> (node: Self)
        ensures
            node == (AstNode {
                byte_range: Some(ByteRange { start, len }),
                mapped_range: Some(MappedRange::original_spec(start, len)),
                ..self
            }),
    {
        AstNode {
            byte_range: Some(ByteRange::new(start, len)),
            mapped_range: Some(MappedRange::original(start, len)),
            ..self
        }
    }
}

/// `copy` holds the same tree as `node`: the same texts, lazy data and ranges, and
/// children that hold the same trees, in order.
pub open spec fn same_tree(copy: AstNode, node: AstNode) -> bool
    decreases node, 1int,
{
    &&& copy.title == node.title
    &&& copy.detail == node.detail
    &&& copy.lazy_count == node.lazy_count
    &&& copy.lazy_start == node.lazy_start
    &&& copy.lazy_track == node.lazy_track
    &&& copy.byte_range == node.byte_range
    &&& copy.mapped_range == node.mapped_range
    &&& {
        proof {
            assert(decreases_to!(node => node.children));
            assert(decreases_to!(node.children => node.children@));
        }
        all_same(copy.children@, node.children@)
    }
}

/// Each of `copies` holds the same tree as the node at the same index of `nodes`.
pub open spec fn all_same(copies: Seq<AstNode>, nodes: Seq<AstNode>) -> bool
    decreases nodes, 0int,
{
    copies.len() == nodes.len() && (nodes.len() == 0 || (all_same(
        copies.drop_last(),
        nodes.drop_last(),
    ) && same_tree(copies.last(), nodes.last())))
}

/// Every node holds the same tree as itself.
pub proof fn lemma_same_tree_reflexive(node: AstNode)
    ensures
        same_tree(node, node),
    decreases node, 1int,
{
    assert(decreases_to!(node => node.children));
    assert(decreases_to!(node.children => node.children@));
    lemma_all_same_reflexive(node.children@);
}

proof fn lemma_all_same_reflexive(nodes: Seq<AstNode>)
    ensures
        all_same(nodes, nodes),
    decreases nodes, 0int,
{
    if nodes.len() > 0 {
        lemma_all_same_reflexive(nodes.drop_last());
        lemma_same_tree_reflexive(nodes.last());
    }
}

impl Clone for AstNode {
    fn clone(&self) -> (node: Self)
        ensures
            same_tree(node, *self),
        decreases self,
    {
        let mut children: Vec<AstNode> = Vec::new();
        let mut index: usize = 0;
        proof {
            assert(self.children@.take(0) =~= Seq::<AstNode>::empty());
        }
        while index < self.children.len()
            invariant
                index <= self.children@.len(),
                all_same(children@, self.children@.take(index as int)),
            decreases self.children@.len() - index,
        {
            proof {
                assert(decreases_to!(*self => self.children));
                assert(decreases_to!(self.children => self.children@));
                assert(decreases_to!(self.children@ => self.children@[index as int]));
            }
            let child = self.children[index].clone();
            let ghost before = children@;
            children.push(child);
            proof {
                let taken = self.children@.take(index + 1);
                assert(taken.drop_last() =~= self.children@.take(index as int));
                assert(children@.drop_last() =~= before);
                assert(taken.last() == self.children@[index as int]);
            }
            index += 1;
        }
        proof {
            assert(self.children@.take(self.children@.len() as int) =~= self.children@);
        }
        AstNode {
            title: self.title.clone(),
            detail: self.detail.clone(),
            children,
            lazy_count: self.lazy_count,
            lazy_start: self.lazy_start,
            lazy_track: self.lazy_track,
            byte_range: self.byte_range,
            mapped_range: self.mapped_range,
        }
    }
}

/// What a background worker sends the viewer.
pub enum AstBuildMessage {
    /// The whole tree of a newly parsed input.
    Full { generation: u64, nodes: Vec<AstNode> },
    /// Children of the node at `path`, the first at index `start`.
    Partial { generation: u64, path: Vec<usize>, start: usize, nodes: Vec<AstNode> },
    /// Inclusive ranges where the rebuilt bytes differ from the input, and the rebuilt bytes.
    Diff { generation: u64, diffs: Vec<(usize, usize)>, rebuilt_bytes: Vec<u8> },
    /// A message for the user.
    Error { generation: u64, message: String },
}

/// The tree node shows a source node: same texts and mapped range, a hex range only for
/// original or display coordinates, and its children converted in order.
pub open spec fn converted(ast: AstNode, node: SourceNode) -> bool
    decreases node, 1int,
{
    &&& ast.title == node.label
    &&& ast.detail == node.detail
    &&& ast.mapped_range == node.range
    &&& ast.byte_range == (match node.range {
        Some(mapped) => if mapped.space is Logical {
            None
        } else {
            Some(mapped.range)
        },
        None => None,
    })
    &&& ast.lazy_count is None
    &&& ast.lazy_start is None
    &&& ast.lazy_track is None
    &&& {
        proof {
            assert(decreases_to!(node => node.children));
            assert(decreases_to!(node.children => node.children@));
        }
        all_converted(ast.children@, node.children@)
    }
}

/// Each tree node shows the source node at the same index.
pub open spec fn all_converted(asts: Seq<AstNode>, nodes: Seq<SourceNode>) -> bool
    decreases nodes, 0int,
{
    asts.len() == nodes.len() && (nodes.len() == 0 || (all_converted(
        asts.drop_last(),
        nodes.drop_last(),
    ) && converted(asts.last(), nodes.last())))
}

/// The tree node of a source node, with its children converted in order.
pub fn source_node_to_ast(node: SourceNode) -> (ast: AstNode)
    ensures
        converted(ast, node),
    decreases node,
{
    let ghost original = node;
    let SourceNode { id: _, label, detail, copy_text: _, range, children } = node;
    let ghost source_children = children@;
    let count = children.len();
    let mut pending = reversed(children);
    let mut converted_children: Vec<AstNode> = Vec::new();
    proof {
        assert(source_children.take(0) =~= Seq::<SourceNode>::empty());
    }
    while pending.len() > 0
        invariant
            original == node,
            original.children@ == source_children,
            count == source_children.len(),
            pending@.len() + converted_children@.len() == count,
            forall|j: int|
                0 <= j < pending@.len() ==> pending@[j] == source_children[count - 1 - j],
            all_converted(converted_children@, source_children.take(converted_children@.len() as int)),
        decreases pending@.len(),
    {
        let ghost k = converted_children@.len() as int;
        let child = pending.pop().unwrap();
        proof {
            assert(child == source_children[k]);
            assert(decreases_to!(original => original.children));
            assert(decreases_to!(original.children => original.children@));
            assert(decreases_to!(original.children@ => original.children@[k]));
        }
        let ast_child = source_node_to_ast(child);
        let ghost before = converted_children@;
        converted_children.push(ast_child);
        proof {
            assert(converted_children@.drop_last() =~= before);
            assert(source_children.take(k + 1).drop_last() =~= source_children.take(k));
        }
    }
    let mut ast = AstNode::from_strings(label, detail);
    match range {
        Some(mapped) => {
            ast.mapped_range = Some(mapped);
            ast.byte_range = mapped.hex_range();
        },
        None => {},
    }
    ast.children = converted_children;
    proof {
        assert(source_children.take(count as int) =~= source_children);
    }
    ast
}

/// The items of `items` in reverse order.
pub(crate) fn reversed<T>(items: Vec<T>) -> (r: Vec<T>)
    ensures
        r@.len() == items@.len(),
        forall|j: int| 0 <= j < r@.len() ==> r@[j] == items@[items@.len() - 1 - j],
{
    let ghost original = items@;
    let mut items = items;
    let mut out: Vec<T> = Vec::new();
    while items.len() > 0
        invariant
            items@ == original.subrange(0, items@.len() as int),
            out@.len() + items@.len() == original.len(),
            forall|j: int| 0 <= j < out@.len() ==> out@[j] == original[original.len() - 1 - j],
        decreases items@.len(),
    {
        let item = items.pop().unwrap();
        out.push(item);
    }
    out
}

/// The fallback tree for bytes no structured format accepts: one `Raw Binary` root over all the
/// bytes, with a child per 256-byte block.
pub fn build_raw_binary_nodes(bytes: &[u8], parse_error: &str) -> (nodes: Vec<AstNode>)
    ensures
        nodes@.len() == 1,
        nodes@[0].title@ == "Raw Binary"@,
        nodes@[0].detail@ == decimal(bytes@.len()) + " bytes; structured format parse failed: "@
            + parse_error@,
        nodes@[0].byte_range == (if bytes@.len() == 0 {
            None
        } else {
            Some(ByteRange { start: 0, len: bytes@.len() as usize })
        }),
        nodes@[0].children@.len() == block_count(bytes@.len(), 256),
{
    let blocks = RawBinaryAdapter::default().parse(bytes);
    let count = blocks.len();
    let mut pending = reversed(blocks);
    let mut children: Vec<AstNode> = Vec::new();
    while pending.len() > 0
        invariant
            pending@.len() + children@.len() == count,
        decreases pending@.len(),
    {
        let block = pending.pop().unwrap();
        children.push(source_node_to_ast(block));
    }
    let mut detail = String::new();
    push_decimal(&mut detail, bytes.len() as u64);
    push_str(&mut detail, " bytes; structured format parse failed: ");
    push_str(&mut detail, parse_error);
    let mut root = AstNode::new("Raw Binary", "").with_children(children);
    root.detail = detail;
    if bytes.len() > 0 {
        root.byte_range = Some(ByteRange::new(0, bytes.len()));
    }
    let mut nodes: Vec<AstNode> = Vec::new();
    nodes.push(root);
    nodes
}

} // verus!
