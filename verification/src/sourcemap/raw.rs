//! The fallback source tree for bytes without a recognized format: fixed-size blocks.
use vstd::prelude::*;

use super::{ByteCoordinateSpace, ByteRange, MappedRange, SourceNode};
use crate::text::{decimal, hex_min, push_decimal, push_hex_min, push_str};

verus! {

/// Splits binary data into blocks of a fixed size.
#[derive(Clone, Copy, Debug)]
pub struct RawBinaryAdapter {
    block_size: usize,
}

/// The size of the blocks actually cut: at least one byte.
pub open spec fn effective_block_size(block_size: usize) -> nat {
    if block_size == 0 {
        1
    } else {
        block_size as nat
    }
}

/// The number of blocks `length` bytes fill, the last one possibly short.
pub open spec fn block_count(length: nat, size: nat) -> nat {
    if size == 0 {
        0
    } else {
        ((length + size - 1) / size as int) as nat
    }
}

/// The node of block `index` of `length` bytes cut into `size`-byte blocks.
pub open spec fn block_node_ok(node: SourceNode, index: int, length: nat, size: nat) -> bool {
    let start = index * size;
    let len = if length - start < size {
        length - start
    } else {
        size as int
    };
    &&& node.id == index
    &&& node.label@ == "Block 0x"@ + hex_min(start as nat, 8)
    &&& node.detail@ == decimal(len as nat) + " bytes"@
    &&& node.copy_text is None
    &&& node.range == Some(
        MappedRange {
            space: ByteCoordinateSpace::Original,
            range: ByteRange { start: start as usize, len: len as usize },
        },
    )
    &&& node.children@.len() == 0
}

impl RawBinaryAdapter {
    /// The block size used when none is given.
    pub const DEFAULT_BLOCK_SIZE: usize = 256;

    /// An adapter that cuts blocks of `block_size` bytes (a size of zero cuts single bytes).
    pub fn new(block_size: usize) -> (adapter: Self)
        ensures
            adapter.block_size() == block_size,
    {
        RawBinaryAdapter { block_size }
    }

    pub closed spec fn block_size_spec(self) -> usize {
        self.block_size
    }

    /// The block size this adapter was made with.
    #[verifier::when_used_as_spec(block_size_spec)]
    pub fn block_size(self) -> (size: usize)
        ensures
            size == self.block_size_spec(),
    {
        self.block_size
    }

    /// One node per block, in order, each mapping its block of the original bytes.
    pub fn parse(self, bytes: &[u8]) -> (nodes: Vec<SourceNode>)
        ensures
            nodes@.len() == block_count(bytes@.len(), effective_block_size(self.block_size())),
            forall|i: int|
                0 <= i < nodes@.len() ==> block_node_ok(
                    #[trigger] nodes@[i],
                    i,
                    bytes@.len(),
                    effective_block_size(self.block_size()),
                ),
    {
        let size: usize = if self.block_size == 0 {
            1
        } else {
            self.block_size
        };
        let length = bytes.len();
        let mut nodes: Vec<SourceNode> = Vec::new();
        let mut start: usize = 0;
        let mut index: u64 = 0;
        proof {
            assert(block_count(0, size as nat) == 0) by (nonlinear_arith)
                requires
                    size >= 1,
            ;
        }
        while start < length
            invariant
                size == effective_block_size(self.block_size),
                size >= 1,
                length == bytes@.len(),
                start < length ==> start == index * size,
                start <= length,
                index <= start,
                nodes@.len() == index,
                index == block_count(start as nat, size as nat),
                forall|i: int|
                    0 <= i < nodes@.len() ==> block_node_ok(
                        #[trigger] nodes@[i],
                        i,
                        length as nat,
                        size as nat,
                    ),
            decreases length - start,
        {
            let len = if length - start < size {
                length - start
            } else {
                size
            };
            let mut label = String::new();
            push_str(&mut label, "Block 0x");
            push_hex_min(&mut label, start as u64, 8);
            let mut detail = String::new();
            push_decimal(&mut detail, len as u64);
            push_str(&mut detail, " bytes");
            let node = SourceNode::from_strings(index, label, detail).with_range(
                MappedRange::original(start, len),
            );
            proof {
                assert(block_node_ok(node, index as int, length as nat, size as nat));
                assert(block_count((start + len) as nat, size as nat) == index + 1) by (
                nonlinear_arith)
                    requires
                        start == index * size,
                        size >= 1,
                        1 <= len <= size,
                        len == size || start + len == length,
                        start + len <= length,
                ;
            }
            nodes.push(node);
            proof {
                assert((index + 1) * size == index * size + size) by (nonlinear_arith);
            }
            start = start + len;
            index = index + 1;
        }
        nodes
    }
}

impl Default for RawBinaryAdapter {
    fn default() -> (adapter: Self)
        ensures
            adapter.block_size() == 256,
    {
        RawBinaryAdapter::new(RawBinaryAdapter::DEFAULT_BLOCK_SIZE)
    }
}

} // verus!
