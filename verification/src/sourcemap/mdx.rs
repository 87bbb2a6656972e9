//! Source mapping for MDX input.
use vstd::prelude::*;

use super::ByteCoordinateSpace;

verus! {

/// The marker `0x7f 0xff 0xff 0x4c` that packed MDX data carries.
pub open spec fn has_packed_marker(bytes: Seq<u8>) -> bool {
    exists|i: int|
        0 <= i && i + 4 <= bytes.len() && #[trigger] bytes[i] == 0x7f && bytes[i + 1] == 0xff
            && bytes[i + 2] == 0xff && bytes[i + 3] == 0x4c
}

/// Maps MDX input onto source-tree nodes.
pub struct MdxAdapter;

impl MdxAdapter {
    /// The coordinates MDX ranges address: packed input is mapped in logical (unpacked)
    /// coordinates, plain input in its original bytes.
    pub fn coordinate_space(bytes: &[u8]) -> (space: ByteCoordinateSpace)
        ensures
            space == (if has_packed_marker(bytes@) {
                ByteCoordinateSpace::Logical
            } else {
                ByteCoordinateSpace::Original
            }),
    {
        let mut index: usize = 0;
        while index < bytes.len() && bytes.len() - index >= 4
            invariant
                index <= bytes@.len(),
                forall|i: int|
                    0 <= i < index ==> !(#[trigger] bytes@[i] == 0x7f && bytes@[i + 1] == 0xff
                        && bytes@[i + 2] == 0xff && bytes@[i + 3] == 0x4c),
            decreases bytes@.len() - index,
        {
            if bytes[index] == 0x7f && bytes[index + 1] == 0xff && bytes[index + 2] == 0xff
                && bytes[index + 3] == 0x4c {
                return ByteCoordinateSpace::Logical;
            }
            index += 1;
        }
        ByteCoordinateSpace::Original
    }
}

} // verus!
