use mmlx::sourcemap::{ByteCoordinateSpace, ByteRange, MappedRange, MdxAdapter, RawBinaryAdapter, SourceNode};

#[test]
fn byte_range_uses_half_open_boundaries() {
    let range = ByteRange::new(4, 3);

    assert_eq!(range.end(), 7);
    assert!(!range.contains(3));
    assert!(range.contains(4));
    assert!(range.contains(6));
    assert!(!range.contains(7));
}

#[test]
fn source_node_keeps_mapped_range_and_children() {
    let child = SourceNode::new(2, "field", "value");
    let node = SourceNode::new(1, "header", "Header")
        .with_range(MappedRange::original(0, 16))
        .with_children(vec![child]);

    assert_eq!(node.range.unwrap().space, ByteCoordinateSpace::Original);
    assert_eq!(node.range.unwrap().range, ByteRange::new(0, 16));
    assert_eq!(node.children[0].id, 2);
}

#[test]
fn logical_ranges_require_a_coordinate_transform_for_hex_view() {
    let logical = MappedRange {
        space: ByteCoordinateSpace::Logical,
        range: ByteRange::new(4, 2),
    };
    let display = MappedRange {
        space: ByteCoordinateSpace::Display,
        range: ByteRange::new(8, 3),
    };

    assert_eq!(logical.hex_range(), None);
    assert_eq!(display.hex_range(), Some(ByteRange::new(8, 3)));
}

#[test]
fn raw_adapter_maps_each_block_to_original_bytes() {
    let adapter = RawBinaryAdapter::new(4);
    let nodes = adapter.parse(&[0, 1, 2, 3, 4, 5]);

    assert_eq!(nodes.len(), 2);
    assert_eq!(nodes[0].label, "Block 0x00000000");
    assert_eq!(nodes[0].range.unwrap().space, ByteCoordinateSpace::Original);
    assert_eq!(nodes[0].range.unwrap().range.start, 0);
    assert_eq!(nodes[0].range.unwrap().range.len, 4);
    assert_eq!(nodes[1].range.unwrap().range.start, 4);
    assert_eq!(nodes[1].range.unwrap().range.len, 2);
}

#[test]
fn raw_adapter_handles_empty_input_and_zero_block_size() {
    assert!(RawBinaryAdapter::default().parse(&[]).is_empty());
    assert_eq!(RawBinaryAdapter::new(0).block_size(), 0);
    assert_eq!(RawBinaryAdapter::new(0).parse(&[1]).len(), 1);
}

#[test]
fn raw_adapter_labels_blocks_by_hex_offset_and_size() {
    let nodes = RawBinaryAdapter::default().parse(&[7u8; 600]);

    assert_eq!(nodes.len(), 3);
    assert_eq!(nodes[1].label, "Block 0x00000100");
    assert_eq!(nodes[1].detail, "256 bytes");
    assert_eq!(nodes[2].label, "Block 0x00000200");
    assert_eq!(nodes[2].detail, "88 bytes");
    assert_eq!(nodes[2].id, 2);
}

#[test]
fn copy_text_is_kept_on_source_nodes() {
    let node = SourceNode::new(5, "label", "detail").with_copy_text("f1 00");
    assert_eq!(node.copy_text.as_deref(), Some("f1 00"));
    assert_eq!(node.label, "label");
}

#[test]
fn mdx_coordinate_space_follows_the_packed_marker() {
    assert_eq!(MdxAdapter::coordinate_space(&[0, 1, 2, 3]), ByteCoordinateSpace::Original);
    assert_eq!(
        MdxAdapter::coordinate_space(&[9, 0x7f, 0xff, 0xff, 0x4c, 0]),
        ByteCoordinateSpace::Logical
    );
    assert_eq!(MdxAdapter::coordinate_space(&[0x7f, 0xff, 0xff]), ByteCoordinateSpace::Original);
}
