use mmlx::debugger::ast::{build_raw_binary_nodes, source_node_to_ast, AstNode};
use mmlx::debugger::diff::compute_diff_ranges;
use mmlx::debugger::lazy::{resolve_request, LazyLoadState};
use mmlx::debugger::tree::{parse_address_from_detail, path_key, selection_range};
use mmlx::sourcemap::{ByteCoordinateSpace, ByteRange, MappedRange, SourceNode};

#[test]
fn pending_requests_are_deduplicated_until_completed() {
    let mut state = LazyLoadState::new();
    let path = [1, 2];

    assert!(!state.is_pending(&path));
    assert!(state.begin_request(&path));
    assert!(state.is_pending(&path));
    assert!(!state.begin_request(&path));
    state.complete_request(&path);
    assert!(!state.is_pending(&path));
    assert!(state.begin_request(&path));
}

#[test]
fn partial_results_append_replace_and_fill_gaps() {
    let mut state = LazyLoadState::new();
    let path = [0];

    assert_eq!(
        state.apply_partial(&path, 0, vec![AstNode::new("a", "")]),
        1
    );
    assert_eq!(
        state.apply_partial(&path, 0, vec![AstNode::new("b", "")]),
        1
    );
    assert_eq!(
        state.apply_partial(&path, 2, vec![AstNode::new("c", "")]),
        3
    );

    let nodes = state.loaded(&path);
    assert_eq!(nodes[0].title, "b");
    assert_eq!(nodes[1].title, "<placeholder>");
    assert_eq!(nodes[2].title, "c");
    assert_eq!(path_key(&path), "0");
    assert!(!state.is_pending(&path));
}

#[test]
fn clear_removes_loaded_nodes_and_pending_requests() {
    let mut state = LazyLoadState::new();
    let path = [3];
    state.begin_request(&path);
    state.apply_partial(&path, 0, vec![AstNode::new("node", "")]);
    state.begin_request(&[4]);

    state.clear();

    assert!(state.loaded_nodes.is_empty());
    assert!(!state.is_pending(&path));
    assert!(!state.is_pending(&[4]));
}

#[test]
fn path_key_joins_nested_indices() {
    assert_eq!(path_key(&[1, 2, 3]), "1.2.3");
    assert_eq!(path_key(&[]), "");
}

#[test]
fn parses_hex_before_decimal_addresses() {
    assert_eq!(parse_address_from_detail("offset 0x2a"), Some(42));
    assert_eq!(parse_address_from_detail("byte 17"), Some(17));
    assert_eq!(parse_address_from_detail("no address"), None);
}

#[test]
fn selection_range_prefers_explicit_range_and_clamps_to_bytes() {
    let node = AstNode::new("field", "offset 0x2a").with_byte_range(3, 20);
    assert_eq!(selection_range(&node, 10), Some((3, 9)));

    let fallback = AstNode::new("field", "offset 0x2a");
    assert_eq!(selection_range(&fallback, 64), Some((42, 42)));

    let empty = AstNode::new("field", "offset 0x2a").with_byte_range(70, 2);
    assert_eq!(selection_range(&empty, 64), Some((42, 42)));
    assert_eq!(selection_range(&AstNode::new("field", "unknown"), 64), None);
}

#[test]
fn diff_ranges_group_adjacent_changes_and_cover_length_changes() {
    assert_eq!(compute_diff_ranges(b"abcdef", b"abXYef"), vec![(2, 3)]);
    assert_eq!(
        compute_diff_ranges(b"abcdef", b"abXdefZ"),
        vec![(2, 2), (6, 6)]
    );
    assert_eq!(compute_diff_ranges(b"abcdef", b"abc"), vec![(3, 5)]);
    assert_eq!(compute_diff_ranges(b"abc", b"abcdef"), vec![(3, 5)]);
    assert!(compute_diff_ranges(b"same", b"same").is_empty());
    assert!(compute_diff_ranges(b"", b"").is_empty());
}

#[test]
fn ast_nodes_preserve_lazy_range_and_byte_range_metadata() {
    let node = AstNode::new("Commands", "2 commands")
        .with_lazy_range(10, 2)
        .with_byte_range(32, 8);

    assert_eq!(node.lazy_count, Some(2));
    assert_eq!(node.lazy_start, Some(10));
    assert_eq!(node.byte_range, Some(ByteRange::new(32, 8)));
}

#[test]
fn logical_source_ranges_are_not_sent_to_the_hex_viewer() {
    let node = SourceNode::new(1, "logical", "command").with_range(MappedRange {
        space: ByteCoordinateSpace::Logical,
        range: ByteRange::new(12, 3),
    });

    let ast = source_node_to_ast(node);

    assert_eq!(
        ast.mapped_range,
        Some(MappedRange {
            space: ByteCoordinateSpace::Logical,
            range: ByteRange::new(12, 3),
        })
    );
    assert_eq!(ast.byte_range, None);
}

#[test]
fn invalid_vgm_bytes_fall_back_to_raw_binary_nodes() {
    let nodes = build_raw_binary_nodes(&[1, 2, 3], "invalid VGM");

    assert_eq!(nodes.len(), 1);
    assert_eq!(nodes[0].title, "Raw Binary");
    assert!(nodes[0].detail.contains("invalid VGM"));
    assert_eq!(nodes[0].byte_range, Some(ByteRange::new(0, 3)));
    assert_eq!(nodes[0].children.len(), 1);
    assert_eq!(nodes[0].children[0].byte_range, Some(ByteRange::new(0, 3)));
}

#[test]
fn resolve_request_uses_innermost_lazy_start_and_track() {
    let bucket = AstNode::new("bucket", "").with_lazy_range(100, 50);
    let track = AstNode::new("Track 2", "")
        .with_lazy_track(2)
        .with_children(vec![AstNode::new("first", ""), bucket]);
    let roots = vec![AstNode::new("Header", ""), track];

    let request = resolve_request(&[1, 1], 5, &roots);
    assert_eq!(request.absolute_start, 105);
    assert_eq!(request.mdx_track, Some(2));

    let shallow = resolve_request(&[0, 9], 7, &roots);
    assert_eq!(shallow.absolute_start, 7);
    assert_eq!(shallow.mdx_track, None);
}

#[test]
fn source_nodes_convert_with_their_children_in_order() {
    let node = SourceNode::new(0, "root", "r")
        .with_range(MappedRange::original(0, 8))
        .with_children(vec![SourceNode::new(1, "a", "x"), SourceNode::new(2, "b", "y")]);
    let ast = source_node_to_ast(node);

    assert_eq!(ast.title, "root");
    assert_eq!(ast.byte_range, Some(ByteRange::new(0, 8)));
    assert_eq!(ast.children.len(), 2);
    assert_eq!(ast.children[0].title, "a");
    assert_eq!(ast.children[1].detail, "y");
}
