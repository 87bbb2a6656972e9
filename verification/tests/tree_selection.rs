use mmlx::debugger::ast::AstNode;
use mmlx::debugger::state::UiState;
use mmlx::debugger::tree::{
    apply_node_selection, handle_keyboard_selection, keyboard_target, leaf_label, select_top_node,
};
use mmlx::viewer::hex::HexViewer;

#[test]
fn arrow_keys_stop_at_the_ends_of_the_top_level_nodes() {
    assert_eq!(keyboard_target(None, 0, true), None);
    assert_eq!(keyboard_target(Some(3), 0, false), None);
    assert_eq!(keyboard_target(None, 4, true), Some(3));
    assert_eq!(keyboard_target(None, 4, false), Some(0));
    assert_eq!(keyboard_target(Some(0), 4, true), Some(0));
    assert_eq!(keyboard_target(Some(2), 4, true), Some(1));
    assert_eq!(keyboard_target(Some(2), 4, false), Some(3));
    assert_eq!(keyboard_target(Some(3), 4, false), Some(3));
}

#[test]
fn a_top_node_reached_by_keys_is_selected_marked_and_scrolled_to() {
    let mut viewer = HexViewer::new();
    viewer.set_selection_range(1, 2);
    let node = AstNode::new("Commands", "").with_byte_range(8, 4);
    select_top_node(&mut viewer, &node, 64);
    assert_eq!(viewer.selection_range(), Some((8, 11)));
    assert!(viewer.selection_stroked(8, 11));
    assert_eq!(viewer.take_pending_scroll(), Some(((8, 11), false)));

    let unplaced = AstNode::new("Commands", "nothing here");
    select_top_node(&mut viewer, &unplaced, 64);
    assert_eq!(viewer.selection_range(), None);
    assert_eq!(viewer.take_pending_scroll(), None);
}

#[test]
fn a_node_inside_a_header_fills_the_section_and_outlines_itself() {
    let mut state = UiState::new_empty();
    state.bytes = vec![0; 0x100];
    state.ast_root = vec![
        AstNode::new("Header", "").with_byte_range(0, 0x40),
        AstNode::new("Commands", "").with_byte_range(0x40, 0x20),
    ];
    let field = AstNode::new("version", "").with_byte_range(8, 4);
    apply_node_selection(&mut state, &[0, 2], &field);
    assert_eq!(state.selected_ast, Some(vec![0, 2]));
    assert_eq!(state.hex_viewer.selection_range(), Some((0, 0x3f)));
    assert!(!state.hex_viewer.selection_stroked(0, 0x3f));
    assert_eq!(state.hex_viewer.take_pending_scroll(), Some(((8, 11), false)));

    let command = AstNode::new("wait", "").with_byte_range(0x44, 2);
    apply_node_selection(&mut state, &[1, 0], &command);
    assert_eq!(state.selected_ast, Some(vec![1, 0]));
    assert_eq!(state.hex_viewer.selection_range(), Some((0x44, 0x45)));
    assert!(state.hex_viewer.selection_stroked(0x44, 0x45));

    state.hex_viewer.take_pending_scroll();
    let header = AstNode::new("Header", "").with_byte_range(0, 0x40);
    apply_node_selection(&mut state, &[0], &header);
    assert_eq!(state.hex_viewer.selection_range(), Some((0, 0x3f)));
    assert_eq!(state.hex_viewer.take_pending_scroll(), Some(((0, 0x3f), false)));
}

#[test]
fn arrow_keys_select_and_focus_a_top_level_node() {
    let mut state = UiState::new_empty();
    state.bytes = vec![0; 0x100];
    state.ast_root = vec![
        AstNode::new("Header", "").with_byte_range(0, 0x40),
        AstNode::new("Commands", "").with_byte_range(0x40, 0x20),
    ];
    handle_keyboard_selection(&mut state, false, 2);
    assert_eq!(state.selected_ast, Some(vec![0]));
    assert_eq!(state.pending_focus, Some(vec![0]));
    assert_eq!(state.hex_viewer.selection_range(), Some((0, 0x3f)));

    handle_keyboard_selection(&mut state, false, 2);
    assert_eq!(state.selected_ast, Some(vec![1]));
    assert_eq!(state.hex_viewer.selection_range(), Some((0x40, 0x5f)));

    handle_keyboard_selection(&mut state, false, 2);
    assert_eq!(state.selected_ast, Some(vec![1]));

    handle_keyboard_selection(&mut state, true, 2);
    assert_eq!(state.selected_ast, Some(vec![0]));

    let mut empty = UiState::new_empty();
    handle_keyboard_selection(&mut empty, true, 0);
    assert_eq!(empty.selected_ast, None);
}

#[test]
fn leaves_below_the_header_or_gd3_show_their_detail() {
    let roots = vec![AstNode::new("Header", ""), AstNode::new("Commands", ""), AstNode::new("GD3", "")];
    let leaf = AstNode::new("Version\nmore", "  0x00000171  \nsecond");
    assert_eq!(leaf_label(&roots, &[0, 1], &leaf), "Version: 0x00000171");
    assert_eq!(leaf_label(&roots, &[2, 0], &leaf), "Version: 0x00000171");
    assert_eq!(leaf_label(&roots, &[1, 0], &leaf), "Version");
    assert_eq!(leaf_label(&roots, &[0], &leaf), "Version");
    let long = AstNode::new(&"x".repeat(130), "");
    assert_eq!(leaf_label(&roots, &[1, 0], &long), format!("{}...", "x".repeat(120)));
}
