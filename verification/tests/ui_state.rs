use mmlx::debugger::ast::{AstBuildMessage, AstNode};
use mmlx::debugger::state::{apply_message, show_more_label, UiState};

#[test]
fn applies_current_generation_messages_to_ui_state() {
    let mut state = UiState::new_empty();
    state.parse_generation = 7;
    state.ast_building = true;
    state
        .lazy
        .loaded_nodes
        .push((vec![0], vec![AstNode::new("old", "old")]));

    apply_message(
        &mut state,
        AstBuildMessage::Full {
            generation: 7,
            nodes: vec![AstNode::new("root", "current")],
        },
    );
    assert_eq!(state.ast_root[0].title, "root");
    assert!(state.lazy.loaded_nodes.is_empty());
    assert!(!state.ast_building);

    apply_message(
        &mut state,
        AstBuildMessage::Partial {
            generation: 7,
            path: vec![0],
            start: 0,
            nodes: vec![AstNode::new("child", "current")],
        },
    );
    assert_eq!(state.lazy.loaded(&[0])[0].title, "child");

    apply_message(
        &mut state,
        AstBuildMessage::Diff {
            generation: 7,
            diffs: vec![(2, 3)],
            rebuilt_bytes: vec![9, 8, 7],
        },
    );
    assert_eq!(state.rebuilt_bytes, Some(vec![9, 8, 7]));
    assert_eq!(state.hex_viewer.diff_ranges(), &[(2, 3)]);
}

#[test]
fn ignores_stale_generation_messages() {
    let mut state = UiState::new_empty();
    state.parse_generation = 2;
    state.ast_root = vec![AstNode::new("current", "current")];
    state.rebuilt_bytes = Some(vec![1]);

    apply_message(
        &mut state,
        AstBuildMessage::Full {
            generation: 1,
            nodes: vec![AstNode::new("stale", "stale")],
        },
    );
    apply_message(
        &mut state,
        AstBuildMessage::Diff {
            generation: 1,
            diffs: vec![(0, 0)],
            rebuilt_bytes: vec![2],
        },
    );

    assert_eq!(state.ast_root[0].title, "current");
    assert_eq!(state.rebuilt_bytes, Some(vec![1]));
    assert!(state.hex_viewer.diff_ranges().is_empty());
}

#[test]
fn applies_current_generation_error_and_clears_lazy_state() {
    let mut state = UiState::new_empty();
    state.parse_generation = 3;
    state
        .lazy
        .loaded_nodes
        .push((vec![0], vec![AstNode::new("loaded", "loaded")]));

    apply_message(
        &mut state,
        AstBuildMessage::Error {
            generation: 3,
            message: "parse failed".to_string(),
        },
    );

    assert_eq!(state.ast_root[0].title, "Parse Error");
    assert_eq!(state.ast_root[0].detail, "parse failed");
    assert!(state.lazy.loaded_nodes.is_empty());
    assert!(!state.ast_building);
}

#[test]
fn children_are_requested_once_until_they_arrive() {
    let mut state = UiState::new_empty();
    state.parse_generation = 4;
    assert!(state.request_children(vec![1], 0, 10).is_none());

    state.bytes = vec![0; 16];
    state.ast_root = vec![
        AstNode::new("Header", ""),
        AstNode::new("Commands", "").with_children(vec![AstNode::new("bucket", "")
            .with_lazy_range(400, 200)
            .with_lazy_track(2)]),
    ];
    let request = state.request_children(vec![1, 0], 5, 10).unwrap();
    assert_eq!(request.generation, 4);
    assert_eq!(request.path, vec![1, 0]);
    assert_eq!(request.relative_start, 5);
    assert_eq!(request.absolute_start, 405);
    assert_eq!(request.count, 10);
    assert_eq!(request.mdx_track, Some(2));
    assert!(state.lazy.is_pending(&[1, 0]));
    assert!(state.request_children(vec![1, 0], 15, 10).is_none());

    apply_message(
        &mut state,
        AstBuildMessage::Partial {
            generation: 4,
            path: vec![1, 0],
            start: 5,
            nodes: vec![AstNode::new("wait", "")],
        },
    );
    assert!(!state.lazy.is_pending(&[1, 0]));
    assert_eq!(state.lazy.loaded(&[1, 0]).len(), 6);
    assert_eq!(state.lazy.loaded(&[1, 0])[0].title, "<placeholder>");
    assert!(state.request_children(vec![1, 0], 15, 10).is_some());
}

#[test]
fn loads_wait_once_per_path_until_they_are_taken() {
    let mut state = UiState::new_empty();
    state.load_on_open(&[1], 300);
    state.load_on_open(&[1], 300);
    state.load_more(&[2], 1000);
    let loads = state.take_deferred_loads();
    assert_eq!(loads, vec![(vec![1], 0, 300), (vec![2], 0, 200)]);
    assert!(state.take_deferred_loads().is_empty());

    state.parse_generation = 1;
    state.lazy.loaded_nodes.push((vec![2], vec![AstNode::new("a", ""), AstNode::new("b", "")]));
    state.load_on_open(&[2], 300);
    assert!(state.take_deferred_loads().is_empty());
    state.load_more(&[2], 2);
    assert!(state.take_deferred_loads().is_empty());
    state.load_more(&[2], 1000);
    assert_eq!(state.take_deferred_loads(), vec![(vec![2], 2, 200)]);

    state.lazy.begin_request(&[3]);
    state.load_on_open(&[3], 10);
    state.load_more(&[3], 10);
    assert!(state.take_deferred_loads().is_empty());
}

#[test]
fn the_show_more_button_counts_what_arrived() {
    assert_eq!(show_more_label(200, 1234), "Show more (200/1234)");
}

#[test]
fn empty_state_starts_without_document_data() {
    let state = UiState::new_empty();

    assert!(state.ast_root.is_empty());
    assert!(state.bytes.is_empty());
    assert!(state.rebuilt_bytes.is_none());
    assert!(!state.ast_building);
}

#[test]
fn placeholder_state_shows_a_header_and_all_byte_values() {
    let state = UiState::new_with_placeholders();
    assert_eq!(state.ast_root.len(), 2);
    assert_eq!(state.ast_root[0].children[1].detail, "0x00000150");
    assert_eq!(state.ast_root[1].lazy_count, Some(0));
    assert_eq!(state.bytes.len(), 256);
    assert_eq!(state.bytes[255], 255);
    assert_eq!(state.lazy_chunk_size, 200);
}
