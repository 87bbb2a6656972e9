use mmlx::viewer::hex::{
    band_segments, excerpt, hex_row, line_count, marker_line, overlay_band, scroll_band,
    selection_band, HexViewer,
};

#[test]
fn a_new_view_shows_sixteen_bytes_per_line_and_nothing_selected() {
    let viewer = HexViewer::new();
    assert_eq!(viewer.bytes_per_line(), 16);
    assert_eq!(viewer.selected(), None);
    assert_eq!(viewer.selection_range(), None);
    assert!(!viewer.has_diffs());
    assert_eq!(viewer.current_diff_index(), None);
    assert_eq!(HexViewer::new().with_bytes_per_line(0).bytes_per_line(), 1);
}

#[test]
fn selection_and_scroll_ranges_are_kept_in_order() {
    let mut viewer = HexViewer::new();
    viewer.set_selection_range(9, 3);
    assert_eq!(viewer.selection_range(), Some((3, 9)));
    viewer.set_pending_scroll_to(7, 2);
    assert_eq!(viewer.take_pending_scroll(), Some(((2, 7), false)));
    assert_eq!(viewer.take_pending_scroll(), None);
}

#[test]
fn setting_differences_goes_to_the_first_and_steps_wrap_around() {
    let mut viewer = HexViewer::new();
    viewer.set_diff_ranges(vec![(4, 6), (10, 10), (20, 25)]);
    assert_eq!(viewer.current_diff_index(), Some(0));
    assert_eq!(viewer.selection_range(), Some((4, 6)));
    assert_eq!(viewer.take_pending_scroll(), Some(((0, 0), false)));
    viewer.prev_diff();
    assert_eq!(viewer.current_diff_index(), Some(2));
    assert_eq!(viewer.current_diff_range(), Some((20, 25)));
    viewer.next_diff();
    assert_eq!(viewer.current_diff_index(), Some(0));
    viewer.next_diff();
    assert_eq!(viewer.current_diff_range(), Some((10, 10)));
    assert_eq!(viewer.take_pending_scroll(), Some(((10, 10), false)));
    viewer.set_diff_ranges(Vec::new());
    assert_eq!(viewer.current_diff_index(), None);
    assert_eq!(viewer.selection_range(), None);
}

#[test]
fn clicking_a_byte_selects_and_remembers_it() {
    let mut viewer = HexViewer::new();
    viewer.click_byte(40, 32);
    assert_eq!(viewer.selected(), None);
    viewer.click_byte(5, 32);
    assert_eq!(viewer.selected(), Some(5));
    assert_eq!(viewer.selection_range(), Some((5, 5)));
    assert_eq!(viewer.take_last_clicked_byte(), Some(5));
    assert_eq!(viewer.take_last_clicked_byte(), None);
}

#[test]
fn fill_only_ranges_remove_the_selection_outline() {
    let mut viewer = HexViewer::new();
    assert!(viewer.selection_stroked(3, 5));
    viewer.set_fill_only_ranges(vec![(0, 8)]);
    assert!(!viewer.selection_stroked(3, 5));
    assert!(viewer.selection_stroked(3, 9));
    viewer.set_selection_outline_enabled(false);
    assert!(!viewer.selection_stroked(3, 9));
}

#[test]
fn rows_show_offsets_hex_digits_and_printable_characters() {
    assert_eq!(line_count(0, 16), 0);
    assert_eq!(line_count(16, 16), 1);
    assert_eq!(line_count(17, 16), 2);
    let bytes = [0x41, 0x0a, 0x20, 0xff, 0x7e];
    let (offset, cells, text) = hex_row(&bytes, 1, 4);
    assert_eq!(offset, "00000004:");
    assert_eq!(cells, vec!["7E".to_string()]);
    assert_eq!(text, "~");
    let (offset, cells, text) = hex_row(&bytes, 0, 4);
    assert_eq!(offset, "00000000:");
    assert_eq!(cells, vec!["41", "0A", "20", "FF"]);
    assert_eq!(text, "A. .");
}

#[test]
fn bands_are_held_to_the_bytes_and_split_by_line() {
    assert_eq!(selection_band((30, 2), 10), Some((2, 9)));
    assert_eq!(selection_band((30, 40), 10), None);
    assert_eq!(overlay_band((12, 3), 10), None);
    assert_eq!(overlay_band((3, 12), 10), Some((3, 9)));
    assert_eq!(scroll_band((3, 12), 10), Some((3, 9)));
    assert_eq!(scroll_band((3, 12), 0), None);
    assert_eq!(band_segments(5, 20, 8), vec![(0, 5, 7), (1, 0, 7), (2, 0, 4)]);
    assert_eq!(band_segments(9, 10, 8), vec![(1, 1, 2)]);
    assert_eq!(marker_line(17, 20, 8), Some(2));
    assert_eq!(marker_line(20, 20, 8), None);
}

#[test]
fn excerpts_pad_past_the_end_and_shorten_long_ranges() {
    let bytes = [0x41, 0x42];
    assert_eq!(excerpt(&bytes, 1, 3), ("42 -- --".to_string(), "B..".to_string()));
    let long: Vec<u8> = (0..70).map(|i| i as u8 + 0x30).collect();
    let (hex, text) = excerpt(&long, 0, 70);
    assert!(hex.starts_with("30 31 32"));
    assert!(hex.contains("4F ... 56"));
    assert!(hex.ends_with("75"));
    assert_eq!(text.len(), 32 + 5 + 32);
    assert!(text.starts_with("0123"));
    let mut viewer = HexViewer::new();
    viewer.set_rebuilt_bytes(Some(vec![0x41]));
    let (shown, rebuilt) = viewer.diff_excerpts(&bytes, 0, 1).unwrap();
    assert_eq!(shown, ("41 42".to_string(), "AB".to_string()));
    assert_eq!(rebuilt, Some(("41 --".to_string(), "A.".to_string())));
    assert!(viewer.diff_excerpts(&bytes, 1, 2).is_none());
}

use mmlx::viewer::state::AstNode;
use mmlx::viewer::tree::{leaf_label, section_range};

#[test]
fn leaf_labels_take_first_lines_and_clip_long_text() {
    let roots = vec![
        AstNode::new("Header", "VGM header").with_byte_range(0, 0x40),
        AstNode::new("Commands", ""),
        AstNode::new("GD3", "tags"),
    ];
    let node = AstNode::new("Version\r\nmore", "  0x151 \t\nsecond");
    assert_eq!(leaf_label(&roots, &[0, 1], &node), "Version: 0x151");
    assert_eq!(leaf_label(&roots, &[2, 0], &node), "Version: 0x151");
    assert_eq!(leaf_label(&roots, &[1, 0], &node), "Version");
    assert_eq!(leaf_label(&roots, &[0], &node), "Version");
    let long = "x".repeat(130);
    let label = leaf_label(&roots, &[1, 0], &AstNode::new(&long, ""));
    assert_eq!(label.chars().count(), 123);
    assert!(label.ends_with("xxx..."));
    assert_eq!(section_range(&roots, &[0, 3]), Some((0, 0x40)));
    assert_eq!(section_range(&roots, &[1, 3]), None);
    assert_eq!(section_range(&roots, &[0]), None);
}

#[test]
fn picking_a_leaf_points_the_view_at_its_bytes() {
    let mut viewer = HexViewer::new();
    viewer.pick_leaf(Some((0, 0x40)), Some((8, 4)), "", 0x100, true);
    assert_eq!(viewer.selection_range(), Some((0, 0x3f)));
    assert!(!viewer.selection_stroked(0, 0x3f));
    assert_eq!(viewer.take_pending_scroll(), Some(((0, 0x3f), false)));

    let mut viewer = HexViewer::new();
    viewer.pick_leaf(None, Some((0xf0, 0x40)), "", 0x100, false);
    assert_eq!(viewer.selection_range(), Some((0xf0, 0xff)));

    let mut viewer = HexViewer::new();
    viewer.pick_leaf(None, None, "offset 0x20", 0x100, false);
    assert_eq!(viewer.selection_range(), Some((0x20, 0x20)));

    let mut viewer = HexViewer::new();
    viewer.set_selection_range(1, 2);
    viewer.pick_leaf(None, None, "at 0x200", 0x100, false);
    assert_eq!(viewer.selection_range(), None);
}

#[test]
fn commands_are_grouped_by_the_thousand() {
    let node = mmlx::viewer::state::commands_node(2500);
    assert_eq!(node.title, "Commands");
    assert_eq!(node.detail, "2500 commands");
    assert_eq!(node.children.len(), 3);
    assert_eq!(node.children[0].title, "[0..1000]");
    assert_eq!(node.children[1].title, "[1000..2000]");
    assert_eq!(node.children[2].title, "[2000..2500]");
    assert_eq!(node.children[2].detail, "500 commands");
    assert_eq!(node.children[2].lazy_start, Some(2000));
    assert_eq!(node.children[2].lazy_count, Some(500));
    assert!(mmlx::viewer::state::commands_node(0).children.is_empty());
    assert_eq!(mmlx::viewer::state::commands_node(1000).children.len(), 1);
}
