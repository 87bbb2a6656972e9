use mmlx::mdx::compat::{normalize_mxdrv16y_tracks, NormalizedMdx};

#[test]
fn rejects_non_mdx_bytes() {
    let bytes = b"not an mdx";
    assert!(normalize_mxdrv16y_tracks(bytes).is_err());
}

#[test]
fn rewrites_positive_f1_track_stub_to_target() {
    let mut bytes = vec![0_u8; 286];
    bytes[0] = b'x';
    bytes[1..4].copy_from_slice(&[0x0d, 0x0a, 0x1a]);
    bytes[4] = 0;
    bytes[5..7].copy_from_slice(&0_u16.to_be_bytes());
    bytes[7..9].copy_from_slice(&20_u16.to_be_bytes());
    for track in 1..9 {
        let entry = 7 + track * 2;
        bytes[entry..entry + 2].copy_from_slice(&0xffff_u16.to_be_bytes());
    }
    bytes[25..28].copy_from_slice(&[0xf1, 0x01, 0x00]);
    bytes[284..286].copy_from_slice(&[0xf1, 0x00]);

    let normalized = normalize_mxdrv16y_tracks(&bytes).unwrap();

    assert!(matches!(normalized, NormalizedMdx::Owned(_)));
    assert_eq!(&normalized.as_slice()[7..9], &279_u16.to_be_bytes());
}

#[test]
fn borrows_standard_mdx_bytes_without_rebuilding() {
    let mut bytes = [0_u8; 27];
    bytes[0] = b'x';
    bytes[1..4].copy_from_slice(&[0x0d, 0x0a, 0x1a]);
    bytes[5..7].copy_from_slice(&0_u16.to_be_bytes());
    bytes[7..9].copy_from_slice(&20_u16.to_be_bytes());
    for track in 1..9 {
        let entry = 7 + track * 2;
        bytes[entry..entry + 2].copy_from_slice(&0xffff_u16.to_be_bytes());
    }
    bytes[25..27].copy_from_slice(&[0xf1, 0x00]);

    let normalized = normalize_mxdrv16y_tracks(&bytes).unwrap();

    assert!(matches!(normalized, NormalizedMdx::Borrowed(_)));
}

#[test]
fn normalization_leaves_command_data_and_other_entries_unchanged() {
    let mut bytes = vec![0_u8; 286];
    bytes[0] = b'x';
    bytes[1..4].copy_from_slice(&[0x0d, 0x0a, 0x1a]);
    bytes[7..9].copy_from_slice(&20_u16.to_be_bytes());
    for track in 1..9 {
        let entry = 7 + track * 2;
        bytes[entry..entry + 2].copy_from_slice(&0xffff_u16.to_be_bytes());
    }
    bytes[25..28].copy_from_slice(&[0xf1, 0x01, 0x00]);
    bytes[284..286].copy_from_slice(&[0xf1, 0x00]);

    let normalized = normalize_mxdrv16y_tracks(&bytes).unwrap();
    let out = normalized.as_slice();

    assert_eq!(out.len(), bytes.len());
    assert_eq!(&out[..7], &bytes[..7]);
    assert_eq!(&out[9..], &bytes[9..]);
}

#[test]
fn rejects_jump_target_outside_the_data() {
    let mut bytes = vec![0_u8; 30];
    bytes[0] = b'x';
    bytes[1..4].copy_from_slice(&[0x0d, 0x0a, 0x1a]);
    bytes[7..9].copy_from_slice(&20_u16.to_be_bytes());
    for track in 1..9 {
        let entry = 7 + track * 2;
        bytes[entry..entry + 2].copy_from_slice(&0xffff_u16.to_be_bytes());
    }
    bytes[25..28].copy_from_slice(&[0xf1, 0x01, 0x00]);

    let error = normalize_mxdrv16y_tracks(&bytes).unwrap_err();
    assert!(error.contains("outside the MDX"), "{error}");
}
