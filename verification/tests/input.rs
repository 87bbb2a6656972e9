use std::io::Write;

use mmlx::columns::{pad_to_columns, pad_to_width};
use mmlx::input::{decode_input, is_gzip};

fn gzipped(bytes: &[u8]) -> Vec<u8> {
    let mut encoder = flate2::write::GzEncoder::new(Vec::new(), flate2::Compression::default());
    encoder.write_all(bytes).unwrap();
    encoder.finish().unwrap()
}

#[test]
fn gzip_is_known_by_extension_in_any_case_or_by_magic() {
    assert!(is_gzip(Some("vgz"), b"Vgm "));
    assert!(is_gzip(Some("VGZ"), b"Vgm "));
    assert!(is_gzip(Some("Gz"), b""));
    assert!(!is_gzip(Some("vgm"), b"Vgm "));
    assert!(!is_gzip(Some("vgzz"), b"Vgm "));
    assert!(is_gzip(None, &[0x1f, 0x8b, 0x08]));
    assert!(!is_gzip(None, &[0x1f]));
}

#[test]
fn compressed_inputs_are_unpacked_and_others_kept() {
    let packed = gzipped(b"Vgm data");
    assert_eq!(decode_input(Some("vgz"), packed.clone()), Some(b"Vgm data".to_vec()));
    assert_eq!(decode_input(None, packed.clone()), Some(b"Vgm data".to_vec()));
    assert_eq!(decode_input(Some("vgm"), b"Vgm data".to_vec()), Some(b"Vgm data".to_vec()));
    assert_eq!(decode_input(Some("gz"), b"not gzip".to_vec()), None);
}

#[test]
fn padding_counts_wide_characters_as_two_columns() {
    assert_eq!(pad_to_width("ab", 5), "ab   ");
    assert_eq!(pad_to_width("日本", 6), "日本  ");
    assert_eq!(pad_to_width("toolong", 3), "toolong");
    assert_eq!(pad_to_columns("x", 1, 3), "x  ");
    assert_eq!(pad_to_columns("x", 4, 3), "x");
}
