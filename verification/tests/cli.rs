use mmlx::cli::{parse_source, syntax_error_location};

#[test]
fn formats_parse_errors_as_editor_diagnostics() {
    let input = "songs/broken.mml";

    let syntax_error = parse_source(input, "A c4\nB ]").unwrap_err();
    assert!(
        syntax_error.starts_with(
            "songs/broken.mml:2:3: error: MML syntax error at line 2, columns 3-4"
        ),
        "{syntax_error}"
    );
    assert!(syntax_error.contains("  B ]\n    ^"), "{syntax_error}");

    let grammar_error = parse_source(input, "A z").unwrap_err();
    assert!(
        grammar_error.starts_with(
            "songs/broken.mml:1:3: error: MML syntax error at line 1, columns 3-4"
        ),
        "{grammar_error}"
    );

    let value_error = parse_source(input, "A c4\nB t5000").unwrap_err();
    assert!(
        value_error
            .starts_with("songs/broken.mml:2:4: error: MML value error at line 2, columns 4-8"),
        "{value_error}"
    );
}

#[test]
fn syntax_locations_come_from_the_first_line() {
    assert_eq!(
        syntax_error_location("MML syntax error at line 12, columns 7-8: unexpected 'z'\n  x"),
        Some((12, 7))
    );
    assert_eq!(syntax_error_location("note length integer is too large to represent"), None);
    assert_eq!(syntax_error_location(""), None);
}

#[test]
fn errors_without_a_location_name_only_the_file() {
    let error = parse_source("a.mml", "A c%99999999999999999999\n").unwrap_err();
    assert_eq!(error, "a.mml: error: note tick length integer is too large to represent");
}
