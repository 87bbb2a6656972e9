use mmlx::cli::compile;
use mmlx::mdx::{compile as compile_document, parse, CompileError, MmlCommand, ParseError};
use mmlx::mdx_model::command::{parse_mdx_command, MdxCommand, MdxRest};
use mmlx::mdx_model::layout::{parse_layout, MdxLayoutError};
use mmlx::stream::{PushError, PushStatus};
use mmlx::viewer::logger::{LogLevel, Logger, WriteErrorAction};
use mmlx::viewer::state::AstNode;

#[test]
fn compiled_bytes_read_back_through_the_layout() {
    let bytes = compile("#title \"T\"\n#pcmfile \"p.pdx\"\nA c\n").unwrap();
    assert_eq!(&bytes[..4], b"T\r\n\x1a");
    assert_eq!(&bytes[4..10], b"p.pdx\0");
    let layout = parse_layout(&bytes).unwrap();
    assert_eq!(layout.base_offset, 10);
    assert_eq!(layout.track_count(), 9);
    // Nine entries after the tone offset; track 0 starts right after the table.
    assert_eq!(layout.track_offsets[0], 20);
    let position = layout.track_position(0, bytes.len()).unwrap();
    let (first, length) = parse_mdx_command(&bytes, position).unwrap();
    assert!(matches!(first, MdxCommand::Note(note) if note.note == 173 && note.length == 48));
    let (end, _) = parse_mdx_command(&bytes, position + length).unwrap();
    assert!(matches!(end, MdxCommand::EndOfTrack(_)));
    // The tone data is empty and starts at the end of the file.
    assert_eq!(layout.base_offset + layout.tone_offset as usize, bytes.len());
}

#[test]
fn compiled_tones_take_twenty_seven_bytes() {
    let bytes = compile("@1={1,2,3,4,5,6,7,8,9,10,11,12,13,14,15,16,17,18,19,20,21,22,23,24,25,26,27,28,29,30,31,32,33,34,35,36,37,38,39,40,41,42,43,44,45,46,47}\n").unwrap();
    let layout = parse_layout(&bytes).unwrap();
    let tone = layout.base_offset + layout.tone_offset as usize;
    assert_eq!(bytes.len() - tone, 27);
    assert_eq!(bytes[tone], 1);
    // FL (46) and CON (45) share one byte.
    assert_eq!(bytes[tone + 1], ((46 & 7) << 3) | (45 & 7));
    assert_eq!(bytes[tone + 2], 47);
}

#[test]
fn compile_reports_parse_and_compile_errors() {
    assert!(compile("A t5000\n").unwrap_err().starts_with("parse error: MML value error"));
    assert_eq!(
        compile("A o0 c\n").unwrap_err(),
        "compile error: note value -3 cannot be represented in MDX"
    );
}

#[test]
fn layout_errors_name_the_missing_terminator() {
    assert!(matches!(parse_layout(b"abc"), Err(MdxLayoutError::MissingTitleEnd)));
    assert!(matches!(parse_layout(b"a\r\n\x1apdx"), Err(MdxLayoutError::MissingPdxNameEnd)));
    assert!(matches!(
        parse_layout(b"a\r\n\x1a\0\0\x14"),
        Err(MdxLayoutError::TruncatedTable { base_offset: 5, length: 7 })
    ));
}

#[test]
fn commands_round_trip_through_their_bytes() {
    let rest = MdxCommand::Rest(MdxRest::new(12).unwrap());
    let bytes = rest.to_mdx_bytes();
    assert_eq!(bytes, vec![11]);
    let (decoded, length) = parse_mdx_command(&bytes, 0).unwrap();
    assert_eq!(length, 1);
    assert!(matches!(decoded, MdxCommand::Rest(r) if r.ticks == 12));
}

#[test]
fn compile_error_messages_follow_the_reference_wording() {
    assert_eq!(CompileError::InvalidChannel('Z').message(), "invalid MDX channel 'Z'");
    assert_eq!(
        CompileError::InvalidVoice { number: 3, parameter_count: 11 }.message(),
        "voice @3 has 11 parameters; expected 47"
    );
    assert_eq!(
        CompileError::InvalidValue { command: "tempo", value: -5 }.message(),
        "tempo value -5 cannot be represented in MDX"
    );
}

#[test]
fn value_errors_name_the_value_range_and_columns() {
    let error = parse("A c4\nB t5000").unwrap_err();
    assert!(matches!(
        error,
        ParseError::InvalidValue { command: "tempo", value: 5000, min: 19, max: 4882, line_number: 2, column: 4, end_column: 8 }
    ));
    assert_eq!(
        error.message(),
        "MML value error at line 2, columns 4-8: tempo value 5000 is outside the range 19..=4882"
    );
}

#[test]
fn nested_repeats_keep_their_bodies_in_order() {
    let document = parse("A [c [d]3 e]2 f\n").unwrap();
    let commands = &document.tracks[0].commands;
    assert_eq!(commands.len(), 2);
    match &commands[0] {
        MmlCommand::Repeat { body, count } => {
            assert_eq!(*count, 2);
            assert_eq!(body.len(), 3);
            assert!(matches!(&body[1], MmlCommand::Repeat { body, count: 3 } if body.len() == 1));
        }
        other => panic!("unexpected {other:?}"),
    }
    assert!(parse("A [c\n").is_err());
    assert!(parse("A c]\n").is_err());
    // A repeat may open on one line and close on a later line of the same channel.
    let across = parse("A [c\nA d]4\n").unwrap();
    assert!(matches!(&across.tracks[0].commands[0], MmlCommand::Repeat { count: 4, body } if body.len() == 2));
}

#[test]
fn unterminated_repeats_are_reported_at_the_bracket() {
    let error = parse("A c [d\n").unwrap_err().message();
    assert!(error.starts_with("MML syntax error at line 1, columns 5-6: unexpected '['"), "{error}");
}

#[test]
fn lines_of_one_channel_are_joined_in_order() {
    let document = parse("A c\nB d\nA e\n").unwrap();
    assert_eq!(document.tracks.len(), 2);
    assert_eq!(document.tracks[0].channel, 'A');
    assert_eq!(document.tracks[0].commands.len(), 2);
    assert_eq!(document.tracks[1].channel, 'B');
}

#[test]
fn lengths_follow_dots_ties_and_adjustments() {
    let document = parse("A c4. d4^8 e4~16 r%10.\n").unwrap();
    let commands = &document.tracks[0].commands;
    assert_eq!(format!("{:?}", commands[0]), "ExtendedNote { name: 'c', accidental: None, length: Sum([Denominator(4), Denominator(8)]) }");
    assert_eq!(format!("{:?}", commands[1]), "ExtendedNote { name: 'd', accidental: None, length: Sum([Denominator(4), Denominator(8)]) }");
    assert_eq!(format!("{:?}", commands[2]), "ExtendedNote { name: 'e', accidental: None, length: Adjusted { base: Denominator(4), adjustments: [(false, Denominator(16))] } }");
    assert_eq!(format!("{:?}", commands[3]), "ExtendedRest(Sum([Ticks(10), Ticks(5)]))");
    assert!(parse("A c512\n").is_ok());
    assert!(matches!(parse("A c4.......\n"), Err(ParseError::InvalidValue { command: "note length", value: 512, .. })));
}

#[test]
fn stream_codes_map_both_ways() {
    assert_eq!(PushError::HeaderParse.code(), 1);
    assert_eq!(PushError::FinalParse.code(), 4);
    assert_eq!(PushError::from_code(3), Some(PushError::IterParse));
    assert_eq!(PushError::from_code(0), None);
    assert_eq!(PushStatus::LoopRewind.code(), 2);
    assert_eq!(PushStatus::IterParse.code(), -3);
    assert_eq!(PushStatus::from_code(-2), Some(PushStatus::PushInvalid));
    assert_eq!(PushStatus::from_code(3), None);
}

#[test]
fn logger_policy_follows_output_and_pipe_settings() {
    let noop: Logger<()> = Logger::new_stdout(true);
    assert_eq!(noop.info(), None);
    let stdout: Logger<()> = Logger::new_stdout(false);
    assert_eq!(stdout.warn(), Some(LogLevel::Warn));
    assert_eq!(stdout.on_write_error(true), WriteErrorAction::ExitQuietly);
    let mut writer = Logger::with_writer_and_exit_on_broken_pipe(7u8, false);
    assert_eq!(writer.on_write_error(true), WriteErrorAction::Ignore);
    assert_eq!(writer.on_write_error(false), WriteErrorAction::Propagate);
    writer.set_exit_on_broken_pipe(true);
    assert!(writer.exit_on_broken_pipe());
    assert_eq!(writer.debug(), Some(LogLevel::Debug));
}

#[test]
fn viewer_nodes_keep_their_ranges() {
    let node = AstNode::new("Commands", "3 commands")
        .with_lazy_range(5, 3)
        .with_byte_range(64, 12)
        .with_children(vec![AstNode::new("a", "")]);
    assert_eq!(node.lazy_count, Some(3));
    assert_eq!(node.lazy_start, Some(5));
    assert_eq!(node.byte_range, Some((64, 12)));
    assert_eq!(node.children.len(), 1);
    assert_eq!(AstNode::new("x", "").with_lazy(9).lazy_count, Some(9));
}

#[test]
fn compiled_documents_have_one_track_per_channel_slot() {
    let document = compile_document(&parse("P c\n").unwrap()).unwrap();
    assert_eq!(document.tracks.len(), 16);
    assert!(document.tracks.iter().all(|track| matches!(track.last(), Some(MdxCommand::EndOfTrack(_)))));
}
