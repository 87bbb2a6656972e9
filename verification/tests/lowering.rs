use mmlx::mdx::{self, ParseError};
use mmlx::mdx_model::command::MdxCommand;
use mmlx::mdx_model::document::MdxDocument;

fn compile_source(source: &str) -> MdxDocument {
    mdx::compile(&mdx::parse(source).unwrap()).unwrap()
}

#[test]
fn portamento_between_two_notes_leads_the_first_and_takes_the_second() {
    let document = compile_source("A c4_d4\n");
    let track = &document.tracks[0];
    assert_eq!(track.len(), 3);
    // Two semitones over a quarter note (48 ticks): 16384 * 2 / 48, toward zero.
    assert!(matches!(track[0], MdxCommand::Portamento(bend) if bend.opcode == 0xf2 && bend.offset == 682));
    assert!(matches!(track[1], MdxCommand::Note(note) if note.length == 48));
    assert!(matches!(track[2], MdxCommand::EndOfTrack(_)));
}

#[test]
fn portamento_after_an_octave_change_reaches_back_to_the_last_note() {
    let document = compile_source("A c4 _ > c4\n");
    let track = &document.tracks[0];
    assert_eq!(track.len(), 3);
    // One octave up: 16384 * 12 / 48.
    assert!(matches!(track[0], MdxCommand::Portamento(bend) if bend.offset == 4096));
    assert!(matches!(track[1], MdxCommand::Note(note) if note.length == 48));
    assert!(matches!(track[2], MdxCommand::EndOfTrack(_)));
}

#[test]
fn portamento_without_a_note_before_it_stands_as_zero() {
    let document = compile_source("A _ r\n");
    let track = &document.tracks[0];
    assert!(matches!(track[0], MdxCommand::Portamento(bend) if bend.offset == 0));
    assert!(matches!(track[1], MdxCommand::Rest(rest) if rest.ticks == 48));
}

#[test]
fn loop_point_makes_the_track_end_jump_back() {
    let document = compile_source("A c L d\n");
    let track = &document.tracks[0];
    assert_eq!(track.len(), 3);
    // The loop point is 2 bytes in, the commands take 4: 2 - 4 - 3.
    assert!(matches!(track[2], MdxCommand::EndOfTrackLoop(jump) if jump.opcode == 0xf1 && jump.offset == -5));
}

#[test]
fn repeat_bodies_are_wrapped_in_loop_start_and_end() {
    let document = compile_source("A [c]3\n");
    let track = &document.tracks[0];
    assert!(matches!(track[0], MdxCommand::LoopStart(start) if start.count == 3));
    assert!(matches!(track[1], MdxCommand::Note(_)));
    // The body takes 2 bytes: the jump goes back over it and the end itself.
    assert!(matches!(track[2], MdxCommand::LoopEnd(end) if end.opcode == 0xf5 && end.offset == -5));
}

#[test]
fn syntax_errors_win_over_earlier_value_errors() {
    let error = mdx::parse("A t9999 $\n").unwrap_err();
    assert!(matches!(error, ParseError::Syntax(_)));
    assert!(error.message().contains("unexpected '$'"));
}

#[test]
fn the_first_value_error_is_reported() {
    let error = mdx::parse("A t9999 o9\n").unwrap_err();
    assert!(matches!(
        error,
        ParseError::InvalidValue { command: "tempo", value: 9999, min: 19, max: 4882, line_number: 1, column: 4, end_column: 8 }
    ));
}

#[test]
fn metadata_words_ignore_case_and_the_last_title_wins() {
    let document = mdx::parse("#TITLE \"a\"\n#Title \"b\"\n#PcmFile \"x.pdx\"\n").unwrap();
    assert_eq!(document.title.as_deref(), Some("b"));
    assert_eq!(document.pcm_file.as_deref(), Some("x.pdx"));
}

#[test]
fn a_closing_bracket_without_an_opening_one_is_a_syntax_error() {
    let error = mdx::parse("A c]\n").unwrap_err();
    assert!(matches!(error, ParseError::Syntax(_)));
    let text = error.message();
    assert!(text.starts_with("MML syntax error at line 1, columns 4-5"));
    assert!(text.ends_with("expected: a repeat start '[' earlier in the channel"));
}

#[test]
fn channel_letters_share_the_line_and_keep_their_first_order() {
    let document = mdx::parse("BA c\nA d\n").unwrap();
    assert_eq!(document.tracks.len(), 2);
    assert_eq!(document.tracks[0].channel, 'B');
    assert_eq!(document.tracks[1].channel, 'A');
    assert_eq!(document.tracks[0].commands.len(), 1);
    assert_eq!(document.tracks[1].commands.len(), 2);
}

#[test]
fn lines_of_a_channel_are_gathered_in_first_use_order() {
    let document = mdx::parse("A c\nB d\nA e\n").unwrap();
    assert_eq!(document.tracks.len(), 2);
    assert_eq!(document.tracks[0].channel, 'A');
    assert_eq!(document.tracks[0].commands.len(), 2);
    assert_eq!(document.tracks[1].channel, 'B');
    assert_eq!(document.tracks[1].commands.len(), 1);
}

#[test]
fn each_channel_goes_to_its_own_track() {
    let document = compile_source("C c4\nP c4\nA r4 r4\nC c4\n");
    assert_eq!(document.tracks.len(), 16);
    assert_eq!(document.tracks[0].len(), 3);
    assert!(matches!(document.tracks[0][0], MdxCommand::Rest(_)));
    assert_eq!(document.tracks[1].len(), 1);
    assert_eq!(document.tracks[2].len(), 3);
    assert!(matches!(document.tracks[2][0], MdxCommand::Note(_)));
    assert_eq!(document.tracks[8].len(), 2);
    assert!(matches!(document.tracks[15][0], MdxCommand::EndOfTrack(_)));
}

#[test]
fn values_outside_their_command_range_are_rejected_with_it() {
    for (source, command, value, min, max) in [
        ("A t18\n", "tempo", 18, 19, 4882),
        ("A @256\n", "voice", 256, 0, 255),
        ("A [c]256\n", "repeat", 256, 2, 255),
        ("A n96\n", "note number", 96, 0, 95),
        ("A y256,0\n", "register", 256, 0, 255),
    ] {
        match mdx::parse(source) {
            Err(ParseError::InvalidValue { command: c, value: v, min: lo, max: hi, .. }) => {
                assert_eq!((c, v, lo, hi), (command, value, min, max));
            }
            other => panic!("unexpected result for {source:?}: {other:?}"),
        }
    }
    assert!(mdx::parse("A t19 t4882 @255 [c]255 n95 y255,0\n").is_ok());
}
