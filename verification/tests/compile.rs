use mmlx::mdx::{compile, parse};
use mmlx::mdx_model::command::{MdxCommand, MdxEndOfTrack, MdxTempo};

#[test]
fn compiles_metadata_voice_and_basic_track() {
    let source = "#title \"Test\"\n#pcmfile \"test.pdx\"\nA o4 l4 c4\n";
    let document = parse(source).unwrap();
    let compiled = compile(&document).unwrap();

    assert_eq!(compiled.header.title, "Test");
    assert_eq!(compiled.header.pdx_name.as_deref(), Some("test.pdx"));
    assert_eq!(compiled.tracks[0].len(), 2);
    assert!(matches!(compiled.tracks[0][0], MdxCommand::Note(_)));
    assert!(matches!(
        compiled.tracks[0][1],
        MdxCommand::EndOfTrack(MdxEndOfTrack)
    ));
}

#[test]
fn includes_end_of_track_for_empty_standard_tracks() {
    let compiled = compile(&parse("").unwrap()).unwrap();

    assert_eq!(compiled.tracks.len(), 9);
    assert!(
        compiled
            .tracks
            .iter()
            .all(|track| matches!(track.as_slice(), [MdxCommand::EndOfTrack(_)]))
    );
}

#[test]
fn compiles_voice_parameters_into_soundlog_tone() {
    let source = "@1={1,2,3,4,5,6,7,8,9,10,11,12,13,14,15,16,17,18,19,20,21,22,23,24,25,26,27,28,29,30,31,32,33,34,35,36,37,38,39,40,41,42,43,44,45,46,47}\n";
    let compiled = compile(&parse(source).unwrap()).unwrap();
    let tone = &compiled.tone_bank.tones[0];

    assert_eq!(tone.voice_number, 1);
    assert_eq!(tone.operators[0].ar, 1);
    assert_eq!(tone.operators[3].ame, 44);
    assert_eq!((tone.con, tone.fl, tone.op), (45, 46, 47));
}

#[test]
fn converts_bpm_tempo_to_mdx_tempo() {
    let compiled = compile(&parse("A t30 t4882\n").unwrap()).unwrap();

    assert!(matches!(
        compiled.tracks[0][0],
        MdxCommand::Tempo(MdxTempo { value: 94 })
    ));
    assert!(matches!(
        compiled.tracks[0][1],
        MdxCommand::Tempo(MdxTempo { value: 255 })
    ));
}

#[test]
fn places_key_off_disable_before_legato_notes() {
    let compiled = compile(&parse("A c&d e\n").unwrap()).unwrap();
    let commands = &compiled.tracks[0];

    assert!(matches!(commands[0], MdxCommand::KeyOffDisable(_)));
    assert!(matches!(commands[1], MdxCommand::Note(_)));
    assert!(matches!(commands[2], MdxCommand::Note(_)));
    assert!(matches!(commands[3], MdxCommand::Note(_)));
    assert!(matches!(commands[4], MdxCommand::EndOfTrack(_)));
}
