use mmlx::mdx::{parse, Accidental, MmlCommand, MmlLength, ParseError};

#[test]
fn parses_metadata_and_track_commands() {
    let document =
        parse("#title \"Wapico\"\n#pcmfile \"wapico.pdx\"\nA t120 o4 l8 c+8 d r4\n").unwrap();

    assert_eq!(document.title.as_deref(), Some("Wapico"));
    assert_eq!(document.pcm_file.as_deref(), Some("wapico.pdx"));
    assert!(document.voices.is_empty());
    assert_eq!(document.tracks.len(), 1);
    assert_eq!(document.tracks[0].channel, 'A');
    assert_eq!(document.tracks[0].commands.len(), 6);
    assert_eq!(document.tracks[0].commands[1], MmlCommand::Octave(4));
    assert_eq!(
        document.tracks[0].commands[3],
        MmlCommand::Note {
            name: 'c',
            accidental: Some(Accidental::Sharp),
            length: Some(8),
        }
    );
}

#[test]
fn expands_multiple_standard_channels() {
    let document = parse("ABCDEFGH c\n").unwrap();

    assert_eq!(document.tracks.len(), 8);
    assert_eq!(
        document
            .tracks
            .iter()
            .map(|track| track.channel)
            .collect::<Vec<_>>(),
        vec!['A', 'B', 'C', 'D', 'E', 'F', 'G', 'H']
    );
    assert!(document
        .tracks
        .iter()
        .all(|track| track.commands.len() == 1));
}

#[test]
fn displays_the_parsed_document_tree() {
    let document = parse("A c4\n").unwrap();
    let tree = format!("{document:#?}");

    assert!(tree.contains("MmlDocument"), "{tree}");
    assert!(tree.contains("tracks"), "{tree}");
    assert!(tree.contains("Note"), "{tree}");
}

#[test]
fn parses_tick_lengths_as_default_and_explicit_lengths() {
    let document = parse("A l%192 c%36\n").unwrap();

    assert_eq!(
        document.tracks[0].commands,
        vec![
            MmlCommand::DefaultLength(MmlLength::Ticks(192)),
            MmlCommand::ExtendedNote {
                name: 'c',
                accidental: None,
                length: MmlLength::Ticks(36),
            },
        ]
    );
}

#[test]
fn accepts_documented_volume_and_noise_limits() {
    let document = parse("A v15 w31\n").unwrap();

    assert_eq!(document.tracks[0].commands[0], MmlCommand::Volume(15));
    assert_eq!(
        document.tracks[0].commands[1],
        MmlCommand::NoiseFrequency(31)
    );
}

#[test]
fn accepts_case_insensitive_pseudo_commands_but_uppercase_channels_only() {
    let document = parse("#TiTle \"Wapico\"\n#PCMFILE \"wapico.pdx\"\nA c4\n").unwrap();

    assert_eq!(document.title.as_deref(), Some("Wapico"));
    assert_eq!(document.pcm_file.as_deref(), Some("wapico.pdx"));
    assert!(parse("#title \"Wapico\"\na c4\n").is_err());
}

#[test]
fn accepts_mml2mdx_style_command_spacing() {
    let document = parse("  \tA t 120 o 4 l 8 c+ 8 y 1 , 2 ; trailing comment\n").unwrap();

    assert_eq!(document.tracks.len(), 1);
    assert_eq!(document.tracks[0].commands.len(), 5);
    assert!(matches!(
        document.tracks[0].commands.last(),
        Some(MmlCommand::RegisterWrite {
            register: 1,
            value: 2
        })
    ));
}

#[test]
fn parses_multidigit_sync_channel() {
    let document = parse("A S10\n").unwrap();

    assert_eq!(document.tracks[0].commands, vec![MmlCommand::SyncSend(10)]);
}

#[test]
fn parses_bare_default_length_reset() {
    let document = parse("A l8 l c\n").unwrap();

    assert!(matches!(
        document.tracks[0].commands.as_slice(),
        [
            MmlCommand::DefaultLength(MmlLength::Denominator(8)),
            MmlCommand::DefaultLengthReset,
            MmlCommand::Note { .. }
        ]
    ));
}

#[test]
fn enforces_reference_tempo_range() {
    assert!(matches!(
        parse("A t18\n"),
        Err(ParseError::InvalidValue {
            command: "tempo",
            value: 18,
            min: 19,
            max: 4882,
            ..
        })
    ));
    assert!(matches!(
        parse("A t4883\n"),
        Err(ParseError::InvalidValue {
            command: "tempo",
            value: 4883,
            min: 19,
            max: 4882,
            ..
        })
    ));
    assert!(parse("A t19 t4882\n").is_ok());
}

#[test]
fn rejects_unknown_command() {
    assert!(parse("A z\n").is_err());
}

#[test]
fn explains_numeric_syntax_errors() {
    let error = parse("A @t\n").unwrap_err().message();

    assert!(error.contains("line 1, column"));
    assert!(error.contains("A @t"));
    assert!(error.contains("expected: unsigned integer"));

    assert!(matches!(
        parse("A @t256\n"),
        Err(ParseError::InvalidValue {
            command: "@t",
            value: 256,
            min: 0,
            max: 255,
            ..
        })
    ));
    assert!(matches!(
        parse("A w32\n"),
        Err(ParseError::InvalidValue {
            command: "w",
            value: 32,
            min: 0,
            max: 31,
            ..
        })
    ));
}

#[test]
fn validates_numeric_ranges_after_parsing() {
    let cases = [
        ("A @256\n", "voice", 256, 0, 255),
        ("A n96\n", "note number", 96, 0, 95),
        ("A o9\n", "octave", 9, 0, 8),
        ("A q0\n", "q", 0, 1, 8),
        ("A v16\n", "v", 16, 0, 15),
        ("A @v128\n", "@v", 128, 0, 127),
        ("A p4\n", "p", 4, 0, 3),
        ("A y256,0\n", "register", 256, 0, 255),
        ("A F13\n", "PCM frequency", 13, 0, 12),
        ("A [c]256\n", "repeat", 256, 2, 255),
    ];

    for (source, command, value, min, max) in cases {
        assert!(
            matches!(
                parse(source),
                Err(ParseError::InvalidValue {
                    command: actual_command,
                    value: actual_value,
                    min: actual_min,
                    max: actual_max,
                    ..
                }) if actual_command == command
                    && actual_value == value
                    && actual_min == min
                    && actual_max == max
            ),
            "unexpected result for {source:?}"
        );
    }

    assert!(matches!(
        parse("A t999999999999999999999999999999999999999999999999999999999999\n"),
        Err(ParseError::Syntax(_))
    ));
    assert!(matches!(
        parse("A c%999999999999999999999999999999999999999999999999999999999999\n"),
        Err(ParseError::Syntax(_))
    ));
}

#[test]
fn parses_voice_definition_and_block_comments() {
    let document = parse(
        "@1 = {\n  /* OP1 */\n  28, 4, 0, 5, 1, 37, 2, 1, 7, 0, 0,\n  /* OP2 */\n  22, 9, 1, 2, 1, 47, 2, 12, 0, 0, 0,\n  /* OP3 */\n  29, 4, 3, 6, 1, 37, 1, 3, 3, 0, 0,\n  /* OP4 */\n  15, 7, 0, 5, 10, 0, 2, 1, 0, 0, 1,\n  /* CON FL OP */\n  2, 7, 15\n}\n/* ignored */\nA c4\n",
    )
    .unwrap();

    assert_eq!(document.voices.len(), 1);
    assert_eq!(document.voices[0].number, 1);
    assert_eq!(document.voices[0].values.len(), 47);
    assert_eq!(document.tracks.len(), 1);
}

#[test]
fn parses_all_documented_mxdrv_commands() {
    let document = parse(
        "A @t200 @1 o4 < > l4 n12,8 r%24 q4 @q12 _ & v8 @v100 ( ) p3 L D-12 [c4 / d4]2 y1,2 k3 w4 S0 W MP0,4,5 MPON MPOF MA0,4,5 MAON MAOF MD3 MH0,1,2,3,4,5,1 MHON MHOF ! F4\n",
    )
    .unwrap();

    assert_eq!(document.tracks.len(), 1);
    assert!(document.tracks[0].commands.len() >= 30);
    assert!(matches!(
        document.tracks[0]
            .commands
            .iter()
            .find(|command| matches!(command, MmlCommand::Repeat { .. })),
        Some(MmlCommand::Repeat { count: 2, .. })
    ));
}

#[test]
fn rejects_incomplete_voice_definition() {
    let source = "@1 = { 28, 4, 0, 5, 1, 37, 2, 1, 7, 0, 0 }\n";

    assert!(parse(source).is_err());
}
