//! MXDRV MML syntax tree types.
use vstd::prelude::*;

use super::parse::{adjustments_model, command_model, length_model, lengths_model};
use crate::text::{decimal, push_decimal, push_signed_decimal, push_str, signed_decimal};

verus! {

broadcast use vstd::std_specs::vec::group_vec_axioms;

/// A parsed MML source file.
#[derive(Debug, Clone, PartialEq, Eq)]
pub struct MmlDocument {
    pub title: Option<String>,
    pub pcm_file: Option<String>,
    pub voices: Vec<MmlVoice>,
    pub tracks: Vec<MmlTrack>,
}

/// The commands of one channel, in source order.
#[derive(Debug, Clone, PartialEq, Eq)]
pub struct MmlTrack {
    pub channel: char,
    pub commands: Vec<MmlCommand>,
}

/// A voice definition `@N = { ... }`.
#[derive(Debug, Clone, PartialEq, Eq)]
pub struct MmlVoice {
    pub number: u8,
    pub values: Vec<u8>,
}

/// A typed MXDRV MML command.
#[derive(Debug, PartialEq, Eq)]
pub enum MmlCommand {
    /// Set the OPM tempo using `@t`.
    OpmTempo(u8),
    /// Select a voice using `@N`.
    VoiceSelect(u8),
    /// A parser directive or preserved block comment.
    Directive(String),
    /// Repeat a sequence of commands.
    Repeat { body: Vec<MmlCommand>, count: u16 },
    /// Set tempo using `t` in quarter notes per minute.
    Tempo(u32),
    /// Play a named note with an optional denominator length.
    Note { name: char, accidental: Option<Accidental>, length: Option<u16> },
    /// Play a note with an extended length expression.
    ExtendedNote { name: char, accidental: Option<Accidental>, length: MmlLength },
    /// Play a note by numeric note number.
    NumericNote { note: u8, length: Option<MmlLength> },
    /// Rest for an optional denominator-based length.
    Rest { length: Option<u16> },
    /// Rest with an extended length expression.
    ExtendedRest(MmlLength),
    /// Set the octave.
    Octave(u8),
    /// Decrease the octave.
    OctaveDown,
    /// Increase the octave.
    OctaveUp,
    /// Set the default note length.
    DefaultLength(MmlLength),
    /// Re-apply the current default note length.
    DefaultLengthReset,
    /// Set the sounding part of each note, in eighths (`q`).
    Gate(u8),
    /// Set the sounding part of each note in ticks (`@q`).
    FineGate(u16),
    /// Enable portamento for the next note.
    Portamento,
    /// Enable legato for the next note.
    Legato,
    /// Set volume.
    Volume(u8),
    /// Set fine volume using `@v`.
    FineVolume(u8),
    /// Decrease volume.
    VolumeDown,
    /// Increase volume.
    VolumeUp,
    /// Set stereo pan.
    Pan(u8),
    /// Mark the beginning of a loop.
    LoopStart,
    /// Set detune.
    Detune(i16),
    /// Escape from the current repeat.
    LoopEscape,
    /// Write an OPM register.
    RegisterWrite { register: u8, value: u8 },
    /// Set key-on delay.
    KeyOnDelay(u8),
    /// Set noise frequency.
    NoiseFrequency(u8),
    /// Send a synchronization event to another channel.
    SyncSend(u8),
    /// Wait for a synchronization event.
    SyncWait,
    /// Configure pitch LFO.
    PitchLfo { waveform: u8, period: u16, amplitude: i16 },
    /// Enable pitch LFO.
    PitchLfoOn,
    /// Disable pitch LFO.
    PitchLfoOff,
    /// Configure volume LFO.
    VolumeLfo { waveform: u8, period: u16, amplitude: i16 },
    /// Enable volume LFO.
    VolumeLfoOn,
    /// Disable volume LFO.
    VolumeLfoOff,
    /// Set LFO delay.
    LfoDelay(u8),
    /// Configure OPM LFO.
    OpmLfo { waveform: u8, lfrq: u8, pmd: u8, amd: u8, pms: u8, ams: u8, key_sync: u8 },
    /// Enable OPM LFO.
    OpmLfoOn,
    /// Disable OPM LFO.
    OpmLfoOff,
    /// Ignore the remainder of the channel input.
    Ignore,
    /// Set PCM frequency.
    PcmFrequency(u8),
}

/// `copy` is the same command as `command`: the same variant and fields, lengths with the
/// same meaning, and repeat bodies of the same commands in order.
pub open spec fn same_command(copy: MmlCommand, command: MmlCommand) -> bool
    decreases command, 1int,
{
    match command {
        MmlCommand::Repeat { body, count } => match copy {
            MmlCommand::Repeat { body: copy_body, count: copy_count } => {
                &&& copy_count == count
                &&& {
                    proof {
                        assert(decreases_to!(command => command->body));
                        assert(decreases_to!(command->body => command->body@));
                    }
                    same_commands(copy_body@, body@)
                }
            },
            _ => false,
        },
        _ => command_model(copy) == command_model(command),
    }
}

/// Each of `copies` is the same command as the one at the same index of `commands`.
pub open spec fn same_commands(copies: Seq<MmlCommand>, commands: Seq<MmlCommand>) -> bool
    decreases commands, 0int,
{
    copies.len() == commands.len() && (commands.len() == 0 || (same_commands(
        copies.drop_last(),
        commands.drop_last(),
    ) && same_command(copies.last(), commands.last())))
}

impl Clone for MmlCommand {
    fn clone(&self) -> (copy: Self)
        ensures
            same_command(copy, *self),
        decreases self,
    {
        match self {
            MmlCommand::OpmTempo(value) => MmlCommand::OpmTempo(*value),
            MmlCommand::VoiceSelect(value) => MmlCommand::VoiceSelect(*value),
            MmlCommand::Tempo(value) => MmlCommand::Tempo(*value),
            MmlCommand::Octave(value) => MmlCommand::Octave(*value),
            MmlCommand::Gate(value) => MmlCommand::Gate(*value),
            MmlCommand::FineGate(value) => MmlCommand::FineGate(*value),
            MmlCommand::Volume(value) => MmlCommand::Volume(*value),
            MmlCommand::FineVolume(value) => MmlCommand::FineVolume(*value),
            MmlCommand::Pan(value) => MmlCommand::Pan(*value),
            MmlCommand::Detune(value) => MmlCommand::Detune(*value),
            MmlCommand::KeyOnDelay(value) => MmlCommand::KeyOnDelay(*value),
            MmlCommand::NoiseFrequency(value) => MmlCommand::NoiseFrequency(*value),
            MmlCommand::SyncSend(value) => MmlCommand::SyncSend(*value),
            MmlCommand::LfoDelay(value) => MmlCommand::LfoDelay(*value),
            MmlCommand::PcmFrequency(value) => MmlCommand::PcmFrequency(*value),
            MmlCommand::OctaveDown => MmlCommand::OctaveDown,
            MmlCommand::OctaveUp => MmlCommand::OctaveUp,
            MmlCommand::DefaultLengthReset => MmlCommand::DefaultLengthReset,
            MmlCommand::Portamento => MmlCommand::Portamento,
            MmlCommand::Legato => MmlCommand::Legato,
            MmlCommand::VolumeDown => MmlCommand::VolumeDown,
            MmlCommand::VolumeUp => MmlCommand::VolumeUp,
            MmlCommand::LoopStart => MmlCommand::LoopStart,
            MmlCommand::LoopEscape => MmlCommand::LoopEscape,
            MmlCommand::SyncWait => MmlCommand::SyncWait,
            MmlCommand::PitchLfoOn => MmlCommand::PitchLfoOn,
            MmlCommand::PitchLfoOff => MmlCommand::PitchLfoOff,
            MmlCommand::VolumeLfoOn => MmlCommand::VolumeLfoOn,
            MmlCommand::VolumeLfoOff => MmlCommand::VolumeLfoOff,
            MmlCommand::OpmLfoOn => MmlCommand::OpmLfoOn,
            MmlCommand::OpmLfoOff => MmlCommand::OpmLfoOff,
            MmlCommand::Ignore => MmlCommand::Ignore,
            MmlCommand::Directive(text) => MmlCommand::Directive(text.clone()),
            MmlCommand::Note { name, accidental, length } => MmlCommand::Note {
                name: *name,
                accidental: *accidental,
                length: *length,
            },
            MmlCommand::ExtendedNote { name, accidental, length } => MmlCommand::ExtendedNote {
                name: *name,
                accidental: *accidental,
                length: length.clone(),
            },
            MmlCommand::NumericNote { note, length } => {
                let copy = match length {
                    Some(length) => Some(length.clone()),
                    None => None,
                };
                MmlCommand::NumericNote { note: *note, length: copy }
            },
            MmlCommand::Rest { length } => MmlCommand::Rest { length: *length },
            MmlCommand::ExtendedRest(length) => MmlCommand::ExtendedRest(length.clone()),
            MmlCommand::DefaultLength(length) => MmlCommand::DefaultLength(length.clone()),
            MmlCommand::RegisterWrite { register, value } => MmlCommand::RegisterWrite {
                register: *register,
                value: *value,
            },
            MmlCommand::PitchLfo { waveform, period, amplitude } => MmlCommand::PitchLfo {
                waveform: *waveform,
                period: *period,
                amplitude: *amplitude,
            },
            MmlCommand::VolumeLfo { waveform, period, amplitude } => MmlCommand::VolumeLfo {
                waveform: *waveform,
                period: *period,
                amplitude: *amplitude,
            },
            MmlCommand::OpmLfo { waveform, lfrq, pmd, amd, pms, ams, key_sync } => MmlCommand::OpmLfo {
                waveform: *waveform,
                lfrq: *lfrq,
                pmd: *pmd,
                amd: *amd,
                pms: *pms,
                ams: *ams,
                key_sync: *key_sync,
            },
            MmlCommand::Repeat { body, count } => {
                let mut out: Vec<MmlCommand> = Vec::new();
                let mut index: usize = 0;
                proof {
                    assert(body@.take(0) =~= Seq::<MmlCommand>::empty());
                }
                while index < body.len()
                    invariant
                        index <= body@.len(),
                        *self is Repeat,
                        self->body == *body,
                        same_commands(out@, body@.take(index as int)),
                    decreases body@.len() - index,
                {
                    proof {
                        assert(decreases_to!(*self => self->body));
                        assert(decreases_to!(*body => body@));
                        assert(decreases_to!(body@ => body@[index as int]));
                    }
                    let copy = body[index].clone();
                    let ghost before = out@;
                    out.push(copy);
                    proof {
                        let taken = body@.take(index + 1);
                        assert(taken.drop_last() =~= body@.take(index as int));
                        assert(out@.drop_last() =~= before);
                        assert(taken.last() == body@[index as int]);
                    }
                    index += 1;
                }
                proof {
                    assert(body@.take(body@.len() as int) =~= body@);
                }
                MmlCommand::Repeat { body: out, count: *count }
            },
        }
    }
}

/// A note-length expression.
#[derive(Debug, PartialEq, Eq)]
pub enum MmlLength {
    /// A conventional denominator, such as `4` for a quarter note.
    Denominator(u16),
    /// A length expressed directly in ticks using `%N`.
    Ticks(u16),
    /// A sum of multiple length expressions joined by `^`.
    Sum(Vec<MmlLength>),
    /// A base length with additive (`true`) or subtractive (`false`) adjustments.
    Adjusted { base: Box<MmlLength>, adjustments: Vec<(bool, MmlLength)> },
}

impl Clone for MmlLength {
    fn clone(&self) -> (copy: Self)
        ensures
            length_model(copy) == length_model(*self),
        decreases self,
    {
        match self {
            MmlLength::Denominator(value) => MmlLength::Denominator(*value),
            MmlLength::Ticks(value) => MmlLength::Ticks(*value),
            MmlLength::Sum(values) => {
                let mut out: Vec<MmlLength> = Vec::new();
                let mut index: usize = 0;
                proof {
                    assert(values@.take(0) =~= Seq::<MmlLength>::empty());
                }
                while index < values.len()
                    invariant
                        index <= values@.len(),
                        *self is Sum,
                        self->Sum_0 == *values,
                        lengths_model(out@) == lengths_model(values@.take(index as int)),
                    decreases values@.len() - index,
                {
                    proof {
                        assert(decreases_to!(*self => self->Sum_0));
                        assert(decreases_to!(*values => values@));
                        assert(decreases_to!(values@ => values@[index as int]));
                    }
                    let copy = values[index].clone();
                    let ghost before = out@;
                    out.push(copy);
                    proof {
                        let taken = values@.take(index + 1);
                        assert(taken.drop_last() =~= values@.take(index as int));
                        assert(out@.drop_last() =~= before);
                        assert(taken.last() == values@[index as int]);
                    }
                    index += 1;
                }
                proof {
                    assert(values@.take(values@.len() as int) =~= values@);
                }
                MmlLength::Sum(out)
            },
            MmlLength::Adjusted { base, adjustments } => {
                let mut out: Vec<(bool, MmlLength)> = Vec::new();
                let mut index: usize = 0;
                proof {
                    assert(adjustments@.take(0) =~= Seq::<(bool, MmlLength)>::empty());
                }
                while index < adjustments.len()
                    invariant
                        index <= adjustments@.len(),
                        *self is Adjusted,
                        self->adjustments == *adjustments,
                        adjustments_model(out@) == adjustments_model(
                            adjustments@.take(index as int),
                        ),
                    decreases adjustments@.len() - index,
                {
                    proof {
                        assert(decreases_to!(*self => self->adjustments));
                        assert(decreases_to!(*adjustments => adjustments@));
                        assert(decreases_to!(adjustments@ => adjustments@[index as int]));
                        assert(decreases_to!(adjustments@[index as int] => adjustments@[index as int].1));
                    }
                    let copy = adjustments[index].1.clone();
                    let ghost before = out@;
                    out.push((adjustments[index].0, copy));
                    proof {
                        let taken = adjustments@.take(index + 1);
                        assert(taken.drop_last() =~= adjustments@.take(index as int));
                        assert(out@.drop_last() =~= before);
                        assert(taken.last() == adjustments@[index as int]);
                    }
                    index += 1;
                }
                proof {
                    assert(adjustments@.take(adjustments@.len() as int) =~= adjustments@);
                }
                assert(decreases_to!(self => **base));
                MmlLength::Adjusted { base: Box::new((**base).clone()), adjustments: out }
            },
        }
    }
}

/// A note accidental.
#[derive(Debug, Clone, Copy, PartialEq, Eq)]
pub enum Accidental {
    /// Raise the note by one semitone.
    Sharp,
    /// Lower the note by one semitone.
    Flat,
}

/// An error encountered while parsing or validating MML.
#[derive(Debug, Clone, PartialEq, Eq)]
pub enum ParseError {
    /// The input does not match the MML grammar.
    Syntax(String),
    /// A numeric argument is outside the command's supported range.
    InvalidValue {
        command: &'static str,
        value: i32,
        min: i32,
        max: i32,
        line_number: usize,
        column: usize,
        end_column: usize,
    },
}

/// The text of a parse error: the syntax diagnostic itself, or the value, its range and its
/// location.
pub open spec fn parse_error_text(error: ParseError) -> Seq<char> {
    match error {
        ParseError::Syntax(message) => message@,
        ParseError::InvalidValue { command, value, min, max, line_number, column, end_column } => {
            "MML value error at line "@ + decimal(line_number as nat) + ", columns "@ + decimal(
                column as nat,
            ) + "-"@ + decimal(end_column as nat) + ": "@ + command@ + " value "@ + signed_decimal(
                value as int,
            ) + " is outside the range "@ + signed_decimal(min as int) + "..="@ + signed_decimal(
                max as int,
            )
        },
    }
}

impl ParseError {
    /// The human-readable description of this error.
    pub fn message(&self) -> (text: String)
        ensures
            text@ == parse_error_text(*self),
    {
        match self {
            ParseError::Syntax(message) => message.clone(),
            ParseError::InvalidValue { command, value, min, max, line_number, column, end_column } => {
                let mut text = String::new();
                push_str(&mut text, "MML value error at line ");
                push_decimal(&mut text, *line_number as u64);
                push_str(&mut text, ", columns ");
                push_decimal(&mut text, *column as u64);
                push_str(&mut text, "-");
                push_decimal(&mut text, *end_column as u64);
                push_str(&mut text, ": ");
                push_str(&mut text, command);
                push_str(&mut text, " value ");
                push_signed_decimal(&mut text, *value as i64);
                push_str(&mut text, " is outside the range ");
                push_signed_decimal(&mut text, *min as i64);
                push_str(&mut text, "..=");
                push_signed_decimal(&mut text, *max as i64);
                text
            },
        }
    }
}

} // verus!
