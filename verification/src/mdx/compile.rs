//! Lowering of the MML syntax tree into MDX commands.
use vstd::prelude::*;

use super::mml::{Accidental, MmlCommand, MmlDocument, MmlLength, MmlVoice};
use crate::mdx_model::command::{
    command_bytes, command_len, commands_len, lemma_commands_len_concat, lemma_commands_len_push,
    wf_command, FIRST_NOTE_OPCODE, LAST_NOTE_OPCODE, MdxAdpcmOrNoiseFrequency, MdxCommand,
    MdxEndOfTrack, MdxGate, MdxKeyOffDisable, MdxKeyOnDelay, MdxLfoDelay, MdxLfoWaveform,
    MdxLoopStart, MdxNote, MdxOpmLfo, MdxOpmRegisterWrite, MdxPan, MdxPitchLfo, MdxRelativeOffset,
    MdxRest, MdxSignedWord, MdxSyncSend, MdxSyncWait, MdxTempo, MdxVoiceOrPcmBank, MdxVolume,
    MdxVolumeDown, MdxVolumeLfo, MdxVolumeUp,
};
use super::lowering::{
    compiled_tracks, finish_tracks, initial_context, lemma_finish_error, lower_tracks, followed_by_legato, is_simple, lower_channel, lower_note, lower_repeat, lower_command, lower_portamento, lower_simple, octave_scan, portamento_prefix, run, LastNote, Progress, TrackContext,
};
use crate::mdx_model::document::{MdxDocument, MdxHeader, MdxOperator, MdxTone, MdxToneBank};
use crate::text::{decimal, push_chars, push_decimal, push_signed_decimal, push_str, signed_decimal};

verus! {

broadcast use vstd::std_specs::vec::group_vec_axioms;

/// Ticks in a whole note.
pub const TICKS_PER_WHOLE: u16 = 192;

/// An error raised while lowering MML syntax into MDX commands.
#[derive(Debug, Clone, PartialEq, Eq)]
pub enum CompileError {
    /// A track uses a channel that cannot be represented in MDX.
    InvalidChannel(char),
    /// A voice does not contain the required 47 parameters.
    InvalidVoice { number: u8, parameter_count: usize },
    /// A parsed value cannot be represented by the target MDX type.
    InvalidValue { command: &'static str, value: i64 },
    /// The source command has no MDX equivalent.
    UnsupportedCommand(&'static str),
    /// The assembled document cannot be represented.
    Builder(String),
}

/// The text of a character in a message: the character in single quotes.
pub open spec fn quoted_char(c: char) -> Seq<char> {
    seq!['\'', c, '\'']
}

/// The human-readable description of a compile error.
pub open spec fn compile_error_text(error: CompileError) -> Seq<char> {
    match error {
        CompileError::InvalidChannel(channel) => "invalid MDX channel "@ + quoted_char(channel),
        CompileError::InvalidVoice { number, parameter_count } => "voice @"@ + decimal(
            number as nat,
        ) + " has "@ + decimal(parameter_count as nat) + " parameters; expected 47"@,
        CompileError::InvalidValue { command, value } => command@ + " value "@ + signed_decimal(
            value as int,
        ) + " cannot be represented in MDX"@,
        CompileError::UnsupportedCommand(command) => "MML command "@ + command@
            + " has no MDX mapping"@,
        CompileError::Builder(message) => message@,
    }
}

impl CompileError {
    /// The human-readable description of this error.
    pub fn message(&self) -> (text: String)
        ensures
            text@ == compile_error_text(*self),
    {
        let mut text = String::new();
        match self {
            CompileError::InvalidChannel(channel) => {
                push_str(&mut text, "invalid MDX channel ");
                push_chars(&mut text, &['\'', *channel, '\'']);
            },
            CompileError::InvalidVoice { number, parameter_count } => {
                push_str(&mut text, "voice @");
                push_decimal(&mut text, *number as u64);
                push_str(&mut text, " has ");
                push_decimal(&mut text, *parameter_count as u64);
                push_str(&mut text, " parameters; expected 47");
            },
            CompileError::InvalidValue { command, value } => {
                push_str(&mut text, command);
                push_str(&mut text, " value ");
                push_signed_decimal(&mut text, *value);
                push_str(&mut text, " cannot be represented in MDX");
            },
            CompileError::UnsupportedCommand(command) => {
                push_str(&mut text, "MML command ");
                push_str(&mut text, command);
                push_str(&mut text, " has no MDX mapping");
            },
            CompileError::Builder(message) => {
                push_str(&mut text, message.as_str());
            },
        }
        text
    }
}

/// The error for a value that the MDX command cannot hold.
pub open spec fn invalid(command: &'static str, value: int) -> CompileError {
    CompileError::InvalidValue { command, value: value as i64 }
}

/// `checked_u8`: a value that fits a byte, or the error naming the command.
pub open spec fn checked_u8_spec(command: &'static str, value: int) -> Result<u8, CompileError> {
    if 0 <= value <= 255 {
        Ok(value as u8)
    } else {
        Err(invalid(command, value))
    }
}

pub open spec fn checked_u16_spec(command: &'static str, value: int) -> Result<
    u16,
    CompileError,
> {
    if 0 <= value <= 65535 {
        Ok(value as u16)
    } else {
        Err(invalid(command, value))
    }
}

pub open spec fn checked_i16_spec(command: &'static str, value: int) -> Result<
    i16,
    CompileError,
> {
    if -32768 <= value <= 32767 {
        Ok(value as i16)
    } else {
        Err(invalid(command, value))
    }
}

fn checked_u8(command: &'static str, value: i64) -> (r: Result<u8, CompileError>)
    ensures
        r == checked_u8_spec(command, value as int),
{
    if 0 <= value && value <= 255 {
        Ok(value as u8)
    } else {
        Err(CompileError::InvalidValue { command, value })
    }
}

fn checked_u16(command: &'static str, value: i64) -> (r: Result<u16, CompileError>)
    ensures
        r == checked_u16_spec(command, value as int),
{
    if 0 <= value && value <= 65535 {
        Ok(value as u16)
    } else {
        Err(CompileError::InvalidValue { command, value })
    }
}

fn checked_signed_i16(command: &'static str, value: i64) -> (r: Result<i16, CompileError>)
    ensures
        r == checked_i16_spec(command, value as int),
{
    if -32768 <= value && value <= 32767 {
        Ok(value as i16)
    } else {
        Err(CompileError::InvalidValue { command, value })
    }
}

/// The MDX track index of an MML channel: `A`..`H` are 0..7, `P`..`W` are 8..15.
pub open spec fn channel_index_spec(channel: char) -> Result<usize, CompileError> {
    if 'A' <= channel <= 'H' {
        Ok((channel as int - 'A' as int) as usize)
    } else if 'P' <= channel <= 'W' {
        Ok((channel as int - 'P' as int + 8) as usize)
    } else {
        Err(CompileError::InvalidChannel(channel))
    }
}

/// Map an MML track channel to its zero-based MDX track index.
pub fn channel_index(channel: char) -> (r: Result<usize, CompileError>)
    ensures
        r == channel_index_spec(channel),
{
    if 'A' <= channel && channel <= 'H' {
        Ok((channel as u32 - 'A' as u32) as usize)
    } else if 'P' <= channel && channel <= 'W' {
        Ok((channel as u32 - 'P' as u32 + 8) as usize)
    } else {
        Err(CompileError::InvalidChannel(channel))
    }
}

/// The semitone of a note name within its octave.
pub open spec fn note_base(name: char) -> int {
    if name == 'c' {
        0
    } else if name == 'd' {
        2
    } else if name == 'e' {
        4
    } else if name == 'f' {
        5
    } else if name == 'g' {
        7
    } else if name == 'a' {
        9
    } else {
        11
    }
}

pub open spec fn is_note_name(name: char) -> bool {
    name == 'c' || name == 'd' || name == 'e' || name == 'f' || name == 'g' || name == 'a' || name
        == 'b'
}

pub open spec fn accidental_offset(accidental: Option<Accidental>) -> int {
    match accidental {
        Some(Accidental::Sharp) => 1,
        Some(Accidental::Flat) => -1,
        None => 0,
    }
}

/// The MDX note number of a named note: `o4 a` is 45, `o0 d+` is 0.
pub open spec fn note_number_spec(octave: u8, name: char, accidental: Option<Accidental>) -> Result<
    u16,
    CompileError,
> {
    if !is_note_name(name) {
        Err(invalid("note name", name as int))
    } else {
        let absolute = octave * 12 + note_base(name) + accidental_offset(accidental) - 3;
        if 0 <= absolute <= 95 {
            Ok(absolute as u16)
        } else {
            Err(invalid("note", absolute))
        }
    }
}

/// A flat lowers a note by one semitone and a sharp raises it by one: at any octave and for
/// any note name, wherever both numbers lie in the MDX note range, the flat note's number is
/// one less than the plain note's and the sharp note's one more (`o4 e-` is 48, `o4 e` 49,
/// `o4 e+` 50).
pub proof fn lemma_accidentals_move_a_semitone(octave: u8, name: char)
    requires
        is_note_name(name),
    ensures
        note_number_spec(octave, name, None) matches Ok(plain) ==> (plain >= 1 ==> note_number_spec(
            octave,
            name,
            Some(Accidental::Flat),
        ) == Ok::<u16, CompileError>((plain - 1) as u16)) && (plain <= 94 ==> note_number_spec(
            octave,
            name,
            Some(Accidental::Sharp),
        ) == Ok::<u16, CompileError>((plain + 1) as u16)),
        note_number_spec(octave, name, Some(Accidental::Flat)) matches Ok(flat) ==> flat <= 94
            ==> note_number_spec(octave, name, None) == Ok::<u16, CompileError>((flat + 1) as u16),
        note_number_spec(octave, name, Some(Accidental::Sharp)) matches Ok(sharp) ==> sharp >= 1
            ==> note_number_spec(octave, name, None) == Ok::<u16, CompileError>((sharp - 1) as u16),
{
}

/// The distance in semitones from `c` up to a note name, as the scale counts it: whole
/// steps but for the half steps `e`-`f` and `b`-`c`.
pub open spec fn scale_step(name: char) -> int {
    if name == 'c' {
        0
    } else if name == 'd' {
        2
    } else if name == 'e' {
        4
    } else if name == 'f' {
        5
    } else if name == 'g' {
        7
    } else if name == 'a' {
        9
    } else {
        11
    }
}

/// Note numbers follow the scale: `o4 c` is 45, a note an octave up is twelve more, and
/// within an octave each name lies as many semitones above `c` as the scale puts it.
pub proof fn lemma_note_numbers_follow_the_scale(octave: u8, name: char, accidental: Option<Accidental>)
    requires
        is_note_name(name),
    ensures
        note_number_spec(4, 'c', None) == Ok::<u16, CompileError>(45),
        note_number_spec(octave, name, accidental) matches Ok(number) ==> note_number_spec(
            octave,
            'c',
            accidental,
        ) matches Ok(base) ==> number == base + scale_step(name),
        octave < 255 ==> (note_number_spec(octave, name, accidental) matches Ok(low) ==> low + 12
            <= 95 ==> note_number_spec((octave + 1) as u8, name, accidental) == Ok::<u16, CompileError>(
            (low + 12) as u16,
        )),
{
}

/// Convert an MML note name and accidental at an octave into an MDX note number.
pub fn note_number(octave: u8, name: char, accidental: Option<Accidental>) -> (r: Result<
    u16,
    CompileError,
>)
    ensures
        r == note_number_spec(octave, name, accidental),
{
    let base: i32 = if name == 'c' {
        0
    } else if name == 'd' {
        2
    } else if name == 'e' {
        4
    } else if name == 'f' {
        5
    } else if name == 'g' {
        7
    } else if name == 'a' {
        9
    } else if name == 'b' {
        11
    } else {
        return Err(CompileError::InvalidValue { command: "note name", value: name as u32 as i64 });
    };
    let modifier: i32 = match accidental {
        Some(Accidental::Sharp) => 1,
        Some(Accidental::Flat) => -1,
        None => 0,
    };
    let absolute: i32 = octave as i32 * 12 + base + modifier - 3;
    if 0 <= absolute && absolute <= 95 {
        Ok(absolute as u16)
    } else {
        Err(CompileError::InvalidValue { command: "note", value: absolute as i64 })
    }
}

/// Ticks of a denominator-based length, for a whole note of 192 ticks.
pub open spec fn ticks_from_denominator_spec(value: u16, command: &'static str) -> Result<
    u16,
    CompileError,
> {
    if value == 0 {
        Err(invalid(command, 0))
    } else {
        Ok((192int / (value as int)) as u16)
    }
}

fn ticks_from_denominator(value: u16, command: &'static str) -> (r: Result<u16, CompileError>)
    ensures
        r == ticks_from_denominator_spec(value, command),
{
    if value == 0 {
        return Err(CompileError::InvalidValue { command, value: 0 });
    }
    Ok(TICKS_PER_WHOLE / value)
}

/// The error for a length that leaves the 16-bit tick range.
pub open spec fn length_overflow() -> CompileError {
    invalid("note length", 65535)
}

/// The ticks of a length expression.
pub open spec fn length_ticks_spec(length: MmlLength) -> Result<u16, CompileError>
    decreases length, 1int,
{
    match length {
        MmlLength::Denominator(value) => ticks_from_denominator_spec(value, "note length"),
        MmlLength::Ticks(value) => Ok(value),
        MmlLength::Sum(values) => {
            proof {
                assert(decreases_to!(length => length->Sum_0));
                assert(decreases_to!(length->Sum_0 => length->Sum_0@));
            }
            sum_ticks_spec(values@)
        },
        MmlLength::Adjusted { base, adjustments } => {
            proof {
                assert(decreases_to!(length => length->adjustments));
                assert(decreases_to!(length->adjustments => length->adjustments@));
                assert(decreases_to!(length => length->base));
            }
            adjusted_ticks_spec(length_ticks_spec(*base), adjustments@)
        },
    }
}

/// The ticks of a sum of lengths, added left to right.
pub open spec fn sum_ticks_spec(values: Seq<MmlLength>) -> Result<u16, CompileError>
    decreases values, 0int,
{
    if values.len() == 0 {
        Ok(0)
    } else {
        match sum_ticks_spec(values.drop_last()) {
            Err(error) => Err(error),
            Ok(total) => match length_ticks_spec(values.last()) {
                Err(error) => Err(error),
                Ok(value) => if total + value <= 65535 {
                    Ok((total + value) as u16)
                } else {
                    Err(length_overflow())
                },
            },
        }
    }
}

/// The ticks of a base length adjusted left to right by `^` (add) and `~` (subtract).
pub open spec fn adjusted_ticks_spec(
    start: Result<u16, CompileError>,
    adjustments: Seq<(bool, MmlLength)>,
) -> Result<u16, CompileError>
    decreases adjustments, 0int,
{
    if adjustments.len() == 0 {
        start
    } else {
        match adjusted_ticks_spec(start, adjustments.drop_last()) {
            Err(error) => Err(error),
            Ok(total) => match length_ticks_spec(adjustments.last().1) {
                Err(error) => Err(error),
                Ok(value) => if adjustments.last().0 {
                    if total + value <= 65535 {
                        Ok((total + value) as u16)
                    } else {
                        Err(length_overflow())
                    }
                } else {
                    if total - value >= 0 {
                        Ok((total - value) as u16)
                    } else {
                        Err(length_overflow())
                    }
                },
            },
        }
    }
}

/// An error in a prefix of a sum is the error of the whole sum.
proof fn lemma_sum_ticks_error(values: Seq<MmlLength>, k: int)
    requires
        0 <= k <= values.len(),
        sum_ticks_spec(values.subrange(0, k)) is Err,
    ensures
        sum_ticks_spec(values) == sum_ticks_spec(values.subrange(0, k)),
    decreases values.len() - k,
{
    if k < values.len() {
        assert(values.subrange(0, k + 1).drop_last() =~= values.subrange(0, k));
        lemma_sum_ticks_error(values, k + 1);
    } else {
        assert(values.subrange(0, k) =~= values);
    }
}

/// An error in a prefix of the adjustments is the error of the whole expression.
proof fn lemma_adjusted_ticks_error(
    start: Result<u16, CompileError>,
    adjustments: Seq<(bool, MmlLength)>,
    k: int,
)
    requires
        0 <= k <= adjustments.len(),
        adjusted_ticks_spec(start, adjustments.subrange(0, k)) is Err,
    ensures
        adjusted_ticks_spec(start, adjustments) == adjusted_ticks_spec(
            start,
            adjustments.subrange(0, k),
        ),
    decreases adjustments.len() - k,
{
    if k < adjustments.len() {
        assert(adjustments.subrange(0, k + 1).drop_last() =~= adjustments.subrange(0, k));
        lemma_adjusted_ticks_error(start, adjustments, k + 1);
    } else {
        assert(adjustments.subrange(0, k) =~= adjustments);
    }
}

/// Convert a parsed MML length expression into MDX ticks.
pub fn length_ticks(length: &MmlLength) -> (r: Result<u16, CompileError>)
    ensures
        r == length_ticks_spec(*length),
        r matches Err(error) ==> error is InvalidValue,
    decreases length,
{
    match length {
        MmlLength::Denominator(value) => ticks_from_denominator(*value, "note length"),
        MmlLength::Ticks(value) => Ok(*value),
        MmlLength::Sum(values) => {
            let mut total: u16 = 0;
            let mut index: usize = 0;
            while index < values.len()
                invariant
                    index <= values@.len(),
                    *length is Sum,
                    length->Sum_0 == *values,
                    sum_ticks_spec(values@.subrange(0, index as int)) == Ok::<u16, CompileError>(
                        total,
                    ),
                decreases values@.len() - index,
            {
                proof {
                    assert(decreases_to!(*length => length->Sum_0));
                    assert(decreases_to!(*values => values@));
                    assert(decreases_to!(values@ => values@[index as int]));
                    assert(values@.subrange(0, index + 1).drop_last() =~= values@.subrange(
                        0,
                        index as int,
                    ));
                }
                let value = match length_ticks(&values[index]) {
                    Ok(value) => value,
                    Err(error) => {
                        proof {
                            lemma_sum_ticks_error(values@, index + 1);
                        }
                        return Err(error);
                    },
                };
                if total as u32 + value as u32 > 65535 {
                    proof {
                        lemma_sum_ticks_error(values@, index + 1);
                    }
                    return Err(CompileError::InvalidValue { command: "note length", value: 65535 });
                }
                total = total + value;
                index += 1;
            }
            proof {
                assert(values@.subrange(0, values@.len() as int) =~= values@);
            }
            Ok(total)
        },
        MmlLength::Adjusted { base, adjustments } => {
            proof {
                assert(decreases_to!(*length => length->base));
            }
            let mut total: u16 = match length_ticks(base) {
                Ok(total) => total,
                Err(error) => {
                    proof {
                        assert(adjustments@.subrange(0, 0) =~= Seq::<(bool, MmlLength)>::empty());
                        lemma_adjusted_ticks_error(length_ticks_spec(**base), adjustments@, 0);
                    }
                    return Err(error);
                },
            };
            let mut index: usize = 0;
            while index < adjustments.len()
                invariant
                    index <= adjustments@.len(),
                    *length is Adjusted,
                    length->adjustments == *adjustments,
                    length->base == *base,
                    adjusted_ticks_spec(
                        length_ticks_spec(**base),
                        adjustments@.subrange(0, index as int),
                    ) == Ok::<u16, CompileError>(total),
                decreases adjustments@.len() - index,
            {
                proof {
                    assert(decreases_to!(*length => length->adjustments));
                    assert(decreases_to!(*adjustments => adjustments@));
                    assert(decreases_to!(adjustments@ => adjustments@[index as int]));
                    assert(decreases_to!(adjustments@[index as int] => adjustments@[index as int].1));
                    assert(adjustments@.subrange(0, index + 1).drop_last() =~= adjustments@.subrange(
                        0,
                        index as int,
                    ));
                }
                let add = adjustments[index].0;
                let value = match length_ticks(&adjustments[index].1) {
                    Ok(value) => value,
                    Err(error) => {
                        proof {
                            lemma_adjusted_ticks_error(
                                length_ticks_spec(**base),
                                adjustments@,
                                index + 1,
                            );
                        }
                        return Err(error);
                    },
                };
                if add {
                    if total as u32 + value as u32 > 65535 {
                        proof {
                            lemma_adjusted_ticks_error(
                                length_ticks_spec(**base),
                                adjustments@,
                                index + 1,
                            );
                        }
                        return Err(
                            CompileError::InvalidValue { command: "note length", value: 65535 },
                        );
                    }
                    total = total + value;
                } else {
                    if total < value {
                        proof {
                            lemma_adjusted_ticks_error(
                                length_ticks_spec(**base),
                                adjustments@,
                                index + 1,
                            );
                        }
                        return Err(
                            CompileError::InvalidValue { command: "note length", value: 65535 },
                        );
                    }
                    total = total - value;
                }
                index += 1;
            }
            proof {
                assert(adjustments@.subrange(0, adjustments@.len() as int) =~= adjustments@);
            }
            Ok(total)
        },
    }
}

/// Convert a BPM-style MML tempo into the OPM tempo byte used by MDX:
/// `256 - 78125 / (16 * bpm)`, kept within `0..=255`.
pub open spec fn tempo_value_spec(bpm: u32) -> Result<u8, CompileError> {
    if bpm == 0 {
        Err(invalid("tempo", 0))
    } else {
        let decrement = 78125int / (16 * bpm);
        let value = if 256 - decrement < 0 {
            0
        } else {
            256 - decrement
        };
        Ok((if value > 255 {
            255
        } else {
            value
        }) as u8)
    }
}

fn tempo_value(bpm: u32) -> (r: Result<u8, CompileError>)
    ensures
        r == tempo_value_spec(bpm),
{
    if bpm == 0 {
        return Err(CompileError::InvalidValue { command: "tempo", value: 0 });
    }
    let decrement: u64 = 78_125 / (16 * bpm as u64);
    let value = 256u64.saturating_sub(decrement);
    Ok(if value > 255 {
        255
    } else {
        value as u8
    })
}

/// The notes that play `ticks` ticks of note opcode `opcode`, 256 ticks at most each.
pub open spec fn note_chunks(opcode: u8, ticks: int) -> Seq<MdxCommand>
    decreases ticks,
{
    if ticks <= 0 {
        seq![]
    } else {
        let length = if ticks > 256 {
            256
        } else {
            ticks
        };
        seq![MdxCommand::Note(MdxNote { note: opcode, length: length as u16 })] + note_chunks(
            opcode,
            ticks - length,
        )
    }
}

/// The rests that last `ticks` ticks, 128 ticks at most each.
pub open spec fn rest_chunks(ticks: int) -> Seq<MdxCommand>
    decreases ticks,
{
    if ticks <= 0 {
        seq![]
    } else {
        let length = if ticks > 128 {
            128
        } else {
            ticks
        };
        seq![MdxCommand::Rest(MdxRest { ticks: length as u16 })] + rest_chunks(ticks - length)
    }
}

/// The ticks that notes and rests last, one after another.
pub open spec fn played_ticks(commands: Seq<MdxCommand>) -> int
    decreases commands.len(),
{
    if commands.len() == 0 {
        0
    } else {
        (match commands[0] {
            MdxCommand::Note(note) => note.length as int,
            MdxCommand::Rest(rest) => rest.ticks as int,
            _ => 0,
        }) + played_ticks(commands.drop_first())
    }
}

/// A note of pitch `opcode` lasting 1 to 256 ticks, and 256 when `full`.
pub open spec fn note_piece(command: MdxCommand, opcode: u8, full: bool) -> bool {
    command matches MdxCommand::Note(note) && note.note == opcode && 1 <= note.length <= 256 && (
    full ==> note.length == 256)
}

/// A rest lasting 1 to 128 ticks, and 128 when `full`.
pub open spec fn rest_piece(command: MdxCommand, full: bool) -> bool {
    command matches MdxCommand::Rest(rest) && 1 <= rest.ticks <= 128 && (full ==> rest.ticks == 128)
}

/// A long note is played as notes of the same pitch that last as long together: each lasts
/// 1 to 256 ticks, and all but the last 256.
pub proof fn lemma_notes_are_split_without_loss(opcode: u8, ticks: int)
    requires
        ticks >= 0,
    ensures
        played_ticks(note_chunks(opcode, ticks)) == ticks,
        forall|i: int|
            0 <= i < note_chunks(opcode, ticks).len() ==> note_piece(
                #[trigger] note_chunks(opcode, ticks)[i],
                opcode,
                i + 1 < note_chunks(opcode, ticks).len(),
            ),
    decreases ticks,
{
    if ticks > 0 {
        let length = if ticks > 256 {
            256
        } else {
            ticks
        };
        lemma_notes_are_split_without_loss(opcode, ticks - length);
        let chunks = note_chunks(opcode, ticks);
        let rest = note_chunks(opcode, ticks - length);
        assert(chunks.drop_first() =~= rest);
        assert forall|i: int| 0 <= i < chunks.len() implies note_piece(
            #[trigger] chunks[i],
            opcode,
            i + 1 < chunks.len(),
        ) by {
            if i > 0 {
                assert(chunks[i] == rest[i - 1]);
            } else if i + 1 < chunks.len() {
                assert(rest.len() > 0);
            }
        }
        if ticks - length == 0 {
            assert(rest.len() == 0);
        }
    }
}

/// A long rest is played as rests that last as long together: each lasts 1 to 128 ticks, and
/// all but the last 128.
pub proof fn lemma_rests_are_split_without_loss(ticks: int)
    requires
        ticks >= 0,
    ensures
        played_ticks(rest_chunks(ticks)) == ticks,
        forall|i: int|
            0 <= i < rest_chunks(ticks).len() ==> rest_piece(
                #[trigger] rest_chunks(ticks)[i],
                i + 1 < rest_chunks(ticks).len(),
            ),
    decreases ticks,
{
    if ticks > 0 {
        let length = if ticks > 128 {
            128
        } else {
            ticks
        };
        lemma_rests_are_split_without_loss(ticks - length);
        let chunks = rest_chunks(ticks);
        let rest = rest_chunks(ticks - length);
        assert(chunks.drop_first() =~= rest);
        assert forall|i: int| 0 <= i < chunks.len() implies rest_piece(
            #[trigger] chunks[i],
            i + 1 < chunks.len(),
        ) by {
            if i > 0 {
                assert(chunks[i] == rest[i - 1]);
            } else if i + 1 < chunks.len() {
                assert(rest.len() > 0);
            }
        }
        if ticks - length == 0 {
            assert(rest.len() == 0);
        }
    }
}

/// A length `1/d` lasts `d` into a whole note of 192 ticks, rounded down: `d` times the ticks
/// is at most 192, and `d` times one tick more exceeds it.
pub proof fn lemma_denominators_divide_a_whole_note(value: u16)
    requires
        value > 0,
    ensures
        ticks_from_denominator_spec(value, "note length") matches Ok(ticks) && value * ticks <= 192
            < value * (ticks + 1),
{
    let ticks = 192int / (value as int);
    assert(value * ticks <= 192 < value * (ticks + 1)) by (nonlinear_arith)
        requires
            value > 0,
            ticks == 192int / (value as int),
    ;
}

pub open spec fn compile_note_spec(note: u16, ticks: u16) -> Result<Seq<MdxCommand>, CompileError> {
    if 0x80 + note > 0xdf {
        Err(invalid("note", note as int))
    } else {
        Ok(note_chunks((0x80 + note) as u8, ticks as int))
    }
}

/// Encode a note, splitting it when its duration exceeds one MDX note command.
pub fn compile_note(note: u16, ticks: u16) -> (r: Result<Vec<MdxCommand>, CompileError>)
    ensures
        match r {
            Ok(commands) => compile_note_spec(note, ticks) == Ok::<
                Seq<MdxCommand>,
                CompileError,
            >(commands@),
            Err(error) => compile_note_spec(note, ticks) == Err::<Seq<MdxCommand>, CompileError>(
                error,
            ),
        },
{
    if note > 0x5f {
        return Err(CompileError::InvalidValue { command: "note", value: note as i64 });
    }
    let opcode: u8 = (0x80 + note) as u8;
    let mut commands: Vec<MdxCommand> = Vec::new();
    let mut remaining: u16 = ticks;
    while remaining > 0
        invariant
            commands@ + note_chunks(opcode, remaining as int) == note_chunks(opcode, ticks as int),
        decreases remaining,
    {
        let length: u16 = if remaining > 0x100 {
            0x100
        } else {
            remaining
        };
        let ghost before = commands@;
        commands.push(MdxCommand::Note(MdxNote { note: opcode, length }));
        remaining = remaining - length;
        proof {
            assert(commands@ + note_chunks(opcode, remaining as int) =~= before + note_chunks(
                opcode,
                remaining + length,
            ));
        }
    }
    proof {
        assert(commands@ + note_chunks(opcode, 0) =~= commands@);
    }
    Ok(commands)
}

/// Encode a rest, splitting it when its duration exceeds one MDX rest command.
pub fn compile_rest(ticks: u16) -> (commands: Vec<MdxCommand>)
    ensures
        commands@ == rest_chunks(ticks as int),
{
    let mut commands: Vec<MdxCommand> = Vec::new();
    let mut remaining: u16 = ticks;
    while remaining > 0
        invariant
            commands@ + rest_chunks(remaining as int) == rest_chunks(ticks as int),
        decreases remaining,
    {
        let length: u16 = if remaining > 0x80 {
            0x80
        } else {
            remaining
        };
        let ghost before = commands@;
        commands.push(MdxCommand::Rest(MdxRest { ticks: length }));
        remaining = remaining - length;
        proof {
            assert(commands@ + rest_chunks(remaining as int) =~= before + rest_chunks(
                remaining + length,
            ));
        }
    }
    proof {
        assert(commands@ + rest_chunks(0) =~= commands@);
    }
    commands
}

/// Integer division rounding toward zero, for a positive divisor.
pub open spec fn div_toward_zero(a: int, b: int) -> int {
    if a >= 0 {
        a / b
    } else {
        -((-a) / b)
    }
}

fn div_toward_zero_exec(a: i64, b: i64) -> (q: i64)
    requires
        b > 0,
        -0x1_0000_0000 <= a <= 0x1_0000_0000,
    ensures
        q == div_toward_zero(a as int, b as int),
{
    if a >= 0 {
        ((a as u64) / (b as u64)) as i64
    } else {
        -(((-a) as u64 / b as u64) as i64)
    }
}

/// The MDX portamento rate from `source_note` to `target_note` over `ticks` ticks:
/// `16384 * (target - source) / ticks`, rounded toward zero.
pub open spec fn portamento_offset_spec(source_note: u16, target_note: u16, ticks: u16) -> Result<
    i16,
    CompileError,
> {
    if ticks == 0 {
        Err(invalid("portamento", 0))
    } else {
        checked_i16_spec(
            "portamento",
            div_toward_zero(16384 * (target_note - source_note), ticks as int),
        )
    }
}

pub fn portamento_offset(source_note: u16, target_note: u16, ticks: u16) -> (r: Result<
    i16,
    CompileError,
>)
    ensures
        r == portamento_offset_spec(source_note, target_note, ticks),
{
    if ticks == 0 {
        return Err(CompileError::InvalidValue { command: "portamento", value: 0 });
    }
    let delta: i64 = target_note as i64 - source_note as i64;
    let offset = div_toward_zero_exec(16_384 * delta, ticks as i64);
    checked_signed_i16("portamento", offset)
}

/// MXDRV pitch LFO scaling: waveform 0 gives `(4 * period, depth * 128 / period)`,
/// waveform 1 gives `(2 * period, depth * 256)`, other waveforms give
/// `(2 * period, depth * 256 / period)`.
pub open spec fn pitch_lfo_values_spec(waveform: u8, period: u16, depth: i16) -> Result<
    (u16, i16),
    CompileError,
> {
    if period == 0 {
        Err(invalid("pitch LFO period", 0))
    } else {
        let frequency = if waveform == 0 {
            period * 4
        } else {
            period * 2
        };
        let amplitude = if waveform == 0 {
            div_toward_zero(depth * 128, period as int)
        } else if waveform == 1 {
            depth * 256
        } else {
            div_toward_zero(depth * 256, period as int)
        };
        match checked_u16_spec("pitch LFO period", frequency) {
            Err(error) => Err(error),
            Ok(frequency) => match checked_i16_spec("pitch LFO amplitude", amplitude) {
                Err(error) => Err(error),
                Ok(amplitude) => Ok((frequency, amplitude)),
            },
        }
    }
}

pub fn pitch_lfo_values(waveform: u8, period: u16, depth: i16) -> (r: Result<
    (u16, i16),
    CompileError,
>)
    ensures
        r == pitch_lfo_values_spec(waveform, period, depth),
{
    if period == 0 {
        return Err(CompileError::InvalidValue { command: "pitch LFO period", value: 0 });
    }
    let period_wide = period as i64;
    let depth_wide = depth as i64;
    let frequency: i64 = if waveform == 0 {
        period_wide * 4
    } else {
        period_wide * 2
    };
    let amplitude: i64 = if waveform == 0 {
        div_toward_zero_exec(depth_wide * 128, period_wide)
    } else if waveform == 1 {
        depth_wide * 256
    } else {
        div_toward_zero_exec(depth_wide * 256, period_wide)
    };
    let frequency = checked_u16("pitch LFO period", frequency)?;
    let amplitude = checked_signed_i16("pitch LFO amplitude", amplitude)?;
    Ok((frequency, amplitude))
}

/// MXDRV volume LFO scaling: waveform 0 gives `(4 * period, 16 * depth)`,
/// waveform 1 gives `(2 * period, 256 * depth)`, other waveforms give
/// `(2 * period, 32 * depth)`. A negative amplitude cannot be represented.
pub open spec fn volume_lfo_values_spec(waveform: u8, period: u16, depth: i16) -> Result<
    (u16, u16),
    CompileError,
> {
    if period == 0 {
        Err(invalid("volume LFO period", 0))
    } else {
        let frequency = if waveform == 0 {
            period * 4
        } else {
            period * 2
        };
        let amplitude = if waveform == 0 {
            depth * 16
        } else if waveform == 1 {
            depth * 256
        } else {
            depth * 32
        };
        match checked_u16_spec("volume LFO period", frequency) {
            Err(error) => Err(error),
            Ok(frequency) => match checked_u16_spec("volume LFO amplitude", amplitude) {
                Err(error) => Err(error),
                Ok(amplitude) => Ok((frequency, amplitude)),
            },
        }
    }
}

pub fn volume_lfo_values(waveform: u8, period: u16, depth: i16) -> (r: Result<
    (u16, u16),
    CompileError,
>)
    ensures
        r == volume_lfo_values_spec(waveform, period, depth),
{
    if period == 0 {
        return Err(CompileError::InvalidValue { command: "volume LFO period", value: 0 });
    }
    let period_wide = period as i64;
    let depth_wide = depth as i64;
    let frequency: i64 = if waveform == 0 {
        period_wide * 4
    } else {
        period_wide * 2
    };
    let amplitude: i64 = if waveform == 0 {
        depth_wide * 16
    } else if waveform == 1 {
        depth_wide * 256
    } else {
        depth_wide * 32
    };
    let frequency = checked_u16("volume LFO period", frequency)?;
    let amplitude = checked_u16("volume LFO amplitude", amplitude)?;
    Ok((frequency, amplitude))
}

/// The operator taken from the 11 values starting at `start`.
pub open spec fn operator_at(values: Seq<u8>, start: int) -> MdxOperator {
    MdxOperator {
        ar: values[start],
        dr: values[start + 1],
        sr: values[start + 2],
        rr: values[start + 3],
        sl: values[start + 4],
        ol: values[start + 5],
        ks: values[start + 6],
        ml: values[start + 7],
        dt1: values[start + 8],
        dt2: values[start + 9],
        ame: values[start + 10],
    }
}

fn operator_from(values: &Vec<u8>, start: usize) -> (op: MdxOperator)
    requires
        start <= 36,
        start + 11 <= values@.len(),
    ensures
        op == operator_at(values@, start as int),
{
    MdxOperator {
        ar: values[start],
        dr: values[start + 1],
        sr: values[start + 2],
        rr: values[start + 3],
        sl: values[start + 4],
        ol: values[start + 5],
        ks: values[start + 6],
        ml: values[start + 7],
        dt1: values[start + 8],
        dt2: values[start + 9],
        ame: values[start + 10],
    }
}

/// A voice of 47 values is four operators of 11 values (source order 1, 2, 3, 4
/// stored as 1, 3, 2, 4) followed by CON, FL and the operator mask.
pub open spec fn tone_matches_voice(tone: MdxTone, voice: MmlVoice) -> bool {
    &&& tone.voice_number == voice.number
    &&& tone.operators[0] == operator_at(voice.values@, 0)
    &&& tone.operators[1] == operator_at(voice.values@, 22)
    &&& tone.operators[2] == operator_at(voice.values@, 11)
    &&& tone.operators[3] == operator_at(voice.values@, 33)
    &&& tone.con == voice.values@[44]
    &&& tone.fl == voice.values@[45]
    &&& tone.op == voice.values@[46]
}

/// Convert one MML voice definition into an MDX tone.
pub fn compile_voice(voice: &MmlVoice) -> (r: Result<MdxTone, CompileError>)
    ensures
        voice.values@.len() == 47 <==> (r is Ok),
        r matches Ok(tone) ==> tone_matches_voice(tone, *voice),
        r matches Err(error) ==> (error == CompileError::InvalidVoice {
            number: voice.number,
            parameter_count: voice.values@.len() as usize,
        }),
{
    if voice.values.len() != 47 {
        return Err(
            CompileError::InvalidVoice { number: voice.number, parameter_count: voice.values.len() },
        );
    }
    let operators = [
        operator_from(&voice.values, 0),
        operator_from(&voice.values, 22),
        operator_from(&voice.values, 11),
        operator_from(&voice.values, 33),
    ];
    Ok(
        MdxTone {
            voice_number: voice.number,
            con: voice.values[44],
            fl: voice.values[45],
            op: voice.values[46],
            operators,
        },
    )
}

/// The byte length of a command sequence, saturating at the largest machine size.
pub open spec fn saturating_len(commands: Seq<MdxCommand>) -> int {
    if commands_len(commands) > usize::MAX {
        usize::MAX as int
    } else {
        commands_len(commands) as int
    }
}

/// Return the serialized byte length of a sequence of MDX commands.
pub fn command_bytes_len(commands: &Vec<MdxCommand>) -> (n: usize)
    ensures
        n == saturating_len(commands@),
{
    let mut total: usize = 0;
    let mut index: usize = 0;
    while index < commands.len()
        invariant
            index <= commands@.len(),
            total == saturating_len(commands@.subrange(0, index as int)),
        decreases commands@.len() - index,
    {
        proof {
            assert(commands@.subrange(0, index + 1).drop_last() =~= commands@.subrange(
                0,
                index as int,
            ));
        }
        total = total.saturating_add(commands[index].byte_len());
        index += 1;
    }
    proof {
        assert(commands@.subrange(0, commands@.len() as int) =~= commands@);
    }
    total
}

/// The repeat nesting depth in front of command `i`; an unmatched end stays at 0.
pub open spec fn depth_before(commands: Seq<MdxCommand>, i: int) -> int
    decreases i,
{
    if i <= 0 {
        0
    } else {
        let depth = depth_before(commands, i - 1);
        match commands[i - 1] {
            MdxCommand::LoopStart(_) => depth + 1,
            MdxCommand::LoopEnd(_) => if depth > 0 {
                depth - 1
            } else {
                0
            },
            _ => depth,
        }
    }
}

pub open spec fn clamp_i32(value: int) -> int {
    if value > 0x7fff_ffff {
        0x7fff_ffff
    } else {
        value
    }
}

/// The offset of an escape at `position` in a body of `body_length` bytes.
pub open spec fn escape_offset(body_length: int, position: int) -> int {
    clamp_i32(body_length) - clamp_i32(position) - 2
}

/// The first `k` commands of a repeat body with their outermost escapes patched.
pub open spec fn patch_prefix(commands: Seq<MdxCommand>, body_length: int, k: int) -> Result<
    Seq<MdxCommand>,
    CompileError,
>
    decreases k,
{
    if k <= 0 {
        Ok(seq![])
    } else {
        match patch_prefix(commands, body_length, k - 1) {
            Err(error) => Err(error),
            Ok(out) => {
                let i = k - 1;
                let command = commands[i];
                if depth_before(commands, i) == 0 && command is LoopEscape {
                    match checked_i16_spec(
                        "repeat escape",
                        escape_offset(body_length, saturating_len(commands.subrange(0, i))),
                    ) {
                        Err(error) => Err(error),
                        Ok(offset) => Ok(
                            out.push(
                                MdxCommand::LoopEscape(
                                    MdxRelativeOffset { opcode: command->LoopEscape_0.opcode, offset },
                                ),
                            ),
                        ),
                    }
                } else {
                    Ok(out.push(command))
                }
            },
        }
    }
}

proof fn lemma_patch_prefix_error(commands: Seq<MdxCommand>, body_length: int, k: int, n: int)
    requires
        0 <= k <= n,
        patch_prefix(commands, body_length, k) is Err,
    ensures
        patch_prefix(commands, body_length, n) == patch_prefix(commands, body_length, k),
    decreases n - k,
{
    if k < n {
        lemma_patch_prefix_error(commands, body_length, k + 1, n);
    }
}

proof fn lemma_patch_prefix_len(commands: Seq<MdxCommand>, body_length: int, k: int)
    requires
        0 <= k,
        patch_prefix(commands, body_length, k) is Ok,
    ensures
        patch_prefix(commands, body_length, k)->Ok_0.len() == k,
    decreases k,
{
    if k > 0 {
        lemma_patch_prefix_len(commands, body_length, k - 1);
    }
}

/// Patch escape offsets for the outermost repeat body.
pub fn patch_repeat_escape_offsets(commands: &mut Vec<MdxCommand>, body_length: usize) -> (r: Result<
    (),
    CompileError,
>)
    ensures
        match r {
            Ok(_) => patch_prefix(
                old(commands)@,
                body_length as int,
                old(commands)@.len() as int,
            ) == Ok::<Seq<MdxCommand>, CompileError>(final(commands)@),
            Err(error) => patch_prefix(
                old(commands)@,
                body_length as int,
                old(commands)@.len() as int,
            ) == Err::<Seq<MdxCommand>, CompileError>(error),
        },
        r matches Err(error) ==> error is InvalidValue,
{
    let ghost original = commands@;
    let mut position: usize = 0;
    let mut nested_depth: usize = 0;
    let mut index: usize = 0;
    proof {
        assert(commands@.subrange(0, 0) =~= Seq::<MdxCommand>::empty());
    }
    while index < commands.len()
        invariant
            commands@.len() == original.len(),
            original == old(commands)@,
            nested_depth <= index,
            index <= original.len(),
            position == saturating_len(original.subrange(0, index as int)),
            nested_depth == depth_before(original, index as int),
            patch_prefix(original, body_length as int, index as int) == Ok::<
                Seq<MdxCommand>,
                CompileError,
            >(commands@.subrange(0, index as int)),
            forall|j: int| index <= j < original.len() ==> commands@[j] == original[j],
        decreases original.len() - index,
    {
        let ghost before = commands@;
        let command = commands[index];
        let command_length = command.byte_len();
        proof {
            assert(original.subrange(0, index + 1).drop_last() =~= original.subrange(
                0,
                index as int,
            ));
        }
        match command {
            MdxCommand::LoopStart(_) => {
                nested_depth = nested_depth + 1;
            },
            MdxCommand::LoopEnd(_) => {
                nested_depth = if nested_depth > 0 {
                    nested_depth - 1
                } else {
                    0
                };
            },
            MdxCommand::LoopEscape(escape) => {
                if nested_depth == 0 {
                    let body: i64 = if body_length > 0x7fff_ffff {
                        0x7fff_ffff
                    } else {
                        body_length as i64
                    };
                    let at: i64 = if position > 0x7fff_ffff {
                        0x7fff_ffff
                    } else {
                        position as i64
                    };
                    let offset = match checked_signed_i16("repeat escape", body - at - 2) {
                        Ok(offset) => offset,
                        Err(error) => {
                            proof {
                                assert(patch_prefix(original, body_length as int, index + 1)
                                    == Err::<Seq<MdxCommand>, CompileError>(error));
                                lemma_patch_prefix_error(
                                    original,
                                    body_length as int,
                                    index + 1,
                                    original.len() as int,
                                );
                                assert(original == old(commands)@);
                                assert(patch_prefix(original, body_length as int, original.len() as int)
                                    == Err::<Seq<MdxCommand>, CompileError>(error));
                            }
                            return Err(error);
                        },
                    };
                    commands.set(
                        index,
                        MdxCommand::LoopEscape(MdxRelativeOffset { opcode: escape.opcode, offset }),
                    );
                }
            },
            _ => {},
        }
        proof {
            assert(commands@.subrange(0, index + 1) =~= commands@.subrange(
                0,
                index as int,
            ).push(commands@[index as int]));
            assert(command == original[index as int]);
            let prev = commands@.subrange(0, index as int);
            assert(prev =~= before.subrange(0, index as int));
            assert(patch_prefix(original, body_length as int, index as int) == Ok::<
                Seq<MdxCommand>,
                CompileError,
            >(prev));
            if depth_before(original, index as int) == 0 && command is LoopEscape {
                let expected = checked_i16_spec(
                    "repeat escape",
                    escape_offset(body_length as int, saturating_len(original.subrange(0, index as int))),
                );
                assert(expected is Ok);
                assert(commands@[index as int] == MdxCommand::LoopEscape(
                    MdxRelativeOffset { opcode: command->LoopEscape_0.opcode, offset: expected->Ok_0 },
                ));
            } else {
                assert(commands@[index as int] == original[index as int]);
            }
            assert(patch_prefix(original, body_length as int, index + 1) == Ok::<
                Seq<MdxCommand>,
                CompileError,
            >(commands@.subrange(0, index + 1)));
        }
        position = position.saturating_add(command_length);
        index += 1;
    }
    proof {
        assert(commands@.subrange(0, index as int) =~= commands@);
    }
    Ok(())
}

/// Commands the compiler emits inside a track: encodable, and never an end marker.
pub open spec fn compiled_ok(command: MdxCommand) -> bool {
    &&& (wf_command(command) || command is PitchLfo || command is VolumeLfo)
    &&& !(command is EndOfTrack)
    &&& !(command is EndOfTrackLoop)
}

pub open spec fn all_compiled_ok(commands: Seq<MdxCommand>) -> bool {
    forall|i: int| 0 <= i < commands.len() ==> compiled_ok(#[trigger] commands[i])
}

proof fn lemma_note_chunks_ok(opcode: u8, ticks: int)
    requires
        FIRST_NOTE_OPCODE <= opcode <= LAST_NOTE_OPCODE,
    ensures
        all_compiled_ok(note_chunks(opcode, ticks)),
    decreases ticks,
{
    if ticks > 0 {
        let length = if ticks > 256 {
            256
        } else {
            ticks
        };
        lemma_note_chunks_ok(opcode, ticks - length);
        let head = seq![MdxCommand::Note(MdxNote { note: opcode, length: length as u16 })];
        assert(note_chunks(opcode, ticks) == head + note_chunks(opcode, ticks - length));
        assert forall|i: int| 0 <= i < note_chunks(opcode, ticks).len() implies compiled_ok(
            #[trigger] note_chunks(opcode, ticks)[i],
        ) by {
            if i > 0 {
                assert(note_chunks(opcode, ticks)[i] == note_chunks(opcode, ticks - length)[i - 1]);
            }
        }
    }
}

proof fn lemma_rest_chunks_ok(ticks: int)
    ensures
        all_compiled_ok(rest_chunks(ticks)),
    decreases ticks,
{
    if ticks > 0 {
        let length = if ticks > 128 {
            128
        } else {
            ticks
        };
        lemma_rest_chunks_ok(ticks - length);
        assert forall|i: int| 0 <= i < rest_chunks(ticks).len() implies compiled_ok(
            #[trigger] rest_chunks(ticks)[i],
        ) by {
            if i > 0 {
                assert(rest_chunks(ticks)[i] == rest_chunks(ticks - length)[i - 1]);
            }
        }
    }
}

/// Patching escapes keeps every command's kind and opcode.
proof fn lemma_patch_prefix_shape(commands: Seq<MdxCommand>, body_length: int, k: int)
    requires
        0 <= k <= commands.len(),
        patch_prefix(commands, body_length, k) is Ok,
    ensures
        ({
            let out = patch_prefix(commands, body_length, k)->Ok_0;
            &&& out.len() == k
            &&& forall|i: int|
                0 <= i < k ==> (#[trigger] out[i] == commands[i] || (commands[i] is LoopEscape
                    && out[i] is LoopEscape && out[i]->LoopEscape_0.opcode
                    == commands[i]->LoopEscape_0.opcode))
        }),
    decreases k,
{
    if k > 0 {
        lemma_patch_prefix_shape(commands, body_length, k - 1);
    }
}

/// Patching escapes keeps the byte length of a repeat body.
pub proof fn lemma_patched_length(commands: Seq<MdxCommand>, body_length: int)
    requires
        patch_prefix(commands, body_length, commands.len() as int) is Ok,
    ensures
        commands_len(patch_prefix(commands, body_length, commands.len() as int)->Ok_0)
            == commands_len(commands),
{
    let patched = patch_prefix(commands, body_length, commands.len() as int)->Ok_0;
    lemma_patch_prefix_shape(commands, body_length, commands.len() as int);
    assert forall|i: int| 0 <= i < commands.len() implies command_len(#[trigger] commands[i])
        == command_len(patched[i]) by {}
    lemma_commands_len_pointwise(commands, patched);
}

/// Inserting a command adds its length.
proof fn lemma_commands_len_insert(commands: Seq<MdxCommand>, i: int, command: MdxCommand)
    requires
        0 <= i <= commands.len(),
    ensures
        commands_len(commands.insert(i, command)) == commands_len(commands) + command_len(command),
{
    let front = commands.subrange(0, i);
    let back = commands.subrange(i, commands.len() as int);
    assert(commands =~= front + back);
    assert(commands.insert(i, command) =~= front.push(command) + back);
    lemma_commands_len_concat(front, back);
    lemma_commands_len_concat(front.push(command), back);
    lemma_commands_len_push(front, command);
}

/// Sequences whose commands have equal lengths pointwise have equal total length.
proof fn lemma_commands_len_pointwise(a: Seq<MdxCommand>, b: Seq<MdxCommand>)
    requires
        a.len() == b.len(),
        forall|i: int| 0 <= i < a.len() ==> command_len(#[trigger] a[i]) == command_len(b[i]),
    ensures
        commands_len(a) == commands_len(b),
    decreases a.len(),
{
    if a.len() > 0 {
        lemma_commands_len_pointwise(a.drop_last(), b.drop_last());
    }
}

/// A loop point is unchanged, or lies between `base` and the end of `output`.
pub open spec fn loop_start_within(
    before: Option<usize>,
    after: Option<usize>,
    base: usize,
    output: Seq<MdxCommand>,
) -> bool {
    after == before || (after matches Some(start) && base <= start <= base + commands_len(output))
}

/// A recorded loop start lies within the commands compiled so far.
pub open spec fn loop_start_inside(loop_start: Option<usize>, commands: Seq<MdxCommand>) -> bool {
    loop_start matches Some(start) ==> start <= commands_len(commands)
}

/// Track state carried across the commands of one channel.
#[derive(Clone, Copy)]
struct TrackState<'a> {
    octave: u8,
    default_length: Option<&'a MmlLength>,
    loop_start: Option<usize>,
}

/// Ticks of the track's default length (`l4` until set).
pub open spec fn default_ticks(default_length: Option<MmlLength>) -> Result<u16, CompileError> {
    match default_length {
        Some(length) => length_ticks_spec(length),
        None => Ok(48),
    }
}

/// The length a borrowed default length stands for.
pub open spec fn owned_length(length: Option<&MmlLength>) -> Option<MmlLength> {
    match length {
        Some(length) => Some(*length),
        None => None,
    }
}

fn default_length_ticks(default_length: Option<&MmlLength>) -> (r: Result<u16, CompileError>)
    ensures
        r == default_ticks(owned_length(default_length)),
        r matches Err(error) ==> error is InvalidValue,
{
    match default_length {
        Some(length) => length_ticks(length),
        None => ticks_from_denominator(4, "note length"),
    }
}

/// The note number of a note command at `octave`, or `None` for other commands.
pub open spec fn command_note_number_spec(command: MmlCommand, octave: u8) -> Result<
    Option<u16>,
    CompileError,
> {
    match command {
        MmlCommand::Note { name, accidental, .. } | MmlCommand::ExtendedNote {
            name,
            accidental,
            ..
        } => match note_number_spec(octave, name, accidental) {
            Ok(number) => Ok(Some(number)),
            Err(error) => Err(error),
        },
        MmlCommand::NumericNote { note, .. } => Ok(Some(note as u16)),
        _ => Ok(None),
    }
}

fn command_note_number(command: &MmlCommand, octave: u8) -> (r: Result<Option<u16>, CompileError>)
    ensures
        r == command_note_number_spec(*command, octave),
{
    match command {
        MmlCommand::Note { name, accidental, .. } => Ok(Some(note_number(octave, *name, *accidental)?)),
        MmlCommand::ExtendedNote { name, accidental, .. } => Ok(
            Some(note_number(octave, *name, *accidental)?),
        ),
        MmlCommand::NumericNote { note, .. } => Ok(Some(*note as u16)),
        _ => Ok(None),
    }
}

/// The duration of a note command, or `None` for other commands.
pub open spec fn command_note_ticks_spec(
    command: MmlCommand,
    default_length: Option<MmlLength>,
) -> Result<Option<u16>, CompileError> {
    let ticks = match command {
        MmlCommand::Note { length, .. } => match length {
            Some(value) => ticks_from_denominator_spec(value, "note length"),
            None => default_ticks(default_length),
        },
        MmlCommand::ExtendedNote { length, .. } => length_ticks_spec(length),
        MmlCommand::NumericNote { length, .. } => match length {
            Some(length) => length_ticks_spec(length),
            None => default_ticks(default_length),
        },
        _ => Ok(0),
    };
    if command is Note || command is ExtendedNote || command is NumericNote {
        match ticks {
            Ok(ticks) => Ok(Some(ticks)),
            Err(error) => Err(error),
        }
    } else {
        Ok(None)
    }
}

fn command_note_ticks(command: &MmlCommand, default_length: Option<&MmlLength>) -> (r: Result<
    Option<u16>,
    CompileError,
>)
    ensures
        r == command_note_ticks_spec(*command, owned_length(default_length)),
        r matches Err(error) ==> error is InvalidValue,
{
    match command {
        MmlCommand::Note { length, .. } => match length {
            Some(value) => Ok(Some(ticks_from_denominator(*value, "note length")?)),
            None => Ok(Some(default_length_ticks(default_length)?)),
        },
        MmlCommand::ExtendedNote { length, .. } => Ok(Some(length_ticks(length)?)),
        MmlCommand::NumericNote { length, .. } => match length {
            Some(length) => Ok(Some(length_ticks(length)?)),
            None => Ok(Some(default_length_ticks(default_length)?)),
        },
        _ => Ok(None),
    }
}

/// Append `more` to `output`, keeping every command compiled-ok.
fn append_ok(output: &mut Vec<MdxCommand>, more: Vec<MdxCommand>)
    requires
        all_compiled_ok(old(output)@),
        all_compiled_ok(more@),
    ensures
        final(output)@ == old(output)@ + more@,
        all_compiled_ok(final(output)@),
        commands_len(final(output)@) == commands_len(old(output)@) + commands_len(more@),
{
    proof {
        lemma_commands_len_concat(old(output)@, more@);
    }
    let ghost added = more@;
    let mut more = more;
    output.append(&mut more);
    assert forall|i: int| 0 <= i < output@.len() implies compiled_ok(#[trigger] output@[i]) by {
        if i >= old(output)@.len() {
            assert(output@[i] == added[i - old(output)@.len()]);
        } else {
            assert(output@[i] == old(output)@[i]);
        }
    }
}

fn push_ok(output: &mut Vec<MdxCommand>, command: MdxCommand)
    requires
        all_compiled_ok(old(output)@),
        compiled_ok(command),
    ensures
        final(output)@ == old(output)@.push(command),
        all_compiled_ok(final(output)@),
        commands_len(final(output)@) == commands_len(old(output)@) + command_len(command),
{
    proof {
        lemma_commands_len_push(old(output)@, command);
    }
    output.push(command);
    assert forall|i: int| 0 <= i < output@.len() implies compiled_ok(#[trigger] output@[i]) by {
        if i < old(output)@.len() {
            assert(output@[i] == old(output)@[i]);
        }
    }
}

fn note_commands(note: u16, ticks: u16) -> (r: Result<Vec<MdxCommand>, CompileError>)
    ensures
        r matches Ok(commands) ==> all_compiled_ok(commands@),
        r matches Ok(commands) ==> compile_note_spec(note, ticks) == Ok::<
            Seq<MdxCommand>,
            CompileError,
        >(commands@),
        r matches Err(error) ==> compile_note_spec(note, ticks) == Err::<
            Seq<MdxCommand>,
            CompileError,
        >(error),
{
    let r = compile_note(note, ticks);
    if note <= 0x5f {
        proof {
            lemma_note_chunks_ok((0x80 + note) as u8, ticks as int);
        }
    }
    r
}

fn rest_commands(ticks: u16) -> (commands: Vec<MdxCommand>)
    ensures
        all_compiled_ok(commands@),
        commands@ == rest_chunks(ticks as int),
{
    proof {
        lemma_rest_chunks_ok(ticks as int);
    }
    compile_rest(ticks)
}

/// A portamento command carrying `offset`.
pub open spec fn portamento(offset: i16) -> MdxCommand {
    MdxCommand::Portamento(MdxSignedWord { opcode: 0xf2, offset })
}

/// The lowering context a track state stands for.
spec fn context_of(state: TrackState) -> TrackContext {
    TrackContext {
        octave: state.octave,
        default_length: owned_length(state.default_length),
        loop_start: state.loop_start,
    }
}

/// The last note as the lowering model sees it.
spec fn last_view(last: Option<(usize, u16, u16)>) -> LastNote {
    match last {
        Some((start, note, ticks)) => Some((start as int, note, ticks)),
        None => None,
    }
}

/// The lowering contexts that track states stand for.
spec fn contexts_of(states: Seq<TrackState>) -> Seq<TrackContext> {
    Seq::new(states.len(), |i: int| context_of(states[i]))
}

/// The command sequences of the tracks.
spec fn views_of(tracks: Seq<Vec<MdxCommand>>) -> Seq<Seq<MdxCommand>> {
    Seq::new(tracks.len(), |i: int| tracks[i]@)
}

/// The last note starts within the output.
spec fn last_within(last: Option<(usize, u16, u16)>, output: Seq<MdxCommand>) -> bool {
    last matches Some((start, _, _)) ==> start <= output.len()
}

/// Lower a command that maps to at most one MDX command, with no context.
fn lower_simple_command(command: &MmlCommand) -> (r: Result<Option<MdxCommand>, CompileError>)
    requires
        is_simple(*command),
    ensures
        r == lower_simple(*command),
        r matches Ok(Some(lowered)) ==> compiled_ok(lowered),
        r matches Err(error) ==> error is InvalidValue,
{
    match command {
        MmlCommand::OpmTempo(value) => Ok(Some(MdxCommand::Tempo(MdxTempo { value: *value }))),
        MmlCommand::Tempo(value) => {
            let value = tempo_value(*value)?;
            Ok(Some(MdxCommand::Tempo(MdxTempo { value })))
        },
        MmlCommand::VoiceSelect(value) => Ok(
            Some(MdxCommand::VoiceOrPcmBank(MdxVoiceOrPcmBank { value: *value })),
        ),
        MmlCommand::Gate(value) => Ok(Some(MdxCommand::Gate(MdxGate { value: *value }))),
        MmlCommand::FineGate(value) => {
            let value = checked_u8("@q", 256 - *value as i64)?;
            Ok(Some(MdxCommand::Gate(MdxGate { value })))
        },
        MmlCommand::Volume(value) => Ok(Some(MdxCommand::Volume(MdxVolume { value: *value }))),
        MmlCommand::FineVolume(value) => {
            let value = checked_u8("@v", 0x80 + *value as i64)?;
            Ok(Some(MdxCommand::Volume(MdxVolume { value })))
        },
        MmlCommand::VolumeDown => Ok(Some(MdxCommand::VolumeDown(MdxVolumeDown))),
        MmlCommand::VolumeUp => Ok(Some(MdxCommand::VolumeUp(MdxVolumeUp))),
        MmlCommand::Pan(value) => Ok(Some(MdxCommand::Pan(MdxPan::from_raw(*value)))),
        MmlCommand::Detune(value) => Ok(
            Some(MdxCommand::Detune(MdxSignedWord { opcode: 0xf3, offset: *value })),
        ),
        MmlCommand::LoopEscape => Ok(
            Some(MdxCommand::LoopEscape(MdxRelativeOffset { opcode: 0xf4, offset: 0 })),
        ),
        MmlCommand::RegisterWrite { register, value } => Ok(
            Some(
                MdxCommand::OpmRegisterWrite(
                    MdxOpmRegisterWrite { register: *register, value: *value },
                ),
            ),
        ),
        MmlCommand::KeyOnDelay(value) => Ok(
            Some(MdxCommand::KeyOnDelay(MdxKeyOnDelay { value: *value })),
        ),
        MmlCommand::NoiseFrequency(value) => Ok(
            Some(
                MdxCommand::AdpcmOrNoiseFrequency(
                    MdxAdpcmOrNoiseFrequency { value: 0x80 | *value },
                ),
            ),
        ),
        MmlCommand::PcmFrequency(value) => Ok(
            Some(
                MdxCommand::AdpcmOrNoiseFrequency(
                    MdxAdpcmOrNoiseFrequency { value: *value & 0x07 },
                ),
            ),
        ),
        MmlCommand::SyncSend(value) => Ok(Some(MdxCommand::SyncSend(MdxSyncSend { value: *value }))),
        MmlCommand::SyncWait => Ok(Some(MdxCommand::SyncWait(MdxSyncWait))),
        MmlCommand::PitchLfo { waveform, period, amplitude } => {
            let (frequency, amplitude) = pitch_lfo_values(*waveform, *period, *amplitude)?;
            Ok(
                Some(
                    MdxCommand::PitchLfo(
                        MdxPitchLfo::Configure {
                            waveform: MdxLfoWaveform::from_raw(*waveform),
                            frequency,
                            amplitude,
                        },
                    ),
                ),
            )
        },
        MmlCommand::PitchLfoOn => Ok(
            Some(MdxCommand::PitchLfo(MdxPitchLfo::SetEnabled { enabled: true })),
        ),
        MmlCommand::PitchLfoOff => Ok(
            Some(MdxCommand::PitchLfo(MdxPitchLfo::SetEnabled { enabled: false })),
        ),
        MmlCommand::VolumeLfo { waveform, period, amplitude } => {
            let (frequency, amplitude) = volume_lfo_values(*waveform, *period, *amplitude)?;
            Ok(
                Some(
                    MdxCommand::VolumeLfo(
                        MdxVolumeLfo::Configure {
                            waveform: MdxLfoWaveform::from_raw(*waveform),
                            frequency,
                            amplitude,
                        },
                    ),
                ),
            )
        },
        MmlCommand::VolumeLfoOn => Ok(
            Some(MdxCommand::VolumeLfo(MdxVolumeLfo::SetEnabled { enabled: true })),
        ),
        MmlCommand::VolumeLfoOff => Ok(
            Some(MdxCommand::VolumeLfo(MdxVolumeLfo::SetEnabled { enabled: false })),
        ),
        MmlCommand::LfoDelay(value) => Ok(Some(MdxCommand::LfoDelay(MdxLfoDelay { value: *value }))),
        MmlCommand::OpmLfo { waveform, lfrq, pmd, amd, pms, ams, key_sync } => {
            let control: u8 = ((*key_sync & 1) << 6) | (*waveform & 3);
            proof {
                assert(((*key_sync & 1) << 6) | (*waveform & 3) < 0x80) by (bit_vector);
            }
            Ok(
                Some(
                    MdxCommand::OpmLfo(
                        MdxOpmLfo::Configure {
                            control,
                            lfrq: *lfrq,
                            pmd: 0x80 | (*pmd & 0x7f),
                            amd: *amd,
                            pms_ams: ((*pms & 0xf) << 4) | (*ams & 0xf),
                        },
                    ),
                ),
            )
        },
        MmlCommand::OpmLfoOn => Ok(Some(MdxCommand::OpmLfo(MdxOpmLfo::SetEnabled { enabled: true }))),
        MmlCommand::OpmLfoOff => Ok(
            Some(MdxCommand::OpmLfo(MdxOpmLfo::SetEnabled { enabled: false })),
        ),
        _ => Ok(None),
    }
}

/// The portamento that leads a note written as `note _ note`, if any.
fn lower_prefix<'a>(commands: &'a Vec<MmlCommand>, index: usize, state: &TrackState<'a>) -> (r:
    Result<Option<MdxCommand>, CompileError>)
    requires
        index < commands.len(),
    ensures
        r == portamento_prefix(commands@, index as int, context_of(*state)),
        r matches Ok(Some(bend)) ==> compiled_ok(bend),
        r matches Err(error) ==> error is InvalidValue,
{
    if commands.len() - index > 2 && matches!(commands[index + 1], MmlCommand::Portamento) {
        let command = &commands[index];
        let source_note = command_note_number(command, state.octave)?;
        let target_note = command_note_number(&commands[index + 2], state.octave)?;
        if let (Some(source_note), Some(target_note)) = (source_note, target_note) {
            let ticks = match command_note_ticks(command, state.default_length)? {
                Some(ticks) => ticks,
                None => {
                    return Err(CompileError::InvalidValue { command: "portamento", value: 0 });
                },
            };
            let offset = portamento_offset(source_note, target_note, ticks)?;
            return Ok(Some(MdxCommand::Portamento(MdxSignedWord { opcode: 0xf2, offset })));
        }
    }
    Ok(None)
}

/// The ensures shared by the lowering steps: `step` is what the model gives for
/// the step, `r` what the code returned.
spec fn step_matches<'a>(
    step: Result<Option<Progress>, CompileError>,
    r: Result<Option<usize>, CompileError>,
    old_state: TrackState<'a>,
    state: TrackState<'a>,
    old_output: Seq<MdxCommand>,
    output: Seq<MdxCommand>,
    last: Option<(usize, u16, u16)>,
    index: int,
    count: int,
    base_offset: usize,
) -> bool {
    match r {
        Err(error) => step == Err::<Option<Progress>, CompileError>(error),
        Ok(None) => {
            &&& step == Ok::<Option<Progress>, CompileError>(None)
            &&& output == old_output
            &&& state == old_state
        },
        Ok(Some(next)) => {
            &&& step == Ok::<Option<Progress>, CompileError>(
                Some((next as int, context_of(state), output, last_view(last))),
            )
            &&& index < next <= count
            &&& all_compiled_ok(output)
            &&& last_within(last, output)
            &&& commands_len(old_output) <= commands_len(output)
            &&& loop_start_within(old_state.loop_start, state.loop_start, base_offset, output)
        },
    }
}

/// Lower a note command; see `lower_note`.
fn lower_note_exec<'a>(
    commands: &'a Vec<MmlCommand>,
    index: usize,
    state: &TrackState<'a>,
    output: &mut Vec<MdxCommand>,
    last: &mut Option<(usize, u16, u16)>,
    consumed: usize,
) -> (r: Result<Option<usize>, CompileError>)
    requires
        index < commands.len(),
        commands@[index as int] is Note || commands@[index as int] is ExtendedNote
            || commands@[index as int] is NumericNote,
        consumed == 1 || (consumed == 3 && index + 3 <= commands.len()),
        all_compiled_ok(old(output)@),
        last_within(*old(last), old(output)@),
    ensures
        step_matches(
            lower_note(
                commands@,
                index as int,
                consumed as int,
                context_of(*state),
                old(output)@,
            ),
            r,
            *state,
            *state,
            old(output)@,
            final(output)@,
            *final(last),
            index as int,
            commands@.len() as int,
            0,
        ),
        r is Ok ==> r matches Ok(Some(_)),
        r matches Err(error) ==> error is InvalidValue,
{
    let count = commands.len();
    let note_output_start = output.len();
    let (note, ticks) = match &commands[index] {
        MmlCommand::Note { name, accidental, length } => {
            let note = note_number(state.octave, *name, *accidental)?;
            let ticks = match length {
                Some(value) => ticks_from_denominator(*value, "note length")?,
                None => default_length_ticks(state.default_length)?,
            };
            (note, ticks)
        },
        MmlCommand::ExtendedNote { name, accidental, length } => {
            let note = note_number(state.octave, *name, *accidental)?;
            let ticks = length_ticks(length)?;
            (note, ticks)
        },
        MmlCommand::NumericNote { note, length } => {
            let ticks = match length {
                Some(length) => length_ticks(length)?,
                None => default_length_ticks(state.default_length)?,
            };
            (*note as u16, ticks)
        },
        _ => {
            return Ok(Some(index + consumed));
        },
    };
    emit_note_exec(commands, index, output, note, ticks)?;
    *last = Some((note_output_start, note, ticks));
    Ok(Some(index + consumed))
}

/// Lower a repeat; see `lower_repeat`.
fn lower_repeat_exec<'a>(
    body: &'a Vec<MmlCommand>,
    count: u16,
    index: usize,
    consumed: usize,
    commands_count: usize,
    state: &mut TrackState<'a>,
    base_offset: usize,
    output: &mut Vec<MdxCommand>,
    last: &Option<(usize, u16, u16)>,
) -> (r: Result<Option<usize>, CompileError>)
    requires
        index + consumed <= commands_count,
        1 <= consumed,
        all_compiled_ok(old(output)@),
        last_within(*last, old(output)@),
    ensures
        step_matches(
            lower_repeat(
                body@,
                count,
                index as int,
                consumed as int,
                context_of(*old(state)),
                base_offset as int,
                old(output)@,
                last_view(*last),
            ),
            r,
            *old(state),
            *final(state),
            old(output)@,
            final(output)@,
            *last,
            index as int,
            commands_count as int,
            base_offset,
        ),
        r is Ok ==> r matches Ok(Some(_)),
        r matches Err(error) ==> !(error is Builder) && !(error is UnsupportedCommand),
    decreases body, 2int,
{
    let body_base = base_offset.saturating_add(command_bytes_len(output));
    let mut body_commands = compile_commands(body, state, body_base)?;
    let body_length = command_bytes_len(&body_commands);
    let ghost unpatched = body_commands@;
    patch_repeat_escape_offsets(&mut body_commands, body_length)?;
    proof {
        lemma_patch_prefix_shape(unpatched, body_length as int, unpatched.len() as int);
        assert forall|i: int| 0 <= i < unpatched.len() implies command_len(
            #[trigger] unpatched[i],
        ) == command_len(body_commands@[i]) by {}
        lemma_commands_len_pointwise(unpatched, body_commands@);
        assert forall|i: int| 0 <= i < body_commands@.len() implies compiled_ok(
            #[trigger] body_commands@[i],
        ) by {
            assert(compiled_ok(unpatched[i]));
        }
    }
    let count = checked_u8("repeat", count as i64)?;
    let wide_length: i64 = if body_length > 0x7fff_ffff {
        0x7fff_ffff
    } else {
        body_length as i64
    };
    let loop_end = checked_signed_i16("repeat", -wide_length - 3)?;
    push_ok(output, MdxCommand::LoopStart(MdxLoopStart { count, reserved: 0 }));
    append_ok(output, body_commands);
    push_ok(output, MdxCommand::LoopEnd(MdxRelativeOffset { opcode: 0xf5, offset: loop_end }));
    Ok(Some(index + consumed))
}

/// Lower the command at `index` onto `output`, the next index in the result
/// (`None` where `!` ends the channel).
#[verifier::rlimit(30)]
fn lower_command_exec<'a>(
    commands: &'a Vec<MmlCommand>,
    index: usize,
    state: &mut TrackState<'a>,
    base_offset: usize,
    output: &mut Vec<MdxCommand>,
    last: &mut Option<(usize, u16, u16)>,
    consumed: usize,
) -> (r: Result<Option<usize>, CompileError>)
    requires
        index < commands.len(),
        consumed == 1 || (consumed == 3 && index + 3 <= commands.len()),
        all_compiled_ok(old(output)@),
        last_within(*old(last), old(output)@),
    ensures
        step_matches(
            lower_command(
                commands@,
                index as int,
                context_of(*old(state)),
                base_offset as int,
                old(output)@,
                last_view(*old(last)),
                consumed as int,
            ),
            r,
            *old(state),
            *final(state),
            old(output)@,
            final(output)@,
            *final(last),
            index as int,
            commands@.len() as int,
            base_offset,
        ),
        r matches Err(error) ==> !(error is Builder) && !(error is UnsupportedCommand),
    decreases commands, 0int,
{
    let count = commands.len();
    let command = &commands[index];
    if is_simple_command(command) {
        match lower_simple_command(command)? {
            Some(lowered) => push_ok(output, lowered),
            None => {},
        }
        return Ok(Some(index + consumed));
    }
    if matches!(command, MmlCommand::Note { .. } | MmlCommand::ExtendedNote { .. } | MmlCommand::NumericNote { .. }) {
        return lower_note_exec(commands, index, state, output, last, consumed);
    }
    match command {
        MmlCommand::Ignore => {
            return Ok(None);
        },
        MmlCommand::Repeat { body, count: times } => {
            proof {
                assert(decreases_to!(*commands => commands@[index as int]));
                assert(decreases_to!(commands@[index as int] => commands@[index as int]->body));
            }
            return lower_repeat_exec(
                body,
                *times,
                index,
                consumed,
                count,
                state,
                base_offset,
                output,
                last,
            );
        },
        MmlCommand::Rest { length } => {
            let ticks = match length {
                Some(value) => ticks_from_denominator(*value, "note length")?,
                None => default_length_ticks(state.default_length)?,
            };
            append_ok(output, rest_commands(ticks));
        },
        MmlCommand::ExtendedRest(length) => {
            let ticks = length_ticks(length)?;
            append_ok(output, rest_commands(ticks));
        },
        MmlCommand::Octave(value) => {
            state.octave = *value;
        },
        MmlCommand::OctaveDown => {
            state.octave = state.octave.saturating_sub(1);
        },
        MmlCommand::OctaveUp => {
            state.octave = state.octave.saturating_add(1);
        },
        MmlCommand::DefaultLength(value) => {
            state.default_length = Some(value);
        },
        MmlCommand::Portamento => {
            return lower_portamento_exec(commands, index, state, output, last, consumed);
        },
        MmlCommand::LoopStart => {
            state.loop_start = Some(base_offset.saturating_add(command_bytes_len(output)));
        },
        _ => {},
    }
    Ok(Some(index + consumed))
}

/// Whether `lower_simple_command` covers the command.
fn is_simple_command(command: &MmlCommand) -> (r: bool)
    ensures
        r == is_simple(*command),
{
    match command {
        MmlCommand::Directive(_) | MmlCommand::Ignore | MmlCommand::Repeat { .. }
        | MmlCommand::Note { .. } | MmlCommand::ExtendedNote { .. } | MmlCommand::NumericNote {
            ..
        } | MmlCommand::Rest { .. } | MmlCommand::ExtendedRest(_) | MmlCommand::Octave(_)
        | MmlCommand::OctaveDown | MmlCommand::OctaveUp | MmlCommand::DefaultLength(_)
        | MmlCommand::DefaultLengthReset | MmlCommand::Portamento | MmlCommand::Legato
        | MmlCommand::LoopStart => false,
        _ => true,
    }
}

/// Whether the command changes the octave.
fn is_octave_command(command: &MmlCommand) -> (r: bool)
    ensures
        r == (command is Octave || command is OctaveDown || command is OctaveUp),
{
    match command {
        MmlCommand::Octave(_) | MmlCommand::OctaveDown | MmlCommand::OctaveUp => true,
        _ => false,
    }
}

/// Emit a note: key-off disable when legato follows, then its chunks.
fn emit_note_exec(
    commands: &Vec<MmlCommand>,
    index: usize,
    output: &mut Vec<MdxCommand>,
    note: u16,
    ticks: u16,
) -> (r: Result<(), CompileError>)
    requires
        index < commands.len(),
        all_compiled_ok(old(output)@),
    ensures
        match r {
            Ok(_) => {
                &&& compile_note_spec(note, ticks) is Ok
                &&& final(output)@ == (if followed_by_legato(commands@, index as int) {
                    old(output)@.push(MdxCommand::KeyOffDisable(MdxKeyOffDisable))
                } else {
                    old(output)@
                }) + compile_note_spec(note, ticks)->Ok_0
                &&& all_compiled_ok(final(output)@)
                &&& commands_len(old(output)@) <= commands_len(final(output)@)
            },
            Err(error) => compile_note_spec(note, ticks) == Err::<Seq<MdxCommand>, CompileError>(
                error,
            ),
        },
        r matches Err(error) ==> error is InvalidValue,
{
    let count = commands.len();
    let legato = index + 1 < count && matches!(commands[index + 1], MmlCommand::Legato);
    let notes = note_commands(note, ticks)?;
    if legato {
        push_ok(output, MdxCommand::KeyOffDisable(MdxKeyOffDisable));
    }
    append_ok(output, notes);
    Ok(())
}

/// A portamento `_` not taken by the note before it; see `lower_portamento`.
fn lower_portamento_exec<'a>(
    commands: &'a Vec<MmlCommand>,
    index: usize,
    state: &mut TrackState<'a>,
    output: &mut Vec<MdxCommand>,
    last: &mut Option<(usize, u16, u16)>,
    consumed: usize,
) -> (r: Result<Option<usize>, CompileError>)
    requires
        index < commands.len(),
        commands@[index as int] is Portamento,
        consumed == 1 || (consumed == 3 && index + 3 <= commands.len()),
        all_compiled_ok(old(output)@),
        last_within(*old(last), old(output)@),
    ensures
        match r {
            Err(error) => lower_portamento(
                commands@,
                index as int,
                consumed as int,
                context_of(*old(state)),
                old(output)@,
                last_view(*old(last)),
            ) == Err::<Option<Progress>, CompileError>(error),
            Ok(None) => false,
            Ok(Some(next)) => {
                &&& lower_portamento(
                    commands@,
                    index as int,
                    consumed as int,
                    context_of(*old(state)),
                    old(output)@,
                    last_view(*old(last)),
                ) == Ok::<Option<Progress>, CompileError>(
                    Some(
                        (
                            next as int,
                            context_of(*final(state)),
                            final(output)@,
                            last_view(*final(last)),
                        ),
                    ),
                )
                &&& index < next <= commands@.len()
                &&& all_compiled_ok(final(output)@)
                &&& last_within(*final(last), final(output)@)
                &&& commands_len(old(output)@) <= commands_len(final(output)@)
                &&& final(state).loop_start == old(state).loop_start
            },
        },
        r matches Err(error) ==> error is InvalidValue,
{
    let count = commands.len();
    if let Some((note_output_start, source_note, ticks)) = *last {
        let mut target_index = index + 1;
        let mut target_octave = state.octave;
        while target_index < commands.len() && is_octave_command(&commands[target_index])
            invariant
                index < target_index <= commands@.len(),
                octave_scan(commands@, index + 1, state.octave) == octave_scan(
                    commands@,
                    target_index as int,
                    target_octave,
                ),
            decreases commands@.len() - target_index,
        {
            match &commands[target_index] {
                MmlCommand::Octave(value) => {
                    target_octave = *value;
                },
                MmlCommand::OctaveDown => {
                    target_octave = target_octave.saturating_sub(1);
                },
                _ => {
                    target_octave = target_octave.saturating_add(1);
                },
            }
            target_index += 1;
        }
        assert(octave_scan(commands@, index + 1, state.octave) == (
            target_index as int,
            target_octave,
        ));
        if target_index < commands.len() {
            if let Some(target_note) = command_note_number(&commands[target_index], target_octave)? {
                state.octave = target_octave;
                let offset = portamento_offset(source_note, target_note, ticks)?;
                let ghost before = output@;
                let bend = MdxCommand::Portamento(MdxSignedWord { opcode: 0xf2, offset });
                output.insert(note_output_start, bend);
                proof {
                    lemma_commands_len_insert(before, note_output_start as int, bend);
                    assert forall|i: int| 0 <= i < output@.len() implies compiled_ok(
                        #[trigger] output@[i],
                    ) by {
                        if i < note_output_start {
                            assert(output@[i] == before[i]);
                        } else if i > note_output_start {
                            assert(output@[i] == before[i - 1]);
                        }
                    }
                }
                let emitted = output.len();
                assert(note_output_start < emitted);
                *last = Some((note_output_start + 1, source_note, ticks));
                return Ok(Some(target_index + 1));
            }
        }
    }
    push_ok(output, MdxCommand::Portamento(MdxSignedWord { opcode: 0xf2, offset: 0 }));
    Ok(Some(index + consumed))
}

/// Lower MML commands recursively into their MDX representations.
///
/// Octave, default length and loop point are carried in `state`; `base_offset`
/// is the byte position of the first emitted command within its track.
fn compile_commands<'a>(
    commands: &'a Vec<MmlCommand>,
    state: &mut TrackState<'a>,
    base_offset: usize,
) -> (r: Result<Vec<MdxCommand>, CompileError>)
    ensures
        match r {
            Ok(output) => lower_channel(commands@, context_of(*old(state)), base_offset as int)
                == Ok::<(Seq<MdxCommand>, TrackContext), CompileError>(
                (output@, context_of(*final(state))),
            ),
            Err(error) => lower_channel(commands@, context_of(*old(state)), base_offset as int)
                == Err::<(Seq<MdxCommand>, TrackContext), CompileError>(error),
        },
        r matches Ok(output) ==> all_compiled_ok(output@),
        r matches Ok(output) ==> loop_start_within(
            old(state).loop_start,
            final(state).loop_start,
            base_offset,
            output@,
        ),
        r matches Err(error) ==> !(error is Builder) && !(error is UnsupportedCommand),
    decreases commands, 1int,
{
    let mut output: Vec<MdxCommand> = Vec::new();
    let mut index: usize = 0;
    let mut last: Option<(usize, u16, u16)> = None;
    while index < commands.len()
        invariant
            index <= commands@.len(),
            all_compiled_ok(output@),
            last_within(last, output@),
            loop_start_within(old(state).loop_start, state.loop_start, base_offset, output@),
            lower_channel(commands@, context_of(*old(state)), base_offset as int) == run(
                commands@,
                index as int,
                context_of(*state),
                base_offset as int,
                output@,
                last_view(last),
            ),
        decreases commands@.len() - index,
    {
        let ghost outer = old(state).loop_start;
        let prefix = lower_prefix(commands, index, state)?;
        let consumed: usize = match prefix {
            Some(bend) => {
                push_ok(&mut output, bend);
                3
            },
            None => 1,
        };
        let ghost started = output@;
        let ghost before_state = *state;
        let step = lower_command_exec(
            commands,
            index,
            state,
            base_offset,
            &mut output,
            &mut last,
            consumed,
        )?;
        match step {
            Some(next) => {
                index = next;
            },
            None => {
                return Ok(output);
            },
        }
    }
    Ok(output)
}

/// Whether any track uses a PCM8 channel `P`..`W`, which needs 16 tracks.
pub open spec fn uses_pcm8_channels(document: MmlDocument) -> bool {
    exists|i: int|
        0 <= i < document.tracks@.len() && 'P' <= #[trigger] document.tracks@[i].channel <= 'W'
}

/// A finished track: compiled commands followed by exactly one end marker.
pub open spec fn finished_track(commands: Seq<MdxCommand>) -> bool {
    &&& commands.len() >= 1
    &&& all_compiled_ok(commands.drop_last())
    &&& (commands.last() is EndOfTrack || commands.last() is EndOfTrackLoop)
    &&& wf_command(commands.last())
}

/// The index of the first voice that does not have 47 parameters, if any.
pub open spec fn first_bad_voice(voices: Seq<MmlVoice>, k: int) -> Option<int>
    decreases voices.len() - k,
{
    if k < 0 || k >= voices.len() {
        None
    } else if voices[k].values@.len() != 47 {
        Some(k)
    } else {
        first_bad_voice(voices, k + 1)
    }
}

/// Whether `r` is what compiling `document` gives: the title, PDX file name,
/// tones and tracks it yields, or the error that stops it.
pub open spec fn compiled_as(document: MmlDocument, r: Result<MdxDocument, CompileError>) -> bool {
    match r {
        Ok(mdx) => {
            &&& mdx.header.title@ == (match document.title {
                Some(title) => title@,
                None => Seq::<char>::empty(),
            })
            &&& (match document.pcm_file {
                Some(name) => mdx.header.pdx_name matches Some(pdx) && pdx@ == name@,
                None => mdx.header.pdx_name is None,
            })
            &&& mdx.tone_bank.tones@.len() == document.voices@.len()
            &&& forall|v: int|
                0 <= v < document.voices@.len() ==> tone_matches_voice(
                    #[trigger] mdx.tone_bank.tones@[v],
                    document.voices@[v],
                )
            &&& compiled_tracks(document) matches Ok(compiled)
            &&& mdx.tracks@.len() == compiled.len()
            &&& forall|t: int| 0 <= t < compiled.len() ==> #[trigger] mdx.tracks@[t]@ == compiled[t]
        },
        Err(error) => compiled_tracks(document) == Err::<Seq<Seq<MdxCommand>>, CompileError>(error),
    }
}

/// Compile a parsed MML document into a typed MDX document.
///
/// The compiler preserves the MML title, PDX filename, voice definitions, and
/// channel order. Track indices follow MXDRV's layout: `A` through `H` map to
/// indices `0` through `7`, and `P` through `W` map to indices `8` through `15`.
/// Nine tracks are produced, or sixteen when a `P`..`W` channel is used. Every
/// track ends with one end-of-track command; a track with a loop point `L`
/// ends with a looping end whose jump lands on the loop point.
pub fn compile(document: &MmlDocument) -> (r: Result<MdxDocument, CompileError>)
    ensures
        compiled_as(*document, r),
        match r {
            Ok(mdx) => {
                &&& mdx.tracks@.len() == (if uses_pcm8_channels(*document) {
                    16int
                } else {
                    9int
                })
                &&& forall|t: int| 0 <= t < mdx.tracks@.len() ==> finished_track(
                    #[trigger] mdx.tracks@[t]@,
                )
                &&& mdx.header.title@ == (match document.title {
                    Some(title) => title@,
                    None => Seq::<char>::empty(),
                })
                &&& (match document.pcm_file {
                    Some(name) => mdx.header.pdx_name matches Some(pdx) && pdx@ == name@,
                    None => mdx.header.pdx_name is None,
                })
                &&& mdx.tone_bank.tones@.len() == document.voices@.len()
                &&& forall|v: int|
                    0 <= v < document.voices@.len() ==> tone_matches_voice(
                        #[trigger] mdx.tone_bank.tones@[v],
                        document.voices@[v],
                    )
                &&& first_bad_voice(document.voices@, 0) is None
                &&& compiled_tracks(*document) matches Ok(compiled)
                &&& mdx.tracks@.len() == compiled.len()
                &&& forall|t: int|
                    0 <= t < compiled.len() ==> #[trigger] mdx.tracks@[t]@ == compiled[t]
            },
            Err(error) => {
                &&& compiled_tracks(*document) == Err::<Seq<Seq<MdxCommand>>, CompileError>(error)
                &&& !(error is Builder)
                &&& !(error is UnsupportedCommand)
                &&& (first_bad_voice(document.voices@, 0) matches Some(v) ==> error
                    == CompileError::InvalidVoice {
                    number: document.voices@[v].number,
                    parameter_count: document.voices@[v].values@.len() as usize,
                })
            },
        },
{
    let mut tracks: Vec<Vec<MdxCommand>> = Vec::new();
    let mut states: Vec<TrackState> = Vec::new();
    let mut slot: usize = 0;
    while slot < 16
        invariant
            slot <= 16,
            tracks@.len() == slot,
            states@.len() == slot,
            forall|t: int| 0 <= t < slot ==> all_compiled_ok(#[trigger] tracks@[t]@),
            forall|t: int| 0 <= t < slot ==> (#[trigger] states@[t]).loop_start is None,
            forall|t: int| 0 <= t < slot ==> context_of(#[trigger] states@[t]) == initial_context(),
            forall|t: int| 0 <= t < slot ==> (#[trigger] tracks@[t])@ == Seq::<MdxCommand>::empty(),
        decreases 16 - slot,
    {
        tracks.push(Vec::new());
        states.push(TrackState { octave: 4, default_length: None, loop_start: None });
        slot += 1;
    }
    let mut uses_pcm8 = false;
    let mut scan: usize = 0;
    while scan < document.tracks.len()
        invariant
            scan <= document.tracks@.len(),
            uses_pcm8 <==> exists|i: int|
                0 <= i < scan && 'P' <= #[trigger] document.tracks@[i].channel <= 'W',
        decreases document.tracks@.len() - scan,
    {
        let channel = document.tracks[scan].channel;
        if 'P' <= channel && channel <= 'W' {
            uses_pcm8 = true;
        }
        scan += 1;
    }
    let track_count: usize = if uses_pcm8 {
        16
    } else {
        9
    };
    let title = match &document.title {
        Some(title) => title.clone(),
        None => String::new(),
    };
    let pdx_name = match &document.pcm_file {
        Some(name) => Some(name.clone()),
        None => None,
    };

    let mut tones: Vec<MdxTone> = Vec::new();
    let mut voice_index: usize = 0;
    while voice_index < document.voices.len()
        invariant
            voice_index <= document.voices@.len(),
            tones@.len() == voice_index,
            forall|v: int|
                0 <= v < voice_index ==> tone_matches_voice(
                    #[trigger] tones@[v],
                    document.voices@[v],
                ),
            forall|v: int| 0 <= v < voice_index ==> (#[trigger] document.voices@[v]).values@.len()
                == 47,
            first_bad_voice(document.voices@, 0) == first_bad_voice(
                document.voices@,
                voice_index as int,
            ),
        decreases document.voices@.len() - voice_index,
    {
        match compile_voice(&document.voices[voice_index]) {
            Ok(tone) => tones.push(tone),
            Err(error) => {
                return Err(error);
            },
        }
        voice_index += 1;
    }

    proof {
        assert(contexts_of(states@) =~= Seq::new(16, |i: int| initial_context()));
        assert(views_of(tracks@) =~= Seq::new(16, |i: int| Seq::<MdxCommand>::empty()));
    }
    let ghost start_contexts = contexts_of(states@);
    let ghost start_views = views_of(tracks@);
    let mut track_position: usize = 0;
    while track_position < document.tracks.len()
        invariant
            lower_tracks(document.tracks@, 0, start_contexts, start_views) == lower_tracks(
                document.tracks@,
                track_position as int,
                contexts_of(states@),
                views_of(tracks@),
            ),
            start_contexts == Seq::new(16, |i: int| initial_context()),
            start_views == Seq::new(16, |i: int| Seq::<MdxCommand>::empty()),
            track_position <= document.tracks@.len(),
            tracks@.len() == 16,
            states@.len() == 16,
            forall|t: int| 0 <= t < 16 ==> all_compiled_ok(#[trigger] tracks@[t]@),
            forall|t: int|
                0 <= t < 16 ==> loop_start_inside(#[trigger] states@[t].loop_start, tracks@[t]@),
            first_bad_voice(document.voices@, 0) is None,
        decreases document.tracks@.len() - track_position,
    {
        let track = &document.tracks[track_position];
        let track_index = channel_index(track.channel)?;
        let base_offset = command_bytes_len(&tracks[track_index]);
        let mut state = states[track_index];
        let compiled = compile_commands(&track.commands, &mut state, base_offset)?;
        let ghost old_states = states@;
        states.set(track_index, state);
        let ghost before = tracks@;
        append_ok(&mut tracks[track_index], compiled);
        proof {
            assert forall|t: int| 0 <= t < 16 implies all_compiled_ok(#[trigger] tracks@[t]@) by {
                if t != track_index {
                    assert(tracks@[t] == before[t]);
                }
            }
            assert forall|t: int| 0 <= t < 16 implies loop_start_inside(
                #[trigger] states@[t].loop_start,
                tracks@[t]@,
            ) by {
                if t != track_index {
                    assert(tracks@[t] == before[t]);
                    assert(states@[t] == old_states[t]);
                } else {
                    assert(loop_start_inside(old_states[t].loop_start, before[t]@));
                }
            }
            assert(contexts_of(states@) =~= contexts_of(old_states).update(
                track_index as int,
                context_of(state),
            ));
            assert(views_of(tracks@) =~= views_of(before).update(
                track_index as int,
                views_of(before)[track_index as int] + compiled@,
            ));
        }
        track_position += 1;
    }
    let ghost lowered_contexts = contexts_of(states@);
    let ghost lowered_views = views_of(tracks@);
    let ghost lowered_states = states@;
    assert(compiled_tracks(*document) == finish_tracks(
        lowered_contexts,
        lowered_views,
        track_count as int,
    ));

    let mut finished: Vec<Vec<MdxCommand>> = Vec::new();
    assert(views_of(finished@) =~= Seq::<Seq<MdxCommand>>::empty());
    let mut track_index: usize = 0;
    while track_index < track_count
        invariant
            track_index <= track_count,
            track_count == 9 || track_count == 16,
            tracks@.len() == 16,
            states@.len() == 16,
            forall|t: int| 0 <= t < 16 ==> all_compiled_ok(#[trigger] tracks@[t]@),
            finished@.len() == track_index,
            forall|t: int| 0 <= t < track_index ==> finished_track(#[trigger] finished@[t]@),
            forall|t: int|
                track_index <= t < 16 ==> loop_start_inside(
                    #[trigger] states@[t].loop_start,
                    tracks@[t]@,
                ),
            first_bad_voice(document.voices@, 0) is None,
            states@ == lowered_states,
            lowered_contexts == contexts_of(lowered_states),
            lowered_views.len() == 16,
            forall|t: int| track_index <= t < 16 ==> (#[trigger] tracks@[t])@ == lowered_views[t],
            finish_tracks(lowered_contexts, lowered_views, track_index as int) == Ok::<
                Seq<Seq<MdxCommand>>,
                CompileError,
            >(views_of(finished@)),
            compiled_tracks(*document) == finish_tracks(
                lowered_contexts,
                lowered_views,
                track_count as int,
            ),
        decreases track_count - track_index,
    {
        let mut commands: Vec<MdxCommand> = Vec::new();
        let ghost before = tracks@;
        std::mem::swap(&mut commands, &mut tracks[track_index]);
        let ghost body = commands@;
        proof {
            assert(body == before[track_index as int]@);
            assert forall|t: int| track_index < t < 16 implies loop_start_inside(
                #[trigger] states@[t].loop_start,
                tracks@[t]@,
            ) by {
                assert(tracks@[t] == before[t]);
            }
        }
        assert(all_compiled_ok(body));
        if let Some(loop_start) = states[track_index].loop_start {
            let track_length = command_bytes_len(&commands);
            let start: i64 = if loop_start > 0x7fff_ffff {
                0x7fff_ffff
            } else {
                loop_start as i64
            };
            let length: i64 = if track_length > 0x7fff_ffff {
                0x7fff_ffff
            } else {
                track_length as i64
            };
            assert(loop_start_inside(states@[track_index as int].loop_start, body));
            assert(start <= length);
            let offset = match checked_signed_i16("loop start", start - length - 3) {
                Ok(offset) => offset,
                Err(error) => {
                    proof {
                        lemma_finish_error(
                            lowered_contexts,
                            lowered_views,
                            track_index + 1,
                            track_count as int,
                        );
                    }
                    return Err(error);
                },
            };
            commands.push(MdxCommand::EndOfTrackLoop(MdxRelativeOffset { opcode: 0xf1, offset }));
        } else {
            commands.push(MdxCommand::EndOfTrack(MdxEndOfTrack));
        }
        proof {
            assert(commands@.drop_last() =~= body);
        }
        let ghost finished_before = finished@;
        finished.push(commands);
        proof {
            assert(views_of(finished@) =~= views_of(finished_before).push(commands@));
        }
        track_index += 1;
    }

    Ok(
        MdxDocument {
            header: MdxHeader { title, pdx_name },
            tone_bank: MdxToneBank { tones },
            tracks: finished,
        },
    )
}

} // verus!
