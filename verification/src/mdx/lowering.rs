//! What lowering makes of MML: the commands each channel compiles to.
//!
//! A channel's commands are lowered one after another. The octave, the default
//! length and the loop point are carried from one command to the next, and so
//! is the place of the last note, which a later portamento `_` reaches back to.
use vstd::prelude::*;

use super::compile::{
    channel_index_spec, checked_i16_spec, checked_u8_spec, clamp_i32, command_note_number_spec,
    command_note_ticks_spec, compile_note_spec, default_ticks, first_bad_voice, invalid,
    length_ticks_spec, note_number_spec, patch_prefix, pitch_lfo_values_spec, portamento,
    portamento_offset_spec, rest_chunks, saturating_len, tempo_value_spec,
    ticks_from_denominator_spec, uses_pcm8_channels, volume_lfo_values_spec, lemma_patched_length, CompileError,
};
use super::mml::{MmlCommand, MmlDocument, MmlLength, MmlTrack};
use crate::mdx_model::command::{
    commands_len, lemma_commands_len_concat, lemma_commands_len_push, pan_from_raw, waveform_from_raw, MdxAdpcmOrNoiseFrequency, MdxCommand, MdxEndOfTrack, MdxGate,
    MdxKeyOffDisable, MdxKeyOnDelay, MdxLfoDelay, MdxLoopStart, MdxOpmLfo, MdxOpmRegisterWrite,
    MdxPitchLfo, MdxRelativeOffset, MdxSignedWord, MdxSyncSend, MdxSyncWait, MdxTempo,
    MdxVoiceOrPcmBank, MdxVolume, MdxVolumeDown, MdxVolumeLfo, MdxVolumeUp,
};

verus! {

/// What a channel carries from one command to the next.
pub struct TrackContext {
    pub octave: u8,
    /// The length set by `l`; `None` until one is set (a quarter note).
    pub default_length: Option<MmlLength>,
    /// The byte offset of `L` within the track, once one was seen.
    pub loop_start: Option<usize>,
}

/// The context every channel starts with: octave 4, no default length, no loop.
pub open spec fn initial_context() -> TrackContext {
    TrackContext { octave: 4, default_length: None, loop_start: None }
}

/// Where the notes of the last note command start in the output, their note
/// number and their ticks.
pub type LastNote = Option<(int, u16, u16)>;

/// After one command: the index of the next command, the context, the output
/// so far and the last note.
pub type Progress = (int, TrackContext, Seq<MdxCommand>, LastNote);

/// Addition that stops at the largest machine size.
pub open spec fn saturating_add(a: int, b: int) -> int {
    if a + b > usize::MAX {
        usize::MAX as int
    } else {
        a + b
    }
}

/// `<`: one octave down, not below 0.
pub open spec fn octave_down(octave: u8) -> u8 {
    if octave == 0 {
        0
    } else {
        (octave - 1) as u8
    }
}

/// `>`: one octave up, not above 255.
pub open spec fn octave_up(octave: u8) -> u8 {
    if octave == 255 {
        255
    } else {
        (octave + 1) as u8
    }
}

/// Whether the command at `index` is followed by `&` (legato).
pub open spec fn followed_by_legato(commands: Seq<MmlCommand>, index: int) -> bool {
    index + 1 < commands.len() && commands[index + 1] is Legato
}

/// Skip the octave commands from `index` on: the first other command's index and
/// the octave they leave.
pub open spec fn octave_scan(commands: Seq<MmlCommand>, index: int, octave: u8) -> (int, u8)
    decreases commands.len() - index,
{
    if index < 0 || index >= commands.len() {
        (index, octave)
    } else {
        match commands[index] {
            MmlCommand::Octave(value) => octave_scan(commands, index + 1, value),
            MmlCommand::OctaveDown => octave_scan(commands, index + 1, octave_down(octave)),
            MmlCommand::OctaveUp => octave_scan(commands, index + 1, octave_up(octave)),
            _ => (index, octave),
        }
    }
}

/// The portamento that leads a note written as `note _ note`, if the command at
/// `index` is such a note; the second note is then consumed with it.
pub open spec fn portamento_prefix(
    commands: Seq<MmlCommand>,
    index: int,
    context: TrackContext,
) -> Result<Option<MdxCommand>, CompileError> {
    if commands.len() - index > 2 && commands[index + 1] is Portamento {
        match command_note_number_spec(commands[index], context.octave) {
            Err(error) => Err(error),
            Ok(source) => match command_note_number_spec(commands[index + 2], context.octave) {
                Err(error) => Err(error),
                Ok(target) => if source is Some && target is Some {
                    match command_note_ticks_spec(commands[index], context.default_length) {
                        Err(error) => Err(error),
                        Ok(None) => Err(invalid("portamento", 0)),
                        Ok(Some(ticks)) => match portamento_offset_spec(
                            source->0,
                            target->0,
                            ticks,
                        ) {
                            Err(error) => Err(error),
                            Ok(offset) => Ok(Some(portamento(offset))),
                        },
                    }
                } else {
                    Ok(None)
                },
            },
        }
    } else {
        Ok(None)
    }
}

/// Go on with the command `consumed` places further on.
pub open spec fn advance(
    index: int,
    consumed: int,
    context: TrackContext,
    output: Seq<MdxCommand>,
    last: LastNote,
) -> Result<Option<Progress>, CompileError> {
    Ok(Some((index + consumed, context, output, last)))
}

/// Emit one MDX command and go on.
pub open spec fn emit(
    index: int,
    consumed: int,
    context: TrackContext,
    output: Seq<MdxCommand>,
    last: LastNote,
    command: MdxCommand,
) -> Result<Option<Progress>, CompileError> {
    advance(index, consumed, context, output.push(command), last)
}

/// A note: key-off disable when legato follows, then the note split into chunks;
/// the note becomes the last note.
pub open spec fn emit_note(
    commands: Seq<MmlCommand>,
    index: int,
    consumed: int,
    context: TrackContext,
    output: Seq<MdxCommand>,
    note: Result<u16, CompileError>,
    ticks: Result<u16, CompileError>,
) -> Result<Option<Progress>, CompileError> {
    match note {
        Err(error) => Err(error),
        Ok(note) => match ticks {
            Err(error) => Err(error),
            Ok(ticks) => {
                let started = if followed_by_legato(commands, index) {
                    output.push(MdxCommand::KeyOffDisable(MdxKeyOffDisable))
                } else {
                    output
                };
                match compile_note_spec(note, ticks) {
                    Err(error) => Err(error),
                    Ok(notes) => advance(
                        index,
                        consumed,
                        context,
                        started + notes,
                        Some((output.len() as int, note, ticks)),
                    ),
                }
            },
        },
    }
}

/// The ticks of a length given as an optional denominator.
pub open spec fn denominator_ticks(length: Option<u16>, context: TrackContext) -> Result<
    u16,
    CompileError,
> {
    match length {
        Some(value) => ticks_from_denominator_spec(value, "note length"),
        None => default_ticks(context.default_length),
    }
}

/// The ticks of a length given as an optional length expression.
pub open spec fn expression_ticks(length: Option<MmlLength>, context: TrackContext) -> Result<
    u16,
    CompileError,
> {
    match length {
        Some(length) => length_ticks_spec(length),
        None => default_ticks(context.default_length),
    }
}

/// A portamento `_` not taken by the note before it: it reaches back to the last
/// note and bends it toward the next note (after octave changes), which it
/// consumes; without both notes it stands as a portamento of 0.
pub open spec fn lower_portamento(
    commands: Seq<MmlCommand>,
    index: int,
    consumed: int,
    context: TrackContext,
    output: Seq<MdxCommand>,
    last: LastNote,
) -> Result<Option<Progress>, CompileError> {
    let unbent = emit(index, consumed, context, output, last, portamento(0));
    match last {
        Some((start, source, ticks)) => {
            let (target_index, target_octave) = octave_scan(commands, index + 1, context.octave);
            if target_index < commands.len() {
                match command_note_number_spec(commands[target_index], target_octave) {
                    Err(error) => Err(error),
                    Ok(Some(target)) => match portamento_offset_spec(source, target, ticks) {
                        Err(error) => Err(error),
                        Ok(offset) => Ok(
                            Some(
                                (
                                    target_index + 1,
                                    TrackContext {
                                        octave: target_octave,
                                        default_length: context.default_length,
                                        loop_start: context.loop_start,
                                    },
                                    output.insert(start, portamento(offset)),
                                    Some((start + 1, source, ticks)),
                                ),
                            ),
                        ),
                    },
                    Ok(None) => unbent,
                }
            } else {
                unbent
            }
        },
        None => unbent,
    }
}

/// The LFO commands and the commands that map one for one.
pub open spec fn lower_simple(command: MmlCommand) -> Result<Option<MdxCommand>, CompileError> {
    match command {
        MmlCommand::OpmTempo(value) => Ok(Some(MdxCommand::Tempo(MdxTempo { value }))),
        MmlCommand::Tempo(bpm) => match tempo_value_spec(bpm) {
            Err(error) => Err(error),
            Ok(value) => Ok(Some(MdxCommand::Tempo(MdxTempo { value }))),
        },
        MmlCommand::VoiceSelect(value) => Ok(
            Some(MdxCommand::VoiceOrPcmBank(MdxVoiceOrPcmBank { value })),
        ),
        MmlCommand::Gate(value) => Ok(Some(MdxCommand::Gate(MdxGate { value }))),
        MmlCommand::FineGate(value) => match checked_u8_spec("@q", 256 - value) {
            Err(error) => Err(error),
            Ok(value) => Ok(Some(MdxCommand::Gate(MdxGate { value }))),
        },
        MmlCommand::Volume(value) => Ok(Some(MdxCommand::Volume(MdxVolume { value }))),
        MmlCommand::FineVolume(value) => match checked_u8_spec("@v", 0x80 + value) {
            Err(error) => Err(error),
            Ok(value) => Ok(Some(MdxCommand::Volume(MdxVolume { value }))),
        },
        MmlCommand::VolumeDown => Ok(Some(MdxCommand::VolumeDown(MdxVolumeDown))),
        MmlCommand::VolumeUp => Ok(Some(MdxCommand::VolumeUp(MdxVolumeUp))),
        MmlCommand::Pan(value) => Ok(Some(MdxCommand::Pan(pan_from_raw(value)))),
        MmlCommand::Detune(value) => Ok(
            Some(MdxCommand::Detune(MdxSignedWord { opcode: 0xf3, offset: value })),
        ),
        MmlCommand::LoopEscape => Ok(
            Some(MdxCommand::LoopEscape(MdxRelativeOffset { opcode: 0xf4, offset: 0 })),
        ),
        MmlCommand::RegisterWrite { register, value } => Ok(
            Some(MdxCommand::OpmRegisterWrite(MdxOpmRegisterWrite { register, value })),
        ),
        MmlCommand::KeyOnDelay(value) => Ok(Some(MdxCommand::KeyOnDelay(MdxKeyOnDelay { value }))),
        MmlCommand::NoiseFrequency(value) => Ok(
            Some(
                MdxCommand::AdpcmOrNoiseFrequency(MdxAdpcmOrNoiseFrequency { value: 0x80 | value }),
            ),
        ),
        MmlCommand::PcmFrequency(value) => Ok(
            Some(
                MdxCommand::AdpcmOrNoiseFrequency(MdxAdpcmOrNoiseFrequency { value: value & 0x07 }),
            ),
        ),
        MmlCommand::SyncSend(value) => Ok(Some(MdxCommand::SyncSend(MdxSyncSend { value }))),
        MmlCommand::SyncWait => Ok(Some(MdxCommand::SyncWait(MdxSyncWait))),
        MmlCommand::PitchLfo { waveform, period, amplitude } => match pitch_lfo_values_spec(
            waveform,
            period,
            amplitude,
        ) {
            Err(error) => Err(error),
            Ok((frequency, amplitude)) => Ok(
                Some(
                    MdxCommand::PitchLfo(
                        MdxPitchLfo::Configure {
                            waveform: waveform_from_raw(waveform),
                            frequency,
                            amplitude,
                        },
                    ),
                ),
            ),
        },
        MmlCommand::PitchLfoOn => Ok(
            Some(MdxCommand::PitchLfo(MdxPitchLfo::SetEnabled { enabled: true })),
        ),
        MmlCommand::PitchLfoOff => Ok(
            Some(MdxCommand::PitchLfo(MdxPitchLfo::SetEnabled { enabled: false })),
        ),
        MmlCommand::VolumeLfo { waveform, period, amplitude } => match volume_lfo_values_spec(
            waveform,
            period,
            amplitude,
        ) {
            Err(error) => Err(error),
            Ok((frequency, amplitude)) => Ok(
                Some(
                    MdxCommand::VolumeLfo(
                        MdxVolumeLfo::Configure {
                            waveform: waveform_from_raw(waveform),
                            frequency,
                            amplitude,
                        },
                    ),
                ),
            ),
        },
        MmlCommand::VolumeLfoOn => Ok(
            Some(MdxCommand::VolumeLfo(MdxVolumeLfo::SetEnabled { enabled: true })),
        ),
        MmlCommand::VolumeLfoOff => Ok(
            Some(MdxCommand::VolumeLfo(MdxVolumeLfo::SetEnabled { enabled: false })),
        ),
        MmlCommand::LfoDelay(value) => Ok(Some(MdxCommand::LfoDelay(MdxLfoDelay { value }))),
        MmlCommand::OpmLfo { waveform, lfrq, pmd, amd, pms, ams, key_sync } => Ok(
            Some(
                MdxCommand::OpmLfo(
                    MdxOpmLfo::Configure {
                        control: ((key_sync & 1) << 6u8) | (waveform & 3),
                        lfrq,
                        pmd: 0x80 | (pmd & 0x7f),
                        amd,
                        pms_ams: ((pms & 0xf) << 4u8) | (ams & 0xf),
                    },
                ),
            ),
        ),
        MmlCommand::OpmLfoOn => Ok(Some(MdxCommand::OpmLfo(MdxOpmLfo::SetEnabled { enabled: true }))),
        MmlCommand::OpmLfoOff => Ok(
            Some(MdxCommand::OpmLfo(MdxOpmLfo::SetEnabled { enabled: false })),
        ),
        _ => Ok(None),
    }
}

/// Whether `lower_simple` covers the command.
pub open spec fn is_simple(command: MmlCommand) -> bool {
    !(command is Directive || command is Ignore || command is Repeat || command is Note
        || command is ExtendedNote || command is NumericNote || command is Rest
        || command is ExtendedRest || command is Octave || command is OctaveDown
        || command is OctaveUp || command is DefaultLength || command is DefaultLengthReset
        || command is Portamento || command is Legato || command is LoopStart)
}

/// A note command (`c`, an extended note or `n`), with its length.
pub open spec fn lower_note(
    commands: Seq<MmlCommand>,
    index: int,
    consumed: int,
    context: TrackContext,
    output: Seq<MdxCommand>,
) -> Result<Option<Progress>, CompileError> {
    match commands[index] {
        MmlCommand::Note { name, accidental, length } => emit_note(
            commands,
            index,
            consumed,
            context,
            output,
            note_number_spec(context.octave, name, accidental),
            denominator_ticks(length, context),
        ),
        MmlCommand::ExtendedNote { name, accidental, length } => emit_note(
            commands,
            index,
            consumed,
            context,
            output,
            note_number_spec(context.octave, name, accidental),
            length_ticks_spec(length),
        ),
        MmlCommand::NumericNote { note, length } => emit_note(
            commands,
            index,
            consumed,
            context,
            output,
            Ok(note as u16),
            expression_ticks(length, context),
        ),
        _ => Ok(None),
    }
}

/// A repeat `[body]count`: a loop start, the body lowered and with its escapes
/// patched, and a loop end that jumps back over the body.
pub open spec fn lower_repeat(
    body: Seq<MmlCommand>,
    count: u16,
    index: int,
    consumed: int,
    context: TrackContext,
    base: int,
    output: Seq<MdxCommand>,
    last: LastNote,
) -> Result<Option<Progress>, CompileError>
    decreases body, body.len() + 1,
{
    let body_base = saturating_add(base, saturating_len(output));
    match run(body, 0, context, body_base, seq![], None) {
        Err(error) => Err(error),
        Ok((lowered, after)) => {
            let body_length = saturating_len(lowered);
            match patch_prefix(lowered, body_length, lowered.len() as int) {
                Err(error) => Err(error),
                Ok(patched) => match checked_u8_spec("repeat", count as int) {
                    Err(error) => Err(error),
                    Ok(times) => match checked_i16_spec("repeat", -clamp_i32(body_length) - 3) {
                        Err(error) => Err(error),
                        Ok(back) => advance(
                            index,
                            consumed,
                            after,
                            (output.push(
                                MdxCommand::LoopStart(MdxLoopStart { count: times, reserved: 0 }),
                            ) + patched).push(
                                MdxCommand::LoopEnd(MdxRelativeOffset { opcode: 0xf5, offset: back }),
                            ),
                            last,
                        ),
                    },
                },
            }
        },
    }
}

/// Lower the command at `index` onto `output`; `consumed` commands are used up
/// unless a portamento takes more. `Ok(None)`: `!` ends the channel here.
pub open spec fn lower_command(
    commands: Seq<MmlCommand>,
    index: int,
    context: TrackContext,
    base: int,
    output: Seq<MdxCommand>,
    last: LastNote,
    consumed: int,
) -> Result<Option<Progress>, CompileError>
    decreases commands, 0int,
{
    if index < 0 || index >= commands.len() {
        Ok(None)
    } else {
        let command = commands[index];
        if is_simple(command) {
            match lower_simple(command) {
                Err(error) => Err(error),
                Ok(Some(lowered)) => emit(index, consumed, context, output, last, lowered),
                Ok(None) => advance(index, consumed, context, output, last),
            }
        } else if command is Note || command is ExtendedNote || command is NumericNote {
            lower_note(commands, index, consumed, context, output)
        } else {
            match command {
                MmlCommand::Ignore => Ok(None),
                MmlCommand::Repeat { body, count } => {
                    proof {
                        assert(decreases_to!(commands => commands[index]));
                        assert(decreases_to!(commands[index] => body));
                        assert(decreases_to!(body => body@));
                    }
                    lower_repeat(body@, count, index, consumed, context, base, output, last)
                },
                MmlCommand::Rest { length } => match denominator_ticks(length, context) {
                    Err(error) => Err(error),
                    Ok(ticks) => advance(
                        index,
                        consumed,
                        context,
                        output + rest_chunks(ticks as int),
                        last,
                    ),
                },
                MmlCommand::ExtendedRest(length) => match length_ticks_spec(length) {
                    Err(error) => Err(error),
                    Ok(ticks) => advance(
                        index,
                        consumed,
                        context,
                        output + rest_chunks(ticks as int),
                        last,
                    ),
                },
                MmlCommand::Octave(value) => advance(
                    index,
                    consumed,
                    TrackContext { octave: value, ..context },
                    output,
                    last,
                ),
                MmlCommand::OctaveDown => advance(
                    index,
                    consumed,
                    TrackContext { octave: octave_down(context.octave), ..context },
                    output,
                    last,
                ),
                MmlCommand::OctaveUp => advance(
                    index,
                    consumed,
                    TrackContext { octave: octave_up(context.octave), ..context },
                    output,
                    last,
                ),
                MmlCommand::DefaultLength(value) => advance(
                    index,
                    consumed,
                    TrackContext { default_length: Some(value), ..context },
                    output,
                    last,
                ),
                MmlCommand::Portamento => lower_portamento(
                    commands,
                    index,
                    consumed,
                    context,
                    output,
                    last,
                ),
                MmlCommand::LoopStart => advance(
                    index,
                    consumed,
                    TrackContext {
                        loop_start: Some(saturating_add(base, saturating_len(output)) as usize),
                        ..context
                    },
                    output,
                    last,
                ),
                _ => advance(index, consumed, context, output, last),
            }
        }
    }
}

/// Lower the commands of a channel from `index` on; `base` is the byte offset of
/// the first command lowered in this call within its track. The result is the
/// output and the context the channel is left with.
pub open spec fn run(
    commands: Seq<MmlCommand>,
    index: int,
    context: TrackContext,
    base: int,
    output: Seq<MdxCommand>,
    last: LastNote,
) -> Result<(Seq<MdxCommand>, TrackContext), CompileError>
    decreases commands, commands.len() - index,
{
    if index < 0 || index >= commands.len() {
        Ok((output, context))
    } else {
        match portamento_prefix(commands, index, context) {
            Err(error) => Err(error),
            Ok(prefix) => {
                let started = match prefix {
                    Some(bend) => output.push(bend),
                    None => output,
                };
                let consumed: int = if prefix is Some {
                    3
                } else {
                    1
                };
                match lower_command(commands, index, context, base, started, last, consumed) {
                    Err(error) => Err(error),
                    Ok(None) => Ok((started, context)),
                    Ok(Some((next, after, lowered, last_after))) => if index < next
                        <= commands.len() {
                        run(commands, next, after, base, lowered, last_after)
                    } else {
                        Ok((lowered, after))
                    },
                }
            },
        }
    }
}

/// Lower a whole channel from its start.
pub open spec fn lower_channel(
    commands: Seq<MmlCommand>,
    context: TrackContext,
    base: int,
) -> Result<(Seq<MdxCommand>, TrackContext), CompileError> {
    run(commands, 0, context, base, seq![], None)
}

/// The channels' contexts and outputs after lowering the tracks from `k` on, in
/// the order they are written; a channel written twice goes on where it stopped.
pub open spec fn lower_tracks(
    tracks: Seq<MmlTrack>,
    k: int,
    contexts: Seq<TrackContext>,
    outputs: Seq<Seq<MdxCommand>>,
) -> Result<(Seq<TrackContext>, Seq<Seq<MdxCommand>>), CompileError>
    decreases tracks.len() - k,
{
    if k < 0 || k >= tracks.len() {
        Ok((contexts, outputs))
    } else {
        match channel_index_spec(tracks[k].channel) {
            Err(error) => Err(error),
            Ok(slot) => match lower_channel(
                tracks[k].commands@,
                contexts[slot as int],
                saturating_len(outputs[slot as int]),
            ) {
                Err(error) => Err(error),
                Ok((lowered, after)) => lower_tracks(
                    tracks,
                    k + 1,
                    contexts.update(slot as int, after),
                    outputs.update(slot as int, outputs[slot as int] + lowered),
                ),
            },
        }
    }
}

/// The end marker of a finished track: a jump back to the loop point `L`, or a
/// plain end.
pub open spec fn end_of_track(context: TrackContext, commands: Seq<MdxCommand>) -> Result<
    MdxCommand,
    CompileError,
> {
    match context.loop_start {
        Some(start) => match checked_i16_spec(
            "loop start",
            clamp_i32(start as int) - clamp_i32(saturating_len(commands)) - 3,
        ) {
            Err(error) => Err(error),
            Ok(offset) => Ok(
                MdxCommand::EndOfTrackLoop(MdxRelativeOffset { opcode: 0xf1, offset }),
            ),
        },
        None => Ok(MdxCommand::EndOfTrack(MdxEndOfTrack)),
    }
}

/// The first `k` tracks, each finished with its end marker.
pub open spec fn finish_tracks(
    contexts: Seq<TrackContext>,
    outputs: Seq<Seq<MdxCommand>>,
    k: int,
) -> Result<Seq<Seq<MdxCommand>>, CompileError>
    decreases k,
{
    if k <= 0 {
        Ok(seq![])
    } else {
        match finish_tracks(contexts, outputs, k - 1) {
            Err(error) => Err(error),
            Ok(done) => match end_of_track(contexts[k - 1], outputs[k - 1]) {
                Err(error) => Err(error),
                Ok(end) => Ok(done.push(outputs[k - 1].push(end))),
            },
        }
    }
}

/// Once finishing fails, it fails with the same error for more tracks.
pub proof fn lemma_finish_error(
    contexts: Seq<TrackContext>,
    outputs: Seq<Seq<MdxCommand>>,
    k: int,
    n: int,
)
    requires
        0 <= k <= n,
        finish_tracks(contexts, outputs, k) is Err,
    ensures
        finish_tracks(contexts, outputs, n) == finish_tracks(contexts, outputs, k),
    decreases n - k,
{
    if k < n {
        lemma_finish_error(contexts, outputs, k + 1, n);
    }
}

/// The number of tracks a document compiles to: 16 when a PCM8 channel `P`..`W`
/// is used, else 9.
pub open spec fn track_count(document: MmlDocument) -> int {
    if uses_pcm8_channels(document) {
        16
    } else {
        9
    }
}

/// The tracks a document compiles to, or the error that stops it: a voice
/// without 47 parameters first, then the first error of the tracks in the
/// order they are written, then an end marker that cannot reach its loop point.
pub open spec fn compiled_tracks(document: MmlDocument) -> Result<
    Seq<Seq<MdxCommand>>,
    CompileError,
> {
    match first_bad_voice(document.voices@, 0) {
        Some(v) => Err(
            CompileError::InvalidVoice {
                number: document.voices@[v].number,
                parameter_count: document.voices@[v].values@.len() as usize,
            },
        ),
        None => match lower_tracks(
            document.tracks@,
            0,
            Seq::new(16, |i: int| initial_context()),
            Seq::new(16, |i: int| Seq::<MdxCommand>::empty()),
        ) {
            Err(error) => Err(error),
            Ok((contexts, outputs)) => finish_tracks(contexts, outputs, track_count(document)),
        },
    }
}

/// Lowering only the lines on the channels of track `slot`, from the `k`-th on, after
/// `context` and `output`: the lines of other channels leave it as it is.
pub open spec fn lower_slot(
    tracks: Seq<MmlTrack>,
    slot: int,
    k: int,
    context: TrackContext,
    output: Seq<MdxCommand>,
) -> Result<(TrackContext, Seq<MdxCommand>), CompileError>
    decreases tracks.len() - k,
{
    if k < 0 || k >= tracks.len() {
        Ok((context, output))
    } else {
        match channel_index_spec(tracks[k].channel) {
            Err(error) => Err(error),
            Ok(index) => if index == slot {
                match lower_channel(tracks[k].commands@, context, saturating_len(output)) {
                    Err(error) => Err(error),
                    Ok((lowered, after)) => lower_slot(tracks, slot, k + 1, after, output + lowered),
                }
            } else {
                lower_slot(tracks, slot, k + 1, context, output)
            },
        }
    }
}

proof fn lemma_lower_tracks_slot(
    tracks: Seq<MmlTrack>,
    k: int,
    contexts: Seq<TrackContext>,
    outputs: Seq<Seq<MdxCommand>>,
    slot: int,
)
    requires
        0 <= k,
        contexts.len() == 16,
        outputs.len() == 16,
        0 <= slot < 16,
        lower_tracks(tracks, k, contexts, outputs) is Ok,
    ensures
        lower_tracks(tracks, k, contexts, outputs) matches Ok((after, written)) && after.len() == 16
            && written.len() == 16 && lower_slot(tracks, slot, k, contexts[slot], outputs[slot])
            == Ok::<(TrackContext, Seq<MdxCommand>), CompileError>((after[slot], written[slot])),
    decreases tracks.len() - k,
{
    if k < tracks.len() {
        let index = channel_index_spec(tracks[k].channel)->Ok_0;
        let (lowered, after) = lower_channel(
            tracks[k].commands@,
            contexts[index as int],
            saturating_len(outputs[index as int]),
        )->Ok_0;
        lemma_lower_tracks_slot(
            tracks,
            k + 1,
            contexts.update(index as int, after),
            outputs.update(index as int, outputs[index as int] + lowered),
            slot,
        );
    }
}

proof fn lemma_finish_tracks_slot(
    contexts: Seq<TrackContext>,
    outputs: Seq<Seq<MdxCommand>>,
    n: int,
    slot: int,
)
    requires
        0 <= slot < n,
        finish_tracks(contexts, outputs, n) is Ok,
    ensures
        end_of_track(contexts[slot], outputs[slot]) is Ok,
        finish_tracks(contexts, outputs, n)->Ok_0.len() == n,
        finish_tracks(contexts, outputs, n)->Ok_0[slot] == outputs[slot].push(
            end_of_track(contexts[slot], outputs[slot])->Ok_0,
        ),
    decreases n,
{
    if slot < n - 1 {
        lemma_finish_tracks_slot(contexts, outputs, n - 1, slot);
    } else if n - 1 > 0 {
        lemma_finish_tracks_len(contexts, outputs, n - 1);
    }
}

proof fn lemma_finish_tracks_len(contexts: Seq<TrackContext>, outputs: Seq<Seq<MdxCommand>>, n: int)
    requires
        0 <= n,
        finish_tracks(contexts, outputs, n) is Ok,
    ensures
        finish_tracks(contexts, outputs, n)->Ok_0.len() == n,
    decreases n,
{
    if n > 0 {
        lemma_finish_tracks_len(contexts, outputs, n - 1);
    }
}

/// Each channel's commands go to its own track: `A`..`H` to tracks 0 to 7 and `P`..`W` to
/// tracks 8 to 15 (`channel_index_spec`). A compiled document's track `slot` is what lowering,
/// in line order, only the lines whose channel maps to `slot` gives, then its end marker;
/// lines of other channels do not touch it.
pub proof fn lemma_channels_route_to_their_tracks(document: MmlDocument, slot: int)
    requires
        compiled_tracks(document) is Ok,
        0 <= slot < track_count(document),
    ensures
        lower_slot(document.tracks@, slot, 0, initial_context(), seq![]) matches Ok(
            (context, output),
        ) && end_of_track(context, output) matches Ok(end) && compiled_tracks(document)->Ok_0.len()
            == track_count(document) && compiled_tracks(document)->Ok_0[slot] == output.push(end),
{
    let contexts = Seq::new(16, |i: int| initial_context());
    let outputs = Seq::new(16, |i: int| Seq::<MdxCommand>::empty());
    lemma_lower_tracks_slot(document.tracks@, 0, contexts, outputs, slot);
    let (after, written) = lower_tracks(document.tracks@, 0, contexts, outputs)->Ok_0;
    lemma_finish_tracks_slot(after, written, track_count(document), slot);
}

/// A track with a loop point ends with a jump back to it: counted from the byte
/// after the three-byte end command, the jump lands on the loop point. The end
/// can be written when the jump spans at most 32768 bytes.
pub proof fn lemma_track_end_jumps_to_loop_point(
    context: TrackContext,
    commands: Seq<MdxCommand>,
)
    requires
        context.loop_start matches Some(start) && start <= commands_len(commands),
        commands_len(commands) <= 0x7fff_ffff,
    ensures
        end_of_track(context, commands) is Ok <==> commands_len(commands) + 3
            - context.loop_start->0 <= 32768,
        end_of_track(context, commands) matches Ok(end) ==> (end matches MdxCommand::EndOfTrackLoop(
            jump,
        ) && commands_len(commands) + 3 + jump.offset == context.loop_start->0),
{
}

/// A repeat ends with a jump back to its body: counted from the byte after the
/// three-byte loop end, the jump lands on the first byte of the body, right after
/// the three-byte loop start.
pub proof fn lemma_repeat_end_jumps_to_body(
    body: Seq<MmlCommand>,
    count: u16,
    index: int,
    consumed: int,
    context: TrackContext,
    base: int,
    output: Seq<MdxCommand>,
    last: LastNote,
)
    requires
        lower_repeat(body, count, index, consumed, context, base, output, last) is Ok,
        run(body, 0, context, saturating_add(base, saturating_len(output)), seq![], None) matches Ok(
            (lowered, _),
        ) && commands_len(lowered) <= 0x7fff_ffff,
    ensures
        lower_repeat(body, count, index, consumed, context, base, output, last) matches Ok(
            Some((_, _, repeated, _)),
        ) && repeated.last() matches MdxCommand::LoopEnd(jump) && commands_len(repeated)
            + jump.offset == commands_len(output) + 3,
{
    let lowered = run(body, 0, context, saturating_add(base, saturating_len(output)), seq![], None)->Ok_0.0;
    let body_length = saturating_len(lowered);
    let patched = patch_prefix(lowered, body_length, lowered.len() as int)->Ok_0;
    lemma_patched_length(lowered, body_length);
    let times = checked_u8_spec("repeat", count as int)->Ok_0;
    let back = checked_i16_spec("repeat", -clamp_i32(body_length) - 3)->Ok_0;
    let start = output.push(MdxCommand::LoopStart(MdxLoopStart { count: times, reserved: 0 }));
    let end = MdxCommand::LoopEnd(MdxRelativeOffset { opcode: 0xf5, offset: back });
    lemma_commands_len_push(output, MdxCommand::LoopStart(MdxLoopStart { count: times, reserved: 0 }));
    lemma_commands_len_concat(start, patched);
    lemma_commands_len_push(start + patched, end);
}

} // verus!
