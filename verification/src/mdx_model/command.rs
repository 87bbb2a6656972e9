//! Typed MDX track commands and their byte encoding.
use vstd::prelude::*;

use crate::text::{decimal, hex_min, push_decimal, push_hex_min, push_str};

verus! {

/// First opcode of the note range (`o0 d+`).
pub const FIRST_NOTE_OPCODE: u8 = 0x80;

/// Last opcode of the note range.
pub const LAST_NOTE_OPCODE: u8 = 0xdf;

/// A rest lasting `ticks` clock ticks (`0x00..=0x7f`, one byte).
#[derive(Clone, Copy, Debug, PartialEq, Eq, Structural)]
pub struct MdxRest {
    pub ticks: u16,
}

impl MdxRest {
    /// Build a rest when `ticks` fits into one rest command.
    pub fn new(ticks: u16) -> (r: Option<Self>)
        ensures
            r == (if 1 <= ticks <= 0x80 { Some(MdxRest { ticks }) } else { None::<MdxRest> }),
    {
        if 1 <= ticks && ticks <= 0x80 {
            Some(MdxRest { ticks })
        } else {
            None
        }
    }
}

/// A key-on of note opcode `note` lasting `length` ticks.
#[derive(Clone, Copy, Debug, PartialEq, Eq, Structural)]
pub struct MdxNote {
    pub note: u8,
    pub length: u16,
}

impl MdxNote {
    /// Build a note when the opcode is a note opcode and the length fits one byte.
    pub fn new(note: u8, length: u16) -> (r: Option<Self>)
        ensures
            r == (if FIRST_NOTE_OPCODE <= note <= LAST_NOTE_OPCODE && 1 <= length <= 0x100 {
                Some(MdxNote { note, length })
            } else {
                None::<MdxNote>
            }),
    {
        if FIRST_NOTE_OPCODE <= note && note <= LAST_NOTE_OPCODE && 1 <= length && length
            <= 0x100 {
            Some(MdxNote { note, length })
        } else {
            None
        }
    }
}

#[derive(Clone, Copy, Debug, PartialEq, Eq, Structural)]
pub struct MdxTempo {
    pub value: u8,
}

#[derive(Clone, Copy, Debug, PartialEq, Eq, Structural)]
pub struct MdxOpmRegisterWrite {
    pub register: u8,
    pub value: u8,
}

#[derive(Clone, Copy, Debug, PartialEq, Eq, Structural)]
pub struct MdxVoiceOrPcmBank {
    pub value: u8,
}

/// Stereo output selection.
#[derive(Clone, Copy, Debug, PartialEq, Eq, Structural)]
pub enum MdxPan {
    Off,
    Right,
    Left,
    Center,
}

/// The pan selected by the two low bits of a raw pan value.
pub open spec fn pan_from_raw(raw: u8) -> MdxPan {
    let bits = raw % 4;
    if bits == 0 {
        MdxPan::Off
    } else if bits == 1 {
        MdxPan::Right
    } else if bits == 2 {
        MdxPan::Left
    } else {
        MdxPan::Center
    }
}

/// The raw byte of a pan value.
pub open spec fn pan_raw(pan: MdxPan) -> u8 {
    match pan {
        MdxPan::Off => 0,
        MdxPan::Right => 1,
        MdxPan::Left => 2,
        MdxPan::Center => 3,
    }
}

impl MdxPan {
    pub fn from_raw(raw: u8) -> (p: Self)
        ensures
            p == pan_from_raw(raw),
    {
        let bits = raw % 4;
        if bits == 0 {
            MdxPan::Off
        } else if bits == 1 {
            MdxPan::Right
        } else if bits == 2 {
            MdxPan::Left
        } else {
            MdxPan::Center
        }
    }
}

#[derive(Clone, Copy, Debug, PartialEq, Eq, Structural)]
pub struct MdxVolume {
    pub value: u8,
}

#[derive(Clone, Copy, Debug, PartialEq, Eq, Structural)]
pub struct MdxVolumeDown;

#[derive(Clone, Copy, Debug, PartialEq, Eq, Structural)]
pub struct MdxVolumeUp;

#[derive(Clone, Copy, Debug, PartialEq, Eq, Structural)]
pub struct MdxGate {
    pub value: u8,
}

#[derive(Clone, Copy, Debug, PartialEq, Eq, Structural)]
pub struct MdxKeyOffDisable;

#[derive(Clone, Copy, Debug, PartialEq, Eq, Structural)]
pub struct MdxLoopStart {
    pub count: u8,
    pub reserved: u8,
}

/// A jump whose target is `offset` bytes after the end of the command.
#[derive(Clone, Copy, Debug, PartialEq, Eq, Structural)]
pub struct MdxRelativeOffset {
    pub opcode: u8,
    pub offset: i16,
}

#[derive(Clone, Copy, Debug, PartialEq, Eq, Structural)]
pub struct MdxSignedWord {
    pub opcode: u8,
    pub offset: i16,
}

#[derive(Clone, Copy, Debug, PartialEq, Eq, Structural)]
pub struct MdxEndOfTrack;

#[derive(Clone, Copy, Debug, PartialEq, Eq, Structural)]
pub struct MdxKeyOnDelay {
    pub value: u8,
}

#[derive(Clone, Copy, Debug, PartialEq, Eq, Structural)]
pub struct MdxSyncSend {
    pub value: u8,
}

#[derive(Clone, Copy, Debug, PartialEq, Eq, Structural)]
pub struct MdxSyncWait;

#[derive(Clone, Copy, Debug, PartialEq, Eq, Structural)]
pub struct MdxAdpcmOrNoiseFrequency {
    pub value: u8,
}

/// Software LFO waveform.
#[derive(Clone, Copy, Debug, PartialEq, Eq, Structural)]
pub enum MdxLfoWaveform {
    Sawtooth,
    Square,
    Triangle,
    Other(u8),
}

pub open spec fn waveform_from_raw(raw: u8) -> MdxLfoWaveform {
    if raw == 0 {
        MdxLfoWaveform::Sawtooth
    } else if raw == 1 {
        MdxLfoWaveform::Square
    } else if raw == 2 {
        MdxLfoWaveform::Triangle
    } else {
        MdxLfoWaveform::Other(raw)
    }
}

pub open spec fn waveform_raw(waveform: MdxLfoWaveform) -> u8 {
    match waveform {
        MdxLfoWaveform::Sawtooth => 0,
        MdxLfoWaveform::Square => 1,
        MdxLfoWaveform::Triangle => 2,
        MdxLfoWaveform::Other(raw) => raw,
    }
}

impl MdxLfoWaveform {
    pub fn from_raw(raw: u8) -> (w: Self)
        ensures
            w == waveform_from_raw(raw),
    {
        if raw == 0 {
            MdxLfoWaveform::Sawtooth
        } else if raw == 1 {
            MdxLfoWaveform::Square
        } else if raw == 2 {
            MdxLfoWaveform::Triangle
        } else {
            MdxLfoWaveform::Other(raw)
        }
    }
}

#[derive(Clone, Copy, Debug, PartialEq, Eq, Structural)]
pub enum MdxPitchLfo {
    Configure { waveform: MdxLfoWaveform, frequency: u16, amplitude: i16 },
    SetEnabled { enabled: bool },
}

#[derive(Clone, Copy, Debug, PartialEq, Eq, Structural)]
pub enum MdxVolumeLfo {
    Configure { waveform: MdxLfoWaveform, frequency: u16, amplitude: u16 },
    SetEnabled { enabled: bool },
}

#[derive(Clone, Copy, Debug, PartialEq, Eq, Structural)]
pub enum MdxOpmLfo {
    Configure { control: u8, lfrq: u8, pmd: u8, amd: u8, pms_ams: u8 },
    SetEnabled { enabled: bool },
}

#[derive(Clone, Copy, Debug, PartialEq, Eq, Structural)]
pub struct MdxLfoDelay {
    pub value: u8,
}

/// One MDX track command.
#[derive(Clone, Copy, Debug, PartialEq, Eq, Structural)]
pub enum MdxCommand {
    Rest(MdxRest),
    Note(MdxNote),
    Tempo(MdxTempo),
    OpmRegisterWrite(MdxOpmRegisterWrite),
    VoiceOrPcmBank(MdxVoiceOrPcmBank),
    Pan(MdxPan),
    Volume(MdxVolume),
    VolumeDown(MdxVolumeDown),
    VolumeUp(MdxVolumeUp),
    Gate(MdxGate),
    KeyOffDisable(MdxKeyOffDisable),
    LoopStart(MdxLoopStart),
    LoopEnd(MdxRelativeOffset),
    LoopEscape(MdxRelativeOffset),
    Detune(MdxSignedWord),
    Portamento(MdxSignedWord),
    EndOfTrack(MdxEndOfTrack),
    EndOfTrackLoop(MdxRelativeOffset),
    KeyOnDelay(MdxKeyOnDelay),
    SyncSend(MdxSyncSend),
    SyncWait(MdxSyncWait),
    AdpcmOrNoiseFrequency(MdxAdpcmOrNoiseFrequency),
    PitchLfo(MdxPitchLfo),
    VolumeLfo(MdxVolumeLfo),
    OpmLfo(MdxOpmLfo),
    LfoDelay(MdxLfoDelay),
}

/// The 16-bit two's-complement bit pattern of a signed word.
pub open spec fn i16_bits(value: i16) -> int {
    if value < 0 {
        value + 65536
    } else {
        value as int
    }
}

/// The signed word read back from a 16-bit bit pattern.
pub open spec fn i16_from_bits(bits: int) -> int {
    if bits >= 32768 {
        bits - 65536
    } else {
        bits
    }
}

/// Big-endian bytes of a 16-bit unsigned value.
pub open spec fn be16(value: int) -> Seq<u8> {
    seq![(value / 256) as u8, (value % 256) as u8]
}

/// The bytes a command encodes to.
pub open spec fn command_bytes(command: MdxCommand) -> Seq<u8> {
    match command {
        MdxCommand::Rest(rest) => seq![((rest.ticks + 255) % 256) as u8],
        MdxCommand::Note(note) => seq![note.note, ((note.length + 255) % 256) as u8],
        MdxCommand::Tempo(tempo) => seq![0xffu8, tempo.value],
        MdxCommand::OpmRegisterWrite(write) => seq![0xfeu8, write.register, write.value],
        MdxCommand::VoiceOrPcmBank(voice) => seq![0xfdu8, voice.value],
        MdxCommand::Pan(pan) => seq![0xfcu8, pan_raw(pan)],
        MdxCommand::Volume(volume) => seq![0xfbu8, volume.value],
        MdxCommand::VolumeDown(_) => seq![0xfau8],
        MdxCommand::VolumeUp(_) => seq![0xf9u8],
        MdxCommand::Gate(gate) => seq![0xf8u8, gate.value],
        MdxCommand::KeyOffDisable(_) => seq![0xf7u8],
        MdxCommand::LoopStart(start) => seq![0xf6u8, start.count, start.reserved],
        MdxCommand::LoopEnd(jump) => seq![0xf5u8] + be16(i16_bits(jump.offset)),
        MdxCommand::LoopEscape(jump) => seq![0xf4u8] + be16(i16_bits(jump.offset)),
        MdxCommand::Detune(word) => seq![0xf3u8] + be16(i16_bits(word.offset)),
        MdxCommand::Portamento(word) => seq![0xf2u8] + be16(i16_bits(word.offset)),
        MdxCommand::EndOfTrack(_) => seq![0xf1u8, 0x00u8],
        MdxCommand::EndOfTrackLoop(jump) => seq![0xf1u8] + be16(i16_bits(jump.offset)),
        MdxCommand::KeyOnDelay(delay) => seq![0xf0u8, delay.value],
        MdxCommand::SyncSend(sync) => seq![0xefu8, sync.value],
        MdxCommand::SyncWait(_) => seq![0xeeu8],
        MdxCommand::AdpcmOrNoiseFrequency(frequency) => seq![0xedu8, frequency.value],
        MdxCommand::PitchLfo(lfo) => match lfo {
            MdxPitchLfo::Configure { waveform, frequency, amplitude } => seq![
                0xecu8,
                waveform_raw(waveform),
            ] + be16(frequency as int) + be16(i16_bits(amplitude)),
            MdxPitchLfo::SetEnabled { enabled } => seq![
                0xecu8,
                if enabled { 0x81u8 } else { 0x80u8 },
            ],
        },
        MdxCommand::VolumeLfo(lfo) => match lfo {
            MdxVolumeLfo::Configure { waveform, frequency, amplitude } => seq![
                0xebu8,
                waveform_raw(waveform),
            ] + be16(frequency as int) + be16(amplitude as int),
            MdxVolumeLfo::SetEnabled { enabled } => seq![
                0xebu8,
                if enabled { 0x81u8 } else { 0x80u8 },
            ],
        },
        MdxCommand::OpmLfo(lfo) => match lfo {
            MdxOpmLfo::Configure { control, lfrq, pmd, amd, pms_ams } => seq![
                0xeau8,
                control,
                lfrq,
                pmd,
                amd,
                pms_ams,
            ],
            MdxOpmLfo::SetEnabled { enabled } => seq![
                0xeau8,
                if enabled { 0x81u8 } else { 0x80u8 },
            ],
        },
        MdxCommand::LfoDelay(delay) => seq![0xe9u8, delay.value],
    }
}

/// The number of bytes a command encodes to.
pub open spec fn command_len(command: MdxCommand) -> nat {
    match command {
        MdxCommand::Rest(_) | MdxCommand::VolumeDown(_) | MdxCommand::VolumeUp(_)
        | MdxCommand::KeyOffDisable(_) | MdxCommand::SyncWait(_) => 1,
        MdxCommand::OpmRegisterWrite(_) | MdxCommand::LoopStart(_) | MdxCommand::LoopEnd(_)
        | MdxCommand::LoopEscape(_) | MdxCommand::Detune(_) | MdxCommand::Portamento(_)
        | MdxCommand::EndOfTrackLoop(_) => 3,
        MdxCommand::PitchLfo(MdxPitchLfo::Configure { .. }) | MdxCommand::VolumeLfo(
            MdxVolumeLfo::Configure { .. },
        ) | MdxCommand::OpmLfo(MdxOpmLfo::Configure { .. }) => 6,
        _ => 2,
    }
}

/// Commands whose encoding reads back as the same command.
///
/// Jump commands must carry their own opcode, note and rest lengths must fit
/// their one-byte encodings, LFO configuration bytes must not collide with the
/// enable/disable markers, and a looping end of track must not collide with
/// the plain end-of-track marker `f1 00`.
pub open spec fn wf_command(command: MdxCommand) -> bool {
    match command {
        MdxCommand::Rest(rest) => 1 <= rest.ticks <= 0x80,
        MdxCommand::Note(note) => FIRST_NOTE_OPCODE <= note.note <= LAST_NOTE_OPCODE && 1
            <= note.length <= 0x100,
        MdxCommand::LoopEnd(jump) => jump.opcode == 0xf5,
        MdxCommand::LoopEscape(jump) => jump.opcode == 0xf4,
        MdxCommand::Detune(word) => word.opcode == 0xf3,
        MdxCommand::Portamento(word) => word.opcode == 0xf2,
        MdxCommand::EndOfTrackLoop(jump) => jump.opcode == 0xf1 && (jump.offset < 0
            || jump.offset >= 256),
        MdxCommand::PitchLfo(MdxPitchLfo::Configure { waveform, .. }) => waveform_raw(waveform)
            < 0x80 && waveform == waveform_from_raw(waveform_raw(waveform)),
        MdxCommand::VolumeLfo(MdxVolumeLfo::Configure { waveform, .. }) => waveform_raw(
            waveform,
        ) < 0x80 && waveform == waveform_from_raw(waveform_raw(waveform)),
        MdxCommand::OpmLfo(MdxOpmLfo::Configure { control, .. }) => control < 0x80,
        _ => true,
    }
}

/// Total encoded length of a command sequence.
pub open spec fn commands_len(commands: Seq<MdxCommand>) -> nat
    decreases commands.len(),
{
    if commands.len() == 0 {
        0
    } else {
        commands_len(commands.drop_last()) + command_len(commands.last())
    }
}

/// Concatenated encoding of a command sequence.
pub open spec fn commands_bytes(commands: Seq<MdxCommand>) -> Seq<u8>
    decreases commands.len(),
{
    if commands.len() == 0 {
        seq![]
    } else {
        commands_bytes(commands.drop_last()) + command_bytes(commands.last())
    }
}

/// The encoded length of a command agrees with its encoding.
pub proof fn lemma_command_len(command: MdxCommand)
    ensures
        command_bytes(command).len() == command_len(command),
{
}

/// The encoded length of a sequence agrees with its encoding.
pub proof fn lemma_commands_len(commands: Seq<MdxCommand>)
    ensures
        commands_bytes(commands).len() == commands_len(commands),
    decreases commands.len(),
{
    if commands.len() > 0 {
        lemma_commands_len(commands.drop_last());
        lemma_command_len(commands.last());
    }
}

/// Appending a command appends its length.
pub proof fn lemma_commands_len_push(commands: Seq<MdxCommand>, command: MdxCommand)
    ensures
        commands_len(commands.push(command)) == commands_len(commands) + command_len(command),
{
    assert(commands.push(command).drop_last() =~= commands);
}

/// Lengths add over concatenation.
pub proof fn lemma_commands_len_concat(a: Seq<MdxCommand>, b: Seq<MdxCommand>)
    ensures
        commands_len(a + b) == commands_len(a) + commands_len(b),
    decreases b.len(),
{
    if b.len() == 0 {
        assert(a + b =~= a);
    } else {
        lemma_commands_len_concat(a, b.drop_last());
        assert((a + b).drop_last() =~= a + b.drop_last());
    }
}

/// Exec helper: big-endian bytes of a signed word.
fn push_i16(out: &mut Vec<u8>, value: i16)
    ensures
        final(out)@ == old(out)@ + be16(i16_bits(value)),
{
    let bits: u32 = if value < 0 {
        (value as i32 + 65536) as u32
    } else {
        value as u32
    };
    out.push((bits / 256) as u8);
    out.push((bits % 256) as u8);
    assert(final(out)@ =~= old(out)@ + be16(i16_bits(value)));
}

/// Exec helper: big-endian bytes of an unsigned word.
fn push_u16(out: &mut Vec<u8>, value: u16)
    ensures
        final(out)@ == old(out)@ + be16(value as int),
{
    out.push((value / 256) as u8);
    out.push((value % 256) as u8);
    assert(final(out)@ =~= old(out)@ + be16(value as int));
}

fn enable_byte(enabled: bool) -> (b: u8)
    ensures
        b == (if enabled { 0x81u8 } else { 0x80u8 }),
{
    if enabled {
        0x81
    } else {
        0x80
    }
}

impl MdxCommand {
    /// The number of bytes this command encodes to.
    pub fn byte_len(&self) -> (n: usize)
        ensures
            n == command_len(*self),
    {
        match self {
            MdxCommand::Rest(_) | MdxCommand::VolumeDown(_) | MdxCommand::VolumeUp(_)
            | MdxCommand::KeyOffDisable(_) | MdxCommand::SyncWait(_) => 1,
            MdxCommand::OpmRegisterWrite(_) | MdxCommand::LoopStart(_) | MdxCommand::LoopEnd(_)
            | MdxCommand::LoopEscape(_) | MdxCommand::Detune(_) | MdxCommand::Portamento(_)
            | MdxCommand::EndOfTrackLoop(_) => 3,
            MdxCommand::PitchLfo(MdxPitchLfo::Configure { .. }) | MdxCommand::VolumeLfo(
                MdxVolumeLfo::Configure { .. },
            ) | MdxCommand::OpmLfo(MdxOpmLfo::Configure { .. }) => 6,
            _ => 2,
        }
    }

    /// Append this command's encoding to `out`.
    pub fn write_bytes(&self, out: &mut Vec<u8>)
        ensures
            final(out)@ == old(out)@ + command_bytes(*self),
    {
        match self {
            MdxCommand::Rest(rest) => {
                out.push(((rest.ticks as u32 + 255) % 256) as u8);
            },
            MdxCommand::Note(note) => {
                out.push(note.note);
                out.push(((note.length as u32 + 255) % 256) as u8);
            },
            MdxCommand::Tempo(tempo) => {
                out.push(0xff);
                out.push(tempo.value);
            },
            MdxCommand::OpmRegisterWrite(write) => {
                out.push(0xfe);
                out.push(write.register);
                out.push(write.value);
            },
            MdxCommand::VoiceOrPcmBank(voice) => {
                out.push(0xfd);
                out.push(voice.value);
            },
            MdxCommand::Pan(pan) => {
                out.push(0xfc);
                let raw: u8 = match pan {
                    MdxPan::Off => 0,
                    MdxPan::Right => 1,
                    MdxPan::Left => 2,
                    MdxPan::Center => 3,
                };
                out.push(raw);
            },
            MdxCommand::Volume(volume) => {
                out.push(0xfb);
                out.push(volume.value);
            },
            MdxCommand::VolumeDown(_) => {
                out.push(0xfa);
            },
            MdxCommand::VolumeUp(_) => {
                out.push(0xf9);
            },
            MdxCommand::Gate(gate) => {
                out.push(0xf8);
                out.push(gate.value);
            },
            MdxCommand::KeyOffDisable(_) => {
                out.push(0xf7);
            },
            MdxCommand::LoopStart(start) => {
                out.push(0xf6);
                out.push(start.count);
                out.push(start.reserved);
            },
            MdxCommand::LoopEnd(jump) => {
                out.push(0xf5);
                push_i16(out, jump.offset);
            },
            MdxCommand::LoopEscape(jump) => {
                out.push(0xf4);
                push_i16(out, jump.offset);
            },
            MdxCommand::Detune(word) => {
                out.push(0xf3);
                push_i16(out, word.offset);
            },
            MdxCommand::Portamento(word) => {
                out.push(0xf2);
                push_i16(out, word.offset);
            },
            MdxCommand::EndOfTrack(_) => {
                out.push(0xf1);
                out.push(0x00);
            },
            MdxCommand::EndOfTrackLoop(jump) => {
                out.push(0xf1);
                push_i16(out, jump.offset);
            },
            MdxCommand::KeyOnDelay(delay) => {
                out.push(0xf0);
                out.push(delay.value);
            },
            MdxCommand::SyncSend(sync) => {
                out.push(0xef);
                out.push(sync.value);
            },
            MdxCommand::SyncWait(_) => {
                out.push(0xee);
            },
            MdxCommand::AdpcmOrNoiseFrequency(frequency) => {
                out.push(0xed);
                out.push(frequency.value);
            },
            MdxCommand::PitchLfo(lfo) => {
                out.push(0xec);
                match lfo {
                    MdxPitchLfo::Configure { waveform, frequency, amplitude } => {
                        out.push(waveform_byte(*waveform));
                        push_u16(out, *frequency);
                        push_i16(out, *amplitude);
                    },
                    MdxPitchLfo::SetEnabled { enabled } => {
                        out.push(enable_byte(*enabled));
                    },
                }
            },
            MdxCommand::VolumeLfo(lfo) => {
                out.push(0xeb);
                match lfo {
                    MdxVolumeLfo::Configure { waveform, frequency, amplitude } => {
                        out.push(waveform_byte(*waveform));
                        push_u16(out, *frequency);
                        push_u16(out, *amplitude);
                    },
                    MdxVolumeLfo::SetEnabled { enabled } => {
                        out.push(enable_byte(*enabled));
                    },
                }
            },
            MdxCommand::OpmLfo(lfo) => {
                out.push(0xea);
                match lfo {
                    MdxOpmLfo::Configure { control, lfrq, pmd, amd, pms_ams } => {
                        out.push(*control);
                        out.push(*lfrq);
                        out.push(*pmd);
                        out.push(*amd);
                        out.push(*pms_ams);
                    },
                    MdxOpmLfo::SetEnabled { enabled } => {
                        out.push(enable_byte(*enabled));
                    },
                }
            },
            MdxCommand::LfoDelay(delay) => {
                out.push(0xe9);
                out.push(delay.value);
            },
        }
        assert(final(out)@ =~= old(out)@ + command_bytes(*self));
    }

    /// The encoding of this command.
    pub fn to_mdx_bytes(&self) -> (bytes: Vec<u8>)
        ensures
            bytes@ == command_bytes(*self),
    {
        let mut bytes = Vec::new();
        self.write_bytes(&mut bytes);
        assert(bytes@ =~= command_bytes(*self));
        bytes
    }
}

fn waveform_byte(waveform: MdxLfoWaveform) -> (b: u8)
    ensures
        b == waveform_raw(waveform),
{
    match waveform {
        MdxLfoWaveform::Sawtooth => 0,
        MdxLfoWaveform::Square => 1,
        MdxLfoWaveform::Triangle => 2,
        MdxLfoWaveform::Other(raw) => raw,
    }
}

/// Why a command could not be read.
#[derive(Clone, Copy, Debug, PartialEq, Eq, Structural)]
pub enum MdxDecodeError {
    /// The command runs past the end of the data.
    UnexpectedEnd { position: usize },
    /// The byte at `position` is not a command this model knows.
    UnknownOpcode { position: usize, opcode: u8 },
    /// A pan command carries a value above 3.
    InvalidPan { position: usize, value: u8 },
}

impl MdxDecodeError {
    /// The human-readable description of this error.
    pub fn message(&self) -> (text: String)
        ensures
            text@ == match *self {
                MdxDecodeError::UnexpectedEnd { position } => "command at 0x"@ + hex_min(
                    position as nat,
                    6,
                ) + " runs past the end of the data"@,
                MdxDecodeError::UnknownOpcode { position, opcode } => "unknown opcode 0x"@
                    + hex_min(opcode as nat, 2) + " at 0x"@ + hex_min(position as nat, 6),
                MdxDecodeError::InvalidPan { position, value } => "pan value "@ + decimal(
                    value as nat,
                ) + " at 0x"@ + hex_min(position as nat, 6) + " is above 3"@,
            },
    {
        let mut text = String::new();
        match self {
            MdxDecodeError::UnexpectedEnd { position } => {
                push_str(&mut text, "command at 0x");
                push_hex_min(&mut text, *position as u64, 6);
                push_str(&mut text, " runs past the end of the data");
            },
            MdxDecodeError::UnknownOpcode { position, opcode } => {
                push_str(&mut text, "unknown opcode 0x");
                push_hex_min(&mut text, *opcode as u64, 2);
                push_str(&mut text, " at 0x");
                push_hex_min(&mut text, *position as u64, 6);
            },
            MdxDecodeError::InvalidPan { position, value } => {
                push_str(&mut text, "pan value ");
                push_decimal(&mut text, *value as u64);
                push_str(&mut text, " at 0x");
                push_hex_min(&mut text, *position as u64, 6);
                push_str(&mut text, " is above 3");
            },
        }
        text
    }
}

/// Read a big-endian unsigned word.
pub open spec fn read_be16(bytes: Seq<u8>, at: int) -> int {
    bytes[at] * 256 + bytes[at + 1]
}

/// Read a big-endian signed word.
pub open spec fn read_i16(bytes: Seq<u8>, at: int) -> i16 {
    i16_from_bits(read_be16(bytes, at)) as i16
}

/// The number of bytes the command starting with `opcode` and followed by
/// `next` occupies, or 0 for an opcode this model does not know.
pub open spec fn encoded_len_for(opcode: u8, next: u8) -> nat {
    if opcode < 0x80 {
        1
    } else if opcode <= 0xdf {
        2
    } else if opcode == 0xfa || opcode == 0xf9 || opcode == 0xf7 || opcode == 0xee {
        1
    } else if opcode == 0xfe || opcode == 0xf6 || opcode == 0xf5 || opcode == 0xf4 || opcode
        == 0xf3 || opcode == 0xf2 {
        3
    } else if opcode == 0xf1 {
        if next == 0 {
            2
        } else {
            3
        }
    } else if opcode == 0xec || opcode == 0xeb || opcode == 0xea {
        if next == 0x80 || next == 0x81 {
            2
        } else {
            6
        }
    } else if opcode == 0xff || opcode == 0xfd || opcode == 0xfc || opcode == 0xfb || opcode
        == 0xf8 || opcode == 0xf0 || opcode == 0xef || opcode == 0xed || opcode == 0xe9 {
        2
    } else {
        0
    }
}

/// The command encoded in `bytes` at `at`, assuming its bytes are present.
pub open spec fn decode_at(bytes: Seq<u8>, at: int) -> MdxCommand {
    let opcode = bytes[at];
    if opcode < 0x80 {
        MdxCommand::Rest(MdxRest { ticks: (opcode + 1) as u16 })
    } else if opcode <= 0xdf {
        MdxCommand::Note(MdxNote { note: opcode, length: (bytes[at + 1] + 1) as u16 })
    } else if opcode == 0xff {
        MdxCommand::Tempo(MdxTempo { value: bytes[at + 1] })
    } else if opcode == 0xfe {
        MdxCommand::OpmRegisterWrite(
            MdxOpmRegisterWrite { register: bytes[at + 1], value: bytes[at + 2] },
        )
    } else if opcode == 0xfd {
        MdxCommand::VoiceOrPcmBank(MdxVoiceOrPcmBank { value: bytes[at + 1] })
    } else if opcode == 0xfc {
        MdxCommand::Pan(pan_from_raw(bytes[at + 1]))
    } else if opcode == 0xfb {
        MdxCommand::Volume(MdxVolume { value: bytes[at + 1] })
    } else if opcode == 0xfa {
        MdxCommand::VolumeDown(MdxVolumeDown)
    } else if opcode == 0xf9 {
        MdxCommand::VolumeUp(MdxVolumeUp)
    } else if opcode == 0xf8 {
        MdxCommand::Gate(MdxGate { value: bytes[at + 1] })
    } else if opcode == 0xf7 {
        MdxCommand::KeyOffDisable(MdxKeyOffDisable)
    } else if opcode == 0xf6 {
        MdxCommand::LoopStart(MdxLoopStart { count: bytes[at + 1], reserved: bytes[at + 2] })
    } else if opcode == 0xf5 {
        MdxCommand::LoopEnd(MdxRelativeOffset { opcode: 0xf5, offset: read_i16(bytes, at + 1) })
    } else if opcode == 0xf4 {
        MdxCommand::LoopEscape(MdxRelativeOffset { opcode: 0xf4, offset: read_i16(bytes, at + 1) })
    } else if opcode == 0xf3 {
        MdxCommand::Detune(MdxSignedWord { opcode: 0xf3, offset: read_i16(bytes, at + 1) })
    } else if opcode == 0xf2 {
        MdxCommand::Portamento(MdxSignedWord { opcode: 0xf2, offset: read_i16(bytes, at + 1) })
    } else if opcode == 0xf1 {
        if bytes[at + 1] == 0 {
            MdxCommand::EndOfTrack(MdxEndOfTrack)
        } else {
            MdxCommand::EndOfTrackLoop(
                MdxRelativeOffset { opcode: 0xf1, offset: read_i16(bytes, at + 1) },
            )
        }
    } else if opcode == 0xf0 {
        MdxCommand::KeyOnDelay(MdxKeyOnDelay { value: bytes[at + 1] })
    } else if opcode == 0xef {
        MdxCommand::SyncSend(MdxSyncSend { value: bytes[at + 1] })
    } else if opcode == 0xee {
        MdxCommand::SyncWait(MdxSyncWait)
    } else if opcode == 0xed {
        MdxCommand::AdpcmOrNoiseFrequency(MdxAdpcmOrNoiseFrequency { value: bytes[at + 1] })
    } else if opcode == 0xec {
        if bytes[at + 1] == 0x80 || bytes[at + 1] == 0x81 {
            MdxCommand::PitchLfo(MdxPitchLfo::SetEnabled { enabled: bytes[at + 1] == 0x81 })
        } else {
            MdxCommand::PitchLfo(
                MdxPitchLfo::Configure {
                    waveform: waveform_from_raw(bytes[at + 1]),
                    frequency: read_be16(bytes, at + 2) as u16,
                    amplitude: read_i16(bytes, at + 4),
                },
            )
        }
    } else if opcode == 0xeb {
        if bytes[at + 1] == 0x80 || bytes[at + 1] == 0x81 {
            MdxCommand::VolumeLfo(MdxVolumeLfo::SetEnabled { enabled: bytes[at + 1] == 0x81 })
        } else {
            MdxCommand::VolumeLfo(
                MdxVolumeLfo::Configure {
                    waveform: waveform_from_raw(bytes[at + 1]),
                    frequency: read_be16(bytes, at + 2) as u16,
                    amplitude: read_be16(bytes, at + 4) as u16,
                },
            )
        }
    } else if opcode == 0xea {
        if bytes[at + 1] == 0x80 || bytes[at + 1] == 0x81 {
            MdxCommand::OpmLfo(MdxOpmLfo::SetEnabled { enabled: bytes[at + 1] == 0x81 })
        } else {
            MdxCommand::OpmLfo(
                MdxOpmLfo::Configure {
                    control: bytes[at + 1],
                    lfrq: bytes[at + 2],
                    pmd: bytes[at + 3],
                    amd: bytes[at + 4],
                    pms_ams: bytes[at + 5],
                },
            )
        }
    } else {
        MdxCommand::LfoDelay(MdxLfoDelay { value: bytes[at + 1] })
    }
}

/// The result of reading one command from `bytes` at `at`.
pub open spec fn decode_command(bytes: Seq<u8>, at: int) -> Result<
    (MdxCommand, nat),
    MdxDecodeError,
> {
    if at < 0 || at >= bytes.len() {
        Err(MdxDecodeError::UnexpectedEnd { position: at as usize })
    } else {
        let opcode = bytes[at];
        let next = if at + 1 < bytes.len() {
            bytes[at + 1]
        } else {
            0u8
        };
        let len = encoded_len_for(opcode, next);
        if len == 0 {
            Err(MdxDecodeError::UnknownOpcode { position: at as usize, opcode })
        } else if at + len > bytes.len() {
            Err(MdxDecodeError::UnexpectedEnd { position: at as usize })
        } else if opcode == 0xfc && bytes[at + 1] > 3 {
            Err(MdxDecodeError::InvalidPan { position: at as usize, value: bytes[at + 1] })
        } else {
            Ok((decode_at(bytes, at), len))
        }
    }
}

fn read_i16_exec(bytes: &[u8], at: usize) -> (v: i16)
    requires
        at + 1 < bytes@.len(),
    ensures
        v == read_i16(bytes@, at as int),
{
    let bits: u32 = bytes[at] as u32 * 256 + bytes[at + 1] as u32;
    if bits >= 32768 {
        (bits as i32 - 65536) as i16
    } else {
        bits as i16
    }
}

fn read_u16_exec(bytes: &[u8], at: usize) -> (v: u16)
    requires
        at + 1 < bytes@.len(),
    ensures
        v == read_be16(bytes@, at as int),
{
    bytes[at] as u16 * 256 + bytes[at + 1] as u16
}

/// Read the command that starts at `position`, returning it with its length.
pub fn parse_mdx_command(bytes: &[u8], position: usize) -> (r: Result<
    (MdxCommand, usize),
    MdxDecodeError,
>)
    ensures
        match r {
            Ok((command, len)) => decode_command(bytes@, position as int) == Ok::<
                (MdxCommand, nat),
                MdxDecodeError,
            >((command, len as nat)),
            Err(error) => decode_command(bytes@, position as int) == Err::<
                (MdxCommand, nat),
                MdxDecodeError,
            >(error),
        },
{
    if position >= bytes.len() {
        return Err(MdxDecodeError::UnexpectedEnd { position });
    }
    let opcode = bytes[position];
    let next: u8 = if position + 1 < bytes.len() {
        bytes[position + 1]
    } else {
        0
    };
    let len: usize = if opcode < 0x80 {
        1
    } else if opcode <= 0xdf {
        2
    } else if opcode == 0xfa || opcode == 0xf9 || opcode == 0xf7 || opcode == 0xee {
        1
    } else if opcode == 0xfe || opcode == 0xf6 || opcode == 0xf5 || opcode == 0xf4 || opcode
        == 0xf3 || opcode == 0xf2 {
        3
    } else if opcode == 0xf1 {
        if next == 0 {
            2
        } else {
            3
        }
    } else if opcode == 0xec || opcode == 0xeb || opcode == 0xea {
        if next == 0x80 || next == 0x81 {
            2
        } else {
            6
        }
    } else if opcode == 0xff || opcode == 0xfd || opcode == 0xfc || opcode == 0xfb || opcode
        == 0xf8 || opcode == 0xf0 || opcode == 0xef || opcode == 0xed || opcode == 0xe9 {
        2
    } else {
        0
    };
    if len == 0 {
        return Err(MdxDecodeError::UnknownOpcode { position, opcode });
    }
    if len > bytes.len() - position {
        return Err(MdxDecodeError::UnexpectedEnd { position });
    }
    let at = position;
    if opcode == 0xfc && bytes[at + 1] > 3 {
        return Err(MdxDecodeError::InvalidPan { position, value: bytes[at + 1] });
    }
    let command = if opcode < 0x80 {
        MdxCommand::Rest(MdxRest { ticks: opcode as u16 + 1 })
    } else if opcode <= 0xdf {
        MdxCommand::Note(MdxNote { note: opcode, length: bytes[at + 1] as u16 + 1 })
    } else if opcode == 0xff {
        MdxCommand::Tempo(MdxTempo { value: bytes[at + 1] })
    } else if opcode == 0xfe {
        MdxCommand::OpmRegisterWrite(
            MdxOpmRegisterWrite { register: bytes[at + 1], value: bytes[at + 2] },
        )
    } else if opcode == 0xfd {
        MdxCommand::VoiceOrPcmBank(MdxVoiceOrPcmBank { value: bytes[at + 1] })
    } else if opcode == 0xfc {
        MdxCommand::Pan(MdxPan::from_raw(bytes[at + 1]))
    } else if opcode == 0xfb {
        MdxCommand::Volume(MdxVolume { value: bytes[at + 1] })
    } else if opcode == 0xfa {
        MdxCommand::VolumeDown(MdxVolumeDown)
    } else if opcode == 0xf9 {
        MdxCommand::VolumeUp(MdxVolumeUp)
    } else if opcode == 0xf8 {
        MdxCommand::Gate(MdxGate { value: bytes[at + 1] })
    } else if opcode == 0xf7 {
        MdxCommand::KeyOffDisable(MdxKeyOffDisable)
    } else if opcode == 0xf6 {
        MdxCommand::LoopStart(MdxLoopStart { count: bytes[at + 1], reserved: bytes[at + 2] })
    } else if opcode == 0xf5 {
        MdxCommand::LoopEnd(MdxRelativeOffset { opcode: 0xf5, offset: read_i16_exec(bytes, at + 1) })
    } else if opcode == 0xf4 {
        MdxCommand::LoopEscape(
            MdxRelativeOffset { opcode: 0xf4, offset: read_i16_exec(bytes, at + 1) },
        )
    } else if opcode == 0xf3 {
        MdxCommand::Detune(MdxSignedWord { opcode: 0xf3, offset: read_i16_exec(bytes, at + 1) })
    } else if opcode == 0xf2 {
        MdxCommand::Portamento(MdxSignedWord { opcode: 0xf2, offset: read_i16_exec(bytes, at + 1) })
    } else if opcode == 0xf1 {
        if bytes[at + 1] == 0 {
            MdxCommand::EndOfTrack(MdxEndOfTrack)
        } else {
            MdxCommand::EndOfTrackLoop(
                MdxRelativeOffset { opcode: 0xf1, offset: read_i16_exec(bytes, at + 1) },
            )
        }
    } else if opcode == 0xf0 {
        MdxCommand::KeyOnDelay(MdxKeyOnDelay { value: bytes[at + 1] })
    } else if opcode == 0xef {
        MdxCommand::SyncSend(MdxSyncSend { value: bytes[at + 1] })
    } else if opcode == 0xee {
        MdxCommand::SyncWait(MdxSyncWait)
    } else if opcode == 0xed {
        MdxCommand::AdpcmOrNoiseFrequency(MdxAdpcmOrNoiseFrequency { value: bytes[at + 1] })
    } else if opcode == 0xec {
        if bytes[at + 1] == 0x80 || bytes[at + 1] == 0x81 {
            MdxCommand::PitchLfo(MdxPitchLfo::SetEnabled { enabled: bytes[at + 1] == 0x81 })
        } else {
            MdxCommand::PitchLfo(
                MdxPitchLfo::Configure {
                    waveform: MdxLfoWaveform::from_raw(bytes[at + 1]),
                    frequency: read_u16_exec(bytes, at + 2),
                    amplitude: read_i16_exec(bytes, at + 4),
                },
            )
        }
    } else if opcode == 0xeb {
        if bytes[at + 1] == 0x80 || bytes[at + 1] == 0x81 {
            MdxCommand::VolumeLfo(MdxVolumeLfo::SetEnabled { enabled: bytes[at + 1] == 0x81 })
        } else {
            MdxCommand::VolumeLfo(
                MdxVolumeLfo::Configure {
                    waveform: MdxLfoWaveform::from_raw(bytes[at + 1]),
                    frequency: read_u16_exec(bytes, at + 2),
                    amplitude: read_u16_exec(bytes, at + 4),
                },
            )
        }
    } else if opcode == 0xea {
        if bytes[at + 1] == 0x80 || bytes[at + 1] == 0x81 {
            MdxCommand::OpmLfo(MdxOpmLfo::SetEnabled { enabled: bytes[at + 1] == 0x81 })
        } else {
            MdxCommand::OpmLfo(
                MdxOpmLfo::Configure {
                    control: bytes[at + 1],
                    lfrq: bytes[at + 2],
                    pmd: bytes[at + 3],
                    amd: bytes[at + 4],
                    pms_ams: bytes[at + 5],
                },
            )
        }
    } else {
        MdxCommand::LfoDelay(MdxLfoDelay { value: bytes[at + 1] })
    };
    Ok((command, len))
}

/// Reading back a well-formed command's encoding, followed by any bytes,
/// yields the command and its encoded length.
pub proof fn lemma_decode_encode(command: MdxCommand, rest: Seq<u8>)
    requires
        wf_command(command),
    ensures
        decode_command(command_bytes(command) + rest, 0) == Ok::<(MdxCommand, nat), MdxDecodeError>(
            (command, command_len(command)),
        ),
{
    let bytes = command_bytes(command) + rest;
    lemma_command_len(command);
    assert(bytes.subrange(0, command_len(command) as int) =~= command_bytes(command));
    match command {
        MdxCommand::LoopEnd(jump) => {
            lemma_i16_roundtrip(jump.offset);
        },
        MdxCommand::LoopEscape(jump) => {
            lemma_i16_roundtrip(jump.offset);
        },
        MdxCommand::Detune(word) => {
            lemma_i16_roundtrip(word.offset);
        },
        MdxCommand::Portamento(word) => {
            lemma_i16_roundtrip(word.offset);
        },
        MdxCommand::EndOfTrackLoop(jump) => {
            lemma_i16_roundtrip(jump.offset);
        },
        MdxCommand::PitchLfo(MdxPitchLfo::Configure { amplitude, .. }) => {
            lemma_i16_roundtrip(amplitude);
        },
        _ => {},
    }
}

/// A signed word survives its big-endian encoding.
pub proof fn lemma_i16_roundtrip(value: i16)
    ensures
        i16_from_bits(be16(i16_bits(value))[0] * 256 + be16(i16_bits(value))[1]) == value,
        (be16(i16_bits(value))[0] == 0) <==> (0 <= value < 256),
{
}

/// Two bytes read as a word and written back give the same two bytes.
pub proof fn lemma_be16_bytes(hi: u8, lo: u8)
    ensures
        be16(hi * 256 + lo) =~= seq![hi, lo],
        i16_bits(i16_from_bits(hi * 256 + lo) as i16) == hi * 256 + lo,
        (i16_from_bits(hi * 256 + lo) as i16) as int == i16_from_bits(hi * 256 + lo),
{
}

/// A command that was read back re-encodes to exactly the bytes it was read from.
#[verifier::rlimit(50)]
pub proof fn lemma_encode_decode(bytes: Seq<u8>, at: int)
    requires
        decode_command(bytes, at) is Ok,
    ensures
        ({
            let (command, len) = decode_command(bytes, at)->Ok_0;
            command_bytes(command) =~= bytes.subrange(at, at + len)
        }),
{
    let (command, len) = decode_command(bytes, at)->Ok_0;
    let opcode = bytes[at];
    if opcode == 0xf5 || opcode == 0xf4 || opcode == 0xf3 || opcode == 0xf2 || (opcode == 0xf1
        && bytes[at + 1] != 0) {
        lemma_be16_bytes(bytes[at + 1], bytes[at + 2]);
        assert(command_bytes(command) =~= bytes.subrange(at, at + len));
    } else if (opcode == 0xec || opcode == 0xeb) && bytes[at + 1] != 0x80 && bytes[at + 1]
        != 0x81 {
        lemma_be16_bytes(bytes[at + 2], bytes[at + 3]);
        lemma_be16_bytes(bytes[at + 4], bytes[at + 5]);
        assert(waveform_raw(waveform_from_raw(bytes[at + 1])) == bytes[at + 1]);
        assert(command_bytes(command) =~= bytes.subrange(at, at + len));
    } else if opcode == 0xfc {
        assert(pan_raw(pan_from_raw(bytes[at + 1])) == bytes[at + 1]);
        assert(command_bytes(command) =~= bytes.subrange(at, at + len));
    } else {
        assert(command_bytes(command) =~= bytes.subrange(at, at + len));
    }
}

} // verus!
