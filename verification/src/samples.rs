//! WAV samples brought to the signed 12-bit range that ADPCM encoding takes.
use vstd::prelude::*;

use crate::text::{push_decimal, push_str, decimal};

verus! {

/// How a WAV file stores its samples.
#[derive(Clone, Copy, Debug, PartialEq, Eq)]
pub enum SampleFormat {
    Int,
    Float,
}

/// The sample type a WAV file is read as, and so how its samples are narrowed.
#[derive(Clone, Copy, Debug, PartialEq, Eq)]
pub enum SampleWidth {
    /// 8-bit integers.
    Bits8,
    /// 16-bit integers.
    Bits16,
    /// 24- or 32-bit integers, read as 32-bit ones.
    Wide(u16),
    /// 32-bit floats.
    Float,
}

/// Why a WAV file cannot be read as ADPCM input.
#[derive(Clone, Copy, Debug, PartialEq, Eq)]
pub enum WavError {
    /// The file has this many channels, not one.
    NotMono(u16),
    /// Integer samples of a width other than 8, 16, 24 or 32 bits.
    UnsupportedBitDepth(u16),
}

/// How the samples of a WAV file with `channels` channels, stored as `format` in
/// `bits_per_sample` bits, are read: only mono files are, and integer ones of 8, 16, 24
/// or 32 bits.
pub open spec fn sample_width_spec(channels: u16, format: SampleFormat, bits_per_sample: u16) -> Result<
    SampleWidth,
    WavError,
> {
    if channels != 1 {
        Err(WavError::NotMono(channels))
    } else {
        match format {
            SampleFormat::Float => Ok(SampleWidth::Float),
            SampleFormat::Int => if bits_per_sample == 8 {
                Ok(SampleWidth::Bits8)
            } else if bits_per_sample == 16 {
                Ok(SampleWidth::Bits16)
            } else if bits_per_sample == 24 || bits_per_sample == 32 {
                Ok(SampleWidth::Wide(bits_per_sample))
            } else {
                Err(WavError::UnsupportedBitDepth(bits_per_sample))
            },
        }
    }
}

/// How the samples of a WAV file are read, or why they cannot be.
pub fn sample_width(channels: u16, format: SampleFormat, bits_per_sample: u16) -> (width: Result<
    SampleWidth,
    WavError,
>)
    ensures
        width == sample_width_spec(channels, format, bits_per_sample),
{
    if channels != 1 {
        return Err(WavError::NotMono(channels));
    }
    match format {
        SampleFormat::Float => Ok(SampleWidth::Float),
        SampleFormat::Int => if bits_per_sample == 8 {
            Ok(SampleWidth::Bits8)
        } else if bits_per_sample == 16 {
            Ok(SampleWidth::Bits16)
        } else if bits_per_sample == 24 || bits_per_sample == 32 {
            Ok(SampleWidth::Wide(bits_per_sample))
        } else {
            Err(WavError::UnsupportedBitDepth(bits_per_sample))
        },
    }
}

/// `value` held to the 12-bit range, -2048 to 2047.
pub open spec fn clamp12(value: int) -> int {
    if value < -2048 {
        -2048
    } else if value > 2047 {
        2047
    } else {
        value
    }
}

/// 8-bit samples scaled up by 16 to 12 bits.
pub fn samples_from_8bit(samples: &[i8]) -> (out: Vec<i16>)
    ensures
        out@.len() == samples@.len(),
        forall|i: int| 0 <= i < samples@.len() ==> #[trigger] out@[i] as int == samples@[i] * 16,
{
    let mut out: Vec<i16> = Vec::new();
    let mut index: usize = 0;
    while index < samples.len()
        invariant
            index <= samples@.len(),
            out@.len() == index,
            forall|i: int| 0 <= i < index ==> #[trigger] out@[i] as int == samples@[i] * 16,
        decreases samples@.len() - index,
    {
        let value = samples[index];
        let scaled = (value as i16) << 4u32;
        assert(scaled as int == (value as int) * 16) by (bit_vector)
            requires
                scaled == (value as i16) << 4u32,
        ;
        out.push(scaled);
        index += 1;
    }
    out
}

/// 16-bit samples scaled down by 16 to 12 bits, rounding toward negative infinity.
pub fn samples_from_16bit(samples: &[i16]) -> (out: Vec<i16>)
    ensures
        out@.len() == samples@.len(),
        forall|i: int| 0 <= i < samples@.len() ==> #[trigger] out@[i] as int == samples@[i] / 16,
{
    let mut out: Vec<i16> = Vec::new();
    let mut index: usize = 0;
    while index < samples.len()
        invariant
            index <= samples@.len(),
            out@.len() == index,
            forall|i: int| 0 <= i < index ==> #[trigger] out@[i] as int == samples@[i] / 16,
        decreases samples@.len() - index,
    {
        let value = samples[index];
        let scaled = value >> 4u32;
        assert(scaled as int == (value as int) / 16) by (bit_vector)
            requires
                scaled == value >> 4u32,
        ;
        out.push(scaled);
        index += 1;
    }
    out
}

/// 24- or 32-bit samples, read as 32-bit ones, scaled down to 12 bits (rounding toward
/// negative infinity) and held to the 12-bit range.
pub fn samples_from_wide(bits_per_sample: u16, samples: &[i32]) -> (out: Vec<i16>)
    requires
        bits_per_sample == 24 || bits_per_sample == 32,
    ensures
        out@.len() == samples@.len(),
        forall|i: int|
            0 <= i < samples@.len() ==> #[trigger] out@[i] as int == clamp12(
                if bits_per_sample == 24 {
                    samples@[i] / 4096
                } else {
                    samples@[i] / 1048576
                },
            ),
{
    let mut out: Vec<i16> = Vec::new();
    let mut index: usize = 0;
    while index < samples.len()
        invariant
            bits_per_sample == 24 || bits_per_sample == 32,
            index <= samples@.len(),
            out@.len() == index,
            forall|i: int|
                0 <= i < index ==> #[trigger] out@[i] as int == clamp12(
                    if bits_per_sample == 24 {
                        samples@[i] / 4096
                    } else {
                        samples@[i] / 1048576
                    },
                ),
        decreases samples@.len() - index,
    {
        let value = samples[index];
        let shift: u32 = if bits_per_sample == 24 {
            12
        } else {
            20
        };
        let scaled = value >> shift;
        if shift == 12 {
            assert(scaled as int == (value as int) / 4096) by (bit_vector)
                requires
                    scaled == value >> 12u32,
            ;
        } else {
            assert(scaled as int == (value as int) / 1048576) by (bit_vector)
                requires
                    scaled == value >> 20u32,
            ;
        }
        let narrowed: i16 = if scaled < -2048 {
            -2048
        } else if scaled > 2047 {
            2047
        } else {
            scaled as i16
        };
        out.push(narrowed);
        index += 1;
    }
    out
}

impl WavError {
    /// The text that reports the error after the file's name.
    pub fn message(&self) -> (text: String)
        ensures
            text@ == match *self {
                WavError::NotMono(channels) => "only mono WAV files are supported (found "@
                    + decimal(channels as nat) + " channels)"@,
                WavError::UnsupportedBitDepth(bits) => "unsupported integer WAV bit depth "@
                    + decimal(bits as nat),
            },
    {
        let mut text = String::new();
        match *self {
            WavError::NotMono(channels) => {
                push_str(&mut text, "only mono WAV files are supported (found ");
                push_decimal(&mut text, channels as u64);
                push_str(&mut text, " channels)");
            },
            WavError::UnsupportedBitDepth(bits) => {
                push_str(&mut text, "unsupported integer WAV bit depth ");
                push_decimal(&mut text, bits as u64);
            },
        }
        text
    }
}

} // verus!
