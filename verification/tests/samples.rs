use mmlx::samples::{
    sample_width, samples_from_16bit, samples_from_8bit, samples_from_wide, SampleFormat,
    SampleWidth, WavError,
};

#[test]
fn only_mono_files_of_known_widths_are_read() {
    assert_eq!(sample_width(2, SampleFormat::Int, 16), Err(WavError::NotMono(2)));
    assert_eq!(sample_width(1, SampleFormat::Int, 8), Ok(SampleWidth::Bits8));
    assert_eq!(sample_width(1, SampleFormat::Int, 16), Ok(SampleWidth::Bits16));
    assert_eq!(sample_width(1, SampleFormat::Int, 24), Ok(SampleWidth::Wide(24)));
    assert_eq!(sample_width(1, SampleFormat::Int, 32), Ok(SampleWidth::Wide(32)));
    assert_eq!(sample_width(1, SampleFormat::Int, 12), Err(WavError::UnsupportedBitDepth(12)));
    assert_eq!(sample_width(1, SampleFormat::Float, 32), Ok(SampleWidth::Float));
    assert_eq!(
        WavError::NotMono(2).message(),
        "only mono WAV files are supported (found 2 channels)"
    );
    assert_eq!(WavError::UnsupportedBitDepth(12).message(), "unsupported integer WAV bit depth 12");
}

#[test]
fn samples_are_narrowed_to_twelve_bits() {
    assert_eq!(samples_from_8bit(&[-128, -1, 0, 127]), vec![-2048, -16, 0, 2032]);
    assert_eq!(samples_from_16bit(&[-32768, -1, 15, 16, 32767]), vec![-2048, -1, 0, 1, 2047]);
    assert_eq!(
        samples_from_wide(24, &[-8388608, -1, 4096, 8388607]),
        vec![-2048, -1, 1, 2047]
    );
    assert_eq!(
        samples_from_wide(32, &[i32::MIN, 1 << 20, i32::MAX]),
        vec![-2048, 1, 2047]
    );
}
