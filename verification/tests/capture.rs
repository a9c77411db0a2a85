use voxplay::capture::{
    capture_format, sample_encoding, CaptureError, SampleEncoding, WavFormat, CAPTURE_SECONDS,
};

#[test]
fn a_recording_lasts_five_seconds() {
    assert_eq!(CAPTURE_SECONDS, 5);
}

#[test]
fn integer_formats_are_written_as_integers_and_the_rest_as_floats() {
    assert_eq!(sample_encoding(true, false), SampleEncoding::Int);
    assert_eq!(sample_encoding(false, true), SampleEncoding::Int);
    assert_eq!(sample_encoding(true, true), SampleEncoding::Int);
    assert_eq!(sample_encoding(false, false), SampleEncoding::Float);
}

#[test]
fn capture_format_is_the_format_of_the_device() {
    assert_eq!(
        capture_format(2, 44100, 4, SampleEncoding::Float),
        Ok(WavFormat {
            channels: 2,
            sample_rate: 44100,
            bits_per_sample: 32,
            encoding: SampleEncoding::Float,
        })
    );
    assert_eq!(
        capture_format(1, 16000, 2, SampleEncoding::Int),
        Ok(WavFormat {
            channels: 1,
            sample_rate: 16000,
            bits_per_sample: 16,
            encoding: SampleEncoding::Int,
        })
    );
}

#[test]
fn capture_format_refuses_a_width_that_does_not_fit() {
    assert_eq!(capture_format(1, 8000, 8191, SampleEncoding::Int).map(|f| f.bits_per_sample), Ok(65528));
    assert_eq!(capture_format(1, 8000, 8192, SampleEncoding::Int), Err(CaptureError::UnsupportedFormat));
    assert_eq!(
        capture_format(1, 8000, usize::MAX, SampleEncoding::Float),
        Err(CaptureError::UnsupportedFormat)
    );
}
