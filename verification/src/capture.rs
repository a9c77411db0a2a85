//! The capture pipeline's rules: how long a recording lasts and in which
//! format it is written.

use vstd::prelude::*;

verus! {

/// How long one recording lasts, in seconds.
pub const CAPTURE_SECONDS: u64 = 5;

/// How the samples of an audio file are encoded.
#[derive(Debug, Clone, Copy, PartialEq, Eq, Structural)]
pub enum SampleEncoding {
    Int,
    Float,
}

/// Why a capture was given up.
#[derive(Debug, Clone, Copy, PartialEq, Eq, Structural)]
pub enum CaptureError {
    /// The input device is missing or cannot be opened.
    DeviceUnavailable,
    /// The device's sample format cannot be written to the file.
    UnsupportedFormat,
    /// The file could not be written.
    WriteFailed,
}

/// The format of a recording, fixed when the file is created.
#[derive(Debug, Clone, Copy, PartialEq, Eq, Structural)]
pub struct WavFormat {
    pub channels: u16,
    pub sample_rate: u32,
    pub bits_per_sample: u16,
    pub encoding: SampleEncoding,
}

/// The encoding in which samples of a device format are written: integer
/// formats, signed or unsigned, as integers, every other format as floats.
pub fn sample_encoding(signed_integer: bool, unsigned_integer: bool) -> (encoding: SampleEncoding)
    ensures
        encoding == if signed_integer || unsigned_integer {
            SampleEncoding::Int
        } else {
            SampleEncoding::Float
        },
{
    if signed_integer || unsigned_integer {
        SampleEncoding::Int
    } else {
        SampleEncoding::Float
    }
}

/// The format of the file for a recording from a device whose default
/// configuration has `channels` channels, `sample_rate` frames a second and
/// samples of `sample_bytes` bytes: exactly that format, eight bits to the
/// byte. A sample width that the file format cannot state is unsupported.
pub fn capture_format(
    channels: u16,
    sample_rate: u32,
    sample_bytes: usize,
    encoding: SampleEncoding,
) -> (r: Result<WavFormat, CaptureError>)
    ensures
        r == if 8 * sample_bytes <= u16::MAX {
            Ok::<WavFormat, CaptureError>(
                (WavFormat {
                    channels,
                    sample_rate,
                    bits_per_sample: (8 * sample_bytes) as u16,
                    encoding,
                }),
            )
        } else {
            Err::<WavFormat, CaptureError>(CaptureError::UnsupportedFormat)
        },
{
    if sample_bytes <= 8191 {
        let bits: u16 = (sample_bytes * 8) as u16;
        Ok(WavFormat { channels, sample_rate, bits_per_sample: bits, encoding })
    } else {
        Err(CaptureError::UnsupportedFormat)
    }
}

} // verus!
