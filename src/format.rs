//! The fixed audio format that every part of the relay assumes.

use vstd::prelude::*;

verus! {

/// Samples per second of every stream.
pub const SAMPLE_RATE: u32 = 48000;

/// Interleaved channels of every stream.
pub const CHANNELS: usize = 2;

/// Samples per channel in one frame (20 ms at 48 kHz).
pub const FRAME_SAMPLES_PER_CHANNEL: usize = 960;

/// Interleaved samples in one frame.
pub const FRAME_SAMPLES: usize = 1920;

/// Bytes of one 32-bit float sample.
pub const FLOAT_SAMPLE_BYTES: usize = 4;

/// Bytes of one frame of interleaved 32-bit float PCM.
pub const FRAME_BYTES: usize = 7680;

/// Target bitrate of the encoder, in bits per second.
pub const BIT_RATE: i32 = 64000;

/// Largest compressed frame the encoder is asked to produce, in bytes.
pub const MAX_PACKET_BYTES: usize = 4000;

/// The well-known port the host listens on.
pub const HOST_PORT: u16 = 9475;

/// The constants agree with one another.
pub proof fn lemma_format_consistent()
    ensures
        FRAME_SAMPLES == FRAME_SAMPLES_PER_CHANNEL * CHANNELS,
        FRAME_BYTES == FRAME_SAMPLES * FLOAT_SAMPLE_BYTES,
        FRAME_SAMPLES_PER_CHANNEL * 1000 == SAMPLE_RATE * 20,
{
}

/// How raw PCM samples are stored in a byte stream.
#[derive(Copy, Clone, Debug, PartialEq, Eq, Structural)]
pub enum SampleFormat {
    /// Signed 16 bit integer.
    Int16,
    /// 32 bit float.
    Float32,
}

/// The reason a byte buffer cannot be read as samples.
#[derive(Copy, Clone, Debug, PartialEq, Eq, Structural)]
pub enum SampleError {
    /// The buffer's length is not a whole number of samples.
    InvalidLength(usize),
}

impl SampleFormat {
    /// Bytes of one sample of this format.
    pub open spec fn spec_bytes_per_sample(&self) -> nat {
        match self {
            SampleFormat::Int16 => 2,
            SampleFormat::Float32 => 4,
        }
    }

    /// Bytes that one sample of this format occupies.
    pub fn bytes_per_sample(&self) -> (r: usize)
        ensures
            r == self.spec_bytes_per_sample(),
    {
        match self {
            SampleFormat::Int16 => 2,
            SampleFormat::Float32 => 4,
        }
    }

    /// Number of samples held by `byte_len` bytes of this format, or an error
    /// when the length is not a whole number of samples.
    pub fn sample_count(&self, byte_len: usize) -> (r: Result<usize, SampleError>)
        ensures
            byte_len as nat % self.spec_bytes_per_sample() == 0 ==> r == Ok::<usize, SampleError>(
                (byte_len as nat / self.spec_bytes_per_sample()) as usize,
            ),
            byte_len as nat % self.spec_bytes_per_sample() != 0 ==> r == Err::<usize, SampleError>(
                SampleError::InvalidLength(byte_len),
            ),
    {
        let len = self.bytes_per_sample();
        if byte_len % len != 0 {
            Err(SampleError::InvalidLength(byte_len))
        } else {
            Ok(byte_len / len)
        }
    }
}

} // verus!
