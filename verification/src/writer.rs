use vstd::prelude::*;

verus! {

/// Sample width of an uncompressed (PCM) encoding.
#[derive(Clone, Copy, Debug, PartialEq, Eq, Structural)]
pub enum BitPerSample {
    B8,
    B16,
    B24,
    B32,
}

/// The number of bits that each variant of [`BitPerSample`] stands for.
pub open spec fn bits_per_sample_value(b: BitPerSample) -> u16 {
    match b {
        BitPerSample::B8 => 8,
        BitPerSample::B16 => 16,
        BitPerSample::B24 => 24,
        BitPerSample::B32 => 32,
    }
}

/// The sample width that `value` names, if it names one.
pub open spec fn bits_per_sample_from(value: u16) -> Option<BitPerSample> {
    if value == 8 {
        Some(BitPerSample::B8)
    } else if value == 16 {
        Some(BitPerSample::B16)
    } else if value == 24 {
        Some(BitPerSample::B24)
    } else if value == 32 {
        Some(BitPerSample::B32)
    } else {
        None
    }
}

impl BitPerSample {
    pub fn as_u16(self) -> (r: u16)
        ensures
            r == bits_per_sample_value(self),
    {
        match self {
            BitPerSample::B8 => 8,
            BitPerSample::B16 => 16,
            BitPerSample::B24 => 24,
            BitPerSample::B32 => 32,
        }
    }

    /// Parses a bit count; only 8, 16, 24 and 32 are accepted.
    pub fn try_from_u16(value: u16) -> (r: Result<BitPerSample, BitPerSampleError>)
        ensures
            match bits_per_sample_from(value) {
                Some(b) => r == Ok::<BitPerSample, BitPerSampleError>(b),
                None => r is Err,
            },
    {
        match value {
            8 => Ok(BitPerSample::B8),
            16 => Ok(BitPerSample::B16),
            24 => Ok(BitPerSample::B24),
            32 => Ok(BitPerSample::B32),
            _ => Err(BitPerSampleError),
        }
    }
}

/// A bit count that is not a supported PCM sample width.
#[derive(Clone, Copy, Debug, PartialEq, Eq, Structural)]
pub struct BitPerSampleError;

impl BitPerSampleError {
    /// The human-readable description of the error.
    pub fn message(&self) -> (s: String)
        ensures
            s@ == "Not a valid BitPerSample value"@,
    {
        String::from_str("Not a valid BitPerSample value")
    }
}

/// Bit rate of a compressed encoding, in kilobits per second.
#[derive(Clone, Copy, Debug, PartialEq, Eq, Structural)]
pub enum BitPerSecond {
    Kbps128,
    Kbps160,
    Kbps192,
    Kbps256,
    Kbps320,
}

/// The kilobit rate that each variant of [`BitPerSecond`] stands for.
pub open spec fn kbps_value(b: BitPerSecond) -> u32 {
    match b {
        BitPerSecond::Kbps128 => 128,
        BitPerSecond::Kbps160 => 160,
        BitPerSecond::Kbps192 => 192,
        BitPerSecond::Kbps256 => 256,
        BitPerSecond::Kbps320 => 320,
    }
}

/// The bit rate that `value` names, if it names one.
pub open spec fn bits_per_second_from(value: u16) -> Option<BitPerSecond> {
    if value == 128 {
        Some(BitPerSecond::Kbps128)
    } else if value == 160 {
        Some(BitPerSecond::Kbps160)
    } else if value == 192 {
        Some(BitPerSecond::Kbps192)
    } else if value == 256 {
        Some(BitPerSecond::Kbps256)
    } else if value == 320 {
        Some(BitPerSecond::Kbps320)
    } else {
        None
    }
}

impl BitPerSecond {
    pub fn as_kbps(self) -> (r: u32)
        ensures
            r == kbps_value(self),
    {
        match self {
            BitPerSecond::Kbps128 => 128,
            BitPerSecond::Kbps160 => 160,
            BitPerSecond::Kbps192 => 192,
            BitPerSecond::Kbps256 => 256,
            BitPerSecond::Kbps320 => 320,
        }
    }

    /// Parses a kilobit rate; only 128, 160, 192, 256 and 320 are accepted.
    pub fn try_from_u16(value: u16) -> (r: Result<BitPerSecond, BitPerSecondError>)
        ensures
            match bits_per_second_from(value) {
                Some(b) => r == Ok::<BitPerSecond, BitPerSecondError>(b),
                None => r is Err,
            },
    {
        match value {
            128 => Ok(BitPerSecond::Kbps128),
            160 => Ok(BitPerSecond::Kbps160),
            192 => Ok(BitPerSecond::Kbps192),
            256 => Ok(BitPerSecond::Kbps256),
            320 => Ok(BitPerSecond::Kbps320),
            _ => Err(BitPerSecondError),
        }
    }
}

/// A number that is not a supported compressed bit rate.
#[derive(Clone, Copy, Debug, PartialEq, Eq, Structural)]
pub struct BitPerSecondError;

impl BitPerSecondError {
    /// The human-readable description of the error.
    pub fn message(&self) -> (s: String)
        ensures
            s@ == "Not a valid BitPerSecond value"@,
    {
        String::from_str("Not a valid BitPerSecond value")
    }
}

/// Either a PCM sample width or a compressed bit rate.
#[derive(Clone, Copy, Debug, PartialEq, Eq, Structural)]
pub enum BitDepth {
    BitPerSample(BitPerSample),
    BitPerSecond(BitPerSecond),
}

/// Why a [`BitDepth`] could not be built.
#[derive(Clone, Copy, Debug, PartialEq, Eq, Structural)]
pub enum BitDepthError {
    BitPerSample(BitPerSampleError),
    BitPerSecond(BitPerSecondError),
}

impl BitDepth {
    pub fn try_new_bits_per_sample(bps: u16) -> (r: Result<BitDepth, BitDepthError>)
        ensures
            match bits_per_sample_from(bps) {
                Some(b) => r == Ok::<BitDepth, BitDepthError>(BitDepth::BitPerSample(b)),
                None => r == Err::<BitDepth, BitDepthError>(
                    BitDepthError::BitPerSample(BitPerSampleError),
                ),
            },
    {
        match BitPerSample::try_from_u16(bps) {
            Ok(b) => Ok(BitDepth::BitPerSample(b)),
            Err(e) => Err(BitDepthError::BitPerSample(e)),
        }
    }

    pub fn try_new_bits_per_secs(bps: u16) -> (r: Result<BitDepth, BitDepthError>)
        ensures
            match bits_per_second_from(bps) {
                Some(b) => r == Ok::<BitDepth, BitDepthError>(BitDepth::BitPerSecond(b)),
                None => r == Err::<BitDepth, BitDepthError>(
                    BitDepthError::BitPerSecond(BitPerSecondError),
                ),
            },
    {
        match BitPerSecond::try_from_u16(bps) {
            Ok(b) => Ok(BitDepth::BitPerSecond(b)),
            Err(e) => Err(BitDepthError::BitPerSecond(e)),
        }
    }
}

/// Standard definition for audio metadata required by all encoders.
#[derive(Clone, Copy, Debug, PartialEq, Eq, Structural)]
pub struct AudioFormat {
    pub sample_rate: u32,
    pub channels: u16,
    pub bit_depth: BitDepth,
}

/// How the samples of a WAV file are encoded.
#[derive(Clone, Copy, Debug, PartialEq, Eq, Structural)]
pub enum WavSampleEncoding {
    /// IEEE floating point samples.
    Float,
    /// Signed integer samples.
    Int,
}

/// The header layout of a WAV file.
#[derive(Clone, Copy, Debug, PartialEq, Eq, Structural)]
pub struct WavLayout {
    pub channels: u16,
    pub sample_rate: u32,
    pub bits_per_sample: u16,
    pub encoding: WavSampleEncoding,
}

/// The WAV layout for a PCM sample width: 32-bit samples are written as
/// floats, narrower ones as integers. Compressed bit rates have no WAV
/// layout.
pub fn wav_layout(format: AudioFormat) -> (r: Option<WavLayout>)
    ensures
        match format.bit_depth {
            BitDepth::BitPerSample(b) => r == Some(WavLayout {
                channels: format.channels,
                sample_rate: format.sample_rate,
                bits_per_sample: bits_per_sample_value(b),
                encoding: if b == BitPerSample::B32 { WavSampleEncoding::Float } else { WavSampleEncoding::Int },
            }),
            BitDepth::BitPerSecond(_) => r is None,
        },
{
    match format.bit_depth {
        BitDepth::BitPerSample(b) => {
            let bits = b.as_u16();
            let encoding = match b {
                BitPerSample::B32 => WavSampleEncoding::Float,
                _ => WavSampleEncoding::Int,
            };
            Some(WavLayout { channels: format.channels, sample_rate: format.sample_rate, bits_per_sample: bits, encoding })
        },
        BitDepth::BitPerSecond(_) => None,
    }
}

} // verus!
