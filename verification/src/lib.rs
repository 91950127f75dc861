//! A lossy audio codec. PCM samples are cut into power-of-two analysis
//! windows; each window is taken to the frequency domain, only its strongest
//! spectral components are kept, and those are quantized and serialized into a
//! compact container. Decoding walks the container back into an approximate
//! waveform through the inverse transform.
//!
//! Frequency-domain values are carried as the raw bit patterns of their two
//! 32-bit float components, so that every decision the codec makes (selection,
//! quantization, serialization, reconstruction order) is made over plain
//! integers; the float arithmetic itself happens behind a small set of trusted
//! calls into outside crates.
use vstd::prelude::*;

pub mod bytes;
pub mod coeff;
pub mod quant;
pub mod fft;
pub mod select;
pub mod container;
pub mod riff;
pub mod encode;
pub mod decode;
pub mod args;

verus! {

/// Why an encode or a decode was aborted. All of these are fatal to the
/// current invocation; nothing is retried.
#[derive(Clone, Copy, Debug, PartialEq, Eq, Structural)]
pub enum CodecError {
    /// The input bytes end before the layout they announce is complete.
    Truncated,
    /// The container tags are not the expected ones.
    BadMagic,
    /// A storage code other than the two the codec defines.
    UnknownStorage,
    /// A required subchunk of the source waveform file is absent.
    MissingSubchunk,
    /// The transform only accepts power-of-two window lengths.
    NotPowerOfTwo,
    /// The announced counts cannot describe a valid container.
    BadLayout,
}

impl CodecError {
    /// A short description, for reporting which stage failed.
    pub fn describe(&self) -> String {
        match self {
            CodecError::Truncated => "input ends before its announced layout is complete".to_owned(),
            CodecError::BadMagic => "container tags are missing or wrong".to_owned(),
            CodecError::UnknownStorage => "unrecognized storage code".to_owned(),
            CodecError::MissingSubchunk => "a required waveform subchunk is absent".to_owned(),
            CodecError::NotPowerOfTwo => "window length is not a power of two".to_owned(),
            CodecError::BadLayout => "announced counts do not describe a valid container".to_owned(),
        }
    }
}

} // verus!
