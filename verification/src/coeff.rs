//! Frequency-domain values, carried as raw bit patterns, and the small set of
//! numeric operations the codec needs but cannot hold itself.
//!
//! A coefficient is a pair of 32-bit floats (real, imaginary); the library
//! holds the two IEEE bit patterns instead, so that every decision the codec
//! makes — selection, quantization, serialization, reconstruction order — is
//! made over plain integers and is verified. The float arithmetic itself is
//! behind the [`Numerics`] trait: the embedding program supplies an
//! implementation, and nothing proved here rests on what those operations
//! compute.
use vstd::prelude::*;

verus! {

/// One complex coefficient: the bit patterns of its real and imaginary
/// 32-bit float components.
#[derive(Clone, Copy, Debug, PartialEq, Eq, Structural)]
pub struct Coeff {
    pub re: u32,
    pub im: u32,
}

/// One retained spectral component: the discrete frequency bin it was taken
/// from, and the coefficient found there.
#[derive(Clone, Copy, Debug, PartialEq, Eq, Structural)]
pub struct Component {
    pub freq: u16,
    pub coeff: Coeff,
}

/// The all-zero-bits coefficient (both float components +0.0).
pub open spec fn spec_zero_coeff() -> Coeff {
    Coeff { re: 0, im: 0 }
}

/// The zero-magnitude placeholder component the selector starts from.
pub open spec fn spec_placeholder() -> Component {
    Component { freq: 0, coeff: spec_zero_coeff() }
}

/// The numeric operations of the codec. The library's logic is generic over
/// them: every structural guarantee it proves holds whatever an implementation
/// computes. An implementation is expected to perform the float arithmetic
/// each method describes, and must not panic.
pub trait Numerics {
    /// One butterfly of the radix-2 transform: for inputs `x`, `y` it computes
    /// `(x + y, (x - y) * w)` where `w = exp(-2*pi*i * j / n)`, conjugated when
    /// `inverse` is set.
    fn butterfly(&self, x: Coeff, y: Coeff, n: usize, j: usize, inverse: bool) -> (Coeff, Coeff);

    /// An ordering key for the magnitude of `c`: the bit pattern of its norm.
    /// Bit patterns of non-negative floats order exactly as the floats do.
    fn norm_key(&self, c: Coeff) -> u32;

    /// One time-domain sample lifted to a coefficient with zero imaginary part.
    fn coeff_of_sample(&self, s: i16) -> Coeff;

    /// The real part of an inverse-transform output, scaled by `1/n` and
    /// rounded into a 16-bit sample.
    fn sample_of_coeff(&self, c: Coeff, n: usize) -> i16;

    /// A 32-bit float component (given by its bit pattern) rounded to the
    /// nearest half-precision value, as that value's 16 bits.
    fn narrow(&self, bits: u32) -> u16;

    /// A half-precision value (given by its 16 bits) widened losslessly back
    /// to a 32-bit float's bit pattern.
    fn widen(&self, half_bits: u16) -> u32;
}

} // verus!
