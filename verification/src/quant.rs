//! The quantization codec: the two on-disk precisions a container may store
//! its coefficients at, and the narrowing and widening passes between selected
//! components and their stored-width form.
use vstd::prelude::*;
use crate::coeff::{Coeff, Component, Numerics};

verus! {

/// The on-disk precision of a container, chosen once per container.
#[derive(Clone, Copy, Debug, PartialEq, Eq, Structural)]
pub enum Storage {
    /// Each float component stored as a 16-bit half-precision float (code 1).
    Narrow,
    /// Each float component stored as the full 32-bit float (code 2).
    Wide,
}

/// One record at the width it is stored at: the frequency bin, and the two
/// coefficient components as the exact bit patterns the container holds.
/// At narrow precision each component is a half-precision pattern and fits
/// 16 bits; at wide precision it is a full 32-bit float pattern.
#[derive(Clone, Copy, Debug, PartialEq, Eq, Structural)]
pub struct StoredComponent {
    pub freq: u16,
    pub re: u32,
    pub im: u32,
}

/// A stored record is well formed for its storage width: narrow components
/// fit in 16 bits.
pub open spec fn stored_wf(s: Storage, c: StoredComponent) -> bool {
    s is Narrow ==> c.re < 0x10000 && c.im < 0x10000
}

/// The storage code written into the container header.
pub open spec fn spec_storage_code(s: Storage) -> u16 {
    match s {
        Storage::Narrow => 1,
        Storage::Wide => 2,
    }
}

/// The on-disk size of one record: two bytes of frequency index plus the two
/// coefficient components at the chosen precision.
pub open spec fn spec_record_size(s: Storage) -> nat {
    match s {
        Storage::Narrow => 6,
        Storage::Wide => 10,
    }
}

/// The storage whose code is `c`, if the code is a known one.
pub open spec fn spec_storage_of_code(c: u16) -> Option<Storage> {
    if c == 1 {
        Some(Storage::Narrow)
    } else if c == 2 {
        Some(Storage::Wide)
    } else {
        None
    }
}

pub fn storage_code(s: Storage) -> (r: u16)
    ensures
        r == spec_storage_code(s),
{
    match s {
        Storage::Narrow => 1,
        Storage::Wide => 2,
    }
}

pub fn record_size(s: Storage) -> (r: usize)
    ensures
        r == spec_record_size(s),
{
    match s {
        Storage::Narrow => 6,
        Storage::Wide => 10,
    }
}

pub fn storage_of_code(c: u16) -> (r: Option<Storage>)
    ensures
        r == spec_storage_of_code(c),
{
    if c == 1 {
        Some(Storage::Narrow)
    } else if c == 2 {
        Some(Storage::Wide)
    } else {
        None
    }
}

/// Narrows one selected component to its stored width. Wide storage keeps the
/// bit patterns exactly; narrow storage rounds each component to half
/// precision through the numeric operations.
pub fn quantize_component<N: Numerics>(ops: &N, s: Storage, c: &Component) -> (r: StoredComponent)
    ensures
        r.freq == c.freq,
        stored_wf(s, r),
        s is Wide ==> r.re == c.coeff.re && r.im == c.coeff.im,
{
    match s {
        Storage::Wide => StoredComponent { freq: c.freq, re: c.coeff.re, im: c.coeff.im },
        Storage::Narrow => StoredComponent {
            freq: c.freq,
            re: ops.narrow(c.coeff.re) as u32,
            im: ops.narrow(c.coeff.im) as u32,
        },
    }
}

/// Widens one stored record back to a full-width component for the inverse
/// transform. Wide storage is bit-exact; narrow storage widens each
/// half-precision component losslessly.
pub fn widen_component<N: Numerics>(ops: &N, s: Storage, c: &StoredComponent) -> (r: Component)
    requires
        stored_wf(s, *c),
    ensures
        r.freq == c.freq,
        s is Wide ==> r.coeff.re == c.re && r.coeff.im == c.im,
{
    match s {
        Storage::Wide => Component { freq: c.freq, coeff: Coeff { re: c.re, im: c.im } },
        Storage::Narrow => Component {
            freq: c.freq,
            coeff: Coeff { re: ops.widen(c.re as u16), im: ops.widen(c.im as u16) },
        },
    }
}

} // verus!
