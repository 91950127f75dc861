//! The command surface's data model. Parsing the command line itself is the
//! embedding program's concern; these are the values it hands over.
use vstd::prelude::*;

verus! {

/// Which way the codec is asked to run.
#[derive(Clone, Copy, Debug, PartialEq, Eq, Structural)]
pub enum Action {
    Encode,
    Decode,
}

/// A parsed invocation: the action, the source path, the destination path for
/// an encode, the compression ratio (window length over retained components),
/// and the storage code (1 narrow, 2 wide).
#[derive(Debug)]
pub struct Options {
    pub action: Action,
    pub src: String,
    pub dest: Option<String>,
    pub ratio: u32,
    pub storage: u8,
}

/// The retained component count a ratio implies for a window length:
/// `chunk_size / ratio`, floored, but never below one.
pub fn out_size_for(chunk_size: usize, ratio: u32) -> (r: usize)
    requires
        ratio >= 1,
        chunk_size >= 1,
    ensures
        r == if chunk_size as int / ratio as int >= 1 {
            chunk_size as int / ratio as int
        } else {
            1int
        },
{
    let raw = chunk_size / (ratio as usize);
    if raw >= 1 {
        raw
    } else {
        1
    }
}

} // verus!
