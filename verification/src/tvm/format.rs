use vstd::prelude::*;

verus! {

/// The four bytes every bytecode file starts with: ASCII "TVM0".
pub const MAGIC: [u8; 4] = [0x54u8, 0x56u8, 0x4Du8, 0x30u8];

/// The only format version that v0 of the machine accepts.
pub const VERSION_V0: u16 = 1;

/// Length of the fixed header: magic (4), version (2), reserved (2), code length (4).
pub const HEADER_LEN: usize = 12;

} // verus!
