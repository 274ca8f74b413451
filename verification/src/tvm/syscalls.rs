use vstd::prelude::*;

verus! {

/// The host services a `SYSCALL` instruction can ask for.
#[derive(Debug, Clone, Copy, PartialEq, Eq, Structural)]
pub enum SyscallId {
    PrintI64,
}

impl SyscallId {
    /// The byte that names a syscall in a code stream.
    pub open spec fn spec_byte(self) -> u8 {
        match self {
            SyscallId::PrintI64 => 0x01,
        }
    }

    /// The syscall that a byte names, if any (only 0x01).
    pub open spec fn spec_from_u8(b: u8) -> Option<SyscallId> {
        if b == 0x01 {
            Some(SyscallId::PrintI64)
        } else {
            None
        }
    }

    /// The byte that names this syscall.
    pub fn byte(&self) -> (b: u8)
        ensures
            b == self.spec_byte(),
    {
        match self {
            SyscallId::PrintI64 => 0x01,
        }
    }

    /// Decodes a syscall id byte; `None` for a byte that names no syscall.
    pub fn from_u8(b: u8) -> (r: Option<Self>)
        ensures
            r == Self::spec_from_u8(b),
    {
        match b {
            0x01 => Some(SyscallId::PrintI64),
            _ => None,
        }
    }
}

/// Decoding is the inverse of encoding for syscall ids.
pub proof fn lemma_syscall_byte_roundtrip(id: SyscallId, b: u8)
    ensures
        SyscallId::spec_from_u8(id.spec_byte()) == Some(id),
        SyscallId::spec_from_u8(b) == Some(id) ==> id.spec_byte() == b,
{
}

} // verus!
