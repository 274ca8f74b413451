use vstd::prelude::*;

verus! {

/// The instructions of the virtual machine's v0 instruction set.
#[derive(Debug, Clone, Copy, PartialEq, Eq, Structural)]
pub enum Opcode {
    PushI64,
    Add,
    Syscall,
    Halt,
}

impl Opcode {
    /// The byte that encodes an opcode in a code stream.
    pub open spec fn spec_byte(self) -> u8 {
        match self {
            Opcode::PushI64 => 0x01,
            Opcode::Add => 0x02,
            Opcode::Syscall => 0x03,
            Opcode::Halt => 0xFF,
        }
    }

    /// The opcode that a byte encodes, if any (0x01, 0x02, 0x03 and 0xFF).
    pub open spec fn spec_from_u8(b: u8) -> Option<Opcode> {
        if b == 0x01 {
            Some(Opcode::PushI64)
        } else if b == 0x02 {
            Some(Opcode::Add)
        } else if b == 0x03 {
            Some(Opcode::Syscall)
        } else if b == 0xFF {
            Some(Opcode::Halt)
        } else {
            None
        }
    }

    /// The byte that encodes this opcode.
    pub fn byte(&self) -> (b: u8)
        ensures
            b == self.spec_byte(),
    {
        match self {
            Opcode::PushI64 => 0x01,
            Opcode::Add => 0x02,
            Opcode::Syscall => 0x03,
            Opcode::Halt => 0xFF,
        }
    }

    /// Decodes an opcode byte; `None` for a byte that encodes no instruction.
    pub fn from_u8(b: u8) -> (r: Option<Self>)
        ensures
            r == Self::spec_from_u8(b),
    {
        match b {
            0x01 => Some(Opcode::PushI64),
            0x02 => Some(Opcode::Add),
            0x03 => Some(Opcode::Syscall),
            0xFF => Some(Opcode::Halt),
            _ => None,
        }
    }
}

/// Decoding is the inverse of encoding: the byte of an opcode decodes to that
/// opcode, and a byte that decodes to an opcode is that opcode's byte.
pub proof fn lemma_opcode_byte_roundtrip(op: Opcode, b: u8)
    ensures
        Opcode::spec_from_u8(op.spec_byte()) == Some(op),
        Opcode::spec_from_u8(b) == Some(op) ==> op.spec_byte() == b,
{
}

} // verus!
