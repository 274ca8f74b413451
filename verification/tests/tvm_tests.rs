use lib::tvm::format::{HEADER_LEN, MAGIC, VERSION_V0};
use lib::tvm::opcodes::Opcode;
use lib::tvm::syscalls::SyscallId;

#[test]
fn opcode_bytes_decode() {
    assert_eq!(Opcode::from_u8(0x01), Some(Opcode::PushI64));
    assert_eq!(Opcode::from_u8(0x02), Some(Opcode::Add));
    assert_eq!(Opcode::from_u8(0x03), Some(Opcode::Syscall));
    assert_eq!(Opcode::from_u8(0xFF), Some(Opcode::Halt));
}

#[test]
fn unknown_opcode_bytes_decode_to_none() {
    assert_eq!(Opcode::from_u8(0x00), None);
    assert_eq!(Opcode::from_u8(0x04), None);
    assert_eq!(Opcode::from_u8(0xFE), None);
}

#[test]
fn opcode_byte_roundtrip() {
    for op in [Opcode::PushI64, Opcode::Add, Opcode::Syscall, Opcode::Halt] {
        assert_eq!(Opcode::from_u8(op.byte()), Some(op));
    }
    for b in 0u8..=255 {
        if let Some(op) = Opcode::from_u8(b) {
            assert_eq!(op.byte(), b);
        }
    }
}

#[test]
fn syscall_ids_decode() {
    assert_eq!(SyscallId::from_u8(0x01), Some(SyscallId::PrintI64));
    assert_eq!(SyscallId::from_u8(0x00), None);
    assert_eq!(SyscallId::from_u8(0x02), None);
}

#[test]
fn header_constants() {
    assert_eq!(&MAGIC, b"TVM0");
    assert_eq!(VERSION_V0, 1);
    assert_eq!(HEADER_LEN, 12);
}

#[test]
fn syscall_byte_roundtrip() {
    assert_eq!(SyscallId::PrintI64.byte(), 0x01);
    assert_eq!(SyscallId::from_u8(SyscallId::PrintI64.byte()), Some(SyscallId::PrintI64));
    assert_eq!(Opcode::Halt.byte(), 0xFF);
}
