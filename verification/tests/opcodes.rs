use chip8_vm::opcode::{decode, encode, OpCode};

fn sample_opcodes() -> Vec<OpCode> {
    vec![
        OpCode::Cls,
        OpCode::Ret,
        OpCode::Jmp(0x123),
        OpCode::Call(0xFFF),
        OpCode::SeVxNn(3, 0xAB),
        OpCode::SneVxNn(0, 0x00),
        OpCode::SeVxVy(1, 2),
        OpCode::LdVxNn(15, 0xFF),
        OpCode::AddVxNn(7, 0x10),
        OpCode::LdVxVy(4, 5),
        OpCode::OrVxVy(6, 7),
        OpCode::AndVxVy(8, 9),
        OpCode::XorVxVy(10, 11),
        OpCode::AddVxVy(12, 13),
        OpCode::SubVxVy(14, 15),
        OpCode::ShrVxVy(0, 1),
        OpCode::SubnVxVy(2, 3),
        OpCode::ShlVxVy(4, 5),
        OpCode::SneVxVy(6, 7),
        OpCode::LdINn(0x2F0),
        OpCode::JmpV0Nnn(0x300),
        OpCode::RndVxNn(9, 0x0F),
        OpCode::DrawVxVyN(1, 2, 15),
        OpCode::SkpVx(5),
        OpCode::SknpVx(6),
        OpCode::LdVxDt(7),
        OpCode::LdVxK(8),
        OpCode::LdDtVx(9),
        OpCode::LdStVx(10),
        OpCode::AddIVx(11),
        OpCode::LdFVx(12),
        OpCode::LdBVx(13),
        OpCode::LdIVx(14),
        OpCode::LdVxI(15),
    ]
}

#[test]
fn decode_encode_round_trips() {
    for op in sample_opcodes() {
        assert_eq!(decode(encode(op)), op, "round trip failed for {:?}", op);
    }
}

#[test]
fn decode_known_words() {
    assert_eq!(decode(0x00E0), OpCode::Cls);
    assert_eq!(decode(0x00EE), OpCode::Ret);
    assert_eq!(decode(0x1200), OpCode::Jmp(0x200));
    assert_eq!(decode(0x2ABC), OpCode::Call(0xABC));
    assert_eq!(decode(0x3A7F), OpCode::SeVxNn(0xA, 0x7F));
    assert_eq!(decode(0x6123), OpCode::LdVxNn(1, 0x23));
    assert_eq!(decode(0x7FFF), OpCode::AddVxNn(0xF, 0xFF));
    assert_eq!(decode(0x8AB4), OpCode::AddVxVy(0xA, 0xB));
    assert_eq!(decode(0x8AB5), OpCode::SubVxVy(0xA, 0xB));
    assert_eq!(decode(0x8AB7), OpCode::SubnVxVy(0xA, 0xB));
    assert_eq!(decode(0xA321), OpCode::LdINn(0x321));
    assert_eq!(decode(0xC2F0), OpCode::RndVxNn(2, 0xF0));
    assert_eq!(decode(0xD125), OpCode::DrawVxVyN(1, 2, 5));
    assert_eq!(decode(0xE19E), OpCode::SkpVx(1));
    assert_eq!(decode(0xE2A1), OpCode::SknpVx(2));
    assert_eq!(decode(0xF30A), OpCode::LdVxK(3));
    assert_eq!(decode(0xF433), OpCode::LdBVx(4));
}

#[test]
fn decode_unknown_words() {
    assert_eq!(decode(0x0000), OpCode::Unkn(0x0000));
    assert_eq!(decode(0x00E1), OpCode::Unkn(0x00E1));
    assert_eq!(decode(0x8AB8), OpCode::Unkn(0x8AB8));
    assert_eq!(decode(0xE1FF), OpCode::Unkn(0xE1FF));
    assert_eq!(decode(0xFFFF), OpCode::Unkn(0xFFFF));
}
