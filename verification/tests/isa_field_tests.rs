use budzkvm::field::{field_inverse_goldilocks, poseidon4_hash, GOLDILOCKS_P};
use budzkvm::isa::{Instruction, Opcode};

#[test]
fn encode_decode_round_trip() {
    let inst = Instruction {
        opcode: Opcode::VerifyMerkle,
        rd: 31,
        rs1: 2,
        rs2: 17,
        imm: -5,
    };
    let raw = inst.encode();
    assert_eq!(raw & 0xff, 30);
    assert_eq!((raw >> 8) & 0xff, 31);
    assert_eq!((raw >> 32) as u32 as i32, -5);
    assert_eq!(Instruction::decode(raw), Ok(inst));
}

#[test]
fn decode_rejects_bad_words() {
    assert_eq!(Instruction::decode(31), Err("unknown opcode".to_string()));
    assert_eq!(
        Instruction::decode(1 | (32 << 16)),
        Err("register index out of range".to_string())
    );
}

#[test]
fn opcode_numbers() {
    assert_eq!(Opcode::Halt.number(), 0);
    assert_eq!(Opcode::from_number(13), Some(Opcode::Jnz));
    assert_eq!(Opcode::from_number(31), None);
}

#[test]
fn inverse_values() {
    assert_eq!(field_inverse_goldilocks(0), 0);
    assert_eq!(field_inverse_goldilocks(1), 1);
    assert_eq!(field_inverse_goldilocks(2), 9223372034707292161);
    assert_eq!(field_inverse_goldilocks(GOLDILOCKS_P), 0);
    for v in [2u64, 3, 12345, GOLDILOCKS_P - 1, u64::MAX] {
        let inv = field_inverse_goldilocks(v) as u128;
        assert_eq!((v as u128 % GOLDILOCKS_P as u128) * inv % GOLDILOCKS_P as u128, 1);
    }
}

#[test]
fn poseidon_known_values() {
    assert_eq!(poseidon4_hash(0, 0), 14549728391647580653);
    assert_eq!(poseidon4_hash(1, 2), 7468504783086785855);
    assert_eq!(poseidon4_hash(u64::MAX, 5), 11416387443879861448);
    assert_ne!(poseidon4_hash(1, 2), poseidon4_hash(2, 1));
}
