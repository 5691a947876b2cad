//! Instruction set: the opcodes, the instruction record, and its 64-bit word
//! encoding.
//!
//! Layout of an encoded word (least significant bit first):
//! bits 0..8 opcode number, 8..16 `rd`, 16..24 `rs1`, 24..32 `rs2`,
//! 32..64 the immediate as a two's-complement `i32`.

use vstd::prelude::*;

verus! {

#[derive(Clone, Copy, Debug, PartialEq, Eq, Structural)]
pub enum Opcode {
    Halt,
    Add,
    Sub,
    Mul,
    Div,
    Inv,
    And,
    Or,
    Xor,
    Not,
    Load,
    Store,
    Jmp,
    Jnz,
    Call,
    Ret,
    Push,
    Pop,
    Eq,
    Neq,
    Lt,
    Gt,
    Lte,
    Gte,
    Assert,
    SRead,
    SWrite,
    Poseidon,
    Log,
    Syscall,
    VerifyMerkle,
}

/// The opcode number used in the encoding.
pub open spec fn opcode_number(op: Opcode) -> u8 {
    match op {
        Opcode::Halt => 0,
        Opcode::Add => 1,
        Opcode::Sub => 2,
        Opcode::Mul => 3,
        Opcode::Div => 4,
        Opcode::Inv => 5,
        Opcode::And => 6,
        Opcode::Or => 7,
        Opcode::Xor => 8,
        Opcode::Not => 9,
        Opcode::Load => 10,
        Opcode::Store => 11,
        Opcode::Jmp => 12,
        Opcode::Jnz => 13,
        Opcode::Call => 14,
        Opcode::Ret => 15,
        Opcode::Push => 16,
        Opcode::Pop => 17,
        Opcode::Eq => 18,
        Opcode::Neq => 19,
        Opcode::Lt => 20,
        Opcode::Gt => 21,
        Opcode::Lte => 22,
        Opcode::Gte => 23,
        Opcode::Assert => 24,
        Opcode::SRead => 25,
        Opcode::SWrite => 26,
        Opcode::Poseidon => 27,
        Opcode::Log => 28,
        Opcode::Syscall => 29,
        Opcode::VerifyMerkle => 30,
    }
}

/// The opcode with a given number, if there is one.
pub open spec fn opcode_of_number(n: u8) -> Option<Opcode> {
    if n == 0 { Some(Opcode::Halt) }
    else if n == 1 { Some(Opcode::Add) }
    else if n == 2 { Some(Opcode::Sub) }
    else if n == 3 { Some(Opcode::Mul) }
    else if n == 4 { Some(Opcode::Div) }
    else if n == 5 { Some(Opcode::Inv) }
    else if n == 6 { Some(Opcode::And) }
    else if n == 7 { Some(Opcode::Or) }
    else if n == 8 { Some(Opcode::Xor) }
    else if n == 9 { Some(Opcode::Not) }
    else if n == 10 { Some(Opcode::Load) }
    else if n == 11 { Some(Opcode::Store) }
    else if n == 12 { Some(Opcode::Jmp) }
    else if n == 13 { Some(Opcode::Jnz) }
    else if n == 14 { Some(Opcode::Call) }
    else if n == 15 { Some(Opcode::Ret) }
    else if n == 16 { Some(Opcode::Push) }
    else if n == 17 { Some(Opcode::Pop) }
    else if n == 18 { Some(Opcode::Eq) }
    else if n == 19 { Some(Opcode::Neq) }
    else if n == 20 { Some(Opcode::Lt) }
    else if n == 21 { Some(Opcode::Gt) }
    else if n == 22 { Some(Opcode::Lte) }
    else if n == 23 { Some(Opcode::Gte) }
    else if n == 24 { Some(Opcode::Assert) }
    else if n == 25 { Some(Opcode::SRead) }
    else if n == 26 { Some(Opcode::SWrite) }
    else if n == 27 { Some(Opcode::Poseidon) }
    else if n == 28 { Some(Opcode::Log) }
    else if n == 29 { Some(Opcode::Syscall) }
    else if n == 30 { Some(Opcode::VerifyMerkle) }
    else { None }
}

impl Opcode {
    /// The opcode's number in the encoding.
    pub fn number(self) -> (n: u8)
        ensures
            n == opcode_number(self),
    {
        match self {
            Opcode::Halt => 0,
            Opcode::Add => 1,
            Opcode::Sub => 2,
            Opcode::Mul => 3,
            Opcode::Div => 4,
            Opcode::Inv => 5,
            Opcode::And => 6,
            Opcode::Or => 7,
            Opcode::Xor => 8,
            Opcode::Not => 9,
            Opcode::Load => 10,
            Opcode::Store => 11,
            Opcode::Jmp => 12,
            Opcode::Jnz => 13,
            Opcode::Call => 14,
            Opcode::Ret => 15,
            Opcode::Push => 16,
            Opcode::Pop => 17,
            Opcode::Eq => 18,
            Opcode::Neq => 19,
            Opcode::Lt => 20,
            Opcode::Gt => 21,
            Opcode::Lte => 22,
            Opcode::Gte => 23,
            Opcode::Assert => 24,
            Opcode::SRead => 25,
            Opcode::SWrite => 26,
            Opcode::Poseidon => 27,
            Opcode::Log => 28,
            Opcode::Syscall => 29,
            Opcode::VerifyMerkle => 30,
        }
    }

    /// The opcode with number `n`, or `None` where no opcode has it.
    pub fn from_number(n: u8) -> (op: Option<Opcode>)
        ensures
            op == opcode_of_number(n),
    {
        if n == 0 { Some(Opcode::Halt) }
        else if n == 1 { Some(Opcode::Add) }
        else if n == 2 { Some(Opcode::Sub) }
        else if n == 3 { Some(Opcode::Mul) }
        else if n == 4 { Some(Opcode::Div) }
        else if n == 5 { Some(Opcode::Inv) }
        else if n == 6 { Some(Opcode::And) }
        else if n == 7 { Some(Opcode::Or) }
        else if n == 8 { Some(Opcode::Xor) }
        else if n == 9 { Some(Opcode::Not) }
        else if n == 10 { Some(Opcode::Load) }
        else if n == 11 { Some(Opcode::Store) }
        else if n == 12 { Some(Opcode::Jmp) }
        else if n == 13 { Some(Opcode::Jnz) }
        else if n == 14 { Some(Opcode::Call) }
        else if n == 15 { Some(Opcode::Ret) }
        else if n == 16 { Some(Opcode::Push) }
        else if n == 17 { Some(Opcode::Pop) }
        else if n == 18 { Some(Opcode::Eq) }
        else if n == 19 { Some(Opcode::Neq) }
        else if n == 20 { Some(Opcode::Lt) }
        else if n == 21 { Some(Opcode::Gt) }
        else if n == 22 { Some(Opcode::Lte) }
        else if n == 23 { Some(Opcode::Gte) }
        else if n == 24 { Some(Opcode::Assert) }
        else if n == 25 { Some(Opcode::SRead) }
        else if n == 26 { Some(Opcode::SWrite) }
        else if n == 27 { Some(Opcode::Poseidon) }
        else if n == 28 { Some(Opcode::Log) }
        else if n == 29 { Some(Opcode::Syscall) }
        else if n == 30 { Some(Opcode::VerifyMerkle) }
        else { None }
    }
}

/// Every opcode's number names it again.
pub proof fn lemma_opcode_number_round_trip(op: Opcode)
    ensures
        opcode_of_number(opcode_number(op)) == Some(op),
{
}

/// A decoded instruction: an opcode, a destination register, two source
/// registers and a signed immediate.
#[derive(Clone, Copy, Debug, PartialEq, Eq, Structural)]
pub struct Instruction {
    pub opcode: Opcode,
    pub rd: u8,
    pub rs1: u8,
    pub rs2: u8,
    pub imm: i32,
}

/// The word that encodes `inst`.
pub open spec fn encode_spec(inst: Instruction) -> u64 {
    (opcode_number(inst.opcode) as u64) | ((inst.rd as u64) << 8u64) | ((inst.rs1 as u64) << 16u64)
        | ((inst.rs2 as u64) << 24u64) | (((inst.imm as u32) as u64) << 32u64)
}

/// The instruction that `raw` encodes, if it encodes one: the opcode number
/// must name an opcode and each register index must be below 32.
pub open spec fn decode_spec(raw: u64) -> Option<Instruction> {
    let op = (raw & 0xff) as u8;
    let rd = ((raw >> 8u64) & 0xff) as u8;
    let rs1 = ((raw >> 16u64) & 0xff) as u8;
    let rs2 = ((raw >> 24u64) & 0xff) as u8;
    let imm = ((raw >> 32u64) as u32) as i32;
    match opcode_of_number(op) {
        Some(opcode) => if rd < 32 && rs1 < 32 && rs2 < 32 {
            Some(Instruction { opcode, rd, rs1, rs2, imm })
        } else {
            None
        },
        None => None,
    }
}

/// The message that decoding `raw` fails with.
pub open spec fn decode_error_message(raw: u64) -> Seq<char> {
    if opcode_of_number((raw & 0xff) as u8) is None {
        "unknown opcode"@
    } else {
        "register index out of range"@
    }
}

/// An instruction whose register indices name registers.
pub open spec fn registers_in_range(inst: Instruction) -> bool {
    inst.rd < 32 && inst.rs1 < 32 && inst.rs2 < 32
}

proof fn lemma_fields_of_encoding(op: u8, rd: u8, rs1: u8, rs2: u8, imm: u32)
    ensures
        ({
            let raw = (op as u64) | ((rd as u64) << 8u64) | ((rs1 as u64) << 16u64)
                | ((rs2 as u64) << 24u64) | ((imm as u64) << 32u64);
            &&& (raw & 0xff) as u8 == op
            &&& ((raw >> 8u64) & 0xff) as u8 == rd
            &&& ((raw >> 16u64) & 0xff) as u8 == rs1
            &&& ((raw >> 24u64) & 0xff) as u8 == rs2
            &&& (raw >> 32u64) as u32 == imm
        }),
{
    let raw = (op as u64) | ((rd as u64) << 8u64) | ((rs1 as u64) << 16u64) | ((rs2 as u64)
        << 24u64) | ((imm as u64) << 32u64);
    assert((raw & 0xff) as u8 == op) by (bit_vector)
        requires
            raw == (op as u64) | ((rd as u64) << 8u64) | ((rs1 as u64) << 16u64) | ((rs2 as u64)
                << 24u64) | ((imm as u64) << 32u64),
    ;
    assert(((raw >> 8u64) & 0xff) as u8 == rd) by (bit_vector)
        requires
            raw == (op as u64) | ((rd as u64) << 8u64) | ((rs1 as u64) << 16u64) | ((rs2 as u64)
                << 24u64) | ((imm as u64) << 32u64),
    ;
    assert(((raw >> 16u64) & 0xff) as u8 == rs1) by (bit_vector)
        requires
            raw == (op as u64) | ((rd as u64) << 8u64) | ((rs1 as u64) << 16u64) | ((rs2 as u64)
                << 24u64) | ((imm as u64) << 32u64),
    ;
    assert(((raw >> 24u64) & 0xff) as u8 == rs2) by (bit_vector)
        requires
            raw == (op as u64) | ((rd as u64) << 8u64) | ((rs1 as u64) << 16u64) | ((rs2 as u64)
                << 24u64) | ((imm as u64) << 32u64),
    ;
    assert((raw >> 32u64) as u32 == imm) by (bit_vector)
        requires
            raw == (op as u64) | ((rd as u64) << 8u64) | ((rs1 as u64) << 16u64) | ((rs2 as u64)
                << 24u64) | ((imm as u64) << 32u64),
    ;
}

/// Decoding gives back every instruction whose registers are in range.
pub proof fn lemma_decode_encode(inst: Instruction)
    requires
        registers_in_range(inst),
    ensures
        decode_spec(encode_spec(inst)) == Some(inst),
{
    lemma_fields_of_encoding(
        opcode_number(inst.opcode),
        inst.rd,
        inst.rs1,
        inst.rs2,
        inst.imm as u32,
    );
    let i: i32 = inst.imm;
    assert((i as u32) as i32 == i) by (bit_vector);
}

impl Instruction {
    /// Encodes the instruction as one word.
    pub fn encode(&self) -> (raw: u64)
        ensures
            raw == encode_spec(*self),
    {
        let op = self.opcode.number();
        (op as u64) | ((self.rd as u64) << 8u64) | ((self.rs1 as u64) << 16u64) | ((self.rs2 as u64)
            << 24u64) | (((self.imm as u32) as u64) << 32u64)
    }

    /// Decodes a word; fails where the opcode number names no opcode or a
    /// register index is 32 or more.
    pub fn decode(raw: u64) -> (r: Result<Instruction, String>)
        ensures
            match r {
                Ok(inst) => decode_spec(raw) == Some(inst),
                Err(msg) => decode_spec(raw) is None && msg@ == decode_error_message(raw),
            },
    {
        let op = (raw & 0xff) as u8;
        let rd = ((raw >> 8u64) & 0xff) as u8;
        let rs1 = ((raw >> 16u64) & 0xff) as u8;
        let rs2 = ((raw >> 24u64) & 0xff) as u8;
        let imm = ((raw >> 32u64) as u32) as i32;
        match Opcode::from_number(op) {
            Some(opcode) => {
                if rd < 32 && rs1 < 32 && rs2 < 32 {
                    Ok(Instruction { opcode, rd, rs1, rs2, imm })
                } else {
                    Err("register index out of range".to_owned())
                }
            },
            None => Err("unknown opcode".to_owned()),
        }
    }
}

} // verus!
