//! The virtual machine: 32 64-bit registers (r0 always reads 0), a return
//! stack of at most 1024 words, byte memory, slot storage, an event log,
//! gas metering, and one trace record per executed instruction.

use std::collections::HashMap;
use vstd::prelude::*;
use crate::isa::{Instruction, Opcode, decode_spec, decode_error_message};
use crate::field::{GOLDILOCKS_P, inverse_spec, poseidon4_spec, field_inverse_goldilocks, poseidon4_hash};
use vstd::bytes::{spec_u32_to_le_bytes, spec_u64_to_le_bytes, u32_to_le_bytes, u64_to_le_bytes};
use crate::keccak::{keccak256, keccak256_hash};
use crate::memory::{
    word_addr_spec, read_word_spec, write_word_spec, memory_word_addr, read_word, write_word,
};

verus! {

broadcast use vstd::std_specs::hash::group_hash_axioms;

/// Why execution stopped.
#[derive(Debug, Clone, PartialEq, Eq)]
pub enum VmError {
    OutOfGas,
    AssertionFailed,
    StackUnderflow,
    StackOverflow,
    InvalidOpcode(String),
    InvalidPc,
    InvalidMemoryAccess,
}

/// A `VmError` as a plain value.
pub enum VmFault {
    OutOfGas,
    AssertionFailed,
    StackUnderflow,
    StackOverflow,
    InvalidOpcode(Seq<char>),
    InvalidPc,
    InvalidMemoryAccess,
}

impl View for VmError {
    type V = VmFault;

    open spec fn view(&self) -> VmFault {
        match self {
            VmError::OutOfGas => VmFault::OutOfGas,
            VmError::AssertionFailed => VmFault::AssertionFailed,
            VmError::StackUnderflow => VmFault::StackUnderflow,
            VmError::StackOverflow => VmFault::StackOverflow,
            VmError::InvalidOpcode(m) => VmFault::InvalidOpcode(m@),
            VmError::InvalidPc => VmFault::InvalidPc,
            VmError::InvalidMemoryAccess => VmFault::InvalidMemoryAccess,
        }
    }
}

/// The outcome of a run.
#[derive(Debug, Clone)]
pub struct ExecutionReceipt {
    pub success: bool,
    pub error: Option<VmError>,
    pub gas_used: u64,
    pub exit_code: u64,
    pub events: Vec<u64>,
    pub final_pc: u64,
    pub trace_len: u64,
    pub state_writes_digest: [u8; 32],
}

/// The caller's context, read by `Syscall`.
#[derive(Debug, Clone, Copy)]
pub struct Context {
    pub sender: u64,
    pub nonce: u64,
    pub block_height: u64,
}

/// The record of one executed instruction.
#[derive(Debug, Clone, Copy)]
pub struct Step {
    pub pc: usize,
    pub next_pc: usize,
    pub instruction: Instruction,
    pub src1_idx: u8,
    pub src2_idx: u8,
    pub dst_idx: u8,
    pub src1_val: u64,
    pub src2_val: u64,
    pub dst_val: u64,
    pub registers: [u64; 32],
    pub memory_addr: Option<usize>,
    pub memory_val: Option<u64>,
    pub is_memory_write: bool,
    pub stack_pointer: usize,
}

/// A `Step` as plain values.
pub struct StepView {
    pub pc: usize,
    pub next_pc: usize,
    pub instruction: Instruction,
    pub src1_idx: u8,
    pub src2_idx: u8,
    pub dst_idx: u8,
    pub src1_val: u64,
    pub src2_val: u64,
    pub dst_val: u64,
    pub registers: Seq<u64>,
    pub memory_addr: Option<usize>,
    pub memory_val: Option<u64>,
    pub is_memory_write: bool,
    pub stack_pointer: usize,
}

impl View for Step {
    type V = StepView;

    open spec fn view(&self) -> StepView {
        StepView {
            pc: self.pc,
            next_pc: self.next_pc,
            instruction: self.instruction,
            src1_idx: self.src1_idx,
            src2_idx: self.src2_idx,
            dst_idx: self.dst_idx,
            src1_val: self.src1_val,
            src2_val: self.src2_val,
            dst_val: self.dst_val,
            registers: self.registers@,
            memory_addr: self.memory_addr,
            memory_val: self.memory_val,
            is_memory_write: self.is_memory_write,
            stack_pointer: self.stack_pointer,
        }
    }
}

/// The machine.
pub struct Vm {
    pub registers: [u64; 32],
    pub pc: usize,
    pub stack: Vec<u64>,
    pub memory: Vec<u8>,
    pub storage: HashMap<i32, u64>,
    pub events: Vec<u64>,
    pub context: Context,
    pub trace: Vec<Step>,
    pub halted: bool,
    pub gas_used: u64,
    pub gas_limit: u64,
    pub error: Option<VmError>,
    pub state_writes: Vec<(i32, u64)>,
}

/// A `Vm` as plain values.
#[verifier::ext_equal]
pub struct VmView {
    pub registers: Seq<u64>,
    pub pc: usize,
    pub stack: Seq<u64>,
    pub memory: Seq<u8>,
    pub storage: Map<i32, u64>,
    pub events: Seq<u64>,
    pub context: Context,
    pub trace: Seq<StepView>,
    pub halted: bool,
    pub gas_used: u64,
    pub gas_limit: u64,
    pub error: Option<VmFault>,
    pub state_writes: Seq<(i32, u64)>,
}

/// The views of a sequence of trace records.
pub open spec fn trace_view(t: Seq<Step>) -> Seq<StepView> {
    t.map_values(|s: Step| s@)
}

impl View for Vm {
    type V = VmView;

    open spec fn view(&self) -> VmView {
        VmView {
            registers: self.registers@,
            pc: self.pc,
            stack: self.stack@,
            memory: self.memory@,
            storage: self.storage@,
            events: self.events@,
            context: self.context,
            trace: trace_view(self.trace@),
            halted: self.halted,
            gas_used: self.gas_used,
            gas_limit: self.gas_limit,
            error: match self.error {
                Some(e) => Some(e@),
                None => None,
            },
            state_writes: self.state_writes@,
        }
    }
}

/// Largest number of words on the return stack.
pub const MAX_STACK: usize = 1024;

/// Gas charged for each opcode.
pub open spec fn gas_cost_spec(op: Opcode) -> u64 {
    match op {
        Opcode::Halt => 0,
        Opcode::Load | Opcode::Store | Opcode::SRead | Opcode::SWrite => 3,
        Opcode::Poseidon | Opcode::VerifyMerkle => 10,
        Opcode::Call | Opcode::Ret | Opcode::Push | Opcode::Pop => 2,
        Opcode::Syscall => 5,
        _ => 1,
    }
}

/// The opcodes that compute a register from the two source registers
/// alone.
pub open spec fn is_alu(op: Opcode) -> bool {
    match op {
        Opcode::Add | Opcode::Sub | Opcode::Mul | Opcode::Div | Opcode::Inv | Opcode::And
        | Opcode::Or | Opcode::Xor | Opcode::Not | Opcode::Eq | Opcode::Neq | Opcode::Lt
        | Opcode::Gt | Opcode::Lte | Opcode::Gte | Opcode::Poseidon => true,
        _ => false,
    }
}

/// 1 where `c` holds, else 0.
pub open spec fn flag(c: bool) -> u64 {
    if c { 1 } else { 0 }
}

/// What such an opcode computes from `a` (first source) and `b` (second
/// source): wrapping 64-bit `Add`, `Sub`, `Mul`; field division and
/// inverse modulo the Goldilocks prime (0 where the divisor is 0); bitwise
/// `And`, `Or`, `Xor`; `Not` as 1 exactly when `a` is 0; the comparisons
/// as 0 or 1; and the Poseidon hash of `(a, b)`.
pub open spec fn alu_spec(op: Opcode, a: u64, b: u64) -> u64 {
    match op {
        Opcode::Add => a.wrapping_add(b),
        Opcode::Sub => a.wrapping_sub(b),
        Opcode::Mul => a.wrapping_mul(b),
        Opcode::Div => if b != 0 {
            ((a * inverse_spec(b)) % (GOLDILOCKS_P as int)) as u64
        } else {
            0
        },
        Opcode::Inv => if a != 0 {
            inverse_spec(a) as u64
        } else {
            0
        },
        Opcode::And => a & b,
        Opcode::Or => a | b,
        Opcode::Xor => a ^ b,
        Opcode::Not => flag(a == 0),
        Opcode::Eq => flag(a == b),
        Opcode::Neq => flag(a != b),
        Opcode::Lt => flag(a < b),
        Opcode::Gt => flag(a > b),
        Opcode::Lte => flag(a <= b),
        Opcode::Gte => flag(a >= b),
        Opcode::Poseidon => poseidon4_spec(a, b) as u64,
        _ => 0,
    }
}

/// The jump target `pc + imm`, as the machine's word size wraps it.
pub open spec fn jump_target(pc: usize, imm: i32) -> usize {
    (pc + imm) as usize
}

/// The storage slot an `SRead`/`SWrite` names: the immediate, or the
/// second source register's low 32 bits where the immediate is -1.
pub open spec fn slot_spec(imm: i32, b: u64) -> i32 {
    if imm == -1 {
        b as i32
    } else {
        imm
    }
}

/// What `Syscall` reads: 1 the sender, 2 the block height, 3 the nonce,
/// anything else 0.
pub open spec fn syscall_spec(ctx: Context, imm: i32) -> u64 {
    if imm == 1 {
        ctx.sender
    } else if imm == 2 {
        ctx.block_height
    } else if imm == 3 {
        ctx.nonce
    } else {
        0
    }
}

/// Bytes of a Merkle path in memory: a key word, then 64 sibling words.
pub const MERKLE_PATH_BYTES: usize = 520;

/// Whether a `VerifyMerkle` path at `imm` (read as an address) runs past
/// the top of the address space and wraps to an end within a memory of
/// `len` bytes; the machine cannot read such a path.
pub open spec fn merkle_path_wraps(imm: i32, len: int) -> bool {
    let pa = (imm as usize) as int;
    pa + 520 > usize::MAX && pa + 520 - (usize::MAX + 1) <= len
}

/// The digest reached from `leaf` after `n` levels of the path at `pa`:
/// at level `i` the sibling is word `i + 1` of the path, and bit `i` of
/// the key word says whether the current digest is the right input.
pub open spec fn merkle_fold(mem: Seq<u8>, pa: int, key: u64, leaf: u64, n: nat) -> u64
    decreases n,
{
    if n == 0 {
        leaf
    } else {
        let cur = merkle_fold(mem, pa, key, leaf, (n - 1) as nat);
        let sibling = read_word_spec(mem, pa + 8 + 8 * (n - 1));
        if (key >> ((n - 1) as u64)) & 1 == 0 {
            poseidon4_spec(cur, sibling) as u64
        } else {
            poseidon4_spec(sibling, cur) as u64
        }
    }
}

/// What `VerifyMerkle` computes: 1 where the path at `imm` lies in memory
/// and hashing `leaf` up it reaches `root`, else 0.
pub open spec fn verify_merkle_spec(mem: Seq<u8>, imm: i32, leaf: u64, root: u64) -> u64 {
    let pa = (imm as usize) as int;
    if pa + 520 <= mem.len() {
        let key = read_word_spec(mem, pa);
        flag(merkle_fold(mem, pa, key, leaf, 64) == root)
    } else {
        0
    }
}

/// The state with the machine halted on `e`.
pub open spec fn halt_with(s: VmView, e: VmFault) -> VmView {
    VmView { halted: true, error: Some(e), ..s }
}

/// The state with register `r` set to `v`.
pub open spec fn set_reg(s: VmView, r: u8, v: u64) -> VmView {
    VmView { registers: s.registers.update(r as int, v), ..s }
}

/// The state with the program counter at `pc`.
pub open spec fn goto(s: VmView, pc: usize) -> VmView {
    VmView { pc, ..s }
}

/// What an instruction does once its gas is paid.
pub enum OpOutcome {
    Done {
        state: VmView,
        dst_val: u64,
        next_pc: usize,
        memory_addr: Option<usize>,
        memory_val: Option<u64>,
        is_memory_write: bool,
    },
    Fault(VmFault),
}

/// The outcome of an instruction that only writes `rd` and falls through.
pub open spec fn done_reg(s: VmView, rd: u8, v: u64) -> OpOutcome {
    OpOutcome::Done {
        state: goto(set_reg(s, rd, v), (s.pc + 1) as usize),
        dst_val: v,
        next_pc: (s.pc + 1) as usize,
        memory_addr: None,
        memory_val: None,
        is_memory_write: false,
    }
}

/// The outcome of an instruction that changes `s2`'s other parts and
/// falls through.
pub open spec fn done_next(s: VmView, s2: VmView, dst_val: u64) -> OpOutcome {
    OpOutcome::Done {
        state: goto(s2, (s.pc + 1) as usize),
        dst_val,
        next_pc: (s.pc + 1) as usize,
        memory_addr: None,
        memory_val: None,
        is_memory_write: false,
    }
}

/// The outcome of a jump to `target`.
pub open spec fn done_jump(s2: VmView, target: usize, dst_val: u64) -> OpOutcome {
    OpOutcome::Done {
        state: goto(s2, target),
        dst_val,
        next_pc: target,
        memory_addr: None,
        memory_val: None,
        is_memory_write: false,
    }
}

/// The semantics of each opcode, from the state with the gas paid.
pub open spec fn op_spec(s: VmView, inst: Instruction) -> OpOutcome {
    let a = s.registers[inst.rs1 as int];
    let b = s.registers[inst.rs2 as int];
    let cur = s.pc;
    match inst.opcode {
        Opcode::Halt => OpOutcome::Done {
            state: VmView { halted: true, ..s },
            dst_val: 0,
            next_pc: cur,
            memory_addr: None,
            memory_val: None,
            is_memory_write: false,
        },
        Opcode::Load => if inst.rs1 == 0 {
            done_reg(s, inst.rd, inst.imm as u64)
        } else {
            match word_addr_spec(a, inst.imm, s.memory.len() as int) {
                Some(addr) => {
                    let v = read_word_spec(s.memory, addr);
                    OpOutcome::Done {
                        state: goto(set_reg(s, inst.rd, v), (cur + 1) as usize),
                        dst_val: v,
                        next_pc: (cur + 1) as usize,
                        memory_addr: Some(addr as usize),
                        memory_val: Some(v),
                        is_memory_write: false,
                    }
                },
                None => OpOutcome::Fault(VmFault::InvalidMemoryAccess),
            }
        },
        Opcode::Store => match word_addr_spec(a, inst.imm, s.memory.len() as int) {
            Some(addr) => OpOutcome::Done {
                state: goto(
                    VmView { memory: write_word_spec(s.memory, addr, b), ..s },
                    (cur + 1) as usize,
                ),
                dst_val: 0,
                next_pc: (cur + 1) as usize,
                memory_addr: Some(addr as usize),
                memory_val: Some(b),
                is_memory_write: true,
            },
            None => OpOutcome::Fault(VmFault::InvalidMemoryAccess),
        },
        Opcode::Jmp => done_jump(s, jump_target(cur, inst.imm), 0),
        Opcode::Jnz => done_jump(
            s,
            if a != 0 { jump_target(cur, inst.imm) } else { (cur + 1) as usize },
            0,
        ),
        Opcode::Call => if s.stack.len() >= MAX_STACK {
            OpOutcome::Fault(VmFault::StackOverflow)
        } else {
            done_jump(
                VmView { stack: s.stack.push((cur + 1) as u64), ..s },
                jump_target(cur, inst.imm),
                (cur + 1) as u64,
            )
        },
        Opcode::Ret => if s.stack.len() == 0 {
            OpOutcome::Fault(VmFault::StackUnderflow)
        } else {
            let target = s.stack.last() as usize;
            done_jump(VmView { stack: s.stack.drop_last(), ..s }, target, target as u64)
        },
        Opcode::Push => if s.stack.len() >= MAX_STACK {
            OpOutcome::Fault(VmFault::StackOverflow)
        } else {
            done_next(s, VmView { stack: s.stack.push(a), ..s }, a)
        },
        Opcode::Pop => if s.stack.len() == 0 {
            OpOutcome::Fault(VmFault::StackUnderflow)
        } else {
            let v = s.stack.last();
            done_next(s, set_reg(VmView { stack: s.stack.drop_last(), ..s }, inst.rd, v), v)
        },
        Opcode::Assert => if a == 0 {
            OpOutcome::Fault(VmFault::AssertionFailed)
        } else {
            done_next(s, s, 0)
        },
        Opcode::SRead => {
            let slot = slot_spec(inst.imm, b);
            let v = if s.storage.contains_key(slot) { s.storage[slot] } else { 0 };
            done_reg(s, inst.rd, v)
        },
        Opcode::SWrite => {
            let slot = slot_spec(inst.imm, b);
            done_next(
                s,
                VmView {
                    storage: s.storage.insert(slot, a),
                    state_writes: s.state_writes.push((slot, a)),
                    ..s
                },
                0,
            )
        },
        Opcode::Log => done_next(s, VmView { events: s.events.push(a), ..s }, 0),
        Opcode::Syscall => done_reg(s, inst.rd, syscall_spec(s.context, inst.imm)),
        Opcode::VerifyMerkle => done_reg(s, inst.rd, verify_merkle_spec(s.memory, inst.imm, b, a)),
        _ => done_reg(s, inst.rd, alu_spec(inst.opcode, a, b)),
    }
}

/// The gas counter after charging `cost`, saturating at the top.
pub open spec fn charge(used: u64, cost: u64) -> u64 {
    if used + cost > u64::MAX {
        u64::MAX
    } else {
        (used + cost) as u64
    }
}

/// The semantics of one step of `program` from state `s0`: the new state
/// and whether the step faulted. A halted machine does nothing; otherwise
/// the instruction at the program counter is fetched, decoded, paid for
/// and executed, and recorded in the trace. r0 reads 0 throughout.
pub open spec fn step_spec(s0: VmView, program: Seq<u64>) -> (VmView, Result<(), VmFault>) {
    let s = set_reg(s0, 0, 0);
    if s.halted {
        (s, Ok(()))
    } else if s.pc >= program.len() {
        (halt_with(s, VmFault::InvalidPc), Err(VmFault::InvalidPc))
    } else {
        let raw = program[s.pc as int];
        match decode_spec(raw) {
            None => {
                let e = VmFault::InvalidOpcode(decode_error_message(raw));
                (halt_with(s, e), Err(e))
            },
            Some(inst) => {
                let s1 = VmView { gas_used: charge(s.gas_used, gas_cost_spec(inst.opcode)), ..s };
                if s1.gas_used > s1.gas_limit {
                    (halt_with(s1, VmFault::OutOfGas), Err(VmFault::OutOfGas))
                } else {
                    match op_spec(s1, inst) {
                        OpOutcome::Fault(e) => (halt_with(s1, e), Err(e)),
                        OpOutcome::Done {
                            state,
                            dst_val,
                            next_pc,
                            memory_addr,
                            memory_val,
                            is_memory_write,
                        } => {
                            let s2 = set_reg(state, 0, 0);
                            let record = StepView {
                                pc: s.pc,
                                next_pc,
                                instruction: inst,
                                src1_idx: inst.rs1,
                                src2_idx: inst.rs2,
                                dst_idx: inst.rd,
                                src1_val: s.registers[inst.rs1 as int],
                                src2_val: s.registers[inst.rs2 as int],
                                dst_val,
                                registers: s2.registers,
                                memory_addr,
                                memory_val,
                                is_memory_write,
                                stack_pointer: s2.stack.len() as usize,
                            };
                            (VmView { trace: s2.trace.push(record), ..s2 }, Ok(()))
                        },
                    }
                }
            },
        }
    }
}

/// Whether the step from `s` can be taken: the machine cannot execute a
/// `VerifyMerkle` whose path wraps past the top of the address space. One
/// that it cannot pay for is refused for gas before its path is read.
pub open spec fn step_safe(s: VmView, program: Seq<u64>) -> bool {
    !s.halted && s.pc < program.len() ==> match decode_spec(program[s.pc as int]) {
        Some(inst) => inst.opcode == Opcode::VerifyMerkle && charge(
            s.gas_used,
            gas_cost_spec(inst.opcode),
        ) <= s.gas_limit ==> !merkle_path_wraps(inst.imm, s.memory.len() as int),
        None => true,
    }
}

/// A step's result as plain values.
pub open spec fn result_fault(r: Result<(), VmError>) -> Result<(), VmFault> {
    match r {
        Ok(()) => Ok(()),
        Err(e) => Err(e@),
    }
}

/// A fresh machine: registers 0, program counter 0, `memory_size` zero
/// bytes of memory, everything else empty, no gas used.
pub open spec fn initial_view(memory_size: usize, gas_limit: u64) -> VmView {
    VmView {
        registers: Seq::new(32, |i: int| 0u64),
        pc: 0,
        stack: Seq::empty(),
        memory: Seq::new(memory_size as nat, |i: int| 0u8),
        storage: Map::empty(),
        events: Seq::empty(),
        context: Context { sender: 0, nonce: 0, block_height: 0 },
        trace: Seq::empty(),
        halted: false,
        gas_used: 0,
        gas_limit,
        error: None,
        state_writes: Seq::empty(),
    }
}

/// The gas limit of `Vm::new`.
pub const DEFAULT_GAS_LIMIT: u64 = 1_000_000;

fn flag_exec(c: bool) -> (r: u64)
    ensures
        r == flag(c),
{
    if c { 1 } else { 0 }
}

impl Vm {
    /// A fresh machine with `memory_size` bytes of memory and the default
    /// gas limit.
    pub fn new(memory_size: usize) -> (vm: Vm)
        ensures
            vm@ == initial_view(memory_size, DEFAULT_GAS_LIMIT),
    {
        Self::with_gas_limit(memory_size, DEFAULT_GAS_LIMIT)
    }

    /// A fresh machine with `memory_size` bytes of memory and the given gas
    /// limit.
    pub fn with_gas_limit(memory_size: usize, gas_limit: u64) -> (vm: Vm)
        ensures
            vm@ == initial_view(memory_size, gas_limit),
    {
        let registers: [u64; 32] = [0; 32];
        let mut memory: Vec<u8> = Vec::new();
        for i in 0..memory_size
            invariant
                memory@ == Seq::new(i as nat, |k: int| 0u8),
        {
            memory.push(0);
            assert(memory@ =~= Seq::new((i + 1) as nat, |k: int| 0u8));
        }
        let vm = Vm {
            registers,
            pc: 0,
            stack: Vec::new(),
            memory,
            storage: HashMap::new(),
            events: Vec::new(),
            context: Context { sender: 0, nonce: 0, block_height: 0 },
            trace: Vec::new(),
            halted: false,
            gas_used: 0,
            gas_limit,
            error: None,
            state_writes: Vec::new(),
        };
        assert(vm@.registers =~= Seq::new(32, |i: int| 0u64));
        assert(vm@.trace =~= Seq::<StepView>::empty());
        vm
    }

    /// Charges `amount` gas, saturating; where the total passes the limit
    /// the machine halts with `OutOfGas`.
    pub fn consume_gas(&mut self, amount: u64) -> (r: Result<(), VmError>)
        ensures
            ({
                let used = charge(old(self).gas_used, amount);
                let s1 = VmView { gas_used: used, ..old(self)@ };
                if used > old(self).gas_limit {
                    &&& final(self)@ == halt_with(s1, VmFault::OutOfGas)
                    &&& r == Err::<(), VmError>(VmError::OutOfGas)
                } else {
                    &&& final(self)@ == s1
                    &&& r is Ok
                }
            }),
    {
        self.gas_used = self.gas_used.saturating_add(amount);
        if self.gas_used > self.gas_limit {
            self.halted = true;
            self.error = Some(VmError::OutOfGas);
            return Err(VmError::OutOfGas);
        }
        Ok(())
    }

    /// The gas an opcode costs.
    pub fn gas_cost(opcode: Opcode) -> (c: u64)
        ensures
            c == gas_cost_spec(opcode),
    {
        match opcode {
            Opcode::Halt => 0,
            Opcode::Load | Opcode::Store | Opcode::SRead | Opcode::SWrite => 3,
            Opcode::Poseidon | Opcode::VerifyMerkle => 10,
            Opcode::Call | Opcode::Ret | Opcode::Push | Opcode::Pop => 2,
            Opcode::Syscall => 5,
            _ => 1,
        }
    }

    /// What a register-to-register opcode computes.
    fn alu(op: Opcode, a: u64, b: u64) -> (r: u64)
        requires
            is_alu(op),
        ensures
            r == alu_spec(op, a, b),
    {
        match op {
            Opcode::Add => a.wrapping_add(b),
            Opcode::Sub => a.wrapping_sub(b),
            Opcode::Mul => a.wrapping_mul(b),
            Opcode::Div => {
                if b != 0 {
                    let p: u128 = GOLDILOCKS_P as u128;
                    let inv = field_inverse_goldilocks(b);
                    assert((a as u128) * (inv as u128) <= u128::MAX) by (nonlinear_arith)
                        requires
                            inv < GOLDILOCKS_P,
                    ;
                    ((a as u128 * inv as u128) % p) as u64
                } else {
                    0
                }
            },
            Opcode::Inv => {
                if a != 0 {
                    field_inverse_goldilocks(a)
                } else {
                    0
                }
            },
            Opcode::And => a & b,
            Opcode::Or => a | b,
            Opcode::Xor => a ^ b,
            Opcode::Not => flag_exec(a == 0),
            Opcode::Eq => flag_exec(a == b),
            Opcode::Neq => flag_exec(a != b),
            Opcode::Lt => flag_exec(a < b),
            Opcode::Gt => flag_exec(a > b),
            Opcode::Lte => flag_exec(a <= b),
            Opcode::Gte => flag_exec(a >= b),
            _ => poseidon4_hash(a, b),
        }
    }
}

/// `VerifyMerkle`: checks the path at `imm` in `mem` from `leaf` to `root`.
fn verify_merkle(mem: &Vec<u8>, imm: i32, leaf: u64, root: u64) -> (r: u64)
    requires
        !merkle_path_wraps(imm, mem@.len() as int),
    ensures
        r == verify_merkle_spec(mem@, imm, leaf, root),
{
    let path_addr = #[verifier::truncate] (imm as usize);
    let path_end = path_addr.wrapping_add(MERKLE_PATH_BYTES);
    let n = mem.len();
    if path_end <= n {
        assert(path_addr + 520 <= mem@.len());
        let key = read_word(mem, path_addr);
        let mut current = leaf;
        for i in 0..64
            invariant
                path_addr + 520 <= n,
                n == mem@.len(),
                key == read_word_spec(mem@, path_addr as int),
                current == merkle_fold(mem@, path_addr as int, key, leaf, i as nat),
        {
            let sibling_addr = path_addr + 8 + i * 8;
            let sibling = read_word(mem, sibling_addr);
            let bit = (key >> (i as u64)) & 1;
            current = if bit == 0 {
                poseidon4_hash(current, sibling)
            } else {
                poseidon4_hash(sibling, current)
            };
        }
        flag_exec(current == root)
    } else {
        0
    }
}

/// What `execute` returns for a completed instruction: the value it
/// produced, the next program counter, and the memory word it touched.
pub type OpRecord = (u64, usize, Option<usize>, Option<u64>, bool);

/// Whether `r` is what `op_spec` says the instruction yields, and `after`
/// the state it leaves.
pub open spec fn executed(before: VmView, inst: Instruction, after: VmView, r: Result<OpRecord, VmError>) -> bool {
    match op_spec(before, inst) {
        OpOutcome::Fault(e) => after == halt_with(before, e) && (r matches Err(err) && err@ == e),
        OpOutcome::Done { state, dst_val, next_pc, memory_addr, memory_val, is_memory_write } => {
            &&& after == state
            &&& r == Ok::<OpRecord, VmError>((dst_val, next_pc, memory_addr, memory_val, is_memory_write))
        },
    }
}

impl Vm {
    fn fault(&mut self, e: VmError) -> (r: Result<OpRecord, VmError>)
        ensures
            final(self)@ == halt_with(old(self)@, e@),
            (r matches Err(err) && err@ == e@),
    {
        let v = e.view_clone();
        self.halted = true;
        self.error = Some(e);
        Err(v)
    }

    /// `Load` and `Store`.
    fn execute_memory(&mut self, inst: Instruction) -> (r: Result<OpRecord, VmError>)
        requires
            inst.opcode == Opcode::Load || inst.opcode == Opcode::Store,
            inst.rd < 32 && inst.rs1 < 32 && inst.rs2 < 32,
            old(self).pc < usize::MAX,
        ensures
            executed(old(self)@, inst, final(self)@, r),
    {
        let cur_pc = self.pc;
        let src1_val = self.registers[inst.rs1 as usize];
        let src2_val = self.registers[inst.rs2 as usize];
        if inst.opcode == Opcode::Load {
            if inst.rs1 == 0 {
                let result = #[verifier::truncate] (inst.imm as u64);
                self.registers[inst.rd as usize] = result;
                self.pc = cur_pc + 1;
                return Ok((result, cur_pc + 1, None, None, false));
            }
            match memory_word_addr(src1_val, inst.imm, self.memory.len()) {
                Some(addr) => {
                    let val = read_word(&self.memory, addr);
                    self.registers[inst.rd as usize] = val;
                    self.pc = cur_pc + 1;
                    Ok((val, cur_pc + 1, Some(addr), Some(val), false))
                },
                None => self.fault(VmError::InvalidMemoryAccess),
            }
        } else {
            match memory_word_addr(src1_val, inst.imm, self.memory.len()) {
                Some(addr) => {
                    write_word(&mut self.memory, addr, src2_val);
                    self.pc = cur_pc + 1;
                    Ok((0, cur_pc + 1, Some(addr), Some(src2_val), true))
                },
                None => self.fault(VmError::InvalidMemoryAccess),
            }
        }
    }
}

impl VmError {
    /// A copy of the error.
    pub fn view_clone(&self) -> (r: VmError)
        ensures
            r@ == self@,
    {
        match self {
            VmError::OutOfGas => VmError::OutOfGas,
            VmError::AssertionFailed => VmError::AssertionFailed,
            VmError::StackUnderflow => VmError::StackUnderflow,
            VmError::StackOverflow => VmError::StackOverflow,
            VmError::InvalidOpcode(m) => VmError::InvalidOpcode(m.clone()),
            VmError::InvalidPc => VmError::InvalidPc,
            VmError::InvalidMemoryAccess => VmError::InvalidMemoryAccess,
        }
    }
}

fn jump_target_exec(pc: usize, imm: i32) -> (t: usize)
    ensures
        t == jump_target(pc, imm),
{
    #[verifier::truncate] ((pc as i128 + imm as i128) as usize)
}

impl Vm {
    /// `Jmp`, `Jnz`, `Call`, `Ret`, `Push` and `Pop`.
    fn execute_control(&mut self, inst: Instruction) -> (r: Result<OpRecord, VmError>)
        requires
            inst.opcode == Opcode::Jmp || inst.opcode == Opcode::Jnz || inst.opcode == Opcode::Call
                || inst.opcode == Opcode::Ret || inst.opcode == Opcode::Push || inst.opcode
                == Opcode::Pop,
            inst.rd < 32 && inst.rs1 < 32 && inst.rs2 < 32,
            old(self).pc < usize::MAX,
        ensures
            executed(old(self)@, inst, final(self)@, r),
    {
        let cur_pc = self.pc;
        let src1_val = self.registers[inst.rs1 as usize];
        match inst.opcode {
            Opcode::Jmp => {
                let target = jump_target_exec(cur_pc, inst.imm);
                self.pc = target;
                Ok((0, target, None, None, false))
            },
            Opcode::Jnz => {
                let target = if src1_val != 0 {
                    jump_target_exec(cur_pc, inst.imm)
                } else {
                    cur_pc + 1
                };
                self.pc = target;
                Ok((0, target, None, None, false))
            },
            Opcode::Call => {
                if self.stack.len() >= MAX_STACK {
                    return self.fault(VmError::StackOverflow);
                }
                let target = jump_target_exec(cur_pc, inst.imm);
                self.stack.push((cur_pc + 1) as u64);
                self.pc = target;
                Ok(((cur_pc + 1) as u64, target, None, None, false))
            },
            Opcode::Ret => {
                let target = match self.stack.pop() {
                    Some(val) => #[verifier::truncate] (val as usize),
                    None => {
                        return self.fault(VmError::StackUnderflow);
                    },
                };
                self.pc = target;
                Ok((target as u64, target, None, None, false))
            },
            Opcode::Push => {
                if self.stack.len() >= MAX_STACK {
                    return self.fault(VmError::StackOverflow);
                }
                self.stack.push(src1_val);
                self.pc = cur_pc + 1;
                Ok((src1_val, cur_pc + 1, None, None, false))
            },
            _ => {
                let result = match self.stack.pop() {
                    Some(val) => val,
                    None => {
                        return self.fault(VmError::StackUnderflow);
                    },
                };
                self.registers[inst.rd as usize] = result;
                self.pc = cur_pc + 1;
                Ok((result, cur_pc + 1, None, None, false))
            },
        }
    }

    /// `SRead` and `SWrite`.
    fn execute_storage(&mut self, inst: Instruction) -> (r: Result<OpRecord, VmError>)
        requires
            inst.opcode == Opcode::SRead || inst.opcode == Opcode::SWrite,
            inst.rd < 32 && inst.rs1 < 32 && inst.rs2 < 32,
            old(self).pc < usize::MAX,
        ensures
            executed(old(self)@, inst, final(self)@, r),
    {
        let cur_pc = self.pc;
        let src1_val = self.registers[inst.rs1 as usize];
        let src2_val = self.registers[inst.rs2 as usize];
        let slot: i32 = if inst.imm == -1 {
            #[verifier::truncate] (src2_val as i32)
        } else {
            inst.imm
        };
        if inst.opcode == Opcode::SRead {
            let val = match self.storage.get(&slot) {
                Some(v) => *v,
                None => 0,
            };
            self.registers[inst.rd as usize] = val;
            self.pc = cur_pc + 1;
            Ok((val, cur_pc + 1, None, None, false))
        } else {
            self.storage.insert(slot, src1_val);
            self.state_writes.push((slot, src1_val));
            self.pc = cur_pc + 1;
            Ok((0, cur_pc + 1, None, None, false))
        }
    }
}

impl Vm {
    /// Executes a decoded instruction whose gas has been paid.
    fn execute(&mut self, inst: Instruction) -> (r: Result<OpRecord, VmError>)
        requires
            inst.rd < 32 && inst.rs1 < 32 && inst.rs2 < 32,
            old(self).pc < usize::MAX,
            inst.opcode == Opcode::VerifyMerkle ==> !merkle_path_wraps(
                inst.imm,
                old(self).memory@.len() as int,
            ),
        ensures
            executed(old(self)@, inst, final(self)@, r),
    {
        let cur_pc = self.pc;
        let src1_val = self.registers[inst.rs1 as usize];
        let src2_val = self.registers[inst.rs2 as usize];
        match inst.opcode {
            Opcode::Halt => {
                self.halted = true;
                Ok((0, cur_pc, None, None, false))
            },
            Opcode::Load | Opcode::Store => self.execute_memory(inst),
            Opcode::Jmp | Opcode::Jnz | Opcode::Call | Opcode::Ret | Opcode::Push | Opcode::Pop => {
                self.execute_control(inst)
            },
            Opcode::SRead | Opcode::SWrite => self.execute_storage(inst),
            Opcode::Assert => {
                if src1_val == 0 {
                    return self.fault(VmError::AssertionFailed);
                }
                self.pc = cur_pc + 1;
                Ok((0, cur_pc + 1, None, None, false))
            },
            Opcode::Log => {
                self.events.push(src1_val);
                self.pc = cur_pc + 1;
                Ok((0, cur_pc + 1, None, None, false))
            },
            Opcode::Syscall => {
                let result = if inst.imm == 1 {
                    self.context.sender
                } else if inst.imm == 2 {
                    self.context.block_height
                } else if inst.imm == 3 {
                    self.context.nonce
                } else {
                    0
                };
                self.registers[inst.rd as usize] = result;
                self.pc = cur_pc + 1;
                Ok((result, cur_pc + 1, None, None, false))
            },
            Opcode::VerifyMerkle => {
                let result = verify_merkle(&self.memory, inst.imm, src2_val, src1_val);
                self.registers[inst.rd as usize] = result;
                self.pc = cur_pc + 1;
                Ok((result, cur_pc + 1, None, None, false))
            },
            _ => {
                let result = Self::alu(inst.opcode, src1_val, src2_val);
                self.registers[inst.rd as usize] = result;
                self.pc = cur_pc + 1;
                Ok((result, cur_pc + 1, None, None, false))
            },
        }
    }

    /// Executes one instruction of `program`: see `step_spec`. A halted
    /// machine stays as it is; a fault halts the machine and is returned.
    pub fn step(&mut self, program: &[u64]) -> (r: Result<(), VmError>)
        requires
            step_safe(old(self)@, program@),
        ensures
            final(self)@ == step_spec(old(self)@, program@).0,
            result_fault(r) == step_spec(old(self)@, program@).1,
    {
        self.registers[0] = 0;
        if self.halted {
            return Ok(());
        }
        if self.pc >= program.len() {
            self.halted = true;
            self.error = Some(VmError::InvalidPc);
            return Err(VmError::InvalidPc);
        }
        let raw_inst = program[self.pc];
        let inst = match Instruction::decode(raw_inst) {
            Ok(i) => i,
            Err(e) => {
                self.halted = true;
                self.error = Some(VmError::InvalidOpcode(e.clone()));
                return Err(VmError::InvalidOpcode(e));
            },
        };
        let cur_pc = self.pc;
        let ghost s = self@;
        match self.consume_gas(Self::gas_cost(inst.opcode)) {
            Ok(()) => {},
            Err(e) => {
                return Err(e);
            },
        }
        let src1_idx = inst.rs1;
        let src2_idx = inst.rs2;
        let dst_idx = inst.rd;
        let src1_val = self.registers[src1_idx as usize];
        let src2_val = self.registers[src2_idx as usize];
        let ghost s1 = self@;
        let (dst_val, next_pc, memory_addr, memory_val, is_memory_write) = match self.execute(inst) {
            Ok(rec) => rec,
            Err(e) => {
                return Err(e);
            },
        };
        self.registers[0] = 0;
        let record = Step {
            pc: cur_pc,
            next_pc,
            instruction: inst,
            src1_idx,
            src2_idx,
            dst_idx,
            src1_val,
            src2_val,
            dst_val,
            registers: self.registers,
            memory_addr,
            memory_val,
            is_memory_write,
            stack_pointer: self.stack.len(),
        };
        let ghost old_trace = self.trace@;
        self.trace.push(record);
        proof {
            assert(trace_view(self.trace@) =~= trace_view(old_trace).push(record@));
        }
        Ok(())
    }
}

/// How many writes in `s` name a slot at or below `slot`.
pub open spec fn count_le(s: Seq<(i32, u64)>, slot: i32) -> nat
    decreases s.len(),
{
    if s.len() == 0 {
        0
    } else {
        count_le(s.drop_last(), slot) + if s.last().0 <= slot { 1nat } else { 0nat }
    }
}

/// `s` with `w` placed after every write whose slot is at or below `w`'s.
pub open spec fn insert_write(s: Seq<(i32, u64)>, w: (i32, u64)) -> Seq<(i32, u64)> {
    s.insert(count_le(s, w.0) as int, w)
}

/// The writes sorted by slot, writes to one slot kept in the order they
/// were made (a stable insertion sort).
pub open spec fn sort_writes(ws: Seq<(i32, u64)>) -> Seq<(i32, u64)>
    decreases ws.len(),
{
    if ws.len() == 0 {
        Seq::empty()
    } else {
        insert_write(sort_writes(ws.drop_last()), ws.last())
    }
}

/// The bytes of a sequence of writes: for each, its slot as a
/// little-endian 32-bit word, then its value as a little-endian 64-bit
/// word.
pub open spec fn writes_preimage(ws: Seq<(i32, u64)>) -> Seq<u8>
    decreases ws.len(),
{
    if ws.len() == 0 {
        Seq::empty()
    } else {
        writes_preimage(ws.drop_last()) + spec_u32_to_le_bytes(ws.last().0 as u32)
            + spec_u64_to_le_bytes(ws.last().1)
    }
}

/// The digest of a run's storage writes: Keccak-256 of the bytes of the
/// writes sorted by slot, or 32 zero bytes where there are no writes.
pub open spec fn writes_digest(ws: Seq<(i32, u64)>) -> Seq<u8> {
    let bytes = writes_preimage(sort_writes(ws));
    if bytes.len() == 0 {
        Seq::new(32, |i: int| 0u8)
    } else {
        keccak256(bytes)
    }
}

proof fn lemma_count_le_bound(s: Seq<(i32, u64)>, slot: i32)
    ensures
        count_le(s, slot) <= s.len(),
    decreases s.len(),
{
    if s.len() > 0 {
        lemma_count_le_bound(s.drop_last(), slot);
    }
}

proof fn lemma_sort_writes_len(ws: Seq<(i32, u64)>)
    ensures
        sort_writes(ws).len() == ws.len(),
    decreases ws.len(),
{
    if ws.len() > 0 {
        lemma_sort_writes_len(ws.drop_last());
        lemma_count_le_bound(sort_writes(ws.drop_last()), ws.last().0);
    }
}

proof fn lemma_writes_preimage_len(ws: Seq<(i32, u64)>)
    ensures
        writes_preimage(ws).len() == 12 * ws.len(),
    decreases ws.len(),
{
    vstd::bytes::lemma_auto_spec_u32_to_from_le_bytes();
    vstd::bytes::lemma_auto_spec_u64_to_from_le_bytes();
    if ws.len() > 0 {
        lemma_writes_preimage_len(ws.drop_last());
        assert(spec_u32_to_le_bytes(ws.last().0 as u32).len() == 4);
        assert(spec_u64_to_le_bytes(ws.last().1).len() == 8);
    }
}

/// How many writes in `s` name a slot at or below `slot`.
fn count_le_exec(s: &Vec<(i32, u64)>, slot: i32) -> (n: usize)
    ensures
        n == count_le(s@, slot),
{
    let mut n: usize = 0;
    for i in 0..s.len()
        invariant
            n == count_le(s@.subrange(0, i as int), slot),
            n <= i,
    {
        assert(s@.subrange(0, i + 1).drop_last() == s@.subrange(0, i as int));
        if s[i].0 <= slot {
            n = n + 1;
        }
    }
    assert(s@.subrange(0, s@.len() as int) == s@);
    n
}

/// The writes sorted by slot, writes to one slot in the order they were
/// made.
pub fn sort_state_writes(ws: &Vec<(i32, u64)>) -> (sorted: Vec<(i32, u64)>)
    ensures
        sorted@ == sort_writes(ws@),
{
    let mut sorted: Vec<(i32, u64)> = Vec::new();
    for i in 0..ws.len()
        invariant
            sorted@ == sort_writes(ws@.subrange(0, i as int)),
    {
        let w = ws[i];
        let pos = count_le_exec(&sorted, w.0);
        proof {
            lemma_count_le_bound(sorted@, w.0);
            assert(ws@.subrange(0, i + 1).drop_last() == ws@.subrange(0, i as int));
            assert(ws@.subrange(0, i + 1).last() == w);
        }
        sorted.insert(pos, w);
    }
    assert(ws@.subrange(0, ws@.len() as int) == ws@);
    sorted
}

/// The bytes of a sequence of writes (see `writes_preimage`).
pub fn state_writes_preimage(ws: &Vec<(i32, u64)>) -> (bytes: Vec<u8>)
    ensures
        bytes@ == writes_preimage(ws@),
{
    let mut bytes: Vec<u8> = Vec::new();
    for i in 0..ws.len()
        invariant
            bytes@ == writes_preimage(ws@.subrange(0, i as int)),
    {
        let (slot, val) = ws[i];
        let slot_bytes = u32_to_le_bytes(slot as u32);
        let val_bytes = u64_to_le_bytes(val);
        let ghost before = bytes@;
        for j in 0..4
            invariant
                slot_bytes@.len() == 4,
                bytes@ == before + slot_bytes@.subrange(0, j as int),
        {
            bytes.push(slot_bytes[j]);
            assert(slot_bytes@.subrange(0, j + 1) == slot_bytes@.subrange(0, j as int).push(slot_bytes@[j as int]));
        }
        assert(slot_bytes@.subrange(0, 4) == slot_bytes@);
        let ghost mid = bytes@;
        for j in 0..8
            invariant
                val_bytes@.len() == 8,
                bytes@ == mid + val_bytes@.subrange(0, j as int),
        {
            bytes.push(val_bytes[j]);
            assert(val_bytes@.subrange(0, j + 1) == val_bytes@.subrange(0, j as int).push(val_bytes@[j as int]));
        }
        assert(val_bytes@.subrange(0, 8) == val_bytes@);
        assert(ws@.subrange(0, i + 1).drop_last() == ws@.subrange(0, i as int));
        assert(ws@.subrange(0, i + 1).last() == (slot, val));
    }
    assert(ws@.subrange(0, ws@.len() as int) == ws@);
    bytes
}

/// The digest of a run's storage writes (see `writes_digest`).
pub fn state_writes_digest(ws: &Vec<(i32, u64)>) -> (digest: [u8; 32])
    ensures
        digest@ == writes_digest(ws@),
{
    let sorted = sort_state_writes(ws);
    let bytes = state_writes_preimage(&sorted);
    if bytes.len() == 0 {
        let zero: [u8; 32] = [0u8; 32];
        assert(zero@ =~= Seq::new(32, |i: int| 0u8));
        zero
    } else {
        keccak256_hash(bytes.as_slice())
    }
}

/// A step that completes without halting the machine leaves the gas limit
/// as it was and charges at least one unit of gas, within the limit; a
/// step that completes and halts it charges none, within the limit too.
pub proof fn lemma_step_progress(s: VmView, program: Seq<u64>)
    requires
        !s.halted,
        s.gas_limit < u64::MAX,
        step_spec(s, program).1 is Ok,
    ensures
        step_spec(s, program).0.gas_limit == s.gas_limit,
        step_spec(s, program).0.gas_used <= s.gas_limit,
        step_spec(s, program).0.gas_used >= s.gas_used,
        !step_spec(s, program).0.halted ==> step_spec(s, program).0.gas_used > s.gas_used,
        step_spec(s, program).0.memory.len() == s.memory.len(),
{
    let s0 = set_reg(s, 0, 0);
    let inst = decode_spec(program[s0.pc as int])->0;
    let s1 = VmView { gas_used: charge(s0.gas_used, gas_cost_spec(inst.opcode)), ..s0 };
    lemma_op_frame(s1, inst);
}

/// What every completed instruction leaves alone: the gas counters, the
/// memory's length; and only `Halt` halts.
pub proof fn lemma_op_frame(s: VmView, inst: Instruction)
    requires
        inst.rd < 32 && inst.rs1 < 32 && inst.rs2 < 32,
    ensures
        op_spec(s, inst) matches OpOutcome::Done { state, .. } ==> {
            &&& state.gas_used == s.gas_used
            &&& state.gas_limit == s.gas_limit
            &&& state.memory.len() == s.memory.len()
            &&& state.halted == (s.halted || inst.opcode == Opcode::Halt)
        },
{
    let a = s.registers[inst.rs1 as int];
    let b = s.registers[inst.rs2 as int];
    if inst.opcode == Opcode::Store {
        match word_addr_spec(a, inst.imm, s.memory.len() as int) {
            Some(addr) => {
                crate::memory::lemma_read_after_write(s.memory, addr, b, addr);
            },
            None => {},
        }
    }
}

/// The run of `program` from `s`: steps until the machine halts or a step
/// faults; the final state, and the fault if there was one. Each executed
/// step adds a record to the trace, which no machine can hold past
/// `usize::MAX` records: a run stops at that length.
pub open spec fn run_spec(s: VmView, program: Seq<u64>) -> (VmView, Option<VmFault>)
    decreases usize::MAX - s.trace.len(),
{
    if s.halted {
        (s, None)
    } else {
        let next = step_spec(s, program);
        match next.1 {
            Err(e) => (next.0, Some(e)),
            Ok(()) => if next.0.halted || next.0.trace.len() > usize::MAX {
                (next.0, None)
            } else {
                proof {
                    crate::vm_laws::lemma_step_accounting(s, program);
                }
                run_spec(next.0, program)
            },
        }
    }
}

/// Whether every step of the run of `program` from `s` can be taken: no
/// instruction the run executes is a `VerifyMerkle` whose path wraps past
/// the top of the address space.
pub open spec fn run_safe(s: VmView, program: Seq<u64>) -> bool
    decreases usize::MAX - s.trace.len(),
{
    if s.halted {
        true
    } else if !step_safe(s, program) {
        false
    } else {
        let next = step_spec(s, program);
        match next.1 {
            Err(_) => true,
            Ok(()) => if next.0.halted || next.0.trace.len() > usize::MAX {
                true
            } else {
                proof {
                    crate::vm_laws::lemma_step_accounting(s, program);
                }
                run_safe(next.0, program)
            },
        }
    }
}

/// An `ExecutionReceipt` as plain values.
pub struct ReceiptView {
    pub success: bool,
    pub error: Option<VmFault>,
    pub gas_used: u64,
    pub exit_code: u64,
    pub events: Seq<u64>,
    pub final_pc: u64,
    pub trace_len: u64,
    pub state_writes_digest: Seq<u8>,
}

impl View for ExecutionReceipt {
    type V = ReceiptView;

    open spec fn view(&self) -> ReceiptView {
        ReceiptView {
            success: self.success,
            error: match self.error {
                Some(e) => Some(e@),
                None => None,
            },
            gas_used: self.gas_used,
            exit_code: self.exit_code,
            events: self.events@,
            final_pc: self.final_pc,
            trace_len: self.trace_len,
            state_writes_digest: self.state_writes_digest@,
        }
    }
}

/// The receipt of a run that ended in state `fin` with fault `err`.
pub open spec fn receipt_spec(fin: VmView, err: Option<VmFault>) -> ReceiptView {
    ReceiptView {
        success: err is None,
        error: err,
        gas_used: fin.gas_used,
        exit_code: if err is None { 0 } else { 1 },
        events: fin.events,
        final_pc: fin.pc as u64,
        trace_len: fin.trace.len() as u64,
        state_writes_digest: writes_digest(fin.state_writes),
    }
}

fn copy_vec<T: Copy>(v: &Vec<T>) -> (r: Vec<T>)
    ensures
        r@ == v@,
{
    let mut r: Vec<T> = Vec::new();
    for i in 0..v.len()
        invariant
            r@ == v@.subrange(0, i as int),
    {
        r.push(v[i]);
        assert(v@.subrange(0, i + 1) == v@.subrange(0, i as int).push(v@[i as int]));
    }
    assert(v@.subrange(0, v@.len() as int) == v@);
    r
}

/// A fault as plain values, if there is one.
pub open spec fn fault_view(error: Option<VmError>) -> Option<VmFault> {
    match error {
        Some(e) => Some(e@),
        None => None,
    }
}

impl Vm {
    /// A copy of the machine.
    fn duplicate(&self) -> (r: Vm)
        ensures
            r@ == self@,
    {
        let error = match &self.error {
            Some(e) => Some(e.view_clone()),
            None => None,
        };
        let r = Vm {
            registers: self.registers,
            pc: self.pc,
            stack: copy_vec(&self.stack),
            memory: copy_vec(&self.memory),
            storage: self.storage.clone(),
            events: copy_vec(&self.events),
            context: self.context,
            trace: copy_vec(&self.trace),
            halted: self.halted,
            gas_used: self.gas_used,
            gas_limit: self.gas_limit,
            error,
            state_writes: copy_vec(&self.state_writes),
        };
        assert(r@ =~= self@);
        r
    }

    /// The receipt of the machine as it stands, for a run that ended with
    /// `error`: whether it succeeded, the fault, the gas used, the exit
    /// code (0 or 1), the events, the program counter, the trace length and
    /// the digest of the storage writes.
    pub fn receipt(&self, error: Option<VmError>) -> (receipt: ExecutionReceipt)
        ensures
            receipt@ == receipt_spec(self@, fault_view(error)),
    {
        let state_writes_digest = state_writes_digest(&self.state_writes);
        let success = error.is_none();
        let exit_code: u64 = if success { 0 } else { 1 };
        ExecutionReceipt {
            success,
            error,
            gas_used: self.gas_used,
            exit_code,
            events: copy_vec(&self.events),
            final_pc: self.pc as u64,
            trace_len: self.trace.len() as u64,
            state_writes_digest,
        }
    }

    /// Whether every step that the run of `program` from this state
    /// reaches may be taken (see `run_safe`): the condition under which
    /// `run` and `run_receipt` may be called. The run is tried on a copy.
    pub fn run_is_safe(&self, program: &[u64]) -> (r: bool)
        ensures
            r == run_safe(self@, program@),
    {
        let mut vm = self.duplicate();
        loop
            invariant
                run_safe(vm@, program@) == run_safe(self@, program@),
            decreases usize::MAX - vm.trace@.len(),
        {
            if vm.halted {
                return true;
            }
            if !vm.step_is_safe(program) {
                return false;
            }
            let ghost before = vm@;
            match vm.step(program) {
                Err(_) => {
                    return true;
                },
                Ok(()) => {
                    proof {
                        crate::vm_laws::lemma_step_accounting(before, program@);
                        assert(vm.trace@.len() == vm.trace.len());
                    }
                },
            }
        }
    }
}

impl Vm {
    /// Runs `program` until the machine halts or a step faults, and
    /// returns the receipt: whether it succeeded, the fault, the gas used,
    /// the exit code (0 or 1), the events, the final program counter, the
    /// trace length and the digest of the storage writes.
    pub fn run_receipt(&mut self, program: &[u64]) -> (receipt: ExecutionReceipt)
        requires
            run_safe(old(self)@, program@),
        ensures
            final(self)@ == run_spec(old(self)@, program@).0,
            receipt@ == receipt_spec(run_spec(old(self)@, program@).0, run_spec(old(self)@, program@).1),
    {
        let mut error: Option<VmError> = None;
        let ghost target = run_spec(self@, program@);
        loop
            invariant_except_break
                run_spec(self@, program@) == target,
                run_safe(self@, program@),
                error is None,
            ensures
                self@ == target.0,
                match error {
                    Some(e) => target.1 == Some(e@),
                    None => target.1 is None,
                },
            decreases usize::MAX - self.trace@.len(),
        {
            if self.halted {
                break;
            }
            let ghost before = self@;
            match self.step(program) {
                Err(e) => {
                    error = Some(e);
                    break;
                },
                Ok(()) => {
                    proof {
                        crate::vm_laws::lemma_step_accounting(before, program@);
                        assert(self.trace@.len() == self.trace.len());
                    }
                },
            }
        }
        self.receipt(error)
    }

    /// Runs `program` as `run_receipt` does, and returns the receipt where
    /// the run succeeded and the fault where it did not.
    pub fn run(&mut self, program: &[u64]) -> (r: Result<ExecutionReceipt, VmError>)
        requires
            run_safe(old(self)@, program@),
        ensures
            final(self)@ == run_spec(old(self)@, program@).0,
            match r {
                Ok(receipt) => {
                    &&& run_spec(old(self)@, program@).1 is None
                    &&& receipt@ == receipt_spec(run_spec(old(self)@, program@).0, None)
                },
                Err(e) => run_spec(old(self)@, program@).1 == Some(e@),
            },
    {
        let receipt = self.run_receipt(program);
        match receipt.error {
            Some(e) => Err(e),
            None => Ok(receipt),
        }
    }
}

/// Whether a `VerifyMerkle` path at `imm` wraps past the top of the
/// address space to an end within `memory_len` bytes.
pub fn merkle_path_wraps_exec(imm: i32, memory_len: usize) -> (r: bool)
    ensures
        r == merkle_path_wraps(imm, memory_len as int),
{
    let path_addr = #[verifier::truncate] (imm as usize);
    match path_addr.checked_add(MERKLE_PATH_BYTES) {
        Some(_) => false,
        None => path_addr.wrapping_add(MERKLE_PATH_BYTES) <= memory_len,
    }
}

impl Vm {
    /// Whether the next step of `program` may be taken (see `step_safe`).
    pub fn step_is_safe(&self, program: &[u64]) -> (r: bool)
        ensures
            r == step_safe(self@, program@),
    {
        if self.halted || self.pc >= program.len() {
            return true;
        }
        match Instruction::decode(program[self.pc]) {
            Ok(inst) => !(inst.opcode == Opcode::VerifyMerkle && self.gas_used.saturating_add(
                Self::gas_cost(inst.opcode),
            ) <= self.gas_limit && merkle_path_wraps_exec(inst.imm, self.memory.len())),
            Err(_) => true,
        }
    }
}

} // verus!
