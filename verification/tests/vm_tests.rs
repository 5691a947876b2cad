use budzkvm::field::poseidon4_hash;
use budzkvm::isa::{Instruction, Opcode};
use budzkvm::vm::{state_writes_digest, Vm, VmError};
use tiny_keccak::{Hasher, Keccak};

fn inst(opcode: Opcode, rd: u8, rs1: u8, rs2: u8, imm: i32) -> u64 {
    Instruction {
        opcode,
        rd,
        rs1,
        rs2,
        imm,
    }
    .encode()
}

fn keccak(data: &[u8]) -> [u8; 32] {
    let mut hasher = Keccak::v256();
    hasher.update(data);
    let mut out = [0u8; 32];
    hasher.finalize(&mut out);
    out
}

#[test]
fn push_and_pop_round_trip_through_stack() {
    let program = vec![
        inst(Opcode::Push, 0, 1, 0, 0),
        inst(Opcode::Pop, 2, 0, 0, 0),
        inst(Opcode::Halt, 0, 0, 0, 0),
    ];

    let mut vm = Vm::new(64);
    vm.registers[1] = 42;
    let receipt = vm.run_receipt(&program);

    assert!(receipt.success);
    assert_eq!(vm.registers[2], 42);
    assert!(vm.stack.is_empty());
}

#[test]
fn call_and_ret_use_return_stack() {
    let program = vec![
        inst(Opcode::Call, 0, 0, 0, 2),
        inst(Opcode::Halt, 0, 0, 0, 0),
        inst(Opcode::Load, 1, 0, 0, 7),
        inst(Opcode::Ret, 0, 0, 0, 0),
    ];

    let mut vm = Vm::new(64);
    let receipt = vm.run_receipt(&program);

    assert!(receipt.success);
    assert_eq!(vm.registers[1], 7);
    assert_eq!(vm.pc, 1);
    assert!(vm.stack.is_empty());
}

#[test]
fn gas_limit_stops_unbounded_execution() {
    let program = vec![inst(Opcode::Jmp, 0, 0, 0, 0)];
    let mut vm = Vm::with_gas_limit(64, 3);

    let receipt = vm.run_receipt(&program);
    assert!(!receipt.success);
    assert_eq!(receipt.error, Some(VmError::OutOfGas));
}

#[test]
fn gas_accounting_matches_instruction_costs() {
    let program = vec![
        inst(Opcode::Load, 1, 0, 0, 9),
        inst(Opcode::Push, 0, 1, 0, 0),
        inst(Opcode::Syscall, 2, 0, 0, 1),
        inst(Opcode::Halt, 0, 0, 0, 0),
    ];

    let mut vm = Vm::new(64);
    vm.context.sender = 77;
    let receipt = vm.run_receipt(&program);

    assert!(receipt.success);
    assert_eq!(vm.gas_used, 10);
    assert_eq!(vm.registers[1], 9);
    assert_eq!(vm.registers[2], 77);
    assert_eq!(vm.trace.len(), 4);
}

#[test]
fn step_after_halt_is_idempotent() {
    let program = vec![
        inst(Opcode::Halt, 0, 0, 0, 0),
        inst(Opcode::Load, 1, 0, 0, 99),
    ];

    let mut vm = Vm::new(64);
    let _ = vm.step(&program);

    assert!(vm.halted);
    assert_eq!(vm.pc, 0);
    assert_eq!(vm.trace.len(), 1);

    let _ = vm.step(&program);

    assert!(vm.halted);
    assert_eq!(vm.pc, 0);
    assert_eq!(vm.trace.len(), 1);
    assert_eq!(vm.registers[1], 0);
}

#[test]
fn test_memory_oob_safety() {
    let program_load_oob = vec![inst(Opcode::Load, 1, 1, 0, 100)];
    let mut vm = Vm::new(64);
    let receipt = vm.run_receipt(&program_load_oob);
    assert!(!receipt.success);
    assert_eq!(receipt.error, Some(VmError::InvalidMemoryAccess));

    let program_store_oob = vec![inst(Opcode::Store, 0, 1, 2, 100)];
    let mut vm2 = Vm::new(64);
    let receipt2 = vm2.run_receipt(&program_store_oob);
    assert!(!receipt2.success);
    assert_eq!(receipt2.error, Some(VmError::InvalidMemoryAccess));
}

#[test]
fn store_then_load_round_trip() {
    let program = vec![
        inst(Opcode::Load, 1, 0, 0, 8),
        inst(Opcode::Load, 2, 0, 0, -123456),
        inst(Opcode::Store, 0, 1, 2, 16),
        inst(Opcode::Load, 3, 1, 0, 16),
        inst(Opcode::Halt, 0, 0, 0, 0),
    ];
    let mut vm = Vm::new(64);
    let receipt = vm.run_receipt(&program);
    assert!(receipt.success);
    let expected = (-123456i64) as u64;
    assert_eq!(vm.registers[2], expected);
    assert_eq!(vm.registers[3], expected);
    assert_eq!(&vm.memory[24..32], &expected.to_le_bytes());
    assert_eq!(vm.trace[2].memory_addr, Some(24));
    assert!(vm.trace[2].is_memory_write);
    assert_eq!(vm.trace[3].memory_val, Some(expected));
    assert_eq!(vm.gas_used, 3 + 3 + 3 + 3);
}

#[test]
fn register_zero_stays_zero() {
    let program = vec![
        inst(Opcode::Load, 0, 0, 0, 5),
        inst(Opcode::Add, 1, 0, 0, 0),
        inst(Opcode::Halt, 0, 0, 0, 0),
    ];
    let mut vm = Vm::new(64);
    vm.registers[0] = 99;
    let receipt = vm.run_receipt(&program);
    assert!(receipt.success);
    assert_eq!(vm.registers[0], 0);
    assert_eq!(vm.registers[1], 0);
    assert_eq!(vm.trace[0].dst_val, 5);
    assert_eq!(vm.trace[0].registers[0], 0);
}

#[test]
fn arithmetic_and_comparisons() {
    let program = vec![
        inst(Opcode::Load, 1, 0, 0, 7),
        inst(Opcode::Load, 2, 0, 0, 3),
        inst(Opcode::Add, 3, 1, 2, 0),
        inst(Opcode::Sub, 4, 2, 1, 0),
        inst(Opcode::Mul, 5, 1, 2, 0),
        inst(Opcode::Div, 6, 1, 2, 0),
        inst(Opcode::Inv, 7, 2, 0, 0),
        inst(Opcode::And, 8, 1, 2, 0),
        inst(Opcode::Or, 9, 1, 2, 0),
        inst(Opcode::Xor, 10, 1, 2, 0),
        inst(Opcode::Not, 11, 0, 0, 0),
        inst(Opcode::Eq, 12, 1, 1, 0),
        inst(Opcode::Neq, 13, 1, 1, 0),
        inst(Opcode::Lt, 14, 2, 1, 0),
        inst(Opcode::Gt, 15, 2, 1, 0),
        inst(Opcode::Lte, 16, 1, 1, 0),
        inst(Opcode::Gte, 17, 2, 1, 0),
        inst(Opcode::Div, 18, 1, 0, 0),
        inst(Opcode::Inv, 19, 0, 0, 0),
        inst(Opcode::Poseidon, 20, 1, 2, 0),
        inst(Opcode::Halt, 0, 0, 0, 0),
    ];
    let mut vm = Vm::new(64);
    let receipt = vm.run_receipt(&program);
    assert!(receipt.success);
    assert_eq!(vm.registers[3], 10);
    assert_eq!(vm.registers[4], 3u64.wrapping_sub(7));
    assert_eq!(vm.registers[5], 21);
    assert_eq!(vm.registers[6], 12297829379609722883);
    assert_eq!(vm.registers[7], 12297829379609722881);
    assert_eq!(vm.registers[8], 3);
    assert_eq!(vm.registers[9], 7);
    assert_eq!(vm.registers[10], 4);
    assert_eq!(vm.registers[11], 1);
    assert_eq!(vm.registers[12], 1);
    assert_eq!(vm.registers[13], 0);
    assert_eq!(vm.registers[14], 1);
    assert_eq!(vm.registers[15], 0);
    assert_eq!(vm.registers[16], 1);
    assert_eq!(vm.registers[17], 0);
    assert_eq!(vm.registers[18], 0);
    assert_eq!(vm.registers[19], 0);
    assert_eq!(vm.registers[20], poseidon4_hash(7, 3));
}

#[test]
fn jnz_branches_on_nonzero() {
    let program = vec![
        inst(Opcode::Load, 1, 0, 0, 1),
        inst(Opcode::Jnz, 0, 1, 0, 2),
        inst(Opcode::Load, 2, 0, 0, 11),
        inst(Opcode::Jnz, 0, 0, 0, 5),
        inst(Opcode::Load, 3, 0, 0, 22),
        inst(Opcode::Halt, 0, 0, 0, 0),
    ];
    let mut vm = Vm::new(64);
    let receipt = vm.run_receipt(&program);
    assert!(receipt.success);
    assert_eq!(vm.registers[2], 0);
    assert_eq!(vm.registers[3], 22);
    assert_eq!(vm.trace[1].next_pc, 3);
    assert_eq!(vm.trace[2].next_pc, 4);
}

#[test]
fn assertion_failure_halts() {
    let program = vec![inst(Opcode::Assert, 0, 1, 0, 0)];
    let mut vm = Vm::new(64);
    let receipt = vm.run_receipt(&program);
    assert!(!receipt.success);
    assert_eq!(receipt.exit_code, 1);
    assert_eq!(receipt.error, Some(VmError::AssertionFailed));
    assert!(vm.halted);
    assert_eq!(vm.error, Some(VmError::AssertionFailed));
    assert_eq!(vm.trace.len(), 0);
    assert_eq!(vm.gas_used, 1);
}

#[test]
fn stack_underflow_and_overflow() {
    let mut vm = Vm::new(64);
    let receipt = vm.run_receipt(&vec![inst(Opcode::Pop, 1, 0, 0, 0)]);
    assert_eq!(receipt.error, Some(VmError::StackUnderflow));

    let mut vm = Vm::new(64);
    let receipt = vm.run_receipt(&vec![inst(Opcode::Ret, 0, 0, 0, 0)]);
    assert_eq!(receipt.error, Some(VmError::StackUnderflow));

    let program = vec![inst(Opcode::Push, 0, 1, 0, 0), inst(Opcode::Jmp, 0, 0, 0, -1)];
    let mut vm = Vm::new(64);
    let receipt = vm.run_receipt(&program);
    assert_eq!(receipt.error, Some(VmError::StackOverflow));
    assert_eq!(vm.stack.len(), 1024);
}

#[test]
fn invalid_pc_and_invalid_opcode() {
    let mut vm = Vm::new(64);
    let receipt = vm.run_receipt(&[]);
    assert_eq!(receipt.error, Some(VmError::InvalidPc));
    assert_eq!(receipt.final_pc, 0);

    let mut vm = Vm::new(64);
    let receipt = vm.run_receipt(&[0xff]);
    assert_eq!(
        receipt.error,
        Some(VmError::InvalidOpcode("unknown opcode".to_string()))
    );

    let mut vm = Vm::new(64);
    let receipt = vm.run_receipt(&[inst(Opcode::Add, 40, 0, 0, 0)]);
    assert_eq!(
        receipt.error,
        Some(VmError::InvalidOpcode("register index out of range".to_string()))
    );
    assert_eq!(vm.gas_used, 0);
}

#[test]
fn run_returns_error_or_receipt() {
    let mut vm = Vm::new(64);
    assert_eq!(
        vm.run(&[inst(Opcode::Assert, 0, 0, 0, 0)]).err(),
        Some(VmError::AssertionFailed)
    );
    let mut vm = Vm::new(64);
    let receipt = vm.run(&[inst(Opcode::Halt, 0, 0, 0, 0)]).unwrap();
    assert!(receipt.success);
    assert_eq!(receipt.exit_code, 0);
    assert_eq!(receipt.trace_len, 1);
    assert_eq!(receipt.state_writes_digest, [0u8; 32]);
}

#[test]
fn storage_events_and_digest() {
    let program = vec![
        inst(Opcode::Load, 1, 0, 0, 100),
        inst(Opcode::Load, 2, 0, 0, 5),
        inst(Opcode::SWrite, 0, 1, 0, 9),
        inst(Opcode::SWrite, 0, 2, 0, 3),
        inst(Opcode::SWrite, 0, 2, 1, -1),
        inst(Opcode::SRead, 3, 0, 0, 9),
        inst(Opcode::SRead, 4, 0, 1, -1),
        inst(Opcode::SRead, 5, 0, 0, 4),
        inst(Opcode::Log, 0, 1, 0, 0),
        inst(Opcode::Log, 0, 2, 0, 0),
        inst(Opcode::Halt, 0, 0, 0, 0),
    ];
    let mut vm = Vm::new(64);
    let receipt = vm.run_receipt(&program);
    assert!(receipt.success);
    assert_eq!(vm.registers[3], 100);
    assert_eq!(vm.registers[4], 5);
    assert_eq!(vm.registers[5], 0);
    assert_eq!(receipt.events, vec![100, 5]);
    assert_eq!(vm.state_writes, vec![(9, 100), (3, 5), (100, 5)]);
    let mut bytes = Vec::new();
    for (slot, val) in [(3i32, 5u64), (9, 100), (100, 5)] {
        bytes.extend_from_slice(&slot.to_le_bytes());
        bytes.extend_from_slice(&val.to_le_bytes());
    }
    assert_eq!(receipt.state_writes_digest, keccak(&bytes));
    assert_eq!(state_writes_digest(&vm.state_writes), keccak(&bytes));
}

#[test]
fn digest_keeps_write_order_within_a_slot() {
    let a = vec![(1i32, 10u64), (1, 20)];
    let b = vec![(1i32, 20u64), (1, 10)];
    assert_ne!(state_writes_digest(&a), state_writes_digest(&b));
    let c = vec![(2i32, 10u64), (1, 20)];
    let d = vec![(1i32, 20u64), (2, 10)];
    assert_eq!(state_writes_digest(&c), state_writes_digest(&d));
}

#[test]
fn syscall_reads_context() {
    let program = vec![
        inst(Opcode::Syscall, 1, 0, 0, 1),
        inst(Opcode::Syscall, 2, 0, 0, 2),
        inst(Opcode::Syscall, 3, 0, 0, 3),
        inst(Opcode::Syscall, 4, 0, 0, 4),
        inst(Opcode::Halt, 0, 0, 0, 0),
    ];
    let mut vm = Vm::new(64);
    vm.context.sender = 11;
    vm.context.block_height = 22;
    vm.context.nonce = 33;
    let receipt = vm.run_receipt(&program);
    assert!(receipt.success);
    assert_eq!(&vm.registers[1..5], &[11, 22, 33, 0]);
    assert_eq!(receipt.gas_used, 20);
}

#[test]
fn verify_merkle_checks_path() {
    let path_addr: usize = 8;
    let key: u64 = 0b1011;
    let leaf: u64 = 1234;
    let mut vm = Vm::new(path_addr + 520);
    vm.memory[path_addr..path_addr + 8].copy_from_slice(&key.to_le_bytes());
    let mut current = leaf;
    for i in 0..64usize {
        let sibling = (i as u64) * 1000 + 7;
        let at = path_addr + 8 + i * 8;
        vm.memory[at..at + 8].copy_from_slice(&sibling.to_le_bytes());
        current = if (key >> i) & 1 == 0 {
            poseidon4_hash(current, sibling)
        } else {
            poseidon4_hash(sibling, current)
        };
    }
    vm.registers[1] = current;
    vm.registers[2] = leaf;
    vm.registers[3] = current ^ 1;
    let program = vec![
        inst(Opcode::VerifyMerkle, 4, 1, 2, path_addr as i32),
        inst(Opcode::VerifyMerkle, 5, 3, 2, path_addr as i32),
        inst(Opcode::VerifyMerkle, 6, 1, 2, (path_addr + 1) as i32),
        inst(Opcode::Halt, 0, 0, 0, 0),
    ];
    assert!(vm.run_is_safe(&program));
    let receipt = vm.run_receipt(&program);
    assert!(receipt.success);
    assert_eq!(vm.registers[4], 1);
    assert_eq!(vm.registers[5], 0);
    assert_eq!(vm.registers[6], 0);
}

#[test]
fn wrapping_merkle_path_is_unsafe() {
    let program = vec![inst(Opcode::VerifyMerkle, 1, 0, 0, -8)];
    let vm = Vm::new(1024);
    assert!(!vm.step_is_safe(&program));
    assert!(!vm.run_is_safe(&program));
    let mut small = Vm::new(100);
    assert!(small.step_is_safe(&program));
    assert!(small.run_is_safe(&program));
    assert_eq!(small.step(&program), Ok(()));
    assert_eq!(small.registers[1], 0);
}

#[test]
fn unaffordable_merkle_step_runs_out_of_gas() {
    let program = vec![inst(Opcode::VerifyMerkle, 1, 0, 0, -1)];
    let mut vm = Vm::with_gas_limit(1024, 0);
    assert!(vm.step_is_safe(&program));
    assert_eq!(vm.step(&program), Err(VmError::OutOfGas));
    assert!(vm.halted);
    assert_eq!(vm.error, Some(VmError::OutOfGas));
    assert_eq!(vm.pc, 0);
    assert!(vm.trace.is_empty());

    let mut vm = Vm::with_gas_limit(1024, 9);
    assert!(vm.run_is_safe(&program));
    let receipt = vm.run_receipt(&program);
    assert!(!receipt.success);
    assert_eq!(receipt.error, Some(VmError::OutOfGas));
    assert_eq!(receipt.exit_code, 1);
    assert_eq!(receipt.gas_used, 10);
    assert_eq!(receipt.trace_len, 0);
}

#[test]
fn receipt_of_current_state() {
    let mut vm = Vm::new(16);
    let program = vec![inst(Opcode::Halt, 0, 0, 0, 0)];
    assert_eq!(vm.step(&program), Ok(()));
    let ok = vm.receipt(None);
    assert!(ok.success);
    assert_eq!(ok.exit_code, 0);
    assert_eq!(ok.final_pc, vm.pc as u64);
    assert_eq!(ok.trace_len, 1);
    assert_eq!(ok.state_writes_digest, [0u8; 32]);
    let failed = vm.receipt(Some(VmError::InvalidPc));
    assert!(!failed.success);
    assert_eq!(failed.exit_code, 1);
    assert_eq!(failed.error, Some(VmError::InvalidPc));
}

#[test]
fn fresh_machine() {
    let vm = Vm::with_gas_limit(16, 5);
    assert_eq!(vm.memory, vec![0u8; 16]);
    assert_eq!(vm.gas_limit, 5);
    assert_eq!(vm.registers, [0u64; 32]);
    assert!(!vm.halted);
    assert_eq!(Vm::new(8).gas_limit, 1_000_000);
    assert_eq!(Vm::gas_cost(Opcode::VerifyMerkle), 10);
    assert_eq!(Vm::gas_cost(Opcode::Halt), 0);
}

#[test]
fn consume_gas_saturates_and_halts() {
    let mut vm = Vm::with_gas_limit(8, 10);
    assert!(vm.consume_gas(10).is_ok());
    assert!(!vm.halted);
    assert_eq!(vm.consume_gas(u64::MAX), Err(VmError::OutOfGas));
    assert_eq!(vm.gas_used, u64::MAX);
    assert!(vm.halted);
}

#[test]
fn trace_grows_at_most_one_record_per_gas_unit() {
    let program = vec![
        inst(Opcode::Add, 1, 1, 1, 0),
        inst(Opcode::Jmp, 0, 0, 0, 0),
    ];
    let mut vm = Vm::with_gas_limit(16, 7);
    let receipt = vm.run_receipt(&program);
    assert_eq!(receipt.error, Some(VmError::OutOfGas));
    assert!(receipt.trace_len <= 7 + 1);
    assert_eq!(receipt.trace_len, 7);

    let halt = vec![inst(Opcode::Halt, 0, 0, 0, 0)];
    let mut vm = Vm::with_gas_limit(16, 0);
    let receipt = vm.run_receipt(&halt);
    assert!(receipt.success);
    assert_eq!(receipt.trace_len, 1);
}

#[test]
fn run_with_unlimited_gas() {
    let halt = vec![inst(Opcode::Halt, 0, 0, 0, 0)];
    let mut vm = Vm::with_gas_limit(16, u64::MAX);
    assert!(vm.run_is_safe(&halt));
    let receipt = vm.run_receipt(&halt);
    assert!(receipt.success);
    assert_eq!(receipt.exit_code, 0);
    assert_eq!(receipt.trace_len, 1);
    assert_eq!(receipt.gas_used, 0);

    let program = vec![
        inst(Opcode::Add, 1, 1, 2, 0),
        inst(Opcode::Add, 1, 1, 2, 0),
        inst(Opcode::Assert, 0, 0, 0, 0),
    ];
    let mut vm = Vm::with_gas_limit(16, u64::MAX);
    vm.registers[2] = 5;
    let result = vm.run(&program);
    assert!(matches!(result, Err(VmError::AssertionFailed)));
    assert_eq!(vm.registers[1], 10);
    assert_eq!(vm.trace.len(), 2);

    let mut vm = Vm::with_gas_limit(16, u64::MAX);
    vm.gas_used = u64::MAX - 1;
    let receipt = vm.run_receipt(&halt);
    assert!(receipt.success);
    assert_eq!(receipt.gas_used, u64::MAX - 1);
}
