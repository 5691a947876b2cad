//! Properties of the machine's semantics that hold of every state and
//! program.

use vstd::prelude::*;
use crate::isa::{Instruction, Opcode, decode_spec};
use crate::memory::{word_addr_spec, read_word_spec, lemma_read_after_write};
use crate::vm::{
    count_le, insert_write, sort_writes, writes_digest,
    VmView, VmFault, OpOutcome, op_spec, step_spec, run_spec, gas_cost_spec, set_reg, MAX_STACK,
    lemma_step_progress, lemma_op_frame, charge, verify_merkle_spec, merkle_fold, receipt_spec,
};
use crate::field::{poseidon4_spec, GOLDILOCKS_P};
use vstd::arithmetic::power::pow;
use crate::smt::bit_of;

verus! {

/// Register 0 reads 0 after every step.
pub proof fn lemma_r0_is_zero(s: VmView, program: Seq<u64>)
    requires
        s.registers.len() == 32,
    ensures
        step_spec(s, program).0.registers[0] == 0,
        step_spec(s, program).0.registers.len() == 32,
{
}

/// Stepping a halted machine changes nothing (but that r0 reads 0) and
/// succeeds.
pub proof fn lemma_halted_step_is_identity(s: VmView, program: Seq<u64>)
    requires
        s.halted,
        s.registers.len() == 32,
        s.registers[0] == 0,
    ensures
        step_spec(s, program).0 == s,
        step_spec(s, program).1 == Ok::<(), VmFault>(()),
{
    assert(set_reg(s, 0, 0).registers =~= s.registers);
}

/// A step either executes one instruction, charging its cost and adding
/// one record to the trace, or faults, leaving the trace as it was.
pub proof fn lemma_step_accounting(s: VmView, program: Seq<u64>)
    requires
        !s.halted,
    ensures
        step_spec(s, program).1 is Ok ==> {
            &&& s.pc < program.len()
            &&& decode_spec(program[s.pc as int]) is Some
            &&& step_spec(s, program).0.trace.len() == s.trace.len() + 1
            &&& step_spec(s, program).0.trace.subrange(0, s.trace.len() as int) == s.trace
            &&& step_spec(s, program).0.trace.last().pc == s.pc
            &&& step_spec(s, program).0.trace.last().instruction == decode_spec(program[s.pc as int])->0
            &&& s.gas_used + gas_cost_spec(decode_spec(program[s.pc as int])->0.opcode) <= u64::MAX
                ==> step_spec(s, program).0.gas_used == s.gas_used + gas_cost_spec(
                decode_spec(program[s.pc as int])->0.opcode,
            )
        },
        step_spec(s, program).1 is Err ==> {
            &&& step_spec(s, program).0.trace == s.trace
            &&& step_spec(s, program).0.halted
        },
{
    let s0 = set_reg(s, 0, 0);
    if s0.pc < program.len() && decode_spec(program[s0.pc as int]) is Some {
        let inst = decode_spec(program[s0.pc as int])->0;
        let s1 = VmView { gas_used: crate::vm::charge(s0.gas_used, gas_cost_spec(inst.opcode)), ..s0 };
        lemma_op_frame(s1, inst);
        assert(step_spec(s, program).1 is Ok ==> step_spec(s, program).0.trace.subrange(
            0,
            s.trace.len() as int,
        ) =~= s.trace);
    }
}

/// A run never ends having used more gas than its limit, unless it ended
/// with `OutOfGas`.
pub proof fn lemma_run_within_gas(s: VmView, program: Seq<u64>)
    requires
        s.gas_limit < u64::MAX,
        s.gas_used <= s.gas_limit,
    ensures
        run_spec(s, program).1 != Some(VmFault::OutOfGas) ==> run_spec(s, program).0.gas_used
            <= s.gas_limit,
        run_spec(s, program).0.gas_limit == s.gas_limit,
    decreases s.gas_limit - s.gas_used,
{
    if !s.halted {
        let next = step_spec(s, program);
        let s0 = set_reg(s, 0, 0);
        if s0.pc < program.len() && decode_spec(program[s0.pc as int]) is Some {
            let inst = decode_spec(program[s0.pc as int])->0;
            let s1 = VmView { gas_used: crate::vm::charge(s0.gas_used, gas_cost_spec(inst.opcode)), ..s0 };
            lemma_op_frame(s1, inst);
        }
        if next.1 is Ok {
            lemma_step_progress(s, program);
            if !next.0.halted {
                lemma_run_within_gas(next.0, program);
            }
        }
    }
}

/// A run only appends to the trace, and at most one record per unit of
/// gas it had left, plus one: every executed instruction but `Halt` costs
/// gas, and `Halt` ends the run.
pub proof fn lemma_run_trace_bound(s: VmView, program: Seq<u64>)
    requires
        s.gas_limit < u64::MAX,
        s.gas_used <= s.gas_limit,
    ensures
        run_spec(s, program).0.trace.len() <= s.trace.len() + (s.gas_limit - s.gas_used) + 1,
        run_spec(s, program).0.trace.len() >= s.trace.len(),
        run_spec(s, program).0.trace.subrange(0, s.trace.len() as int) == s.trace,
    decreases s.gas_limit - s.gas_used,
{
    if s.halted {
        assert(s.trace.subrange(0, s.trace.len() as int) =~= s.trace);
    } else {
        let next = step_spec(s, program);
        lemma_step_accounting(s, program);
        if next.1 is Err {
            assert(s.trace.subrange(0, s.trace.len() as int) =~= s.trace);
        } else {
            lemma_step_progress(s, program);
            if next.0.halted || next.0.trace.len() > usize::MAX {
            } else {
                lemma_run_trace_bound(next.0, program);
                let t = run_spec(next.0, program).0.trace;
                let n = s.trace.len() as int;
                assert(t.subrange(0, n) =~= t.subrange(0, n + 1).subrange(0, n));
            }
        }
    }
}

/// `Pop` after `Push` gives back the pushed register and leaves the stack
/// as it was.
pub proof fn lemma_push_then_pop(s: VmView, push: Instruction, pop: Instruction)
    requires
        push.opcode == Opcode::Push,
        pop.opcode == Opcode::Pop,
        push.rs1 < 32 && push.rs2 < 32 && push.rd < 32,
        pop.rs1 < 32 && pop.rs2 < 32 && pop.rd < 32,
        s.registers.len() == 32,
        s.stack.len() < MAX_STACK,
    ensures
        op_spec(s, push) matches OpOutcome::Done { state: s1, .. } && op_spec(s1, pop) matches OpOutcome::Done {
            state: s2,
            dst_val,
            ..
        } && dst_val == s.registers[push.rs1 as int] && s2.stack == s.stack
            && s2.registers[pop.rd as int] == s.registers[push.rs1 as int],
{
    assert(s.stack.push(s.registers[push.rs1 as int]).drop_last() =~= s.stack);
}

/// `Ret` after `Call` returns to the instruction after the call and
/// leaves the stack as it was.
pub proof fn lemma_call_then_ret(s: VmView, call: Instruction, ret: Instruction)
    requires
        call.opcode == Opcode::Call,
        ret.opcode == Opcode::Ret,
        call.rs1 < 32 && call.rs2 < 32 && call.rd < 32,
        ret.rs1 < 32 && ret.rs2 < 32 && ret.rd < 32,
        s.registers.len() == 32,
        s.stack.len() < MAX_STACK,
        s.pc < usize::MAX,
    ensures
        op_spec(s, call) matches OpOutcome::Done { state: s1, .. } && op_spec(s1, ret) matches OpOutcome::Done {
            state: s2,
            next_pc,
            ..
        } && next_pc == s.pc + 1 && s2.pc == s.pc + 1 && s2.stack == s.stack,
{
    assert(s.stack.push((s.pc + 1) as u64).drop_last() =~= s.stack);
    assert(((s.pc + 1) as u64) as usize == s.pc + 1);
}

/// `Load` of a word that `Store` just wrote gives back the stored register.
pub proof fn lemma_store_then_load(s: VmView, store: Instruction, load: Instruction)
    requires
        store.opcode == Opcode::Store,
        load.opcode == Opcode::Load,
        store.rs1 < 32 && store.rs2 < 32 && store.rd < 32,
        load.rs1 < 32 && load.rs2 < 32 && load.rd < 32,
        load.rs1 == store.rs1,
        load.rs1 != 0,
        load.imm == store.imm,
        s.registers.len() == 32,
        word_addr_spec(s.registers[store.rs1 as int], store.imm, s.memory.len() as int) is Some,
    ensures
        op_spec(s, store) matches OpOutcome::Done { state: s1, .. } && op_spec(s1, load) matches OpOutcome::Done {
            state: s2,
            dst_val,
            ..
        } && dst_val == s.registers[store.rs2 as int] && s2.registers[load.rd as int]
            == s.registers[store.rs2 as int],
{
    let addr = word_addr_spec(s.registers[store.rs1 as int], store.imm, s.memory.len() as int)->0;
    lemma_read_after_write(s.memory, addr, s.registers[store.rs2 as int], addr);
}

/// Writes ordered by slot (writes to one slot in any order).
pub open spec fn sorted_by_slot(s: Seq<(i32, u64)>) -> bool {
    forall|i: int, j: int| 0 <= i < j < s.len() ==> s[i].0 <= s[j].0
}

proof fn lemma_count_le_all(s: Seq<(i32, u64)>, x: i32)
    requires
        forall|i: int| 0 <= i < s.len() ==> s[i].0 <= x,
    ensures
        count_le(s, x) == s.len(),
    decreases s.len(),
{
    if s.len() > 0 {
        lemma_count_le_all(s.drop_last(), x);
    }
}

proof fn lemma_count_le_splits(s: Seq<(i32, u64)>, x: i32)
    requires
        sorted_by_slot(s),
    ensures
        count_le(s, x) <= s.len(),
        forall|i: int| 0 <= i < count_le(s, x) ==> s[i].0 <= x,
        forall|i: int| count_le(s, x) <= i < s.len() ==> s[i].0 > x,
    decreases s.len(),
{
    if s.len() > 0 {
        let p = s.drop_last();
        assert(sorted_by_slot(p));
        lemma_count_le_splits(p, x);
        assert forall|i: int| 0 <= i < p.len() implies s[i] == p[i] by {}
        if s.last().0 <= x {
            assert forall|i: int| 0 <= i < p.len() implies p[i].0 <= x by {
                assert(s[i].0 <= s[s.len() - 1].0);
            }
            lemma_count_le_all(p, x);
        }
        assert forall|i: int| 0 <= i < count_le(s, x) implies s[i].0 <= x by {
            if i < p.len() {
                assert(s[i] == p[i]);
            }
        }
        assert forall|i: int| count_le(s, x) <= i < s.len() implies s[i].0 > x by {
            if i < p.len() {
                assert(s[i] == p[i]);
            }
        }
    }
}

proof fn lemma_insert_write_sorted(s: Seq<(i32, u64)>, w: (i32, u64))
    requires
        sorted_by_slot(s),
    ensures
        sorted_by_slot(insert_write(s, w)),
        insert_write(s, w).to_multiset() == s.to_multiset().insert(w),
{
    lemma_count_le_splits(s, w.0);
    let k = count_le(s, w.0) as int;
    let r = insert_write(s, w);
    assert forall|i: int, j: int| 0 <= i < j < r.len() implies r[i].0 <= r[j].0 by {
        if j < k {
            assert(r[i] == s[i] && r[j] == s[j]);
        } else if j == k {
            assert(r[j] == w);
            assert(r[i] == s[i]);
        } else if i < k {
            assert(r[j] == s[j - 1]);
            assert(r[i] == s[i]);
        } else if i == k {
            assert(r[i] == w && r[j] == s[j - 1]);
        } else {
            assert(r[i] == s[i - 1] && r[j] == s[j - 1]);
        }
    }
    vstd::seq_lib::to_multiset_insert(s, k, w);
}

/// The writes that the receipt's digest covers are the run's writes, each
/// once, ordered by slot.
pub proof fn lemma_sort_writes_sorted_permutation(ws: Seq<(i32, u64)>)
    ensures
        sorted_by_slot(sort_writes(ws)),
        sort_writes(ws).to_multiset() == ws.to_multiset(),
    decreases ws.len(),
{
    broadcast use vstd::seq_lib::group_to_multiset_ensures;

    if ws.len() == 0 {
        assert(sort_writes(ws).to_multiset() =~= ws.to_multiset());
    } else {
        let p = ws.drop_last();
        lemma_sort_writes_sorted_permutation(p);
        lemma_insert_write_sorted(sort_writes(p), ws.last());
        assert(ws == p.push(ws.last()));
    }
}

/// No two writes name the same slot.
pub open spec fn distinct_slots(s: Seq<(i32, u64)>) -> bool {
    forall|i: int, j: int| 0 <= i < j < s.len() ==> s[i].0 != s[j].0
}

/// Writes ordered by slot, then by value.
pub open spec fn write_leq(a: (i32, u64), b: (i32, u64)) -> bool {
    a.0 < b.0 || (a.0 == b.0 && a.1 <= b.1)
}

proof fn lemma_distinct_slots_permutation(s: Seq<(i32, u64)>, t: Seq<(i32, u64)>)
    requires
        s.to_multiset() == t.to_multiset(),
        distinct_slots(t),
    ensures
        distinct_slots(s),
{
    broadcast use vstd::seq_lib::group_to_multiset_ensures;

    assert(t.no_duplicates()) by {
        assert forall|i: int, j: int| 0 <= i < t.len() && 0 <= j < t.len() && i != j implies t[i]
            != t[j] by {
            if i < j {
                assert(t[i].0 != t[j].0);
            } else {
                assert(t[j].0 != t[i].0);
            }
        }
    }
    t.lemma_multiset_has_no_duplicates();
    s.lemma_multiset_has_no_duplicates_conv();
    assert forall|i: int, j: int| 0 <= i < j < s.len() implies s[i].0 != s[j].0 by {
        if s[i].0 == s[j].0 {
            assert(s[i] != s[j]);
            assert(s.contains(s[i]));
            assert(s.contains(s[j]));
            assert(t.to_multiset().count(s[i]) > 0);
            assert(t.to_multiset().count(s[j]) > 0);
            assert(t.contains(s[i]));
            assert(t.contains(s[j]));
            let a = choose|a: int| 0 <= a < t.len() && t[a] == s[i];
            let b = choose|b: int| 0 <= b < t.len() && t[b] == s[j];
            if a < b {
                assert(t[a].0 != t[b].0);
            } else {
                assert(t[b].0 != t[a].0);
            }
        }
    }
}

/// Where no two writes share a slot, the digest does not depend on the
/// order of the writes: any reordering of them gives the same digest.
pub proof fn lemma_digest_independent_of_order(ws1: Seq<(i32, u64)>, ws2: Seq<(i32, u64)>)
    requires
        ws1.to_multiset() == ws2.to_multiset(),
        distinct_slots(ws1),
    ensures
        sort_writes(ws1) == sort_writes(ws2),
        writes_digest(ws1) == writes_digest(ws2),
{
    let s1 = sort_writes(ws1);
    let s2 = sort_writes(ws2);
    lemma_sort_writes_sorted_permutation(ws1);
    lemma_sort_writes_sorted_permutation(ws2);
    lemma_distinct_slots_permutation(s1, ws1);
    lemma_distinct_slots_permutation(s2, ws1);
    let leq = |a: (i32, u64), b: (i32, u64)| write_leq(a, b);
    assert(vstd::relations::total_ordering(leq));
    assert(vstd::relations::sorted_by(s1, leq)) by {
        assert forall|i: int, j: int| 0 <= i < j < s1.len() implies #[trigger] leq(s1[i], s1[j]) by {
            assert(s1[i].0 <= s1[j].0);
            assert(s1[i].0 != s1[j].0);
        }
    }
    assert(vstd::relations::sorted_by(s2, leq)) by {
        assert forall|i: int, j: int| 0 <= i < j < s2.len() implies #[trigger] leq(s2[i], s2[j]) by {
            assert(s2[i].0 <= s2[j].0);
            assert(s2[i].0 != s2[j].0);
        }
    }
    vstd::seq_lib::lemma_sorted_unique(s1, s2, leq);
}

/// The step from `s` executes `inst`: the machine runs, the program
/// counter is on `inst`, its gas can be paid, and register 0 holds 0.
pub open spec fn executes(s: VmView, program: Seq<u64>, inst: Instruction) -> bool {
    &&& !s.halted
    &&& s.pc < program.len()
    &&& decode_spec(program[s.pc as int]) == Some(inst)
    &&& charge(s.gas_used, gas_cost_spec(inst.opcode)) <= s.gas_limit
    &&& s.registers.len() == 32
    &&& s.registers[0] == 0
}

proof fn lemma_r0_clear_is_identity(s: VmView)
    requires
        s.registers.len() == 32,
        s.registers[0] == 0,
    ensures
        set_reg(s, 0, 0) == s,
{
    assert(set_reg(s, 0, 0).registers =~= s.registers);
}

/// What the register opcodes write, from the two source registers `a`
/// and `b`: `Add`, `Sub`, `Mul` modulo `2^64`; each comparison 1 exactly
/// when its relation holds and 0 otherwise (so `Lte` and `Gte` give 1 on
/// equal operands); `Not` 1 exactly when `a` is 0. No other register
/// changes, and the step succeeds.
pub proof fn lemma_register_results(s: VmView, program: Seq<u64>, inst: Instruction)
    requires
        executes(s, program, inst),
        inst.rd != 0,
    ensures
        ({
            let a = s.registers[inst.rs1 as int];
            let b = s.registers[inst.rs2 as int];
            let t = step_spec(s, program).0;
            let r = t.registers[inst.rd as int];
            &&& (inst.opcode == Opcode::Add ==> r == (a + b) % 0x10000000000000000)
            &&& (inst.opcode == Opcode::Sub ==> r == (a - b + 0x10000000000000000) % 0x10000000000000000)
            &&& (inst.opcode == Opcode::Mul ==> r == (a * b) % 0x10000000000000000)
            &&& (inst.opcode == Opcode::Eq ==> (r == 1 <==> a == b) && (r == 0 <==> a != b))
            &&& (inst.opcode == Opcode::Neq ==> (r == 1 <==> a != b) && (r == 0 <==> a == b))
            &&& (inst.opcode == Opcode::Lt ==> (r == 1 <==> a < b) && (r == 0 <==> a >= b))
            &&& (inst.opcode == Opcode::Gt ==> (r == 1 <==> a > b) && (r == 0 <==> a <= b))
            &&& (inst.opcode == Opcode::Lte ==> (r == 1 <==> a <= b) && (r == 0 <==> a > b))
            &&& (inst.opcode == Opcode::Gte ==> (r == 1 <==> a >= b) && (r == 0 <==> a < b))
            &&& (inst.opcode == Opcode::Not ==> (r == 1 <==> a == 0) && (r == 0 <==> a != 0))
            &&& (crate::vm::is_alu(inst.opcode) ==> {
                &&& step_spec(s, program).1 is Ok
                &&& t.registers.len() == 32
                &&& forall|j: int| 0 <= j < 32 && j != inst.rd ==> t.registers[j] == s.registers[j]
            })
        }),
{
    lemma_r0_clear_is_identity(s);
    let a = s.registers[inst.rs1 as int];
    let b = s.registers[inst.rs2 as int];
    if inst.opcode == Opcode::Mul {
        assert(a.wrapping_mul(b) == (a * b) % 0x10000000000000000);
    }
}

/// The slot an `SWrite` or `SRead` of `inst` names from state `s`: its
/// immediate, or where that is -1 the low 32 bits of the second source
/// register.
pub open spec fn named_slot(s: VmView, inst: Instruction) -> i32 {
    if inst.imm == -1 {
        s.registers[inst.rs2 as int] as i32
    } else {
        inst.imm
    }
}

/// `SWrite` stores the first source register in its slot, replacing any
/// value there, leaves every other slot as it was, and records the write.
pub proof fn lemma_swrite_stores(s: VmView, program: Seq<u64>, inst: Instruction)
    requires
        executes(s, program, inst),
        inst.opcode == Opcode::SWrite,
    ensures
        ({
            let k = named_slot(s, inst);
            let v = s.registers[inst.rs1 as int];
            let t = step_spec(s, program).0;
            &&& step_spec(s, program).1 is Ok
            &&& t.storage.contains_key(k)
            &&& t.storage[k] == v
            &&& forall|k2: i32|
                k2 != k ==> (#[trigger] t.storage.contains_key(k2) == s.storage.contains_key(k2)
                    && (s.storage.contains_key(k2) ==> t.storage[k2] == s.storage[k2]))
            &&& t.state_writes == s.state_writes.push((k, v))
            &&& t.registers == s.registers
        }),
{
    lemma_r0_clear_is_identity(s);
}

/// `SRead` writes the value stored in its slot, or 0 where the slot holds
/// none, and leaves the storage as it was.
pub proof fn lemma_sread_reads(s: VmView, program: Seq<u64>, inst: Instruction)
    requires
        executes(s, program, inst),
        inst.opcode == Opcode::SRead,
        inst.rd != 0,
    ensures
        ({
            let k = named_slot(s, inst);
            let t = step_spec(s, program).0;
            &&& step_spec(s, program).1 is Ok
            &&& t.registers[inst.rd as int] == if s.storage.contains_key(k) {
                s.storage[k]
            } else {
                0
            }
            &&& t.storage == s.storage
        }),
{
    lemma_r0_clear_is_identity(s);
}

/// Read after write: an `SRead` of the slot that the previous step's
/// `SWrite` wrote gives back the written value, whatever the slot held
/// before.
pub proof fn lemma_sread_after_swrite(s: VmView, program: Seq<u64>, w: Instruction, r: Instruction)
    requires
        executes(s, program, w),
        w.opcode == Opcode::SWrite,
        executes(step_spec(s, program).0, program, r),
        r.opcode == Opcode::SRead,
        r.rd != 0,
        named_slot(step_spec(s, program).0, r) == named_slot(s, w),
    ensures
        step_spec(step_spec(s, program).0, program).0.registers[r.rd as int] == s.registers[w.rs1 as int],
{
    lemma_swrite_stores(s, program, w);
    lemma_sread_reads(step_spec(s, program).0, program, r);
}

/// The digest of a Merkle path from `leaf` after `n` levels, stated on
/// its own: at level `i` the current digest is hashed with `siblings[i]`,
/// as the right input where bit `i` of the 64-bit `key` is set and as the
/// left input where it is clear.
pub open spec fn path_digest(leaf: u64, siblings: Seq<u64>, key: u64, n: nat) -> u64
    decreases n,
{
    if n == 0 {
        leaf
    } else {
        let i = (n - 1) as nat;
        let cur = path_digest(leaf, siblings, key, i);
        if bit_of(key, i) == 1 {
            poseidon4_spec(siblings[i as int], cur) as u64
        } else {
            poseidon4_spec(cur, siblings[i as int]) as u64
        }
    }
}

/// The 64 sibling words of the path at `pa`, nearest the leaf first.
pub open spec fn path_siblings(mem: Seq<u8>, pa: int) -> Seq<u64> {
    Seq::new(64, |i: int| read_word_spec(mem, pa + 8 + 8 * i))
}

proof fn lemma_merkle_fold_is_path_digest(mem: Seq<u8>, pa: int, key: u64, leaf: u64, n: nat)
    requires
        n <= 64,
    ensures
        merkle_fold(mem, pa, key, leaf, n) == path_digest(leaf, path_siblings(mem, pa), key, n),
    decreases n,
{
    if n > 0 {
        let i = (n - 1) as nat;
        lemma_merkle_fold_is_path_digest(mem, pa, key, leaf, i);
        let d = i as u64;
        assert(((key >> d) & 1 == 0) == (((key >> d) % 2) == 0)) by (bit_vector);
        vstd::bits::lemma_u64_shr_is_div(key, d);
        assert(0 <= (key as int / vstd::arithmetic::power2::pow2(i) as int) % 2 < 2) by {
            vstd::arithmetic::power2::lemma_pow2_pos(i);
        }
    }
}

/// `VerifyMerkle` accepts exactly the paths that lie in memory and lead
/// from the leaf to the root: it gives 1 where the 520-byte path at the
/// immediate fits in memory and hashing `leaf` up its 64 siblings, in the
/// order that each bit of the full key word chooses, reaches `root`, and
/// 0 otherwise.
pub proof fn lemma_verify_merkle_checks_path(mem: Seq<u8>, imm: i32, leaf: u64, root: u64)
    ensures
        ({
            let pa = (imm as usize) as int;
            let ok = pa + 520 <= mem.len() && path_digest(
                leaf,
                path_siblings(mem, pa),
                read_word_spec(mem, pa),
                64,
            ) == root;
            &&& (verify_merkle_spec(mem, imm, leaf, root) == 1 <==> ok)
            &&& (verify_merkle_spec(mem, imm, leaf, root) == 0 <==> !ok)
        }),
{
    let pa = (imm as usize) as int;
    lemma_merkle_fold_is_path_digest(mem, pa, read_word_spec(mem, pa), leaf, 64);
}

/// A run ends with the machine halted, unless its trace would pass
/// `usize::MAX` records: it stops only at `Halt` or at a fault, and a
/// fault it reports is the one the machine recorded.
pub proof fn lemma_run_ends_halted(s: VmView, program: Seq<u64>)
    ensures
        run_spec(s, program).0.trace.len() <= usize::MAX ==> run_spec(s, program).0.halted,
        run_spec(s, program).1 matches Some(e) ==> run_spec(s, program).0.error == Some(e),
    decreases usize::MAX - s.trace.len(),
{
    if !s.halted {
        let next = step_spec(s, program);
        lemma_step_accounting(s, program);
        if next.1 is Ok && !next.0.halted && next.0.trace.len() <= usize::MAX {
            lemma_run_ends_halted(next.0, program);
        }
        if next.1 is Err {
            lemma_step_fault_recorded(s, program);
        }
    }
}

proof fn lemma_step_fault_recorded(s: VmView, program: Seq<u64>)
    requires
        !s.halted,
        step_spec(s, program).1 is Err,
    ensures
        step_spec(s, program).0.error == Some(step_spec(s, program).1->Err_0),
{
}

proof fn lemma_bit_of_shift(x: u64, i: u64)
    requires
        i < 64,
    ensures
        bit_of(x, i as nat) == ((x >> i) & 1) as int,
{
    assert(((x >> i) & 1) == (x >> i) % 2) by (bit_vector);
    vstd::bits::lemma_u64_shr_is_div(x, i);
}

/// The bitwise opcodes work bit by bit: bit `i` of what `And`, `Or` and
/// `Xor` write is the conjunction, disjunction and exclusive or of bit
/// `i` of the two sources, for each of the 64 bits.
pub proof fn lemma_bitwise_results(s: VmView, program: Seq<u64>, inst: Instruction, i: nat)
    requires
        executes(s, program, inst),
        inst.rd != 0,
        i < 64,
    ensures
        ({
            let a = s.registers[inst.rs1 as int];
            let b = s.registers[inst.rs2 as int];
            let r = step_spec(s, program).0.registers[inst.rd as int];
            &&& (inst.opcode == Opcode::And ==> (bit_of(r, i) == 1 <==> bit_of(a, i) == 1 && bit_of(b, i) == 1))
            &&& (inst.opcode == Opcode::Or ==> (bit_of(r, i) == 1 <==> bit_of(a, i) == 1 || bit_of(b, i) == 1))
            &&& (inst.opcode == Opcode::Xor ==> (bit_of(r, i) == 1 <==> bit_of(a, i) != bit_of(b, i)))
        }),
{
    lemma_r0_clear_is_identity(s);
    let a = s.registers[inst.rs1 as int];
    let b = s.registers[inst.rs2 as int];
    let r = step_spec(s, program).0.registers[inst.rd as int];
    let k = i as u64;
    lemma_bit_of_shift(a, k);
    lemma_bit_of_shift(b, k);
    lemma_bit_of_shift(r, k);
    assert((((a & b) >> k) & 1 == 1) <==> (((a >> k) & 1) == 1 && ((b >> k) & 1) == 1)) by (bit_vector)
        requires
            k < 64,
    ;
    assert((((a | b) >> k) & 1 == 1) <==> (((a >> k) & 1) == 1 || ((b >> k) & 1) == 1)) by (bit_vector)
        requires
            k < 64,
    ;
    assert((((a ^ b) >> k) & 1 == 1) <==> (((a >> k) & 1) != ((b >> k) & 1))) by (bit_vector)
        requires
            k < 64,
    ;
    assert(((a >> k) & 1) <= 1 && ((b >> k) & 1) <= 1) by (bit_vector);
}

/// The field opcodes: `Inv` writes `a^(p-2) mod p` for the Goldilocks
/// prime `p` (0 for 0), `Div` by 0 writes 0, and `Div` by `b` writes
/// `a` times what `Inv` writes for `b`, modulo `p`; `Poseidon` writes the
/// Poseidon hash of the two sources.
pub proof fn lemma_field_results(
    s: VmView,
    program: Seq<u64>,
    inst: Instruction,
    s2: VmView,
    program2: Seq<u64>,
    inv: Instruction,
)
    requires
        executes(s, program, inst),
        inst.rd != 0,
        executes(s2, program2, inv),
        inv.opcode == Opcode::Inv,
        inv.rd != 0,
    ensures
        ({
            let a = s.registers[inst.rs1 as int];
            let b = s.registers[inst.rs2 as int];
            let r = step_spec(s, program).0.registers[inst.rd as int];
            let x = s2.registers[inv.rs1 as int];
            let ri = step_spec(s2, program2).0.registers[inv.rd as int];
            &&& (x == 0 ==> ri == 0)
            &&& (x != 0 ==> ri == pow(x as int, (GOLDILOCKS_P - 2) as nat) % (GOLDILOCKS_P as int))
            &&& (inst.opcode == Opcode::Div && b == 0 ==> r == 0)
            &&& (inst.opcode == Opcode::Div && b == x ==> r == (a * ri) % (GOLDILOCKS_P as int))
            &&& (inst.opcode == Opcode::Poseidon ==> r == poseidon4_spec(a, b) as u64)
        }),
{
    lemma_r0_clear_is_identity(s);
    lemma_r0_clear_is_identity(s2);
    let x = s2.registers[inv.rs1 as int];
    if x != 0 {
        vstd::arithmetic::div_mod::lemma_mod_bound(
            pow(x as int, (GOLDILOCKS_P - 2) as nat),
            GOLDILOCKS_P as int,
        );
    }
}

/// The control opcodes: `Jmp` moves to `pc + imm`; `Jnz` moves there when
/// its first source is not 0 and to the next instruction when it is;
/// `Assert` faults with `AssertionFailed` exactly when its first source is
/// 0; `Log` appends its first source to the events; `Syscall` writes the
/// sender for 1, the block height for 2, the nonce for 3 and 0 otherwise.
pub proof fn lemma_control_results(s: VmView, program: Seq<u64>, inst: Instruction)
    requires
        executes(s, program, inst),
        s.pc + 1 <= usize::MAX,
    ensures
        ({
            let a = s.registers[inst.rs1 as int];
            let t = step_spec(s, program).0;
            let target = s.pc + inst.imm;
            &&& (inst.opcode == Opcode::Jmp && 0 <= target <= usize::MAX ==> t.pc == target)
            &&& (inst.opcode == Opcode::Jnz && a != 0 && 0 <= target <= usize::MAX ==> t.pc == target)
            &&& (inst.opcode == Opcode::Jnz && a == 0 ==> t.pc == s.pc + 1)
            &&& (inst.opcode == Opcode::Assert ==> (step_spec(s, program).1 == Err::<(), VmFault>(
                VmFault::AssertionFailed,
            ) <==> a == 0))
            &&& (inst.opcode == Opcode::Assert && a != 0 ==> t.pc == s.pc + 1)
            &&& (inst.opcode == Opcode::Log ==> t.events == s.events.push(a) && t.pc == s.pc + 1)
            &&& (inst.opcode == Opcode::Syscall && inst.rd != 0 ==> t.registers[inst.rd as int] == (
            if inst.imm == 1 {
                s.context.sender
            } else if inst.imm == 2 {
                s.context.block_height
            } else if inst.imm == 3 {
                s.context.nonce
            } else {
                0
            }))
        }),
{
    lemma_r0_clear_is_identity(s);
}

/// An instruction whose gas cannot be paid faults with `OutOfGas` and does
/// nothing else: the program counter, registers, memory, stack, storage,
/// events and trace stay as they were, and the machine halts.
pub proof fn lemma_out_of_gas(s: VmView, program: Seq<u64>, inst: Instruction)
    requires
        !s.halted,
        s.pc < program.len(),
        decode_spec(program[s.pc as int]) == Some(inst),
        charge(s.gas_used, gas_cost_spec(inst.opcode)) > s.gas_limit,
        s.registers.len() == 32,
        s.registers[0] == 0,
    ensures
        ({
            let t = step_spec(s, program).0;
            &&& step_spec(s, program).1 == Err::<(), VmFault>(VmFault::OutOfGas)
            &&& t.halted
            &&& t.error == Some(VmFault::OutOfGas)
            &&& t.pc == s.pc
            &&& t.registers == s.registers
            &&& t.memory == s.memory
            &&& t.stack == s.stack
            &&& t.storage == s.storage
            &&& t.events == s.events
            &&& t.trace == s.trace
            &&& t.state_writes == s.state_writes
        }),
{
    lemma_r0_clear_is_identity(s);
}

/// The receipt of a run reports it as it ended: it succeeds exactly when
/// no fault was reported, with exit code 0, and otherwise carries the
/// fault with exit code 1; the gas used, events, final program counter and
/// trace length are those of the final state.
pub proof fn lemma_receipt_reports_run(s: VmView, program: Seq<u64>)
    ensures
        ({
            let (fin, err) = run_spec(s, program);
            let rc = receipt_spec(fin, err);
            &&& (rc.success <==> err is None)
            &&& (rc.success ==> rc.exit_code == 0)
            &&& (!rc.success ==> rc.exit_code == 1)
            &&& rc.error == err
            &&& (err matches Some(e) ==> fin.error == Some(e))
            &&& rc.gas_used == fin.gas_used
            &&& rc.events == fin.events
            &&& rc.final_pc == fin.pc as u64
            &&& rc.trace_len == fin.trace.len() as u64
        }),
{
    lemma_run_ends_halted(s, program);
}

} // verus!
