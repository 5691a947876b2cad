//! The VM's byte-addressed memory: 64-bit little-endian words read from and
//! written to a byte sequence.

use vstd::prelude::*;
use vstd::bytes::{spec_u64_from_le_bytes, spec_u64_to_le_bytes, u64_from_le_bytes, u64_to_le_bytes};

verus! {

/// The address of the word at `base + imm`, where all 8 of its bytes lie
/// in a memory of `len` bytes.
pub open spec fn word_addr_spec(base: u64, imm: i32, len: int) -> Option<int> {
    let addr = base + imm;
    if addr < 0 || addr + 8 > len {
        None
    } else {
        Some(addr)
    }
}

/// The little-endian word stored at `addr`.
pub open spec fn read_word_spec(mem: Seq<u8>, addr: int) -> u64 {
    spec_u64_from_le_bytes(mem.subrange(addr, addr + 8))
}

/// The memory with the little-endian bytes of `v` stored at `addr`.
pub open spec fn write_word_spec(mem: Seq<u8>, addr: int, v: u64) -> Seq<u8> {
    mem.subrange(0, addr) + spec_u64_to_le_bytes(v) + mem.subrange(addr + 8, mem.len() as int)
}

/// The address of the word at `base + imm`, if all 8 of its bytes lie in
/// a memory of `memory_len` bytes.
pub fn memory_word_addr(base: u64, imm: i32, memory_len: usize) -> (r: Option<usize>)
    ensures
        match r {
            Some(a) => word_addr_spec(base, imm, memory_len as int) == Some(a as int),
            None => word_addr_spec(base, imm, memory_len as int) is None,
        },
{
    let addr: i128 = base as i128 + imm as i128;
    if addr < 0 {
        return None;
    }
    if addr > memory_len as i128 {
        return None;
    }
    let a = addr as usize;
    match a.checked_add(8) {
        Some(end) => {
            if end <= memory_len {
                Some(a)
            } else {
                None
            }
        },
        None => None,
    }
}

/// Reads the little-endian word at `addr`.
pub fn read_word(mem: &Vec<u8>, addr: usize) -> (v: u64)
    requires
        addr + 8 <= mem@.len(),
    ensures
        v == read_word_spec(mem@, addr as int),
{
    let n = mem.len();
    assert(addr + 8 <= n);
    let bytes = &mem.as_slice()[addr..addr + 8];
    u64_from_le_bytes(bytes)
}

/// Writes `v` as a little-endian word at `addr`.
pub fn write_word(mem: &mut Vec<u8>, addr: usize, v: u64)
    requires
        addr + 8 <= old(mem)@.len(),
    ensures
        final(mem)@ == write_word_spec(old(mem)@, addr as int, v),
{
    let bytes = u64_to_le_bytes(v);
    let n = mem.len();
    assert(addr + 8 <= n);
    let ghost target = write_word_spec(old(mem)@, addr as int, v);
    for i in 0..8
        invariant
            bytes@ == spec_u64_to_le_bytes(v),
            bytes@.len() == 8,
            addr + 8 <= old(mem)@.len(),
            addr + 8 <= n,
            mem@.len() == old(mem)@.len(),
            target == write_word_spec(old(mem)@, addr as int, v),
            forall|k: int| 0 <= k < addr || addr + 8 <= k < mem@.len() ==> #[trigger] mem@[k] == old(mem)@[k],
            forall|k: int| addr <= k < addr + i ==> #[trigger] mem@[k] == bytes@[k - addr],
    {
        mem.set(addr + i, bytes[i]);
    }
    assert(mem@ =~= target);
}

/// Reading a word gives back the last value written there, and a write
/// leaves the words it does not overlap, and the memory's length, as they
/// were.
pub proof fn lemma_read_after_write(mem: Seq<u8>, addr: int, v: u64, other: int)
    requires
        0 <= addr,
        addr + 8 <= mem.len(),
        0 <= other,
        other + 8 <= mem.len(),
    ensures
        write_word_spec(mem, addr, v).len() == mem.len(),
        read_word_spec(write_word_spec(mem, addr, v), addr) == v,
        other + 8 <= addr || addr + 8 <= other ==> read_word_spec(write_word_spec(mem, addr, v), other)
            == read_word_spec(mem, other),
{
    vstd::bytes::lemma_auto_spec_u64_to_from_le_bytes();
    let w = write_word_spec(mem, addr, v);
    assert(spec_u64_to_le_bytes(v).len() == 8);
    assert(w.subrange(addr, addr + 8) =~= spec_u64_to_le_bytes(v));
    if other + 8 <= addr || addr + 8 <= other {
        assert(w.subrange(other, other + 8) =~= mem.subrange(other, other + 8));
    }
}

} // verus!
