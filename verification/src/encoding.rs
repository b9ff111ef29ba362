//! Little-endian layout of integers in the guest's linear memory.

use vstd::prelude::*;

verus! {

/// The four bytes that hold `x`, least significant first.
pub open spec fn u32_le_bytes(x: u32) -> Seq<u8> {
    seq![
        (x % 0x100) as u8,
        (x / 0x100 % 0x100) as u8,
        (x / 0x1_0000 % 0x100) as u8,
        (x / 0x100_0000 % 0x100) as u8,
    ]
}

/// The eight bytes that hold `x`, least significant first.
pub open spec fn u64_le_bytes(x: u64) -> Seq<u8> {
    seq![
        (x % 0x100) as u8,
        (x / 0x100 % 0x100) as u8,
        (x / 0x1_0000 % 0x100) as u8,
        (x / 0x100_0000 % 0x100) as u8,
        (x / 0x1_0000_0000 % 0x100) as u8,
        (x / 0x100_0000_0000 % 0x100) as u8,
        (x / 0x1_0000_0000_0000 % 0x100) as u8,
        (x / 0x100_0000_0000_0000 % 0x100) as u8,
    ]
}

/// The number that `bytes` spell, least significant byte first.
pub open spec fn le_value(bytes: Seq<u8>) -> nat
    decreases bytes.len(),
{
    if bytes.len() == 0 {
        0
    } else {
        bytes[0] as nat + 0x100 * le_value(bytes.drop_first())
    }
}

/// Whether `width` bytes starting at `addr` lie inside a memory of `size` bytes.
pub open spec fn in_bounds(size: nat, addr: int, width: nat) -> bool {
    0 <= addr && addr + width <= size
}

/// `memory` with `bytes` stored from `addr` on.
pub open spec fn store(memory: Seq<u8>, addr: int, bytes: Seq<u8>) -> Seq<u8> {
    Seq::new(
        memory.len(),
        |i: int|
            if addr <= i < addr + bytes.len() {
                bytes[i - addr]
            } else {
                memory[i]
            },
    )
}

/// The `width` bytes of `memory` from `addr` on.
pub open spec fn load(memory: Seq<u8>, addr: int, width: nat) -> Seq<u8> {
    memory.subrange(addr, addr + width)
}

/// A four-byte sequence spells the sum of its bytes, each weighted by its place.
pub proof fn lemma_le_value_4(b: Seq<u8>)
    requires
        b.len() == 4,
    ensures
        le_value(b) == b[0] + 0x100 * b[1] + 0x1_0000 * b[2] + 0x100_0000 * b[3],
        le_value(b) <= u32::MAX,
{
    let b1 = b.drop_first();
    let b2 = b1.drop_first();
    let b3 = b2.drop_first();
    let b4 = b3.drop_first();
    assert(le_value(b4) == 0);
    assert(le_value(b3) == b[3]);
    assert(le_value(b2) == b[2] + 0x100 * le_value(b3));
    assert(le_value(b1) == b[1] + 0x100 * le_value(b2));
}

/// An eight-byte sequence spells the sum of its bytes, each weighted by its place.
pub proof fn lemma_le_value_8(b: Seq<u8>)
    requires
        b.len() == 8,
    ensures
        le_value(b) == b[0] + 0x100 * b[1] + 0x1_0000 * b[2] + 0x100_0000 * b[3] + 0x1_0000_0000
            * b[4] + 0x100_0000_0000 * b[5] + 0x1_0000_0000_0000 * b[6] + 0x100_0000_0000_0000
            * b[7],
        le_value(b) <= u64::MAX,
{
    let lo = b.subrange(0, 4);
    let hi = b.subrange(4, 8);
    lemma_le_value_4(hi);
    let b1 = b.drop_first();
    let b2 = b1.drop_first();
    let b3 = b2.drop_first();
    let b4 = b3.drop_first();
    assert(b4 =~= hi);
    assert(le_value(b3) == b[3] + 0x100 * le_value(b4));
    assert(le_value(b2) == b[2] + 0x100 * le_value(b3));
    assert(le_value(b1) == b[1] + 0x100 * le_value(b2));
}

/// Decoding the four bytes of `x` gives `x` back.
pub proof fn lemma_u32_le_round_trip(x: u32)
    ensures
        u32_le_bytes(x).len() == 4,
        le_value(u32_le_bytes(x)) == x,
{
    lemma_le_value_4(u32_le_bytes(x));
}

/// Decoding the eight bytes of `x` gives `x` back.
pub proof fn lemma_u64_le_round_trip(x: u64)
    ensures
        u64_le_bytes(x).len() == 8,
        le_value(u64_le_bytes(x)) == x,
{
    lemma_le_value_8(u64_le_bytes(x));
    let q1 = x / 0x100;
    let q2 = q1 / 0x100;
    let q3 = q2 / 0x100;
    let q4 = q3 / 0x100;
    let q5 = q4 / 0x100;
    let q6 = q5 / 0x100;
    let q7 = q6 / 0x100;
    assert(x / 0x1_0000 == q2);
    assert(x / 0x100_0000 == q3);
    assert(x / 0x1_0000_0000 == q4);
    assert(x / 0x100_0000_0000 == q5);
    assert(x / 0x1_0000_0000_0000 == q6);
    assert(x / 0x100_0000_0000_0000 == q7);
    assert(q7 < 0x100);
}

/// Loading what was just stored, from the same address, gives it back, and
/// the memory keeps its size.
pub proof fn lemma_load_store(memory: Seq<u8>, addr: int, bytes: Seq<u8>)
    requires
        0 <= addr,
        addr + bytes.len() <= memory.len(),
    ensures
        store(memory, addr, bytes).len() == memory.len(),
        load(store(memory, addr, bytes), addr, bytes.len()) == bytes,
{
    assert(load(store(memory, addr, bytes), addr, bytes.len()) =~= bytes);
}

/// A byte that was written is the byte that is read back.
pub proof fn lemma_u8_write_then_read(memory: Seq<u8>, addr: int, x: u8)
    requires
        in_bounds(memory.len(), addr, 1),
    ensures
        in_bounds(store(memory, addr, seq![x]).len(), addr, 1),
        store(memory, addr, seq![x])[addr] == x,
{
}

/// A 32-bit number that was written is the number that is read back.
pub proof fn lemma_u32_write_then_read(memory: Seq<u8>, addr: int, x: u32)
    requires
        in_bounds(memory.len(), addr, 4),
    ensures
        in_bounds(store(memory, addr, u32_le_bytes(x)).len(), addr, 4),
        le_value(load(store(memory, addr, u32_le_bytes(x)), addr, 4)) == x,
{
    lemma_u32_le_round_trip(x);
    lemma_load_store(memory, addr, u32_le_bytes(x));
}

/// A 64-bit number that was written is the number that is read back.
pub proof fn lemma_u64_write_then_read(memory: Seq<u8>, addr: int, x: u64)
    requires
        in_bounds(memory.len(), addr, 8),
    ensures
        in_bounds(store(memory, addr, u64_le_bytes(x)).len(), addr, 8),
        le_value(load(store(memory, addr, u64_le_bytes(x)), addr, 8)) == x,
{
    lemma_u64_le_round_trip(x);
    lemma_load_store(memory, addr, u64_le_bytes(x));
}

} // verus!
