//! CRC-32/ISO-HDLC, the checksum that protects the log header and every block.
//!
//! The checksum is computed by the `crc` crate. What it computes is written
//! down here as `crc32`, in the reflected form in which the crate computes
//! it: a register that starts from all ones, takes one byte at a time through
//! a table of 256 entries, and is inverted at the end. From this definition it
//! is proved that no change that is confined to one byte goes unnoticed.

use crc::{Crc, CRC_32_ISO_HDLC};
use vstd::prelude::*;

verus! {

/// The generator polynomial 0x04C11DB7 with its bits reversed.
pub const POLY: u32 = 0xEDB8_8320;

/// One shift of the reflected register: the low bit leaves, and where it was
/// set the polynomial is added. This is `(v >> 1) ^ ((v & 1) * POLY)`.
pub open spec fn round(v: u32) -> u32 {
    if (v & 1) == 1 {
        (v >> 1) ^ POLY
    } else {
        v >> 1
    }
}

/// Eight shifts: what the lookup table holds for the index `i`.
pub open spec fn table_entry(i: u32) -> u32 {
    round(round(round(round(round(round(round(round(i))))))))
}

/// The register after one more byte of input: the table entry for the low
/// byte of the register and the input, and the rest of the register.
pub open spec fn update(reg: u32, byte: u8) -> u32 {
    table_entry((reg ^ (byte as u32)) & 0xFF) ^ (reg >> 8)
}

/// The register after all of `data`, starting from all ones.
#[verifier::opaque]
pub open spec fn register(data: Seq<u8>) -> u32
    decreases data.len(),
{
    if data.len() == 0 {
        0xFFFF_FFFF
    } else {
        update(register(data.drop_last()), data.last())
    }
}

/// The CRC-32/ISO-HDLC checksum of `data`: the final register, inverted.
pub open spec fn crc32(data: Seq<u8>) -> u32 {
    register(data) ^ 0xFFFF_FFFF
}

/// Calls `crc::Crc::<u32>::checksum` for the catalogue entry
/// `CRC_32_ISO_HDLC` (width 32, polynomial 0x04C11DB7, initial value and final
/// xor 0xFFFFFFFF, input and output reflected). The crate fills its table
/// with eight rounds of `(value >> 1) ^ ((value & 1) * poly)` for each index,
/// starts from the reflected initial value, steps through the input with
/// `table[(crc ^ byte) & 0xFF] ^ (crc >> 8)` and xors the result with the
/// final value. The contract claims that this is `crc32`; nothing here proves
/// it.
#[verifier::external_body]
pub(crate) fn checksum(data: &[u8]) -> (sum: u32)
    ensures
        sum == crc32(data@),
{
    Crc::<u32>::new(&CRC_32_ISO_HDLC).checksum(data)
}

/// One shift of the register.
fn shift(v: u32) -> (r: u32)
    ensures
        r == round(v),
{
    if (v & 1) == 1 {
        (v >> 1) ^ POLY
    } else {
        v >> 1
    }
}

/// The checksum of `data`, computed shift by shift as `crc32` defines it.
/// It is slower than the computation by table, and is there so that the two
/// can be held against each other.
pub fn crc32_by_shifts(data: &[u8]) -> (sum: u32)
    ensures
        sum == crc32(data@),
{
    let mut reg: u32 = 0xFFFF_FFFF;
    let mut i: usize = 0;
    proof {
        reveal(register);
        assert(data@.take(0) =~= Seq::<u8>::empty());
    }
    while i < data.len()
        invariant
            i <= data@.len(),
            reg == register(data@.take(i as int)),
        decreases data@.len() - i,
    {
        let index: u32 = (reg ^ (data[i] as u32)) & 0xFF;
        let entry = shift(shift(shift(shift(shift(shift(shift(shift(index))))))));
        proof {
            reveal(register);
            let next = data@.take(i + 1);
            assert(next.drop_last() =~= data@.take(i as int));
            assert(next.last() == data@[i as int]);
        }
        reg = entry ^ (reg >> 8);
        i = i + 1;
    }
    proof {
        assert(data@.take(data@.len() as int) =~= data@);
    }
    reg ^ 0xFFFF_FFFF
}

proof fn lemma_round_xor(a: u32, b: u32)
    ensures
        round(a ^ b) == round(a) ^ round(b),
{
    assert((if ((a ^ b) & 1) == 1 {
        ((a ^ b) >> 1) ^ 0xEDB8_8320u32
    } else {
        (a ^ b) >> 1
    }) == (if (a & 1) == 1 {
        (a >> 1) ^ 0xEDB8_8320u32
    } else {
        a >> 1
    }) ^ (if (b & 1) == 1 {
        (b >> 1) ^ 0xEDB8_8320u32
    } else {
        b >> 1
    })) by (bit_vector);
}

proof fn lemma_round_nonzero(a: u32)
    requires
        a != 0,
    ensures
        round(a) != 0,
{
    assert(a != 0 ==> (if (a & 1) == 1 {
        (a >> 1) ^ 0xEDB8_8320u32
    } else {
        a >> 1
    }) != 0) by (bit_vector);
}

/// A register whose low `k` bits are clear is only shifted by a round.
proof fn lemma_round_shift(h: u32, k: u32)
    requires
        1 <= k <= 8,
        h & (((1u32 << k) - 1) as u32) == 0,
    ensures
        round(h) == h >> 1,
        (h >> 1) & (((1u32 << ((k - 1) as u32)) - 1) as u32) == 0,
{
    assert(1 <= k <= 8 && h & (((1u32 << k) - 1) as u32) == 0 ==> (h & 1) == 0 && (h >> 1) & (((
    1u32 << ((k - 1) as u32)) - 1) as u32) == 0) by (bit_vector);
}

proof fn lemma_table_entry_xor(a: u32, b: u32)
    ensures
        table_entry(a ^ b) == table_entry(a) ^ table_entry(b),
{
    let a1 = round(a);
    let b1 = round(b);
    lemma_round_xor(a, b);
    let a2 = round(a1);
    let b2 = round(b1);
    lemma_round_xor(a1, b1);
    let a3 = round(a2);
    let b3 = round(b2);
    lemma_round_xor(a2, b2);
    let a4 = round(a3);
    let b4 = round(b3);
    lemma_round_xor(a3, b3);
    let a5 = round(a4);
    let b5 = round(b4);
    lemma_round_xor(a4, b4);
    let a6 = round(a5);
    let b6 = round(b5);
    lemma_round_xor(a5, b5);
    let a7 = round(a6);
    let b7 = round(b6);
    lemma_round_xor(a6, b6);
    lemma_round_xor(a7, b7);
}

proof fn lemma_table_entry_nonzero(a: u32)
    requires
        a != 0,
    ensures
        table_entry(a) != 0,
{
    lemma_round_nonzero(a);
    lemma_round_nonzero(round(a));
    lemma_round_nonzero(round(round(a)));
    lemma_round_nonzero(round(round(round(a))));
    lemma_round_nonzero(round(round(round(round(a)))));
    lemma_round_nonzero(round(round(round(round(round(a))))));
    lemma_round_nonzero(round(round(round(round(round(round(a)))))));
    lemma_round_nonzero(round(round(round(round(round(round(round(a))))))));
}

/// Eight rounds only shift a register whose low byte is clear.
proof fn lemma_table_entry_high(h: u32)
    requires
        h & 0xFF == 0,
    ensures
        table_entry(h) == h >> 8,
{
    assert(((1u32 << 8u32) - 1) as u32 == 0xFF) by (bit_vector);
    lemma_round_shift(h, 8);
    let h1 = h >> 1;
    lemma_round_shift(h1, 7);
    let h2 = h1 >> 1;
    lemma_round_shift(h2, 6);
    let h3 = h2 >> 1;
    lemma_round_shift(h3, 5);
    let h4 = h3 >> 1;
    lemma_round_shift(h4, 4);
    let h5 = h4 >> 1;
    lemma_round_shift(h5, 3);
    let h6 = h5 >> 1;
    lemma_round_shift(h6, 2);
    let h7 = h6 >> 1;
    lemma_round_shift(h7, 1);
    assert(((((((((h >> 1) >> 1) >> 1) >> 1) >> 1) >> 1) >> 1) >> 1) == h >> 8) by (bit_vector);
}

/// Two registers that differ still differ after the same byte.
proof fn lemma_update_keeps_difference(r1: u32, r2: u32, byte: u8)
    requires
        r1 != r2,
    ensures
        update(r1, byte) != update(r2, byte),
{
    let b = byte as u32;
    let d = r1 ^ r2;
    let x1 = (r1 ^ b) & 0xFF;
    let x2 = (r2 ^ b) & 0xFF;
    let lo = d & 0xFF;
    let hi = d & 0xFFFF_FF00;
    assert(x1 ^ x2 == lo && lo ^ hi == d && hi & 0xFF == 0 && hi >> 8 == (r1 >> 8) ^ (r2 >> 8)
        && d != 0) by (bit_vector)
        requires
            d == r1 ^ r2,
            x1 == (r1 ^ b) & 0xFF,
            x2 == (r2 ^ b) & 0xFF,
            lo == d & 0xFF,
            hi == d & 0xFFFF_FF00,
            r1 != r2,
    ;
    lemma_table_entry_xor(x1, x2);
    lemma_table_entry_xor(lo, hi);
    lemma_table_entry_high(hi);
    lemma_table_entry_nonzero(d);
    let t1 = table_entry(x1);
    let t2 = table_entry(x2);
    let s1 = r1 >> 8;
    let s2 = r2 >> 8;
    let td = table_entry(d);
    assert((t1 ^ s1) != (t2 ^ s2)) by (bit_vector)
        requires
            td == (t1 ^ t2) ^ (s1 ^ s2),
            td != 0,
    ;
}

/// Two bytes that differ leave the same register in different states.
proof fn lemma_update_tells_bytes_apart(reg: u32, b1: u8, b2: u8)
    requires
        b1 != b2,
    ensures
        update(reg, b1) != update(reg, b2),
{
    let x1 = (reg ^ (b1 as u32)) & 0xFF;
    let x2 = (reg ^ (b2 as u32)) & 0xFF;
    let w1 = b1 as u32;
    let w2 = b2 as u32;
    assert(x1 ^ x2 != 0) by (bit_vector)
        requires
            x1 == (reg ^ w1) & 0xFF,
            x2 == (reg ^ w2) & 0xFF,
            w1 != w2,
            w1 < 256,
            w2 < 256,
    ;
    lemma_table_entry_xor(x1, x2);
    lemma_table_entry_nonzero(x1 ^ x2);
    let t1 = table_entry(x1);
    let t2 = table_entry(x2);
    let s = reg >> 8;
    let tx = table_entry(x1 ^ x2);
    assert((t1 ^ s) != (t2 ^ s)) by (bit_vector)
        requires
            tx == t1 ^ t2,
            tx != 0,
    ;
}

/// The register tells apart two inputs of one length that differ in exactly
/// one byte.
proof fn lemma_register_detects_byte(a: Seq<u8>, b: Seq<u8>, at: int)
    requires
        a.len() == b.len(),
        0 <= at < a.len(),
        a[at] != b[at],
        forall|j: int| 0 <= j < a.len() && j != at ==> a[j] == b[j],
    ensures
        register(a) != register(b),
    decreases a.len(),
{
    reveal(register);
    let a0 = a.drop_last();
    let b0 = b.drop_last();
    if at == a.len() - 1 {
        assert(a0 =~= b0);
        lemma_update_tells_bytes_apart(register(a0), a.last(), b.last());
    } else {
        lemma_register_detects_byte(a0, b0, at);
        lemma_update_keeps_difference(register(a0), register(b0), a.last());
    }
}

/// CRC-32 detects every change that is confined to one byte: two inputs of
/// one length that differ in exactly one byte have different checksums.
pub proof fn lemma_crc32_detects_byte(a: Seq<u8>, b: Seq<u8>, at: int)
    requires
        a.len() == b.len(),
        0 <= at < a.len(),
        a[at] != b[at],
        forall|j: int| 0 <= j < a.len() && j != at ==> a[j] == b[j],
    ensures
        crc32(a) != crc32(b),
{
    lemma_register_detects_byte(a, b, at);
    let ra = register(a);
    let rb = register(b);
    assert((ra ^ 0xFFFF_FFFF) != (rb ^ 0xFFFF_FFFF)) by (bit_vector)
        requires
            ra != rb,
    ;
}

} // verus!
