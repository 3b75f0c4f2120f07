//! Little-endian integers, as every field of the log stores them.

use byteorder::{ByteOrder, LittleEndian, WriteBytesExt};
use vstd::prelude::*;

verus! {

/// The unsigned 16-bit integer that the first two bytes of `b` store.
pub open spec fn le_u16(b: Seq<u8>) -> u16
    recommends
        b.len() >= 2,
{
    (b[0] as int + 0x100 * (b[1] as int)) as u16
}

/// The unsigned 32-bit integer that the first four bytes of `b` store.
pub open spec fn le_u32(b: Seq<u8>) -> u32
    recommends
        b.len() >= 4,
{
    (b[0] as int + 0x100 * (b[1] as int) + 0x1_0000 * (b[2] as int) + 0x100_0000 * (
    b[3] as int)) as u32
}

/// The two's complement reading of an unsigned 32-bit integer.
pub open spec fn as_signed(u: u32) -> i32 {
    if u >= 0x8000_0000 {
        (u - 0x1_0000_0000) as i32
    } else {
        u as i32
    }
}

/// The unsigned integer with the bits of `v` in two's complement.
pub open spec fn as_unsigned(v: i32) -> u32 {
    if v < 0 {
        (v + 0x1_0000_0000) as u32
    } else {
        v as u32
    }
}

/// The signed 32-bit integer that the first four bytes of `b` store.
pub open spec fn le_i32(b: Seq<u8>) -> i32
    recommends
        b.len() >= 4,
{
    as_signed(le_u32(b))
}

/// The two bytes that store `v`.
pub open spec fn u16_le(v: u16) -> Seq<u8> {
    seq![(v % 0x100) as u8, (v / 0x100) as u8]
}

/// The four bytes that store `v`.
pub open spec fn u32_le(v: u32) -> Seq<u8> {
    seq![
        (v % 0x100) as u8,
        (v / 0x100 % 0x100) as u8,
        (v / 0x1_0000 % 0x100) as u8,
        (v / 0x100_0000) as u8,
    ]
}

/// The four bytes that store `v` in two's complement.
pub open spec fn i32_le(v: i32) -> Seq<u8> {
    u32_le(as_unsigned(v))
}

/// The 16-bit units that `b` stores pair by pair; a last odd byte is left out.
pub open spec fn le_u16s(b: Seq<u8>) -> Seq<u16> {
    Seq::new(b.len() / 2, |i: int| le_u16(b.subrange(2 * i, 2 * i + 2)))
}

/// The bytes that store the units of `units` one after the other.
pub open spec fn u16s_le(units: Seq<u16>) -> Seq<u8> {
    Seq::new(
        2 * units.len(),
        |i: int|
            if i % 2 == 0 {
                (units[i / 2] % 0x100) as u8
            } else {
                (units[i / 2] / 0x100) as u8
            },
    )
}

/// The two bytes that store a 16-bit integer are read back as it.
pub proof fn lemma_u16_round_trip(v: u16)
    ensures
        u16_le(v).len() == 2,
        le_u16(u16_le(v)) == v,
{
}

/// The four bytes that store a 32-bit integer are read back as it.
pub proof fn lemma_u32_round_trip(v: u32)
    ensures
        u32_le(v).len() == 4,
        le_u32(u32_le(v)) == v,
{
}

/// The four bytes that store a signed 32-bit integer are read back as it.
pub proof fn lemma_i32_round_trip(v: i32)
    ensures
        i32_le(v).len() == 4,
        le_i32(i32_le(v)) == v,
{
    lemma_u32_round_trip(as_unsigned(v));
}

/// The bytes that store a sequence of units are read back as it.
pub proof fn lemma_u16s_round_trip(units: Seq<u16>)
    ensures
        u16s_le(units).len() == 2 * units.len(),
        le_u16s(u16s_le(units)) =~= units,
{
    let b = u16s_le(units);
    assert forall|i: int| 0 <= i < units.len() implies le_u16s(b)[i] == units[i] by {
        let pair = b.subrange(2 * i, 2 * i + 2);
        assert(pair[0] == b[2 * i]);
        assert(pair[1] == b[2 * i + 1]);
    }
}

/// Calls `byteorder::ByteOrder::read_u16` of `LittleEndian`, which panics on
/// fewer than two bytes and else returns `u16::from_le_bytes` of the first two.
#[verifier::external_body]
pub(crate) fn read_u16(buf: &[u8]) -> (v: u16)
    requires
        buf@.len() >= 2,
    ensures
        v == le_u16(buf@),
{
    LittleEndian::read_u16(buf)
}

/// Calls `byteorder::ByteOrder::read_u32` of `LittleEndian`, which panics on
/// fewer than four bytes and else returns `u32::from_le_bytes` of the first
/// four.
#[verifier::external_body]
pub(crate) fn read_u32(buf: &[u8]) -> (v: u32)
    requires
        buf@.len() >= 4,
    ensures
        v == le_u32(buf@),
{
    LittleEndian::read_u32(buf)
}

/// Calls `byteorder::ByteOrder::read_i32` of `LittleEndian`: `read_u32`, cast
/// to `i32`.
#[verifier::external_body]
pub(crate) fn read_i32(buf: &[u8]) -> (v: i32)
    requires
        buf@.len() >= 4,
    ensures
        v == le_i32(buf@),
{
    LittleEndian::read_i32(buf)
}

/// Calls `byteorder::ByteOrder::read_u16_into` of `LittleEndian`, which
/// panics unless `src` has two bytes for each unit of `dst`, and else fills
/// `dst` with `u16::from_le_bytes` of each pair of bytes.
#[verifier::external_body]
pub(crate) fn read_u16_into(src: &[u8], dst: &mut Vec<u16>)
    requires
        src@.len() == 2 * old(dst)@.len(),
    ensures
        final(dst)@ == le_u16s(src@),
{
    LittleEndian::read_u16_into(src, dst.as_mut_slice())
}

/// Calls `byteorder::ByteOrder::write_u16_into` of `LittleEndian`, which
/// panics unless `dst` has two bytes for each unit of `src`, and else fills
/// `dst` with the `to_le_bytes` of each unit.
#[verifier::external_body]
pub(crate) fn write_u16_into(src: &[u16], dst: &mut Vec<u8>)
    requires
        old(dst)@.len() == 2 * src@.len(),
    ensures
        final(dst)@ == u16s_le(src@),
{
    LittleEndian::write_u16_into(src, dst.as_mut_slice())
}

/// Calls `byteorder::WriteBytesExt::write_u16` with `LittleEndian` on a
/// vector, to which it appends the two bytes of `v.to_le_bytes()`.
#[verifier::external_body]
pub(crate) fn write_u16(out: &mut Vec<u8>, v: u16)
    ensures
        final(out)@ == old(out)@ + u16_le(v),
{
    let _ = out.write_u16::<LittleEndian>(v);
}

/// Calls `byteorder::WriteBytesExt::write_u32` with `LittleEndian` on a
/// vector, to which it appends the four bytes of `v.to_le_bytes()`.
#[verifier::external_body]
pub(crate) fn write_u32(out: &mut Vec<u8>, v: u32)
    ensures
        final(out)@ == old(out)@ + u32_le(v),
{
    let _ = out.write_u32::<LittleEndian>(v);
}

/// Calls `byteorder::WriteBytesExt::write_i32` with `LittleEndian` on a
/// vector, to which it appends the four bytes of `v` in two's complement.
#[verifier::external_body]
pub(crate) fn write_i32(out: &mut Vec<u8>, v: i32)
    ensures
        final(out)@ == old(out)@ + i32_le(v),
{
    let _ = out.write_i32::<LittleEndian>(v);
}

} // verus!
