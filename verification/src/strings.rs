//! Text fields of fixed width, and the NUL-terminated UTF-16 strings that the
//! operating system takes and hands out.

use crate::stream::{ByteRead, ByteWrite, ReadError};
use crate::text::from_chars;
use crate::utf16;
use crate::utf16::{decode_utf16, encode_utf16, lemma_decode_encode};
use vstd::prelude::*;
use vstd::utf8::{decode_utf8, encode_utf8, valid_utf8};

verus! {

/// Why a text field could not be read.
#[derive(Debug)]
pub enum ReadUtf8StringError {
    /// The source could not deliver the whole field.
    IOError(ReadError),
    /// The text of the field is not UTF-8.
    UTF8Error,
}

/// Why a text field could not be written.
#[derive(Debug, Clone, Copy, PartialEq, Eq, Structural)]
pub enum WriteUtf8StringError {
    /// The text has more bytes than the field.
    TooLong,
}

/// The index of the first zero byte of `b`, or the length of `b` where it
/// holds none.
pub open spec fn nul_position(b: Seq<u8>) -> int
    decreases b.len(),
{
    if b.len() == 0 || b[0] == 0 {
        0
    } else {
        1 + nul_position(b.skip(1))
    }
}

/// The bytes of the text that a field holds: what stands before its first
/// zero byte, or all of the field where it holds none.
pub open spec fn field_text(field: Seq<u8>) -> Seq<u8> {
    field.take(nul_position(field))
}

/// `n` zero bytes.
pub open spec fn zeros(n: int) -> Seq<u8> {
    Seq::new(n as nat, |i: int| 0u8)
}

/// The field of `capacity` bytes that holds `text`.
pub open spec fn padded(text: Seq<u8>, capacity: int) -> Seq<u8> {
    text + zeros(capacity - text.len())
}

/// No byte of `b` is zero.
pub open spec fn no_nul(b: Seq<u8>) -> bool {
    forall|i: int| 0 <= i < b.len() ==> b[i] != 0
}

/// `nul_position` is the first index that holds a zero byte.
pub proof fn lemma_nul_position(b: Seq<u8>, p: int)
    requires
        0 <= p <= b.len(),
        forall|j: int| 0 <= j < p ==> b[j] != 0,
        p == b.len() || b[p] == 0,
    ensures
        nul_position(b) == p,
    decreases b.len(),
{
    if p > 0 {
        lemma_nul_position(b.skip(1), p - 1);
    }
}

/// The text of a field has no zero byte, and is no longer than the field.
pub proof fn lemma_field_text(field: Seq<u8>)
    ensures
        no_nul(field_text(field)),
        field_text(field).len() <= field.len(),
{
    lemma_nul_position_bounds(field);
}

proof fn lemma_nul_position_bounds(b: Seq<u8>)
    ensures
        0 <= nul_position(b) <= b.len(),
        forall|j: int| 0 <= j < nul_position(b) ==> b[j] != 0,
        nul_position(b) < b.len() ==> b[nul_position(b)] == 0,
    decreases b.len(),
{
    if b.len() == 0 || b[0] == 0 {
    } else {
        lemma_nul_position_bounds(b.skip(1));
        assert forall|j: int| 0 <= j < nul_position(b) implies b[j] != 0 by {
            if j > 0 {
                assert(b.skip(1)[j - 1] == b[j]);
            }
        }
    }
}

/// A text without a zero byte that fits its field is what the padded field
/// holds, also where it fills the field and leaves no room for a terminator.
pub proof fn lemma_field_text_of_padded(text: Seq<u8>, capacity: int)
    requires
        no_nul(text),
        text.len() <= capacity,
    ensures
        padded(text, capacity).len() == capacity,
        field_text(padded(text, capacity)) == text,
{
    let field = padded(text, capacity);
    lemma_nul_position(field, text.len() as int);
    assert(field.take(text.len() as int) =~= text);
}

/// Calls `String::from_utf8`, which returns the string that `bytes` encode,
/// or an error where they are not valid UTF-8. The contract says so over
/// vstd's `valid_utf8` and `decode_utf8`.
#[verifier::external_body]
pub(crate) fn string_from_utf8(bytes: Vec<u8>) -> (r: Option<String>)
    ensures
        r is Some <==> valid_utf8(bytes@),
        r matches Some(s) ==> s@ == decode_utf8(bytes@),
{
    String::from_utf8(bytes).ok()
}

/// Takes a field of `capacity` bytes from `reader` and returns its text.
pub fn read_utf8_string<R: ByteRead>(reader: &mut R, capacity: usize) -> (r: Result<
    String,
    ReadUtf8StringError,
>)
    requires
        old(reader).wf(),
    ensures
        final(reader).wf(),
        capacity > old(reader).remaining().len() ==> (r matches Err(
            ReadUtf8StringError::IOError(fault),
        ) && fault == old(reader).fault()) && final(reader).remaining() == Seq::<u8>::empty(),
        capacity <= old(reader).remaining().len() ==> {
            let text = field_text(old(reader).remaining().take(capacity as int));
            &&& final(reader).remaining() == old(reader).remaining().skip(capacity as int)
            &&& valid_utf8(text) ==> (r matches Ok(s) && s@ == decode_utf8(text))
            &&& !valid_utf8(text) ==> r matches Err(ReadUtf8StringError::UTF8Error)
        },
{
    let field = match reader.read_exact(capacity) {
        Ok(field) => field,
        Err(e) => {
            return Err(ReadUtf8StringError::IOError(e));
        },
    };
    let mut pos: usize = 0;
    while pos < field.len() && field[pos] != 0
        invariant
            pos <= field@.len(),
            forall|j: int| 0 <= j < pos ==> field@[j] != 0,
        decreases field@.len() - pos,
    {
        pos = pos + 1;
    }
    proof {
        lemma_nul_position(field@, pos as int);
    }
    let mut text = field;
    text.truncate(pos);
    proof {
        assert(text@ =~= field_text(old(reader).remaining().take(capacity as int)));
    }
    match string_from_utf8(text) {
        Some(s) => Ok(s),
        None => Err(ReadUtf8StringError::UTF8Error),
    }
}

/// Writes `string` to `writer` as a field of `capacity` bytes, filled up with
/// zero bytes. A text that does not fit is refused, and nothing is written.
pub fn write_utf8_string<W: ByteWrite>(writer: &mut W, string: &str, capacity: usize) -> (r:
    Result<(), WriteUtf8StringError>)
    requires
        old(writer).wf(),
    ensures
        final(writer).wf(),
        r is Ok <==> encode_utf8(string@).len() <= capacity,
        r is Ok ==> final(writer).written() == old(writer).written() + padded(
            encode_utf8(string@),
            capacity as int,
        ),
        r is Err ==> final(writer).written() == old(writer).written(),
{
    let bytes = string.as_bytes();
    if bytes.len() > capacity {
        return Err(WriteUtf8StringError::TooLong);
    }
    writer.write_all(bytes);
    let missing: usize = capacity - bytes.len();
    let rest: Vec<u8> = vec![0u8; missing];
    writer.write_all(rest.as_slice());
    proof {
        assert(rest@ =~= zeros(capacity - bytes@.len()));
        assert(old(writer).written() + bytes@ + rest@ =~= old(writer).written() + padded(
            bytes@,
            capacity as int,
        ));
    }
    Ok(())
}

/// The units before the first zero unit of `value`, or all of them where it
/// holds none.
pub open spec fn until_nul(value: Seq<u16>) -> Seq<u16>
    decreases value.len(),
{
    if value.len() == 0 || value[0] == 0 {
        Seq::empty()
    } else {
        seq![value[0]] + until_nul(value.skip(1))
    }
}

/// The UTF-16 units of `value`, closed by a zero unit.
pub fn to_utf16(value: &str) -> (units: Vec<u16>)
    ensures
        units@ == utf16::encode_utf16(value@).push(0),
{
    let mut units = utf16::encode(value);
    units.push(0);
    units
}

/// The string that the units of `value` before its first zero unit stand
/// for, or `None` where they are not valid UTF-16.
pub fn from_utf16(value: &[u16]) -> (r: Option<String>)
    ensures
        match r {
            Some(s) => utf16::decode_utf16(until_nul(value@)) == Some(s@),
            None => utf16::decode_utf16(until_nul(value@)) is None,
        },
{
    let mut pos: usize = 0;
    while pos < value.len() && value[pos] != 0
        invariant
            pos <= value@.len(),
            forall|j: int| 0 <= j < pos ==> value@[j] != 0,
        decreases value@.len() - pos,
    {
        pos = pos + 1;
    }
    let head = vstd::slice::slice_subrange(value, 0, pos);
    proof {
        lemma_until_nul(value@, pos as int);
    }
    match utf16::decode(head) {
        Some(chars) => Some(from_chars(chars.as_slice())),
        None => None,
    }
}

proof fn lemma_until_nul(value: Seq<u16>, p: int)
    requires
        0 <= p <= value.len(),
        forall|j: int| 0 <= j < p ==> value[j] != 0,
        p == value.len() || value[p] == 0,
    ensures
        until_nul(value) == value.subrange(0, p),
    decreases value.len(),
{
    if p > 0 {
        lemma_until_nul(value.skip(1), p - 1);
        assert(value.subrange(0, p) =~= seq![value[0]] + value.skip(1).subrange(0, p - 1));
    } else {
        assert(value.subrange(0, 0) =~= Seq::<u16>::empty());
    }
}

/// The units of a string without a NUL hold no zero unit.
proof fn lemma_no_zero_unit(s: Seq<char>, i: int)
    requires
        forall|k: int| 0 <= k < s.len() ==> s[k] != '\0',
        0 <= i < encode_utf16(s).len(),
    ensures
        encode_utf16(s)[i] != 0,
    decreases s.len(),
{
    assert(s.len() > 0);
    let before = encode_utf16(s.drop_last());
    let c = s.last();
    let last = crate::utf16::utf16_units(c);
    assert(encode_utf16(s) == before + last);
    if i < before.len() {
        lemma_no_zero_unit(s.drop_last(), i);
        assert(encode_utf16(s)[i] == before[i]);
    } else {
        assert(c != '\0');
        if c as u32 == 0 {
            vstd::utf8::char_u32_cast(c, 0u32);
            vstd::utf8::char_u32_cast('\0', 0u32);
        }
        vstd::utf8::char_is_scalar(c);
        assert(encode_utf16(s)[i] == last[i - before.len()]);
        assert(last[i - before.len()] != 0);
    }
}

/// A string without a NUL that was made into units for the system is read
/// back from them as it was.
pub proof fn lemma_utf16_round_trip(s: Seq<char>)
    requires
        forall|k: int| 0 <= k < s.len() ==> s[k] != '\0',
    ensures
        decode_utf16(until_nul(encode_utf16(s).push(0))) == Some(s),
{
    let units = encode_utf16(s);
    let closed = units.push(0);
    assert forall|j: int| 0 <= j < units.len() implies closed[j] != 0 by {
        lemma_no_zero_unit(s, j);
    }
    lemma_until_nul(closed, units.len() as int);
    assert(closed.subrange(0, units.len() as int) =~= units);
    lemma_decode_encode(s);
}

} // verus!
