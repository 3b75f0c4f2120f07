//! The list of paths that a record of a deletion carries as its payload.
//!
//! Each path is an entry of the byte 0xFE, the negated count of the bytes
//! that follow as a signed 32-bit integer, and the path in UTF-16; the byte
//! 0xFF closes the list and is the last byte of the payload.

use crate::endian::{
    i32_le, le_i32, le_u16s, lemma_i32_round_trip, lemma_u16s_round_trip, read_i32,
    read_u16_into, u16s_le, write_i32, write_u16_into,
};
use crate::text::{from_chars, lemma_texts_push, texts};
use crate::utf16::{
    decode_utf16, encode_utf16, lemma_decode_encode, lemma_encode_decode, lemma_encode_len,
};
use vstd::prelude::*;
use vstd::slice::slice_subrange;

verus! {

/// The byte that opens an entry.
pub const ENTRY: u8 = 0xFE;

/// The byte that closes the list.
pub const END: u8 = 0xFF;

/// What is wrong with a payload that is no list of paths.
#[derive(Clone, Copy, Debug, PartialEq, Eq, Structural)]
pub enum StringDecodeFault {
    /// The payload ends where an entry or the end of the list should begin.
    Header,
    /// An entry begins with a byte that is neither 0xFE nor 0xFF.
    InvalidHeader,
    /// The payload ends within the size of an entry, or the size stands for
    /// a negative or an odd count of bytes.
    Size,
    /// The payload ends within the text of an entry, or the text is not
    /// UTF-16.
    Data,
    /// Bytes follow the end of the list.
    Length,
}

/// The error of decoding a list of paths.
#[derive(Clone, Copy, Debug, PartialEq, Eq, Structural)]
pub struct StringDecodeError {
    pub fault: StringDecodeFault,
}

/// What is wrong with a list of paths that cannot be encoded.
#[derive(Clone, Copy, Debug, PartialEq, Eq, Structural)]
pub enum StringEncodeFault {
    /// A path is longer than the size of an entry can say.
    Size,
}

/// The error of encoding a list of paths.
#[derive(Clone, Copy, Debug, PartialEq, Eq, Structural)]
pub struct StringEncodeError {
    pub fault: StringEncodeFault,
}

/// The text of the message of a decode error.
pub open spec fn decode_fault_text(fault: StringDecodeFault) -> Seq<char> {
    match fault {
        StringDecodeFault::Header => "String decode error: Failed to parse file rec string header"@,
        StringDecodeFault::InvalidHeader => "String decode error: Invalid file rec string header"@,
        StringDecodeFault::Size => "String decode error: Failed to parse file rec string size"@,
        StringDecodeFault::Data => "String decode error: Failed to parse file rec data string"@,
        StringDecodeFault::Length => "String decode error: Invalid file rec string header length"@,
    }
}

impl StringDecodeError {
    /// The message of the error.
    pub fn message(&self) -> (s: String)
        ensures
            s@ == decode_fault_text(self.fault),
    {
        match self.fault {
            StringDecodeFault::Header => "String decode error: Failed to parse file rec string header".to_owned(),
            StringDecodeFault::InvalidHeader => "String decode error: Invalid file rec string header".to_owned(),
            StringDecodeFault::Size => "String decode error: Failed to parse file rec string size".to_owned(),
            StringDecodeFault::Data => "String decode error: Failed to parse file rec data string".to_owned(),
            StringDecodeFault::Length => "String decode error: Invalid file rec string header length".to_owned(),
        }
    }
}

impl StringEncodeError {
    /// The message of the error.
    pub fn message(&self) -> (s: String)
        ensures
            s@ == "String encode error: Failed to write file rec string size"@,
    {
        "String encode error: Failed to write file rec string size".to_owned()
    }
}

/// The count of bytes of the text of the entry at the head of `data`: the
/// stored integer, negated.
pub open spec fn entry_size(data: Seq<u8>) -> int
    recommends
        data.len() >= 5,
{
    -(le_i32(data.subrange(1, 5)) as int)
}

/// The list of paths that `data` holds, or what is wrong with it. An entry
/// of no bytes is skipped: it adds no path to the list.
pub open spec fn decode_paths(data: Seq<u8>) -> Result<Seq<Seq<char>>, StringDecodeFault>
    decreases data.len(),
{
    if data.len() == 0 {
        Err(StringDecodeFault::Header)
    } else if data[0] == END {
        if data.len() == 1 {
            Ok(Seq::empty())
        } else {
            Err(StringDecodeFault::Length)
        }
    } else if data[0] != ENTRY {
        Err(StringDecodeFault::InvalidHeader)
    } else if data.len() < 5 {
        Err(StringDecodeFault::Size)
    } else {
        let size = entry_size(data);
        if size < 0 || size % 2 != 0 {
            Err(StringDecodeFault::Size)
        } else if data.len() < 5 + size {
            Err(StringDecodeFault::Data)
        } else if size == 0 {
            decode_paths(data.skip(5))
        } else {
            match decode_utf16(le_u16s(data.subrange(5, 5 + size))) {
                None => Err(StringDecodeFault::Data),
                Some(path) => put_first(path, decode_paths(data.skip(5 + size))),
            }
        }
    }
}

/// `rest` with `path` in front of it, where there is a `rest`.
pub open spec fn put_first(path: Seq<char>, rest: Result<Seq<Seq<char>>, StringDecodeFault>)
    -> Result<Seq<Seq<char>>, StringDecodeFault> {
    match rest {
        Ok(rest) => Ok(seq![path] + rest),
        Err(fault) => Err(fault),
    }
}

/// `rest` with all of `done` in front of it, where there is a `rest`.
pub open spec fn put_before(
    done: Seq<Seq<char>>,
    rest: Result<Seq<Seq<char>>, StringDecodeFault>,
) -> Result<Seq<Seq<char>>, StringDecodeFault> {
    match rest {
        Ok(rest) => Ok(done + rest),
        Err(fault) => Err(fault),
    }
}

/// A path whose size an entry can say: at most 0x80000000 bytes of UTF-16.
pub open spec fn path_fits(path: Seq<char>) -> bool {
    2 * encode_utf16(path).len() <= 0x8000_0000
}

/// All paths of the list fit.
pub open spec fn paths_fit(paths: Seq<Seq<char>>) -> bool {
    forall|i: int| 0 <= i < paths.len() ==> path_fits(#[trigger] paths[i])
}

/// The entry that holds `path`.
pub open spec fn path_entry(path: Seq<char>) -> Seq<u8> {
    let units = encode_utf16(path);
    seq![ENTRY] + i32_le((-2 * units.len()) as i32) + u16s_le(units)
}

/// The entries that hold `paths`, one after the other.
pub open spec fn path_entries(paths: Seq<Seq<char>>) -> Seq<u8>
    decreases paths.len(),
{
    if paths.len() == 0 {
        Seq::empty()
    } else {
        path_entries(paths.drop_last()) + path_entry(paths.last())
    }
}

/// The payload that holds `paths`.
pub open spec fn encode_paths(paths: Seq<Seq<char>>) -> Seq<u8> {
    path_entries(paths) + seq![END]
}

/// Decodes the list of paths that `data` holds.
pub fn decode_strings(data: &[u8]) -> (r: Result<Vec<String>, StringDecodeError>)
    ensures
        match decode_paths(data@) {
            Ok(paths) => r matches Ok(v) && texts(v@) == paths,
            Err(fault) => r == Err::<Vec<String>, StringDecodeError>(StringDecodeError { fault }),
        },
{
    let mut result: Vec<String> = Vec::new();
    let mut pos: usize = 0;
    proof {
        assert(data@.skip(0) =~= data@);
        lemma_put_before_nothing(decode_paths(data@));
    }
    loop
        invariant
            pos <= data@.len(),
            decode_paths(data@) == put_before(texts(result@), decode_paths(data@.skip(pos as int))),
        decreases data@.len() - pos,
    {
        let ghost tail = data@.skip(pos as int);
        if pos >= data.len() {
            return Err(StringDecodeError { fault: StringDecodeFault::Header });
        }
        let head: u8 = data[pos];
        assert(tail[0] == head);
        if head == END {
            if pos + 1 != data.len() {
                return Err(StringDecodeError { fault: StringDecodeFault::Length });
            }
            proof {
                assert(texts(result@) + Seq::<Seq<char>>::empty() =~= texts(result@));
            }
            return Ok(result);
        }
        if head != ENTRY {
            return Err(StringDecodeError { fault: StringDecodeFault::InvalidHeader });
        }
        if data.len() - pos < 5 {
            return Err(StringDecodeError { fault: StringDecodeFault::Size });
        }
        let stored: i32 = read_i32(slice_subrange(data, pos + 1, pos + 5));
        proof {
            assert(data@.subrange(pos + 1, pos + 5) =~= tail.subrange(1, 5));
        }
        if stored > 0 || stored % 2 != 0 {
            return Err(StringDecodeError { fault: StringDecodeFault::Size });
        }
        let size_wide: u64 = (-(stored as i64)) as u64;
        if size_wide > (data.len() - pos - 5) as u64 {
            return Err(StringDecodeError { fault: StringDecodeFault::Data });
        }
        let size: usize = size_wide as usize;
        let start: usize = pos + 5;
        let end: usize = start + size;
        proof {
            assert(tail.skip(5 + size) =~= data@.skip(end as int));
        }
        if size > 0 {
            let count: usize = size / 2;
            let mut units: Vec<u16> = vec![0u16; count];
            read_u16_into(slice_subrange(data, start, end), &mut units);
            proof {
                assert(data@.subrange(start as int, end as int) =~= tail.subrange(5, 5 + size));
            }
            let chars = match crate::utf16::decode(units.as_slice()) {
                Some(chars) => chars,
                None => {
                    return Err(StringDecodeError { fault: StringDecodeFault::Data });
                },
            };
            let path = from_chars(chars.as_slice());
            proof {
                lemma_texts_push(result@, path);
                lemma_put_before_push(texts(result@), path@, decode_paths(data@.skip(end as int)));
            }
            result.push(path);
        }
        pos = end;
    }
}

proof fn lemma_put_before_nothing(rest: Result<Seq<Seq<char>>, StringDecodeFault>)
    ensures
        put_before(Seq::empty(), rest) == rest,
{
    if let Ok(r) = rest {
        assert(Seq::<Seq<char>>::empty() + r =~= r);
    }
}

proof fn lemma_put_before_push(
    done: Seq<Seq<char>>,
    path: Seq<char>,
    rest: Result<Seq<Seq<char>>, StringDecodeFault>,
)
    ensures
        put_before(done, put_first(path, rest)) == put_before(done.push(path), rest),
{
    if let Ok(r) = rest {
        assert(done + (seq![path] + r) =~= done.push(path) + r);
    }
}

/// Encodes `strings` as the payload that holds them as its list of paths. A
/// list with a path that does not fit is refused.
pub fn encode_strings(strings: &Vec<String>) -> (r: Result<Vec<u8>, StringEncodeError>)
    ensures
        r is Ok <==> paths_fit(texts(strings@)),
        r matches Ok(data) ==> data@ == encode_paths(texts(strings@)),
{
    let mut result: Vec<u8> = Vec::new();
    let mut i: usize = 0;
    while i < strings.len()
        invariant
            i <= strings@.len(),
            paths_fit(texts(strings@).take(i as int)),
            result@ == path_entries(texts(strings@).take(i as int)),
        decreases strings@.len() - i,
    {
        let ghost done = texts(strings@).take(i as int);
        let ghost next = texts(strings@).take(i + 1);
        proof {
            assert(next.drop_last() =~= done);
            assert(next.last() == strings@[i as int]@);
        }
        let units = crate::utf16::encode(strings[i].as_str());
        if units.len() > 0x4000_0000 {
            proof {
                assert(!path_fits(texts(strings@)[i as int]));
            }
            return Err(StringEncodeError { fault: StringEncodeFault::Size });
        }
        let size: usize = 2 * units.len();
        let stored: i32 = (-(size as i64)) as i32;
        result.push(ENTRY);
        write_i32(&mut result, stored);
        let mut chunk: Vec<u8> = vec![0u8; size];
        write_u16_into(units.as_slice(), &mut chunk);
        result.extend_from_slice(chunk.as_slice());
        proof {
            assert(result@ =~= path_entries(done) + path_entry(next.last()));
            assert forall|j: int| 0 <= j < next.len() implies path_fits(#[trigger] next[j]) by {
                if j < i {
                    assert(next[j] == done[j]);
                }
            }
        }
        i = i + 1;
    }
    proof {
        assert(texts(strings@).take(i as int) =~= texts(strings@));
    }
    result.push(END);
    Ok(result)
}

/// The test that a path is not empty.
pub open spec fn has_text() -> spec_fn(Seq<char>) -> bool {
    |p: Seq<char>| p.len() > 0
}

/// The entries of a list are the entry of its first path and the entries
/// of the others.
pub proof fn lemma_entries_front(path: Seq<char>, rest: Seq<Seq<char>>)
    ensures
        path_entries(seq![path] + rest) == path_entry(path) + path_entries(rest),
    decreases rest.len(),
{
    let all = seq![path] + rest;
    if rest.len() == 0 {
        assert(all.drop_last() =~= Seq::<Seq<char>>::empty());
        assert(all.last() == path);
        assert(path_entries(all.drop_last()) =~= Seq::<u8>::empty());
        assert(path_entries(all) =~= path_entry(path) + path_entries(rest));
    } else {
        assert(all.drop_last() =~= seq![path] + rest.drop_last());
        assert(all.last() == rest.last());
        lemma_entries_front(path, rest.drop_last());
        assert(path_entries(all) =~= path_entry(path) + path_entries(rest));
    }
}

/// Decoding an entry followed by `tail` yields the entry's path, unless it
/// is empty, and then what `tail` holds.
pub proof fn lemma_decode_entry(path: Seq<char>, tail: Seq<u8>)
    requires
        path_fits(path),
    ensures
        decode_paths(path_entry(path) + tail) == if path.len() == 0 {
            decode_paths(tail)
        } else {
            put_first(path, decode_paths(tail))
        },
{
    let units = encode_utf16(path);
    let size = 2 * units.len() as int;
    let stored = (-size) as i32;
    let data = path_entry(path) + tail;
    lemma_encode_len(path);
    lemma_i32_round_trip(stored);
    lemma_u16s_round_trip(units);
    lemma_decode_encode(path);
    assert(data[0] == ENTRY);
    assert(data.subrange(1, 5) =~= i32_le(stored));
    assert(entry_size(data) == size);
    assert(data.subrange(5, 5 + size) =~= u16s_le(units));
    assert(data.skip(5 + size) =~= tail);
}

/// Decoding what was encoded gives the list back without its empty paths:
/// an empty path is stored as an entry of no bytes, which adds nothing when
/// it is read.
pub proof fn lemma_paths_round_trip(paths: Seq<Seq<char>>)
    requires
        paths_fit(paths),
    ensures
        decode_paths(encode_paths(paths)) == Ok::<Seq<Seq<char>>, StringDecodeFault>(
            paths.filter(has_text()),
        ),
    decreases paths.len(),
{
    let keep = has_text();
    if paths.len() == 0 {
        assert(encode_paths(paths) =~= seq![END]);
        lemma_filter_keeps_all(paths);
        assert(decode_paths(seq![END]) == Ok::<Seq<Seq<char>>, StringDecodeFault>(Seq::empty()));
        assert(paths =~= Seq::<Seq<char>>::empty());
    } else {
        let first = paths[0];
        let rest = paths.skip(1);
        assert(paths =~= seq![first] + rest);
        assert(paths_fit(rest)) by {
            assert forall|i: int| 0 <= i < rest.len() implies path_fits(#[trigger] rest[i]) by {
                assert(rest[i] == paths[i + 1]);
            }
        }
        lemma_entries_front(first, rest);
        assert(encode_paths(paths) =~= path_entry(first) + encode_paths(rest));
        lemma_decode_entry(first, encode_paths(rest));
        lemma_paths_round_trip(rest);
        lemma_filter_front(first, rest);
        assert(paths.filter(keep) == (seq![first] + rest).filter(keep));
        if first.len() > 0 {
            assert(decode_paths(encode_paths(paths)) == put_first(
                first,
                decode_paths(encode_paths(rest)),
            ));
            assert(paths.filter(keep) == seq![first] + rest.filter(keep));
        } else {
            assert(decode_paths(encode_paths(paths)) == decode_paths(encode_paths(rest)));
            assert(paths.filter(keep) == rest.filter(keep));
        }
    }
}

proof fn lemma_filter_front(first: Seq<char>, rest: Seq<Seq<char>>)
    ensures
        (seq![first] + rest).filter(has_text()) == if first.len() > 0 {
            seq![first] + rest.filter(has_text())
        } else {
            rest.filter(has_text())
        },
{
    let keep = has_text();
    let one = seq![first];
    Seq::filter_distributes_over_add(one, rest, keep);
    assert(one.filter(keep) =~= if first.len() > 0 {
        one
    } else {
        Seq::<Seq<char>>::empty()
    }) by {
        reveal_with_fuel(Seq::filter, 2);
        assert(one.drop_last() =~= Seq::<Seq<char>>::empty());
        assert(one.last() == first);
    }
    assert(Seq::<Seq<char>>::empty() + rest.filter(keep) =~= rest.filter(keep));
}

/// A list without an empty path that was encoded decodes to itself.
pub proof fn lemma_paths_round_trip_exact(paths: Seq<Seq<char>>)
    requires
        paths_fit(paths),
        forall|i: int| 0 <= i < paths.len() ==> (#[trigger] paths[i]).len() > 0,
    ensures
        decode_paths(encode_paths(paths)) == Ok::<Seq<Seq<char>>, StringDecodeFault>(paths),
{
    lemma_paths_round_trip(paths);
    lemma_filter_keeps_all(paths);
}

proof fn lemma_filter_keeps_all(paths: Seq<Seq<char>>)
    requires
        forall|i: int| 0 <= i < paths.len() ==> (#[trigger] paths[i]).len() > 0,
    ensures
        paths.filter(has_text()) == paths,
    decreases paths.len(),
{
    reveal(Seq::filter);
    if paths.len() > 0 {
        lemma_filter_keeps_all(paths.drop_last());
        assert(paths.drop_last().push(paths.last()) =~= paths);
    }
}

/// Every path of a list that was decoded fits an entry again.
pub proof fn lemma_decoded_paths_fit(data: Seq<u8>)
    requires
        decode_paths(data) is Ok,
    ensures
        paths_fit(decode_paths(data)->Ok_0),
    decreases data.len(),
{
    if data[0] == ENTRY {
        let size = entry_size(data);
        if size == 0 {
            lemma_decoded_paths_fit(data.skip(5));
        } else {
            let units = le_u16s(data.subrange(5, 5 + size));
            let path = decode_utf16(units)->Some_0;
            let rest = decode_paths(data.skip(5 + size))->Ok_0;
            lemma_decoded_paths_fit(data.skip(5 + size));
            lemma_encode_decode(units);
            let all = seq![path] + rest;
            assert forall|i: int| 0 <= i < all.len() implies path_fits(#[trigger] all[i]) by {
                if i > 0 {
                    assert(all[i] == rest[i - 1]);
                }
            }
        }
    }
}

/// An entry is five bytes longer than the UTF-16 of its path.
pub proof fn lemma_entry_len(path: Seq<char>)
    ensures
        path_entry(path).len() == 5 + 2 * encode_utf16(path).len(),
{
}

/// A list of paths that was decoded is encoded in no more bytes than it was
/// decoded from: the entries of no bytes are gone, the others are as they
/// were.
pub proof fn lemma_encoded_is_no_longer(data: Seq<u8>)
    requires
        decode_paths(data) is Ok,
    ensures
        encode_paths(decode_paths(data)->Ok_0).len() <= data.len(),
    decreases data.len(),
{
    let paths = decode_paths(data)->Ok_0;
    if data[0] == END {
        assert(path_entries(paths) =~= Seq::<u8>::empty());
    } else {
        let size = entry_size(data);
        if size == 0 {
            lemma_encoded_is_no_longer(data.skip(5));
        } else {
            let units = le_u16s(data.subrange(5, 5 + size));
            let path = decode_utf16(units)->Some_0;
            let rest = decode_paths(data.skip(5 + size))->Ok_0;
            lemma_encoded_is_no_longer(data.skip(5 + size));
            lemma_encode_decode(units);
            lemma_entry_len(path);
            lemma_entries_front(path, rest);
            assert(paths == seq![path] + rest);
        }
    }
}

} // verus!
