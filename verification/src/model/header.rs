//! The fixed record of 448 bytes that opens the uninstall log.

use crate::checksum::{checksum, crc32, lemma_crc32_detects_byte};
use crate::endian::{
    as_signed, i32_le, le_i32, le_u32, lemma_i32_round_trip, lemma_u32_round_trip, read_i32,
    read_u32, u32_le, write_i32, write_u32,
};
use crate::stream::{ByteRead, ByteWrite, SliceReader};
use crate::strings::{
    field_text, lemma_field_text, lemma_field_text_of_padded, no_nul, padded, read_utf8_string,
    write_utf8_string, zeros,
};
use vstd::prelude::*;
use vstd::slice::slice_subrange;
use vstd::utf8::{decode_utf8, encode_utf8, valid_utf8};

verus! {

/// The size of the header in bytes.
pub const HEADER_SIZE: usize = 448;

/// How many bytes of the header the checksum at its end covers.
pub const CHECKED_SIZE: usize = 444;

/// The identifier of a log written by a 32-bit installer.
pub const HEADER_ID_32: &'static str = "Inno Setup Uninstall Log (b)";

/// The identifier of a log written by a 64-bit installer.
pub const HEADER_ID_64: &'static str = "Inno Setup Uninstall Log (b) 64-bit";

/// The newest version of the log that is understood.
pub const HIGHEST_SUPPORTED_VERSION: i32 = 1048;

/// What is wrong with a header that cannot be read.
#[derive(Clone, Copy, Debug, PartialEq, Eq, Structural)]
pub enum HeaderParseFault {
    /// The source ended before the header did.
    Read,
    /// The checksum stored in the header is not that of its bytes.
    Checksum,
    /// The identifier is not UTF-8.
    Id,
    /// The application's identifier is not UTF-8.
    AppId,
    /// The application's name is not UTF-8.
    AppName,
    /// The identifier is none of the two known ones.
    InvalidId,
    /// The log is of a newer version than is understood.
    UnsupportedVersion,
}

/// The error of reading a header.
#[derive(Clone, Copy, Debug, PartialEq, Eq, Structural)]
pub struct HeaderParseError {
    pub fault: HeaderParseFault,
}

/// What is wrong with a header that cannot be written.
#[derive(Clone, Copy, Debug, PartialEq, Eq, Structural)]
pub enum HeaderWriteFault {
    /// The identifier is longer than 64 bytes.
    Id,
    /// The application's identifier is longer than 128 bytes.
    AppId,
    /// The application's name is longer than 128 bytes.
    AppName,
}

/// The error of writing a header.
#[derive(Clone, Copy, Debug, PartialEq, Eq, Structural)]
pub struct HeaderWriteError {
    pub fault: HeaderWriteFault,
}

/// The header of an uninstall log.
#[derive(Debug)]
pub struct Header {
    id: String,
    app_id: String,
    app_name: String,
    version: i32,
    pub num_recs: usize,
    pub end_offset: u32,
    flags: u32,
    crc: u32,
}

/// What a header holds.
pub ghost struct HeaderView {
    pub id: Seq<char>,
    pub app_id: Seq<char>,
    pub app_name: Seq<char>,
    pub version: i32,
    pub num_recs: usize,
    pub end_offset: u32,
    pub flags: u32,
    pub crc: u32,
}

impl View for Header {
    type V = HeaderView;

    closed spec fn view(&self) -> HeaderView {
        HeaderView {
            id: self.id@,
            app_id: self.app_id@,
            app_name: self.app_name@,
            version: self.version,
            num_recs: self.num_recs,
            end_offset: self.end_offset,
            flags: self.flags,
            crc: self.crc,
        }
    }
}

/// The record count that the stored signed integer stands for: a negative
/// one is read as the unsigned integer with the same bits, widened.
pub open spec fn count_from_i32(v: i32) -> usize {
    if v >= 0 {
        v as usize
    } else {
        (usize::MAX + 1 + v) as usize
    }
}

/// The low 32 bits of a record count, which are what the header stores.
pub open spec fn count_low_bits(n: usize) -> u32 {
    ((n as int) % 0x1_0000_0000) as u32
}

/// The text that the message of a parse error ends with.
pub open spec fn parse_fault_text(fault: HeaderParseFault) -> Seq<char> {
    match fault {
        HeaderParseFault::Read => "Header parse error: Failed to read header to buffer"@,
        HeaderParseFault::Checksum => "Header parse error: CRC32 check failed"@,
        HeaderParseFault::Id => "Header parse error: Failed to parse header ID"@,
        HeaderParseFault::AppId => "Header parse error: Failed to parse header app ID"@,
        HeaderParseFault::AppName => "Header parse error: Failed to parse header app name"@,
        HeaderParseFault::InvalidId => "Header parse error: Invalid header ID"@,
        HeaderParseFault::UnsupportedVersion => "Header parse error: Header version not supported"@,
    }
}

/// The text of the message of a write error.
pub open spec fn write_fault_text(fault: HeaderWriteFault) -> Seq<char> {
    match fault {
        HeaderWriteFault::Id => "Header write error: Failed to write header id to buffer"@,
        HeaderWriteFault::AppId => "Header write error: Failed to write header app id to buffer"@,
        HeaderWriteFault::AppName => "Header write error: Failed to write header app name to buffer"@,
    }
}

impl HeaderParseError {
    /// The message of the error.
    pub fn message(&self) -> (s: String)
        ensures
            s@ == parse_fault_text(self.fault),
    {
        match self.fault {
            HeaderParseFault::Read => "Header parse error: Failed to read header to buffer".to_owned(),
            HeaderParseFault::Checksum => "Header parse error: CRC32 check failed".to_owned(),
            HeaderParseFault::Id => "Header parse error: Failed to parse header ID".to_owned(),
            HeaderParseFault::AppId => "Header parse error: Failed to parse header app ID".to_owned(),
            HeaderParseFault::AppName => "Header parse error: Failed to parse header app name".to_owned(),
            HeaderParseFault::InvalidId => "Header parse error: Invalid header ID".to_owned(),
            HeaderParseFault::UnsupportedVersion => "Header parse error: Header version not supported".to_owned(),
        }
    }
}

impl HeaderWriteError {
    /// The message of the error.
    pub fn message(&self) -> (s: String)
        ensures
            s@ == write_fault_text(self.fault),
    {
        match self.fault {
            HeaderWriteFault::Id => "Header write error: Failed to write header id to buffer".to_owned(),
            HeaderWriteFault::AppId => "Header write error: Failed to write header app id to buffer".to_owned(),
            HeaderWriteFault::AppName => "Header write error: Failed to write header app name to buffer".to_owned(),
        }
    }
}

/// The header that the 448 bytes of `buf` hold, or what is wrong with them.
/// The checksum is looked at first, so that no damaged byte is interpreted.
pub open spec fn parse_header(buf: Seq<u8>) -> Result<HeaderView, HeaderParseFault>
    recommends
        buf.len() == HEADER_SIZE,
{
    let id = field_text(buf.subrange(0, 64));
    let app_id = field_text(buf.subrange(64, 192));
    let app_name = field_text(buf.subrange(192, 320));
    let version = le_i32(buf.subrange(320, 324));
    let crc = le_u32(buf.subrange(444, 448));
    if crc32(buf.subrange(0, 444)) != crc {
        Err(HeaderParseFault::Checksum)
    } else if !valid_utf8(id) {
        Err(HeaderParseFault::Id)
    } else if !valid_utf8(app_id) {
        Err(HeaderParseFault::AppId)
    } else if !valid_utf8(app_name) {
        Err(HeaderParseFault::AppName)
    } else if decode_utf8(id) != HEADER_ID_32@ && decode_utf8(id) != HEADER_ID_64@ {
        Err(HeaderParseFault::InvalidId)
    } else if version > HIGHEST_SUPPORTED_VERSION {
        Err(HeaderParseFault::UnsupportedVersion)
    } else {
        Ok(
            HeaderView {
                id: decode_utf8(id),
                app_id: decode_utf8(app_id),
                app_name: decode_utf8(app_name),
                version,
                num_recs: count_from_i32(le_i32(buf.subrange(324, 328))),
                end_offset: le_u32(buf.subrange(328, 332)),
                flags: le_u32(buf.subrange(332, 336)),
                crc,
            },
        )
    }
}

/// The first 444 bytes of the header that holds `h`: all but the checksum.
pub open spec fn header_body(h: HeaderView) -> Seq<u8> {
    padded(encode_utf8(h.id), 64) + padded(encode_utf8(h.app_id), 128) + padded(
        encode_utf8(h.app_name),
        128,
    ) + i32_le(h.version) + u32_le(count_low_bits(h.num_recs)) + u32_le(h.end_offset) + u32_le(
        h.flags,
    ) + zeros(108)
}

/// The 448 bytes of the header that holds `h`. The checksum is computed
/// anew; the one that `h` carries is not written.
pub open spec fn encode_header(h: HeaderView) -> Seq<u8> {
    header_body(h) + u32_le(crc32(header_body(h)))
}

/// Which text of `h` does not fit its field, if any; the first one counts.
pub open spec fn write_fault(h: HeaderView) -> Option<HeaderWriteFault> {
    if encode_utf8(h.id).len() > 64 {
        Some(HeaderWriteFault::Id)
    } else if encode_utf8(h.app_id).len() > 128 {
        Some(HeaderWriteFault::AppId)
    } else if encode_utf8(h.app_name).len() > 128 {
        Some(HeaderWriteFault::AppName)
    } else {
        None
    }
}

fn count_to_usize(v: i32) -> (n: usize)
    ensures
        n == count_from_i32(v),
{
    if v >= 0 {
        v as usize
    } else {
        let below: i32 = -(v + 1);
        usize::MAX - (below as usize)
    }
}

fn count_to_u32(n: usize) -> (v: u32)
    ensures
        v == count_low_bits(n),
{
    ((n as u64) % 0x1_0000_0000) as u32
}

impl Clone for Header {
    /// A copy of the header.
    fn clone(&self) -> (h: Header)
        ensures
            h@ == self@,
    {
        Header {
            id: self.id.clone(),
            app_id: self.app_id.clone(),
            app_name: self.app_name.clone(),
            version: self.version,
            num_recs: self.num_recs,
            end_offset: self.end_offset,
            flags: self.flags,
            crc: self.crc,
        }
    }
}

impl Header {
    /// A header with these contents. The checksum is computed when the
    /// header is written.
    pub fn new(
        id: String,
        app_id: String,
        app_name: String,
        version: i32,
        num_recs: usize,
        end_offset: u32,
        flags: u32,
    ) -> (h: Header)
        ensures
            h@ == (HeaderView {
                id: id@,
                app_id: app_id@,
                app_name: app_name@,
                version,
                num_recs,
                end_offset,
                flags,
                crc: 0,
            }),
    {
        Header { id, app_id, app_name, version, num_recs, end_offset, flags, crc: 0 }
    }

    /// The identifier of the log's format.
    pub fn id(&self) -> (s: &str)
        ensures
            s@ == self@.id,
    {
        self.id.as_str()
    }

    /// The identifier of the application.
    pub fn app_id(&self) -> (s: &str)
        ensures
            s@ == self@.app_id,
    {
        self.app_id.as_str()
    }

    /// The name of the application.
    pub fn app_name(&self) -> (s: &str)
        ensures
            s@ == self@.app_name,
    {
        self.app_name.as_str()
    }

    /// The version of the log's format.
    pub fn version(&self) -> (v: i32)
        ensures
            v == self@.version,
    {
        self.version
    }

    /// How many records the log holds.
    pub fn num_recs(&self) -> (n: usize)
        ensures
            n == self@.num_recs,
    {
        self.num_recs
    }

    /// The length of the log in bytes.
    pub fn end_offset(&self) -> (n: u32)
        ensures
            n == self@.end_offset,
    {
        self.end_offset
    }

    /// The flags of the log.
    pub fn flags(&self) -> (v: u32)
        ensures
            v == self@.flags,
    {
        self.flags
    }

    /// The checksum that was read with the header.
    pub fn crc(&self) -> (v: u32)
        ensures
            v == self@.crc,
    {
        self.crc
    }

    /// A copy of the header with another record count.
    pub fn clone_with_num_recs(&self, num_recs: usize) -> (h: Header)
        ensures
            h@ == (HeaderView { num_recs, ..self@ }),
    {
        Header {
            id: self.id.clone(),
            app_id: self.app_id.clone(),
            app_name: self.app_name.clone(),
            version: self.version,
            num_recs,
            end_offset: self.end_offset,
            flags: self.flags,
            crc: self.crc,
        }
    }

    /// A copy of the header with another length of the log.
    pub fn clone_with_end_offset(&self, end_offset: u32) -> (h: Header)
        ensures
            h@ == (HeaderView { end_offset, ..self@ }),
    {
        Header {
            id: self.id.clone(),
            app_id: self.app_id.clone(),
            app_name: self.app_name.clone(),
            version: self.version,
            num_recs: self.num_recs,
            end_offset,
            flags: self.flags,
            crc: self.crc,
        }
    }

    /// Reads the 448 bytes of a header from `reader` and checks them: the
    /// checksum, the texts, the identifier and the version, in this order.
    pub fn from_reader<R: ByteRead>(reader: &mut R) -> (r: Result<Header, HeaderParseError>)
        requires
            old(reader).wf(),
        ensures
            final(reader).wf(),
            old(reader).remaining().len() < HEADER_SIZE ==> r == Err::<Header, HeaderParseError>(
                HeaderParseError { fault: HeaderParseFault::Read },
            ) && final(reader).remaining() == Seq::<u8>::empty(),
            old(reader).remaining().len() >= HEADER_SIZE ==> {
                &&& final(reader).remaining() == old(reader).remaining().skip(HEADER_SIZE as int)
                &&& match parse_header(old(reader).remaining().take(HEADER_SIZE as int)) {
                    Ok(h) => r matches Ok(header) && header@ == h,
                    Err(fault) => r == Err::<Header, HeaderParseError>(
                        HeaderParseError { fault },
                    ),
                }
            },
    {
        let buf = match reader.read_exact(HEADER_SIZE) {
            Ok(buf) => buf,
            Err(_) => {
                return Err(HeaderParseError { fault: HeaderParseFault::Read });
            },
        };
        Header::parse(buf.as_slice())
    }

    fn parse(buf: &[u8]) -> (r: Result<Header, HeaderParseError>)
        requires
            buf@.len() == HEADER_SIZE,
        ensures
            match parse_header(buf@) {
                Ok(h) => r matches Ok(header) && header@ == h,
                Err(fault) => r == Err::<Header, HeaderParseError>(HeaderParseError { fault }),
            },
    {
        let crc = read_u32(slice_subrange(buf, CHECKED_SIZE, HEADER_SIZE));
        if checksum(slice_subrange(buf, 0, CHECKED_SIZE)) != crc {
            return Err(HeaderParseError { fault: HeaderParseFault::Checksum });
        }
        let mut fields = SliceReader::new(buf);
        proof {
            assert(buf@.take(64) =~= buf@.subrange(0, 64));
            assert(buf@.skip(64).take(128) =~= buf@.subrange(64, 192));
            assert(buf@.skip(64).skip(128).take(128) =~= buf@.subrange(192, 320));
        }
        let id = match read_utf8_string(&mut fields, 64) {
            Ok(id) => id,
            Err(_) => {
                return Err(HeaderParseError { fault: HeaderParseFault::Id });
            },
        };
        let app_id = match read_utf8_string(&mut fields, 128) {
            Ok(app_id) => app_id,
            Err(_) => {
                return Err(HeaderParseError { fault: HeaderParseFault::AppId });
            },
        };
        let app_name = match read_utf8_string(&mut fields, 128) {
            Ok(app_name) => app_name,
            Err(_) => {
                return Err(HeaderParseError { fault: HeaderParseFault::AppName });
            },
        };
        let version = read_i32(slice_subrange(buf, 320, 324));
        let num_recs = count_to_usize(read_i32(slice_subrange(buf, 324, 328)));
        let end_offset = read_u32(slice_subrange(buf, 328, 332));
        let flags = read_u32(slice_subrange(buf, 332, 336));
        let known_32 = HEADER_ID_32.to_owned();
        let known_64 = HEADER_ID_64.to_owned();
        if id != known_32 && id != known_64 {
            return Err(HeaderParseError { fault: HeaderParseFault::InvalidId });
        }
        if version > HIGHEST_SUPPORTED_VERSION {
            return Err(HeaderParseError { fault: HeaderParseFault::UnsupportedVersion });
        }
        Ok(Header { id, app_id, app_name, version, num_recs, end_offset, flags, crc })
    }

    /// Writes the 448 bytes of the header to `writer`, with the checksum of
    /// what is written. A header with a text that does not fit its field is
    /// refused, and nothing is written.
    pub fn to_writer<W: ByteWrite>(&self, writer: &mut W) -> (r: Result<(), HeaderWriteError>)
        requires
            old(writer).wf(),
        ensures
            final(writer).wf(),
            match write_fault(self@) {
                None => r is Ok && final(writer).written() == old(writer).written()
                    + encode_header(self@),
                Some(fault) => r == Err::<(), HeaderWriteError>(HeaderWriteError { fault })
                    && final(writer).written() == old(writer).written(),
            },
    {
        let mut buf: Vec<u8> = Vec::new();
        if write_utf8_string(&mut buf, self.id.as_str(), 64).is_err() {
            return Err(HeaderWriteError { fault: HeaderWriteFault::Id });
        }
        if write_utf8_string(&mut buf, self.app_id.as_str(), 128).is_err() {
            return Err(HeaderWriteError { fault: HeaderWriteFault::AppId });
        }
        if write_utf8_string(&mut buf, self.app_name.as_str(), 128).is_err() {
            return Err(HeaderWriteError { fault: HeaderWriteFault::AppName });
        }
        write_i32(&mut buf, self.version);
        write_u32(&mut buf, count_to_u32(self.num_recs));
        write_u32(&mut buf, self.end_offset);
        write_u32(&mut buf, self.flags);
        let reserved: Vec<u8> = vec![0u8; 108];
        buf.write_all(reserved.as_slice());
        proof {
            assert(reserved@ =~= zeros(108));
            assert(buf@ =~= header_body(self@));
        }
        let crc = checksum(buf.as_slice());
        write_u32(&mut buf, crc);
        writer.write_all(buf.as_slice());
        Ok(())
    }
}

/// A header whose bytes have been damaged in one place within the part
/// that the checksum covers is refused for its checksum, whatever the damage
/// did to the fields.
pub proof fn lemma_damaged_byte_fails_checksum(buf: Seq<u8>, at: int, value: u8)
    requires
        buf.len() == HEADER_SIZE,
        parse_header(buf) is Ok,
        0 <= at < CHECKED_SIZE,
        value != buf[at],
    ensures
        parse_header(buf.update(at, value)) == Err::<HeaderView, HeaderParseFault>(
            HeaderParseFault::Checksum,
        ),
{
    let damaged = buf.update(at, value);
    assert(damaged.subrange(444, 448) =~= buf.subrange(444, 448));
    lemma_crc32_detects_byte(buf.subrange(0, 444), damaged.subrange(0, 444), at);
}

/// Flipping any single bit within the first 444 bytes of a valid header
/// makes reading it fail with a checksum error.
pub proof fn lemma_bit_flip_fails_checksum(buf: Seq<u8>, at: int, bit: u8)
    requires
        buf.len() == HEADER_SIZE,
        parse_header(buf) is Ok,
        0 <= at < CHECKED_SIZE,
        bit < 8,
    ensures
        parse_header(buf.update(at, buf[at] ^ (1u8 << bit))) == Err::<
            HeaderView,
            HeaderParseFault,
        >(HeaderParseFault::Checksum),
{
    let b = buf[at];
    assert(b ^ (1u8 << bit) != b) by (bit_vector)
        requires
            bit < 8,
    ;
    lemma_damaged_byte_fails_checksum(buf, at, b ^ (1u8 << bit));
}

/// A header that can be written and read back as it is: each text fits its
/// field and holds no NUL; the identifier and the version are accepted; the
/// record count is one that the stored 32 bits stand for.
pub open spec fn storable(h: HeaderView) -> bool {
    &&& no_nul(encode_utf8(h.id))
    &&& no_nul(encode_utf8(h.app_id))
    &&& no_nul(encode_utf8(h.app_name))
    &&& encode_utf8(h.id).len() <= 64
    &&& encode_utf8(h.app_id).len() <= 128
    &&& encode_utf8(h.app_name).len() <= 128
    &&& (h.id == HEADER_ID_32@ || h.id == HEADER_ID_64@)
    &&& h.version <= HIGHEST_SUPPORTED_VERSION
    &&& count_from_i32(as_signed(count_low_bits(h.num_recs))) == h.num_recs
}

/// The parts of the written header are where the reader looks for them.
proof fn lemma_header_layout(h: HeaderView)
    requires
        encode_utf8(h.id).len() <= 64,
        encode_utf8(h.app_id).len() <= 128,
        encode_utf8(h.app_name).len() <= 128,
    ensures
        header_body(h).len() == CHECKED_SIZE,
        encode_header(h).len() == HEADER_SIZE,
        encode_header(h).subrange(0, 444) == header_body(h),
        encode_header(h).subrange(0, 64) == padded(encode_utf8(h.id), 64),
        encode_header(h).subrange(64, 192) == padded(encode_utf8(h.app_id), 128),
        encode_header(h).subrange(192, 320) == padded(encode_utf8(h.app_name), 128),
        encode_header(h).subrange(320, 324) == i32_le(h.version),
        encode_header(h).subrange(324, 328) == u32_le(count_low_bits(h.num_recs)),
        encode_header(h).subrange(328, 332) == u32_le(h.end_offset),
        encode_header(h).subrange(332, 336) == u32_le(h.flags),
        encode_header(h).subrange(444, 448) == u32_le(crc32(header_body(h))),
{
    let e = encode_header(h);
    assert(e.subrange(0, 444) =~= header_body(h));
    assert(e.subrange(0, 64) =~= padded(encode_utf8(h.id), 64));
    assert(e.subrange(64, 192) =~= padded(encode_utf8(h.app_id), 128));
    assert(e.subrange(192, 320) =~= padded(encode_utf8(h.app_name), 128));
    assert(e.subrange(320, 324) =~= i32_le(h.version));
    assert(e.subrange(324, 328) =~= u32_le(count_low_bits(h.num_recs)));
    assert(e.subrange(328, 332) =~= u32_le(h.end_offset));
    assert(e.subrange(332, 336) =~= u32_le(h.flags));
    assert(e.subrange(444, 448) =~= u32_le(crc32(header_body(h))));
}

/// A storable header that was written is read back as it was, with the
/// checksum of what was written.
pub proof fn lemma_header_round_trip(h: HeaderView)
    requires
        storable(h),
    ensures
        write_fault(h) is None,
        encode_header(h).len() == HEADER_SIZE,
        parse_header(encode_header(h)) == Ok::<HeaderView, HeaderParseFault>(
            HeaderView { crc: crc32(header_body(h)), ..h },
        ),
{
    broadcast use vstd::utf8::group_utf8_lib;

    lemma_header_layout(h);
    lemma_field_text_of_padded(encode_utf8(h.id), 64);
    lemma_field_text_of_padded(encode_utf8(h.app_id), 128);
    lemma_field_text_of_padded(encode_utf8(h.app_name), 128);
    lemma_i32_round_trip(h.version);
    lemma_u32_round_trip(count_low_bits(h.num_recs));
    lemma_u32_round_trip(h.end_offset);
    lemma_u32_round_trip(h.flags);
    lemma_u32_round_trip(crc32(header_body(h)));
    assert(decode_utf8(encode_utf8(h.id)) == h.id);
    assert(decode_utf8(encode_utf8(h.app_id)) == h.app_id);
    assert(decode_utf8(encode_utf8(h.app_name)) == h.app_name);
}

/// A storable header that was written is read back as it was from the
/// first 448 bytes of what it was written to, whatever follows them, and
/// what follows them is left.
pub proof fn lemma_written_header_reads_back(h: HeaderView, tail: Seq<u8>)
    requires
        storable(h),
    ensures
        (encode_header(h) + tail).len() >= HEADER_SIZE,
        parse_header((encode_header(h) + tail).take(HEADER_SIZE as int)) == Ok::<
            HeaderView,
            HeaderParseFault,
        >(HeaderView { crc: crc32(header_body(h)), ..h }),
        (encode_header(h) + tail).skip(HEADER_SIZE as int) == tail,
{
    lemma_header_round_trip(h);
    let all = encode_header(h) + tail;
    assert(all.take(HEADER_SIZE as int) =~= encode_header(h));
    assert(all.skip(HEADER_SIZE as int) =~= tail);
}

/// A record count below 2^31 is one that the stored 32 bits stand for.
pub proof fn lemma_small_count_is_stored(n: usize)
    requires
        n <= 0x7FFF_FFFF,
    ensures
        count_from_i32(as_signed(count_low_bits(n))) == n,
{
    assert(count_low_bits(n) == n);
    assert(as_signed(count_low_bits(n)) == n);
}

/// A header that was read is storable.
pub proof fn lemma_parsed_header_storable(buf: Seq<u8>)
    requires
        buf.len() == HEADER_SIZE,
        parse_header(buf) is Ok,
    ensures
        storable(parse_header(buf)->Ok_0),
{
    broadcast use vstd::utf8::group_utf8_lib;

    let h = parse_header(buf)->Ok_0;
    lemma_field_text(buf.subrange(0, 64));
    lemma_field_text(buf.subrange(64, 192));
    lemma_field_text(buf.subrange(192, 320));
    assert(encode_utf8(h.id) == field_text(buf.subrange(0, 64)));
    assert(encode_utf8(h.app_id) == field_text(buf.subrange(64, 192)));
    assert(encode_utf8(h.app_name) == field_text(buf.subrange(192, 320)));
    lemma_count_round_trip(le_i32(buf.subrange(324, 328)));
}

/// The record count read from a stored integer is stored as that integer.
pub proof fn lemma_count_round_trip(v: i32)
    ensures
        as_signed(count_low_bits(count_from_i32(v))) == v,
        count_from_i32(as_signed(count_low_bits(count_from_i32(v)))) == count_from_i32(v),
{
    if v < 0 {
        let n = count_from_i32(v) as int;
        assert(usize::MAX + 1 == 0x1_0000_0000 || usize::MAX + 1 == 0x1_0000_0000_0000_0000);
        assert(n % 0x1_0000_0000 == v + 0x1_0000_0000);
    }
}

} // verus!
