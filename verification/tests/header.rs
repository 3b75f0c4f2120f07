use crc::{Crc, CRC_32_ISO_HDLC};
use inno_updater::checksum::crc32_by_shifts;
use inno_updater::model::{Header, HeaderParseFault, HeaderWriteFault, HEADER_SIZE};
use inno_updater::stream::{ByteRead, SliceReader};
use inno_updater::strings::{
    from_utf16, read_utf8_string, to_utf16, write_utf8_string, ReadUtf8StringError,
    WriteUtf8StringError,
};

const ID_32: &str = "Inno Setup Uninstall Log (b)";
const ID_64: &str = "Inno Setup Uninstall Log (b) 64-bit";

fn sample_header() -> Header {
    Header::new(
        String::from(ID_32),
        String::from("{EA457B21-F73E-494C-ACAB-524FDE069978}"),
        String::from("Microsoft Visual Studio Code"),
        1048,
        3,
        4660,
        0x20,
    )
}

fn sample_bytes() -> Vec<u8> {
    let mut out: Vec<u8> = Vec::new();
    sample_header().to_writer(&mut out).unwrap();
    out
}

fn with_checksum(mut bytes: Vec<u8>) -> Vec<u8> {
    let crc = Crc::<u32>::new(&CRC_32_ISO_HDLC).checksum(&bytes[..444]);
    bytes[444..448].copy_from_slice(&crc.to_le_bytes());
    bytes
}

fn parse(bytes: &[u8]) -> Result<Header, HeaderParseFault> {
    let mut reader = SliceReader::new(bytes);
    Header::from_reader(&mut reader).map_err(|e| e.fault)
}

#[test]
fn header_is_448_bytes_in_the_documented_layout() {
    let bytes = sample_bytes();
    assert_eq!(HEADER_SIZE, 448);
    assert_eq!(bytes.len(), 448);
    assert_eq!(&bytes[0..28], ID_32.as_bytes());
    assert!(bytes[28..64].iter().all(|b| *b == 0));
    assert_eq!(&bytes[64..102], "{EA457B21-F73E-494C-ACAB-524FDE069978}".as_bytes());
    assert!(bytes[102..192].iter().all(|b| *b == 0));
    assert_eq!(&bytes[192..220], "Microsoft Visual Studio Code".as_bytes());
    assert!(bytes[220..320].iter().all(|b| *b == 0));
    assert_eq!(&bytes[320..324], &[0x18, 0x04, 0x00, 0x00]);
    assert_eq!(&bytes[324..328], &[0x03, 0x00, 0x00, 0x00]);
    assert_eq!(&bytes[328..332], &[0x34, 0x12, 0x00, 0x00]);
    assert_eq!(&bytes[332..336], &[0x20, 0x00, 0x00, 0x00]);
    assert!(bytes[336..444].iter().all(|b| *b == 0));
}

#[test]
fn header_checksum_is_crc32_of_the_first_444_bytes() {
    let bytes = sample_bytes();
    let expected = Crc::<u32>::new(&CRC_32_ISO_HDLC).checksum(&bytes[..444]);
    assert_eq!(&bytes[444..448], &expected.to_le_bytes());
    // a checksum that merely echoed its input could not be this value
    assert_eq!(Crc::<u32>::new(&CRC_32_ISO_HDLC).checksum(b"123456789"), 0xcbf4_3926);
}

#[test]
fn checksum_by_shifts_has_the_check_value() {
    assert_eq!(crc32_by_shifts(b"123456789"), 0xcbf4_3926);
    assert_eq!(crc32_by_shifts(b""), 0);
    assert_eq!(crc32_by_shifts(&[0x01]), 0xa505_df1b);
}

#[test]
fn checksum_by_table_agrees_with_the_checksum_by_shifts() {
    // the stored checksum comes from the table; the definition is computed beside it
    let bytes = sample_bytes();
    let stored = u32::from_le_bytes([bytes[444], bytes[445], bytes[446], bytes[447]]);
    assert_eq!(stored, crc32_by_shifts(&bytes[..444]));

    let mut data: Vec<u8> = Vec::new();
    let mut seed: u32 = 0x1234_5678;
    for len in 0..300usize {
        seed = seed.wrapping_mul(1_664_525).wrapping_add(1_013_904_223);
        data.push((seed >> 24) as u8);
        let mut writer = inno_updater::blockio::BlockWrite::new(Vec::<u8>::new());
        inno_updater::stream::ByteWrite::write_all(&mut writer, &data);
        writer.flush();
        let block = writer.into_inner();
        assert_eq!(block.len(), 12 + len + 1);
        let in_block = u32::from_le_bytes([block[8], block[9], block[10], block[11]]);
        assert_eq!(in_block, crc32_by_shifts(&data));
    }
}

#[test]
fn header_round_trips() {
    let bytes = sample_bytes();
    let header = parse(&bytes).unwrap();
    assert_eq!(header.id(), ID_32);
    assert_eq!(header.app_id(), "{EA457B21-F73E-494C-ACAB-524FDE069978}");
    assert_eq!(header.app_name(), "Microsoft Visual Studio Code");
    assert_eq!(header.version(), 1048);
    assert_eq!(header.num_recs, 3);
    assert_eq!(header.num_recs(), 3);
    assert_eq!(header.end_offset, 4660);
    assert_eq!(header.end_offset(), 4660);
    assert_eq!(header.flags(), 0x20);
    let stored = u32::from_le_bytes([bytes[444], bytes[445], bytes[446], bytes[447]]);
    assert_eq!(header.crc(), stored);

    let mut again: Vec<u8> = Vec::new();
    header.to_writer(&mut again).unwrap();
    assert_eq!(again, bytes);
}

#[test]
fn header_reader_takes_exactly_448_bytes() {
    let mut bytes = sample_bytes();
    bytes.extend_from_slice(&[1, 2, 3]);
    let mut reader = SliceReader::new(&bytes);
    Header::from_reader(&mut reader).unwrap();
    assert_eq!(reader.read_exact(3).unwrap(), vec![1, 2, 3]);
}

#[test]
fn header_accepts_the_64_bit_identifier() {
    let mut out: Vec<u8> = Vec::new();
    Header::new(String::from(ID_64), String::new(), String::new(), 0, 0, 448, 0)
        .to_writer(&mut out)
        .unwrap();
    assert_eq!(parse(&out).unwrap().id(), ID_64);
}

#[test]
fn flipping_any_bit_of_the_first_444_bytes_fails_the_checksum() {
    let bytes = sample_bytes();
    for at in 0..444 {
        for bit in 0..8 {
            let mut damaged = bytes.clone();
            damaged[at] ^= 1u8 << bit;
            assert_eq!(parse(&damaged).unwrap_err(), HeaderParseFault::Checksum);
        }
    }
}

#[test]
fn flipping_a_bit_of_the_stored_checksum_fails_the_checksum() {
    let bytes = sample_bytes();
    for at in 444..448 {
        let mut damaged = bytes.clone();
        damaged[at] ^= 0x10;
        assert_eq!(parse(&damaged).unwrap_err(), HeaderParseFault::Checksum);
    }
}

#[test]
fn header_reader_reports_each_fault() {
    let bytes = sample_bytes();
    assert_eq!(parse(&bytes[..447]).unwrap_err(), HeaderParseFault::Read);
    assert_eq!(parse(&[]).unwrap_err(), HeaderParseFault::Read);

    let mut bad_id = bytes.clone();
    bad_id[0] = 0xff;
    assert_eq!(parse(&bad_id).unwrap_err(), HeaderParseFault::Checksum);
    assert_eq!(parse(&with_checksum(bad_id)).unwrap_err(), HeaderParseFault::Id);

    let mut bad_app_id = bytes.clone();
    bad_app_id[64] = 0xc0;
    assert_eq!(parse(&with_checksum(bad_app_id)).unwrap_err(), HeaderParseFault::AppId);

    let mut bad_app_name = bytes.clone();
    bad_app_name[192] = 0x80;
    assert_eq!(parse(&with_checksum(bad_app_name)).unwrap_err(), HeaderParseFault::AppName);

    let mut other_id = bytes.clone();
    other_id[0] = b'i';
    assert_eq!(parse(&with_checksum(other_id)).unwrap_err(), HeaderParseFault::InvalidId);

    let mut newer = bytes.clone();
    newer[320..324].copy_from_slice(&1049i32.to_le_bytes());
    assert_eq!(
        parse(&with_checksum(newer)).unwrap_err(),
        HeaderParseFault::UnsupportedVersion
    );

    let mut older = bytes.clone();
    older[320..324].copy_from_slice(&(-1i32).to_le_bytes());
    assert_eq!(parse(&with_checksum(older)).unwrap().version(), -1);
}

#[test]
fn header_parse_errors_have_messages() {
    let mut reader = SliceReader::new(&[]);
    let err = Header::from_reader(&mut reader).unwrap_err();
    assert_eq!(err.message(), "Header parse error: Failed to read header to buffer");
    let mut damaged = sample_bytes();
    damaged[100] ^= 1;
    let mut reader = SliceReader::new(&damaged);
    let err = Header::from_reader(&mut reader).unwrap_err();
    assert_eq!(err.message(), "Header parse error: CRC32 check failed");
}

#[test]
fn header_writer_refuses_texts_that_do_not_fit() {
    let long_id = "x".repeat(65);
    let long = "y".repeat(129);
    let mut out: Vec<u8> = vec![9];

    let header = Header::new(long_id, String::new(), String::new(), 0, 0, 0, 0);
    assert_eq!(header.to_writer(&mut out).unwrap_err().fault, HeaderWriteFault::Id);
    let header = Header::new(String::from(ID_32), long.clone(), String::new(), 0, 0, 0, 0);
    assert_eq!(header.to_writer(&mut out).unwrap_err().fault, HeaderWriteFault::AppId);
    let header = Header::new(String::from(ID_32), String::new(), long, 0, 0, 0, 0);
    let err = header.to_writer(&mut out).unwrap_err();
    assert_eq!(err.fault, HeaderWriteFault::AppName);
    assert_eq!(
        err.message(),
        "Header write error: Failed to write header app name to buffer"
    );
    assert_eq!(out, vec![9]);

    let header = Header::new("x".repeat(64), "y".repeat(128), "z".repeat(128), 0, 0, 0, 0);
    assert!(header.to_writer(&mut out).is_ok());
    assert_eq!(out.len(), 449);
}

#[test]
fn header_stores_a_negative_record_count_bit_for_bit() {
    let mut bytes = sample_bytes();
    bytes[324..328].copy_from_slice(&(-2i32).to_le_bytes());
    let header = parse(&with_checksum(bytes.clone())).unwrap();
    assert_eq!(header.num_recs, usize::MAX - 1);
    let mut again: Vec<u8> = Vec::new();
    header.to_writer(&mut again).unwrap();
    assert_eq!(&again[324..328], &(-2i32).to_le_bytes());
}

#[test]
fn header_copies_change_one_field() {
    let header = sample_header();
    let counted = header.clone_with_num_recs(9);
    assert_eq!(counted.num_recs, 9);
    assert_eq!(counted.end_offset, 4660);
    assert_eq!(counted.app_name(), "Microsoft Visual Studio Code");
    let moved = header.clone_with_end_offset(7);
    assert_eq!(moved.end_offset, 7);
    assert_eq!(moved.num_recs, 3);
    let same = header.clone();
    assert_eq!(same.id(), ID_32);
    assert_eq!(same.flags(), 0x20);
}

#[test]
fn utf8_field_ends_at_the_first_nul() {
    let mut field = b"abc\0def\0".to_vec();
    field.resize(16, 0);
    let mut reader = SliceReader::new(&field);
    assert_eq!(read_utf8_string(&mut reader, 16).unwrap(), "abc");
    assert_eq!(reader.read_exact(1).unwrap_err(), inno_updater::stream::ReadError::UnexpectedEof);
}

#[test]
fn utf8_field_without_nul_is_read_to_its_full_width() {
    let field = vec![b'a'; 128];
    let mut reader = SliceReader::new(&field);
    assert_eq!(read_utf8_string(&mut reader, 128).unwrap(), "a".repeat(128));
    assert_eq!(reader.read_exact(0).unwrap(), Vec::<u8>::new());

    let field = vec![b'b'; 64];
    let mut reader = SliceReader::new(&field);
    assert_eq!(read_utf8_string(&mut reader, 64).unwrap(), "b".repeat(64));

    let field = vec![b'c'; 10];
    let mut reader = SliceReader::new(&field);
    assert_eq!(read_utf8_string(&mut reader, 10).unwrap(), "c".repeat(10));

    // a character that ends with the field is whole
    let mut field = vec![b'd'; 126];
    field.extend_from_slice("\u{e9}".as_bytes());
    let mut reader = SliceReader::new(&field);
    assert_eq!(
        read_utf8_string(&mut reader, 128).unwrap(),
        format!("{}\u{e9}", "d".repeat(126))
    );
}

#[test]
fn header_with_texts_of_the_full_width_round_trips() {
    let header = Header::new(
        String::from(ID_64),
        "i".repeat(128),
        format!("{}\u{4e16}", "n".repeat(125)),
        7,
        2,
        0,
        1,
    );
    let mut bytes: Vec<u8> = Vec::new();
    header.to_writer(&mut bytes).unwrap();
    assert_eq!(bytes.len(), 448);
    assert!(bytes[64..320].iter().all(|b| *b != 0));
    let mut tail = bytes.clone();
    tail.extend_from_slice(&[5, 6]);
    let mut reader = SliceReader::new(&tail);
    let read = Header::from_reader(&mut reader).unwrap();
    assert_eq!(read.id(), ID_64);
    assert_eq!(read.app_id(), "i".repeat(128));
    assert_eq!(read.app_name(), format!("{}\u{4e16}", "n".repeat(125)));
    assert_eq!(read.version(), 7);
    assert_eq!(read.num_recs, 2);
    assert_eq!(read.flags(), 1);
    assert_eq!(reader.read_exact(2).unwrap(), vec![5, 6]);

    let id = Header::new("x".repeat(64), String::new(), String::new(), 0, 0, 0, 0);
    let mut bytes: Vec<u8> = Vec::new();
    id.to_writer(&mut bytes).unwrap();
    assert_eq!(&bytes[0..64], "x".repeat(64).as_bytes());
}

#[test]
fn utf8_field_reports_each_fault() {
    let mut reader = SliceReader::new(&[b'a', b'b']);
    assert!(matches!(
        read_utf8_string(&mut reader, 3),
        Err(ReadUtf8StringError::IOError(_))
    ));
    let mut reader = SliceReader::new(&[0xff, 0x00, 0x00]);
    assert!(matches!(
        read_utf8_string(&mut reader, 3),
        Err(ReadUtf8StringError::UTF8Error)
    ));
    // what follows the terminator is not looked at
    let mut reader = SliceReader::new(&[b'a', 0x00, 0xff]);
    assert_eq!(read_utf8_string(&mut reader, 3).unwrap(), "a");
}

#[test]
fn utf8_field_keeps_multibyte_text() {
    let mut out: Vec<u8> = Vec::new();
    write_utf8_string(&mut out, "h\u{e9}llo \u{4e16}\u{754c}", 16).unwrap();
    assert_eq!(out.len(), 16);
    assert_eq!(&out[..13], "h\u{e9}llo \u{4e16}\u{754c}".as_bytes());
    assert_eq!(&out[13..], &[0, 0, 0]);
    let mut reader = SliceReader::new(&out);
    assert_eq!(read_utf8_string(&mut reader, 16).unwrap(), "h\u{e9}llo \u{4e16}\u{754c}");
}

#[test]
fn utf8_field_is_padded_or_refused() {
    let mut out: Vec<u8> = Vec::new();
    write_utf8_string(&mut out, "ab", 4).unwrap();
    assert_eq!(out, vec![b'a', b'b', 0, 0]);
    write_utf8_string(&mut out, "cd", 2).unwrap();
    assert_eq!(out, vec![b'a', b'b', 0, 0, b'c', b'd']);
    assert_eq!(
        write_utf8_string(&mut out, "efg", 2).unwrap_err(),
        WriteUtf8StringError::TooLong
    );
    assert_eq!(out.len(), 6);
    write_utf8_string(&mut out, "", 0).unwrap();
    assert_eq!(out.len(), 6);
}

#[test]
fn utf16_strings_are_nul_terminated() {
    assert_eq!(to_utf16("Hi"), vec![0x48, 0x69, 0]);
    assert_eq!(to_utf16(""), vec![0]);
    assert_eq!(to_utf16("\u{1F600}"), vec![0xd83d, 0xde00, 0]);
    assert_eq!(from_utf16(&[0x48, 0x69, 0, 0x41]).unwrap(), "Hi");
    assert_eq!(from_utf16(&[0x48, 0x69]).unwrap(), "Hi");
    assert_eq!(from_utf16(&[]).unwrap(), "");
    assert_eq!(from_utf16(&[0xd83d, 0xde00, 0]).unwrap(), "\u{1F600}");
    assert_eq!(from_utf16(&[0xffff, 0xd7ff, 0xe000]).unwrap(), "\u{ffff}\u{d7ff}\u{e000}");
    assert!(from_utf16(&[0xd83d, 0]).is_none());
    assert!(from_utf16(&[0xde00, 0xd83d]).is_none());
    assert!(from_utf16(&[0xd83d, 0xd83d, 0xde00]).is_none());
}
