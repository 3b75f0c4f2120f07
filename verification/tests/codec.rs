use inno_updater::blockio::{BlockRead, BlockWrite};
use inno_updater::model::{
    decode_strings, encode_strings, FileRec, FileRecParseFault, FileRecWriteFault,
    StringDecodeFault, UninstallRecTyp,
};
use inno_updater::stream::{ByteRead, ByteWrite, ReadError, SliceReader};

#[test]
fn test_decode_encode_strings() {
    let strings = vec![
        String::from("Hello"),
        String::from("World"),
        String::from("Test"),
    ];

    let encoded = encode_strings(&strings).unwrap();
    let decoded = decode_strings(&encoded).unwrap();

    assert_eq!(strings, decoded);
}

#[test]
fn test_file_rec_serialization() {
    let original = FileRec::new(
        UninstallRecTyp::DeleteFile,
        42,
        vec![
            0xfe, 0xfc, 0xff, 0xff, 0x48, 0x00, 0x65, 0x00, 0x6c, 0x00, 0x6c, 0x00, 0x6f, 0x00,
            0xff,
        ],
    );

    let mut buffer: Vec<u8> = Vec::new();
    original.to_writer(&mut buffer).unwrap();

    let mut reader = SliceReader::new(buffer.as_slice());
    let parsed = FileRec::from_reader(&mut reader).unwrap();

    assert_eq!(original.typ, parsed.typ);
    assert_eq!(original.extra_data(), parsed.extra_data());
    assert_eq!(original.data(), parsed.data());
}

#[test]
fn encode_strings_writes_the_documented_bytes() {
    let encoded = encode_strings(&vec![String::from("Hi")]).unwrap();
    assert_eq!(
        encoded,
        vec![0xfe, 0xfc, 0xff, 0xff, 0xff, 0x48, 0x00, 0x69, 0x00, 0xff]
    );
}

#[test]
fn encode_strings_of_nothing_is_the_terminator() {
    assert_eq!(encode_strings(&Vec::new()).unwrap(), vec![0xff]);
    assert_eq!(decode_strings(&[0xff]).unwrap(), Vec::<String>::new());
}

#[test]
fn decode_strings_reads_a_record_payload() {
    let data = vec![
        0xfe, 0xf6, 0xff, 0xff, 0xff, 0x48, 0x00, 0x65, 0x00, 0x6c, 0x00, 0x6c, 0x00, 0x6f, 0x00,
        0xff,
    ];
    assert_eq!(decode_strings(&data).unwrap(), vec![String::from("Hello")]);
}

#[test]
fn paths_round_trip_drops_empty_strings() {
    let strings = vec![
        String::from("a"),
        String::new(),
        String::from("b"),
        String::new(),
    ];
    let encoded = encode_strings(&strings).unwrap();
    assert_eq!(
        encoded,
        vec![
            0xfe, 0xfe, 0xff, 0xff, 0xff, 0x61, 0x00, 0xfe, 0x00, 0x00, 0x00, 0x00, 0xfe, 0xfe,
            0xff, 0xff, 0xff, 0x62, 0x00, 0xfe, 0x00, 0x00, 0x00, 0x00, 0xff
        ]
    );
    let decoded = decode_strings(&encoded).unwrap();
    assert_eq!(decoded, vec![String::from("a"), String::from("b")]);
}

#[test]
fn paths_round_trip_keeps_characters_beyond_the_basic_plane() {
    let strings = vec![String::from("C:\\Code\\\u{1F600}.txt"), String::from("\u{e9}\u{4e2d}")];
    let encoded = encode_strings(&strings).unwrap();
    // the emoji is the surrogate pair D83D DE00
    assert_eq!(&encoded[0..5], &[0xfe, 0xe4, 0xff, 0xff, 0xff]);
    assert_eq!(&encoded[21..25], &[0x3d, 0xd8, 0x00, 0xde]);
    assert_eq!(decode_strings(&encoded).unwrap(), strings);
}

#[test]
fn decode_strings_reports_each_fault() {
    assert_eq!(decode_strings(&[]).unwrap_err().fault, StringDecodeFault::Header);
    assert_eq!(
        decode_strings(&[0xfe, 0x00, 0x00, 0x00, 0x00]).unwrap_err().fault,
        StringDecodeFault::Header
    );
    assert_eq!(decode_strings(&[0x00]).unwrap_err().fault, StringDecodeFault::InvalidHeader);
    assert_eq!(decode_strings(&[0xfd]).unwrap_err().fault, StringDecodeFault::InvalidHeader);
    assert_eq!(decode_strings(&[0xfe, 0xfe, 0xff]).unwrap_err().fault, StringDecodeFault::Size);
    // a size that stands for an odd count of bytes
    assert_eq!(
        decode_strings(&[0xfe, 0xff, 0xff, 0xff, 0xff, 0x41, 0xff]).unwrap_err().fault,
        StringDecodeFault::Size
    );
    // a size that stands for a negative count of bytes
    assert_eq!(
        decode_strings(&[0xfe, 0x02, 0x00, 0x00, 0x00, 0x41, 0x00, 0xff]).unwrap_err().fault,
        StringDecodeFault::Size
    );
    // the text is cut short
    assert_eq!(
        decode_strings(&[0xfe, 0xfc, 0xff, 0xff, 0xff, 0x41, 0x00]).unwrap_err().fault,
        StringDecodeFault::Data
    );
    // a lone low surrogate
    assert_eq!(
        decode_strings(&[0xfe, 0xfe, 0xff, 0xff, 0xff, 0x00, 0xdc, 0xff]).unwrap_err().fault,
        StringDecodeFault::Data
    );
    // a high surrogate without its partner
    assert_eq!(
        decode_strings(&[0xfe, 0xfc, 0xff, 0xff, 0xff, 0x3d, 0xd8, 0x41, 0x00, 0xff])
            .unwrap_err()
            .fault,
        StringDecodeFault::Data
    );
    // bytes after the terminator
    assert_eq!(decode_strings(&[0xff, 0x00]).unwrap_err().fault, StringDecodeFault::Length);
    assert_eq!(
        decode_strings(&[0xff, 0x00]).unwrap_err().message(),
        "String decode error: Invalid file rec string header length"
    );
}

#[test]
fn record_is_stored_with_little_endian_fields() {
    let rec = FileRec::new(UninstallRecTyp::Run, 0x0102_0304, vec![9, 8, 7]);
    let mut out: Vec<u8> = Vec::new();
    rec.to_writer(&mut out).unwrap();
    assert_eq!(
        out,
        vec![0x80, 0x00, 0x04, 0x03, 0x02, 0x01, 0x03, 0x00, 0x00, 0x00, 9, 8, 7]
    );
}

#[test]
fn record_kinds_have_their_codes() {
    let codes: [u16; 17] = [
        0x01, 0x10, 0x11, 0x20, 0x80, 0x81, 0x82, 0x83, 0x84, 0x85, 0x86, 0x87, 0x88, 0x89, 0x8a,
        0x8b, 0x8c,
    ];
    for code in codes {
        let typ = UninstallRecTyp::from(code).unwrap();
        assert_eq!(typ.code(), code);
    }
    assert_eq!(UninstallRecTyp::from(0x82), Some(UninstallRecTyp::DeleteFile));
    assert_eq!(UninstallRecTyp::from(0x81), Some(UninstallRecTyp::DeleteDirOrFiles));
    assert_eq!(UninstallRecTyp::from(0x00), None);
    assert_eq!(UninstallRecTyp::from(0x8d), None);
    assert!(UninstallRecTyp::DeleteFile.is_delete());
    assert!(UninstallRecTyp::DeleteDirOrFiles.is_delete());
    assert!(!UninstallRecTyp::Run.is_delete());
}

#[test]
fn record_reader_reports_each_fault() {
    let fault = |bytes: &[u8]| {
        let mut reader = SliceReader::new(bytes);
        FileRec::from_reader(&mut reader).unwrap_err().fault
    };
    assert_eq!(fault(&[]), FileRecParseFault::Typ);
    assert_eq!(fault(&[0x82]), FileRecParseFault::Typ);
    assert_eq!(fault(&[0x82, 0, 1, 2, 3]), FileRecParseFault::ExtraData);
    assert_eq!(fault(&[0x82, 0, 1, 2, 3, 4, 5, 0, 0]), FileRecParseFault::DataSize);
    // 0x08000001 bytes of payload are one too many
    assert_eq!(
        fault(&[0x82, 0, 0, 0, 0, 0, 0x01, 0x00, 0x00, 0x08]),
        FileRecParseFault::DataTooLarge
    );
    assert_eq!(fault(&[0x82, 0, 0, 0, 0, 0, 2, 0, 0, 0, 0xaa]), FileRecParseFault::Data);
    assert_eq!(fault(&[0x02, 0, 0, 0, 0, 0, 1, 0, 0, 0, 0xaa]), FileRecParseFault::UnknownKind);
    // a payload of exactly 128 MB is said to be fine; here it is only missing
    assert_eq!(
        fault(&[0x82, 0, 0, 0, 0, 0, 0x00, 0x00, 0x00, 0x08]),
        FileRecParseFault::Data
    );
}

#[test]
fn record_reader_leaves_what_follows() {
    let bytes = [0x10, 0, 7, 0, 0, 0, 1, 0, 0, 0, 0xaa, 0x11, 0, 8, 0, 0, 0, 0, 0, 0, 0];
    let mut reader = SliceReader::new(&bytes);
    let first = FileRec::from_reader(&mut reader).unwrap();
    let second = FileRec::from_reader(&mut reader).unwrap();
    assert_eq!(first.typ, UninstallRecTyp::StartInstall);
    assert_eq!(first.extra_data(), 7);
    assert_eq!(first.data(), &[0xaa]);
    assert_eq!(second.typ, UninstallRecTyp::EndInstall);
    assert_eq!(second.extra_data(), 8);
    assert!(second.data().is_empty());
    assert_eq!(
        FileRec::from_reader(&mut reader).unwrap_err().fault,
        FileRecParseFault::Typ
    );
}

#[test]
fn record_writer_refuses_an_oversized_payload() {
    let rec = FileRec::new(UninstallRecTyp::Run, 0, vec![0u8; 0x800_0001]);
    let mut out: Vec<u8> = vec![1, 2, 3];
    let err = rec.to_writer(&mut out).unwrap_err();
    assert_eq!(err.fault, FileRecWriteFault::DataTooLarge);
    assert_eq!(out, vec![1, 2, 3]);
}

#[test]
fn slice_reader_hands_out_bytes_in_order() {
    let bytes = [1u8, 2, 3, 4, 5];
    let mut reader = SliceReader::new(&bytes);
    assert_eq!(reader.read_exact(0).unwrap(), Vec::<u8>::new());
    assert_eq!(reader.read_exact(2).unwrap(), vec![1, 2]);
    assert_eq!(reader.read_exact(3).unwrap(), vec![3, 4, 5]);
    assert_eq!(reader.read_exact(1).unwrap_err(), ReadError::UnexpectedEof);
}

#[test]
fn slice_reader_is_empty_after_a_failed_read() {
    let bytes = [1u8, 2, 3];
    let mut reader = SliceReader::new(&bytes);
    assert_eq!(reader.read_exact(4).unwrap_err(), ReadError::UnexpectedEof);
    assert_eq!(reader.read_exact(1).unwrap_err(), ReadError::UnexpectedEof);
    assert_eq!(reader.read_exact(0).unwrap(), Vec::<u8>::new());
}

#[test]
fn block_carries_length_complement_and_checksum() {
    let mut writer = BlockWrite::new(Vec::<u8>::new());
    writer.write_all(b"123456789");
    writer.flush();
    let out = writer.into_inner();
    assert_eq!(
        out,
        vec![
            0x09, 0x00, 0x00, 0x00, 0xf6, 0xff, 0xff, 0xff, 0x26, 0x39, 0xf4, 0xcb, b'1', b'2',
            b'3', b'4', b'5', b'6', b'7', b'8', b'9'
        ]
    );
}

#[test]
fn block_writer_cuts_blocks_at_4096_bytes() {
    let data: Vec<u8> = (0..10000u32).map(|i| (i % 251) as u8).collect();
    let mut writer = BlockWrite::new(Vec::<u8>::new());
    writer.write_all(&data[..5000]);
    writer.write_all(&data[5000..]);
    writer.flush();
    let out = writer.into_inner();
    // two full blocks and one of 1808 bytes
    assert_eq!(out.len(), 3 * 12 + 10000);
    assert_eq!(&out[0..4], &[0x00, 0x10, 0x00, 0x00]);
    assert_eq!(&out[4..8], &[0xff, 0xef, 0xff, 0xff]);
    assert_eq!(&out[4108..4112], &[0x00, 0x10, 0x00, 0x00]);
    assert_eq!(&out[8216..8220], &[0x10, 0x07, 0x00, 0x00]);

    let mut reader = BlockRead::new(SliceReader::new(&out));
    assert_eq!(reader.read_exact(10000).unwrap(), data);
    assert_eq!(reader.read_exact(1).unwrap_err(), ReadError::UnexpectedEof);
}

#[test]
fn block_writer_keeps_what_is_pending_until_the_flush() {
    let mut writer = BlockWrite::new(vec![0xaau8]);
    writer.write_all(&[1, 2, 3]);
    writer.flush();
    writer.flush();
    writer.write_all(&[4]);
    let out = writer.into_inner();
    assert_eq!(out.len(), 1 + 12 + 3);
    assert_eq!(out[0], 0xaa);
    assert_eq!(&out[1..5], &[3, 0, 0, 0]);
    assert_eq!(&out[13..], &[1, 2, 3]);
}

#[test]
fn block_writer_flushes_a_full_block_by_itself() {
    let mut writer = BlockWrite::new(Vec::<u8>::new());
    writer.write_all(&vec![7u8; 4096]);
    let out = writer.into_inner();
    assert_eq!(out.len(), 12 + 4096);
}

#[test]
fn block_reader_crosses_block_boundaries() {
    let mut writer = BlockWrite::new(Vec::<u8>::new());
    writer.write_all(&[1, 2, 3]);
    writer.flush();
    writer.write_all(&[4, 5]);
    writer.flush();
    let out = writer.into_inner();
    let mut reader = BlockRead::new(SliceReader::new(&out));
    assert_eq!(reader.read_exact(2).unwrap(), vec![1, 2]);
    assert_eq!(reader.read_exact(3).unwrap(), vec![3, 4, 5]);
    assert_eq!(reader.read_exact(0).unwrap(), Vec::<u8>::new());
}

#[test]
fn block_reader_skips_an_empty_block() {
    let stream = [
        0u8, 0, 0, 0, 0xff, 0xff, 0xff, 0xff, 0, 0, 0, 0, // an empty block
        1, 0, 0, 0, 0xfe, 0xff, 0xff, 0xff, 0x1b, 0xdf, 0x05, 0xa5, 0x01,
    ];
    let mut reader = BlockRead::new(SliceReader::new(&stream));
    assert_eq!(reader.read_exact(1).unwrap(), vec![1]);
}

#[test]
fn block_reader_reports_each_fault() {
    let good = [1u8, 0, 0, 0, 0xfe, 0xff, 0xff, 0xff, 0x1b, 0xdf, 0x05, 0xa5, 0x01];
    let fault = |bytes: &[u8]| {
        let mut reader = BlockRead::new(SliceReader::new(bytes));
        reader.read_exact(1).unwrap_err()
    };
    assert_eq!(fault(&[]), ReadError::UnexpectedEof);
    assert_eq!(fault(&good[..7]), ReadError::UnexpectedEof);
    assert_eq!(fault(&good[..12]), ReadError::UnexpectedEof);

    let mut size_corrupt = good;
    size_corrupt[4] = 0xff;
    assert_eq!(fault(&size_corrupt), ReadError::BlockSizeCorrupt);

    // 4097 bytes with the right complement
    let too_large = [0x01u8, 0x10, 0, 0, 0xfe, 0xef, 0xff, 0xff, 0, 0, 0, 0];
    assert_eq!(fault(&too_large), ReadError::BlockTooLarge);

    let mut bad_payload = good;
    bad_payload[12] = 0x02;
    assert_eq!(fault(&bad_payload), ReadError::BlockChecksum);

    let mut bad_crc = good;
    bad_crc[8] ^= 0x01;
    assert_eq!(fault(&bad_crc), ReadError::BlockChecksum);
}

#[test]
fn block_reader_delivers_nothing_after_a_fault() {
    let mut stream = vec![1u8, 0, 0, 0, 0xfe, 0xff, 0xff, 0xff, 0x1b, 0xdf, 0x05, 0xa5, 0x01];
    stream.extend_from_slice(&[1u8, 0, 0, 0, 0xfe, 0xff, 0xff, 0xff, 0, 0, 0, 0, 0x01]);
    stream.extend_from_slice(&[1u8, 0, 0, 0, 0xfe, 0xff, 0xff, 0xff, 0x1b, 0xdf, 0x05, 0xa5, 0x01]);
    let mut reader = BlockRead::new(SliceReader::new(&stream));
    assert_eq!(reader.read_exact(1).unwrap(), vec![1]);
    assert_eq!(reader.read_exact(1).unwrap_err(), ReadError::BlockChecksum);
    assert_eq!(reader.read_exact(1).unwrap_err(), ReadError::UnexpectedEof);
    assert_eq!(reader.read_exact(0).unwrap(), Vec::<u8>::new());
}

#[test]
fn records_pass_through_a_block_stream() {
    let first = FileRec::new(UninstallRecTyp::StartInstall, 1, vec![0x55; 5000]);
    let second = FileRec::new(UninstallRecTyp::EndInstall, 2, Vec::new());
    let mut writer = BlockWrite::new(Vec::<u8>::new());
    first.to_writer(&mut writer).unwrap();
    second.to_writer(&mut writer).unwrap();
    writer.flush();
    let out = writer.into_inner();

    let mut reader = BlockRead::new(SliceReader::new(&out));
    let a = FileRec::from_reader(&mut reader).unwrap();
    let b = FileRec::from_reader(&mut reader).unwrap();
    assert_eq!(a.typ, UninstallRecTyp::StartInstall);
    assert_eq!(a.extra_data(), 1);
    assert_eq!(a.data(), first.data());
    assert_eq!(b.typ, UninstallRecTyp::EndInstall);
    assert_eq!(b.extra_data(), 2);
    assert!(b.data().is_empty());
}
