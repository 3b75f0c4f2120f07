use inno_updater::log::{
    dedup, patch_records, patch_uninstdat, read_log, rebase_all, summarize, write_log,
    LogReadError, LogWriteError, PatchError,
};
use inno_updater::model::{
    encode_strings, FileRec, FileRecParseFault, FileRecWriteFault, Header, HeaderParseFault,
    HeaderWriteFault, UninstallRecTyp,
};
use inno_updater::winpath::{file_name, rebase_path};

fn paths_record(typ: UninstallRecTyp, paths: &[&str]) -> FileRec {
    let strings: Vec<String> = paths.iter().map(|p| String::from(*p)).collect();
    FileRec::new(typ, 0, encode_strings(&strings).unwrap())
}

fn sample_header(num_recs: usize) -> Header {
    Header::new(
        String::from("Inno Setup Uninstall Log (b)"),
        String::from("{APP}"),
        String::from("App"),
        1048,
        num_recs,
        0,
        0,
    )
}

fn kinds(recs: &[FileRec]) -> Vec<UninstallRecTyp> {
    recs.iter().map(|r| r.typ).collect()
}

#[test]
fn test_rebase() {
    let strings = vec![
        String::from("C:\\Code\\foo.txt"),
        String::from("C:\\Code\\_\\bar.txt"),
        String::from("C:\\Code\\_\\foo\\bar.txt"),
    ];

    let data = encode_strings(&strings).unwrap();
    let record = FileRec::new(UninstallRecTyp::DeleteFile, 0, data);

    let expected = vec![
        "C:\\Code\\foo.txt",
        "C:\\Code\\bar.txt",
        "C:\\Code\\foo\\bar.txt",
    ];

    let rebased = record.rebase("C:\\Code\\_");
    let paths = rebased.get_paths().unwrap();
    assert_eq!(paths, expected);

    // Test with trailing backslash
    let rebased = record.rebase("C:\\Code\\_\\");
    let paths = rebased.get_paths().unwrap();
    assert_eq!(paths, expected);
}

#[test]
fn rebase_path_moves_what_lies_under_the_staging_directory() {
    assert_eq!(rebase_path("C:\\Code\\_\\bar.txt", "C:\\Code\\_").unwrap(), "C:\\Code\\bar.txt");
    assert_eq!(rebase_path("C:\\Code\\_\\bar.txt", "C:\\Code\\_\\").unwrap(), "C:\\Code\\bar.txt");
    assert_eq!(
        rebase_path("C:\\Code\\_\\foo\\bar.txt", "C:\\Code\\_").unwrap(),
        "C:\\Code\\foo\\bar.txt"
    );
    // the staging directory itself becomes its parent
    assert_eq!(rebase_path("C:\\Code\\_", "C:\\Code\\_").unwrap(), "C:\\Code");
    assert_eq!(rebase_path("C:\\Code\\_\\", "C:\\Code\\_").unwrap(), "C:\\Code");
    // one separator at the end goes
    assert_eq!(rebase_path("C:\\Code\\_\\dir\\", "C:\\Code\\_").unwrap(), "C:\\Code\\dir");
    // repeated separators behind the staging directory count as one
    assert_eq!(rebase_path("C:\\Code\\_\\\\a", "C:\\Code\\_").unwrap(), "C:\\Code\\a");
    // a staging directory right under the drive
    assert_eq!(rebase_path("C:\\_\\a.txt", "C:\\_").unwrap(), "C:\\a.txt");
}

#[test]
fn rebase_path_leaves_other_paths_alone() {
    assert!(rebase_path("C:\\Code\\foo.txt", "C:\\Code\\_").is_err());
    // a name that merely begins like the staging directory is another directory
    assert!(rebase_path("C:\\Code\\_x\\a.txt", "C:\\Code\\_").is_err());
    assert!(rebase_path("C:\\Code", "C:\\Code\\_").is_err());
    assert!(rebase_path("", "C:\\Code\\_").is_err());
    // a staging directory without a parent
    assert!(rebase_path("_\\a.txt", "_").is_err());
    assert!(rebase_path("a", "").is_err());
    assert!(rebase_path("\\a", "\\").is_err());
    assert_eq!(rebase_path("a", "").unwrap_err().message(), "Rebase error");
}

#[test]
fn rebase_leaves_other_records_as_they_are() {
    let payload = encode_strings(&vec![String::from("C:\\Code\\_\\bar.txt")]).unwrap();
    let run = FileRec::new(UninstallRecTyp::Run, 5, payload.clone());
    let rebased = run.rebase("C:\\Code\\_");
    assert_eq!(rebased.typ, UninstallRecTyp::Run);
    assert_eq!(rebased.extra_data(), 5);
    assert_eq!(rebased.data(), payload.as_slice());

    // a payload that is no list of paths stays as it is
    let broken = FileRec::new(UninstallRecTyp::DeleteFile, 6, vec![1, 2, 3]);
    let rebased = broken.rebase("C:\\Code\\_");
    assert_eq!(rebased.typ, UninstallRecTyp::DeleteFile);
    assert_eq!(rebased.extra_data(), 6);
    assert_eq!(rebased.data(), &[1, 2, 3]);
}

#[test]
fn rebase_keeps_kind_and_extra_data() {
    let rec = FileRec::new(
        UninstallRecTyp::DeleteDirOrFiles,
        77,
        encode_strings(&vec![String::from("C:\\Code\\_\\a"), String::from("D:\\x")]).unwrap(),
    );
    let rebased = rec.rebase("C:\\Code\\_");
    assert_eq!(rebased.typ, UninstallRecTyp::DeleteDirOrFiles);
    assert_eq!(rebased.extra_data(), 77);
    assert_eq!(rebased.get_paths().unwrap(), vec!["C:\\Code\\a", "D:\\x"]);
}

#[test]
fn rebase_all_rebases_each_record() {
    let recs = vec![
        FileRec::new(UninstallRecTyp::StartInstall, 1, Vec::new()),
        paths_record(UninstallRecTyp::DeleteFile, &["C:\\Code\\_\\a.txt"]),
    ];
    let moved = rebase_all(&recs, "C:\\Code\\_");
    assert_eq!(moved.len(), 2);
    assert_eq!(moved[0].typ, UninstallRecTyp::StartInstall);
    assert_eq!(moved[1].get_paths().unwrap(), vec!["C:\\Code\\a.txt"]);
}

#[test]
fn dedup_removes_the_later_of_two_single_path_records() {
    let recs = vec![
        paths_record(UninstallRecTyp::DeleteFile, &["C:\\Code\\a.txt"]),
        paths_record(UninstallRecTyp::DeleteFile, &["C:\\Code\\a.txt"]),
    ];
    let (kept, removed) = dedup(&recs);
    assert_eq!(removed, 1);
    assert_eq!(kept.len(), 1);
    assert_eq!(kept[0].get_paths().unwrap(), vec!["C:\\Code\\a.txt"]);
}

#[test]
fn dedup_never_removes_a_record_of_several_paths() {
    let recs = vec![
        paths_record(UninstallRecTyp::DeleteFile, &["C:\\Code\\a.txt"]),
        paths_record(UninstallRecTyp::DeleteDirOrFiles, &["C:\\Code\\a.txt", "C:\\Code\\b.txt"]),
        paths_record(UninstallRecTyp::DeleteDirOrFiles, &["C:\\Code\\a.txt", "C:\\Code\\b.txt"]),
        paths_record(UninstallRecTyp::DeleteFile, &["C:\\Code\\b.txt"]),
    ];
    let (kept, removed) = dedup(&recs);
    assert_eq!(removed, 0);
    assert_eq!(kept.len(), 4);
}

#[test]
fn dedup_compares_paths_across_both_kinds_of_deletion() {
    let recs = vec![
        paths_record(UninstallRecTyp::DeleteDirOrFiles, &["C:\\Code\\a"]),
        FileRec::new(UninstallRecTyp::Run, 0, vec![1]),
        paths_record(UninstallRecTyp::DeleteFile, &["C:\\Code\\a"]),
        paths_record(UninstallRecTyp::DeleteFile, &["C:\\Code\\A"]),
        FileRec::new(UninstallRecTyp::Run, 0, vec![1]),
        paths_record(UninstallRecTyp::DeleteFile, &[]),
        paths_record(UninstallRecTyp::DeleteFile, &[]),
    ];
    let (kept, removed) = dedup(&recs);
    assert_eq!(removed, 1);
    assert_eq!(
        kinds(&kept),
        vec![
            UninstallRecTyp::DeleteDirOrFiles,
            UninstallRecTyp::Run,
            UninstallRecTyp::DeleteFile,
            UninstallRecTyp::Run,
            UninstallRecTyp::DeleteFile,
            UninstallRecTyp::DeleteFile,
        ]
    );
    assert_eq!(kept[2].get_paths().unwrap(), vec!["C:\\Code\\A"]);
}

#[test]
fn dedup_drops_a_deletion_whose_paths_do_not_decode() {
    let recs = vec![
        FileRec::new(UninstallRecTyp::DeleteFile, 0, vec![0x00]),
        FileRec::new(UninstallRecTyp::Run, 0, vec![0x00]),
        FileRec::new(UninstallRecTyp::DeleteDirOrFiles, 0, Vec::new()),
    ];
    let (kept, removed) = dedup(&recs);
    assert_eq!(removed, 2);
    assert_eq!(kinds(&kept), vec![UninstallRecTyp::Run]);
}

#[test]
fn patch_rebases_before_it_compares() {
    let recs = vec![
        paths_record(UninstallRecTyp::DeleteFile, &["C:\\Code\\a.txt"]),
        paths_record(UninstallRecTyp::DeleteFile, &["C:\\Code\\_\\a.txt"]),
        paths_record(UninstallRecTyp::DeleteFile, &["C:\\Code\\_\\b.txt"]),
    ];
    let (kept, removed) = patch_records(&recs, "C:\\Code\\_");
    assert_eq!(removed, 1);
    assert_eq!(kept.len(), 2);
    assert_eq!(kept[0].get_paths().unwrap(), vec!["C:\\Code\\a.txt"]);
    assert_eq!(kept[1].get_paths().unwrap(), vec!["C:\\Code\\b.txt"]);
}

#[test]
fn log_round_trips() {
    let recs = vec![
        FileRec::new(UninstallRecTyp::StartInstall, 1, vec![1, 2, 3]),
        paths_record(UninstallRecTyp::DeleteFile, &["C:\\Code\\a.txt"]),
        FileRec::new(UninstallRecTyp::EndInstall, 2, Vec::new()),
    ];
    let bytes = write_log(&sample_header(3), &recs).unwrap();
    // 448 bytes of header, one block of 12 bytes and three records
    let payload = 10 + 3 + 10 + recs[1].data().len() + 10;
    assert_eq!(bytes.len(), 448 + 12 + payload);

    let (header, read) = read_log(&bytes).unwrap();
    assert_eq!(header.num_recs, 3);
    assert_eq!(header.end_offset as usize, bytes.len());
    assert_eq!(header.app_id(), "{APP}");
    assert_eq!(read.len(), 3);
    for (a, b) in read.iter().zip(recs.iter()) {
        assert_eq!(a.typ, b.typ);
        assert_eq!(a.extra_data(), b.extra_data());
        assert_eq!(a.data(), b.data());
    }
}

#[test]
fn log_of_no_records_is_the_header() {
    let bytes = write_log(&sample_header(0), &Vec::new()).unwrap();
    assert_eq!(bytes.len(), 448);
    let (header, recs) = read_log(&bytes).unwrap();
    assert_eq!(header.end_offset, 448);
    assert!(recs.is_empty());
}

#[test]
fn log_reader_reads_as_many_records_as_the_header_counts() {
    let recs = vec![
        FileRec::new(UninstallRecTyp::StartInstall, 1, Vec::new()),
        FileRec::new(UninstallRecTyp::EndInstall, 2, Vec::new()),
    ];
    let fewer = write_log(&sample_header(1), &recs).unwrap();
    let (_, read) = read_log(&fewer).unwrap();
    assert_eq!(kinds(&read), vec![UninstallRecTyp::StartInstall]);

    let more = write_log(&sample_header(3), &recs).unwrap();
    assert_eq!(
        read_log(&more).unwrap_err(),
        LogReadError::Record(inno_updater::model::FileRecParseError {
            fault: FileRecParseFault::Typ
        })
    );
}

#[test]
fn log_reader_reports_each_fault() {
    assert!(matches!(
        read_log(&[]).unwrap_err(),
        LogReadError::Header(e) if e.fault == HeaderParseFault::Read
    ));
    let recs = vec![FileRec::new(UninstallRecTyp::StartInstall, 1, vec![5; 20])];
    let bytes = write_log(&sample_header(1), &recs).unwrap();

    let mut bad_header = bytes.clone();
    bad_header[5] ^= 0x40;
    assert!(matches!(
        read_log(&bad_header).unwrap_err(),
        LogReadError::Header(e) if e.fault == HeaderParseFault::Checksum
    ));

    // a damaged block ends the stream, so the record cannot be read
    let mut bad_block = bytes.clone();
    let last = bad_block.len() - 1;
    bad_block[last] ^= 0x01;
    assert!(matches!(
        read_log(&bad_block).unwrap_err(),
        LogReadError::Record(e) if e.fault == FileRecParseFault::Typ
    ));
}

#[test]
fn log_writer_reports_each_fault() {
    let too_large = vec![FileRec::new(UninstallRecTyp::Run, 0, vec![0u8; 0x800_0001])];
    assert!(matches!(
        write_log(&sample_header(1), &too_large).unwrap_err(),
        LogWriteError::Record(e) if e.fault == FileRecWriteFault::DataTooLarge
    ));
    let header = Header::new("x".repeat(65), String::new(), String::new(), 0, 0, 0, 0);
    assert!(matches!(
        write_log(&header, &Vec::new()).unwrap_err(),
        LogWriteError::Header(e) if e.fault == HeaderWriteFault::Id
    ));
}

#[test]
fn patched_log_counts_what_is_left_and_gives_its_own_length() {
    let recs = vec![
        FileRec::new(UninstallRecTyp::StartInstall, 1, vec![1, 2, 3]),
        paths_record(UninstallRecTyp::DeleteFile, &["C:\\Code\\_\\a.txt"]),
        paths_record(UninstallRecTyp::DeleteDirOrFiles, &["C:\\Code\\a.txt"]),
        paths_record(UninstallRecTyp::DeleteFile, &["C:\\Code\\_\\a.txt"]),
        paths_record(UninstallRecTyp::DeleteDirOrFiles, &["C:\\Code\\_\\x", "C:\\Code\\_\\y"]),
        FileRec::new(UninstallRecTyp::Run, 3, vec![9; 6000]),
        FileRec::new(UninstallRecTyp::EndInstall, 2, Vec::new()),
    ];
    let n = recs.len();
    let before = write_log(&sample_header(n), &recs).unwrap();

    let (after, removed) = patch_uninstdat(&before, "C:\\Code\\_").unwrap();
    assert_eq!(removed, 2);

    let (header, kept) = read_log(&after).unwrap();
    assert_eq!(header.num_recs, n - removed);
    assert_eq!(header.end_offset as usize, after.len());
    assert_eq!(kept.len(), n - removed);
    assert_eq!(header.app_id(), "{APP}");
    assert_eq!(header.version(), 1048);
    assert_eq!(
        kinds(&kept),
        vec![
            UninstallRecTyp::StartInstall,
            UninstallRecTyp::DeleteFile,
            UninstallRecTyp::DeleteDirOrFiles,
            UninstallRecTyp::Run,
            UninstallRecTyp::EndInstall,
        ]
    );
    assert_eq!(kept[1].get_paths().unwrap(), vec!["C:\\Code\\a.txt"]);
    assert_eq!(kept[2].get_paths().unwrap(), vec!["C:\\Code\\x", "C:\\Code\\y"]);
    assert_eq!(kept[3].data(), vec![9u8; 6000].as_slice());

    // patching again changes nothing
    let (again, removed) = patch_uninstdat(&after, "C:\\Code\\_").unwrap();
    assert_eq!(removed, 0);
    assert_eq!(again, after);
}

#[test]
fn log_keeps_header_texts_of_the_full_width() {
    let header = Header::new(
        String::from("Inno Setup Uninstall Log (b) 64-bit"),
        "i".repeat(128),
        "n".repeat(128),
        1048,
        2,
        77,
        3,
    );
    let recs = vec![
        paths_record(UninstallRecTyp::DeleteFile, &["C:\\Code\\_\\a.txt"]),
        paths_record(UninstallRecTyp::DeleteFile, &["C:\\Code\\a.txt"]),
    ];
    let bytes = write_log(&header, &recs).unwrap();
    let (read, read_recs) = read_log(&bytes).unwrap();
    assert_eq!(read.id(), "Inno Setup Uninstall Log (b) 64-bit");
    assert_eq!(read.app_id(), "i".repeat(128));
    assert_eq!(read.app_name(), "n".repeat(128));
    assert_eq!(read.version(), 1048);
    assert_eq!(read.flags(), 3);
    assert_eq!(read.num_recs, 2);
    assert_eq!(read.end_offset as usize, bytes.len());
    assert_eq!(read_recs.len(), 2);

    let (patched, removed) = patch_uninstdat(&bytes, "C:\\Code\\_").unwrap();
    assert_eq!(removed, 1);
    assert!(patched.len() <= bytes.len());
    let (after, kept) = read_log(&patched).unwrap();
    assert_eq!(after.app_id(), "i".repeat(128));
    assert_eq!(after.app_name(), "n".repeat(128));
    assert_eq!(after.id(), read.id());
    assert_eq!(after.version(), 1048);
    assert_eq!(after.flags(), 3);
    assert_eq!(after.num_recs, 1);
    assert_eq!(after.end_offset as usize, patched.len());
    assert_eq!(kept.len(), 1);
}

#[test]
fn patch_succeeds_on_a_log_in_small_blocks_with_entries_of_no_bytes() {
    // records in blocks of their own, a path list with an empty entry
    let mut listed = vec![0xfeu8, 0, 0, 0, 0];
    listed.extend_from_slice(&encode_strings(&vec![String::from("C:\\Code\\_\\a")]).unwrap());
    let recs = vec![
        FileRec::new(UninstallRecTyp::DeleteFile, 1, listed),
        FileRec::new(UninstallRecTyp::Run, 2, vec![1, 2, 3]),
    ];
    let mut bytes: Vec<u8> = Vec::new();
    sample_header(2).to_writer(&mut bytes).unwrap();
    let mut blocks = inno_updater::blockio::BlockWrite::new(bytes);
    for rec in &recs {
        rec.to_writer(&mut blocks).unwrap();
        blocks.flush();
    }
    let bytes = blocks.into_inner();
    let (patched, removed) = patch_uninstdat(&bytes, "C:\\Code\\_").unwrap();
    assert_eq!(removed, 0);
    assert!(patched.len() < bytes.len());
    let (after, kept) = read_log(&patched).unwrap();
    assert_eq!(after.num_recs, 2);
    assert_eq!(after.end_offset as usize, patched.len());
    assert_eq!(kept[0].get_paths().unwrap(), vec!["C:\\Code\\a"]);
    assert_eq!(kept[1].data(), &[1, 2, 3]);
}

#[test]
fn patch_reports_a_log_that_cannot_be_read() {
    assert!(matches!(
        patch_uninstdat(&[1, 2, 3], "C:\\Code\\_").unwrap_err(),
        PatchError::Read(LogReadError::Header(e)) if e.fault == HeaderParseFault::Read
    ));
}

#[test]
fn summary_counts_the_records_of_each_kind() {
    let recs = vec![
        FileRec::new(UninstallRecTyp::EndInstall, 0, Vec::new()),
        FileRec::new(UninstallRecTyp::DeleteFile, 0, Vec::new()),
        FileRec::new(UninstallRecTyp::StartInstall, 0, Vec::new()),
        FileRec::new(UninstallRecTyp::DeleteFile, 0, Vec::new()),
        FileRec::new(UninstallRecTyp::UserDefined, 0, Vec::new()),
    ];
    assert_eq!(
        summarize(&recs),
        vec![
            (UninstallRecTyp::UserDefined, 1),
            (UninstallRecTyp::StartInstall, 1),
            (UninstallRecTyp::EndInstall, 1),
            (UninstallRecTyp::DeleteFile, 2),
        ]
    );
    assert!(summarize(&Vec::new()).is_empty());
}

#[test]
fn file_name_is_what_follows_the_last_separator() {
    assert_eq!(file_name("C:\\Code\\Code.exe").unwrap(), "Code.exe");
    assert_eq!(file_name("Code.exe").unwrap(), "Code.exe");
    assert_eq!(file_name("C:\\Code\\bin\\").unwrap(), "bin");
    assert!(file_name("").is_none());
    assert!(file_name("\\").is_none());
    assert!(file_name("C:\\Code\\..").is_none());
    assert_eq!(file_name("C:\\Code\\...").unwrap(), "...");
    // the name of a drive is no file name
    assert!(file_name("C:").is_none());
    assert!(file_name("C:\\").is_none());
    assert!(file_name("z:").is_none());
    assert_eq!(file_name("C:Code.exe").unwrap(), "Code.exe");
    assert_eq!(file_name("C:\\a:").unwrap(), "a:");
    assert_eq!(file_name("1:").unwrap(), "1:");
    assert_eq!(file_name("C").unwrap(), "C");
    assert!(file_name("C:..").is_none());
}
