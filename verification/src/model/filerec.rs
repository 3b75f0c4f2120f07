//! One entry of the uninstall log: a kind, a word of extra data and a
//! payload.

use crate::endian::{
    le_u16, le_u32, lemma_u16_round_trip, lemma_u32_round_trip, read_u16, read_u32, u16_le,
    u32_le, write_u16, write_u32,
};
use crate::model::paths::{
    decode_paths, decode_strings, encode_paths, encode_strings, lemma_decoded_paths_fit,
    lemma_encoded_is_no_longer, lemma_entry_len, path_entries, path_fits, paths_fit,
    StringDecodeError,
};
use crate::stream::{ByteRead, ByteWrite};
use crate::text::{lemma_texts_push, texts};
use crate::winpath::{lemma_rebased_is_no_longer, rebase_path, rebased_path};
use vstd::prelude::*;

verus! {

/// The largest payload that a record may carry: 128 MB.
pub const MAX_DATA_SIZE: usize = 0x800_0000;

/// The size of what stands before the payload of a stored record.
pub const RECORD_HEAD_SIZE: usize = 10;

/// The kind of a record.
#[derive(Copy, Clone, PartialEq, Eq, Debug, Structural)]
pub enum UninstallRecTyp {
    UserDefined,
    StartInstall,
    EndInstall,
    CompiledCode,
    Run,
    DeleteDirOrFiles,
    DeleteFile,
    DeleteGroupOrItem,
    IniDeleteEntry,
    IniDeleteSection,
    RegDeleteEntireKey,
    RegClearValue,
    RegDeleteKeyIfEmpty,
    RegDeleteValue,
    DecrementSharedCount,
    RefreshFileAssoc,
    MutexCheck,
}

/// The kind that the number `code` stands for, if any.
pub open spec fn typ_of_code(code: u16) -> Option<UninstallRecTyp> {
    if code == 0x01 {
        Some(UninstallRecTyp::UserDefined)
    } else if code == 0x10 {
        Some(UninstallRecTyp::StartInstall)
    } else if code == 0x11 {
        Some(UninstallRecTyp::EndInstall)
    } else if code == 0x20 {
        Some(UninstallRecTyp::CompiledCode)
    } else if code == 0x80 {
        Some(UninstallRecTyp::Run)
    } else if code == 0x81 {
        Some(UninstallRecTyp::DeleteDirOrFiles)
    } else if code == 0x82 {
        Some(UninstallRecTyp::DeleteFile)
    } else if code == 0x83 {
        Some(UninstallRecTyp::DeleteGroupOrItem)
    } else if code == 0x84 {
        Some(UninstallRecTyp::IniDeleteEntry)
    } else if code == 0x85 {
        Some(UninstallRecTyp::IniDeleteSection)
    } else if code == 0x86 {
        Some(UninstallRecTyp::RegDeleteEntireKey)
    } else if code == 0x87 {
        Some(UninstallRecTyp::RegClearValue)
    } else if code == 0x88 {
        Some(UninstallRecTyp::RegDeleteKeyIfEmpty)
    } else if code == 0x89 {
        Some(UninstallRecTyp::RegDeleteValue)
    } else if code == 0x8A {
        Some(UninstallRecTyp::DecrementSharedCount)
    } else if code == 0x8B {
        Some(UninstallRecTyp::RefreshFileAssoc)
    } else if code == 0x8C {
        Some(UninstallRecTyp::MutexCheck)
    } else {
        None
    }
}

impl UninstallRecTyp {
    /// The number that stands for the kind in the log.
    pub open spec fn code_of(self) -> u16 {
        match self {
            UninstallRecTyp::UserDefined => 0x01,
            UninstallRecTyp::StartInstall => 0x10,
            UninstallRecTyp::EndInstall => 0x11,
            UninstallRecTyp::CompiledCode => 0x20,
            UninstallRecTyp::Run => 0x80,
            UninstallRecTyp::DeleteDirOrFiles => 0x81,
            UninstallRecTyp::DeleteFile => 0x82,
            UninstallRecTyp::DeleteGroupOrItem => 0x83,
            UninstallRecTyp::IniDeleteEntry => 0x84,
            UninstallRecTyp::IniDeleteSection => 0x85,
            UninstallRecTyp::RegDeleteEntireKey => 0x86,
            UninstallRecTyp::RegClearValue => 0x87,
            UninstallRecTyp::RegDeleteKeyIfEmpty => 0x88,
            UninstallRecTyp::RegDeleteValue => 0x89,
            UninstallRecTyp::DecrementSharedCount => 0x8A,
            UninstallRecTyp::RefreshFileAssoc => 0x8B,
            UninstallRecTyp::MutexCheck => 0x8C,
        }
    }

    /// A record of this kind carries a list of paths to delete.
    pub open spec fn names_paths(self) -> bool {
        self == UninstallRecTyp::DeleteDirOrFiles || self == UninstallRecTyp::DeleteFile
    }

    /// The kind that the number `i` stands for, or `None` for a number that
    /// stands for no kind.
    pub fn from(i: u16) -> (r: Option<UninstallRecTyp>)
        ensures
            r == typ_of_code(i),
            r matches Some(typ) ==> typ.code_of() == i,
    {
        match i {
            0x01 => Some(UninstallRecTyp::UserDefined),
            0x10 => Some(UninstallRecTyp::StartInstall),
            0x11 => Some(UninstallRecTyp::EndInstall),
            0x20 => Some(UninstallRecTyp::CompiledCode),
            0x80 => Some(UninstallRecTyp::Run),
            0x81 => Some(UninstallRecTyp::DeleteDirOrFiles),
            0x82 => Some(UninstallRecTyp::DeleteFile),
            0x83 => Some(UninstallRecTyp::DeleteGroupOrItem),
            0x84 => Some(UninstallRecTyp::IniDeleteEntry),
            0x85 => Some(UninstallRecTyp::IniDeleteSection),
            0x86 => Some(UninstallRecTyp::RegDeleteEntireKey),
            0x87 => Some(UninstallRecTyp::RegClearValue),
            0x88 => Some(UninstallRecTyp::RegDeleteKeyIfEmpty),
            0x89 => Some(UninstallRecTyp::RegDeleteValue),
            0x8A => Some(UninstallRecTyp::DecrementSharedCount),
            0x8B => Some(UninstallRecTyp::RefreshFileAssoc),
            0x8C => Some(UninstallRecTyp::MutexCheck),
            _ => None,
        }
    }

    /// The number that stands for the kind in the log.
    pub fn code(self) -> (c: u16)
        ensures
            c == self.code_of(),
            typ_of_code(c) == Some(self),
    {
        match self {
            UninstallRecTyp::UserDefined => 0x01,
            UninstallRecTyp::StartInstall => 0x10,
            UninstallRecTyp::EndInstall => 0x11,
            UninstallRecTyp::CompiledCode => 0x20,
            UninstallRecTyp::Run => 0x80,
            UninstallRecTyp::DeleteDirOrFiles => 0x81,
            UninstallRecTyp::DeleteFile => 0x82,
            UninstallRecTyp::DeleteGroupOrItem => 0x83,
            UninstallRecTyp::IniDeleteEntry => 0x84,
            UninstallRecTyp::IniDeleteSection => 0x85,
            UninstallRecTyp::RegDeleteEntireKey => 0x86,
            UninstallRecTyp::RegClearValue => 0x87,
            UninstallRecTyp::RegDeleteKeyIfEmpty => 0x88,
            UninstallRecTyp::RegDeleteValue => 0x89,
            UninstallRecTyp::DecrementSharedCount => 0x8A,
            UninstallRecTyp::RefreshFileAssoc => 0x8B,
            UninstallRecTyp::MutexCheck => 0x8C,
        }
    }

    /// Whether a record of this kind carries a list of paths to delete.
    pub fn is_delete(self) -> (b: bool)
        ensures
            b == self.names_paths(),
    {
        match self {
            UninstallRecTyp::DeleteDirOrFiles => true,
            UninstallRecTyp::DeleteFile => true,
            _ => false,
        }
    }
}

/// What is wrong with a stored record that cannot be read.
#[derive(Clone, Copy, Debug, PartialEq, Eq, Structural)]
pub enum FileRecParseFault {
    /// The source ended within the kind.
    Typ,
    /// The source ended within the extra data.
    ExtraData,
    /// The source ended within the size of the payload.
    DataSize,
    /// The payload is said to be larger than 128 MB.
    DataTooLarge,
    /// The source ended within the payload.
    Data,
    /// The number of the kind stands for no kind.
    UnknownKind,
}

/// The error of reading a record.
#[derive(Clone, Copy, Debug, PartialEq, Eq, Structural)]
pub struct FileRecParseError {
    pub fault: FileRecParseFault,
}

/// What is wrong with a record that cannot be written.
#[derive(Clone, Copy, Debug, PartialEq, Eq, Structural)]
pub enum FileRecWriteFault {
    /// The payload is larger than 128 MB.
    DataTooLarge,
}

/// The error of writing a record.
#[derive(Clone, Copy, Debug, PartialEq, Eq, Structural)]
pub struct FileRecWriteError {
    pub fault: FileRecWriteFault,
}

/// The text of the message of a parse error.
pub open spec fn parse_fault_text(fault: FileRecParseFault) -> Seq<char> {
    match fault {
        FileRecParseFault::Typ => "FileRec parse error: Failed to parse file rec typ"@,
        FileRecParseFault::ExtraData => "FileRec parse error: Failed to parse file rec extra data"@,
        FileRecParseFault::DataSize => "FileRec parse error: Failed to parse file rec data size"@,
        FileRecParseFault::DataTooLarge => "FileRec parse error: File rec data size too large"@,
        FileRecParseFault::Data => "FileRec parse error: Failed to parse file rec data"@,
        FileRecParseFault::UnknownKind => "FileRec parse error: Unknown file rec typ"@,
    }
}

impl FileRecParseError {
    /// The message of the error.
    pub fn message(&self) -> (s: String)
        ensures
            s@ == parse_fault_text(self.fault),
    {
        match self.fault {
            FileRecParseFault::Typ => "FileRec parse error: Failed to parse file rec typ".to_owned(),
            FileRecParseFault::ExtraData => "FileRec parse error: Failed to parse file rec extra data".to_owned(),
            FileRecParseFault::DataSize => "FileRec parse error: Failed to parse file rec data size".to_owned(),
            FileRecParseFault::DataTooLarge => "FileRec parse error: File rec data size too large".to_owned(),
            FileRecParseFault::Data => "FileRec parse error: Failed to parse file rec data".to_owned(),
            FileRecParseFault::UnknownKind => "FileRec parse error: Unknown file rec typ".to_owned(),
        }
    }
}

impl FileRecWriteError {
    /// The message of the error.
    pub fn message(&self) -> (s: String)
        ensures
            s@ == "FileRec write error: Failed to write file rec data size to buffer"@,
    {
        "FileRec write error: Failed to write file rec data size to buffer".to_owned()
    }
}

/// One record of the uninstall log.
#[derive(Debug)]
pub struct FileRec {
    pub typ: UninstallRecTyp,
    extra_data: u32,
    data: Vec<u8>,
}

/// What a record holds.
pub ghost struct FileRecView {
    pub typ: UninstallRecTyp,
    pub extra_data: u32,
    pub data: Seq<u8>,
}

impl View for FileRec {
    type V = FileRecView;

    closed spec fn view(&self) -> FileRecView {
        FileRecView { typ: self.typ, extra_data: self.extra_data, data: self.data@ }
    }
}

/// The bytes that store `rec`: the kind, the extra data and the size of the
/// payload, then the payload as it is.
pub open spec fn encode_record(rec: FileRecView) -> Seq<u8> {
    u16_le(rec.typ.code_of()) + u32_le(rec.extra_data) + u32_le(rec.data.len() as u32) + rec.data
}

/// The record at the head of `s` and the count of bytes that store it, or
/// what is wrong with it.
pub open spec fn parse_record(s: Seq<u8>) -> Result<(FileRecView, int), FileRecParseFault> {
    if s.len() < 2 {
        Err(FileRecParseFault::Typ)
    } else if s.len() < 6 {
        Err(FileRecParseFault::ExtraData)
    } else if s.len() < 10 {
        Err(FileRecParseFault::DataSize)
    } else {
        let size = le_u32(s.subrange(6, 10));
        if size > MAX_DATA_SIZE {
            Err(FileRecParseFault::DataTooLarge)
        } else if s.len() < 10 + size {
            Err(FileRecParseFault::Data)
        } else {
            match typ_of_code(le_u16(s.subrange(0, 2))) {
                None => Err(FileRecParseFault::UnknownKind),
                Some(typ) => Ok(
                    (
                        FileRecView {
                            typ,
                            extra_data: le_u32(s.subrange(2, 6)),
                            data: s.subrange(10, 10 + size),
                        },
                        10 + size,
                    ),
                ),
            }
        }
    }
}

/// How many bytes of `s` an attempt to read a record takes away. Where the
/// source ends within the record, all of it is taken.
pub open spec fn record_reach(s: Seq<u8>) -> int {
    match parse_record(s) {
        Ok((_, taken)) => taken,
        Err(FileRecParseFault::DataTooLarge) => 10,
        Err(FileRecParseFault::UnknownKind) => 10 + le_u32(s.subrange(6, 10)),
        Err(_) => s.len() as int,
    }
}

/// Each path of `paths` moved from under `staging` to its parent; a path
/// that does not lie under `staging` stays as it is.
pub open spec fn rebase_each(paths: Seq<Seq<char>>, staging: Seq<char>) -> Seq<Seq<char>> {
    Seq::new(
        paths.len(),
        |i: int|
            match rebased_path(paths[i], staging) {
                Some(moved) => moved,
                None => paths[i],
            },
    )
}

/// The record with its paths rebased. A record of another kind and one
/// whose payload is no list of paths stay as they are.
pub open spec fn rebased_record(rec: FileRecView, staging: Seq<char>) -> FileRecView {
    if !rec.typ.names_paths() {
        rec
    } else {
        match decode_paths(rec.data) {
            Err(_) => rec,
            Ok(paths) => FileRecView { data: encode_paths(rebase_each(paths, staging)), ..rec },
        }
    }
}

/// Paths that fit their entries still fit them once they are rebased, so
/// that a list of paths that was read can always be stored again.
pub proof fn lemma_rebased_paths_fit(paths: Seq<Seq<char>>, staging: Seq<char>)
    requires
        paths_fit(paths),
    ensures
        paths_fit(rebase_each(paths, staging)),
{
    let moved = rebase_each(paths, staging);
    assert forall|i: int| 0 <= i < moved.len() implies path_fits(#[trigger] moved[i]) by {
        assert(path_fits(paths[i]));
        if rebased_path(paths[i], staging) is Some {
            lemma_rebased_is_no_longer(paths[i], staging);
        }
    }
}

impl Clone for FileRec {
    /// A copy of the record.
    fn clone(&self) -> (rec: FileRec)
        ensures
            rec@ == self@,
    {
        let data = vstd::slice::slice_to_vec(self.data.as_slice());
        FileRec { typ: self.typ, extra_data: self.extra_data, data }
    }
}

impl FileRec {
    /// A record with these contents.
    pub fn new(typ: UninstallRecTyp, extra_data: u32, data: Vec<u8>) -> (rec: FileRec)
        ensures
            rec@ == (FileRecView { typ, extra_data, data: data@ }),
    {
        FileRec { typ, extra_data, data }
    }

    /// The kind of the record.
    pub fn typ(&self) -> (typ: UninstallRecTyp)
        ensures
            typ == self@.typ,
    {
        self.typ
    }

    /// The extra data of the record.
    pub fn extra_data(&self) -> (v: u32)
        ensures
            v == self@.extra_data,
    {
        self.extra_data
    }

    /// The payload of the record.
    pub fn data(&self) -> (data: &[u8])
        ensures
            data@ == self@.data,
    {
        self.data.as_slice()
    }

    /// Reads one record from `reader`.
    pub fn from_reader<R: ByteRead>(reader: &mut R) -> (r: Result<FileRec, FileRecParseError>)
        requires
            old(reader).wf(),
        ensures
            final(reader).wf(),
            final(reader).remaining() == old(reader).remaining().skip(
                record_reach(old(reader).remaining()),
            ),
            match parse_record(old(reader).remaining()) {
                Ok((rec, _)) => r matches Ok(read) && read@ == rec,
                Err(fault) => r == Err::<FileRec, FileRecParseError>(FileRecParseError { fault }),
            },
    {
        let ghost s = old(reader).remaining();
        let typ_bytes = match reader.read_exact(2) {
            Ok(bytes) => bytes,
            Err(_) => {
                proof {
                    assert(s.skip(s.len() as int) =~= Seq::<u8>::empty());
                }
                return Err(FileRecParseError { fault: FileRecParseFault::Typ });
            },
        };
        let extra_bytes = match reader.read_exact(4) {
            Ok(bytes) => bytes,
            Err(_) => {
                proof {
                    assert(s.skip(s.len() as int) =~= Seq::<u8>::empty());
                }
                return Err(FileRecParseError { fault: FileRecParseFault::ExtraData });
            },
        };
        let size_bytes = match reader.read_exact(4) {
            Ok(bytes) => bytes,
            Err(_) => {
                proof {
                    assert(s.skip(s.len() as int) =~= Seq::<u8>::empty());
                }
                return Err(FileRecParseError { fault: FileRecParseFault::DataSize });
            },
        };
        proof {
            assert(typ_bytes@ =~= s.subrange(0, 2));
            assert(extra_bytes@ =~= s.subrange(2, 6));
            assert(size_bytes@ =~= s.subrange(6, 10));
            assert(reader.remaining() =~= s.skip(10));
        }
        let code = read_u16(typ_bytes.as_slice());
        let extra_data = read_u32(extra_bytes.as_slice());
        let size = read_u32(size_bytes.as_slice());
        if size > MAX_DATA_SIZE as u32 {
            return Err(FileRecParseError { fault: FileRecParseFault::DataTooLarge });
        }
        let data = match reader.read_exact(size as usize) {
            Ok(bytes) => bytes,
            Err(_) => {
                proof {
                    assert(s.skip(s.len() as int) =~= Seq::<u8>::empty());
                }
                return Err(FileRecParseError { fault: FileRecParseFault::Data });
            },
        };
        proof {
            assert(data@ =~= s.subrange(10, 10 + size));
            assert(reader.remaining() =~= s.skip(10 + size));
        }
        match UninstallRecTyp::from(code) {
            Some(typ) => Ok(FileRec { typ, extra_data, data }),
            None => Err(FileRecParseError { fault: FileRecParseFault::UnknownKind }),
        }
    }

    /// Writes the record to `writer`. A record whose payload is larger than
    /// 128 MB is refused, and nothing is written.
    pub fn to_writer<W: ByteWrite>(&self, writer: &mut W) -> (r: Result<(), FileRecWriteError>)
        requires
            old(writer).wf(),
        ensures
            final(writer).wf(),
            r is Ok <==> self@.data.len() <= MAX_DATA_SIZE,
            r is Ok ==> final(writer).written() == old(writer).written() + encode_record(self@),
            r is Err ==> final(writer).written() == old(writer).written(),
    {
        if self.data.len() > MAX_DATA_SIZE {
            return Err(FileRecWriteError { fault: FileRecWriteFault::DataTooLarge });
        }
        let mut head: Vec<u8> = Vec::new();
        write_u16(&mut head, self.typ.code());
        write_u32(&mut head, self.extra_data);
        write_u32(&mut head, self.data.len() as u32);
        writer.write_all(head.as_slice());
        writer.write_all(self.data.as_slice());
        proof {
            assert(old(writer).written() + head@ + self.data@ =~= old(writer).written()
                + encode_record(self@));
        }
        Ok(())
    }

    /// The record with each of its paths that lies under `update_path` moved
    /// to the parent of `update_path`. Only a record of a deletion is
    /// looked at, and no record is ever refused: where nothing can be done
    /// the result is the record as it was.
    pub fn rebase(&self, update_path: &str) -> (rec: FileRec)
        ensures
            rec@ == rebased_record(self@, update_path@),
    {
        if !self.typ.is_delete() {
            return self.clone();
        }
        let paths = match decode_strings(self.data.as_slice()) {
            Ok(paths) => paths,
            Err(_) => {
                return self.clone();
            },
        };
        let mut moved: Vec<String> = Vec::new();
        let mut i: usize = 0;
        while i < paths.len()
            invariant
                i <= paths@.len(),
                texts(moved@) == rebase_each(texts(paths@), update_path@).take(i as int),
            decreases paths@.len() - i,
        {
            let next = match rebase_path(paths[i].as_str(), update_path) {
                Ok(next) => next,
                Err(_) => paths[i].clone(),
            };
            proof {
                lemma_texts_push(moved@, next);
                assert(texts(moved@).push(next@) =~= rebase_each(
                    texts(paths@),
                    update_path@,
                ).take(i + 1));
            }
            moved.push(next);
            i = i + 1;
        }
        proof {
            let all = rebase_each(texts(paths@), update_path@);
            assert(all.take(all.len() as int) =~= all);
            lemma_decoded_paths_fit(self.data@);
            lemma_rebased_paths_fit(texts(paths@), update_path@);
        }
        match encode_strings(&moved) {
            Ok(data) => FileRec { typ: self.typ, extra_data: self.extra_data, data },
            Err(_) => self.clone(),
        }
    }

    /// The paths that the payload holds.
    pub fn get_paths(&self) -> (r: Result<Vec<String>, StringDecodeError>)
        ensures
            match decode_paths(self@.data) {
                Ok(paths) => r matches Ok(v) && texts(v@) == paths,
                Err(fault) => r == Err::<Vec<String>, StringDecodeError>(
                    StringDecodeError { fault },
                ),
            },
    {
        decode_strings(self.data.as_slice())
    }
}

/// A record that was written is read back as it was, whatever follows it.
pub proof fn lemma_record_round_trip(rec: FileRecView, tail: Seq<u8>)
    requires
        rec.data.len() <= MAX_DATA_SIZE,
    ensures
        parse_record(encode_record(rec) + tail) == Ok::<(FileRecView, int), FileRecParseFault>(
            (rec, encode_record(rec).len() as int),
        ),
        encode_record(rec).len() == RECORD_HEAD_SIZE + rec.data.len(),
{
    let s = encode_record(rec) + tail;
    let size = rec.data.len() as u32;
    lemma_u16_round_trip(rec.typ.code_of());
    lemma_u32_round_trip(rec.extra_data);
    lemma_u32_round_trip(size);
    assert(s.subrange(0, 2) =~= u16_le(rec.typ.code_of()));
    assert(s.subrange(2, 6) =~= u32_le(rec.extra_data));
    assert(s.subrange(6, 10) =~= u32_le(size));
    assert(s.subrange(10, 10 + size) =~= rec.data);
}

/// The entries of a list of paths take no more bytes once the paths are
/// rebased.
pub proof fn lemma_rebased_entries_are_no_longer(paths: Seq<Seq<char>>, staging: Seq<char>)
    ensures
        path_entries(rebase_each(paths, staging)).len() <= path_entries(paths).len(),
    decreases paths.len(),
{
    let moved = rebase_each(paths, staging);
    if paths.len() > 0 {
        lemma_rebased_entries_are_no_longer(paths.drop_last(), staging);
        assert(moved.drop_last() =~= rebase_each(paths.drop_last(), staging));
        lemma_entry_len(paths.last());
        lemma_entry_len(moved.last());
        if rebased_path(paths.last(), staging) is Some {
            lemma_rebased_is_no_longer(paths.last(), staging);
        }
    }
}

/// A record that was rebased has no larger a payload than before.
pub proof fn lemma_rebased_record_is_no_larger(rec: FileRecView, staging: Seq<char>)
    ensures
        rebased_record(rec, staging).data.len() <= rec.data.len(),
        encode_record(rebased_record(rec, staging)).len() <= encode_record(rec).len(),
{
    if rec.typ.names_paths() && decode_paths(rec.data) is Ok {
        let paths = decode_paths(rec.data)->Ok_0;
        lemma_encoded_is_no_longer(rec.data);
        lemma_rebased_entries_are_no_longer(paths, staging);
    }
}

} // verus!
