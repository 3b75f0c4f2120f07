//! The uninstall log as a whole: its header, then its records as a stream
//! of blocks; and the patch that an update applies to it.

use crate::blockio::{
    fault_of, framed, framed_len, lemma_end_of_input, lemma_framed_len, lemma_framed_len_exact,
    lemma_framed_reads_back, lemma_input_covers_payload, payload_of, BlockRead, BlockWrite,
};
use crate::model::filerec::{
    encode_record, lemma_rebased_record_is_no_larger, lemma_record_round_trip, parse_record,
    rebased_record, FileRec,
    FileRecParseError, FileRecParseFault, FileRecView, FileRecWriteError, FileRecWriteFault,
    UninstallRecTyp, MAX_DATA_SIZE,
};
use crate::checksum::crc32;
use crate::model::header::{
    encode_header, header_body, lemma_header_round_trip, lemma_parsed_header_storable,
    lemma_small_count_is_stored, lemma_written_header_reads_back, parse_header, storable, write_fault, Header, HeaderParseError,
    HeaderParseFault, HeaderView, HeaderWriteError, HEADER_SIZE,
};
use crate::model::paths::decode_paths;
use crate::stream::{ByteRead, ByteWrite, ReadError, SliceReader};
use crate::text::texts;
use vstd::prelude::*;

verus! {

/// Why a log could not be read.
#[derive(Clone, Copy, Debug, PartialEq, Eq, Structural)]
pub enum LogReadError {
    /// The header is not a valid one.
    Header(HeaderParseError),
    /// A record that the header counts could not be read.
    Record(FileRecParseError),
}

/// Why a log could not be written.
#[derive(Clone, Copy, Debug, PartialEq, Eq, Structural)]
pub enum LogWriteError {
    /// A record cannot be stored.
    Record(FileRecWriteError),
    /// The log would be longer than its header can say.
    TooLong,
    /// The header cannot be stored.
    Header(HeaderWriteError),
}

/// Why a log could not be patched.
#[derive(Clone, Copy, Debug, PartialEq, Eq, Structural)]
pub enum PatchError {
    /// The log could not be read.
    Read(LogReadError),
    /// The patched log could not be written.
    Write(LogWriteError),
}

/// What the records of `v` hold, in order.
pub open spec fn rec_views(v: Seq<FileRec>) -> Seq<FileRecView> {
    Seq::new(v.len(), |i: int| v[i]@)
}

/// The first `n` records of the stream `s`, or what is wrong with the
/// first of them that cannot be read.
pub open spec fn parse_records(s: Seq<u8>, n: nat) -> Result<Seq<FileRecView>, FileRecParseFault>
    decreases n,
{
    if n == 0 {
        Ok(Seq::empty())
    } else {
        match parse_record(s) {
            Err(fault) => Err(fault),
            Ok((rec, taken)) => match parse_records(s.skip(taken), (n - 1) as nat) {
                Ok(rest) => Ok(seq![rec] + rest),
                Err(fault) => Err(fault),
            },
        }
    }
}

/// `rest` with `done` in front of it, where there is a `rest`.
pub open spec fn records_after(
    done: Seq<FileRecView>,
    rest: Result<Seq<FileRecView>, FileRecParseFault>,
) -> Result<Seq<FileRecView>, FileRecParseFault> {
    match rest {
        Ok(rest) => Ok(done + rest),
        Err(fault) => Err(fault),
    }
}

/// The header and the records that the log `bytes` holds: as many records
/// as the header counts, taken from the payload of the blocks that follow
/// the header.
pub open spec fn parse_log(bytes: Seq<u8>) -> Result<(HeaderView, Seq<FileRecView>), LogReadError> {
    if bytes.len() < HEADER_SIZE {
        Err(LogReadError::Header(HeaderParseError { fault: HeaderParseFault::Read }))
    } else {
        match parse_header(bytes.take(HEADER_SIZE as int)) {
            Err(fault) => Err(LogReadError::Header(HeaderParseError { fault })),
            Ok(header) => match parse_records(
                payload_of(bytes.skip(HEADER_SIZE as int)),
                header.num_recs as nat,
            ) {
                Err(fault) => Err(LogReadError::Record(FileRecParseError { fault })),
                Ok(recs) => Ok((header, recs)),
            },
        }
    }
}

/// The stored records of `recs`, one after the other.
pub open spec fn records_bytes(recs: Seq<FileRecView>) -> Seq<u8>
    decreases recs.len(),
{
    if recs.len() == 0 {
        Seq::empty()
    } else {
        records_bytes(recs.drop_last()) + encode_record(recs.last())
    }
}

/// Each record of `recs` has a payload that can be stored.
pub open spec fn records_fit(recs: Seq<FileRecView>) -> bool {
    forall|i: int| 0 <= i < recs.len() ==> (#[trigger] recs[i]).data.len() <= MAX_DATA_SIZE
}

/// The length of the log that holds `recs`.
pub open spec fn log_len(recs: Seq<FileRecView>) -> int {
    HEADER_SIZE + framed(records_bytes(recs)).len()
}

/// The bytes of the log that holds `header` and `recs`, or why there are
/// none. The header is stored with the length of the log as its end offset;
/// its record count is stored as it is.
pub open spec fn log_bytes(header: HeaderView, recs: Seq<FileRecView>) -> Result<
    Seq<u8>,
    LogWriteError,
> {
    if !records_fit(recs) {
        Err(LogWriteError::Record(FileRecWriteError { fault: FileRecWriteFault::DataTooLarge }))
    } else if log_len(recs) > u32::MAX {
        Err(LogWriteError::TooLong)
    } else {
        let stored = HeaderView { end_offset: log_len(recs) as u32, ..header };
        match write_fault(stored) {
            Some(fault) => Err(LogWriteError::Header(HeaderWriteError { fault })),
            None => Ok(encode_header(stored) + framed(records_bytes(recs))),
        }
    }
}

/// Reads a log: its header, then as many records as the header counts.
pub fn read_log(bytes: &[u8]) -> (r: Result<(Header, Vec<FileRec>), LogReadError>)
    ensures
        match parse_log(bytes@) {
            Ok((header, recs)) => r matches Ok((h, v)) && h@ == header && rec_views(v@) == recs,
            Err(e) => r == Err::<(Header, Vec<FileRec>), LogReadError>(e),
        },
{
    let mut input = SliceReader::new(bytes);
    let header = match Header::from_reader(&mut input) {
        Ok(header) => header,
        Err(e) => {
            return Err(LogReadError::Header(e));
        },
    };
    let mut reader = BlockRead::new(input);
    let count = header.num_recs();
    let mut recs: Vec<FileRec> = Vec::new();
    let ghost stream = reader.remaining();
    let mut i: usize = 0;
    proof {
        assert(rec_views(recs@) =~= Seq::<FileRecView>::empty());
        lemma_records_after_nothing(parse_records(stream, count as nat));
    }
    while i < count
        invariant
            reader.wf(),
            i <= count,
            bytes@.len() >= HEADER_SIZE,
            parse_header(bytes@.take(HEADER_SIZE as int)) == Ok::<HeaderView, HeaderParseFault>(
                header@,
            ),
            count == header@.num_recs,
            stream == payload_of(bytes@.skip(HEADER_SIZE as int)),
            parse_records(stream, count as nat) == records_after(
                rec_views(recs@),
                parse_records(reader.remaining(), (count - i) as nat),
            ),
        decreases count - i,
    {
        let ghost rest = reader.remaining();
        let rec = match FileRec::from_reader(&mut reader) {
            Ok(rec) => rec,
            Err(e) => {
                proof {
                    assert(parse_records(rest, (count - i) as nat) == Err::<
                        Seq<FileRecView>,
                        FileRecParseFault,
                    >(e.fault));
                }
                return Err(LogReadError::Record(e));
            },
        };
        proof {
            let taken = parse_record(rest)->Ok_0.1;
            assert(rec_views(recs@.push(rec)) =~= rec_views(recs@).push(rec@));
            lemma_records_after_push(
                rec_views(recs@),
                rec@,
                parse_records(rest.skip(taken), (count - i - 1) as nat),
            );
        }
        recs.push(rec);
        i = i + 1;
    }
    proof {
        assert(rec_views(recs@) + Seq::<FileRecView>::empty() =~= rec_views(recs@));
    }
    Ok((header, recs))
}

proof fn lemma_records_after_nothing(rest: Result<Seq<FileRecView>, FileRecParseFault>)
    ensures
        records_after(Seq::empty(), rest) == rest,
{
    if let Ok(r) = rest {
        assert(Seq::<FileRecView>::empty() + r =~= r);
    }
}

proof fn lemma_records_after_push(
    done: Seq<FileRecView>,
    rec: FileRecView,
    rest: Result<Seq<FileRecView>, FileRecParseFault>,
)
    ensures
        records_after(done, records_after(seq![rec], rest)) == records_after(done.push(rec), rest),
{
    if let Ok(r) = rest {
        assert(done + (seq![rec] + r) =~= done.push(rec) + r);
    }
}

/// Writes a log: the header with the length of the log as its end offset,
/// then the records in blocks.
pub fn write_log(header: &Header, recs: &Vec<FileRec>) -> (r: Result<Vec<u8>, LogWriteError>)
    ensures
        match log_bytes(header@, rec_views(recs@)) {
            Ok(bytes) => r matches Ok(v) && v@ == bytes,
            Err(e) => r == Err::<Vec<u8>, LogWriteError>(e),
        },
{
    let mut payload: Vec<u8> = Vec::new();
    let mut i: usize = 0;
    while i < recs.len()
        invariant
            i <= recs@.len(),
            records_fit(rec_views(recs@).take(i as int)),
            payload@ == records_bytes(rec_views(recs@).take(i as int)),
        decreases recs@.len() - i,
    {
        let ghost done = rec_views(recs@).take(i as int);
        let ghost next = rec_views(recs@).take(i + 1);
        proof {
            assert(next.drop_last() =~= done);
            assert(next.last() == recs@[i as int]@);
        }
        match recs[i].to_writer(&mut payload) {
            Ok(()) => {},
            Err(e) => {
                proof {
                    assert(rec_views(recs@)[i as int] == recs@[i as int]@);
                }
                return Err(LogWriteError::Record(e));
            },
        }
        proof {
            assert forall|j: int| 0 <= j < next.len() implies (#[trigger] next[j]).data.len()
                <= MAX_DATA_SIZE by {
                if j < i {
                    assert(next[j] == done[j]);
                }
            }
        }
        i = i + 1;
    }
    proof {
        assert(rec_views(recs@).take(i as int) =~= rec_views(recs@));
    }
    let mut blocks = BlockWrite::new(Vec::<u8>::new());
    blocks.write_all(payload.as_slice());
    blocks.flush();
    let body = blocks.into_inner();
    proof {
        assert(Seq::<u8>::empty() + payload@ =~= payload@);
        assert(body@ =~= framed(payload@));
    }
    if body.len() > 0xFFFF_FFFF - HEADER_SIZE {
        return Err(LogWriteError::TooLong);
    }
    let end_offset: u32 = (HEADER_SIZE + body.len()) as u32;
    let stored = header.clone_with_end_offset(end_offset);
    let mut out: Vec<u8> = Vec::new();
    match stored.to_writer(&mut out) {
        Ok(()) => {},
        Err(e) => {
            return Err(LogWriteError::Header(e));
        },
    }
    out.write_all(body.as_slice());
    proof {
        assert(Seq::<u8>::empty() + encode_header(stored@) =~= encode_header(stored@));
    }
    Ok(out)
}

/// The records of `recs`, each with its paths rebased.
pub open spec fn rebased_all(recs: Seq<FileRecView>, staging: Seq<char>) -> Seq<FileRecView> {
    Seq::new(recs.len(), |i: int| rebased_record(recs[i], staging))
}

/// What is left of `recs` once the duplicates are gone, given the paths
/// that earlier records have named. A record of a deletion that names
/// exactly one path stays only where no earlier such record has named this
/// path; a record of a deletion whose payload is no list of paths goes; every
/// other record stays.
pub open spec fn dedup_from(recs: Seq<FileRecView>, seen: Set<Seq<char>>) -> Seq<FileRecView>
    decreases recs.len(),
{
    if recs.len() == 0 {
        Seq::empty()
    } else {
        let rec = recs[0];
        let rest = recs.skip(1);
        if !rec.typ.names_paths() {
            seq![rec] + dedup_from(rest, seen)
        } else {
            match decode_paths(rec.data) {
                Err(_) => dedup_from(rest, seen),
                Ok(paths) => if paths.len() != 1 {
                    seq![rec] + dedup_from(rest, seen)
                } else if seen.contains(paths[0]) {
                    dedup_from(rest, seen)
                } else {
                    seq![rec] + dedup_from(rest, seen.insert(paths[0]))
                },
            }
        }
    }
}

/// What is left of `recs` once the duplicates are gone.
pub open spec fn deduped(recs: Seq<FileRecView>) -> Seq<FileRecView> {
    dedup_from(recs, Set::empty())
}

/// What an update makes of the records of a log: each is rebased, then the
/// duplicates go.
pub open spec fn patched_records(recs: Seq<FileRecView>, staging: Seq<char>) -> Seq<FileRecView> {
    deduped(rebased_all(recs, staging))
}

/// What an update makes of a log, and how many records it removes; or why
/// the log cannot be patched.
pub open spec fn patched_log(bytes: Seq<u8>, staging: Seq<char>) -> Result<
    (Seq<u8>, int),
    PatchError,
> {
    match parse_log(bytes) {
        Err(e) => Err(PatchError::Read(e)),
        Ok((header, recs)) => {
            let kept = patched_records(recs, staging);
            match log_bytes(HeaderView { num_recs: kept.len() as usize, ..header }, kept) {
                Err(e) => Err(PatchError::Write(e)),
                Ok(out) => Ok((out, recs.len() - kept.len())),
            }
        },
    }
}

/// A record that the removal of duplicates looks at: a record of a
/// deletion whose payload is no list of paths, or a list of exactly one.
pub open spec fn may_be_removed(rec: FileRecView) -> bool {
    rec.typ.names_paths() && match decode_paths(rec.data) {
        Err(_) => true,
        Ok(paths) => paths.len() == 1,
    }
}

/// A record of another kind, and a record of a deletion that names no path
/// or several, is never removed, whatever paths other records name.
pub proof fn lemma_dedup_keeps(recs: Seq<FileRecView>, seen: Set<Seq<char>>, i: int)
    requires
        0 <= i < recs.len(),
        !may_be_removed(recs[i]),
    ensures
        dedup_from(recs, seen).contains(recs[i]),
    decreases recs.len(),
{
    let rest = recs.skip(1);
    let kept = dedup_from(recs, seen);
    if i == 0 {
        assert(kept[0] == recs[0]);
    } else {
        assert(rest[i - 1] == recs[i]);
        let next_seen = if may_be_removed(recs[0]) && decode_paths(recs[0].data) is Ok
            && !seen.contains(decode_paths(recs[0].data)->Ok_0[0]) {
            seen.insert(decode_paths(recs[0].data)->Ok_0[0])
        } else {
            seen
        };
        lemma_dedup_keeps(rest, next_seen, i - 1);
        let tail = dedup_from(rest, next_seen);
        let k = choose|k: int| 0 <= k < tail.len() && tail[k] == recs[i];
        if kept.len() == tail.len() {
            assert(kept == tail);
        } else {
            assert(kept == seq![recs[0]] + tail);
            assert(kept[k + 1] == tail[k]);
        }
    }
}

/// The path of a record of a deletion that names exactly one path.
pub open spec fn single_path(rec: FileRecView) -> Option<Seq<char>> {
    if !rec.typ.names_paths() {
        None
    } else {
        match decode_paths(rec.data) {
            Ok(paths) => if paths.len() == 1 {
                Some(paths[0])
            } else {
                None
            },
            Err(_) => None,
        }
    }
}

/// Among the records that are left, no two name the same single path, and
/// none names a path that an earlier record had named; and the payload of
/// every record of a deletion that is left is a list of paths.
pub proof fn lemma_dedup_leaves_no_duplicate(recs: Seq<FileRecView>, seen: Set<Seq<char>>)
    ensures
        forall|i: int|
            0 <= i < dedup_from(recs, seen).len() ==> match single_path(
                #[trigger] dedup_from(recs, seen)[i],
            ) {
                Some(path) => !seen.contains(path),
                None => true,
            },
        forall|i: int, j: int|
            0 <= i < j < dedup_from(recs, seen).len() && single_path(dedup_from(recs, seen)[i])
                is Some ==> single_path(#[trigger] dedup_from(recs, seen)[i]) != single_path(
                #[trigger] dedup_from(recs, seen)[j],
            ),
        forall|i: int|
            0 <= i < dedup_from(recs, seen).len() && (#[trigger] dedup_from(
                recs,
                seen,
            )[i]).typ.names_paths() ==> decode_paths(dedup_from(recs, seen)[i].data) is Ok,
    decreases recs.len(),
{
    let kept = dedup_from(recs, seen);
    if recs.len() > 0 {
        let rec = recs[0];
        let rest = recs.skip(1);
        match single_path(rec) {
            Some(path) => {
                if seen.contains(path) {
                    lemma_dedup_leaves_no_duplicate(rest, seen);
                } else {
                    let tail = dedup_from(rest, seen.insert(path));
                    lemma_dedup_leaves_no_duplicate(rest, seen.insert(path));
                    assert(kept == seq![rec] + tail);
                    assert forall|i: int| 0 < i < kept.len() implies kept[i] == tail[i - 1] by {}
                }
            },
            None => {
                lemma_dedup_leaves_no_duplicate(rest, seen);
                let tail = dedup_from(rest, seen);
                if kept.len() != tail.len() {
                    assert(kept == seq![rec] + tail);
                    assert forall|i: int| 0 < i < kept.len() implies kept[i] == tail[i - 1] by {}
                }
            },
        }
    }
}

/// Whether one of `list` has the text of `s`.
fn contains_text(list: &Vec<String>, s: &String) -> (b: bool)
    ensures
        b == texts(list@).contains(s@),
{
    let mut i: usize = 0;
    while i < list.len()
        invariant
            i <= list@.len(),
            forall|j: int| 0 <= j < i ==> texts(list@)[j] != s@,
        decreases list@.len() - i,
    {
        if list[i] == *s {
            proof {
                assert(texts(list@)[i as int] == s@);
            }
            return true;
        }
        i = i + 1;
    }
    false
}

/// Each record of `recs` with its paths rebased from under `update_path` to
/// its parent.
pub fn rebase_all(recs: &Vec<FileRec>, update_path: &str) -> (out: Vec<FileRec>)
    ensures
        rec_views(out@) == rebased_all(rec_views(recs@), update_path@),
{
    let mut out: Vec<FileRec> = Vec::new();
    let mut i: usize = 0;
    while i < recs.len()
        invariant
            i <= recs@.len(),
            rec_views(out@) == rebased_all(rec_views(recs@), update_path@).take(i as int),
        decreases recs@.len() - i,
    {
        let rec = recs[i].rebase(update_path);
        proof {
            let all = rebased_all(rec_views(recs@), update_path@);
            assert(rec_views(recs@)[i as int] == recs@[i as int]@);
            assert(all[i as int] == rec@);
            assert(rec_views(out@.push(rec)) =~= rec_views(out@).push(rec@));
            assert(all.take(i as int).push(rec@) =~= all.take(i + 1));
        }
        out.push(rec);
        i = i + 1;
    }
    proof {
        let all = rebased_all(rec_views(recs@), update_path@);
        assert(all.take(all.len() as int) =~= all);
    }
    out
}

/// Removes the duplicates among the records of deletions that name exactly
/// one path: the first record that names a path stays, each later one goes.
/// A record of a deletion whose payload is no list of paths goes as well.
/// Returns what is left, in order, and how many records went.
pub fn dedup(recs: &Vec<FileRec>) -> (r: (Vec<FileRec>, usize))
    ensures
        rec_views(r.0@) == deduped(rec_views(recs@)),
        r.1 == recs@.len() - r.0@.len(),
{
    let ghost all = rec_views(recs@);
    let mut kept: Vec<FileRec> = Vec::new();
    let mut seen: Vec<String> = Vec::new();
    let ghost mut seen_set: Set<Seq<char>> = Set::empty();
    let mut i: usize = 0;
    proof {
        assert(all.skip(0) =~= all);
        assert(rec_views(kept@) + deduped(all) =~= deduped(all));
    }
    while i < recs.len()
        invariant
            i <= recs@.len(),
            all == rec_views(recs@),
            kept@.len() <= i,
            forall|p: Seq<char>| seen_set.contains(p) <==> texts(seen@).contains(p),
            deduped(all) == rec_views(kept@) + dedup_from(all.skip(i as int), seen_set),
        decreases recs@.len() - i,
    {
        let rec = &recs[i];
        let ghost tail = all.skip(i as int);
        let ghost rest = all.skip(i + 1);
        let ghost kept_before = rec_views(kept@);
        proof {
            assert(tail[0] == rec@);
            assert(tail.skip(1) =~= rest);
        }
        let mut keep: bool = true;
        if rec.typ().is_delete() {
            match rec.get_paths() {
                Err(_) => {
                    keep = false;
                },
                Ok(paths) => {
                    if paths.len() == 1 {
                        proof {
                            assert(texts(paths@)[0] == paths@[0]@);
                        }
                        if contains_text(&seen, &paths[0]) {
                            keep = false;
                        } else {
                            let path = paths[0].clone();
                            proof {
                                let before = texts(seen@);
                                let after = texts(seen@.push(path));
                                assert(after =~= before.push(path@));
                                assert forall|p: Seq<char>|
                                    seen_set.insert(path@).contains(p) <==> after.contains(
                                        p,
                                    ) by {
                                    if before.contains(p) {
                                        let k = choose|k: int|
                                            0 <= k < before.len() && before[k] == p;
                                        assert(after[k] == p);
                                    }
                                    if p == path@ {
                                        assert(after[before.len() as int] == p);
                                    }
                                    if after.contains(p) {
                                        let k = choose|k: int|
                                            0 <= k < after.len() && after[k] == p;
                                        if k < before.len() {
                                            assert(before[k] == p);
                                        }
                                    }
                                }
                                seen_set = seen_set.insert(path@);
                            }
                            seen.push(path);
                        }
                    }
                },
            }
        }
        if keep {
            let copy = rec.clone();
            proof {
                assert(rec_views(kept@.push(copy)) =~= kept_before.push(rec@));
                assert(kept_before + (seq![rec@] + dedup_from(rest, seen_set))
                    =~= kept_before.push(rec@) + dedup_from(rest, seen_set));
            }
            kept.push(copy);
        }
        i = i + 1;
    }
    proof {
        assert(all.skip(i as int) =~= Seq::<FileRecView>::empty());
        assert(rec_views(kept@) + Seq::<FileRecView>::empty() =~= rec_views(kept@));
    }
    let removed: usize = recs.len() - kept.len();
    (kept, removed)
}

/// What an update makes of the records of a log: each record is rebased
/// from under `update_path` to its parent, then the duplicates go. Returns
/// what is left and how many records went.
pub fn patch_records(recs: &Vec<FileRec>, update_path: &str) -> (r: (Vec<FileRec>, usize))
    ensures
        rec_views(r.0@) == patched_records(rec_views(recs@), update_path@),
        r.1 == recs@.len() - r.0@.len(),
{
    let moved = rebase_all(recs, update_path);
    dedup(&moved)
}

/// Patches the log `bytes` for an update that has moved the contents of
/// `update_path` to its parent: reads it, patches its records, and writes
/// it with the count of the records that are left. Returns the new log and
/// how many records went.
pub fn patch_uninstdat(bytes: &[u8], update_path: &str) -> (r: Result<(Vec<u8>, usize), PatchError>)
    ensures
        match patched_log(bytes@, update_path@) {
            Ok((out, removed)) => r matches Ok((v, n)) && v@ == out && n == removed,
            Err(e) => r == Err::<(Vec<u8>, usize), PatchError>(e),
        },
        bytes@.len() <= u32::MAX ==> (r is Ok <==> parse_log(bytes@) is Ok),
{
    proof {
        if parse_log(bytes@) is Ok && bytes@.len() <= u32::MAX {
            lemma_patch_succeeds(bytes@, update_path@);
        }
    }
    let (header, recs) = match read_log(bytes) {
        Ok(log) => log,
        Err(e) => {
            return Err(PatchError::Read(e));
        },
    };
    let (kept, removed) = patch_records(&recs, update_path);
    let header = header.clone_with_num_recs(kept.len());
    match write_log(&header, &kept) {
        Ok(out) => Ok((out, removed)),
        Err(e) => Err(PatchError::Write(e)),
    }
}

/// How many of `recs` are of the kind `typ`.
pub open spec fn count_of(recs: Seq<FileRecView>, typ: UninstallRecTyp) -> nat
    decreases recs.len(),
{
    if recs.len() == 0 {
        0
    } else if recs.last().typ == typ {
        count_of(recs.drop_last(), typ) + 1
    } else {
        count_of(recs.drop_last(), typ)
    }
}

/// Every kind of record, in the order of the numbers that stand for them.
pub open spec fn all_kinds() -> Seq<UninstallRecTyp> {
    seq![
        UninstallRecTyp::UserDefined,
        UninstallRecTyp::StartInstall,
        UninstallRecTyp::EndInstall,
        UninstallRecTyp::CompiledCode,
        UninstallRecTyp::Run,
        UninstallRecTyp::DeleteDirOrFiles,
        UninstallRecTyp::DeleteFile,
        UninstallRecTyp::DeleteGroupOrItem,
        UninstallRecTyp::IniDeleteEntry,
        UninstallRecTyp::IniDeleteSection,
        UninstallRecTyp::RegDeleteEntireKey,
        UninstallRecTyp::RegClearValue,
        UninstallRecTyp::RegDeleteKeyIfEmpty,
        UninstallRecTyp::RegDeleteValue,
        UninstallRecTyp::DecrementSharedCount,
        UninstallRecTyp::RefreshFileAssoc,
        UninstallRecTyp::MutexCheck,
    ]
}

/// For each of `kinds` of which `recs` holds a record, the kind and how
/// many records of it there are, in the order of `kinds`.
pub open spec fn summary_of(kinds: Seq<UninstallRecTyp>, recs: Seq<FileRecView>) -> Seq<
    (UninstallRecTyp, usize),
>
    decreases kinds.len(),
{
    if kinds.len() == 0 {
        Seq::empty()
    } else if count_of(recs, kinds.last()) > 0 {
        summary_of(kinds.drop_last(), recs).push(
            (kinds.last(), count_of(recs, kinds.last()) as usize),
        )
    } else {
        summary_of(kinds.drop_last(), recs)
    }
}

/// How many of `recs` are of the kind `typ`.
pub fn count_records(recs: &Vec<FileRec>, typ: UninstallRecTyp) -> (n: usize)
    ensures
        n == count_of(rec_views(recs@), typ),
{
    let mut n: usize = 0;
    let mut i: usize = 0;
    while i < recs.len()
        invariant
            i <= recs@.len(),
            n <= i,
            n == count_of(rec_views(recs@).take(i as int), typ),
        decreases recs@.len() - i,
    {
        proof {
            let next = rec_views(recs@).take(i + 1);
            assert(next.drop_last() =~= rec_views(recs@).take(i as int));
            assert(next.last() == recs@[i as int]@);
        }
        if recs[i].typ() == typ {
            n = n + 1;
        }
        i = i + 1;
    }
    proof {
        assert(rec_views(recs@).take(i as int) =~= rec_views(recs@));
    }
    n
}

/// The kinds of which `recs` holds a record, each with the count of its
/// records, in the order of the numbers that stand for the kinds.
pub fn summarize(recs: &Vec<FileRec>) -> (summary: Vec<(UninstallRecTyp, usize)>)
    ensures
        summary@ == summary_of(all_kinds(), rec_views(recs@)),
{
    let kinds: Vec<UninstallRecTyp> = vec![
        UninstallRecTyp::UserDefined,
        UninstallRecTyp::StartInstall,
        UninstallRecTyp::EndInstall,
        UninstallRecTyp::CompiledCode,
        UninstallRecTyp::Run,
        UninstallRecTyp::DeleteDirOrFiles,
        UninstallRecTyp::DeleteFile,
        UninstallRecTyp::DeleteGroupOrItem,
        UninstallRecTyp::IniDeleteEntry,
        UninstallRecTyp::IniDeleteSection,
        UninstallRecTyp::RegDeleteEntireKey,
        UninstallRecTyp::RegClearValue,
        UninstallRecTyp::RegDeleteKeyIfEmpty,
        UninstallRecTyp::RegDeleteValue,
        UninstallRecTyp::DecrementSharedCount,
        UninstallRecTyp::RefreshFileAssoc,
        UninstallRecTyp::MutexCheck,
    ];
    proof {
        assert(kinds@ =~= all_kinds());
    }
    let mut summary: Vec<(UninstallRecTyp, usize)> = Vec::new();
    let mut i: usize = 0;
    while i < kinds.len()
        invariant
            i <= kinds@.len(),
            summary@ == summary_of(kinds@.take(i as int), rec_views(recs@)),
        decreases kinds@.len() - i,
    {
        proof {
            let next = kinds@.take(i + 1);
            assert(next.drop_last() =~= kinds@.take(i as int));
            assert(next.last() == kinds@[i as int]);
        }
        let n = count_records(recs, kinds[i]);
        if n > 0 {
            summary.push((kinds[i], n));
        }
        i = i + 1;
    }
    proof {
        assert(kinds@.take(i as int) =~= kinds@);
    }
    summary
}

/// The stored records of a list are the first record, stored, and the
/// stored records of the others.
proof fn lemma_records_bytes_front(rec: FileRecView, rest: Seq<FileRecView>)
    ensures
        records_bytes(seq![rec] + rest) == encode_record(rec) + records_bytes(rest),
    decreases rest.len(),
{
    let all = seq![rec] + rest;
    if rest.len() == 0 {
        assert(all.drop_last() =~= Seq::<FileRecView>::empty());
        assert(all.last() == rec);
        assert(records_bytes(all.drop_last()) =~= Seq::<u8>::empty());
        assert(records_bytes(all) =~= encode_record(rec) + records_bytes(rest));
    } else {
        assert(all.drop_last() =~= seq![rec] + rest.drop_last());
        assert(all.last() == rest.last());
        lemma_records_bytes_front(rec, rest.drop_last());
        assert(records_bytes(all) =~= encode_record(rec) + records_bytes(rest));
    }
}

/// Records that were stored are read back as they were, and each takes at
/// least the ten bytes of its head.
pub proof fn lemma_records_read_back(recs: Seq<FileRecView>, tail: Seq<u8>)
    requires
        records_fit(recs),
    ensures
        parse_records(records_bytes(recs) + tail, recs.len()) == Ok::<
            Seq<FileRecView>,
            FileRecParseFault,
        >(recs),
        records_bytes(recs).len() >= 10 * recs.len(),
    decreases recs.len(),
{
    if recs.len() == 0 {
        assert(recs =~= Seq::<FileRecView>::empty());
    } else {
        let first = recs[0];
        let rest = recs.skip(1);
        assert(recs =~= seq![first] + rest);
        assert(records_fit(rest)) by {
            assert forall|i: int| 0 <= i < rest.len() implies (#[trigger] rest[i]).data.len()
                <= MAX_DATA_SIZE by {
                assert(rest[i] == recs[i + 1]);
            }
        }
        lemma_records_bytes_front(first, rest);
        let stored = encode_record(first);
        let after = records_bytes(rest) + tail;
        assert(records_bytes(recs) + tail =~= stored + after);
        lemma_record_round_trip(first, after);
        assert((stored + after).skip(stored.len() as int) =~= after);
        lemma_records_read_back(rest, tail);
    }
}

/// A log that was written is its header and the framing of its records:
/// the first 448 bytes are read back as the header that was given, with the
/// length of the log as its end offset, whatever end offset was given, and
/// with the checksum of these bytes; what follows is a stream of blocks
/// without a fault whose payload is the records, which are read back from
/// it in order.
pub proof fn lemma_written_log(header: HeaderView, recs: Seq<FileRecView>)
    requires
        storable(header),
        log_bytes(header, recs) is Ok,
    ensures
        ({
            let out = log_bytes(header, recs)->Ok_0;
            let stored = HeaderView { end_offset: out.len() as u32, ..header };
            let stream = out.skip(HEADER_SIZE as int);
            &&& HEADER_SIZE <= out.len() <= u32::MAX
            &&& out.len() == HEADER_SIZE + stream.len()
            &&& parse_header(out.take(HEADER_SIZE as int)) == Ok::<HeaderView, HeaderParseFault>(
                HeaderView { crc: crc32(header_body(stored)), ..stored },
            )
            &&& payload_of(stream) == records_bytes(recs)
            &&& fault_of(stream) == ReadError::UnexpectedEof
            &&& parse_records(records_bytes(recs), recs.len()) == Ok::<
                Seq<FileRecView>,
                FileRecParseFault,
            >(recs)
        }),
{
    let payload = records_bytes(recs);
    let body = framed(payload);
    let stored = HeaderView { end_offset: log_len(recs) as u32, ..header };
    lemma_written_header_reads_back(stored, body);
    lemma_framed_reads_back(payload, Seq::empty());
    lemma_end_of_input();
    assert(body + Seq::<u8>::empty() =~= body);
    assert(payload + Seq::<u8>::empty() =~= payload);
    lemma_records_read_back(recs, Seq::empty());
}

/// A log that was written is read back as it was written: the header with
/// the length of the log as its end offset and with the checksum of its
/// bytes, and the records as they were.
pub proof fn lemma_log_round_trip(header: HeaderView, recs: Seq<FileRecView>)
    requires
        storable(header),
        header.num_recs == recs.len(),
        log_bytes(header, recs) is Ok,
    ensures
        ({
            let out = log_bytes(header, recs)->Ok_0;
            let stored = HeaderView { end_offset: out.len() as u32, ..header };
            &&& out.len() <= u32::MAX
            &&& parse_log(out) == Ok::<(HeaderView, Seq<FileRecView>), LogReadError>(
                (HeaderView { crc: crc32(header_body(stored)), ..stored }, recs),
            )
        }),
{
    let out = log_bytes(header, recs)->Ok_0;
    let payload = records_bytes(recs);
    let body = framed(payload);
    let stored = HeaderView { end_offset: log_len(recs) as u32, ..header };
    lemma_header_round_trip(stored);
    assert(out.take(HEADER_SIZE as int) =~= encode_header(stored));
    assert(out.skip(HEADER_SIZE as int) =~= body);
    lemma_framed_reads_back(payload, Seq::empty());
    lemma_end_of_input();
    assert(body + Seq::<u8>::empty() =~= body);
    assert(payload + Seq::<u8>::empty() =~= payload);
    lemma_records_read_back(recs, Seq::empty());
}

/// A log that an update has patched is read back with the records that the
/// patch left: its header counts them, which is the count of the records of
/// the log before the patch less the count of those that the patch removed,
/// and gives the length of the patched log as its end offset.
pub proof fn lemma_patched_log_reads_back(bytes: Seq<u8>, staging: Seq<char>)
    requires
        patched_log(bytes, staging) is Ok,
    ensures
        ({
            let (out, removed) = patched_log(bytes, staging)->Ok_0;
            let (before, recs) = parse_log(bytes)->Ok_0;
            let (after, kept) = parse_log(out)->Ok_0;
            &&& parse_log(bytes) is Ok
            &&& parse_log(out) is Ok
            &&& kept == patched_records(recs, staging)
            &&& removed == recs.len() - kept.len()
            &&& after.num_recs == recs.len() - removed
            &&& after.num_recs == before.num_recs - removed
            &&& after.end_offset == out.len()
            &&& after == (HeaderView {
                num_recs: after.num_recs,
                end_offset: after.end_offset,
                crc: after.crc,
                ..before
            })
        }),
{
    let (before, recs) = parse_log(bytes)->Ok_0;
    let kept = patched_records(recs, staging);
    let header = HeaderView { num_recs: kept.len() as usize, ..before };
    assert(storable(before)) by {
        lemma_parsed_header_storable(bytes.take(HEADER_SIZE as int));
    }
    assert(recs.len() == before.num_recs) by {
        lemma_records_count(payload_of(bytes.skip(HEADER_SIZE as int)), before.num_recs as nat);
    }
    lemma_stored_count(before, kept);
    lemma_log_round_trip(header, kept);
}

/// The header of a log that can be written can count its records.
proof fn lemma_stored_count(header: HeaderView, recs: Seq<FileRecView>)
    requires
        storable(header),
        log_bytes(HeaderView { num_recs: recs.len() as usize, ..header }, recs) is Ok,
    ensures
        recs.len() <= 0x7FFF_FFFF,
        storable(HeaderView { num_recs: recs.len() as usize, ..header }),
{
    assert(records_fit(recs) && log_len(recs) <= u32::MAX);
    lemma_count_bound(recs);
    lemma_storable_count(header, recs.len() as usize, header.end_offset);
}

/// A log that is no longer than 32 bits can say holds fewer than 2^31
/// records.
proof fn lemma_count_bound(recs: Seq<FileRecView>)
    requires
        records_fit(recs),
        log_len(recs) <= u32::MAX,
    ensures
        recs.len() <= 0x7FFF_FFFF,
{
    lemma_records_read_back(recs, Seq::empty());
    lemma_framed_len(records_bytes(recs));
}

/// A storable header stays storable with a record count below 2^31, and
/// with any end offset.
proof fn lemma_storable_count(header: HeaderView, n: usize, end_offset: u32)
    requires
        storable(header),
        n <= 0x7FFF_FFFF,
    ensures
        storable(HeaderView { num_recs: n, end_offset, ..header }),
{
    lemma_small_count_is_stored(n);
}

/// The stored records of a list take as many bytes as the first, stored,
/// and the others.
proof fn lemma_records_bytes_len(rec: FileRecView, rest: Seq<FileRecView>)
    ensures
        records_bytes(seq![rec] + rest).len() == 10 + rec.data.len() + records_bytes(rest).len(),
{
    lemma_records_bytes_front(rec, rest);
}

/// Records that were read have payloads that can be stored, and are stored
/// in no more bytes than they were read from.
proof fn lemma_parsed_records(s: Seq<u8>, n: nat)
    requires
        parse_records(s, n) is Ok,
    ensures
        records_fit(parse_records(s, n)->Ok_0),
        records_bytes(parse_records(s, n)->Ok_0).len() <= s.len(),
    decreases n,
{
    let recs = parse_records(s, n)->Ok_0;
    if n > 0 {
        let (rec, taken) = parse_record(s)->Ok_0;
        let rest = parse_records(s.skip(taken), (n - 1) as nat)->Ok_0;
        lemma_parsed_records(s.skip(taken), (n - 1) as nat);
        lemma_records_bytes_len(rec, rest);
        assert(recs == seq![rec] + rest);
        assert forall|i: int| 0 <= i < recs.len() implies (#[trigger] recs[i]).data.len()
            <= MAX_DATA_SIZE by {
            if i > 0 {
                assert(recs[i] == rest[i - 1]);
            }
        }
    }
}

/// Records that are rebased can be stored where they could before, in no
/// more bytes.
proof fn lemma_rebased_all_is_no_longer(recs: Seq<FileRecView>, staging: Seq<char>)
    requires
        records_fit(recs),
    ensures
        records_fit(rebased_all(recs, staging)),
        records_bytes(rebased_all(recs, staging)).len() <= records_bytes(recs).len(),
    decreases recs.len(),
{
    let moved = rebased_all(recs, staging);
    assert forall|i: int| 0 <= i < moved.len() implies (#[trigger] moved[i]).data.len()
        <= MAX_DATA_SIZE by {
        lemma_rebased_record_is_no_larger(recs[i], staging);
        assert(recs[i].data.len() <= MAX_DATA_SIZE);
    }
    if recs.len() > 0 {
        let before = recs.drop_last();
        assert(records_fit(before)) by {
            assert forall|i: int| 0 <= i < before.len() implies (#[trigger] before[i]).data.len()
                <= MAX_DATA_SIZE by {
                assert(before[i] == recs[i]);
            }
        }
        lemma_rebased_all_is_no_longer(before, staging);
        assert(moved.drop_last() =~= rebased_all(before, staging));
        lemma_rebased_record_is_no_larger(recs.last(), staging);
    }
}

/// What is left once the duplicates are gone can be stored where all could,
/// in no more bytes.
proof fn lemma_dedup_is_no_longer(recs: Seq<FileRecView>, seen: Set<Seq<char>>)
    requires
        records_fit(recs),
    ensures
        records_fit(dedup_from(recs, seen)),
        records_bytes(dedup_from(recs, seen)).len() <= records_bytes(recs).len(),
        dedup_from(recs, seen).len() <= recs.len(),
    decreases recs.len(),
{
    let kept = dedup_from(recs, seen);
    if recs.len() > 0 {
        let rec = recs[0];
        let rest = recs.skip(1);
        assert(recs =~= seq![rec] + rest);
        assert(records_fit(rest)) by {
            assert forall|i: int| 0 <= i < rest.len() implies (#[trigger] rest[i]).data.len()
                <= MAX_DATA_SIZE by {
                assert(rest[i] == recs[i + 1]);
            }
        }
        lemma_records_bytes_len(rec, rest);
        let next_seen = match single_path(rec) {
            Some(path) => if seen.contains(path) {
                seen
            } else {
                seen.insert(path)
            },
            None => seen,
        };
        let tail = dedup_from(rest, next_seen);
        lemma_dedup_is_no_longer(rest, next_seen);
        if kept.len() != tail.len() {
            assert(kept == seq![rec] + tail);
            lemma_records_bytes_len(rec, tail);
            assert forall|i: int| 0 <= i < kept.len() implies (#[trigger] kept[i]).data.len()
                <= MAX_DATA_SIZE by {
                if i > 0 {
                    assert(kept[i] == tail[i - 1]);
                }
            }
        } else {
            assert(kept == tail);
        }
    }
}

/// The patched records of a log that was read can be stored, and their
/// log is no longer than the log that was read.
proof fn lemma_patched_log_is_no_longer(bytes: Seq<u8>, staging: Seq<char>)
    requires
        parse_log(bytes) is Ok,
    ensures
        records_fit(patched_records(parse_log(bytes)->Ok_0.1, staging)),
        log_len(patched_records(parse_log(bytes)->Ok_0.1, staging)) <= bytes.len(),
{
    let (before, recs) = parse_log(bytes)->Ok_0;
    let stream = bytes.skip(HEADER_SIZE as int);
    let moved = rebased_all(recs, staging);
    let kept = patched_records(recs, staging);
    lemma_parsed_records(payload_of(stream), before.num_recs as nat);
    lemma_rebased_all_is_no_longer(recs, staging);
    lemma_dedup_is_no_longer(moved, Set::empty());
    lemma_input_covers_payload(stream);
    lemma_framed_len_exact(records_bytes(kept));
    let a = records_bytes(kept).len() as int;
    let b = payload_of(stream).len() as int;
    assert(a <= b);
    assert(framed_len(a) <= framed_len(b));
}

/// A log that can be read, and is no longer than 32 bits can say, can be
/// patched, and the patched log is no longer than the log was. It is read
/// back with the records that the patch left; its header counts them, which
/// is the count of the records before less the count of those removed, gives
/// the length of the patched log as its end offset, and is else as it was.
pub proof fn lemma_readable_log_can_be_patched(bytes: Seq<u8>, staging: Seq<char>)
    requires
        parse_log(bytes) is Ok,
        bytes.len() <= u32::MAX,
    ensures
        patched_log(bytes, staging) is Ok,
        patched_log(bytes, staging)->Ok_0.0.len() <= bytes.len(),
        ({
            let (out, removed) = patched_log(bytes, staging)->Ok_0;
            let (before, recs) = parse_log(bytes)->Ok_0;
            let (after, kept) = parse_log(out)->Ok_0;
            &&& parse_log(out) is Ok
            &&& kept == patched_records(recs, staging)
            &&& after.num_recs == kept.len() == before.num_recs - removed
            &&& after.end_offset == out.len()
            &&& after == (HeaderView {
                num_recs: after.num_recs,
                end_offset: after.end_offset,
                crc: after.crc,
                ..before
            })
        }),
{
    lemma_patch_succeeds(bytes, staging);
    lemma_patched_log_reads_back(bytes, staging);
}

/// The patch of a readable log that is no longer than 32 bits can say
/// succeeds.
proof fn lemma_patch_succeeds(bytes: Seq<u8>, staging: Seq<char>)
    requires
        parse_log(bytes) is Ok,
        bytes.len() <= u32::MAX,
    ensures
        patched_log(bytes, staging) is Ok,
        patched_log(bytes, staging)->Ok_0.0.len() <= bytes.len(),
{
    let (before, recs) = parse_log(bytes)->Ok_0;
    let kept = patched_records(recs, staging);
    let header = HeaderView { num_recs: kept.len() as usize, ..before };
    let stored = HeaderView { end_offset: log_len(kept) as u32, ..header };
    lemma_patched_log_is_no_longer(bytes, staging);
    assert(storable(before)) by {
        lemma_parsed_header_storable(bytes.take(HEADER_SIZE as int));
    }
    lemma_count_bound(kept);
    lemma_storable_count(before, kept.len() as usize, log_len(kept) as u32);
    assert(storable(stored));
    lemma_header_round_trip(stored);
    lemma_header_len(stored);
}

/// A header is written in 448 bytes.
proof fn lemma_header_len(header: HeaderView)
    requires
        storable(header),
    ensures
        encode_header(header).len() == HEADER_SIZE,
{
    lemma_header_round_trip(header);
}

/// Reading `n` records yields `n` records.
proof fn lemma_records_count(s: Seq<u8>, n: nat)
    requires
        parse_records(s, n) is Ok,
    ensures
        parse_records(s, n)->Ok_0.len() == n,
    decreases n,
{
    if n > 0 {
        let taken = parse_record(s)->Ok_0.1;
        lemma_records_count(s.skip(taken), (n - 1) as nat);
    }
}

} // verus!
