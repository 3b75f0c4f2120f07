//! The framing of the record stream: blocks of at most 4096 bytes of
//! payload, each behind its length, the complement of its length and the
//! checksum of its payload.

use crate::checksum::{checksum, crc32};
use crate::endian::{le_u32, lemma_u32_round_trip, read_u32, u32_le, write_u32};
use crate::stream::{ByteRead, ByteWrite, ReadError};
use vstd::prelude::*;
use vstd::slice::slice_subrange;

verus! {

/// The largest payload of one block.
pub const BLOCK_MAX_SIZE: usize = 4096;

/// The size of what stands before the payload of a block.
pub const BLOCK_HEAD_SIZE: usize = 12;

/// The 32-bit integer with every bit of `v` inverted.
pub open spec fn complement(v: u32) -> u32 {
    (0xFFFF_FFFF - v) as u32
}

/// The payload of the block at the head of `input`, or what is wrong with
/// the block.
#[verifier::opaque]
pub open spec fn first_block(input: Seq<u8>) -> Result<Seq<u8>, ReadError> {
    if input.len() < BLOCK_HEAD_SIZE {
        Err(ReadError::UnexpectedEof)
    } else {
        let size = le_u32(input.subrange(0, 4));
        let not_size = le_u32(input.subrange(4, 8));
        let crc = le_u32(input.subrange(8, 12));
        if size != complement(not_size) {
            Err(ReadError::BlockSizeCorrupt)
        } else if size > BLOCK_MAX_SIZE {
            Err(ReadError::BlockTooLarge)
        } else if input.len() < BLOCK_HEAD_SIZE + size {
            Err(ReadError::UnexpectedEof)
        } else if crc32(input.subrange(12, 12 + size)) != crc {
            Err(ReadError::BlockChecksum)
        } else {
            Ok(input.subrange(12, 12 + size))
        }
    }
}

/// The payloads of the blocks of `input`, one after the other, up to the
/// first block that is damaged or cut short.
pub open spec fn payload_of(input: Seq<u8>) -> Seq<u8>
    decreases input.len(),
    via payload_of_terminates
{
    match first_block(input) {
        Ok(payload) => payload + payload_of(input.skip(BLOCK_HEAD_SIZE + payload.len())),
        Err(_) => Seq::empty(),
    }
}

/// What ends the payload of `input`: the fault of its first block that is
/// damaged or cut short. An input of whole blocks ends for want of bytes.
pub open spec fn fault_of(input: Seq<u8>) -> ReadError
    decreases input.len(),
    via fault_of_terminates
{
    match first_block(input) {
        Ok(payload) => fault_of(input.skip(BLOCK_HEAD_SIZE + payload.len())),
        Err(fault) => fault,
    }
}

#[via_fn]
proof fn payload_of_terminates(input: Seq<u8>) {
    reveal(first_block);
}

#[via_fn]
proof fn fault_of_terminates(input: Seq<u8>) {
    reveal(first_block);
}

/// The block that carries `payload`.
#[verifier::opaque]
pub open spec fn block(payload: Seq<u8>) -> Seq<u8>
    recommends
        payload.len() <= BLOCK_MAX_SIZE,
{
    u32_le(payload.len() as u32) + u32_le(complement(payload.len() as u32)) + u32_le(
        crc32(payload),
    ) + payload
}

/// The blocks that carry each of `payloads`, one after the other.
pub open spec fn frames(payloads: Seq<Seq<u8>>) -> Seq<u8>
    decreases payloads.len(),
{
    if payloads.len() == 0 {
        Seq::empty()
    } else {
        frames(payloads.drop_last()) + block(payloads.last())
    }
}

/// The bytes of `payloads`, one after the other.
pub open spec fn joined(payloads: Seq<Seq<u8>>) -> Seq<u8>
    decreases payloads.len(),
{
    if payloads.len() == 0 {
        Seq::empty()
    } else {
        joined(payloads.drop_last()) + payloads.last()
    }
}

/// Each of `payloads` is one that a block can carry.
pub open spec fn all_fit(payloads: Seq<Seq<u8>>) -> bool {
    forall|i: int| 0 <= i < payloads.len() ==> (#[trigger] payloads[i]).len() <= BLOCK_MAX_SIZE
}

/// The full blocks that `data` fills, in order.
#[verifier::opaque]
pub open spec fn full_blocks(data: Seq<u8>) -> Seq<u8>
    decreases data.len(),
{
    if data.len() < BLOCK_MAX_SIZE {
        Seq::empty()
    } else {
        block(data.take(BLOCK_MAX_SIZE as int)) + full_blocks(data.skip(BLOCK_MAX_SIZE as int))
    }
}

/// What is left of `data` once each full block is gone.
#[verifier::opaque]
pub open spec fn leftover(data: Seq<u8>) -> Seq<u8>
    decreases data.len(),
{
    if data.len() < BLOCK_MAX_SIZE {
        data
    } else {
        leftover(data.skip(BLOCK_MAX_SIZE as int))
    }
}

/// The block that carries `pending`, or nothing where nothing is pending.
pub open spec fn flushed(pending: Seq<u8>) -> Seq<u8> {
    if pending.len() == 0 {
        Seq::empty()
    } else {
        block(pending)
    }
}

/// The whole framing of `data`: its full blocks, then a last shorter one
/// for what is left.
pub open spec fn framed(data: Seq<u8>) -> Seq<u8> {
    full_blocks(data) + flushed(leftover(data))
}

/// A block is read back as the payload it carries, whatever follows it.
pub proof fn lemma_first_block(payload: Seq<u8>, tail: Seq<u8>)
    requires
        payload.len() <= BLOCK_MAX_SIZE,
    ensures
        block(payload).len() == BLOCK_HEAD_SIZE + payload.len(),
        first_block(block(payload) + tail) == Ok::<Seq<u8>, ReadError>(payload),
        (block(payload) + tail).skip(BLOCK_HEAD_SIZE + payload.len()) == tail,
{
    reveal(block);
    reveal(first_block);
    let size = payload.len() as u32;
    let input = block(payload) + tail;
    lemma_u32_round_trip(size);
    lemma_u32_round_trip(complement(size));
    lemma_u32_round_trip(crc32(payload));
    assert(input.subrange(0, 4) =~= u32_le(size));
    assert(input.subrange(4, 8) =~= u32_le(complement(size)));
    assert(input.subrange(8, 12) =~= u32_le(crc32(payload)));
    assert(input.subrange(12, 12 + size) =~= payload);
    assert(input.skip(BLOCK_HEAD_SIZE + payload.len()) =~= tail);
}

/// Blocks that were written are read back as the payloads they carry, and
/// nothing is wrong with them: reading goes on into what follows.
pub proof fn lemma_frames_read_back(payloads: Seq<Seq<u8>>, tail: Seq<u8>)
    requires
        all_fit(payloads),
    ensures
        payload_of(frames(payloads) + tail) == joined(payloads) + payload_of(tail),
        fault_of(frames(payloads) + tail) == fault_of(tail),
    decreases payloads.len(),
{
    if payloads.len() == 0 {
        assert(frames(payloads) =~= Seq::<u8>::empty());
        assert(joined(payloads) =~= Seq::<u8>::empty());
        assert(frames(payloads) + tail =~= tail);
        assert(joined(payloads) + payload_of(tail) =~= payload_of(tail));
    } else {
        let last = payloads.last();
        let before = payloads.drop_last();
        let rest = block(last) + tail;
        assert(all_fit(before)) by {
            assert forall|i: int| 0 <= i < before.len() implies (#[trigger] before[i]).len()
                <= BLOCK_MAX_SIZE by {
                assert(before[i] == payloads[i]);
            }
        }
        assert(last.len() <= BLOCK_MAX_SIZE) by {
            assert(payloads[payloads.len() - 1] == last);
        }
        let whole = frames(payloads) + tail;
        assert(whole == frames(before) + rest) by {
            assert(frames(payloads) == frames(before) + block(last));
            assert((frames(before) + block(last)) + tail =~= frames(before) + (block(last) + tail));
        }
        lemma_frames_read_back(before, rest);
        lemma_block_read_back(last, tail);
        assert(joined(payloads) == joined(before) + last);
        assert(joined(before) + (last + payload_of(tail)) =~= (joined(before) + last) + payload_of(
            tail,
        ));
    }
}

/// One block is read back as its payload, and reading goes on behind it.
pub proof fn lemma_block_read_back(payload: Seq<u8>, tail: Seq<u8>)
    requires
        payload.len() <= BLOCK_MAX_SIZE,
    ensures
        payload_of(block(payload) + tail) == payload + payload_of(tail),
        fault_of(block(payload) + tail) == fault_of(tail),
{
    lemma_first_block(payload, tail);
}

/// Input that ends where a block should begin holds no more payload and
/// ends for want of bytes.
pub proof fn lemma_end_of_input()
    ensures
        payload_of(Seq::empty()) == Seq::<u8>::empty(),
        fault_of(Seq::empty()) == ReadError::UnexpectedEof,
{
    reveal(first_block);
}

/// Appending to data bytes that still fit the block that is being filled
/// either extends what is left or completes one more full block.
pub proof fn lemma_append_to_leftover(data: Seq<u8>, more: Seq<u8>)
    requires
        leftover(data).len() + more.len() <= BLOCK_MAX_SIZE,
    ensures
        leftover(data).len() < BLOCK_MAX_SIZE,
        leftover(data).len() + more.len() < BLOCK_MAX_SIZE ==> full_blocks(data + more)
            == full_blocks(data) && leftover(data + more) == leftover(data) + more,
        leftover(data).len() + more.len() == BLOCK_MAX_SIZE ==> full_blocks(data + more)
            == full_blocks(data) + block(leftover(data) + more) && leftover(data + more)
            == Seq::<u8>::empty(),
    decreases data.len(),
{
    reveal(full_blocks);
    reveal(leftover);
    let all = data + more;
    if data.len() < BLOCK_MAX_SIZE {
        if all.len() == BLOCK_MAX_SIZE {
            let nothing = all.skip(BLOCK_MAX_SIZE as int);
            assert(all.take(BLOCK_MAX_SIZE as int) =~= all);
            assert(nothing =~= Seq::<u8>::empty());
            assert(full_blocks(nothing) =~= Seq::<u8>::empty());
            assert(leftover(nothing) =~= Seq::<u8>::empty());
            assert(full_blocks(data) =~= Seq::<u8>::empty());
            assert(full_blocks(all) =~= full_blocks(data) + block(all));
            assert(leftover(all) == leftover(nothing));
        }
    } else {
        let rest = data.skip(BLOCK_MAX_SIZE as int);
        lemma_append_to_leftover(rest, more);
        assert(all.take(BLOCK_MAX_SIZE as int) =~= data.take(BLOCK_MAX_SIZE as int));
        assert(all.skip(BLOCK_MAX_SIZE as int) =~= rest + more);
        if leftover(data).len() + more.len() == BLOCK_MAX_SIZE {
            assert(full_blocks(all) =~= full_blocks(data) + block(leftover(data) + more));
        }
    }
}

/// The framing of data, block by block.
proof fn lemma_framed_unfold(data: Seq<u8>)
    ensures
        data.len() == 0 ==> framed(data) == Seq::<u8>::empty(),
        0 < data.len() < BLOCK_MAX_SIZE ==> framed(data) == block(data),
        data.len() >= BLOCK_MAX_SIZE ==> framed(data) == block(data.take(BLOCK_MAX_SIZE as int))
            + framed(data.skip(BLOCK_MAX_SIZE as int)),
{
    reveal(full_blocks);
    reveal(leftover);
    if data.len() < BLOCK_MAX_SIZE {
        assert(framed(data) =~= flushed(data));
    } else {
        let head = data.take(BLOCK_MAX_SIZE as int);
        let rest = data.skip(BLOCK_MAX_SIZE as int);
        assert(framed(data) =~= block(head) + framed(rest));
    }
}

/// A block is twelve bytes longer than its payload.
proof fn lemma_block_len(payload: Seq<u8>)
    ensures
        block(payload).len() == BLOCK_HEAD_SIZE + payload.len(),
{
    reveal(block);
}

/// Reading a block and then what reads back as `rest` gives the payload
/// of the block and then `rest`.
proof fn lemma_read_back_step(head: Seq<u8>, rest: Seq<u8>, framing: Seq<u8>, tail: Seq<u8>)
    requires
        head.len() <= BLOCK_MAX_SIZE,
        payload_of(framing + tail) == rest + payload_of(tail),
        fault_of(framing + tail) == fault_of(tail),
    ensures
        payload_of((block(head) + framing) + tail) == (head + rest) + payload_of(tail),
        fault_of((block(head) + framing) + tail) == fault_of(tail),
{
    let after = framing + tail;
    lemma_block_read_back(head, after);
    assert((block(head) + framing) + tail =~= block(head) + after);
    assert(head + (rest + payload_of(tail)) =~= (head + rest) + payload_of(tail));
}

/// Data that was framed is read back as it was, and nothing is wrong with
/// its blocks: reading goes on into what follows.
pub proof fn lemma_framed_reads_back(data: Seq<u8>, tail: Seq<u8>)
    ensures
        payload_of(framed(data) + tail) == data + payload_of(tail),
        fault_of(framed(data) + tail) == fault_of(tail),
    decreases data.len(),
{
    lemma_framed_unfold(data);
    if data.len() == 0 {
        assert(framed(data) + tail =~= tail);
        assert(data + payload_of(tail) =~= payload_of(tail));
    } else if data.len() < BLOCK_MAX_SIZE {
        lemma_block_read_back(data, tail);
    } else {
        let head = data.take(BLOCK_MAX_SIZE as int);
        let rest = data.skip(BLOCK_MAX_SIZE as int);
        lemma_framed_reads_back(rest, tail);
        lemma_read_back_step(head, rest, framed(rest), tail);
        assert(head + rest =~= data);
    }
}

/// The framing of data is at least as long as the data.
pub proof fn lemma_framed_len(data: Seq<u8>)
    ensures
        framed(data).len() >= data.len(),
    decreases data.len(),
{
    lemma_framed_unfold(data);
    if data.len() == 0 {
    } else if data.len() < BLOCK_MAX_SIZE {
        lemma_block_len(data);
    } else {
        let head = data.take(BLOCK_MAX_SIZE as int);
        let rest = data.skip(BLOCK_MAX_SIZE as int);
        lemma_framed_len(rest);
        lemma_block_len(head);
    }
}

/// The length of the framing of `n` bytes of data: the data, and twelve
/// bytes for each block of up to 4096 bytes.
pub open spec fn framed_len(n: int) -> int {
    n + BLOCK_HEAD_SIZE * ((n + BLOCK_MAX_SIZE - 1) / (BLOCK_MAX_SIZE as int))
}

/// The framing of data is as long as `framed_len` says.
pub proof fn lemma_framed_len_exact(data: Seq<u8>)
    ensures
        framed(data).len() == framed_len(data.len() as int),
    decreases data.len(),
{
    lemma_framed_unfold(data);
    if data.len() == 0 {
    } else if data.len() < BLOCK_MAX_SIZE {
        lemma_block_len(data);
    } else {
        let head = data.take(BLOCK_MAX_SIZE as int);
        let rest = data.skip(BLOCK_MAX_SIZE as int);
        lemma_framed_len_exact(rest);
        lemma_block_len(head);
    }
}

/// No framing of a payload is shorter than the framing in full blocks:
/// input is at least as long as the framing of the payload it holds.
pub proof fn lemma_input_covers_payload(input: Seq<u8>)
    ensures
        input.len() >= framed_len(payload_of(input).len() as int),
    decreases input.len(),
{
    reveal(first_block);
    match first_block(input) {
        Ok(payload) => {
            let rest = input.skip(BLOCK_HEAD_SIZE + payload.len());
            lemma_input_covers_payload(rest);
            let p = payload.len() as int;
            let q = payload_of(rest).len() as int;
            assert(payload_of(input).len() == p + q);
            assert((p + q + 4095) / 4096 <= 1 + (q + 4095) / 4096);
        },
        Err(_) => {
            assert(payload_of(input).len() == 0);
        },
    }
}

/// A source that takes blocks from another source and delivers their
/// payloads as one stream. After the first fault nothing more is delivered.
pub struct BlockRead<R: ByteRead> {
    reader: R,
    buffer: Vec<u8>,
    pos: usize,
    failed: bool,
}

impl<R: ByteRead> BlockRead<R> {
    /// The bytes of the block that have been taken from the source and not
    /// been delivered.
    pub closed spec fn buffered(&self) -> Seq<u8> {
        self.buffer@.skip(self.pos as int)
    }

    /// What the source below will still deliver.
    pub closed spec fn source(&self) -> Seq<u8> {
        self.reader.remaining()
    }

    /// A fault has ended the stream.
    pub closed spec fn has_failed(&self) -> bool {
        self.failed
    }

    /// A stream over the blocks that `reader` delivers.
    pub fn new(reader: R) -> (r: BlockRead<R>)
        requires
            reader.wf(),
        ensures
            r.wf(),
            !r.has_failed(),
            r.source() == reader.remaining(),
            r.remaining() == payload_of(reader.remaining()),
    {
        let r = BlockRead { reader, buffer: Vec::new(), pos: 0, failed: false };
        proof {
            assert(r.buffer@.skip(0) + payload_of(reader.remaining()) =~= payload_of(
                reader.remaining(),
            ));
        }
        r
    }

    /// Takes the next block from the source.
    fn fill_buffer(&mut self) -> (r: Result<(), ReadError>)
        requires
            old(self).wf(),
            !old(self).has_failed(),
            old(self).buffered().len() == 0,
        ensures
            final(self).wf(),
            match first_block(old(self).source()) {
                Ok(payload) => r is Ok && !final(self).has_failed() && final(self).buffered()
                    == payload && final(self).source() == old(self).source().skip(
                    BLOCK_HEAD_SIZE + payload.len(),
                ) && final(self).source().len() < old(self).source().len(),
                Err(fault) => r == Err::<(), ReadError>(fault) && final(self).has_failed(),
            },
    {
        let ghost input = self.reader.remaining();
        proof {
            reveal(first_block);
        }
        self.failed = true;
        let size_bytes = match self.reader.read_exact(4) {
            Ok(bytes) => bytes,
            Err(_) => {
                return Err(ReadError::UnexpectedEof);
            },
        };
        let not_size_bytes = match self.reader.read_exact(4) {
            Ok(bytes) => bytes,
            Err(_) => {
                return Err(ReadError::UnexpectedEof);
            },
        };
        let crc_bytes = match self.reader.read_exact(4) {
            Ok(bytes) => bytes,
            Err(_) => {
                return Err(ReadError::UnexpectedEof);
            },
        };
        proof {
            assert(size_bytes@ =~= input.subrange(0, 4));
            assert(not_size_bytes@ =~= input.subrange(4, 8));
            assert(crc_bytes@ =~= input.subrange(8, 12));
            assert(self.reader.remaining() =~= input.skip(12));
        }
        let size = read_u32(size_bytes.as_slice());
        let not_size = read_u32(not_size_bytes.as_slice());
        let crc = read_u32(crc_bytes.as_slice());
        assert(!not_size == (0xFFFF_FFFFu32 - not_size) as u32) by (bit_vector);
        if size != !not_size {
            return Err(ReadError::BlockSizeCorrupt);
        }
        if size > BLOCK_MAX_SIZE as u32 {
            return Err(ReadError::BlockTooLarge);
        }
        let payload = match self.reader.read_exact(size as usize) {
            Ok(bytes) => bytes,
            Err(_) => {
                return Err(ReadError::UnexpectedEof);
            },
        };
        proof {
            assert(payload@ =~= input.subrange(12, 12 + size));
            assert(self.reader.remaining() =~= input.skip(12 + size));
        }
        if checksum(payload.as_slice()) != crc {
            return Err(ReadError::BlockChecksum);
        }
        self.buffer = payload;
        self.pos = 0;
        self.failed = false;
        proof {
            assert(self.buffer@.skip(0) =~= payload@);
        }
        Ok(())
    }

    /// Gives the source below back.
    pub fn into_inner(self) -> (reader: R)
        requires
            self.wf(),
        ensures
            reader.wf(),
            reader.remaining() == self.source(),
    {
        self.reader
    }
}

impl<R: ByteRead> ByteRead for BlockRead<R> {
    closed spec fn wf(&self) -> bool {
        self.reader.wf() && self.pos <= self.buffer@.len()
    }

    closed spec fn remaining(&self) -> Seq<u8> {
        if self.failed {
            Seq::empty()
        } else {
            self.buffer@.skip(self.pos as int) + payload_of(self.reader.remaining())
        }
    }

    /// The fault of the first block that is damaged or cut short; once it
    /// has been reported, the stream has simply ended.
    open spec fn fault(&self) -> ReadError {
        if self.has_failed() {
            ReadError::UnexpectedEof
        } else {
            fault_of(self.source())
        }
    }

    fn read_exact(&mut self, n: usize) -> (r: Result<Vec<u8>, ReadError>)
        ensures
            r is Err ==> final(self).has_failed(),
            r is Ok ==> final(self).has_failed() == old(self).has_failed(),
    {
        let mut out: Vec<u8> = Vec::new();
        if n == 0 {
            proof {
                assert(old(self).remaining().take(0) =~= out@);
                assert(old(self).remaining().skip(0) =~= self.remaining());
            }
            return Ok(out);
        }
        if self.failed {
            return Err(ReadError::UnexpectedEof);
        }
        let mut need: usize = n;
        while need > 0
            invariant
                self.wf(),
                !self.failed,
                !old(self).has_failed(),
                need <= n,
                out@.len() + need == n,
                old(self).remaining() == out@ + self.remaining(),
                fault_of(self.reader.remaining()) == fault_of(old(self).source()),
            decreases self.reader.remaining().len(), need,
        {
            if self.pos == self.buffer.len() {
                let ghost before = self.reader.remaining();
                let ghost old_remaining = self.remaining();
                proof {
                    assert(self.buffer@.skip(self.pos as int) =~= Seq::<u8>::empty());
                    assert(old_remaining =~= payload_of(before));
                }
                match self.fill_buffer() {
                    Ok(()) => {},
                    Err(fault) => {
                        proof {
                            assert(old(self).remaining() =~= out@);
                        }
                        return Err(fault);
                    },
                }
                proof {
                    assert(self.remaining() =~= old_remaining);
                }
            } else {
                let left: usize = self.buffer.len() - self.pos;
                let count: usize = if need < left {
                    need
                } else {
                    left
                };
                let end: usize = self.pos + count;
                let ghost before_out = out@;
                let ghost before_remaining = self.remaining();
                let part = slice_subrange(self.buffer.as_slice(), self.pos, end);
                out.extend_from_slice(part);
                self.pos = end;
                need = need - count;
                proof {
                    assert(out@ =~= before_out + part@);
                    assert(before_remaining =~= part@ + self.remaining());
                    assert(old(self).remaining() =~= out@ + self.remaining());
                }
            }
        }
        proof {
            assert(old(self).remaining().take(n as int) =~= out@);
            assert(old(self).remaining().skip(n as int) =~= self.remaining());
        }
        Ok(out)
    }
}

/// A sink that gathers what it takes into blocks and hands each block, once
/// it is full or flushed, to another sink.
pub struct BlockWrite<W: ByteWrite> {
    writer: W,
    buffer: Vec<u8>,
    base: Ghost<Seq<u8>>,
    sent: Ghost<Seq<Seq<u8>>>,
}

impl<W: ByteWrite> BlockWrite<W> {
    /// What the sink below has taken.
    pub closed spec fn output(&self) -> Seq<u8> {
        self.writer.written()
    }

    /// What the sink below had taken before this sink was put on it.
    pub closed spec fn base(&self) -> Seq<u8> {
        self.base@
    }

    /// The payloads of the blocks that were handed on, in order.
    pub closed spec fn sent(&self) -> Seq<Seq<u8>> {
        self.sent@
    }

    /// The bytes that were taken and wait for their block to be handed on.
    pub closed spec fn pending(&self) -> Seq<u8> {
        self.buffer@
    }

    /// A sink that hands its blocks to `writer`.
    pub fn new(writer: W) -> (w: BlockWrite<W>)
        requires
            writer.wf(),
        ensures
            w.wf(),
            w.written() == Seq::<u8>::empty(),
            w.pending() == Seq::<u8>::empty(),
            w.output() == writer.written(),
            w.base() == writer.written(),
            w.sent() == Seq::<Seq<u8>>::empty(),
    {
        let ghost base = writer.written();
        let w = BlockWrite {
            writer,
            buffer: Vec::new(),
            base: Ghost(base),
            sent: Ghost(Seq::empty()),
        };
        proof {
            assert(base + frames(Seq::<Seq<u8>>::empty()) =~= base);
            assert(joined(Seq::<Seq<u8>>::empty()) + w.buffer@ =~= Seq::<u8>::empty());
        }
        w
    }

    /// Hands what is pending on as one block.
    fn flush_buffer(&mut self)
        requires
            old(self).writer.wf(),
            old(self).buffer@.len() <= BLOCK_MAX_SIZE,
            old(self).writer.written() == old(self).base@ + frames(old(self).sent@),
            all_fit(old(self).sent@),
        ensures
            final(self).wf(),
            final(self).written() == old(self).written(),
            final(self).pending() == Seq::<u8>::empty(),
            final(self).output() == old(self).output() + flushed(old(self).pending()),
            final(self).base() == old(self).base(),
    {
        if self.buffer.len() == 0 {
            proof {
                assert(self.writer.written() + flushed(self.buffer@) =~= self.writer.written());
            }
            return ;
        }
        let size: u32 = self.buffer.len() as u32;
        assert(!size == (0xFFFF_FFFFu32 - size) as u32) by (bit_vector);
        let mut head: Vec<u8> = Vec::new();
        write_u32(&mut head, size);
        write_u32(&mut head, !size);
        write_u32(&mut head, checksum(self.buffer.as_slice()));
        self.writer.write_all(head.as_slice());
        self.writer.write_all(self.buffer.as_slice());
        proof {
            reveal(block);
            let payload = self.buffer@;
            let sent = self.sent@.push(payload);
            assert(head@ + payload =~= block(payload));
            assert(sent.drop_last() =~= self.sent@);
            assert(self.writer.written() =~= self.base@ + frames(sent));
            assert(self.writer.written() =~= old(self).writer.written() + block(payload));
            assert(joined(sent) =~= joined(self.sent@) + payload);
            assert forall|i: int| 0 <= i < sent.len() implies (#[trigger] sent[i]).len()
                <= BLOCK_MAX_SIZE by {
                if i < self.sent@.len() {
                    assert(sent[i] == self.sent@[i]);
                }
            }
            self.sent = Ghost(sent);
        }
        self.buffer.clear();
        proof {
            assert(joined(self.sent@) + self.buffer@ =~= old(self).written());
        }
    }

    /// Hands what is pending on as one block, so that all that was taken
    /// has reached the sink below.
    pub fn flush(&mut self)
        requires
            old(self).wf(),
        ensures
            final(self).wf(),
            final(self).written() == old(self).written(),
            final(self).pending() == Seq::<u8>::empty(),
            final(self).output() == old(self).output() + flushed(old(self).pending()),
            final(self).base() == old(self).base(),
    {
        self.flush_buffer();
    }

    /// Gives the sink below back. What is pending is not handed on.
    pub fn into_inner(self) -> (writer: W)
        requires
            self.wf(),
        ensures
            writer.wf(),
            writer.written() == self.output(),
    {
        self.writer
    }

    /// What the sink below holds behind its base is the blocks of all that
    /// was taken and is not pending: read as blocks, it gives these bytes
    /// back and ends for want of bytes.
    pub proof fn lemma_output_reads_back(&self)
        requires
            self.wf(),
        ensures
            self.base().is_prefix_of(self.output()),
            payload_of(self.output().skip(self.base().len() as int)) + self.pending()
                == self.written(),
            fault_of(self.output().skip(self.base().len() as int)) == ReadError::UnexpectedEof,
    {
        let blocks = frames(self.sent@);
        lemma_end_of_input();
        assert((self.base@ + blocks).skip(self.base@.len() as int) =~= blocks);
        assert(blocks + Seq::<u8>::empty() =~= blocks);
        lemma_frames_read_back(self.sent@, Seq::empty());
        assert(joined(self.sent@) + Seq::<u8>::empty() =~= joined(self.sent@));
    }
}

impl<W: ByteWrite> ByteWrite for BlockWrite<W> {
    closed spec fn wf(&self) -> bool {
        &&& self.writer.wf()
        &&& self.buffer@.len() < BLOCK_MAX_SIZE
        &&& self.writer.written() == self.base@ + frames(self.sent@)
        &&& all_fit(self.sent@)
    }

    closed spec fn written(&self) -> Seq<u8> {
        joined(self.sent@) + self.buffer@
    }

    fn write_all(&mut self, buf: &[u8])
        ensures
            final(self).output() == old(self).output() + full_blocks(old(self).pending() + buf@),
            final(self).pending() == leftover(old(self).pending() + buf@),
            final(self).base() == old(self).base(),
    {
        let mut done: usize = 0;
        proof {
            reveal(full_blocks);
            reveal(leftover);
            assert(buf@.take(0) =~= Seq::<u8>::empty());
            assert(old(self).buffer@ + buf@.take(0) =~= old(self).buffer@);
            assert(self.writer.written() + full_blocks(old(self).buffer@)
                =~= self.writer.written());
        }
        while done < buf.len()
            invariant
                self.wf(),
                done <= buf@.len(),
                self.base@ == old(self).base@,
                old(self).buffer@.len() < BLOCK_MAX_SIZE,
                self.written() == old(self).written() + buf@.take(done as int),
                self.writer.written() == old(self).writer.written() + full_blocks(
                    old(self).buffer@ + buf@.take(done as int),
                ),
                self.buffer@ == leftover(old(self).buffer@ + buf@.take(done as int)),
            decreases buf@.len() - done,
        {
            let left: usize = BLOCK_MAX_SIZE - self.buffer.len();
            let size: usize = buf.len() - done;
            let count: usize = if size < left {
                size
            } else {
                left
            };
            let part = slice_subrange(buf, done, done + count);
            let ghost data = old(self).buffer@ + buf@.take(done as int);
            let ghost before = self.buffer@;
            let ghost before_written = self.written();
            self.buffer.extend_from_slice(part);
            proof {
                assert(self.buffer@ =~= before + part@);
                assert(buf@.take(done as int) + part@ =~= buf@.take(done + count));
                assert(data + part@ =~= old(self).buffer@ + buf@.take(done + count));
                lemma_append_to_leftover(data, part@);
                assert(joined(self.sent@) + (before + part@) =~= before_written + part@);
                assert(old(self).written() + buf@.take(done as int) + part@ =~= old(
                    self,
                ).written() + buf@.take(done + count));
            }
            done = done + count;
            if self.buffer.len() == BLOCK_MAX_SIZE {
                let ghost so_far = self.writer.written();
                self.flush_buffer();
                proof {
                    assert(self.writer.written() =~= old(self).writer.written() + full_blocks(
                        old(self).buffer@ + buf@.take(done as int),
                    ));
                }
            }
        }
        proof {
            assert(buf@.take(buf@.len() as int) =~= buf@);
        }
    }
}

} // verus!
