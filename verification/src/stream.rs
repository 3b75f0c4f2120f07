//! Sequential byte sources and sinks that live in memory.

use vstd::prelude::*;

verus! {

/// Why a read could not deliver the bytes asked for.
#[derive(Clone, Copy, Debug, PartialEq, Eq, Structural)]
pub enum ReadError {
    /// The source ended first.
    UnexpectedEof,
    /// A block's length and the complement stored beside it disagree.
    BlockSizeCorrupt,
    /// A block claims more payload than a block may carry.
    BlockTooLarge,
    /// A block's payload does not have the checksum stored with it.
    BlockChecksum,
}

/// A source that hands out its bytes in order.
pub trait ByteRead {
    /// What every method keeps true of the source.
    spec fn wf(&self) -> bool;

    /// The bytes that the source will still deliver, in order.
    spec fn remaining(&self) -> Seq<u8>;

    /// What a read that asks for more than is left fails with.
    spec fn fault(&self) -> ReadError;

    /// Delivers the next `n` bytes, or fails where fewer are left. A failed
    /// read leaves nothing behind.
    fn read_exact(&mut self, n: usize) -> (r: Result<Vec<u8>, ReadError>)
        requires
            old(self).wf(),
        ensures
            final(self).wf(),
            r is Ok <==> n <= old(self).remaining().len(),
            r matches Ok(bytes) ==> bytes@ == old(self).remaining().take(n as int)
                && final(self).remaining() == old(self).remaining().skip(n as int),
            r matches Err(fault) ==> fault == old(self).fault() && final(self).remaining()
                == Seq::<u8>::empty(),
    ;
}

/// A sink that takes bytes in order and keeps all of them.
pub trait ByteWrite {
    /// What every method keeps true of the sink.
    spec fn wf(&self) -> bool;

    /// The bytes that the sink has taken so far, in order.
    spec fn written(&self) -> Seq<u8>;

    /// Takes all of `buf`.
    fn write_all(&mut self, buf: &[u8])
        requires
            old(self).wf(),
        ensures
            final(self).wf(),
            final(self).written() == old(self).written() + buf@,
    ;
}

/// A source over a borrowed slice.
pub struct SliceReader<'a> {
    data: &'a [u8],
    pos: usize,
}

impl<'a> SliceReader<'a> {
    /// A source that delivers all of `data`.
    pub fn new(data: &'a [u8]) -> (r: Self)
        ensures
            r.wf(),
            r.remaining() == data@,
    {
        SliceReader { data, pos: 0 }
    }
}

impl<'a> ByteRead for SliceReader<'a> {
    closed spec fn wf(&self) -> bool {
        self.pos <= self.data@.len()
    }

    closed spec fn remaining(&self) -> Seq<u8> {
        self.data@.skip(self.pos as int)
    }

    open spec fn fault(&self) -> ReadError {
        ReadError::UnexpectedEof
    }

    fn read_exact(&mut self, n: usize) -> (r: Result<Vec<u8>, ReadError>) {
        if n > self.data.len() - self.pos {
            self.pos = self.data.len();
            return Err(ReadError::UnexpectedEof);
        }
        let end: usize = self.pos + n;
        let part = vstd::slice::slice_subrange(self.data, self.pos, end);
        let bytes = vstd::slice::slice_to_vec(part);
        self.pos = end;
        Ok(bytes)
    }
}

impl ByteWrite for Vec<u8> {
    open spec fn wf(&self) -> bool {
        true
    }

    open spec fn written(&self) -> Seq<u8> {
        self@
    }

    fn write_all(&mut self, buf: &[u8]) {
        self.extend_from_slice(buf);
        assert(self@ =~= old(self)@ + buf@);
    }
}

} // verus!
