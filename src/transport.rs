//! Byte sources and byte sinks that a buffer is filled from and drained to.
use crate::buffer::RwBuffer;
use crate::ext::RwBufferExt;
use vstd::prelude::*;

verus! {

/// Something that hands out bytes on request, such as a stream.
pub trait ByteSource: Sized {
    type Error;

    /// What an implementation promises of one read: `self` before it, `after` the source after it,
    /// `room` the length of the region it was handed, `filled` that region afterwards, and `r`
    /// what it returned. An implementation that does not state it promises nothing beyond `read`'s
    /// own clauses.
    open spec fn read_post(
        &self,
        after: Self,
        room: nat,
        filled: Seq<u8>,
        r: Result<usize, Self::Error>,
    ) -> bool {
        true
    }

    /// Writes up to `buf.len()` bytes into the front of `buf` and returns how many it wrote; zero
    /// is a valid answer when no data is available yet.
    fn read(&mut self, buf: &mut [u8]) -> (r: Result<usize, Self::Error>)
        ensures
            final(buf)@.len() == old(buf)@.len(),
            r matches Ok(n) ==> n <= old(buf)@.len(),
            old(self).read_post(*final(self), old(buf)@.len(), final(buf)@, r),
    ;
}

/// Something that takes bytes on request, such as a stream.
pub trait ByteSink: Sized {
    type Error;

    /// What an implementation promises of one write: `self` before it, `after` the sink after it,
    /// `data` the bytes it was handed, and `r` what it returned. An implementation that does not
    /// state it promises nothing beyond `write`'s own clauses.
    open spec fn write_post(
        &self,
        after: Self,
        data: Seq<u8>,
        r: Result<usize, Self::Error>,
    ) -> bool {
        true
    }

    /// Takes up to `buf.len()` bytes from the front of `buf` and returns how many it took.
    fn write(&mut self, buf: &[u8]) -> (r: Result<usize, Self::Error>)
        ensures
            r matches Ok(n) ==> n <= buf@.len(),
            old(self).write_post(*final(self), buf@, r),
    ;

    /// Pushes out whatever the sink holds back.
    fn flush(&mut self) -> Result<(), Self::Error>;
}

/// A vector takes every byte it is given, at its end.
impl ByteSink for Vec<u8> {
    type Error = core::convert::Infallible;

    open spec fn write_post(
        &self,
        after: Self,
        data: Seq<u8>,
        r: Result<usize, Self::Error>,
    ) -> bool {
        &&& after@ == self@ + data
        &&& r == Ok::<usize, Self::Error>(data.len() as usize)
    }

    fn write(&mut self, buf: &[u8]) -> (r: Result<usize, Self::Error>) {
        let mut i: usize = 0;
        while i < buf.len()
            invariant
                i <= buf@.len(),
                self@ == old(self)@ + buf@.take(i as int),
            decreases buf@.len() - i,
        {
            self.push(buf[i]);
            i = i + 1;
            assert(self@ =~= old(self)@ + buf@.take(i as int));
        }
        assert(buf@.take(i as int) =~= buf@);
        Ok(buf.len())
    }

    fn flush(&mut self) -> Result<(), Self::Error> {
        Ok(())
    }
}

/// The smaller of two counts.
pub open spec fn min_nat(a: nat, b: nat) -> nat {
    if a <= b {
        a
    } else {
        b
    }
}

/// A buffer serves as a source: reading consumes its readable bytes.
impl ByteSource for RwBuffer {
    type Error = core::convert::Infallible;

    /// As many readable bytes as fit are handed out and consumed; nothing else changes.
    open spec fn read_post(
        &self,
        after: Self,
        room: nat,
        filled: Seq<u8>,
        r: Result<usize, Self::Error>,
    ) -> bool {
        self.wf() ==> {
            let n = min_nat(room, self@.readable().len());
            &&& after.wf()
            &&& r == Ok::<usize, Self::Error>(n as usize)
            &&& filled.take(n as int) == self@.readable().take(n as int)
            &&& after@ == self@.advance_read(n)
        }
    }

    /// Hands out as many readable bytes as fit in `buf`, and leaves the rest of `buf` alone.
    fn read(&mut self, buf: &mut [u8]) -> (r: Result<usize, Self::Error>)
        ensures
            old(self).wf() ==> final(buf)@.skip(
                min_nat(old(buf)@.len(), old(self)@.readable().len()) as int,
            ) == old(buf)@.skip(min_nat(old(buf)@.len(), old(self)@.readable().len()) as int),
    {
        if !self.is_well_formed() {
            return Ok(0);
        }
        let remaining = self.remaining();
        if buf.len() > remaining {
            let ghost old_buf = buf@;
            let (front, rest) = buf.split_at_mut(remaining);
            let _ = self.copy_to_slice(front);
            proof {
                assert(has_resolved(rest));
                assert(has_resolved(front));
                assert(final(buf)@.skip(remaining as int) =~= old_buf.skip(remaining as int));
                assert(final(buf)@.take(remaining as int) =~= front@);
                assert(front@ =~= old(self)@.readable().take(remaining as int));
            }
            Ok(remaining)
        } else {
            let _ = self.copy_to_slice(buf);
            assert(buf@.take(buf@.len() as int) =~= buf@);
            Ok(buf.len())
        }
    }
}

/// A buffer serves as a sink: writing appends to its readable bytes.
impl ByteSink for RwBuffer {
    type Error = core::convert::Infallible;

    /// As many bytes as the buffer's length allows, all of them in practice, are appended;
    /// nothing else changes.
    open spec fn write_post(
        &self,
        after: Self,
        data: Seq<u8>,
        r: Result<usize, Self::Error>,
    ) -> bool {
        self.wf() ==> {
            let n = min_nat(data.len(), (usize::MAX - self@.write) as nat);
            &&& after.wf()
            &&& r == Ok::<usize, Self::Error>(n as usize)
            &&& after.readable() == self.readable() + data.take(n as int)
            &&& after.is_append_of(*self, data.take(n as int))
        }
    }

    fn write(&mut self, buf: &[u8]) -> (r: Result<usize, Self::Error>) {
        if !self.is_well_formed() {
            return Ok(0);
        }
        let n = buf.len();
        let room = usize::MAX - self.written_len();
        if n <= room {
            self.put_slice(buf);
            assert(buf@.take(n as int) =~= buf@);
            Ok(n)
        } else {
            self.put_slice(vstd::slice::slice_subrange(buf, 0, room));
            Ok(room)
        }
    }

    fn flush(&mut self) -> Result<(), Self::Error> {
        Ok(())
    }
}

} // verus!
