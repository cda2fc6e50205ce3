//! A growable byte buffer split into zones by a read cursor and a write cursor.
use crate::ext::RwBufferExt;
use crate::transport::{ByteSink, ByteSource};
use vstd::prelude::*;

verus! {

/// What a buffer holds, as mathematical values.
pub struct BufferModel {
    /// The whole storage region; its length is the buffer's capacity.
    pub storage: Seq<u8>,
    /// The offset of the next byte to consume.
    pub read: nat,
    /// The offset of the next byte to append; the bytes before it are valid.
    pub write: nat,
    /// The total number of valid bytes that the transport is asked to fill.
    pub expected: nat,
}

impl BufferModel {
    /// The cursors stay in order inside the storage, and the expected length fits in it.
    pub open spec fn wf(self) -> bool {
        &&& self.read <= self.write <= self.storage.len()
        &&& self.expected <= self.storage.len()
        &&& self.storage.len() <= usize::MAX
    }

    /// The bytes that were written and not yet consumed.
    pub open spec fn readable(self) -> Seq<u8> {
        self.storage.subrange(self.read as int, self.write as int)
    }

    /// The valid bytes, consumed or not.
    pub open spec fn written(self) -> Seq<u8> {
        self.storage.subrange(0, self.write as int)
    }

    /// The length of the storage.
    pub open spec fn capacity(self) -> nat {
        self.storage.len()
    }

    /// How many bytes the transport still owes: zero once the valid bytes reach the expected
    /// length.
    pub open spec fn missing(self) -> nat {
        if self.expected > self.write {
            (self.expected - self.write) as nat
        } else {
            0
        }
    }

    /// The same buffer after consuming `n` more bytes.
    pub open spec fn advance_read(self, n: nat) -> BufferModel {
        BufferModel { read: self.read + n, ..self }
    }

    /// The same buffer with the read cursor back at the start.
    pub open spec fn rewound(self) -> BufferModel {
        BufferModel { read: 0, ..self }
    }
}

/// A single growable byte region with a read cursor, a write cursor and an expected length.
///
/// The bytes before the read cursor were consumed; those between the cursors are readable; those
/// from the write cursor to the end of the storage are free for appending. The expected length is
/// the number of valid bytes that a transport read is allowed to fill up to.
#[derive(Debug)]
pub struct RwBuffer {
    buf: Vec<u8>,
    read_index: usize,
    write_index: usize,
    expected_len: usize,
}

impl View for RwBuffer {
    type V = BufferModel;

    closed spec fn view(&self) -> BufferModel {
        BufferModel {
            storage: self.buf@,
            read: self.read_index as nat,
            write: self.write_index as nat,
            expected: self.expected_len as nat,
        }
    }
}

impl Default for RwBuffer {
    /// An empty buffer with no storage.
    fn default() -> (r: Self)
        ensures
            r.wf(),
            r@.storage.len() == 0,
            r@.read == 0,
            r@.write == 0,
            r@.expected == 0,
    {
        RwBuffer::new()
    }
}

impl RwBuffer {
    /// The buffer's model is well formed.
    pub open spec fn wf(&self) -> bool {
        self@.wf()
    }

    /// An empty buffer with no storage.
    pub fn new() -> (r: Self)
        ensures
            r.wf(),
            r@.storage.len() == 0,
            r@.read == 0,
            r@.write == 0,
            r@.expected == 0,
    {
        RwBuffer { buf: Vec::new(), read_index: 0, write_index: 0, expected_len: 0 }
    }

    /// An empty buffer with `capacity` zero bytes of storage.
    pub fn with_capacity(capacity: usize) -> (r: Self)
        ensures
            r.wf(),
            r@.storage == Seq::new(capacity as nat, |i: int| 0u8),
            r@.read == 0,
            r@.write == 0,
            r@.expected == 0,
    {
        RwBuffer { buf: vec![0u8; capacity], read_index: 0, write_index: 0, expected_len: 0 }
    }

    /// An empty buffer that expects `expected_len` bytes, with that many zero bytes of storage.
    pub fn with_expected(expected_len: usize) -> (r: Self)
        ensures
            r.wf(),
            r@.storage == Seq::new(expected_len as nat, |i: int| 0u8),
            r@.read == 0,
            r@.write == 0,
            r@.expected == expected_len,
    {
        RwBuffer { buf: vec![0u8; expected_len], read_index: 0, write_index: 0, expected_len }
    }

    /// An empty buffer that expects `expected_len` bytes, with zero bytes of storage for the
    /// larger of `capacity` and `expected_len`.
    pub fn with_capacity_and_expected(capacity: usize, expected_len: usize) -> (r: Self)
        ensures
            r.wf(),
            r@.storage == Seq::new(
                if capacity >= expected_len {
                    capacity as nat
                } else {
                    expected_len as nat
                },
                |i: int| 0u8,
            ),
            r@.read == 0,
            r@.write == 0,
            r@.expected == expected_len,
    {
        let size = if capacity >= expected_len {
            capacity
        } else {
            expected_len
        };
        RwBuffer { buf: vec![0u8; size], read_index: 0, write_index: 0, expected_len }
    }

    /// Declares that `expected` valid bytes are wanted in total, growing the storage with zero
    /// bytes where it is shorter than that. The cursors stay where they are.
    pub fn set_expected(&mut self, expected: usize)
        requires
            old(self).wf(),
        ensures
            final(self).wf(),
            final(self)@.expected == expected,
            final(self)@.read == old(self)@.read,
            final(self)@.write == old(self)@.write,
            old(self)@.capacity() >= expected ==> final(self)@.storage == old(self)@.storage,
            old(self)@.capacity() < expected ==> final(self)@.storage == old(self)@.storage + Seq::new(
                (expected - old(self)@.capacity()) as nat,
                |i: int| 0u8,
            ),
    {
        if self.buf.len() < expected {
            self.buf.resize(expected, 0);
            assert(self.buf@ =~= old(self)@.storage + Seq::new(
                (expected - old(self)@.capacity()) as nat,
                |i: int| 0u8,
            ));
        }
        self.expected_len = expected;
    }

    /// How many bytes the transport still owes before the expected length is reached.
    pub fn expected_missing(&self) -> (r: usize)
        requires
            self.wf(),
        ensures
            r == self@.missing(),
    {
        if self.expected_len > self.write_index {
            self.expected_len - self.write_index
        } else {
            0
        }
    }

    /// The number of readable bytes.
    pub fn remaining(&self) -> (r: usize)
        requires
            self.wf(),
        ensures
            r == self@.readable().len(),
    {
        self.write_index - self.read_index
    }

    /// The length of the storage.
    pub fn capacity(&self) -> (r: usize)
        requires
            self.wf(),
        ensures
            r == self@.capacity(),
    {
        self.buf.len()
    }

    /// The number of free bytes after the write cursor.
    pub fn unused(&self) -> (r: usize)
        requires
            self.wf(),
        ensures
            r == self@.capacity() - self@.write,
    {
        self.buf.len() - self.write_index
    }

    /// Empties the buffer; the storage and the expected length are kept.
    pub fn clear(&mut self)
        requires
            old(self).wf(),
        ensures
            final(self).wf(),
            final(self)@ == (BufferModel { read: 0, write: 0, ..old(self)@ }),
    {
        self.read_index = 0;
        self.write_index = 0;
    }

    /// Drops the consumed bytes: moves the readable bytes to the start of the storage and the
    /// read cursor to zero. Where nothing was consumed, nothing changes.
    pub fn clear_read(&mut self)
        requires
            old(self).wf(),
        ensures
            final(self).wf(),
            old(self)@.read == 0 ==> final(self)@ == old(self)@,
            final(self)@.read == 0,
            final(self)@.write == old(self)@.write - old(self)@.read,
            final(self)@.readable() == old(self)@.readable(),
            final(self)@.capacity() == old(self)@.capacity(),
            final(self)@.expected == old(self)@.expected,
    {
        if self.read_index > 0 {
            let r = self.read_index;
            let len = self.write_index - self.read_index;
            let ghost before = self.buf@;
            let mut i: usize = 0;
            while i < len
                invariant
                    0 < r,
                    r + len <= before.len() <= usize::MAX,
                    self.read_index == r,
                    self.write_index == old(self).write_index,
                    self.expected_len == old(self).expected_len,
                    len == old(self).write_index - r,
                    i <= len,
                    self.buf@.len() == before.len(),
                    forall|j: int| 0 <= j < i ==> self.buf@[j] == before[r + j],
                    forall|j: int| i <= j < before.len() ==> self.buf@[j] == before[j],
                decreases len - i,
            {
                let b = self.buf[r + i];
                self.buf[i] = b;
                i = i + 1;
            }
            self.read_index = 0;
            self.write_index = len;
            assert(self@.readable() =~= old(self)@.readable());
        }
    }

    /// Moves the read cursor back to the start, so that the valid bytes can be read again.
    pub fn reset_read_index(&mut self)
        requires
            old(self).wf(),
        ensures
            final(self).wf(),
            final(self)@ == old(self)@.rewound(),
    {
        self.read_index = 0;
    }

    /// Checks the cursors against the storage. Every buffer passes: the check only lets code that
    /// is handed a buffer without that knowledge learn it.
    pub(crate) fn is_well_formed(&self) -> (r: bool)
        ensures
            r == self.wf(),
    {
        self.read_index <= self.write_index && self.write_index <= self.buf.len()
            && self.expected_len <= self.buf.len()
    }

    /// The number of valid bytes, consumed or not.
    pub(crate) fn written_len(&self) -> (r: usize)
        ensures
            r == self@.write,
    {
        self.write_index
    }

    /// Lets `source` fill the bytes that are still expected, in one read straight into the
    /// storage at the write cursor, and returns what it returned; the bytes it reports become
    /// readable. Where no bytes are expected, `source` is not asked.
    pub fn read_from<T: ByteSource>(&mut self, source: &mut T) -> (r: Result<usize, T::Error>)
        requires
            old(self).wf(),
        ensures
            final(self).wf(),
            old(self)@.missing() == 0 ==> {
                &&& r == Ok::<usize, T::Error>(0)
                &&& final(self)@ == old(self)@
                &&& *final(source) == *old(source)
            },
            old(self)@.missing() > 0 ==> exists|filled: Seq<u8>|
                {
                    &&& filled.len() == old(self)@.missing()
                    &&& #[trigger] old(source).read_post(
                        *final(source),
                        old(self)@.missing(),
                        filled,
                        r,
                    )
                    &&& (r matches Ok(n) ==> final(self)@.readable() == old(self)@.readable()
                        + filled.take(n as int))
                },
            r matches Ok(n) ==> {
                &&& n <= old(self)@.missing()
                &&& final(self)@.write == old(self)@.write + n
                &&& final(self)@.missing() == old(self)@.missing() - n
            },
            r is Err ==> final(self)@.write == old(self)@.write,
            final(self)@.read == old(self)@.read,
            final(self)@.expected == old(self)@.expected,
            final(self)@.capacity() == old(self)@.capacity(),
            final(self)@.written().take(old(self)@.write as int) == old(self)@.written(),
    {
        let missing = self.expected_missing();
        if missing == 0 {
            return Ok(0);
        }
        let w = self.write_index;
        let ghost before = self.buf@;
        let whole = self.buf.as_mut_slice();
        let ghost final_whole = final(whole)@;
        let (front, back) = whole.split_at_mut(w + missing);
        let (filled, free) = front.split_at_mut(w);
        let res = source.read(free);
        let ghost got = free@;
        proof {
            assert(has_resolved(back));
            assert(has_resolved(filled));
            assert(has_resolved(free));
            assert(final_whole =~= before.subrange(0, w as int) + got + before.subrange(
                w + missing,
                before.len() as int,
            ));
        }
        match res {
            Ok(n) => {
                self.write_index = w + n;
                assert(self@.written().take(w as int) =~= old(self)@.written());
                assert(self@.readable() =~= old(self)@.readable() + got.take(n as int));
            },
            Err(_) => {
                assert(self@.written().take(w as int) =~= old(self)@.written());
            },
        }
        assert(old(source).read_post(*source, missing as nat, got, res));
        res
    }

    /// Hands all readable bytes to `sink` in one write, consumes as many as it took, and returns
    /// what it returned.
    pub fn write_to<T: ByteSink>(&mut self, sink: &mut T) -> (r: Result<usize, T::Error>)
        requires
            old(self).wf(),
        ensures
            final(self).wf(),
            old(sink).write_post(*final(sink), old(self)@.readable(), r),
            r matches Ok(n) ==> n <= old(self)@.readable().len() && final(self)@
                == old(self)@.advance_read(n as nat),
            r is Err ==> final(self)@ == old(self)@,
    {
        let r = self.read_index;
        let data = vstd::slice::slice_subrange(self.buf.as_slice(), r, self.write_index);
        let res = sink.write(data);
        match res {
            Ok(n) => {
                self.read_index = r + n;
            },
            Err(_) => {},
        }
        res
    }

    /// The readable bytes, without moving the read cursor.
    pub fn as_slice(&self) -> (r: &[u8])
        requires
            self.wf(),
        ensures
            r@ == self@.readable(),
    {
        vstd::slice::slice_subrange(self.buf.as_slice(), self.read_index, self.write_index)
    }

    /// The readable bytes, to be changed in place, without moving either cursor.
    pub fn as_slice_mut(&mut self) -> (r: &mut [u8])
        requires
            old(self).wf(),
        ensures
            r@ == old(self)@.readable(),
            final(self)@ == (BufferModel {
                storage: old(self)@.storage.subrange(0, old(self)@.read as int) + final(r)@
                    + old(self)@.storage.subrange(old(self)@.write as int, old(self)@.capacity() as int),
                ..old(self)@
            }),
    {
        let r = self.read_index;
        let w = self.write_index;
        let whole = self.buf.as_mut_slice();
        let ghost final_whole = final(whole)@;
        let (front, back) = whole.split_at_mut(w);
        let (consumed, readable) = front.split_at_mut(r);
        proof {
            assert(has_resolved(back));
            assert(has_resolved(consumed));
            assert(final_whole =~= old(self)@.storage.subrange(0, r as int) + final(readable)@
                + old(self)@.storage.subrange(w as int, old(self)@.capacity() as int));
        }
        readable
    }
}

impl RwBufferExt for RwBuffer {
    open spec fn inv(&self) -> bool {
        self.wf()
    }

    open spec fn readable(&self) -> Seq<u8> {
        self@.readable()
    }

    open spec fn room(&self) -> nat {
        (usize::MAX - self@.write) as nat
    }

    /// The read cursor and the expected length stay, the valid bytes gain `bytes` at their end,
    /// and the storage does not shrink.
    open spec fn is_append_of(&self, before: Self, bytes: Seq<u8>) -> bool {
        &&& self@.read == before@.read
        &&& self@.expected == before@.expected
        &&& self@.write == before@.write + bytes.len()
        &&& self@.written() == before@.written() + bytes
        &&& self@.capacity() >= before@.capacity()
    }

    /// Only the read cursor moves, by `n`.
    open spec fn is_consume_of(&self, before: Self, n: nat) -> bool {
        self@ == before@.advance_read(n)
    }

    /// Appends `val` at the write cursor, growing the storage first where the free bytes do not
    /// suffice. The valid bytes already there are kept.
    fn put_slice(&mut self, val: &[u8]) {
        let w = self.write_index;
        let n = val.len();
        if n > self.buf.len() - w {
            self.buf.resize(w + n, 0);
        }
        let ghost before = self.buf@;
        let mut i: usize = 0;
        while i < n
            invariant
                w + n <= before.len() <= usize::MAX,
                i <= n == val@.len(),
                self.read_index == old(self).read_index,
                self.write_index == w,
                self.expected_len == old(self).expected_len,
                w == old(self).write_index,
                old(self).read_index <= w,
                self.buf@.len() == before.len(),
                forall|j: int| 0 <= j < w ==> self.buf@[j] == before[j],
                forall|j: int| 0 <= j < i ==> self.buf@[w + j] == val@[j],
            decreases n - i,
        {
            self.buf[w + i] = val[i];
            i = i + 1;
        }
        self.write_index = w + n;
        assert(self@.written() =~= old(self)@.written() + val@);
        assert(self@.readable() =~= old(self)@.readable() + val@);
    }

    /// Fills `buf` from the read cursor and moves the cursor past the bytes taken.
    fn copy_to_slice(&mut self, buf: &mut [u8]) -> (r: Option<()>) {
        let n = buf.len();
        if n > self.write_index - self.read_index {
            return None;
        }
        let r = self.read_index;
        let mut i: usize = 0;
        while i < n
            invariant
                r + n <= self.buf@.len() <= usize::MAX,
                i <= n == buf@.len(),
                forall|j: int| 0 <= j < i ==> buf@[j] == self.buf@[r + j],
            decreases n - i,
        {
            buf[i] = self.buf[r + i];
            i = i + 1;
        }
        self.read_index = r + n;
        assert(buf@ =~= old(self)@.readable().take(n as int));
        assert(self@.readable() =~= old(self)@.readable().skip(n as int));
        Some(())
    }

    fn readable_bytes(&self) -> (r: &[u8]) {
        self.as_slice()
    }
}

} // verus!
