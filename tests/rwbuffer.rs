use std::io::Cursor;

use rwbuffer::{ByteSink, ByteSource, RwBuffer, RwBufferExt, StrError};

/// Feeds a buffer from an in-memory stream.
struct CursorSource<'a>(Cursor<&'a [u8]>);

impl ByteSource for CursorSource<'_> {
    type Error = std::io::Error;

    fn read(&mut self, buf: &mut [u8]) -> Result<usize, std::io::Error> {
        std::io::Read::read(&mut self.0, buf)
    }
}

/// A source that never hands out more than `step` bytes at once.
struct Trickle {
    data: Vec<u8>,
    pos: usize,
    step: usize,
}

impl ByteSource for Trickle {
    type Error = ();

    fn read(&mut self, buf: &mut [u8]) -> Result<usize, ()> {
        let n = buf.len().min(self.step).min(self.data.len() - self.pos);
        buf[..n].copy_from_slice(&self.data[self.pos..self.pos + n]);
        self.pos += n;
        Ok(n)
    }
}

/// A sink that takes at most `step` bytes per write.
struct ShortSink {
    taken: Vec<u8>,
    step: usize,
}

impl ByteSink for ShortSink {
    type Error = ();

    fn write(&mut self, buf: &[u8]) -> Result<usize, ()> {
        let n = buf.len().min(self.step);
        self.taken.extend_from_slice(&buf[..n]);
        Ok(n)
    }

    fn flush(&mut self) -> Result<(), ()> {
        Ok(())
    }
}

/// A source that always fails.
struct Broken;

impl ByteSource for Broken {
    type Error = &'static str;

    fn read(&mut self, _buf: &mut [u8]) -> Result<usize, &'static str> {
        Err("broken")
    }
}

#[test]
fn test_rwbuffer() {
    let mut buf = RwBuffer::new();
    buf.put_slice(b"hello");
    buf.put_slice(b"world");

    assert_eq!(buf.as_slice(), b"helloworld");
    assert_eq!(buf.remaining(), 10);

    let mut tmp = [0; 5];

    buf.copy_to_slice(&mut tmp).unwrap();
    assert_eq!(&tmp, b"hello");
    assert_eq!(buf.as_slice(), b"world");
    assert_eq!(buf.remaining(), 5);

    buf.copy_to_slice(&mut tmp).unwrap();
    assert_eq!(&tmp, b"world");
    assert_eq!(buf.as_slice(), &[]);
    assert_eq!(buf.remaining(), 0);

    buf.reset_read_index();

    buf.copy_to_slice(&mut tmp).unwrap();
    assert_eq!(&tmp, b"hello");
    assert_eq!(buf.as_slice(), b"world");
    assert_eq!(buf.remaining(), 5);

    buf.clear_read();

    buf.copy_to_slice(&mut tmp).unwrap();
    assert_eq!(&tmp, b"world");
    assert_eq!(buf.as_slice(), &[]);
    assert_eq!(buf.remaining(), 0);

    buf.reset_read_index();

    buf.copy_to_slice(&mut tmp).unwrap();
    assert_eq!(&tmp, b"world");
    assert_eq!(buf.as_slice(), &[]);
    assert_eq!(buf.remaining(), 0);
}

#[test]
fn test_rwbuffer_put_get_types() {
    let mut buf = RwBuffer::new();
    buf.put_u8(0x01);
    buf.put_u16(0x0203);
    buf.put_u32(0x04050607);
    buf.put_u64(0x08090a0b0c0d0e0f);
    buf.put_u128(0x101112131415161718191a1b1c1d1e1f);
    buf.put_i8(-0x01);
    buf.put_i16(-0x0203);
    buf.put_i32(-0x04050607);
    buf.put_i64(-0x08090a0b0c0d0e0f);
    buf.put_i128(-0x101112131415161718191a1b1c1d1e1f);
    buf.put_u32(0.1f32.to_bits());
    buf.put_u64(0.2f64.to_bits());

    assert_eq!(buf.remaining(), 74);

    assert_eq!(buf.get_u8().unwrap(), 0x01);
    assert_eq!(buf.get_u16().unwrap(), 0x0203);
    assert_eq!(buf.get_u32().unwrap(), 0x04050607);
    assert_eq!(buf.get_u64().unwrap(), 0x08090a0b0c0d0e0f);
    assert_eq!(buf.get_u128().unwrap(), 0x101112131415161718191a1b1c1d1e1f);
    assert_eq!(buf.get_i8().unwrap(), -0x01);
    assert_eq!(buf.get_i16().unwrap(), -0x0203);
    assert_eq!(buf.get_i32().unwrap(), -0x04050607);
    assert_eq!(buf.get_i64().unwrap(), -0x08090a0b0c0d0e0f);
    assert_eq!(buf.get_i128().unwrap(), -0x101112131415161718191a1b1c1d1e1f);
    assert_eq!(f32::from_bits(buf.get_u32().unwrap()), 0.1);
    assert_eq!(f64::from_bits(buf.get_u64().unwrap()), 0.2);

    assert_eq!(buf.remaining(), 0);
}

#[test]
fn test_rwbuffer_read_from() {
    let input: &[u8] = &[5, 12, 56, 84, 1, 57];
    let mut input = CursorSource(Cursor::new(input));

    // Fresh buffer without expecting any bytes
    let mut buf = RwBuffer::new();

    // Since no bytes are expected, the read should not read anything
    let bytes_read = buf.read_from(&mut input).unwrap();
    assert_eq!(buf.remaining(), 0);
    assert_eq!(bytes_read, 0);

    // Expect one byte
    buf.set_expected(1);

    // One byte is expected, so one byte should be read
    let bytes_read = buf.read_from(&mut input).unwrap();
    assert_eq!(buf.remaining(), 1);
    assert_eq!(bytes_read, 1);
    assert_eq!(buf.as_slice()[0], 5);

    // Since the expected number of bytes is already read, the read should not read anything
    let bytes_read = buf.read_from(&mut input).unwrap();
    assert_eq!(buf.remaining(), 1);
    assert_eq!(bytes_read, 0);

    let len = buf.get_u8().unwrap();
    assert_eq!(len, 5);
    assert_eq!(buf.remaining(), 0);

    buf.set_expected(1 + len as usize);
    assert_eq!(buf.expected_missing(), 5);

    let bytes_read = buf.read_from(&mut input).unwrap();
    assert_eq!(buf.remaining(), 5);
    assert_eq!(bytes_read, 5);

    assert_eq!(buf.as_slice(), &[12, 56, 84, 1, 57]);
}

#[test]
fn test_rwbuffer_write_to() {
    let mut output = Vec::<u8>::new();

    let mut buf = RwBuffer::new();
    buf.put_slice(&[5, 12, 56, 84, 1, 57]);
    assert_eq!(buf.remaining(), 6);
    assert_eq!(buf.as_slice(), &[5, 12, 56, 84, 1, 57]);

    let bytes_written = buf.write_to(&mut output).unwrap();
    assert_eq!(bytes_written, 6);
    assert_eq!(buf.remaining(), 0);

    assert_eq!(output.as_slice(), &[5, 12, 56, 84, 1, 57]);
}

#[test]
fn bytes_appended_one_at_a_time_decode_as_u16() {
    let mut buf = RwBuffer::new();
    buf.put_u8(0x01);
    buf.put_u8(0x02);
    buf.put_u8(0x03);
    assert_eq!(buf.get_u16(), Some(0x0102));
    assert_eq!(buf.as_slice(), &[0x03]);
}

#[test]
fn length_prefixed_frame_read_in_two_steps() {
    let mut source = CursorSource(Cursor::new(&[5u8, 12, 56, 84, 1, 57][..]));
    let mut buf = RwBuffer::with_expected(1);
    assert_eq!(buf.read_from(&mut source).unwrap(), 1);
    let len = buf.get_u8().unwrap();
    assert_eq!(len, 5);
    buf.set_expected(1 + len as usize);
    assert_eq!(buf.read_from(&mut source).unwrap(), 5);
    assert_eq!(buf.as_slice(), &[12, 56, 84, 1, 57]);
    assert_eq!(buf.expected_missing(), 0);
}

#[test]
fn consuming_in_other_runs_returns_appended_bytes_in_order() {
    let mut buf = RwBuffer::new();
    let chunks: [&[u8]; 3] = [&[1, 2, 3], &[4], &[5, 6, 7, 8, 9]];
    for c in chunks {
        buf.put_slice(c);
    }
    let mut out = Vec::new();
    for n in [2usize, 5, 2] {
        let mut run = vec![0u8; n];
        buf.copy_to_slice(&mut run).unwrap();
        out.extend_from_slice(&run);
    }
    assert_eq!(out, vec![1, 2, 3, 4, 5, 6, 7, 8, 9]);
    assert_eq!(buf.remaining(), 0);
}

#[test]
fn consuming_more_than_readable_changes_nothing() {
    let mut buf = RwBuffer::new();
    buf.put_slice(&[1, 2, 3]);
    let mut tmp = [9u8; 4];
    assert_eq!(buf.copy_to_slice(&mut tmp), None);
    assert_eq!(tmp, [9, 9, 9, 9]);
    assert_eq!(buf.as_slice(), &[1, 2, 3]);
    assert_eq!(buf.get_u32(), None);
    assert_eq!(buf.get_i128(), None);
    assert_eq!(buf.remaining(), 3);
}

#[test]
fn clear_read_without_consumed_bytes_is_a_no_op() {
    let mut buf = RwBuffer::with_capacity(8);
    buf.put_slice(&[1, 2, 3]);
    buf.clear_read();
    assert_eq!(buf.as_slice(), &[1, 2, 3]);
    assert_eq!(buf.capacity(), 8);
    assert_eq!(buf.unused(), 5);
}

#[test]
fn clear_read_moves_readable_bytes_to_front() {
    let mut buf = RwBuffer::with_capacity(8);
    buf.put_slice(&[1, 2, 3, 4, 5]);
    assert_eq!(buf.get_u16(), Some(0x0102));
    buf.clear_read();
    assert_eq!(buf.as_slice(), &[3, 4, 5]);
    assert_eq!(buf.capacity(), 8);
    assert_eq!(buf.unused(), 5);
    buf.reset_read_index();
    assert_eq!(buf.as_slice(), &[3, 4, 5]);
}

#[test]
fn reset_read_index_replays_the_same_bytes() {
    let mut buf = RwBuffer::new();
    buf.put_slice(&[10, 20, 30, 40]);
    for _ in 0..3 {
        assert_eq!(buf.get_u8(), Some(10));
        assert_eq!(buf.get_u16(), Some(20 * 256 + 30));
        assert_eq!(buf.get_u8(), Some(40));
        assert_eq!(buf.get_u8(), None);
        buf.reset_read_index();
    }
    assert_eq!(buf.as_slice(), &[10, 20, 30, 40]);
}

#[test]
fn expected_missing_counts_down_with_each_read() {
    let mut source = Trickle { data: vec![1, 2, 3, 4, 5, 6, 7], pos: 0, step: 2 };
    let mut buf = RwBuffer::new();
    buf.set_expected(5);
    let mut missing = buf.expected_missing();
    assert_eq!(missing, 5);
    let mut reads = Vec::new();
    loop {
        let n = buf.read_from(&mut source).unwrap();
        reads.push(n);
        assert_eq!(buf.expected_missing(), missing - n);
        missing = buf.expected_missing();
        if n == 0 {
            break;
        }
    }
    assert_eq!(reads, vec![2, 2, 1, 0]);
    assert_eq!(buf.as_slice(), &[1, 2, 3, 4, 5]);
    assert_eq!(buf.read_from(&mut source).unwrap(), 0);
}

#[test]
fn expected_below_written_reads_nothing() {
    let mut source = CursorSource(Cursor::new(&[1u8, 2, 3][..]));
    let mut buf = RwBuffer::new();
    buf.put_slice(&[7, 7, 7, 7]);
    buf.set_expected(2);
    assert_eq!(buf.expected_missing(), 0);
    assert_eq!(buf.read_from(&mut source).unwrap(), 0);
    assert_eq!(buf.as_slice(), &[7, 7, 7, 7]);
}

#[test]
fn failed_source_read_keeps_cursors() {
    let mut buf = RwBuffer::with_expected(4);
    buf.put_u8(1);
    assert_eq!(buf.read_from(&mut Broken), Err("broken"));
    assert_eq!(buf.as_slice(), &[1]);
    assert_eq!(buf.expected_missing(), 3);
}

#[test]
fn growth_keeps_earlier_bytes() {
    let mut buf = RwBuffer::with_capacity(2);
    buf.put_slice(&[0xaa, 0xbb]);
    assert_eq!(buf.unused(), 0);
    let big: Vec<u8> = (0u8..40).collect();
    buf.put_slice(&big);
    assert!(buf.capacity() >= 42);
    assert_eq!(&buf.as_slice()[..2], &[0xaa, 0xbb]);
    assert_eq!(&buf.as_slice()[2..], big.as_slice());
}

#[test]
fn constructors_size_the_storage() {
    let b = RwBuffer::new();
    assert_eq!((b.capacity(), b.remaining(), b.expected_missing()), (0, 0, 0));
    let b = RwBuffer::with_capacity(4);
    assert_eq!((b.capacity(), b.unused(), b.expected_missing()), (4, 4, 0));
    let b = RwBuffer::with_expected(6);
    assert_eq!((b.capacity(), b.expected_missing()), (6, 6));
    let b = RwBuffer::with_capacity_and_expected(2, 8);
    assert_eq!((b.capacity(), b.expected_missing()), (8, 8));
    let b = RwBuffer::with_capacity_and_expected(8, 2);
    assert_eq!((b.capacity(), b.expected_missing()), (8, 2));
}

#[test]
fn set_expected_grows_but_never_shrinks() {
    let mut buf = RwBuffer::with_capacity(4);
    buf.set_expected(10);
    assert_eq!(buf.capacity(), 10);
    assert_eq!(buf.expected_missing(), 10);
    buf.set_expected(3);
    assert_eq!(buf.capacity(), 10);
    assert_eq!(buf.expected_missing(), 3);
}

#[test]
fn clear_keeps_capacity() {
    let mut buf = RwBuffer::with_capacity(4);
    buf.put_slice(&[1, 2, 3]);
    buf.get_u8();
    buf.clear();
    assert_eq!(buf.remaining(), 0);
    assert_eq!(buf.capacity(), 4);
    assert_eq!(buf.unused(), 4);
}

#[test]
fn as_slice_mut_edits_unread_bytes_in_place() {
    let mut buf = RwBuffer::new();
    buf.put_slice(&[1, 2, 3, 4]);
    buf.get_u8();
    buf.as_slice_mut()[0] = 20;
    assert_eq!(buf.as_slice(), &[20, 3, 4]);
    assert_eq!(buf.remaining(), 3);
}

#[test]
fn integers_are_written_big_endian() {
    let mut buf = RwBuffer::new();
    buf.put_u32(0x01020304);
    buf.put_i16(-2);
    buf.put_i8(-128);
    buf.put_u64(1);
    assert_eq!(buf.as_slice(), &[1, 2, 3, 4, 0xff, 0xfe, 0x80, 0, 0, 0, 0, 0, 0, 0, 1]);
}

#[test]
fn boundary_values_round_trip() {
    let mut buf = RwBuffer::new();
    buf.put_u8(u8::MAX);
    buf.put_u16(0);
    buf.put_u32(u32::MAX);
    buf.put_u64(u64::MAX);
    buf.put_u128(u128::MAX);
    buf.put_i8(i8::MIN);
    buf.put_i16(i16::MAX);
    buf.put_i32(i32::MIN);
    buf.put_i64(-1);
    buf.put_i128(i128::MIN);
    assert_eq!(buf.get_u8(), Some(u8::MAX));
    assert_eq!(buf.get_u16(), Some(0));
    assert_eq!(buf.get_u32(), Some(u32::MAX));
    assert_eq!(buf.get_u64(), Some(u64::MAX));
    assert_eq!(buf.get_u128(), Some(u128::MAX));
    assert_eq!(buf.get_i8(), Some(i8::MIN));
    assert_eq!(buf.get_i16(), Some(i16::MAX));
    assert_eq!(buf.get_i32(), Some(i32::MIN));
    assert_eq!(buf.get_i64(), Some(-1));
    assert_eq!(buf.get_i128(), Some(i128::MIN));
    assert_eq!(buf.remaining(), 0);
}

#[test]
fn float_bit_patterns_are_big_endian() {
    let mut buf = RwBuffer::new();
    buf.put_u32(0.1f32.to_bits());
    buf.put_u64(0.2f64.to_bits());
    assert_eq!(&buf.as_slice()[..4], &[0x3d, 0xcc, 0xcc, 0xcd]);
    assert_eq!(&buf.as_slice()[4..], &[0x3f, 0xc9, 0x99, 0x99, 0x99, 0x99, 0x99, 0x9a]);
}

#[test]
fn zero_terminated_string_is_decoded() {
    let mut buf = RwBuffer::new();
    buf.put_slice("hé\0".as_bytes());
    buf.put_u8(7);
    assert_eq!(buf.get_str_zero_terminated(), Ok(String::from("hé")));
    assert_eq!(buf.as_slice(), &[7]);
}

#[test]
fn string_without_terminator_is_incomplete() {
    let mut buf = RwBuffer::new();
    buf.put_slice(b"abc");
    assert_eq!(buf.get_str_zero_terminated(), Err(StrError::Incomplete));
    assert_eq!(buf.as_slice(), b"abc");
    buf.put_u8(0);
    assert_eq!(buf.get_str_zero_terminated(), Ok(String::from("abc")));
    assert_eq!(buf.remaining(), 0);
}

#[test]
fn string_with_invalid_utf8_is_rejected() {
    let mut buf = RwBuffer::new();
    buf.put_slice(&[0x61, 0xff, 0x00]);
    assert_eq!(buf.get_str_zero_terminated(), Err(StrError::InvalidUtf8));
    assert_eq!(buf.as_slice(), &[0x61, 0xff, 0x00]);
}

#[test]
fn buffers_feed_each_other() {
    let mut a = RwBuffer::new();
    a.put_slice(&[1, 2, 3, 4, 5]);
    let mut b = RwBuffer::with_expected(3);
    assert_eq!(b.read_from(&mut a).unwrap(), 3);
    assert_eq!(b.as_slice(), &[1, 2, 3]);
    assert_eq!(a.as_slice(), &[4, 5]);
    assert_eq!(a.write_to(&mut b).unwrap(), 2);
    assert_eq!(b.as_slice(), &[1, 2, 3, 4, 5]);
    assert_eq!(a.remaining(), 0);
}

#[test]
fn short_sink_write_consumes_only_what_was_taken() {
    let mut buf = RwBuffer::new();
    buf.put_slice(&[1, 2, 3, 4, 5]);
    let mut sink = ShortSink { taken: Vec::new(), step: 3 };
    assert_eq!(buf.write_to(&mut sink).unwrap(), 3);
    assert_eq!(buf.as_slice(), &[4, 5]);
    assert_eq!(buf.write_to(&mut sink).unwrap(), 2);
    assert_eq!(sink.taken, vec![1, 2, 3, 4, 5]);
    assert_eq!(buf.remaining(), 0);
}

#[test]
fn buffer_source_leaves_rest_of_region_alone() {
    let mut a = RwBuffer::new();
    a.put_slice(&[1, 2]);
    let mut region = [0xeeu8; 5];
    assert_eq!(ByteSource::read(&mut a, &mut region), Ok(2));
    assert_eq!(region, [1, 2, 0xee, 0xee, 0xee]);
    assert_eq!(a.remaining(), 0);
}

#[test]
fn buffer_sink_keeps_cursor_and_expected_length() {
    let mut b = RwBuffer::with_expected(8);
    b.put_slice(&[1, 2, 3]);
    b.get_u8();
    assert_eq!(ByteSink::write(&mut b, &[4, 5]), Ok(2));
    assert_eq!(b.as_slice(), &[2, 3, 4, 5]);
    assert_eq!(b.expected_missing(), 3);
}
