//! Typed big-endian accessors, written once over two primitives: append bytes and consume bytes.
use crate::codec::{
    be_bytes, be_value, decode_be, encode_be, lemma_be_bytes_len, lemma_pow256_16, pow256,
};
use vstd::prelude::*;
use vstd::utf8::{decode_utf8, valid_utf8};

verus! {

/// Why a zero-terminated string could not be taken from a buffer.
#[derive(Debug, Clone, Copy, PartialEq, Eq, Structural)]
pub enum StrError {
    /// The readable bytes hold no zero byte yet: more input is needed.
    Incomplete,
    /// The bytes before the zero byte are not valid UTF-8.
    InvalidUtf8,
}

/// True when `s` holds a zero byte.
pub open spec fn has_nul(s: Seq<u8>) -> bool {
    exists|k: int| 0 <= k < s.len() && s[k] == 0
}

/// True when `k` is the position of the first zero byte of `s`.
pub open spec fn is_first_nul(s: Seq<u8>, k: int) -> bool {
    &&& 0 <= k < s.len()
    &&& s[k] == 0
    &&& forall|j: int| 0 <= j < k ==> s[j] != 0
}

/// The position of the first zero byte of `s`, where there is one.
pub open spec fn first_nul(s: Seq<u8>) -> int {
    choose|k: int| is_first_nul(s, k)
}

/// Relies on String::from_utf8: it succeeds exactly on valid UTF-8, and the string then holds the
/// characters that the bytes encode.
#[verifier::external_body]
fn string_from_utf8(bytes: Vec<u8>) -> (r: Option<String>)
    ensures
        r is Some <==> valid_utf8(bytes@),
        r matches Some(s) ==> s@ == decode_utf8(bytes@),
{
    String::from_utf8(bytes).ok()
}

/// A byte buffer that can be appended to at its end and consumed from its front; the typed
/// accessors are built on those two operations and encode every integer big-endian.
pub trait RwBufferExt: Sized {
    /// The well-formedness of the buffer.
    spec fn inv(&self) -> bool;

    /// The bytes that were appended and not yet consumed, in order.
    spec fn readable(&self) -> Seq<u8>;

    /// How many more bytes can be appended before the buffer's length would overflow.
    spec fn room(&self) -> nat;

    /// True when `self` is `before` with `bytes` appended: what an implementation keeps across an
    /// append, beyond the readable bytes.
    spec fn is_append_of(&self, before: Self, bytes: Seq<u8>) -> bool;

    /// True when `self` is `before` with `n` bytes consumed: what an implementation keeps across
    /// a consume, beyond the readable bytes.
    spec fn is_consume_of(&self, before: Self, n: nat) -> bool;

    /// Appends `val` after the readable bytes.
    fn put_slice(&mut self, val: &[u8])
        requires
            old(self).inv(),
            val@.len() <= old(self).room(),
        ensures
            final(self).inv(),
            final(self).readable() == old(self).readable() + val@,
            final(self).room() + val@.len() == old(self).room(),
            final(self).is_append_of(*old(self), val@),
    ;

    /// Fills `buf` with the first `buf.len()` readable bytes and consumes them. Where fewer bytes
    /// are readable, returns `None` and changes nothing.
    fn copy_to_slice(&mut self, buf: &mut [u8]) -> (r: Option<()>)
        requires
            old(self).inv(),
        ensures
            final(buf)@.len() == old(buf)@.len(),
            old(buf)@.len() <= old(self).readable().len() ==> {
                &&& r is Some
                &&& final(buf)@ == old(self).readable().take(old(buf)@.len() as int)
                &&& final(self).inv()
                &&& final(self).readable() == old(self).readable().skip(old(buf)@.len() as int)
                &&& final(self).room() == old(self).room()
                &&& final(self).is_consume_of(*old(self), old(buf)@.len())
            },
            old(buf)@.len() > old(self).readable().len() ==> {
                &&& r is None
                &&& *final(self) == *old(self)
                &&& final(self).inv()
                &&& final(buf)@ == old(buf)@
            },
    ;

    /// The readable bytes, without consuming them.
    fn readable_bytes(&self) -> (r: &[u8])
        requires
            self.inv(),
        ensures
            r@ == self.readable(),
    ;

    /// Appends `val` as a single byte.
    fn put_u8(&mut self, val: u8)
        requires
            old(self).inv(),
            1 <= old(self).room(),
        ensures
            final(self).inv(),
            final(self).readable() == old(self).readable() + be_bytes(val as nat, 1),
            final(self).readable().len() == old(self).readable().len() + 1,
            final(self).room() + 1 == old(self).room(),
            final(self).is_append_of(*old(self), be_bytes(val as nat, 1)),
    {
        proof {
            reveal_with_fuel(pow256, 2);
            lemma_pow256_16();
            lemma_be_bytes_len(val as nat, 1);
        }
        let bytes = encode_be(val as u128, 1);
        self.put_slice(bytes.as_slice());
    }

    /// Appends `val` as 2 big-endian bytes.
    fn put_u16(&mut self, val: u16)
        requires
            old(self).inv(),
            2 <= old(self).room(),
        ensures
            final(self).inv(),
            final(self).readable() == old(self).readable() + be_bytes(val as nat, 2),
            final(self).readable().len() == old(self).readable().len() + 2,
            final(self).room() + 2 == old(self).room(),
            final(self).is_append_of(*old(self), be_bytes(val as nat, 2)),
    {
        proof {
            reveal_with_fuel(pow256, 3);
            lemma_pow256_16();
            lemma_be_bytes_len(val as nat, 2);
        }
        let bytes = encode_be(val as u128, 2);
        self.put_slice(bytes.as_slice());
    }

    /// Appends `val` as 4 big-endian bytes.
    fn put_u32(&mut self, val: u32)
        requires
            old(self).inv(),
            4 <= old(self).room(),
        ensures
            final(self).inv(),
            final(self).readable() == old(self).readable() + be_bytes(val as nat, 4),
            final(self).readable().len() == old(self).readable().len() + 4,
            final(self).room() + 4 == old(self).room(),
            final(self).is_append_of(*old(self), be_bytes(val as nat, 4)),
    {
        proof {
            reveal_with_fuel(pow256, 5);
            lemma_pow256_16();
            lemma_be_bytes_len(val as nat, 4);
        }
        let bytes = encode_be(val as u128, 4);
        self.put_slice(bytes.as_slice());
    }

    /// Appends `val` as 8 big-endian bytes.
    fn put_u64(&mut self, val: u64)
        requires
            old(self).inv(),
            8 <= old(self).room(),
        ensures
            final(self).inv(),
            final(self).readable() == old(self).readable() + be_bytes(val as nat, 8),
            final(self).readable().len() == old(self).readable().len() + 8,
            final(self).room() + 8 == old(self).room(),
            final(self).is_append_of(*old(self), be_bytes(val as nat, 8)),
    {
        proof {
            reveal_with_fuel(pow256, 9);
            lemma_pow256_16();
            lemma_be_bytes_len(val as nat, 8);
        }
        let bytes = encode_be(val as u128, 8);
        self.put_slice(bytes.as_slice());
    }

    /// Appends `val` as 16 big-endian bytes.
    fn put_u128(&mut self, val: u128)
        requires
            old(self).inv(),
            16 <= old(self).room(),
        ensures
            final(self).inv(),
            final(self).readable() == old(self).readable() + be_bytes(val as nat, 16),
            final(self).readable().len() == old(self).readable().len() + 16,
            final(self).room() + 16 == old(self).room(),
            final(self).is_append_of(*old(self), be_bytes(val as nat, 16)),
    {
        proof {
            reveal_with_fuel(pow256, 17);
            lemma_pow256_16();
            lemma_be_bytes_len(val as nat, 16);
        }
        let bytes = encode_be(val as u128, 16);
        self.put_slice(bytes.as_slice());
    }

    /// Appends the two's complement bit pattern of `val` as a single byte.
    fn put_i8(&mut self, val: i8)
        requires
            old(self).inv(),
            1 <= old(self).room(),
        ensures
            final(self).inv(),
            final(self).readable() == old(self).readable() + be_bytes(val as u8 as nat, 1),
            final(self).readable().len() == old(self).readable().len() + 1,
            final(self).room() + 1 == old(self).room(),
            final(self).is_append_of(*old(self), be_bytes(val as u8 as nat, 1)),
    {
        self.put_u8(val as u8);
    }

    /// Appends the two's complement bit pattern of `val` as 2 big-endian bytes.
    fn put_i16(&mut self, val: i16)
        requires
            old(self).inv(),
            2 <= old(self).room(),
        ensures
            final(self).inv(),
            final(self).readable() == old(self).readable() + be_bytes(val as u16 as nat, 2),
            final(self).readable().len() == old(self).readable().len() + 2,
            final(self).room() + 2 == old(self).room(),
            final(self).is_append_of(*old(self), be_bytes(val as u16 as nat, 2)),
    {
        self.put_u16(val as u16);
    }

    /// Appends the two's complement bit pattern of `val` as 4 big-endian bytes.
    fn put_i32(&mut self, val: i32)
        requires
            old(self).inv(),
            4 <= old(self).room(),
        ensures
            final(self).inv(),
            final(self).readable() == old(self).readable() + be_bytes(val as u32 as nat, 4),
            final(self).readable().len() == old(self).readable().len() + 4,
            final(self).room() + 4 == old(self).room(),
            final(self).is_append_of(*old(self), be_bytes(val as u32 as nat, 4)),
    {
        self.put_u32(val as u32);
    }

    /// Appends the two's complement bit pattern of `val` as 8 big-endian bytes.
    fn put_i64(&mut self, val: i64)
        requires
            old(self).inv(),
            8 <= old(self).room(),
        ensures
            final(self).inv(),
            final(self).readable() == old(self).readable() + be_bytes(val as u64 as nat, 8),
            final(self).readable().len() == old(self).readable().len() + 8,
            final(self).room() + 8 == old(self).room(),
            final(self).is_append_of(*old(self), be_bytes(val as u64 as nat, 8)),
    {
        self.put_u64(val as u64);
    }

    /// Appends the two's complement bit pattern of `val` as 16 big-endian bytes.
    fn put_i128(&mut self, val: i128)
        requires
            old(self).inv(),
            16 <= old(self).room(),
        ensures
            final(self).inv(),
            final(self).readable() == old(self).readable() + be_bytes(val as u128 as nat, 16),
            final(self).readable().len() == old(self).readable().len() + 16,
            final(self).room() + 16 == old(self).room(),
            final(self).is_append_of(*old(self), be_bytes(val as u128 as nat, 16)),
    {
        self.put_u128(val as u128);
    }

    /// Consumes one byte and reads it as an unsigned integer; `None`, with
    /// nothing consumed, where fewer are readable.
    fn get_u8(&mut self) -> (r: Option<u8>)
        requires
            old(self).inv(),
        ensures
            old(self).readable().len() >= 1 ==> {
                &&& r == Some(be_value(old(self).readable().take(1)) as u8)
                &&& final(self).inv()
                &&& final(self).readable() == old(self).readable().skip(1)
                &&& final(self).room() == old(self).room()
                &&& final(self).is_consume_of(*old(self), 1)
            },
            old(self).readable().len() < 1 ==> {
                &&& r is None
                &&& *final(self) == *old(self)
                &&& final(self).inv()
            },
    {
        let mut buf: Vec<u8> = vec![0u8; 1];
        match self.copy_to_slice(buf.as_mut_slice()) {
            Some(()) => Some(decode_be(buf.as_slice()) as u8),
            None => None,
        }
    }

    /// Consumes 2 bytes and reads them as a big-endian unsigned integer; `None`, with
    /// nothing consumed, where fewer are readable.
    fn get_u16(&mut self) -> (r: Option<u16>)
        requires
            old(self).inv(),
        ensures
            old(self).readable().len() >= 2 ==> {
                &&& r == Some(be_value(old(self).readable().take(2)) as u16)
                &&& final(self).inv()
                &&& final(self).readable() == old(self).readable().skip(2)
                &&& final(self).room() == old(self).room()
                &&& final(self).is_consume_of(*old(self), 2)
            },
            old(self).readable().len() < 2 ==> {
                &&& r is None
                &&& *final(self) == *old(self)
                &&& final(self).inv()
            },
    {
        let mut buf: Vec<u8> = vec![0u8; 2];
        match self.copy_to_slice(buf.as_mut_slice()) {
            Some(()) => Some(decode_be(buf.as_slice()) as u16),
            None => None,
        }
    }

    /// Consumes 4 bytes and reads them as a big-endian unsigned integer; `None`, with
    /// nothing consumed, where fewer are readable.
    fn get_u32(&mut self) -> (r: Option<u32>)
        requires
            old(self).inv(),
        ensures
            old(self).readable().len() >= 4 ==> {
                &&& r == Some(be_value(old(self).readable().take(4)) as u32)
                &&& final(self).inv()
                &&& final(self).readable() == old(self).readable().skip(4)
                &&& final(self).room() == old(self).room()
                &&& final(self).is_consume_of(*old(self), 4)
            },
            old(self).readable().len() < 4 ==> {
                &&& r is None
                &&& *final(self) == *old(self)
                &&& final(self).inv()
            },
    {
        let mut buf: Vec<u8> = vec![0u8; 4];
        match self.copy_to_slice(buf.as_mut_slice()) {
            Some(()) => Some(decode_be(buf.as_slice()) as u32),
            None => None,
        }
    }

    /// Consumes 8 bytes and reads them as a big-endian unsigned integer; `None`, with
    /// nothing consumed, where fewer are readable.
    fn get_u64(&mut self) -> (r: Option<u64>)
        requires
            old(self).inv(),
        ensures
            old(self).readable().len() >= 8 ==> {
                &&& r == Some(be_value(old(self).readable().take(8)) as u64)
                &&& final(self).inv()
                &&& final(self).readable() == old(self).readable().skip(8)
                &&& final(self).room() == old(self).room()
                &&& final(self).is_consume_of(*old(self), 8)
            },
            old(self).readable().len() < 8 ==> {
                &&& r is None
                &&& *final(self) == *old(self)
                &&& final(self).inv()
            },
    {
        let mut buf: Vec<u8> = vec![0u8; 8];
        match self.copy_to_slice(buf.as_mut_slice()) {
            Some(()) => Some(decode_be(buf.as_slice()) as u64),
            None => None,
        }
    }

    /// Consumes 16 bytes and reads them as a big-endian unsigned integer; `None`, with
    /// nothing consumed, where fewer are readable.
    fn get_u128(&mut self) -> (r: Option<u128>)
        requires
            old(self).inv(),
        ensures
            old(self).readable().len() >= 16 ==> {
                &&& r == Some(be_value(old(self).readable().take(16)) as u128)
                &&& final(self).inv()
                &&& final(self).readable() == old(self).readable().skip(16)
                &&& final(self).room() == old(self).room()
                &&& final(self).is_consume_of(*old(self), 16)
            },
            old(self).readable().len() < 16 ==> {
                &&& r is None
                &&& *final(self) == *old(self)
                &&& final(self).inv()
            },
    {
        let mut buf: Vec<u8> = vec![0u8; 16];
        match self.copy_to_slice(buf.as_mut_slice()) {
            Some(()) => Some(decode_be(buf.as_slice()) as u128),
            None => None,
        }
    }

    /// Consumes one byte and reads it as a two's complement integer;
    /// `None`, with nothing consumed, where fewer are readable.
    fn get_i8(&mut self) -> (r: Option<i8>)
        requires
            old(self).inv(),
        ensures
            old(self).readable().len() >= 1 ==> {
                &&& r == Some(be_value(old(self).readable().take(1)) as u8 as i8)
                &&& final(self).inv()
                &&& final(self).readable() == old(self).readable().skip(1)
                &&& final(self).room() == old(self).room()
                &&& final(self).is_consume_of(*old(self), 1)
            },
            old(self).readable().len() < 1 ==> {
                &&& r is None
                &&& *final(self) == *old(self)
                &&& final(self).inv()
            },
    {
        match self.get_u8() {
            Some(v) => Some(v as i8),
            None => None,
        }
    }

    /// Consumes 2 bytes and reads them as a big-endian two's complement integer;
    /// `None`, with nothing consumed, where fewer are readable.
    fn get_i16(&mut self) -> (r: Option<i16>)
        requires
            old(self).inv(),
        ensures
            old(self).readable().len() >= 2 ==> {
                &&& r == Some(be_value(old(self).readable().take(2)) as u16 as i16)
                &&& final(self).inv()
                &&& final(self).readable() == old(self).readable().skip(2)
                &&& final(self).room() == old(self).room()
                &&& final(self).is_consume_of(*old(self), 2)
            },
            old(self).readable().len() < 2 ==> {
                &&& r is None
                &&& *final(self) == *old(self)
                &&& final(self).inv()
            },
    {
        match self.get_u16() {
            Some(v) => Some(v as i16),
            None => None,
        }
    }

    /// Consumes 4 bytes and reads them as a big-endian two's complement integer;
    /// `None`, with nothing consumed, where fewer are readable.
    fn get_i32(&mut self) -> (r: Option<i32>)
        requires
            old(self).inv(),
        ensures
            old(self).readable().len() >= 4 ==> {
                &&& r == Some(be_value(old(self).readable().take(4)) as u32 as i32)
                &&& final(self).inv()
                &&& final(self).readable() == old(self).readable().skip(4)
                &&& final(self).room() == old(self).room()
                &&& final(self).is_consume_of(*old(self), 4)
            },
            old(self).readable().len() < 4 ==> {
                &&& r is None
                &&& *final(self) == *old(self)
                &&& final(self).inv()
            },
    {
        match self.get_u32() {
            Some(v) => Some(v as i32),
            None => None,
        }
    }

    /// Consumes 8 bytes and reads them as a big-endian two's complement integer;
    /// `None`, with nothing consumed, where fewer are readable.
    fn get_i64(&mut self) -> (r: Option<i64>)
        requires
            old(self).inv(),
        ensures
            old(self).readable().len() >= 8 ==> {
                &&& r == Some(be_value(old(self).readable().take(8)) as u64 as i64)
                &&& final(self).inv()
                &&& final(self).readable() == old(self).readable().skip(8)
                &&& final(self).room() == old(self).room()
                &&& final(self).is_consume_of(*old(self), 8)
            },
            old(self).readable().len() < 8 ==> {
                &&& r is None
                &&& *final(self) == *old(self)
                &&& final(self).inv()
            },
    {
        match self.get_u64() {
            Some(v) => Some(v as i64),
            None => None,
        }
    }

    /// Consumes 16 bytes and reads them as a big-endian two's complement integer;
    /// `None`, with nothing consumed, where fewer are readable.
    fn get_i128(&mut self) -> (r: Option<i128>)
        requires
            old(self).inv(),
        ensures
            old(self).readable().len() >= 16 ==> {
                &&& r == Some(be_value(old(self).readable().take(16)) as u128 as i128)
                &&& final(self).inv()
                &&& final(self).readable() == old(self).readable().skip(16)
                &&& final(self).room() == old(self).room()
                &&& final(self).is_consume_of(*old(self), 16)
            },
            old(self).readable().len() < 16 ==> {
                &&& r is None
                &&& *final(self) == *old(self)
                &&& final(self).inv()
            },
    {
        match self.get_u128() {
            Some(v) => Some(v as i128),
            None => None,
        }
    }

    /// Consumes the bytes up to and including the first zero byte and returns those before it as
    /// a string. Where no zero byte is readable yet, or the bytes before it are not valid UTF-8,
    /// returns the reason and consumes nothing.
    fn get_str_zero_terminated(&mut self) -> (r: Result<String, StrError>)
        requires
            old(self).inv(),
        ensures
            !has_nul(old(self).readable()) ==> r == Err::<String, StrError>(StrError::Incomplete),
            has_nul(old(self).readable()) && !valid_utf8(
                old(self).readable().take(first_nul(old(self).readable())),
            ) ==> r == Err::<String, StrError>(StrError::InvalidUtf8),
            has_nul(old(self).readable()) && valid_utf8(
                old(self).readable().take(first_nul(old(self).readable())),
            ) ==> r is Ok,
            r is Err ==> *final(self) == *old(self) && final(self).inv(),
            r matches Ok(s) ==> {
                let k = first_nul(old(self).readable());
                &&& has_nul(old(self).readable())
                &&& valid_utf8(old(self).readable().take(k))
                &&& s@ == decode_utf8(old(self).readable().take(k))
                &&& final(self).inv()
                &&& final(self).readable() == old(self).readable().skip(k + 1)
                &&& final(self).room() == old(self).room()
                &&& final(self).is_consume_of(*old(self), (k + 1) as nat)
            },
    {
        let bytes = self.readable_bytes();
        let mut k: usize = 0;
        while k < bytes.len() && bytes[k] != 0
            invariant
                k <= bytes@.len(),
                forall|j: int| 0 <= j < k ==> bytes@[j] != 0,
            decreases bytes@.len() - k,
        {
            k = k + 1;
        }
        if k == bytes.len() {
            return Err(StrError::Incomplete);
        }
        proof {
            assert(is_first_nul(bytes@, k as int));
            assert(is_first_nul(bytes@, first_nul(bytes@)));
            assert(first_nul(bytes@) == k);
        }
        let text = vstd::slice::slice_to_vec(vstd::slice::slice_subrange(bytes, 0, k));
        assert(text@ =~= bytes@.take(k as int));
        match string_from_utf8(text) {
            None => Err(StrError::InvalidUtf8),
            Some(s) => {
                let mut scratch: Vec<u8> = vec![0u8; k + 1];
                let _ = self.copy_to_slice(scratch.as_mut_slice());
                Ok(s)
            },
        }
    }
}

} // verus!
