//! Definition of byte serialization trait and its implementations for standard types.
//!
//! Integers are serialized little-endian (`usize` and `isize` in 8 bytes), a `bool` as one
//! byte, `()` as no bytes, and a one-element tuple as its element.
use vstd::prelude::*;
use vstd::bytes::{
    spec_u16_from_le_bytes, spec_u16_to_le_bytes, spec_u32_from_le_bytes, spec_u32_to_le_bytes,
    spec_u64_from_le_bytes, spec_u64_to_le_bytes, u16_from_le_bytes, u16_to_le_bytes,
    u32_from_le_bytes, u32_to_le_bytes, u64_from_le_bytes, u64_to_le_bytes,
    lemma_auto_spec_u16_to_from_le_bytes, lemma_auto_spec_u32_to_from_le_bytes,
    lemma_auto_spec_u64_to_from_le_bytes, spec_u128_to_le_bytes, u128_from_le_bytes,
    u128_to_le_bytes, lemma_auto_spec_u128_to_from_le_bytes,
};
use vstd::slice::slice_subrange;

use crate::packet::copy_into;

verus! {

/// An error occurring during byte-serialization.
#[derive(Debug, Clone, Copy, PartialEq, Eq, Structural)]
pub enum SerializationError {
    /// Serialization would cause a buffer-overflow.
    BufferOverflow,
    /// Encountered an unexpected (uninterpretable) value during serialization.
    UnexpectedValue,
}

/// A trait for objects that can be written to or read from a byte-stream.
///
/// `to_bytes` writes exactly the bytes of `spec_bytes`, `byte_count` is their number, and
/// `from_bytes` reads back any value from its bytes followed by anything.
pub trait ByteSerialize: Sized {
    /// The serialization of the object.
    spec fn spec_bytes(&self) -> Seq<u8>;

    /// Size of the serialization of the object in bytes.
    fn byte_count(&self) -> (r: usize)
        ensures
            r == self.spec_bytes().len(),
    ;

    /// Serialize self to the beginning of a byte-stream.
    fn to_bytes(&self, bytes: &mut [u8])
        requires
            old(bytes)@.len() >= self.spec_bytes().len(),
        ensures
            final(bytes)@ == self.spec_bytes() + old(bytes)@.skip(self.spec_bytes().len() as int),
    ;

    /// Construct Self from a byte-stream, with the number of bytes read.
    fn from_bytes(bytes: &[u8]) -> (r: Result<(Self, usize), SerializationError>)
        ensures
            r matches Ok((v, n)) ==> n == v.spec_bytes().len() && n <= bytes@.len(),
            forall|v: Self|
                #![trigger v.spec_bytes()]
                v.spec_bytes().len() <= bytes@.len() && bytes@.take(v.spec_bytes().len() as int)
                    == v.spec_bytes() ==> r == Ok::<(Self, usize), SerializationError>(
                    (v, v.spec_bytes().len() as usize),
                ),
    ;
}

/// Append the bytes of `src` to `dst`.
pub fn append_bytes(dst: &mut Vec<u8>, src: &[u8])
    ensures
        final(dst)@ == old(dst)@ + src@,
{
    let mut i: usize = 0;
    while i < src.len()
        invariant
            i <= src@.len(),
            dst@ == old(dst)@ + src@.take(i as int),
        decreases src@.len() - i,
    {
        dst.push(src[i]);
        i = i + 1;
        assert(dst@ =~= old(dst)@ + src@.take(i as int));
    }
    assert(src@.take(i as int) =~= src@);
}

impl ByteSerialize for u8 {
    open spec fn spec_bytes(&self) -> Seq<u8> {
        seq![*self]
    }

    fn byte_count(&self) -> (r: usize) {
        1
    }

    fn to_bytes(&self, bytes: &mut [u8]) {
        bytes[0] = *self;
        assert(bytes@ =~= self.spec_bytes() + old(bytes)@.skip(1));
    }

    fn from_bytes(bytes: &[u8]) -> (r: Result<(Self, usize), SerializationError>) {
        if bytes.len() < 1 {
            Err(SerializationError::BufferOverflow)
        } else {
            let r = Ok((bytes[0], 1usize));
            assert forall|v: u8|
                #![trigger v.spec_bytes()]
                v.spec_bytes().len() <= bytes@.len() && bytes@.take(v.spec_bytes().len() as int)
                    == v.spec_bytes() implies r == Ok::<(u8, usize), SerializationError>(
                (v, v.spec_bytes().len() as usize),
            ) by {
                assert(bytes@.take(1)[0] == bytes@[0]);
            }
            r
        }
    }
}

impl ByteSerialize for bool {
    open spec fn spec_bytes(&self) -> Seq<u8> {
        seq![if *self { 1u8 } else { 0u8 }]
    }

    fn byte_count(&self) -> (r: usize) {
        1
    }

    fn to_bytes(&self, bytes: &mut [u8]) {
        bytes[0] = if *self { 1 } else { 0 };
        assert(bytes@ =~= self.spec_bytes() + old(bytes)@.skip(1));
    }

    fn from_bytes(bytes: &[u8]) -> (r: Result<(Self, usize), SerializationError>) {
        if bytes.len() < 1 {
            Err(SerializationError::BufferOverflow)
        } else {
            let r = Ok((bytes[0] != 0, 1usize));
            assert forall|v: bool|
                #![trigger v.spec_bytes()]
                v.spec_bytes().len() <= bytes@.len() && bytes@.take(v.spec_bytes().len() as int)
                    == v.spec_bytes() implies r == Ok::<(bool, usize), SerializationError>(
                (v, v.spec_bytes().len() as usize),
            ) by {
                assert(bytes@.take(1)[0] == bytes@[0]);
            }
            r
        }
    }
}

impl ByteSerialize for u16 {
    open spec fn spec_bytes(&self) -> Seq<u8> {
        spec_u16_to_le_bytes(*self)
    }

    fn byte_count(&self) -> (r: usize) {
        proof {
            lemma_auto_spec_u16_to_from_le_bytes();
        }
        2
    }

    fn to_bytes(&self, bytes: &mut [u8]) {
        proof {
            lemma_auto_spec_u16_to_from_le_bytes();
        }
        let v = u16_to_le_bytes(*self);
        copy_into(bytes, 0, v.as_slice());
        assert(bytes@ =~= self.spec_bytes() + old(bytes)@.skip(2));
    }

    fn from_bytes(bytes: &[u8]) -> (r: Result<(Self, usize), SerializationError>) {
        proof {
            lemma_auto_spec_u16_to_from_le_bytes();
        }
        if bytes.len() < 2 {
            Err(SerializationError::BufferOverflow)
        } else {
            let head = slice_subrange(bytes, 0, 2);
            let r = Ok((u16_from_le_bytes(head), 2usize));
            assert(head@ =~= bytes@.take(2));
            r
        }
    }
}

impl ByteSerialize for u32 {
    open spec fn spec_bytes(&self) -> Seq<u8> {
        spec_u32_to_le_bytes(*self)
    }

    fn byte_count(&self) -> (r: usize) {
        proof {
            lemma_auto_spec_u32_to_from_le_bytes();
        }
        4
    }

    fn to_bytes(&self, bytes: &mut [u8]) {
        proof {
            lemma_auto_spec_u32_to_from_le_bytes();
        }
        let v = u32_to_le_bytes(*self);
        copy_into(bytes, 0, v.as_slice());
        assert(bytes@ =~= self.spec_bytes() + old(bytes)@.skip(4));
    }

    fn from_bytes(bytes: &[u8]) -> (r: Result<(Self, usize), SerializationError>) {
        proof {
            lemma_auto_spec_u32_to_from_le_bytes();
        }
        if bytes.len() < 4 {
            Err(SerializationError::BufferOverflow)
        } else {
            let head = slice_subrange(bytes, 0, 4);
            let r = Ok((u32_from_le_bytes(head), 4usize));
            assert(head@ =~= bytes@.take(4));
            r
        }
    }
}

impl ByteSerialize for u64 {
    open spec fn spec_bytes(&self) -> Seq<u8> {
        spec_u64_to_le_bytes(*self)
    }

    fn byte_count(&self) -> (r: usize) {
        proof {
            lemma_auto_spec_u64_to_from_le_bytes();
        }
        8
    }

    fn to_bytes(&self, bytes: &mut [u8]) {
        proof {
            lemma_auto_spec_u64_to_from_le_bytes();
        }
        let v = u64_to_le_bytes(*self);
        copy_into(bytes, 0, v.as_slice());
        assert(bytes@ =~= self.spec_bytes() + old(bytes)@.skip(8));
    }

    fn from_bytes(bytes: &[u8]) -> (r: Result<(Self, usize), SerializationError>) {
        proof {
            lemma_auto_spec_u64_to_from_le_bytes();
        }
        if bytes.len() < 8 {
            Err(SerializationError::BufferOverflow)
        } else {
            let head = slice_subrange(bytes, 0, 8);
            let r = Ok((u64_from_le_bytes(head), 8usize));
            assert(head@ =~= bytes@.take(8));
            r
        }
    }
}

impl ByteSerialize for i16 {
    open spec fn spec_bytes(&self) -> Seq<u8> {
        spec_u16_to_le_bytes(*self as u16)
    }

    fn byte_count(&self) -> (r: usize) {
        proof {
            lemma_auto_spec_u16_to_from_le_bytes();
        }
        2
    }

    fn to_bytes(&self, bytes: &mut [u8]) {
        proof {
            lemma_auto_spec_u16_to_from_le_bytes();
        }
        let v = u16_to_le_bytes(*self as u16);
        copy_into(bytes, 0, v.as_slice());
        assert(bytes@ =~= self.spec_bytes() + old(bytes)@.skip(2));
    }

    fn from_bytes(bytes: &[u8]) -> (r: Result<(Self, usize), SerializationError>) {
        proof {
            lemma_auto_spec_u16_to_from_le_bytes();
        }
        if bytes.len() < 2 {
            Err(SerializationError::BufferOverflow)
        } else {
            let head = slice_subrange(bytes, 0, 2);
            let value = u16_from_le_bytes(head);
            let r = Ok((value as i16, 2usize));
            assert(head@ =~= bytes@.take(2));
            assert forall|v: i16|
                #![trigger v.spec_bytes()]
                v.spec_bytes().len() <= bytes@.len() && bytes@.take(v.spec_bytes().len() as int)
                    == v.spec_bytes() implies r == Ok::<(i16, usize), SerializationError>(
                (v, v.spec_bytes().len() as usize),
            ) by {
                assert(value == (v as u16));
                assert(((v as u16) as i16) == v) by (bit_vector);
            }
            r
        }
    }
}

impl ByteSerialize for i32 {
    open spec fn spec_bytes(&self) -> Seq<u8> {
        spec_u32_to_le_bytes(*self as u32)
    }

    fn byte_count(&self) -> (r: usize) {
        proof {
            lemma_auto_spec_u32_to_from_le_bytes();
        }
        4
    }

    fn to_bytes(&self, bytes: &mut [u8]) {
        proof {
            lemma_auto_spec_u32_to_from_le_bytes();
        }
        let v = u32_to_le_bytes(*self as u32);
        copy_into(bytes, 0, v.as_slice());
        assert(bytes@ =~= self.spec_bytes() + old(bytes)@.skip(4));
    }

    fn from_bytes(bytes: &[u8]) -> (r: Result<(Self, usize), SerializationError>) {
        proof {
            lemma_auto_spec_u32_to_from_le_bytes();
        }
        if bytes.len() < 4 {
            Err(SerializationError::BufferOverflow)
        } else {
            let head = slice_subrange(bytes, 0, 4);
            let value = u32_from_le_bytes(head);
            let r = Ok((value as i32, 4usize));
            assert(head@ =~= bytes@.take(4));
            assert forall|v: i32|
                #![trigger v.spec_bytes()]
                v.spec_bytes().len() <= bytes@.len() && bytes@.take(v.spec_bytes().len() as int)
                    == v.spec_bytes() implies r == Ok::<(i32, usize), SerializationError>(
                (v, v.spec_bytes().len() as usize),
            ) by {
                assert(value == (v as u32));
                assert(((v as u32) as i32) == v) by (bit_vector);
            }
            r
        }
    }
}

impl ByteSerialize for i64 {
    open spec fn spec_bytes(&self) -> Seq<u8> {
        spec_u64_to_le_bytes(*self as u64)
    }

    fn byte_count(&self) -> (r: usize) {
        proof {
            lemma_auto_spec_u64_to_from_le_bytes();
        }
        8
    }

    fn to_bytes(&self, bytes: &mut [u8]) {
        proof {
            lemma_auto_spec_u64_to_from_le_bytes();
        }
        let v = u64_to_le_bytes(*self as u64);
        copy_into(bytes, 0, v.as_slice());
        assert(bytes@ =~= self.spec_bytes() + old(bytes)@.skip(8));
    }

    fn from_bytes(bytes: &[u8]) -> (r: Result<(Self, usize), SerializationError>) {
        proof {
            lemma_auto_spec_u64_to_from_le_bytes();
        }
        if bytes.len() < 8 {
            Err(SerializationError::BufferOverflow)
        } else {
            let head = slice_subrange(bytes, 0, 8);
            let value = u64_from_le_bytes(head);
            let r = Ok((value as i64, 8usize));
            assert(head@ =~= bytes@.take(8));
            assert forall|v: i64|
                #![trigger v.spec_bytes()]
                v.spec_bytes().len() <= bytes@.len() && bytes@.take(v.spec_bytes().len() as int)
                    == v.spec_bytes() implies r == Ok::<(i64, usize), SerializationError>(
                (v, v.spec_bytes().len() as usize),
            ) by {
                assert(value == (v as u64));
                assert(((v as u64) as i64) == v) by (bit_vector);
            }
            r
        }
    }
}

impl ByteSerialize for i8 {
    open spec fn spec_bytes(&self) -> Seq<u8> {
        seq![*self as u8]
    }

    fn byte_count(&self) -> (r: usize) {
        1
    }

    fn to_bytes(&self, bytes: &mut [u8]) {
        bytes[0] = *self as u8;
        assert(bytes@ =~= self.spec_bytes() + old(bytes)@.skip(1));
    }

    fn from_bytes(bytes: &[u8]) -> (r: Result<(Self, usize), SerializationError>) {
        if bytes.len() < 1 {
            Err(SerializationError::BufferOverflow)
        } else {
            let r = Ok((bytes[0] as i8, 1usize));
            assert forall|v: i8|
                #![trigger v.spec_bytes()]
                v.spec_bytes().len() <= bytes@.len() && bytes@.take(v.spec_bytes().len() as int)
                    == v.spec_bytes() implies r == Ok::<(i8, usize), SerializationError>(
                (v, v.spec_bytes().len() as usize),
            ) by {
                assert(bytes@.take(1)[0] == bytes@[0]);
                assert(((v as u8) as i8) == v) by (bit_vector);
            }
            r
        }
    }
}

impl<A: ByteSerialize> ByteSerialize for (A,) {
    open spec fn spec_bytes(&self) -> Seq<u8> {
        self.0.spec_bytes()
    }

    fn byte_count(&self) -> (r: usize) {
        self.0.byte_count()
    }

    fn to_bytes(&self, bytes: &mut [u8]) {
        self.0.to_bytes(bytes);
    }

    fn from_bytes(bytes: &[u8]) -> (r: Result<(Self, usize), SerializationError>) {
        match A::from_bytes(bytes) {
            Ok((a, n)) => Ok(((a,), n)),
            Err(e) => Err(e),
        }
    }
}

impl ByteSerialize for usize {
    open spec fn spec_bytes(&self) -> Seq<u8> {
        spec_u64_to_le_bytes(*self as u64)
    }

    fn byte_count(&self) -> (r: usize) {
        proof {
            lemma_auto_spec_u64_to_from_le_bytes();
        }
        8
    }

    fn to_bytes(&self, bytes: &mut [u8]) {
        proof {
            lemma_auto_spec_u64_to_from_le_bytes();
        }
        let v = u64_to_le_bytes(*self as u64);
        copy_into(bytes, 0, v.as_slice());
        assert(bytes@ =~= self.spec_bytes() + old(bytes)@.skip(8));
    }

    fn from_bytes(bytes: &[u8]) -> (r: Result<(Self, usize), SerializationError>) {
        proof {
            lemma_auto_spec_u64_to_from_le_bytes();
        }
        if bytes.len() < 8 {
            Err(SerializationError::BufferOverflow)
        } else {
            let head = slice_subrange(bytes, 0, 8);
            let value = u64_from_le_bytes(head);
            let r = Ok((value as usize, 8usize));
            assert(head@ =~= bytes@.take(8));
            assert forall|v: usize|
                #![trigger v.spec_bytes()]
                v.spec_bytes().len() <= bytes@.len() && bytes@.take(v.spec_bytes().len() as int)
                    == v.spec_bytes() implies r == Ok::<(usize, usize), SerializationError>(
                (v, v.spec_bytes().len() as usize),
            ) by {
                assert(value == (v as u64));
            }
            r
        }
    }
}

impl ByteSerialize for isize {
    open spec fn spec_bytes(&self) -> Seq<u8> {
        spec_u64_to_le_bytes((*self as i64) as u64)
    }

    fn byte_count(&self) -> (r: usize) {
        proof {
            lemma_auto_spec_u64_to_from_le_bytes();
        }
        8
    }

    fn to_bytes(&self, bytes: &mut [u8]) {
        proof {
            lemma_auto_spec_u64_to_from_le_bytes();
        }
        let v = u64_to_le_bytes((*self as i64) as u64);
        copy_into(bytes, 0, v.as_slice());
        assert(bytes@ =~= self.spec_bytes() + old(bytes)@.skip(8));
    }

    fn from_bytes(bytes: &[u8]) -> (r: Result<(Self, usize), SerializationError>) {
        proof {
            lemma_auto_spec_u64_to_from_le_bytes();
        }
        if bytes.len() < 8 {
            Err(SerializationError::BufferOverflow)
        } else {
            let head = slice_subrange(bytes, 0, 8);
            let value = u64_from_le_bytes(head);
            let r = Ok(((value as i64) as isize, 8usize));
            assert(head@ =~= bytes@.take(8));
            assert forall|v: isize|
                #![trigger v.spec_bytes()]
                v.spec_bytes().len() <= bytes@.len() && bytes@.take(v.spec_bytes().len() as int)
                    == v.spec_bytes() implies r == Ok::<(isize, usize), SerializationError>(
                (v, v.spec_bytes().len() as usize),
            ) by {
                assert(value == ((v as i64) as u64));
                let w = v as i64;
                assert(((w as u64) as i64) == w) by (bit_vector);
            }
            r
        }
    }
}

impl ByteSerialize for u128 {
    open spec fn spec_bytes(&self) -> Seq<u8> {
        spec_u128_to_le_bytes(*self)
    }

    fn byte_count(&self) -> (r: usize) {
        proof {
            lemma_auto_spec_u128_to_from_le_bytes();
        }
        16
    }

    fn to_bytes(&self, bytes: &mut [u8]) {
        proof {
            lemma_auto_spec_u128_to_from_le_bytes();
        }
        let v = u128_to_le_bytes(*self);
        copy_into(bytes, 0, v.as_slice());
        assert(bytes@ =~= self.spec_bytes() + old(bytes)@.skip(16));
    }

    fn from_bytes(bytes: &[u8]) -> (r: Result<(Self, usize), SerializationError>) {
        proof {
            lemma_auto_spec_u128_to_from_le_bytes();
        }
        if bytes.len() < 16 {
            Err(SerializationError::BufferOverflow)
        } else {
            let head = slice_subrange(bytes, 0, 16);
            let value = u128_from_le_bytes(head);
            let r = Ok((value, 16usize));
            assert(head@ =~= bytes@.take(16));
            assert forall|v: u128|
                #![trigger v.spec_bytes()]
                v.spec_bytes().len() <= bytes@.len() && bytes@.take(v.spec_bytes().len() as int)
                    == v.spec_bytes() implies r == Ok::<(u128, usize), SerializationError>(
                (v, v.spec_bytes().len() as usize),
            ) by {
                assert(value == v);
            }
            r
        }
    }
}

impl ByteSerialize for i128 {
    open spec fn spec_bytes(&self) -> Seq<u8> {
        spec_u128_to_le_bytes(*self as u128)
    }

    fn byte_count(&self) -> (r: usize) {
        proof {
            lemma_auto_spec_u128_to_from_le_bytes();
        }
        16
    }

    fn to_bytes(&self, bytes: &mut [u8]) {
        proof {
            lemma_auto_spec_u128_to_from_le_bytes();
        }
        let v = u128_to_le_bytes(*self as u128);
        copy_into(bytes, 0, v.as_slice());
        assert(bytes@ =~= self.spec_bytes() + old(bytes)@.skip(16));
    }

    fn from_bytes(bytes: &[u8]) -> (r: Result<(Self, usize), SerializationError>) {
        proof {
            lemma_auto_spec_u128_to_from_le_bytes();
        }
        if bytes.len() < 16 {
            Err(SerializationError::BufferOverflow)
        } else {
            let head = slice_subrange(bytes, 0, 16);
            let value = u128_from_le_bytes(head);
            let r = Ok((value as i128, 16usize));
            assert(head@ =~= bytes@.take(16));
            assert forall|v: i128|
                #![trigger v.spec_bytes()]
                v.spec_bytes().len() <= bytes@.len() && bytes@.take(v.spec_bytes().len() as int)
                    == v.spec_bytes() implies r == Ok::<(i128, usize), SerializationError>(
                (v, v.spec_bytes().len() as usize),
            ) by {
                assert(value == (v as u128));
                assert(((v as u128) as i128) == v) by (bit_vector);
            }
            r
        }
    }
}

impl ByteSerialize for () {
    open spec fn spec_bytes(&self) -> Seq<u8> {
        Seq::empty()
    }

    fn byte_count(&self) -> (r: usize) {
        0
    }

    fn to_bytes(&self, bytes: &mut [u8]) {
        assert(bytes@ =~= self.spec_bytes() + old(bytes)@.skip(0));
    }

    fn from_bytes(bytes: &[u8]) -> (r: Result<(Self, usize), SerializationError>) {
        Ok(((), 0))
    }
}

} // verus!
