use vstd::bytes::*;
use vstd::prelude::*;
use vstd::string::*;
use vstd::utf8::*;

use crate::bytes::utf8_str;

verus! {

/// The bytes of `base` after `bytes` has been written at `offset`.
pub open spec fn spliced(base: Seq<u8>, offset: int, bytes: Seq<u8>) -> Seq<u8> {
    Seq::new(
        base.len(),
        |j: int|
            if offset <= j < offset + bytes.len() {
                bytes[j - offset]
            } else {
                base[j]
            },
    )
}

/// The little-endian `i32` stored at `offset`.
pub open spec fn i32_at(bytes: Seq<u8>, offset: int) -> i32 {
    spec_u32_from_le_bytes(bytes.subrange(offset, offset + 4)) as i32
}

/// The little-endian encoding of an `i32`.
pub open spec fn i32_bytes(value: i32) -> Seq<u8> {
    spec_u32_to_le_bytes(value as u32)
}

/// The length prefix (two little-endian bytes) stored at `offset`.
pub open spec fn length_at(bytes: Seq<u8>, offset: int) -> int {
    spec_u16_from_le_bytes(bytes.subrange(offset, offset + 2)) as int
}

/// The length-prefixed encoding of a byte string: two bytes of length, then the bytes.
pub open spec fn prefixed(bytes: Seq<u8>) -> Seq<u8> {
    spec_u16_to_le_bytes(bytes.len() as u16) + bytes
}

/// The byte string whose length prefix starts at `offset`.
pub open spec fn bytes_at(bytes: Seq<u8>, offset: int) -> Seq<u8> {
    bytes.subrange(offset + 2, offset + 2 + length_at(bytes, offset))
}

/// A fixed-size block of bytes that holds integers and length-prefixed byte strings.
pub struct Page {
    byte_buffer: Vec<u8>,
}

impl View for Page {
    type V = Seq<u8>;

    closed spec fn view(&self) -> Seq<u8> {
        self.byte_buffer@
    }
}

impl Page {
    /// A page of `block_size` zero bytes.
    pub fn new(block_size: usize) -> (page: Self)
        ensures
            page@ == Seq::new(block_size as nat, |i: int| 0u8),
    {
        Page { byte_buffer: vec![0u8; block_size] }
    }

    /// Builds a page that holds exactly the given bytes.
    pub fn from_contents(contents: Vec<u8>) -> (page: Self)
        ensures
            page@ == contents@,
    {
        Page { byte_buffer: contents }
    }

    /// The bytes of the page.
    pub fn contents(&self) -> (r: &[u8])
        ensures
            r@ == self@,
    {
        self.byte_buffer.as_slice()
    }

    /// The number of bytes in the page.
    pub fn len(&self) -> (r: usize)
        ensures
            r == self@.len(),
    {
        self.byte_buffer.len()
    }

    pub(crate) fn write_bytes(&mut self, offset: usize, bytes: &[u8])
        requires
            offset + bytes@.len() <= old(self)@.len(),
        ensures
            final(self)@ == spliced(old(self)@, offset as int, bytes@),
    {
        let n = bytes.len();
        let total = self.byte_buffer.len();
        let mut i: usize = 0;
        while i < n
            invariant
                i <= n,
                n == bytes@.len(),
                offset + n <= old(self)@.len(),
                total == old(self)@.len(),
                self.byte_buffer@.len() == old(self)@.len(),
                forall|j: int|
                    0 <= j < self.byte_buffer@.len() ==> #[trigger] self.byte_buffer@[j] == if offset
                        <= j < offset + i {
                        bytes@[j - offset]
                    } else {
                        old(self)@[j]
                    },
            decreases n - i,
        {
            self.byte_buffer.set(offset + i, bytes[i]);
            i = i + 1;
        }
        assert(self.byte_buffer@ =~= spliced(old(self)@, offset as int, bytes@));
    }

    /// Stores `value` in four little-endian bytes at `offset`.
    pub fn set_i32(&mut self, offset: usize, value: i32)
        requires
            offset + 4 <= old(self)@.len(),
        ensures
            final(self)@ == spliced(old(self)@, offset as int, i32_bytes(value)),
    {
        let bytes = u32_to_le_bytes(value as u32);
        self.write_bytes(offset, bytes.as_slice());
    }

    /// Reads the little-endian `i32` at `offset`.
    pub fn get_i32(&self, offset: usize) -> (r: i32)
        requires
            offset + 4 <= self@.len(),
        ensures
            r == i32_at(self@, offset as int),
    {
        let _total = self.byte_buffer.len();
        let bytes = vstd::slice::slice_subrange(self.byte_buffer.as_slice(), offset, offset + 4);
        #[verifier::truncate]
        (u32_from_le_bytes(bytes) as i32)
    }

    /// Stores `bytes` after a two-byte length prefix at `offset`; returns the
    /// number of bytes written.
    pub fn set_bytes(&mut self, offset: usize, bytes: &[u8]) -> (written: usize)
        requires
            bytes@.len() < 0x10000,
            offset + 2 + bytes@.len() <= old(self)@.len(),
        ensures
            final(self)@ == spliced(old(self)@, offset as int, prefixed(bytes@)),
            written == bytes@.len() + 2,
    {
        let _total = self.byte_buffer.len();
        let length = u16_to_le_bytes(bytes.len() as u16);
        let ghost before = self@;
        self.write_bytes(offset, length.as_slice());
        let ghost middle = self@;
        self.write_bytes(offset + 2, bytes);
        proof {
            lemma_auto_spec_u16_to_from_le_bytes();
            assert(self@ =~= spliced(before, offset as int, prefixed(bytes@)));
        }
        bytes.len() + 2
    }

    /// Reads the length-prefixed byte string at `offset`; also returns the
    /// number of bytes it occupies, prefix included.
    pub fn get_bytes(&self, offset: usize) -> (r: (&[u8], usize))
        requires
            offset + 2 <= self@.len(),
            offset + 2 + length_at(self@, offset as int) <= self@.len(),
        ensures
            r.0@ == bytes_at(self@, offset as int),
            r.1 == length_at(self@, offset as int) + 2,
    {
        let _total = self.byte_buffer.len();
        let prefix = vstd::slice::slice_subrange(self.byte_buffer.as_slice(), offset, offset + 2);
        let length = u16_from_le_bytes(prefix) as usize;
        let bytes = vstd::slice::slice_subrange(
            self.byte_buffer.as_slice(),
            offset + 2,
            offset + 2 + length,
        );
        (bytes, length + 2)
    }

    /// Stores the UTF-8 bytes of `string` after a length prefix at `offset`.
    pub fn set_string(&mut self, offset: usize, string: &str) -> (written: usize)
        requires
            string.spec_bytes().len() < 0x10000,
            offset + 2 + string.spec_bytes().len() <= old(self)@.len(),
        ensures
            final(self)@ == spliced(old(self)@, offset as int, prefixed(string.spec_bytes())),
            written == string.spec_bytes().len() + 2,
    {
        self.set_bytes(offset, string.as_bytes())
    }

    /// Reads the string stored at `offset`; the stored bytes must be valid UTF-8.
    pub fn get_string(&self, offset: usize) -> (r: (&str, usize))
        requires
            offset + 2 <= self@.len(),
            offset + 2 + length_at(self@, offset as int) <= self@.len(),
            valid_utf8(bytes_at(self@, offset as int)),
        ensures
            r.0.spec_bytes() == bytes_at(self@, offset as int),
            r.1 == length_at(self@, offset as int) + 2,
    {
        let (bytes, length) = self.get_bytes(offset);
        match utf8_str(bytes) {
            Some(s) => (s, length),
            None => {
                proof {
                    assert(false);
                }
                ("", length)
            },
        }
    }

    /// The number of bytes that `bytes` occupies once stored with its length prefix.
    pub fn get_required_size(&self, bytes: &[u8]) -> (r: usize)
        requires
            bytes@.len() < 0x10000,
        ensures
            r == bytes@.len() + 2,
    {
        bytes.len() + 2
    }
}

/// Writing leaves every byte outside the written range as it was, and the
/// page as long as it was.
pub proof fn lemma_write_elsewhere(base: Seq<u8>, offset: int, bytes: Seq<u8>, j: int)
    requires
        0 <= j < base.len(),
        j < offset || offset + bytes.len() <= j,
    ensures
        spliced(base, offset, bytes)[j] == base[j],
        spliced(base, offset, bytes).len() == base.len(),
{
}

/// The written bytes are read back where they were written.
pub proof fn lemma_read_written(base: Seq<u8>, offset: int, bytes: Seq<u8>)
    requires
        0 <= offset,
        offset + bytes.len() <= base.len(),
    ensures
        spliced(base, offset, bytes).subrange(offset, offset + bytes.len()) == bytes,
{
    assert(spliced(base, offset, bytes).subrange(offset, offset + bytes.len()) =~= bytes);
}

/// An integer stored at an offset is read back from that offset.
pub proof fn lemma_i32_read_after_write(base: Seq<u8>, offset: int, value: i32)
    requires
        0 <= offset,
        offset + 4 <= base.len(),
    ensures
        i32_at(spliced(base, offset, i32_bytes(value)), offset) == value,
{
    lemma_auto_spec_u32_to_from_le_bytes();
    let u = value as u32;
    assert(i32_bytes(value).len() == 4);
    lemma_read_written(base, offset, i32_bytes(value));
    assert((u as i32) == value) by (bit_vector)
        requires
            u == value as u32,
    ;
}

/// Storing an integer leaves an integer stored in a disjoint range as it was.
pub proof fn lemma_i32_write_elsewhere(base: Seq<u8>, offset: int, value: i32, other: int)
    requires
        0 <= offset,
        offset + 4 <= base.len(),
        0 <= other,
        other + 4 <= base.len(),
        other + 4 <= offset || offset + 4 <= other,
    ensures
        i32_at(spliced(base, offset, i32_bytes(value)), other) == i32_at(base, other),
{
    lemma_auto_spec_u32_to_from_le_bytes();
    assert(i32_bytes(value).len() == 4);
    assert(spliced(base, offset, i32_bytes(value)).subrange(other, other + 4) =~= base.subrange(
        other,
        other + 4,
    ));
}

/// A byte string stored at an offset is read back, with its length, from that offset.
pub proof fn lemma_bytes_read_after_write(base: Seq<u8>, offset: int, bytes: Seq<u8>)
    requires
        0 <= offset,
        bytes.len() < 0x10000,
        offset + 2 + bytes.len() <= base.len(),
    ensures
        length_at(spliced(base, offset, prefixed(bytes)), offset) == bytes.len(),
        bytes_at(spliced(base, offset, prefixed(bytes)), offset) == bytes,
{
    lemma_auto_spec_u16_to_from_le_bytes();
    let n = bytes.len() as u16;
    assert(spec_u16_to_le_bytes(n).len() == 2);
    let p = spliced(base, offset, prefixed(bytes));
    assert(p.subrange(offset, offset + 2) =~= spec_u16_to_le_bytes(n));
    assert(length_at(p, offset) == n as int);
    assert(p.subrange(offset + 2, offset + 2 + bytes.len()) =~= bytes);
}

/// A string stored at an offset is read back from that offset: the bytes
/// found there are its encoding, which is valid UTF-8.
pub proof fn lemma_string_read_after_write(base: Seq<u8>, offset: int, s: Seq<char>)
    requires
        0 <= offset,
        encode_utf8(s).len() < 0x10000,
        offset + 2 + encode_utf8(s).len() <= base.len(),
    ensures
        bytes_at(spliced(base, offset, prefixed(encode_utf8(s))), offset) == encode_utf8(s),
        valid_utf8(bytes_at(spliced(base, offset, prefixed(encode_utf8(s))), offset)),
        decode_utf8(bytes_at(spliced(base, offset, prefixed(encode_utf8(s))), offset)) == s,
{
    lemma_bytes_read_after_write(base, offset, encode_utf8(s));
    encode_utf8_valid_utf8(s);
    encode_utf8_decode_utf8(s);
}

} // verus!
