use vstd::bytes::*;
use vstd::prelude::*;
use vstd::string::*;
use vstd::utf8::*;

use crate::bytes::{
    bytes_equal, lemma_usize_bytes, lemma_utf8_injective, push_slice, push_usize, read_usize,
    string_from_utf8, try_string_from_utf8, usize_bytes,
};

verus! {

broadcast use encode_utf8_decode_utf8, encode_utf8_valid_utf8;

/// A block of a file: the file's name and the block's position in it.
#[derive(Debug, Clone, PartialEq, Eq, Hash)]
pub struct BlockId {
    pub file_name: String,
    pub block_slot: usize,
}

/// The model of a block id: the characters of the file name, and the slot.
pub type BlockIdView = (Seq<char>, usize);

impl View for BlockId {
    type V = BlockIdView;

    open spec fn view(&self) -> BlockIdView {
        (self.file_name@, self.block_slot)
    }
}

/// The serialized form of a block id: its total length, its slot, then the
/// UTF-8 bytes of its file name.
pub open spec fn block_id_bytes(b: BlockIdView) -> Seq<u8> {
    usize_bytes((16 + encode_utf8(b.0).len()) as usize) + usize_bytes(b.1) + encode_utf8(b.0)
}

/// A block id whose serialized form fits the machine's `usize`.
pub open spec fn block_id_fits(b: BlockIdView) -> bool {
    16 + encode_utf8(b.0).len() <= usize::MAX
}

/// Bytes that start with a serialized block id.
pub open spec fn starts_with_block_id(bytes: Seq<u8>) -> bool {
    exists|b: BlockIdView, rest: Seq<u8>| block_id_fits(b) && bytes == block_id_bytes(b) + rest
}

impl BlockId {
    /// The block `block_slot` of the file `file_name`.
    pub fn new(file_name: &str, block_slot: usize) -> (b: Self)
        ensures
            b@ == (file_name@, block_slot),
    {
        BlockId { file_name: file_name.to_owned(), block_slot }
    }

    /// Whether the two ids name the same block of the same file.
    pub fn same_block(&self, other: &BlockId) -> (r: bool)
        ensures
            r == (self@ == other@),
    {
        self.block_slot == other.block_slot && crate::bytes::str_eq(
            self.file_name.as_str(),
            other.file_name.as_str(),
        )
    }

    /// A copy of this block id.
    pub fn duplicate(&self) -> (b: Self)
        ensures
            b@ == self@,
    {
        BlockId { file_name: self.file_name.clone(), block_slot: self.block_slot }
    }

    /// The block just before this one in the same file, if there is one.
    pub fn get_previous_block(&self) -> (r: Option<Self>)
        ensures
            match r {
                Some(p) => self.block_slot > 0 && p@ == (self@.0, (self.block_slot - 1) as usize),
                None => self.block_slot == 0,
            },
    {
        if self.block_slot == 0 {
            None
        } else {
            Some(BlockId { file_name: self.file_name.clone(), block_slot: self.block_slot - 1 })
        }
    }

    /// Serializes the block id: total length, slot, file name bytes.
    pub fn to_bytes(&self) -> (bytes: Vec<u8>)
        requires
            block_id_fits(self@),
        ensures
            bytes@ == block_id_bytes(self@),
    {
        let name = self.file_name.as_str().as_bytes();
        let total_length = 8 + 8 + name.len();
        let mut bytes: Vec<u8> = Vec::new();
        push_usize(&mut bytes, total_length);
        push_usize(&mut bytes, self.block_slot);
        push_slice(&mut bytes, name);
        assert(bytes@ =~= block_id_bytes(self@));
        bytes
    }

    /// Reads a serialized block id from the front of `bytes`; returns the number
    /// of bytes it took, and the block id.
    pub fn from_bytes(bytes: &[u8]) -> (r: (usize, Self))
        requires
            starts_with_block_id(bytes@),
        ensures
            forall|b: BlockIdView, rest: Seq<u8>|
                block_id_fits(b) && bytes@ == block_id_bytes(b) + rest ==> {
                    &&& r.1@ == b
                    &&& r.0 == block_id_bytes(b).len()
                },
    {
        let ghost b = choose|b: BlockIdView, rest: Seq<u8>|
            block_id_fits(b) && bytes@ == block_id_bytes(b) + rest;
        proof {
            lemma_usize_bytes((16 + encode_utf8(b.0.0).len()) as usize);
            lemma_usize_bytes(b.0.1);
            assert(bytes@.subrange(0, 8) =~= usize_bytes((16 + encode_utf8(b.0.0).len()) as usize));
            assert(bytes@.subrange(8, 16) =~= usize_bytes(b.0.1));
        }
        let total_length = read_usize(bytes, 0);
        let block_slot = read_usize(bytes, 8);
        let name_bytes = vstd::slice::slice_subrange(bytes, 16, total_length);
        assert(name_bytes@ =~= encode_utf8(b.0.0));
        let file_name = string_from_utf8(name_bytes);
        proof {
            lemma_utf8_injective(file_name@, b.0.0);
            assert forall|b2: BlockIdView, rest2: Seq<u8>|
                block_id_fits(b2) && bytes@ == block_id_bytes(b2) + rest2 implies b2 == b.0 by {
                lemma_block_id_bytes_unique(b2, rest2, b.0, b.1);
            }
        }
        (total_length, BlockId { file_name, block_slot })
    }
}

impl BlockId {
    /// Reads a serialized block id from the front of `bytes`, if they start
    /// with one: the number of bytes it takes, and the block id.
    pub fn try_from_bytes(bytes: &[u8]) -> (r: Option<(usize, Self)>)
        ensures
            match r {
                Some((n, b)) => {
                    &&& block_id_fits(b@)
                    &&& n == block_id_bytes(b@).len() <= bytes@.len()
                    &&& bytes@.subrange(0, n as int) == block_id_bytes(b@)
                },
                None => !starts_with_block_id(bytes@),
            },
    {
        let len = bytes.len();
        let ghost w = choose|b: BlockIdView, rest: Seq<u8>|
            block_id_fits(b) && bytes@ == block_id_bytes(b) + rest;
        proof {
            if starts_with_block_id(bytes@) {
                lemma_usize_bytes((16 + encode_utf8(w.0.0).len()) as usize);
                lemma_usize_bytes(w.0.1);
            }
        }
        if len < 16 {
            return None;
        }
        let total = read_usize(bytes, 0);
        let slot = read_usize(bytes, 8);
        proof {
            if starts_with_block_id(bytes@) {
                assert(bytes@.subrange(0, 8) =~= usize_bytes((16 + encode_utf8(w.0.0).len()) as usize));
                assert(bytes@.subrange(8, 16) =~= usize_bytes(w.0.1));
            }
        }
        if total < 16 || total > len {
            return None;
        }
        let name = vstd::slice::slice_subrange(bytes, 16, total);
        proof {
            if starts_with_block_id(bytes@) {
                assert(name@ =~= encode_utf8(w.0.0));
            }
        }
        match try_string_from_utf8(name) {
            None => None,
            Some(file_name) => {
                let b = BlockId { file_name, block_slot: slot };
                proof {
                    if starts_with_block_id(bytes@) {
                        lemma_utf8_injective(b.file_name@, w.0.0);
                        assert(b@ == w.0);
                        assert(bytes@.subrange(0, block_id_bytes(w.0).len() as int) =~= block_id_bytes(w.0));
                    }
                }
                let encoded = b.to_bytes();
                let n = encoded.len();
                if n > len {
                    return None;
                }
                let prefix = vstd::slice::slice_subrange(bytes, 0, n);
                if bytes_equal(encoded.as_slice(), prefix) {
                    Some((n, b))
                } else {
                    None
                }
            },
        }
    }
}

/// A byte string starts with at most one serialized block id.
pub proof fn lemma_block_id_bytes_unique(
    b1: BlockIdView,
    rest1: Seq<u8>,
    b2: BlockIdView,
    rest2: Seq<u8>,
)
    requires
        block_id_fits(b1),
        block_id_fits(b2),
        block_id_bytes(b1) + rest1 == block_id_bytes(b2) + rest2,
    ensures
        b1 == b2,
{
    let s = block_id_bytes(b1) + rest1;
    lemma_usize_bytes((16 + encode_utf8(b1.0).len()) as usize);
    lemma_usize_bytes((16 + encode_utf8(b2.0).len()) as usize);
    lemma_usize_bytes(b1.1);
    lemma_usize_bytes(b2.1);
    assert(s.subrange(0, 8) =~= usize_bytes((16 + encode_utf8(b1.0).len()) as usize));
    assert(s.subrange(0, 8) =~= usize_bytes((16 + encode_utf8(b2.0).len()) as usize));
    assert(s.subrange(8, 16) =~= usize_bytes(b1.1));
    assert(s.subrange(8, 16) =~= usize_bytes(b2.1));
    let n: int = encode_utf8(b1.0).len() as int;
    assert(encode_utf8(b2.0).len() == n);
    assert(s.subrange(16, 16 + n) =~= encode_utf8(b1.0));
    assert(s.subrange(16, 16 + n) =~= encode_utf8(b2.0));
    lemma_utf8_injective(b1.0, b2.0);
}

/// Where a block starts in its file: its number times the block size.
pub fn block_position(block: &BlockId, block_size: usize) -> (r: Option<u64>)
    ensures
        match r {
            Some(p) => p == block.block_slot * block_size,
            None => block.block_slot * block_size > u64::MAX,
        },
{
    let slot = block.block_slot as u64;
    let size = block_size as u64;
    slot.checked_mul(size)
}

/// The number of whole blocks in a file of `file_len` bytes.
pub fn num_blocks_in(file_len: u64, block_size: usize) -> (r: usize)
    requires
        block_size > 0,
    ensures
        r == (file_len as usize) / block_size,
{
    (file_len as usize) / block_size
}

/// The last block of a file of `num_blocks` blocks.
pub fn last_block(file_name: &str, num_blocks: usize) -> (r: BlockId)
    requires
        num_blocks > 0,
    ensures
        r@ == (file_name@, (num_blocks - 1) as usize),
{
    BlockId::new(file_name, num_blocks - 1)
}

} // verus!
