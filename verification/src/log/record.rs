use vstd::bytes::*;
use vstd::prelude::*;
use vstd::string::*;
use vstd::utf8::*;

use crate::bytes::{
    bytes_equal, lemma_usize_bytes, lemma_utf8_injective, push_i32, push_slice, push_usize,
    read_i32, read_usize, string_from_utf8, try_string_from_utf8, usize_bytes, usize_of,
};
use crate::file::{block_id_bytes, block_id_fits, lemma_block_id_bytes_unique, BlockId, BlockIdView};

verus! {

broadcast use encode_utf8_decode_utf8, encode_utf8_valid_utf8;

/// One record of the write-ahead log.
#[derive(Debug, Clone, PartialEq, Eq)]
pub enum LogRecord {
    Start(usize),
    Commit(usize),
    Checkpoint(usize),
    Rollback(usize),
    /// Transaction, block, offset in the block, old value, new value.
    SetI32(usize, BlockId, usize, i32, i32),
    /// Transaction, block, offset in the block, old string, new string.
    SetString(usize, BlockId, usize, String, String),
}

/// The model of a log record.
pub enum LogRecordView {
    Start(usize),
    Commit(usize),
    Checkpoint(usize),
    Rollback(usize),
    SetI32(usize, BlockIdView, usize, i32, i32),
    SetString(usize, BlockIdView, usize, Seq<char>, Seq<char>),
}

impl View for LogRecord {
    type V = LogRecordView;

    open spec fn view(&self) -> LogRecordView {
        match self {
            LogRecord::Start(t) => LogRecordView::Start(*t),
            LogRecord::Commit(t) => LogRecordView::Commit(*t),
            LogRecord::Checkpoint(t) => LogRecordView::Checkpoint(*t),
            LogRecord::Rollback(t) => LogRecordView::Rollback(*t),
            LogRecord::SetI32(t, b, o, x, y) => LogRecordView::SetI32(*t, b@, *o, *x, *y),
            LogRecord::SetString(t, b, o, x, y) => LogRecordView::SetString(
                *t,
                b@,
                *o,
                x@,
                y@,
            ),
        }
    }
}

/// The four little-endian bytes of an `i32`.
pub open spec fn i32_le(x: i32) -> Seq<u8> {
    spec_u32_to_le_bytes(x as u32)
}

/// The `i32` held by four little-endian bytes.
pub open spec fn i32_of(bytes: Seq<u8>) -> i32 {
    spec_u32_from_le_bytes(bytes) as i32
}

/// The one-byte tag that opens each kind of record.
pub open spec fn tag_of(r: LogRecordView) -> u8 {
    match r {
        LogRecordView::Start(_) => 'S' as u8,
        LogRecordView::Commit(_) => 'C' as u8,
        LogRecordView::Checkpoint(_) => 'K' as u8,
        LogRecordView::Rollback(_) => 'R' as u8,
        LogRecordView::SetI32(..) => 'I' as u8,
        LogRecordView::SetString(..) => 'T' as u8,
    }
}

/// The transaction a record belongs to.
pub open spec fn transaction_of(r: LogRecordView) -> usize {
    match r {
        LogRecordView::Start(t) => t,
        LogRecordView::Commit(t) => t,
        LogRecordView::Checkpoint(t) => t,
        LogRecordView::Rollback(t) => t,
        LogRecordView::SetI32(t, _, _, _, _) => t,
        LogRecordView::SetString(t, _, _, _, _) => t,
    }
}

/// The serialized form of a record: its tag, its transaction, then the fields
/// of its kind (strings as a length and their UTF-8 bytes, the block last).
pub open spec fn record_bytes(r: LogRecordView) -> Seq<u8> {
    let head = seq![tag_of(r)] + usize_bytes(transaction_of(r));
    match r {
        LogRecordView::SetI32(_, b, o, x, y) => head + usize_bytes(o) + i32_le(x) + i32_le(y)
            + block_id_bytes(b),
        LogRecordView::SetString(_, b, o, x, y) => head + usize_bytes(o) + usize_bytes(
            encode_utf8(x).len() as usize,
        ) + encode_utf8(x) + usize_bytes(encode_utf8(y).len() as usize) + encode_utf8(y)
            + block_id_bytes(b),
        _ => head,
    }
}

/// A record whose serialized form fits the machine's `usize`.
pub open spec fn record_fits(r: LogRecordView) -> bool {
    match r {
        LogRecordView::SetI32(_, b, _, _, _) => block_id_fits(b),
        LogRecordView::SetString(_, b, _, x, y) => block_id_fits(b) && 33 + encode_utf8(x).len()
            + encode_utf8(y).len() + 16 + encode_utf8(b.0).len() <= usize::MAX,
        _ => true,
    }
}

/// Bytes that start with a serialized record.
pub open spec fn starts_with_record(bytes: Seq<u8>) -> bool {
    exists|r: LogRecordView, rest: Seq<u8>| record_fits(r) && bytes == record_bytes(r) + rest
}

/// The block id read from the front of `bytes`.
pub open spec fn block_id_of(bytes: Seq<u8>) -> BlockIdView {
    (decode_utf8(bytes.subrange(16, usize_of(bytes.subrange(0, 8)) as int)), usize_of(bytes.subrange(8, 16)))
}

/// The record read from the front of `bytes`, field by field.
pub open spec fn record_of(bytes: Seq<u8>) -> LogRecordView {
    let tag = bytes[0];
    let t = usize_of(bytes.subrange(1, 9));
    if tag == 'S' as u8 {
        LogRecordView::Start(t)
    } else if tag == 'C' as u8 {
        LogRecordView::Commit(t)
    } else if tag == 'K' as u8 {
        LogRecordView::Checkpoint(t)
    } else if tag == 'R' as u8 {
        LogRecordView::Rollback(t)
    } else if tag == 'I' as u8 {
        LogRecordView::SetI32(
            t,
            block_id_of(bytes.subrange(25, bytes.len() as int)),
            usize_of(bytes.subrange(9, 17)),
            i32_of(bytes.subrange(17, 21)),
            i32_of(bytes.subrange(21, 25)),
        )
    } else {
        let ol = usize_of(bytes.subrange(17, 25)) as int;
        let nl = usize_of(bytes.subrange(25 + ol, 33 + ol)) as int;
        LogRecordView::SetString(
            t,
            block_id_of(bytes.subrange(33 + ol + nl, bytes.len() as int)),
            usize_of(bytes.subrange(9, 17)),
            decode_utf8(bytes.subrange(25, 25 + ol)),
            decode_utf8(bytes.subrange(33 + ol, 33 + ol + nl)),
        )
    }
}

proof fn lemma_i32_le(x: i32)
    ensures
        i32_le(x).len() == 4,
        i32_of(i32_le(x)) == x,
{
    lemma_auto_spec_u32_to_from_le_bytes();
    let u = x as u32;
    assert(spec_u32_to_le_bytes(u).len() == 4);
    assert((u as i32) == x) by (bit_vector)
        requires
            u == x as u32,
    ;
}

proof fn lemma_block_id_of(b: BlockIdView, rest: Seq<u8>)
    requires
        block_id_fits(b),
    ensures
        block_id_of(block_id_bytes(b) + rest) == b,
{
    let s = block_id_bytes(b) + rest;
    lemma_usize_bytes((16 + encode_utf8(b.0).len()) as usize);
    lemma_usize_bytes(b.1);
    assert(s.subrange(0, 8) =~= usize_bytes((16 + encode_utf8(b.0).len()) as usize));
    assert(s.subrange(8, 16) =~= usize_bytes(b.1));
    assert(s.subrange(16, 16 + encode_utf8(b.0).len() as int) =~= encode_utf8(b.0));
}

/// Reading a record back from its serialized form, whatever follows it, gives
/// the record that was written.
pub proof fn lemma_record_roundtrip(r: LogRecordView, rest: Seq<u8>)
    requires
        record_fits(r),
    ensures
        record_of(record_bytes(r) + rest) == r,
        record_bytes(r).len() >= 9,
{
    let s = record_bytes(r) + rest;
    let t = transaction_of(r);
    lemma_usize_bytes(t);
    assert(s[0] == tag_of(r));
    assert(s.subrange(1, 9) =~= usize_bytes(t));
    match r {
        LogRecordView::SetI32(_, b, o, x, y) => {
            lemma_usize_bytes(o);
            lemma_i32_le(x);
            lemma_i32_le(y);
            assert(s.subrange(9, 17) =~= usize_bytes(o));
            assert(s.subrange(17, 21) =~= i32_le(x));
            assert(s.subrange(21, 25) =~= i32_le(y));
            assert(s.subrange(25, s.len() as int) =~= block_id_bytes(b) + rest);
            lemma_block_id_of(b, rest);
        },
        LogRecordView::SetString(_, b, o, x, y) => {
            let xb = encode_utf8(x);
            let yb = encode_utf8(y);
            let ol = xb.len() as int;
            let nl = yb.len() as int;
            lemma_usize_bytes(o);
            lemma_usize_bytes(xb.len() as usize);
            lemma_usize_bytes(yb.len() as usize);
            assert(s.subrange(9, 17) =~= usize_bytes(o));
            assert(s.subrange(17, 25) =~= usize_bytes(xb.len() as usize));
            assert(s.subrange(25, 25 + ol) =~= xb);
            assert(s.subrange(25 + ol, 33 + ol) =~= usize_bytes(yb.len() as usize));
            assert(s.subrange(33 + ol, 33 + ol + nl) =~= yb);
            assert(s.subrange(33 + ol + nl, s.len() as int) =~= block_id_bytes(b) + rest);
            lemma_block_id_of(b, rest);
        },
        _ => {},
    }
}

/// A byte string starts with at most one serialized record.
pub proof fn lemma_record_bytes_unique(r1: LogRecordView, rest1: Seq<u8>, r2: LogRecordView, rest2: Seq<u8>)
    requires
        record_fits(r1),
        record_fits(r2),
        record_bytes(r1) + rest1 == record_bytes(r2) + rest2,
    ensures
        r1 == r2,
{
    lemma_record_roundtrip(r1, rest1);
    lemma_record_roundtrip(r2, rest2);
}

fn block_id_to_bytes_checked(b: &BlockId) -> (bytes: Vec<u8>)
    requires
        block_id_fits(b@),
    ensures
        bytes@ == block_id_bytes(b@),
{
    b.to_bytes()
}

impl LogRecord {
    /// Serializes the record: tag, transaction, then the fields of its kind.
    pub fn to_bytes(&self) -> (bytes: Vec<u8>)
        requires
            record_fits(self@),
        ensures
            bytes@ == record_bytes(self@),
    {
        let mut bytes: Vec<u8> = Vec::new();
        match self {
            LogRecord::Start(transaction_id) => {
                bytes.push('S' as u8);
                push_usize(&mut bytes, *transaction_id);
            },
            LogRecord::Commit(transaction_id) => {
                bytes.push('C' as u8);
                push_usize(&mut bytes, *transaction_id);
            },
            LogRecord::Checkpoint(transaction_id) => {
                bytes.push('K' as u8);
                push_usize(&mut bytes, *transaction_id);
            },
            LogRecord::Rollback(transaction_id) => {
                bytes.push('R' as u8);
                push_usize(&mut bytes, *transaction_id);
            },
            LogRecord::SetI32(transaction_id, block_id, offset, old_value, new_value) => {
                bytes.push('I' as u8);
                push_usize(&mut bytes, *transaction_id);
                push_usize(&mut bytes, *offset);
                push_i32(&mut bytes, *old_value);
                push_i32(&mut bytes, *new_value);
                let block = block_id_to_bytes_checked(block_id);
                push_slice(&mut bytes, block.as_slice());
            },
            LogRecord::SetString(transaction_id, block_id, offset, old_string, new_string) => {
                let old_bytes = old_string.as_str().as_bytes();
                let new_bytes = new_string.as_str().as_bytes();
                bytes.push('T' as u8);
                push_usize(&mut bytes, *transaction_id);
                push_usize(&mut bytes, *offset);
                push_usize(&mut bytes, old_bytes.len());
                push_slice(&mut bytes, old_bytes);
                push_usize(&mut bytes, new_bytes.len());
                push_slice(&mut bytes, new_bytes);
                let block = block_id_to_bytes_checked(block_id);
                push_slice(&mut bytes, block.as_slice());
            },
        }
        assert(bytes@ =~= record_bytes(self@));
        bytes
    }

    /// The transaction that the record belongs to.
    pub fn get_transaction_id(&self) -> (t: usize)
        ensures
            t == transaction_of(self@),
    {
        match self {
            LogRecord::Start(transaction_id) => *transaction_id,
            LogRecord::Commit(transaction_id) => *transaction_id,
            LogRecord::Checkpoint(transaction_id) => *transaction_id,
            LogRecord::Rollback(transaction_id) => *transaction_id,
            LogRecord::SetI32(transaction_id, _, _, _, _) => *transaction_id,
            LogRecord::SetString(transaction_id, _, _, _, _) => *transaction_id,
        }
    }

    /// Reads the record serialized at the front of `bytes`.
    pub fn from_bytes(bytes: &[u8]) -> (r: Self)
        requires
            starts_with_record(bytes@),
        ensures
            r@ == record_of(bytes@),
            forall|w: LogRecordView, rest: Seq<u8>|
                record_fits(w) && bytes@ == record_bytes(w) + rest ==> r@ == w,
    {
        let ghost w = choose|w: LogRecordView, rest: Seq<u8>|
            record_fits(w) && bytes@ == record_bytes(w) + rest;
        proof {
            assert forall|w2: LogRecordView, rest2: Seq<u8>|
                record_fits(w2) && bytes@ == record_bytes(w2) + rest2 implies record_of(bytes@)
                == w2 by {
                lemma_record_roundtrip(w2, rest2);
            }
            lemma_record_roundtrip(w.0, w.1);
        }
        let tag = bytes[0];
        let transaction_id = read_usize(bytes, 1);
        if tag == 'S' as u8 {
            LogRecord::Start(transaction_id)
        } else if tag == 'C' as u8 {
            LogRecord::Commit(transaction_id)
        } else if tag == 'K' as u8 {
            LogRecord::Checkpoint(transaction_id)
        } else if tag == 'R' as u8 {
            LogRecord::Rollback(transaction_id)
        } else if tag == 'I' as u8 {
            proof {
                match w.0 {
                    LogRecordView::SetI32(t, b, o, x, y) => {
                        lemma_usize_bytes(t);
                        lemma_usize_bytes(o);
                        lemma_i32_le(x);
                        lemma_i32_le(y);
                        assert(bytes@.subrange(25, bytes@.len() as int) =~= block_id_bytes(b)
                            + w.1);
                        assert(block_id_fits(b) && bytes@.subrange(25, bytes@.len() as int)
                            == block_id_bytes(b) + w.1);
                    },
                    _ => {
                        assert(false);
                    },
                }
            }
            let offset = read_usize(bytes, 9);
            let old_value = read_i32(bytes, 17);
            let new_value = read_i32(bytes, 21);
            let tail = vstd::slice::slice_subrange(bytes, 25, bytes.len());
            let (_, block) = BlockId::from_bytes(tail);
            LogRecord::SetI32(transaction_id, block, offset, old_value, new_value)
        } else {
            let ghost xb = Seq::<u8>::empty();
            let ghost yb = Seq::<u8>::empty();
            proof {
                match w.0 {
                    LogRecordView::SetString(t, b, o, x, y) => {
                        lemma_usize_bytes(t);
                        lemma_usize_bytes(o);
                        xb = encode_utf8(x);
                        yb = encode_utf8(y);
                        let ol = xb.len() as int;
                        let nl = yb.len() as int;
                        lemma_usize_bytes(xb.len() as usize);
                        lemma_usize_bytes(yb.len() as usize);
                        assert(bytes@.subrange(17, 25) =~= usize_bytes(xb.len() as usize));
                        assert(bytes@.subrange(25, 25 + ol) =~= xb);
                        assert(bytes@.subrange(25 + ol, 33 + ol) =~= usize_bytes(
                            yb.len() as usize,
                        ));
                        assert(bytes@.subrange(33 + ol, 33 + ol + nl) =~= yb);
                        assert(bytes@.subrange(33 + ol + nl, bytes@.len() as int) =~= block_id_bytes(
                            b,
                        ) + w.1);
                        assert(block_id_fits(b) && bytes@.subrange(
                            33 + ol + nl,
                            bytes@.len() as int,
                        ) == block_id_bytes(b) + w.1);
                    },
                    _ => {
                        assert(false);
                    },
                }
            }
            let offset = read_usize(bytes, 9);
            let old_length = read_usize(bytes, 17);
            let old_string = string_from_utf8(vstd::slice::slice_subrange(bytes, 25, 25 + old_length));
            let new_length = read_usize(bytes, 25 + old_length);
            let new_string = string_from_utf8(
                vstd::slice::slice_subrange(bytes, 33 + old_length, 33 + old_length + new_length),
            );
            let tail = vstd::slice::slice_subrange(bytes, 33 + old_length + new_length, bytes.len());
            let (_, block) = BlockId::from_bytes(tail);
            LogRecord::SetString(transaction_id, block, offset, old_string, new_string)
        }
    }
}

impl LogRecord {
    /// Reads a serialized record from the front of `bytes`, if they start
    /// with one: the number of bytes it takes, and the record.
    #[verifier::rlimit(40)]
    pub fn try_from_bytes(bytes: &[u8]) -> (r: Option<(usize, Self)>)
        ensures
            match r {
                Some((n, rec)) => {
                    &&& record_fits(rec@)
                    &&& n == record_bytes(rec@).len() <= bytes@.len()
                    &&& bytes@.subrange(0, n as int) == record_bytes(rec@)
                },
                None => !starts_with_record(bytes@),
            },
    {
        let len = bytes.len();
        let ghost starts = starts_with_record(bytes@);
        let ghost w = choose|w: LogRecordView, rest: Seq<u8>|
            record_fits(w) && bytes@ == record_bytes(w) + rest;
        proof {
            if starts {
                lemma_record_roundtrip(w.0, w.1);
                lemma_usize_bytes(transaction_of(w.0));
                assert(bytes@.subrange(1, 9) =~= usize_bytes(transaction_of(w.0)));
                assert(bytes@[0] == tag_of(w.0));
            }
        }
        if len < 9 {
            return None;
        }
        let tag = bytes[0];
        let transaction_id = read_usize(bytes, 1);
        let candidate = if tag == 'S' as u8 {
            LogRecord::Start(transaction_id)
        } else if tag == 'C' as u8 {
            LogRecord::Commit(transaction_id)
        } else if tag == 'K' as u8 {
            LogRecord::Checkpoint(transaction_id)
        } else if tag == 'R' as u8 {
            LogRecord::Rollback(transaction_id)
        } else if tag == 'I' as u8 {
            proof {
                if starts {
                    match w.0 {
                        LogRecordView::SetI32(t, b, o, x, y) => {
                            lemma_usize_bytes(o);
                            lemma_i32_le(x);
                            lemma_i32_le(y);
                            assert(bytes@.subrange(9, 17) =~= usize_bytes(o));
                            assert(bytes@.subrange(17, 21) =~= i32_le(x));
                            assert(bytes@.subrange(21, 25) =~= i32_le(y));
                            assert(bytes@.subrange(25, bytes@.len() as int) =~= block_id_bytes(b)
                                + w.1);
                        },
                        _ => {},
                    }
                }
            }
            if len < 25 {
                return None;
            }
            let offset = read_usize(bytes, 9);
            let old_value = read_i32(bytes, 17);
            let new_value = read_i32(bytes, 21);
            let tail = vstd::slice::slice_subrange(bytes, 25, len);
            match BlockId::try_from_bytes(tail) {
                None => {
                    return None;
                },
                Some((n, block)) => {
                    proof {
                        if starts {
                            match w.0 {
                                LogRecordView::SetI32(t, b, o, x, y) => {
                                    let rest2 = tail@.subrange(n as int, tail@.len() as int);
                                    assert(tail@ =~= block_id_bytes(block@) + rest2);
                                    lemma_block_id_bytes_unique(block@, rest2, b, w.1);
                                },
                                _ => {},
                            }
                        }
                    }
                    LogRecord::SetI32(transaction_id, block, offset, old_value, new_value)
                },
            }
        } else {
            let ghost xb = Seq::<u8>::empty();
            let ghost yb = Seq::<u8>::empty();
            proof {
                if starts {
                    match w.0 {
                        LogRecordView::SetString(t, b, o, x, y) => {
                            lemma_usize_bytes(o);
                            xb = encode_utf8(x);
                            yb = encode_utf8(y);
                            let ol = xb.len() as int;
                            let nl = yb.len() as int;
                            lemma_usize_bytes(xb.len() as usize);
                            lemma_usize_bytes(yb.len() as usize);
                            assert(bytes@.subrange(9, 17) =~= usize_bytes(o));
                            assert(bytes@.subrange(17, 25) =~= usize_bytes(xb.len() as usize));
                            assert(bytes@.subrange(25, 25 + ol) =~= xb);
                            assert(bytes@.subrange(25 + ol, 33 + ol) =~= usize_bytes(
                                yb.len() as usize,
                            ));
                            assert(bytes@.subrange(33 + ol, 33 + ol + nl) =~= yb);
                            assert(bytes@.subrange(33 + ol + nl, bytes@.len() as int)
                                =~= block_id_bytes(b) + w.1);
                        },
                        _ => {},
                    }
                }
            }
            if len < 33 {
                return None;
            }
            let offset = read_usize(bytes, 9);
            let old_length = read_usize(bytes, 17);
            if old_length > len - 33 {
                return None;
            }
            let new_length = read_usize(bytes, 25 + old_length);
            if new_length > len - 33 - old_length {
                return None;
            }
            let old_string = match try_string_from_utf8(
                vstd::slice::slice_subrange(bytes, 25, 25 + old_length),
            ) {
                None => {
                    return None;
                },
                Some(x) => x,
            };
            let new_string = match try_string_from_utf8(
                vstd::slice::slice_subrange(bytes, 33 + old_length, 33 + old_length + new_length),
            ) {
                None => {
                    return None;
                },
                Some(y) => y,
            };
            let tail = vstd::slice::slice_subrange(bytes, 33 + old_length + new_length, len);
            match BlockId::try_from_bytes(tail) {
                None => {
                    return None;
                },
                Some((n, block)) => {
                    proof {
                        if starts {
                            match w.0 {
                                LogRecordView::SetString(t, b, o, x, y) => {
                                    let rest2 = tail@.subrange(n as int, tail@.len() as int);
                                    assert(tail@ =~= block_id_bytes(block@) + rest2);
                                    lemma_block_id_bytes_unique(block@, rest2, b, w.1);
                                    lemma_utf8_injective(old_string@, x);
                                    lemma_utf8_injective(new_string@, y);
                                },
                                _ => {},
                            }
                        }
                    }
                    LogRecord::SetString(transaction_id, block, offset, old_string, new_string)
                },
            }
        };
        proof {
            if starts {
                assert(candidate@ == w.0);
            }
        }
        if !Self::fits(&candidate) {
            return None;
        }
        let encoded = candidate.to_bytes();
        let n = encoded.len();
        if n > len {
            return None;
        }
        proof {
            if starts {
                assert(bytes@.subrange(0, n as int) =~= record_bytes(w.0));
            }
        }
        if bytes_equal(encoded.as_slice(), vstd::slice::slice_subrange(bytes, 0, n)) {
            Some((n, candidate))
        } else {
            None
        }
    }

    /// Whether the record's serialized form fits the machine's `usize`.
    pub fn fits(&self) -> (r: bool)
        ensures
            r == record_fits(self@),
    {
        match self {
            LogRecord::SetI32(_, b, _, _, _) => b.file_name.as_str().as_bytes().len() <= usize::MAX - 16,
            LogRecord::SetString(_, b, _, x, y) => {
                let n = b.file_name.as_str().as_bytes().len();
                let xl = x.as_str().as_bytes().len();
                let yl = y.as_str().as_bytes().len();
                n <= usize::MAX - 49 && xl <= usize::MAX - 49 - n && yl <= usize::MAX - 49 - n - xl
            },
            _ => true,
        }
    }
}

} // verus!
