use vstd::prelude::*;

use crate::log::record::{
    lemma_record_bytes_unique, lemma_record_roundtrip, record_bytes, record_fits, LogRecord,
    LogRecordView,
};
use crate::page::{
    i32_at, i32_bytes, lemma_i32_read_after_write, spliced, Page,
};

verus! {

/// The bytes of records laid end to end, the first one first.
pub open spec fn records_bytes(recs: Seq<LogRecordView>) -> Seq<u8>
    decreases recs.len(),
{
    if recs.len() == 0 {
        Seq::empty()
    } else {
        record_bytes(recs[0]) + records_bytes(recs.skip(1))
    }
}

/// Whether every record can be written.
pub open spec fn all_fit(recs: Seq<LogRecordView>) -> bool {
    forall|i: int| 0 <= i < recs.len() ==> record_fits(#[trigger] recs[i])
}

/// The boundary of a log page, kept in its first four bytes: where its
/// newest record starts.
pub open spec fn boundary(p: Seq<u8>) -> int {
    i32_at(p, 0) as int
}

/// Whether a page is laid out as a log page: a boundary that lies after the
/// four bytes that hold it and within the page.
pub open spec fn log_page_ok(p: Seq<u8>) -> bool {
    &&& 4 <= p.len() <= i32::MAX
    &&& 4 <= boundary(p) <= p.len()
}

/// Whether a log page holds the given records, newest first, from its
/// boundary to its end.
pub open spec fn log_page_holds(p: Seq<u8>, recs: Seq<LogRecordView>) -> bool {
    &&& log_page_ok(p)
    &&& p.subrange(boundary(p), p.len() as int) == records_bytes(recs)
    &&& all_fit(recs)
}

/// Whether `len` more bytes fit between the boundary and the four bytes that hold it.
pub open spec fn has_room(p: Seq<u8>, len: nat) -> bool {
    boundary(p) >= len + 4
}

/// The page after `bytes` is written just before the boundary, which then
/// moves to the start of those bytes.
pub open spec fn placed(p: Seq<u8>, bytes: Seq<u8>) -> Seq<u8> {
    let start = boundary(p) - bytes.len();
    spliced(spliced(p, start, bytes), 0, i32_bytes(start as i32))
}

/// The page with its boundary moved back to its end: an empty log block.
pub open spec fn emptied(p: Seq<u8>) -> Seq<u8> {
    spliced(p, 0, i32_bytes(p.len() as i32))
}

/// The models of log records.
pub open spec fn record_views(v: Seq<LogRecord>) -> Seq<LogRecordView> {
    v.map_values(|r: LogRecord| r@)
}

proof fn lemma_records_bytes_cons(r: LogRecordView, recs: Seq<LogRecordView>)
    ensures
        records_bytes(seq![r] + recs) == record_bytes(r) + records_bytes(recs),
{
    assert((seq![r] + recs).skip(1) =~= recs);
}

proof fn lemma_records_bytes_empty(recs: Seq<LogRecordView>)
    requires
        all_fit(recs),
    ensures
        records_bytes(recs).len() == 0 <==> recs.len() == 0,
{
    if recs.len() > 0 {
        lemma_record_roundtrip(recs[0], records_bytes(recs.skip(1)));
    }
}

/// A page holds at most one sequence of records: the bytes after the
/// boundary decode one way only.
pub proof fn lemma_log_page_unique(p: Seq<u8>, a: Seq<LogRecordView>, b: Seq<LogRecordView>)
    requires
        log_page_holds(p, a),
        log_page_holds(p, b),
    ensures
        a == b,
{
    lemma_records_unique(a, b);
}

proof fn lemma_records_unique(a: Seq<LogRecordView>, b: Seq<LogRecordView>)
    requires
        all_fit(a),
        all_fit(b),
        records_bytes(a) == records_bytes(b),
    ensures
        a == b,
    decreases a.len(),
{
    lemma_records_bytes_empty(a);
    lemma_records_bytes_empty(b);
    if a.len() > 0 {
        lemma_record_bytes_unique(a[0], records_bytes(a.skip(1)), b[0], records_bytes(b.skip(1)));
        assert(all_fit(a.skip(1)));
        assert(all_fit(b.skip(1)));
        let l = record_bytes(a[0]).len() as int;
        assert(records_bytes(a.skip(1)) =~= records_bytes(a).skip(l));
        assert(records_bytes(b.skip(1)) =~= records_bytes(b).skip(l));
        lemma_records_unique(a.skip(1), b.skip(1));
        assert(a =~= seq![a[0]] + a.skip(1));
        assert(b =~= seq![b[0]] + b.skip(1));
    } else {
        assert(a =~= b);
    }
}

/// Placing a record on a log page with room for it makes the page hold
/// that record, then the records it held: a log page reads back its records
/// newest first.
pub proof fn lemma_place_record(p: Seq<u8>, recs: Seq<LogRecordView>, r: LogRecordView)
    requires
        log_page_holds(p, recs),
        record_fits(r),
        has_room(p, record_bytes(r).len()),
    ensures
        log_page_holds(placed(p, record_bytes(r)), seq![r] + recs),
        boundary(placed(p, record_bytes(r))) == boundary(p) - record_bytes(r).len(),
{
    let bytes = record_bytes(r);
    let b = boundary(p);
    let start = b - bytes.len();
    let q1 = spliced(p, start, bytes);
    let q = spliced(q1, 0, i32_bytes(start as i32));
    lemma_i32_read_after_write(q1, 0, start as i32);
    assert(i32_bytes(start as i32).len() == 4) by {
        vstd::bytes::lemma_auto_spec_u32_to_from_le_bytes();
    }
    assert(boundary(q) == start);
    lemma_records_bytes_cons(r, recs);
    assert(q.subrange(start, q.len() as int) =~= bytes + p.subrange(b, p.len() as int));
    assert(all_fit(seq![r] + recs)) by {
        assert forall|i: int| 0 <= i < (seq![r] + recs).len() implies record_fits(
            #[trigger] (seq![r] + recs)[i],
        ) by {
            if i > 0 {
                assert((seq![r] + recs)[i] == recs[i - 1]);
            }
        }
    }
}

/// The page after each record is placed in turn.
pub open spec fn placed_all(p: Seq<u8>, rs: Seq<LogRecordView>) -> Seq<u8>
    decreases rs.len(),
{
    if rs.len() == 0 {
        p
    } else {
        placed(placed_all(p, rs.drop_last()), record_bytes(rs.last()))
    }
}

proof fn lemma_records_bytes_snoc(rs: Seq<LogRecordView>)
    requires
        rs.len() > 0,
    ensures
        records_bytes(rs) == records_bytes(rs.drop_last()) + record_bytes(rs.last()),
    decreases rs.len(),
{
    if rs.len() == 1 {
        assert(rs.skip(1) =~= Seq::<LogRecordView>::empty());
        assert(rs.drop_last() =~= Seq::<LogRecordView>::empty());
        assert(records_bytes(rs.skip(1)) == Seq::<u8>::empty());
        assert(records_bytes(rs.drop_last()) == Seq::<u8>::empty());
        assert(records_bytes(rs) =~= record_bytes(rs[0]) + Seq::<u8>::empty());
        assert(records_bytes(rs.drop_last()) + record_bytes(rs.last()) =~= record_bytes(rs[0]));
    } else {
        lemma_records_bytes_snoc(rs.skip(1));
        assert(rs.skip(1).drop_last() =~= rs.drop_last().skip(1));
        assert(rs.skip(1).last() == rs.last());
        assert(rs.drop_last()[0] == rs[0]);
        assert(records_bytes(rs) =~= records_bytes(rs.drop_last()) + record_bytes(rs.last()));
    }
}

/// Records appended one after another to a log page with room for them all
/// are held, newest first, in front of the records it held before.
pub proof fn lemma_place_all(p: Seq<u8>, recs: Seq<LogRecordView>, rs: Seq<LogRecordView>)
    requires
        log_page_holds(p, recs),
        all_fit(rs),
        boundary(p) >= records_bytes(rs).len() + 4,
    ensures
        log_page_holds(placed_all(p, rs), rs.reverse() + recs),
        boundary(placed_all(p, rs)) == boundary(p) - records_bytes(rs).len(),
    decreases rs.len(),
{
    if rs.len() == 0 {
        assert(rs.reverse() + recs =~= recs);
    } else {
        let front = rs.drop_last();
        assert(all_fit(front));
        lemma_records_bytes_snoc(rs);
        lemma_place_all(p, recs, front);
        let q = placed_all(p, front);
        assert(record_fits(rs.last()));
        lemma_place_record(q, front.reverse() + recs, rs.last());
        assert(seq![rs.last()] + (front.reverse() + recs) =~= rs.reverse() + recs);
    }
}

/// Emptying a log page leaves it holding no records.
pub proof fn lemma_emptied(p: Seq<u8>)
    requires
        4 <= p.len() <= i32::MAX,
    ensures
        log_page_holds(emptied(p), Seq::empty()),
        boundary(emptied(p)) == p.len(),
{
    lemma_i32_read_after_write(p, 0, p.len() as i32);
    let q = emptied(p);
    assert(q.subrange(q.len() as int, q.len() as int) =~= Seq::<u8>::empty());
}

/// Placing bytes on a log page with room for them leaves a log page of the
/// same length, whose boundary has moved back by their length.
proof fn lemma_placed_ok(p: Seq<u8>, bytes: Seq<u8>)
    requires
        log_page_ok(p),
        has_room(p, bytes.len()),
    ensures
        log_page_ok(placed(p, bytes)),
        placed(p, bytes).len() == p.len(),
        boundary(placed(p, bytes)) == boundary(p) - bytes.len(),
{
    let start = boundary(p) - bytes.len();
    let q1 = spliced(p, start, bytes);
    assert(q1.len() == p.len());
    lemma_i32_read_after_write(q1, 0, start as i32);
}

/// A new block has room for any record that fits a block.
pub proof fn lemma_new_block_has_room(p: Seq<u8>, len: nat)
    requires
        4 <= p.len() <= i32::MAX,
        len + 4 <= p.len(),
    ensures
        has_room(emptied(p), len),
        log_page_ok(emptied(p)),
        emptied(p).len() == p.len(),
{
    lemma_emptied(p);
}

/// What appending a record does to the log's page and newest sequence
/// number: where the page has room, the record goes on it (`append`); where
/// not, the page is saved and a new block started (`start_block`), and the
/// record goes there (`append` again). Either way the record is numbered
/// one more than the newest before it.
pub open spec fn log_append(p: Seq<u8>, latest: nat, r: LogRecordView) -> (Seq<u8>, nat) {
    let bytes = record_bytes(r);
    if has_room(p, bytes.len()) {
        (placed(p, bytes), latest + 1)
    } else {
        (placed(emptied(p), bytes), latest + 1)
    }
}

/// The page, the newest sequence number and the numbers given, after the
/// records are appended in turn.
pub open spec fn log_appends(p: Seq<u8>, latest: nat, rs: Seq<LogRecordView>) -> (Seq<u8>, nat, Seq<nat>)
    decreases rs.len(),
{
    if rs.len() == 0 {
        (p, latest, Seq::empty())
    } else {
        let (q, l) = log_append(p, latest, rs[0]);
        let (q2, l2, ns) = log_appends(q, l, rs.drop_first());
        (q2, l2, seq![l] + ns)
    }
}

/// Records appended in turn to the log get the sequence numbers that follow
/// the newest one, in order: from a new log, 1, 2, 3 and so on. The page
/// stays a log page throughout.
pub proof fn lemma_log_numbers_count_up(p: Seq<u8>, latest: nat, rs: Seq<LogRecordView>)
    requires
        log_page_ok(p),
        forall|i: int| 0 <= i < rs.len() ==> #[trigger] record_bytes(rs[i]).len() + 4 <= p.len(),
    ensures
        log_page_ok(log_appends(p, latest, rs).0),
        log_appends(p, latest, rs).0.len() == p.len(),
        log_appends(p, latest, rs).1 == latest + rs.len(),
        log_appends(p, latest, rs).2 == Seq::new(rs.len(), |i: int| (latest + i + 1) as nat),
    decreases rs.len(),
{
    if rs.len() > 0 {
        let bytes = record_bytes(rs[0]);
        assert(bytes.len() + 4 <= p.len());
        if has_room(p, bytes.len()) {
            lemma_placed_ok(p, bytes);
        } else {
            lemma_new_block_has_room(p, bytes.len());
            lemma_placed_ok(emptied(p), bytes);
        }
        let (q, l) = log_append(p, latest, rs[0]);
        let rest = rs.drop_first();
        assert forall|i: int| 0 <= i < rest.len() implies #[trigger] record_bytes(rest[i]).len() + 4
            <= q.len() by {
            assert(rest[i] == rs[i + 1]);
        }
        lemma_log_numbers_count_up(q, l, rest);
        assert(log_appends(p, latest, rs).2 =~= Seq::new(rs.len(), |i: int| (latest + i + 1) as nat));
    }
}

/// Whether a page is laid out as a log page.
pub fn is_log_page(page: &Page) -> (r: bool)
    ensures
        r == log_page_ok(page@),
{
    let n = page.len();
    if n < 4 || n > 0x7fff_ffff {
        return false;
    }
    let b = page.get_i32(0);
    4 <= b && (b as usize) <= n
}

/// The records a log page holds, newest first.
pub fn read_log_page(page: &Page) -> (r: Vec<LogRecord>)
    requires
        exists|recs: Seq<LogRecordView>| log_page_holds(page@, recs),
    ensures
        log_page_holds(page@, record_views(r@)),
        forall|recs: Seq<LogRecordView>| log_page_holds(page@, recs) ==> record_views(r@) == recs,
{
    let ghost recs = choose|recs: Seq<LogRecordView>| log_page_holds(page@, recs);
    let bytes = page.contents();
    let n = bytes.len();
    let mut pos: usize = page.get_i32(0) as usize;
    let mut out: Vec<LogRecord> = Vec::new();
    let ghost mut k: int = 0;
    assert(recs.skip(0) =~= recs);
    assert(record_views(out@) =~= recs.take(0));
    while pos < n
        invariant
            log_page_holds(page@, recs),
            bytes@ == page@,
            n == bytes@.len(),
            boundary(page@) <= pos <= n,
            0 <= k <= recs.len(),
            page@.subrange(pos as int, n as int) == records_bytes(recs.skip(k)),
            record_views(out@) == recs.take(k),
        decreases n - pos,
    {
        let ghost rest = recs.skip(k);
        proof {
            assert(all_fit(rest));
            lemma_records_bytes_empty(rest);
            assert(rest.len() > 0);
            assert(rest[0] == recs[k]);
        }
        let tail = vstd::slice::slice_subrange(bytes, pos, n);
        proof {
            assert(tail@ == page@.subrange(pos as int, n as int));
            assert(tail@ == record_bytes(rest[0]) + records_bytes(rest.skip(1)));
            assert(crate::log::record::starts_with_record(tail@));
        }
        let rec = LogRecord::from_bytes(tail);
        assert(rec@ == recs[k]);
        let len = rec.to_bytes().len();
        let ghost before = out@;
        out.push(rec);
        proof {
            crate::seqs::lemma_map_push(before, rec, |r: LogRecord| r@);
            assert(recs.take(k + 1) =~= recs.take(k).push(recs[k]));
            assert(rest.skip(1) =~= recs.skip(k + 1));
            assert(page@.subrange(pos + len, n as int) =~= tail@.subrange(len as int, tail@.len() as int));
            assert(tail@.subrange(len as int, tail@.len() as int) =~= records_bytes(rest.skip(1)));
            k = k + 1;
        }
        pos = pos + len;
    }
    proof {
        lemma_records_bytes_empty(recs.skip(k));
        assert(recs.skip(k).len() == 0);
        assert(recs.take(k) =~= recs);
        assert forall|other: Seq<LogRecordView>| log_page_holds(page@, other) implies record_views(
            out@,
        ) == other by {
            lemma_log_page_unique(page@, recs, other);
        }
    }
    out
}


/// The records a page holds, newest first, if it is a log page holding
/// records; `None` where it is not.
#[verifier::rlimit(40)]
pub fn try_read_log_page(page: &Page) -> (r: Option<Vec<LogRecord>>)
    ensures
        match r {
            Some(v) => log_page_holds(page@, record_views(v@)),
            None => forall|recs: Seq<LogRecordView>| !log_page_holds(page@, recs),
        },
{
    if !is_log_page(page) {
        return None;
    }
    let bytes = page.contents();
    let n = bytes.len();
    let start: usize = page.get_i32(0) as usize;
    let mut pos: usize = start;
    let mut out: Vec<LogRecord> = Vec::new();
    proof {
        assert(page@.subrange(start as int, pos as int) =~= records_bytes(record_views(out@)));
        assert forall|recs: Seq<LogRecordView>| log_page_holds(page@, recs) implies 0 <= recs.len() && record_views(out@)
            == recs.take(0) && page@.subrange(pos as int, n as int) == records_bytes(recs.skip(0)) by {
            assert(recs.skip(0) =~= recs);
            assert(record_views(out@) =~= recs.take(0));
        }
    }
    while pos < n
        invariant
            log_page_ok(page@),
            bytes@ == page@,
            n == bytes@.len(),
            start == boundary(page@),
            start <= pos <= n,
            page@.subrange(start as int, pos as int) == records_bytes(record_views(out@)),
            all_fit(record_views(out@)),
            forall|recs: Seq<LogRecordView>| #[trigger] log_page_holds(page@, recs) ==> {
                &&& out@.len() <= recs.len()
                &&& record_views(out@) == recs.take(out@.len() as int)
                &&& page@.subrange(pos as int, n as int) == records_bytes(recs.skip(out@.len() as int))
            },
        decreases n - pos,
    {
        let tail = vstd::slice::slice_subrange(bytes, pos, n);
        let ghost k = out@.len() as int;
        proof {
            assert forall|recs: Seq<LogRecordView>| #[trigger] log_page_holds(page@, recs) implies {
                &&& k < recs.len()
                &&& tail@ == record_bytes(recs[k]) + records_bytes(recs.skip(k + 1))
                &&& record_fits(recs[k])
            } by {
                let rest = recs.skip(k);
                assert(all_fit(rest)) by {
                    assert forall|i: int| 0 <= i < rest.len() implies record_fits(#[trigger] rest[i]) by {
                        assert(rest[i] == recs[k + i]);
                    }
                }
                lemma_records_bytes_empty(rest);
                assert(rest.len() > 0);
                assert(rest[0] == recs[k]);
                assert(rest.skip(1) =~= recs.skip(k + 1));
            }
        }
        match LogRecord::try_from_bytes(tail) {
            None => {
                proof {
                    assert forall|recs: Seq<LogRecordView>| !log_page_holds(page@, recs) by {
                        if log_page_holds(page@, recs) {
                            assert(record_fits(recs[k]) && tail@ == record_bytes(recs[k])
                                + records_bytes(recs.skip(k + 1)));
                        }
                    }
                }
                return None;
            },
            Some((len, rec)) => {
                let ghost before = out@;
                proof {
                    assert(record_bytes(rec@).len() >= 1);
                    let rest = tail@.subrange(len as int, tail@.len() as int);
                    assert(tail@ =~= record_bytes(rec@) + rest);
                    assert forall|recs: Seq<LogRecordView>| #[trigger] log_page_holds(page@, recs) implies {
                        &&& rec@ == recs[k]
                        &&& rest == records_bytes(recs.skip(k + 1))
                    } by {
                        lemma_record_bytes_unique(rec@, rest, recs[k], records_bytes(recs.skip(k + 1)));
                        assert(rest =~= tail@.subrange(
                            record_bytes(recs[k]).len() as int,
                            tail@.len() as int,
                        ));
                    }
                }
                out.push(rec);
                proof {
                    crate::seqs::lemma_map_push(before, rec, |r: LogRecord| r@);
                    let rs = record_views(out@);
                    assert(rs.drop_last() =~= record_views(before));
                    assert(rs.last() == rec@);
                    lemma_records_bytes_snoc(rs);
                    assert(page@.subrange(start as int, pos + len) =~= page@.subrange(
                        start as int,
                        pos as int,
                    ) + tail@.subrange(0, len as int));
                    assert(all_fit(rs)) by {
                        assert forall|i: int| 0 <= i < rs.len() implies record_fits(#[trigger] rs[i]) by {
                            if i < before.len() {
                                assert(rs[i] == record_views(before)[i]);
                            }
                        }
                    }
                    assert forall|recs: Seq<LogRecordView>| #[trigger] log_page_holds(page@, recs) implies {
                        &&& k + 1 <= recs.len()
                        &&& rs == recs.take(k + 1)
                        &&& page@.subrange(pos + len, n as int) == records_bytes(recs.skip(k + 1))
                    } by {
                        assert(k + 1 <= recs.len());
                        assert(recs.take(k + 1) =~= recs.take(k).push(recs[k]));
                        assert(page@.subrange(pos + len, n as int) =~= tail@.subrange(
                            len as int,
                            tail@.len() as int,
                        ));
                    }
                }
                pos = pos + len;
            },
        }
    }
    proof {
        assert(page@.subrange(boundary(page@), page@.len() as int) == records_bytes(record_views(out@)));
    }
    Some(out)
}

/// The page of the log's last block, kept in memory, with the sequence
/// numbers of the newest record appended and of the newest one saved.
///
/// Records are written from the end of the page towards its start; the
/// first four bytes hold the boundary, where the newest record starts.
/// Reading and writing blocks is left to the caller: when a record does not
/// fit, the caller saves the page, starts a new block and appends again.
pub struct LogBuffer {
    page: Page,
    latest_lsn: usize,
    last_saved_lsn: usize,
}

impl LogBuffer {
    /// Whether the page is a log page and no record is counted saved that
    /// was not appended.
    pub closed spec fn wf(&self) -> bool {
        log_page_ok(self.page@) && self.last_saved_lsn <= self.latest_lsn
    }

    /// The bytes of the page.
    pub closed spec fn page_view(&self) -> Seq<u8> {
        self.page@
    }

    /// The sequence number of the newest record appended.
    pub closed spec fn latest(&self) -> nat {
        self.latest_lsn as nat
    }

    /// The sequence number of the newest record saved.
    pub closed spec fn last_saved(&self) -> nat {
        self.last_saved_lsn as nat
    }

    /// A buffer over a new, empty block of `block_size` bytes.
    pub fn new(block_size: usize) -> (r: Self)
        requires
            4 <= block_size <= i32::MAX,
        ensures
            r.wf(),
            r.page_view() == emptied(Seq::new(block_size as nat, |i: int| 0u8)),
            log_page_holds(r.page_view(), Seq::empty()),
            r.latest() == 0,
            r.last_saved() == 0,
    {
        let mut page = Page::new(block_size);
        let ghost zero = page@;
        page.set_i32(0, block_size as i32);
        proof {
            lemma_emptied(zero);
        }
        LogBuffer { page, latest_lsn: 0, last_saved_lsn: 0 }
    }

    /// A buffer over the page read from the log's last block.
    pub fn from_page(page: Page) -> (r: Self)
        requires
            log_page_ok(page@),
        ensures
            r.wf(),
            r.page_view() == page@,
            r.latest() == 0,
            r.last_saved() == 0,
    {
        LogBuffer { page, latest_lsn: 0, last_saved_lsn: 0 }
    }

    /// The page, to be written to the current block.
    pub fn page(&self) -> (r: &Page)
        ensures
            r@ == self.page_view(),
    {
        &self.page
    }

    /// The sequence number of the newest record appended.
    pub fn latest_lsn(&self) -> (r: usize)
        ensures
            r == self.latest(),
    {
        self.latest_lsn
    }

    /// The sequence number of the newest record saved.
    pub fn last_saved_lsn(&self) -> (r: usize)
        ensures
            r == self.last_saved(),
    {
        self.last_saved_lsn
    }

    /// Appends a record to the page if it fits, and returns its sequence
    /// number; returns `None`, changing nothing, where it does not fit.
    pub fn append(&mut self, record: &LogRecord) -> (r: Option<usize>)
        requires
            old(self).wf(),
            record_fits(record@),
            record_bytes(record@).len() + 4 <= old(self).page_view().len(),
            old(self).latest() < usize::MAX,
        ensures
            final(self).wf(),
            has_room(old(self).page_view(), record_bytes(record@).len()) ==> {
                &&& r == Some((old(self).latest() + 1) as usize)
                &&& final(self).page_view() == placed(old(self).page_view(), record_bytes(record@))
                &&& final(self).latest() == old(self).latest() + 1
                &&& final(self).last_saved() == old(self).last_saved()
            },
            !has_room(old(self).page_view(), record_bytes(record@).len()) ==> {
                &&& r.is_none()
                &&& final(self).page_view() == old(self).page_view()
                &&& final(self).latest() == old(self).latest()
                &&& final(self).last_saved() == old(self).last_saved()
            },
    {
        let bytes = record.to_bytes();
        let boundary_now = self.page.get_i32(0) as usize;
        if boundary_now < bytes.len() + 4 {
            return None;
        }
        let start = boundary_now - bytes.len();
        let ghost p0 = self.page@;
        self.page.write_bytes(start, bytes.as_slice());
        let ghost p1 = self.page@;
        self.page.set_i32(0, start as i32);
        proof {
            lemma_i32_read_after_write(p1, 0, start as i32);
            assert(self.page@ == placed(p0, record_bytes(record@)));
        }
        self.latest_lsn = self.latest_lsn + 1;
        Some(self.latest_lsn)
    }

    /// Appends a record as the log does: on the page where it has room;
    /// where not, the page is done with, a new block is started and the
    /// record goes on it. Returns the record's sequence number and, where a
    /// new block was started, the full page (to be written to the current
    /// block) and the new block's empty page (to be written to the block
    /// appended after it).
    pub fn append_record(&mut self, record: &LogRecord) -> (r: (usize, Option<(Page, Page)>))
        requires
            old(self).wf(),
            record_fits(record@),
            record_bytes(record@).len() + 4 <= old(self).page_view().len(),
            old(self).latest() < usize::MAX,
        ensures
            final(self).wf(),
            r.0 == old(self).latest() + 1,
            (final(self).page_view(), final(self).latest()) == log_append(
                old(self).page_view(),
                old(self).latest(),
                record@,
            ),
            has_room(old(self).page_view(), record_bytes(record@).len()) ==> {
                &&& r.1.is_none()
                &&& final(self).last_saved() == old(self).last_saved()
            },
            !has_room(old(self).page_view(), record_bytes(record@).len()) ==> {
                &&& r.1 matches Some((full, fresh))
                &&& full@ == old(self).page_view()
                &&& fresh@ == emptied(old(self).page_view())
                &&& final(self).last_saved() == old(self).latest()
            },
    {
        match self.append(record) {
            Some(lsn) => (lsn, None),
            None => {
                let ghost p0 = self.page@;
                let full = Page::from_contents(vstd::slice::slice_to_vec(self.page.contents()));
                self.start_block();
                let fresh = Page::from_contents(vstd::slice::slice_to_vec(self.page.contents()));
                proof {
                    lemma_new_block_has_room(p0, record_bytes(record@).len());
                }
                match self.append(record) {
                    Some(lsn) => (lsn, Some((full, fresh))),
                    None => {
                        proof {
                            assert(false);
                        }
                        (0, None)
                    },
                }
            },
        }
    }

    /// Starts a new block: every record appended so far counts as saved,
    /// and the page is emptied.
    pub fn start_block(&mut self)
        requires
            old(self).wf(),
        ensures
            final(self).wf(),
            final(self).page_view() == emptied(old(self).page_view()),
            log_page_holds(final(self).page_view(), Seq::empty()),
            final(self).latest() == old(self).latest(),
            final(self).last_saved() == old(self).latest(),
    {
        self.last_saved_lsn = self.latest_lsn;
        let n = self.page.len();
        let ghost p0 = self.page@;
        self.page.set_i32(0, n as i32);
        proof {
            lemma_emptied(p0);
        }
    }

    /// Whether the page must be written so that the record numbered `lsn`
    /// is saved.
    pub fn needs_flush(&self, lsn: usize) -> (r: bool)
        ensures
            r == (lsn >= self.last_saved()),
    {
        lsn >= self.last_saved_lsn
    }

    /// Records that the page has been written: every record appended so far
    /// is saved.
    pub fn mark_saved(&mut self)
        requires
            old(self).wf(),
        ensures
            final(self).wf(),
            final(self).page_view() == old(self).page_view(),
            final(self).latest() == old(self).latest(),
            final(self).last_saved() == old(self).latest(),
    {
        self.last_saved_lsn = self.latest_lsn;
    }
}

} // verus!
