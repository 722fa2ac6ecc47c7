//! The bookkeeping of the buffer pool: which block each buffer holds, how
//! many clients pin it, and which transaction last changed it. Reading and
//! writing the pages themselves is left to the caller.

use vstd::prelude::*;

use crate::file::{BlockId, BlockIdView};

verus! {

/// What the pool knows of one buffer.
pub struct BufferState {
    /// The block the buffer holds, if any.
    pub block: Option<BlockId>,
    /// How many clients pin it.
    pub num_pins: usize,
    /// The transaction that last changed its page and has not yet flushed the log.
    pub modifying_transaction_id: Option<usize>,
    /// The log sequence number of that change.
    pub log_sequence_number: usize,
}

/// The model of a buffer.
pub struct BufferView {
    pub block: Option<BlockIdView>,
    pub pins: usize,
    pub modifier: Option<usize>,
    pub lsn: usize,
}

/// The model of an optional block id.
pub open spec fn opt_block_view(b: Option<BlockId>) -> Option<BlockIdView> {
    match b {
        Some(x) => Some(x@),
        None => None,
    }
}

impl View for BufferState {
    type V = BufferView;

    open spec fn view(&self) -> BufferView {
        BufferView {
            block: opt_block_view(self.block),
            pins: self.num_pins,
            modifier: self.modifying_transaction_id,
            lsn: self.log_sequence_number,
        }
    }
}

/// The models of the buffers.
pub open spec fn buffer_views(v: Seq<BufferState>) -> Seq<BufferView> {
    v.map_values(|b: BufferState| b@)
}

/// The number of unpinned buffers.
pub open spec fn unpinned_count(s: Seq<BufferView>) -> nat
    decreases s.len(),
{
    if s.len() == 0 {
        0
    } else {
        unpinned_count(s.drop_last()) + if s.last().pins == 0 {
            1nat
        } else {
            0nat
        }
    }
}

/// The first buffer at or after `i` that holds `block`.
pub open spec fn first_holding(s: Seq<BufferView>, block: BlockIdView, i: int) -> Option<int>
    decreases s.len() - i,
{
    if i < 0 || i >= s.len() {
        None
    } else if s[i].block == Some(block) {
        Some(i)
    } else {
        first_holding(s, block, i + 1)
    }
}

/// The first unpinned buffer at or after `i`.
pub open spec fn first_unpinned(s: Seq<BufferView>, i: int) -> Option<int>
    decreases s.len() - i,
{
    if i < 0 || i >= s.len() {
        None
    } else if s[i].pins == 0 {
        Some(i)
    } else {
        first_unpinned(s, i + 1)
    }
}

/// The buffer with one more pin.
pub open spec fn pinned_once_more(b: BufferView) -> BufferView {
    BufferView { pins: (b.pins + 1) as usize, ..b }
}

/// The buffer given over to `block`, pinned once, its change flushed.
pub open spec fn assigned(b: BufferView, block: BlockIdView) -> BufferView {
    BufferView { block: Some(block), pins: 1, modifier: None, lsn: b.lsn }
}

/// What pinning a block came to.
#[derive(Debug, Clone, Copy, PartialEq, Eq)]
pub enum PinOutcome {
    /// A buffer already held the block and is pinned once more.
    Pinned(usize),
    /// An unpinned buffer is given over to the block and pinned. The caller
    /// must flush the log up to the given sequence number, if there is one,
    /// and read the block into the buffer's page.
    Assigned(usize, Option<usize>),
    /// Every buffer is pinned: the caller waits and tries again.
    Unavailable,
}

/// The log entries that must be flushed for the buffers changed by `tx`,
/// in order: each buffer's index and sequence number.
pub open spec fn flush_list(s: Seq<BufferView>, tx: usize) -> Seq<(usize, usize)>
    decreases s.len(),
{
    if s.len() == 0 {
        Seq::empty()
    } else {
        let rest = flush_list(s.drop_last(), tx);
        if s.last().modifier == Some(tx) {
            rest.push(((s.len() - 1) as usize, s.last().lsn))
        } else {
            rest
        }
    }
}

/// The buffers after those changed by `tx` have been flushed.
pub open spec fn flushed(s: Seq<BufferView>, tx: usize) -> Seq<BufferView> {
    s.map_values(
        |b: BufferView|
            if b.modifier == Some(tx) {
                BufferView { modifier: None, ..b }
            } else {
                b
            },
    )
}

/// The number of unpinned buffers counts, one by one, the buffers with no pin.
pub proof fn lemma_unpinned_count_counts(s: Seq<BufferView>)
    ensures
        unpinned_count(s) == s.fold_left(0int, |acc: int, b: BufferView| if b.pins == 0 { acc + 1 } else { acc }),
    decreases s.len(),
{
    if s.len() > 0 {
        lemma_unpinned_count_counts(s.drop_last());
    }
}

/// The log entries to flush for a transaction are those of exactly the
/// buffers it changed, each once, in buffer order, with each buffer's
/// sequence number.
pub proof fn lemma_flush_list_members(s: Seq<BufferView>, tx: usize)
    requires
        s.len() <= usize::MAX,
    ensures
        ({
            let fl = flush_list(s, tx);
            &&& forall|k: int| 0 <= k < fl.len() ==> {
                &&& (#[trigger] fl[k]).0 < s.len()
                &&& s[fl[k].0 as int].modifier == Some(tx)
                &&& fl[k].1 == s[fl[k].0 as int].lsn
            }
            &&& forall|k1: int, k2: int| 0 <= k1 < k2 < fl.len() ==> (#[trigger] fl[k1]).0 < (#[trigger] fl[k2]).0
            &&& forall|i: int| 0 <= i < s.len() && (#[trigger] s[i]).modifier == Some(tx) ==> exists|k: int|
                0 <= k < fl.len() && (#[trigger] fl[k]).0 == i
        }),
    decreases s.len(),
{
    if s.len() > 0 {
        let front = s.drop_last();
        lemma_flush_list_members(front, tx);
        let rest = flush_list(front, tx);
        let fl = flush_list(s, tx);
        assert forall|k: int| 0 <= k < rest.len() implies (#[trigger] rest[k]).0 < front.len() by {}
        assert forall|k: int| 0 <= k < fl.len() implies {
            &&& (#[trigger] fl[k]).0 < s.len()
            &&& s[fl[k].0 as int].modifier == Some(tx)
            &&& fl[k].1 == s[fl[k].0 as int].lsn
        } by {
            if k < rest.len() {
                assert(fl[k] == rest[k]);
                assert(s[rest[k].0 as int] == front[rest[k].0 as int]);
            }
        }
        assert forall|k1: int, k2: int| 0 <= k1 < k2 < fl.len() implies (#[trigger] fl[k1]).0 < (
        #[trigger] fl[k2]).0 by {
            if k2 < rest.len() {
                assert(fl[k1] == rest[k1]);
                assert(fl[k2] == rest[k2]);
            } else {
                assert(fl[k1] == rest[k1]);
                assert(rest[k1].0 < front.len());
            }
        }
        assert forall|i: int| 0 <= i < s.len() && (#[trigger] s[i]).modifier == Some(tx) implies exists|k: int|
            0 <= k < fl.len() && (#[trigger] fl[k]).0 == i by {
            if i < front.len() {
                assert(front[i] == s[i]);
                let k = choose|k: int| 0 <= k < rest.len() && (#[trigger] rest[k]).0 == i;
                assert(fl[k] == rest[k]);
            } else {
                assert(fl[rest.len() as int].0 == i);
            }
        }
    }
}

/// Changing one buffer changes the number of unpinned buffers by what it
/// changes of that buffer.
pub proof fn lemma_unpinned_update(s: Seq<BufferView>, i: int, b: BufferView)
    requires
        0 <= i < s.len(),
    ensures
        unpinned_count(s.update(i, b)) + (if s[i].pins == 0 {
            1int
        } else {
            0int
        }) == unpinned_count(s) + (if b.pins == 0 {
            1int
        } else {
            0int
        }),
    decreases s.len(),
{
    if i < s.len() - 1 {
        lemma_unpinned_update(s.drop_last(), i, b);
        assert(s.update(i, b).drop_last() =~= s.drop_last().update(i, b));
    } else {
        assert(s.update(i, b).drop_last() =~= s.drop_last());
    }
}

proof fn lemma_unpinned_all(n: nat, b: BufferView)
    requires
        b.pins == 0,
    ensures
        unpinned_count(Seq::new(n, |i: int| b)) == n,
    decreases n,
{
    if n > 0 {
        lemma_unpinned_all((n - 1) as nat, b);
        assert(Seq::new(n, |i: int| b).drop_last() =~= Seq::new((n - 1) as nat, |i: int| b));
    }
}

/// The pool's buffers and the number of them that no client pins.
pub struct BufferPool {
    buffers: Vec<BufferState>,
    num_availables: usize,
}

impl BufferPool {
    /// The models of the buffers.
    pub closed spec fn buffers_view(&self) -> Seq<BufferView> {
        buffer_views(self.buffers@)
    }

    /// The count of available buffers matches the unpinned buffers.
    pub closed spec fn wf(&self) -> bool {
        self.num_availables == unpinned_count(self.buffers_view())
    }

    /// A pool of `num_buffers` buffers that hold no block.
    pub fn new(num_buffers: usize) -> (r: Self)
        ensures
            r.wf(),
            r.buffers_view() == Seq::new(
                num_buffers as nat,
                |i: int| BufferView { block: None, pins: 0, modifier: None, lsn: 0 },
            ),
    {
        let mut buffers: Vec<BufferState> = Vec::new();
        let ghost empty = BufferView { block: None, pins: 0, modifier: None, lsn: 0 };
        let mut i: usize = 0;
        while i < num_buffers
            invariant
                i <= num_buffers,
                buffer_views(buffers@) == Seq::new(i as nat, |j: int| empty),
                empty == (BufferView { block: None, pins: 0, modifier: None, lsn: 0 }),
            decreases num_buffers - i,
        {
            let b = BufferState {
                block: None,
                num_pins: 0,
                modifying_transaction_id: None,
                log_sequence_number: 0,
            };
            let ghost before = buffers@;
            let ghost bg = b;
            buffers.push(b);
            proof {
                crate::seqs::lemma_map_push(before, bg, |x: BufferState| x@);
            }
            i = i + 1;
            assert(buffer_views(buffers@) =~= Seq::new(i as nat, |j: int| empty));
        }
        proof {
            lemma_unpinned_all(num_buffers as nat, empty);
        }
        BufferPool { buffers, num_availables: num_buffers }
    }

    /// The number of buffers that no client pins.
    pub fn get_num_availables(&self) -> (r: usize)
        requires
            self.wf(),
        ensures
            r == unpinned_count(self.buffers_view()),
    {
        self.num_availables
    }

    /// The number of buffers.
    pub fn len(&self) -> (r: usize)
        ensures
            r == self.buffers_view().len(),
    {
        self.buffers.len()
    }

    /// The state of buffer `i`.
    pub fn buffer(&self, i: usize) -> (r: &BufferState)
        requires
            i < self.buffers_view().len(),
        ensures
            r@ == self.buffers_view()[i as int],
    {
        &self.buffers[i]
    }

    /// The first buffer that holds `block`.
    pub fn find_existing_buffer(&self, block: &BlockId) -> (r: Option<usize>)
        ensures
            match r {
                Some(i) => first_holding(self.buffers_view(), block@, 0) == Some(i as int),
                None => first_holding(self.buffers_view(), block@, 0).is_none(),
            },
    {
        let ghost s = self.buffers_view();
        let mut i: usize = 0;
        while i < self.buffers.len()
            invariant
                i <= self.buffers@.len(),
                s == self.buffers_view(),
                first_holding(s, block@, 0) == first_holding(s, block@, i as int),
            decreases self.buffers@.len() - i,
        {
            let holds = match &self.buffers[i].block {
                Some(b) => b.same_block(block),
                None => false,
            };
            if holds {
                return Some(i);
            }
            i = i + 1;
        }
        None
    }

    /// The first buffer that no client pins.
    pub fn choose_unpinned_buffer(&self) -> (r: Option<usize>)
        ensures
            match r {
                Some(i) => first_unpinned(self.buffers_view(), 0) == Some(i as int),
                None => first_unpinned(self.buffers_view(), 0).is_none(),
            },
    {
        let ghost s = self.buffers_view();
        let mut i: usize = 0;
        while i < self.buffers.len()
            invariant
                i <= self.buffers@.len(),
                s == self.buffers_view(),
                first_unpinned(s, 0) == first_unpinned(s, i as int),
            decreases self.buffers@.len() - i,
        {
            if self.buffers[i].num_pins == 0 {
                return Some(i);
            }
            i = i + 1;
        }
        None
    }

    /// Pins a buffer for `block`: the one that holds it, else the first
    /// unpinned one, given over to it; else none.
    pub fn try_to_pin(&mut self, block: &BlockId) -> (r: PinOutcome)
        requires
            old(self).wf(),
            forall|i: int|
                0 <= i < old(self).buffers_view().len() ==> (#[trigger] old(
                    self,
                ).buffers_view()[i]).pins < usize::MAX,
        ensures
            final(self).wf(),
            match first_holding(old(self).buffers_view(), block@, 0) {
                Some(i) => r == PinOutcome::Pinned(i as usize) && final(self).buffers_view()
                    == old(self).buffers_view().update(
                    i,
                    pinned_once_more(old(self).buffers_view()[i]),
                ),
                None => match first_unpinned(old(self).buffers_view(), 0) {
                    Some(i) => {
                        &&& r == PinOutcome::Assigned(
                            i as usize,
                            if old(self).buffers_view()[i].modifier.is_some() {
                                Some(old(self).buffers_view()[i].lsn)
                            } else {
                                None
                            },
                        )
                        &&& final(self).buffers_view() == old(self).buffers_view().update(
                            i,
                            assigned(old(self).buffers_view()[i], block@),
                        )
                    },
                    None => r == PinOutcome::Unavailable && final(self).buffers_view() == old(
                        self,
                    ).buffers_view(),
                },
            },
    {
        proof {
            lemma_first_holding_bounds(self.buffers_view(), block@, 0);
            lemma_first_unpinned_bounds(self.buffers_view(), 0);
        }
        let ghost s = self.buffers_view();
        if let Some(i) = self.find_existing_buffer(block) {
            let was_unpinned = self.buffers[i].num_pins == 0;
            let mut b = self.take_buffer(i);
            b.num_pins = b.num_pins + 1;
            let ghost nb = b@;
            self.put_buffer(i, b);
            proof {
                lemma_unpinned_update(s, i as int, nb);
                assert(self.buffers_view() =~= s.update(i as int, nb));
            }
            if was_unpinned {
                self.num_availables = self.num_availables - 1;
            }
            return PinOutcome::Pinned(i);
        }
        match self.choose_unpinned_buffer() {
            Some(i) => {
                let mut b = self.take_buffer(i);
                let flush_lsn = if b.modifying_transaction_id.is_some() {
                    Some(b.log_sequence_number)
                } else {
                    None
                };
                b.block = Some(block.duplicate());
                b.modifying_transaction_id = None;
                b.num_pins = 1;
                let ghost nb = b@;
                self.put_buffer(i, b);
                proof {
                    lemma_unpinned_update(s, i as int, nb);
                    assert(self.buffers_view() =~= s.update(i as int, nb));
                }
                self.num_availables = self.num_availables - 1;
                PinOutcome::Assigned(i, flush_lsn)
            },
            None => PinOutcome::Unavailable,
        }
    }

    fn take_buffer(&mut self, i: usize) -> (r: BufferState)
        requires
            i < old(self).buffers@.len(),
        ensures
            r == old(self).buffers@[i as int],
            final(self).buffers@.len() == old(self).buffers@.len(),
            final(self).num_availables == old(self).num_availables,
            forall|j: int| 0 <= j < old(self).buffers@.len() && j != i ==> final(self).buffers@[j] == old(self).buffers@[j],
    {
        let empty = BufferState {
            block: None,
            num_pins: 0,
            modifying_transaction_id: None,
            log_sequence_number: 0,
        };
        let mut tmp = empty;
        std::mem::swap(&mut tmp, &mut self.buffers[i]);
        tmp
    }

    fn put_buffer(&mut self, i: usize, b: BufferState)
        requires
            i < old(self).buffers@.len(),
        ensures
            final(self).buffers@ == old(self).buffers@.update(i as int, b),
            final(self).num_availables == old(self).num_availables,
    {
        self.buffers.set(i, b);
    }

    /// Releases one pin of buffer `i`.
    pub fn unpin(&mut self, i: usize)
        requires
            old(self).wf(),
            i < old(self).buffers_view().len(),
            old(self).buffers_view()[i as int].pins > 0,
        ensures
            final(self).wf(),
            final(self).buffers_view() == old(self).buffers_view().update(
                i as int,
                BufferView { pins: (old(self).buffers_view()[i as int].pins - 1) as usize, ..old(self).buffers_view()[i as int] },
            ),
    {
        let _n = self.buffers.len();
        let ghost s = self.buffers_view();
        let mut b = self.take_buffer(i);
        b.num_pins = b.num_pins - 1;
        let now_unpinned = b.num_pins == 0;
        let ghost nb = b@;
        self.put_buffer(i, b);
        proof {
            lemma_unpinned_update(s, i as int, nb);
            assert(self.buffers_view() =~= s.update(i as int, nb));
            if now_unpinned {
                assert(unpinned_count(s) < s.len()) by {
                    lemma_unpinned_bound(s.update(i as int, nb));
                }
            }
        }
        if now_unpinned {
            self.num_availables = self.num_availables + 1;
        }
    }

    /// Records that transaction `tx` changed the page of buffer `i`, logged
    /// under `lsn`.
    pub fn set_modified(&mut self, i: usize, tx: usize, lsn: usize)
        requires
            old(self).wf(),
            i < old(self).buffers_view().len(),
        ensures
            final(self).wf(),
            final(self).buffers_view() == old(self).buffers_view().update(
                i as int,
                BufferView { modifier: Some(tx), lsn: lsn, ..old(self).buffers_view()[i as int] },
            ),
    {
        let ghost s = self.buffers_view();
        let mut b = self.take_buffer(i);
        b.modifying_transaction_id = Some(tx);
        b.log_sequence_number = lsn;
        let ghost nb = b@;
        self.put_buffer(i, b);
        proof {
            lemma_unpinned_update(s, i as int, nb);
            assert(self.buffers_view() =~= s.update(i as int, nb));
        }
    }

    /// Marks the buffers changed by `tx` as flushed and returns, for each,
    /// its index and the sequence number up to which the log must be flushed.
    pub fn flush_all(&mut self, tx: usize) -> (r: Vec<(usize, usize)>)
        requires
            old(self).wf(),
        ensures
            final(self).wf(),
            r@ == flush_list(old(self).buffers_view(), tx),
            final(self).buffers_view() == flushed(old(self).buffers_view(), tx),
    {
        let ghost s = self.buffers_view();
        let mut out: Vec<(usize, usize)> = Vec::new();
        let mut i: usize = 0;
        while i < self.buffers.len()
            invariant
                i <= self.buffers@.len(),
                s.len() == self.buffers@.len(),
                out@ == flush_list(s.take(i as int), tx),
                self.buffers_view() == flushed(s.take(i as int), tx) + s.skip(i as int),
                self.num_availables == unpinned_count(s),
            decreases self.buffers@.len() - i,
        {
            proof {
                assert(s.take(i + 1).drop_last() =~= s.take(i as int));
                assert(s.take(i + 1).last() == s[i as int]);
                assert(self.buffers_view()[i as int] == s[i as int]);
            }
            let ghost v0 = self.buffers_view();
            if self.buffers[i].modifying_transaction_id == Some(tx) {
                out.push((i, self.buffers[i].log_sequence_number));
                let mut b = self.take_buffer(i);
                b.modifying_transaction_id = None;
                let ghost nb = b@;
                self.put_buffer(i, b);
                proof {
                    assert(self.buffers_view() =~= v0.update(i as int, nb));
                }
            }
            i = i + 1;
            proof {
                assert(self.buffers_view() =~= flushed(s.take(i as int), tx) + s.skip(i as int));
            }
        }
        proof {
            assert(s.take(i as int) =~= s);
            assert(self.buffers_view() =~= flushed(s, tx));
            lemma_flushed_pins(s, tx);
        }
        out
    }
}

proof fn lemma_first_holding_full(s: Seq<BufferView>, block: BlockIdView, i: int)
    requires
        0 <= i,
    ensures
        match first_holding(s, block, i) {
            Some(j) => i <= j < s.len() && s[j].block == Some(block) && forall|k: int|
                i <= k < j ==> (#[trigger] s[k]).block != Some(block),
            None => forall|k: int| i <= k < s.len() ==> (#[trigger] s[k]).block != Some(block),
        },
    decreases s.len() - i,
{
    if 0 <= i < s.len() && s[i].block != Some(block) {
        lemma_first_holding_full(s, block, i + 1);
    }
}

proof fn lemma_first_unpinned_full(s: Seq<BufferView>, i: int)
    requires
        0 <= i,
    ensures
        match first_unpinned(s, i) {
            Some(j) => i <= j < s.len() && s[j].pins == 0 && forall|k: int|
                i <= k < j ==> (#[trigger] s[k]).pins != 0,
            None => forall|k: int| i <= k < s.len() ==> (#[trigger] s[k]).pins != 0,
        },
    decreases s.len() - i,
{
    if 0 <= i < s.len() && s[i].pins != 0 {
        lemma_first_unpinned_full(s, i + 1);
    }
}

/// The buffer found for a block holds it, and no buffer before it does;
/// where none is found, no buffer holds the block. The buffer chosen for a
/// new block is the first unpinned one; where none is chosen, every buffer
/// is pinned.
pub proof fn lemma_buffer_search(s: Seq<BufferView>, block: BlockIdView)
    ensures
        match first_holding(s, block, 0) {
            Some(j) => 0 <= j < s.len() && s[j].block == Some(block) && forall|k: int|
                0 <= k < j ==> (#[trigger] s[k]).block != Some(block),
            None => forall|k: int| 0 <= k < s.len() ==> (#[trigger] s[k]).block != Some(block),
        },
        match first_unpinned(s, 0) {
            Some(j) => 0 <= j < s.len() && s[j].pins == 0 && forall|k: int|
                0 <= k < j ==> (#[trigger] s[k]).pins != 0,
            None => forall|k: int| 0 <= k < s.len() ==> (#[trigger] s[k]).pins != 0,
        },
{
    lemma_first_holding_full(s, block, 0);
    lemma_first_unpinned_full(s, 0);
}

proof fn lemma_first_holding_bounds(s: Seq<BufferView>, block: BlockIdView, i: int)
    ensures
        match first_holding(s, block, i) {
            Some(j) => i <= j < s.len() && 0 <= j && s[j].block == Some(block),
            None => true,
        },
    decreases s.len() - i,
{
    if 0 <= i < s.len() && s[i].block != Some(block) {
        lemma_first_holding_bounds(s, block, i + 1);
    }
}

proof fn lemma_first_unpinned_bounds(s: Seq<BufferView>, i: int)
    ensures
        match first_unpinned(s, i) {
            Some(j) => i <= j < s.len() && 0 <= j && s[j].pins == 0,
            None => true,
        },
    decreases s.len() - i,
{
    if 0 <= i < s.len() && s[i].pins != 0 {
        lemma_first_unpinned_bounds(s, i + 1);
    }
}

proof fn lemma_unpinned_bound(s: Seq<BufferView>)
    ensures
        unpinned_count(s) <= s.len(),
    decreases s.len(),
{
    if s.len() > 0 {
        lemma_unpinned_bound(s.drop_last());
    }
}

proof fn lemma_flushed_pins(s: Seq<BufferView>, tx: usize)
    ensures
        unpinned_count(flushed(s, tx)) == unpinned_count(s),
    decreases s.len(),
{
    if s.len() > 0 {
        lemma_flushed_pins(s.drop_last(), tx);
        assert(flushed(s, tx).drop_last() =~= flushed(s.drop_last(), tx));
    }
}

} // verus!
