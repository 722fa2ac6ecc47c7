use vstd::prelude::*;

use crate::bytes::str_eq;
use crate::plan::PlanControl;

verus! {

/// The statistics of a table: how many blocks and records it has.
#[derive(Debug, Clone, Copy, PartialEq, Eq)]
pub struct StatInfo {
    num_blocks: usize,
    num_records: usize,
}

impl View for StatInfo {
    type V = (usize, usize);

    closed spec fn view(&self) -> (usize, usize) {
        (self.num_blocks, self.num_records)
    }
}

/// The estimated number of distinct values of any field of a table with
/// `num_records` records: a third of them, plus one.
pub open spec fn estimated_distinct(num_records: usize) -> usize {
    (1 + num_records / 3) as usize
}

impl StatInfo {
    /// The statistics of a table of `num_blocks` blocks and `num_records` records.
    pub fn new(num_blocks: usize, num_records: usize) -> (s: Self)
        ensures
            s@ == (num_blocks, num_records),
    {
        StatInfo { num_blocks, num_records }
    }

    /// The number of blocks in the table.
    pub fn get_num_blocks(&self) -> (r: usize)
        ensures
            r == self@.0,
    {
        self.num_blocks
    }

    /// The number of records in the table.
    pub fn get_num_records(&self) -> (r: usize)
        ensures
            r == self@.1,
    {
        self.num_records
    }

    /// The estimated number of distinct values of a field; the same for every field.
    pub fn get_distinct_values(&self, field_name: &str) -> (r: usize)
        ensures
            r == estimated_distinct(self@.1),
    {
        1 + self.num_records / 3
    }
}

impl PlanControl for StatInfo {
    open spec fn distinct_values(&self, field_name: Seq<char>) -> usize {
        estimated_distinct(self@.1)
    }

    fn num_distinct_values(&self, field_name: &str) -> (r: usize) {
        self.get_distinct_values(field_name)
    }
}

/// The statistics that a scan of a table gathers from the block of each of
/// its records, in scan order: one more than the last record's block, and
/// the number of records.
pub open spec fn stat_of_blocks(blocks: Seq<usize>) -> (usize, usize) {
    if blocks.len() == 0 {
        (0, 0)
    } else {
        ((blocks.last() + 1) as usize, blocks.len() as usize)
    }
}

/// The statistics of a table whose records lie in the given blocks, in scan order.
pub fn calculate_table_stat(blocks: &Vec<usize>) -> (r: StatInfo)
    requires
        forall|i: int| 0 <= i < blocks@.len() ==> #[trigger] blocks@[i] < usize::MAX,
    ensures
        r@ == stat_of_blocks(blocks@),
{
    let mut num_blocks: usize = 0;
    let mut num_records: usize = 0;
    let mut i: usize = 0;
    while i < blocks.len()
        invariant
            i <= blocks@.len(),
            forall|k: int| 0 <= k < blocks@.len() ==> #[trigger] blocks@[k] < usize::MAX,
            (num_blocks, num_records) == stat_of_blocks(blocks@.take(i as int)),
        decreases blocks@.len() - i,
    {
        num_records = num_records + 1;
        num_blocks = blocks[i] + 1;
        i = i + 1;
        proof {
            assert(blocks@.take(i as int).last() == blocks@[i - 1]);
        }
    }
    assert(blocks@.take(i as int) =~= blocks@);
    StatInfo::new(num_blocks, num_records)
}

/// The model of a cache of statistics: table names and their statistics.
pub type StatCacheView = Seq<(Seq<char>, (usize, usize))>;

/// The statistics cached for a table, if any.
pub open spec fn cached(v: StatCacheView, name: Seq<char>) -> Option<(usize, usize)>
    decreases v.len(),
{
    if v.len() == 0 {
        None
    } else if v[0].0 == name {
        Some(v[0].1)
    } else {
        cached(v.drop_first(), name)
    }
}

proof fn lemma_cached_push(v: StatCacheView, name: Seq<char>, stat: (usize, usize), other: Seq<char>)
    requires
        cached(v, name).is_none(),
    ensures
        cached(v.push((name, stat)), other) == if other == name {
            Some(stat)
        } else {
            cached(v, other)
        },
    decreases v.len(),
{
    let w = v.push((name, stat));
    if v.len() > 0 {
        assert(w[0] == v[0]);
        assert(v[0].0 != name);
        lemma_cached_push(v.drop_first(), name, stat, other);
        assert(w.drop_first() =~= v.drop_first().push((name, stat)));
    } else {
        assert(w.drop_first() =~= Seq::<(Seq<char>, (usize, usize))>::empty());
        assert(cached(w.drop_first(), other).is_none());
        assert(w[0] == (name, stat));
    }
}

proof fn lemma_cached_update(v: StatCacheView, i: int, stat: (usize, usize), other: Seq<char>)
    requires
        0 <= i < v.len(),
        forall|j: int| 0 <= j < i ==> v[j].0 != v[i].0,
    ensures
        cached(v.update(i, (v[i].0, stat)), other) == if other == v[i].0 {
            Some(stat)
        } else {
            cached(v, other)
        },
    decreases v.len(),
{
    let w = v.update(i, (v[i].0, stat));
    if i > 0 {
        assert(w[0] == v[0]);
        assert(v[0].0 != v[i].0);
        lemma_cached_update(v.drop_first(), i - 1, stat, other);
        assert(w.drop_first() =~= v.drop_first().update(i - 1, (v[i].0, stat)));
    } else {
        assert(w[0] == (v[0].0, stat));
        assert(w.drop_first() =~= v.drop_first());
    }
}

proof fn lemma_cached_found(v: StatCacheView, i: int)
    requires
        0 <= i < v.len(),
        forall|j: int| 0 <= j < i ==> v[j].0 != v[i].0,
    ensures
        cached(v, v[i].0) == Some(v[i].1),
    decreases i,
{
    if i > 0 {
        lemma_cached_found(v.drop_first(), i - 1);
    }
}

proof fn lemma_cached_absent(v: StatCacheView, name: Seq<char>)
    requires
        forall|j: int| 0 <= j < v.len() ==> v[j].0 != name,
    ensures
        cached(v, name).is_none(),
    decreases v.len(),
{
    if v.len() > 0 {
        lemma_cached_absent(v.drop_first(), name);
    }
}

/// The periodic refresh of the statistics comes every this many requests.
pub const REFRESH_PERIOD: usize = 100;

/// What answers a request for a table's statistics.
#[derive(Debug, Clone, Copy, PartialEq, Eq)]
pub enum StatRequest {
    /// The cached statistics.
    Found(StatInfo),
    /// None are cached: the table's statistics must be gathered.
    Gather,
    /// A refresh is due: every table's statistics must be gathered.
    RefreshAll,
}

/// Caches the statistics of tables and says when they are due for a refresh.
/// Gathering statistics means scanning tables; that is left to the caller.
pub struct StatManager {
    table_stats: Vec<(String, StatInfo)>,
    num_calls: usize,
}

impl StatManager {
    /// The cached statistics, by table name.
    pub closed spec fn cache(&self) -> StatCacheView {
        self.table_stats@.map_values(|p: (String, StatInfo)| (p.0@, p.1@))
    }

    /// The number of requests since the last refresh.
    pub closed spec fn calls(&self) -> nat {
        self.num_calls as nat
    }

    /// A manager with nothing cached.
    pub fn new() -> (r: Self)
        ensures
            forall|name: Seq<char>| cached(#[trigger] r.cache(), name).is_none(),
            r.calls() == 0,
    {
        let r = StatManager { table_stats: Vec::new(), num_calls: 0 };
        assert forall|name: Seq<char>| cached(#[trigger] r.cache(), name).is_none() by {
            assert(r.cache().len() == 0);
        }
        r
    }

    /// Counts a request for statistics; true when the count reaches a
    /// multiple of the refresh period, and every table's statistics must be
    /// gathered again and handed to `refresh_statistics`.
    pub fn count_call(&mut self) -> (due: bool)
        requires
            old(self).calls() < usize::MAX,
        ensures
            final(self).calls() == old(self).calls() + 1,
            final(self).cache() == old(self).cache(),
            due == ((old(self).calls() + 1) % 100 == 0),
    {
        self.num_calls = self.num_calls + 1;
        self.num_calls % REFRESH_PERIOD == 0
    }

    /// The cached statistics of a table, if any.
    pub fn lookup(&self, table_name: &str) -> (r: Option<StatInfo>)
        ensures
            match r {
                Some(s) => cached(self.cache(), table_name@) == Some(s@),
                None => cached(self.cache(), table_name@).is_none(),
            },
    {
        let ghost v = self.cache();
        let mut i: usize = 0;
        assert(v.skip(0) =~= v);
        while i < self.table_stats.len()
            invariant
                i <= self.table_stats@.len(),
                v == self.cache(),
                cached(v, table_name@) == cached(v.skip(i as int), table_name@),
            decreases self.table_stats@.len() - i,
        {
            proof {
                assert(v.skip(i as int)[0] == v[i as int]);
                assert(v.skip(i as int).drop_first() =~= v.skip(i + 1));
            }
            if str_eq(self.table_stats[i].0.as_str(), table_name) {
                return Some(self.table_stats[i].1);
            }
            i = i + 1;
        }
        proof {
            assert(v.skip(i as int).len() == 0);
        }
        None
    }

    /// Caches the statistics of a table, replacing any it had.
    pub fn remember(&mut self, table_name: &str, stat: StatInfo)
        ensures
            cached(final(self).cache(), table_name@) == Some(stat@),
            forall|other: Seq<char>|
                other != table_name@ ==> cached(#[trigger] final(self).cache(), other) == cached(
                    old(self).cache(),
                    other,
                ),
            final(self).calls() == old(self).calls(),
    {
        let ghost v = self.cache();
        let mut i: usize = 0;
        while i < self.table_stats.len()
            invariant
                i <= self.table_stats@.len(),
                v == self.cache(),
                self.num_calls == old(self).num_calls,
                v == old(self).cache(),
                forall|j: int| 0 <= j < i ==> v[j].0 != table_name@,
            decreases self.table_stats@.len() - i,
        {
            if str_eq(self.table_stats[i].0.as_str(), table_name) {
                let name = self.table_stats[i].0.clone();
                self.table_stats.set(i, (name, stat));
                proof {
                    assert(self.cache() =~= v.update(i as int, (v[i as int].0, stat@)));
                    assert forall|other: Seq<char>| true implies cached(
                        #[trigger] self.cache(),
                        other,
                    ) == if other == table_name@ {
                        Some(stat@)
                    } else {
                        cached(v, other)
                    } by {
                        lemma_cached_update(v, i as int, stat@, other);
                    }
                }
                return;
            }
            i = i + 1;
        }
        let ghost before = self.table_stats@;
        self.table_stats.push((table_name.to_string(), stat));
        proof {
            assert(self.cache() =~= v.push((table_name@, stat@)));
            lemma_cached_absent(v, table_name@);
            assert forall|other: Seq<char>| true implies cached(#[trigger] self.cache(), other)
                == if other == table_name@ {
                Some(stat@)
            } else {
                cached(v, other)
            } by {
                lemma_cached_push(v, table_name@, stat@, other);
            }
        }
    }

    /// A request for a table's statistics: counts it, and says what answers
    /// it. On every hundredth request since the last refresh, every table's
    /// statistics must be gathered again and handed to `refresh_statistics`
    /// before the request is answered; otherwise the cached statistics
    /// answer it, or, where none are cached, the table's statistics must be
    /// gathered and handed to `remember`.
    pub fn request_stat(&mut self, table_name: &str) -> (r: StatRequest)
        requires
            old(self).calls() < usize::MAX,
        ensures
            final(self).calls() == old(self).calls() + 1,
            final(self).cache() == old(self).cache(),
            (old(self).calls() + 1) % 100 == 0 ==> r == StatRequest::RefreshAll,
            (old(self).calls() + 1) % 100 != 0 ==> match cached(old(self).cache(), table_name@) {
                Some(v) => r matches StatRequest::Found(s) && s@ == v,
                None => r == StatRequest::Gather,
            },
    {
        if self.count_call() {
            return StatRequest::RefreshAll;
        }
        match self.lookup(table_name) {
            Some(s) => StatRequest::Found(s),
            None => StatRequest::Gather,
        }
    }

    /// Replaces the whole cache by freshly gathered statistics, and starts
    /// counting requests again.
    pub fn refresh_statistics(&mut self, stats: Vec<(String, StatInfo)>)
        ensures
            final(self).calls() == 0,
            forall|name: Seq<char>|
                cached(#[trigger] final(self).cache(), name) == cached(
                    stats@.map_values(|p: (String, StatInfo)| (p.0@, p.1@)).reverse(),
                    name,
                ),
    {
        self.table_stats = Vec::new();
        self.num_calls = 0;
        let ghost sv = stats@.map_values(|p: (String, StatInfo)| (p.0@, p.1@));
        let mut i: usize = 0;
        proof {
            assert forall|name: Seq<char>| cached(#[trigger] self.cache(), name) == cached(
                sv.take(0).reverse(),
                name,
            ) by {
                assert(self.cache().len() == 0);
                assert(sv.take(0).reverse().len() == 0);
            }
        }
        while i < stats.len()
            invariant
                i <= stats@.len(),
                sv == stats@.map_values(|p: (String, StatInfo)| (p.0@, p.1@)),
                self.num_calls == 0,
                forall|name: Seq<char>|
                    cached(#[trigger] self.cache(), name) == cached(sv.take(i as int).reverse(), name),
            decreases stats@.len() - i,
        {
            let ghost before = self.cache();
            self.remember(stats[i].0.as_str(), stats[i].1);
            proof {
                let r0 = sv.take(i as int).reverse();
                let r1 = sv.take(i + 1).reverse();
                assert(r1 =~= seq![sv[i as int]] + r0);
                assert(sv[i as int] == (stats@[i as int].0@, stats@[i as int].1@));
                assert forall|name: Seq<char>| cached(#[trigger] self.cache(), name) == cached(
                    r1,
                    name,
                ) by {
                    assert(r1[0] == sv[i as int]);
                    assert(r1.drop_first() =~= r0);
                }
            }
            i = i + 1;
        }
        proof {
            assert(sv.take(i as int) =~= sv);
        }
    }
}

} // verus!
