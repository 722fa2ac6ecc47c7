use vstd::prelude::*;

use crate::materialization::sort_scan::SortScan;
use crate::record::field::{lemma_value_order, value_order, Value, ValueView};
use crate::record::schema::{schema_has, SchemaView};
use crate::scan::{row_has, row_position, row_value, RowView, ScanControl};

verus! {

/// The pairs `(i, j)`, `j` from `j0` on, of records of `b` whose field `f2`
/// holds `key`: the matches of record `i` of the other side.
pub open spec fn matches_of(key: ValueView, b: Seq<RowView>, f2: Seq<char>, i: int, j0: int) -> Seq<
    (int, int),
>
    decreases b.len() - j0,
{
    if j0 < 0 || j0 >= b.len() {
        Seq::empty()
    } else {
        (if row_value(b[j0], f2) == key {
            seq![(i, j0)]
        } else {
            Seq::empty()
        }) + matches_of(key, b, f2, i, j0 + 1)
    }
}

/// The pairs of records of `a`, from record `i0` on, and of `b` whose join
/// fields hold equal values, by the record of `a` and then of `b`.
pub open spec fn pairs_from(
    a: Seq<RowView>,
    b: Seq<RowView>,
    f1: Seq<char>,
    f2: Seq<char>,
    i0: int,
) -> Seq<(int, int)>
    decreases a.len() - i0,
{
    if i0 < 0 || i0 >= a.len() {
        Seq::empty()
    } else {
        matches_of(row_value(a[i0], f1), b, f2, i0, 0) + pairs_from(a, b, f1, f2, i0 + 1)
    }
}

/// The records of the join of `a` and `b` on `f1 = f2`: each matching pair
/// of records, the fields of the first followed by those of the second.
pub open spec fn join_rows(a: Seq<RowView>, b: Seq<RowView>, f1: Seq<char>, f2: Seq<char>) -> Seq<
    RowView,
> {
    pairs_from(a, b, f1, f2, 0).map_values(|p: (int, int)| a[p.0] + b[p.1])
}

proof fn lemma_matches_contains(key: ValueView, b: Seq<RowView>, f2: Seq<char>, i: int, j0: int, x: int, y: int)
    requires
        0 <= j0,
    ensures
        matches_of(key, b, f2, i, j0).contains((x, y)) <==> (x == i && j0 <= y < b.len() && row_value(
            b[y],
            f2,
        ) == key),
    decreases b.len() - j0,
{
    if j0 < b.len() {
        lemma_matches_contains(key, b, f2, i, j0 + 1, x, y);
        let head: Seq<(int, int)> = if row_value(b[j0], f2) == key {
            seq![(i, j0)]
        } else {
            Seq::empty()
        };
        let tail = matches_of(key, b, f2, i, j0 + 1);
        assert(matches_of(key, b, f2, i, j0) == head + tail);
        if (head + tail).contains((x, y)) {
            let k = choose|k: int| 0 <= k < (head + tail).len() && (head + tail)[k] == (x, y);
            if k >= head.len() {
                assert(tail[k - head.len()] == (x, y));
            }
        }
        if x == i && j0 <= y < b.len() && row_value(b[y], f2) == key {
            if y == j0 {
                assert((head + tail)[0] == (x, y));
            } else {
                let k = choose|k: int| 0 <= k < tail.len() && tail[k] == (x, y);
                assert((head + tail)[head.len() + k] == (x, y));
            }
        }
    }
}

/// The join holds exactly the pairs of records whose join fields hold equal
/// values: a pair of positions is in it if and only if they match.
pub proof fn lemma_join_pairs(a: Seq<RowView>, b: Seq<RowView>, f1: Seq<char>, f2: Seq<char>, i0: int, x: int, y: int)
    requires
        0 <= i0,
    ensures
        pairs_from(a, b, f1, f2, i0).contains((x, y)) <==> (i0 <= x < a.len() && 0 <= y < b.len()
            && row_value(b[y], f2) == row_value(a[x], f1)),
    decreases a.len() - i0,
{
    if i0 < a.len() {
        lemma_join_pairs(a, b, f1, f2, i0 + 1, x, y);
        lemma_matches_contains(row_value(a[i0], f1), b, f2, i0, 0, x, y);
        let head = matches_of(row_value(a[i0], f1), b, f2, i0, 0);
        let tail = pairs_from(a, b, f1, f2, i0 + 1);
        assert(pairs_from(a, b, f1, f2, i0) == head + tail);
        if (head + tail).contains((x, y)) {
            let k = choose|k: int| 0 <= k < (head + tail).len() && (head + tail)[k] == (x, y);
            if k < head.len() {
                assert(head[k] == (x, y));
            } else {
                assert(tail[k - head.len()] == (x, y));
            }
        }
        if i0 <= x < a.len() && 0 <= y < b.len() && row_value(b[y], f2) == row_value(a[x], f1) {
            if x == i0 {
                let k = choose|k: int| 0 <= k < head.len() && head[k] == (x, y);
                assert((head + tail)[k] == (x, y));
            } else {
                let k = choose|k: int| 0 <= k < tail.len() && tail[k] == (x, y);
                assert((head + tail)[head.len() + k] == (x, y));
            }
        }
    }
}

/// Whether the records come in the order of the values of field `f`.
pub open spec fn keys_sorted(rows: Seq<RowView>, f: Seq<char>) -> bool {
    forall|i: int, j: int|
        0 <= i < j < rows.len() ==> value_order(row_value(rows[i], f), row_value(rows[j], f)) <= 0
}

/// Whether every record has field `f`.
pub open spec fn all_have_field(rows: Seq<RowView>, f: Seq<char>) -> bool {
    forall|i: int| 0 <= i < rows.len() ==> row_has(#[trigger] rows[i], f)
}

/// Whether the records have exactly the fields the schema names.
pub open spec fn rows_match_schema(rows: Seq<RowView>, schema: SchemaView) -> bool {
    forall|i: int, f: Seq<char>|
        #![trigger row_has(rows[i], f)]
        0 <= i < rows.len() ==> (row_has(rows[i], f) <==> schema_has(schema, f))
}

proof fn lemma_matches_none(key: ValueView, b: Seq<RowView>, f2: Seq<char>, i: int, j0: int)
    requires
        0 <= j0,
        forall|j: int| j0 <= j < b.len() ==> row_value(#[trigger] b[j], f2) != key,
    ensures
        matches_of(key, b, f2, i, j0) == Seq::<(int, int)>::empty(),
    decreases b.len() - j0,
{
    if j0 < b.len() {
        lemma_matches_none(key, b, f2, i, j0 + 1);
        assert(matches_of(key, b, f2, i, j0) =~= Seq::<(int, int)>::empty());
    }
}

proof fn lemma_matches_skip(key: ValueView, b: Seq<RowView>, f2: Seq<char>, i: int, j0: int, k: int)
    requires
        0 <= j0 <= k <= b.len(),
        forall|j: int| j0 <= j < k ==> row_value(#[trigger] b[j], f2) != key,
    ensures
        matches_of(key, b, f2, i, j0) == matches_of(key, b, f2, i, k),
    decreases k - j0,
{
    if j0 < k {
        lemma_matches_skip(key, b, f2, i, j0 + 1, k);
        assert(matches_of(key, b, f2, i, j0) =~= matches_of(key, b, f2, i, j0 + 1));
    }
}

proof fn lemma_pairs_none(a: Seq<RowView>, b: Seq<RowView>, f1: Seq<char>, f2: Seq<char>, i0: int)
    requires
        0 <= i0,
        forall|i: int, j: int|
            i0 <= i < a.len() && 0 <= j < b.len() ==> row_value(#[trigger] b[j], f2) != row_value(
                #[trigger] a[i],
                f1,
            ),
    ensures
        pairs_from(a, b, f1, f2, i0) == Seq::<(int, int)>::empty(),
    decreases a.len() - i0,
{
    if i0 < a.len() {
        lemma_matches_none(row_value(a[i0], f1), b, f2, i0, 0);
        lemma_pairs_none(a, b, f1, f2, i0 + 1);
        assert(pairs_from(a, b, f1, f2, i0) =~= Seq::<(int, int)>::empty());
    }
}

/// Whether `x` orders strictly before `y`.
pub open spec fn before(x: ValueView, y: ValueView) -> bool {
    value_order(x, y) < 0
}

/// In records sorted by `f`, a record whose key lies strictly after `key`
/// has only records with keys strictly after `key` behind it.
proof fn lemma_after_stays_after(rows: Seq<RowView>, f: Seq<char>, key: ValueView, j: int)
    requires
        keys_sorted(rows, f),
        0 <= j < rows.len(),
        before(key, row_value(rows[j], f)),
    ensures
        forall|k: int| j <= k < rows.len() ==> before(key, row_value(#[trigger] rows[k], f)),
{
    assert forall|k: int| j <= k < rows.len() implies before(key, row_value(#[trigger] rows[k], f)) by {
        if k > j {
            lemma_value_order(key, row_value(rows[j], f), row_value(rows[k], f));
            lemma_value_order(row_value(rows[j], f), row_value(rows[k], f), key);
            lemma_value_order(key, row_value(rows[k], f), row_value(rows[k], f));
            if value_order(key, row_value(rows[k], f)) == 0 {
                assert(key == row_value(rows[k], f));
            }
        }
    }
}

/// The value of a field of two rows put together: taken from the first where
/// it has the field, else from the second.
pub proof fn lemma_row_value_concat(x: RowView, y: RowView, f: Seq<char>)
    requires
        row_has(x + y, f),
    ensures
        row_has(x, f) ==> row_value(x + y, f) == row_value(x, f),
        !row_has(x, f) ==> row_has(y, f) && row_value(x + y, f) == row_value(y, f),
{
    let z = x + y;
    let p = row_position(z, f);
    let w = choose|i: int| 0 <= i < z.len() && #[trigger] z[i].0 == f;
    lemma_first_position(z, f, w);
    if row_has(x, f) {
        let wx = choose|i: int| 0 <= i < x.len() && #[trigger] x[i].0 == f;
        lemma_first_position(x, f, wx);
        let px = row_position(x, f);
        assert(z[px].0 == f);
        assert forall|j: int| 0 <= j < px implies z[j].0 != f by {
            assert(z[j] == x[j]);
        }
        lemma_position_unique(z, f, p, px);
    } else {
        assert(forall|j: int| 0 <= j < x.len() ==> #[trigger] x[j].0 != f);
        assert(p >= x.len()) by {
            if p < x.len() {
                assert(z[p] == x[p]);
            }
        }
        assert(y[p - x.len()].0 == f);
        assert(row_has(y, f));
        let wy = choose|i: int| 0 <= i < y.len() && #[trigger] y[i].0 == f;
        lemma_first_position(y, f, wy);
        let py = row_position(y, f);
        assert(z[x.len() + py] == y[py]);
        assert forall|j: int| 0 <= j < x.len() + py implies z[j].0 != f by {
            if j < x.len() {
                assert(z[j] == x[j]);
            } else {
                assert(z[j] == y[j - x.len()]);
            }
        }
        lemma_position_unique(z, f, p, x.len() + py);
    }
}

proof fn lemma_first_position(v: RowView, f: Seq<char>, w: int)
    requires
        0 <= w < v.len(),
        v[w].0 == f,
    ensures
        0 <= row_position(v, f) < v.len(),
        v[row_position(v, f)].0 == f,
        forall|j: int| 0 <= j < row_position(v, f) ==> v[j].0 != f,
    decreases w,
{
    if exists|j: int| 0 <= j < w && #[trigger] v[j].0 == f {
        let j = choose|j: int| 0 <= j < w && #[trigger] v[j].0 == f;
        lemma_first_position(v, f, j);
    } else {
        assert(forall|j: int| 0 <= j < w ==> #[trigger] v[j].0 != f);
    }
}

proof fn lemma_position_unique(v: RowView, f: Seq<char>, p: int, q: int)
    requires
        0 <= p < v.len(),
        0 <= q < v.len(),
        v[p].0 == f,
        v[q].0 == f,
        forall|j: int| 0 <= j < p ==> v[j].0 != f,
        forall|j: int| 0 <= j < q ==> v[j].0 != f,
    ensures
        p == q,
{
}


/// The merge is on pair `(i, j)`, the `e`-th one, whose key is `v`; `lo` is
/// the first record of `b` with that key, and the pairs after it are the
/// rest of `i`'s matches, then those of the records after `i`.
pub open spec fn emitting(
    a: Seq<RowView>,
    b: Seq<RowView>,
    f1: Seq<char>,
    f2: Seq<char>,
    e: int,
    i: int,
    j: int,
    lo: int,
    v: ValueView,
) -> bool {
    let p = pairs_from(a, b, f1, f2, 0);
    &&& 0 <= i < a.len()
    &&& 0 <= lo <= j < b.len()
    &&& v == row_value(a[i], f1)
    &&& row_value(b[j], f2) == v
    &&& row_value(b[lo], f2) == v
    &&& forall|k: int| 0 <= k < lo ==> before(row_value(#[trigger] b[k], f2), v)
    &&& 1 <= e <= p.len()
    &&& p[e - 1] == (i, j)
    &&& p.skip(e) == matches_of(v, b, f2, i, j + 1) + pairs_from(a, b, f1, f2, i + 1)
}

/// The merge looks for the next pair from record `i` of `a` and record `jb`
/// of `b` on (either at the end where used up); the records of `b` before
/// `jb` have keys before that of `i`.
pub open spec fn scanning(
    a: Seq<RowView>,
    b: Seq<RowView>,
    f1: Seq<char>,
    f2: Seq<char>,
    e: int,
    i: int,
    jb: int,
) -> bool {
    let p = pairs_from(a, b, f1, f2, 0);
    &&& 0 <= i <= a.len()
    &&& 0 <= jb <= b.len()
    &&& 0 <= e <= p.len()
    &&& p.skip(e) == pairs_from(a, b, f1, f2, i)
    &&& i < a.len() ==> forall|k: int| 0 <= k < jb ==> before(row_value(#[trigger] b[k], f2), row_value(a[i], f1))
}

/// Whether both sides are sorted by their join fields and have them.
pub open spec fn sides_ok(a: Seq<RowView>, b: Seq<RowView>, f1: Seq<char>, f2: Seq<char>) -> bool {
    &&& all_have_field(a, f1)
    &&& all_have_field(b, f2)
    &&& keys_sorted(a, f1)
    &&& keys_sorted(b, f2)
}

proof fn lemma_skip_cons(p: Seq<(int, int)>, e: int, x: (int, int), rest: Seq<(int, int)>)
    requires
        0 <= e <= p.len(),
        p.skip(e) == seq![x] + rest,
    ensures
        e < p.len(),
        p[e] == x,
        p.skip(e + 1) == rest,
{
    assert(p.skip(e).len() == p.len() - e);
    assert((seq![x] + rest).len() >= 1);
    assert(p.skip(e)[0] == p[e]);
    assert(p.skip(e + 1) =~= p.skip(e).drop_first());
    assert((seq![x] + rest).drop_first() =~= rest);
}

/// In a sorted side, a record with a key equal to `v` is preceded only by
/// keys at most `v`.
proof fn lemma_sorted_le(rows: Seq<RowView>, f: Seq<char>, j: int, k: int)
    requires
        keys_sorted(rows, f),
        0 <= k <= j < rows.len(),
    ensures
        value_order(row_value(rows[k], f), row_value(rows[j], f)) <= 0,
{
    if k < j {
    } else {
        lemma_value_order(row_value(rows[k], f), row_value(rows[k], f), row_value(rows[k], f));
    }
}

/// The next record of `b` also holds the key: the next pair is `(i, j + 1)`.
proof fn lemma_emit_next_right(
    a: Seq<RowView>,
    b: Seq<RowView>,
    f1: Seq<char>,
    f2: Seq<char>,
    e: int,
    i: int,
    j: int,
    lo: int,
    v: ValueView,
)
    requires
        emitting(a, b, f1, f2, e, i, j, lo, v),
        j + 1 < b.len(),
        row_value(b[j + 1], f2) == v,
    ensures
        emitting(a, b, f1, f2, e + 1, i, j + 1, lo, v),
{
    let p = pairs_from(a, b, f1, f2, 0);
    let rest = matches_of(v, b, f2, i, j + 2) + pairs_from(a, b, f1, f2, i + 1);
    assert(matches_of(v, b, f2, i, j + 1) + pairs_from(a, b, f1, f2, i + 1) =~= seq![(i, j + 1)]
        + rest);
    lemma_skip_cons(p, e, (i, j + 1), rest);
}

/// The match of `i` ends where `b` is used up or its next key differs: no
/// pair of `i` is left.
proof fn lemma_matches_end(
    a: Seq<RowView>,
    b: Seq<RowView>,
    f1: Seq<char>,
    f2: Seq<char>,
    e: int,
    i: int,
    j: int,
    lo: int,
    v: ValueView,
)
    requires
        sides_ok(a, b, f1, f2),
        emitting(a, b, f1, f2, e, i, j, lo, v),
        j + 1 < b.len() ==> row_value(b[j + 1], f2) != v,
    ensures
        pairs_from(a, b, f1, f2, 0).skip(e) == pairs_from(a, b, f1, f2, i + 1),
        forall|k: int| 0 <= k <= j ==> value_order(row_value(#[trigger] b[k], f2), v) <= 0,
{
    if j + 1 < b.len() {
        lemma_value_order(row_value(b[j], f2), row_value(b[j + 1], f2), v);
        lemma_value_order(v, row_value(b[j + 1], f2), v);
        assert(before(v, row_value(b[j + 1], f2)));
        lemma_after_stays_after(b, f2, v, j + 1);
        assert forall|k: int| j + 1 <= k < b.len() implies row_value(#[trigger] b[k], f2) != v by {
            assert(before(v, row_value(b[k], f2)));
            lemma_value_order(v, row_value(b[k], f2), v);
        }
    }
    lemma_matches_none(v, b, f2, i, j + 1);
    assert(matches_of(v, b, f2, i, j + 1) + pairs_from(a, b, f1, f2, i + 1) =~= pairs_from(
        a,
        b,
        f1,
        f2,
        i + 1,
    ));
    assert forall|k: int| 0 <= k <= j implies value_order(row_value(#[trigger] b[k], f2), v) <= 0 by {
        lemma_sorted_le(b, f2, j, k);
    }
}

/// Record `i` of `a`, whose key first appears at record `lo` of `b`, pairs
/// first with `lo`.
proof fn lemma_first_match(
    a: Seq<RowView>,
    b: Seq<RowView>,
    f1: Seq<char>,
    f2: Seq<char>,
    i: int,
    lo: int,
)
    requires
        0 <= i < a.len(),
        0 <= lo < b.len(),
        row_value(b[lo], f2) == row_value(a[i], f1),
        forall|k: int| 0 <= k < lo ==> row_value(#[trigger] b[k], f2) != row_value(a[i], f1),
    ensures
        pairs_from(a, b, f1, f2, i) == seq![(i, lo)] + (matches_of(
            row_value(a[i], f1),
            b,
            f2,
            i,
            lo + 1,
        ) + pairs_from(a, b, f1, f2, i + 1)),
{
    let v = row_value(a[i], f1);
    lemma_matches_skip(v, b, f2, i, 0, lo);
    assert(matches_of(v, b, f2, i, lo) =~= seq![(i, lo)] + matches_of(v, b, f2, i, lo + 1));
    assert(pairs_from(a, b, f1, f2, i) =~= seq![(i, lo)] + (matches_of(v, b, f2, i, lo + 1)
        + pairs_from(a, b, f1, f2, i + 1)));
}

/// The next record of `a` holds the same key: it pairs with the first
/// record of `b` that holds it.
proof fn lemma_emit_next_left(
    a: Seq<RowView>,
    b: Seq<RowView>,
    f1: Seq<char>,
    f2: Seq<char>,
    e: int,
    i: int,
    j: int,
    lo: int,
    v: ValueView,
)
    requires
        sides_ok(a, b, f1, f2),
        emitting(a, b, f1, f2, e, i, j, lo, v),
        j + 1 < b.len() ==> row_value(b[j + 1], f2) != v,
        i + 1 < a.len(),
        row_value(a[i + 1], f1) == v,
    ensures
        emitting(a, b, f1, f2, e + 1, i + 1, lo, lo, v),
{
    let p = pairs_from(a, b, f1, f2, 0);
    lemma_matches_end(a, b, f1, f2, e, i, j, lo, v);
    assert forall|k: int| 0 <= k < lo implies row_value(#[trigger] b[k], f2) != v by {
        assert(before(row_value(b[k], f2), v));
        lemma_value_order(row_value(b[k], f2), v, v);
    }
    lemma_first_match(a, b, f1, f2, i + 1, lo);
    let rest = matches_of(v, b, f2, i + 1, lo + 1) + pairs_from(a, b, f1, f2, i + 2);
    lemma_skip_cons(p, e, (i + 1, lo), rest);
}


/// Once the match of `i` ends and the next record of `a` (if any) holds
/// another key, the merge goes back to looking.
proof fn lemma_to_scanning(
    a: Seq<RowView>,
    b: Seq<RowView>,
    f1: Seq<char>,
    f2: Seq<char>,
    e: int,
    i: int,
    j: int,
    lo: int,
    v: ValueView,
)
    requires
        sides_ok(a, b, f1, f2),
        emitting(a, b, f1, f2, e, i, j, lo, v),
        j + 1 < b.len() ==> row_value(b[j + 1], f2) != v,
        i + 1 < a.len() ==> row_value(a[i + 1], f1) != v,
    ensures
        scanning(a, b, f1, f2, e, i + 1, j + 1),
{
    lemma_matches_end(a, b, f1, f2, e, i, j, lo, v);
    if i + 1 < a.len() {
        let w = row_value(a[i + 1], f1);
        lemma_value_order(v, w, w);
        assert(before(v, w));
        assert forall|k: int| 0 <= k < j + 1 implies before(row_value(#[trigger] b[k], f2), w) by {
            lemma_value_order(row_value(b[k], f2), v, w);
            lemma_value_order(v, w, row_value(b[k], f2));
            if value_order(row_value(b[k], f2), w) == 0 {
                lemma_value_order(row_value(b[k], f2), w, v);
            }
        }
    }
}

/// While looking, a record of `a` whose key is before that of `b`'s record
/// pairs with nothing.
proof fn lemma_scan_less(
    a: Seq<RowView>,
    b: Seq<RowView>,
    f1: Seq<char>,
    f2: Seq<char>,
    e: int,
    i: int,
    jb: int,
)
    requires
        sides_ok(a, b, f1, f2),
        scanning(a, b, f1, f2, e, i, jb),
        i < a.len(),
        jb < b.len(),
        before(row_value(a[i], f1), row_value(b[jb], f2)),
    ensures
        scanning(a, b, f1, f2, e, i + 1, jb),
{
    let u = row_value(a[i], f1);
    lemma_after_stays_after(b, f2, u, jb);
    assert forall|k: int| 0 <= k < b.len() implies row_value(#[trigger] b[k], f2) != u by {
        if k < jb {
            assert(before(row_value(b[k], f2), u));
            lemma_value_order(row_value(b[k], f2), u, u);
        } else {
            assert(before(u, row_value(b[k], f2)));
            lemma_value_order(u, row_value(b[k], f2), u);
        }
    }
    lemma_matches_none(u, b, f2, i, 0);
    assert(pairs_from(a, b, f1, f2, i) =~= pairs_from(a, b, f1, f2, i + 1));
    if i + 1 < a.len() {
        let w = row_value(a[i + 1], f1);
        assert forall|k: int| 0 <= k < jb implies before(row_value(#[trigger] b[k], f2), w) by {
            lemma_value_order(row_value(b[k], f2), u, w);
            lemma_value_order(u, w, row_value(b[k], f2));
            if value_order(row_value(b[k], f2), w) == 0 {
                lemma_value_order(row_value(b[k], f2), w, u);
            }
        }
    }
}

/// While looking, a record of `b` whose key is before that of `a`'s record
/// is passed over.
proof fn lemma_scan_greater(
    a: Seq<RowView>,
    b: Seq<RowView>,
    f1: Seq<char>,
    f2: Seq<char>,
    e: int,
    i: int,
    jb: int,
)
    requires
        scanning(a, b, f1, f2, e, i, jb),
        i < a.len(),
        jb < b.len(),
        before(row_value(b[jb], f2), row_value(a[i], f1)),
    ensures
        scanning(a, b, f1, f2, e, i, jb + 1),
{
}

/// While looking, equal keys make the next pair.
proof fn lemma_scan_equal(
    a: Seq<RowView>,
    b: Seq<RowView>,
    f1: Seq<char>,
    f2: Seq<char>,
    e: int,
    i: int,
    jb: int,
)
    requires
        scanning(a, b, f1, f2, e, i, jb),
        i < a.len(),
        jb < b.len(),
        row_value(b[jb], f2) == row_value(a[i], f1),
    ensures
        emitting(a, b, f1, f2, e + 1, i, jb, jb, row_value(a[i], f1)),
{
    let p = pairs_from(a, b, f1, f2, 0);
    let u = row_value(a[i], f1);
    assert forall|k: int| 0 <= k < jb implies row_value(#[trigger] b[k], f2) != u by {
        assert(before(row_value(b[k], f2), u));
        lemma_value_order(row_value(b[k], f2), u, u);
    }
    lemma_first_match(a, b, f1, f2, i, jb);
    let rest = matches_of(u, b, f2, i, jb + 1) + pairs_from(a, b, f1, f2, i + 1);
    lemma_skip_cons(p, e, (i, jb), rest);
}

/// Looking ends when a side is used up: no pair is left.
proof fn lemma_scan_end(
    a: Seq<RowView>,
    b: Seq<RowView>,
    f1: Seq<char>,
    f2: Seq<char>,
    e: int,
    i: int,
    jb: int,
)
    requires
        sides_ok(a, b, f1, f2),
        scanning(a, b, f1, f2, e, i, jb),
        i == a.len() || jb == b.len(),
    ensures
        e == pairs_from(a, b, f1, f2, 0).len(),
{
    let p = pairs_from(a, b, f1, f2, 0);
    if i < a.len() {
        let u = row_value(a[i], f1);
        assert forall|x: int, k: int|
            i <= x < a.len() && 0 <= k < b.len() implies row_value(#[trigger] b[k], f2) != row_value(
            #[trigger] a[x],
            f1,
        ) by {
            let w = row_value(a[x], f1);
            assert(before(row_value(b[k], f2), u));
            lemma_sorted_le(a, f1, x, i);
            lemma_value_order(row_value(b[k], f2), u, w);
            lemma_value_order(u, w, row_value(b[k], f2));
            if value_order(row_value(b[k], f2), w) == 0 {
                lemma_value_order(row_value(b[k], f2), w, u);
            }
        }
        lemma_pairs_none(a, b, f1, f2, i);
    }
    assert(p.skip(e).len() == 0);
}


/// Joins two scans sorted by their join fields: the records whose join
/// fields hold equal values, in the order of the first scan and then of the
/// second.
pub struct MergeJoinScan {
    s1: SortScan,
    s2: SortScan,
    field_name1: String,
    field_name2: String,
    join_value: Option<Value>,
    pos1: usize,
    pos2: usize,
    saved_position: usize,
    finished: bool,
    emitted: Ghost<int>,
}

impl MergeJoinScan {
    /// The records of the first scan.
    pub closed spec fn left(&self) -> Seq<RowView> {
        self.s1.rows()
    }

    /// The records of the second scan.
    pub closed spec fn right(&self) -> Seq<RowView> {
        self.s2.rows()
    }

    /// The join field of the first scan.
    pub closed spec fn left_field(&self) -> Seq<char> {
        self.field_name1@
    }

    /// The join field of the second scan.
    pub closed spec fn right_field(&self) -> Seq<char> {
        self.field_name2@
    }

    /// The records of the join, in order.
    pub open spec fn rows(&self) -> Seq<RowView> {
        join_rows(self.left(), self.right(), self.left_field(), self.right_field())
    }

    /// How many records of the join the scan has moved through.
    pub closed spec fn position(&self) -> int {
        self.emitted@
    }

    /// Whether the scan is on a record of the join.
    pub closed spec fn on_record(&self) -> bool {
        !self.finished && self.join_value.is_some()
    }

    /// The fields of the first scan, then those of the second.
    pub closed spec fn fields(&self) -> SchemaView {
        self.s1.fields() + self.s2.fields()
    }

    /// The invariant of the merge.
    pub closed spec fn valid(&self) -> bool {
        let a = self.s1.rows();
        let b = self.s2.rows();
        let f1 = self.field_name1@;
        let f2 = self.field_name2@;
        let p = pairs_from(a, b, f1, f2, 0);
        &&& self.s1.valid()
        &&& self.s2.valid()
        &&& self.pos1 == self.s1.position()
        &&& self.pos2 == self.s2.position()
        &&& a.len() <= usize::MAX
        &&& b.len() <= usize::MAX
        &&& sides_ok(a, b, f1, f2)
        &&& rows_match_schema(a, self.s1.fields())
        &&& rows_match_schema(b, self.s2.fields())
        &&& 0 <= self.emitted@ <= p.len()
        &&& self.finished ==> self.emitted@ == p.len()
        &&& !self.finished && self.join_value.is_none() ==> {
            &&& self.emitted@ == 0
            &&& self.pos1 == 0
            &&& self.pos2 == 0
        }
        &&& !self.finished && self.join_value.is_some() ==> emitting(
            a,
            b,
            f1,
            f2,
            self.emitted@,
            self.pos1 - 1,
            self.pos2 - 1,
            self.saved_position - 1,
            self.join_value.unwrap()@,
        )
    }

    /// Joins `s1` and `s2` on `field_name1 = field_name2`; each scan must be
    /// sorted by its join field, and its records must have the fields its
    /// schema names.
    pub fn new(s1: SortScan, s2: SortScan, field_name1: &str, field_name2: &str) -> (r: Self)
        requires
            s1.valid(),
            s2.valid(),
            s1.rows().len() <= usize::MAX,
            s2.rows().len() <= usize::MAX,
            sides_ok(s1.rows(), s2.rows(), field_name1@, field_name2@),
            rows_match_schema(s1.rows(), s1.fields()),
            rows_match_schema(s2.rows(), s2.fields()),
        ensures
            r.valid(),
            r.left() == s1.rows(),
            r.right() == s2.rows(),
            r.left_field() == field_name1@,
            r.right_field() == field_name2@,
            r.fields() == s1.fields() + s2.fields(),
            r.position() == 0,
            !r.on_record(),
    {
        let mut scan = MergeJoinScan {
            s1,
            s2,
            field_name1: field_name1.to_string(),
            field_name2: field_name2.to_string(),
            join_value: None,
            pos1: 0,
            pos2: 0,
            saved_position: 0,
            finished: false,
            emitted: Ghost(0),
        };
        scan.s1.before_first();
        scan.s2.before_first();
        scan
    }

    /// Moves before the first record of the join.
    pub fn before_first(&mut self)
        requires
            old(self).valid(),
        ensures
            final(self).valid(),
            final(self).left() == old(self).left(),
            final(self).right() == old(self).right(),
            final(self).left_field() == old(self).left_field(),
            final(self).right_field() == old(self).right_field(),
            final(self).fields() == old(self).fields(),
            final(self).position() == 0,
            !final(self).on_record(),
    {
        self.s1.before_first();
        self.s2.before_first();
        self.pos1 = 0;
        self.pos2 = 0;
        self.join_value = None;
        self.finished = false;
        self.emitted = Ghost(0);
    }

    fn rewind_right(&mut self, target: usize)
        requires
            old(self).s2.valid(),
            target <= old(self).s2.rows().len(),
        ensures
            final(self).s2.valid(),
            final(self).s2.rows() == old(self).s2.rows(),
            final(self).s2.fields() == old(self).s2.fields(),
            final(self).s2.position() == target,
            final(self).pos2 == target,
            final(self).s1 == old(self).s1,
            final(self).pos1 == old(self).pos1,
            final(self).field_name1 == old(self).field_name1,
            final(self).field_name2 == old(self).field_name2,
            final(self).join_value == old(self).join_value,
            final(self).saved_position == old(self).saved_position,
            final(self).finished == old(self).finished,
            final(self).emitted == old(self).emitted,
    {
        self.s2.before_first();
        self.pos2 = 0;
        while self.pos2 < target
            invariant
                self.s2.valid(),
                self.s2.rows() == old(self).s2.rows(),
                self.s2.fields() == old(self).s2.fields(),
                self.s2.position() == self.pos2,
                self.pos2 <= target <= self.s2.rows().len(),
                self.s1 == old(self).s1,
                self.pos1 == old(self).pos1,
                self.field_name1 == old(self).field_name1,
                self.field_name2 == old(self).field_name2,
                self.join_value == old(self).join_value,
                self.saved_position == old(self).saved_position,
                self.finished == old(self).finished,
                self.emitted == old(self).emitted,
            decreases target - self.pos2,
        {
            self.s2.next();
            self.pos2 = self.pos2 + 1;
        }
    }
}


impl MergeJoinScan {
    /// Moves to the next record of the join; false when there is none, and
    /// then the scan stays where it is.
    #[verifier::rlimit(100)]
    #[verifier::spinoff_prover]
    pub fn next(&mut self) -> (r: bool)
        requires
            old(self).valid(),
        ensures
            final(self).valid(),
            final(self).left() == old(self).left(),
            final(self).right() == old(self).right(),
            final(self).left_field() == old(self).left_field(),
            final(self).right_field() == old(self).right_field(),
            final(self).fields() == old(self).fields(),
            0 <= old(self).position() <= old(self).rows().len(),
            r == (old(self).position() < old(self).rows().len()),
            final(self).position() == if r {
                old(self).position() + 1
            } else {
                old(self).position()
            },
            final(self).on_record() == r,
    {
        let ghost a = self.s1.rows();
        let ghost b = self.s2.rows();
        let ghost f1 = self.field_name1@;
        let ghost f2 = self.field_name2@;
        let ghost p = pairs_from(a, b, f1, f2, 0);
        proof {
            assert(join_rows(a, b, f1, f2).len() == p.len());
        }
        if self.finished {
            return false;
        }
        let ghost e = self.emitted@;
        let ghost emitting_before = self.join_value.is_some();
        let ghost i0 = self.pos1 - 1;
        let ghost j0 = self.pos2 - 1;
        let ghost lo = self.saved_position - 1;
        let ghost v = if self.join_value.is_some() {
            self.join_value.unwrap()@
        } else {
            ValueView::Null
        };
        let h2 = self.s2.next();
        if h2 {
            self.pos2 = self.pos2 + 1;
        }
        let mut matched = false;
        if h2 {
            match &self.join_value {
                Some(jv) => {
                    let w = self.s2.get_value(self.field_name2.as_str());
                    matched = w.equals(jv);
                },
                None => {},
            }
        }
        if matched {
            proof {
                lemma_emit_next_right(a, b, f1, f2, e, i0, j0, lo, v);
            }
            self.emitted = Ghost(e + 1);
            return true;
        }
        let h1 = self.s1.next();
        if h1 {
            self.pos1 = self.pos1 + 1;
        }
        let mut matched1 = false;
        if h1 {
            match &self.join_value {
                Some(jv) => {
                    let w = self.s1.get_value(self.field_name1.as_str());
                    matched1 = w.equals(jv);
                },
                None => {},
            }
        }
        if matched1 {
            proof {
                lemma_emit_next_left(a, b, f1, f2, e, i0, j0, lo, v);
            }
            let target = self.saved_position;
            self.rewind_right(target);
            self.emitted = Ghost(e + 1);
            return true;
        }
        let ghost mut i: int = if h1 {
            self.pos1 - 1
        } else {
            a.len() as int
        };
        let ghost mut jb: int = if h2 {
            self.pos2 - 1
        } else {
            b.len() as int
        };
        proof {
            if emitting_before {
                lemma_to_scanning(a, b, f1, f2, e, i0, j0, lo, v);
            } else {
                assert(p.skip(0) =~= p);
            }
        }
        let mut has_next1 = h1;
        let mut has_next2 = h2;
        while has_next1 && has_next2
            invariant
                self.s1.valid(),
                self.s2.valid(),
                self.s1.rows() == a,
                self.s2.rows() == b,
                a == old(self).s1.rows(),
                b == old(self).s2.rows(),
                f1 == old(self).field_name1@,
                f2 == old(self).field_name2@,
                self.s1.fields() == old(self).s1.fields(),
                self.s2.fields() == old(self).s2.fields(),
                self.field_name1@ == f1,
                self.field_name2@ == f2,
                self.pos1 == self.s1.position(),
                self.pos2 == self.s2.position(),
                a.len() <= usize::MAX,
                b.len() <= usize::MAX,
                sides_ok(a, b, f1, f2),
                rows_match_schema(a, self.s1.fields()),
                rows_match_schema(b, self.s2.fields()),
                p == pairs_from(a, b, f1, f2, 0),
                !self.finished,
                self.emitted@ == e,
                e == old(self).emitted@,
                old(self).rows().len() == p.len(),
                has_next1 ==> 1 <= self.pos1 <= a.len() && i == self.pos1 - 1,
                !has_next1 ==> i == a.len(),
                has_next2 ==> 1 <= self.pos2 <= b.len() && jb == self.pos2 - 1,
                !has_next2 ==> jb == b.len(),
                scanning(a, b, f1, f2, e, i, jb),
            decreases a.len() - i + b.len() - jb,
        {
            let v1 = self.s1.get_value(self.field_name1.as_str());
            let v2 = self.s2.get_value(self.field_name2.as_str());
            let c = v1.compare_to(&v2);
            proof {
                lemma_value_order(v1@, v2@, v2@);
            }
            if c < 0 {
                proof {
                    lemma_scan_less(a, b, f1, f2, e, i, jb);
                }
                has_next1 = self.s1.next();
                if has_next1 {
                    self.pos1 = self.pos1 + 1;
                }
                proof {
                    i = if has_next1 {
                        self.pos1 - 1
                    } else {
                        a.len() as int
                    };
                }
            } else if c > 0 {
                proof {
                    lemma_scan_greater(a, b, f1, f2, e, i, jb);
                }
                has_next2 = self.s2.next();
                if has_next2 {
                    self.pos2 = self.pos2 + 1;
                }
                proof {
                    jb = if has_next2 {
                        self.pos2 - 1
                    } else {
                        b.len() as int
                    };
                }
            } else {
                proof {
                    lemma_scan_equal(a, b, f1, f2, e, i, jb);
                }
                self.join_value = Some(v1);
                self.saved_position = self.pos2;
                self.emitted = Ghost(e + 1);
                return true;
            }
        }
        proof {
            lemma_scan_end(a, b, f1, f2, e, i, jb);
        }
        self.finished = true;
        false
    }

    /// The value of the named field in the current record of the join: from
    /// the first scan where it has the field, else from the second.
    pub fn get_value(&self, field_name: &str) -> (r: Value)
        requires
            self.valid(),
            self.on_record(),
            row_has(self.rows()[self.position() - 1], field_name@),
        ensures
            1 <= self.position() <= self.rows().len(),
            r@ == row_value(self.rows()[self.position() - 1], field_name@),
    {
        let ghost a = self.s1.rows();
        let ghost b = self.s2.rows();
        let ghost p = pairs_from(a, b, self.field_name1@, self.field_name2@, 0);
        let ghost i = self.pos1 - 1;
        let ghost j = self.pos2 - 1;
        proof {
            assert(self.rows()[self.position() - 1] == a[i] + b[j]);
            lemma_row_value_concat(a[i], b[j], field_name@);
        }
        if self.s1.has_field(field_name) {
            self.s1.get_value(field_name)
        } else {
            self.s2.get_value(field_name)
        }
    }

    /// Whether the join's records have a field of that name.
    pub fn has_field(&self, field_name: &str) -> (r: bool)
        requires
            self.valid(),
        ensures
            r == schema_has(self.fields(), field_name@),
    {
        let r = self.s1.has_field(field_name) || self.s2.has_field(field_name);
        proof {
            let x = self.s1.fields();
            let y = self.s2.fields();
            let f = field_name@;
            if schema_has(x, f) {
                let k = choose|k: int| 0 <= k < x.len() && #[trigger] x[k].0 == f;
                assert((x + y)[k] == x[k]);
            }
            if schema_has(y, f) {
                let k = choose|k: int| 0 <= k < y.len() && #[trigger] y[k].0 == f;
                assert((x + y)[x.len() + k] == y[k]);
            }
            if schema_has(x + y, f) {
                let k = choose|k: int| 0 <= k < (x + y).len() && #[trigger] (x + y)[k].0 == f;
                if k < x.len() {
                    assert((x + y)[k] == x[k]);
                } else {
                    assert((x + y)[k] == y[k - x.len()]);
                }
            }
        }
        r
    }
}

} // verus!
