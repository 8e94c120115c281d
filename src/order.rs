use vstd::prelude::*;
use crate::dto::Direction;
use vstd::multiset::Multiset;
use crate::table::{lemma_rows_view_push, rows_view, Record, RecordView, Value, ValueView};

verus! {

/// Lexicographic order on texts, by character.
pub open spec fn text_le(a: Seq<char>, b: Seq<char>) -> bool
    decreases a.len(),
{
    if a.len() == 0 {
        true
    } else if b.len() == 0 {
        false
    } else if a[0] != b[0] {
        a[0] < b[0]
    } else {
        text_le(a.drop_first(), b.drop_first())
    }
}

pub open spec fn value_rank(v: ValueView) -> int {
    match v {
        ValueView::Null => 0,
        ValueView::Int(_) => 1,
        ValueView::Text(_) => 2,
    }
}

/// The order of column values: nulls first, then integers by value, then
/// texts lexicographically.
pub open spec fn value_le(a: ValueView, b: ValueView) -> bool {
    match (a, b) {
        (ValueView::Int(x), ValueView::Int(y)) => x <= y,
        (ValueView::Text(x), ValueView::Text(y)) => text_le(x, y),
        _ => value_rank(a) <= value_rank(b),
    }
}

/// Whether, sorting by column `col` in direction `dir`, row `x` must come
/// before row `y`.
pub open spec fn comes_before(dir: Direction, col: int, x: RecordView, y: RecordView) -> bool {
    match dir {
        Direction::ASC => !value_le(y.values[col], x.values[col]),
        Direction::DESC => !value_le(x.values[col], y.values[col]),
    }
}

/// `sorted` with `x` placed after every row that `x` need not come before.
pub open spec fn insert_ordered(sorted: Seq<RecordView>, x: RecordView, dir: Direction, col: int) -> Seq<
    RecordView,
>
    decreases sorted.len(),
{
    if sorted.len() == 0 {
        seq![x]
    } else if comes_before(dir, col, x, sorted.last()) {
        insert_ordered(sorted.drop_last(), x, dir, col).push(sorted.last())
    } else {
        sorted.push(x)
    }
}

/// The rows sorted by column `col` in direction `dir`; rows with equal
/// values keep their order.
pub open spec fn sort_rows(rows: Seq<RecordView>, dir: Direction, col: int) -> Seq<RecordView>
    decreases rows.len(),
{
    if rows.len() == 0 {
        rows
    } else {
        insert_ordered(sort_rows(rows.drop_last(), dir, col), rows.last(), dir, col)
    }
}

/// Whether `a` comes no later than `b` lexicographically.
pub fn text_le_exec(a: &str, b: &str) -> (r: bool)
    ensures
        r == text_le(a@, b@),
{
    let na = a.unicode_len();
    let nb = b.unicode_len();
    let mut i: usize = 0;
    assert(a@.skip(0) =~= a@);
    assert(b@.skip(0) =~= b@);
    while i < na && i < nb
        invariant
            na == a@.len(),
            nb == b@.len(),
            i <= na,
            i <= nb,
            text_le(a@, b@) == text_le(a@.skip(i as int), b@.skip(i as int)),
        decreases na - i,
    {
        let ca = a.get_char(i);
        let cb = b.get_char(i);
        assert(a@.skip(i as int)[0] == ca);
        assert(b@.skip(i as int)[0] == cb);
        if ca != cb {
            return ca < cb;
        }
        assert(a@.skip(i as int).drop_first() =~= a@.skip(i + 1));
        assert(b@.skip(i as int).drop_first() =~= b@.skip(i + 1));
        i = i + 1;
    }
    assert(a@.skip(i as int).len() == na - i);
    assert(b@.skip(i as int).len() == nb - i);
    i == na
}

/// Whether `a` comes no later than `b` in the order of column values.
pub fn value_le_exec(a: &Value, b: &Value) -> (r: bool)
    ensures
        r == value_le(a@, b@),
{
    match (a, b) {
        (Value::Int(x), Value::Int(y)) => *x <= *y,
        (Value::Text(x), Value::Text(y)) => text_le_exec(x.as_str(), y.as_str()),
        (Value::Null, _) => true,
        (Value::Int(_), Value::Null) => false,
        (Value::Int(_), Value::Text(_)) => true,
        (Value::Text(_), _) => false,
    }
}

fn comes_before_exec(dir: Direction, col: usize, x: &Record, y: &Record) -> (r: bool)
    requires
        col < x@.values.len(),
        col < y@.values.len(),
    ensures
        r == comes_before(dir, col as int, x@, y@),
{
    assert(x@.values[col as int] == x.values@[col as int]@);
    assert(y@.values[col as int] == y.values@[col as int]@);
    match dir {
        Direction::ASC => !value_le_exec(&y.values[col], &x.values[col]),
        Direction::DESC => !value_le_exec(&x.values[col], &y.values[col]),
    }
}

/// Inserting at the place found from the back is `insert_ordered`.
pub proof fn lemma_insert_ordered_at(sorted: Seq<RecordView>, x: RecordView, dir: Direction, col: int, p: int)
    requires
        0 <= p <= sorted.len(),
        forall|q: int| p <= q < sorted.len() ==> comes_before(dir, col, x, #[trigger] sorted[q]),
        p > 0 ==> !comes_before(dir, col, x, sorted[p - 1]),
    ensures
        insert_ordered(sorted, x, dir, col) == sorted.insert(p, x),
    decreases sorted.len(),
{
    if sorted.len() == 0 {
        assert(sorted.insert(p, x) =~= seq![x]);
    } else if p == sorted.len() {
        assert(sorted.insert(p, x) =~= sorted.push(x));
    } else {
        assert(comes_before(dir, col, x, sorted[sorted.len() - 1]));
        let d = sorted.drop_last();
        assert forall|q: int| p <= q < d.len() implies comes_before(dir, col, x, #[trigger] d[q]) by {
            assert(d[q] == sorted[q]);
        }
        if p > 0 {
            assert(d[p - 1] == sorted[p - 1]);
        }
        lemma_insert_ordered_at(d, x, dir, col, p);
        assert(d.insert(p, x).push(sorted.last()) =~= sorted.insert(p, x));
    }
}

/// Copies of `rows`, sorted by column `col` in direction `dir`; rows with
/// equal values keep their order.
pub fn sort_by_column(rows: &Vec<Record>, dir: Direction, col: usize) -> (r: Vec<Record>)
    requires
        forall|i: int| 0 <= i < rows@.len() ==> col < (#[trigger] rows@[i])@.values.len(),
    ensures
        rows_view(r@) == sort_rows(rows_view(rows@), dir, col as int),
{
    let mut out: Vec<Record> = Vec::new();
    let mut i: usize = 0;
    while i < rows.len()
        invariant
            i <= rows@.len(),
            forall|k: int| 0 <= k < rows@.len() ==> col < (#[trigger] rows@[k])@.values.len(),
            forall|k: int| 0 <= k < out@.len() ==> col < (#[trigger] out@[k])@.values.len(),
            rows_view(out@) == sort_rows(rows_view(rows@.take(i as int)), dir, col as int),
        decreases rows@.len() - i,
    {
        let x = rows[i].duplicate();
        assert(col < rows@[i as int]@.values.len());
        let mut p: usize = out.len();
        while p > 0 && comes_before_exec(dir, col, &x, &out[p - 1])
            invariant
                p <= out@.len(),
                x@ == rows@[i as int]@,
                col < x@.values.len(),
                forall|k: int| 0 <= k < out@.len() ==> col < (#[trigger] out@[k])@.values.len(),
                forall|q: int| p <= q < out@.len() ==> comes_before(dir, col as int, x@, #[trigger] rows_view(out@)[q]),
            decreases p,
        {
            assert(rows_view(out@)[p - 1] == out@[p - 1]@);
            p = p - 1;
        }
        proof {
            if p > 0 {
                assert(rows_view(out@)[p - 1] == out@[p - 1]@);
            }
            lemma_insert_ordered_at(rows_view(out@), x@, dir, col as int, p as int);
            assert(rows_view(rows@.take(i + 1)).drop_last() =~= rows_view(rows@.take(i as int)));
            assert(rows_view(rows@.take(i + 1)).last() == x@);
        }
        let ghost before = out@;
        out.insert(p, x);
        proof {
            assert(rows_view(out@) =~= rows_view(before).insert(p as int, x@));
            assert forall|k: int| 0 <= k < out@.len() implies col < (#[trigger] out@[k])@.values.len() by {
                if k < p {
                    assert(out@[k] == before[k]);
                } else if k > p {
                    assert(out@[k] == before[k - 1]);
                }
            }
        }
        i = i + 1;
    }
    assert(rows@.take(rows@.len() as int) =~= rows@);
    out
}

/// Whether `x` may stand before `y` when sorting by column `col` in direction `dir`.
pub open spec fn row_le(dir: Direction, col: int, x: RecordView, y: RecordView) -> bool {
    match dir {
        Direction::ASC => value_le(x.values[col], y.values[col]),
        Direction::DESC => value_le(y.values[col], x.values[col]),
    }
}

/// No row of `s` stands after a row it may not follow.
pub open spec fn ordered_by(s: Seq<RecordView>, dir: Direction, col: int) -> bool {
    forall|i: int, j: int| 0 <= i < j < s.len() ==> row_le(dir, col, #[trigger] s[i], #[trigger] s[j])
}

pub proof fn lemma_text_le_total(a: Seq<char>, b: Seq<char>)
    ensures
        text_le(a, b) || text_le(b, a),
    decreases a.len(),
{
    if a.len() > 0 && b.len() > 0 && a[0] == b[0] {
        lemma_text_le_total(a.drop_first(), b.drop_first());
    }
}

pub proof fn lemma_text_le_transitive(a: Seq<char>, b: Seq<char>, c: Seq<char>)
    requires
        text_le(a, b),
        text_le(b, c),
    ensures
        text_le(a, c),
    decreases a.len(),
{
    if a.len() > 0 && b.len() > 0 && c.len() > 0 && a[0] == b[0] && b[0] == c[0] {
        lemma_text_le_transitive(a.drop_first(), b.drop_first(), c.drop_first());
    }
}

/// The order of column values is total and transitive.
pub proof fn lemma_value_le_preorder(a: ValueView, b: ValueView, c: ValueView)
    ensures
        value_le(a, b) || value_le(b, a),
        value_le(a, b) && value_le(b, c) ==> value_le(a, c),
{
    if let (ValueView::Text(x), ValueView::Text(y)) = (a, b) {
        lemma_text_le_total(x, y);
    }
    if let (ValueView::Text(x), ValueView::Text(y), ValueView::Text(z)) = (a, b, c) {
        if text_le(x, y) && text_le(y, z) {
            lemma_text_le_transitive(x, y, z);
        }
    }
}

pub proof fn lemma_row_le_preorder(dir: Direction, col: int, x: RecordView, y: RecordView, z: RecordView)
    ensures
        row_le(dir, col, x, y) || row_le(dir, col, y, x),
        row_le(dir, col, x, y) && row_le(dir, col, y, z) ==> row_le(dir, col, x, z),
{
    lemma_value_le_preorder(x.values[col], y.values[col], z.values[col]);
    lemma_value_le_preorder(z.values[col], y.values[col], x.values[col]);
}

/// Inserting keeps the rows and adds `x`, and keeps an ordered sequence ordered.
pub proof fn lemma_insert_ordered(sorted: Seq<RecordView>, x: RecordView, dir: Direction, col: int)
    ensures
        insert_ordered(sorted, x, dir, col).to_multiset() == sorted.to_multiset().insert(x),
        ordered_by(sorted, dir, col) ==> ordered_by(insert_ordered(sorted, x, dir, col), dir, col),
    decreases sorted.len(),
{
    broadcast use vstd::seq_lib::to_multiset_build;

    let r = insert_ordered(sorted, x, dir, col);
    if sorted.len() == 0 {
        assert(sorted.to_multiset() =~= Multiset::<RecordView>::empty()) by {
            broadcast use vstd::seq_lib::group_to_multiset_ensures;
        }
        assert(seq![x] =~= Seq::<RecordView>::empty().push(x));
        assert(Seq::<RecordView>::empty().to_multiset() =~= Multiset::<RecordView>::empty()) by {
            broadcast use vstd::seq_lib::group_to_multiset_ensures;
        }
    } else {
        let d = sorted.drop_last();
        let last = sorted.last();
        assert(d.push(last) =~= sorted);
        if comes_before(dir, col, x, last) {
            lemma_insert_ordered(d, x, dir, col);
            let inner = insert_ordered(d, x, dir, col);
            assert(r == inner.push(last));
            assert(r.to_multiset() =~= sorted.to_multiset().insert(x));
            if ordered_by(sorted, dir, col) {
                assert(ordered_by(d, dir, col)) by {
                    assert forall|i: int, j: int| 0 <= i < j < d.len() implies row_le(
                        dir,
                        col,
                        #[trigger] d[i],
                        #[trigger] d[j],
                    ) by {
                        assert(d[i] == sorted[i] && d[j] == sorted[j]);
                    }
                }
                assert forall|i: int| 0 <= i < inner.len() implies row_le(dir, col, #[trigger] inner[i], last) by {
                    assert(inner.to_multiset().count(inner[i]) > 0) by {
                        broadcast use vstd::seq_lib::group_to_multiset_ensures;
                        assert(inner.contains(inner[i]));
                    }
                    if inner[i] == x {
                        lemma_row_le_preorder(dir, col, x, last, x);
                    } else {
                        assert(d.to_multiset().count(inner[i]) > 0);
                        assert(d.contains(inner[i])) by {
                            broadcast use vstd::seq_lib::group_to_multiset_ensures;
                        }
                        let k = choose|k: int| 0 <= k < d.len() && d[k] == inner[i];
                        assert(sorted[k] == d[k]);
                        assert(row_le(dir, col, sorted[k], sorted[sorted.len() - 1]));
                    }
                }
                assert forall|i: int, j: int| 0 <= i < j < r.len() implies row_le(
                    dir,
                    col,
                    #[trigger] r[i],
                    #[trigger] r[j],
                ) by {
                    if j < inner.len() {
                        assert(r[i] == inner[i] && r[j] == inner[j]);
                    } else {
                        assert(r[i] == inner[i] && r[j] == last);
                    }
                }
            }
        } else {
            assert(r == sorted.push(x));
            if ordered_by(sorted, dir, col) {
                lemma_row_le_preorder(dir, col, x, last, x);
                assert forall|i: int, j: int| 0 <= i < j < r.len() implies row_le(
                    dir,
                    col,
                    #[trigger] r[i],
                    #[trigger] r[j],
                ) by {
                    if j < sorted.len() {
                        assert(r[i] == sorted[i] && r[j] == sorted[j]);
                    } else if i < sorted.len() - 1 {
                        assert(r[i] == sorted[i]);
                        assert(row_le(dir, col, sorted[i], last));
                        lemma_row_le_preorder(dir, col, sorted[i], last, x);
                    } else {
                        assert(r[i] == last);
                    }
                }
            }
        }
    }
}

/// Sorting by a column keeps exactly the rows it was given and orders them by
/// that column in the asked direction.
pub proof fn lemma_sort_rows(rows: Seq<RecordView>, dir: Direction, col: int)
    ensures
        sort_rows(rows, dir, col).to_multiset() == rows.to_multiset(),
        ordered_by(sort_rows(rows, dir, col), dir, col),
    decreases rows.len(),
{
    broadcast use vstd::seq_lib::to_multiset_build;

    if rows.len() > 0 {
        lemma_sort_rows(rows.drop_last(), dir, col);
        lemma_insert_ordered(sort_rows(rows.drop_last(), dir, col), rows.last(), dir, col);
        assert(rows.drop_last().push(rows.last()) =~= rows);
    }
}

} // verus!
