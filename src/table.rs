use vstd::prelude::*;

verus! {

/// A column value.
#[derive(Debug)]
pub enum Value {
    Null,
    Int(i64),
    Text(String),
}

/// The mathematical content of a `Value`.
pub ghost enum ValueView {
    Null,
    Int(i64),
    Text(Seq<char>),
}

impl View for Value {
    type V = ValueView;

    open spec fn view(&self) -> ValueView {
        match self {
            Value::Null => ValueView::Null,
            Value::Int(i) => ValueView::Int(*i),
            Value::Text(s) => ValueView::Text(s@),
        }
    }
}

impl Value {
    /// An independent copy of this value.
    pub fn duplicate(&self) -> (r: Value)
        ensures
            r@ == self@,
    {
        match self {
            Value::Null => Value::Null,
            Value::Int(i) => Value::Int(*i),
            Value::Text(s) => Value::Text(s.clone()),
        }
    }

    /// Whether two values are the same.
    pub fn same(&self, other: &Value) -> (r: bool)
        ensures
            r == (self@ == other@),
    {
        match (self, other) {
            (Value::Null, Value::Null) => true,
            (Value::Int(a), Value::Int(b)) => *a == *b,
            (Value::Text(a), Value::Text(b)) => *a == *b,
            _ => false,
        }
    }
}

/// A row: its primary key and the values of the other columns, in column order.
#[derive(Debug)]
pub struct Record {
    pub id: i64,
    pub values: Vec<Value>,
}

pub ghost struct RecordView {
    pub id: i64,
    pub values: Seq<ValueView>,
}

impl View for Record {
    type V = RecordView;

    open spec fn view(&self) -> RecordView {
        RecordView { id: self.id, values: self.values@.map_values(|v: Value| v@) }
    }
}

/// Views of a sequence of values.
pub open spec fn values_view(vs: Seq<Value>) -> Seq<ValueView> {
    vs.map_values(|v: Value| v@)
}

/// Views of a sequence of rows.
pub open spec fn rows_view(rs: Seq<Record>) -> Seq<RecordView> {
    rs.map_values(|r: Record| r@)
}

/// Viewing a sequence with one more row gives one more view.
pub proof fn lemma_rows_view_push(s: Seq<Record>, x: Record)
    ensures
        rows_view(s.push(x)) == rows_view(s).push(x@),
{
    assert forall|j: int| 0 <= j < s.len() + 1 implies #[trigger] rows_view(s.push(x))[j]
        == rows_view(s).push(x@)[j] by {
        if j < s.len() {
            assert(s.push(x)[j] == s[j]);
        }
    }
    assert(rows_view(s.push(x)) =~= rows_view(s).push(x@));
}

/// Viewing a concatenation views each part.
pub proof fn lemma_rows_view_concat(a: Seq<Record>, b: Seq<Record>)
    ensures
        rows_view(a + b) == rows_view(a) + rows_view(b),
{
    assert forall|j: int| 0 <= j < a.len() + b.len() implies #[trigger] rows_view(a + b)[j]
        == (rows_view(a) + rows_view(b))[j] by {
        if j < a.len() {
            assert((a + b)[j] == a[j]);
        } else {
            assert((a + b)[j] == b[j - a.len()]);
        }
    }
    assert(rows_view(a + b) =~= rows_view(a) + rows_view(b));
}

pub fn copy_values(vs: &Vec<Value>) -> (r: Vec<Value>)
    ensures
        values_view(r@) == values_view(vs@),
{
    let mut out: Vec<Value> = Vec::new();
    let mut i: usize = 0;
    while i < vs.len()
        invariant
            i <= vs@.len(),
            out@.len() == i,
            values_view(out@) == values_view(vs@.take(i as int)),
        decreases vs@.len() - i,
    {
        let d = vs[i].duplicate();
        let ghost prev = out@;
        out.push(d);
        assert(vs@.take(i + 1) == vs@.take(i as int).push(vs@[i as int]));
        assert forall|j: int| 0 <= j < i + 1 implies #[trigger] values_view(out@)[j] == values_view(vs@.take(i + 1))[j] by {
            if j < i {
                assert(values_view(prev)[j] == values_view(vs@.take(i as int))[j]);
                assert(out@[j] == prev[j]);
            } else {
                assert(out@[j] == d);
            }
        }
        assert(values_view(out@) =~= values_view(vs@.take(i + 1)));
        i = i + 1;
    }
    assert(vs@.take(vs@.len() as int) == vs@);
    out
}

impl Record {
    /// An independent copy of this row.
    pub fn duplicate(&self) -> (r: Record)
        ensures
            r@ == self@,
    {
        let values = copy_values(&self.values);
        let r = Record { id: self.id, values };
        assert(r@.values == values_view(values@));
        r
    }
}

/// A filter over rows. `Value` columns are addressed by their position.
#[derive(Debug)]
pub enum Condition {
    /// Every row.
    All,
    /// The row with this primary key.
    KeyEq(i64),
    /// Rows whose primary key is below this one.
    KeyLt(i64),
    /// Rows whose primary key is above this one.
    KeyGt(i64),
    /// Rows whose column holds this value.
    ColumnEq(usize, Value),
    /// Rows that the inner filter refuses.
    Not(Box<Condition>),
    /// Rows that both filters accept.
    And(Box<Condition>, Box<Condition>),
}

impl Condition {
    /// Whether the filter accepts row `r`.
    pub open spec fn holds(&self, r: RecordView) -> bool
        decreases self,
    {
        match self {
            Condition::All => true,
            Condition::KeyEq(k) => r.id == *k,
            Condition::KeyLt(k) => r.id < *k,
            Condition::KeyGt(k) => r.id > *k,
            Condition::ColumnEq(c, v) => (*c as int) < r.values.len() && r.values[*c as int] == v@,
            Condition::Not(c) => !c.holds(r),
            Condition::And(a, b) => a.holds(r) && b.holds(r),
        }
    }

    /// Whether the filter accepts `r`.
    pub fn test(&self, r: &Record) -> (b: bool)
        ensures
            b == self.holds(r@),
        decreases self,
    {
        match self {
            Condition::All => true,
            Condition::KeyEq(k) => r.id == *k,
            Condition::KeyLt(k) => r.id < *k,
            Condition::KeyGt(k) => r.id > *k,
            Condition::ColumnEq(c, v) => {
                if *c < r.values.len() {
                    r.values[*c].same(v)
                } else {
                    false
                }
            },
            Condition::Not(c) => !c.test(r),
            Condition::And(a, b) => a.test(r) && b.test(r),
        }
    }
}

/// The rows of `rows` that `c` accepts, in their order.
pub open spec fn matching(rows: Seq<RecordView>, c: Condition) -> Seq<RecordView>
    decreases rows.len(),
{
    if rows.len() == 0 {
        Seq::empty()
    } else {
        let prev = matching(rows.drop_last(), c);
        if c.holds(rows.last()) {
            prev.push(rows.last())
        } else {
            prev
        }
    }
}

/// A filter keeps nothing only when it accepts no row.
pub proof fn lemma_matching_empty(rows: Seq<RecordView>, c: Condition)
    requires
        matching(rows, c).len() == 0,
    ensures
        forall|i: int| 0 <= i < rows.len() ==> !c.holds(#[trigger] rows[i]),
    decreases rows.len(),
{
    if rows.len() > 0 {
        assert(!c.holds(rows.last()));
        lemma_matching_empty(rows.drop_last(), c);
        assert forall|i: int| 0 <= i < rows.len() implies !c.holds(#[trigger] rows[i]) by {
            if i < rows.len() - 1 {
                assert(rows[i] == rows.drop_last()[i]);
            }
        }
    }
}

/// Filters that accept the same rows keep the same rows.
pub proof fn lemma_matching_congruent(rows: Seq<RecordView>, a: Condition, b: Condition)
    requires
        forall|r: RecordView| a.holds(r) == b.holds(r),
    ensures
        matching(rows, a) == matching(rows, b),
    decreases rows.len(),
{
    if rows.len() > 0 {
        lemma_matching_congruent(rows.drop_last(), a, b);
        assert(a.holds(rows.last()) == b.holds(rows.last()));
    }
}

/// Keys strictly increase along the rows.
pub open spec fn sorted_by_key(rows: Seq<RecordView>) -> bool {
    forall|i: int, j: int| 0 <= i < j < rows.len() ==> rows[i].id < rows[j].id
}

/// Every row that `matching` keeps is accepted by the filter and is a row of the input.
pub proof fn lemma_matching_members(rows: Seq<RecordView>, c: Condition)
    ensures
        matching(rows, c).len() <= rows.len(),
        forall|i: int|
            0 <= i < matching(rows, c).len() ==> #[trigger] c.holds(matching(rows, c)[i])
                && exists|j: int| 0 <= j < rows.len() && rows[j] == matching(rows, c)[i],
    decreases rows.len(),
{
    if rows.len() > 0 {
        lemma_matching_members(rows.drop_last(), c);
        let prev = matching(rows.drop_last(), c);
        assert forall|i: int| 0 <= i < matching(rows, c).len() implies #[trigger] c.holds(
            matching(rows, c)[i],
        ) && exists|j: int| 0 <= j < rows.len() && rows[j] == matching(rows, c)[i] by {
            if i < prev.len() {
                assert(matching(rows, c)[i] == prev[i]);
                assert(c.holds(prev[i]));
                let j = choose|j: int| 0 <= j < rows.drop_last().len() && rows.drop_last()[j] == prev[i];
                assert(rows[j] == matching(rows, c)[i]);
            } else {
                assert(rows[rows.len() - 1] == matching(rows, c)[i]);
            }
        }
    }
}

/// Filtering keeps the key order.
pub proof fn lemma_matching_sorted(rows: Seq<RecordView>, c: Condition)
    requires
        sorted_by_key(rows),
    ensures
        sorted_by_key(matching(rows, c)),
    decreases rows.len(),
{
    if rows.len() > 0 {
        let prev = matching(rows.drop_last(), c);
        lemma_matching_sorted(rows.drop_last(), c);
        lemma_matching_members(rows.drop_last(), c);
        if c.holds(rows.last()) {
            assert forall|i: int| 0 <= i < prev.len() implies prev[i].id < rows.last().id by {
                assert(c.holds(prev[i]));
                let j = choose|j: int| 0 <= j < rows.drop_last().len() && rows.drop_last()[j] == prev[i];
                assert(rows[j] == prev[i]);
            }
        }
    }
}

/// Filtering a concatenation filters each part.
pub proof fn lemma_matching_concat(a: Seq<RecordView>, b: Seq<RecordView>, c: Condition)
    ensures
        matching(a + b, c) == matching(a, c) + matching(b, c),
    decreases b.len(),
{
    if b.len() == 0 {
        assert(a + b =~= a);
        assert(matching(b, c) =~= Seq::<RecordView>::empty());
        assert(matching(a, c) + matching(b, c) =~= matching(a, c));
    } else {
        assert((a + b).drop_last() =~= a + b.drop_last());
        lemma_matching_concat(a, b.drop_last(), c);
        assert((a + b).last() == b.last());
        if c.holds(b.last()) {
            assert(matching(a, c) + matching(b, c) =~= (matching(a, c) + matching(b.drop_last(), c)).push(b.last()));
        } else {
            assert(matching(a, c) + matching(b, c) =~= matching(a, c) + matching(b.drop_last(), c));
        }
    }
}

/// A filter that accepts every row keeps them all; one that accepts none keeps none.
pub proof fn lemma_matching_all_or_none(rows: Seq<RecordView>, c: Condition)
    ensures
        (forall|i: int| 0 <= i < rows.len() ==> c.holds(#[trigger] rows[i])) ==> matching(rows, c) == rows,
        (forall|i: int| 0 <= i < rows.len() ==> !c.holds(#[trigger] rows[i])) ==> matching(rows, c).len() == 0,
    decreases rows.len(),
{
    if rows.len() > 0 {
        lemma_matching_all_or_none(rows.drop_last(), c);
        if forall|i: int| 0 <= i < rows.len() ==> c.holds(#[trigger] rows[i]) {
            assert forall|i: int| 0 <= i < rows.drop_last().len() implies c.holds(#[trigger] rows.drop_last()[i]) by {
                assert(rows.drop_last()[i] == rows[i]);
            }
            assert(c.holds(rows[rows.len() - 1]));
            assert(rows.drop_last().push(rows.last()) =~= rows);
        }
        if forall|i: int| 0 <= i < rows.len() ==> !c.holds(#[trigger] rows[i]) {
            assert forall|i: int| 0 <= i < rows.drop_last().len() implies !c.holds(#[trigger] rows.drop_last()[i]) by {
                assert(rows.drop_last()[i] == rows[i]);
            }
            assert(!c.holds(rows[rows.len() - 1]));
        }
    }
}

/// The rows of `rows` that `c` accepts, copied.
pub fn select(rows: &Vec<Record>, c: &Condition) -> (r: Vec<Record>)
    ensures
        rows_view(r@) == matching(rows_view(rows@), *c),
{
    let mut out: Vec<Record> = Vec::new();
    let mut i: usize = 0;
    while i < rows.len()
        invariant
            i <= rows@.len(),
            rows_view(out@) == matching(rows_view(rows@.take(i as int)), *c),
        decreases rows@.len() - i,
    {
        let ghost before = rows_view(rows@.take(i as int));
        let keep = c.test(&rows[i]);
        proof {
            assert(rows_view(rows@.take(i + 1)).drop_last() =~= before);
            assert(rows_view(rows@.take(i + 1)).last() == rows@[i as int]@);
        }
        if keep {
            out.push(rows[i].duplicate());
            assert(rows_view(out@) =~= matching(rows_view(rows@.take(i + 1)), *c));
        } else {
            assert(rows_view(out@) =~= matching(rows_view(rows@.take(i + 1)), *c));
        }
        i = i + 1;
    }
    assert(rows@.take(rows@.len() as int) =~= rows@);
    out
}

/// The rows of `rows` that `c` refuses, copied.
pub fn reject(rows: &Vec<Record>, c: &Condition) -> (r: Vec<Record>)
    ensures
        rows_view(r@) == matching(rows_view(rows@), Condition::Not(Box::new(*c))),
{
    let ghost nc = Condition::Not(Box::new(*c));
    let mut out: Vec<Record> = Vec::new();
    let mut i: usize = 0;
    while i < rows.len()
        invariant
            i <= rows@.len(),
            nc == Condition::Not(Box::new(*c)),
            rows_view(out@) == matching(rows_view(rows@.take(i as int)), nc),
        decreases rows@.len() - i,
    {
        let ghost before = rows_view(rows@.take(i as int));
        let keep = !c.test(&rows[i]);
        proof {
            assert(rows_view(rows@.take(i + 1)).drop_last() =~= before);
            assert(rows_view(rows@.take(i + 1)).last() == rows@[i as int]@);
        }
        if keep {
            let x = rows[i].duplicate();
            let ghost prev = out@;
            out.push(x);
            proof {
                lemma_rows_view_push(prev, x);
            }
        }
        i = i + 1;
    }
    assert(rows@.take(rows@.len() as int) =~= rows@);
    out
}

/// How many rows of `rows` `c` accepts.
pub fn count_matching(rows: &Vec<Record>, c: &Condition) -> (r: u64)
    ensures
        r == matching(rows_view(rows@), *c).len(),
{
    let mut n: u64 = 0;
    let mut i: usize = 0;
    while i < rows.len()
        invariant
            i <= rows@.len(),
            n == matching(rows_view(rows@.take(i as int)), *c).len(),
            n <= i,
        decreases rows@.len() - i,
    {
        proof {
            assert(rows_view(rows@.take(i + 1)).drop_last() =~= rows_view(rows@.take(i as int)));
            assert(rows_view(rows@.take(i + 1)).last() == rows@[i as int]@);
        }
        if c.test(&rows[i]) {
            n = n + 1;
        }
        i = i + 1;
    }
    assert(rows@.take(rows@.len() as int) =~= rows@);
    n
}

} // verus!
