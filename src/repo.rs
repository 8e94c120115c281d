use vstd::prelude::*;
use crate::dto::{Direction, PageQueryParam};
use crate::error::{ErrorKind, RepoError};
use crate::memdb::{rows_fit, txn_commits, txn_failure, FaultPoint, MemDb, MemDbView};
use crate::order::{sort_by_column, sort_rows};
use crate::paging::{direction_of, lemma_page_len_bounded, page_bounds, page_of, sort_plan};
use crate::table::{
    copy_values, count_matching, lemma_matching_all_or_none, lemma_matching_concat,
    lemma_matching_empty, lemma_matching_members, lemma_matching_sorted, lemma_rows_view_concat,
    lemma_rows_view_push, matching, reject, rows_view, select, values_view, Condition, Record,
    RecordView, Value, ValueView,
};

verus! {

/// What a delete reports: how many rows it removed.
#[derive(Debug, Clone, Copy, PartialEq, Eq, Structural)]
pub struct DeleteOutcome {
    pub rows_affected: u64,
}

/// The first row of a result, if any.
pub open spec fn first_of(m: Seq<RecordView>) -> Option<RecordView> {
    if m.len() > 0 {
        Some(m[0])
    } else {
        None
    }
}

pub open spec fn opt_view(r: Option<Record>) -> Option<RecordView> {
    match r {
        Some(x) => Some(x@),
        None => None,
    }
}

/// The rows that `c` accepts, in the order that `param` asks for, or `None`
/// when it asks to sort by a column the table does not have. Without a sort
/// column the rows come in key order.
pub open spec fn ordered_matches(db: MemDbView, c: Condition, param: PageQueryParam) -> Option<
    Seq<RecordView>,
> {
    let m = matching(db.rows, c);
    match param.sort_by {
        None => Some(m),
        Some(col) => if col@ == db.key_column {
            match direction_of(param) {
                Direction::ASC => Some(m),
                Direction::DESC => Some(m.reverse()),
            }
        } else {
            match column_index(db.columns, col@) {
                Some(j) => Some(sort_rows(m, direction_of(param), j)),
                None => None,
            }
        },
    }
}

/// Position of the first column named `name`, if any.
pub open spec fn column_index(cols: Seq<Seq<char>>, name: Seq<char>) -> Option<int> {
    if exists|j: int| is_first_column(cols, name, j) {
        Some(choose|j: int| is_first_column(cols, name, j))
    } else {
        None
    }
}

pub open spec fn is_first_column(cols: Seq<Seq<char>>, name: Seq<char>, j: int) -> bool {
    &&& 0 <= j < cols.len()
    &&& cols[j] == name
    &&& forall|k: int| 0 <= k < j ==> cols[k] != name
}

/// Position of the first of `cols` named `name`, if any.
fn find_column(cols: &Vec<String>, name: &String) -> (r: Option<usize>)
    ensures
        match column_index(cols@.map_values(|s: String| s@), name@) {
            Some(j) => r == Some(j as usize),
            None => r is None,
        },
{
    let ghost names = cols@.map_values(|s: String| s@);
    let mut i: usize = 0;
    while i < cols.len()
        invariant
            i <= cols@.len(),
            names == cols@.map_values(|s: String| s@),
            forall|k: int| 0 <= k < i ==> names[k] != name@,
        decreases cols@.len() - i,
    {
        assert(names[i as int] == cols@[i as int]@);
        if cols[i] == *name {
            assert(is_first_column(names, name@, i as int));
            let ghost j = choose|j: int| is_first_column(names, name@, j);
            assert(j == i) by {
                if j < i {
                    assert(names[j] != name@);
                } else if j > i {
                    assert(names[i as int] != name@);
                }
            }
            return Some(i);
        }
        i = i + 1;
    }
    assert(!exists|j: int| is_first_column(names, name@, j));
    None
}

/// The outcome of a page query for the rows that `c` accepts: the page of
/// the ordered rows with the number of accepted rows, or a query error for
/// an unknown sort column.
pub open spec fn page_post(
    db: MemDbView,
    c: Condition,
    param: PageQueryParam,
    r: Result<(Vec<Record>, u64), RepoError>,
) -> bool {
    match ordered_matches(db, c, param) {
        None => r matches Err(e) && e.kind_of() == ErrorKind::Query,
        Some(o) => r matches Ok(p) && rows_view(p.0@) == page_of(
            o,
            param.page_num as int,
            param.page_size as int,
        ) && p.1 == matching(db.rows, c).len(),
    }
}

/// The outcome of a mutation run in its own transaction: it succeeds exactly
/// when the statement is accepted (`work_ok`) and the transaction commits;
/// then the table holds `rows`, otherwise it is unchanged and the error is of
/// the class the failure gives.
pub open spec fn txn_post<T>(
    pre: MemDbView,
    work_ok: bool,
    rows: Seq<RecordView>,
    post: MemDbView,
    r: Result<T, RepoError>,
) -> bool {
    &&& r is Ok <==> txn_commits(pre.fault, work_ok)
    &&& r is Ok ==> post == (MemDbView { rows, ..pre })
    &&& r matches Err(e) ==> post == pre && e.kind_of() == txn_failure(pre.fault, work_ok)
}

/// The outcome of `create(model)`.
pub open spec fn create_post(pre: MemDbView, model: RecordView, post: MemDbView, r: Result<Record, RepoError>) -> bool {
    &&& txn_post(pre, can_insert(pre, model), insert_row(pre.rows, model), post, r)
    &&& r matches Ok(x) ==> x@ == model
}

/// The outcome of `update_by_id(model)`.
pub open spec fn update_post(pre: MemDbView, model: RecordView, post: MemDbView, r: Result<Record, RepoError>) -> bool {
    &&& txn_post(pre, can_replace(pre, model), replace_row(pre.rows, model), post, r)
    &&& r matches Ok(x) ==> x@ == model
}

/// The outcome of `update_by_condition(c, u)`.
pub open spec fn update_condition_post(
    pre: MemDbView,
    c: Condition,
    u: Seq<(usize, ValueView)>,
    post: MemDbView,
    r: Result<u64, RepoError>,
) -> bool {
    &&& txn_post(pre, updates_fit(u, pre.columns.len() as int), update_rows(pre.rows, c, u), post, r)
    &&& r matches Ok(n) ==> n == matching(pre.rows, c).len()
}

/// The outcome of `delete_batch(c)`.
pub open spec fn delete_post(pre: MemDbView, c: Condition, post: MemDbView, r: Result<DeleteOutcome, RepoError>) -> bool {
    &&& txn_post(pre, true, matching(pre.rows, Condition::Not(Box::new(c))), post, r)
    &&& r matches Ok(d) ==> d.rows_affected == matching(pre.rows, c).len()
}

/// Rows of a filtered table stay within its schema and key order.
pub proof fn lemma_matching_fits(rows: Seq<RecordView>, ncols: int, c: Condition)
    requires
        rows_fit(rows, ncols),
    ensures
        rows_fit(matching(rows, c), ncols),
{
    lemma_matching_sorted(rows, c);
    lemma_matching_members(rows, c);
    let m = matching(rows, c);
    assert forall|i: int| 0 <= i < m.len() implies #[trigger] m[i].values.len() == ncols by {
        assert(c.holds(m[i]));
        let j = choose|j: int| 0 <= j < rows.len() && rows[j] == m[i];
        assert(rows[j].values.len() == ncols);
    }
}

/// The rows after inserting `x`: those with smaller keys, `x`, those with larger keys.
pub open spec fn insert_row(rows: Seq<RecordView>, x: RecordView) -> Seq<RecordView> {
    matching(rows, Condition::KeyLt(x.id)) + seq![x] + matching(rows, Condition::KeyGt(x.id))
}

/// Whether the table takes `x` as a new row: it fits the schema and its key is free.
pub open spec fn can_insert(db: MemDbView, x: RecordView) -> bool {
    x.values.len() == db.columns.len() && matching(db.rows, Condition::KeyEq(x.id)).len() == 0
}

/// The rows after the row with `x`'s key is overwritten by `x`.
pub open spec fn replace_row(rows: Seq<RecordView>, x: RecordView) -> Seq<RecordView> {
    rows.map_values(|y: RecordView| if y.id == x.id { x } else { y })
}

/// Whether `x` can overwrite a row: it fits the schema and a row has its key.
pub open spec fn can_replace(db: MemDbView, x: RecordView) -> bool {
    x.values.len() == db.columns.len() && matching(db.rows, Condition::KeyEq(x.id)).len() > 0
}

pub open spec fn updates_view(u: Seq<(usize, Value)>) -> Seq<(usize, ValueView)> {
    u.map_values(|p: (usize, Value)| (p.0, p.1@))
}

/// Column values after the assignments `u`, made in order.
pub open spec fn apply_updates(vals: Seq<ValueView>, u: Seq<(usize, ValueView)>) -> Seq<ValueView>
    decreases u.len(),
{
    if u.len() == 0 {
        vals
    } else {
        apply_updates(vals, u.drop_last()).update(u.last().0 as int, u.last().1)
    }
}

/// Every assignment names a column of a schema of `ncols` value columns.
pub open spec fn updates_fit(u: Seq<(usize, ValueView)>, ncols: int) -> bool {
    forall|i: int| 0 <= i < u.len() ==> (#[trigger] u[i]).0 < ncols
}

/// The rows after the assignments `u` are made on every row that `c` accepts.
pub open spec fn update_rows(rows: Seq<RecordView>, c: Condition, u: Seq<(usize, ValueView)>) -> Seq<
    RecordView,
> {
    rows.map_values(
        |y: RecordView|
            if c.holds(y) {
                RecordView { id: y.id, values: apply_updates(y.values, u) }
            } else {
                y
            },
    )
}

/// Assignments keep the number of columns.
pub proof fn lemma_apply_updates_len(vals: Seq<ValueView>, u: Seq<(usize, ValueView)>)
    requires
        updates_fit(u, vals.len() as int),
    ensures
        apply_updates(vals, u).len() == vals.len(),
    decreases u.len(),
{
    if u.len() > 0 {
        assert forall|i: int| 0 <= i < u.drop_last().len() implies (#[trigger] u.drop_last()[i]).0
            < vals.len() by {
            assert(u.drop_last()[i] == u[i]);
        }
        lemma_apply_updates_len(vals, u.drop_last());
        assert(u[u.len() - 1].0 < vals.len());
    }
}

/// Inserting a row that fits and whose key is free keeps the table well formed.
pub proof fn lemma_insert_fits(rows: Seq<RecordView>, ncols: int, x: RecordView)
    requires
        rows_fit(rows, ncols),
        x.values.len() == ncols,
    ensures
        rows_fit(insert_row(rows, x), ncols),
{
    let lt = matching(rows, Condition::KeyLt(x.id));
    let gt = matching(rows, Condition::KeyGt(x.id));
    lemma_matching_fits(rows, ncols, Condition::KeyLt(x.id));
    lemma_matching_fits(rows, ncols, Condition::KeyGt(x.id));
    lemma_matching_members(rows, Condition::KeyLt(x.id));
    lemma_matching_members(rows, Condition::KeyGt(x.id));
    let s = insert_row(rows, x);
    assert forall|i: int| 0 <= i < lt.len() implies #[trigger] lt[i].id < x.id by {
        assert(Condition::KeyLt(x.id).holds(lt[i]));
    }
    assert forall|i: int| 0 <= i < gt.len() implies #[trigger] gt[i].id > x.id by {
        assert(Condition::KeyGt(x.id).holds(gt[i]));
    }
    assert forall|i: int, j: int| 0 <= i < j < s.len() implies s[i].id < s[j].id by {
        if j < lt.len() {
            assert(s[i] == lt[i] && s[j] == lt[j]);
        } else if j == lt.len() {
            assert(s[i] == lt[i]);
        } else if i < lt.len() {
            assert(s[i] == lt[i] && s[j] == gt[j - lt.len() - 1]);
        } else if i == lt.len() {
            assert(s[j] == gt[j - lt.len() - 1]);
        } else {
            assert(s[i] == gt[i - lt.len() - 1] && s[j] == gt[j - lt.len() - 1]);
        }
    }
    assert forall|i: int| 0 <= i < s.len() implies #[trigger] s[i].values.len() == ncols by {
        if i < lt.len() {
            assert(s[i] == lt[i]);
        } else if i > lt.len() {
            assert(s[i] == gt[i - lt.len() - 1]);
        }
    }
}

/// `vals` after the assignments `u`, made in order.
fn apply_to(vals: Vec<Value>, u: &Vec<(usize, Value)>) -> (r: Vec<Value>)
    requires
        updates_fit(updates_view(u@), vals@.len() as int),
    ensures
        values_view(r@) == apply_updates(values_view(vals@), updates_view(u@)),
{
    let mut vals = vals;
    let ghost orig = vals@;
    let mut k: usize = 0;
    while k < u.len()
        invariant
            k <= u@.len(),
            updates_fit(updates_view(u@), orig.len() as int),
            vals@.len() == orig.len(),
            values_view(vals@) == apply_updates(values_view(orig), updates_view(u@).take(k as int)),
        decreases u@.len() - k,
    {
        let col = u[k].0;
        assert(updates_view(u@)[k as int].0 == col);
        let v = u[k].1.duplicate();
        let ghost before = vals@;
        vals[col] = v;
        proof {
            let uk = updates_view(u@).take(k + 1);
            assert(uk.drop_last() =~= updates_view(u@).take(k as int));
            assert(uk.last() == (col, v@));
            assert(values_view(vals@) =~= values_view(before).update(col as int, v@));
        }
        k = k + 1;
    }
    assert(updates_view(u@).take(u@.len() as int) =~= updates_view(u@));
    vals
}

/// Whether every assignment names one of the first `ncols` columns.
fn updates_in_range(u: &Vec<(usize, Value)>, ncols: usize) -> (r: bool)
    ensures
        r == updates_fit(updates_view(u@), ncols as int),
{
    let mut k: usize = 0;
    while k < u.len()
        invariant
            k <= u@.len(),
            forall|i: int| 0 <= i < k ==> (#[trigger] updates_view(u@)[i]).0 < ncols,
        decreases u@.len() - k,
    {
        if u[k].0 >= ncols {
            assert(updates_view(u@)[k as int].0 >= ncols);
            return false;
        }
        k = k + 1;
    }
    true
}

/// The first row of `v`, moved out.
fn first_row(v: Vec<Record>) -> (r: Option<Record>)
    ensures
        opt_view(r) == first_of(rows_view(v@)),
{
    let mut v = v;
    if v.len() == 0 {
        None
    } else {
        Some(v.remove(0))
    }
}

/// `v` in reverse order.
fn reversed(v: Vec<Record>) -> (r: Vec<Record>)
    ensures
        rows_view(r@) == rows_view(v@).reverse(),
{
    let mut v = v;
    let ghost orig = v@;
    let mut out: Vec<Record> = Vec::new();
    while v.len() > 0
        invariant
            v@ == orig.take(v@.len() as int),
            v@.len() <= orig.len(),
            rows_view(out@) == rows_view(orig).reverse().take(orig.len() - v@.len()),
        decreases v@.len(),
    {
        let ghost n = v@.len();
        let x = v.pop().unwrap();
        let ghost before = out@;
        out.push(x);
        proof {
            crate::table::lemma_rows_view_push(before, x);
            assert(x == orig[n - 1]);
            assert(v@ =~= orig.take(n - 1));
            assert(rows_view(out@) =~= rows_view(orig).reverse().take(orig.len() - v@.len()));
        }
    }
    assert(rows_view(orig).reverse().take(orig.len() as int) =~= rows_view(orig).reverse());
    out
}

/// Copies of the rows of `v` from index `start` up to `end`.
fn copy_range(v: &Vec<Record>, start: usize, end: usize) -> (r: Vec<Record>)
    requires
        start <= end <= v@.len(),
    ensures
        rows_view(r@) == rows_view(v@).subrange(start as int, end as int),
{
    let mut out: Vec<Record> = Vec::new();
    let mut i: usize = start;
    while i < end
        invariant
            start <= i <= end <= v@.len(),
            rows_view(out@) == rows_view(v@).subrange(start as int, i as int),
        decreases end - i,
    {
        let x = v[i].duplicate();
        let ghost before = out@;
        out.push(x);
        proof {
            crate::table::lemma_rows_view_push(before, x);
        }
        assert(rows_view(out@) =~= rows_view(v@).subrange(start as int, i + 1));
        i = i + 1;
    }
    out
}

/// Repository over one table: lookups, paging, and mutations that each run
/// in a transaction of their own.
#[derive(Debug)]
pub struct GenericRepo {
    db: MemDb,
}

impl View for GenericRepo {
    type V = MemDbView;

    closed spec fn view(&self) -> MemDbView {
        self.db@
    }
}

impl GenericRepo {
    pub open spec fn wf(&self) -> bool {
        rows_fit(self@.rows, self@.columns.len() as int)
    }

    pub fn new(db: MemDb) -> (r: GenericRepo)
        requires
            db.wf(),
        ensures
            r.wf(),
            r@ == db@,
    {
        GenericRepo { db }
    }

    /// The database handle.
    pub fn db(&self) -> (r: &MemDb)
        ensures
            r@ == self@,
    {
        &self.db
    }

    /// Makes every later transaction fail at `fault`, or none when `None`.
    pub fn set_fault(&mut self, fault: Option<FaultPoint>)
        requires
            old(self).wf(),
        ensures
            final(self).wf(),
            final(self)@ == (MemDbView { fault, ..old(self)@ }),
    {
        self.db.set_fault(fault);
    }

    /// The row with primary key `id`, if any.
    pub fn find_by_id(&self, id: i64) -> (r: Option<Record>)
        ensures
            opt_view(r) == first_of(matching(self@.rows, Condition::KeyEq(id))),
    {
        self.find_one_condition(&Condition::KeyEq(id))
    }

    /// The first row, in key order, that `c` accepts.
    pub fn find_one_condition(&self, c: &Condition) -> (r: Option<Record>)
        ensures
            opt_view(r) == first_of(matching(self@.rows, *c)),
    {
        first_row(select(self.db.rows(), c))
    }

    /// How many rows `c` accepts.
    pub fn count_condition(&self, c: &Condition) -> (r: u64)
        ensures
            r == matching(self@.rows, *c).len(),
    {
        count_matching(self.db.rows(), c)
    }

    /// All rows, in key order.
    pub fn find_list(&self) -> (r: Vec<Record>)
        ensures
            rows_view(r@) == self@.rows,
    {
        let r = select(self.db.rows(), &Condition::All);
        proof {
            lemma_matching_all_or_none(self@.rows, Condition::All);
        }
        r
    }

    /// All rows that `c` accepts, in key order.
    pub fn find_by_list_condition(&self, c: &Condition) -> (r: Vec<Record>)
        ensures
            rows_view(r@) == matching(self@.rows, *c),
    {
        select(self.db.rows(), c)
    }

    /// One page of all rows, with the number of rows in the table.
    pub fn find_page(&self, param: &PageQueryParam) -> (r: Result<(Vec<Record>, u64), RepoError>)
        requires
            self.wf(),
        ensures
            page_post(self@, Condition::All, *param, r),
    {
        self.find_page_condition(&Condition::All, param)
    }

    /// One page of the rows that `c` accepts, with the number of such rows.
    /// Page numbers start at zero.
    pub fn find_page_condition(&self, c: &Condition, param: &PageQueryParam) -> (r: Result<
        (Vec<Record>, u64),
        RepoError,
    >)
        requires
            self.wf(),
        ensures
            page_post(self@, *c, *param, r),
    {
        let rows = select(self.db.rows(), c);
        let ordered = match sort_plan(param) {
            None => rows,
            Some((col, dir)) => {
                if col == *self.db.key_column() {
                    match dir {
                        Direction::ASC => rows,
                        Direction::DESC => reversed(rows),
                    }
                } else {
                    match find_column(self.db.columns(), &col) {
                        Some(j) => {
                            proof {
                                lemma_matching_fits(self@.rows, self@.columns.len() as int, *c);
                                assert forall|i: int| 0 <= i < rows@.len() implies j < (
                                #[trigger] rows@[i])@.values.len() by {
                                    assert(rows_view(rows@)[i] == rows@[i]@);
                                }
                            }
                            sort_by_column(&rows, dir, j)
                        },
                        None => {
                            return Err(RepoError::Query("no such column".to_string()));
                        },
                    }
                }
            },
        };
        let total = count_matching(self.db.rows(), c);
        let (start, end) = page_bounds(ordered.len(), param.page_num, param.page_size);
        let data = copy_range(&ordered, start, end);
        Ok((data, total))
    }
    /// Inserts `model` as a new row in a transaction of its own and returns the
    /// stored row. A row that does not fit the schema, or whose key is taken,
    /// is refused by the database; on any failure no row changes.
    pub fn create(&mut self, model: Record) -> (r: Result<Record, RepoError>)
        requires
            old(self).wf(),
        ensures
            final(self).wf(),
            create_post(old(self)@, model@, final(self)@, r),
    {
        let ncols = self.db.columns().len();
        let work = if model.values.len() == ncols && count_matching(
            self.db.rows(),
            &Condition::KeyEq(model.id),
        ) == 0 {
            let mut rows = select(self.db.rows(), &Condition::KeyLt(model.id));
            let mut gt = select(self.db.rows(), &Condition::KeyGt(model.id));
            let ret = model.duplicate();
            let ghost lt_part = rows@;
            let ghost gt_part = gt@;
            rows.push(model);
            let ghost with_x = rows@;
            rows.append(&mut gt);
            proof {
                lemma_rows_view_push(lt_part, ret);
                lemma_rows_view_concat(with_x, gt_part);
                assert(rows_view(rows@) =~= insert_row(self@.rows, ret@));
                lemma_insert_fits(self@.rows, ncols as int, ret@);
            }
            Some((rows, ret))
        } else {
            None
        };
        self.db.transact(work)
    }

    /// Overwrites every column of the row with `model`'s key, in a transaction
    /// of its own, and returns the stored row. A row that does not fit the
    /// schema, or whose key no row has, is refused; on any failure no row changes.
    pub fn update_by_id(&mut self, model: Record) -> (r: Result<Record, RepoError>)
        requires
            old(self).wf(),
        ensures
            final(self).wf(),
            update_post(old(self)@, model@, final(self)@, r),
    {
        let ncols = self.db.columns().len();
        let work = if model.values.len() == ncols && count_matching(
            self.db.rows(),
            &Condition::KeyEq(model.id),
        ) > 0 {
            let rows = self.db.rows();
            let ghost target = replace_row(self@.rows, model@);
            let mut out: Vec<Record> = Vec::new();
            let mut i: usize = 0;
            while i < rows.len()
                invariant
                    i <= rows@.len(),
                    rows_view(rows@) == self@.rows,
                    target == replace_row(self@.rows, model@),
                    rows_view(out@) == target.take(i as int),
                decreases rows@.len() - i,
            {
                let x = if rows[i].id == model.id {
                    model.duplicate()
                } else {
                    rows[i].duplicate()
                };
                let ghost before = out@;
                out.push(x);
                proof {
                    lemma_rows_view_push(before, x);
                    assert(rows_view(out@) =~= target.take(i + 1));
                }
                i = i + 1;
            }
            proof {
                assert(target.take(rows@.len() as int) =~= target);
                assert forall|a: int, b: int| 0 <= a < b < target.len() implies target[a].id
                    < target[b].id by {
                    assert(self@.rows[a].id < self@.rows[b].id);
                }
                assert forall|a: int| 0 <= a < target.len() implies #[trigger] target[a].values.len()
                    == ncols by {
                    assert(self@.rows[a].values.len() == ncols);
                }
            }
            Some((out, model))
        } else {
            None
        };
        self.db.transact(work)
    }

    /// Makes the assignments `column_updates`, in order, on every row that
    /// `c` accepts, in a transaction of its own, and returns how many rows
    /// `c` accepted. An assignment to a column the schema lacks is refused;
    /// on any failure no row changes.
    pub fn update_by_condition(&mut self, c: &Condition, column_updates: Vec<(usize, Value)>) -> (r:
        Result<u64, RepoError>)
        requires
            old(self).wf(),
        ensures
            final(self).wf(),
            update_condition_post(old(self)@, *c, updates_view(column_updates@), final(self)@, r),
    {
        let ncols = self.db.columns().len();
        let work = if updates_in_range(&column_updates, ncols) {
            let rows = self.db.rows();
            let ghost u = updates_view(column_updates@);
            let ghost target = update_rows(self@.rows, *c, u);
            let mut out: Vec<Record> = Vec::new();
            let mut i: usize = 0;
            while i < rows.len()
                invariant
                    i <= rows@.len(),
                    rows_view(rows@) == self@.rows,
                    rows_fit(self@.rows, ncols as int),
                    u == updates_view(column_updates@),
                    updates_fit(u, ncols as int),
                    target == update_rows(self@.rows, *c, u),
                    rows_view(out@) == target.take(i as int),
                decreases rows@.len() - i,
            {
                assert(rows@[i as int]@ == self@.rows[i as int]);
                let x = if c.test(&rows[i]) {
                    let vals = copy_values(&rows[i].values);
                    assert(self@.rows[i as int].values.len() == ncols);
                    assert(values_view(rows@[i as int].values@).len() == rows@[i as int].values@.len());
                    assert(values_view(vals@).len() == vals@.len());
                    let vals = apply_to(vals, &column_updates);
                    let x = Record { id: rows[i].id, values: vals };
                    assert(x@.values == values_view(vals@));
                    x
                } else {
                    rows[i].duplicate()
                };
                let ghost before = out@;
                out.push(x);
                proof {
                    lemma_rows_view_push(before, x);
                    assert(rows_view(out@) =~= target.take(i + 1));
                }
                i = i + 1;
            }
            let n = count_matching(rows, c);
            proof {
                assert(target.take(rows@.len() as int) =~= target);
                assert forall|a: int, b: int| 0 <= a < b < target.len() implies target[a].id
                    < target[b].id by {
                    assert(self@.rows[a].id < self@.rows[b].id);
                }
                assert forall|a: int| 0 <= a < target.len() implies #[trigger] target[a].values.len()
                    == ncols by {
                    assert(self@.rows[a].values.len() == ncols);
                    lemma_apply_updates_len(self@.rows[a].values, u);
                }
            }
            Some((out, n))
        } else {
            None
        };
        self.db.transact(work)
    }

    /// Removes the row with key `id`, in a transaction of its own. A key that
    /// no row has is no error: nothing is removed.
    pub fn delete(&mut self, id: i64) -> (r: Result<DeleteOutcome, RepoError>)
        requires
            old(self).wf(),
        ensures
            final(self).wf(),
            delete_post(old(self)@, Condition::KeyEq(id), final(self)@, r),
    {
        self.delete_batch(&Condition::KeyEq(id))
    }

    /// Removes every row that `c` accepts, in a transaction of its own.
    pub fn delete_batch(&mut self, c: &Condition) -> (r: Result<DeleteOutcome, RepoError>)
        requires
            old(self).wf(),
        ensures
            final(self).wf(),
            delete_post(old(self)@, *c, final(self)@, r),
    {
        let kept = reject(self.db.rows(), c);
        let n = count_matching(self.db.rows(), c);
        proof {
            lemma_matching_fits(self@.rows, self@.columns.len() as int, Condition::Not(Box::new(*c)));
        }
        self.db.transact(Some((kept, DeleteOutcome { rows_affected: n })))
    }
}

/// A page holds at most `page_size` rows, and two page queries on the same
/// table with the same filter and parameters return the same rows and total.
pub proof fn lemma_page_bounded_and_repeatable(
    db: MemDbView,
    c: Condition,
    param: PageQueryParam,
    r1: Result<(Vec<Record>, u64), RepoError>,
    r2: Result<(Vec<Record>, u64), RepoError>,
)
    requires
        page_post(db, c, param, r1),
        page_post(db, c, param, r2),
    ensures
        r1 matches Ok(p) ==> p.0@.len() <= param.page_size,
        r1 is Ok <==> r2 is Ok,
        r1 matches Ok(x) ==> (r2 matches Ok(y) && rows_view(x.0@) == rows_view(y.0@) && x.1
            == y.1),
{
    if let Some(o) = ordered_matches(db, c, param) {
        lemma_page_len_bounded(o, param.page_num as nat, param.page_size as nat);
        if let Ok(p) = r1 {
            assert(rows_view(p.0@).len() == p.0@.len());
        }
    }
}

/// The total of a page query counts the rows the filter accepts, whatever
/// page is asked for and however large pages are.
pub proof fn lemma_page_total_ignores_paging(
    db: MemDbView,
    c: Condition,
    first: PageQueryParam,
    second: PageQueryParam,
    r1: Result<(Vec<Record>, u64), RepoError>,
    r2: Result<(Vec<Record>, u64), RepoError>,
)
    requires
        page_post(db, c, first, r1),
        page_post(db, c, second, r2),
        first.sort_by == second.sort_by,
        first.sort_direction == second.sort_direction,
    ensures
        r1 is Ok <==> r2 is Ok,
        r1 matches Ok(a) ==> (r2 matches Ok(b) && a.1 == b.1),
        r1 matches Ok(a) ==> a.1 == matching(db.rows, c).len(),
{
}

/// After a successful `create`, looking the new row's key up finds that row.
pub proof fn lemma_create_then_find(
    pre: MemDbView,
    model: RecordView,
    post: MemDbView,
    r: Result<Record, RepoError>,
)
    requires
        rows_fit(pre.rows, pre.columns.len() as int),
        create_post(pre, model, post, r),
        r is Ok,
    ensures
        first_of(matching(post.rows, Condition::KeyEq(model.id))) == Some(model),
        r->Ok_0@ == model,
{
    let k = Condition::KeyEq(model.id);
    let lt = matching(pre.rows, Condition::KeyLt(model.id));
    let gt = matching(pre.rows, Condition::KeyGt(model.id));
    lemma_matching_members(pre.rows, Condition::KeyLt(model.id));
    lemma_matching_members(pre.rows, Condition::KeyGt(model.id));
    assert forall|i: int| 0 <= i < lt.len() implies !k.holds(#[trigger] lt[i]) by {
        assert(Condition::KeyLt(model.id).holds(lt[i]));
    }
    assert forall|i: int| 0 <= i < gt.len() implies !k.holds(#[trigger] gt[i]) by {
        assert(Condition::KeyGt(model.id).holds(gt[i]));
    }
    lemma_matching_all_or_none(lt, k);
    lemma_matching_all_or_none(gt, k);
    lemma_matching_concat(lt + seq![model], gt, k);
    lemma_matching_concat(lt, seq![model], k);
    let one = seq![model];
    assert(one.drop_last() =~= Seq::<RecordView>::empty());
    assert(matching(one.drop_last(), k) =~= Seq::<RecordView>::empty());
    assert(one.last() == model);
    assert(k.holds(model));
    assert(matching(one, k) =~= seq![model]);
    assert(matching(post.rows, k) =~= seq![model]);
}

/// Deleting a key that no row has succeeds, removes nothing and reports no
/// affected row, unless a transaction failure was injected.
pub proof fn lemma_delete_absent_key(
    pre: MemDbView,
    id: i64,
    post: MemDbView,
    r: Result<DeleteOutcome, RepoError>,
)
    requires
        delete_post(pre, Condition::KeyEq(id), post, r),
        matching(pre.rows, Condition::KeyEq(id)).len() == 0,
        pre.fault is None,
    ensures
        r matches Ok(d) && d.rows_affected == 0,
        post == pre,
{
    let c = Condition::Not(Box::new(Condition::KeyEq(id)));
    lemma_matching_empty(pre.rows, Condition::KeyEq(id));
    assert forall|i: int| 0 <= i < pre.rows.len() implies c.holds(#[trigger] pre.rows[i]) by {
        assert(!Condition::KeyEq(id).holds(pre.rows[i]));
    }
    lemma_matching_all_or_none(pre.rows, c);
}

/// An update with no assignments counts the rows the filter accepts and
/// changes no value, unless a transaction failure was injected.
pub proof fn lemma_empty_update(
    pre: MemDbView,
    c: Condition,
    post: MemDbView,
    r: Result<u64, RepoError>,
)
    requires
        update_condition_post(pre, c, Seq::empty(), post, r),
        pre.fault is None,
    ensures
        r matches Ok(n) && n == matching(pre.rows, c).len(),
        post == pre,
{
    let u = Seq::<(usize, ValueView)>::empty();
    assert(update_rows(pre.rows, c, u) =~= pre.rows);
}

/// A failed mutation leaves the table as it was: nothing it did before the
/// failure stays.
pub proof fn lemma_failed_mutation_keeps_rows<T>(
    pre: MemDbView,
    work_ok: bool,
    rows: Seq<RecordView>,
    post: MemDbView,
    r: Result<T, RepoError>,
)
    requires
        txn_post(pre, work_ok, rows, post, r),
        r is Err,
    ensures
        post.rows == pre.rows,
{
}

/// A `create` that fails while its statement runs stores nothing: the new
/// key is still absent afterwards.
pub proof fn lemma_create_failure_stores_nothing(
    pre: MemDbView,
    model: RecordView,
    post: MemDbView,
    r: Result<Record, RepoError>,
)
    requires
        create_post(pre, model, post, r),
        pre.fault == Some(FaultPoint::Execute),
        matching(pre.rows, Condition::KeyEq(model.id)).len() == 0,
    ensures
        r matches Err(e) && e.kind_of() == ErrorKind::Query,
        post.rows == pre.rows,
        first_of(matching(post.rows, Condition::KeyEq(model.id))) is None,
{
}

} // verus!
