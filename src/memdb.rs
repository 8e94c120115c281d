use vstd::prelude::*;
use crate::error::{ErrorKind, RepoError};
use crate::table::{rows_view, sorted_by_key, Record, RecordView};
use crate::txn::{txn_start, txn_step, TxnAction, TxnEvent};

verus! {

/// A stage of a transaction at which a simulated failure can be injected.
#[derive(Debug, Clone, Copy, PartialEq, Eq, Structural)]
pub enum FaultPoint {
    Begin,
    Execute,
    Commit,
    Rollback,
}

/// An in-memory database handle over one table: a primary-key column, the
/// names of the other columns, the rows in key order, and an injected fault.
#[derive(Debug)]
pub struct MemDb {
    key_column: String,
    columns: Vec<String>,
    rows: Vec<Record>,
    fault: Option<FaultPoint>,
}

pub ghost struct MemDbView {
    pub key_column: Seq<char>,
    pub columns: Seq<Seq<char>>,
    pub rows: Seq<RecordView>,
    pub fault: Option<FaultPoint>,
}

impl View for MemDb {
    type V = MemDbView;

    closed spec fn view(&self) -> MemDbView {
        MemDbView {
            key_column: self.key_column@,
            columns: self.columns@.map_values(|s: String| s@),
            rows: rows_view(self.rows@),
            fault: self.fault,
        }
    }
}

/// Rows fit a schema of `ncols` value columns and are in strict key order.
pub open spec fn rows_fit(rows: Seq<RecordView>, ncols: int) -> bool {
    &&& sorted_by_key(rows)
    &&& forall|i: int| 0 <= i < rows.len() ==> #[trigger] rows[i].values.len() == ncols
}

/// Whether a transaction whose unit of work succeeded (`work_ok`) commits under `fault`.
pub open spec fn txn_commits(fault: Option<FaultPoint>, work_ok: bool) -> bool {
    work_ok && (fault is None || fault == Some(FaultPoint::Rollback))
}

/// The class of the error a transaction that does not commit ends with.
pub open spec fn txn_failure(fault: Option<FaultPoint>, work_ok: bool) -> ErrorKind {
    match fault {
        Some(FaultPoint::Begin) => ErrorKind::Transaction,
        Some(FaultPoint::Execute) => ErrorKind::Query,
        Some(FaultPoint::Commit) => if work_ok { ErrorKind::Transaction } else { ErrorKind::Query },
        Some(FaultPoint::Rollback) => ErrorKind::Transaction,
        None => ErrorKind::Query,
    }
}

impl MemDb {
    pub open spec fn wf(&self) -> bool {
        rows_fit(self@.rows, self@.columns.len() as int)
    }

    /// An empty table with this key column and these value columns.
    pub fn new(key_column: &str, columns: Vec<String>) -> (r: MemDb)
        ensures
            r.wf(),
            r@.key_column == key_column@,
            r@.columns == columns@.map_values(|s: String| s@),
            r@.rows.len() == 0,
            r@.fault is None,
    {
        let r = MemDb { key_column: key_column.to_owned(), columns, rows: Vec::new(), fault: None };
        assert(r@.rows =~= Seq::<RecordView>::empty());
        r
    }

    /// Makes every later transaction fail at `fault`, or none when `None`.
    pub fn set_fault(&mut self, fault: Option<FaultPoint>)
        ensures
            final(self)@ == (MemDbView { fault, ..old(self)@ }),
    {
        self.fault = fault;
    }

    pub fn key_column(&self) -> (r: &String)
        ensures
            r@ == self@.key_column,
    {
        &self.key_column
    }

    pub fn columns(&self) -> (r: &Vec<String>)
        ensures
            r@.map_values(|s: String| s@) == self@.columns,
    {
        &self.columns
    }

    pub fn rows(&self) -> (r: &Vec<Record>)
        ensures
            rows_view(r@) == self@.rows,
    {
        &self.rows
    }

    /// Runs one mutation as a transaction. `work` holds the rows as the
    /// statement leaves them and the value to return, or `None` when the
    /// database refused the statement. The rows are replaced on commit only.
    pub fn transact<T>(&mut self, work: Option<(Vec<Record>, T)>) -> (r: Result<T, RepoError>)
        requires
            old(self).wf(),
            work matches Some(w) ==> rows_fit(rows_view(w.0@), old(self)@.columns.len() as int),
        ensures
            final(self).wf(),
            r is Ok <==> txn_commits(old(self)@.fault, work is Some),
            r is Ok ==> r->Ok_0 == work.unwrap().1 && final(self)@ == (MemDbView {
                rows: rows_view(work.unwrap().0@),
                ..old(self)@
            }),
            r is Err ==> final(self)@ == old(self)@ && r->Err_0.kind_of() == txn_failure(
                old(self)@.fault,
                work is Some,
            ),
    {
        let fault = self.fault;
        let (state, _begin) = txn_start::<T>();
        let began = if fault == Some(FaultPoint::Begin) {
            Err(RepoError::Transaction("could not begin transaction".to_string()))
        } else {
            Ok(())
        };
        let (state, action) = txn_step(state, TxnEvent::Began(began));
        if let TxnAction::Finish(r) = action {
            return r;
        }
        let mut staged: Option<Vec<Record>> = None;
        let ran = match work {
            None => Err(RepoError::Query("statement refused".to_string())),
            Some((rows, v)) => {
                if fault == Some(FaultPoint::Execute) {
                    Err(RepoError::Query("statement failed".to_string()))
                } else {
                    staged = Some(rows);
                    Ok(v)
                }
            },
        };
        let (state, action) = txn_step(state, TxnEvent::Ran(ran));
        match action {
            TxnAction::Commit => {
                let committed = if fault == Some(FaultPoint::Commit) {
                    Err(RepoError::Transaction("could not commit".to_string()))
                } else {
                    Ok(())
                };
                if committed.is_ok() {
                    if let Some(rows) = staged {
                        self.rows = rows;
                    }
                }
                let (_state, action) = txn_step(state, TxnEvent::Committed(committed));
                match action {
                    TxnAction::Finish(r) => r,
                    _ => Err(RepoError::Transaction("transaction event out of order".to_string())),
                }
            },
            TxnAction::Rollback => {
                let rolled_back = if fault == Some(FaultPoint::Rollback) {
                    Err(RepoError::Transaction("could not roll back".to_string()))
                } else {
                    Ok(())
                };
                let (_state, action) = txn_step(state, TxnEvent::RolledBack(rolled_back));
                match action {
                    TxnAction::Finish(r) => r,
                    _ => Err(RepoError::Transaction("transaction event out of order".to_string())),
                }
            },
            _ => Err(RepoError::Transaction("transaction event out of order".to_string())),
        }
    }
}

} // verus!
