use vstd::prelude::*;
use crate::error::RepoError;

verus! {

/// Where a mutation stands in its transaction.
pub enum TxnState<T> {
    /// Waiting for the transaction to open.
    Beginning,
    /// Transaction open, waiting for the unit of work.
    Running,
    /// Work succeeded with this value, waiting for the commit.
    Committing(T),
    /// Work failed with this error, waiting for the rollback.
    RollingBack(RepoError),
    /// Nothing left to do.
    Finished,
}

/// What the caller must do next.
pub enum TxnAction<T> {
    Begin,
    Run,
    Commit,
    Rollback,
    /// Hand this result back to the caller of the mutation.
    Finish(Result<T, RepoError>),
}

/// What the database answered to the last action.
pub enum TxnEvent<T> {
    Began(Result<(), RepoError>),
    Ran(Result<T, RepoError>),
    Committed(Result<(), RepoError>),
    RolledBack(Result<(), RepoError>),
}

/// The transition table of the transaction protocol; `None` where the event
/// does not answer the action that the state asked for.
pub open spec fn step_spec<T>(state: TxnState<T>, event: TxnEvent<T>) -> Option<(TxnState<T>, TxnAction<T>)> {
    match (state, event) {
        (TxnState::Beginning, TxnEvent::Began(Ok(()))) => Some((TxnState::Running, TxnAction::Run)),
        (TxnState::Beginning, TxnEvent::Began(Err(e))) => Some((TxnState::Finished, TxnAction::Finish(Err(e)))),
        (TxnState::Running, TxnEvent::Ran(Ok(v))) => Some((TxnState::Committing(v), TxnAction::Commit)),
        (TxnState::Running, TxnEvent::Ran(Err(e))) => Some((TxnState::RollingBack(e), TxnAction::Rollback)),
        (TxnState::Committing(v), TxnEvent::Committed(Ok(()))) => Some((TxnState::Finished, TxnAction::Finish(Ok(v)))),
        (TxnState::Committing(_), TxnEvent::Committed(Err(e))) => Some((TxnState::Finished, TxnAction::Finish(Err(e)))),
        (TxnState::RollingBack(e), TxnEvent::RolledBack(Ok(()))) => Some((TxnState::Finished, TxnAction::Finish(Err(e)))),
        (TxnState::RollingBack(_), TxnEvent::RolledBack(Err(e2))) => Some((TxnState::Finished, TxnAction::Finish(Err(e2)))),
        _ => None,
    }
}

/// One step of the protocol: the next state and action after `event`. An event
/// out of order ends the mutation with a transaction error.
pub fn txn_step<T>(state: TxnState<T>, event: TxnEvent<T>) -> (r: (TxnState<T>, TxnAction<T>))
    ensures
        step_spec(state, event) matches Some(p) ==> r == p,
        step_spec(state, event) is None ==> r.0 is Finished && r.1 matches TxnAction::Finish(
            Err(RepoError::Transaction(_)),
        ),
{
    match (state, event) {
        (TxnState::Beginning, TxnEvent::Began(Ok(()))) => (TxnState::Running, TxnAction::Run),
        (TxnState::Beginning, TxnEvent::Began(Err(e))) => (TxnState::Finished, TxnAction::Finish(Err(e))),
        (TxnState::Running, TxnEvent::Ran(Ok(v))) => (TxnState::Committing(v), TxnAction::Commit),
        (TxnState::Running, TxnEvent::Ran(Err(e))) => (TxnState::RollingBack(e), TxnAction::Rollback),
        (TxnState::Committing(v), TxnEvent::Committed(Ok(()))) => (TxnState::Finished, TxnAction::Finish(Ok(v))),
        (TxnState::Committing(_), TxnEvent::Committed(Err(e))) => (TxnState::Finished, TxnAction::Finish(Err(e))),
        (TxnState::RollingBack(e), TxnEvent::RolledBack(Ok(()))) => (TxnState::Finished, TxnAction::Finish(Err(e))),
        (TxnState::RollingBack(_), TxnEvent::RolledBack(Err(e2))) => (TxnState::Finished, TxnAction::Finish(Err(e2))),
        _ => (
            TxnState::Finished,
            TxnAction::Finish(Err(RepoError::Transaction("transaction event out of order".to_string()))),
        ),
    }
}
/// The state and first action of a new mutation: open a transaction.
pub fn txn_start<T>() -> (r: (TxnState<T>, TxnAction<T>))
    ensures
        r == (TxnState::<T>::Beginning, TxnAction::<T>::Begin),
{
    (TxnState::Beginning, TxnAction::Begin)
}


/// The protocol commits only right after a unit of work that succeeded.
/// After one that failed it rolls back, and the mutation ends with the work's
/// error, or with the rollback's error when the rollback fails too.
pub proof fn lemma_commit_only_after_success<T>(
    state: TxnState<T>,
    event: TxnEvent<T>,
    e: RepoError,
    rolled_back: Result<(), RepoError>,
)
    ensures
        step_spec(state, event) matches Some(p) && p.1 is Commit ==> state is Running && event matches TxnEvent::Ran(Ok(_)),
        step_spec(TxnState::<T>::Running, TxnEvent::Ran(Err(e))) == Some(
            (TxnState::<T>::RollingBack(e), TxnAction::<T>::Rollback),
        ),
        step_spec(TxnState::<T>::RollingBack(e), TxnEvent::RolledBack(rolled_back)) == Some(
            (
                TxnState::<T>::Finished,
                TxnAction::<T>::Finish(
                    match rolled_back {
                        Ok(()) => Err(e),
                        Err(e2) => Err(e2),
                    },
                ),
            ),
        ),
{
}

} // verus!
