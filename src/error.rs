use vstd::prelude::*;

verus! {

/// Why a repository or service call failed. An absent row is no error: lookups
/// return `None` for it.
/// The class of a `RepoError`.
#[derive(Debug, Clone, Copy, PartialEq, Eq, Structural)]
pub enum ErrorKind {
    Validation,
    Query,
    Transaction,
}

#[derive(Debug, PartialEq, Eq)]
pub enum RepoError {
    /// A business rule refused the call before the database was reached.
    Validation(String),
    /// The database reported a failure: bad column, constraint, connectivity.
    Query(String),
    /// Commit or rollback itself failed.
    Transaction(String),
}

impl RepoError {
    pub open spec fn kind_of(&self) -> ErrorKind {
        match self {
            RepoError::Validation(_) => ErrorKind::Validation,
            RepoError::Query(_) => ErrorKind::Query,
            RepoError::Transaction(_) => ErrorKind::Transaction,
        }
    }

    /// The class of this error.
    pub fn kind(&self) -> (r: ErrorKind)
        ensures
            r == self.kind_of(),
    {
        match self {
            RepoError::Validation(_) => ErrorKind::Validation,
            RepoError::Query(_) => ErrorKind::Query,
            RepoError::Transaction(_) => ErrorKind::Transaction,
        }
    }

    /// The error's message.
    pub fn message(&self) -> (r: String)
        ensures
            r@ == match self {
                RepoError::Validation(m) => m@,
                RepoError::Query(m) => m@,
                RepoError::Transaction(m) => m@,
            },
    {
        match self {
            RepoError::Validation(m) => m.clone(),
            RepoError::Query(m) => m.clone(),
            RepoError::Transaction(m) => m.clone(),
        }
    }
}

} // verus!
