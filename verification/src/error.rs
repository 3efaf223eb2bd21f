use vstd::prelude::*;

verus! {

/// Why a ledger operation failed. Every storage fault is terminal for the
/// single request that raised it: nothing is retried.
#[derive(Clone, Copy, PartialEq, Eq, Structural, Debug)]
pub enum LedgerError {
    /// The persistence engine could not be opened or reached.
    StorageUnavailable,
    /// The operation could not be prepared against storage.
    StatementPreparationFailure,
    /// The store rejected or failed the operation once issued; in this
    /// store that happens when an accumulation would overflow the
    /// stored quantity.
    ExecutionFailure,
    /// A multi-row read failed partway through materializing its results.
    CollectionFailure,
}

impl LedgerError {
    /// A human-readable account of the failure, for the transport layer
    /// to surface to the caller.
    pub fn message(&self) -> (m: &'static str)
        ensures
            self is StorageUnavailable ==> m@ == "Failed to connect to database"@,
            self is StatementPreparationFailure ==> m@ == "Failed to prepare query"@,
            self is ExecutionFailure ==> m@ == "Failed to execute statement"@,
            self is CollectionFailure ==> m@ == "Could not collect items"@,
    {
        match self {
            LedgerError::StorageUnavailable => "Failed to connect to database",
            LedgerError::StatementPreparationFailure => "Failed to prepare query",
            LedgerError::ExecutionFailure => "Failed to execute statement",
            LedgerError::CollectionFailure => "Could not collect items",
        }
    }
}

} // verus!
