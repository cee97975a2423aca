//! The two interchangeable ledger backends and what each of them can do.

use vstd::prelude::*;
use crate::ids::ObjectId;

verus! {

/// Which backend a client talks to.
#[derive(Clone, Copy, Debug, PartialEq, Eq, Structural)]
pub enum BackendKind {
    /// A remote query service; `streaming` tells whether it was opened with
    /// an event channel.
    Rpc { streaming: bool },
    /// A local view of the execution state.
    Embedded,
}

/// The operations that a client asks of its backend.
#[derive(Clone, Copy, Debug, PartialEq, Eq, Structural)]
pub enum Operation {
    ObjectsOwnedByAddress,
    ObjectsOwnedByObject,
    RawObject,
    TotalTransactionNumber,
    TransactionsInRange,
    RecentTransactions,
    Transaction,
    TransactionsByInputObject,
    TransactionsByMutatedObject,
    TransactionsByMoveFunction,
    TransactionsFromAddr,
    TransactionsToAddr,
    SubscribeEvent,
    ExecuteTransaction,
    SyncAccountState,
}

/// Why an operation of the client failed.
#[derive(Clone, Copy, Debug, PartialEq, Eq)]
pub enum ClientError {
    /// The backend could not be reached.
    BackendUnavailable,
    /// The active backend lacks the operation, for good.
    UnsupportedOperation(Operation),
    /// The backend's answer for this object could not be decoded.
    DecodeError(ObjectId),
    /// The resolver was led to an object that is no package.
    InternalInvariantViolation(ObjectId),
    /// The closure handed to the layout resolver lacks this package.
    MissingModule(ObjectId),
}

impl Operation {
    /// Whether the operation is a query over the index of transactions by
    /// the objects they touch, by the function they call or by their sender
    /// or recipient.
    pub open spec fn is_indexed_query(self) -> bool {
        self is TransactionsByInputObject || self is TransactionsByMutatedObject
            || self is TransactionsByMoveFunction || self is TransactionsFromAddr
            || self is TransactionsToAddr
    }
}

/// Whether a backend of this kind can carry out the operation: the embedded
/// backend answers no indexed query, and events are delivered only by a
/// remote backend with an event channel.
pub open spec fn supported(kind: BackendKind, op: Operation) -> bool {
    match kind {
        BackendKind::Embedded => !op.is_indexed_query() && !(op is SubscribeEvent),
        BackendKind::Rpc { streaming } => op is SubscribeEvent ==> streaming,
    }
}

impl BackendKind {
    /// Whether this backend can carry out `op`.
    pub fn supports(&self, op: Operation) -> (r: bool)
        ensures
            r == supported(*self, op),
    {
        match self {
            BackendKind::Embedded => match op {
                Operation::TransactionsByInputObject
                | Operation::TransactionsByMutatedObject
                | Operation::TransactionsByMoveFunction
                | Operation::TransactionsFromAddr
                | Operation::TransactionsToAddr
                | Operation::SubscribeEvent => false,
                _ => true,
            },
            BackendKind::Rpc { streaming } => match op {
                Operation::SubscribeEvent => *streaming,
                _ => true,
            },
        }
    }

    /// Admits `op` where this backend can carry it out, and names it in the
    /// error where it cannot.
    pub fn require(&self, op: Operation) -> (r: Result<(), ClientError>)
        ensures
            r is Ok <==> supported(*self, op),
            r is Err ==> r == Err::<(), ClientError>(ClientError::UnsupportedOperation(op)),
    {
        if self.supports(op) {
            Ok(())
        } else {
            Err(ClientError::UnsupportedOperation(op))
        }
    }
}

/// The embedded backend refuses every indexed query, and nothing else but
/// the event stream.
pub proof fn lemma_embedded_gating(op: Operation)
    ensures
        op.is_indexed_query() ==> !supported(BackendKind::Embedded, op),
        !supported(BackendKind::Embedded, op) <==> (op.is_indexed_query() || op is SubscribeEvent),
        forall|streaming: bool| op.is_indexed_query() ==> supported(BackendKind::Rpc { streaming }, op),
{
}

} // verus!
