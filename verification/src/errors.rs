//! The engine's error surface.  Every fallible operation returns a typed
//! result; each kind names the input that caused it.

use vstd::prelude::*;

verus! {

/// Central error type for engine operations.
#[derive(Debug)]
pub enum OnyxError {
    /// A node id that does not resolve to a stored node.
    NodeNotFound(u128),
    /// An edge id that does not resolve to a stored edge.
    EdgeNotFound(u128),
    /// A version id that does not resolve to a recorded version.
    VersionNotFound(u64),
    /// A branch name that does not resolve to a branch.
    BranchNotFound(String),
    /// An attempt to create a branch under a name already taken.
    BranchAlreadyExists(String),
    /// An attempt to insert a node under an id already present.
    DuplicateNode(u128),
    /// An attempt to insert an edge under an id already present.
    DuplicateEdge(u128),
    /// The transaction was aborted; the caller may retry with fresh inputs.
    TransactionFailed(String),
    /// An embedding whose length differs from the store's fixed dimension.
    DimensionMismatch { expected: usize, got: usize },
    /// A query that cannot be executed as stated.
    InvalidQuery(String),
    /// An ingestion input that cannot be accepted.
    IngestionError(String),
    /// An at-rest record that could not be decoded.
    SerializationError,
    /// A failure of the underlying storage medium.
    IoError,
    /// An internal invariant violation observed during a read.
    Internal(String),
    /// A generic missing-item error.
    NotFound(String),
}

impl OnyxError {
    /// A short stable label for the error kind, for display at the boundary.
    pub fn kind_label(&self) -> (r: &'static str)
        ensures
            r@.len() > 0,
    {
        let l: &'static str = match self {
            OnyxError::NodeNotFound(_) => "node not found",
            OnyxError::EdgeNotFound(_) => "edge not found",
            OnyxError::VersionNotFound(_) => "version not found",
            OnyxError::BranchNotFound(_) => "branch not found",
            OnyxError::BranchAlreadyExists(_) => "branch already exists",
            OnyxError::DuplicateNode(_) => "duplicate node",
            OnyxError::DuplicateEdge(_) => "duplicate edge",
            OnyxError::TransactionFailed(_) => "transaction failed",
            OnyxError::DimensionMismatch { .. } => "dimension mismatch",
            OnyxError::InvalidQuery(_) => "invalid query",
            OnyxError::IngestionError(_) => "ingestion error",
            OnyxError::SerializationError => "serialization error",
            OnyxError::IoError => "io error",
            OnyxError::Internal(_) => "internal error",
            OnyxError::NotFound(_) => "not found",
        };
        proof {
            reveal_strlit("node not found");
            reveal_strlit("edge not found");
            reveal_strlit("version not found");
            reveal_strlit("branch not found");
            reveal_strlit("branch already exists");
            reveal_strlit("duplicate node");
            reveal_strlit("duplicate edge");
            reveal_strlit("transaction failed");
            reveal_strlit("dimension mismatch");
            reveal_strlit("invalid query");
            reveal_strlit("ingestion error");
            reveal_strlit("serialization error");
            reveal_strlit("io error");
            reveal_strlit("internal error");
            reveal_strlit("not found");
        }
        l
    }
}

/// Convenience alias for engine results.
pub type OnyxResult<T> = Result<T, OnyxError>;

} // verus!
