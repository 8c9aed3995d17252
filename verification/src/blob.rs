//! Parameter values for binary-blob transfers between a client and a
//! workspace's storage.

use vstd::prelude::*;

verus! {

/// A blob to store, optionally scoped to a workspace.
#[derive(Debug, Clone, PartialEq)]
pub struct PutBlob {
    pub workspace_id: Option<String>,
    pub blob: Vec<u8>,
}

/// A request for a stored blob by id, optionally scoped to a workspace.
#[derive(Debug, Clone, PartialEq)]
pub struct GetBlob {
    pub workspace_id: Option<String>,
    pub id: String,
}

/// Either side of a blob transfer.
#[derive(Debug, Clone, PartialEq)]
pub enum IBlobParameters {
    Put(PutBlob),
    Get(GetBlob),
}

} // verus!
