//! Request and response values of the command layer. They carry plain data
//! only; the transport that delivers them is outside the library.

use crate::registry::Workspace;
use vstd::prelude::*;

verus! {

/// Request to create the backing document of an existing workspace.
pub struct CreateDocumentParameter {
    pub workspace_id: String,
    pub workspace_name: String,
}

/// Request for every stored update fragment of one document.
pub struct GetDocumentParameter {
    pub id: String,
}

/// All stored update fragments of one document, in storage order, ready for
/// client-side replay.
pub struct GetDocumentResponse {
    pub updates: Vec<Vec<u8>>,
}

/// One incoming update fragment for a document.
pub struct YDocumentUpdate {
    pub id: String,
    pub update: Vec<u8>,
}

/// Request naming a user, for creating or listing workspaces.
pub struct CreateWorkspace {
    pub user_id: String,
    pub name: String,
}

/// The id and name of a freshly created workspace.
pub struct CreateWorkspaceResult {
    pub id: String,
    pub name: String,
}

/// The workspaces a user owns.
pub struct GetWorkspacesResult {
    pub workspaces: Vec<Workspace>,
}

/// Fields of a workspace-update request. The command that takes it is a
/// no-op by design: mutable workspace fields change through the document's
/// update log instead.
pub struct UpdateWorkspace {
    pub id: String,
    pub name: String,
}

} // verus!
