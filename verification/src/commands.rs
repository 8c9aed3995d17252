//! The command layer: request handlers over an explicit application context.
//! Each handler validates nothing about its transport; it takes plain request
//! values, drives the store, session and registry, and reports failures as
//! message strings.

use crate::codec::spec_encode_ops;
use crate::document::{Document, Transaction};
use crate::params::{
    CreateDocumentParameter, CreateWorkspace, CreateWorkspaceResult, GetDocumentParameter,
    GetDocumentResponse, GetWorkspacesResult, UpdateWorkspace, YDocumentUpdate,
};
use crate::registry::{spec_owned_by, workspace_id_chars, WorkspaceRegistry};
use crate::store::{blob_seq, UpdateLogStore};
use vstd::prelude::*;
use vstd::string::StrSliceExecFns;
use vstd::utf8::encode_utf8;

verus! {

/// The application context: the update log store for document contents and
/// the registry for workspace metadata, passed to every handler.
pub struct AppState {
    pub doc_db: UpdateLogStore,
    pub metadata_db: WorkspaceRegistry,
}

impl AppState {
    /// A context over a fresh store and a fresh registry, both working.
    pub fn new() -> (s: AppState)
        ensures
            s.doc_db.available(),
            s.metadata_db.available(),
            forall|id: Seq<char>| s.doc_db.log_of(id) == Seq::<Seq<u8>>::empty(),
            s.metadata_db.records_seq() == Seq::<crate::registry::Workspace>::empty(),
            s.metadata_db.next_serial() == 0,
    {
        AppState { doc_db: UpdateLogStore::new(), metadata_db: WorkspaceRegistry::new() }
    }
}

/// The update fragment that carries a document's initial metadata: a single
/// assignment of `name`.
pub open spec fn initial_fragment(name: Seq<char>) -> Seq<u8> {
    spec_encode_ops(seq![(encode_utf8("name"@), encode_utf8(name))])
}

/// Builds the one-assignment document for a workspace and hands its
/// serialized state to the store.
fn write_initial_document(
    doc_db: &mut UpdateLogStore,
    workspace_id: &String,
    workspace_name: &String,
) -> (r: Result<(), crate::store::StoreError>)
    ensures
        final(doc_db).available() == old(doc_db).available(),
        r is Ok <==> old(doc_db).available(),
        !old(doc_db).available() ==> *final(doc_db) == *old(doc_db),
        old(doc_db).available() ==> final(doc_db).log_of(workspace_id@) == old(doc_db).log_of(
            workspace_id@,
        ).push(initial_fragment(workspace_name@)) && forall|other: Seq<char>|
            other != workspace_id@ ==> final(doc_db).log_of(other) == old(doc_db).log_of(other),
{
    let mut document = Document::new(workspace_id.clone());
    let mut transaction = Transaction::new();
    transaction.set_metadata("name".as_bytes_vec(), workspace_name.as_str().as_bytes_vec());
    let _update = document.commit(transaction);
    let snapshot = document.snapshot();
    proof {
        assert(document.entries() =~= seq![
            (encode_utf8("name"@), encode_utf8(workspace_name@)),
        ]);
    }
    doc_db.write(workspace_id, snapshot)
}

/// Creates the backing document of a workspace: a fresh document bound to
/// the workspace id, whose initial metadata sets `name` to the workspace's
/// name, serialized and appended to the workspace's update log. Fails,
/// changing nothing, exactly when the store is unreachable.
pub fn create_doc(state: &mut AppState, parameters: CreateDocumentParameter) -> (r: Result<
    (),
    String,
>)
    ensures
        final(state).metadata_db == old(state).metadata_db,
        final(state).doc_db.available() == old(state).doc_db.available(),
        r is Ok <==> old(state).doc_db.available(),
        !old(state).doc_db.available() ==> final(state).doc_db == old(state).doc_db && (
        r matches Err(m) && m@ == "failed to write document for workspace "@
            + parameters.workspace_id@),
        old(state).doc_db.available() ==> final(state).doc_db.log_of(parameters.workspace_id@)
            == old(state).doc_db.log_of(parameters.workspace_id@).push(
            initial_fragment(parameters.workspace_name@),
        ) && forall|other: Seq<char>|
            other != parameters.workspace_id@ ==> final(state).doc_db.log_of(other) == old(state).doc_db.log_of(other),
{
    match write_initial_document(
        &mut state.doc_db,
        &parameters.workspace_id,
        &parameters.workspace_name,
    ) {
        Ok(()) => Ok(()),
        Err(_) => Err(
            String::from_str("failed to write document for workspace ").concat(
                parameters.workspace_id.as_str(),
            ),
        ),
    }
}

/// Returns every stored update fragment of the document, in storage order,
/// for client-side replay; an empty list for a document no write has
/// touched. Fails exactly when the store is unreachable.
pub fn get_doc(state: &AppState, parameters: GetDocumentParameter) -> (r: Result<
    GetDocumentResponse,
    String,
>)
    ensures
        r is Ok <==> state.doc_db.available(),
        state.doc_db.available() ==> (r matches Ok(resp) && blob_seq(resp.updates@)
            == state.doc_db.log_of(parameters.id@)),
        !state.doc_db.available() ==> (r matches Err(m) && m@
            == "failed to read document updates for workspace "@ + parameters.id@),
{
    match state.doc_db.read_all(&parameters.id) {
        Ok(updates) => Ok(GetDocumentResponse { updates }),
        Err(_) => Err(
            String::from_str("failed to read document updates for workspace ").concat(
                parameters.id.as_str(),
            ),
        ),
    }
}

/// Appends one incoming update fragment to the document's log. A failure of
/// the backing store is surfaced to the caller as an error rather than
/// swallowed: success means the fragment is stored.
pub fn update_y_document(state: &mut AppState, parameters: YDocumentUpdate) -> (r: Result<
    bool,
    String,
>)
    ensures
        final(state).metadata_db == old(state).metadata_db,
        final(state).doc_db.available() == old(state).doc_db.available(),
        r is Ok <==> old(state).doc_db.available(),
        !old(state).doc_db.available() ==> final(state).doc_db == old(state).doc_db && (
        r matches Err(m) && m@ == "failed to store update for workspace "@ + parameters.id@),
        old(state).doc_db.available() ==> r == Ok::<bool, String>(true) && final(state).doc_db.log_of(parameters.id@) == old(state).doc_db.log_of(parameters.id@).push(
            parameters.update@,
        ) && forall|other: Seq<char>|
            other != parameters.id@ ==> final(state).doc_db.log_of(other) == old(state).doc_db.log_of(other),
{
    match state.doc_db.replace(&parameters.id, parameters.update) {
        Ok(()) => Ok(true),
        Err(_) => Err(
            String::from_str("failed to store update for workspace ").concat(
                parameters.id.as_str(),
            ),
        ),
    }
}

/// Returns the workspaces the user owns, in creation order. Fails exactly
/// when the registry backend has failed.
pub fn get_workspaces(state: &AppState, parameters: CreateWorkspace) -> (r: Result<
    GetWorkspacesResult,
    String,
>)
    ensures
        r is Ok <==> state.metadata_db.available(),
        state.metadata_db.available() ==> (r matches Ok(res) && res.workspaces@ == spec_owned_by(
            state.metadata_db.records_seq(),
            parameters.user_id@,
        )),
        !state.metadata_db.available() ==> (r matches Err(m) && m@
            == "workspace registry backend unavailable"@),
{
    match state.metadata_db.get_user_workspaces(&parameters.user_id) {
        Ok(workspaces) => Ok(GetWorkspacesResult { workspaces }),
        Err(e) => Err(e.message()),
    }
}

/// Creates a workspace: allocates a fresh unique workspace id for the user,
/// then creates the workspace's document with its name as initial metadata
/// and appends its serialized state to that id's update log. The returned
/// record carries the new id and the requested name.
pub fn create_workspace(state: &mut AppState, parameters: CreateWorkspace) -> (r: Result<
    CreateWorkspaceResult,
    String,
>)
    requires
        old(state).metadata_db.next_serial() < u64::MAX,
    ensures
        final(state).doc_db.available() == old(state).doc_db.available(),
        final(state).metadata_db.available() == old(state).metadata_db.available(),
        r is Ok <==> (old(state).metadata_db.available() && old(state).doc_db.available()),
        !old(state).metadata_db.available() ==> final(state).metadata_db == old(state).metadata_db && final(state).doc_db == old(state).doc_db && (r matches Err(m) && m@
            == "workspace registry backend unavailable"@),
        old(state).metadata_db.available() ==> {
            &&& final(state).metadata_db.next_serial() == old(state).metadata_db.next_serial()
                + 1
            &&& final(state).metadata_db.records_seq().len() == old(state).metadata_db.records_seq().len() + 1
            &&& forall|j: int|
                0 <= j < old(state).metadata_db.records_seq().len() ==> final(state).metadata_db.records_seq()[j] == old(state).metadata_db.records_seq()[j]
            &&& final(state).metadata_db.records_seq().last().id@ == workspace_id_chars(
                old(state).metadata_db.next_serial(),
            )
            &&& final(state).metadata_db.records_seq().last().owner_user_id@
                == parameters.user_id@
            &&& final(state).metadata_db.records_seq().last().name@ == Seq::<char>::empty()
        },
        (old(state).metadata_db.available() && old(state).doc_db.available()) ==> {
            &&& r matches Ok(res) && res.id@ == workspace_id_chars(
                old(state).metadata_db.next_serial(),
            ) && res.name == parameters.name
            &&& final(state).doc_db.log_of(workspace_id_chars(old(state).metadata_db.next_serial()))
                == old(state).doc_db.log_of(
                workspace_id_chars(old(state).metadata_db.next_serial()),
            ).push(initial_fragment(parameters.name@))
            &&& forall|other: Seq<char>|
                other != workspace_id_chars(old(state).metadata_db.next_serial()) ==> final(state).doc_db.log_of(other) == old(state).doc_db.log_of(other)
        },
        (old(state).metadata_db.available() && !old(state).doc_db.available()) ==> final(state).doc_db == old(state).doc_db && (r matches Err(m) && m@
            == "failed to write document for workspace "@ + workspace_id_chars(
            old(state).metadata_db.next_serial(),
        )),
{
    match state.metadata_db.create_normal_workspace(parameters.user_id) {
        Ok(new_workspace) => {
            match write_initial_document(&mut state.doc_db, &new_workspace.id, &parameters.name) {
                Ok(()) => Ok(
                    CreateWorkspaceResult { id: new_workspace.id, name: parameters.name },
                ),
                Err(_) => Err(
                    String::from_str("failed to write document for workspace ").concat(
                        new_workspace.id.as_str(),
                    ),
                ),
            }
        },
        Err(e) => Err(e.message()),
    }
}

/// Updates nothing, by design, and reports success: mutable workspace fields
/// beyond id and owner are changed exclusively through the document's update
/// log, so there is nothing for the registry to edit here.
pub fn update_workspace(state: &AppState, _parameters: &UpdateWorkspace) -> (r: Result<
    bool,
    String,
>)
    ensures
        r == Ok::<bool, String>(true),
{
    Ok(state.metadata_db.update_workspace())
}

} // verus!
