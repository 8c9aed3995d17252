use docstore::commands::{
    create_doc, create_workspace, get_doc, get_workspaces, update_workspace, update_y_document,
    AppState,
};
use docstore::document::Document;
use docstore::params::{
    CreateDocumentParameter, CreateWorkspace, GetDocumentParameter, UpdateWorkspace,
    YDocumentUpdate,
};
use docstore::registry::WorkspaceRegistry;
use docstore::store::UpdateLogStore;

#[test]
fn create_workspace_then_document_round_trips_the_name() {
    let mut state = AppState::new();
    let created = create_workspace(
        &mut state,
        CreateWorkspace {
            user_id: String::from("u1"),
            name: String::from("Team A"),
        },
    )
    .unwrap();
    assert_eq!(created.name, String::from("Team A"));

    create_doc(
        &mut state,
        CreateDocumentParameter {
            workspace_id: created.id.clone(),
            workspace_name: String::from("Team A"),
        },
    )
    .unwrap();

    let response = get_doc(
        &state,
        GetDocumentParameter { id: created.id.clone() },
    )
    .unwrap();
    assert!(!response.updates.is_empty());

    let replayed = Document::replay(created.id, &response.updates).unwrap();
    assert_eq!(replayed.get_metadata(b"name"), Some(b"Team A".to_vec()));
}

#[test]
fn update_on_a_failing_store_surfaces_the_error() {
    let mut state = AppState {
        doc_db: UpdateLogStore::new_unavailable(),
        metadata_db: WorkspaceRegistry::new(),
    };
    let result = update_y_document(
        &mut state,
        YDocumentUpdate {
            id: String::from("doc-1"),
            update: vec![1, 2],
        },
    );
    assert_eq!(
        result,
        Err(String::from("failed to store update for workspace doc-1"))
    );
}

#[test]
fn update_appends_the_fragment() {
    let mut state = AppState::new();
    let ok = update_y_document(
        &mut state,
        YDocumentUpdate {
            id: String::from("doc-1"),
            update: vec![7, 8],
        },
    )
    .unwrap();
    assert!(ok);
    let response = get_doc(&state, GetDocumentParameter { id: String::from("doc-1") }).unwrap();
    assert_eq!(response.updates, vec![vec![7, 8]]);
}

#[test]
fn get_doc_of_unknown_document_is_empty() {
    let state = AppState::new();
    let response = get_doc(&state, GetDocumentParameter { id: String::from("nope") }).unwrap();
    assert!(response.updates.is_empty());
}

#[test]
fn get_doc_on_unreachable_store_is_an_error() {
    let state = AppState {
        doc_db: UpdateLogStore::new_unavailable(),
        metadata_db: WorkspaceRegistry::new(),
    };
    let result = get_doc(&state, GetDocumentParameter { id: String::from("doc-1") });
    assert_eq!(
        result.err().unwrap(),
        String::from("failed to read document updates for workspace doc-1")
    );
}

#[test]
fn create_doc_on_unreachable_store_is_an_error() {
    let mut state = AppState {
        doc_db: UpdateLogStore::new_unavailable(),
        metadata_db: WorkspaceRegistry::new(),
    };
    let result = create_doc(
        &mut state,
        CreateDocumentParameter {
            workspace_id: String::from("ws-9"),
            workspace_name: String::from("X"),
        },
    );
    assert_eq!(
        result.err().unwrap(),
        String::from("failed to write document for workspace ws-9")
    );
}

#[test]
fn create_workspace_on_failed_registry_is_an_error() {
    let mut state = AppState {
        doc_db: UpdateLogStore::new(),
        metadata_db: WorkspaceRegistry::new_unavailable(),
    };
    let result = create_workspace(
        &mut state,
        CreateWorkspace {
            user_id: String::from("u1"),
            name: String::from("Team A"),
        },
    );
    assert_eq!(
        result.err().unwrap(),
        String::from("workspace registry backend unavailable")
    );
}

#[test]
fn workspaces_listing_reflects_creations() {
    let mut state = AppState::new();
    let w0 = create_workspace(
        &mut state,
        CreateWorkspace {
            user_id: String::from("u1"),
            name: String::from("A"),
        },
    )
    .unwrap();
    let w1 = create_workspace(
        &mut state,
        CreateWorkspace {
            user_id: String::from("u1"),
            name: String::from("B"),
        },
    )
    .unwrap();
    assert_ne!(w0.id, w1.id);
    let listed = get_workspaces(
        &state,
        CreateWorkspace {
            user_id: String::from("u1"),
            name: String::new(),
        },
    )
    .unwrap();
    assert_eq!(listed.workspaces.len(), 2);
    assert_eq!(listed.workspaces[0].id, w0.id);
    assert_eq!(listed.workspaces[1].id, w1.id);
}

#[test]
fn update_workspace_reports_success_and_changes_nothing() {
    let mut state = AppState::new();
    create_workspace(
        &mut state,
        CreateWorkspace {
            user_id: String::from("u1"),
            name: String::from("A"),
        },
    )
    .unwrap();
    let ok = update_workspace(
        &state,
        &UpdateWorkspace {
            id: String::from("ws-0"),
            name: String::from("renamed"),
        },
    )
    .unwrap();
    assert!(ok);
    let listed = get_workspaces(
        &state,
        CreateWorkspace {
            user_id: String::from("u1"),
            name: String::new(),
        },
    )
    .unwrap();
    assert_eq!(listed.workspaces.len(), 1);
    assert_eq!(listed.workspaces[0].name, String::new());
}

#[test]
fn blob_parameter_values_carry_their_fields() {
    let put = docstore::blob::PutBlob {
        workspace_id: Some(String::from("ws-0")),
        blob: vec![1, 2, 3],
    };
    let get = docstore::blob::GetBlob {
        workspace_id: None,
        id: String::from("blob-1"),
    };
    let p = docstore::blob::IBlobParameters::Put(put.clone());
    let g = docstore::blob::IBlobParameters::Get(get.clone());
    assert_eq!(p, docstore::blob::IBlobParameters::Put(put));
    assert_eq!(g, docstore::blob::IBlobParameters::Get(get));
}
