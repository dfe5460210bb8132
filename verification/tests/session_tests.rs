use blockstore::checksum::fingerprint;
use blockstore::errors::{StorageError, UpdateStatus};
use blockstore::records::{BlocJson, PageJson};
use blockstore::session::AppState;
use blockstore::store::Database;

#[test]
fn operations_before_init_fail_fast() {
    let mut state = AppState::default();
    assert!(!state.is_initialized());
    assert!(matches!(state.engine(), Err(StorageError::Uninitialized)));
    assert!(matches!(state.engine_ref(), Err(StorageError::Uninitialized)));
}

#[test]
fn init_makes_every_operation_available() {
    let mut state = AppState::default();
    state.init_db(Database::new());
    assert!(state.is_initialized());
    let db = state.engine().unwrap();
    let id = db
        .new_bloc(&BlocJson {
            id: Some("b1".to_string()),
            position: "a0".to_string(),
            content: "X".to_string(),
            page_id: "p1".to_string(),
            bloc_type: "t".to_string(),
            created_at: 1,
            updated_at: 1,
        })
        .unwrap();
    assert_eq!(id, "b1");
    let db = state.engine_ref().unwrap();
    assert_eq!(db.get_checksum("b1".to_string()).unwrap(), fingerprint("X"));
}

#[test]
fn end_to_end_scenario() {
    // initialize at a fresh store, create a page and a block, then watch
    // the conditional content update tell a no-op from a real change
    let mut state = AppState::default();
    state.init_db(Database::new());
    let db = state.engine().unwrap();
    db.new_page(&PageJson {
        id: Some("p1".to_string()),
        path: "/".to_string(),
        title: "Home".to_string(),
        cache: String::new(),
        created_at: 1000,
        updated_at: 1000,
    })
    .unwrap();
    db.new_bloc(&BlocJson {
        id: Some("b1".to_string()),
        position: "a0".to_string(),
        content: "X".to_string(),
        page_id: "p1".to_string(),
        bloc_type: "paragraph".to_string(),
        created_at: 1000,
        updated_at: 1000,
    })
    .unwrap();
    let checksum_of_x = db.get_checksum("b1".to_string()).unwrap();
    assert_eq!(checksum_of_x, fingerprint("X"));
    assert_eq!(
        db.update_bloc_content("b1".to_string(), "X".to_string(), 1001),
        Ok(UpdateStatus::NoChange)
    );
    assert_eq!(
        db.update_bloc_content("b1".to_string(), "Y".to_string(), 1002),
        Ok(UpdateStatus::Success)
    );
    assert_ne!(db.get_checksum("b1".to_string()).unwrap(), checksum_of_x);
}
