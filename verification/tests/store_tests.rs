use blockstore::checksum::fingerprint;
use blockstore::errors::{StorageError, UpdateStatus};
use blockstore::records::{BlocJson, PageJson, PropsJson};
use blockstore::store::Database;

fn page(id: &str, path: &str, title: &str) -> PageJson {
    PageJson {
        id: Some(id.to_string()),
        path: path.to_string(),
        title: title.to_string(),
        cache: String::new(),
        created_at: 100,
        updated_at: 100,
    }
}

fn bloc(id: &str, position: &str, content: &str, page_id: &str) -> BlocJson {
    BlocJson {
        id: Some(id.to_string()),
        position: position.to_string(),
        content: content.to_string(),
        page_id: page_id.to_string(),
        bloc_type: "paragraph".to_string(),
        created_at: 100,
        updated_at: 100,
    }
}

fn prop(id: &str, key: &str, value: &str, bloc_id: &str) -> PropsJson {
    PropsJson {
        id: Some(id.to_string()),
        key: key.to_string(),
        value: value.to_string(),
        bloc_id: bloc_id.to_string(),
    }
}

#[test]
fn fingerprint_is_deterministic() {
    let a = fingerprint("some block content");
    let b = fingerprint(&"some block content".to_string());
    assert_eq!(a, b);
    assert_eq!(fingerprint(""), fingerprint(""));
    // distinct content should be told apart by the dirty-check
    assert_ne!(fingerprint("X"), fingerprint("Y"));
}

#[test]
fn new_bloc_returns_id_and_derives_checksum() {
    let mut db = Database::new();
    let id = db.new_bloc(&bloc("b1", "a0", "X", "p1")).unwrap();
    assert_eq!(id, "b1");
    let token = db.get_checksum("b1".to_string()).unwrap();
    assert_eq!(token, fingerprint("X"));
}

#[test]
fn new_bloc_without_id_is_write_error() {
    let mut db = Database::new();
    let mut b = bloc("b1", "a0", "X", "p1");
    b.id = None;
    assert_eq!(db.new_bloc(&b), Err(StorageError::WriteError));
}

#[test]
fn new_bloc_duplicate_id_is_write_error() {
    let mut db = Database::new();
    db.new_bloc(&bloc("b1", "a0", "X", "p1")).unwrap();
    assert_eq!(
        db.new_bloc(&bloc("b1", "a1", "Y", "p1")),
        Err(StorageError::WriteError)
    );
}

#[test]
fn update_bloc_content_same_bytes_is_no_change() {
    let mut db = Database::new();
    db.new_bloc(&bloc("b1", "a0", "X", "p1")).unwrap();
    let st = db
        .update_bloc_content("b1".to_string(), "X".to_string(), 999)
        .unwrap();
    assert_eq!(st, UpdateStatus::NoChange);
    // updated_at untouched by the skipped write
    let read = db.get_bloc_by_id("b1".to_string()).unwrap();
    assert_eq!(read.updated_at, 100);
    assert_eq!(read.content, "X");
}

#[test]
fn update_bloc_content_new_bytes_is_success() {
    let mut db = Database::new();
    db.new_bloc(&bloc("b1", "a0", "X", "p1")).unwrap();
    let before = db.get_checksum("b1".to_string()).unwrap();
    let st = db
        .update_bloc_content("b1".to_string(), "Y".to_string(), 999)
        .unwrap();
    assert_eq!(st, UpdateStatus::Success);
    let after = db.get_checksum("b1".to_string()).unwrap();
    assert_ne!(before, after);
    assert_eq!(after, fingerprint("Y"));
    let read = db.get_bloc_by_id("b1".to_string()).unwrap();
    assert_eq!(read.updated_at, 999);
    assert_eq!(read.content, "Y");
}

#[test]
fn update_bloc_content_unknown_id_is_not_found() {
    let mut db = Database::new();
    assert_eq!(
        db.update_bloc_content("nope".to_string(), "X".to_string(), 1),
        Err(StorageError::NotFound)
    );
}

#[test]
fn update_bloc_position_no_op_and_write() {
    let mut db = Database::new();
    db.new_bloc(&bloc("b1", "a0", "X", "p1")).unwrap();
    let st = db
        .update_bloc_position("b1".to_string(), "a0".to_string(), 999)
        .unwrap();
    assert_eq!(st, UpdateStatus::NoChange);
    assert_eq!(db.get_bloc_by_id("b1".to_string()).unwrap().updated_at, 100);
    let st = db
        .update_bloc_position("b1".to_string(), "m5".to_string(), 999)
        .unwrap();
    assert_eq!(st, UpdateStatus::Success);
    // the new value is observable on the next read
    assert_eq!(db.get_position("b1".to_string()).unwrap(), "m5");
    assert_eq!(db.get_bloc_by_id("b1".to_string()).unwrap().updated_at, 999);
}

#[test]
fn update_bloc_replaces_fields_and_recomputes_checksum() {
    let mut db = Database::new();
    db.new_bloc(&bloc("b1", "a0", "X", "p1")).unwrap();
    let mut replacement = bloc("b1", "z9", "new words", "ignored-on-update");
    replacement.bloc_type = "heading".to_string();
    replacement.updated_at = 555;
    assert_eq!(db.update_bloc(&replacement), Ok(true));
    let read = db.get_bloc_by_id("b1".to_string()).unwrap();
    assert_eq!(read.position, "z9");
    assert_eq!(read.content, "new words");
    assert_eq!(read.bloc_type, "heading");
    assert_eq!(read.updated_at, 555);
    // ownership is not rewritten by a full update
    assert_eq!(read.page_id, "p1");
    assert_eq!(
        db.get_checksum("b1".to_string()).unwrap(),
        fingerprint("new words")
    );
    // unknown identifier affects nothing and is not an error
    assert_eq!(db.update_bloc(&bloc("ghost", "a", "c", "p")), Ok(false));
}

#[test]
fn reparent_changes_only_the_page_reference() {
    let mut db = Database::new();
    db.new_bloc(&bloc("b1", "a0", "X", "p1")).unwrap();
    let before = db.get_bloc_by_id("b1".to_string()).unwrap();
    let token_before = db.get_checksum("b1".to_string()).unwrap();
    assert_eq!(
        db.update_bloc_page_id("b1".to_string(), "p2".to_string()),
        Ok(true)
    );
    let after = db.get_bloc_by_id("b1".to_string()).unwrap();
    assert_eq!(after.page_id, "p2");
    assert_eq!(after.position, before.position);
    assert_eq!(after.content, before.content);
    assert_eq!(after.bloc_type, before.bloc_type);
    assert_eq!(after.created_at, before.created_at);
    assert_eq!(after.updated_at, before.updated_at);
    assert_eq!(db.get_checksum("b1".to_string()).unwrap(), token_before);
    assert_eq!(
        db.update_bloc_page_id("ghost".to_string(), "p2".to_string()),
        Ok(false)
    );
}

#[test]
fn blocs_by_page_come_back_sorted_by_position() {
    let mut db = Database::new();
    // inserted out of order, plus a row of another page
    db.new_bloc(&bloc("b2", "b", "two", "p1")).unwrap();
    db.new_bloc(&bloc("b3", "c", "three", "p1")).unwrap();
    db.new_bloc(&bloc("bx", "a", "other", "p9")).unwrap();
    db.new_bloc(&bloc("b1", "a", "one", "p1")).unwrap();
    let rows = db.get_blocs_by_page_id("p1".to_string()).unwrap();
    assert_eq!(rows.len(), 3);
    let ids: Vec<String> = rows.iter().map(|b| b.id.clone().unwrap()).collect();
    assert_eq!(ids, vec!["b1".to_string(), "b2".to_string(), "b3".to_string()]);
    let positions: Vec<String> = rows.iter().map(|b| b.position.clone()).collect();
    assert_eq!(positions, vec!["a".to_string(), "b".to_string(), "c".to_string()]);
}

#[test]
fn blocs_by_page_empty_match_is_empty_not_error() {
    let db = Database::new();
    let rows = db.get_blocs_by_page_id("p1".to_string()).unwrap();
    assert!(rows.is_empty());
}

#[test]
fn single_reads_of_unknown_ids_are_not_found() {
    let mut db = Database::new();
    assert_eq!(
        db.get_bloc_by_id("b1".to_string()),
        Err(StorageError::NotFound)
    );
    assert_eq!(
        db.get_position("b1".to_string()),
        Err(StorageError::NotFound)
    );
    assert_eq!(
        db.get_checksum("b1".to_string()),
        Err(StorageError::NotFound)
    );
    assert_eq!(
        db.get_page_cache("p1".to_string()),
        Err(StorageError::NotFound)
    );
    // a deleted identifier reads as never created
    db.new_bloc(&bloc("b1", "a0", "X", "p1")).unwrap();
    assert_eq!(db.delete_bloc("b1".to_string()), Ok(true));
    assert_eq!(
        db.get_bloc_by_id("b1".to_string()),
        Err(StorageError::NotFound)
    );
    assert_eq!(db.delete_bloc("b1".to_string()), Ok(false));
}

#[test]
fn delete_blocs_by_page_removes_exactly_that_page() {
    let mut db = Database::new();
    db.new_bloc(&bloc("b1", "a", "one", "p1")).unwrap();
    db.new_bloc(&bloc("b2", "b", "two", "p1")).unwrap();
    db.new_bloc(&bloc("bx", "a", "other", "p9")).unwrap();
    assert_eq!(db.delete_bloc_by_page_id("p1".to_string()), Ok(true));
    assert!(db.get_blocs_by_page_id("p1".to_string()).unwrap().is_empty());
    assert_eq!(db.get_blocs_by_page_id("p9".to_string()).unwrap().len(), 1);
    assert_eq!(db.delete_bloc_by_page_id("p1".to_string()), Ok(false));
}

#[test]
fn deleting_a_bloc_leaves_its_props_orphaned() {
    // cascade discipline: the engine does not cascade for blocks; the
    // caller must delete the properties with an explicit follow-up call
    let mut db = Database::new();
    db.new_page(&page("p", "/", "P")).unwrap();
    db.new_bloc(&bloc("b1", "a", "one", "p")).unwrap();
    db.new_bloc(&bloc("b2", "b", "two", "p")).unwrap();
    db.new_prop(&prop("k1", "color", "red", "b1")).unwrap();
    assert_eq!(db.delete_bloc("b1".to_string()), Ok(true));
    // the property is NOT auto-cleaned
    let orphans = db.get_props_by_bloc_id("b1".to_string()).unwrap();
    assert_eq!(orphans.len(), 1);
    assert_eq!(orphans[0].key, "color");
    // the documented follow-up removes it
    assert_eq!(db.delete_prop_by_bloc_id("b1".to_string()), Ok(true));
    assert!(db.get_props_by_bloc_id("b1".to_string()).unwrap().is_empty());
}

#[test]
fn page_crud_roundtrip() {
    let mut db = Database::new();
    let id = db.new_page(&page("p1", "/notes", "First")).unwrap();
    assert_eq!(id, "p1");
    assert_eq!(
        db.new_page(&page("p1", "/dup", "Dup")),
        Err(StorageError::WriteError)
    );
    let mut p = page("p2", "/notes", "Second");
    p.id = None;
    assert_eq!(db.new_page(&p), Err(StorageError::WriteError));

    assert_eq!(
        db.update_page_title("p1".to_string(), "Renamed".to_string()),
        Ok(true)
    );
    assert_eq!(
        db.update_page_path("p1".to_string(), "/moved".to_string()),
        Ok(true)
    );
    assert_eq!(
        db.update_page_cache("p1".to_string(), "cached-render".to_string()),
        Ok(true)
    );
    assert_eq!(db.update_page_updated_at("p1".to_string(), 777), Ok(true));
    assert_eq!(
        db.get_page_cache("p1".to_string()).unwrap(),
        "cached-render"
    );
    let listed = db.get_pages_by_path("/moved".to_string()).unwrap();
    assert_eq!(listed.len(), 1);
    assert_eq!(listed[0].id, Some("p1".to_string()));
    assert_eq!(listed[0].title, "Renamed");
    assert_eq!(listed[0].updated_at, 777);
    // list reads suppress the cache blob
    assert_eq!(listed[0].cache, "");

    assert_eq!(db.update_page_title("ghost".to_string(), "t".to_string()), Ok(false));
    assert_eq!(db.delete_page("p1".to_string()), Ok(true));
    assert_eq!(db.delete_page("p1".to_string()), Ok(false));
    assert!(db.get_pages_by_path("/moved".to_string()).unwrap().is_empty());
}

#[test]
fn pages_by_path_returns_all_sharing_the_path() {
    let mut db = Database::new();
    db.new_page(&page("p1", "/shared", "One")).unwrap();
    db.new_page(&page("p2", "/shared", "Two")).unwrap();
    db.new_page(&page("p3", "/other", "Three")).unwrap();
    let listed = db.get_pages_by_path("/shared".to_string()).unwrap();
    assert_eq!(listed.len(), 2);
    assert_eq!(listed[0].id, Some("p1".to_string()));
    assert_eq!(listed[1].id, Some("p2".to_string()));
}

#[test]
fn update_page_replaces_fields() {
    let mut db = Database::new();
    db.new_page(&page("p1", "/a", "Old")).unwrap();
    let mut p = page("p1", "/b", "New");
    p.cache = "blob".to_string();
    p.updated_at = 321;
    assert_eq!(db.update_page(&p), Ok(true));
    let listed = db.get_pages_by_path("/b".to_string()).unwrap();
    assert_eq!(listed.len(), 1);
    assert_eq!(listed[0].title, "New");
    assert_eq!(db.get_page_cache("p1".to_string()).unwrap(), "blob");
    assert_eq!(db.update_page(&page("ghost", "/x", "X")), Ok(false));
}

#[test]
fn prop_crud_and_global_key_rename() {
    let mut db = Database::new();
    db.new_prop(&prop("k1", "color", "red", "b1")).unwrap();
    db.new_prop(&prop("k2", "color", "blue", "b2")).unwrap();
    db.new_prop(&prop("k3", "size", "large", "b1")).unwrap();
    let mut orphan = prop("k4", "x", "y", "b1");
    orphan.id = None;
    assert_eq!(db.new_prop(&orphan), Err(StorageError::WriteError));

    assert_eq!(
        db.update_prop_value("b1".to_string(), "color".to_string(), "green".to_string()),
        Ok(true)
    );
    let b1_props = db.get_props_by_bloc_id("b1".to_string()).unwrap();
    assert_eq!(b1_props.len(), 2);
    assert_eq!(b1_props[0].value, "green");
    // the other block's property kept its value
    let by_key = db.get_props_by_key("color".to_string()).unwrap();
    assert_eq!(by_key.len(), 2);
    assert_eq!(by_key[1].value, "blue");

    // the rename is global: both blocks' properties change key
    assert_eq!(
        db.change_prop_key_name("color".to_string(), "colour".to_string()),
        Ok(true)
    );
    assert!(db.get_props_by_key("color".to_string()).unwrap().is_empty());
    assert_eq!(db.get_props_by_key("colour".to_string()).unwrap().len(), 2);
    assert_eq!(
        db.change_prop_key_name("color".to_string(), "hue".to_string()),
        Ok(false)
    );

    assert_eq!(
        db.delete_prop("b1".to_string(), "colour".to_string()),
        Ok(true)
    );
    assert_eq!(db.get_props_by_bloc_id("b1".to_string()).unwrap().len(), 1);
    assert_eq!(
        db.delete_prop("b1".to_string(), "colour".to_string()),
        Ok(false)
    );
    assert_eq!(
        db.update_prop_value("b9".to_string(), "nope".to_string(), "v".to_string()),
        Ok(false)
    );
}

#[test]
fn props_reads_with_no_match_are_empty_not_errors() {
    let db = Database::new();
    assert!(db.get_props_by_bloc_id("b1".to_string()).unwrap().is_empty());
    assert!(db.get_props_by_key("color".to_string()).unwrap().is_empty());
}
