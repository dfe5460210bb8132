use blockstore::order::str_le;
use blockstore::records::BlocJson;
use blockstore::store::Database;

fn bloc(id: &str, position: &str, page_id: &str) -> BlocJson {
    BlocJson {
        id: Some(id.to_string()),
        position: position.to_string(),
        content: format!("content of {id}"),
        page_id: page_id.to_string(),
        bloc_type: "paragraph".to_string(),
        created_at: 1,
        updated_at: 1,
    }
}

#[test]
fn position_order_is_lexicographic_not_numeric() {
    // positions are opaque sortable strings: "a10" sorts before "a2"
    assert!(str_le("a10", "a2"));
    assert!(!str_le("a2", "a10"));
    // a prefix sorts before its extensions
    assert!(str_le("a", "a0"));
    assert!(!str_le("a0", "a"));
    // reflexive, and empty first
    assert!(str_le("", ""));
    assert!(str_le("", "a"));
    assert!(str_le("abc", "abc"));
}

#[test]
fn fractional_reordering_needs_no_renumbering() {
    let mut db = Database::new();
    db.new_bloc(&bloc("first", "a", "p")).unwrap();
    db.new_bloc(&bloc("third", "b", "p")).unwrap();
    // a block dropped between the two gets a key between the keys
    db.new_bloc(&bloc("second", "am", "p")).unwrap();
    let rows = db.get_blocs_by_page_id("p".to_string()).unwrap();
    let ids: Vec<String> = rows.iter().map(|b| b.id.clone().unwrap()).collect();
    assert_eq!(
        ids,
        vec!["first".to_string(), "second".to_string(), "third".to_string()]
    );
}

#[test]
fn equal_positions_keep_all_blocks() {
    let mut db = Database::new();
    db.new_bloc(&bloc("b1", "same", "p")).unwrap();
    db.new_bloc(&bloc("b2", "same", "p")).unwrap();
    db.new_bloc(&bloc("b3", "same", "p")).unwrap();
    let rows = db.get_blocs_by_page_id("p".to_string()).unwrap();
    assert_eq!(rows.len(), 3);
    let mut ids: Vec<String> = rows.iter().map(|b| b.id.clone().unwrap()).collect();
    ids.sort();
    assert_eq!(ids, vec!["b1".to_string(), "b2".to_string(), "b3".to_string()]);
}

#[test]
fn multibyte_positions_sort_by_code_point() {
    assert!(str_le("aé", "aê"));
    assert!(!str_le("aê", "aé"));
    assert!(str_le("a", "é"));
}
