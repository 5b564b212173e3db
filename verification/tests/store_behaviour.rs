use libcalibre::errors::MergeError;
use libcalibre::links::LinkTable;
use libcalibre::store::EntityStore;
use libcalibre::store::NaturalKey;

#[test]
fn create_assigns_ascending_ids() {
    let mut s = EntityStore::new();
    let a = s.create(NaturalKey::Text("a".to_string()), None, None).unwrap();
    let b = s.create(NaturalKey::Text("b".to_string()), None, None).unwrap();
    assert_eq!(a.id, 1);
    assert_eq!(b.id, 2);
}

#[test]
fn find_by_natural_key_returns_first_match() {
    // Uniqueness is lookup-before-insert only: plain create tolerates a
    // duplicate key, and lookup sees the first row.
    let mut s = EntityStore::new();
    let first = s.create(NaturalKey::Text("dup".to_string()), None, None).unwrap();
    let _second = s.create(NaturalKey::Text("dup".to_string()), None, None).unwrap();
    let found = s.find_by_natural_key(&NaturalKey::Text("dup".to_string())).unwrap();
    assert_eq!(found.id, first.id);
}

#[test]
fn rename_unknown_id_fails_not_found() {
    let mut s = EntityStore::new();
    let r = s.rename(5, NaturalKey::Text("x".to_string()));
    assert_eq!(r.unwrap_err(), MergeError::NotFound);
}

#[test]
fn delete_with_live_links_fails_conflict() {
    let mut s = EntityStore::new();
    let e = s.create(NaturalKey::Text("a".to_string()), None, None).unwrap();
    let mut links = LinkTable::new(false);
    links.link(1, e.id).unwrap();
    assert_eq!(s.delete(&links, e.id).unwrap_err(), MergeError::Conflict);
    // After the links are gone the delete goes through.
    links.unlink(1, e.id);
    assert!(s.delete(&links, e.id).is_ok());
    assert!(s.find_by_id(e.id).is_none());
}

#[test]
fn delete_unknown_id_fails_not_found() {
    let mut s = EntityStore::new();
    let links = LinkTable::new(false);
    assert_eq!(s.delete(&links, 3).unwrap_err(), MergeError::NotFound);
}

#[test]
fn create_fails_when_id_space_is_exhausted() {
    let mut s = EntityStore::new();
    s.next_id = i32::MAX;
    let r = s.create(NaturalKey::Text("a".to_string()), None, None);
    assert_eq!(r.unwrap_err(), MergeError::StorageError);
}

#[test]
fn link_table_exists_and_unlink_are_no_op_safe() {
    let mut t = LinkTable::new(false);
    t.link(1, 2).unwrap();
    assert!(t.link_exists(1, 2));
    assert!(!t.link_exists(1, 3));
    t.unlink(1, 3);
    assert!(t.link_exists(1, 2));
    t.unlink(1, 2);
    assert!(!t.link_exists(1, 2));
}

#[test]
fn link_table_listings_keep_row_order() {
    let mut t = LinkTable::new(false);
    t.link(1, 10).unwrap();
    t.link(2, 10).unwrap();
    t.link(1, 20).unwrap();
    assert_eq!(t.entities_for_book(1), vec![10, 20]);
    assert_eq!(t.books_for_entity(10), vec![1, 2]);
}
