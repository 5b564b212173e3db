use libcalibre::api::authors::AuthorsHandler;
use libcalibre::dtos::NewAuthorDto;

fn author(name: &str) -> NewAuthorDto {
    NewAuthorDto { full_name: name.to_string(), sortable_name: name.to_string() }
}

#[test]
fn merge_scenario_union_of_link_sets() {
    // Author A linked to books {10, 20}; author B linked to books {20, 30}.
    let mut h = AuthorsHandler::new();
    let a = h.create(author("A")).unwrap();
    let b = h.create(author("B")).unwrap();
    assert_eq!(a.id, 1);
    assert_eq!(b.id, 2);
    h.link_author_to_book(10, a.id).unwrap();
    h.link_author_to_book(20, a.id).unwrap();
    h.link_author_to_book(20, b.id).unwrap();
    h.link_author_to_book(30, b.id).unwrap();

    h.transfer_author_links_and_delete(a.id, b.id).unwrap();

    // The discarded entity no longer exists.
    assert!(h.find_by_id(a.id).unwrap().is_none());
    // The survivor's link set is exactly {10, 20, 30}, book 20 not duplicated.
    let books = h.find_book_ids_by_author_id(b.id).unwrap();
    assert_eq!(books, vec![10, 20, 30]);
    // No link references the discarded id.
    assert_eq!(h.find_book_ids_by_author_id(a.id).unwrap(), Vec::<i32>::new());
}

#[test]
fn merge_no_duplicate_links_per_book() {
    let mut h = AuthorsHandler::new();
    let a = h.create(author("A")).unwrap();
    let b = h.create(author("B")).unwrap();
    h.link_author_to_book(7, a.id).unwrap();
    h.link_author_to_book(7, b.id).unwrap();
    h.transfer_author_links_and_delete(a.id, b.id).unwrap();
    // Book 7 carries exactly one link to the survivor.
    assert_eq!(h.find_author_ids_by_book_id(7).unwrap(), vec![b.id]);
}

#[test]
fn merge_retry_fails_not_found() {
    let mut h = AuthorsHandler::new();
    let a = h.create(author("A")).unwrap();
    let b = h.create(author("B")).unwrap();
    h.link_author_to_book(1, a.id).unwrap();
    h.transfer_author_links_and_delete(a.id, b.id).unwrap();

    let before_books = h.find_book_ids_by_author_id(b.id).unwrap();
    let before_rows = h.list().unwrap().len();

    // A second merge of the same pair is refused, and nothing changes.
    assert!(h.transfer_author_links_and_delete(a.id, b.id).is_err());
    assert_eq!(h.find_book_ids_by_author_id(b.id).unwrap(), before_books);
    assert_eq!(h.list().unwrap().len(), before_rows);
}

#[test]
fn merge_of_entity_into_itself_is_refused() {
    let mut h = AuthorsHandler::new();
    let a = h.create(author("A")).unwrap();
    h.link_author_to_book(1, a.id).unwrap();
    assert!(h.transfer_author_links_and_delete(a.id, a.id).is_err());
    // The entity and its links are untouched.
    assert!(h.find_by_id(a.id).unwrap().is_some());
    assert_eq!(h.find_book_ids_by_author_id(a.id).unwrap(), vec![1]);
}

#[test]
fn merge_with_unknown_id_is_refused() {
    let mut h = AuthorsHandler::new();
    let a = h.create(author("A")).unwrap();
    assert!(h.transfer_author_links_and_delete(a.id, 99).is_err());
    assert!(h.transfer_author_links_and_delete(99, a.id).is_err());
    assert!(h.find_by_id(a.id).unwrap().is_some());
}

#[test]
fn merge_without_links_just_deletes() {
    let mut h = AuthorsHandler::new();
    let a = h.create(author("A")).unwrap();
    let b = h.create(author("B")).unwrap();
    h.transfer_author_links_and_delete(a.id, b.id).unwrap();
    assert!(h.find_by_id(a.id).unwrap().is_none());
    assert!(h.find_by_id(b.id).unwrap().is_some());
    assert_eq!(h.find_book_ids_by_author_id(b.id).unwrap(), Vec::<i32>::new());
}

#[test]
fn merge_keeps_links_of_other_entities() {
    let mut h = AuthorsHandler::new();
    let a = h.create(author("A")).unwrap();
    let b = h.create(author("B")).unwrap();
    let c = h.create(author("C")).unwrap();
    h.link_author_to_book(1, a.id).unwrap();
    h.link_author_to_book(1, c.id).unwrap();
    h.link_author_to_book(2, c.id).unwrap();
    h.transfer_author_links_and_delete(a.id, b.id).unwrap();
    assert_eq!(h.find_book_ids_by_author_id(c.id).unwrap(), vec![1, 2]);
    assert_eq!(h.find_book_ids_by_author_id(b.id).unwrap(), vec![1]);
}
