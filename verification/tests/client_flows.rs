use libcalibre::CalibreClient;
use libcalibre::ValidDbPath;
use libcalibre::dtos::NewAuthorDto;
use libcalibre::dtos::NewBookDto;
use libcalibre::dtos::UpdateAuthorDto;
use libcalibre::dtos::UpsertBookIdentifier;

fn client() -> CalibreClient {
    CalibreClient::new(ValidDbPath {
        library_path: "/library".to_string(),
        database_path: "/library/metadata.db".to_string(),
    })
}

fn author(name: &str) -> NewAuthorDto {
    NewAuthorDto { full_name: name.to_string(), sortable_name: name.to_string() }
}

fn book(title: &str) -> NewBookDto {
    NewBookDto { title: title.to_string(), flags: 1, has_cover: None }
}

#[test]
fn find_book_with_authors_bundles_everything() {
    let mut c = client();
    let b = c.client_v2.books().create(book("Dune")).unwrap();
    let authors = c.create_authors(vec![author("Frank Herbert")]).unwrap();
    c.client_v2.authors().link_author_to_book(b.id, authors[0].id).unwrap();
    c.client_v2.books().set_description(b.id, "A desert planet.".to_string()).unwrap();
    c.client_v2.books().set_book_read_state(b.id, true).unwrap();
    c.client_v2
        .book_files()
        .create(b.id, "Dune - Frank Herbert".to_string(), "EPUB".to_string(), 1000)
        .unwrap();

    let bundle = c.find_book_with_authors(b.id).unwrap();
    assert_eq!(bundle.book.id, b.id);
    assert_eq!(bundle.book.title, "Dune");
    assert_eq!(bundle.authors.len(), 1);
    assert_eq!(bundle.authors[0].name, "Frank Herbert");
    assert_eq!(bundle.book_description_html.as_deref(), Some("A desert planet."));
    assert!(bundle.is_read);
    assert_eq!(bundle.files.len(), 1);
    assert_eq!(bundle.files[0].format, "EPUB");
}

#[test]
fn find_all_returns_every_book() {
    let mut c = client();
    let b1 = c.client_v2.books().create(book("One")).unwrap();
    let b2 = c.client_v2.books().create(book("Two")).unwrap();
    let authors = c.create_authors(vec![author("Someone")]).unwrap();
    c.client_v2.authors().link_author_to_book(b1.id, authors[0].id).unwrap();
    c.client_v2.authors().link_author_to_book(b2.id, authors[0].id).unwrap();

    let all = c.find_all().unwrap();
    assert_eq!(all.len(), 2);
    assert_eq!(all[0].book.title, "One");
    assert_eq!(all[1].book.title, "Two");
}

#[test]
fn find_all_skips_books_with_dangling_author_links() {
    let mut c = client();
    let b1 = c.client_v2.books().create(book("Sound")).unwrap();
    let b2 = c.client_v2.books().create(book("Broken")).unwrap();
    let authors = c.create_authors(vec![author("Real")]).unwrap();
    c.client_v2.authors().link_author_to_book(b1.id, authors[0].id).unwrap();
    // A link to an author id that never existed.
    c.client_v2.authors().link_author_to_book(b2.id, 999).unwrap();

    let all = c.find_all().unwrap();
    assert_eq!(all.len(), 1);
    assert_eq!(all[0].book.title, "Sound");
}

#[test]
fn create_authors_finds_or_creates() {
    let mut c = client();
    let first = c.create_authors(vec![author("Ada"), author("Grace")]).unwrap();
    assert_eq!(first.len(), 2);
    // A second call with one known and one new name creates only the new one.
    let second = c.create_authors(vec![author("Ada"), author("Alan")]).unwrap();
    assert_eq!(second[0].id, first[0].id);
    let all = c.get_all_authors().unwrap();
    assert_eq!(all.len(), 3);
}

#[test]
fn update_author_changes_name_and_sort() {
    let mut c = client();
    let created = c.create_authors(vec![author("Old Name")]).unwrap();
    let updated = c
        .update_author(
            created[0].id,
            UpdateAuthorDto {
                full_name: Some("New Name".to_string()),
                sortable_name: None,
            },
        )
        .unwrap();
    assert_eq!(updated.name, "New Name");
    assert_eq!(updated.sort.as_deref(), Some("Old Name"));
    assert!(c.update_author(999, UpdateAuthorDto { full_name: None, sortable_name: None }).is_err());
}

#[test]
fn replace_author_with_translation_through_client() {
    let mut c = client();
    let b = c.client_v2.books().create(book("Novel")).unwrap();
    let authors = c.create_authors(vec![author("Tolstoi"), author("Tolstoy")]).unwrap();
    c.client_v2.authors().link_author_to_book(b.id, authors[0].id).unwrap();

    c.replace_author_with_translation(authors[0].id, "Tolstoy").unwrap();

    let all = c.get_all_authors().unwrap();
    assert_eq!(all.len(), 1);
    assert_eq!(all[0].name, "Tolstoy");
    let ids = c.client_v2.authors().find_author_ids_by_book_id(b.id).unwrap();
    assert_eq!(ids, vec![authors[1].id]);
}

#[test]
fn identifier_upsert_lowercases_only_new_labels() {
    let mut c = client();
    let b = c.client_v2.books().create(book("Ident")).unwrap();
    let created = c
        .client_v2
        .books()
        .upsert_book_identifier(UpsertBookIdentifier {
            book_id: b.id,
            id: None,
            label: "ISBN".to_string(),
            value: "123".to_string(),
        })
        .unwrap();
    // The stored type of a new identifier is lowercased.
    assert_eq!(created.type_, "isbn");

    let updated = c
        .client_v2
        .books()
        .upsert_book_identifier(UpsertBookIdentifier {
            book_id: b.id,
            id: Some(created.id),
            label: "URI".to_string(),
            value: "u".to_string(),
        })
        .unwrap();
    // An update stores the label as given.
    assert_eq!(updated.type_, "URI");

    let listed = c.list_identifiers_for_book(b.id).unwrap();
    assert_eq!(listed.len(), 1);
    assert_eq!(listed[0].val, "u");
}

#[test]
fn delete_book_identifier_removes_only_that_row() {
    let mut c = client();
    let b = c.client_v2.books().create(book("Ident")).unwrap();
    let one = c
        .client_v2
        .books()
        .upsert_book_identifier(UpsertBookIdentifier {
            book_id: b.id,
            id: None,
            label: "isbn".to_string(),
            value: "1".to_string(),
        })
        .unwrap();
    let two = c
        .client_v2
        .books()
        .upsert_book_identifier(UpsertBookIdentifier {
            book_id: b.id,
            id: None,
            label: "doi".to_string(),
            value: "2".to_string(),
        })
        .unwrap();
    c.delete_book_identifier(b.id, one.id).unwrap();
    let listed = c.list_identifiers_for_book(b.id).unwrap();
    assert_eq!(listed.len(), 1);
    assert_eq!(listed[0].id, two.id);
}

#[test]
fn find_book_id_by_identifier_demands_a_unique_match() {
    let mut c = client();
    let b1 = c.client_v2.books().create(book("One")).unwrap();
    let b2 = c.client_v2.books().create(book("Two")).unwrap();
    let books = c.client_v2.books();
    assert_eq!(books.find_book_id_by_identifier("isbn", "1").unwrap(), None);
    books
        .upsert_book_identifier(UpsertBookIdentifier {
            book_id: b1.id,
            id: None,
            label: "isbn".to_string(),
            value: "1".to_string(),
        })
        .unwrap();
    assert_eq!(books.find_book_id_by_identifier("isbn", "1").unwrap(), Some(b1.id));
    books
        .upsert_book_identifier(UpsertBookIdentifier {
            book_id: b2.id,
            id: None,
            label: "isbn".to_string(),
            value: "1".to_string(),
        })
        .unwrap();
    assert!(books.find_book_id_by_identifier("isbn", "1").is_err());
}

#[test]
fn read_state_round_trip() {
    let mut c = client();
    let b = c.client_v2.books().create(book("Read me")).unwrap();
    assert_eq!(c.client_v2.books().get_book_read_state(b.id).unwrap(), Some(false));
    c.client_v2.books().set_book_read_state(b.id, true).unwrap();
    assert_eq!(c.client_v2.books().get_book_read_state(b.id).unwrap(), Some(true));
    c.client_v2.books().set_book_read_state(b.id, false).unwrap();
    assert_eq!(c.client_v2.books().get_book_read_state(b.id).unwrap(), Some(false));
}

#[test]
fn publisher_and_tag_translation_through_client() {
    let mut c = client();
    c.client_v2
        .publishers()
        .create(libcalibre::dtos::NewPublisherDto { name: "編集".to_string(), sort: None })
        .unwrap();
    c.replace_publisher_with_translation(1, "Editorial").unwrap();
    let pubs = c.get_all_publishers().unwrap();
    assert_eq!(pubs.len(), 1);
    assert_eq!(pubs[0].name, "Editorial");

    c.client_v2.tags().create(libcalibre::dtos::NewTagDto { name: "Roman".to_string() }).unwrap();
    c.replace_tag_with_translation(1, "Novel").unwrap();
    let tags = c.get_all_tags().unwrap();
    assert_eq!(tags.len(), 1);
    assert_eq!(tags[0].name, "Novel");
}

#[test]
fn languages_find_or_create() {
    let mut c = client();
    let l1 = c
        .client_v2
        .languages()
        .create_if_missing(libcalibre::dtos::NewLanguageDto { lang_code: "eng".to_string() })
        .unwrap();
    let l2 = c
        .client_v2
        .languages()
        .create_if_missing(libcalibre::dtos::NewLanguageDto { lang_code: "eng".to_string() })
        .unwrap();
    assert_eq!(l1.id, l2.id);
    c.client_v2.languages().link_language_to_book(1, l1.id).unwrap();
    assert_eq!(c.client_v2.languages().find_language_ids_by_book_id(1).unwrap(), vec![l1.id]);
}

#[test]
fn find_book_with_authors_fails_on_dangling_author_link() {
    let mut c = client();
    let b = c.client_v2.books().create(book("Orphan")).unwrap();
    c.client_v2.authors().link_author_to_book(b.id, 321).unwrap();
    let r = c.find_book_with_authors(b.id);
    assert_eq!(r.unwrap_err(), libcalibre::CalibreError::DatabaseError);
}
