use libcalibre::api::publishers::PublishersHandler;
use libcalibre::api::tags::TagsHandler;
use libcalibre::dtos::NewPublisherDto;
use libcalibre::dtos::NewTagDto;

fn publisher(name: &str) -> NewPublisherDto {
    NewPublisherDto { name: name.to_string(), sort: None }
}

#[test]
fn translation_rename_path_keeps_links() {
    // No entity has the translated name: a pure rename, links untouched.
    let mut h = PublishersHandler::new();
    let p = h.create(publisher("Verlag")).unwrap();
    h.link_publisher_to_book(5, p.id).unwrap();
    h.link_publisher_to_book(6, p.id).unwrap();

    h.replace_with_translation(p.id, "Publisher").unwrap();

    assert!(h.find_by_name("Verlag").unwrap().is_none());
    let renamed = h.find_by_name("Publisher").unwrap().unwrap();
    assert_eq!(renamed.id, p.id);
    assert_eq!(h.find_publisher_ids_by_book_id(5).unwrap(), vec![p.id]);
    assert_eq!(h.find_publisher_ids_by_book_id(6).unwrap(), vec![p.id]);
}

#[test]
fn translation_merge_path_behaves_as_merge() {
    // Another entity already has the translated name: run both the
    // translation and a plain merge on identical states, and compare.
    let mut via_translation = TagsHandler::new();
    let mut via_merge = TagsHandler::new();
    for h in [&mut via_translation, &mut via_merge] {
        let a = h.create(NewTagDto { name: "Komödie".to_string() }).unwrap();
        let b = h.create(NewTagDto { name: "Comedy".to_string() }).unwrap();
        h.link_tag_to_book(10, a.id).unwrap();
        h.link_tag_to_book(20, a.id).unwrap();
        h.link_tag_to_book(20, b.id).unwrap();
    }

    via_translation.replace_with_translation(1, "Comedy").unwrap();
    via_merge.transfer_tag_links_and_delete(1, 2).unwrap();

    for h in [&via_translation, &via_merge] {
        assert!(h.find_by_name("Komödie").unwrap().is_none());
        let survivor = h.find_by_name("Comedy").unwrap().unwrap();
        assert_eq!(survivor.id, 2);
        assert_eq!(h.find_tag_ids_by_book_id(10).unwrap(), vec![2]);
        assert_eq!(h.find_tag_ids_by_book_id(20).unwrap(), vec![2]);
    }
}

#[test]
fn translation_noop_when_already_canonical() {
    let mut h = TagsHandler::new();
    let t = h.create(NewTagDto { name: "Drama".to_string() }).unwrap();
    h.link_tag_to_book(1, t.id).unwrap();
    h.replace_with_translation(t.id, "Drama").unwrap();
    assert_eq!(h.find_by_name("Drama").unwrap().unwrap().id, t.id);
    assert_eq!(h.find_tag_ids_by_book_id(1).unwrap(), vec![t.id]);
}

#[test]
fn translation_rename_of_unknown_id_fails() {
    let mut h = TagsHandler::new();
    assert!(h.replace_with_translation(42, "Anything").is_err());
}

#[test]
fn translation_merge_drops_redundant_source_link() {
    let mut h = PublishersHandler::new();
    let a = h.create(publisher("Alt")).unwrap();
    let b = h.create(publisher("Neu")).unwrap();
    h.link_publisher_to_book(3, a.id).unwrap();
    h.link_publisher_to_book(3, b.id).unwrap();
    h.replace_with_translation(a.id, "Neu").unwrap();
    assert_eq!(h.find_publisher_ids_by_book_id(3).unwrap(), vec![b.id]);
}
