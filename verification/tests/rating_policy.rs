use libcalibre::api::ratings::RatingsHandler;
use libcalibre::dtos::NewRatingDto;

#[test]
fn rating_link_is_single_valued() {
    let mut h = RatingsHandler::new();
    let r1 = h.create(NewRatingDto { rating: 6 }).unwrap();
    let r2 = h.create(NewRatingDto { rating: 8 }).unwrap();

    h.link_rating_to_book(1, r1.id).unwrap();
    assert_eq!(h.find_rating_ids_by_book_id(1).unwrap(), vec![r1.id]);

    // Linking a second rating removes the first link before inserting.
    h.link_rating_to_book(1, r2.id).unwrap();
    assert_eq!(h.find_rating_ids_by_book_id(1).unwrap(), vec![r2.id]);
}

#[test]
fn rating_relink_same_rating_stays_single() {
    let mut h = RatingsHandler::new();
    let r = h.create(NewRatingDto { rating: 10 }).unwrap();
    h.link_rating_to_book(2, r.id).unwrap();
    h.link_rating_to_book(2, r.id).unwrap();
    assert_eq!(h.find_rating_ids_by_book_id(2).unwrap(), vec![r.id]);
}

#[test]
fn rating_links_of_other_books_untouched() {
    let mut h = RatingsHandler::new();
    let r1 = h.create(NewRatingDto { rating: 2 }).unwrap();
    let r2 = h.create(NewRatingDto { rating: 4 }).unwrap();
    h.link_rating_to_book(1, r1.id).unwrap();
    h.link_rating_to_book(2, r1.id).unwrap();
    h.link_rating_to_book(1, r2.id).unwrap();
    assert_eq!(h.find_rating_ids_by_book_id(1).unwrap(), vec![r2.id]);
    assert_eq!(h.find_rating_ids_by_book_id(2).unwrap(), vec![r1.id]);
}

#[test]
fn rating_unlink_and_lookup() {
    let mut h = RatingsHandler::new();
    let r = h.create(NewRatingDto { rating: 6 }).unwrap();
    h.link_rating_to_book(9, r.id).unwrap();
    h.unlink_rating_from_book(9, r.id).unwrap();
    assert_eq!(h.find_rating_ids_by_book_id(9).unwrap(), Vec::<i32>::new());
    // Lookup by value.
    let found = h.find_by_value(6).unwrap().unwrap();
    assert_eq!(found.id, r.id);
    assert_eq!(found.rating, 6);
    assert!(h.find_by_value(7).unwrap().is_none());
    // find-or-create returns the present row.
    let again = h.create_if_missing(NewRatingDto { rating: 6 }).unwrap();
    assert_eq!(again.id, r.id);
}
