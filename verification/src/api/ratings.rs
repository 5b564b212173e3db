//! The rating handler: the rating table, keyed by the rating value, and
//! the book-rating link table.
//!
//! The rating relation is single-valued: a book has at most one rating
//! link, and linking a new rating first removes any rating link the book
//! already has.

use vstd::prelude::*;

use crate::dtos::NewRatingDto;
use crate::links::Link;
use crate::links::LinkTable;
use crate::links::book_count;
use crate::links::entities_seq;
use crate::links::has_pair;
use crate::links::pair_count;
use crate::links::without_book;
use crate::links::without_pair;
use crate::links::lemma_push_counts;
use crate::links::lemma_without_book_counts;
use crate::models::Rating;
use crate::models::rating_of;
use crate::models::spec_rating_of;
use crate::models::num_keys;
use crate::store::Entity;
use crate::store::EntityStore;
use crate::store::KeyView;
use crate::store::NaturalKey;
use crate::store::has_key;

verus! {

/// The rating tables: entity rows and book links.
pub struct RatingsHandler {
    pub store: EntityStore,
    pub links: LinkTable,
}

impl RatingsHandler {
    /// The handler invariant: both tables are well-formed, the link table is
    /// single-valued, and every natural key is a number (the rating value).
    pub open spec fn wf(self) -> bool {
        &&& self.store.wf()
        &&& self.links.wf()
        &&& self.links.single_valued
        &&& num_keys(self.store@)
    }

    pub fn new() -> (r: RatingsHandler)
        ensures
            r.wf(),
            r.store@ == Seq::<Entity>::empty(),
            r.links@ == Seq::<Link>::empty(),
    {
        RatingsHandler { store: EntityStore::new(), links: LinkTable::new(true) }
    }

    /// Insert a rating row. The value is not checked against existing rows:
    /// callers wanting uniqueness look it up first.
    pub fn create(&mut self, dto: NewRatingDto) -> (r: Result<Rating, ()>)
        requires
            old(self).wf(),
        ensures
            final(self).wf(),
            final(self).links == old(self).links,
            r is Err <==> old(self).store.next_id == i32::MAX,
            r is Err ==> final(self).store@ == old(self).store@ && final(self).store.next_id
                == old(self).store.next_id,
            r is Ok ==> {
                let row = Entity {
                    id: old(self).store.next_id,
                    key: NaturalKey::Num(dto.rating),
                    sort: None,
                    link: None,
                };
                &&& final(self).store@ == old(self).store@.push(row)
                &&& r == Ok::<Rating, ()>(spec_rating_of(row))
            },
    {
        let r = self.store.create(NaturalKey::Num(dto.rating), None, None);
        match r {
            Ok(e) => Ok(rating_of(&e)),
            Err(_) => Err(()),
        }
    }

    /// Look the value up and create the row only when it is absent.
    pub fn create_if_missing(&mut self, dto: NewRatingDto) -> (r: Result<Rating, ()>)
        requires
            old(self).wf(),
        ensures
            final(self).wf(),
            final(self).links == old(self).links,
            has_key(old(self).store@, KeyView::Num(dto.rating as int)) ==> final(self).store@
                == old(self).store@ && final(self).store.next_id == old(self).store.next_id && (
            match r {
                Ok(v) => exists|i: int|
                    {
                        &&& 0 <= i < old(self).store@.len()
                        &&& v == spec_rating_of(#[trigger] old(self).store@[i])
                        &&& old(self).store@[i].key@ == KeyView::Num(dto.rating as int)
                    },
                Err(_) => false,
            }),
            !has_key(old(self).store@, KeyView::Num(dto.rating as int)) ==> {
                &&& (r is Err <==> old(self).store.next_id == i32::MAX)
                &&& (r is Err ==> final(self).store@ == old(self).store@)
                &&& (r is Ok ==> {
                    let row = Entity {
                        id: old(self).store.next_id,
                        key: NaturalKey::Num(dto.rating),
                        sort: None,
                        link: None,
                    };
                    &&& final(self).store@ == old(self).store@.push(row)
                    &&& r == Ok::<Rating, ()>(spec_rating_of(row))
                })
            },
    {
        match self.find_by_value(dto.rating) {
            Ok(Some(rating)) => Ok(rating),
            _ => self.create(dto),
        }
    }

    /// The first rating of value `search_value`, when there is one.
    pub fn find_by_value(&self, search_value: i32) -> (r: Result<Option<Rating>, ()>)
        requires
            self.wf(),
        ensures
            match r {
                Ok(found) => {
                    &&& (found is Some <==> has_key(self.store@, KeyView::Num(search_value as int)))
                    &&& match found {
                        Some(v) => exists|i: int|
                            {
                                &&& 0 <= i < self.store@.len()
                                &&& v == spec_rating_of(#[trigger] self.store@[i])
                                &&& self.store@[i].key@ == KeyView::Num(search_value as int)
                                &&& forall|j: int|
                                    0 <= j < i ==> (#[trigger] self.store@[j]).key@
                                        != KeyView::Num(search_value as int)
                            },
                        None => true,
                    }
                },
                Err(_) => false,
            },
    {
        let key = NaturalKey::Num(search_value);
        match self.store.find_by_natural_key(&key) {
            Some(e) => Ok(Some(rating_of(&e))),
            None => Ok(None),
        }
    }

    /// Link the rating to a book. Any rating link the book already has is
    /// removed first, so a book never carries more than one rating link.
    pub fn link_rating_to_book(&mut self, book_id: i32, rating_id: i32) -> (r: Result<(), ()>)
        requires
            old(self).wf(),
        ensures
            final(self).wf(),
            final(self).store == old(self).store,
            r is Err <==> old(self).links.next_id == i32::MAX,
            r is Err ==> final(self).links@ == old(self).links@,
            r is Ok ==> {
                &&& final(self).links@ == without_book(old(self).links@, book_id).push(
                    Link { id: old(self).links.next_id, book: book_id, entity: rating_id },
                )
                &&& book_count(final(self).links@, book_id) == 1
                &&& forall|e: i32|
                    #[trigger] has_pair(final(self).links@, book_id, e) <==> e == rating_id
                &&& forall|b2: i32, e: i32|
                    b2 != book_id ==> #[trigger] pair_count(final(self).links@, b2, e)
                        == pair_count(old(self).links@, b2, e)
            },
    {
        let r = self.links.link(book_id, rating_id);
        proof {
            if r is Ok {
                lemma_without_book_counts(old(self).links@, book_id);
                lemma_push_counts(
                    without_book(old(self).links@, book_id),
                    Link { id: old(self).links.next_id, book: book_id, entity: rating_id },
                );
            }
        }
        match r {
            Ok(()) => Ok(()),
            Err(_) => Err(()),
        }
    }

    /// Unlink the rating from a book; a no-op when the pair is absent.
    pub fn unlink_rating_from_book(&mut self, book_id: i32, rating_id: i32) -> (r: Result<(), ()>)
        requires
            old(self).wf(),
        ensures
            final(self).wf(),
            final(self).store == old(self).store,
            r == Ok::<(), ()>(()),
            final(self).links@ == without_pair(old(self).links@, book_id, rating_id),
    {
        self.links.unlink(book_id, rating_id);
        Ok(())
    }

    /// The rating ids linked to a book, in link order.
    pub fn find_rating_ids_by_book_id(&self, book_id: i32) -> (r: Result<Vec<i32>, ()>)
        requires
            self.wf(),
        ensures
            match r {
                Ok(v) => v@ == entities_seq(self.links@, book_id),
                Err(_) => false,
            },
    {
        Ok(self.links.entities_for_book(book_id))
    }
}

} // verus!
