//! The publisher handler: the publisher table and the book-publisher link
//! table, with the merge and translation operations instantiated for
//! publishers.

use vstd::prelude::*;

use crate::dtos::NewPublisherDto;
use crate::engine;
use crate::engine::merge_allowed;
use crate::engine::merge_post;
use crate::links::Link;
use crate::links::LinkTable;
use crate::links::entities_seq;
use crate::links::has_pair;
use crate::links::without_pair;
use crate::models::Publisher;
use crate::models::publisher_of;
use crate::models::spec_publisher_of;
use crate::models::text_keys;
use crate::store::Entity;
use crate::store::EntityStore;
use crate::store::KeyView;
use crate::store::NaturalKey;
use crate::store::contains_id;
use crate::store::has_key;
use crate::translation;
use crate::translation::translated_id;

verus! {

/// The publisher tables: entity rows and book links.
pub struct PublishersHandler {
    pub store: EntityStore,
    pub links: LinkTable,
}

impl PublishersHandler {
    /// The handler invariant: both tables are well-formed, the link table is
    /// many-valued, and every natural key is a text (the publisher's name).
    pub open spec fn wf(self) -> bool {
        &&& self.store.wf()
        &&& self.links.wf()
        &&& !self.links.single_valued
        &&& text_keys(self.store@)
    }

    pub fn new() -> (r: PublishersHandler)
        ensures
            r.wf(),
            r.store@ == Seq::<Entity>::empty(),
            r.links@ == Seq::<Link>::empty(),
    {
        PublishersHandler { store: EntityStore::new(), links: LinkTable::new(false) }
    }

    /// Insert a publisher row. The name is not checked against existing
    /// rows: callers wanting uniqueness look it up first.
    pub fn create(&mut self, dto: NewPublisherDto) -> (r: Result<Publisher, ()>)
        requires
            old(self).wf(),
        ensures
            final(self).wf(),
            final(self).links == old(self).links,
            r is Err <==> old(self).store.next_id == i32::MAX,
            r is Err ==> final(self).store@ == old(self).store@ && final(self).store.next_id
                == old(self).store.next_id,
            r is Ok ==> {
                let row = Entity {
                    id: old(self).store.next_id,
                    key: NaturalKey::Text(dto.name),
                    sort: dto.sort,
                    link: None,
                };
                &&& final(self).store@ == old(self).store@.push(row)
                &&& r == Ok::<Publisher, ()>(spec_publisher_of(row))
            },
    {
        let r = self.store.create(NaturalKey::Text(dto.name), dto.sort, None);
        match r {
            Ok(e) => Ok(publisher_of(&e)),
            Err(_) => Err(()),
        }
    }

    /// Look the name up and create the row only when it is absent. Lookup
    /// and creation are not one atomic unit: racing callers can produce
    /// duplicate rows, which a later merge reconciles.
    pub fn create_if_missing(&mut self, dto: NewPublisherDto) -> (r: Result<Publisher, ()>)
        requires
            old(self).wf(),
        ensures
            final(self).wf(),
            final(self).links == old(self).links,
            has_key(old(self).store@, KeyView::Text(dto.name@)) ==> final(self).store@ == old(
                self,
            ).store@ && final(self).store.next_id == old(self).store.next_id && (match r {
                Ok(p) => exists|i: int|
                    {
                        &&& 0 <= i < old(self).store@.len()
                        &&& p == spec_publisher_of(#[trigger] old(self).store@[i])
                        &&& old(self).store@[i].key@ == KeyView::Text(dto.name@)
                    },
                Err(_) => false,
            }),
            !has_key(old(self).store@, KeyView::Text(dto.name@)) ==> {
                &&& (r is Err <==> old(self).store.next_id == i32::MAX)
                &&& (r is Err ==> final(self).store@ == old(self).store@)
                &&& (r is Ok ==> {
                    let row = Entity {
                        id: old(self).store.next_id,
                        key: NaturalKey::Text(dto.name),
                        sort: dto.sort,
                        link: None,
                    };
                    &&& final(self).store@ == old(self).store@.push(row)
                    &&& r == Ok::<Publisher, ()>(spec_publisher_of(row))
                })
            },
    {
        match self.find_by_name(dto.name.as_str()) {
            Ok(Some(publisher)) => Ok(publisher),
            _ => self.create(dto),
        }
    }

    /// The first publisher named `search_name`, when there is one.
    pub fn find_by_name(&self, search_name: &str) -> (r: Result<Option<Publisher>, ()>)
        requires
            self.wf(),
        ensures
            match r {
                Ok(found) => {
                    &&& (found is Some <==> has_key(self.store@, KeyView::Text(search_name@)))
                    &&& match found {
                        Some(p) => exists|i: int|
                            {
                                &&& 0 <= i < self.store@.len()
                                &&& p == spec_publisher_of(#[trigger] self.store@[i])
                                &&& self.store@[i].key@ == KeyView::Text(search_name@)
                                &&& forall|j: int|
                                    0 <= j < i ==> (#[trigger] self.store@[j]).key@
                                        != KeyView::Text(search_name@)
                            },
                        None => true,
                    }
                },
                Err(_) => false,
            },
    {
        let key = NaturalKey::Text(search_name.to_owned());
        match self.store.find_by_natural_key(&key) {
            Some(e) => Ok(Some(publisher_of(&e))),
            None => Ok(None),
        }
    }

    /// Replace the publisher's name with its canonical (translated) form: a
    /// plain rename when no publisher carries the translated name yet, a
    /// merge into the canonical publisher when one does, nothing when the
    /// publisher already carries it.
    pub fn replace_with_translation(&mut self, publisher_id: i32, translation: &str) -> (r: Result<
        (),
        (),
    >)
        requires
            old(self).wf(),
        ensures
            final(self).wf(),
            !has_key(old(self).store@, KeyView::Text(translation@)) ==> {
                &&& final(self).links@ == old(self).links@
                &&& (r is Ok <==> contains_id(old(self).store@, publisher_id))
                &&& (r is Err ==> final(self).store@ == old(self).store@)
                &&& (r is Ok ==> exists|i: int|
                    {
                        &&& 0 <= i < old(self).store@.len()
                        &&& (#[trigger] old(self).store@[i]).id == publisher_id
                        &&& final(self).store@.len() == old(self).store@.len()
                        &&& final(self).store@[i].id == publisher_id
                        &&& final(self).store@[i].key@ == KeyView::Text(translation@)
                        &&& final(self).store@[i].sort == old(self).store@[i].sort
                        &&& forall|j: int|
                            0 <= j < old(self).store@.len() && j != i ==> final(self).store@[j]
                                == old(self).store@[j]
                    })
            },
            has_key(old(self).store@, KeyView::Text(translation@)) && translated_id(
                old(self).store@,
                KeyView::Text(translation@),
            ) == publisher_id ==> r == Ok::<(), ()>(()) && final(self).store@ == old(self).store@
                && final(self).links@ == old(self).links@,
            has_key(old(self).store@, KeyView::Text(translation@)) && translated_id(
                old(self).store@,
                KeyView::Text(translation@),
            ) != publisher_id ==> {
                let to = translated_id(old(self).store@, KeyView::Text(translation@));
                &&& (r is Ok <==> merge_allowed(old(self).store@, publisher_id, to))
                &&& (r is Err ==> final(self).store@ == old(self).store@ && final(self).links@
                    == old(self).links@)
                &&& (r is Ok ==> merge_post(
                    old(self).store@,
                    old(self).links@,
                    final(self).store@,
                    final(self).links@,
                    publisher_id,
                    to,
                ))
            },
    {
        let key = NaturalKey::Text(translation.to_owned());
        let r = translation::replace_with_translation(
            &mut self.store,
            &mut self.links,
            publisher_id,
            &key,
        );
        match r {
            Ok(()) => Ok(()),
            Err(_) => Err(()),
        }
    }

    /// Re-home every book link of `from_publisher_id` onto
    /// `to_publisher_id` without duplicating a pair, then delete the
    /// discarded publisher row, as one unit: the merge instantiated for
    /// publishers.
    pub fn transfer_publisher_links_and_delete(
        &mut self,
        from_publisher_id: i32,
        to_publisher_id: i32,
    ) -> (r: Result<(), ()>)
        requires
            old(self).wf(),
        ensures
            final(self).wf(),
            r is Ok <==> merge_allowed(old(self).store@, from_publisher_id, to_publisher_id),
            r is Err ==> final(self).store@ == old(self).store@ && final(self).links@ == old(
                self,
            ).links@,
            r is Ok ==> merge_post(
                old(self).store@,
                old(self).links@,
                final(self).store@,
                final(self).links@,
                from_publisher_id,
                to_publisher_id,
            ),
    {
        match engine::merge(&mut self.store, &mut self.links, from_publisher_id, to_publisher_id) {
            Ok(()) => Ok(()),
            Err(_) => Err(()),
        }
    }

    /// Every publisher row, in ascending id order.
    #[verifier::loop_isolation(false)]
    pub fn get_all_publishers(&self) -> (r: Result<Vec<Publisher>, ()>)
        requires
            self.wf(),
        ensures
            match r {
                Ok(v) => v@ == self.store@.map_values(|e: Entity| spec_publisher_of(e)),
                Err(_) => false,
            },
    {
        let n = self.store.rows.len();
        let mut out: Vec<Publisher> = Vec::new();
        let mut i: usize = 0;
        while i < n
            invariant
                0 <= i <= n,
                out@ == self.store@.take(i as int).map_values(|e: Entity| spec_publisher_of(e)),
            decreases n - i,
        {
            out.push(publisher_of(&self.store.rows[i]));
            proof {
                assert(self.store@.take(i as int + 1).map_values(
                    |e: Entity| spec_publisher_of(e),
                ) =~= self.store@.take(i as int).map_values(|e: Entity| spec_publisher_of(e)).push(
                    spec_publisher_of(self.store@[i as int]),
                ));
            }
            i += 1;
        }
        proof {
            assert(self.store@.take(n as int) =~= self.store@);
        }
        Ok(out)
    }

    /// Link the publisher to a book. The caller must have checked that the
    /// pair is not linked yet, so that no duplicate link row is created.
    pub fn link_publisher_to_book(&mut self, book_id: i32, publisher_id: i32) -> (r: Result<
        (),
        (),
    >)
        requires
            old(self).wf(),
            !has_pair(old(self).links@, book_id, publisher_id),
        ensures
            final(self).wf(),
            final(self).store == old(self).store,
            r is Err <==> old(self).links.next_id == i32::MAX,
            r is Err ==> final(self).links@ == old(self).links@,
            r is Ok ==> final(self).links@ == old(self).links@.push(
                Link { id: old(self).links.next_id, book: book_id, entity: publisher_id },
            ),
    {
        match self.links.link(book_id, publisher_id) {
            Ok(()) => Ok(()),
            Err(_) => Err(()),
        }
    }

    /// Unlink the publisher from a book; a no-op when the pair is absent.
    pub fn unlink_publisher_from_book(&mut self, book_id: i32, publisher_id: i32) -> (r: Result<
        (),
        (),
    >)
        requires
            old(self).wf(),
        ensures
            final(self).wf(),
            final(self).store == old(self).store,
            r == Ok::<(), ()>(()),
            final(self).links@ == without_pair(old(self).links@, book_id, publisher_id),
    {
        self.links.unlink(book_id, publisher_id);
        Ok(())
    }

    /// The publisher ids linked to a book, in link order.
    pub fn find_publisher_ids_by_book_id(&self, book_id: i32) -> (r: Result<Vec<i32>, ()>)
        requires
            self.wf(),
        ensures
            match r {
                Ok(v) => v@ == entities_seq(self.links@, book_id),
                Err(_) => false,
            },
    {
        Ok(self.links.entities_for_book(book_id))
    }
}

} // verus!
