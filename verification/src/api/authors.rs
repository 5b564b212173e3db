//! The author handler: the author table and the book-author link table,
//! with the merge and translation operations instantiated for authors.

use vstd::prelude::*;

use crate::dtos::NewAuthorDto;
use crate::dtos::UpdateAuthorDto;
use crate::engine;
use crate::engine::merge_allowed;
use crate::engine::merge_post;
use crate::links::Link;
use crate::links::LinkTable;
use crate::links::books_seq;
use crate::links::entities_seq;
use crate::links::has_pair;
use crate::links::without_pair;
use crate::models::Author;
use crate::models::author_of;
use crate::models::spec_author_of;
use crate::models::text_keys;
use crate::store::Entity;
use crate::store::EntityStore;
use crate::store::KeyView;
use crate::store::NaturalKey;
use crate::store::contains_id;
use crate::store::has_key;
use crate::translation;
use crate::translation::translated_id;

verus! {

/// The author tables: entity rows and book links.
pub struct AuthorsHandler {
    pub store: EntityStore,
    pub links: LinkTable,
}

impl AuthorsHandler {
    /// The handler invariant: both tables are well-formed, the link table is
    /// many-valued, and every natural key is a text (the author's name).
    pub open spec fn wf(self) -> bool {
        &&& self.store.wf()
        &&& self.links.wf()
        &&& !self.links.single_valued
        &&& text_keys(self.store@)
    }

    pub fn new() -> (r: AuthorsHandler)
        ensures
            r.wf(),
            r.store@ == Seq::<Entity>::empty(),
            r.links@ == Seq::<Link>::empty(),
    {
        AuthorsHandler { store: EntityStore::new(), links: LinkTable::new(false) }
    }

    /// Every author row.
    #[verifier::loop_isolation(false)]
    pub fn list(&self) -> (r: Result<Vec<Author>, ()>)
        requires
            self.wf(),
        ensures
            match r {
                Ok(v) => v@ == self.store@.map_values(|e: Entity| spec_author_of(e)),
                Err(_) => false,
            },
    {
        let n = self.store.rows.len();
        let mut out: Vec<Author> = Vec::new();
        let mut i: usize = 0;
        while i < n
            invariant
                0 <= i <= n,
                out@ == self.store@.take(i as int).map_values(|e: Entity| spec_author_of(e)),
            decreases n - i,
        {
            out.push(author_of(&self.store.rows[i]));
            proof {
                assert(self.store@.take(i as int + 1).map_values(|e: Entity| spec_author_of(e))
                    =~= self.store@.take(i as int).map_values(|e: Entity| spec_author_of(e)).push(
                    spec_author_of(self.store@[i as int]),
                ));
            }
            i += 1;
        }
        proof {
            assert(self.store@.take(n as int) =~= self.store@);
        }
        Ok(out)
    }

    /// Insert an author row. The name is not checked against existing rows:
    /// callers wanting uniqueness look it up first.
    pub fn create(&mut self, dto: NewAuthorDto) -> (r: Result<Author, ()>)
        requires
            old(self).wf(),
        ensures
            final(self).wf(),
            final(self).links == old(self).links,
            r is Err <==> old(self).store.next_id == i32::MAX,
            r is Err ==> final(self).store@ == old(self).store@ && final(self).store.next_id
                == old(self).store.next_id,
            r is Ok ==> final(self).store.next_id == old(self).store.next_id + 1,
            r is Ok ==> {
                let row = Entity {
                    id: old(self).store.next_id,
                    key: NaturalKey::Text(dto.full_name),
                    sort: Some(dto.sortable_name),
                    link: None,
                };
                &&& final(self).store@ == old(self).store@.push(row)
                &&& r == Ok::<Author, ()>(spec_author_of(row))
            },
    {
        let r = self.store.create(
            NaturalKey::Text(dto.full_name),
            Some(dto.sortable_name),
            None,
        );
        match r {
            Ok(e) => Ok(author_of(&e)),
            Err(_) => Err(()),
        }
    }

    /// Look the name up and create the row only when it is absent. Lookup
    /// and creation are not one atomic unit: racing callers can produce
    /// duplicate rows, which a later merge reconciles.
    pub fn create_if_missing(&mut self, dto: NewAuthorDto) -> (r: Result<Author, ()>)
        requires
            old(self).wf(),
        ensures
            final(self).wf(),
            final(self).links == old(self).links,
            has_key(old(self).store@, KeyView::Text(dto.full_name@)) ==> final(self).store@ == old(
                self,
            ).store@ && final(self).store.next_id == old(self).store.next_id && (match r {
                Ok(a) => exists|i: int|
                    {
                        &&& 0 <= i < old(self).store@.len()
                        &&& a == spec_author_of(#[trigger] old(self).store@[i])
                        &&& old(self).store@[i].key@ == KeyView::Text(dto.full_name@)
                    },
                Err(_) => false,
            }),
            !has_key(old(self).store@, KeyView::Text(dto.full_name@)) ==> {
                &&& (r is Err <==> old(self).store.next_id == i32::MAX)
                &&& (r is Err ==> final(self).store@ == old(self).store@)
                &&& (r is Ok ==> final(self).store.next_id == old(self).store.next_id + 1)
                &&& (r is Ok ==> {
                    let row = Entity {
                        id: old(self).store.next_id,
                        key: NaturalKey::Text(dto.full_name),
                        sort: Some(dto.sortable_name),
                        link: None,
                    };
                    &&& final(self).store@ == old(self).store@.push(row)
                    &&& r == Ok::<Author, ()>(spec_author_of(row))
                })
            },
    {
        match self.find_by_name(dto.full_name.as_str()) {
            Ok(Some(author)) => Ok(author),
            _ => self.create(dto),
        }
    }

    /// The author of id `search_id`, when there is one.
    pub fn find_by_id(&self, search_id: i32) -> (r: Result<Option<Author>, ()>)
        requires
            self.wf(),
        ensures
            match r {
                Ok(found) => {
                    &&& (found is Some <==> contains_id(self.store@, search_id))
                    &&& match found {
                        Some(a) => a.id == search_id && exists|i: int|
                            0 <= i < self.store@.len() && a == spec_author_of(
                                #[trigger] self.store@[i],
                            ),
                        None => true,
                    }
                },
                Err(_) => false,
            },
    {
        match self.store.find_by_id(search_id) {
            Some(e) => Ok(Some(author_of(&e))),
            None => Ok(None),
        }
    }

    /// The first author named `search_name`, when there is one. At most one
    /// match is expected; further matches are a data-integrity fault and
    /// stay invisible here.
    pub fn find_by_name(&self, search_name: &str) -> (r: Result<Option<Author>, ()>)
        requires
            self.wf(),
        ensures
            match r {
                Ok(found) => {
                    &&& (found is Some <==> has_key(self.store@, KeyView::Text(search_name@)))
                    &&& match found {
                        Some(a) => exists|i: int|
                            {
                                &&& 0 <= i < self.store@.len()
                                &&& a == spec_author_of(#[trigger] self.store@[i])
                                &&& self.store@[i].key@ == KeyView::Text(search_name@)
                                &&& forall|j: int|
                                    0 <= j < i ==> (#[trigger] self.store@[j]).key@
                                        != KeyView::Text(search_name@)
                            },
                        None => true,
                    }
                },
                Err(_) => false,
            },
    {
        let key = NaturalKey::Text(search_name.to_owned());
        match self.store.find_by_natural_key(&key) {
            Some(e) => Ok(Some(author_of(&e))),
            None => Ok(None),
        }
    }

    /// Update the name and/or the sort string of the author of id
    /// `author_id`; a `None` field is kept as it is. Fails when the id does
    /// not resolve, and then nothing changes.
    pub fn update(&mut self, author_id: i32, dto: UpdateAuthorDto) -> (r: Result<Author, ()>)
        requires
            old(self).wf(),
        ensures
            final(self).wf(),
            final(self).links == old(self).links,
            final(self).store.next_id == old(self).store.next_id,
            r is Err <==> !contains_id(old(self).store@, author_id),
            r is Err ==> final(self).store@ == old(self).store@,
            r is Ok ==> exists|i: int|
                {
                    &&& 0 <= i < old(self).store@.len()
                    &&& (#[trigger] old(self).store@[i]).id == author_id
                    &&& ({
                        let row = Entity {
                            id: author_id,
                            key: if dto.full_name is Some {
                                NaturalKey::Text(dto.full_name.unwrap())
                            } else {
                                old(self).store@[i].key
                            },
                            sort: if dto.sortable_name is Some {
                                dto.sortable_name
                            } else {
                                old(self).store@[i].sort
                            },
                            link: old(self).store@[i].link,
                        };
                        &&& final(self).store@ == old(self).store@.update(i, row)
                        &&& r == Ok::<Author, ()>(spec_author_of(row))
                    })
                },
    {
        let new_key = match dto.full_name {
            Some(name) => Some(NaturalKey::Text(name)),
            None => None,
        };
        match self.store.update_row(author_id, new_key, dto.sortable_name) {
            Ok(e) => Ok(author_of(&e)),
            Err(_) => Err(()),
        }
    }

    /// Replace the author's name with its canonical (translated) form: a
    /// plain rename when no author carries the translated name yet, a merge
    /// into the canonical author when one does, nothing when the author
    /// already carries it.
    pub fn replace_with_translation(&mut self, author_id: i32, translation: &str) -> (r: Result<
        (),
        (),
    >)
        requires
            old(self).wf(),
        ensures
            final(self).wf(),
            !has_key(old(self).store@, KeyView::Text(translation@)) ==> {
                &&& final(self).links@ == old(self).links@
                &&& (r is Ok <==> contains_id(old(self).store@, author_id))
                &&& (r is Err ==> final(self).store@ == old(self).store@)
                &&& (r is Ok ==> exists|i: int|
                    {
                        &&& 0 <= i < old(self).store@.len()
                        &&& (#[trigger] old(self).store@[i]).id == author_id
                        &&& final(self).store@.len() == old(self).store@.len()
                        &&& final(self).store@[i].id == author_id
                        &&& final(self).store@[i].key@ == KeyView::Text(translation@)
                        &&& final(self).store@[i].sort == old(self).store@[i].sort
                        &&& final(self).store@[i].link == old(self).store@[i].link
                        &&& forall|j: int|
                            0 <= j < old(self).store@.len() && j != i ==> final(self).store@[j]
                                == old(self).store@[j]
                    })
            },
            has_key(old(self).store@, KeyView::Text(translation@)) && translated_id(
                old(self).store@,
                KeyView::Text(translation@),
            ) == author_id ==> r == Ok::<(), ()>(()) && final(self).store@ == old(self).store@
                && final(self).links@ == old(self).links@,
            has_key(old(self).store@, KeyView::Text(translation@)) && translated_id(
                old(self).store@,
                KeyView::Text(translation@),
            ) != author_id ==> {
                let to = translated_id(old(self).store@, KeyView::Text(translation@));
                &&& (r is Ok <==> merge_allowed(old(self).store@, author_id, to))
                &&& (r is Err ==> final(self).store@ == old(self).store@ && final(self).links@
                    == old(self).links@)
                &&& (r is Ok ==> merge_post(
                    old(self).store@,
                    old(self).links@,
                    final(self).store@,
                    final(self).links@,
                    author_id,
                    to,
                ))
            },
    {
        let key = NaturalKey::Text(translation.to_owned());
        let r = translation::replace_with_translation(
            &mut self.store,
            &mut self.links,
            author_id,
            &key,
        );
        match r {
            Ok(()) => Ok(()),
            Err(_) => Err(()),
        }
    }

    /// Re-home every book link of `from_author_id` onto `to_author_id`
    /// without duplicating a pair, then delete the discarded author row, as
    /// one unit: the merge instantiated for authors.
    pub fn transfer_author_links_and_delete(&mut self, from_author_id: i32, to_author_id: i32) -> (
    r: Result<(), ()>)
        requires
            old(self).wf(),
        ensures
            final(self).wf(),
            r is Ok <==> merge_allowed(old(self).store@, from_author_id, to_author_id),
            r is Err ==> final(self).store@ == old(self).store@ && final(self).links@ == old(
                self,
            ).links@,
            r is Ok ==> merge_post(
                old(self).store@,
                old(self).links@,
                final(self).store@,
                final(self).links@,
                from_author_id,
                to_author_id,
            ),
    {
        match engine::merge(&mut self.store, &mut self.links, from_author_id, to_author_id) {
            Ok(()) => Ok(()),
            Err(_) => Err(()),
        }
    }

    /// Every author row, in ascending id order.
    pub fn get_all_authors(&self) -> (r: Result<Vec<Author>, ()>)
        requires
            self.wf(),
        ensures
            match r {
                Ok(v) => v@ == self.store@.map_values(|e: Entity| spec_author_of(e)),
                Err(_) => false,
            },
    {
        self.list()
    }

    /// Link the author to a book. The caller must have checked that the pair
    /// is not linked yet, so that no duplicate link row is created.
    pub fn link_author_to_book(&mut self, book_id: i32, author_id: i32) -> (r: Result<(), ()>)
        requires
            old(self).wf(),
            !has_pair(old(self).links@, book_id, author_id),
        ensures
            final(self).wf(),
            final(self).store == old(self).store,
            r is Err <==> old(self).links.next_id == i32::MAX,
            r is Err ==> final(self).links@ == old(self).links@,
            r is Ok ==> final(self).links@ == old(self).links@.push(
                Link { id: old(self).links.next_id, book: book_id, entity: author_id },
            ),
    {
        match self.links.link(book_id, author_id) {
            Ok(()) => Ok(()),
            Err(_) => Err(()),
        }
    }

    /// Unlink the author from a book; a no-op when the pair is absent.
    pub fn unlink_author_from_book(&mut self, book_id: i32, author_id: i32) -> (r: Result<(), ()>)
        requires
            old(self).wf(),
        ensures
            final(self).wf(),
            final(self).store == old(self).store,
            r == Ok::<(), ()>(()),
            final(self).links@ == without_pair(old(self).links@, book_id, author_id),
    {
        self.links.unlink(book_id, author_id);
        Ok(())
    }

    /// The author ids linked to a book, in link order.
    pub fn find_author_ids_by_book_id(&self, book_id: i32) -> (r: Result<Vec<i32>, ()>)
        requires
            self.wf(),
        ensures
            match r {
                Ok(v) => v@ == entities_seq(self.links@, book_id),
                Err(_) => false,
            },
    {
        Ok(self.links.entities_for_book(book_id))
    }

    /// The book ids linked to an author, in link order.
    pub fn find_book_ids_by_author_id(&self, author_id: i32) -> (r: Result<Vec<i32>, ()>)
        requires
            self.wf(),
        ensures
            match r {
                Ok(v) => v@ == books_seq(self.links@, author_id),
                Err(_) => false,
            },
    {
        Ok(self.links.books_for_entity(author_id))
    }
}

} // verus!
