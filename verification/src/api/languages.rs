//! The language handler: the language table, keyed by language code, and
//! the book-language link table.

use vstd::prelude::*;

use crate::dtos::NewLanguageDto;
use crate::links::Link;
use crate::links::LinkTable;
use crate::links::entities_seq;
use crate::links::has_pair;
use crate::links::without_pair;
use crate::models::Language;
use crate::models::language_of;
use crate::models::spec_language_of;
use crate::models::text_keys;
use crate::store::Entity;
use crate::store::EntityStore;
use crate::store::KeyView;
use crate::store::NaturalKey;
use crate::store::has_key;

verus! {

/// The language tables: entity rows and book links.
pub struct LanguagesHandler {
    pub store: EntityStore,
    pub links: LinkTable,
}

impl LanguagesHandler {
    /// The handler invariant: both tables are well-formed, the link table is
    /// many-valued, and every natural key is a text (the language code).
    pub open spec fn wf(self) -> bool {
        &&& self.store.wf()
        &&& self.links.wf()
        &&& !self.links.single_valued
        &&& text_keys(self.store@)
    }

    pub fn new() -> (r: LanguagesHandler)
        ensures
            r.wf(),
            r.store@ == Seq::<Entity>::empty(),
            r.links@ == Seq::<Link>::empty(),
    {
        LanguagesHandler { store: EntityStore::new(), links: LinkTable::new(false) }
    }

    /// Insert a language row. The name is not checked against existing
    /// rows: callers wanting uniqueness look it up first.
    pub fn create(&mut self, dto: NewLanguageDto) -> (r: Result<Language, ()>)
        requires
            old(self).wf(),
        ensures
            final(self).wf(),
            final(self).links == old(self).links,
            r is Err <==> old(self).store.next_id == i32::MAX,
            r is Err ==> final(self).store@ == old(self).store@ && final(self).store.next_id
                == old(self).store.next_id,
            r is Ok ==> {
                let row = Entity {
                    id: old(self).store.next_id,
                    key: NaturalKey::Text(dto.lang_code),
                    sort: None,
                    link: None,
                };
                &&& final(self).store@ == old(self).store@.push(row)
                &&& r == Ok::<Language, ()>(spec_language_of(row))
            },
    {
        let r = self.store.create(NaturalKey::Text(dto.lang_code), None, None);
        match r {
            Ok(e) => Ok(language_of(&e)),
            Err(_) => Err(()),
        }
    }

    /// Look the code up and create the row only when it is absent. Lookup
    /// and creation are not one atomic unit: racing callers can produce
    /// duplicate rows, which a later merge reconciles.
    pub fn create_if_missing(&mut self, dto: NewLanguageDto) -> (r: Result<Language, ()>)
        requires
            old(self).wf(),
        ensures
            final(self).wf(),
            final(self).links == old(self).links,
            has_key(old(self).store@, KeyView::Text(dto.lang_code@)) ==> final(self).store@ == old(
                self,
            ).store@ && final(self).store.next_id == old(self).store.next_id && (match r {
                Ok(p) => exists|i: int|
                    {
                        &&& 0 <= i < old(self).store@.len()
                        &&& p == spec_language_of(#[trigger] old(self).store@[i])
                        &&& old(self).store@[i].key@ == KeyView::Text(dto.lang_code@)
                    },
                Err(_) => false,
            }),
            !has_key(old(self).store@, KeyView::Text(dto.lang_code@)) ==> {
                &&& (r is Err <==> old(self).store.next_id == i32::MAX)
                &&& (r is Err ==> final(self).store@ == old(self).store@)
                &&& (r is Ok ==> {
                    let row = Entity {
                        id: old(self).store.next_id,
                        key: NaturalKey::Text(dto.lang_code),
                        sort: None,
                        link: None,
                    };
                    &&& final(self).store@ == old(self).store@.push(row)
                    &&& r == Ok::<Language, ()>(spec_language_of(row))
                })
            },
    {
        match self.find_by_lang_code(dto.lang_code.as_str()) {
            Ok(Some(language)) => Ok(language),
            _ => self.create(dto),
        }
    }

    /// The first language of code `search_lang_code`, when there is one.
    pub fn find_by_lang_code(&self, search_lang_code: &str) -> (r: Result<Option<Language>, ()>)
        requires
            self.wf(),
        ensures
            match r {
                Ok(found) => {
                    &&& (found is Some <==> has_key(self.store@, KeyView::Text(search_lang_code@)))
                    &&& match found {
                        Some(p) => exists|i: int|
                            {
                                &&& 0 <= i < self.store@.len()
                                &&& p == spec_language_of(#[trigger] self.store@[i])
                                &&& self.store@[i].key@ == KeyView::Text(search_lang_code@)
                                &&& forall|j: int|
                                    0 <= j < i ==> (#[trigger] self.store@[j]).key@
                                        != KeyView::Text(search_lang_code@)
                            },
                        None => true,
                    }
                },
                Err(_) => false,
            },
    {
        let key = NaturalKey::Text(search_lang_code.to_owned());
        match self.store.find_by_natural_key(&key) {
            Some(e) => Ok(Some(language_of(&e))),
            None => Ok(None),
        }
    }

    /// Link the language to a book. The caller must have checked that the
    /// pair is not linked yet, so that no duplicate link row is created.
    pub fn link_language_to_book(&mut self, book_id: i32, language_id: i32) -> (r: Result<
        (),
        (),
    >)
        requires
            old(self).wf(),
            !has_pair(old(self).links@, book_id, language_id),
        ensures
            final(self).wf(),
            final(self).store == old(self).store,
            r is Err <==> old(self).links.next_id == i32::MAX,
            r is Err ==> final(self).links@ == old(self).links@,
            r is Ok ==> final(self).links@ == old(self).links@.push(
                Link { id: old(self).links.next_id, book: book_id, entity: language_id },
            ),
    {
        match self.links.link(book_id, language_id) {
            Ok(()) => Ok(()),
            Err(_) => Err(()),
        }
    }

    /// Unlink the language from a book; a no-op when the pair is absent.
    pub fn unlink_language_from_book(&mut self, book_id: i32, language_id: i32) -> (r: Result<
        (),
        (),
    >)
        requires
            old(self).wf(),
        ensures
            final(self).wf(),
            final(self).store == old(self).store,
            r == Ok::<(), ()>(()),
            final(self).links@ == without_pair(old(self).links@, book_id, language_id),
    {
        self.links.unlink(book_id, language_id);
        Ok(())
    }

    /// The language ids linked to a book, in link order.
    pub fn find_language_ids_by_book_id(&self, book_id: i32) -> (r: Result<Vec<i32>, ()>)
        requires
            self.wf(),
        ensures
            match r {
                Ok(v) => v@ == entities_seq(self.links@, book_id),
                Err(_) => false,
            },
    {
        Ok(self.links.entities_for_book(book_id))
    }
}

} // verus!
