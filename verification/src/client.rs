//! The top-level client: the whole library behind one value, with the
//! deduplication and relink operations exposed per entity kind.

use vstd::prelude::*;

use crate::client_v2::ClientV2;
use crate::dtos::NewAuthorDto;
use crate::dtos::UpdateAuthorDto;
use crate::engine::merge_allowed;
use crate::engine::merge_post;
use crate::errors::CalibreError;
use crate::links::entities_seq;
use crate::models::Author;
use crate::models::Book;
use crate::models::BookWithAuthorsAndFiles;
use crate::models::Identifier;
use crate::models::Publisher;
use crate::models::Tag;
use crate::models::spec_author_of;
use crate::models::spec_publisher_of;
use crate::models::spec_tag_of;
use crate::api::book_files::files_seq;
use crate::api::books::contains_book;
use crate::api::books::has_comment;
use crate::api::books::idents_seq;
use crate::api::books::read_state_of;
use crate::api::books::without_ident;
use crate::store::Entity;
use crate::store::KeyView;
use crate::store::contains_id;
use crate::store::has_key;
use crate::translation::translation_applies;
use crate::translation::translated_id;
use crate::util::ValidDbPath;
use crate::util::clone_db_path;

verus! {

/// Whether every author id linked to book `b` resolves to an author row.
pub open spec fn authors_resolve(cv: ClientV2, b: i32) -> bool {
    forall|k: int|
        0 <= k < entities_seq(cv.authors.links@, b).len() ==> contains_id(
            cv.authors.store@,
            #[trigger] entities_seq(cv.authors.links@, b)[k],
        )
}

/// The books whose linked author ids all resolve, in table order.
pub open spec fn resolved_books_seq(books: Seq<Book>, cv: ClientV2) -> Seq<Book>
    decreases books.len(),
{
    if books.len() == 0 {
        Seq::empty()
    } else {
        resolved_books_seq(books.drop_last(), cv) + (if authors_resolve(cv, books.last().id) {
            seq![books.last()]
        } else {
            Seq::empty()
        })
    }
}

/// What a book bundle holds for book `b` of client `cv`: the book's own
/// row, the author row of each linked author id, the book's files, its
/// description and its read state.
pub open spec fn bundle_matches(cv: ClientV2, b: i32, v: BookWithAuthorsAndFiles) -> bool {
    &&& v.book.id == b
    &&& exists|i: int|
        0 <= i < cv.books.books@.len() && #[trigger] cv.books.books@[i] == v.book
    &&& v.authors@.len() == entities_seq(cv.authors.links@, b).len()
    &&& forall|k: int|
        #![trigger v.authors@[k]]
        0 <= k < v.authors@.len() ==> exists|i: int|
            {
                &&& 0 <= i < cv.authors.store@.len()
                &&& (#[trigger] cv.authors.store@[i]).id == entities_seq(cv.authors.links@, b)[k]
                &&& v.authors@[k] == spec_author_of(cv.authors.store@[i])
            }
    &&& v.files@ == files_seq(cv.book_files.files@, b)
    &&& v.is_read == read_state_of(cv.books.read_states@, b)
    &&& (v.book_description_html is Some <==> has_comment(cv.books.comments@, b))
    &&& (v.book_description_html is Some ==> exists|i: int|
        {
            &&& 0 <= i < cv.books.comments@.len()
            &&& (#[trigger] cv.books.comments@[i]).book == b
            &&& v.book_description_html == Some(cv.books.comments@[i].text)
        })
}

/// Whether a row's key is one of the names in `authors`.
pub open spec fn named_in(e: Entity, authors: Seq<NewAuthorDto>) -> bool {
    exists|k: int| 0 <= k < authors.len() && e.key@ == KeyView::Text(#[trigger] authors[k].full_name@)
}

/// The whole library behind one value.
pub struct CalibreClient {
    pub validated_library_path: ValidDbPath,
    pub client_v2: ClientV2,
}

impl CalibreClient {
    /// The client invariant.
    pub open spec fn wf(self) -> bool {
        self.client_v2.wf()
    }

    /// A client over the library at `db_path`, with every table empty.
    pub fn new(db_path: ValidDbPath) -> (r: CalibreClient)
        ensures
            r.wf(),
            r.validated_library_path == db_path,
            r.client_v2.db_path == db_path,
            r.client_v2.authors.store@.len() == 0 && r.client_v2.authors.links@.len() == 0,
            r.client_v2.books.books@.len() == 0 && r.client_v2.books.identifiers@.len() == 0,
            r.client_v2.books.comments@.len() == 0 && r.client_v2.books.read_states@.len() == 0,
            r.client_v2.book_files.files@.len() == 0,
            r.client_v2.publishers.store@.len() == 0 && r.client_v2.publishers.links@.len() == 0,
            r.client_v2.languages.store@.len() == 0 && r.client_v2.languages.links@.len() == 0,
            r.client_v2.tags.store@.len() == 0 && r.client_v2.tags.links@.len() == 0,
            r.client_v2.ratings.store@.len() == 0 && r.client_v2.ratings.links@.len() == 0,
    {
        let path = clone_db_path(&db_path);
        CalibreClient { validated_library_path: path, client_v2: ClientV2::new(db_path) }
    }

    /// The book of id `book_id` together with its authors, files,
    /// description and read state. Fails when a linked author id does not
    /// resolve.
    #[verifier::loop_isolation(false)]
    pub fn find_book_with_authors(&self, book_id: i32) -> (r: Result<
        BookWithAuthorsAndFiles,
        CalibreError,
    >)
        requires
            self.wf(),
            contains_book(self.client_v2.books.books@, book_id),
        ensures
            r is Ok <==> authors_resolve(self.client_v2, book_id),
            match r {
                Ok(v) => bundle_matches(self.client_v2, book_id, v),
                Err(e) => e == CalibreError::DatabaseError,
            },
    {
        proof {
            crate::api::books::lemma_contains_book_index(self.client_v2.books.books@, book_id);
        }
        let book = match self.client_v2.books.find_by_id(book_id) {
            Ok(Some(b)) => b,
            _ => unreached(),
        };
        let book_desc = match self.client_v2.books.get_description(book_id) {
            Ok(d) => d,
            Err(_) => unreached(),
        };
        let author_ids = match self.client_v2.authors.find_author_ids_by_book_id(book_id) {
            Ok(ids) => ids,
            Err(_) => unreached(),
        };
        let n = author_ids.len();
        let mut authors: Vec<Author> = Vec::new();
        let mut k: usize = 0;
        while k < n
            invariant
                0 <= k <= n,
                authors@.len() == k,
                forall|j: int|
                    0 <= j < k ==> contains_id(
                        self.client_v2.authors.store@,
                        #[trigger] author_ids@[j],
                    ),
                forall|j: int|
                    #![trigger authors@[j]]
                    0 <= j < k ==> exists|i: int|
                        {
                            &&& 0 <= i < self.client_v2.authors.store@.len()
                            &&& (#[trigger] self.client_v2.authors.store@[i]).id == author_ids@[j]
                            &&& authors@[j] == spec_author_of(self.client_v2.authors.store@[i])
                        },
            decreases n - k,
        {
            let found = match self.client_v2.authors.find_by_id(author_ids[k]) {
                Ok(f) => f,
                Err(_) => unreached(),
            };
            match found {
                Some(author) => {
                    authors.push(author);
                },
                None => {
                    proof {
                        assert(!contains_id(
                            self.client_v2.authors.store@,
                            entities_seq(self.client_v2.authors.links@, book_id)[k as int],
                        ));
                    }
                    return Err(CalibreError::DatabaseError);
                },
            }
            k += 1;
        }
        proof {
            assert forall|j: int|
                0 <= j < entities_seq(self.client_v2.authors.links@, book_id).len()
                implies contains_id(
                self.client_v2.authors.store@,
                #[trigger] entities_seq(self.client_v2.authors.links@, book_id)[j],
            ) by {
                assert(author_ids@[j] == entities_seq(self.client_v2.authors.links@, book_id)[j]);
                assert(contains_id(self.client_v2.authors.store@, author_ids@[j]));
            }
        }
        let files = match self.client_v2.book_files.list_all_by_book_id(book_id) {
            Ok(f) => f,
            Err(_) => unreached(),
        };
        let is_read = match self.client_v2.books.get_book_read_state(book_id) {
            Ok(Some(v)) => v,
            _ => unreached(),
        };
        Ok(BookWithAuthorsAndFiles {
            book,
            authors,
            files,
            book_description_html: book_desc,
            is_read,
        })
    }

    /// Every book of the library whose linked author ids all resolve, as a
    /// bundle of the book, its authors, files, description and read state;
    /// a book with a dangling author id is left out.
    #[verifier::loop_isolation(false)]
    pub fn find_all(&self) -> (r: Result<Vec<BookWithAuthorsAndFiles>, CalibreError>)
        requires
            self.wf(),
        ensures
            match r {
                Ok(v) => {
                    let rb = resolved_books_seq(self.client_v2.books.books@, self.client_v2);
                    &&& v@.len() == rb.len()
                    &&& forall|k: int|
                        #![trigger v@[k]]
                        0 <= k < v@.len() ==> v@[k].book == rb[k] && bundle_matches(
                            self.client_v2,
                            rb[k].id,
                            v@[k],
                        )
                },
                Err(_) => false,
            },
    {
        let books = match self.client_v2.books.list() {
            Ok(b) => b,
            Err(_) => unreached(),
        };
        let n = books.len();
        let mut book_list: Vec<BookWithAuthorsAndFiles> = Vec::new();
        let mut i: usize = 0;
        while i < n
            invariant
                0 <= i <= n,
                books@ == self.client_v2.books.books@,
                ({
                    let rb = resolved_books_seq(books@.take(i as int), self.client_v2);
                    &&& book_list@.len() == rb.len()
                    &&& forall|k: int|
                        #![trigger book_list@[k]]
                        0 <= k < book_list@.len() ==> book_list@[k].book == rb[k]
                            && bundle_matches(self.client_v2, rb[k].id, book_list@[k])
                }),
            decreases n - i,
        {
            proof {
                assert(books@.take(i as int + 1).drop_last() =~= books@.take(i as int));
                assert(books@.take(i as int + 1).last() == books@[i as int]);
                lemma_contains_from_index(self.client_v2.books.books@, i as int);
            }
            let result = self.find_book_with_authors(books[i].id);
            match result {
                Ok(res) => book_list.push(res),
                Err(_) => (),
            }
            i += 1;
        }
        proof {
            assert(books@.take(n as int) =~= books@);
        }
        Ok(book_list)
    }

    /// Every author row.
    pub fn list_all_authors(&self) -> (r: Result<Vec<Author>, CalibreError>)
        requires
            self.wf(),
        ensures
            match r {
                Ok(v) => v@ == self.client_v2.authors.store@.map_values(
                    |e: Entity| spec_author_of(e),
                ),
                Err(_) => false,
            },
    {
        match self.client_v2.authors.list() {
            Ok(v) => Ok(v),
            Err(_) => Err(CalibreError::DatabaseError),
        }
    }

    /// The identifier rows of a book, in row order.
    pub fn list_identifiers_for_book(&self, book_id: i32) -> (r: Result<
        Vec<Identifier>,
        CalibreError,
    >)
        requires
            self.wf(),
        ensures
            match r {
                Ok(v) => v@ == idents_seq(self.client_v2.books.identifiers@, book_id),
                Err(_) => false,
            },
    {
        match self.client_v2.books.list_identifiers_for_book(book_id) {
            Ok(v) => Ok(v),
            Err(_) => Err(CalibreError::DatabaseError),
        }
    }

    /// Update the name and/or the sort string of an author; fails when the
    /// id does not resolve.
    pub fn update_author(&mut self, author_id: i32, updates: UpdateAuthorDto) -> (r: Result<
        Author,
        (),
    >)
        requires
            old(self).wf(),
        ensures
            final(self).wf(),
            final(self).client_v2.authors.links == old(self).client_v2.authors.links,
            r is Err <==> !contains_id(old(self).client_v2.authors.store@, author_id),
            r is Err ==> final(self).client_v2.authors.store@ == old(
                self,
            ).client_v2.authors.store@,
            r is Ok ==> exists|i: int|
                {
                    &&& 0 <= i < old(self).client_v2.authors.store@.len()
                    &&& (#[trigger] old(self).client_v2.authors.store@[i]).id == author_id
                    &&& ({
                        let row = Entity {
                            id: author_id,
                            key: if updates.full_name is Some {
                                crate::store::NaturalKey::Text(updates.full_name.unwrap())
                            } else {
                                old(self).client_v2.authors.store@[i].key
                            },
                            sort: if updates.sortable_name is Some {
                                updates.sortable_name
                            } else {
                                old(self).client_v2.authors.store@[i].sort
                            },
                            link: old(self).client_v2.authors.store@[i].link,
                        };
                        &&& final(self).client_v2.authors.store@ == old(
                            self,
                        ).client_v2.authors.store@.update(i, row)
                        &&& r == Ok::<Author, ()>(spec_author_of(row))
                    })
                },
    {
        self.client_v2.authors.update(author_id, updates)
    }

    /// Every author row, in ascending id order.
    pub fn get_all_authors(&self) -> (r: Result<Vec<Author>, CalibreError>)
        requires
            self.wf(),
        ensures
            match r {
                Ok(v) => v@ == self.client_v2.authors.store@.map_values(
                    |e: Entity| spec_author_of(e),
                ),
                Err(_) => false,
            },
    {
        match self.client_v2.authors.list() {
            Ok(v) => Ok(v),
            Err(_) => Err(CalibreError::DatabaseError),
        }
    }

    /// Create each author that is missing, returning one row per given
    /// author, found or created.
    #[verifier::loop_isolation(false)]
    pub fn create_authors(&mut self, authors: Vec<NewAuthorDto>) -> (r: Result<
        Vec<Author>,
        CalibreError,
    >)
        requires
            old(self).wf(),
            old(self).client_v2.authors.store.next_id + authors@.len() <= i32::MAX,
        ensures
            final(self).wf(),
            final(self).client_v2.authors.links == old(self).client_v2.authors.links,
            final(self).client_v2.books == old(self).client_v2.books,
            forall|j: int|
                0 <= j < old(self).client_v2.authors.store@.len() ==> #[trigger] final(self).client_v2.authors.store@[j] == old(self).client_v2.authors.store@[j],
            old(self).client_v2.authors.store@.len() <= final(self).client_v2.authors.store@.len()
                <= old(self).client_v2.authors.store@.len() + authors@.len(),
            forall|j: int|
                old(self).client_v2.authors.store@.len() <= j < final(self).client_v2.authors.store@.len() ==> named_in(
                    #[trigger] final(self).client_v2.authors.store@[j],
                    authors@,
                ),
            match r {
                Ok(v) => {
                    &&& v@.len() == authors@.len()
                    &&& forall|k: int|
                        #![trigger v@[k]]
                        0 <= k < v@.len() ==> v@[k].name@ == authors@[k].full_name@ && has_key(
                            final(self).client_v2.authors.store@,
                            KeyView::Text(authors@[k].full_name@),
                        )
                },
                Err(_) => false,
            },
    {
        let n = authors.len();
        let mut out: Vec<Author> = Vec::new();
        let mut i: usize = 0;
        let mut dtos = authors;
        while i < n
            invariant
                0 <= i <= n,
                dtos@.len() == n - i,
                forall|j: int| 0 <= j < n - i ==> dtos@[j] == authors@[j + i],
                self.wf(),
                self.client_v2.authors.links == old(self).client_v2.authors.links,
                self.client_v2.books == old(self).client_v2.books,
                self.client_v2.book_files == old(self).client_v2.book_files,
                self.client_v2.publishers == old(self).client_v2.publishers,
                self.client_v2.languages == old(self).client_v2.languages,
                self.client_v2.tags == old(self).client_v2.tags,
                self.client_v2.ratings == old(self).client_v2.ratings,
                self.client_v2.db_path == old(self).client_v2.db_path,
                self.validated_library_path == old(self).validated_library_path,
                self.client_v2.authors.store.next_id <= old(
                    self,
                ).client_v2.authors.store.next_id + i,
                forall|j: int|
                    0 <= j < old(self).client_v2.authors.store@.len() ==> #[trigger] self.client_v2.authors.store@[j] == old(self).client_v2.authors.store@[j],
                old(self).client_v2.authors.store@.len() <= self.client_v2.authors.store@.len()
                    <= old(self).client_v2.authors.store@.len() + i,
                forall|j: int|
                    old(self).client_v2.authors.store@.len() <= j
                        < self.client_v2.authors.store@.len() ==> named_in(
                        #[trigger] self.client_v2.authors.store@[j],
                        authors@,
                    ),
                out@.len() == i,
                forall|k: int|
                    #![trigger out@[k]]
                    0 <= k < i ==> out@[k].name@ == authors@[k].full_name@ && has_key(
                        self.client_v2.authors.store@,
                        KeyView::Text(authors@[k].full_name@),
                    ),
            decreases n - i,
        {
            let dto = dtos.remove(0);
            let ghost pre_store: Seq<Entity> = self.client_v2.authors.store@;
            let author = match self.client_v2.authors.create_if_missing(dto) {
                Ok(a) => a,
                Err(_) => unreached(),
            };
            proof {
                if has_key(pre_store, KeyView::Text(authors@[i as int].full_name@)) {
                    lemma_author_name_matches(
                        pre_store,
                        author,
                        authors@[i as int].full_name@,
                    );
                    lemma_has_key_grows(
                        pre_store,
                        self.client_v2.authors.store@,
                        KeyView::Text(authors@[i as int].full_name@),
                    );
                } else {
                    let st = self.client_v2.authors.store@;
                    assert(st.len() == pre_store.len() + 1);
                    assert(st[st.len() - 1].key@ == KeyView::Text(authors@[i as int].full_name@));
                    assert(author == spec_author_of(st[st.len() - 1]));
                    lemma_author_name_matches(
                        self.client_v2.authors.store@,
                        author,
                        authors@[i as int].full_name@,
                    );
                }
                assert forall|k: int|
                    #![trigger out@.push(author)[k]]
                    0 <= k < i + 1 implies out@.push(author)[k].name@ == authors@[k].full_name@
                    && has_key(
                    self.client_v2.authors.store@,
                    KeyView::Text(authors@[k].full_name@),
                ) by {
                    if k < i {
                        assert(out@[k].name@ == authors@[k].full_name@);
                        lemma_has_key_grows(
                            pre_store,
                            self.client_v2.authors.store@,
                            KeyView::Text(authors@[k].full_name@),
                        );
                    }
                }
            }
            out.push(author);
            i += 1;
        }
        Ok(out)
    }

    /// Replace an author's name with its canonical (translated) form: a
    /// rename when the translated name is new, a merge into the canonical
    /// author when another author carries it, nothing when the author
    /// already does.
    pub fn replace_author_with_translation(&mut self, author_id: i32, translation: &str) -> (r:
        Result<(), CalibreError>)
        requires
            old(self).wf(),
            translation_applies(
                old(self).client_v2.authors.store@,
                author_id,
                KeyView::Text(translation@),
            ),
        ensures
            final(self).wf(),
            r == Ok::<(), CalibreError>(()),
            !has_key(old(self).client_v2.authors.store@, KeyView::Text(translation@)) ==> {
                &&& final(self).client_v2.authors.links@ == old(self).client_v2.authors.links@
                &&& exists|i: int|
                    {
                        &&& 0 <= i < old(self).client_v2.authors.store@.len()
                        &&& (#[trigger] old(self).client_v2.authors.store@[i]).id == author_id
                        &&& final(self).client_v2.authors.store@.len() == old(
                            self,
                        ).client_v2.authors.store@.len()
                        &&& final(self).client_v2.authors.store@[i].id == author_id
                        &&& final(self).client_v2.authors.store@[i].key@ == KeyView::Text(
                            translation@,
                        )
                        &&& forall|j: int|
                            0 <= j < old(self).client_v2.authors.store@.len() && j != i ==> final(self).client_v2.authors.store@[j] == old(self).client_v2.authors.store@[j]
                    }
            },
            has_key(old(self).client_v2.authors.store@, KeyView::Text(translation@))
                && translated_id(old(self).client_v2.authors.store@, KeyView::Text(translation@))
                == author_id ==> final(self).client_v2.authors.store@ == old(
                self,
            ).client_v2.authors.store@ && final(self).client_v2.authors.links@ == old(
                self,
            ).client_v2.authors.links@,
            has_key(old(self).client_v2.authors.store@, KeyView::Text(translation@))
                && translated_id(old(self).client_v2.authors.store@, KeyView::Text(translation@))
                != author_id ==> merge_post(
                old(self).client_v2.authors.store@,
                old(self).client_v2.authors.links@,
                final(self).client_v2.authors.store@,
                final(self).client_v2.authors.links@,
                author_id,
                translated_id(old(self).client_v2.authors.store@, KeyView::Text(translation@)),
            ),
    {
        match self.client_v2.authors.replace_with_translation(author_id, translation) {
            Ok(()) => Ok(()),
            Err(_) => {
                proof {
                    assert(false);
                }
                Err(CalibreError::DatabaseError)
            },
        }
    }

    /// Remove an identifier from a book; a no-op when it is absent.
    pub fn delete_book_identifier(&mut self, book_id: i32, identifier_id: i32) -> (r: Result<
        (),
        (),
    >)
        requires
            old(self).wf(),
        ensures
            final(self).wf(),
            r == Ok::<(), ()>(()),
            final(self).client_v2.books.identifiers@ == without_ident(
                old(self).client_v2.books.identifiers@,
                book_id,
                identifier_id,
            ),
            final(self).client_v2.books.books == old(self).client_v2.books.books,
            final(self).client_v2.authors == old(self).client_v2.authors,
    {
        self.client_v2.books.delete_book_identifier(book_id, identifier_id)
    }

    /// Every publisher row, in ascending id order.
    pub fn get_all_publishers(&self) -> (r: Result<Vec<Publisher>, CalibreError>)
        requires
            self.wf(),
        ensures
            match r {
                Ok(v) => v@ == self.client_v2.publishers.store@.map_values(
                    |e: Entity| spec_publisher_of(e),
                ),
                Err(_) => false,
            },
    {
        match self.client_v2.publishers.get_all_publishers() {
            Ok(v) => Ok(v),
            Err(_) => Err(CalibreError::DatabaseError),
        }
    }

    /// Replace a publisher's name with its canonical (translated) form, as
    /// for authors.
    pub fn replace_publisher_with_translation(&mut self, publisher_id: i32, translation: &str) -> (
    r: Result<(), CalibreError>)
        requires
            old(self).wf(),
            translation_applies(
                old(self).client_v2.publishers.store@,
                publisher_id,
                KeyView::Text(translation@),
            ),
        ensures
            final(self).wf(),
            r == Ok::<(), CalibreError>(()),
            has_key(old(self).client_v2.publishers.store@, KeyView::Text(translation@))
                && translated_id(
                old(self).client_v2.publishers.store@,
                KeyView::Text(translation@),
            ) != publisher_id ==> merge_post(
                old(self).client_v2.publishers.store@,
                old(self).client_v2.publishers.links@,
                final(self).client_v2.publishers.store@,
                final(self).client_v2.publishers.links@,
                publisher_id,
                translated_id(old(self).client_v2.publishers.store@, KeyView::Text(translation@)),
            ),
            !has_key(old(self).client_v2.publishers.store@, KeyView::Text(translation@)) ==> final(self).client_v2.publishers.links@ == old(self).client_v2.publishers.links@,
    {
        match self.client_v2.publishers.replace_with_translation(publisher_id, translation) {
            Ok(()) => Ok(()),
            Err(_) => {
                proof {
                    assert(false);
                }
                Err(CalibreError::DatabaseError)
            },
        }
    }

    /// Every tag row, in ascending id order.
    pub fn get_all_tags(&self) -> (r: Result<Vec<Tag>, CalibreError>)
        requires
            self.wf(),
        ensures
            match r {
                Ok(v) => v@ == self.client_v2.tags.store@.map_values(|e: Entity| spec_tag_of(e)),
                Err(_) => false,
            },
    {
        match self.client_v2.tags.get_all_tags() {
            Ok(v) => Ok(v),
            Err(_) => Err(CalibreError::DatabaseError),
        }
    }

    /// Replace a tag's name with its canonical (translated) form, as for
    /// authors.
    pub fn replace_tag_with_translation(&mut self, tag_id: i32, translation: &str) -> (r: Result<
        (),
        CalibreError,
    >)
        requires
            old(self).wf(),
            translation_applies(
                old(self).client_v2.tags.store@,
                tag_id,
                KeyView::Text(translation@),
            ),
        ensures
            final(self).wf(),
            r == Ok::<(), CalibreError>(()),
            has_key(old(self).client_v2.tags.store@, KeyView::Text(translation@)) && translated_id(
                old(self).client_v2.tags.store@,
                KeyView::Text(translation@),
            ) != tag_id ==> merge_post(
                old(self).client_v2.tags.store@,
                old(self).client_v2.tags.links@,
                final(self).client_v2.tags.store@,
                final(self).client_v2.tags.links@,
                tag_id,
                translated_id(old(self).client_v2.tags.store@, KeyView::Text(translation@)),
            ),
            !has_key(old(self).client_v2.tags.store@, KeyView::Text(translation@)) ==> final(self).client_v2.tags.links@ == old(self).client_v2.tags.links@,
    {
        match self.client_v2.tags.replace_with_translation(tag_id, translation) {
            Ok(()) => Ok(()),
            Err(_) => {
                proof {
                    assert(false);
                }
                Err(CalibreError::DatabaseError)
            },
        }
    }
}

/// A row seen at an index shows its id as contained.
proof fn lemma_contains_from_index(rows: Seq<Book>, i: int)
    requires
        0 <= i < rows.len(),
    ensures
        contains_book(rows, rows[i].id),
    decreases rows.len(),
{
    if i == rows.len() - 1 {
    } else {
        lemma_contains_from_index(rows.drop_last(), i);
    }
}

/// An author built from a row whose key reads as the given text carries
/// that text as its name.
proof fn lemma_author_name_matches(store: Seq<Entity>, a: Author, name: Seq<char>)
    requires
        exists|i: int|
            {
                &&& 0 <= i < store.len()
                &&& a == spec_author_of(#[trigger] store[i])
                &&& store[i].key@ == KeyView::Text(name)
            },
    ensures
        a.name@ == name,
        has_key(store, KeyView::Text(name)),
{
    let i = choose|i: int|
        {
            &&& 0 <= i < store.len()
            &&& a == spec_author_of(#[trigger] store[i])
            &&& store[i].key@ == KeyView::Text(name)
        };
    match store[i].key {
        crate::store::NaturalKey::Text(_) => {},
        crate::store::NaturalKey::Num(_) => {
            assert(false);
        },
    }
}

/// A key present in a store stays present when rows are only added or kept.
proof fn lemma_has_key_grows(s0: Seq<Entity>, s1: Seq<Entity>, k: KeyView)
    requires
        has_key(s0, k),
        s0.len() <= s1.len(),
        forall|i: int| 0 <= i < s0.len() ==> s1[i] == s0[i],
    ensures
        has_key(s1, k),
{
    let i = choose|i: int| 0 <= i < s0.len() && (#[trigger] s0[i]).key@ == k;
    assert(s1[i].key@ == k);
}

} // verus!
