//! The table-level client: one handler per table group, reached through
//! accessors.

use vstd::prelude::*;

use crate::api::authors::AuthorsHandler;
use crate::api::book_files::BookFilesHandler;
use crate::api::books::BooksHandler;
use crate::api::languages::LanguagesHandler;
use crate::api::publishers::PublishersHandler;
use crate::api::ratings::RatingsHandler;
use crate::api::tags::TagsHandler;
use crate::util::ValidDbPath;

verus! {

/// All tables of one library.
pub struct ClientV2 {
    pub db_path: ValidDbPath,
    pub authors: AuthorsHandler,
    pub books: BooksHandler,
    pub book_files: BookFilesHandler,
    pub publishers: PublishersHandler,
    pub languages: LanguagesHandler,
    pub tags: TagsHandler,
    pub ratings: RatingsHandler,
}

impl ClientV2 {
    /// The client invariant: every handler is well-formed.
    pub open spec fn wf(self) -> bool {
        &&& self.authors.wf()
        &&& self.books.wf()
        &&& self.book_files.wf()
        &&& self.publishers.wf()
        &&& self.languages.wf()
        &&& self.tags.wf()
        &&& self.ratings.wf()
    }

    /// A client over the library at `db_path`, with every table empty.
    pub fn new(db_path: ValidDbPath) -> (r: ClientV2)
        ensures
            r.wf(),
            r.db_path == db_path,
            r.authors.store@.len() == 0 && r.authors.links@.len() == 0,
            r.books.books@.len() == 0 && r.books.identifiers@.len() == 0,
            r.books.comments@.len() == 0 && r.books.read_states@.len() == 0,
            r.book_files.files@.len() == 0,
            r.publishers.store@.len() == 0 && r.publishers.links@.len() == 0,
            r.languages.store@.len() == 0 && r.languages.links@.len() == 0,
            r.tags.store@.len() == 0 && r.tags.links@.len() == 0,
            r.ratings.store@.len() == 0 && r.ratings.links@.len() == 0,
    {
        ClientV2 {
            db_path,
            authors: AuthorsHandler::new(),
            books: BooksHandler::new(),
            book_files: BookFilesHandler::new(),
            publishers: PublishersHandler::new(),
            languages: LanguagesHandler::new(),
            tags: TagsHandler::new(),
            ratings: RatingsHandler::new(),
        }
    }

    pub fn authors(&mut self) -> (r: &mut AuthorsHandler)
        ensures
            *r == old(self).authors,
            *final(self) == (ClientV2 { authors: *final(r), ..*old(self) }),
    {
        &mut self.authors
    }

    pub fn books(&mut self) -> (r: &mut BooksHandler)
        ensures
            *r == old(self).books,
            *final(self) == (ClientV2 { books: *final(r), ..*old(self) }),
    {
        &mut self.books
    }

    pub fn book_files(&mut self) -> (r: &mut BookFilesHandler)
        ensures
            *r == old(self).book_files,
            *final(self) == (ClientV2 { book_files: *final(r), ..*old(self) }),
    {
        &mut self.book_files
    }

    pub fn publishers(&mut self) -> (r: &mut PublishersHandler)
        ensures
            *r == old(self).publishers,
            *final(self) == (ClientV2 { publishers: *final(r), ..*old(self) }),
    {
        &mut self.publishers
    }

    pub fn languages(&mut self) -> (r: &mut LanguagesHandler)
        ensures
            *r == old(self).languages,
            *final(self) == (ClientV2 { languages: *final(r), ..*old(self) }),
    {
        &mut self.languages
    }

    pub fn tags(&mut self) -> (r: &mut TagsHandler)
        ensures
            *r == old(self).tags,
            *final(self) == (ClientV2 { tags: *final(r), ..*old(self) }),
    {
        &mut self.tags
    }

    pub fn ratings(&mut self) -> (r: &mut RatingsHandler)
        ensures
            *r == old(self).ratings,
            *final(self) == (ClientV2 { ratings: *final(r), ..*old(self) }),
    {
        &mut self.ratings
    }
}

} // verus!
