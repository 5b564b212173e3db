//! The public row types of the library — one per entity kind, plus books,
//! book files and identifiers — and their mapping onto the generic entity
//! rows of the store.

use vstd::prelude::*;

use crate::store::Entity;
use crate::store::NaturalKey;
use crate::store::clone_opt_string;

verus! {

/// An author row.
#[derive(Debug)]
pub struct Author {
    pub id: i32,
    pub name: String,
    pub sort: Option<String>,
    pub link: Option<String>,
}

impl Author {
    /// The name used when sorting: the sort string when one is set, else the
    /// name itself.
    pub fn sortable_name(&self) -> (r: String)
        ensures
            r == self.spec_sortable_name(),
    {
        match &self.sort {
            Some(s) => s.clone(),
            None => self.name.clone(),
        }
    }

    pub open spec fn spec_sortable_name(self) -> String {
        match self.sort {
            Some(s) => s,
            None => self.name,
        }
    }
}

/// A publisher row.
#[derive(Debug)]
pub struct Publisher {
    pub id: i32,
    pub name: String,
    pub sort: Option<String>,
}

/// A tag row.
#[derive(Debug)]
pub struct Tag {
    pub id: i32,
    pub name: String,
}

/// A language row, keyed by its language code.
#[derive(Debug)]
pub struct Language {
    pub id: i32,
    pub lang_code: String,
}

/// A rating row, keyed by its value.
#[derive(Clone, Copy, Debug, PartialEq, Eq, Structural)]
pub struct Rating {
    pub id: i32,
    pub rating: i32,
}

/// An identifier row of a book, e.g. an ISBN.
#[derive(Debug)]
pub struct Identifier {
    pub id: i32,
    pub book: i32,
    pub type_: String,
    pub val: String,
}

/// A book row. The engine itself never reads a book's fields; they ride
/// along for the callers.
#[derive(Debug)]
pub struct Book {
    pub id: i32,
    pub title: String,
    pub sort: Option<String>,
    pub author_sort: Option<String>,
    pub path: String,
    pub uuid: Option<String>,
    pub has_cover: bool,
    pub flags: i32,
}

/// A file of a book.
#[derive(Debug)]
pub struct BookFile {
    pub id: i32,
    pub book: i32,
    pub name: String,
    pub format: String,
    pub uncompressed_size: i32,
}

/// A book together with its authors, files, description and read state.
#[derive(Debug)]
pub struct BookWithAuthorsAndFiles {
    pub book: Book,
    pub authors: Vec<Author>,
    pub files: Vec<BookFile>,
    pub book_description_html: Option<String>,
    pub is_read: bool,
}

/// The text of a text-valued natural key.
pub open spec fn key_string(k: NaturalKey) -> String {
    match k {
        NaturalKey::Text(s) => s,
        NaturalKey::Num(_) => arbitrary(),
    }
}

/// The value of a number-valued natural key.
pub open spec fn key_number(k: NaturalKey) -> i32 {
    match k {
        NaturalKey::Text(_) => arbitrary(),
        NaturalKey::Num(n) => n,
    }
}

/// Every row of `rows` has a text key, as in the author, publisher, tag and
/// language tables.
pub open spec fn text_keys(rows: Seq<Entity>) -> bool {
    forall|i: int| 0 <= i < rows.len() ==> (#[trigger] rows[i]).key is Text
}

/// Every row of `rows` has a number key, as in the rating table.
pub open spec fn num_keys(rows: Seq<Entity>) -> bool {
    forall|i: int| 0 <= i < rows.len() ==> (#[trigger] rows[i]).key is Num
}

/// The author an entity row stands for.
pub open spec fn spec_author_of(e: Entity) -> Author {
    Author { id: e.id, name: key_string(e.key), sort: e.sort, link: e.link }
}

/// The publisher an entity row stands for.
pub open spec fn spec_publisher_of(e: Entity) -> Publisher {
    Publisher { id: e.id, name: key_string(e.key), sort: e.sort }
}

/// The tag an entity row stands for.
pub open spec fn spec_tag_of(e: Entity) -> Tag {
    Tag { id: e.id, name: key_string(e.key) }
}

/// The language an entity row stands for.
pub open spec fn spec_language_of(e: Entity) -> Language {
    Language { id: e.id, lang_code: key_string(e.key) }
}

/// The rating an entity row stands for.
pub open spec fn spec_rating_of(e: Entity) -> Rating {
    Rating { id: e.id, rating: key_number(e.key) }
}

pub fn author_of(e: &Entity) -> (r: Author)
    requires
        e.key is Text,
    ensures
        r == spec_author_of(*e),
{
    match &e.key {
        NaturalKey::Text(s) => Author {
            id: e.id,
            name: s.clone(),
            sort: clone_opt_string(&e.sort),
            link: clone_opt_string(&e.link),
        },
        NaturalKey::Num(_) => unreached(),
    }
}

pub fn publisher_of(e: &Entity) -> (r: Publisher)
    requires
        e.key is Text,
    ensures
        r == spec_publisher_of(*e),
{
    match &e.key {
        NaturalKey::Text(s) => Publisher {
            id: e.id,
            name: s.clone(),
            sort: clone_opt_string(&e.sort),
        },
        NaturalKey::Num(_) => unreached(),
    }
}

pub fn tag_of(e: &Entity) -> (r: Tag)
    requires
        e.key is Text,
    ensures
        r == spec_tag_of(*e),
{
    match &e.key {
        NaturalKey::Text(s) => Tag { id: e.id, name: s.clone() },
        NaturalKey::Num(_) => unreached(),
    }
}

pub fn language_of(e: &Entity) -> (r: Language)
    requires
        e.key is Text,
    ensures
        r == spec_language_of(*e),
{
    match &e.key {
        NaturalKey::Text(s) => Language { id: e.id, lang_code: s.clone() },
        NaturalKey::Num(_) => unreached(),
    }
}

pub fn rating_of(e: &Entity) -> (r: Rating)
    requires
        e.key is Num,
    ensures
        r == spec_rating_of(*e),
{
    match &e.key {
        NaturalKey::Num(n) => Rating { id: e.id, rating: *n },
        NaturalKey::Text(_) => unreached(),
    }
}

} // verus!
