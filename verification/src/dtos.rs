//! Plain data-transfer types that callers hand to the handlers.

use vstd::prelude::*;

verus! {

#[derive(Clone, Debug)]
pub struct NewAuthorDto {
    pub full_name: String,
    pub sortable_name: String,
}

#[derive(Debug)]
pub struct UpdateAuthorDto {
    /// A new name, or `None` to keep the present one.
    pub full_name: Option<String>,
    /// A new sort string, or `None` to keep the present one.
    pub sortable_name: Option<String>,
}

#[derive(Clone, Debug)]
pub struct NewPublisherDto {
    pub name: String,
    pub sort: Option<String>,
}

#[derive(Clone, Debug)]
pub struct NewTagDto {
    pub name: String,
}

#[derive(Clone, Debug)]
pub struct NewLanguageDto {
    pub lang_code: String,
}

#[derive(Clone, Copy, Debug)]
pub struct NewRatingDto {
    pub rating: i32,
}

/// A file to add to the library, given by its source path.
#[derive(Clone, Debug)]
pub struct NewLibraryFileDto {
    pub path: String,
}

/// A new book. Dates and cover handling stay with the caller; the engine
/// only needs the row.
#[derive(Clone, Debug)]
pub struct NewBookDto {
    pub title: String,
    pub flags: i32,
    pub has_cover: Option<bool>,
}

/// An identifier to create (`id` absent) or update (`id` present) on a book.
#[derive(Clone, Debug)]
pub struct UpsertBookIdentifier {
    pub book_id: i32,
    pub id: Option<i32>,
    pub label: String,
    pub value: String,
}

} // verus!
