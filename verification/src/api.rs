//! The handlers: one per entity kind, each owning the kind's entity table
//! and its book link table, plus the book and book-file handlers.

pub mod authors;
pub mod book_files;
pub mod books;
pub mod languages;
pub mod publishers;
pub mod ratings;
pub mod tags;
