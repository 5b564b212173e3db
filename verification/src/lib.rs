//! A verified metadata-management core for a Calibre-style book library.
//!
//! The heart of the crate is the entity deduplication and relink engine:
//! when two rows of one entity kind (authors, publishers, tags, languages,
//! ratings) turn out to denote the same real-world entity, the engine merges
//! them into one surviving row and re-homes every book link that referenced
//! the discarded row, without ever creating a duplicate link and without
//! leaving a dangling reference.
//!
//! All state sits behind one owned client value, so operations serialize by
//! construction, and a merge happens within one call: it either applies
//! completely or is refused up front with the state untouched.

pub mod api;
pub mod client;
pub mod client_utils;
pub mod client_v2;
pub mod dtos;
pub mod engine;
pub mod errors;
pub mod links;
pub mod models;
pub mod store;
pub mod text;
pub mod translation;
pub mod util;

pub use client::CalibreClient;
pub use client_v2::ClientV2;
pub use dtos::UpsertBookIdentifier;
pub use errors::CalibreError;
pub use errors::MergeError;
pub use models::Author;
pub use models::Book;
pub use models::BookFile;
pub use models::BookWithAuthorsAndFiles;
pub use models::Identifier;
pub use models::Language;
pub use models::Publisher;
pub use models::Rating;
pub use models::Tag;
pub use util::ValidDbPath;
