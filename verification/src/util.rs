//! The validated location of a library and its database file.

use vstd::prelude::*;

verus! {

/// A library root together with the path of its database file. The caller
/// that builds one has checked that the database file exists.
#[derive(Debug)]
pub struct ValidDbPath {
    pub library_path: String,
    pub database_path: String,
}

/// A copy of a validated path holding the same values.
pub fn clone_db_path(p: &ValidDbPath) -> (r: ValidDbPath)
    ensures
        r == *p,
{
    ValidDbPath {
        library_path: p.library_path.clone(),
        database_path: p.database_path.clone(),
    }
}

/// The path of the database file under a library root: the root followed by
/// the database file name.
pub fn metadata_db_path(library_root: &str) -> (r: String)
    ensures
        r@ == library_root@ + "/metadata.db"@,
{
    let mut s = library_root.to_owned();
    s.append("/metadata.db");
    s
}

} // verus!
