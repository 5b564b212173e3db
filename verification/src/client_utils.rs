//! Helpers for naming book files and folders and for combined author sorts.

use vstd::prelude::*;

use crate::models::Author;
use crate::text::sanitise_name;
use crate::text::sanitised;
use crate::text::spec_decimal;
use crate::text::decimal_string;
use crate::text::transliterate;
use crate::text::transliterated;

verus! {

/// The sort names of the authors joined with ampersands.
pub open spec fn spec_combined_author_sort(authors: Seq<Author>) -> Seq<char>
    decreases authors.len(),
{
    if authors.len() == 0 {
        Seq::empty()
    } else if authors.len() == 1 {
        authors[0].spec_sortable_name()@
    } else {
        spec_combined_author_sort(authors.drop_last()) + " & "@
            + authors.last().spec_sortable_name()@
    }
}

/// The names of the authors, by their sort names, joined with ampersands.
#[verifier::loop_isolation(false)]
pub fn combined_author_sort(author_list: &Vec<Author>) -> (r: String)
    ensures
        r@ == spec_combined_author_sort(author_list@),
{
    let n = author_list.len();
    let mut out = String::new();
    let mut i: usize = 0;
    while i < n
        invariant
            0 <= i <= n,
            out@ == spec_combined_author_sort(author_list@.take(i as int)),
        decreases n - i,
    {
        if i > 0 {
            out.append(" & ");
        }
        let name = author_list[i].sortable_name();
        out.append(name.as_str());
        proof {
            assert(author_list@.take(i as int + 1).drop_last() =~= author_list@.take(i as int));
            assert(author_list@.take(i as int + 1).last() == author_list@[i as int]);
            if i == 0 {
                assert(out@ =~= spec_combined_author_sort(author_list@.take(i as int + 1)));
            } else {
                assert(out@ =~= spec_combined_author_sort(author_list@.take(i as int + 1)));
            }
        }
        i += 1;
    }
    proof {
        assert(author_list@.take(n as int) =~= author_list@);
    }
    out
}

/// The folder of a book in the library: the decimal rendering of its id.
pub fn gen_book_folder_name(book_id: i32) -> (r: String)
    ensures
        r@ == spec_decimal(book_id as int),
{
    decimal_string(book_id)
}

/// The file-system name for a book file: the title and the author, joined
/// by a dash, transliterated to ASCII and sanitised into a safe file name.
pub fn gen_book_file_name(book_title: &String, author_name: &String) -> (r: String)
    ensures
        r@ == sanitised(transliterated(book_title@ + " - "@ + author_name@)),
        r@.len() > 0,
{
    let mut combined = book_title.clone();
    combined.append(" - ");
    combined.append(author_name.as_str());
    let transliterated_name = transliterate(combined.as_str());
    sanitise_name(transliterated_name.as_str())
}

} // verus!
