//! The book-file handler: the rows recording which files belong to a book.

use vstd::prelude::*;

use crate::models::BookFile;

verus! {

/// A copy of a book-file row holding the same values.
pub fn clone_book_file(x: &BookFile) -> (r: BookFile)
    ensures
        r == *x,
{
    BookFile {
        id: x.id,
        book: x.book,
        name: x.name.clone(),
        format: x.format.clone(),
        uncompressed_size: x.uncompressed_size,
    }
}

/// The file rows of book `b`, in row order.
pub open spec fn files_seq(rows: Seq<BookFile>, b: i32) -> Seq<BookFile>
    decreases rows.len(),
{
    if rows.len() == 0 {
        Seq::empty()
    } else {
        files_seq(rows.drop_last(), b) + (if rows.last().book == b {
            seq![rows.last()]
        } else {
            Seq::empty()
        })
    }
}

/// Every file id of `rows` lies below `n`.
pub open spec fn file_ids_below(rows: Seq<BookFile>, n: int) -> bool {
    forall|i: int| 0 <= i < rows.len() ==> (#[trigger] rows[i]).id < n
}

/// The book-file table.
pub struct BookFilesHandler {
    pub files: Vec<BookFile>,
    pub next_id: i32,
}

impl BookFilesHandler {
    /// The handler invariant: fresh ids stay fresh.
    pub open spec fn wf(self) -> bool {
        &&& file_ids_below(self.files@, self.next_id as int)
        &&& self.next_id >= 1
    }

    pub fn new() -> (r: BookFilesHandler)
        ensures
            r.wf(),
            r.files@ == Seq::<BookFile>::empty(),
    {
        BookFilesHandler { files: Vec::new(), next_id: 1 }
    }

    /// Insert a file row for a book; the store assigns the id.
    pub fn create(&mut self, book_id: i32, name: String, format: String, uncompressed_size: i32) -> (
    r: Result<BookFile, ()>)
        requires
            old(self).wf(),
        ensures
            final(self).wf(),
            r is Err <==> old(self).next_id == i32::MAX,
            r is Err ==> final(self)@ == old(self)@ && final(self).next_id == old(self).next_id,
            r is Ok ==> {
                let row = BookFile {
                    id: old(self).next_id,
                    book: book_id,
                    name: name,
                    format: format,
                    uncompressed_size: uncompressed_size,
                };
                &&& final(self).files@ == old(self).files@.push(row)
                &&& r == Ok::<BookFile, ()>(row)
            },
    {
        if self.next_id == i32::MAX {
            return Err(());
        }
        let row = BookFile {
            id: self.next_id,
            book: book_id,
            name: name,
            format: format,
            uncompressed_size: uncompressed_size,
        };
        let out = clone_book_file(&row);
        self.files.push(row);
        self.next_id = self.next_id + 1;
        Ok(out)
    }

    /// The file rows of a book, in row order.
    #[verifier::loop_isolation(false)]
    pub fn list_all_by_book_id(&self, book_id: i32) -> (r: Result<Vec<BookFile>, ()>)
        requires
            self.wf(),
        ensures
            match r {
                Ok(v) => v@ == files_seq(self.files@, book_id),
                Err(_) => false,
            },
    {
        let n = self.files.len();
        let mut out: Vec<BookFile> = Vec::new();
        let mut i: usize = 0;
        while i < n
            invariant
                0 <= i <= n,
                out@ == files_seq(self.files@.take(i as int), book_id),
            decreases n - i,
        {
            proof {
                assert(self.files@.take(i as int + 1) =~= self.files@.take(i as int).push(
                    self.files@[i as int],
                ));
                assert(self.files@.take(i as int + 1).drop_last() =~= self.files@.take(i as int));
            }
            if self.files[i].book == book_id {
                out.push(clone_book_file(&self.files[i]));
            }
            i += 1;
        }
        proof {
            assert(self.files@.take(n as int) =~= self.files@);
        }
        Ok(out)
    }
}

impl View for BookFilesHandler {
    type V = Seq<BookFile>;

    open spec fn view(&self) -> Seq<BookFile> {
        self.files@
    }
}

} // verus!
