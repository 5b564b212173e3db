//! The book handler: book rows, their descriptions, their read state and
//! their identifiers.

use vstd::prelude::*;

use crate::dtos::NewBookDto;
use crate::dtos::UpsertBookIdentifier;
use crate::models::Book;
use crate::models::Identifier;
use crate::store::clone_opt_string;
use crate::text::lowercase;
use crate::text::lowercase_of;

verus! {

/// A description row: the comment text attached to a book.
#[derive(Debug)]
pub struct Comment {
    pub book: i32,
    pub text: String,
}

/// The read state of a book.
#[derive(Clone, Copy, Debug, PartialEq, Eq, Structural)]
pub struct ReadState {
    pub book: i32,
    pub value: bool,
}

/// A copy of a book row holding the same values.
pub fn clone_book(b: &Book) -> (r: Book)
    ensures
        r == *b,
{
    Book {
        id: b.id,
        title: b.title.clone(),
        sort: clone_opt_string(&b.sort),
        author_sort: clone_opt_string(&b.author_sort),
        path: b.path.clone(),
        uuid: clone_opt_string(&b.uuid),
        has_cover: b.has_cover,
        flags: b.flags,
    }
}

/// A copy of an identifier row holding the same values.
pub fn clone_identifier(x: &Identifier) -> (r: Identifier)
    ensures
        r == *x,
{
    Identifier { id: x.id, book: x.book, type_: x.type_.clone(), val: x.val.clone() }
}

/// How many book rows carry the id `id`.
pub open spec fn book_id_count(rows: Seq<Book>, id: i32) -> nat
    decreases rows.len(),
{
    if rows.len() == 0 {
        0
    } else {
        book_id_count(rows.drop_last(), id) + (if rows.last().id == id {
            1nat
        } else {
            0nat
        })
    }
}

pub open spec fn contains_book(rows: Seq<Book>, id: i32) -> bool {
    book_id_count(rows, id) > 0
}

/// A book id with a positive count sits at some index, and conversely.
pub proof fn lemma_contains_book_index(rows: Seq<Book>, id: i32)
    ensures
        contains_book(rows, id) <==> exists|i: int|
            0 <= i < rows.len() && (#[trigger] rows[i]).id == id,
    decreases rows.len(),
{
    if rows.len() > 0 {
        lemma_contains_book_index(rows.drop_last(), id);
        if contains_book(rows.drop_last(), id) {
            let i = choose|i: int|
                0 <= i < rows.drop_last().len() && (#[trigger] rows.drop_last()[i]).id == id;
            assert(rows[i].id == id);
        }
        if rows.last().id == id {
            assert(rows[rows.len() - 1].id == id);
        }
        if exists|i: int| 0 <= i < rows.len() && (#[trigger] rows[i]).id == id {
            let i = choose|i: int| 0 <= i < rows.len() && (#[trigger] rows[i]).id == id;
            if i < rows.len() - 1 {
                assert(rows.drop_last()[i].id == id);
            }
        }
    }
}

/// The identifier rows of book `b`, in row order.
pub open spec fn idents_seq(rows: Seq<Identifier>, b: i32) -> Seq<Identifier>
    decreases rows.len(),
{
    if rows.len() == 0 {
        Seq::empty()
    } else {
        idents_seq(rows.drop_last(), b) + (if rows.last().book == b {
            seq![rows.last()]
        } else {
            Seq::empty()
        })
    }
}

/// The identifier row ids of book `b`, in row order.
pub open spec fn ident_ids_seq(rows: Seq<Identifier>, b: i32) -> Seq<i32>
    decreases rows.len(),
{
    if rows.len() == 0 {
        Seq::empty()
    } else {
        ident_ids_seq(rows.drop_last(), b) + (if rows.last().book == b {
            seq![rows.last().id]
        } else {
            Seq::empty()
        })
    }
}

/// `rows` without the identifier of id `id` on book `b`.
pub open spec fn without_ident(rows: Seq<Identifier>, b: i32, id: i32) -> Seq<Identifier>
    decreases rows.len(),
{
    if rows.len() == 0 {
        Seq::empty()
    } else {
        without_ident(rows.drop_last(), b, id) + (if rows.last().book == b && rows.last().id
            == id {
            Seq::empty()
        } else {
            seq![rows.last()]
        })
    }
}

/// The book ids of the identifier rows whose type and value match, in row
/// order.
pub open spec fn ident_matches(rows: Seq<Identifier>, t: Seq<char>, v: Seq<char>) -> Seq<i32>
    decreases rows.len(),
{
    if rows.len() == 0 {
        Seq::empty()
    } else {
        ident_matches(rows.drop_last(), t, v) + (if rows.last().type_@ == t && rows.last().val@
            == v {
            seq![rows.last().book]
        } else {
            Seq::empty()
        })
    }
}

/// The stored read state of book `b`: the first row's value, or unread when
/// none is stored.
pub open spec fn read_state_of(states: Seq<ReadState>, b: i32) -> bool
    decreases states.len(),
{
    if states.len() == 0 {
        false
    } else if states[0].book == b {
        states[0].value
    } else {
        read_state_of(states.drop_first(), b)
    }
}


/// Whether a comment row of book `b` is present.
pub open spec fn has_comment(rows: Seq<Comment>, b: i32) -> bool {
    exists|i: int| 0 <= i < rows.len() && (#[trigger] rows[i]).book == b
}

/// When the first matching row sits at `i`, it decides the read state.
proof fn lemma_read_state_at(states: Seq<ReadState>, b: i32, i: int)
    requires
        0 <= i < states.len(),
        states[i].book == b,
        forall|j: int| 0 <= j < i ==> (#[trigger] states[j]).book != b,
    ensures
        read_state_of(states, b) == states[i].value,
    decreases i,
{
    if i > 0 {
        lemma_read_state_at(states.drop_first(), b, i - 1);
    }
}

/// Without a matching row the read state is unread.
proof fn lemma_read_state_absent(states: Seq<ReadState>, b: i32)
    requires
        forall|j: int| 0 <= j < states.len() ==> (#[trigger] states[j]).book != b,
    ensures
        read_state_of(states, b) == false,
    decreases states.len(),
{
    if states.len() > 0 {
        lemma_read_state_absent(states.drop_first(), b);
    }
}

/// Every book id of `rows` lies below `n`.
pub open spec fn book_ids_below(rows: Seq<Book>, n: int) -> bool {
    forall|i: int| 0 <= i < rows.len() ==> (#[trigger] rows[i]).id < n
}

/// Book ids grow strictly along the table.
pub open spec fn book_ids_increasing(rows: Seq<Book>) -> bool {
    forall|i: int, j: int|
        0 <= i < j < rows.len() ==> (#[trigger] rows[i]).id < (#[trigger] rows[j]).id
}

/// Every identifier id of `rows` lies below `n`.
pub open spec fn ident_ids_below(rows: Seq<Identifier>, n: int) -> bool {
    forall|i: int| 0 <= i < rows.len() ==> (#[trigger] rows[i]).id < n
}

/// The books, comments, read states and identifiers.
pub struct BooksHandler {
    pub books: Vec<Book>,
    pub next_book_id: i32,
    pub comments: Vec<Comment>,
    pub read_states: Vec<ReadState>,
    pub identifiers: Vec<Identifier>,
    pub next_identifier_id: i32,
}

impl BooksHandler {
    /// The handler invariant: book and identifier ids ascend and stay below
    /// their counters, and a book has at most one read-state row.
    pub open spec fn wf(self) -> bool {
        &&& book_ids_increasing(self.books@)
        &&& book_ids_below(self.books@, self.next_book_id as int)
        &&& self.next_book_id >= 1
        &&& ident_ids_below(self.identifiers@, self.next_identifier_id as int)
        &&& self.next_identifier_id >= 1
        &&& forall|i: int, j: int|
            0 <= i < j < self.read_states@.len() ==> (#[trigger] self.read_states@[i]).book != (
            #[trigger] self.read_states@[j]).book
    }

    pub fn new() -> (r: BooksHandler)
        ensures
            r.wf(),
            r.books@ == Seq::<Book>::empty(),
            r.comments@ == Seq::<Comment>::empty(),
            r.read_states@ == Seq::<ReadState>::empty(),
            r.identifiers@ == Seq::<Identifier>::empty(),
    {
        BooksHandler {
            books: Vec::new(),
            next_book_id: 1,
            comments: Vec::new(),
            read_states: Vec::new(),
            identifiers: Vec::new(),
            next_identifier_id: 1,
        }
    }

    /// Insert a book row; the store assigns the id.
    pub fn create(&mut self, new_book: NewBookDto) -> (r: Result<Book, ()>)
        requires
            old(self).wf(),
        ensures
            final(self).wf(),
            final(self).comments == old(self).comments,
            final(self).read_states == old(self).read_states,
            final(self).identifiers == old(self).identifiers,
            final(self).next_identifier_id == old(self).next_identifier_id,
            r is Err <==> old(self).next_book_id == i32::MAX,
            r is Err ==> final(self).books@ == old(self).books@ && final(self).next_book_id == old(
                self,
            ).next_book_id,
            r is Ok ==> {
                let row = final(self).books@.last();
                &&& final(self).books@.len() == old(self).books@.len() + 1
                &&& final(self).books@.take(old(self).books@.len() as int) == old(self).books@
                &&& row.id == old(self).next_book_id
                &&& row.title == new_book.title
                &&& row.sort is None
                &&& row.author_sort is None
                &&& row.path@ == Seq::<char>::empty()
                &&& row.uuid is None
                &&& row.has_cover == (if new_book.has_cover is Some {
                    new_book.has_cover.unwrap()
                } else {
                    false
                })
                &&& row.flags == new_book.flags
                &&& r == Ok::<Book, ()>(row)
            },
    {
        if self.next_book_id == i32::MAX {
            return Err(());
        }
        let has_cover = match new_book.has_cover {
            Some(c) => c,
            None => false,
        };
        let row = Book {
            id: self.next_book_id,
            title: new_book.title,
            sort: None,
            author_sort: None,
            path: String::new(),
            uuid: None,
            has_cover: has_cover,
            flags: new_book.flags,
        };
        let out = clone_book(&row);
        self.books.push(row);
        self.next_book_id = self.next_book_id + 1;
        Ok(out)
    }

    /// Every book row.
    #[verifier::loop_isolation(false)]
    pub fn list(&self) -> (r: Result<Vec<Book>, ()>)
        requires
            self.wf(),
        ensures
            match r {
                Ok(v) => v@ == self.books@,
                Err(_) => false,
            },
    {
        let n = self.books.len();
        let mut out: Vec<Book> = Vec::new();
        let mut i: usize = 0;
        while i < n
            invariant
                0 <= i <= n,
                out@ == self.books@.take(i as int),
            decreases n - i,
        {
            proof {
                assert(self.books@.take(i as int + 1) =~= self.books@.take(i as int).push(
                    self.books@[i as int],
                ));
            }
            out.push(clone_book(&self.books[i]));
            i += 1;
        }
        proof {
            assert(self.books@.take(n as int) =~= self.books@);
        }
        Ok(out)
    }

    /// The book of id `search_id`, when there is one.
    #[verifier::loop_isolation(false)]
    pub fn find_by_id(&self, search_id: i32) -> (r: Result<Option<Book>, ()>)
        requires
            self.wf(),
        ensures
            match r {
                Ok(found) => {
                    &&& (found is Some <==> exists|i: int|
                        0 <= i < self.books@.len() && (#[trigger] self.books@[i]).id == search_id)
                    &&& match found {
                        Some(b) => b.id == search_id && exists|i: int|
                            0 <= i < self.books@.len() && #[trigger] self.books@[i] == b,
                        None => true,
                    }
                },
                Err(_) => false,
            },
    {
        let n = self.books.len();
        let mut i: usize = 0;
        while i < n
            invariant
                0 <= i <= n,
                forall|j: int| 0 <= j < i ==> (#[trigger] self.books@[j]).id != search_id,
            decreases n - i,
        {
            if self.books[i].id == search_id {
                return Ok(Some(clone_book(&self.books[i])));
            }
            i += 1;
        }
        Ok(None)
    }

    /// The description of a book: the text of its first comment row.
    #[verifier::loop_isolation(false)]
    pub fn get_description(&self, book_id: i32) -> (r: Result<Option<String>, ()>)
        requires
            self.wf(),
        ensures
            match r {
                Ok(found) => {
                    &&& (found is Some <==> exists|i: int|
                        0 <= i < self.comments@.len() && (#[trigger] self.comments@[i]).book
                            == book_id)
                    &&& match found {
                        Some(text) => exists|i: int|
                            {
                                &&& 0 <= i < self.comments@.len()
                                &&& (#[trigger] self.comments@[i]).book == book_id
                                &&& text == self.comments@[i].text
                                &&& forall|j: int|
                                    0 <= j < i ==> (#[trigger] self.comments@[j]).book != book_id
                            },
                        None => true,
                    }
                },
                Err(_) => false,
            },
    {
        let n = self.comments.len();
        let mut i: usize = 0;
        while i < n
            invariant
                0 <= i <= n,
                forall|j: int| 0 <= j < i ==> (#[trigger] self.comments@[j]).book != book_id,
            decreases n - i,
        {
            if self.comments[i].book == book_id {
                return Ok(Some(self.comments[i].text.clone()));
            }
            i += 1;
        }
        Ok(None)
    }

    /// Attach a description to a book, replacing any present one's text.
    #[verifier::loop_isolation(false)]
    pub fn set_description(&mut self, book_id: i32, text: String) -> (r: Result<(), ()>)
        requires
            old(self).wf(),
        ensures
            final(self).wf(),
            final(self).books == old(self).books,
            final(self).read_states == old(self).read_states,
            final(self).identifiers == old(self).identifiers,
            r == Ok::<(), ()>(()),
            has_comment(old(self).comments@, book_id) ==> exists|i: int|
                {
                    &&& 0 <= i < old(self).comments@.len()
                    &&& (#[trigger] old(self).comments@[i]).book == book_id
                    &&& final(self).comments@ == old(self).comments@.update(
                        i,
                        Comment { book: book_id, text: text },
                    )
                },
            !has_comment(old(self).comments@, book_id) ==> final(self).comments@ == old(
                self,
            ).comments@.push(Comment { book: book_id, text: text }),
    {
        let n = self.comments.len();
        let mut i: usize = 0;
        while i < n
            invariant
                0 <= i <= n,
                self.comments@ == old(self).comments@,
                self.books == old(self).books,
                self.read_states == old(self).read_states,
                self.identifiers == old(self).identifiers,
                self.next_book_id == old(self).next_book_id,
                self.next_identifier_id == old(self).next_identifier_id,
                forall|j: int| 0 <= j < i ==> (#[trigger] self.comments@[j]).book != book_id,
            decreases n - i,
        {
            if self.comments[i].book == book_id {
                self.comments[i] = Comment { book: book_id, text: text };
                return Ok(());
            }
            i += 1;
        }
        self.comments.push(Comment { book: book_id, text: text });
        Ok(())
    }

    /// The stored read state of a book; an absent row reads as unread.
    #[verifier::loop_isolation(false)]
    pub fn get_book_read_state(&self, book_id: i32) -> (r: Result<Option<bool>, ()>)
        requires
            self.wf(),
        ensures
            r == Ok::<Option<bool>, ()>(Some(read_state_of(self.read_states@, book_id))),
    {
        let n = self.read_states.len();
        let mut i: usize = 0;
        while i < n
            invariant
                0 <= i <= n,
                forall|j: int| 0 <= j < i ==> (#[trigger] self.read_states@[j]).book != book_id,
            decreases n - i,
        {
            if self.read_states[i].book == book_id {
                proof {
                    lemma_read_state_at(self.read_states@, book_id, i as int);
                }
                return Ok(Some(self.read_states[i].value));
            }
            i += 1;
        }
        proof {
            lemma_read_state_absent(self.read_states@, book_id);
        }
        Ok(Some(false))
    }

    /// Store the read state of a book, replacing any present row.
    #[verifier::loop_isolation(false)]
    pub fn set_book_read_state(&mut self, book_id: i32, read_state: bool) -> (r: Result<(), ()>)
        requires
            old(self).wf(),
        ensures
            final(self).wf(),
            final(self).books == old(self).books,
            final(self).comments == old(self).comments,
            final(self).identifiers == old(self).identifiers,
            r == Ok::<(), ()>(()),
            read_state_of(final(self).read_states@, book_id) == read_state,
            forall|b2: i32|
                b2 != book_id ==> #[trigger] read_state_of(final(self).read_states@, b2)
                    == read_state_of(old(self).read_states@, b2),
    {
        let n = self.read_states.len();
        let mut i: usize = 0;
        while i < n
            invariant
                0 <= i <= n,
                self.read_states@ == old(self).read_states@,
                self.books == old(self).books,
                self.comments == old(self).comments,
                self.identifiers == old(self).identifiers,
                self.next_book_id == old(self).next_book_id,
                self.next_identifier_id == old(self).next_identifier_id,
                forall|j: int| 0 <= j < i ==> (#[trigger] self.read_states@[j]).book != book_id,
            decreases n - i,
        {
            if self.read_states[i].book == book_id {
                self.read_states[i] = ReadState { book: book_id, value: read_state };
                proof {
                    lemma_read_state_at(self.read_states@, book_id, i as int);
                    assert forall|b2: i32|
                        b2 != book_id implies #[trigger] read_state_of(
                        self.read_states@,
                        b2,
                    ) == read_state_of(old(self).read_states@, b2) by {
                        lemma_read_state_update(
                            old(self).read_states@,
                            i as int,
                            ReadState { book: book_id, value: read_state },
                            b2,
                        );
                    }
                }
                return Ok(());
            }
            i += 1;
        }
        proof {
            lemma_read_state_at(
                self.read_states@.push(ReadState { book: book_id, value: read_state }),
                book_id,
                n as int,
            );
            assert forall|b2: i32|
                b2 != book_id implies #[trigger] read_state_of(
                self.read_states@.push(ReadState { book: book_id, value: read_state }),
                b2,
            ) == read_state_of(old(self).read_states@, b2) by {
                lemma_read_state_push(
                    old(self).read_states@,
                    ReadState { book: book_id, value: read_state },
                    b2,
                );
            }
        }
        self.read_states.push(ReadState { book: book_id, value: read_state });
        Ok(())
    }

    /// The identifier rows of a book, in row order.
    #[verifier::loop_isolation(false)]
    pub fn list_identifiers_for_book(&self, book_id: i32) -> (r: Result<Vec<Identifier>, ()>)
        requires
            self.wf(),
        ensures
            match r {
                Ok(v) => v@ == idents_seq(self.identifiers@, book_id),
                Err(_) => false,
            },
    {
        let n = self.identifiers.len();
        let mut out: Vec<Identifier> = Vec::new();
        let mut i: usize = 0;
        while i < n
            invariant
                0 <= i <= n,
                out@ == idents_seq(self.identifiers@.take(i as int), book_id),
            decreases n - i,
        {
            proof {
                lemma_ident_step(self.identifiers@, i as int);
            }
            if self.identifiers[i].book == book_id {
                out.push(clone_identifier(&self.identifiers[i]));
            }
            i += 1;
        }
        proof {
            assert(self.identifiers@.take(n as int) =~= self.identifiers@);
        }
        Ok(out)
    }

    /// Create the identifier when `update.id` is absent, update it when
    /// present.
    pub fn upsert_book_identifier(&mut self, update: UpsertBookIdentifier) -> (r: Result<
        Identifier,
        (),
    >)
        requires
            old(self).wf(),
        ensures
            final(self).wf(),
            final(self).books == old(self).books,
            final(self).comments == old(self).comments,
            final(self).read_states == old(self).read_states,
            update.id is Some ==> upsert_update_post(
                old(self).identifiers@,
                final(self).identifiers@,
                update,
                r,
            ) && final(self).next_identifier_id == old(self).next_identifier_id,
            update.id is None ==> {
                &&& (r is Err <==> old(self).next_identifier_id == i32::MAX)
                &&& (r is Err ==> final(self).identifiers@ == old(self).identifiers@)
                &&& (r is Ok ==> {
                    let row = match r {
                        Ok(x) => x,
                        Err(_) => arbitrary(),
                    };
                    &&& row.id == old(self).next_identifier_id
                    &&& row.book == update.book_id
                    &&& row.type_@ == lowercase_of(update.label@)
                    &&& row.val == update.value
                    &&& final(self).identifiers@ == old(self).identifiers@.push(row)
                })
            },
    {
        match update.id {
            Some(update_id) => self.update_book_identifier(update, update_id),
            None => self.create_book_identifier(update),
        }
    }

    /// Update the type and value of the identifier of id `identifier_id`.
    #[verifier::loop_isolation(false)]
    fn update_book_identifier(&mut self, update: UpsertBookIdentifier, identifier_id: i32) -> (r:
        Result<Identifier, ()>)
        requires
            old(self).wf(),
            update.id == Some(identifier_id),
        ensures
            final(self).wf(),
            final(self).books == old(self).books,
            final(self).comments == old(self).comments,
            final(self).read_states == old(self).read_states,
            final(self).next_identifier_id == old(self).next_identifier_id,
            upsert_update_post(old(self).identifiers@, final(self).identifiers@, update, r),
    {
        let n = self.identifiers.len();
        let mut i: usize = 0;
        while i < n
            invariant
                0 <= i <= n,
                self.identifiers@ == old(self).identifiers@,
                self.books == old(self).books,
                self.comments == old(self).comments,
                self.read_states == old(self).read_states,
                self.next_book_id == old(self).next_book_id,
                self.next_identifier_id == old(self).next_identifier_id,
                forall|j: int| 0 <= j < i ==> (#[trigger] self.identifiers@[j]).id != identifier_id,
            decreases n - i,
        {
            if self.identifiers[i].id == identifier_id {
                let row = Identifier {
                    id: identifier_id,
                    book: self.identifiers[i].book,
                    type_: update.label,
                    val: update.value,
                };
                let out = clone_identifier(&row);
                self.identifiers[i] = row;
                return Ok(out);
            }
            i += 1;
        }
        Err(())
    }

    /// Insert an identifier row; the type is stored lowercased.
    fn create_book_identifier(&mut self, update: UpsertBookIdentifier) -> (r: Result<
        Identifier,
        (),
    >)
        requires
            old(self).wf(),
        ensures
            final(self).wf(),
            final(self).books == old(self).books,
            final(self).comments == old(self).comments,
            final(self).read_states == old(self).read_states,
            r is Err <==> old(self).next_identifier_id == i32::MAX,
            r is Err ==> final(self).identifiers@ == old(self).identifiers@
                && final(self).next_identifier_id == old(self).next_identifier_id,
            r is Ok ==> {
                let row = match r {
                    Ok(x) => x,
                    Err(_) => arbitrary(),
                };
                &&& row.id == old(self).next_identifier_id
                &&& row.book == update.book_id
                &&& row.type_@ == lowercase_of(update.label@)
                &&& row.val == update.value
                &&& final(self).identifiers@ == old(self).identifiers@.push(row)
            },
    {
        if self.next_identifier_id == i32::MAX {
            return Err(());
        }
        let lowercased_label = lowercase(update.label.as_str());
        let row = Identifier {
            id: self.next_identifier_id,
            book: update.book_id,
            type_: lowercased_label,
            val: update.value,
        };
        let out = clone_identifier(&row);
        self.identifiers.push(row);
        self.next_identifier_id = self.next_identifier_id + 1;
        Ok(out)
    }

    /// Remove the identifier of id `identifier_id` from a book; a no-op
    /// when it is absent.
    #[verifier::loop_isolation(false)]
    pub fn delete_book_identifier(&mut self, book_id: i32, identifier_id: i32) -> (r: Result<
        (),
        (),
    >)
        requires
            old(self).wf(),
        ensures
            final(self).wf(),
            final(self).books == old(self).books,
            final(self).comments == old(self).comments,
            final(self).read_states == old(self).read_states,
            final(self).next_identifier_id == old(self).next_identifier_id,
            r == Ok::<(), ()>(()),
            final(self).identifiers@ == without_ident(
                old(self).identifiers@,
                book_id,
                identifier_id,
            ),
    {
        let n = self.identifiers.len();
        let mut out: Vec<Identifier> = Vec::new();
        let mut i: usize = 0;
        while i < n
            invariant
                0 <= i <= n,
                self.identifiers@ == old(self).identifiers@,
                out@ == without_ident(self.identifiers@.take(i as int), book_id, identifier_id),
            decreases n - i,
        {
            proof {
                lemma_ident_step(self.identifiers@, i as int);
            }
            let row = &self.identifiers[i];
            if !(row.book == book_id && row.id == identifier_id) {
                out.push(clone_identifier(row));
            }
            i += 1;
        }
        proof {
            assert(self.identifiers@.take(n as int) =~= self.identifiers@);
            lemma_without_ident_ids(
                self.identifiers@,
                book_id,
                identifier_id,
                self.next_identifier_id as int,
            );
        }
        self.identifiers = out;
        Ok(())
    }

    /// The identifier row ids of a book, in row order.
    #[verifier::loop_isolation(false)]
    pub fn find_identifier_ids_by_book_id(&self, book_id: i32) -> (r: Result<Vec<i32>, ()>)
        requires
            self.wf(),
        ensures
            match r {
                Ok(v) => v@ == ident_ids_seq(self.identifiers@, book_id),
                Err(_) => false,
            },
    {
        let n = self.identifiers.len();
        let mut out: Vec<i32> = Vec::new();
        let mut i: usize = 0;
        while i < n
            invariant
                0 <= i <= n,
                out@ == ident_ids_seq(self.identifiers@.take(i as int), book_id),
            decreases n - i,
        {
            proof {
                lemma_ident_step(self.identifiers@, i as int);
            }
            if self.identifiers[i].book == book_id {
                out.push(self.identifiers[i].id);
            }
            i += 1;
        }
        proof {
            assert(self.identifiers@.take(n as int) =~= self.identifiers@);
        }
        Ok(out)
    }

    /// The book an identifier of the given type and value points at: `None`
    /// when no identifier matches, the book id when exactly one does, and an
    /// error when several do, since the identifier then no longer
    /// identifies.
    #[verifier::loop_isolation(false)]
    pub fn find_book_id_by_identifier(&self, i_type: &str, i_value: &str) -> (r: Result<
        Option<i32>,
        (),
    >)
        requires
            self.wf(),
        ensures
            ({
                let m = ident_matches(self.identifiers@, i_type@, i_value@);
                match r {
                    Ok(found) => (found is None <==> m.len() == 0) && (match found {
                        Some(b) => m.len() == 1 && b == m[0],
                        None => true,
                    }),
                    Err(_) => m.len() >= 2,
                }
            }),
    {
        let target_type = i_type.to_owned();
        let target_value = i_value.to_owned();
        let n = self.identifiers.len();
        let mut found: Vec<i32> = Vec::new();
        let mut i: usize = 0;
        while i < n
            invariant
                0 <= i <= n,
                found@ == ident_matches(self.identifiers@.take(i as int), i_type@, i_value@),
            decreases n - i,
        {
            proof {
                lemma_ident_step(self.identifiers@, i as int);
            }
            let row = &self.identifiers[i];
            if row.type_ == target_type && row.val == target_value {
                found.push(row.book);
            }
            i += 1;
        }
        proof {
            assert(self.identifiers@.take(n as int) =~= self.identifiers@);
        }
        if found.len() == 0 {
            Ok(None)
        } else if found.len() == 1 {
            Ok(Some(found[0]))
        } else {
            Err(())
        }
    }
}

/// What an identifier update leaves behind: the row of the id, when there
/// is one, carries the new type and value; everything else is untouched.
pub open spec fn upsert_update_post(
    rows0: Seq<Identifier>,
    rows1: Seq<Identifier>,
    update: UpsertBookIdentifier,
    r: Result<Identifier, ()>,
) -> bool {
    &&& (r is Err <==> !exists|i: int|
        0 <= i < rows0.len() && (#[trigger] rows0[i]).id == update.id.unwrap())
    &&& (r is Err ==> rows1 == rows0)
    &&& (r is Ok ==> exists|i: int|
        {
            &&& 0 <= i < rows0.len()
            &&& (#[trigger] rows0[i]).id == update.id.unwrap()
            &&& ({
                let row = Identifier {
                    id: update.id.unwrap(),
                    book: rows0[i].book,
                    type_: update.label,
                    val: update.value,
                };
                &&& rows1 == rows0.update(i, row)
                &&& r == Ok::<Identifier, ()>(row)
            })
        })
}

/// The step lemma for loops that walk identifier rows from the front.
proof fn lemma_ident_step(rows: Seq<Identifier>, i: int)
    requires
        0 <= i < rows.len(),
    ensures
        rows.take(i + 1) == rows.take(i).push(rows[i]),
        forall|b: i32| #[trigger]
            idents_seq(rows.take(i + 1), b) == idents_seq(rows.take(i), b) + (if rows[i].book
                == b {
                seq![rows[i]]
            } else {
                Seq::<Identifier>::empty()
            }),
        forall|b: i32| #[trigger]
            ident_ids_seq(rows.take(i + 1), b) == ident_ids_seq(rows.take(i), b) + (if rows[i].book
                == b {
                seq![rows[i].id]
            } else {
                Seq::<i32>::empty()
            }),
        forall|b: i32, id: i32| #[trigger]
            without_ident(rows.take(i + 1), b, id) == without_ident(rows.take(i), b, id) + (
            if rows[i].book == b && rows[i].id == id {
                Seq::<Identifier>::empty()
            } else {
                seq![rows[i]]
            }),
        forall|t: Seq<char>, v: Seq<char>| #[trigger]
            ident_matches(rows.take(i + 1), t, v) == ident_matches(rows.take(i), t, v) + (
            if rows[i].type_@ == t && rows[i].val@ == v {
                seq![rows[i].book]
            } else {
                Seq::<i32>::empty()
            }),
{
    assert(rows.take(i + 1) =~= rows.take(i).push(rows[i]));
    assert(rows.take(i + 1).drop_last() =~= rows.take(i));
}

/// `without_ident` keeps every id bound.
proof fn lemma_without_ident_ids(rows: Seq<Identifier>, b: i32, id: i32, n: int)
    requires
        ident_ids_below(rows, n),
    ensures
        ident_ids_below(without_ident(rows, b, id), n),
    decreases rows.len(),
{
    if rows.len() > 0 {
        assert(ident_ids_below(rows.drop_last(), n));
        lemma_without_ident_ids(rows.drop_last(), b, id, n);
        let l = rows.last();
        if l.book == b && l.id == id {
            assert(without_ident(rows, b, id) =~= without_ident(rows.drop_last(), b, id));
        } else {
            assert(without_ident(rows, b, id) =~= without_ident(rows.drop_last(), b, id).push(l));
        }
    }
}

/// Read-state lookups after an update at one row.
proof fn lemma_read_state_update(states: Seq<ReadState>, i: int, x: ReadState, b: i32)
    requires
        0 <= i < states.len(),
        states[i].book == x.book,
        b != x.book,
    ensures
        read_state_of(states.update(i, x), b) == read_state_of(states, b),
    decreases i,
{
    if i == 0 {
        assert(states.update(i, x).drop_first() =~= states.drop_first());
    } else {
        assert(states.update(i, x).drop_first() =~= states.drop_first().update(i - 1, x));
        lemma_read_state_update(states.drop_first(), i - 1, x, b);
    }
}

/// Read-state lookups after a push for another book.
proof fn lemma_read_state_push(states: Seq<ReadState>, x: ReadState, b: i32)
    requires
        b != x.book,
    ensures
        read_state_of(states.push(x), b) == read_state_of(states, b),
    decreases states.len(),
{
    if states.len() == 0 {
        assert(states.push(x)[0] == x);
        assert(states.push(x).drop_first() =~= Seq::<ReadState>::empty());
        assert(read_state_of(states.push(x), b) == read_state_of(
            states.push(x).drop_first(),
            b,
        ));
        assert(read_state_of(states.push(x).drop_first(), b) == false);
    } else {
        assert(states.push(x)[0] == states[0]);
        assert(states.push(x).drop_first() =~= states.drop_first().push(x));
        lemma_read_state_push(states.drop_first(), x, b);
        assert(read_state_of(states.push(x), b) == (if states[0].book == b {
            states[0].value
        } else {
            read_state_of(states.push(x).drop_first(), b)
        }));
    }
}

} // verus!
