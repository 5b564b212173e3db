//! The link table: a many-to-many join table between books and one entity
//! kind, held as plain rows `(id, book, entity)`.
//!
//! For authors, publishers, tags and languages a book may carry many links of
//! the kind; a rating table is single-valued, i.e. inserting a rating link for
//! a book first removes any rating link the book already has.

use vstd::prelude::*;

use crate::errors::MergeError;

verus! {

/// One row of a join table: `book` is a book id, `entity` an entity id.
#[derive(Clone, Copy, Debug, PartialEq, Eq, Structural)]
pub struct Link {
    pub id: i32,
    pub book: i32,
    pub entity: i32,
}

/// How many rows of `rows` associate book `b` with entity `e`.
pub open spec fn pair_count(rows: Seq<Link>, b: i32, e: i32) -> nat
    decreases rows.len(),
{
    if rows.len() == 0 {
        0
    } else {
        pair_count(rows.drop_last(), b, e) + (if rows.last().book == b && rows.last().entity == e {
            1nat
        } else {
            0nat
        })
    }
}

/// Whether some row of `rows` associates book `b` with entity `e`.
pub open spec fn has_pair(rows: Seq<Link>, b: i32, e: i32) -> bool {
    pair_count(rows, b, e) > 0
}

/// How many rows of `rows` belong to book `b`, over all entities.
pub open spec fn book_count(rows: Seq<Link>, b: i32) -> nat
    decreases rows.len(),
{
    if rows.len() == 0 {
        0
    } else {
        book_count(rows.drop_last(), b) + (if rows.last().book == b {
            1nat
        } else {
            0nat
        })
    }
}

/// The book ids of the rows of `rows` that reference entity `e`, in row order.
pub open spec fn books_seq(rows: Seq<Link>, e: i32) -> Seq<i32>
    decreases rows.len(),
{
    if rows.len() == 0 {
        Seq::empty()
    } else {
        books_seq(rows.drop_last(), e) + (if rows.last().entity == e {
            seq![rows.last().book]
        } else {
            Seq::empty()
        })
    }
}

/// The entity ids of the rows of `rows` that belong to book `b`, in row order.
pub open spec fn entities_seq(rows: Seq<Link>, b: i32) -> Seq<i32>
    decreases rows.len(),
{
    if rows.len() == 0 {
        Seq::empty()
    } else {
        entities_seq(rows.drop_last(), b) + (if rows.last().book == b {
            seq![rows.last().entity]
        } else {
            Seq::empty()
        })
    }
}

/// `rows` with every row for the pair `(b, e)` removed.
pub open spec fn without_pair(rows: Seq<Link>, b: i32, e: i32) -> Seq<Link>
    decreases rows.len(),
{
    if rows.len() == 0 {
        Seq::empty()
    } else {
        without_pair(rows.drop_last(), b, e) + (if rows.last().book == b && rows.last().entity
            == e {
            Seq::empty()
        } else {
            seq![rows.last()]
        })
    }
}

/// `rows` with every row of book `b` removed.
pub open spec fn without_book(rows: Seq<Link>, b: i32) -> Seq<Link>
    decreases rows.len(),
{
    if rows.len() == 0 {
        Seq::empty()
    } else {
        without_book(rows.drop_last(), b) + (if rows.last().book == b {
            Seq::empty()
        } else {
            seq![rows.last()]
        })
    }
}

/// No two rows of `rows` share one `(book, entity)` pair.
pub open spec fn no_duplicate_pairs(rows: Seq<Link>) -> bool {
    forall|b: i32, e: i32| pair_count(rows, b, e) <= 1
}

/// Every book has at most one row: the shape of a single-valued (rating)
/// table.
pub open spec fn single_per_book(rows: Seq<Link>) -> bool {
    forall|b: i32| book_count(rows, b) <= 1
}

/// Every row id of `rows` lies below `n`.
pub open spec fn link_ids_below(rows: Seq<Link>, n: int) -> bool {
    forall|i: int| 0 <= i < rows.len() ==> (#[trigger] rows[i]).id < n
}

/// A many-to-many join table between books and one entity kind.
///
/// `single_valued` marks the rating table, whose `link` first drops any
/// existing row of the book.
pub struct LinkTable {
    pub rows: Vec<Link>,
    pub next_id: i32,
    pub single_valued: bool,
}

impl View for LinkTable {
    type V = Seq<Link>;

    open spec fn view(&self) -> Seq<Link> {
        self.rows@
    }
}

impl LinkTable {
    /// The table invariant: no duplicate pairs, fresh ids stay fresh, and a
    /// single-valued table has at most one row per book.
    pub open spec fn wf(self) -> bool {
        &&& no_duplicate_pairs(self@)
        &&& link_ids_below(self@, self.next_id as int)
        &&& self.single_valued ==> single_per_book(self@)
    }

    pub fn new(single_valued: bool) -> (r: LinkTable)
        ensures
            r@ == Seq::<Link>::empty(),
            r.wf(),
            r.single_valued == single_valued,
    {
        LinkTable { rows: Vec::new(), next_id: 1, single_valued }
    }

    /// Whether a row `(book_id, entity_id)` is present.
    #[verifier::loop_isolation(false)]
    pub fn link_exists(&self, book_id: i32, entity_id: i32) -> (r: bool)
        ensures
            r == has_pair(self@, book_id, entity_id),
    {
        proof {
            lemma_has_pair_index(self@, book_id, entity_id);
        }
        let n = self.rows.len();
        let mut i: usize = 0;
        while i < n
            invariant
                0 <= i <= n,
                n == self@.len(),
                forall|j: int|
                    0 <= j < i ==> !((#[trigger] self@[j]).book == book_id && self@[j].entity
                        == entity_id),
            decreases n - i,
        {
            let row = self.rows[i];
            if row.book == book_id && row.entity == entity_id {
                return true;
            }
            i += 1;
        }
        false
    }

    /// The entity ids linked to `book_id`, in row order.
    #[verifier::loop_isolation(false)]
    pub fn entities_for_book(&self, book_id: i32) -> (r: Vec<i32>)
        ensures
            r@ == entities_seq(self@, book_id),
    {
        let n = self.rows.len();
        let mut out: Vec<i32> = Vec::new();
        let mut i: usize = 0;
        while i < n
            invariant
                0 <= i <= n,
                n == self@.len(),
                out@ == entities_seq(self@.take(i as int), book_id),
            decreases n - i,
        {
            proof {
                lemma_step_counts(self@, i as int);
            }
            let row = self.rows[i];
            if row.book == book_id {
                out.push(row.entity);
            }
            i += 1;
        }
        proof {
            lemma_take_full(self@);
        }
        out
    }

    /// The book ids linked to `entity_id`, in row order.
    #[verifier::loop_isolation(false)]
    pub fn books_for_entity(&self, entity_id: i32) -> (r: Vec<i32>)
        ensures
            r@ == books_seq(self@, entity_id),
    {
        let n = self.rows.len();
        let mut out: Vec<i32> = Vec::new();
        let mut i: usize = 0;
        while i < n
            invariant
                0 <= i <= n,
                n == self@.len(),
                out@ == books_seq(self@.take(i as int), entity_id),
            decreases n - i,
        {
            proof {
                lemma_step_counts(self@, i as int);
            }
            let row = self.rows[i];
            if row.entity == entity_id {
                out.push(row.book);
            }
            i += 1;
        }
        proof {
            lemma_take_full(self@);
        }
        out
    }

    /// Insert the row `(book_id, entity_id)`.
    ///
    /// On a many-valued table the caller must have checked `exists` first, so
    /// that no duplicate pair is created. On a single-valued table any
    /// existing row of `book_id` is removed before the insert.
    /// `StorageError` comes exactly when the id space of the table is
    /// exhausted, and then nothing changes.
    pub fn link(&mut self, book_id: i32, entity_id: i32) -> (r: Result<(), MergeError>)
        requires
            old(self).wf(),
            old(self).single_valued || !has_pair(old(self)@, book_id, entity_id),
        ensures
            final(self).wf(),
            final(self).single_valued == old(self).single_valued,
            r is Err <==> old(self).next_id == i32::MAX,
            r is Err ==> r == Err::<(), MergeError>(MergeError::StorageError) && *final(self)
                == *old(self),
            r is Ok && !old(self).single_valued ==> final(self)@ == old(self)@.push(
                Link { id: old(self).next_id, book: book_id, entity: entity_id },
            ),
            r is Ok && old(self).single_valued ==> final(self)@ == without_book(
                old(self)@,
                book_id,
            ).push(Link { id: old(self).next_id, book: book_id, entity: entity_id }),
    {
        if self.next_id == i32::MAX {
            return Err(MergeError::StorageError);
        }
        if self.single_valued {
            self.remove_rows_of_book(book_id);
            proof {
                lemma_without_book_counts(old(self)@, book_id);
                lemma_without_book_ids(old(self)@, book_id, old(self).next_id as int);
            }
        }
        let row = Link { id: self.next_id, book: book_id, entity: entity_id };
        proof {
            lemma_push_counts(self@, row);
        }
        self.rows.push(row);
        self.next_id = self.next_id + 1;
        Ok(())
    }

    /// Remove every row of `book_id`, keeping the rest in order.
    #[verifier::loop_isolation(false)]
    fn remove_rows_of_book(&mut self, book_id: i32)
        ensures
            final(self)@ == without_book(old(self)@, book_id),
            final(self).next_id == old(self).next_id,
            final(self).single_valued == old(self).single_valued,
    {
        let n = self.rows.len();
        let mut out: Vec<Link> = Vec::new();
        let mut i: usize = 0;
        while i < n
            invariant
                0 <= i <= n,
                n == self@.len(),
                self@ == old(self)@,
                self.next_id == old(self).next_id,
                self.single_valued == old(self).single_valued,
                out@ == without_book(self@.take(i as int), book_id),
            decreases n - i,
        {
            proof {
                lemma_step_counts(self@, i as int);
            }
            let row = self.rows[i];
            if row.book != book_id {
                out.push(row);
            }
            i += 1;
        }
        proof {
            lemma_take_full(self@);
        }
        self.rows = out;
    }

    /// Remove the row `(book_id, entity_id)`; a no-op when it is absent.
    #[verifier::loop_isolation(false)]
    pub fn unlink(&mut self, book_id: i32, entity_id: i32)
        requires
            old(self).wf(),
        ensures
            final(self).wf(),
            final(self).single_valued == old(self).single_valued,
            final(self).next_id == old(self).next_id,
            final(self)@ == without_pair(old(self)@, book_id, entity_id),
    {
        let n = self.rows.len();
        let mut out: Vec<Link> = Vec::new();
        let mut i: usize = 0;
        while i < n
            invariant
                0 <= i <= n,
                n == self@.len(),
                self@ == old(self)@,
                self.next_id == old(self).next_id,
                self.single_valued == old(self).single_valued,
                out@ == without_pair(self@.take(i as int), book_id, entity_id),
            decreases n - i,
        {
            proof {
                lemma_step_counts(self@, i as int);
            }
            let row = self.rows[i];
            if !(row.book == book_id && row.entity == entity_id) {
                out.push(row);
            }
            i += 1;
        }
        proof {
            lemma_take_full(self@);
            lemma_without_pair_counts(self@, book_id, entity_id);
            lemma_without_pair_ids(self@, book_id, entity_id, self.next_id as int);
        }
        self.rows = out;
    }

    /// Re-point the row `(book_id, from)` at entity `to`, keeping the row's
    /// id and position: the re-homing step of a merge.
    #[verifier::loop_isolation(false)]
    pub fn rehome(&mut self, book_id: i32, from: i32, to: i32)
        requires
            old(self).wf(),
            has_pair(old(self)@, book_id, from),
            !has_pair(old(self)@, book_id, to),
            from != to,
        ensures
            final(self).wf(),
            final(self).single_valued == old(self).single_valued,
            final(self).next_id == old(self).next_id,
            exists|i: int|
                0 <= i < old(self)@.len() && (#[trigger] old(self)@[i]).book == book_id && old(
                    self,
                )@[i].entity == from && final(self)@ == old(self)@.update(
                    i,
                    Link { id: old(self)@[i].id, book: book_id, entity: to },
                ),
            forall|b2: i32, e2: i32| #[trigger]
                pair_count(final(self)@, b2, e2) == pair_count(old(self)@, b2, e2) - (if b2
                    == book_id && e2 == from {
                    1nat
                } else {
                    0nat
                }) + (if b2 == book_id && e2 == to {
                    1nat
                } else {
                    0nat
                }),
            forall|b2: i32| #[trigger] book_count(final(self)@, b2) == book_count(old(self)@, b2),
    {
        proof {
            lemma_has_pair_index(self@, book_id, from);
        }
        let n = self.rows.len();
        let mut i: usize = 0;
        while i < n
            invariant
                0 <= i <= n,
                n == self@.len(),
                self@ == old(self)@,
                self.next_id == old(self).next_id,
                self.single_valued == old(self).single_valued,
                has_pair(self@, book_id, from),
                forall|j: int|
                    0 <= j < i ==> !((#[trigger] self@[j]).book == book_id && self@[j].entity
                        == from),
            decreases n - i,
        {
            let row = self.rows[i];
            if row.book == book_id && row.entity == from {
                let updated = Link { id: row.id, book: book_id, entity: to };
                proof {
                    lemma_update_counts(self@, i as int, updated);
                    lemma_update_ids(self@, i as int, updated, self.next_id as int);
                }
                self.rows[i] = updated;
                return ;
            }
            i += 1;
        }
        proof {
            lemma_has_pair_index(self@, book_id, from);
            assert(false);
        }
    }
}

/// A pair with a positive count sits at some index, and conversely.
pub proof fn lemma_has_pair_index(rows: Seq<Link>, b: i32, e: i32)
    ensures
        has_pair(rows, b, e) <==> exists|i: int|
            0 <= i < rows.len() && (#[trigger] rows[i]).book == b && rows[i].entity == e,
    decreases rows.len(),
{
    if rows.len() > 0 {
        lemma_has_pair_index(rows.drop_last(), b, e);
        if has_pair(rows.drop_last(), b, e) {
            let i = choose|i: int|
                0 <= i < rows.drop_last().len() && (#[trigger] rows.drop_last()[i]).book == b
                    && rows.drop_last()[i].entity == e;
            assert(rows[i].book == b && rows[i].entity == e);
        }
        if rows.last().book == b && rows.last().entity == e {
            assert(rows[rows.len() - 1].book == b && rows[rows.len() - 1].entity == e);
        }
        if exists|i: int|
            0 <= i < rows.len() && (#[trigger] rows[i]).book == b && rows[i].entity == e {
            let i = choose|i: int|
                0 <= i < rows.len() && (#[trigger] rows[i]).book == b && rows[i].entity == e;
            if i < rows.len() - 1 {
                assert(rows.drop_last()[i].book == b && rows.drop_last()[i].entity == e);
            }
        }
    }
}

/// Counts and projections of `rows.push(l)` in terms of `rows`.
pub proof fn lemma_push_counts(rows: Seq<Link>, l: Link)
    ensures
        forall|b: i32, e: i32| #[trigger]
            pair_count(rows.push(l), b, e) == pair_count(rows, b, e) + (if l.book == b && l.entity
                == e {
                1nat
            } else {
                0nat
            }),
        forall|b: i32| #[trigger]
            book_count(rows.push(l), b) == book_count(rows, b) + (if l.book == b {
                1nat
            } else {
                0nat
            }),
        forall|e: i32| #[trigger]
            books_seq(rows.push(l), e) == books_seq(rows, e) + (if l.entity == e {
                seq![l.book]
            } else {
                Seq::<i32>::empty()
            }),
        forall|b: i32| #[trigger]
            entities_seq(rows.push(l), b) == entities_seq(rows, b) + (if l.book == b {
                seq![l.entity]
            } else {
                Seq::<i32>::empty()
            }),
        forall|b: i32, e: i32| #[trigger]
            without_pair(rows.push(l), b, e) == without_pair(rows, b, e) + (if l.book == b
                && l.entity == e {
                Seq::<Link>::empty()
            } else {
                seq![l]
            }),
        forall|b: i32| #[trigger]
            without_book(rows.push(l), b) == without_book(rows, b) + (if l.book == b {
                Seq::<Link>::empty()
            } else {
                seq![l]
            }),
{
    assert(rows.push(l).drop_last() =~= rows);
    assert(rows.push(l).last() == l);
}

/// The step lemma for loops that walk the rows from the front:
/// `take(i + 1)` is `take(i)` plus the row at `i`.
pub proof fn lemma_step_counts(rows: Seq<Link>, i: int)
    requires
        0 <= i < rows.len(),
    ensures
        rows.take(i + 1) == rows.take(i).push(rows[i]),
        forall|b: i32, e: i32| #[trigger]
            pair_count(rows.take(i + 1), b, e) == pair_count(rows.take(i), b, e) + (if rows[i].book
                == b && rows[i].entity == e {
                1nat
            } else {
                0nat
            }),
        forall|e: i32| #[trigger]
            books_seq(rows.take(i + 1), e) == books_seq(rows.take(i), e) + (if rows[i].entity
                == e {
                seq![rows[i].book]
            } else {
                Seq::<i32>::empty()
            }),
        forall|b: i32| #[trigger]
            entities_seq(rows.take(i + 1), b) == entities_seq(rows.take(i), b) + (if rows[i].book
                == b {
                seq![rows[i].entity]
            } else {
                Seq::<i32>::empty()
            }),
        forall|b: i32, e: i32| #[trigger]
            without_pair(rows.take(i + 1), b, e) == without_pair(rows.take(i), b, e) + (
            if rows[i].book == b && rows[i].entity == e {
                Seq::<Link>::empty()
            } else {
                seq![rows[i]]
            }),
        forall|b: i32| #[trigger]
            without_book(rows.take(i + 1), b) == without_book(rows.take(i), b) + (if rows[i].book
                == b {
                Seq::<Link>::empty()
            } else {
                seq![rows[i]]
            }),
{
    assert(rows.take(i + 1) =~= rows.take(i).push(rows[i]));
    lemma_push_counts(rows.take(i), rows[i]);
}

/// Taking the whole sequence changes nothing.
pub proof fn lemma_take_full(rows: Seq<Link>)
    ensures
        rows.take(rows.len() as int) == rows,
{
    assert(rows.take(rows.len() as int) =~= rows);
}

/// What `without_pair` does to every count.
pub proof fn lemma_without_pair_counts(rows: Seq<Link>, b: i32, e: i32)
    ensures
        forall|b2: i32, e2: i32| #[trigger]
            pair_count(without_pair(rows, b, e), b2, e2) == (if b2 == b && e2 == e {
                0nat
            } else {
                pair_count(rows, b2, e2)
            }),
        forall|b2: i32| #[trigger]
            book_count(without_pair(rows, b, e), b2) == book_count(rows, b2) - (if b2 == b {
                pair_count(rows, b, e)
            } else {
                0nat
            }),
    decreases rows.len(),
{
    if rows.len() > 0 {
        lemma_without_pair_counts(rows.drop_last(), b, e);
        let l = rows.last();
        if l.book == b && l.entity == e {
            assert(without_pair(rows, b, e) =~= without_pair(rows.drop_last(), b, e));
        } else {
            assert(without_pair(rows, b, e) =~= without_pair(rows.drop_last(), b, e).push(l));
            lemma_push_counts(without_pair(rows.drop_last(), b, e), l);
        }
    }
}

/// `without_pair` keeps every id that was below a bound below it.
pub proof fn lemma_without_pair_ids(rows: Seq<Link>, b: i32, e: i32, n: int)
    requires
        link_ids_below(rows, n),
    ensures
        link_ids_below(without_pair(rows, b, e), n),
    decreases rows.len(),
{
    if rows.len() > 0 {
        assert(link_ids_below(rows.drop_last(), n));
        lemma_without_pair_ids(rows.drop_last(), b, e, n);
        let l = rows.last();
        if !(l.book == b && l.entity == e) {
            assert(without_pair(rows, b, e) =~= without_pair(rows.drop_last(), b, e).push(l));
        } else {
            assert(without_pair(rows, b, e) =~= without_pair(rows.drop_last(), b, e));
        }
    }
}

/// What `without_book` does to every count.
pub proof fn lemma_without_book_counts(rows: Seq<Link>, b: i32)
    ensures
        forall|b2: i32, e2: i32| #[trigger]
            pair_count(without_book(rows, b), b2, e2) == (if b2 == b {
                0nat
            } else {
                pair_count(rows, b2, e2)
            }),
        forall|b2: i32| #[trigger]
            book_count(without_book(rows, b), b2) == (if b2 == b {
                0nat
            } else {
                book_count(rows, b2)
            }),
    decreases rows.len(),
{
    if rows.len() > 0 {
        lemma_without_book_counts(rows.drop_last(), b);
        let l = rows.last();
        if l.book == b {
            assert(without_book(rows, b) =~= without_book(rows.drop_last(), b));
        } else {
            assert(without_book(rows, b) =~= without_book(rows.drop_last(), b).push(l));
            lemma_push_counts(without_book(rows.drop_last(), b), l);
        }
    }
}

/// `without_book` keeps every id that was below a bound below it.
pub proof fn lemma_without_book_ids(rows: Seq<Link>, b: i32, n: int)
    requires
        link_ids_below(rows, n),
    ensures
        link_ids_below(without_book(rows, b), n),
    decreases rows.len(),
{
    if rows.len() > 0 {
        assert(link_ids_below(rows.drop_last(), n));
        lemma_without_book_ids(rows.drop_last(), b, n);
        let l = rows.last();
        if l.book == b {
            assert(without_book(rows, b) =~= without_book(rows.drop_last(), b));
        } else {
            assert(without_book(rows, b) =~= without_book(rows.drop_last(), b).push(l));
        }
    }
}

proof fn lemma_update_pair_count(rows: Seq<Link>, i: int, l: Link, b: i32, e: i32)
    requires
        0 <= i < rows.len(),
    ensures
        pair_count(rows.update(i, l), b, e) == pair_count(rows, b, e) - (if rows[i].book == b
            && rows[i].entity == e {
            1nat
        } else {
            0nat
        }) + (if l.book == b && l.entity == e {
            1nat
        } else {
            0nat
        }),
    decreases rows.len(),
{
    if i == rows.len() - 1 {
        assert(rows.update(i, l).drop_last() =~= rows.drop_last());
        assert(rows.update(i, l).last() == l);
    } else {
        lemma_update_pair_count(rows.drop_last(), i, l, b, e);
        assert(rows.drop_last()[i] == rows[i]);
        assert(rows.update(i, l).drop_last() =~= rows.drop_last().update(i, l));
        assert(rows.update(i, l).last() == rows.last());
    }
}

proof fn lemma_update_book_count(rows: Seq<Link>, i: int, l: Link, b: i32)
    requires
        0 <= i < rows.len(),
    ensures
        book_count(rows.update(i, l), b) == book_count(rows, b) - (if rows[i].book == b {
            1nat
        } else {
            0nat
        }) + (if l.book == b {
            1nat
        } else {
            0nat
        }),
    decreases rows.len(),
{
    if i == rows.len() - 1 {
        assert(rows.update(i, l).drop_last() =~= rows.drop_last());
        assert(rows.update(i, l).last() == l);
    } else {
        lemma_update_book_count(rows.drop_last(), i, l, b);
        assert(rows.drop_last()[i] == rows[i]);
        assert(rows.update(i, l).drop_last() =~= rows.drop_last().update(i, l));
        assert(rows.update(i, l).last() == rows.last());
    }
}

/// What updating one row does to every count.
pub proof fn lemma_update_counts(rows: Seq<Link>, i: int, l: Link)
    requires
        0 <= i < rows.len(),
    ensures
        forall|b: i32, e: i32| #[trigger]
            pair_count(rows.update(i, l), b, e) == pair_count(rows, b, e) - (if rows[i].book == b
                && rows[i].entity == e {
                1nat
            } else {
                0nat
            }) + (if l.book == b && l.entity == e {
                1nat
            } else {
                0nat
            }),
        forall|b: i32| #[trigger]
            book_count(rows.update(i, l), b) == book_count(rows, b) - (if rows[i].book == b {
                1nat
            } else {
                0nat
            }) + (if l.book == b {
                1nat
            } else {
                0nat
            }),
{
    assert forall|b: i32, e: i32| #[trigger]
        pair_count(rows.update(i, l), b, e) == pair_count(rows, b, e) - (if rows[i].book == b
            && rows[i].entity == e {
            1nat
        } else {
            0nat
        }) + (if l.book == b && l.entity == e {
            1nat
        } else {
            0nat
        }) by {
        lemma_update_pair_count(rows, i, l, b, e);
    }
    assert forall|b: i32| #[trigger]
        book_count(rows.update(i, l), b) == book_count(rows, b) - (if rows[i].book == b {
            1nat
        } else {
            0nat
        }) + (if l.book == b {
            1nat
        } else {
            0nat
        }) by {
        lemma_update_book_count(rows, i, l, b);
    }
}

/// Updating with a row whose id is below the bound keeps the bound.
pub proof fn lemma_update_ids(rows: Seq<Link>, i: int, l: Link, n: int)
    requires
        0 <= i < rows.len(),
        link_ids_below(rows, n),
        l.id < n,
    ensures
        link_ids_below(rows.update(i, l), n),
{
}

/// A book stands in `books_seq(rows, e)` exactly when its pair with `e` is
/// present.
pub proof fn lemma_books_seq_contains(rows: Seq<Link>, e: i32, b: i32)
    ensures
        books_seq(rows, e).contains(b) <==> has_pair(rows, b, e),
    decreases rows.len(),
{
    if rows.len() > 0 {
        lemma_books_seq_contains(rows.drop_last(), e, b);
        let pre = books_seq(rows.drop_last(), e);
        let all = books_seq(rows, e);
        if rows.last().entity == e {
            assert(all =~= pre.push(rows.last().book));
            if pre.contains(b) {
                let j = choose|j: int| 0 <= j < pre.len() && pre[j] == b;
                assert(all[j] == b);
                assert(all.contains(b));
            }
            if b == rows.last().book {
                assert(all[all.len() - 1] == b);
                assert(all.contains(b));
            }
            if all.contains(b) {
                let j = choose|j: int| 0 <= j < all.len() && all[j] == b;
                if j < pre.len() {
                    assert(pre[j] == b);
                    assert(pre.contains(b));
                }
            }
        } else {
            assert(all =~= pre);
        }
    }
}

/// Under the no-duplicate invariant no book is listed twice for one entity.
pub proof fn lemma_books_seq_distinct(rows: Seq<Link>, e: i32)
    requires
        no_duplicate_pairs(rows),
    ensures
        forall|p: int, q: int|
            0 <= p < q < books_seq(rows, e).len() ==> books_seq(rows, e)[p] != books_seq(
                rows,
                e,
            )[q],
    decreases rows.len(),
{
    if rows.len() > 0 {
        assert forall|b2: i32, e2: i32| pair_count(rows.drop_last(), b2, e2) <= 1 by {
            assert(pair_count(rows, b2, e2) <= 1);
        }
        lemma_books_seq_distinct(rows.drop_last(), e);
        let pre = books_seq(rows.drop_last(), e);
        let all = books_seq(rows, e);
        if rows.last().entity == e {
            assert(all =~= pre.push(rows.last().book));
            lemma_books_seq_contains(rows.drop_last(), e, rows.last().book);
            assert(!pre.contains(rows.last().book)) by {
                if pre.contains(rows.last().book) {
                    assert(pair_count(rows, rows.last().book, e) >= 2);
                }
            }
            assert forall|p: int, q: int| 0 <= p < q < all.len() implies all[p] != all[q] by {
                if q == all.len() - 1 {
                    assert(pre[p] == all[p]);
                    assert(pre.contains(pre[p]));
                } else {
                    assert(pre[p] == all[p] && pre[q] == all[q]);
                }
            }
        } else {
            assert(all =~= pre);
        }
    }
}

} // verus!
