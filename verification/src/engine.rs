//! The merge engine: given two entity ids of one kind, re-home every link
//! row from the discarded id onto the surviving id and remove the discarded
//! entity row, all as one unit.
//!
//! For each book of the discarded entity there are two cases: when the
//! surviving entity already has the book, the now-redundant link is dropped;
//! otherwise the existing link row is re-pointed at the survivor, so its
//! identity and position are preserved. In this in-memory store no step can
//! fail half-way, so the whole unit either happens or is refused up front,
//! and a refused merge leaves the state untouched.

use vstd::prelude::*;

use crate::errors::MergeError;
use crate::links::LinkTable;
use crate::links::Link;
use crate::links::books_seq;
use crate::links::has_pair;
use crate::links::pair_count;
use crate::links::no_duplicate_pairs;
use crate::links::lemma_books_seq_contains;
use crate::links::lemma_books_seq_distinct;
use crate::links::lemma_without_pair_counts;
use crate::store::Entity;
use crate::store::EntityStore;
use crate::store::contains_id;
use crate::store::id_count;
use crate::store::without_id;
use crate::store::lemma_without_id_props;

verus! {

/// A merge of `from` into `to` is allowed when both ids resolve and differ.
pub open spec fn merge_allowed(store: Seq<Entity>, from: i32, to: i32) -> bool {
    contains_id(store, from) && contains_id(store, to) && from != to
}

/// The error of a refused merge: `NotFound` when an id does not resolve,
/// else `InvalidOperation` for a merge of an id into itself.
pub open spec fn merge_error(store: Seq<Entity>, from: i32, to: i32) -> MergeError {
    if !contains_id(store, from) || !contains_id(store, to) {
        MergeError::NotFound
    } else {
        MergeError::InvalidOperation
    }
}

/// What a successful merge of `from` into `to` leaves behind, relating the
/// entity rows and link rows before (`s0`, `l0`) and after (`s1`, `l1`):
/// the `from` row is gone and every other row kept; the survivor's link set
/// is the union of the two original link sets; no link references `from`;
/// links of other entities are untouched; no duplicate pair exists.
pub open spec fn merge_post(
    s0: Seq<Entity>,
    l0: Seq<Link>,
    s1: Seq<Entity>,
    l1: Seq<Link>,
    from: i32,
    to: i32,
) -> bool {
    &&& s1 == without_id(s0, from)
    &&& !contains_id(s1, from)
    &&& forall|j: int|
        0 <= j < s1.len() ==> exists|i: int| 0 <= i < s0.len() && s0[i] == #[trigger] s1[j]
    &&& forall|id: i32| id != from ==> #[trigger] id_count(s1, id) == id_count(s0, id)
    &&& forall|b: i32|
        #[trigger] has_pair(l1, b, to) <==> has_pair(l0, b, to) || has_pair(l0, b, from)
    &&& forall|b: i32| !(#[trigger] has_pair(l1, b, from))
    &&& forall|b: i32, e: i32|
        e != from && e != to ==> #[trigger] pair_count(l1, b, e) == pair_count(l0, b, e)
    &&& no_duplicate_pairs(l1)
}

/// Merge the entity `from_id` into the entity `to_id`: re-home all links of
/// `from_id` onto `to_id` without duplicating any pair, then delete the
/// `from_id` row.
///
/// A refused merge leaves the state untouched: `NotFound` when either id
/// does not resolve, `InvalidOperation` when the ids are equal.
#[verifier::loop_isolation(false)]
pub fn merge(store: &mut EntityStore, links: &mut LinkTable, from_id: i32, to_id: i32) -> (r:
    Result<(), MergeError>)
    requires
        old(store).wf(),
        old(links).wf(),
    ensures
        final(store).wf(),
        final(links).wf(),
        final(store).next_id == old(store).next_id,
        final(links).next_id == old(links).next_id,
        final(links).single_valued == old(links).single_valued,
        r is Ok <==> merge_allowed(old(store)@, from_id, to_id),
        r is Err ==> r == Err::<(), MergeError>(merge_error(old(store)@, from_id, to_id))
            && final(store)@ == old(store)@ && final(links)@ == old(links)@,
        r is Ok ==> merge_post(
            old(store)@,
            old(links)@,
            final(store)@,
            final(links)@,
            from_id,
            to_id,
        ),
{
    let from_exists = store.contains(from_id);
    let to_exists = store.contains(to_id);
    if !from_exists || !to_exists {
        return Err(MergeError::NotFound);
    }
    if from_id == to_id {
        return Err(MergeError::InvalidOperation);
    }
    let ghost l0: Seq<Link> = links@;
    let books = links.books_for_entity(from_id);
    proof {
        lemma_books_seq_distinct(l0, from_id);
    }
    let n = books.len();
    let mut i: usize = 0;
    while i < n
        invariant
            0 <= i <= n,
            links.wf(),
            links.next_id == old(links).next_id,
            links.single_valued == old(links).single_valued,
            forall|b: i32|
                !books@.take(i as int).contains(b) ==> #[trigger] pair_count(links@, b, from_id)
                    == pair_count(l0, b, from_id),
            forall|b: i32|
                books@.take(i as int).contains(b) ==> !(#[trigger] has_pair(links@, b, from_id)),
            forall|b: i32|
                #[trigger] has_pair(links@, b, to_id) <==> has_pair(l0, b, to_id) || (books@.take(
                    i as int,
                ).contains(b) && has_pair(l0, b, from_id)),
            forall|b: i32, e: i32|
                e != from_id && e != to_id ==> #[trigger] pair_count(links@, b, e) == pair_count(
                    l0,
                    b,
                    e,
                ),
        decreases n - i,
    {
        let b = books[i];
        proof {
            assert(books@.contains(b));
            lemma_books_seq_contains(l0, from_id, b);
            assert(!books@.take(i as int).contains(b)) by {
                if books@.take(i as int).contains(b) {
                    let j = choose|j: int|
                        0 <= j < i as int && books@.take(i as int)[j] == b;
                    assert(books@[j] == books@[i as int]);
                }
            }
            assert(pair_count(l0, b, from_id) == 1);
            assert(books@.take(i as int + 1) =~= books@.take(i as int).push(b));
            assert forall|b2: i32|
                #[trigger] books@.take(i as int + 1).contains(b2) <==> (books@.take(
                    i as int,
                ).contains(b2) || b2 == b) by {
                let t1 = books@.take(i as int + 1);
                let t0 = books@.take(i as int);
                if t1.contains(b2) {
                    let j = choose|j: int| 0 <= j < t1.len() && t1[j] == b2;
                    if j < t0.len() {
                        assert(t0[j] == b2);
                        assert(t0.contains(b2));
                    }
                }
                if t0.contains(b2) {
                    let j = choose|j: int| 0 <= j < t0.len() && t0[j] == b2;
                    assert(t1[j] == b2);
                    assert(t1.contains(b2));
                }
                if b2 == b {
                    assert(t1[i as int] == b2);
                    assert(t1.contains(b2));
                }
            }
        }
        let ghost lcur: Seq<Link> = links@;
        if links.link_exists(b, to_id) {
            links.unlink(b, from_id);
            proof {
                lemma_without_pair_counts(lcur, b, from_id);
                assert forall|b2: i32|
                    books@.take(i as int + 1).contains(b2) implies !(#[trigger] has_pair(
                    links@,
                    b2,
                    from_id,
                )) by {
                    if b2 == b {
                        assert(pair_count(links@, b, from_id) == 0);
                    } else {
                        assert(books@.take(i as int).contains(b2));
                        assert(!has_pair(lcur, b2, from_id));
                        assert(pair_count(links@, b2, from_id) == pair_count(lcur, b2, from_id));
                    }
                }
                assert forall|b2: i32|
                    #[trigger] has_pair(links@, b2, to_id) <==> (has_pair(l0, b2, to_id) || (
                books@.take(i as int + 1).contains(b2) && has_pair(l0, b2, from_id))) by {
                    assert(pair_count(links@, b2, to_id) == pair_count(lcur, b2, to_id));
                    assert(has_pair(lcur, b2, to_id) <==> (has_pair(l0, b2, to_id) || (books@.take(
                        i as int,
                    ).contains(b2) && has_pair(l0, b2, from_id))));
                    if b2 == b {
                        assert(has_pair(lcur, b, to_id));
                    }
                }
            }
        } else {
            links.rehome(b, from_id, to_id);
            proof {
                assert(pair_count(lcur, b, from_id) == 1);
                assert forall|b2: i32|
                    books@.take(i as int + 1).contains(b2) implies !(#[trigger] has_pair(
                    links@,
                    b2,
                    from_id,
                )) by {
                    if b2 == b {
                        assert(pair_count(links@, b, from_id) == 0);
                    } else {
                        assert(books@.take(i as int).contains(b2));
                        assert(!has_pair(lcur, b2, from_id));
                        assert(pair_count(links@, b2, from_id) == pair_count(lcur, b2, from_id));
                    }
                }
                assert forall|b2: i32|
                    #[trigger] has_pair(links@, b2, to_id) <==> (has_pair(l0, b2, to_id) || (
                books@.take(i as int + 1).contains(b2) && has_pair(l0, b2, from_id))) by {
                    assert(has_pair(lcur, b2, to_id) <==> (has_pair(l0, b2, to_id) || (books@.take(
                        i as int,
                    ).contains(b2) && has_pair(l0, b2, from_id))));
                    if b2 == b {
                        assert(!has_pair(lcur, b, to_id));
                        assert(pair_count(lcur, b, to_id) == 0);
                        assert(pair_count(links@, b, to_id) == 1);
                    } else {
                        assert(pair_count(links@, b2, to_id) == pair_count(lcur, b2, to_id));
                    }
                }
            }
        }
        i += 1;
    }
    proof {
        assert(books@.take(n as int) =~= books@);
        assert forall|b: i32| !(#[trigger] has_pair(links@, b, from_id)) by {
            lemma_books_seq_contains(l0, from_id, b);
            if !books@.contains(b) {
                assert(pair_count(links@, b, from_id) == pair_count(l0, b, from_id));
            }
        }
        assert(books_seq(links@, from_id).len() == 0) by {
            let s = books_seq(links@, from_id);
            if s.len() > 0 {
                assert(s.contains(s[0]));
                lemma_books_seq_contains(links@, from_id, s[0]);
            }
        }
    }
    match store.delete(links, from_id) {
        Ok(()) => {}
        Err(_) => {
            proof {
                assert(false);
            }
        }
    }
    proof {
        lemma_without_id_props(old(store)@, from_id);
        assert forall|b: i32|
            #[trigger] has_pair(links@, b, to_id) <==> has_pair(l0, b, to_id) || has_pair(
                l0,
                b,
                from_id,
            ) by {
            lemma_books_seq_contains(l0, from_id, b);
        }
    }
    Ok(())
}

/// The set of books linked to entity `e`.
pub open spec fn book_set(rows: Seq<Link>, e: i32) -> Set<i32> {
    Set::new(|b: i32| has_pair(rows, b, e))
}

/// Union law: after a merge of `from` into `to` succeeds, the store has no
/// row for `from`, and the survivor's link set is exactly the union of the
/// two original link sets.
pub proof fn lemma_merge_union(
    s0: Seq<Entity>,
    l0: Seq<Link>,
    s1: Seq<Entity>,
    l1: Seq<Link>,
    from: i32,
    to: i32,
)
    requires
        merge_post(s0, l0, s1, l1, from, to),
    ensures
        !contains_id(s1, from),
        book_set(l1, to) == book_set(l0, to).union(book_set(l0, from)),
        book_set(l1, from) == Set::<i32>::empty(),
{
    assert(book_set(l1, to) =~= book_set(l0, to).union(book_set(l0, from)));
    assert(book_set(l1, from) =~= Set::<i32>::empty());
}

/// No-duplicate law: after a merge succeeds, at most one link row exists for
/// any pair of a book and a surviving entity.
pub proof fn lemma_merge_no_duplicates(
    s0: Seq<Entity>,
    l0: Seq<Link>,
    s1: Seq<Entity>,
    l1: Seq<Link>,
    from: i32,
    to: i32,
)
    requires
        merge_post(s0, l0, s1, l1, from, to),
    ensures
        forall|b: i32, e: i32| pair_count(l1, b, e) <= 1,
{
}

/// Retry law: a second merge of the same pair after a success is refused
/// with `NotFound`, never silently accepted, because the discarded id no
/// longer resolves.
pub proof fn lemma_merge_retry(
    s0: Seq<Entity>,
    l0: Seq<Link>,
    s1: Seq<Entity>,
    l1: Seq<Link>,
    from: i32,
    to: i32,
)
    requires
        merge_allowed(s0, from, to),
        merge_post(s0, l0, s1, l1, from, to),
    ensures
        !merge_allowed(s1, from, to),
        merge_error(s1, from, to) == MergeError::NotFound,
{
}

} // verus!
