//! The entity store: one table of deduplicated metadata rows (authors,
//! publishers, tags, languages or ratings), each identified by a
//! store-assigned id and carrying a natural key.
//!
//! The natural key is the human-meaningful value the application treats as
//! logically unique: a name or code for the text-keyed kinds, the rating
//! value for ratings. Uniqueness is enforced by lookup-before-insert, not by
//! the table itself, so the table tolerates duplicate keys.

use vstd::prelude::*;

use crate::errors::MergeError;
use crate::links::LinkTable;
use crate::links::books_seq;

verus! {

/// The natural key of an entity: a text for authors, publishers, tags and
/// languages; a number for ratings.
#[derive(Debug)]
pub enum NaturalKey {
    Text(String),
    Num(i32),
}

/// The mathematical value of a natural key.
pub enum KeyView {
    Text(Seq<char>),
    Num(int),
}

impl View for NaturalKey {
    type V = KeyView;

    open spec fn view(&self) -> KeyView {
        match self {
            NaturalKey::Text(s) => KeyView::Text(s@),
            NaturalKey::Num(n) => KeyView::Num(*n as int),
        }
    }
}

/// Whether two natural keys hold the same value.
pub fn key_eq(a: &NaturalKey, b: &NaturalKey) -> (r: bool)
    ensures
        r == (a@ == b@),
{
    match (a, b) {
        (NaturalKey::Text(x), NaturalKey::Text(y)) => *x == *y,
        (NaturalKey::Num(x), NaturalKey::Num(y)) => *x == *y,
        _ => false,
    }
}

/// A copy of a natural key holding the same value.
pub fn clone_key(k: &NaturalKey) -> (r: NaturalKey)
    ensures
        r == *k,
{
    match k {
        NaturalKey::Text(s) => NaturalKey::Text(s.clone()),
        NaturalKey::Num(n) => NaturalKey::Num(*n),
    }
}

/// A copy of an optional text holding the same value.
pub fn clone_opt_string(s: &Option<String>) -> (r: Option<String>)
    ensures
        r == *s,
{
    match s {
        Some(x) => Some(x.clone()),
        None => None,
    }
}

/// One row of an entity table.
#[derive(Debug)]
pub struct Entity {
    /// The store-assigned identifier, stable for the row's lifetime.
    pub id: i32,
    /// The natural key.
    pub key: NaturalKey,
    /// An optional sort string (authors and publishers carry one).
    pub sort: Option<String>,
    /// An optional external link (authors carry one).
    pub link: Option<String>,
}

/// A copy of a row holding the same values.
pub fn clone_entity(e: &Entity) -> (r: Entity)
    ensures
        r == *e,
{
    Entity { id: e.id, key: clone_key(&e.key), sort: clone_opt_string(&e.sort), link: clone_opt_string(&e.link) }
}

/// How many rows of `rows` carry the id `id`.
pub open spec fn id_count(rows: Seq<Entity>, id: i32) -> nat
    decreases rows.len(),
{
    if rows.len() == 0 {
        0
    } else {
        id_count(rows.drop_last(), id) + (if rows.last().id == id {
            1nat
        } else {
            0nat
        })
    }
}

/// Whether some row of `rows` carries the id `id`.
pub open spec fn contains_id(rows: Seq<Entity>, id: i32) -> bool {
    id_count(rows, id) > 0
}

/// `rows` with every row of id `id` removed.
pub open spec fn without_id(rows: Seq<Entity>, id: i32) -> Seq<Entity>
    decreases rows.len(),
{
    if rows.len() == 0 {
        Seq::empty()
    } else {
        without_id(rows.drop_last(), id) + (if rows.last().id == id {
            Seq::empty()
        } else {
            seq![rows.last()]
        })
    }
}

/// Whether some row of `rows` has a natural key of value `k`.
pub open spec fn has_key(rows: Seq<Entity>, k: KeyView) -> bool {
    exists|i: int| 0 <= i < rows.len() && (#[trigger] rows[i]).key@ == k
}

/// Row ids grow strictly along the table, so every id occurs at most once.
pub open spec fn ids_increasing(rows: Seq<Entity>) -> bool {
    forall|i: int, j: int|
        0 <= i < j < rows.len() ==> (#[trigger] rows[i]).id < (#[trigger] rows[j]).id
}

/// Every row id of `rows` lies below `n`.
pub open spec fn entity_ids_below(rows: Seq<Entity>, n: int) -> bool {
    forall|i: int| 0 <= i < rows.len() ==> (#[trigger] rows[i]).id < n
}

/// A single entity table. Rows are kept in order of creation, i.e. in
/// ascending id order.
pub struct EntityStore {
    pub rows: Vec<Entity>,
    pub next_id: i32,
}

impl View for EntityStore {
    type V = Seq<Entity>;

    open spec fn view(&self) -> Seq<Entity> {
        self.rows@
    }
}

impl EntityStore {
    /// The store invariant: ids ascend and fresh ids stay fresh.
    pub open spec fn wf(self) -> bool {
        &&& ids_increasing(self@)
        &&& entity_ids_below(self@, self.next_id as int)
        &&& self.next_id >= 1
    }

    pub fn new() -> (r: EntityStore)
        ensures
            r@ == Seq::<Entity>::empty(),
            r.wf(),
    {
        EntityStore { rows: Vec::new(), next_id: 1 }
    }

    /// Insert a row, returning the generated identifier and the full row.
    ///
    /// The key is not checked against existing rows: uniqueness is the
    /// caller's lookup-before-insert duty. `StorageError` comes exactly when
    /// the id space is exhausted, and then nothing changes.
    pub fn create(&mut self, key: NaturalKey, sort: Option<String>, link: Option<String>) -> (r:
        Result<Entity, MergeError>)
        requires
            old(self).wf(),
        ensures
            final(self).wf(),
            r is Err <==> old(self).next_id == i32::MAX,
            r is Err ==> r == Err::<Entity, MergeError>(MergeError::StorageError) && *final(self)
                == *old(self),
            r is Ok ==> final(self).next_id == old(self).next_id + 1,
            r is Ok ==> {
                let row = Entity { id: old(self).next_id, key: key, sort: sort, link: link };
                &&& final(self)@ == old(self)@.push(row)
                &&& r == Ok::<Entity, MergeError>(row)
            },
    {
        if self.next_id == i32::MAX {
            return Err(MergeError::StorageError);
        }
        let row = Entity {
            id: self.next_id,
            key: clone_key(&key),
            sort: clone_opt_string(&sort),
            link: clone_opt_string(&link),
        };
        let out = Entity { id: self.next_id, key, sort, link };
        self.rows.push(row);
        self.next_id = self.next_id + 1;
        proof {
            lemma_entity_push(old(self)@, out);
        }
        Ok(out)
    }

    /// The row of id `id`, when there is one.
    #[verifier::loop_isolation(false)]
    pub fn find_by_id(&self, id: i32) -> (r: Option<Entity>)
        ensures
            r is Some <==> contains_id(self@, id),
            match r {
                Some(e) => exists|i: int|
                    0 <= i < self@.len() && #[trigger] self@[i] == e && e.id == id,
                None => true,
            },
    {
        proof {
            lemma_contains_id_index(self@, id);
        }
        let n = self.rows.len();
        let mut i: usize = 0;
        while i < n
            invariant
                0 <= i <= n,
                forall|j: int| 0 <= j < i ==> (#[trigger] self@[j]).id != id,
            decreases n - i,
        {
            if self.rows[i].id == id {
                return Some(clone_entity(&self.rows[i]));
            }
            i += 1;
        }
        None
    }

    /// The first row whose natural key has the value of `key`, when there is
    /// one. At most one match is expected; a second matching row is a
    /// data-integrity fault and stays invisible here.
    #[verifier::loop_isolation(false)]
    pub fn find_by_natural_key(&self, key: &NaturalKey) -> (r: Option<Entity>)
        ensures
            r is Some <==> has_key(self@, key@),
            match r {
                Some(e) => exists|i: int|
                    {
                        &&& 0 <= i < self@.len()
                        &&& #[trigger] self@[i] == e
                        &&& e.key@ == key@
                        &&& forall|j: int| 0 <= j < i ==> (#[trigger] self@[j]).key@ != key@
                    },
                None => true,
            },
    {
        let n = self.rows.len();
        let mut i: usize = 0;
        while i < n
            invariant
                0 <= i <= n,
                forall|j: int| 0 <= j < i ==> (#[trigger] self@[j]).key@ != key@,
            decreases n - i,
        {
            if key_eq(&self.rows[i].key, key) {
                return Some(clone_entity(&self.rows[i]));
            }
            i += 1;
        }
        None
    }

    /// Look up by natural key and create the row only when the key is
    /// absent. The two steps are not one atomic unit: callers that race can
    /// still produce duplicate keys, which a later merge reconciles.
    pub fn create_if_missing(&mut self, key: NaturalKey, sort: Option<String>, link: Option<
        String,
    >) -> (r: Result<Entity, MergeError>)
        requires
            old(self).wf(),
        ensures
            final(self).wf(),
            has_key(old(self)@, key@) ==> *final(self) == *old(self) && r is Ok && (match r {
                Ok(e) => exists|i: int|
                    {
                        &&& 0 <= i < old(self)@.len()
                        &&& #[trigger] old(self)@[i] == e
                        &&& e.key@ == key@
                    },
                Err(_) => false,
            }),
            !has_key(old(self)@, key@) ==> {
                &&& (r is Err <==> old(self).next_id == i32::MAX)
                &&& (r is Err ==> r == Err::<Entity, MergeError>(MergeError::StorageError)
                    && *final(self) == *old(self))
                &&& (r is Ok ==> {
                    let row = Entity { id: old(self).next_id, key: key, sort: sort, link: link };
                    &&& final(self)@ == old(self)@.push(row)
                    &&& r == Ok::<Entity, MergeError>(row)
                })
            },
    {
        match self.find_by_natural_key(&key) {
            Some(e) => Ok(e),
            None => self.create(key, sort, link),
        }
    }

    /// Update only the natural key of the row of id `id`.
    /// `NotFound` comes exactly when no row has the id, and then nothing
    /// changes.
    #[verifier::loop_isolation(false)]
    pub fn rename(&mut self, id: i32, new_key: NaturalKey) -> (r: Result<Entity, MergeError>)
        requires
            old(self).wf(),
        ensures
            final(self).wf(),
            final(self).next_id == old(self).next_id,
            r is Err <==> !contains_id(old(self)@, id),
            r is Err ==> r == Err::<Entity, MergeError>(MergeError::NotFound) && final(self)@
                == old(self)@,
            forall|j: int|
                0 <= j < final(self)@.len() ==> ((#[trigger] final(self)@[j]).key == old(
                    self,
                )@[j].key || final(self)@[j].key == new_key),
            r is Ok ==> exists|i: int|
                {
                    &&& 0 <= i < old(self)@.len()
                    &&& (#[trigger] old(self)@[i]).id == id
                    &&& final(self)@ == old(self)@.update(
                        i,
                        Entity {
                            id: id,
                            key: new_key,
                            sort: old(self)@[i].sort,
                            link: old(self)@[i].link,
                        },
                    )
                    &&& r == Ok::<Entity, MergeError>(
                        Entity {
                            id: id,
                            key: new_key,
                            sort: old(self)@[i].sort,
                            link: old(self)@[i].link,
                        },
                    )
                },
    {
        proof {
            lemma_contains_id_index(self@, id);
        }
        let n = self.rows.len();
        let mut i: usize = 0;
        while i < n
            invariant
                0 <= i <= n,
                self@ == old(self)@,
                self.next_id == old(self).next_id,
                forall|j: int| 0 <= j < i ==> (#[trigger] self@[j]).id != id,
            decreases n - i,
        {
            if self.rows[i].id == id {
                let row = &self.rows[i];
                let updated = Entity {
                    id: id,
                    key: clone_key(&new_key),
                    sort: clone_opt_string(&row.sort),
                    link: clone_opt_string(&row.link),
                };
                let out = Entity {
                    id: id,
                    key: new_key,
                    sort: clone_opt_string(&row.sort),
                    link: clone_opt_string(&row.link),
                };
                self.rows[i] = updated;
                return Ok(out);
            }
            i += 1;
        }
        Err(MergeError::NotFound)
    }

    /// Update the natural key and/or the sort string of the row of id `id`,
    /// keeping each field whose update is `None`. `NotFound` comes exactly
    /// when no row has the id, and then nothing changes.
    #[verifier::loop_isolation(false)]
    pub fn update_row(&mut self, id: i32, new_key: Option<NaturalKey>, new_sort: Option<
        String,
    >) -> (r: Result<Entity, MergeError>)
        requires
            old(self).wf(),
        ensures
            final(self).wf(),
            final(self).next_id == old(self).next_id,
            r is Err <==> !contains_id(old(self)@, id),
            r is Err ==> r == Err::<Entity, MergeError>(MergeError::NotFound) && final(self)@
                == old(self)@,
            forall|j: int|
                0 <= j < final(self)@.len() ==> ((#[trigger] final(self)@[j]).key == old(
                    self,
                )@[j].key || (new_key is Some && final(self)@[j].key == new_key.unwrap())),
            r is Ok ==> exists|i: int|
                {
                    &&& 0 <= i < old(self)@.len()
                    &&& (#[trigger] old(self)@[i]).id == id
                    &&& ({
                        let row = Entity {
                            id: id,
                            key: if new_key is Some {
                                new_key.unwrap()
                            } else {
                                old(self)@[i].key
                            },
                            sort: if new_sort is Some {
                                new_sort
                            } else {
                                old(self)@[i].sort
                            },
                            link: old(self)@[i].link,
                        };
                        &&& final(self)@ == old(self)@.update(i, row)
                        &&& r == Ok::<Entity, MergeError>(row)
                    })
                },
    {
        proof {
            lemma_contains_id_index(self@, id);
        }
        let n = self.rows.len();
        let mut i: usize = 0;
        while i < n
            invariant
                0 <= i <= n,
                self@ == old(self)@,
                self.next_id == old(self).next_id,
                forall|j: int| 0 <= j < i ==> (#[trigger] self@[j]).id != id,
            decreases n - i,
        {
            if self.rows[i].id == id {
                let row = &self.rows[i];
                let k = match &new_key {
                    Some(nk) => clone_key(nk),
                    None => clone_key(&row.key),
                };
                let s = match &new_sort {
                    Some(ns) => Some(ns.clone()),
                    None => clone_opt_string(&row.sort),
                };
                let updated = Entity { id: id, key: k, sort: s, link: clone_opt_string(&row.link) };
                let out = clone_entity(&updated);
                self.rows[i] = updated;
                return Ok(out);
            }
            i += 1;
        }
        Err(MergeError::NotFound)
    }

    /// Delete the row of id `id`. `NotFound` comes exactly when no row has
    /// the id; `Conflict` exactly when link rows still reference it, since
    /// deleting then would leave dangling references. On either error
    /// nothing changes.
    #[verifier::loop_isolation(false)]
    pub fn delete(&mut self, links: &LinkTable, id: i32) -> (r: Result<(), MergeError>)
        requires
            old(self).wf(),
        ensures
            final(self).wf(),
            final(self).next_id == old(self).next_id,
            r is Err <==> (!contains_id(old(self)@, id) || books_seq(links@, id).len() > 0),
            !contains_id(old(self)@, id) ==> r == Err::<(), MergeError>(MergeError::NotFound),
            contains_id(old(self)@, id) && books_seq(links@, id).len() > 0 ==> r == Err::<(),
                MergeError,
            >(MergeError::Conflict),
            r is Err ==> *final(self) == *old(self),
            r is Ok ==> final(self)@ == without_id(old(self)@, id),
    {
        proof {
            lemma_contains_id_index(self@, id);
        }
        if !self.contains(id) {
            return Err(MergeError::NotFound);
        }
        let referencing = links.books_for_entity(id);
        if referencing.len() > 0 {
            return Err(MergeError::Conflict);
        }
        let n = self.rows.len();
        let mut out: Vec<Entity> = Vec::new();
        let mut i: usize = 0;
        while i < n
            invariant
                0 <= i <= n,
                self@ == old(self)@,
                self.next_id == old(self).next_id,
                out@ == without_id(self@.take(i as int), id),
            decreases n - i,
        {
            proof {
                lemma_entity_step(self@, i as int);
            }
            if self.rows[i].id != id {
                out.push(clone_entity(&self.rows[i]));
            } else {
                proof {
                    assert(self@.take(i as int + 1) =~= self@.take(i as int) + seq![self@[i as int]]);
                }
            }
            i += 1;
        }
        proof {
            lemma_entity_take_full(self@);
            lemma_without_id_props(self@, id);
        }
        self.rows = out;
        Ok(())
    }

    /// Whether a row of id `id` is present.
    #[verifier::loop_isolation(false)]
    pub fn contains(&self, id: i32) -> (r: bool)
        ensures
            r == contains_id(self@, id),
    {
        proof {
            lemma_contains_id_index(self@, id);
        }
        let n = self.rows.len();
        let mut i: usize = 0;
        while i < n
            invariant
                0 <= i <= n,
                forall|j: int| 0 <= j < i ==> (#[trigger] self@[j]).id != id,
            decreases n - i,
        {
            if self.rows[i].id == id {
                return true;
            }
            i += 1;
        }
        false
    }
}

/// An id with a positive count sits at some index, and conversely.
pub proof fn lemma_contains_id_index(rows: Seq<Entity>, id: i32)
    ensures
        contains_id(rows, id) <==> exists|i: int|
            0 <= i < rows.len() && (#[trigger] rows[i]).id == id,
    decreases rows.len(),
{
    if rows.len() > 0 {
        lemma_contains_id_index(rows.drop_last(), id);
        if contains_id(rows.drop_last(), id) {
            let i = choose|i: int|
                0 <= i < rows.drop_last().len() && (#[trigger] rows.drop_last()[i]).id == id;
            assert(rows[i].id == id);
        }
        if rows.last().id == id {
            assert(rows[rows.len() - 1].id == id);
        }
        if exists|i: int| 0 <= i < rows.len() && (#[trigger] rows[i]).id == id {
            let i = choose|i: int| 0 <= i < rows.len() && (#[trigger] rows[i]).id == id;
            if i < rows.len() - 1 {
                assert(rows.drop_last()[i].id == id);
            }
        }
    }
}

/// Counts and removals over `rows.push(x)` in terms of `rows`.
pub proof fn lemma_entity_push(rows: Seq<Entity>, x: Entity)
    ensures
        forall|id: i32| #[trigger]
            id_count(rows.push(x), id) == id_count(rows, id) + (if x.id == id {
                1nat
            } else {
                0nat
            }),
        forall|id: i32| #[trigger]
            without_id(rows.push(x), id) == without_id(rows, id) + (if x.id == id {
                Seq::<Entity>::empty()
            } else {
                seq![x]
            }),
{
    assert(rows.push(x).drop_last() =~= rows);
    assert(rows.push(x).last() == x);
}

/// The step lemma for loops that walk the rows from the front.
pub proof fn lemma_entity_step(rows: Seq<Entity>, i: int)
    requires
        0 <= i < rows.len(),
    ensures
        rows.take(i + 1) == rows.take(i).push(rows[i]),
        forall|id: i32| #[trigger]
            id_count(rows.take(i + 1), id) == id_count(rows.take(i), id) + (if rows[i].id == id {
                1nat
            } else {
                0nat
            }),
        forall|id: i32| #[trigger]
            without_id(rows.take(i + 1), id) == without_id(rows.take(i), id) + (if rows[i].id
                == id {
                Seq::<Entity>::empty()
            } else {
                seq![rows[i]]
            }),
{
    assert(rows.take(i + 1) =~= rows.take(i).push(rows[i]));
    lemma_entity_push(rows.take(i), rows[i]);
}

/// Taking the whole sequence changes nothing.
pub proof fn lemma_entity_take_full(rows: Seq<Entity>)
    ensures
        rows.take(rows.len() as int) == rows,
{
    assert(rows.take(rows.len() as int) =~= rows);
}

/// Removing an id keeps every other id's count, keeps ascending order, and
/// keeps every bound on ids.
pub proof fn lemma_without_id_props(rows: Seq<Entity>, id: i32)
    ensures
        forall|id2: i32| #[trigger]
            id_count(without_id(rows, id), id2) == (if id2 == id {
                0nat
            } else {
                id_count(rows, id2)
            }),
        forall|j: int|
            0 <= j < without_id(rows, id).len() ==> exists|i: int|
                0 <= i < rows.len() && rows[i] == #[trigger] without_id(rows, id)[j],
        ids_increasing(rows) ==> ids_increasing(without_id(rows, id)),
    decreases rows.len(),
{
    if rows.len() > 0 {
        assert(ids_increasing(rows) ==> ids_increasing(rows.drop_last()));
        lemma_without_id_props(rows.drop_last(), id);
        let l = rows.last();
        let w = without_id(rows.drop_last(), id);
        if l.id == id {
            assert(without_id(rows, id) =~= w);
        } else {
            assert(without_id(rows, id) =~= w.push(l));
            lemma_entity_push(w, l);
            assert forall|j: int| 0 <= j < w.push(l).len() implies exists|i: int|
                0 <= i < rows.len() && rows[i] == #[trigger] w.push(l)[j] by {
                if j < w.len() {
                    let i = choose|i: int|
                        0 <= i < rows.drop_last().len() && rows.drop_last()[i] == #[trigger] w[j];
                    assert(rows[i] == w.push(l)[j]);
                } else {
                    assert(rows[rows.len() - 1] == w.push(l)[j]);
                }
            }
            if ids_increasing(rows) {
                assert forall|p: int, q: int|
                    0 <= p < q < w.push(l).len() implies (#[trigger] w.push(l)[p]).id < (
                #[trigger] w.push(l)[q]).id by {
                    if q == w.len() {
                        let i = choose|i: int|
                            0 <= i < rows.drop_last().len() && rows.drop_last()[i] == #[trigger] w[p];
                        assert(rows[i].id < rows[rows.len() - 1].id);
                    }
                }
            }
        }
    }
}

} // verus!
