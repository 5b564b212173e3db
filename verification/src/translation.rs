//! The translation service: replace an entity's natural key with its
//! canonical (translated) form.
//!
//! When no entity carries the translated key yet, this is a plain rename and
//! the entity's links are untouched. When another entity already carries the
//! key, the two denote the same real-world entity, and the one being
//! replaced is merged into the canonical one. When the entity itself already
//! carries the key, nothing is to do.

use vstd::prelude::*;

use crate::engine::merge;
use crate::engine::merge_allowed;
use crate::engine::merge_error;
use crate::engine::merge_post;
use crate::errors::MergeError;
use crate::links::LinkTable;
use crate::store::Entity;
use crate::store::EntityStore;
use crate::store::KeyView;
use crate::store::NaturalKey;
use crate::store::clone_key;
use crate::store::contains_id;
use crate::store::has_key;

verus! {

/// The index of the first row whose key has the value `k`.
pub open spec fn first_key_index(rows: Seq<Entity>, k: KeyView) -> int
    decreases rows.len(),
{
    if rows.len() == 0 {
        0
    } else if rows[0].key@ == k {
        0
    } else {
        1 + first_key_index(rows.drop_first(), k)
    }
}

/// The id of the first row whose key has the value `k`: the entity a
/// translation resolves to.
pub open spec fn translated_id(rows: Seq<Entity>, k: KeyView) -> i32 {
    rows[first_key_index(rows, k)].id
}

/// When some row carries the key, the first one does, and no earlier row
/// does.
pub proof fn lemma_first_key_index(rows: Seq<Entity>, k: KeyView)
    requires
        has_key(rows, k),
    ensures
        0 <= first_key_index(rows, k) < rows.len(),
        rows[first_key_index(rows, k)].key@ == k,
        forall|j: int| 0 <= j < first_key_index(rows, k) ==> (#[trigger] rows[j]).key@ != k,
    decreases rows.len(),
{
    if rows[0].key@ == k {
    } else {
        let rest = rows.drop_first();
        assert(has_key(rest, k)) by {
            let i = choose|i: int| 0 <= i < rows.len() && (#[trigger] rows[i]).key@ == k;
            assert(rest[i - 1].key@ == k);
        }
        lemma_first_key_index(rest, k);
        let f = first_key_index(rows, k);
        assert forall|j: int| 0 <= j < f implies (#[trigger] rows[j]).key@ != k by {
            if j > 0 {
                assert(rest[j - 1].key@ != k);
            }
        }
    }
}

/// Whether replacing the key of `entity_id` with `k` succeeds: the rename
/// path needs the entity to resolve, the merge path needs both rows to
/// resolve and to differ, and the already-canonical path always does.
pub open spec fn translation_applies(store: Seq<Entity>, entity_id: i32, k: KeyView) -> bool {
    if has_key(store, k) {
        translated_id(store, k) == entity_id || merge_allowed(store, entity_id, translated_id(
            store,
            k,
        ))
    } else {
        contains_id(store, entity_id)
    }
}

/// Replace the natural key of entity `entity_id` with `translation`.
///
/// Three cases, decided by looking the translation up:
/// - no entity carries the key: the entity is renamed, links untouched;
///   `NotFound` when `entity_id` does not resolve;
/// - the entity itself carries the key: nothing changes;
/// - another entity carries the key: the entity is merged into it, exactly
///   as `merge(entity_id, translated_id)`.
pub fn replace_with_translation(
    store: &mut EntityStore,
    links: &mut LinkTable,
    entity_id: i32,
    translation: &NaturalKey,
) -> (r: Result<(), MergeError>)
    requires
        old(store).wf(),
        old(links).wf(),
    ensures
        final(store).wf(),
        final(links).wf(),
        final(store).next_id == old(store).next_id,
        final(links).next_id == old(links).next_id,
        final(links).single_valued == old(links).single_valued,
        !has_key(old(store)@, translation@) ==> {
            &&& final(links)@ == old(links)@
            &&& (r is Ok <==> contains_id(old(store)@, entity_id))
            &&& (r is Err ==> r == Err::<(), MergeError>(MergeError::NotFound) && final(store)@
                == old(store)@)
            &&& (r is Ok ==> exists|i: int|
                {
                    &&& 0 <= i < old(store)@.len()
                    &&& (#[trigger] old(store)@[i]).id == entity_id
                    &&& final(store)@ == old(store)@.update(
                        i,
                        Entity {
                            id: entity_id,
                            key: *translation,
                            sort: old(store)@[i].sort,
                            link: old(store)@[i].link,
                        },
                    )
                })
        },
        has_key(old(store)@, translation@) && translated_id(old(store)@, translation@)
            == entity_id ==> r == Ok::<(), MergeError>(()) && final(store)@ == old(store)@
            && final(links)@ == old(links)@,
        has_key(old(store)@, translation@) && translated_id(old(store)@, translation@)
            != entity_id ==> {
            let to = translated_id(old(store)@, translation@);
            &&& (r is Ok <==> merge_allowed(old(store)@, entity_id, to))
            &&& (r is Err ==> r == Err::<(), MergeError>(merge_error(old(store)@, entity_id, to))
                && final(store)@ == old(store)@ && final(links)@ == old(links)@)
            &&& (r is Ok ==> merge_post(
                old(store)@,
                old(links)@,
                final(store)@,
                final(links)@,
                entity_id,
                to,
            ))
        },
{
    let found = store.find_by_natural_key(translation);
    match found {
        None => {
            match store.rename(entity_id, clone_key(translation)) {
                Ok(_) => Ok(()),
                Err(e) => Err(e),
            }
        },
        Some(translated) => {
            proof {
                lemma_first_key_index(store@, translation@);
                let i = choose|i: int|
                    {
                        &&& 0 <= i < store@.len()
                        &&& #[trigger] store@[i] == translated
                        &&& translated.key@ == translation@
                        &&& forall|j: int|
                            0 <= j < i ==> (#[trigger] store@[j]).key@ != translation@
                    };
                assert(i == first_key_index(store@, translation@)) by {
                    let f = first_key_index(store@, translation@);
                    if i < f {
                        assert(store@[i].key@ != translation@);
                    }
                    if f < i {
                        assert(store@[f].key@ != translation@);
                    }
                }
                assert(translated.id == translated_id(store@, translation@));
            }
            if translated.id == entity_id {
                Ok(())
            } else {
                merge(store, links, entity_id, translated.id)
            }
        },
    }
}

} // verus!
