//! The mapping store: merges candidate rename pairs into a loaded artifact.
//!
//! An artifact is append-only: a candidate whose original `(name, scope)`
//! key is already present is skipped, never rewritten, so re-running the
//! same diff appends nothing.

use vstd::prelude::*;

use crate::types::{map_models, same_key, IdentModel, MapModel, Mapping};

verus! {

/// Whether some mapping's original shares the given key.
pub open spec fn key_in_maps(maps: Seq<MapModel>, key: IdentModel) -> bool {
    exists|j: int| 0 <= j < maps.len() && same_key(maps[j].original, key)
}

/// No two mappings share the same original key: the artifact invariant.
pub open spec fn keys_unique(maps: Seq<MapModel>) -> bool {
    forall|i: int, j: int|
        0 <= i < j < maps.len() ==> !same_key(maps[i].original, maps[j].original)
}

/// Append every candidate whose original key is not already present, in
/// order; keep everything that is present untouched.
pub open spec fn merge_spec(existing: Seq<MapModel>, cands: Seq<MapModel>) -> Seq<MapModel>
    decreases cands.len(),
{
    if cands.len() == 0 {
        existing
    } else if key_in_maps(existing, cands[0].original) {
        merge_spec(existing, cands.subrange(1, cands.len() as int))
    } else {
        merge_spec(existing.push(cands[0]), cands.subrange(1, cands.len() as int))
    }
}

/// Whether some mapping's original shares the key of `key`.
fn key_in_mappings(maps: &Vec<Mapping>, key: &crate::types::Identifier) -> (r: bool)
    ensures
        r == key_in_maps(map_models(maps@), key@),
{
    let ghost mm = map_models(maps@);
    let mut i: usize = 0;
    while i < maps.len()
        invariant
            0 <= i <= maps@.len(),
            mm == map_models(maps@),
            forall|k: int| 0 <= k < i ==> !same_key(mm[k].original, key@),
        decreases maps@.len() - i,
    {
        if maps[i].original.keys_match(key) {
            proof {
                assert(mm[i as int] == maps@[i as int]@);
                assert(same_key(mm[i as int].original, key@));
            }
            return true;
        }
        proof {
            assert(mm[i as int] == maps@[i as int]@);
        }
        i = i + 1;
    }
    false
}

/// Merge candidate rename pairs into a loaded artifact: each candidate whose
/// original `(name, scope)` key is new is appended; the rest are skipped.
/// Existing mappings are never modified, removed or reordered.
pub fn merge_mappings(existing: Vec<Mapping>, candidates: &Vec<Mapping>) -> (r: Vec<Mapping>)
    ensures
        map_models(r@) == merge_spec(map_models(existing@), map_models(candidates@)),
{
    let ghost e0 = map_models(existing@);
    let ghost cm = map_models(candidates@);
    let mut acc = existing;
    proof {
        assert(cm.subrange(0, cm.len() as int) =~= cm);
    }
    let mut i: usize = 0;
    while i < candidates.len()
        invariant
            0 <= i <= candidates@.len(),
            cm == map_models(candidates@),
            merge_spec(e0, cm) == merge_spec(
                map_models(acc@),
                cm.subrange(i as int, cm.len() as int),
            ),
        decreases candidates@.len() - i,
    {
        let ghost pre = map_models(acc@);
        let ghost rest = cm.subrange(i as int, cm.len() as int);
        proof {
            assert(rest[0] == cm[i as int]);
            assert(cm[i as int] == candidates@[i as int]@);
            assert(rest.subrange(1, rest.len() as int) =~= cm.subrange(i + 1, cm.len() as int));
        }
        if !key_in_mappings(&acc, &candidates[i].original) {
            let m = candidates[i].duplicate();
            acc.push(m);
            proof {
                assert(map_models(acc@) =~= pre.push(cm[i as int]));
            }
        }
        i = i + 1;
    }
    proof {
        assert(cm.subrange(cm.len() as int, cm.len() as int) =~= Seq::<MapModel>::empty());
    }
    acc
}

/// Membership of a key survives appends.
proof fn lemma_key_in_push(maps: Seq<MapModel>, m: MapModel, key: IdentModel)
    requires
        key_in_maps(maps, key),
    ensures
        key_in_maps(maps.push(m), key),
{
    let j = choose|j: int| 0 <= j < maps.len() && same_key(maps[j].original, key);
    assert(maps.push(m)[j] == maps[j]);
}

/// Membership of a key survives a whole merge.
proof fn lemma_merge_preserves_key(existing: Seq<MapModel>, cands: Seq<MapModel>, key: IdentModel)
    requires
        key_in_maps(existing, key),
    ensures
        key_in_maps(merge_spec(existing, cands), key),
    decreases cands.len(),
{
    if cands.len() == 0 {
    } else if key_in_maps(existing, cands[0].original) {
        lemma_merge_preserves_key(existing, cands.subrange(1, cands.len() as int), key);
    } else {
        lemma_key_in_push(existing, cands[0], key);
        lemma_merge_preserves_key(
            existing.push(cands[0]),
            cands.subrange(1, cands.len() as int),
            key,
        );
    }
}

/// After a merge, every candidate's original key is present.
proof fn lemma_merge_adds_keys(existing: Seq<MapModel>, cands: Seq<MapModel>)
    ensures
        forall|j: int|
            0 <= j < cands.len() ==> key_in_maps(
                merge_spec(existing, cands),
                #[trigger] cands[j].original,
            ),
    decreases cands.len(),
{
    if cands.len() == 0 {
    } else {
        let rest = cands.subrange(1, cands.len() as int);
        let e2 = if key_in_maps(existing, cands[0].original) {
            existing
        } else {
            existing.push(cands[0])
        };
        if !key_in_maps(existing, cands[0].original) {
            assert(e2.last() == cands[0]);
            assert(same_key(e2[e2.len() - 1].original, cands[0].original));
            assert(key_in_maps(e2, cands[0].original));
        }
        lemma_merge_preserves_key(e2, rest, cands[0].original);
        lemma_merge_adds_keys(e2, rest);
        assert forall|j: int| 0 <= j < cands.len() implies key_in_maps(
            merge_spec(existing, cands),
            #[trigger] cands[j].original,
        ) by {
            if j > 0 {
                assert(rest[j - 1] == cands[j]);
                assert(key_in_maps(merge_spec(e2, rest), rest[j - 1].original));
            }
        }
    }
}

/// Merging candidates whose keys are all present already changes nothing.
proof fn lemma_merge_noop(existing: Seq<MapModel>, cands: Seq<MapModel>)
    requires
        forall|j: int| 0 <= j < cands.len() ==> key_in_maps(existing, #[trigger] cands[j].original),
    ensures
        merge_spec(existing, cands) == existing,
    decreases cands.len(),
{
    if cands.len() == 0 {
    } else {
        let rest = cands.subrange(1, cands.len() as int);
        assert(key_in_maps(existing, cands[0].original));
        assert forall|j: int| 0 <= j < rest.len() implies key_in_maps(
            existing,
            #[trigger] rest[j].original,
        ) by {
            assert(rest[j] == cands[j + 1]);
        }
        lemma_merge_noop(existing, rest);
    }
}

/// Idempotence of the store: merging the same candidates a second time
/// appends nothing.
pub proof fn lemma_merge_idempotent(existing: Seq<MapModel>, cands: Seq<MapModel>)
    ensures
        merge_spec(merge_spec(existing, cands), cands) == merge_spec(existing, cands),
{
    lemma_merge_adds_keys(existing, cands);
    lemma_merge_noop(merge_spec(existing, cands), cands);
}

/// A merge leaves the existing mappings in place, in order, and only
/// appends behind them.
pub proof fn lemma_merge_appends(existing: Seq<MapModel>, cands: Seq<MapModel>)
    ensures
        merge_spec(existing, cands).len() >= existing.len(),
        forall|i: int|
            0 <= i < existing.len() ==> #[trigger] merge_spec(existing, cands)[i] == existing[i],
    decreases cands.len(),
{
    if cands.len() == 0 {
    } else {
        let rest = cands.subrange(1, cands.len() as int);
        if key_in_maps(existing, cands[0].original) {
            lemma_merge_appends(existing, rest);
        } else {
            lemma_merge_appends(existing.push(cands[0]), rest);
        }
    }
}

/// A merge keeps the artifact invariant: no two mappings share an original
/// key afterwards if none did before.
pub proof fn lemma_merge_unique(existing: Seq<MapModel>, cands: Seq<MapModel>)
    requires
        keys_unique(existing),
    ensures
        keys_unique(merge_spec(existing, cands)),
    decreases cands.len(),
{
    if cands.len() == 0 {
    } else {
        let rest = cands.subrange(1, cands.len() as int);
        if key_in_maps(existing, cands[0].original) {
            lemma_merge_unique(existing, rest);
        } else {
            let e2 = existing.push(cands[0]);
            assert forall|i: int, j: int| 0 <= i < j < e2.len() implies !same_key(
                e2[i].original,
                e2[j].original,
            ) by {
                if j == e2.len() - 1 {
                    assert(e2[j] == cands[0]);
                    assert(e2[i] == existing[i]);
                    if same_key(e2[i].original, e2[j].original) {
                        assert(same_key(existing[i].original, cands[0].original));
                        assert(key_in_maps(existing, cands[0].original));
                    }
                } else {
                    assert(e2[i] == existing[i] && e2[j] == existing[j]);
                }
            }
            lemma_merge_unique(e2, rest);
        }
    }
}

} // verus!
