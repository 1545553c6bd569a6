//! Integer ids (entities, users) as keys of ordered maps.

use vstd::prelude::*;

verus! {

/// Entity ids, as `u32` keys, are ordered as integers are, so the maps keyed by them
/// behave as their specifications say.
pub proof fn lemma_entity_keys_ordered()
    ensures
        vstd::laws_cmp::obeys_cmp::<u32>(),
{
    broadcast use vstd::laws_cmp::group_laws_cmp;

}

/// User ids, as `u16` keys, are ordered as integers are.
pub proof fn lemma_user_keys_ordered()
    ensures
        vstd::laws_cmp::obeys_cmp::<u16>(),
{
    broadcast use vstd::laws_cmp::group_laws_cmp;

}

/// Keys listed in increasing order (as a map of user ids walks them) grow strictly.
pub proof fn lemma_user_keys_increase(ks: Seq<u16>, a: int, b: int)
    requires
        vstd::std_specs::btree::increasing_seq(ks),
        0 <= a < b < ks.len(),
    ensures
        ks[a] < ks[b],
{
    lemma_user_keys_ordered();
    assert(vstd::std_specs::cmp::OrdSpec::cmp_spec(&ks[a], &ks[b]) is Less);
}

/// Entity ids listed in increasing order (as an entity-keyed map walks them) grow strictly.
pub proof fn lemma_entity_keys_increase(ks: Seq<u32>, a: int, b: int)
    requires
        vstd::std_specs::btree::increasing_seq(ks),
        0 <= a < b < ks.len(),
    ensures
        ks[a] < ks[b],
{
    lemma_entity_keys_ordered();
    assert(vstd::std_specs::cmp::OrdSpec::cmp_spec(&ks[a], &ks[b]) is Less);
}

/// `rows` gives the row of each entity of `ids`, and of nothing else: the key of each
/// row is the entity at that row.
pub open spec fn indexes(rows: Map<u32, usize>, ids: Seq<u32>) -> bool {
    &&& forall|e: u32| #[trigger] rows.contains_key(e) <==> ids.contains(e)
    &&& forall|e: u32|
        #[trigger] rows.contains_key(e) ==> rows[e] < ids.len() && ids[rows[e] as int] == e
}

/// Adding the entity of a new last row keeps the index.
pub proof fn lemma_indexes_push(rows: Map<u32, usize>, ids: Seq<u32>, e: u32)
    requires
        indexes(rows, ids),
        !ids.contains(e),
        ids.len() <= usize::MAX,
    ensures
        indexes(rows.insert(e, ids.len() as usize), ids.push(e)),
{
    let rows2 = rows.insert(e, ids.len() as usize);
    let ids2 = ids.push(e);
    assert forall|k: u32| #[trigger] rows2.contains_key(k) <==> ids2.contains(k) by {
        if k != e {
            if ids2.contains(k) {
                let w = choose|w: int| 0 <= w < ids2.len() && ids2[w] == k;
                assert(w < ids.len());
                assert(ids[w] == k);
            }
            if ids.contains(k) {
                let w = choose|w: int| 0 <= w < ids.len() && ids[w] == k;
                assert(ids2[w] == k);
            }
        } else {
            assert(ids2[ids.len() as int] == e);
        }
    }
    assert forall|k: u32| #[trigger] rows2.contains_key(k) implies rows2[k] < ids2.len()
        && ids2[rows2[k] as int] == k by {
        if k != e {
            assert(rows.contains_key(k));
        }
    }
}

} // verus!
