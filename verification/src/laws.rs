//! Laws relating the store's operations, stated over the specification
//! functions that the operations' contracts use, and proved once and for all.

use vstd::prelude::*;

use crate::record::RecordData;
use crate::store::delete_data;
use crate::store::delete_one;
use crate::store::first_match_idx;
use crate::store::get_data;
use crate::store::has_id;
use crate::store::lemma_first_match_idx;
use crate::store::lemma_first_match_idx_at;
use crate::store::swap_remove_data;

verus! {

/// The identifiers of a batch of records, in batch order.
pub open spec fn batch_ids(batch: Seq<RecordData>) -> Seq<Seq<char>> {
    batch.map_values(|r: RecordData| r.id)
}

/// Whether no two records in the sequence share an identifier.
pub open spec fn distinct_ids(rs: Seq<RecordData>) -> bool {
    forall|a: int, b: int| 0 <= a < b < rs.len() ==> rs[a].id != rs[b].id
}

/// How many of the requested identifiers matched a record at their turn
/// during a deletion: a duplicate request beyond the available matches
/// counts for nothing.
pub open spec fn matched_count(rs: Seq<RecordData>, ids: Seq<Seq<char>>) -> int
    decreases ids.len(),
{
    if ids.len() == 0 {
        0
    } else {
        matched_count(rs, ids.drop_last()) + if has_id(
            delete_data(rs, ids.drop_last()),
            ids.last(),
        ) {
            1int
        } else {
            0int
        }
    }
}

proof fn lemma_add_get_prefix(rs: Seq<RecordData>, batch: Seq<RecordData>, k: int)
    requires
        forall|a: int, b: int| 0 <= a < b < batch.len() ==> batch[a].id != batch[b].id,
        forall|a: int| 0 <= a < batch.len() ==> !has_id(rs, #[trigger] batch[a].id),
        0 <= k <= batch.len(),
    ensures
        get_data(rs + batch, batch_ids(batch).take(k)) == batch.take(k),
    decreases k,
{
    let whole = rs + batch;
    let ids = batch_ids(batch);
    if k == 0 {
        assert(ids.take(0) =~= Seq::<Seq<char>>::empty());
        assert(batch.take(0) =~= Seq::<RecordData>::empty());
    } else {
        lemma_add_get_prefix(rs, batch, k - 1);
        assert(ids.take(k).drop_last() =~= ids.take(k - 1));
        assert(ids.take(k).last() == batch[k - 1].id);
        assert(whole[rs.len() + k - 1] == batch[k - 1]);
        assert forall|j: int| 0 <= j < rs.len() + k - 1 implies whole[j].id != batch[k - 1].id by {
            if j < rs.len() {
                assert(whole[j] == rs[j]);
                assert(rs[j].id == batch[k - 1].id ==> has_id(rs, batch[k - 1].id));
            } else {
                assert(whole[j] == batch[j - rs.len()]);
            }
        }
        lemma_first_match_idx_at(whole, batch[k - 1].id, rs.len() + k - 1);
        assert(batch.take(k) =~= batch.take(k - 1).push(batch[k - 1]));
    }
}

/// Round trip of `add` and `get`: appending a batch whose identifiers are
/// fresh (none already present) and mutually distinct, then requesting
/// exactly those identifiers, returns exactly the batch, in the order
/// requested.
pub proof fn lemma_add_get_round_trip(rs: Seq<RecordData>, batch: Seq<RecordData>)
    requires
        forall|a: int, b: int| 0 <= a < b < batch.len() ==> batch[a].id != batch[b].id,
        forall|a: int| 0 <= a < batch.len() ==> !has_id(rs, #[trigger] batch[a].id),
    ensures
        get_data(rs + batch, batch_ids(batch)) == batch,
{
    lemma_add_get_prefix(rs, batch, batch.len() as int);
    assert(batch_ids(batch).take(batch.len() as int) =~= batch_ids(batch));
    assert(batch.take(batch.len() as int) =~= batch);
}

proof fn lemma_delete_one_effects(rs: Seq<RecordData>, id: Seq<char>)
    ensures
        has_id(rs, id) ==> delete_one(rs, id).len() == rs.len() - 1,
        !has_id(rs, id) ==> delete_one(rs, id) == rs,
        forall|x: Seq<char>| #[trigger] has_id(delete_one(rs, id), x) ==> has_id(rs, x),
        distinct_ids(rs) ==> distinct_ids(delete_one(rs, id)),
        distinct_ids(rs) ==> !has_id(delete_one(rs, id), id),
{
    lemma_first_match_idx(rs, id);
    match first_match_idx(rs, id) {
        None => {
            assert forall|j: int| 0 <= j < rs.len() implies rs[j].id != id by {}
            assert(!has_id(rs, id));
        },
        Some(i) => {
            assert(has_id(rs, id));
            let after = swap_remove_data(rs, i);
            assert(after.len() == rs.len() - 1);
            assert forall|x: Seq<char>| #[trigger] has_id(after, x) implies has_id(rs, x) by {
                let j = choose|j: int| 0 <= j < after.len() && after[j].id == x;
                if j == i {
                    assert(after[j] == rs[rs.len() - 1]);
                    assert(rs[rs.len() - 1].id == x);
                } else {
                    assert(after[j] == rs[j]);
                    assert(rs[j].id == x);
                }
            }
            if distinct_ids(rs) {
                assert forall|a: int, b: int|
                    0 <= a < b < after.len() implies after[a].id != after[b].id by {
                    if a == i {
                        assert(after[a] == rs[rs.len() - 1] && after[b] == rs[b]);
                    } else if b == i {
                        assert(after[a] == rs[a] && after[b] == rs[rs.len() - 1]);
                    } else {
                        assert(after[a] == rs[a] && after[b] == rs[b]);
                    }
                }
                assert forall|j: int| 0 <= j < after.len() implies after[j].id != id by {
                    if j == i {
                        assert(after[j] == rs[rs.len() - 1]);
                        assert(i < rs.len() - 1 ==> rs[i].id != rs[rs.len() - 1].id);
                    } else {
                        assert(after[j] == rs[j]);
                    }
                }
            }
        },
    }
}

proof fn lemma_delete_data_distinct(rs: Seq<RecordData>, ids: Seq<Seq<char>>)
    requires
        distinct_ids(rs),
    ensures
        distinct_ids(delete_data(rs, ids)),
    decreases ids.len(),
{
    if ids.len() > 0 {
        lemma_delete_data_distinct(rs, ids.drop_last());
        lemma_delete_one_effects(delete_data(rs, ids.drop_last()), ids.last());
    }
}

/// Deletion removes what it matched and nothing else comes back: if the
/// store's identifiers are distinct, then after deleting a batch of
/// identifiers none of them remains, and the number of records removed is
/// the number of requested identifiers that matched at their turn.
pub proof fn lemma_delete_removes_matches(rs: Seq<RecordData>, ids: Seq<Seq<char>>)
    requires
        distinct_ids(rs),
    ensures
        forall|k: int| 0 <= k < ids.len() ==> !has_id(delete_data(rs, ids), #[trigger] ids[k]),
        delete_data(rs, ids).len() == rs.len() - matched_count(rs, ids),
    decreases ids.len(),
{
    if ids.len() > 0 {
        let prefix = ids.drop_last();
        lemma_delete_removes_matches(rs, prefix);
        lemma_delete_data_distinct(rs, prefix);
        let cur = delete_data(rs, prefix);
        lemma_delete_one_effects(cur, ids.last());
        assert forall|k: int| 0 <= k < ids.len() implies !has_id(
            delete_data(rs, ids),
            #[trigger] ids[k],
        ) by {
            if k < ids.len() - 1 {
                assert(prefix[k] == ids[k]);
                assert(!has_id(cur, ids[k]));
            }
        }
    }
}

/// Deleting an identifier that no record carries leaves the store unchanged.
pub proof fn lemma_delete_absent_unchanged(rs: Seq<RecordData>, id: Seq<char>)
    requires
        !has_id(rs, id),
    ensures
        delete_data(rs, seq![id]) == rs,
{
    let ids = seq![id];
    assert(ids.len() == 1 && ids.last() == id);
    assert(ids.drop_last() =~= Seq::<Seq<char>>::empty());
    assert(delete_data(rs, ids.drop_last()) == rs);
    assert(delete_data(rs, ids) == delete_one(rs, id));
    lemma_first_match_idx(rs, id);
    match first_match_idx(rs, id) {
        None => {},
        Some(i) => {
            assert(rs[i].id == id);
            assert(has_id(rs, id));
        },
    }
}

} // verus!
