//! The owning collection of records: batch insertion, first-match lookup,
//! swap-removal, identifier listing, and ranked similarity search.
//!
//! The store keeps its records in a sequence. `add` appends, `get` returns
//! clones of first matches, `delete` swap-removes first matches (so order is
//! not preserved across deletes), and `query` ranks caller-computed scores,
//! aborting on the first record whose scoring fails.

use vstd::prelude::*;
use vstd::math::min;
use vstd::seq_lib::to_multiset_insert;
use vstd::seq_lib::to_multiset_remove;

use crate::error::VectorStoreError;
use crate::record::Record;
use crate::record::RecordData;
use crate::score::Similarity;
use crate::score::score_at_least;
use crate::score::score_le;

verus! {

/// The ceiling on `top_k`: a query may not ask for more results than this.
pub const MAX_TOP_K: usize = 10000;

/// The abstraction of a sequence of records.
pub open spec fn records_data(rs: Seq<Record>) -> Seq<RecordData> {
    rs.map_values(|r: Record| r@)
}

/// The abstraction of a sequence of identifiers.
pub open spec fn ids_data(ids: Seq<String>) -> Seq<Seq<char>> {
    ids.map_values(|s: String| s@)
}

/// Whether some record in `rs` carries the identifier `id`.
pub open spec fn has_id(rs: Seq<RecordData>, id: Seq<char>) -> bool {
    exists|j: int| 0 <= j < rs.len() && rs[j].id == id
}

/// The position of the first record in `rs` whose identifier is `id`, if any.
pub open spec fn first_match_idx(rs: Seq<RecordData>, id: Seq<char>) -> Option<int>
    decreases rs.len(),
{
    if rs.len() == 0 {
        None
    } else if rs[0].id == id {
        Some(0int)
    } else {
        match first_match_idx(rs.drop_first(), id) {
            None => None,
            Some(i) => Some(i + 1),
        }
    }
}

/// `first_match_idx` finds exactly the first match: `Some(i)` means `i` is a
/// match and nothing before it is; `None` means nothing matches.
pub proof fn lemma_first_match_idx(rs: Seq<RecordData>, id: Seq<char>)
    ensures
        match first_match_idx(rs, id) {
            None => forall|j: int| 0 <= j < rs.len() ==> rs[j].id != id,
            Some(i) => 0 <= i < rs.len() && rs[i].id == id && forall|j: int|
                0 <= j < i ==> rs[j].id != id,
        },
    decreases rs.len(),
{
    if rs.len() > 0 && rs[0].id != id {
        let tail = rs.drop_first();
        lemma_first_match_idx(tail, id);
        match first_match_idx(tail, id) {
            None => {
                assert forall|j: int| 0 <= j < rs.len() implies rs[j].id != id by {
                    if j > 0 {
                        assert(tail[j - 1] == rs[j]);
                    }
                }
            },
            Some(i) => {
                assert(tail[i] == rs[i + 1]);
                assert forall|j: int| 0 <= j < i + 1 implies rs[j].id != id by {
                    if j > 0 {
                        assert(tail[j - 1] == rs[j]);
                    }
                }
            },
        }
    }
}

/// The first match is at `i` exactly when `i` matches and nothing before it
/// does.
pub proof fn lemma_first_match_idx_at(rs: Seq<RecordData>, id: Seq<char>, i: int)
    requires
        0 <= i < rs.len(),
        rs[i].id == id,
        forall|j: int| 0 <= j < i ==> rs[j].id != id,
    ensures
        first_match_idx(rs, id) == Some(i),
{
    lemma_first_match_idx(rs, id);
    match first_match_idx(rs, id) {
        None => {
            assert(rs[i].id != id);
        },
        Some(k) => {
            if k < i {
                assert(rs[k].id != id);
            } else if k > i {
                assert(rs[i].id != id);
            }
        },
    }
}

/// What `get` returns for a batch of requested identifiers: for each one in
/// order, the first matching record, with misses silently omitted.
pub open spec fn get_data(rs: Seq<RecordData>, ids: Seq<Seq<char>>) -> Seq<RecordData>
    decreases ids.len(),
{
    if ids.len() == 0 {
        Seq::empty()
    } else {
        let front = get_data(rs, ids.drop_last());
        match first_match_idx(rs, ids.last()) {
            None => front,
            Some(i) => front.push(rs[i]),
        }
    }
}

/// A swap-removal: the last element moves into the removed slot and the
/// sequence shrinks by one.
pub open spec fn swap_remove_data(rs: Seq<RecordData>, i: int) -> Seq<RecordData> {
    rs.update(i, rs.last()).drop_last()
}

/// One deletion step: swap-remove the first record matching `id`, or leave
/// the sequence unchanged if nothing matches.
pub open spec fn delete_one(rs: Seq<RecordData>, id: Seq<char>) -> Seq<RecordData> {
    match first_match_idx(rs, id) {
        None => rs,
        Some(i) => swap_remove_data(rs, i),
    }
}

/// What `delete` leaves behind: the deletion steps for the requested
/// identifiers, applied in order.
pub open spec fn delete_data(rs: Seq<RecordData>, ids: Seq<Seq<char>>) -> Seq<RecordData>
    decreases ids.len(),
{
    if ids.len() == 0 {
        rs
    } else {
        delete_one(delete_data(rs, ids.drop_last()), ids.last())
    }
}

/// The score carried by a kernel report, meaningful only for
/// [`Similarity::Value`]; a placeholder otherwise.
pub open spec fn sim_bits(s: Similarity) -> u32 {
    match s {
        Similarity::Value(b) => b,
        Similarity::ZeroMagnitude => 0u32,
    }
}

/// Why scoring one record fails, if it does: an empty operand vector first,
/// then a dimension mismatch, then a zero magnitude reported by the kernel.
pub open spec fn record_failure(
    query_len: int,
    r: RecordData,
    s: Similarity,
) -> Option<VectorStoreError> {
    if query_len == 0 || r.values.len() == 0 {
        Some(VectorStoreError::EmptyVector)
    } else if r.values.len() != query_len {
        Some(VectorStoreError::UnequalVectorLengths)
    } else if s is ZeroMagnitude {
        Some(VectorStoreError::ZeroMagnitude)
    } else {
        None
    }
}

/// Whether every record can be scored against a query vector of the given
/// dimension, with the given kernel reports.
pub open spec fn all_scored(query_len: int, rs: Seq<RecordData>, ss: Seq<Similarity>) -> bool {
    forall|i: int| 0 <= i < rs.len() ==> record_failure(query_len, rs[i], ss[i]) is None
}

/// The records paired with their scores, in store order, before ranking.
pub open spec fn scored_pairs(rs: Seq<RecordData>, ss: Seq<Similarity>) -> Seq<(RecordData, u32)> {
    Seq::new(rs.len(), |i: int| (rs[i], sim_bits(ss[i])))
}

/// The abstraction of a sequence of record/score pairs.
pub open spec fn pairs_data(ps: Seq<(Record, u32)>) -> Seq<(RecordData, u32)> {
    ps.map_values(|p: (Record, u32)| (p.0@, p.1))
}

/// Whether the pairs are sorted by non-increasing score.
pub open spec fn sorted_descending(s: Seq<(RecordData, u32)>) -> bool {
    forall|i: int, j: int| 0 <= i <= j < s.len() ==> score_le(s[j].1, s[i].1)
}

/// The position at which a pair scoring `bits` can be inserted into `out`
/// without disturbing its non-increasing score order: the end of the run of
/// entries scoring at least `bits`.
fn find_insert_pos(out: &Vec<(Record, u32)>, bits: u32) -> (pos: usize)
    requires
        sorted_descending(pairs_data(out@)),
    ensures
        pos <= out@.len(),
        forall|j: int| 0 <= j < pos ==> score_le(bits, #[trigger] pairs_data(out@)[j].1),
        forall|j: int| pos <= j < out@.len() ==> score_le(#[trigger] pairs_data(out@)[j].1, bits),
{
    let ghost pd = pairs_data(out@);
    let mut pos: usize = 0;
    while pos < out.len() && score_at_least(out[pos].1, bits)
        invariant
            pos <= out@.len(),
            sorted_descending(pd),
            pd == pairs_data(out@),
            forall|j: int| 0 <= j < pos ==> score_le(bits, #[trigger] pd[j].1),
        decreases out@.len() - pos,
    {
        proof {
            assert(pd[pos as int].1 == out@[pos as int].1);
        }
        pos = pos + 1;
    }
    proof {
        if pos < out@.len() {
            assert(pd[pos as int].1 == out@[pos as int].1);
            assert forall|j: int| pos <= j < pd.len() implies score_le(pd[j].1, bits) by {
                assert(score_le(pd[j].1, pd[pos as int].1));
            }
        }
    }
    pos
}

/// Reorders the pairs by non-increasing score: the result holds exactly the
/// given pairs, ranked. Entries with equal scores keep no particular order.
fn sort_pairs(pairs: Vec<(Record, u32)>) -> (out: Vec<(Record, u32)>)
    ensures
        pairs_data(out@).to_multiset() == pairs_data(pairs@).to_multiset(),
        sorted_descending(pairs_data(out@)),
{
    let ghost whole = pairs_data(pairs@);
    let mut rest = pairs;
    let mut out: Vec<(Record, u32)> = Vec::new();
    proof {
        broadcast use vstd::seq_lib::group_to_multiset_ensures;
        broadcast use vstd::multiset::group_multiset_axioms;

        assert(pairs_data(out@) =~= Seq::<(RecordData, u32)>::empty());
        assert(pairs_data(out@).to_multiset().add(pairs_data(rest@).to_multiset())
            =~= whole.to_multiset());
    }
    while rest.len() > 0
        invariant
            pairs_data(out@).to_multiset().add(pairs_data(rest@).to_multiset())
                == whole.to_multiset(),
            sorted_descending(pairs_data(out@)),
        decreases rest.len(),
    {
        let ghost rest_before = pairs_data(rest@);
        let ghost out_before = pairs_data(out@);
        let p = rest.pop().unwrap();
        proof {
            broadcast use vstd::seq_lib::group_to_multiset_ensures;

            assert(pairs_data(rest@) =~= rest_before.drop_last());
            assert(rest_before.drop_last() =~= rest_before.remove(rest_before.len() - 1));
            to_multiset_remove(rest_before, rest_before.len() - 1);
            assert(rest_before.last() == (p.0@, p.1));
        }
        let pos: usize = find_insert_pos(&out, p.1);
        let ghost x = (p.0@, p.1);
        out.insert(pos, p);
        proof {
            broadcast use vstd::seq_lib::group_to_multiset_ensures;

            assert(pairs_data(out@) =~= out_before.insert(pos as int, x));
            to_multiset_insert(out_before, pos as int, x);
            assert(pairs_data(out@).to_multiset().add(pairs_data(rest@).to_multiset())
                =~= whole.to_multiset()) by {
                assert(rest_before.to_multiset().count(x) > 0);
            }
            let pdn = pairs_data(out@);
            assert forall|a: int, b: int| 0 <= a <= b < pdn.len() implies score_le(
                pdn[b].1,
                pdn[a].1,
            ) by {
                if b < pos {
                    assert(pdn[a] == out_before[a] && pdn[b] == out_before[b]);
                } else if a > pos {
                    assert(pdn[a] == out_before[a - 1] && pdn[b] == out_before[b - 1]);
                } else if a == pos && b == pos {
                } else if a < pos && b == pos {
                    assert(pdn[a] == out_before[a]);
                    assert(score_le(x.1, out_before[a].1));
                } else if a == pos && b > pos {
                    assert(pdn[b] == out_before[b - 1]);
                    assert(score_le(out_before[b - 1].1, x.1));
                } else {
                    assert(pdn[a] == out_before[a] && pdn[b] == out_before[b - 1]);
                    assert(score_le(x.1, out_before[a].1));
                    assert(score_le(out_before[b - 1].1, x.1));
                }
            }
        }
    }
    proof {
        broadcast use vstd::seq_lib::group_to_multiset_ensures;

        assert(pairs_data(rest@) =~= Seq::<(RecordData, u32)>::empty());
        assert(pairs_data(out@).to_multiset().add(Seq::<(RecordData, u32)>::empty().to_multiset())
            =~= pairs_data(out@).to_multiset());
    }
    out
}

/// An owning, ordered collection of records. The order is insertion order
/// until a `delete` disturbs it by swap-removal.
pub struct VectorStore {
    records: Vec<Record>,
}

impl View for VectorStore {
    type V = Seq<RecordData>;

    closed spec fn view(&self) -> Seq<RecordData> {
        records_data(self.records@)
    }
}

impl VectorStore {
    /// A store holding exactly the given records, in the given order. No
    /// deduplication, no validation.
    pub fn new(records: Vec<Record>) -> (s: VectorStore)
        ensures
            s@ == records_data(records@),
    {
        VectorStore { records }
    }

    /// The records currently held, in internal order.
    pub fn records(&self) -> (r: &Vec<Record>)
        ensures
            records_data(r@) == self@,
    {
        &self.records
    }

    /// Appends clones of the given records, preserving their relative order.
    /// Cannot fail.
    pub fn add(&mut self, records: &Vec<Record>)
        ensures
            final(self)@ == old(self)@ + records_data(records@),
    {
        let ghost initial = self@;
        let mut i: usize = 0;
        while i < records.len()
            invariant
                i <= records.len(),
                self@ == initial + records_data(records@.take(i as int)),
            decreases records.len() - i,
        {
            let rec = records[i].clone();
            let ghost before = self.records@;
            proof {
                assert(rec@ == records@[i as int]@);
            }
            self.records.push(rec);
            proof {
                before.lemma_push_map_commute(|r: Record| r@, rec);
                records@.lemma_map_take_succ(|r: Record| r@, i as int);
                assert(records_data(before.push(rec)) =~= initial + records_data(
                    records@.take(i + 1),
                ));
            }
            i = i + 1;
        }
        proof {
            assert(records@.take(records@.len() as int) =~= records@);
        }
    }

    /// The position of the first record whose identifier equals `id`, by
    /// linear scan.
    fn find_first(&self, id: &String) -> (r: Option<usize>)
        ensures
            match r {
                Some(i) => first_match_idx(self@, id@) == Some(i as int),
                None => first_match_idx(self@, id@) is None,
            },
    {
        let mut i: usize = 0;
        while i < self.records.len()
            invariant
                i <= self.records.len(),
                forall|j: int| 0 <= j < i ==> (#[trigger] self@[j]).id != id@,
            decreases self.records.len() - i,
        {
            proof {
                assert(self@[i as int] == self.records@[i as int]@);
            }
            if self.records[i].id_matches(id) {
                proof {
                    lemma_first_match_idx_at(self@, id@, i as int);
                }
                return Some(i);
            }
            i = i + 1;
        }
        proof {
            lemma_first_match_idx(self@, id@);
            match first_match_idx(self@, id@) {
                None => {},
                Some(k) => {
                    assert(self@[k].id != id@);
                },
            }
        }
        None
    }

    /// For each requested identifier, in the order requested, a clone of the
    /// first matching record; identifiers with no match are silently omitted,
    /// so the result may be shorter than the request. Does not mutate the
    /// store and cannot fail.
    pub fn get(&self, ids: &Vec<String>) -> (result: Vec<Record>)
        ensures
            records_data(result@) == get_data(self@, ids_data(ids@)),
    {
        let mut result: Vec<Record> = Vec::new();
        let mut k: usize = 0;
        while k < ids.len()
            invariant
                k <= ids.len(),
                records_data(result@) == get_data(self@, ids_data(ids@).take(k as int)),
            decreases ids.len() - k,
        {
            let ghost requested = ids_data(ids@);
            proof {
                assert(requested.take(k + 1).drop_last() =~= requested.take(k as int));
                assert(requested.take(k + 1).last() == ids@[k as int]@);
            }
            match self.find_first(&ids[k]) {
                None => {},
                Some(i) => {
                    proof {
                        lemma_first_match_idx(self@, ids@[k as int]@);
                        assert(self@[i as int] == self.records@[i as int]@);
                    }
                    let ghost before = result@;
                    let rec = self.records[i].clone();
                    result.push(rec);
                    proof {
                        before.lemma_push_map_commute(|r: Record| r@, rec);
                    }
                },
            }
            k = k + 1;
        }
        proof {
            assert(ids_data(ids@).take(ids@.len() as int) =~= ids_data(ids@));
        }
        result
    }

    /// For each given identifier, swap-removes the first matching record, so
    /// store order is not preserved across deletions; at most one record is
    /// removed per given identifier, and identifiers with no match are
    /// no-ops. Cannot fail.
    pub fn delete(&mut self, ids: &Vec<String>)
        ensures
            final(self)@ == delete_data(old(self)@, ids_data(ids@)),
    {
        let ghost initial = self@;
        let mut k: usize = 0;
        while k < ids.len()
            invariant
                k <= ids.len(),
                self@ == delete_data(initial, ids_data(ids@).take(k as int)),
            decreases ids.len() - k,
        {
            let ghost requested = ids_data(ids@);
            proof {
                assert(requested.take(k + 1).drop_last() =~= requested.take(k as int));
                assert(requested.take(k + 1).last() == ids@[k as int]@);
            }
            match self.find_first(&ids[k]) {
                None => {},
                Some(i) => {
                    proof {
                        lemma_first_match_idx(self@, ids@[k as int]@);
                    }
                    let ghost before = self.records@;
                    self.records.swap_remove(i);
                    proof {
                        assert(records_data(
                            before.update(i as int, before.last()).drop_last(),
                        ) =~= swap_remove_data(records_data(before), i as int));
                    }
                },
            }
            k = k + 1;
        }
        proof {
            assert(ids_data(ids@).take(ids@.len() as int) =~= ids_data(ids@));
        }
    }

    /// The similarity search. The caller supplies the dimension of its query
    /// vector and, for each record in store order, the numeric kernel's
    /// report for that record (consulted only where the dimensions admit a
    /// comparison). The result holds clones of the records paired with their
    /// scores, ranked by non-increasing score and truncated to the first
    /// `top_k` entries.
    ///
    /// Failures, in the order they are checked: a `top_k` over
    /// [`MAX_TOP_K`] fails with [`VectorStoreError::TopKTooLarge`] before any
    /// scan work; then the scan aborts at the first record that cannot be
    /// scored, wrapping the cause and that record's identifier in
    /// [`VectorStoreError::SimilarityCalculationError`], and no partial
    /// result is returned.
    pub fn query(&self, query_len: usize, scores: &Vec<Similarity>, top_k: usize) -> (res: Result<
        Vec<(Record, u32)>,
        VectorStoreError,
    >)
        requires
            scores@.len() == self@.len(),
        ensures
            res matches Err(VectorStoreError::TopKTooLarge) <==> top_k > MAX_TOP_K,
            res is Ok <==> (top_k <= MAX_TOP_K && all_scored(query_len as int, self@, scores@)),
            (top_k <= MAX_TOP_K && !all_scored(query_len as int, self@, scores@)) ==> (res matches Err(
                VectorStoreError::SimilarityCalculationError(id, cause),
            ) && exists|i: int|
                0 <= i < self@.len() && #[trigger] record_failure(
                    query_len as int,
                    self@[i],
                    scores@[i],
                ) == Some(*cause) && id@ == self@[i].id && forall|j: int|
                    0 <= j < i ==> record_failure(query_len as int, self@[j], scores@[j]) is None),
            res matches Ok(out) ==> {
                &&& out@.len() == min(top_k as int, self@.len() as int)
                &&& sorted_descending(pairs_data(out@))
                &&& exists|ranked: Seq<(RecordData, u32)>|
                    ranked.to_multiset() == scored_pairs(self@, scores@).to_multiset()
                        && sorted_descending(ranked) && pairs_data(out@) == ranked.take(
                        min(top_k as int, self@.len() as int),
                    )
            },
            self@.len() == 0 && top_k <= MAX_TOP_K ==> (res matches Ok(out) && out@.len() == 0),
    {
        if top_k > MAX_TOP_K {
            return Err(VectorStoreError::TopKTooLarge);
        }
        let ghost rs = self@;
        let ghost ss = scores@;
        let mut pairs: Vec<(Record, u32)> = Vec::new();
        let mut i: usize = 0;
        proof {
            assert(pairs_data(pairs@) =~= scored_pairs(rs, ss).take(0));
        }
        while i < self.records.len()
            invariant
                top_k <= MAX_TOP_K,
                ss.len() == rs.len(),
                rs == self@,
                ss == scores@,
                i <= self.records.len(),
                self.records@.len() == rs.len(),
                pairs_data(pairs@) == scored_pairs(rs, ss).take(i as int),
                forall|j: int|
                    0 <= j < i ==> record_failure(query_len as int, rs[j], ss[j]) is None,
            decreases self.records.len() - i,
        {
            proof {
                assert(rs[i as int] == self.records@[i as int]@);
            }
            let vlen: usize = self.records[i].values().len();
            if query_len == 0 || vlen == 0 {
                proof {
                    assert(record_failure(query_len as int, rs[i as int], ss[i as int]) == Some(
                        VectorStoreError::EmptyVector,
                    ));
                }
                return Err(
                    VectorStoreError::SimilarityCalculationError(
                        self.records[i].id().to_owned(),
                        Box::new(VectorStoreError::EmptyVector),
                    ),
                );
            }
            if vlen != query_len {
                proof {
                    assert(record_failure(query_len as int, rs[i as int], ss[i as int]) == Some(
                        VectorStoreError::UnequalVectorLengths,
                    ));
                }
                return Err(
                    VectorStoreError::SimilarityCalculationError(
                        self.records[i].id().to_owned(),
                        Box::new(VectorStoreError::UnequalVectorLengths),
                    ),
                );
            }
            match scores[i] {
                Similarity::ZeroMagnitude => {
                    proof {
                        assert(record_failure(query_len as int, rs[i as int], ss[i as int])
                            == Some(VectorStoreError::ZeroMagnitude));
                    }
                    return Err(
                        VectorStoreError::SimilarityCalculationError(
                            self.records[i].id().to_owned(),
                            Box::new(VectorStoreError::ZeroMagnitude),
                        ),
                    );
                },
                Similarity::Value(bits) => {
                    let ghost before = pairs@;
                    let rec = self.records[i].clone();
                    pairs.push((rec, bits));
                    proof {
                        before.lemma_push_map_commute(
                            |p: (Record, u32)| (p.0@, p.1),
                            (rec, bits),
                        );
                        assert(scored_pairs(rs, ss)[i as int] == (rs[i as int], bits));
                        assert(scored_pairs(rs, ss).take(i + 1) =~= scored_pairs(rs, ss).take(
                            i as int,
                        ).push(scored_pairs(rs, ss)[i as int]));
                    }
                },
            }
            i = i + 1;
        }
        proof {
            assert(scored_pairs(rs, ss).take(rs.len() as int) =~= scored_pairs(rs, ss));
        }
        let mut ranked = sort_pairs(pairs);
        let ghost full = pairs_data(ranked@);
        proof {
            broadcast use vstd::seq_lib::group_to_multiset_ensures;

            assert(full.len() == full.to_multiset().len());
            assert(scored_pairs(rs, ss).len() == scored_pairs(rs, ss).to_multiset().len());
        }
        ranked.truncate(top_k);
        proof {
            let k = min(top_k as int, rs.len() as int);
            if top_k <= full.len() {
                assert(pairs_data(ranked@) =~= full.take(k));
            } else {
                assert(full.take(k) =~= full);
            }
        }
        Ok(ranked)
    }

    /// The identifiers of the records currently held, in internal order.
    pub fn list(&self) -> (ids: Vec<String>)
        ensures
            ids@.len() == self@.len(),
            forall|i: int| 0 <= i < self@.len() ==> #[trigger] ids@[i]@ == self@[i].id,
    {
        let mut ids: Vec<String> = Vec::new();
        let mut i: usize = 0;
        while i < self.records.len()
            invariant
                i <= self.records.len(),
                ids@.len() == i,
                forall|j: int| 0 <= j < i ==> #[trigger] ids@[j]@ == self@[j].id,
            decreases self.records.len() - i,
        {
            let id: &str = self.records[i].id();
            ids.push(id.to_owned());
            i = i + 1;
        }
        ids
    }
}

} // verus!
