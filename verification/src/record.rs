//! A stored record: a string identifier, an embedding vector, and optional
//! string-to-string metadata.
//!
//! Vector components are IEEE-754 single-precision bit patterns (`u32`); the
//! store never interprets them numerically, it only carries them, so nothing
//! here depends on floating-point behaviour. Metadata is a list of key/value
//! pairs, kept opaque: the store never inspects it.

use vstd::prelude::*;

verus! {

/// The mathematical value of a [`Record`]: its identifier, vector components
/// and metadata pairs, all as sequences.
pub struct RecordData {
    pub id: Seq<char>,
    pub values: Seq<u32>,
    pub metadata: Option<Seq<(Seq<char>, Seq<char>)>>,
}

/// The abstraction of one metadata pair.
pub open spec fn pair_data(p: (String, String)) -> (Seq<char>, Seq<char>) {
    (p.0@, p.1@)
}

/// The abstraction of an optional metadata list.
pub open spec fn metadata_data(
    m: Option<Vec<(String, String)>>,
) -> Option<Seq<(Seq<char>, Seq<char>)>> {
    match m {
        None => None,
        Some(pairs) => Some(pairs@.map_values(|p: (String, String)| pair_data(p))),
    }
}

/// An immutable record: constructed once, never mutated, cloned when handed
/// back out of a store. No validation happens at construction; empty
/// identifiers and empty vectors are accepted.
#[derive(Debug, PartialEq)]
pub struct Record {
    id: String,
    values: Vec<u32>,
    metadata: Option<Vec<(String, String)>>,
}

impl View for Record {
    type V = RecordData;

    closed spec fn view(&self) -> RecordData {
        RecordData {
            id: self.id@,
            values: self.values@,
            metadata: metadata_data(self.metadata),
        }
    }
}

impl Record {
    /// A record without metadata.
    pub fn new(id: String, values: Vec<u32>) -> (r: Record)
        ensures
            r@ == (RecordData { id: id@, values: values@, metadata: None }),
    {
        Record { id, values, metadata: None }
    }

    /// A record with optional metadata; passing `None` is equivalent to
    /// [`Record::new`].
    pub fn new_with_metadata(
        id: String,
        values: Vec<u32>,
        metadata: Option<Vec<(String, String)>>,
    ) -> (r: Record)
        ensures
            r@ == (RecordData { id: id@, values: values@, metadata: metadata_data(metadata) }),
    {
        Record { id, values, metadata }
    }

    /// The lookup and deletion key of this record within a store.
    pub fn id(&self) -> (r: &str)
        ensures
            r@ == self@.id,
    {
        self.id.as_str()
    }

    /// Whether this record's identifier equals `id`.
    pub fn id_matches(&self, id: &String) -> (r: bool)
        ensures
            r == (self@.id == id@),
    {
        self.id == *id
    }

    /// The embedding vector, as IEEE-754 single-precision bit patterns.
    pub fn values(&self) -> (r: &Vec<u32>)
        ensures
            r@ == self@.values,
    {
        &self.values
    }

    /// The metadata pairs, if any were given at construction.
    pub fn metadata(&self) -> (r: Option<&Vec<(String, String)>>)
        ensures
            match r {
                None => self@.metadata is None,
                Some(m) => self@.metadata == Some(m@.map_values(|p: (String, String)| pair_data(p))),
            },
    {
        self.metadata.as_ref()
    }
}

fn clone_values(values: &Vec<u32>) -> (r: Vec<u32>)
    ensures
        r@ == values@,
{
    let mut out: Vec<u32> = Vec::new();
    let mut i: usize = 0;
    while i < values.len()
        invariant
            i <= values.len(),
            out@ == values@.take(i as int),
        decreases values.len() - i,
    {
        out.push(values[i]);
        proof {
            assert(out@ =~= values@.take(i + 1));
        }
        i = i + 1;
    }
    proof {
        assert(values@.take(values@.len() as int) =~= values@);
    }
    out
}

fn clone_pairs(pairs: &Vec<(String, String)>) -> (r: Vec<(String, String)>)
    ensures
        r@.map_values(|p: (String, String)| pair_data(p)) == pairs@.map_values(
            |p: (String, String)| pair_data(p),
        ),
{
    let mut out: Vec<(String, String)> = Vec::new();
    let mut i: usize = 0;
    while i < pairs.len()
        invariant
            i <= pairs.len(),
            out@.len() == i,
            forall|j: int|
                0 <= j < i ==> #[trigger] pair_data(out@[j]) == pair_data(pairs@[j]),
        decreases pairs.len() - i,
    {
        let key = pairs[i].0.clone();
        let value = pairs[i].1.clone();
        out.push((key, value));
        i = i + 1;
    }
    proof {
        assert(out@.map_values(|p: (String, String)| pair_data(p)) =~= pairs@.map_values(
            |p: (String, String)| pair_data(p),
        ));
    }
    out
}

impl Clone for Record {
    /// A clone carries the same identifier, vector and metadata.
    fn clone(&self) -> (r: Self)
        ensures
            r@ == self@,
    {
        let metadata: Option<Vec<(String, String)>> = match &self.metadata {
            None => None,
            Some(pairs) => Some(clone_pairs(pairs)),
        };
        let r = Record { id: self.id.clone(), values: clone_values(&self.values), metadata };
        proof {
            assert(r@.metadata == self@.metadata);
        }
        r
    }
}

} // verus!
