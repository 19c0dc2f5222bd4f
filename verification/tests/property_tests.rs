use holocron::{Record, Similarity, VectorStore, VectorStoreError};

fn bits(values: &[f32]) -> Vec<u32> {
    values.iter().map(|v| v.to_bits()).collect()
}

fn ids(names: &[&str]) -> Vec<String> {
    names.iter().map(|s| s.to_string()).collect()
}

// Same floating-point kernel as in the other test files: cosine similarity
// per record in store order, computed outside the verified store.
fn cosine_scores(store: &VectorStore, vector: &[f32]) -> Vec<Similarity> {
    store
        .records()
        .iter()
        .map(|r| {
            let candidate: Vec<f32> = r.values().iter().map(|&x| f32::from_bits(x)).collect();
            if vector.is_empty() || candidate.is_empty() || vector.len() != candidate.len() {
                return Similarity::ZeroMagnitude;
            }
            let dot: f32 = vector.iter().zip(candidate.iter()).map(|(x, y)| x * y).sum();
            let mag_a = vector.iter().map(|x| x * x).sum::<f32>().sqrt();
            let mag_b = candidate.iter().map(|x| x * x).sum::<f32>().sqrt();
            if mag_a == 0.0 || mag_b == 0.0 {
                Similarity::ZeroMagnitude
            } else {
                Similarity::Value((dot / (mag_a * mag_b)).to_bits())
            }
        })
        .collect()
}

#[test]
fn add_then_get_round_trips() {
    let mut store = VectorStore::new(vec![Record::new("old".to_string(), bits(&[7.0]))]);

    let batch = vec![
        Record::new_with_metadata(
            "fresh1".to_string(),
            bits(&[1.0, 2.0]),
            Some(vec![("key1".to_string(), "value1".to_string())]),
        ),
        Record::new("fresh2".to_string(), bits(&[3.0, 4.0])),
    ];
    store.add(&batch);

    let result = store.get(&ids(&["fresh1", "fresh2"]));
    assert_eq!(result, batch);
}

#[test]
fn delete_removes_each_matched_id_once() {
    let mut store = VectorStore::new(vec![
        Record::new("a".to_string(), bits(&[1.0])),
        Record::new("b".to_string(), bits(&[2.0])),
        Record::new("c".to_string(), bits(&[3.0])),
    ]);

    // "b" matches once; the duplicate request and the miss are no-ops.
    store.delete(&ids(&["b", "b", "missing"]));

    let remaining = store.list();
    assert_eq!(remaining.len(), 2);
    assert!(remaining.contains(&"a".to_string()));
    assert!(remaining.contains(&"c".to_string()));
    assert!(!remaining.contains(&"b".to_string()));
}

#[test]
fn delete_of_absent_id_changes_nothing() {
    let mut store = VectorStore::new(vec![
        Record::new("a".to_string(), bits(&[1.0])),
        Record::new("b".to_string(), bits(&[2.0])),
    ]);

    let before = store.list();
    store.delete(&ids(&["missing"]));
    assert_eq!(store.list(), before);
}

#[test]
fn delete_swaps_the_tail_into_the_hole() {
    let mut store = VectorStore::new(vec![
        Record::new("a".to_string(), bits(&[1.0])),
        Record::new("b".to_string(), bits(&[2.0])),
        Record::new("c".to_string(), bits(&[3.0])),
        Record::new("d".to_string(), bits(&[4.0])),
    ]);

    store.delete(&ids(&["a"]));

    assert_eq!(store.list(), vec!["d", "b", "c"]);
}

#[test]
fn duplicate_ids_resolve_to_first_match() {
    let first = Record::new("dup".to_string(), bits(&[1.0]));
    let second = Record::new("dup".to_string(), bits(&[2.0]));
    let mut store = VectorStore::new(vec![first.clone(), second.clone()]);

    let got = store.get(&ids(&["dup"]));
    assert_eq!(got, vec![first]);

    store.delete(&ids(&["dup"]));
    assert_eq!(store.records(), &vec![second]);
}

#[test]
fn query_returns_at_most_min_of_top_k_and_count_sorted() {
    let store = VectorStore::new(vec![
        Record::new("a".to_string(), bits(&[1.0, 0.0])),
        Record::new("b".to_string(), bits(&[0.0, 1.0])),
        Record::new("c".to_string(), bits(&[1.0, 1.0])),
    ]);

    let vector = vec![2.0, 1.0];
    let scores = cosine_scores(&store, &vector);

    let all = store.query(vector.len(), &scores, 100).unwrap();
    assert_eq!(all.len(), 3);
    for w in all.windows(2) {
        assert!(f32::from_bits(w[0].1) >= f32::from_bits(w[1].1));
    }

    let two = store.query(vector.len(), &scores, 2).unwrap();
    assert_eq!(two.len(), 2);
    assert_eq!(two[0].0.id(), all[0].0.id());
    assert_eq!(two[1].0.id(), all[1].0.id());

    let none = store.query(vector.len(), &scores, 0).unwrap();
    assert!(none.is_empty());
}

#[test]
fn query_top_k_ceiling_is_exactly_ten_thousand() {
    let store = VectorStore::new(vec![Record::new("a".to_string(), bits(&[1.0]))]);
    let vector = vec![1.0];
    let scores = cosine_scores(&store, &vector);

    assert!(store.query(vector.len(), &scores, 10000).is_ok());
    assert!(matches!(
        store.query(vector.len(), &scores, 10001),
        Err(VectorStoreError::TopKTooLarge)
    ));
}

#[test]
fn query_top_k_too_large_wins_over_store_contents() {
    let empty = VectorStore::new(vec![]);
    assert!(matches!(
        empty.query(2, &vec![], 10001),
        Err(VectorStoreError::TopKTooLarge)
    ));

    // Even a store whose records could not be scored reports the ceiling
    // first: the check happens before any scan work.
    let bad = VectorStore::new(vec![Record::new("a".to_string(), vec![])]);
    let scores = vec![Similarity::ZeroMagnitude];
    assert!(matches!(
        bad.query(2, &scores, 10001),
        Err(VectorStoreError::TopKTooLarge)
    ));
}

#[test]
fn query_empty_store_succeeds_for_any_vector() {
    let store = VectorStore::new(vec![]);
    assert!(store.query(0, &vec![], 3).unwrap().is_empty());
    let scores = cosine_scores(&store, &[1.0, 2.0, 3.0]);
    assert!(store.query(3, &scores, 10000).unwrap().is_empty());
}

#[test]
fn query_empty_record_vector_fails_with_attributed_empty_vector() {
    let store = VectorStore::new(vec![
        Record::new("fine".to_string(), bits(&[1.0])),
        Record::new("hollow".to_string(), vec![]),
    ]);
    let vector = vec![1.0];
    let scores = cosine_scores(&store, &vector);

    match store.query(vector.len(), &scores, 3) {
        Err(VectorStoreError::SimilarityCalculationError(id, cause)) => {
            assert_eq!(id, "hollow");
            assert!(matches!(*cause, VectorStoreError::EmptyVector));
        }
        other => panic!("expected an attributed EmptyVector failure, got {:?}", other),
    }
}

#[test]
fn query_empty_query_vector_fails_on_the_first_record() {
    let store = VectorStore::new(vec![
        Record::new("first".to_string(), bits(&[1.0])),
        Record::new("second".to_string(), bits(&[2.0])),
    ]);
    let scores = cosine_scores(&store, &[]);

    match store.query(0, &scores, 3) {
        Err(VectorStoreError::SimilarityCalculationError(id, cause)) => {
            assert_eq!(id, "first");
            assert!(matches!(*cause, VectorStoreError::EmptyVector));
        }
        other => panic!("expected an attributed EmptyVector failure, got {:?}", other),
    }
}

#[test]
fn query_dimension_mismatch_fails_with_unequal_vector_lengths() {
    let store = VectorStore::new(vec![
        Record::new("narrow".to_string(), bits(&[1.0, 2.0])),
        Record::new("wide".to_string(), bits(&[1.0, 2.0, 3.0])),
    ]);
    let vector = vec![1.0, 1.0];
    let scores = cosine_scores(&store, &vector);

    match store.query(vector.len(), &scores, 3) {
        Err(VectorStoreError::SimilarityCalculationError(id, cause)) => {
            assert_eq!(id, "wide");
            assert!(matches!(*cause, VectorStoreError::UnequalVectorLengths));
        }
        other => panic!("expected an attributed length failure, got {:?}", other),
    }
}

#[test]
fn query_zero_magnitude_fails_with_attribution() {
    let store = VectorStore::new(vec![
        Record::new("fine".to_string(), bits(&[1.0, 1.0])),
        Record::new("null".to_string(), bits(&[0.0, 0.0])),
    ]);
    let vector = vec![1.0, 1.0];
    let scores = cosine_scores(&store, &vector);

    match store.query(vector.len(), &scores, 3) {
        Err(VectorStoreError::SimilarityCalculationError(id, cause)) => {
            assert_eq!(id, "null");
            assert!(matches!(*cause, VectorStoreError::ZeroMagnitude));
        }
        other => panic!("expected an attributed ZeroMagnitude failure, got {:?}", other),
    }
}

#[test]
fn query_aborts_on_the_first_failing_record() {
    let store = VectorStore::new(vec![
        Record::new("fine".to_string(), bits(&[1.0, 1.0])),
        Record::new("short".to_string(), bits(&[1.0])),
        Record::new("hollow".to_string(), vec![]),
    ]);
    let vector = vec![1.0, 1.0];
    let scores = cosine_scores(&store, &vector);

    match store.query(vector.len(), &scores, 3) {
        Err(VectorStoreError::SimilarityCalculationError(id, cause)) => {
            assert_eq!(id, "short");
            assert!(matches!(*cause, VectorStoreError::UnequalVectorLengths));
        }
        other => panic!("expected the first failure to surface, got {:?}", other),
    }
}

#[test]
fn query_ranks_nan_scores_at_the_bottom() {
    let store = VectorStore::new(vec![
        Record::new("nan".to_string(), bits(&[1.0])),
        Record::new("low".to_string(), bits(&[1.0])),
        Record::new("high".to_string(), bits(&[1.0])),
    ]);
    let scores = vec![
        Similarity::Value(f32::NAN.to_bits()),
        Similarity::Value((-0.5f32).to_bits()),
        Similarity::Value(0.75f32.to_bits()),
    ];

    let result = store.query(1, &scores, 3).unwrap();
    assert_eq!(result.len(), 3);
    assert_eq!(result[0].0.id(), "high");
    assert_eq!(result[1].0.id(), "low");
    assert_eq!(result[2].0.id(), "nan");
    assert!(f32::from_bits(result[2].1).is_nan());
}

#[test]
fn query_orders_negative_scores_below_positive_ones() {
    let store = VectorStore::new(vec![
        Record::new("minus2".to_string(), bits(&[1.0])),
        Record::new("plus_half".to_string(), bits(&[1.0])),
        Record::new("minus_half".to_string(), bits(&[1.0])),
        Record::new("zero".to_string(), bits(&[1.0])),
    ]);
    let scores = vec![
        Similarity::Value((-2.0f32).to_bits()),
        Similarity::Value(0.5f32.to_bits()),
        Similarity::Value((-0.5f32).to_bits()),
        Similarity::Value(0.0f32.to_bits()),
    ];

    let result = store.query(1, &scores, 4).unwrap();
    let ordered: Vec<&str> = result.iter().map(|p| p.0.id()).collect();
    assert_eq!(ordered, vec!["plus_half", "zero", "minus_half", "minus2"]);
}

#[test]
fn metadata_absence_differs_from_emptiness() {
    let without = Record::new("w".to_string(), bits(&[1.0]));
    assert!(without.metadata().is_none());

    let with_empty = Record::new_with_metadata("e".to_string(), bits(&[1.0]), Some(vec![]));
    assert_eq!(with_empty.metadata(), Some(&vec![]));

    let explicit_none = Record::new_with_metadata("n".to_string(), bits(&[1.0]), None);
    assert!(explicit_none.metadata().is_none());
    assert_eq!(
        explicit_none,
        Record::new("n".to_string(), bits(&[1.0])),
        "absent metadata must equal the plain constructor's"
    );
}

#[test]
fn query_returns_clones_with_metadata_and_scores() {
    let record = Record::new_with_metadata(
        "vec1".to_string(),
        bits(&[1.0, 2.0]),
        Some(vec![("key1".to_string(), "value1".to_string())]),
    );
    let store = VectorStore::new(vec![record.clone()]);
    let vector = vec![1.0, 2.0];
    let scores = cosine_scores(&store, &vector);

    let result = store.query(vector.len(), &scores, 5).unwrap();
    assert_eq!(result.len(), 1);
    assert_eq!(result[0].0, record);
    // A vector compared against itself has cosine similarity 1 up to rounding.
    let score = f32::from_bits(result[0].1);
    assert!((score - 1.0).abs() < 1e-6);
}
