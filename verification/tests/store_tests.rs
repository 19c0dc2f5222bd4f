use holocron::{Record, Similarity, VectorStore};

fn bits(values: &[f32]) -> Vec<u32> {
    values.iter().map(|v| v.to_bits()).collect()
}

fn ids(names: &[&str]) -> Vec<String> {
    names.iter().map(|s| s.to_string()).collect()
}

// Same floating-point kernel as in the other test files: cosine similarity
// per record in store order, computed outside the verified store.
fn cosine_scores(store: &VectorStore, vector: &[f32]) -> Vec<Similarity> {
    store
        .records()
        .iter()
        .map(|r| {
            let candidate: Vec<f32> = r.values().iter().map(|&x| f32::from_bits(x)).collect();
            if vector.is_empty() || candidate.is_empty() || vector.len() != candidate.len() {
                return Similarity::ZeroMagnitude;
            }
            let dot: f32 = vector.iter().zip(candidate.iter()).map(|(x, y)| x * y).sum();
            let mag_a = vector.iter().map(|x| x * x).sum::<f32>().sqrt();
            let mag_b = candidate.iter().map(|x| x * x).sum::<f32>().sqrt();
            if mag_a == 0.0 || mag_b == 0.0 {
                Similarity::ZeroMagnitude
            } else {
                Similarity::Value((dot / (mag_a * mag_b)).to_bits())
            }
        })
        .collect()
}

fn sample_records() -> Vec<Record> {
    vec![
        Record::new("vec1".to_string(), bits(&[1.2, 2.0])),
        Record::new("vec2".to_string(), bits(&[4.0, 9.5])),
        Record::new("vec3".to_string(), bits(&[9.3, 7.6])),
        Record::new("vec4".to_string(), bits(&[3.4, 3.1])),
    ]
}

#[test]
fn lib_init_vector_store() {
    let store = VectorStore::new(vec![]);
    assert!(store.records().is_empty());
}

#[test]
fn lib_add_to_vector_store() {
    let mut store = VectorStore::new(vec![]);

    let records = sample_records();
    store.add(&records);

    assert_eq!(store.records(), &records);
}

#[test]
fn lib_get_from_vector_store() {
    let mut store = VectorStore::new(vec![]);

    let records = sample_records();
    store.add(&records);

    let result = store.get(&ids(&["vec1", "vec4"]));

    assert_eq!(
        result,
        vec![
            Record::new("vec1".to_string(), bits(&[1.2, 2.0])),
            Record::new("vec4".to_string(), bits(&[3.4, 3.1])),
        ]
    )
}

#[test]
fn lib_delete_from_vector_store() {
    let mut store = VectorStore::new(vec![]);

    let records = sample_records();
    store.add(&records);

    store.delete(&ids(&["vec3", "vec4"]));

    assert_eq!(
        store.records(),
        &vec![
            Record::new("vec1".to_string(), bits(&[1.2, 2.0])),
            Record::new("vec2".to_string(), bits(&[4.0, 9.5])),
        ]
    )
}

#[test]
fn lib_query_vector_store() {
    let mut store = VectorStore::new(vec![]);

    let records = sample_records();
    store.add(&records);

    let vector = vec![1.0, 1.0];
    let scores = cosine_scores(&store, &vector);
    let result = store.query(vector.len(), &scores, 3).unwrap();

    assert_eq!(result.len(), 3, "Should return top 3 results");
    assert_eq!(result[0].0.id(), "vec4", "First result should be vec4");
    assert_eq!(result[1].0.id(), "vec3", "Second result should be vec3");
    assert_eq!(result[2].0.id(), "vec1", "Third result should be vec1");
}

#[test]
fn lib_list_vector_store_ids() {
    let mut store = VectorStore::new(vec![]);

    let records = sample_records();
    store.add(&records);

    assert_eq!(store.list(), vec!["vec1", "vec2", "vec3", "vec4"])
}
