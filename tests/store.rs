use vector_store::batching::TextInsertion;
use vector_store::collection::StringCollection;
use vector_store::error::StoreError;
use vector_store::provider::{batch_request_body, batch_request_url, word_request_url};
use vector_store::ranking::rank_neighbors;
use vector_store::store::VectorStore;

fn key(v: &[f64], q: &[f64]) -> u64 {
    let d: f64 = v.iter().zip(q.iter()).map(|(a, b)| (a - b) * (a - b)).sum();
    d.to_bits()
}

fn store_with(words: &[(&str, [f64; 2])]) -> (VectorStore, Vec<[f64; 2]>) {
    let mut store = VectorStore::new(None, Some(2));
    let mut vectors = Vec::new();
    for (w, v) in words {
        let h = store.add(w.to_string(), v.len()).unwrap();
        assert_eq!(h, vectors.len());
        vectors.push(*v);
    }
    (store, vectors)
}

fn candidates(vectors: &[[f64; 2]], q: &[f64; 2]) -> Vec<(u64, usize)> {
    vectors.iter().enumerate().map(|(h, v)| (key(v, q), h)).collect()
}

fn strings(v: &[&str]) -> Vec<String> {
    v.iter().map(|s| s.to_string()).collect()
}

#[test]
fn nearest_two_of_four_words() {
    let (store, vectors) = store_with(&[
        ("car", [2.0, 0.0]),
        ("red", [1.0, 0.0]),
        ("bus", [10.0, 10.0]),
        ("frog", [20.0, 0.0]),
    ]);
    let color = [0.0, 0.0];
    let r = store.find_similers(2, &candidates(&vectors, &color), 2).unwrap();
    assert_eq!(r, strings(&["red", "car"]));
}

#[test]
fn single_word_store() {
    let (store, vectors) = store_with(&[("car", [2.0, 0.0])]);
    let r = store.find_similers(2, &candidates(&vectors, &[0.0, 0.0]), 1).unwrap();
    assert_eq!(r, strings(&["car"]));
}

#[test]
fn equal_distances_follow_insertion_order() {
    let (store, vectors) = store_with(&[
        ("a", [1.0, 0.0]),
        ("b", [0.0, 1.0]),
        ("c", [-1.0, 0.0]),
        ("d", [0.0, -1.0]),
    ]);
    let mut c = candidates(&vectors, &[0.0, 0.0]);
    c.reverse();
    let first = store.find_similers(2, &c, 3).unwrap();
    let second = store.find_similers(2, &c, 3).unwrap();
    assert_eq!(first, strings(&["a", "b", "c"]));
    assert_eq!(first, second);
}

#[test]
fn results_are_ordered_by_distance() {
    let c = vec![(9, 0), (3, 1), (7, 2), (3, 0), (1, 5)];
    let r = rank_neighbors(&c, 10);
    assert_eq!(r, vec![(1, 5), (3, 0), (3, 1), (7, 2), (9, 0)]);
    for w in r.windows(2) {
        assert!(w[0].0 <= w[1].0);
    }
}

#[test]
fn repeated_candidates_count_once() {
    let c = vec![(4, 1), (2, 0), (4, 1), (2, 0)];
    assert_eq!(rank_neighbors(&c, 3), vec![(2, 0), (4, 1)]);
}

#[test]
fn top_k_beyond_count_returns_all() {
    let (store, vectors) = store_with(&[("x", [3.0, 0.0]), ("y", [1.0, 0.0]), ("z", [2.0, 0.0])]);
    let r = store.find_similers(2, &candidates(&vectors, &[0.0, 0.0]), 10).unwrap();
    assert_eq!(r, strings(&["y", "z", "x"]));
}

#[test]
fn top_k_zero_returns_nothing() {
    let (store, vectors) = store_with(&[("x", [3.0, 0.0]), ("y", [1.0, 0.0])]);
    let r = store.find_similers(2, &candidates(&vectors, &[0.0, 0.0]), 0).unwrap();
    assert!(r.is_empty());
}

#[test]
fn empty_store_query_is_empty() {
    let store = VectorStore::new(None, Some(2));
    assert_eq!(store.find_similers(2, &Vec::new(), 5).unwrap(), Vec::<String>::new());
}

#[test]
fn unknown_handle_is_refused() {
    let (store, _) = store_with(&[("x", [3.0, 0.0])]);
    assert_eq!(store.find_similers(2, &vec![(0, 0), (1, 7)], 2), Err(StoreError::UnknownHandle));
    assert_eq!(store.find_similers(2, &vec![(0, 0), (1, 7)], 1), Ok(strings(&["x"])));
}

#[test]
fn wrong_dimension_is_refused() {
    let mut store = VectorStore::new(None, Some(3));
    assert_eq!(store.add("a".to_string(), 3), Ok(0));
    assert_eq!(store.add("b".to_string(), 2), Err(StoreError::DimensionMismatch));
    assert_eq!(store.len(), 1);
    assert_eq!(store.get_words(), strings(&["a"]));
    assert_eq!(store.add("c".to_string(), 3), Ok(1));
    assert_eq!(store.get_words(), strings(&["a", "c"]));
}

#[test]
fn defaults_of_new() {
    let store = VectorStore::new(None, None);
    assert_eq!(store.dimension(), 384);
    assert_eq!(store.url(), "https://embidded-serever.onrender.com/");
    assert_eq!(store.len(), 0);
    let other = VectorStore::new(Some("http://localhost:8000/".to_string()), Some(8));
    assert_eq!(other.dimension(), 8);
    assert_eq!(other.url(), "http://localhost:8000/");
}

#[test]
fn batch_with_short_answer_is_refused() {
    let mut store = VectorStore::new(None, Some(2));
    let batch = strings(&["a", "b"]);
    assert_eq!(store.add_batch(&batch, &vec![2]), Err(StoreError::DeserializationError));
    assert_eq!(store.add_batch(&batch, &vec![2, 3]), Err(StoreError::DimensionMismatch));
    assert_eq!(store.len(), 0);
    assert_eq!(store.add_batch(&batch, &vec![2, 2]), Ok(0));
    assert_eq!(store.get_words(), batch);
}

fn numbered_text(n: usize) -> (String, Vec<String>) {
    let tokens: Vec<String> = (0..n).map(|i| format!("w{}", i)).collect();
    (tokens.join("\n"), tokens)
}

#[test]
fn text_of_45_tokens_goes_in_three_batches() {
    let (text, tokens) = numbered_text(45);
    let mut store = VectorStore::new(None, Some(4));
    let mut job = TextInsertion::new(&text);
    let mut sizes = Vec::new();
    while let Some(batch) = job.pending() {
        sizes.push(batch.len());
        let first = job.apply(&mut store, Ok(vec![4; batch.len()])).unwrap();
        assert_eq!(first, sizes.iter().sum::<usize>() - batch.len());
    }
    assert_eq!(sizes, vec![20, 20, 5]);
    assert!(job.is_done());
    assert_eq!(store.get_words(), tokens);
}

#[test]
fn failed_second_batch_keeps_the_first() {
    let (text, tokens) = numbered_text(45);
    let mut store = VectorStore::new(None, Some(4));
    let mut job = TextInsertion::new(&text);
    let first = job.pending().unwrap();
    assert_eq!(job.apply(&mut store, Ok(vec![4; first.len()])), Ok(0));
    assert!(job.pending().is_some());
    assert_eq!(job.apply(&mut store, Err(StoreError::ProviderError)), Err(StoreError::ProviderError));
    assert!(job.pending().is_none());
    assert_eq!(store.get_words(), tokens[..20].to_vec());
    assert!(!store.get_words().contains(&"w44".to_string()));
}

#[test]
fn empty_lines_are_tokens() {
    let job = TextInsertion::new("a\n\nb\n");
    assert_eq!(job.pending().unwrap(), strings(&["a", "", "b", ""]));
    let single = TextInsertion::new("");
    assert_eq!(single.pending().unwrap(), strings(&[""]));
}

#[test]
fn batch_with_wrong_dimension_stops_text() {
    let mut store = VectorStore::new(None, Some(2));
    let mut job = TextInsertion::new("a\nb");
    assert_eq!(job.apply(&mut store, Ok(vec![2, 1])), Err(StoreError::DimensionMismatch));
    assert!(job.is_done());
    assert_eq!(store.len(), 0);
}

#[test]
fn string_collection_keeps_order() {
    let c = StringCollection::new(strings(&["hello", "world"]));
    assert_eq!(c.len(), 2);
    assert_eq!(c.get_vector(), strings(&["hello", "world"]));
}

#[test]
fn request_addresses_and_body() {
    assert_eq!(word_request_url("https://e.org/", "car"), "https://e.org/?word=car");
    assert_eq!(batch_request_url("https://e.org/"), "https://e.org/list");
    let body = batch_request_body(&strings(&["car", "red \"x\""]));
    assert_eq!(body, "[\"car\",\"red \\\"x\\\"\"]");
    assert_eq!(batch_request_body(&Vec::new()), "[]");
}

#[test]
fn query_of_wrong_dimension_is_refused() {
    let (store, vectors) = store_with(&[("x", [3.0, 0.0]), ("y", [1.0, 0.0])]);
    let c = candidates(&vectors, &[0.0, 0.0]);
    assert_eq!(store.find_similers(3, &c, 1), Err(StoreError::DimensionMismatch));
    assert_eq!(store.find_similers(2, &c, 1), Ok(strings(&["y"])));
    assert_eq!(store.len(), 2);
}
