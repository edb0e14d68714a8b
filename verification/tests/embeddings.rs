use co_scientist::llm_io::embeddings::{
    bag_of, bytes_to_vec, hash_bag, hash_to_dims, sha256_hash, try_hash_bag, vec_to_bytes,
    HASH_DIM,
};

fn embed(text: &str, dim: usize) -> Vec<f32> {
    let mut v: Vec<f32> = hash_bag(text, dim).iter().map(|c| *c as f32 / 2.0).collect();
    let norm: f32 = v.iter().map(|x| x * x).sum::<f32>().sqrt();
    if norm > 0.0 {
        for x in v.iter_mut() {
            *x /= norm;
        }
    }
    v
}

fn cosine_similarity(a: &[f32], b: &[f32]) -> f32 {
    a.iter().zip(b.iter()).map(|(x, y)| x * y).sum()
}

#[test]
fn hash_bag_identical() {
    let a = embed("hello world foo bar", HASH_DIM);
    let b = embed("hello world foo bar", HASH_DIM);
    assert_eq!(a, b);
}

#[test]
fn hash_bag_similar() {
    let a = embed("machine learning optimization gradient descent", HASH_DIM);
    let b = embed("machine learning optimization gradient descent algorithm", HASH_DIM);
    let sim = cosine_similarity(&a, &b);
    assert!(sim > 0.7, "expected >0.7, got {sim}");
}

#[test]
fn hash_bag_unrelated() {
    let a = embed("quantum physics entanglement superposition", HASH_DIM);
    let b = embed("baking chocolate cake recipe flour sugar", HASH_DIM);
    let sim = cosine_similarity(&a, &b);
    assert!(sim < 0.3, "expected <0.3, got {sim}");
}

#[test]
fn round_trip_bytes() {
    let vec = embed("test serialization", HASH_DIM);
    let bits: Vec<u32> = vec.iter().map(|v| v.to_bits()).collect();
    let bytes = vec_to_bytes(&bits);
    let mut expected: Vec<u8> = Vec::new();
    for v in &vec {
        expected.extend_from_slice(&v.to_le_bytes());
    }
    assert_eq!(bytes, expected);
    let restored: Vec<f32> = bytes_to_vec(&bytes).iter().map(|b| f32::from_bits(*b)).collect();
    assert_eq!(vec, restored);
}

#[test]
fn hash_bag_l2_normalized() {
    let vec = embed("any text here", HASH_DIM);
    let norm: f32 = vec.iter().map(|x| x * x).sum::<f32>().sqrt();
    assert!((norm - 1.0).abs() < 1e-6, "norm should be ~1.0, got {norm}");
}

#[test]
fn hashes_are_the_first_bytes_of_sha256() {
    assert_eq!(sha256_hash("abc"), [0xba, 0x78, 0x16, 0xbf, 0x8f, 0x01, 0xcf, 0xea]);
    assert_eq!(sha256_hash(""), [0xe3, 0xb0, 0xc4, 0x42, 0x98, 0xfc, 0x1c, 0x14]);
    assert_eq!(hash_to_dims(&[1, 0, 0, 0, 2, 1, 0, 0], 256), (1, 2));
    assert_eq!(hash_to_dims(&[0, 0, 0, 1, 255, 255, 255, 255], 1000), (216, 295));
}

#[test]
fn words_count_whole_and_pairs_half() {
    let one = hash_bag("Hello", HASH_DIM);
    assert_eq!(one.iter().sum::<u128>(), 4);
    let two = hash_bag("Hello  WORLD", HASH_DIM);
    assert_eq!(two.iter().sum::<u128>(), 10);
    assert_eq!(two, hash_bag("hello world", HASH_DIM));
    assert!(hash_bag("", HASH_DIM).iter().all(|c| *c == 0));
    assert_eq!(bag_of(&vec!["hello".to_string(), "world".to_string()], HASH_DIM), two);
}

#[test]
fn a_rest_of_less_than_four_bytes_is_dropped() {
    assert_eq!(bytes_to_vec(&vec![1, 0, 0, 0, 9, 9]), vec![1]);
    assert_eq!(vec_to_bytes(&vec![0x04030201]), vec![1, 2, 3, 4]);
}

#[test]
fn a_text_without_words_needs_no_room() {
    assert!(hash_bag("", 0).is_empty());
    assert!(hash_bag(" \t\n", 0).is_empty());
    assert_eq!(try_hash_bag(" ", 0), Some(vec![]));
    assert_eq!(try_hash_bag("word", 0), None);
    assert_eq!(try_hash_bag("Hello world", HASH_DIM), Some(hash_bag("hello world", HASH_DIM)));
}
