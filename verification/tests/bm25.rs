use linguagraph::embeddings::bm25::{hash_token, is_russian_stopword, to_sparse_parts, tokenize};

#[test]
fn hash_is_stable_fnv1a_32() {
    assert_eq!(hash_token("a"), 0xe40c_292c);
    assert_eq!(hash_token("foobar"), 0xbf9c_f968);
}

#[test]
fn tokenizer_lowercases_splits_and_counts_tf() {
    let (ids, vals) = to_sparse_parts("Алматы, алматы!");
    assert_eq!(ids.len(), 1);
    assert_eq!(vals, vec![2]);
}

#[test]
fn stopwords_are_dropped() {
    let (ids, _) = to_sparse_parts("магазин и в на Алматы");
    assert_eq!(ids.len(), 2);
}

#[test]
fn empty_text_yields_empty_sparse_vector() {
    let (ids, vals) = to_sparse_parts("   ,.! и в ");
    assert!(ids.is_empty());
    assert!(vals.is_empty());
}

#[test]
fn english_word_matches_expected_hash() {
    let (ids, vals) = to_sparse_parts("freedom");
    assert_eq!(ids, vec![hash_token("freedom")]);
    assert_eq!(vals, vec![1]);
}

#[test]
fn words_are_split_where_no_letter_or_digit_stands() {
    assert_eq!(tokenize("One-two 3я!"), vec!["one", "two", "3я"]);
    assert!(is_russian_stopword("я"));
    assert!(!is_russian_stopword("freedom"));
}

#[test]
fn counts_add_up_to_the_words_kept() {
    let (ids, vals) = to_sparse_parts("red blue red");
    assert_eq!(ids.len(), 2);
    assert_eq!(vals.iter().sum::<u64>(), 3);
}
