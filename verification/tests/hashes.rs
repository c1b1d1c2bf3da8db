use frey::hash::{hash_bytes, hash_parts, hash_text, hash_texts};


#[test]
fn hashing_is_stable_across_calls_and_processes() {
    // If this value changes, every stored cache plan in every journal becomes incomparable.
    let h = hash_text("frey");
    assert_eq!(h, hash_text("frey"));
    assert_ne!(h, hash_text("frey "));
    assert_eq!(h.to_string().len(), 64);
}

#[test]
fn part_boundaries_are_significant() {
    // The failure this prevents: two tool definitions swapping order, or one gaining a
    // character that another loses, leaving the concatenation identical and the churn invisible.
    assert_ne!(hash_parts(&["ab", "c"]), hash_parts(&["a", "bc"]));
    assert_ne!(hash_parts(&["a", "b"]), hash_parts(&["b", "a"]));
    assert_eq!(hash_parts(&["a", "b"]), hash_parts(&["a", "b"]));
}

#[test]
fn an_empty_segment_still_has_a_hash() {
    assert_ne!(hash_text(""), hash_text(" "));
    assert_eq!(hash_parts(&[]), hash_parts(&[]));
}

#[test]
fn a_text_hashes_to_its_digest() {
    // The digest of nothing, as its authors publish it.
    assert_eq!(
        hash_text("").to_string(),
        "af1349b9f5f9a1a6a0404dea36dcc9499bcb25c9adc112b7cc9a93cae41f3262"
    );
    assert_eq!(hash_bytes("frey".as_bytes()), hash_text("frey"));
}

#[test]
fn owned_parts_hash_as_borrowed_ones() {
    assert_eq!(hash_texts(&vec!["a".to_owned(), "b".to_owned()]), hash_parts(&["a", "b"]));
}
