use frey::ids::SegmentId;
use frey::segment::{ttls_are_correctly_ordered, CacheMark, CacheTtl, ContentHash, SegmentKind, Stability};


fn hash(seed: u8) -> ContentHash {
    ContentHash::from_bytes([seed; 32])
}

#[test]
fn content_hashes_round_trip_as_hex() {
    let h = hash(0xab);
    assert_eq!(h.to_string().len(), 64);
    assert!(h.to_string().starts_with("abab"));
    assert_eq!(h.short(), "abababab");

    assert_eq!(ContentHash::from_hex(&h.to_string()).unwrap(), h);
}

#[test]
fn segment_kind_order_is_the_prefix_hierarchy() {
    // A change in tools invalidates system and everything after; discovery invalidates nothing.
    assert!(SegmentKind::Tools < SegmentKind::System);
    assert!(SegmentKind::System < SegmentKind::History);
    assert!(SegmentKind::History < SegmentKind::Discovered);
    assert_eq!(
        SegmentKind::Discovered.max(SegmentKind::Tools),
        SegmentKind::Discovered,
        "discovered definitions must sort last so they never disturb the stable prefix"
    );
}

#[test]
fn breakpoints_are_only_permitted_on_stable_segments() {
    assert!(Stability::Static.is_cacheable());
    assert!(Stability::Slow.is_cacheable());
    assert!(
        !Stability::Volatile.is_cacheable(),
        "a breakpoint here re-writes the cache each turn"
    );
}

#[test]
fn long_lived_cache_entries_must_precede_short_lived_ones() {
    let long = CacheMark { at: SegmentId(0), ttl: CacheTtl::Long };
    let short = CacheMark { at: SegmentId(1), ttl: CacheTtl::Short };

    assert!(ttls_are_correctly_ordered(&[long, short]));
    assert!(ttls_are_correctly_ordered(&[long, long, short, short]));
    assert!(ttls_are_correctly_ordered(&[]));
    assert!(!ttls_are_correctly_ordered(&[short, long]), "Anthropic reject this ordering");
}

#[test]
fn malformed_hashes_are_rejected_rather_than_padded() {
    assert!(ContentHash::from_hex("abcd").is_err());
    assert!(ContentHash::from_hex(&"z".repeat(64)).is_err());
}

#[test]
fn a_pair_of_hex_characters_is_read_as_a_number() {
    assert_eq!(ContentHash::from_hex(&"+f".repeat(32)).unwrap(), ContentHash::from_bytes([15; 32]));
    assert!(ContentHash::from_hex(&"-f".repeat(32)).is_err());
    assert!(ContentHash::from_hex(&"f+".repeat(32)).is_err());
    assert!(ContentHash::from_hex(&"++".repeat(32)).is_err());
    assert_eq!(ContentHash::from_hex(&"0A".repeat(32)).unwrap(), ContentHash::from_bytes([10; 32]));
}
