use pmtiles_reader::tally::Tally;

fn counts(t: &Tally) -> Vec<(String, u64)> {
    t.entries().clone()
}

#[test]
fn tally_counts_and_orders_by_frequency() {
    let mut t = Tally::new();
    for w in ["park", "river", "park", "road", "river", "park"] {
        t.add(w.to_string());
    }
    assert_eq!(
        counts(&t),
        vec![("park".to_string(), 3), ("river".to_string(), 2), ("road".to_string(), 1)]
    );
}

#[test]
fn tally_moves_a_key_ahead_of_equal_counts() {
    let mut t = Tally::new();
    for w in ["a", "b", "c", "c"] {
        t.add(w.to_string());
    }
    assert_eq!(
        counts(&t),
        vec![("c".to_string(), 2), ("b".to_string(), 1), ("a".to_string(), 1)]
    );
}

#[test]
fn tally_starts_empty() {
    let t = Tally::new();
    assert!(t.entries().is_empty());
}
