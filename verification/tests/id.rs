use facts::id::{assign_ids, encode_base36, full_hash};

#[test]
fn test_encode_deterministic() {
    let h1 = full_hash("some fact");
    let h2 = full_hash("some fact");
    assert_eq!(encode_base36(h1, 3), encode_base36(h2, 3));
    assert_eq!(encode_base36(h1, 3).len(), 3);
}

#[test]
fn test_different_labels_different_hashes() {
    let h1 = full_hash("fact one");
    let h2 = full_hash("fact two");
    assert_ne!(h1, h2);
}

#[test]
fn test_assign_ids_no_collision() {
    let facts = vec![
        ("fact one".to_string(), None),
        ("fact two".to_string(), None),
    ];
    let ids = assign_ids(&facts);
    assert_eq!(ids.len(), 2);
    assert_ne!(ids[0], ids[1]);
}

#[test]
fn test_explicit_id_preserved() {
    let facts = vec![
        ("fact one".to_string(), Some("abc".to_string())),
        ("fact two".to_string(), None),
    ];
    let ids = assign_ids(&facts);
    assert_eq!(ids[0], "abc");
}

#[test]
fn test_duplicate_labels_get_unique_ids() {
    // Duplicate labels with same hash — tests the fallback disambiguator
    let facts = vec![
        ("same label".to_string(), None),
        ("same label".to_string(), None),
    ];
    let ids = assign_ids(&facts);
    assert_eq!(ids.len(), 2);
    assert_ne!(ids[0], ids[1]);
}

#[test]
fn test_encode_length_is_exact() {
    let h = full_hash("test");
    assert_eq!(encode_base36(h, 3).len(), 3);
    assert_eq!(encode_base36(h, 5).len(), 5);
    // The 3-char encoding is the last 3 characters of the 5-char one.
    let short = encode_base36(h, 3);
    let long = encode_base36(h, 5);
    assert_eq!(&long[2..], &short[..]);
}

// Further cases.

#[test]
fn fnv1a_known_values() {
    assert_eq!(full_hash(""), 0x6c62272e07bb0142_62b821756295c58d);
    assert_eq!(full_hash("a"), 0xd228cb696f1a8caf78912b704e4a8964);
}

#[test]
fn base36_digits() {
    assert_eq!(encode_base36(35, 2), "0z");
    assert_eq!(encode_base36(36 * 36 + 10, 3), "10a");
    assert_eq!(encode_base36(36 * 36 + 10, 2), "0a");
}

#[test]
fn duplicate_labels_get_counter_suffix() {
    let facts = vec![
        ("same".to_string(), None),
        ("same".to_string(), None),
        ("same".to_string(), None),
    ];
    let ids = assign_ids(&facts);
    let base = encode_base36(full_hash("same"), 3);
    assert_eq!(ids[0], base);
    assert_eq!(ids[1], format!("{base}1"));
    assert_eq!(ids[2], format!("{base}2"));
}

#[test]
fn computed_ids_are_three_hash_digits_without_collision() {
    let facts = vec![("fact one".to_string(), None)];
    let ids = assign_ids(&facts);
    assert_eq!(ids[0], encode_base36(full_hash("fact one"), 3));
}

#[test]
fn two_labels_without_collision_keep_three_digits() {
    let facts = vec![
        ("fact one".to_string(), None),
        ("fact two".to_string(), None),
    ];
    let ids = assign_ids(&facts);
    assert_eq!(ids[0], encode_base36(full_hash("fact one"), 3));
    assert_eq!(ids[1], encode_base36(full_hash("fact two"), 3));
}

#[test]
fn equal_labels_get_hash_then_hash_with_one() {
    let facts = vec![
        ("same label".to_string(), None),
        ("same label".to_string(), None),
    ];
    let ids = assign_ids(&facts);
    let base = encode_base36(full_hash("same label"), 3);
    assert_eq!(ids[0], base);
    assert_eq!(ids[1], format!("{base}1"));
}

#[test]
fn computed_id_colliding_with_explicit_id_is_extended() {
    let e = assign_ids(&[("alpha fact".to_string(), None)])[0].clone();
    let facts = vec![
        ("alpha fact".to_string(), None),
        ("beta fact".to_string(), Some(e.clone())),
    ];
    let ids = assign_ids(&facts);
    assert_eq!(ids[1], e);
    assert_ne!(ids[0], e);
    assert!(ids[0].len() > e.len());
    assert_eq!(ids[0], encode_base36(full_hash("alpha fact"), 4));
}

#[test]
fn assigned_ids_are_pairwise_distinct() {
    let facts = vec![
        ("a".to_string(), None),
        ("b".to_string(), Some("x1".to_string())),
        ("a".to_string(), None),
        ("c".to_string(), None),
        ("a".to_string(), None),
        ("d".to_string(), None),
    ];
    let ids = assign_ids(&facts);
    assert_eq!(ids.len(), facts.len());
    assert_eq!(ids[1], "x1");
    for i in 0..ids.len() {
        for j in 0..ids.len() {
            if i != j {
                assert_ne!(ids[i], ids[j]);
            }
        }
    }
}

#[test]
fn base36_encodings_extend_on_the_left() {
    for v in [0u128, 35, 36 * 36 + 10, full_hash("some fact"), u128::MAX] {
        let long = encode_base36(v, 7);
        assert_eq!(long.len(), 7);
        assert!(long.chars().all(|c| c.is_ascii_digit() || c.is_ascii_lowercase()));
        for k in 0..=7 {
            assert_eq!(&long[7 - k..], encode_base36(v, k));
        }
    }
}

#[test]
fn ids_are_short_codes_of_own_labels_without_collisions() {
    let labels = ["fact one", "fact two", "fact three"];
    let facts: Vec<(String, Option<String>)> = labels.iter().map(|l| (l.to_string(), None)).collect();
    let ids = assign_ids(&facts);
    let reversed: Vec<(String, Option<String>)> = facts.iter().rev().cloned().collect();
    let rids = assign_ids(&reversed);
    for (i, l) in labels.iter().enumerate() {
        assert_eq!(ids[i], encode_base36(full_hash(l), 3));
        assert_eq!(rids[labels.len() - 1 - i], ids[i]);
    }
}
