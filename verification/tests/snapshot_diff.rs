//! Diffs of storage snapshots.

use std::collections::BTreeMap;

use callora::snapshot::{diff_snapshots, Change};

#[test]
fn test_identical_snapshots() {
    let before = vec![("key1".to_string(), "val1".to_string())];
    let after = vec![("key1".to_string(), "val1".to_string())];
    let diff = diff_snapshots(&before, &after);
    assert!(diff.is_empty());
}

#[test]
fn test_added_keys() {
    let before = vec![];
    let after = vec![("key1".to_string(), "val1".to_string())];
    let diff = diff_snapshots(&before, &after);
    assert_eq!(
        diff,
        vec![Change::Added {
            key: "key1".to_string(),
            value: "val1".to_string(),
        }]
    );
}

#[test]
fn test_removed_keys() {
    let before = vec![("key1".to_string(), "val1".to_string())];
    let after = vec![];
    let diff = diff_snapshots(&before, &after);
    assert_eq!(
        diff,
        vec![Change::Removed {
            key: "key1".to_string(),
            value: "val1".to_string(),
        }]
    );
}

#[test]
fn test_modified_values() {
    let before = vec![("key1".to_string(), "val1".to_string())];
    let after = vec![("key1".to_string(), "val2".to_string())];
    let diff = diff_snapshots(&before, &after);
    assert_eq!(
        diff,
        vec![Change::Modified {
            key: "key1".to_string(),
            old_value: "val1".to_string(),
            new_value: "val2".to_string(),
        }]
    );
}

#[test]
fn test_multiple_changes() {
    let before = vec![
        ("key1".to_string(), "val1".to_string()),
        ("key2".to_string(), "val2".to_string()),
    ];
    let after = vec![
        ("key2".to_string(), "val2_mod".to_string()),
        ("key3".to_string(), "val3".to_string()),
    ];
    let diff = diff_snapshots(&before, &after);
    assert_eq!(
        diff,
        vec![
            Change::Removed {
                key: "key1".to_string(),
                value: "val1".to_string(),
            },
            Change::Modified {
                key: "key2".to_string(),
                old_value: "val2".to_string(),
                new_value: "val2_mod".to_string(),
            },
            Change::Added {
                key: "key3".to_string(),
                value: "val3".to_string(),
            },
        ]
    );
}

#[test]
fn test_empty_snapshots() {
    let before: Vec<(String, String)> = vec![];
    let after: Vec<(String, String)> = vec![];
    let diff = diff_snapshots(&before, &after);
    assert!(diff.is_empty());
}

#[test]
fn test_deterministic_ordering() {
    // Different input order should yield identical output order
    let before1 = vec![
        ("key2".to_string(), "val2".to_string()),
        ("key1".to_string(), "val1".to_string()),
    ];
    let after1 = vec![
        ("key3".to_string(), "val3".to_string()),
        ("key1".to_string(), "val1_mod".to_string()),
    ];

    let before2 = vec![
        ("key1".to_string(), "val1".to_string()),
        ("key2".to_string(), "val2".to_string()),
    ];
    let after2 = vec![
        ("key1".to_string(), "val1_mod".to_string()),
        ("key3".to_string(), "val3".to_string()),
    ];

    let diff1 = diff_snapshots(&before1, &after1);
    let diff2 = diff_snapshots(&before2, &after2);

    assert_eq!(diff1, diff2);
    assert_eq!(
        diff1,
        vec![
            Change::Modified {
                key: "key1".to_string(),
                old_value: "val1".to_string(),
                new_value: "val1_mod".to_string(),
            },
            Change::Removed {
                key: "key2".to_string(),
                value: "val2".to_string(),
            },
            Change::Added {
                key: "key3".to_string(),
                value: "val3".to_string(),
            },
        ]
    );
}

#[test]
fn test_realistic_fixtures() {
    // Simulated contract storage keys (represented as serialized hex strings/symbols)
    let before = vec![
        ("admin".to_string(), "GBBD47...".to_string()),
        ("balance".to_string(), "1000".to_string()),
        ("paused".to_string(), "false".to_string()),
    ];
    let after = vec![
        ("admin".to_string(), "GBBD47...".to_string()),
        ("balance".to_string(), "1500".to_string()), // modified
        ("paused".to_string(), "true".to_string()),  // modified
        ("pending_admin".to_string(), "GCCCCC...".to_string()), // added
    ];

    let diff = diff_snapshots(&before, &after);
    assert_eq!(
        diff,
        vec![
            Change::Modified {
                key: "balance".to_string(),
                old_value: "1000".to_string(),
                new_value: "1500".to_string(),
            },
            Change::Modified {
                key: "paused".to_string(),
                old_value: "false".to_string(),
                new_value: "true".to_string(),
            },
            Change::Added {
                key: "pending_admin".to_string(),
                value: "GCCCCC...".to_string(),
            },
        ]
    );
}

fn kv(k: &str, v: &str) -> (String, String) {
    (k.to_string(), v.to_string())
}

#[test]
fn diff_is_empty_for_reordered_equal_snapshots() {
    let before = vec![kv("a", "1"), kv("b", "2")];
    let after = vec![kv("b", "2"), kv("a", "1")];
    assert!(diff_snapshots(&before, &after).is_empty());
}

#[test]
fn later_entry_of_a_repeated_key_wins() {
    let before = vec![kv("a", "1"), kv("a", "2")];
    let after = vec![kv("a", "2")];
    assert!(diff_snapshots(&before, &after).is_empty());
    let after2 = vec![kv("a", "1")];
    assert_eq!(
        diff_snapshots(&before, &after2),
        vec![Change::Modified {
            key: "a".to_string(),
            old_value: "2".to_string(),
            new_value: "1".to_string(),
        }]
    );
}

#[test]
fn keys_are_reported_in_byte_order() {
    let before: Vec<(String, String)> = vec![];
    let after = vec![kv("b", "x"), kv("B", "x"), kv("ab", "x"), kv("a", "x"), kv("é", "x")];
    let diff = diff_snapshots(&before, &after);
    let keys: Vec<&String> = diff.iter().map(|c| c.key()).collect();
    assert_eq!(keys, vec!["B", "a", "ab", "b", "é"]);
}

#[test]
fn change_key_returns_the_key_of_each_variant() {
    let a: Change<String, String> = Change::Added { key: "k1".to_string(), value: "v".to_string() };
    let m: Change<String, String> = Change::Modified {
        key: "k2".to_string(),
        old_value: "v".to_string(),
        new_value: "w".to_string(),
    };
    let r: Change<String, String> = Change::Removed { key: "k3".to_string(), value: "v".to_string() };
    assert_eq!(a.key(), "k1");
    assert_eq!(m.key(), "k2");
    assert_eq!(r.key(), "k3");
}

#[test]
fn applying_the_diff_to_the_first_snapshot_gives_the_second() {
    let before = vec![pair("a", "1"), pair("b", "2"), pair("c", "3")];
    let after = vec![pair("c", "30"), pair("d", "4"), pair("a", "1")];
    let mut m: BTreeMap<String, String> = before.iter().cloned().collect();
    for change in diff_snapshots(&before, &after) {
        match change {
            Change::Added { key, value } => {
                assert!(!m.contains_key(&key));
                m.insert(key, value);
            }
            Change::Modified { key, old_value, new_value } => {
                assert_eq!(m.get(&key), Some(&old_value));
                m.insert(key, new_value);
            }
            Change::Removed { key, value } => {
                assert_eq!(m.get(&key), Some(&value));
                m.remove(&key);
            }
        }
    }
    let expected: BTreeMap<String, String> = after.iter().cloned().collect();
    assert_eq!(m, expected);
}

fn pair(k: &str, v: &str) -> (String, String) {
    (k.to_string(), v.to_string())
}
