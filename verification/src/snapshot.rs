//! Diffing of storage snapshots given as lists of key/value pairs.
//!
//! A snapshot denotes a map: when a key occurs more than once, its last
//! occurrence wins. The diff lists every key whose entry differs between the
//! two maps, exactly once, in ascending key order, so that the report does
//! not depend on the order of either input.

use vstd::prelude::*;
use crate::lexorder::{compare_strings, lemma_str_irreflexive, lemma_str_total, lemma_str_transitive, str_lt};

verus! {

/// A single change found when comparing two storage snapshots.
#[derive(Debug, Clone, PartialEq, Eq)]
pub enum Change<K, V> {
    /// An entry was added to the storage snapshot.
    Added { key: K, value: V },
    /// An existing entry had its value modified.
    Modified { key: K, old_value: V, new_value: V },
    /// An entry was removed from the storage snapshot.
    Removed { key: K, value: V },
}

impl<K, V> Change<K, V> {
    /// The key a change is about.
    pub open spec fn spec_key(&self) -> K {
        match self {
            Change::Added { key, .. } => *key,
            Change::Modified { key, .. } => *key,
            Change::Removed { key, .. } => *key,
        }
    }

    /// Return a reference to the key associated with this change.
    pub fn key(&self) -> (r: &K)
        ensures
            *r == self.spec_key(),
    {
        match self {
            Change::Added { key, .. } => key,
            Change::Modified { key, .. } => key,
            Change::Removed { key, .. } => key,
        }
    }
}

/// The map a snapshot denotes: later occurrences of a key override earlier ones.
pub open spec fn snapshot_map(s: Seq<(String, String)>) -> Map<Seq<char>, Seq<char>>
    decreases s.len(),
{
    if s.len() == 0 {
        Map::empty()
    } else {
        snapshot_map(s.drop_last()).insert(s.last().0@, s.last().1@)
    }
}

/// The keys of `s` are in strictly ascending order.
pub open spec fn keys_ascending(s: Seq<(String, String)>) -> bool {
    forall|i: int, j: int| 0 <= i < j < s.len() ==> str_lt(#[trigger] s[i].0@, #[trigger] s[j].0@)
}

/// The change list `cs` has keys in strictly ascending order.
pub open spec fn changes_ascending(cs: Seq<Change<String, String>>) -> bool {
    forall|i: int, j: int|
        0 <= i < j < cs.len() ==> str_lt(#[trigger] cs[i].spec_key()@, #[trigger] cs[j].spec_key()@)
}

/// Key `k` has a different entry (or none) in `after` than in `before`.
pub open spec fn changed(
    k: Seq<char>,
    before: Map<Seq<char>, Seq<char>>,
    after: Map<Seq<char>, Seq<char>>,
) -> bool {
    &&& (before.contains_key(k) || after.contains_key(k))
    &&& !(before.contains_key(k) && after.contains_key(k) && before[k] == after[k])
}

/// `c` correctly reports the change of its key from `before` to `after`.
pub open spec fn reports(
    c: Change<String, String>,
    before: Map<Seq<char>, Seq<char>>,
    after: Map<Seq<char>, Seq<char>>,
) -> bool {
    match c {
        Change::Added { key, value } => !before.contains_key(key@) && after.contains_key(key@)
            && after[key@] == value@,
        Change::Removed { key, value } => before.contains_key(key@) && !after.contains_key(key@)
            && before[key@] == value@,
        Change::Modified { key, old_value, new_value } => before.contains_key(key@)
            && after.contains_key(key@) && before[key@] != after[key@] && old_value@ == before[key@]
            && new_value@ == after[key@],
    }
}

/// `cs` is the diff from `before` to `after`: every changed key reported
/// exactly once, correctly, in ascending key order.
pub open spec fn is_diff(
    cs: Seq<Change<String, String>>,
    before: Map<Seq<char>, Seq<char>>,
    after: Map<Seq<char>, Seq<char>>,
) -> bool {
    &&& changes_ascending(cs)
    &&& forall|i: int| 0 <= i < cs.len() ==> reports(#[trigger] cs[i], before, after)
    &&& forall|k: Seq<char>|
        changed(k, before, after) ==> exists|i: int|
            0 <= i < cs.len() && (#[trigger] cs[i].spec_key())@ == k
}

/// `k` is the key of some entry of `s`.
pub open spec fn has_key(s: Seq<(String, String)>, k: Seq<char>) -> bool {
    exists|i: int| 0 <= i < s.len() && (#[trigger] s[i]).0@ == k
}

/// In an ascending list, the map holds exactly the listed entries.
proof fn lemma_ascending_map(s: Seq<(String, String)>)
    requires
        keys_ascending(s),
    ensures
        forall|k: Seq<char>| #[trigger] snapshot_map(s).contains_key(k) <==> has_key(s, k),
        forall|i: int| 0 <= i < s.len() ==> snapshot_map(s)[(#[trigger] s[i]).0@] == s[i].1@,
    decreases s.len(),
{
    if s.len() > 0 {
        let t = s.drop_last();
        assert(keys_ascending(t));
        lemma_ascending_map(t);
        assert forall|k: Seq<char>| #[trigger] snapshot_map(s).contains_key(k) implies has_key(s, k) by {
            if k != s.last().0@ {
                assert(snapshot_map(t).contains_key(k));
                let i = choose|i: int| 0 <= i < t.len() && (#[trigger] t[i]).0@ == k;
                assert(s[i] == t[i]);
            } else {
                assert(s[s.len() - 1].0@ == k);
            }
        }
        assert forall|k: Seq<char>| has_key(s, k) implies #[trigger] snapshot_map(s).contains_key(k) by {
            let i = choose|i: int| 0 <= i < s.len() && (#[trigger] s[i]).0@ == k;
            if i < s.len() - 1 {
                assert(t[i] == s[i]);
            }
        }
        assert forall|i: int| 0 <= i < s.len() implies snapshot_map(s)[(#[trigger] s[i]).0@]
            == s[i].1@ by {
            if i < s.len() - 1 {
                assert(t[i] == s[i]);
                assert(str_lt(s[i].0@, s[s.len() - 1].0@));
                lemma_str_irreflexive(s[i].0@);
            }
        }
    }
}

/// Build the ascending, key-distinct list of the entries of snapshot `s`.
fn ascending_entries(s: &[(String, String)]) -> (r: Vec<(String, String)>)
    ensures
        keys_ascending(r@),
        snapshot_map(r@) == snapshot_map(s@),
{
    let mut r: Vec<(String, String)> = Vec::new();
    let mut n: usize = 0;
    while n < s.len()
        invariant
            0 <= n <= s@.len(),
            keys_ascending(r@),
            snapshot_map(r@) == snapshot_map(s@.subrange(0, n as int)),
        decreases s@.len() - n,
    {
        let k = s[n].0.clone();
        let v = s[n].1.clone();
        let ghost old_r = r@;
        // Find the first entry whose key is not below `k`.
        let mut p: usize = 0;
        let mut found_equal = false;
        while p < r.len()
            invariant_except_break
                r@ == old_r,
                0 <= p <= r@.len(),
                !found_equal,
                forall|j: int| 0 <= j < p ==> str_lt(#[trigger] r@[j].0@, k@),
            ensures
                r@ == old_r,
                0 <= p <= r@.len(),
                forall|j: int| 0 <= j < p ==> str_lt(#[trigger] r@[j].0@, k@),
                found_equal ==> p < r@.len() && r@[p as int].0@ == k@,
                !found_equal ==> p == r@.len() || str_lt(k@, r@[p as int].0@),
            decreases r@.len() - p,
        {
            let c = compare_strings(&r[p].0, &k);
            if c >= 0 {
                found_equal = c == 0;
                break;
            }
            p = p + 1;
        }
        proof {
            lemma_ascending_map(old_r);
            assert(s@.subrange(0, n + 1).drop_last() =~= s@.subrange(0, n as int));
            assert(s@.subrange(0, n + 1).last() == s@[n as int]);
        }
        if found_equal {
            r.set(p, (k, v));
            proof {
                assert forall|i: int, j: int| 0 <= i < j < r@.len() implies str_lt(
                    #[trigger] r@[i].0@,
                    #[trigger] r@[j].0@,
                ) by {
                    assert(r@[i].0@ == old_r[i].0@);
                    assert(r@[j].0@ == old_r[j].0@);
                }
                lemma_ascending_map(r@);
                assert(snapshot_map(r@) =~= snapshot_map(old_r).insert(k@, v@)) by {
                    assert forall|x: Seq<char>| #[trigger] snapshot_map(r@).contains_key(x) implies snapshot_map(old_r).insert(k@, v@).contains_key(x) by {
                        let i = choose|i: int| 0 <= i < r@.len() && (#[trigger] r@[i]).0@ == x;
                        assert(old_r[i].0@ == x);
                    }
                    assert forall|x: Seq<char>| #[trigger] snapshot_map(old_r).insert(k@, v@).contains_key(x) implies snapshot_map(r@).contains_key(x) && snapshot_map(r@)[x] == snapshot_map(old_r).insert(k@, v@)[x] by {
                        if x == k@ {
                            assert(r@[p as int].0@ == x);
                        } else {
                            let i = choose|i: int| 0 <= i < old_r.len() && (#[trigger] old_r[i]).0@ == x;
                            assert(r@[i] == old_r[i]);
                        }
                    }
                }
            }
        } else {
            r.insert(p, (k, v));
            proof {
                assert forall|i: int, j: int| 0 <= i < j < r@.len() implies str_lt(
                    #[trigger] r@[i].0@,
                    #[trigger] r@[j].0@,
                ) by {
                    if j < p {
                        assert(r@[i] == old_r[i] && r@[j] == old_r[j]);
                    } else if j == p {
                        assert(r@[i] == old_r[i]);
                    } else if i < p {
                        assert(r@[i] == old_r[i] && r@[j] == old_r[j - 1]);
                        assert(str_lt(old_r[i].0@, k@));
                        if j - 1 > p {
                            assert(str_lt(old_r[p as int].0@, old_r[j - 1].0@));
                            lemma_str_transitive(k@, old_r[p as int].0@, old_r[j - 1].0@);
                        }
                        lemma_str_transitive(old_r[i].0@, k@, old_r[j - 1].0@);
                    } else if i == p {
                        assert(r@[j] == old_r[j - 1]);
                        if j - 1 > p {
                            assert(str_lt(old_r[p as int].0@, old_r[j - 1].0@));
                            lemma_str_transitive(k@, old_r[p as int].0@, old_r[j - 1].0@);
                        }
                    } else {
                        assert(r@[i] == old_r[i - 1] && r@[j] == old_r[j - 1]);
                    }
                }
                lemma_ascending_map(r@);
                assert(!has_key(old_r, k@)) by {
                    if has_key(old_r, k@) {
                        let i = choose|i: int| 0 <= i < old_r.len() && (#[trigger] old_r[i]).0@ == k@;
                        lemma_str_irreflexive(k@);
                        if i > p {
                            assert(str_lt(old_r[p as int].0@, old_r[i].0@));
                            lemma_str_transitive(k@, old_r[p as int].0@, k@);
                        }
                    }
                }
                assert(snapshot_map(r@) =~= snapshot_map(old_r).insert(k@, v@)) by {
                    assert forall|x: Seq<char>| #[trigger] snapshot_map(r@).contains_key(x) implies snapshot_map(old_r).insert(k@, v@).contains_key(x) by {
                        let i = choose|i: int| 0 <= i < r@.len() && (#[trigger] r@[i]).0@ == x;
                        if i < p {
                            assert(r@[i] == old_r[i]);
                        } else if i > p {
                            assert(r@[i] == old_r[i - 1]);
                        }
                    }
                    assert forall|x: Seq<char>| #[trigger] snapshot_map(old_r).insert(k@, v@).contains_key(x) implies snapshot_map(r@).contains_key(x) && snapshot_map(r@)[x] == snapshot_map(old_r).insert(k@, v@)[x] by {
                        if x == k@ {
                            assert(r@[p as int].0@ == x);
                        } else {
                            let i = choose|i: int| 0 <= i < old_r.len() && (#[trigger] old_r[i]).0@ == x;
                            if i < p {
                                assert(r@[i] == old_r[i]);
                            } else {
                                assert(r@[i + 1] == old_r[i]);
                            }
                        }
                    }
                }
            }
        }
        n = n + 1;
    }
    assert(s@.subrange(0, s@.len() as int) =~= s@);
    r
}

/// Diff two storage snapshots given as lists of key/value pairs.
///
/// Identifies entries that were added, removed or modified and leaves out
/// identical ones. The changes come in ascending key order, whatever the order
/// of the inputs.
pub fn diff_snapshots(before: &[(String, String)], after: &[(String, String)]) -> (r: Vec<
    Change<String, String>,
>)
    ensures
        is_diff(r@, snapshot_map(before@), snapshot_map(after@)),
{
    let b = ascending_entries(before);
    let a = ascending_entries(after);
    let ghost mb = snapshot_map(before@);
    let ghost ma = snapshot_map(after@);
    proof {
        lemma_ascending_map(b@);
        lemma_ascending_map(a@);
    }
    let mut changes: Vec<Change<String, String>> = Vec::new();
    let mut bi: usize = 0;
    let mut ai: usize = 0;
    while bi < b.len() || ai < a.len()
        invariant
            0 <= bi <= b@.len(),
            0 <= ai <= a@.len(),
            keys_ascending(b@),
            keys_ascending(a@),
            mb == snapshot_map(b@),
            ma == snapshot_map(a@),
            forall|k: Seq<char>| #[trigger] mb.contains_key(k) <==> has_key(b@, k),
            forall|i: int| 0 <= i < b@.len() ==> mb[(#[trigger] b@[i]).0@] == b@[i].1@,
            forall|k: Seq<char>| #[trigger] ma.contains_key(k) <==> has_key(a@, k),
            forall|i: int| 0 <= i < a@.len() ==> ma[(#[trigger] a@[i]).0@] == a@[i].1@,
            // every processed key sorts before every unprocessed one
            forall|i: int, j: int|
                0 <= i < bi && ai <= j < a@.len() ==> str_lt(#[trigger] b@[i].0@, #[trigger] a@[j].0@),
            forall|i: int, j: int|
                0 <= i < ai && bi <= j < b@.len() ==> str_lt(#[trigger] a@[i].0@, #[trigger] b@[j].0@),
            // every reported change is correct and about a processed key
            changes_ascending(changes@),
            forall|i: int| 0 <= i < changes@.len() ==> reports(#[trigger] changes@[i], mb, ma),
            forall|i: int| #![trigger changes@[i]]
                0 <= i < changes@.len() ==> (exists|j: int|
                    0 <= j < bi && (#[trigger] b@[j]).0@ == changes@[i].spec_key()@) || (exists|j: int|
                    0 <= j < ai && (#[trigger] a@[j]).0@ == changes@[i].spec_key()@),
            // every changed processed key is reported
            forall|j: int|
                0 <= j < bi && changed((#[trigger] b@[j]).0@, mb, ma) ==> exists|i: int|
                    0 <= i < changes@.len() && (#[trigger] changes@[i].spec_key())@ == b@[j].0@,
            forall|j: int|
                0 <= j < ai && changed((#[trigger] a@[j]).0@, mb, ma) ==> exists|i: int|
                    0 <= i < changes@.len() && (#[trigger] changes@[i].spec_key())@ == a@[j].0@,
        decreases b@.len() - bi + a@.len() - ai,
    {
        let ghost old_changes = changes@;
        let ghost old_bi = bi as int;
        let ghost old_ai = ai as int;
        // 1: take from before only, 2: from after only, 3: from both
        let step: u8 = if bi < b.len() && ai < a.len() {
            let c = compare_strings(&b[bi].0, &a[ai].0);
            if c < 0 {
                1
            } else if c > 0 {
                2
            } else {
                3
            }
        } else if bi < b.len() {
            1
        } else {
            2
        };
        let ghost key: Seq<char> = if step == 2 { a@[ai as int].0@ } else { b@[bi as int].0@ };
        proof {
            // the key about to be processed sorts after every reported one
            assert forall|i: int| 0 <= i < old_changes.len() implies str_lt(
                #[trigger] old_changes[i].spec_key()@,
                key,
            ) by {
                if exists|j: int| 0 <= j < old_bi && (#[trigger] b@[j]).0@ == old_changes[i].spec_key()@ {
                    let j = choose|j: int| 0 <= j < old_bi && (#[trigger] b@[j]).0@ == old_changes[i].spec_key()@;
                    if step == 2 {
                        assert(str_lt(b@[j].0@, a@[old_ai].0@));
                    } else {
                        assert(str_lt(b@[j].0@, b@[old_bi].0@));
                    }
                } else {
                    let j = choose|j: int| 0 <= j < old_ai && (#[trigger] a@[j]).0@ == old_changes[i].spec_key()@;
                    if step == 2 {
                        assert(str_lt(a@[j].0@, a@[old_ai].0@));
                    } else {
                        assert(str_lt(a@[j].0@, b@[old_bi].0@));
                    }
                }
            }
            if step == 1 {
                // the key of before[bi] is not in after
                assert(!ma.contains_key(key)) by {
                    if ma.contains_key(key) {
                        let j = choose|j: int| 0 <= j < a@.len() && (#[trigger] a@[j]).0@ == key;
                        if j < old_ai {
                            assert(str_lt(a@[j].0@, b@[old_bi].0@));
                            lemma_str_irreflexive(key);
                        } else if j == old_ai {
                            lemma_str_irreflexive(key);
                        } else {
                            assert(str_lt(a@[old_ai].0@, a@[j].0@));
                            assert(str_lt(key, a@[old_ai].0@));
                            lemma_str_transitive(key, a@[old_ai].0@, a@[j].0@);
                            lemma_str_irreflexive(key);
                        }
                    }
                }
            }
            if step == 2 {
                assert(!mb.contains_key(key)) by {
                    if mb.contains_key(key) {
                        let j = choose|j: int| 0 <= j < b@.len() && (#[trigger] b@[j]).0@ == key;
                        if j < old_bi {
                            assert(str_lt(b@[j].0@, a@[old_ai].0@));
                            lemma_str_irreflexive(key);
                        } else if j == old_bi {
                            lemma_str_irreflexive(key);
                        } else {
                            assert(str_lt(b@[old_bi].0@, b@[j].0@));
                            assert(str_lt(key, b@[old_bi].0@));
                            lemma_str_transitive(key, b@[old_bi].0@, b@[j].0@);
                            lemma_str_irreflexive(key);
                        }
                    }
                }
            }
        }
        if step == 1 {
            changes.push(Change::Removed { key: b[bi].0.clone(), value: b[bi].1.clone() });
            bi = bi + 1;
        } else if step == 2 {
            changes.push(Change::Added { key: a[ai].0.clone(), value: a[ai].1.clone() });
            ai = ai + 1;
        } else {
            if b[bi].1 != a[ai].1 {
                changes.push(
                    Change::Modified {
                        key: b[bi].0.clone(),
                        old_value: b[bi].1.clone(),
                        new_value: a[ai].1.clone(),
                    },
                );
            }
            bi = bi + 1;
            ai = ai + 1;
        }
        proof {
            // ordering of processed against unprocessed keys
            assert forall|i: int, j: int| 0 <= i < bi && ai <= j < a@.len() implies str_lt(
                #[trigger] b@[i].0@,
                #[trigger] a@[j].0@,
            ) by {
                if i == old_bi {
                    if step == 1 {
                        if j > old_ai {
                            assert(str_lt(a@[old_ai].0@, a@[j].0@));
                            lemma_str_total(b@[old_bi].0@, a@[old_ai].0@);
                            lemma_str_transitive(b@[old_bi].0@, a@[old_ai].0@, a@[j].0@);
                        } else {
                            lemma_str_total(b@[old_bi].0@, a@[old_ai].0@);
                        }
                    } else {
                        assert(str_lt(a@[old_ai].0@, a@[j].0@));
                    }
                } else if i < old_bi && step == 2 && j >= ai {
                    assert(str_lt(b@[i].0@, a@[j].0@));
                }
            }
            assert forall|i: int, j: int| 0 <= i < ai && bi <= j < b@.len() implies str_lt(
                #[trigger] a@[i].0@,
                #[trigger] b@[j].0@,
            ) by {
                if i == old_ai {
                    if step == 2 {
                        if j > old_bi {
                            assert(str_lt(b@[old_bi].0@, b@[j].0@));
                            lemma_str_total(a@[old_ai].0@, b@[old_bi].0@);
                            lemma_str_transitive(a@[old_ai].0@, b@[old_bi].0@, b@[j].0@);
                        } else {
                            lemma_str_total(a@[old_ai].0@, b@[old_bi].0@);
                        }
                    } else {
                        assert(str_lt(b@[old_bi].0@, b@[j].0@));
                    }
                }
            }
            assert(changes_ascending(changes@)) by {
                assert forall|i: int, j: int| 0 <= i < j < changes@.len() implies str_lt(
                    #[trigger] changes@[i].spec_key()@,
                    #[trigger] changes@[j].spec_key()@,
                ) by {
                    if j < old_changes.len() {
                        assert(changes@[i] == old_changes[i] && changes@[j] == old_changes[j]);
                    } else {
                        assert(changes@[i] == old_changes[i]);
                    }
                }
            }
            assert forall|i: int| #![trigger changes@[i]] 0 <= i < changes@.len() implies (exists|j: int|
                0 <= j < bi && (#[trigger] b@[j]).0@ == changes@[i].spec_key()@) || (exists|j: int|
                0 <= j < ai && (#[trigger] a@[j]).0@ == changes@[i].spec_key()@) by {
                if i >= old_changes.len() {
                    if step == 2 {
                        assert(a@[old_ai].0@ == changes@[i].spec_key()@);
                    } else {
                        assert(b@[old_bi].0@ == changes@[i].spec_key()@);
                    }
                } else {
                    assert(changes@[i] == old_changes[i]);
                }
            }
            assert forall|j: int|
                0 <= j < bi && changed((#[trigger] b@[j]).0@, mb, ma) implies exists|i: int|
                0 <= i < changes@.len() && (#[trigger] changes@[i].spec_key())@ == b@[j].0@ by {
                if j == old_bi {
                    let i = changes@.len() - 1;
                    assert(changes@[i].spec_key()@ == b@[j].0@);
                } else {
                    let i = choose|i: int| 0 <= i < old_changes.len() && (#[trigger] old_changes[i].spec_key())@ == b@[j].0@;
                    assert(changes@[i] == old_changes[i]);
                }
            }
            assert forall|j: int|
                0 <= j < ai && changed((#[trigger] a@[j]).0@, mb, ma) implies exists|i: int|
                0 <= i < changes@.len() && (#[trigger] changes@[i].spec_key())@ == a@[j].0@ by {
                if j == old_ai {
                    let i = changes@.len() - 1;
                    assert(changes@[i].spec_key()@ == a@[j].0@);
                } else {
                    let i = choose|i: int| 0 <= i < old_changes.len() && (#[trigger] old_changes[i].spec_key())@ == a@[j].0@;
                    assert(changes@[i] == old_changes[i]);
                }
            }
            assert forall|i: int| 0 <= i < changes@.len() implies reports(#[trigger] changes@[i], mb, ma) by {
                if i < old_changes.len() {
                    assert(changes@[i] == old_changes[i]);
                }
            }
        }
    }
    proof {
        assert forall|k: Seq<char>| changed(k, mb, ma) implies exists|i: int|
            0 <= i < changes@.len() && (#[trigger] changes@[i].spec_key())@ == k by {
            if mb.contains_key(k) {
                let j = choose|j: int| 0 <= j < b@.len() && (#[trigger] b@[j]).0@ == k;
                assert(changed(b@[j].0@, mb, ma));
            } else {
                let j = choose|j: int| 0 <= j < a@.len() && (#[trigger] a@[j]).0@ == k;
                assert(changed(a@[j].0@, mb, ma));
            }
        }
    }
    changes
}

/// The diff is empty exactly when the two snapshots denote the same map.
pub proof fn law_diff_empty_iff_same_map(
    cs: Seq<Change<String, String>>,
    before: Map<Seq<char>, Seq<char>>,
    after: Map<Seq<char>, Seq<char>>,
)
    requires
        is_diff(cs, before, after),
    ensures
        cs.len() == 0 <==> before == after,
{
    if cs.len() == 0 {
        assert forall|k: Seq<char>| #[trigger] before.contains_key(k) implies after.contains_key(k)
            && before[k] == after[k] by {
            if changed(k, before, after) {
                let i = choose|i: int| 0 <= i < cs.len() && (#[trigger] cs[i].spec_key())@ == k;
            }
        }
        assert forall|k: Seq<char>| #[trigger] after.contains_key(k) implies before.contains_key(k) by {
            if changed(k, before, after) {
                let i = choose|i: int| 0 <= i < cs.len() && (#[trigger] cs[i].spec_key())@ == k;
            }
        }
        assert(before =~= after);
    } else if before == after {
        assert(reports(cs[0], before, after));
    }
}

/// A reported change is about a key whose entry changed.
proof fn lemma_reported_key_changed(
    c: Change<String, String>,
    before: Map<Seq<char>, Seq<char>>,
    after: Map<Seq<char>, Seq<char>>,
)
    requires
        reports(c, before, after),
    ensures
        changed(c.spec_key()@, before, after),
{
}

/// Two diffs of the same pair of maps list the same keys in the same
/// order: the report does not depend on how the snapshots were listed.
pub proof fn law_diff_keys_determined(
    d1: Seq<Change<String, String>>,
    d2: Seq<Change<String, String>>,
    before: Map<Seq<char>, Seq<char>>,
    after: Map<Seq<char>, Seq<char>>,
)
    requires
        is_diff(d1, before, after),
        is_diff(d2, before, after),
    ensures
        d1.len() == d2.len(),
        forall|i: int| 0 <= i < d1.len() ==> (#[trigger] d1[i]).spec_key()@ == d2[i].spec_key()@,
{
    lemma_diff_prefix_keys_agree(d1, d2, before, after, if d1.len() < d2.len() {
        d1.len() as int
    } else {
        d2.len() as int
    });
    if d1.len() < d2.len() {
        lemma_diff_no_extra(d1, d2, before, after);
    } else if d2.len() < d1.len() {
        lemma_diff_no_extra(d2, d1, before, after);
    }
}

/// Two diffs of the same maps agree on their first `n` keys.
proof fn lemma_diff_prefix_keys_agree(
    d1: Seq<Change<String, String>>,
    d2: Seq<Change<String, String>>,
    before: Map<Seq<char>, Seq<char>>,
    after: Map<Seq<char>, Seq<char>>,
    n: int,
)
    requires
        is_diff(d1, before, after),
        is_diff(d2, before, after),
        0 <= n <= d1.len(),
        n <= d2.len(),
    ensures
        forall|i: int| 0 <= i < n ==> (#[trigger] d1[i]).spec_key()@ == d2[i].spec_key()@,
    decreases n,
{
    if n > 0 {
        lemma_diff_prefix_keys_agree(d1, d2, before, after, n - 1);
        let i = n - 1;
        let k1 = d1[i].spec_key()@;
        let k2 = d2[i].spec_key()@;
        if k1 != k2 {
            lemma_str_total(k1, k2);
            if str_lt(k1, k2) {
                lemma_key_found_at_or_after(d1, d2, before, after, i);
            } else {
                lemma_key_found_at_or_after(d2, d1, before, after, i);
            }
        }
    }
}

/// When two diffs agree on their first `i` keys, the key `d1[i]` cannot
/// sort strictly before `d2[i]`.
proof fn lemma_key_found_at_or_after(
    d1: Seq<Change<String, String>>,
    d2: Seq<Change<String, String>>,
    before: Map<Seq<char>, Seq<char>>,
    after: Map<Seq<char>, Seq<char>>,
    i: int,
)
    requires
        is_diff(d1, before, after),
        is_diff(d2, before, after),
        0 <= i < d1.len(),
        i < d2.len(),
        forall|j: int| 0 <= j < i ==> (#[trigger] d1[j]).spec_key()@ == d2[j].spec_key()@,
    ensures
        !str_lt(d1[i].spec_key()@, d2[i].spec_key()@),
{
    let k1 = d1[i].spec_key()@;
    if str_lt(k1, d2[i].spec_key()@) {
        assert(reports(d1[i], before, after));
        lemma_reported_key_changed(d1[i], before, after);
        let j = choose|j: int| 0 <= j < d2.len() && (#[trigger] d2[j].spec_key())@ == k1;
        if j < i {
            assert(d1[j].spec_key()@ == k1);
            assert(str_lt(d1[j].spec_key()@, d1[i].spec_key()@));
            lemma_str_irreflexive(k1);
        } else if j == i {
            lemma_str_irreflexive(k1);
        } else {
            assert(str_lt(d2[i].spec_key()@, d2[j].spec_key()@));
            lemma_str_transitive(k1, d2[i].spec_key()@, k1);
            lemma_str_irreflexive(k1);
        }
    }
}

/// A diff that agrees with another, at least as long, on all its keys is
/// as long as it: there is no room for a further key.
proof fn lemma_diff_no_extra(
    d1: Seq<Change<String, String>>,
    d2: Seq<Change<String, String>>,
    before: Map<Seq<char>, Seq<char>>,
    after: Map<Seq<char>, Seq<char>>,
)
    requires
        is_diff(d1, before, after),
        is_diff(d2, before, after),
        d1.len() <= d2.len(),
        forall|j: int| 0 <= j < d1.len() ==> (#[trigger] d1[j]).spec_key()@ == d2[j].spec_key()@,
    ensures
        d1.len() == d2.len(),
{
    if d1.len() < d2.len() {
        let n = d1.len() as int;
        let k = d2[n].spec_key()@;
        assert(reports(d2[n], before, after));
        lemma_reported_key_changed(d2[n], before, after);
        let j = choose|j: int| 0 <= j < d1.len() && (#[trigger] d1[j].spec_key())@ == k;
        assert(d2[j].spec_key()@ == k);
        assert(str_lt(d2[j].spec_key()@, d2[n].spec_key()@));
        lemma_str_irreflexive(k);
    }
}


/// A change with its strings taken by their views.
pub open spec fn change_view(c: Change<String, String>) -> Change<Seq<char>, Seq<char>> {
    match c {
        Change::Added { key, value } => Change::Added { key: key@, value: value@ },
        Change::Modified { key, old_value, new_value } => Change::Modified {
            key: key@,
            old_value: old_value@,
            new_value: new_value@,
        },
        Change::Removed { key, value } => Change::Removed { key: key@, value: value@ },
    }
}

/// Two diffs of the same pair of maps are the same list of changes.
pub proof fn law_diff_determined(
    d1: Seq<Change<String, String>>,
    d2: Seq<Change<String, String>>,
    before: Map<Seq<char>, Seq<char>>,
    after: Map<Seq<char>, Seq<char>>,
)
    requires
        is_diff(d1, before, after),
        is_diff(d2, before, after),
    ensures
        d1.len() == d2.len(),
        forall|i: int| 0 <= i < d1.len() ==> change_view(#[trigger] d1[i]) == change_view(d2[i]),
{
    law_diff_keys_determined(d1, d2, before, after);
    assert forall|i: int| 0 <= i < d1.len() implies change_view(#[trigger] d1[i]) == change_view(
        d2[i],
    ) by {
        assert(reports(d1[i], before, after));
        assert(reports(d2[i], before, after));
        assert(d1[i].spec_key()@ == d2[i].spec_key()@);
    }
}

/// No key occurs twice in `s`.
pub open spec fn keys_distinct(s: Seq<(String, String)>) -> bool {
    forall|i: int, j: int| 0 <= i < j < s.len() ==> (#[trigger] s[i]).0@ != (#[trigger] s[j]).0@
}

/// `s` lists an entry with key `k` and value `v`.
pub open spec fn lists_entry(s: Seq<(String, String)>, k: Seq<char>, v: Seq<char>) -> bool {
    exists|j: int| 0 <= j < s.len() && (#[trigger] s[j]).0@ == k && s[j].1@ == v
}

/// `s1` and `s2` list the same entries, each perhaps in another order.
pub open spec fn same_entries(s1: Seq<(String, String)>, s2: Seq<(String, String)>) -> bool {
    &&& forall|i: int| 0 <= i < s1.len() ==> lists_entry(s2, (#[trigger] s1[i]).0@, s1[i].1@)
    &&& forall|j: int| 0 <= j < s2.len() ==> lists_entry(s1, (#[trigger] s2[j]).0@, s2[j].1@)
}

/// In a list without repeated keys, the map holds exactly the listed
/// entries.
proof fn lemma_distinct_map(s: Seq<(String, String)>)
    requires
        keys_distinct(s),
    ensures
        forall|k: Seq<char>| #[trigger] snapshot_map(s).contains_key(k) <==> has_key(s, k),
        forall|i: int| 0 <= i < s.len() ==> snapshot_map(s)[(#[trigger] s[i]).0@] == s[i].1@,
    decreases s.len(),
{
    if s.len() > 0 {
        let t = s.drop_last();
        assert forall|i: int, j: int| 0 <= i < j < t.len() implies (#[trigger] t[i]).0@ != (
        #[trigger] t[j]).0@ by {
            assert(t[i] == s[i] && t[j] == s[j]);
        }
        lemma_distinct_map(t);
        assert forall|k: Seq<char>| #[trigger] snapshot_map(s).contains_key(k) implies has_key(s, k) by {
            if k != s.last().0@ {
                assert(snapshot_map(t).contains_key(k));
                let i = choose|i: int| 0 <= i < t.len() && (#[trigger] t[i]).0@ == k;
                assert(s[i] == t[i]);
            } else {
                assert(s[s.len() - 1].0@ == k);
            }
        }
        assert forall|k: Seq<char>| has_key(s, k) implies #[trigger] snapshot_map(s).contains_key(k) by {
            let i = choose|i: int| 0 <= i < s.len() && (#[trigger] s[i]).0@ == k;
            if i < s.len() - 1 {
                assert(t[i] == s[i]);
            }
        }
        assert forall|i: int| 0 <= i < s.len() implies snapshot_map(s)[(#[trigger] s[i]).0@]
            == s[i].1@ by {
            if i < s.len() - 1 {
                assert(t[i] == s[i]);
                assert(s[i].0@ != s[s.len() - 1].0@);
            }
        }
    }
}

/// Two lists without repeated keys that list the same entries denote the
/// same map.
proof fn lemma_same_entries_same_map(s1: Seq<(String, String)>, s2: Seq<(String, String)>)
    requires
        keys_distinct(s1),
        keys_distinct(s2),
        same_entries(s1, s2),
    ensures
        snapshot_map(s1) == snapshot_map(s2),
{
    lemma_distinct_map(s1);
    lemma_distinct_map(s2);
    let m1 = snapshot_map(s1);
    let m2 = snapshot_map(s2);
    assert forall|k: Seq<char>| #[trigger] m1.contains_key(k) implies m2.contains_key(k) && m1[k]
        == m2[k] by {
        let i = choose|i: int| 0 <= i < s1.len() && (#[trigger] s1[i]).0@ == k;
        assert(lists_entry(s2, s1[i].0@, s1[i].1@));
        let j = choose|j: int| 0 <= j < s2.len() && (#[trigger] s2[j]).0@ == k && s2[j].1@ == s1[i].1@;
        assert(has_key(s2, k));
        assert(m2[s2[j].0@] == s2[j].1@);
        assert(m1[s1[i].0@] == s1[i].1@);
    }
    assert forall|k: Seq<char>| #[trigger] m2.contains_key(k) implies m1.contains_key(k) by {
        let j = choose|j: int| 0 <= j < s2.len() && (#[trigger] s2[j]).0@ == k;
        assert(lists_entry(s1, s2[j].0@, s2[j].1@));
        let i = choose|i: int| 0 <= i < s1.len() && (#[trigger] s1[i]).0@ == k && s1[i].1@ == s2[j].1@;
        assert(has_key(s1, k));
    }
    assert(m1 =~= m2);
}

/// The diff does not depend on the order in which the snapshots list their
/// entries: two diffs of snapshots that list the same entries, without a
/// repeated key, are the same list of changes.
pub proof fn law_diff_order_independent(
    before1: Seq<(String, String)>,
    after1: Seq<(String, String)>,
    before2: Seq<(String, String)>,
    after2: Seq<(String, String)>,
    d1: Seq<Change<String, String>>,
    d2: Seq<Change<String, String>>,
)
    requires
        keys_distinct(before1),
        keys_distinct(after1),
        keys_distinct(before2),
        keys_distinct(after2),
        same_entries(before1, before2),
        same_entries(after1, after2),
        is_diff(d1, snapshot_map(before1), snapshot_map(after1)),
        is_diff(d2, snapshot_map(before2), snapshot_map(after2)),
    ensures
        d1.len() == d2.len(),
        forall|i: int| 0 <= i < d1.len() ==> change_view(#[trigger] d1[i]) == change_view(d2[i]),
{
    lemma_same_entries_same_map(before1, before2);
    lemma_same_entries_same_map(after1, after2);
    law_diff_determined(d1, d2, snapshot_map(before1), snapshot_map(after1));
}

/// The map after applying change `c` to `m`; `None` when `c` does not fit
/// `m` (an added key already present, a modified or removed entry holding
/// another value).
pub open spec fn apply_change(m: Map<Seq<char>, Seq<char>>, c: Change<String, String>) -> Option<
    Map<Seq<char>, Seq<char>>,
> {
    match c {
        Change::Added { key, value } => if !m.contains_key(key@) {
            Some(m.insert(key@, value@))
        } else {
            None
        },
        Change::Modified { key, old_value, new_value } => if m.contains_key(key@) && m[key@]
            == old_value@ {
            Some(m.insert(key@, new_value@))
        } else {
            None
        },
        Change::Removed { key, value } => if m.contains_key(key@) && m[key@] == value@ {
            Some(m.remove(key@))
        } else {
            None
        },
    }
}

/// The map after applying the changes of `cs` to `m` in turn.
pub open spec fn apply_changes(m: Map<Seq<char>, Seq<char>>, cs: Seq<Change<String, String>>) -> Option<
    Map<Seq<char>, Seq<char>>,
>
    decreases cs.len(),
{
    if cs.len() == 0 {
        Some(m)
    } else {
        match apply_changes(m, cs.drop_last()) {
            None => None,
            Some(p) => apply_change(p, cs.last()),
        }
    }
}

/// `k` is the key of one of the first `n` changes of `cs`.
pub open spec fn in_prefix(cs: Seq<Change<String, String>>, n: int, k: Seq<char>) -> bool {
    exists|i: int| 0 <= i < n && (#[trigger] cs[i].spec_key())@ == k
}

/// `before` with the entries of the keys of the first `n` changes taken
/// from `after`.
pub open spec fn patched(
    before: Map<Seq<char>, Seq<char>>,
    after: Map<Seq<char>, Seq<char>>,
    cs: Seq<Change<String, String>>,
    n: int,
) -> Map<Seq<char>, Seq<char>> {
    Map::new(
        |k: Seq<char>|
            if in_prefix(cs, n, k) {
                after.contains_key(k)
            } else {
                before.contains_key(k)
            },
        |k: Seq<char>|
            if in_prefix(cs, n, k) {
                after[k]
            } else {
                before[k]
            },
    )
}

/// Applying the first `n` changes of a diff to the first map fits at every
/// step and takes the entries of their keys from the second map.
proof fn lemma_apply_prefix(
    cs: Seq<Change<String, String>>,
    before: Map<Seq<char>, Seq<char>>,
    after: Map<Seq<char>, Seq<char>>,
    n: int,
)
    requires
        is_diff(cs, before, after),
        0 <= n <= cs.len(),
    ensures
        apply_changes(before, cs.subrange(0, n)) == Some(patched(before, after, cs, n)),
    decreases n,
{
    if n == 0 {
        assert(cs.subrange(0, 0) =~= Seq::<Change<String, String>>::empty());
        assert(patched(before, after, cs, 0) =~= before);
    } else {
        lemma_apply_prefix(cs, before, after, n - 1);
        let pre = cs.subrange(0, n);
        assert(pre.drop_last() =~= cs.subrange(0, n - 1));
        assert(pre.last() == cs[n - 1]);
        let c = cs[n - 1];
        let k = c.spec_key()@;
        let p = patched(before, after, cs, n - 1);
        assert(!in_prefix(cs, n - 1, k)) by {
            if in_prefix(cs, n - 1, k) {
                let i = choose|i: int| 0 <= i < n - 1 && (#[trigger] cs[i].spec_key())@ == k;
                assert(str_lt(cs[i].spec_key()@, cs[n - 1].spec_key()@));
                lemma_str_irreflexive(k);
            }
        }
        assert(p.contains_key(k) == before.contains_key(k));
        assert(before.contains_key(k) ==> p[k] == before[k]);
        assert(reports(c, before, after));
        assert(in_prefix(cs, n, k)) by {
            assert(cs[n - 1].spec_key()@ == k);
        }
        let q = patched(before, after, cs, n);
        assert forall|x: Seq<char>| x != k implies in_prefix(cs, n, x) == in_prefix(cs, n - 1, x) by {
            if in_prefix(cs, n, x) {
                let i = choose|i: int| 0 <= i < n && (#[trigger] cs[i].spec_key())@ == x;
                assert(i != n - 1);
            }
        }
        match c {
            Change::Added { key, value } => {
                assert(apply_change(p, c) == Some(p.insert(k, value@)));
                assert(p.insert(k, value@) =~= q);
            },
            Change::Modified { key, old_value, new_value } => {
                assert(apply_change(p, c) == Some(p.insert(k, new_value@)));
                assert(p.insert(k, new_value@) =~= q);
            },
            Change::Removed { key, value } => {
                assert(apply_change(p, c) == Some(p.remove(k)));
                assert(p.remove(k) =~= q);
            },
        }
    }
}

/// Applying a diff to the first map, change by change, always fits and
/// gives the second map.
pub proof fn law_diff_applies(
    cs: Seq<Change<String, String>>,
    before: Map<Seq<char>, Seq<char>>,
    after: Map<Seq<char>, Seq<char>>,
)
    requires
        is_diff(cs, before, after),
    ensures
        apply_changes(before, cs) == Some(after),
{
    lemma_apply_prefix(cs, before, after, cs.len() as int);
    assert(cs.subrange(0, cs.len() as int) =~= cs);
    let q = patched(before, after, cs, cs.len() as int);
    assert forall|k: Seq<char>| !in_prefix(cs, cs.len() as int, k) implies !changed(k, before, after) by {
        if changed(k, before, after) {
            let i = choose|i: int| 0 <= i < cs.len() && (#[trigger] cs[i].spec_key())@ == k;
            assert(in_prefix(cs, cs.len() as int, k));
        }
    }
    assert forall|k: Seq<char>| #[trigger] q.contains_key(k) == after.contains_key(k) by {
        if !in_prefix(cs, cs.len() as int, k) {
            assert(!changed(k, before, after));
        }
    }
    assert forall|k: Seq<char>| #[trigger] q.contains_key(k) implies q[k] == after[k] by {
        if !in_prefix(cs, cs.len() as int, k) {
            assert(!changed(k, before, after));
        }
    }
    assert(q =~= after);
}

} // verus!
