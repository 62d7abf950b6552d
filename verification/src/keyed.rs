use vstd::prelude::*;

verus! {

/// Position of the first entry whose key is `k`, or the number of entries
/// when no entry has that key.
pub open spec fn key_pos<V>(entries: Seq<(String, V)>, k: Seq<char>) -> int
    decreases entries.len(),
{
    if entries.len() == 0 {
        0
    } else if entries[0].0@ == k {
        0
    } else {
        1 + key_pos(entries.drop_first(), k)
    }
}

/// The value stored under `k` (the first entry with that key).
pub open spec fn lookup<V>(entries: Seq<(String, V)>, k: Seq<char>) -> Option<V> {
    if key_pos(entries, k) < entries.len() {
        Some(entries[key_pos(entries, k)].1)
    } else {
        None
    }
}

/// The keys of a list of entries.
pub open spec fn keys_of<V>(entries: Seq<(String, V)>) -> Seq<Seq<char>> {
    entries.map_values(|e: (String, V)| e.0@)
}

pub proof fn lemma_key_pos<V>(entries: Seq<(String, V)>, k: Seq<char>)
    ensures
        0 <= key_pos(entries, k) <= entries.len(),
        forall|j: int| 0 <= j < key_pos(entries, k) ==> entries[j].0@ != k,
        key_pos(entries, k) < entries.len() ==> entries[key_pos(entries, k)].0@ == k,
    decreases entries.len(),
{
    if entries.len() > 0 && entries[0].0@ != k {
        lemma_key_pos(entries.drop_first(), k);
        assert forall|j: int| 0 <= j < key_pos(entries, k) implies entries[j].0@ != k by {
            if j > 0 {
                assert(entries[j] == entries.drop_first()[j - 1]);
            }
        }
    }
}

/// The position of the first entry with key `k`, if any.
pub fn find_key<V>(entries: &Vec<(String, V)>, k: &str) -> (r: Option<usize>)
    ensures
        match r {
            Some(i) => i < entries.len() && i == key_pos(entries@, k@),
            None => key_pos(entries@, k@) == entries.len(),
        },
{
    proof { lemma_key_pos(entries@, k@); }
    let mut i: usize = 0;
    while i < entries.len()
        invariant
            i <= entries.len(),
            forall|j: int| 0 <= j < i ==> entries@[j].0@ != k@,
            0 <= key_pos(entries@, k@) <= entries.len(),
            forall|j: int| 0 <= j < key_pos(entries@, k@) ==> entries@[j].0@ != k@,
            key_pos(entries@, k@) < entries.len() ==> entries@[key_pos(entries@, k@)].0@ == k@,
        decreases entries.len() - i,
    {
        if crate::text::str_eq(entries[i].0.as_str(), k) {
            return Some(i);
        }
        i = i + 1;
    }
    None
}

/// The entries after storing `v` under `k`: the entry of `k` replaced, or
/// a new one appended.
pub open spec fn put_result<V>(entries: Seq<(String, V)>, k: String, v: V) -> Seq<(String, V)> {
    if key_pos(entries, k@) < entries.len() {
        entries.update(key_pos(entries, k@), (k, v))
    } else {
        entries.push((k, v))
    }
}

/// The entries after removing the one stored under `k`, if any.
pub open spec fn remove_result<V>(entries: Seq<(String, V)>, k: Seq<char>) -> Seq<(String, V)> {
    if key_pos(entries, k) < entries.len() {
        entries.remove(key_pos(entries, k))
    } else {
        entries
    }
}

/// Replaces the entry stored under `k`, or appends one when there is none:
/// the effect of `HashMap::insert` on a list of entries.
pub fn put_entry<V>(entries: &mut Vec<(String, V)>, k: String, v: V)
    ensures
        final(entries)@ == put_result(old(entries)@, k, v),
{
    match find_key(entries, k.as_str()) {
        Some(i) => {
            entries.remove(i);
            entries.insert(i, (k, v));
            assert(entries@ =~= old(entries)@.update(i as int, (k, v)));
        },
        None => {
            entries.push((k, v));
        },
    }
}

/// Removes the first entry stored under `k`, if any, and tells whether
/// there was one (the effect of `HashMap::remove` on a list with distinct keys).
pub fn remove_entry<V>(entries: &mut Vec<(String, V)>, k: &str) -> (removed: bool)
    ensures
        removed == (key_pos(old(entries)@, k@) < old(entries)@.len()),
        final(entries)@ == remove_result(old(entries)@, k@),
{
    match find_key(entries, k) {
        Some(i) => {
            entries.remove(i);
            true
        },
        None => false,
    }
}

/// No key occurs twice (as in a map).
pub open spec fn distinct_keys<V>(entries: Seq<(String, V)>) -> bool {
    forall|i: int, j: int| 0 <= i < j < entries.len() ==> entries[i].0@ != entries[j].0@
}

/// Whether no key occurs twice.
pub fn has_distinct_keys<V>(entries: &Vec<(String, V)>) -> (r: bool)
    ensures
        r == distinct_keys(entries@),
{
    let mut j: usize = 0;
    while j < entries.len()
        invariant
            j <= entries.len(),
            forall|a: int, b: int| 0 <= a < b < j ==> entries@[a].0@ != entries@[b].0@,
        decreases entries.len() - j,
    {
        proof {
            lemma_key_pos(entries@, entries@[j as int].0@);
        }
        match find_key(entries, entries[j].0.as_str()) {
            Some(p) => {
                if p != j {
                    assert(entries@[p as int].0@ == entries@[j as int].0@);
                    return false;
                }
            },
            None => {},
        }
        j = j + 1;
    }
    true
}

/// The entry holding `k` is the first one, when keys are distinct.
pub proof fn lemma_key_pos_at<V>(entries: Seq<(String, V)>, k: Seq<char>, i: int)
    requires
        0 <= i < entries.len(),
        entries[i].0@ == k,
        distinct_keys(entries),
    ensures
        key_pos(entries, k) == i,
{
    lemma_key_pos(entries, k);
    if key_pos(entries, k) < i {
        assert(entries[key_pos(entries, k)].0@ == entries[i].0@);
    }
}

/// Looking up a key after appending an entry.
pub proof fn lemma_lookup_push<V>(entries: Seq<(String, V)>, k: String, v: V, q: Seq<char>)
    ensures
        lookup(entries.push((k, v)), q) == (if key_pos(entries, q) < entries.len() {
            lookup(entries, q)
        } else if k@ == q {
            Some(v)
        } else {
            None
        }),
{
    let e2 = entries.push((k, v));
    lemma_key_pos(entries, q);
    lemma_key_pos(e2, q);
    let p = key_pos(entries, q);
    assert forall|j: int| 0 <= j < p implies e2[j].0@ != q by {
        assert(e2[j] == entries[j]);
    }
    if p < entries.len() {
        assert(e2[p] == entries[p]);
        lemma_key_pos_unique(e2, q, p);
    } else if k@ == q {
        lemma_key_pos_unique(e2, q, p);
    } else {
        assert(e2[p].0@ != q);
        lemma_key_pos_unique(e2, q, p + 1);
    }
}

proof fn lemma_key_pos_unique<V>(entries: Seq<(String, V)>, k: Seq<char>, i: int)
    requires
        0 <= i <= entries.len(),
        forall|j: int| 0 <= j < i ==> entries[j].0@ != k,
        i == entries.len() || entries[i].0@ == k,
    ensures
        key_pos(entries, k) == i,
{
    lemma_key_pos(entries, k);
    if key_pos(entries, k) < i {
        assert(entries[key_pos(entries, k)].0@ == k);
    }
    if key_pos(entries, k) > i {
        assert(i < entries.len());
    }
}

/// What `put_entry` leaves under each key: the new value under `k`, the
/// old ones elsewhere; distinct keys stay distinct.
pub proof fn lemma_put_entry_lookup<V>(entries: Seq<(String, V)>, k: String, v: V, q: Seq<char>)
    ensures
        lookup(put_result(entries, k, v), q) == (if q == k@ { Some(v) } else { lookup(entries, q) }),
        distinct_keys(entries) ==> distinct_keys(put_result(entries, k, v)),
{
    lemma_key_pos(entries, k@);
    lemma_key_pos(entries, q);
    let p = key_pos(entries, k@);
    if p < entries.len() {
        let after = entries.update(p, (k, v));
        assert forall|j: int| 0 <= j < after.len() implies after[j].0@ == entries[j].0@ by {}
        let pq = key_pos(entries, q);
        assert forall|j: int| 0 <= j < pq implies after[j].0@ != q by {
            assert(after[j].0@ == entries[j].0@);
        }
        if pq < entries.len() {
            assert(after[pq].0@ == entries[pq].0@);
        }
        lemma_key_pos_unique(after, q, pq);
        if distinct_keys(entries) {
            assert forall|i: int, j: int| 0 <= i < j < after.len() implies after[i].0@ != after[j].0@ by {
                assert(after[i].0@ == entries[i].0@);
                assert(after[j].0@ == entries[j].0@);
            }
        }
    } else {
        lemma_lookup_push(entries, k, v, q);
        let after = entries.push((k, v));
        if distinct_keys(entries) {
            assert forall|i: int, j: int| 0 <= i < j < after.len() implies after[i].0@ != after[j].0@ by {
                if j == entries.len() {
                    assert(after[i] == entries[i]);
                    assert(entries[i].0@ != k@);
                } else {
                    assert(after[i] == entries[i]);
                    assert(after[j] == entries[j]);
                }
            }
        }
    }
}

/// What `remove_entry` leaves under each key of a map with distinct keys:
/// nothing under `k`, the old values elsewhere; keys stay distinct.
pub proof fn lemma_remove_entry_lookup<V>(entries: Seq<(String, V)>, k: Seq<char>, q: Seq<char>)
    requires
        distinct_keys(entries),
    ensures
        lookup(remove_result(entries, k), q) == (if q == k { None } else { lookup(entries, q) }),
        distinct_keys(remove_result(entries, k)),
{
    lemma_key_pos(entries, k);
    lemma_key_pos(entries, q);
    let p = key_pos(entries, k);
    if p < entries.len() {
        let after = entries.remove(p);
        assert forall|i: int, j: int| 0 <= i < j < after.len() implies after[i].0@ != after[j].0@ by {
            let oi = if i < p { i } else { i + 1 };
            let oj = if j < p { j } else { j + 1 };
            assert(after[i] == entries[oi]);
            assert(after[j] == entries[oj]);
        }
        if q == k {
            assert forall|j: int| 0 <= j < after.len() implies after[j].0@ != q by {
                let oj = if j < p { j } else { j + 1 };
                assert(after[j] == entries[oj]);
            }
            lemma_key_pos_unique(after, q, after.len() as int);
        } else {
            let pq = key_pos(entries, q);
            if pq < entries.len() {
                assert(pq != p);
                let np = if pq < p { pq } else { pq - 1 };
                assert(after[np] == entries[pq]);
                assert forall|j: int| 0 <= j < np implies after[j].0@ != q by {
                    let oj = if j < p { j } else { j + 1 };
                    assert(after[j] == entries[oj]);
                }
                lemma_key_pos_unique(after, q, np);
            } else {
                assert forall|j: int| 0 <= j < after.len() implies after[j].0@ != q by {
                    let oj = if j < p { j } else { j + 1 };
                    assert(after[j] == entries[oj]);
                }
                lemma_key_pos_unique(after, q, after.len() as int);
            }
        }
    } else {
        if q == k {
            assert(lookup(entries, q) is None);
        }
    }
}

} // verus!
