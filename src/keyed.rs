//! Lists of entries under distinct instrument names.
use vstd::prelude::*;
use crate::json::same_text;

verus! {

pub open spec fn has_key<T>(list: Seq<(String, T)>, key: Seq<char>) -> bool {
    exists|i: int| 0 <= i < list.len() && #[trigger] list[i].0@ == key
}

pub open spec fn keys_unique<T>(list: Seq<(String, T)>) -> bool {
    forall|i: int, j: int| 0 <= i < j < list.len() ==> list[i].0@ != list[j].0@
}

/// The entry under `key`, if there is one.
pub open spec fn value_at<T>(list: Seq<(String, T)>, key: Seq<char>) -> Option<T> {
    if has_key(list, key) {
        Some(list[choose|i: int| 0 <= i < list.len() && #[trigger] list[i].0@ == key].1)
    } else {
        None
    }
}

pub proof fn lemma_value_at_index<T>(list: Seq<(String, T)>, i: int)
    requires
        keys_unique(list),
        0 <= i < list.len(),
    ensures
        value_at(list, list[i].0@) == Some(list[i].1),
{
    let key = list[i].0@;
    assert(has_key(list, key));
    let j = choose|j: int| 0 <= j < list.len() && #[trigger] list[j].0@ == key;
    if j < i {
        assert(list[j].0@ != list[i].0@);
    } else if j > i {
        assert(list[i].0@ != list[j].0@);
    }
}

/// Replacing the entry at one place changes what its key finds, and nothing else.
pub proof fn lemma_update<T>(list: Seq<(String, T)>, i: int, v: T)
    requires
        keys_unique(list),
        0 <= i < list.len(),
    ensures
        keys_unique(list.update(i, (list[i].0, v))),
        forall|key: Seq<char>|
            #[trigger] value_at(list.update(i, (list[i].0, v)), key) == if key == list[i].0@ {
                Some(v)
            } else {
                value_at(list, key)
            },
{
    let new = list.update(i, (list[i].0, v));
    assert forall|a: int, b: int| 0 <= a < b < new.len() implies new[a].0@ != new[b].0@ by {
        assert(new[a].0 == list[a].0 && new[b].0 == list[b].0);
    }
    assert forall|key: Seq<char>|
        #[trigger] value_at(new, key) == if key == list[i].0@ {
            Some(v)
        } else {
            value_at(list, key)
        } by {
        if key == list[i].0@ {
            lemma_value_at_index(new, i);
        } else {
            if has_key(list, key) {
                let j = choose|j: int| 0 <= j < list.len() && #[trigger] list[j].0@ == key;
                lemma_value_at_index(list, j);
                lemma_value_at_index(new, j);
            } else {
                assert(!has_key(new, key)) by {
                    if has_key(new, key) {
                        let j = choose|j: int| 0 <= j < new.len() && #[trigger] new[j].0@ == key;
                        assert(list[j].0@ == key);
                    }
                }
            }
        }
    }
}

/// Adding an entry under a new key makes that key find it, and nothing else.
pub proof fn lemma_push<T>(list: Seq<(String, T)>, k: String, v: T)
    requires
        keys_unique(list),
        !has_key(list, k@),
    ensures
        keys_unique(list.push((k, v))),
        forall|key: Seq<char>|
            #[trigger] value_at(list.push((k, v)), key) == if key == k@ {
                Some(v)
            } else {
                value_at(list, key)
            },
{
    let new = list.push((k, v));
    assert forall|a: int, b: int| 0 <= a < b < new.len() implies new[a].0@ != new[b].0@ by {
        if b == list.len() {
            assert(list[a].0@ == new[a].0@);
        } else {
            assert(new[a].0 == list[a].0 && new[b].0 == list[b].0);
        }
    }
    assert forall|key: Seq<char>|
        #[trigger] value_at(new, key) == if key == k@ {
            Some(v)
        } else {
            value_at(list, key)
        } by {
        if key == k@ {
            lemma_value_at_index(new, list.len() as int);
        } else {
            if has_key(list, key) {
                let j = choose|j: int| 0 <= j < list.len() && #[trigger] list[j].0@ == key;
                lemma_value_at_index(list, j);
                lemma_value_at_index(new, j);
            } else {
                assert(!has_key(new, key)) by {
                    if has_key(new, key) {
                        let j = choose|j: int| 0 <= j < new.len() && #[trigger] new[j].0@ == key;
                        assert(j < list.len());
                        assert(list[j].0@ == key);
                    }
                }
            }
        }
    }
}

/// The place of the entry under `key`.
pub fn find_key<T>(list: &Vec<(String, T)>, key: &str) -> (r: Option<usize>)
    ensures
        r matches Some(i) ==> i < list@.len() && list@[i as int].0@ == key@,
        r is None ==> !has_key(list@, key@),
{
    let mut i: usize = 0;
    while i < list.len()
        invariant
            i <= list@.len(),
            forall|j: int| 0 <= j < i ==> list@[j].0@ != key@,
        decreases list.len() - i,
    {
        if same_text(list[i].0.as_str(), key) {
            return Some(i);
        }
        i = i + 1;
    }
    None
}

/// The list read as a map from names to entries.
pub open spec fn key_map<T>(list: Seq<(String, T)>) -> Map<Seq<char>, T> {
    Map::new(|k: Seq<char>| has_key(list, k), |k: Seq<char>| value_at(list, k)->0)
}

/// The names of a list, in order.
pub open spec fn key_names<T>(list: Seq<(String, T)>) -> Seq<Seq<char>> {
    list.map_values(|e: (String, T)| e.0@)
}

/// Stores `value` under `key`, in place of any entry already there.
pub fn put<T>(list: &mut Vec<(String, T)>, key: String, value: T)
    requires
        keys_unique(old(list)@),
    ensures
        keys_unique(final(list)@),
        key_map(final(list)@) == key_map(old(list)@).insert(key@, value),
        forall|k: Seq<char>| #[trigger] value_at(final(list)@, k) == if k == key@ {
            Some(value)
        } else {
            value_at(old(list)@, k)
        },
{
    let ghost pre = list@;
    let ghost v = value;
    match find_key(list, key.as_str()) {
        Some(i) => {
            let (k, _stale) = list.remove(i);
            list.insert(i, (k, value));
            proof {
                assert(list@ =~= pre.update(i as int, (pre[i as int].0, v)));
                lemma_update(pre, i as int, v);
            }
        },
        None => {
            let ghost kk = key;
            list.push((key, value));
            proof {
                lemma_push(pre, kk, v);
            }
        },
    }
    proof {
        let m = key_map(list@);
        let want = key_map(pre).insert(key@, v);
        assert forall|k: Seq<char>| #[trigger] m.contains_key(k) == want.contains_key(k) by {
            assert(has_key(list@, k) == value_at(list@, k) is Some);
            assert(has_key(pre, k) == value_at(pre, k) is Some);
        }
        assert(m =~= want);
    }
}

/// The names of a list, one string per entry, in order.
pub fn names_of<T>(list: &Vec<(String, T)>) -> (r: Vec<String>)
    ensures
        r@.map_values(|s: String| s@) == key_names(list@),
{
    let mut out: Vec<String> = Vec::new();
    let mut i: usize = 0;
    while i < list.len()
        invariant
            i <= list@.len(),
            out@.map_values(|s: String| s@) == key_names(list@).subrange(0, i as int),
        decreases list.len() - i,
    {
        let name = list[i].0.clone();
        assert(name@ == key_names(list@)[i as int]);
        let ghost prev = out@;
        out.push(name);
        assert(out@.map_values(|s: String| s@) =~= prev.map_values(|s: String| s@).push(name@));
        assert(out@.map_values(|s: String| s@) =~= key_names(list@).subrange(0, i + 1));
        i = i + 1;
    }
    assert(key_names(list@).subrange(0, list@.len() as int) =~= key_names(list@));
    out
}

/// A name is in the map exactly when it is among the list's names.
pub proof fn lemma_key_names<T>(list: Seq<(String, T)>)
    ensures
        forall|k: Seq<char>| #[trigger] key_map(list).contains_key(k) <==> key_names(list).contains(k),
{
    assert forall|k: Seq<char>| #[trigger] key_map(list).contains_key(k) <==> key_names(list).contains(k) by {
        if has_key(list, k) {
            let i = choose|i: int| 0 <= i < list.len() && #[trigger] list[i].0@ == k;
            assert(key_names(list)[i] == k);
        }
        if key_names(list).contains(k) {
            let i = choose|i: int| 0 <= i < key_names(list).len() && key_names(list)[i] == k;
            assert(list[i].0@ == k);
        }
    }
}

} // verus!
