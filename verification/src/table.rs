//! Tables keyed by name: a vector of (name, value) pairs in which no name
//! occurs twice, read as a map.

use vstd::prelude::*;
use crate::text::{chars_of, chars_eq};
use crate::seqs::{first_index, lemma_first_index, lemma_first_index_is, lemma_first_index_none, lemma_first_index_ext};

verus! {

/// The keys of a table.
pub open spec fn keys_of<V>(v: Seq<(String, V)>) -> Seq<Seq<char>> {
    v.map_values(|e: (String, V)| e.0@)
}

/// The positions holding `k`.
pub open spec fn key_pred(keys: Seq<Seq<char>>, k: Seq<char>) -> spec_fn(int) -> bool {
    |i: int| keys[i] == k
}

/// Where `k` is in a list of keys.
pub open spec fn key_index(keys: Seq<Seq<char>>, k: Seq<char>) -> Option<int> {
    first_index(keys.len(), key_pred(keys, k))
}

/// No key occurs twice.
pub open spec fn keys_distinct(keys: Seq<Seq<char>>) -> bool {
    forall|i: int, j: int| 0 <= i < j < keys.len() ==> keys[i] != keys[j]
}

/// The table as a map from keys to values.
pub open spec fn table_map<V>(v: Seq<(String, V)>) -> Map<Seq<char>, V> {
    Map::new(
        |k: Seq<char>| key_index(keys_of(v), k) is Some,
        |k: Seq<char>| v[key_index(keys_of(v), k)->0].1,
    )
}

pub proof fn lemma_key_index(keys: Seq<Seq<char>>, k: Seq<char>)
    ensures
        match key_index(keys, k) {
            Some(i) => 0 <= i < keys.len() && keys[i] == k && forall|j: int| 0 <= j < i ==> keys[j] != k,
            None => forall|j: int| 0 <= j < keys.len() ==> keys[j] != k,
        },
{
    let p = key_pred(keys, k);
    lemma_first_index(keys.len(), p);
    match key_index(keys, k) {
        Some(i) => {
            assert forall|j: int| 0 <= j < i implies keys[j] != k by {
                assert(!p(j));
            }
        },
        None => {
            assert forall|j: int| 0 <= j < keys.len() implies keys[j] != k by {
                assert(!p(j));
            }
        },
    }
}

/// Finds `k` among the keys of a table.
pub fn find_key<V>(v: &Vec<(String, V)>, k: &str) -> (r: Option<usize>)
    ensures
        match r {
            Some(i) => key_index(keys_of(v@), k@) == Some(i as int) && i < v@.len() && v@[i as int].0@ == k@,
            None => key_index(keys_of(v@), k@) == None::<int>,
        },
{
    let ghost keys = keys_of(v@);
    let ghost p = key_pred(keys, k@);
    let want = chars_of(k);
    let mut i: usize = 0;
    while i < v.len()
        invariant
            i <= v@.len(),
            keys == keys_of(v@),
            p == key_pred(keys, k@),
            want@ == k@,
            forall|j: int| 0 <= j < i ==> !#[trigger] p(j),
        decreases v@.len() - i,
    {
        let key = chars_of(v[i].0.as_str());
        assert(keys[i as int] == v@[i as int].0@);
        if chars_eq(key.as_slice(), want.as_slice()) {
            proof { lemma_first_index_is(keys.len(), p, i as int); }
            return Some(i);
        }
        i = i + 1;
    }
    proof { lemma_first_index_none(keys.len(), p); }
    None
}

/// Inserting into a table: the value of an existing key is replaced, a new
/// key is added at the end.
pub open spec fn table_insert<V>(v: Seq<(String, V)>, k: String, val: V) -> Seq<(String, V)> {
    match key_index(keys_of(v), k@) {
        Some(i) => v.update(i, (v[i].0, val)),
        None => v.push((k, val)),
    }
}

proof fn lemma_key_index_push(ks: Seq<Seq<char>>, k: Seq<char>, q: Seq<char>)
    ensures
        key_index(ks.push(k), q) == (if key_index(ks, q) is Some {
            key_index(ks, q)
        } else if q == k {
            Some(ks.len() as int)
        } else {
            None
        }),
{
    let ks2 = ks.push(k);
    lemma_first_index_ext(ks.len(), key_pred(ks, q), key_pred(ks2, q));
}

/// What inserting does to the map of a table.
pub proof fn lemma_table_insert<V>(v: Seq<(String, V)>, k: String, val: V)
    ensures
        table_map(table_insert(v, k, val)) == table_map(v).insert(k@, val),
        keys_distinct(keys_of(v)) ==> keys_distinct(keys_of(table_insert(v, k, val))),
{
    let v2 = table_insert(v, k, val);
    let ks = keys_of(v);
    let ks2 = keys_of(v2);
    lemma_key_index(ks, k@);
    match key_index(ks, k@) {
        Some(i) => {
            assert(ks2 =~= ks);
            assert forall|q: Seq<char>| #[trigger] key_index(ks2, q) is Some
                implies v2[key_index(ks2, q)->0].1 == (if q == k@ { val } else { v[key_index(ks, q)->0].1 }) by {
                lemma_key_index(ks, q);
            }
        },
        None => {
            assert(ks2 =~= ks.push(k@));
            assert forall|q: Seq<char>| #![trigger key_index(ks2, q)]
                key_index(ks2, q) == (if key_index(ks, q) is Some {
                    key_index(ks, q)
                } else if q == k@ {
                    Some(ks.len() as int)
                } else {
                    None
                }) by {
                lemma_key_index_push(ks, k@, q);
            }
            assert forall|q: Seq<char>| #[trigger] key_index(ks2, q) is Some
                implies v2[key_index(ks2, q)->0].1 == (if q == k@ { val } else { v[key_index(ks, q)->0].1 }) by {
                lemma_key_index(ks, q);
            }
        },
    }
    assert(table_map(v2) =~= table_map(v).insert(k@, val));
    if keys_distinct(ks) {
        assert forall|i: int, j: int| 0 <= i < j < ks2.len() implies ks2[i] != ks2[j] by {
            if key_index(ks, k@) is None && j == ks.len() {
                assert(ks[i] != k@);
            }
        }
    }
}

pub proof fn lemma_table_len<V>(v: Seq<(String, V)>)
    requires
        keys_distinct(keys_of(v)),
    ensures
        table_map(v).len() == v.len(),
{
    let ks = keys_of(v);
    assert(table_map(v).dom() =~= ks.to_set()) by {
        assert forall|k: Seq<char>| table_map(v).dom().contains(k) <==> ks.to_set().contains(k) by {
            lemma_first_index(ks.len(), |i: int| ks[i] == k);
            if ks.contains(k) {
                let j = choose|j: int| 0 <= j < ks.len() && ks[j] == k;
                assert((|i: int| ks[i] == k)(j));
            }
        }
    }
    ks.unique_seq_to_set();
}

} // verus!
