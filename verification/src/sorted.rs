//! Lists kept sorted by a text key, each key once.

use vstd::prelude::*;

use crate::text::{lemma_order, sorts_before, sorts_before_of};

verus! {

/// Where `key` belongs among the first `n` sorted keys, going down: behind all that
/// sort before it.
pub open spec fn slot(keys: Seq<Seq<char>>, key: Seq<char>, n: nat) -> nat
    decreases n,
{
    if n == 0 || n > keys.len() || sorts_before(keys[n - 1], key) {
        n
    } else {
        slot(keys, key, (n - 1) as nat)
    }
}

/// The keys of a list.
pub open spec fn keys<V>(list: Seq<(Seq<char>, V)>) -> Seq<Seq<char>> {
    list.map_values(|e: (Seq<char>, V)| e.0)
}

/// A sorted list with one more entry; an entry of the same key is replaced.
pub open spec fn filed<V>(list: Seq<(Seq<char>, V)>, key: Seq<char>, value: V) -> Seq<
    (Seq<char>, V),
> {
    let k = slot(keys(list), key, list.len()) as int;
    if k < list.len() && list[k].0 == key {
        list.update(k, (key, value))
    } else {
        list.insert(k, (key, value))
    }
}

/// Whether a list is sorted by key, each key once.
pub open spec fn is_sorted<V>(list: Seq<(Seq<char>, V)>) -> bool {
    forall|i: int, j: int|
        0 <= i < j < list.len() ==> sorts_before((#[trigger] list[i]).0, (#[trigger] list[j]).0)
}

/// The texts of the keys of a list.
pub open spec fn key_texts<V>(list: Seq<(String, V)>) -> Seq<Seq<char>> {
    list.map_values(|e: (String, V)| e.0@)
}

/// Where `key` belongs in a sorted list.
pub fn slot_of<V>(list: &Vec<(String, V)>, key: &str) -> (r: usize)
    ensures
        r == slot(key_texts(list@), key@, list@.len()),
        r <= list@.len(),
{
    let ghost all = key_texts(list@);
    let mut k: usize = list.len();
    while k > 0 && !sorts_before_of(list[k - 1].0.as_str(), key)
        invariant
            k <= list@.len(),
            all == key_texts(list@),
            slot(all, key@, list@.len()) == slot(all, key@, k as nat),
        decreases k,
    {
        assert(all[k - 1] == list@[k - 1].0@);
        k = k - 1;
    }
    assert(k > 0 ==> all[k - 1] == list@[k - 1].0@);
    k
}

proof fn lemma_slot<V>(list: Seq<(Seq<char>, V)>, key: Seq<char>, n: nat)
    requires
        n <= list.len(),
        is_sorted(list),
    ensures
        slot(keys(list), key, n) <= n,
        forall|i: int|
            0 <= i < slot(keys(list), key, n) ==> sorts_before((#[trigger] list[i]).0, key),
        forall|i: int|
            slot(keys(list), key, n) <= i < n ==> !sorts_before((#[trigger] list[i]).0, key),
    decreases n,
{
    if n > 0 {
        assert(keys(list)[n - 1] == list[n - 1].0);
        if sorts_before(list[n - 1].0, key) {
            assert forall|i: int| 0 <= i < n implies sorts_before((#[trigger] list[i]).0, key) by {
                if i < n - 1 {
                    lemma_order(list[i].0, list[n - 1].0, key);
                }
            }
        } else {
            lemma_slot(list, key, (n - 1) as nat);
        }
    }
}

/// Filing an entry keeps a list sorted, and the entry is in it.
pub proof fn lemma_filed<V>(list: Seq<(Seq<char>, V)>, key: Seq<char>, value: V)
    requires
        is_sorted(list),
    ensures
        is_sorted(filed(list, key, value)),
        filed(list, key, value).contains((key, value)),
{
    lemma_slot(list, key, list.len());
    let k = slot(keys(list), key, list.len()) as int;
    let out = filed(list, key, value);
    assert(out[k] == (key, value));
    assert forall|i: int, j: int| 0 <= i < j < out.len() implies sorts_before(
        (#[trigger] out[i]).0,
        (#[trigger] out[j]).0,
    ) by {
        if k < list.len() && list[k].0 == key {
            assert(sorts_before(list[i].0, list[j].0));
        } else {
            if i < k {
                assert(out[i] == list[i]);
            } else if i > k {
                assert(out[i] == list[i - 1]);
            }
            if j < k {
                assert(out[j] == list[j]);
            } else if j > k {
                assert(out[j] == list[j - 1]);
                lemma_order(key, list[j - 1].0, key);
                if j > k + 1 {
                    assert(sorts_before(list[k].0, list[j - 1].0));
                    lemma_order(key, list[k].0, list[j - 1].0);
                    lemma_order(key, list[k].0, key);
                }
            }
        }
    }
}

/// Filing an entry changes nothing under any other key, and leaves nothing else under its own.
pub proof fn lemma_filed_members<V>(list: Seq<(Seq<char>, V)>, key: Seq<char>, value: V, k: Seq<char>, v: V)
    requires
        is_sorted(list),
    ensures
        filed(list, key, value).contains((k, v)) <==> if k == key {
            v == value
        } else {
            list.contains((k, v))
        },
{
    lemma_filed(list, key, value);
    lemma_slot(list, key, list.len());
    let at = slot(keys(list), key, list.len()) as int;
    let out = filed(list, key, value);
    assert(out[at] == (key, value));
    if out.contains((k, v)) {
        let i = choose|i: int| 0 <= i < out.len() && out[i] == (k, v);
        if i != at {
            lemma_order(key, k, key);
            if k == key {
                if i < at {
                    assert(sorts_before(out[i].0, out[at].0));
                } else {
                    assert(sorts_before(out[at].0, out[i].0));
                }
                lemma_order(key, key, key);
            }
            if at < list.len() && list[at].0 == key {
                assert(list[i] == (k, v));
            } else if i < at {
                assert(list[i] == (k, v));
            } else {
                assert(list[i - 1] == (k, v));
            }
        }
    }
    if k != key && list.contains((k, v)) {
        let i = choose|i: int| 0 <= i < list.len() && list[i] == (k, v);
        if at < list.len() && list[at].0 == key {
            assert(out[i] == (k, v));
        } else if i < at {
            assert(out[i] == (k, v));
        } else {
            assert(out[i + 1] == (k, v));
        }
    }
}

} // verus!
