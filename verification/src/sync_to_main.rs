//! The delivery subsystem that pushes accumulated read and expiration-time
//! statistics back to the main node.
//!
//! Four coalescing queues accumulate pending updates per table (and per
//! table + partition for the row queues); a single-flight coordinator hands
//! out at most one event awaiting confirmation at a time, in fixed queue
//! priority order, and returns an in-flight event to its queue's tail on
//! disconnect.
//!
//! This module holds the spec-level helpers the queues share: ordered,
//! deduplicating key merges, and string-vector cloning with exact contracts.

use vstd::prelude::*;

pub mod sync_queues;
pub mod sync_to_main_node_event;
pub mod sync_to_main_node_handler;
pub mod update_entity_statistics_data;
pub mod update_partition_expiration_time_queue;
pub mod update_partitions_last_read_time_queue;
pub mod update_rows_expiration_time_queue;
pub mod update_rows_last_read_time_queue;

pub use sync_queues::{DeliverToMainNodeEvent, SyncQueuesInner, SyncToMainNodeQueues};
pub use sync_to_main_node_event::SyncToMainNodeEvent;
pub use update_entity_statistics_data::UpdateEntityStatisticsData;

verus! {

/// Adds one key to a key set unless it is already present; presence is by
/// string value, and a new key goes to the back.
pub open spec fn insert_key(keys: Seq<Seq<char>>, key: Seq<char>) -> Seq<Seq<char>> {
    if keys.contains(key) {
        keys
    } else {
        keys.push(key)
    }
}

/// Merges `added` into `keys` front to back, deduplicating by string value.
pub open spec fn merge_keys(keys: Seq<Seq<char>>, added: Seq<Seq<char>>) -> Seq<Seq<char>>
    decreases added.len(),
{
    if added.len() == 0 {
        keys
    } else {
        merge_keys(insert_key(keys, added[0]), added.drop_first())
    }
}

/// Merging splits over concatenation of the added keys.
pub proof fn lemma_merge_keys_concat(keys: Seq<Seq<char>>, a: Seq<Seq<char>>, b: Seq<Seq<char>>)
    ensures
        merge_keys(keys, a + b) == merge_keys(merge_keys(keys, a), b),
    decreases a.len(),
{
    if a.len() == 0 {
        assert(a + b =~= b);
    } else {
        assert((a + b)[0] == a[0]);
        assert((a + b).drop_first() =~= a.drop_first() + b);
        lemma_merge_keys_concat(insert_key(keys, a[0]), a.drop_first(), b);
    }
}

/// Merging one more key is one [`insert_key`] step.
pub proof fn lemma_merge_keys_take_step(keys: Seq<Seq<char>>, added: Seq<Seq<char>>, i: int)
    requires
        0 <= i < added.len(),
    ensures
        merge_keys(keys, added.take(i + 1)) == insert_key(
            merge_keys(keys, added.take(i)),
            added[i],
        ),
{
    let cur = merge_keys(keys, added.take(i));
    let single = seq![added[i]];
    assert(added.take(i + 1) =~= added.take(i) + single);
    lemma_merge_keys_concat(keys, added.take(i), single);
    assert(single.drop_first() =~= Seq::<Seq<char>>::empty());
    assert(merge_keys(cur, single) == merge_keys(
        insert_key(cur, added[i]),
        single.drop_first(),
    ));
    assert(merge_keys(insert_key(cur, added[i]), Seq::<Seq<char>>::empty()) == insert_key(
        cur,
        added[i],
    ));
}

/// A merge never loses keys and never duplicates a key that was absent.
pub proof fn lemma_merge_keys_membership(keys: Seq<Seq<char>>, added: Seq<Seq<char>>, k: Seq<char>)
    ensures
        merge_keys(keys, added).contains(k) <==> keys.contains(k) || added.contains(k),
    decreases added.len(),
{
    if added.len() == 0 {
    } else {
        lemma_merge_keys_membership(insert_key(keys, added[0]), added.drop_first(), k);
        assert(insert_key(keys, added[0]).contains(k) <==> keys.contains(k) || added[0] == k) by {
            if !keys.contains(added[0]) {
                assert(keys.push(added[0])[keys.len() as int] == added[0]);
                if keys.contains(k) {
                    let w = choose|w: int| 0 <= w < keys.len() && keys[w] == k;
                    assert(keys.push(added[0])[w] == k);
                }
            }
        }
        assert(added.contains(k) <==> added[0] == k || added.drop_first().contains(k)) by {
            if added.drop_first().contains(k) {
                let w = choose|w: int|
                    0 <= w < added.drop_first().len() && added.drop_first()[w] == k;
                assert(added[w + 1] == k);
            }
            if added.contains(k) {
                let w = choose|w: int| 0 <= w < added.len() && added[w] == k;
                if w > 0 {
                    assert(added.drop_first()[w - 1] == k);
                }
            }
        }
    }
}

/// One [`insert_key`] step: the key is present afterwards, nothing else
/// changes membership, and a duplicate-free set stays duplicate-free.
pub proof fn lemma_insert_key_props(keys: Seq<Seq<char>>, key: Seq<char>)
    ensures
        insert_key(keys, key).contains(key),
        forall|k: int|
            0 <= k < keys.len() ==> #[trigger] insert_key(keys, key)[k] == keys[k],
        keys_unique(keys) ==> keys_unique(insert_key(keys, key)),
        keys.contains(key) ==> insert_key(keys, key) == keys,
{
    if keys.contains(key) {
    } else {
        let pushed = keys.push(key);
        assert(pushed[keys.len() as int] == key);
        if keys_unique(keys) {
            assert forall|i: int, j: int| 0 <= i < j < pushed.len() implies pushed[i]
                != pushed[j] by {
                if j == keys.len() {
                    assert(pushed[i] == keys[i]);
                    if keys[i] == key {
                        assert(keys.contains(key));
                    }
                }
            }
        }
    }
}

/// Merging a single key is one [`insert_key`] step.
pub proof fn lemma_merge_single(keys: Seq<Seq<char>>, key: Seq<char>)
    ensures
        merge_keys(keys, seq![key]) == insert_key(keys, key),
{
    let single = seq![key];
    assert(single.drop_first() =~= Seq::<Seq<char>>::empty());
    assert(merge_keys(keys, single) == merge_keys(insert_key(keys, key), single.drop_first()));
    assert(merge_keys(insert_key(keys, key), Seq::<Seq<char>>::empty()) == insert_key(keys, key));
}

/// A key set with no duplicate entries.
pub open spec fn keys_unique(keys: Seq<Seq<char>>) -> bool {
    forall|i: int, j: int| 0 <= i < j < keys.len() ==> keys[i] != keys[j]
}

/// Merging keeps a key set duplicate-free.
pub proof fn lemma_merge_keys_unique(keys: Seq<Seq<char>>, added: Seq<Seq<char>>)
    requires
        keys_unique(keys),
    ensures
        keys_unique(merge_keys(keys, added)),
    decreases added.len(),
{
    if added.len() == 0 {
    } else {
        assert(keys_unique(insert_key(keys, added[0]))) by {
            if !keys.contains(added[0]) {
                let pushed = keys.push(added[0]);
                assert forall|i: int, j: int| 0 <= i < j < pushed.len() implies pushed[i]
                    != pushed[j] by {
                    if j == keys.len() {
                        assert(pushed[i] == keys[i]);
                        if keys[i] == added[0] {
                            assert(keys.contains(added[0]));
                        }
                    }
                }
            }
        }
        lemma_merge_keys_unique(insert_key(keys, added[0]), added.drop_first());
    }
}

/// Adds `added` to `keys` in order, skipping keys already present.
pub fn merge_string_keys(keys: &mut Vec<String>, added: &Vec<String>)
    ensures
        final(keys).deep_view() == merge_keys(old(keys).deep_view(), added.deep_view()),
{
    let n = added.len();
    for i in 0..n
        invariant
            n == added@.len(),
            keys.deep_view() == merge_keys(old(keys).deep_view(), added.deep_view().take(
                i as int,
            )),
    {
        let mut present = false;
        let m = keys.len();
        for j in 0..m
            invariant
                m == keys@.len(),
                n == added@.len(),
                i < n,
                present == exists|k: int|
                    0 <= k < j && (#[trigger] keys.deep_view()[k]) == added.deep_view()[i as int],
        {
            if keys[j] == added[i] {
                proof {
                    assert(keys.deep_view()[j as int] == added.deep_view()[i as int]);
                }
                present = true;
            }
        }
        proof {
            assert(present == keys.deep_view().contains(added.deep_view()[i as int]));
            lemma_merge_keys_take_step(old(keys).deep_view(), added.deep_view(), i as int);
        }
        if !present {
            let ghost before = keys.deep_view();
            keys.push(added[i].clone());
            proof {
                assert(keys.deep_view() =~= before.push(added.deep_view()[i as int]));
            }
        }
        proof {
            assert(keys.deep_view() =~= merge_keys(
                old(keys).deep_view(),
                added.deep_view().take(i + 1),
            ));
        }
    }
    proof {
        assert(added.deep_view().take(n as int) =~= added.deep_view());
    }
}

/// Copies a string vector element for element.
pub fn clone_strings(v: &Vec<String>) -> (r: Vec<String>)
    ensures
        r@ == v@,
{
    let mut out: Vec<String> = Vec::new();
    let n = v.len();
    for i in 0..n
        invariant
            n == v@.len(),
            out@ == v@.take(i as int),
    {
        out.push(v[i].clone());
        proof {
            assert(out@ =~= v@.take(i + 1));
        }
    }
    proof {
        assert(v@.take(n as int) =~= v@);
    }
    out
}

} // verus!
