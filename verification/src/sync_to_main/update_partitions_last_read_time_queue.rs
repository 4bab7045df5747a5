//! The coalescing queue of pending "partition last read" updates: one entry
//! per table, holding the set of touched partition keys.

use crate::sync_to_main::{
    clone_strings, insert_key, keys_unique, lemma_insert_key_props,
    lemma_merge_keys_membership, lemma_merge_keys_unique, lemma_merge_single, merge_keys,
};
use vstd::pervasive::VecAdditionalExecFns;
use vstd::prelude::*;

verus! {

pub struct UpdatePartitionsLastReadTimeEvent {
    pub table_name: String,
    pub partitions: Vec<String>,
}

/// The spec-level shape of an [`UpdatePartitionsLastReadTimeEvent`].
#[verifier::ext_equal]
pub struct PartitionsLastReadView {
    pub table_name: Seq<char>,
    pub partitions: Seq<Seq<char>>,
}

impl View for UpdatePartitionsLastReadTimeEvent {
    type V = PartitionsLastReadView;

    open spec fn view(&self) -> PartitionsLastReadView {
        PartitionsLastReadView {
            table_name: self.table_name@,
            partitions: self.partitions.deep_view(),
        }
    }
}

impl Clone for UpdatePartitionsLastReadTimeEvent {
    fn clone(&self) -> (r: Self)
        ensures
            r@ == self@,
    {
        let r = Self {
            table_name: self.table_name.clone(),
            partitions: clone_strings(&self.partitions),
        };
        proof {
            assert(r@ =~= self@);
        }
        r
    }
}

/// The first queued entry for `table`, or -1 where none is queued.
pub open spec fn plr_find_table(entries: Seq<PartitionsLastReadView>, table: Seq<char>) -> int
    decreases entries.len(),
{
    if entries.len() == 0 {
        -1
    } else if entries[0].table_name == table {
        0
    } else {
        let r = plr_find_table(entries.drop_first(), table);
        if r == -1 {
            -1
        } else {
            r + 1
        }
    }
}

/// Insert-or-merge: the added keys join the first entry for the table, or a
/// fresh entry goes to the tail.
pub open spec fn plr_add(
    entries: Seq<PartitionsLastReadView>,
    table: Seq<char>,
    keys: Seq<Seq<char>>,
) -> Seq<PartitionsLastReadView> {
    let j = plr_find_table(entries, table);
    if j == -1 {
        entries.push(
            PartitionsLastReadView {
                table_name: table,
                partitions: merge_keys(Seq::empty(), keys),
            },
        )
    } else {
        entries.update(
            j,
            PartitionsLastReadView {
                table_name: entries[j].table_name,
                partitions: merge_keys(entries[j].partitions, keys),
            },
        )
    }
}

pub open spec fn plr_add_partition(
    entries: Seq<PartitionsLastReadView>,
    table: Seq<char>,
    key: Seq<char>,
) -> Seq<PartitionsLastReadView> {
    plr_add(entries, table, seq![key])
}

/// A linear scan that finds a match at `j` pins down [`plr_find_table`].
pub proof fn lemma_plr_find_table_hit(
    entries: Seq<PartitionsLastReadView>,
    table: Seq<char>,
    j: int,
)
    requires
        0 <= j < entries.len(),
        entries[j].table_name == table,
        forall|k: int| 0 <= k < j ==> (#[trigger] entries[k]).table_name != table,
    ensures
        plr_find_table(entries, table) == j,
    decreases j,
{
    if j == 0 {
    } else {
        lemma_plr_find_table_hit(entries.drop_first(), table, j - 1);
    }
}

/// A scan with no match pins [`plr_find_table`] to -1.
pub proof fn lemma_plr_find_table_miss(entries: Seq<PartitionsLastReadView>, table: Seq<char>)
    requires
        forall|k: int| 0 <= k < entries.len() ==> (#[trigger] entries[k]).table_name != table,
    ensures
        plr_find_table(entries, table) == -1,
    decreases entries.len(),
{
    if entries.len() == 0 {
    } else {
        lemma_plr_find_table_miss(entries.drop_first(), table);
    }
}

/// What [`plr_find_table`] returns: -1 with no entry for the table anywhere,
/// or the first index holding it.
pub proof fn lemma_plr_find_table_props(entries: Seq<PartitionsLastReadView>, table: Seq<char>)
    ensures
        ({
            let j = plr_find_table(entries, table);
            &&& (j == -1 ==> forall|k: int|
                0 <= k < entries.len() ==> (#[trigger] entries[k]).table_name != table)
            &&& (j != -1 ==> 0 <= j < entries.len() && entries[j].table_name == table && forall|
                k: int,
            |
                0 <= k < j ==> (#[trigger] entries[k]).table_name != table)
        }),
    decreases entries.len(),
{
    if entries.len() == 0 {
    } else if entries[0].table_name == table {
    } else {
        lemma_plr_find_table_props(entries.drop_first(), table);
        assert forall|k: int| 1 <= k < entries.len() implies entries[k] == entries.drop_first()[k
            - 1] by {}
    }
}

/// Coalescing: marking the same table and partition as read twice before a
/// delivery leaves exactly what one marking leaves — the first entry for the
/// table holds the partition once, and a second identical marking changes
/// nothing.
pub proof fn lemma_add_partition_coalesces(
    entries: Seq<PartitionsLastReadView>,
    table: Seq<char>,
    key: Seq<char>,
)
    requires
        forall|i: int| 0 <= i < entries.len() ==> keys_unique((#[trigger] entries[i]).partitions),
    ensures
        plr_add_partition(plr_add_partition(entries, table, key), table, key)
            == plr_add_partition(entries, table, key),
        ({
            let es1 = plr_add_partition(entries, table, key);
            let j = plr_find_table(es1, table);
            &&& 0 <= j < es1.len()
            &&& es1[j].partitions.contains(key)
            &&& forall|i: int| 0 <= i < es1.len() ==> keys_unique((#[trigger] es1[i]).partitions)
        }),
{
    lemma_plr_find_table_props(entries, table);
    lemma_merge_single(Seq::empty(), key);
    let j0 = plr_find_table(entries, table);
    let es1 = plr_add_partition(entries, table, key);
    if j0 == -1 {
        lemma_insert_key_props(Seq::empty(), key);
        assert(es1[entries.len() as int].table_name == table);
        lemma_plr_find_table_hit(es1, table, entries.len() as int);
        let fresh = es1[entries.len() as int].partitions;
        lemma_merge_single(fresh, key);
        lemma_insert_key_props(fresh, key);
        assert(plr_add_partition(es1, table, key) =~= es1.update(
            entries.len() as int,
            es1[entries.len() as int],
        ));
        assert(es1.update(entries.len() as int, es1[entries.len() as int]) =~= es1);
    } else {
        lemma_merge_single(entries[j0].partitions, key);
        lemma_insert_key_props(entries[j0].partitions, key);
        assert(es1[j0].table_name == table);
        lemma_plr_find_table_hit(es1, table, j0);
        lemma_merge_single(es1[j0].partitions, key);
        lemma_insert_key_props(es1[j0].partitions, key);
        assert(insert_key(es1[j0].partitions, key) == es1[j0].partitions);
        assert(plr_add_partition(es1, table, key) =~= es1.update(j0, es1[j0]));
        assert(es1.update(j0, es1[j0]) =~= es1);
    }
}

/// Batch coalescing: an insert-or-merge keeps every entry's key set
/// duplicate-free, and the entry it lands in holds exactly the keys it held
/// before together with the added ones — sibling entries are untouched.
pub proof fn lemma_plr_add_dedups(
    entries: Seq<PartitionsLastReadView>,
    table: Seq<char>,
    keys: Seq<Seq<char>>,
)
    requires
        forall|i: int| 0 <= i < entries.len() ==> keys_unique((#[trigger] entries[i]).partitions),
    ensures
        ({
            let es1 = plr_add(entries, table, keys);
            let j0 = plr_find_table(entries, table);
            &&& forall|i: int| 0 <= i < es1.len() ==> keys_unique((#[trigger] es1[i]).partitions)
            &&& (j0 == -1 ==> es1 == entries.push(
                PartitionsLastReadView {
                    table_name: table,
                    partitions: merge_keys(Seq::empty(), keys),
                },
            ) && forall|k: Seq<char>|
                #[trigger] es1[entries.len() as int].partitions.contains(k) <==> keys.contains(k))
            &&& (j0 != -1 ==> forall|k: Seq<char>|
                #[trigger] es1[j0].partitions.contains(k) <==> entries[j0].partitions.contains(k)
                    || keys.contains(k))
        }),
{
    lemma_plr_find_table_props(entries, table);
    let j0 = plr_find_table(entries, table);
    if j0 == -1 {
        lemma_merge_keys_unique(Seq::empty(), keys);
        assert forall|k: Seq<char>|
            #[trigger] merge_keys(Seq::<Seq<char>>::empty(), keys).contains(k)
                <==> keys.contains(k) by {
            lemma_merge_keys_membership(Seq::empty(), keys, k);
        }
    } else {
        lemma_merge_keys_unique(entries[j0].partitions, keys);
        assert forall|k: Seq<char>|
            #[trigger] merge_keys(entries[j0].partitions, keys).contains(k)
                <==> entries[j0].partitions.contains(k) || keys.contains(k) by {
            lemma_merge_keys_membership(entries[j0].partitions, keys, k);
        }
    }
}

pub struct UpdatePartitionsLastReadTimeQueue {
    queue: Vec<UpdatePartitionsLastReadTimeEvent>,
}

impl View for UpdatePartitionsLastReadTimeQueue {
    type V = Seq<PartitionsLastReadView>;

    closed spec fn view(&self) -> Seq<PartitionsLastReadView> {
        self.queue.deep_view()
    }
}

impl DeepView for UpdatePartitionsLastReadTimeEvent {
    type V = PartitionsLastReadView;

    open spec fn deep_view(&self) -> PartitionsLastReadView {
        self.view()
    }
}

impl UpdatePartitionsLastReadTimeQueue {
    pub fn new() -> (r: Self)
        ensures
            r@ == Seq::<PartitionsLastReadView>::empty(),
    {
        let r = Self { queue: Vec::new() };
        proof {
            assert(r@ =~= Seq::<PartitionsLastReadView>::empty());
        }
        r
    }

    /// The index of the first entry for `table`, aligned with
    /// [`plr_find_table`].
    fn find_entry(&self, table_name: &String) -> (r: Option<usize>)
        ensures
            match r {
                Some(i) => i < self@.len() && plr_find_table(self@, table_name@) == i,
                None => plr_find_table(self@, table_name@) == -1,
            },
    {
        let n = self.queue.len();
        for i in 0..n
            invariant
                n == self@.len(),
                n == self.queue@.len(),
                forall|k: int| 0 <= k < i ==> (#[trigger] self@[k]).table_name != table_name@,
        {
            if self.queue[i].table_name == *table_name {
                proof {
                    assert(self@[i as int].table_name == table_name@);
                    lemma_plr_find_table_hit(self@, table_name@, i as int);
                }
                return Some(i);
            }
            proof {
                assert(self@[i as int].table_name != table_name@);
            }
        }
        proof {
            lemma_plr_find_table_miss(self@, table_name@);
        }
        None
    }

    /// Insert-or-merge of a batch of partition keys for one table.
    pub fn add(&mut self, table_name: &str, partition_keys: &Vec<String>)
        ensures
            final(self)@ == plr_add(old(self)@, table_name@, partition_keys.deep_view()),
    {
        let table = table_name.to_owned();
        match self.find_entry(&table) {
            Some(i) => {
                let mut partitions = clone_strings(&self.queue[i].partitions);
                let entry_table = self.queue[i].table_name.clone();
                crate::sync_to_main::merge_string_keys(&mut partitions, partition_keys);
                let ghost old_view = self@;
                self.queue.set(
                    i,
                    UpdatePartitionsLastReadTimeEvent { table_name: entry_table, partitions },
                );
                proof {
                    assert(self@ =~= old_view.update(
                        i as int,
                        PartitionsLastReadView {
                            table_name: old_view[i as int].table_name,
                            partitions: merge_keys(
                                old_view[i as int].partitions,
                                partition_keys.deep_view(),
                            ),
                        },
                    ));
                }
            },
            None => {
                let mut partitions: Vec<String> = Vec::new();
                proof {
                    assert(partitions.deep_view() =~= Seq::<Seq<char>>::empty());
                }
                crate::sync_to_main::merge_string_keys(&mut partitions, partition_keys);
                let ghost old_view = self@;
                self.queue.push(
                    UpdatePartitionsLastReadTimeEvent { table_name: table, partitions },
                );
                proof {
                    assert(self@ =~= old_view.push(
                        PartitionsLastReadView {
                            table_name: table_name@,
                            partitions: merge_keys(
                                Seq::empty(),
                                partition_keys.deep_view(),
                            ),
                        },
                    ));
                }
            },
        }
    }

    /// Insert-or-merge of a single partition key for one table: two calls for
    /// the same table and partition coalesce into one queued entry holding
    /// that partition once.
    pub fn add_partition(&mut self, table_name: &str, partition_key: &str)
        ensures
            final(self)@ == plr_add_partition(old(self)@, table_name@, partition_key@),
    {
        let mut one: Vec<String> = Vec::new();
        one.push(partition_key.to_owned());
        proof {
            assert(one.deep_view() =~= seq![partition_key@]);
        }
        self.add(table_name, &one);
    }

    /// Returns an undelivered entry to the tail of the queue.
    pub fn return_event(&mut self, event: UpdatePartitionsLastReadTimeEvent)
        ensures
            final(self)@ == old(self)@.push(event@),
    {
        let ghost old_view = self@;
        self.queue.push(event);
        proof {
            assert(self@ =~= old_view.push(event@));
        }
    }

    /// Pops the oldest queued entry.
    pub fn dequeue(&mut self) -> (r: Option<UpdatePartitionsLastReadTimeEvent>)
        ensures
            match r {
                Some(e) => old(self)@.len() > 0 && e@ == old(self)@[0] && final(self)@ == old(
                    self,
                )@.drop_first(),
                None => old(self)@.len() == 0 && final(self)@ == old(self)@,
            },
    {
        if self.queue.len() == 0 {
            None
        } else {
            let e = self.queue.remove(0);
            proof {
                assert(self@ =~= old(self)@.drop_first());
            }
            Some(e)
        }
    }
}

} // verus!
