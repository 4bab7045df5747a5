//! The coalescing queue of pending "row expiration" updates: one entry per
//! (table, partition) pair, holding a set of row keys and one shared
//! expiration instant.
//!
//! Known asymmetry, kept deliberately: merging more row keys into an entry
//! that is already queued does **not** update the entry's shared expiration
//! instant, so later row keys can stay associated with the earlier instant
//! until the entry is flushed.

use crate::sync_to_main::{clone_strings, merge_keys, merge_string_keys};
use vstd::pervasive::VecAdditionalExecFns;
use vstd::prelude::*;

verus! {

pub struct UpdateRowsExpirationTimeEvent {
    pub table_name: String,
    pub partition_key: String,
    pub row_keys: Vec<String>,
    pub expiration_time: Option<i64>,
}

/// The spec-level shape of an [`UpdateRowsExpirationTimeEvent`].
#[verifier::ext_equal]
pub struct RowsExpirationView {
    pub table_name: Seq<char>,
    pub partition_key: Seq<char>,
    pub row_keys: Seq<Seq<char>>,
    pub expiration_time: Option<i64>,
}

impl View for UpdateRowsExpirationTimeEvent {
    type V = RowsExpirationView;

    open spec fn view(&self) -> RowsExpirationView {
        RowsExpirationView {
            table_name: self.table_name@,
            partition_key: self.partition_key@,
            row_keys: self.row_keys.deep_view(),
            expiration_time: self.expiration_time,
        }
    }
}

impl DeepView for UpdateRowsExpirationTimeEvent {
    type V = RowsExpirationView;

    open spec fn deep_view(&self) -> RowsExpirationView {
        self.view()
    }
}

impl Clone for UpdateRowsExpirationTimeEvent {
    fn clone(&self) -> (r: Self)
        ensures
            r@ == self@,
    {
        let r = Self {
            table_name: self.table_name.clone(),
            partition_key: self.partition_key.clone(),
            row_keys: clone_strings(&self.row_keys),
            expiration_time: self.expiration_time,
        };
        proof {
            assert(r@ =~= self@);
        }
        r
    }
}

/// The first queued entry for the (table, partition) pair, or -1.
pub open spec fn re_find(
    entries: Seq<RowsExpirationView>,
    table: Seq<char>,
    partition: Seq<char>,
) -> int
    decreases entries.len(),
{
    if entries.len() == 0 {
        -1
    } else if entries[0].table_name == table && entries[0].partition_key == partition {
        0
    } else {
        let r = re_find(entries.drop_first(), table, partition);
        if r == -1 {
            -1
        } else {
            r + 1
        }
    }
}

/// Insert-or-merge: added row keys join the first entry for the pair, whose
/// shared expiration instant is left as it was; a fresh entry carries the
/// call's instant.
pub open spec fn re_add(
    entries: Seq<RowsExpirationView>,
    table: Seq<char>,
    partition: Seq<char>,
    keys: Seq<Seq<char>>,
    expiration: Option<i64>,
) -> Seq<RowsExpirationView> {
    let j = re_find(entries, table, partition);
    if j == -1 {
        entries.push(
            RowsExpirationView {
                table_name: table,
                partition_key: partition,
                row_keys: merge_keys(Seq::empty(), keys),
                expiration_time: expiration,
            },
        )
    } else {
        entries.update(
            j,
            RowsExpirationView {
                table_name: entries[j].table_name,
                partition_key: entries[j].partition_key,
                row_keys: merge_keys(entries[j].row_keys, keys),
                expiration_time: entries[j].expiration_time,
            },
        )
    }
}

/// A linear scan that finds a match at `j` pins down [`re_find`].
pub proof fn lemma_re_find_hit(
    entries: Seq<RowsExpirationView>,
    table: Seq<char>,
    partition: Seq<char>,
    j: int,
)
    requires
        0 <= j < entries.len(),
        entries[j].table_name == table && entries[j].partition_key == partition,
        forall|k: int|
            0 <= k < j ==> !((#[trigger] entries[k]).table_name == table
                && entries[k].partition_key == partition),
    ensures
        re_find(entries, table, partition) == j,
    decreases j,
{
    if j == 0 {
    } else {
        lemma_re_find_hit(entries.drop_first(), table, partition, j - 1);
    }
}

/// A scan with no match pins [`re_find`] to -1.
pub proof fn lemma_re_find_miss(
    entries: Seq<RowsExpirationView>,
    table: Seq<char>,
    partition: Seq<char>,
)
    requires
        forall|k: int|
            0 <= k < entries.len() ==> !((#[trigger] entries[k]).table_name == table
                && entries[k].partition_key == partition),
    ensures
        re_find(entries, table, partition) == -1,
    decreases entries.len(),
{
    if entries.len() == 0 {
    } else {
        lemma_re_find_miss(entries.drop_first(), table, partition);
    }
}

pub struct UpdateRowsExpirationTimeQueue {
    queue: Vec<UpdateRowsExpirationTimeEvent>,
}

impl View for UpdateRowsExpirationTimeQueue {
    type V = Seq<RowsExpirationView>;

    closed spec fn view(&self) -> Seq<RowsExpirationView> {
        self.queue.deep_view()
    }
}

impl UpdateRowsExpirationTimeQueue {
    pub fn new() -> (r: Self)
        ensures
            r@ == Seq::<RowsExpirationView>::empty(),
    {
        let r = Self { queue: Vec::new() };
        proof {
            assert(r@ =~= Seq::<RowsExpirationView>::empty());
        }
        r
    }

    /// The index of the first entry for the pair, aligned with [`re_find`].
    fn find_entry(&self, table_name: &String, partition_key: &String) -> (r: Option<usize>)
        ensures
            match r {
                Some(i) => i < self@.len() && re_find(self@, table_name@, partition_key@) == i,
                None => re_find(self@, table_name@, partition_key@) == -1,
            },
    {
        let n = self.queue.len();
        for i in 0..n
            invariant
                n == self@.len(),
                n == self.queue@.len(),
                forall|k: int|
                    0 <= k < i ==> !((#[trigger] self@[k]).table_name == table_name@
                        && self@[k].partition_key == partition_key@),
        {
            if self.queue[i].table_name == *table_name && self.queue[i].partition_key
                == *partition_key {
                proof {
                    lemma_re_find_hit(self@, table_name@, partition_key@, i as int);
                }
                return Some(i);
            }
            proof {
                assert(!(self@[i as int].table_name == table_name@
                    && self@[i as int].partition_key == partition_key@));
            }
        }
        proof {
            lemma_re_find_miss(self@, table_name@, partition_key@);
        }
        None
    }

    /// Insert-or-merge of a batch of row keys and an expiration instant for
    /// one (table, partition); see the module note on the merge asymmetry.
    pub fn add(
        &mut self,
        table_name: &str,
        partition_key: &str,
        row_keys: &Vec<String>,
        date_time: Option<i64>,
    )
        ensures
            final(self)@ == re_add(
                old(self)@,
                table_name@,
                partition_key@,
                row_keys.deep_view(),
                date_time,
            ),
    {
        let table = table_name.to_owned();
        let partition = partition_key.to_owned();
        match self.find_entry(&table, &partition) {
            Some(i) => {
                let mut keys = clone_strings(&self.queue[i].row_keys);
                let entry_table = self.queue[i].table_name.clone();
                let entry_partition = self.queue[i].partition_key.clone();
                let entry_expiration = self.queue[i].expiration_time;
                merge_string_keys(&mut keys, row_keys);
                let ghost old_view = self@;
                self.queue.set(
                    i,
                    UpdateRowsExpirationTimeEvent {
                        table_name: entry_table,
                        partition_key: entry_partition,
                        row_keys: keys,
                        expiration_time: entry_expiration,
                    },
                );
                proof {
                    assert(self@ =~= old_view.update(
                        i as int,
                        RowsExpirationView {
                            table_name: old_view[i as int].table_name,
                            partition_key: old_view[i as int].partition_key,
                            row_keys: merge_keys(
                                old_view[i as int].row_keys,
                                row_keys.deep_view(),
                            ),
                            expiration_time: old_view[i as int].expiration_time,
                        },
                    ));
                }
            },
            None => {
                let mut keys: Vec<String> = Vec::new();
                proof {
                    assert(keys.deep_view() =~= Seq::<Seq<char>>::empty());
                }
                merge_string_keys(&mut keys, row_keys);
                let ghost old_view = self@;
                self.queue.push(
                    UpdateRowsExpirationTimeEvent {
                        table_name: table,
                        partition_key: partition,
                        row_keys: keys,
                        expiration_time: date_time,
                    },
                );
                proof {
                    assert(self@ =~= old_view.push(
                        RowsExpirationView {
                            table_name: table_name@,
                            partition_key: partition_key@,
                            row_keys: merge_keys(Seq::empty(), row_keys.deep_view()),
                            expiration_time: date_time,
                        },
                    ));
                }
            },
        }
    }

    /// Returns an undelivered entry to the tail of the queue.
    pub fn return_event(&mut self, event: UpdateRowsExpirationTimeEvent)
        ensures
            final(self)@ == old(self)@.push(event@),
    {
        let ghost old_view = self@;
        self.queue.push(event);
        proof {
            assert(self@ =~= old_view.push(event@));
        }
    }

    /// Pops the oldest queued entry.
    pub fn dequeue(&mut self) -> (r: Option<UpdateRowsExpirationTimeEvent>)
        ensures
            match r {
                Some(e) => old(self)@.len() > 0 && e@ == old(self)@[0] && final(self)@ == old(
                    self,
                )@.drop_first(),
                None => old(self)@.len() == 0 && final(self)@ == old(self)@,
            },
    {
        if self.queue.len() == 0 {
            None
        } else {
            let e = self.queue.remove(0);
            proof {
                assert(self@ =~= old(self)@.drop_first());
            }
            Some(e)
        }
    }
}

} // verus!
