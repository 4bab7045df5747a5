//! The coalescing queue of pending "row last read" updates: one entry per
//! (table, partition) pair, holding the set of touched row keys.

use crate::sync_to_main::{clone_strings, merge_keys, merge_string_keys};
use vstd::pervasive::VecAdditionalExecFns;
use vstd::prelude::*;

verus! {

pub struct UpdateRowsLastReadTimeEvent {
    pub table_name: String,
    pub partition_key: String,
    pub row_keys: Vec<String>,
}

/// The spec-level shape of an [`UpdateRowsLastReadTimeEvent`].
#[verifier::ext_equal]
pub struct RowsLastReadView {
    pub table_name: Seq<char>,
    pub partition_key: Seq<char>,
    pub row_keys: Seq<Seq<char>>,
}

impl View for UpdateRowsLastReadTimeEvent {
    type V = RowsLastReadView;

    open spec fn view(&self) -> RowsLastReadView {
        RowsLastReadView {
            table_name: self.table_name@,
            partition_key: self.partition_key@,
            row_keys: self.row_keys.deep_view(),
        }
    }
}

impl DeepView for UpdateRowsLastReadTimeEvent {
    type V = RowsLastReadView;

    open spec fn deep_view(&self) -> RowsLastReadView {
        self.view()
    }
}

impl Clone for UpdateRowsLastReadTimeEvent {
    fn clone(&self) -> (r: Self)
        ensures
            r@ == self@,
    {
        let r = Self {
            table_name: self.table_name.clone(),
            partition_key: self.partition_key.clone(),
            row_keys: clone_strings(&self.row_keys),
        };
        proof {
            assert(r@ =~= self@);
        }
        r
    }
}

/// The first queued entry for the (table, partition) pair, or -1.
pub open spec fn rlr_find(
    entries: Seq<RowsLastReadView>,
    table: Seq<char>,
    partition: Seq<char>,
) -> int
    decreases entries.len(),
{
    if entries.len() == 0 {
        -1
    } else if entries[0].table_name == table && entries[0].partition_key == partition {
        0
    } else {
        let r = rlr_find(entries.drop_first(), table, partition);
        if r == -1 {
            -1
        } else {
            r + 1
        }
    }
}

/// Insert-or-merge: the added row keys join the first entry for the pair, or
/// a fresh entry goes to the tail.
pub open spec fn rlr_add(
    entries: Seq<RowsLastReadView>,
    table: Seq<char>,
    partition: Seq<char>,
    keys: Seq<Seq<char>>,
) -> Seq<RowsLastReadView> {
    let j = rlr_find(entries, table, partition);
    if j == -1 {
        entries.push(
            RowsLastReadView {
                table_name: table,
                partition_key: partition,
                row_keys: merge_keys(Seq::empty(), keys),
            },
        )
    } else {
        entries.update(
            j,
            RowsLastReadView {
                table_name: entries[j].table_name,
                partition_key: entries[j].partition_key,
                row_keys: merge_keys(entries[j].row_keys, keys),
            },
        )
    }
}

/// A linear scan that finds a match at `j` pins down [`rlr_find`].
pub proof fn lemma_rlr_find_hit(
    entries: Seq<RowsLastReadView>,
    table: Seq<char>,
    partition: Seq<char>,
    j: int,
)
    requires
        0 <= j < entries.len(),
        entries[j].table_name == table && entries[j].partition_key == partition,
        forall|k: int|
            0 <= k < j ==> !((#[trigger] entries[k]).table_name == table
                && entries[k].partition_key == partition),
    ensures
        rlr_find(entries, table, partition) == j,
    decreases j,
{
    if j == 0 {
    } else {
        lemma_rlr_find_hit(entries.drop_first(), table, partition, j - 1);
    }
}

/// A scan with no match pins [`rlr_find`] to -1.
pub proof fn lemma_rlr_find_miss(
    entries: Seq<RowsLastReadView>,
    table: Seq<char>,
    partition: Seq<char>,
)
    requires
        forall|k: int|
            0 <= k < entries.len() ==> !((#[trigger] entries[k]).table_name == table
                && entries[k].partition_key == partition),
    ensures
        rlr_find(entries, table, partition) == -1,
    decreases entries.len(),
{
    if entries.len() == 0 {
    } else {
        lemma_rlr_find_miss(entries.drop_first(), table, partition);
    }
}

pub struct UpdateRowsLastReadTimeQueue {
    queue: Vec<UpdateRowsLastReadTimeEvent>,
}

impl View for UpdateRowsLastReadTimeQueue {
    type V = Seq<RowsLastReadView>;

    closed spec fn view(&self) -> Seq<RowsLastReadView> {
        self.queue.deep_view()
    }
}

impl UpdateRowsLastReadTimeQueue {
    pub fn new() -> (r: Self)
        ensures
            r@ == Seq::<RowsLastReadView>::empty(),
    {
        let r = Self { queue: Vec::new() };
        proof {
            assert(r@ =~= Seq::<RowsLastReadView>::empty());
        }
        r
    }

    /// The index of the first entry for the pair, aligned with [`rlr_find`].
    fn find_entry(&self, table_name: &String, partition_key: &String) -> (r: Option<usize>)
        ensures
            match r {
                Some(i) => i < self@.len() && rlr_find(self@, table_name@, partition_key@) == i,
                None => rlr_find(self@, table_name@, partition_key@) == -1,
            },
    {
        let n = self.queue.len();
        for i in 0..n
            invariant
                n == self@.len(),
                n == self.queue@.len(),
                forall|k: int|
                    0 <= k < i ==> !((#[trigger] self@[k]).table_name == table_name@
                        && self@[k].partition_key == partition_key@),
        {
            if self.queue[i].table_name == *table_name && self.queue[i].partition_key
                == *partition_key {
                proof {
                    lemma_rlr_find_hit(self@, table_name@, partition_key@, i as int);
                }
                return Some(i);
            }
            proof {
                assert(!(self@[i as int].table_name == table_name@
                    && self@[i as int].partition_key == partition_key@));
            }
        }
        proof {
            lemma_rlr_find_miss(self@, table_name@, partition_key@);
        }
        None
    }

    /// Insert-or-merge of a batch of row keys for one (table, partition).
    pub fn add(&mut self, table_name: &str, partition_key: &str, row_keys: &Vec<String>)
        ensures
            final(self)@ == rlr_add(
                old(self)@,
                table_name@,
                partition_key@,
                row_keys.deep_view(),
            ),
    {
        let table = table_name.to_owned();
        let partition = partition_key.to_owned();
        match self.find_entry(&table, &partition) {
            Some(i) => {
                let mut keys = clone_strings(&self.queue[i].row_keys);
                let entry_table = self.queue[i].table_name.clone();
                let entry_partition = self.queue[i].partition_key.clone();
                merge_string_keys(&mut keys, row_keys);
                let ghost old_view = self@;
                self.queue.set(
                    i,
                    UpdateRowsLastReadTimeEvent {
                        table_name: entry_table,
                        partition_key: entry_partition,
                        row_keys: keys,
                    },
                );
                proof {
                    assert(self@ =~= old_view.update(
                        i as int,
                        RowsLastReadView {
                            table_name: old_view[i as int].table_name,
                            partition_key: old_view[i as int].partition_key,
                            row_keys: merge_keys(
                                old_view[i as int].row_keys,
                                row_keys.deep_view(),
                            ),
                        },
                    ));
                }
            },
            None => {
                let mut keys: Vec<String> = Vec::new();
                proof {
                    assert(keys.deep_view() =~= Seq::<Seq<char>>::empty());
                }
                merge_string_keys(&mut keys, row_keys);
                let ghost old_view = self@;
                self.queue.push(
                    UpdateRowsLastReadTimeEvent {
                        table_name: table,
                        partition_key: partition,
                        row_keys: keys,
                    },
                );
                proof {
                    assert(self@ =~= old_view.push(
                        RowsLastReadView {
                            table_name: table_name@,
                            partition_key: partition_key@,
                            row_keys: merge_keys(Seq::empty(), row_keys.deep_view()),
                        },
                    ));
                }
            },
        }
    }

    /// Returns an undelivered entry to the tail of the queue.
    pub fn return_event(&mut self, event: UpdateRowsLastReadTimeEvent)
        ensures
            final(self)@ == old(self)@.push(event@),
    {
        let ghost old_view = self@;
        self.queue.push(event);
        proof {
            assert(self@ =~= old_view.push(event@));
        }
    }

    /// Pops the oldest queued entry.
    pub fn dequeue(&mut self) -> (r: Option<UpdateRowsLastReadTimeEvent>)
        ensures
            match r {
                Some(e) => old(self)@.len() > 0 && e@ == old(self)@[0] && final(self)@ == old(
                    self,
                )@.drop_first(),
                None => old(self)@.len() == 0 && final(self)@ == old(self)@,
            },
    {
        if self.queue.len() == 0 {
            None
        } else {
            let e = self.queue.remove(0);
            proof {
                assert(self@ =~= old(self)@.drop_first());
            }
            Some(e)
        }
    }
}

} // verus!
