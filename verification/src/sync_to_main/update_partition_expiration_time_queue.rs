//! The coalescing queue of pending "partition expiration" updates: one entry
//! per table, mapping each touched partition key to its newest pending
//! expiration instant (the last write for a key wins within an entry).

use vstd::pervasive::VecAdditionalExecFns;
use vstd::prelude::*;

verus! {

pub struct UpdatePartitionExpirationEvent {
    pub table_name: String,
    pub partitions: Vec<(String, Option<i64>)>,
}

/// The spec-level shape of an [`UpdatePartitionExpirationEvent`].
#[verifier::ext_equal]
pub struct PartitionExpirationView {
    pub table_name: Seq<char>,
    pub partitions: Seq<(Seq<char>, Option<i64>)>,
}

impl View for UpdatePartitionExpirationEvent {
    type V = PartitionExpirationView;

    open spec fn view(&self) -> PartitionExpirationView {
        PartitionExpirationView {
            table_name: self.table_name@,
            partitions: self.partitions.deep_view(),
        }
    }
}

impl DeepView for UpdatePartitionExpirationEvent {
    type V = PartitionExpirationView;

    open spec fn deep_view(&self) -> PartitionExpirationView {
        self.view()
    }
}

/// Copies a (key, expiration) pair vector element for element.
fn clone_pairs(v: &Vec<(String, Option<i64>)>) -> (r: Vec<(String, Option<i64>)>)
    ensures
        r@ == v@,
{
    let mut out: Vec<(String, Option<i64>)> = Vec::new();
    let n = v.len();
    for i in 0..n
        invariant
            n == v@.len(),
            out@ == v@.take(i as int),
    {
        out.push((v[i].0.clone(), v[i].1));
        proof {
            assert(out@ =~= v@.take(i + 1));
        }
    }
    proof {
        assert(v@.take(n as int) =~= v@);
    }
    out
}

impl Clone for UpdatePartitionExpirationEvent {
    fn clone(&self) -> (r: Self)
        ensures
            r@ == self@,
    {
        let r = Self {
            table_name: self.table_name.clone(),
            partitions: clone_pairs(&self.partitions),
        };
        proof {
            assert(r@ =~= self@);
        }
        r
    }
}

/// The first pair for `key`, or -1 where the key is absent.
pub open spec fn find_pair(pairs: Seq<(Seq<char>, Option<i64>)>, key: Seq<char>) -> int
    decreases pairs.len(),
{
    if pairs.len() == 0 {
        -1
    } else if pairs[0].0 == key {
        0
    } else {
        let r = find_pair(pairs.drop_first(), key);
        if r == -1 {
            -1
        } else {
            r + 1
        }
    }
}

/// Last write wins: an existing key keeps its position and takes the new
/// instant; a new key goes to the back.
pub open spec fn set_pair(
    pairs: Seq<(Seq<char>, Option<i64>)>,
    key: Seq<char>,
    expiration: Option<i64>,
) -> Seq<(Seq<char>, Option<i64>)> {
    let j = find_pair(pairs, key);
    if j == -1 {
        pairs.push((key, expiration))
    } else {
        pairs.update(j, (pairs[j].0, expiration))
    }
}

/// The first queued entry for `table`, or -1 where none is queued.
pub open spec fn pe_find_table(entries: Seq<PartitionExpirationView>, table: Seq<char>) -> int
    decreases entries.len(),
{
    if entries.len() == 0 {
        -1
    } else if entries[0].table_name == table {
        0
    } else {
        let r = pe_find_table(entries.drop_first(), table);
        if r == -1 {
            -1
        } else {
            r + 1
        }
    }
}

/// Insert-or-merge: the (key, instant) pair is upserted into the first entry
/// for the table, or a fresh entry goes to the tail.
pub open spec fn pe_add(
    entries: Seq<PartitionExpirationView>,
    table: Seq<char>,
    key: Seq<char>,
    expiration: Option<i64>,
) -> Seq<PartitionExpirationView> {
    let j = pe_find_table(entries, table);
    if j == -1 {
        entries.push(
            PartitionExpirationView { table_name: table, partitions: seq![(key, expiration)] },
        )
    } else {
        entries.update(
            j,
            PartitionExpirationView {
                table_name: entries[j].table_name,
                partitions: set_pair(entries[j].partitions, key, expiration),
            },
        )
    }
}

/// A linear scan that finds a match at `j` pins down [`pe_find_table`].
pub proof fn lemma_pe_find_table_hit(
    entries: Seq<PartitionExpirationView>,
    table: Seq<char>,
    j: int,
)
    requires
        0 <= j < entries.len(),
        entries[j].table_name == table,
        forall|k: int| 0 <= k < j ==> (#[trigger] entries[k]).table_name != table,
    ensures
        pe_find_table(entries, table) == j,
    decreases j,
{
    if j == 0 {
    } else {
        lemma_pe_find_table_hit(entries.drop_first(), table, j - 1);
    }
}

/// A scan with no match pins [`pe_find_table`] to -1.
pub proof fn lemma_pe_find_table_miss(entries: Seq<PartitionExpirationView>, table: Seq<char>)
    requires
        forall|k: int| 0 <= k < entries.len() ==> (#[trigger] entries[k]).table_name != table,
    ensures
        pe_find_table(entries, table) == -1,
    decreases entries.len(),
{
    if entries.len() == 0 {
    } else {
        lemma_pe_find_table_miss(entries.drop_first(), table);
    }
}

/// A linear scan that finds `key` at `j` pins down [`find_pair`].
pub proof fn lemma_find_pair_hit(pairs: Seq<(Seq<char>, Option<i64>)>, key: Seq<char>, j: int)
    requires
        0 <= j < pairs.len(),
        pairs[j].0 == key,
        forall|k: int| 0 <= k < j ==> (#[trigger] pairs[k]).0 != key,
    ensures
        find_pair(pairs, key) == j,
    decreases j,
{
    if j == 0 {
    } else {
        lemma_find_pair_hit(pairs.drop_first(), key, j - 1);
    }
}

/// A scan with no match pins [`find_pair`] to -1.
pub proof fn lemma_find_pair_miss(pairs: Seq<(Seq<char>, Option<i64>)>, key: Seq<char>)
    requires
        forall|k: int| 0 <= k < pairs.len() ==> (#[trigger] pairs[k]).0 != key,
    ensures
        find_pair(pairs, key) == -1,
    decreases pairs.len(),
{
    if pairs.len() == 0 {
    } else {
        lemma_find_pair_miss(pairs.drop_first(), key);
    }
}

/// Upserts one (key, instant) pair, aligned with [`set_pair`].
fn upsert_pair(pairs: &mut Vec<(String, Option<i64>)>, key: String, expiration: Option<i64>)
    ensures
        final(pairs).deep_view() == set_pair(old(pairs).deep_view(), key@, expiration),
{
    let n = pairs.len();
    for j in 0..n
        invariant
            n == pairs@.len(),
            pairs@ == old(pairs)@,
            forall|k: int| 0 <= k < j ==> (#[trigger] pairs.deep_view()[k]).0 != key@,
    {
        proof {
            let p = pairs@[j as int];
            match p.1 {
                Some(t) => {
                    assert(pairs.deep_view()[j as int] == (p.0@, p.1));
                },
                None => {
                    assert(pairs.deep_view()[j as int] == (p.0@, p.1));
                },
            }
        }
        if pairs[j].0 == key {
            let ghost before = pairs.deep_view();
            proof {
                lemma_find_pair_hit(before, key@, j as int);
            }
            let existing_key = pairs[j].0.clone();
            pairs.set(j, (existing_key, expiration));
            proof {
                assert(pairs.deep_view() =~= before.update(
                    j as int,
                    (before[j as int].0, expiration),
                ));
            }
            return ;
        }
        proof {
            assert(pairs.deep_view()[j as int].0 != key@);
        }
    }
    let ghost before = pairs.deep_view();
    proof {
        lemma_find_pair_miss(before, key@);
    }
    pairs.push((key, expiration));
    proof {
        match expiration {
            Some(t) => {
                assert(pairs.deep_view() =~= before.push((key@, expiration)));
            },
            None => {
                assert(pairs.deep_view() =~= before.push((key@, expiration)));
            },
        }
    }
}

pub struct UpdatePartitionsExpirationTimeQueue {
    queue: Vec<UpdatePartitionExpirationEvent>,
}

impl View for UpdatePartitionsExpirationTimeQueue {
    type V = Seq<PartitionExpirationView>;

    closed spec fn view(&self) -> Seq<PartitionExpirationView> {
        self.queue.deep_view()
    }
}

impl UpdatePartitionsExpirationTimeQueue {
    pub fn new() -> (r: Self)
        ensures
            r@ == Seq::<PartitionExpirationView>::empty(),
    {
        let r = Self { queue: Vec::new() };
        proof {
            assert(r@ =~= Seq::<PartitionExpirationView>::empty());
        }
        r
    }

    /// The index of the first entry for `table`, aligned with
    /// [`pe_find_table`].
    fn find_entry(&self, table_name: &String) -> (r: Option<usize>)
        ensures
            match r {
                Some(i) => i < self@.len() && pe_find_table(self@, table_name@) == i,
                None => pe_find_table(self@, table_name@) == -1,
            },
    {
        let n = self.queue.len();
        for i in 0..n
            invariant
                n == self@.len(),
                n == self.queue@.len(),
                forall|k: int| 0 <= k < i ==> (#[trigger] self@[k]).table_name != table_name@,
        {
            if self.queue[i].table_name == *table_name {
                proof {
                    lemma_pe_find_table_hit(self@, table_name@, i as int);
                }
                return Some(i);
            }
            proof {
                assert(self@[i as int].table_name != table_name@);
            }
        }
        proof {
            lemma_pe_find_table_miss(self@, table_name@);
        }
        None
    }

    /// Insert-or-merge of one partition's pending expiration for one table;
    /// within an entry the last write for a key wins.
    pub fn add(&mut self, table_name: &str, partition_key: &str, date_time: Option<i64>)
        ensures
            final(self)@ == pe_add(old(self)@, table_name@, partition_key@, date_time),
    {
        let table = table_name.to_owned();
        let key = partition_key.to_owned();
        match self.find_entry(&table) {
            Some(i) => {
                let mut partitions = clone_pairs(&self.queue[i].partitions);
                let entry_table = self.queue[i].table_name.clone();
                let ghost entry_pairs = self@[i as int].partitions;
                proof {
                    assert(partitions.deep_view() =~= entry_pairs);
                }
                upsert_pair(&mut partitions, key, date_time);
                let ghost old_view = self@;
                self.queue.set(
                    i,
                    UpdatePartitionExpirationEvent { table_name: entry_table, partitions },
                );
                proof {
                    assert(self@ =~= old_view.update(
                        i as int,
                        PartitionExpirationView {
                            table_name: old_view[i as int].table_name,
                            partitions: set_pair(
                                old_view[i as int].partitions,
                                partition_key@,
                                date_time,
                            ),
                        },
                    ));
                }
            },
            None => {
                let mut partitions: Vec<(String, Option<i64>)> = Vec::new();
                partitions.push((key, date_time));
                let ghost old_view = self@;
                proof {
                    match date_time {
                        Some(t) => {
                            assert(partitions.deep_view() =~= seq![(partition_key@, date_time)]);
                        },
                        None => {
                            assert(partitions.deep_view() =~= seq![(partition_key@, date_time)]);
                        },
                    }
                }
                self.queue.push(
                    UpdatePartitionExpirationEvent { table_name: table, partitions },
                );
                proof {
                    assert(self@ =~= old_view.push(
                        PartitionExpirationView {
                            table_name: table_name@,
                            partitions: seq![(partition_key@, date_time)],
                        },
                    ));
                }
            },
        }
    }

    /// Returns an undelivered entry to the tail of the queue.
    pub fn return_event(&mut self, event: UpdatePartitionExpirationEvent)
        ensures
            final(self)@ == old(self)@.push(event@),
    {
        let ghost old_view = self@;
        self.queue.push(event);
        proof {
            assert(self@ =~= old_view.push(event@));
        }
    }

    /// Pops the oldest queued entry.
    pub fn dequeue(&mut self) -> (r: Option<UpdatePartitionExpirationEvent>)
        ensures
            match r {
                Some(e) => old(self)@.len() > 0 && e@ == old(self)@[0] && final(self)@ == old(
                    self,
                )@.drop_first(),
                None => old(self)@.len() == 0 && final(self)@ == old(self)@,
            },
    {
        if self.queue.len() == 0 {
            None
        } else {
            let e = self.queue.remove(0);
            proof {
                assert(self@ =~= old(self)@.drop_first());
            }
            Some(e)
        }
    }
}

} // verus!
