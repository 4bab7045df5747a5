//! The delivery coordinator: a single-flight state machine over the four
//! coalescing queues.
//!
//! The state holds a strictly increasing confirmation-id counter, the queues,
//! the event currently awaiting confirmation (at most one), and the active
//! connection handle. A delivery attempt refuses while an event is in flight
//! or no connection is active; otherwise it pops the first entry in fixed
//! priority order — partition expiration, partition last-read, row
//! expiration, row last-read — wraps it with a fresh confirmation id, and
//! records it as in flight. A disconnect returns the in-flight entry to the
//! tail of its originating queue.
//!
//! Every operation is specified against a pure transition function over
//! [`InnerView`]; the laws at the end of the module (single flight, disconnect
//! recovery, priority ordering) are proved over those transitions.

use crate::sync_to_main::update_entity_statistics_data::UpdateEntityStatisticsData;
use crate::sync_to_main::update_partition_expiration_time_queue::{
    pe_add, PartitionExpirationView, UpdatePartitionExpirationEvent,
    UpdatePartitionsExpirationTimeQueue,
};
use crate::sync_to_main::update_partitions_last_read_time_queue::{
    plr_add, plr_add_partition, PartitionsLastReadView, UpdatePartitionsLastReadTimeEvent,
    UpdatePartitionsLastReadTimeQueue,
};
use crate::sync_to_main::update_rows_expiration_time_queue::{
    re_add, RowsExpirationView, UpdateRowsExpirationTimeEvent, UpdateRowsExpirationTimeQueue,
};
use crate::sync_to_main::update_rows_last_read_time_queue::{
    rlr_add, RowsLastReadView, UpdateRowsLastReadTimeEvent, UpdateRowsLastReadTimeQueue,
};
use vstd::prelude::*;

verus! {

/// One event selected for delivery, wrapped with its confirmation id.
pub enum DeliverToMainNodeEvent {
    UpdatePartitionsExpiration {
        event: UpdatePartitionExpirationEvent,
        confirmation_id: i64,
    },
    UpdatePartitionsLastReadTime {
        event: UpdatePartitionsLastReadTimeEvent,
        confirmation_id: i64,
    },
    UpdateRowsExpirationTime {
        event: UpdateRowsExpirationTimeEvent,
        confirmation_id: i64,
    },
    UpdateRowsLastReadTime {
        event: UpdateRowsLastReadTimeEvent,
        confirmation_id: i64,
    },
}

/// The spec-level shape of a [`DeliverToMainNodeEvent`].
#[verifier::ext_equal]
pub enum DeliverEventView {
    UpdatePartitionsExpiration { event: PartitionExpirationView, confirmation_id: i64 },
    UpdatePartitionsLastReadTime { event: PartitionsLastReadView, confirmation_id: i64 },
    UpdateRowsExpirationTime { event: RowsExpirationView, confirmation_id: i64 },
    UpdateRowsLastReadTime { event: RowsLastReadView, confirmation_id: i64 },
}

impl View for DeliverToMainNodeEvent {
    type V = DeliverEventView;

    open spec fn view(&self) -> DeliverEventView {
        match self {
            DeliverToMainNodeEvent::UpdatePartitionsExpiration { event, confirmation_id } => {
                DeliverEventView::UpdatePartitionsExpiration {
                    event: event@,
                    confirmation_id: *confirmation_id,
                }
            },
            DeliverToMainNodeEvent::UpdatePartitionsLastReadTime { event, confirmation_id } => {
                DeliverEventView::UpdatePartitionsLastReadTime {
                    event: event@,
                    confirmation_id: *confirmation_id,
                }
            },
            DeliverToMainNodeEvent::UpdateRowsExpirationTime { event, confirmation_id } => {
                DeliverEventView::UpdateRowsExpirationTime {
                    event: event@,
                    confirmation_id: *confirmation_id,
                }
            },
            DeliverToMainNodeEvent::UpdateRowsLastReadTime { event, confirmation_id } => {
                DeliverEventView::UpdateRowsLastReadTime {
                    event: event@,
                    confirmation_id: *confirmation_id,
                }
            },
        }
    }
}

impl Clone for DeliverToMainNodeEvent {
    fn clone(&self) -> (r: Self)
        ensures
            r@ == self@,
    {
        match self {
            DeliverToMainNodeEvent::UpdatePartitionsExpiration { event, confirmation_id } => {
                DeliverToMainNodeEvent::UpdatePartitionsExpiration {
                    event: event.clone(),
                    confirmation_id: *confirmation_id,
                }
            },
            DeliverToMainNodeEvent::UpdatePartitionsLastReadTime { event, confirmation_id } => {
                DeliverToMainNodeEvent::UpdatePartitionsLastReadTime {
                    event: event.clone(),
                    confirmation_id: *confirmation_id,
                }
            },
            DeliverToMainNodeEvent::UpdateRowsExpirationTime { event, confirmation_id } => {
                DeliverToMainNodeEvent::UpdateRowsExpirationTime {
                    event: event.clone(),
                    confirmation_id: *confirmation_id,
                }
            },
            DeliverToMainNodeEvent::UpdateRowsLastReadTime { event, confirmation_id } => {
                DeliverToMainNodeEvent::UpdateRowsLastReadTime {
                    event: event.clone(),
                    confirmation_id: *confirmation_id,
                }
            },
        }
    }
}

/// The confirmation id an event was handed out with.
pub open spec fn confirmation_id_of(v: DeliverEventView) -> i64 {
    match v {
        DeliverEventView::UpdatePartitionsExpiration { event: _, confirmation_id } => {
            confirmation_id
        },
        DeliverEventView::UpdatePartitionsLastReadTime { event: _, confirmation_id } => {
            confirmation_id
        },
        DeliverEventView::UpdateRowsExpirationTime { event: _, confirmation_id } => {
            confirmation_id
        },
        DeliverEventView::UpdateRowsLastReadTime { event: _, confirmation_id } => confirmation_id,
    }
}

impl DeliverToMainNodeEvent {
    pub fn get_confirmation_id(&self) -> (r: i64)
        ensures
            r == confirmation_id_of(self@),
    {
        match self {
            DeliverToMainNodeEvent::UpdatePartitionsExpiration { event: _, confirmation_id } => {
                *confirmation_id
            },
            DeliverToMainNodeEvent::UpdatePartitionsLastReadTime { event: _, confirmation_id } => {
                *confirmation_id
            },
            DeliverToMainNodeEvent::UpdateRowsExpirationTime { event: _, confirmation_id } => {
                *confirmation_id
            },
            DeliverToMainNodeEvent::UpdateRowsLastReadTime { event: _, confirmation_id } => {
                *confirmation_id
            },
        }
    }
}

/// The spec-level shape of the coordinator's state.
#[verifier::ext_equal]
pub struct InnerView {
    pub confirmation_id: i64,
    pub partition_expiration: Seq<PartitionExpirationView>,
    pub partitions_last_read: Seq<PartitionsLastReadView>,
    pub rows_expiration: Seq<RowsExpirationView>,
    pub rows_last_read: Seq<RowsLastReadView>,
    pub on_delivery: Option<DeliverEventView>,
    pub connection: Option<u64>,
}

/// A supplied confirmation clears the in-flight slot; it is accepted even on
/// an id mismatch (or with nothing in flight), which is logged as an internal
/// consistency warning by the caller, because stalling the pipeline forever
/// would be worse.
pub open spec fn confirm_spec(s: InnerView, confirmed: Option<i64>) -> InnerView {
    if confirmed is Some {
        InnerView { on_delivery: None, ..s }
    } else {
        s
    }
}

/// The delivery attempt: clear the in-flight slot if a confirmation came in,
/// refuse while something is still in flight or no connection is active, and
/// otherwise hand out the head of the first non-empty queue in priority
/// order, freshly numbered and recorded as in flight.
pub open spec fn next_event_spec(s: InnerView, confirmed: Option<i64>) -> (
    InnerView,
    Option<(u64, DeliverEventView)>,
) {
    let s1 = confirm_spec(s, confirmed);
    if s1.on_delivery is Some {
        (s1, None)
    } else if s1.connection is None {
        (s1, None)
    } else {
        let c = s1.connection.unwrap();
        let fresh = (s1.confirmation_id + 1) as i64;
        if s1.partition_expiration.len() > 0 {
            let ev = DeliverEventView::UpdatePartitionsExpiration {
                event: s1.partition_expiration[0],
                confirmation_id: fresh,
            };
            (
                InnerView {
                    confirmation_id: fresh,
                    partition_expiration: s1.partition_expiration.drop_first(),
                    on_delivery: Some(ev),
                    ..s1
                },
                Some((c, ev)),
            )
        } else if s1.partitions_last_read.len() > 0 {
            let ev = DeliverEventView::UpdatePartitionsLastReadTime {
                event: s1.partitions_last_read[0],
                confirmation_id: fresh,
            };
            (
                InnerView {
                    confirmation_id: fresh,
                    partitions_last_read: s1.partitions_last_read.drop_first(),
                    on_delivery: Some(ev),
                    ..s1
                },
                Some((c, ev)),
            )
        } else if s1.rows_expiration.len() > 0 {
            let ev = DeliverEventView::UpdateRowsExpirationTime {
                event: s1.rows_expiration[0],
                confirmation_id: fresh,
            };
            (
                InnerView {
                    confirmation_id: fresh,
                    rows_expiration: s1.rows_expiration.drop_first(),
                    on_delivery: Some(ev),
                    ..s1
                },
                Some((c, ev)),
            )
        } else if s1.rows_last_read.len() > 0 {
            let ev = DeliverEventView::UpdateRowsLastReadTime {
                event: s1.rows_last_read[0],
                confirmation_id: fresh,
            };
            (
                InnerView {
                    confirmation_id: fresh,
                    rows_last_read: s1.rows_last_read.drop_first(),
                    on_delivery: Some(ev),
                    ..s1
                },
                Some((c, ev)),
            )
        } else {
            (s1, None)
        }
    }
}

/// A disconnect clears the connection and returns the in-flight entry, if
/// any, to the tail of its originating queue.
pub open spec fn disconnect_spec(s: InnerView) -> InnerView {
    let s1 = InnerView { connection: None, ..s };
    match s.on_delivery {
        None => s1,
        Some(ev) => match ev {
            DeliverEventView::UpdatePartitionsExpiration { event, confirmation_id: _ } => {
                InnerView {
                    partition_expiration: s1.partition_expiration.push(event),
                    on_delivery: None,
                    ..s1
                }
            },
            DeliverEventView::UpdatePartitionsLastReadTime { event, confirmation_id: _ } => {
                InnerView {
                    partitions_last_read: s1.partitions_last_read.push(event),
                    on_delivery: None,
                    ..s1
                }
            },
            DeliverEventView::UpdateRowsExpirationTime { event, confirmation_id: _ } => {
                InnerView {
                    rows_expiration: s1.rows_expiration.push(event),
                    on_delivery: None,
                    ..s1
                }
            },
            DeliverEventView::UpdateRowsLastReadTime { event, confirmation_id: _ } => {
                InnerView {
                    rows_last_read: s1.rows_last_read.push(event),
                    on_delivery: None,
                    ..s1
                }
            },
        },
    }
}

/// Routing of an update request's set facets into the queues, in the fixed
/// order: partition last-read, partition expiration, row last-read, row
/// expiration. A request with no facet set is a no-op.
pub open spec fn update_spec(
    s: InnerView,
    table: Seq<char>,
    partition: Seq<char>,
    row_keys: Seq<Seq<char>>,
    data: UpdateEntityStatisticsData,
) -> InnerView {
    let s1 = if data.partition_last_read_moment {
        InnerView {
            partitions_last_read: plr_add_partition(s.partitions_last_read, table, partition),
            ..s
        }
    } else {
        s
    };
    let s2 = match data.partition_expiration_moment {
        Some(expiration) => InnerView {
            partition_expiration: pe_add(s1.partition_expiration, table, partition, expiration),
            ..s1
        },
        None => s1,
    };
    let s3 = if data.row_last_read_moment {
        InnerView { rows_last_read: rlr_add(s2.rows_last_read, table, partition, row_keys), ..s2 }
    } else {
        s2
    };
    match data.row_expiration_moment {
        Some(expiration) => InnerView {
            rows_expiration: re_add(s3.rows_expiration, table, partition, row_keys, expiration),
            ..s3
        },
        None => s3,
    }
}

/// How many facets an update request applies: one ping per applied facet is
/// signalled to the delivery handler.
pub open spec fn ping_count_spec(data: UpdateEntityStatisticsData) -> int {
    (if data.partition_last_read_moment { 1int } else { 0int })
        + (if data.partition_expiration_moment is Some { 1int } else { 0int })
        + (if data.row_last_read_moment { 1int } else { 0int })
        + (if data.row_expiration_moment is Some { 1int } else { 0int })
}

/// The coordinator's mutable state: the counter, the four queues, the
/// in-flight slot and the active connection.
pub struct SyncQueuesInner {
    pub confirmation_id: i64,
    update_partition_expiration_time_update: UpdatePartitionsExpirationTimeQueue,
    update_partitions_last_read_time_queue: UpdatePartitionsLastReadTimeQueue,
    update_rows_expiration_time_queue: UpdateRowsExpirationTimeQueue,
    update_rows_last_read_time_queue: UpdateRowsLastReadTimeQueue,
    on_delivery: Option<DeliverToMainNodeEvent>,
    connection: Option<u64>,
}

impl View for SyncQueuesInner {
    type V = InnerView;

    closed spec fn view(&self) -> InnerView {
        InnerView {
            confirmation_id: self.confirmation_id,
            partition_expiration: self.update_partition_expiration_time_update@,
            partitions_last_read: self.update_partitions_last_read_time_queue@,
            rows_expiration: self.update_rows_expiration_time_queue@,
            rows_last_read: self.update_rows_last_read_time_queue@,
            on_delivery: match &self.on_delivery {
                Some(e) => Some(e@),
                None => None,
            },
            connection: self.connection,
        }
    }
}

impl SyncQueuesInner {
    pub fn new() -> (r: Self)
        ensures
            r@.confirmation_id == 0,
            r@.partition_expiration.len() == 0,
            r@.partitions_last_read.len() == 0,
            r@.rows_expiration.len() == 0,
            r@.rows_last_read.len() == 0,
            r@.on_delivery is None,
            r@.connection is None,
    {
        Self {
            confirmation_id: 0,
            update_partition_expiration_time_update: UpdatePartitionsExpirationTimeQueue::new(),
            update_rows_expiration_time_queue: UpdateRowsExpirationTimeQueue::new(),
            update_rows_last_read_time_queue: UpdateRowsLastReadTimeQueue::new(),
            update_partitions_last_read_time_queue: UpdatePartitionsLastReadTimeQueue::new(),
            on_delivery: None,
            connection: None,
        }
    }

    /// Allocates the next confirmation id: the counter is strictly
    /// increasing.
    fn get_confirmation_id(&mut self) -> (r: i64)
        requires
            old(self)@.confirmation_id < i64::MAX,
        ensures
            r == old(self)@.confirmation_id + 1,
            final(self)@ == (InnerView { confirmation_id: r, ..old(self)@ }),
    {
        self.confirmation_id = self.confirmation_id + 1;
        self.confirmation_id
    }

    /// Accepts a confirmation: the in-flight slot is cleared even on an id
    /// mismatch or with nothing in flight (an internal consistency warning,
    /// not a fault), so that the pipeline can never stall on a bad
    /// confirmation.
    fn confirm_delivery(&mut self, delivery_id: i64)
        ensures
            final(self)@ == (InnerView { on_delivery: None, ..old(self)@ }),
    {
        let on_delivery = self.on_delivery.take();
        match on_delivery {
            Some(event) => {
                let _mismatch = event.get_confirmation_id() != delivery_id;
            },
            None => {},
        }
    }
}

/// The coordinator the rest of the node talks to. Producers route update
/// requests in; the delivery handler asks for the next event to put on the
/// wire.
pub struct SyncToMainNodeQueues {
    inner: SyncQueuesInner,
}

impl View for SyncToMainNodeQueues {
    type V = InnerView;

    closed spec fn view(&self) -> InnerView {
        self.inner@
    }
}

impl SyncToMainNodeQueues {
    pub fn new() -> (r: Self)
        ensures
            r@.confirmation_id == 0,
            r@.partition_expiration.len() == 0,
            r@.partitions_last_read.len() == 0,
            r@.rows_expiration.len() == 0,
            r@.rows_last_read.len() == 0,
            r@.on_delivery is None,
            r@.connection is None,
    {
        Self { inner: SyncQueuesInner::new() }
    }

    /// Routes an update request's set facets into the queues; the returned
    /// count says how many delivery pings to signal (one per applied facet).
    pub fn update(
        &mut self,
        table_name: &str,
        partition_key: &str,
        row_keys: &Vec<String>,
        data: &UpdateEntityStatisticsData,
    ) -> (pings: usize)
        ensures
            final(self)@ == update_spec(
                old(self)@,
                table_name@,
                partition_key@,
                row_keys.deep_view(),
                *data,
            ),
            pings == ping_count_spec(*data),
    {
        let mut pings: usize = 0;
        if !data.has_data_to_update() {
            return 0;
        }
        if data.partition_last_read_moment {
            self.inner.update_partitions_last_read_time_queue.add_partition(
                table_name,
                partition_key,
            );
            pings = pings + 1;
        }
        match data.partition_expiration_moment {
            Some(partition_expiration) => {
                self.inner.update_partition_expiration_time_update.add(
                    table_name,
                    partition_key,
                    partition_expiration,
                );
                pings = pings + 1;
            },
            None => {},
        }
        if data.row_last_read_moment {
            self.inner.update_rows_last_read_time_queue.add(table_name, partition_key, row_keys);
            pings = pings + 1;
        }
        match data.row_expiration_moment {
            Some(row_expiration) => {
                self.inner.update_rows_expiration_time_queue.add(
                    table_name,
                    partition_key,
                    row_keys,
                    row_expiration,
                );
                pings = pings + 1;
            },
            None => {},
        }
        pings
    }

    /// Queues one partition's pending expiration.
    pub fn update_partition_expiration_time(
        &mut self,
        table_name: &str,
        partition_key: &str,
        date_time: Option<i64>,
    )
        ensures
            final(self)@ == (InnerView {
                partition_expiration: pe_add(
                    old(self)@.partition_expiration,
                    table_name@,
                    partition_key@,
                    date_time,
                ),
                ..old(self)@
            }),
    {
        self.inner.update_partition_expiration_time_update.add(
            table_name,
            partition_key,
            date_time,
        );
    }

    /// Queues a batch of rows' pending expiration.
    pub fn update_rows_expiration_time(
        &mut self,
        table_name: &str,
        partition_key: &str,
        row_keys: &Vec<String>,
        date_time: Option<i64>,
    )
        ensures
            final(self)@ == (InnerView {
                rows_expiration: re_add(
                    old(self)@.rows_expiration,
                    table_name@,
                    partition_key@,
                    row_keys.deep_view(),
                    date_time,
                ),
                ..old(self)@
            }),
    {
        self.inner.update_rows_expiration_time_queue.add(
            table_name,
            partition_key,
            row_keys,
            date_time,
        );
    }

    /// Marks a batch of rows as read.
    pub fn update_rows_last_read_time(
        &mut self,
        table_name: &str,
        partition_key: &str,
        row_keys: &Vec<String>,
    )
        ensures
            final(self)@ == (InnerView {
                rows_last_read: rlr_add(
                    old(self)@.rows_last_read,
                    table_name@,
                    partition_key@,
                    row_keys.deep_view(),
                ),
                ..old(self)@
            }),
    {
        self.inner.update_rows_last_read_time_queue.add(table_name, partition_key, row_keys);
    }

    /// Marks a batch of partitions as read.
    pub fn update_partitions_last_read_time(
        &mut self,
        table_name: &str,
        partition_keys: &Vec<String>,
    )
        ensures
            final(self)@ == (InnerView {
                partitions_last_read: plr_add(
                    old(self)@.partitions_last_read,
                    table_name@,
                    partition_keys.deep_view(),
                ),
                ..old(self)@
            }),
    {
        self.inner.update_partitions_last_read_time_queue.add(table_name, partition_keys);
    }

    /// The delivery attempt; see [`next_event_spec`]. After it hands out an
    /// event, further calls without a confirmation hand out nothing until a
    /// confirmation or a disconnect clears the in-flight slot.
    pub fn get_next_event_to_deliver(&mut self, delivery_id: Option<i64>) -> (r: Option<
        (u64, DeliverToMainNodeEvent),
    >)
        requires
            old(self)@.confirmation_id < i64::MAX,
        ensures
            ({
                let (s2, out) = next_event_spec(old(self)@, delivery_id);
                &&& final(self)@ == s2
                &&& match (r, out) {
                    (None, None) => true,
                    (Some((c, ev)), Some((c2, ev2))) => c == c2 && ev@ == ev2,
                    _ => false,
                }
            }),
    {
        match delivery_id {
            Some(id) => {
                self.inner.confirm_delivery(id);
            },
            None => {},
        }
        if self.inner.on_delivery.is_some() {
            return None;
        }
        let connection = match self.inner.connection {
            Some(c) => c,
            None => {
                return None;
            },
        };
        match self.inner.update_partition_expiration_time_update.dequeue() {
            Some(event) => {
                let confirmation_id = self.inner.get_confirmation_id();
                let result = DeliverToMainNodeEvent::UpdatePartitionsExpiration {
                    event,
                    confirmation_id,
                };
                self.inner.on_delivery = Some(result.clone());
                proof {
                    assert(self@ =~= next_event_spec(old(self)@, delivery_id).0);
                }
                return Some((connection, result));
            },
            None => {},
        }
        match self.inner.update_partitions_last_read_time_queue.dequeue() {
            Some(event) => {
                let confirmation_id = self.inner.get_confirmation_id();
                let result = DeliverToMainNodeEvent::UpdatePartitionsLastReadTime {
                    event,
                    confirmation_id,
                };
                self.inner.on_delivery = Some(result.clone());
                proof {
                    assert(self@ =~= next_event_spec(old(self)@, delivery_id).0);
                }
                return Some((connection, result));
            },
            None => {},
        }
        match self.inner.update_rows_expiration_time_queue.dequeue() {
            Some(event) => {
                let confirmation_id = self.inner.get_confirmation_id();
                let result = DeliverToMainNodeEvent::UpdateRowsExpirationTime {
                    event,
                    confirmation_id,
                };
                self.inner.on_delivery = Some(result.clone());
                proof {
                    assert(self@ =~= next_event_spec(old(self)@, delivery_id).0);
                }
                return Some((connection, result));
            },
            None => {},
        }
        match self.inner.update_rows_last_read_time_queue.dequeue() {
            Some(event) => {
                let confirmation_id = self.inner.get_confirmation_id();
                let result = DeliverToMainNodeEvent::UpdateRowsLastReadTime {
                    event,
                    confirmation_id,
                };
                self.inner.on_delivery = Some(result.clone());
                proof {
                    assert(self@ =~= next_event_spec(old(self)@, delivery_id).0);
                }
                return Some((connection, result));
            },
            None => {},
        }
        proof {
            assert(self@ =~= next_event_spec(old(self)@, delivery_id).0);
        }
        None
    }

    /// The confirmation counter's current value; callers check it is below
    /// `i64::MAX` before asking for a delivery, which allocates the next id.
    pub fn current_confirmation_id(&self) -> (r: i64)
        ensures
            r == self@.confirmation_id,
    {
        self.inner.confirmation_id
    }

    /// Installs the active connection, replacing any previous one; a prior
    /// in-flight delivery is left as it is until a disconnect clears it.
    pub fn new_connection(&mut self, connection: u64)
        ensures
            final(self)@ == (InnerView { connection: Some(connection), ..old(self)@ }),
    {
        self.inner.connection = Some(connection);
    }

    /// Clears the connection and returns any in-flight event to the tail of
    /// its originating queue, making it eligible for redelivery once a
    /// connection returns.
    pub fn disconnected(&mut self)
        ensures
            final(self)@ == disconnect_spec(old(self)@),
    {
        self.inner.connection = None;
        let event_on_delivery = self.inner.on_delivery.take();
        match event_on_delivery {
            None => {},
            Some(DeliverToMainNodeEvent::UpdatePartitionsExpiration { event, confirmation_id: _ }) => {
                self.inner.update_partition_expiration_time_update.return_event(event);
                proof {
                    assert(self@ =~= disconnect_spec(old(self)@));
                }
            },
            Some(
                DeliverToMainNodeEvent::UpdatePartitionsLastReadTime { event, confirmation_id: _ },
            ) => {
                self.inner.update_partitions_last_read_time_queue.return_event(event);
                proof {
                    assert(self@ =~= disconnect_spec(old(self)@));
                }
            },
            Some(DeliverToMainNodeEvent::UpdateRowsExpirationTime { event, confirmation_id: _ }) => {
                self.inner.update_rows_expiration_time_queue.return_event(event);
                proof {
                    assert(self@ =~= disconnect_spec(old(self)@));
                }
            },
            Some(DeliverToMainNodeEvent::UpdateRowsLastReadTime { event, confirmation_id: _ }) => {
                self.inner.update_rows_last_read_time_queue.return_event(event);
                proof {
                    assert(self@ =~= disconnect_spec(old(self)@));
                }
            },
        }
    }
}

/// Single-flight: while an event awaits confirmation, a delivery attempt
/// without a confirmation hands out nothing and changes nothing.
pub proof fn lemma_single_flight(s: InnerView)
    requires
        s.on_delivery is Some,
    ensures
        next_event_spec(s, None) == (s, None::<(u64, DeliverEventView)>),
{
}

/// Producer updates never touch the in-flight slot or the connection, so
/// single-flight holds regardless of how many updates arrive in between.
pub proof fn lemma_update_preserves_in_flight(
    s: InnerView,
    table: Seq<char>,
    partition: Seq<char>,
    row_keys: Seq<Seq<char>>,
    data: UpdateEntityStatisticsData,
)
    ensures
        update_spec(s, table, partition, row_keys, data).on_delivery == s.on_delivery,
        update_spec(s, table, partition, row_keys, data).connection == s.connection,
        update_spec(s, table, partition, row_keys, data).confirmation_id == s.confirmation_id,
{
}

/// Whether two deliverable events carry the same logical content, ignoring
/// the confirmation id they were numbered with.
pub open spec fn same_event_content(a: DeliverEventView, b: DeliverEventView) -> bool {
    match (a, b) {
        (
            DeliverEventView::UpdatePartitionsExpiration { event: e1, confirmation_id: _ },
            DeliverEventView::UpdatePartitionsExpiration { event: e2, confirmation_id: _ },
        ) => e1 == e2,
        (
            DeliverEventView::UpdatePartitionsLastReadTime { event: e1, confirmation_id: _ },
            DeliverEventView::UpdatePartitionsLastReadTime { event: e2, confirmation_id: _ },
        ) => e1 == e2,
        (
            DeliverEventView::UpdateRowsExpirationTime { event: e1, confirmation_id: _ },
            DeliverEventView::UpdateRowsExpirationTime { event: e2, confirmation_id: _ },
        ) => e1 == e2,
        (
            DeliverEventView::UpdateRowsLastReadTime { event: e1, confirmation_id: _ },
            DeliverEventView::UpdateRowsLastReadTime { event: e2, confirmation_id: _ },
        ) => e1 == e2,
        _ => false,
    }
}

/// Disconnect recovery: with an event in flight and nothing of its own or
/// higher priority queued, disconnecting and then re-establishing a
/// connection delivers that same logical event content again (under a fresh
/// confirmation id), before any newer entry of lower priority.
pub proof fn lemma_disconnect_recovery(s: InnerView, ev: DeliverEventView, c: u64)
    requires
        s.on_delivery == Some(ev),
        s.confirmation_id < i64::MAX,
        match ev {
            DeliverEventView::UpdatePartitionsExpiration { .. } => s.partition_expiration.len()
                == 0,
            DeliverEventView::UpdatePartitionsLastReadTime { .. } => s.partition_expiration.len()
                == 0 && s.partitions_last_read.len() == 0,
            DeliverEventView::UpdateRowsExpirationTime { .. } => s.partition_expiration.len() == 0
                && s.partitions_last_read.len() == 0 && s.rows_expiration.len() == 0,
            DeliverEventView::UpdateRowsLastReadTime { .. } => s.partition_expiration.len() == 0
                && s.partitions_last_read.len() == 0 && s.rows_expiration.len() == 0
                && s.rows_last_read.len() == 0,
        },
    ensures
        ({
            let reconnected = InnerView { connection: Some(c), ..disconnect_spec(s) };
            let (s2, out) = next_event_spec(reconnected, None);
            &&& out matches Some((c2, ev2)) && c2 == c && same_event_content(ev2, ev)
        }),
{
    let reconnected = InnerView { connection: Some(c), ..disconnect_spec(s) };
    match ev {
        DeliverEventView::UpdatePartitionsExpiration { event, confirmation_id: _ } => {
            assert(reconnected.partition_expiration[0] == event);
        },
        DeliverEventView::UpdatePartitionsLastReadTime { event, confirmation_id: _ } => {
            assert(reconnected.partitions_last_read[0] == event);
        },
        DeliverEventView::UpdateRowsExpirationTime { event, confirmation_id: _ } => {
            assert(reconnected.rows_expiration[0] == event);
        },
        DeliverEventView::UpdateRowsLastReadTime { event, confirmation_id: _ } => {
            assert(reconnected.rows_last_read[0] == event);
        },
    }
}

/// Priority ordering: with one entry pending in each queue, successive
/// deliveries (each confirming the previous one) hand the entries out in the
/// fixed order partition expiration, partition last-read, row expiration,
/// row last-read.
pub proof fn lemma_priority_ordering(
    s: InnerView,
    e1: PartitionExpirationView,
    e2: PartitionsLastReadView,
    e3: RowsExpirationView,
    e4: RowsLastReadView,
    c: u64,
)
    requires
        s.partition_expiration == seq![e1],
        s.partitions_last_read == seq![e2],
        s.rows_expiration == seq![e3],
        s.rows_last_read == seq![e4],
        s.on_delivery is None,
        s.connection == Some(c),
        s.confirmation_id + 4 <= i64::MAX,
    ensures
        ({
            let (s1, r1) = next_event_spec(s, None);
            let (s2, r2) = next_event_spec(s1, Some(confirmation_id_of(r1.unwrap().1)));
            let (s3, r3) = next_event_spec(s2, Some(confirmation_id_of(r2.unwrap().1)));
            let (s4, r4) = next_event_spec(s3, Some(confirmation_id_of(r3.unwrap().1)));
            &&& r1 matches Some((c1, DeliverEventView::UpdatePartitionsExpiration {
                event: d1,
                confirmation_id: _,
            })) && c1 == c && d1 == e1
            &&& r2 matches Some((c2, DeliverEventView::UpdatePartitionsLastReadTime {
                event: d2,
                confirmation_id: _,
            })) && c2 == c && d2 == e2
            &&& r3 matches Some((c3, DeliverEventView::UpdateRowsExpirationTime {
                event: d3,
                confirmation_id: _,
            })) && c3 == c && d3 == e3
            &&& r4 matches Some((c4, DeliverEventView::UpdateRowsLastReadTime {
                event: d4,
                confirmation_id: _,
            })) && c4 == c && d4 == e4
        }),
{
    assert(seq![e1].drop_first() =~= Seq::<PartitionExpirationView>::empty());
    assert(seq![e2].drop_first() =~= Seq::<PartitionsLastReadView>::empty());
    assert(seq![e3].drop_first() =~= Seq::<RowsExpirationView>::empty());
    assert(seq![e4].drop_first() =~= Seq::<RowsLastReadView>::empty());
}

} // verus!
