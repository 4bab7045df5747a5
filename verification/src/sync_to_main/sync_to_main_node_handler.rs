//! The delivery handler's decision logic: one ordered event stream drives the
//! coordinator, and each delivery attempt is translated into the wire message
//! to send.
//!
//! The surrounding I/O — the event queue itself, the TCP sessions, the actual
//! send — lives outside this crate; here each step is a pure function from
//! coordinator state and event to next state and the message (with its
//! connection handle) to put on the wire.

use crate::sync_to_main::sync_queues::{
    next_event_spec, DeliverEventView, DeliverToMainNodeEvent, SyncToMainNodeQueues,
    disconnect_spec,
};
use crate::sync_to_main::sync_to_main_node_event::SyncToMainNodeEvent;
use crate::tcp_contracts::{MyNoSqlTcpContract, TcpContractView};
use vstd::prelude::*;

verus! {

/// The wire message a deliverable event becomes: internal-only structure is
/// stripped and the entry's content is laid out as the matching
/// confirmation-bearing variant.
pub open spec fn contract_of(ev: DeliverEventView) -> TcpContractView {
    match ev {
        DeliverEventView::UpdatePartitionsExpiration { event, confirmation_id } => {
            TcpContractView::UpdatePartitionsExpirationTime {
                confirmation_id,
                table_name: event.table_name,
                partitions: event.partitions,
            }
        },
        DeliverEventView::UpdatePartitionsLastReadTime { event, confirmation_id } => {
            TcpContractView::UpdatePartitionsLastReadTime {
                confirmation_id,
                table_name: event.table_name,
                partitions: event.partitions,
            }
        },
        DeliverEventView::UpdateRowsExpirationTime { event, confirmation_id } => {
            TcpContractView::UpdateRowsExpirationTime {
                confirmation_id,
                table_name: event.table_name,
                partition_key: event.partition_key,
                row_keys: event.row_keys,
                expiration_time: event.expiration_time,
            }
        },
        DeliverEventView::UpdateRowsLastReadTime { event, confirmation_id } => {
            TcpContractView::UpdateRowsLastReadTime {
                confirmation_id,
                table_name: event.table_name,
                partition_key: event.partition_key,
                row_keys: event.row_keys,
            }
        },
    }
}

/// One delivery attempt: asks the coordinator for the next event (confirming
/// `delivered_confirmation_id` if one came in) and translates it into the
/// wire message for the returned connection; `None` where nothing is to be
/// sent.
pub fn to_main_node_pusher(
    queues: &mut SyncToMainNodeQueues,
    delivered_confirmation_id: Option<i64>,
) -> (r: Option<(u64, MyNoSqlTcpContract)>)
    requires
        old(queues)@.confirmation_id < i64::MAX,
    ensures
        ({
            let (s2, out) = next_event_spec(old(queues)@, delivered_confirmation_id);
            &&& final(queues)@ == s2
            &&& match (r, out) {
                (None, None) => true,
                (Some((c, msg)), Some((c2, ev))) => c == c2 && msg@ == contract_of(ev),
                _ => false,
            }
        }),
{
    let next_event = queues.get_next_event_to_deliver(delivered_confirmation_id);
    match next_event {
        None => None,
        Some((connection, next_event)) => {
            match next_event {
                DeliverToMainNodeEvent::UpdatePartitionsExpiration { event, confirmation_id } => {
                    let message = MyNoSqlTcpContract::UpdatePartitionsExpirationTime {
                        confirmation_id,
                        table_name: event.table_name,
                        partitions: event.partitions,
                    };
                    Some((connection, message))
                },
                DeliverToMainNodeEvent::UpdatePartitionsLastReadTime { event, confirmation_id } => {
                    let message = MyNoSqlTcpContract::UpdatePartitionsLastReadTime {
                        confirmation_id,
                        table_name: event.table_name,
                        partitions: event.partitions,
                    };
                    Some((connection, message))
                },
                DeliverToMainNodeEvent::UpdateRowsExpirationTime { event, confirmation_id } => {
                    let message = MyNoSqlTcpContract::UpdateRowsExpirationTime {
                        confirmation_id,
                        table_name: event.table_name,
                        partition_key: event.partition_key,
                        row_keys: event.row_keys,
                        expiration_time: event.expiration_time,
                    };
                    Some((connection, message))
                },
                DeliverToMainNodeEvent::UpdateRowsLastReadTime { event, confirmation_id } => {
                    let message = MyNoSqlTcpContract::UpdateRowsLastReadTime {
                        confirmation_id,
                        table_name: event.table_name,
                        partition_key: event.partition_key,
                        row_keys: event.row_keys,
                    };
                    Some((connection, message))
                },
            }
        },
    }
}

/// The state transition one handler event causes, together with the wire
/// message to send, if any.
pub open spec fn handle_event_spec(s: super::sync_queues::InnerView, event: SyncToMainNodeEvent) -> (
    super::sync_queues::InnerView,
    Option<(u64, TcpContractView)>,
) {
    match event {
        SyncToMainNodeEvent::Connected(connection) => {
            let s1 = super::sync_queues::InnerView { connection: Some(connection), ..s };
            let (s2, out) = next_event_spec(s1, None);
            (
                s2,
                match out {
                    Some((c, ev)) => Some((c, contract_of(ev))),
                    None => None,
                },
            )
        },
        SyncToMainNodeEvent::Disconnected(_) => (disconnect_spec(s), None),
        SyncToMainNodeEvent::PingToDeliver => {
            let (s2, out) = next_event_spec(s, None);
            (
                s2,
                match out {
                    Some((c, ev)) => Some((c, contract_of(ev))),
                    None => None,
                },
            )
        },
        SyncToMainNodeEvent::Delivered(confirmation_id) => {
            let (s2, out) = next_event_spec(s, Some(confirmation_id));
            (
                s2,
                match out {
                    Some((c, ev)) => Some((c, contract_of(ev))),
                    None => None,
                },
            )
        },
    }
}

/// Processes one event of the handler's stream: install or clear the
/// connection, then attempt a delivery where the event calls for one. The
/// returned message, if any, is what the caller must send on the returned
/// connection.
pub fn handle_event(queues: &mut SyncToMainNodeQueues, event: SyncToMainNodeEvent) -> (r: Option<
    (u64, MyNoSqlTcpContract),
>)
    requires
        old(queues)@.confirmation_id < i64::MAX,
    ensures
        ({
            let (s2, out) = handle_event_spec(old(queues)@, event);
            &&& final(queues)@ == s2
            &&& match (r, out) {
                (None, None) => true,
                (Some((c, msg)), Some((c2, mv))) => c == c2 && msg@ == mv,
                _ => false,
            }
        }),
{
    match event {
        SyncToMainNodeEvent::Connected(connection) => {
            queues.new_connection(connection);
            to_main_node_pusher(queues, None)
        },
        SyncToMainNodeEvent::Disconnected(_) => {
            queues.disconnected();
            None
        },
        SyncToMainNodeEvent::PingToDeliver => to_main_node_pusher(queues, None),
        SyncToMainNodeEvent::Delivered(confirmation_id) => to_main_node_pusher(
            queues,
            Some(confirmation_id),
        ),
    }
}

} // verus!
