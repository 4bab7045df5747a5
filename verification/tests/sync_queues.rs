//! Delivery coordinator tests: coalescing, single flight, disconnect
//! recovery and priority ordering.

use my_no_sql_tcp_shared::sync_to_main::sync_queues::{
    DeliverToMainNodeEvent, SyncToMainNodeQueues,
};
use my_no_sql_tcp_shared::sync_to_main::sync_to_main_node_handler::{
    handle_event, to_main_node_pusher,
};
use my_no_sql_tcp_shared::sync_to_main::sync_to_main_node_event::SyncToMainNodeEvent;
use my_no_sql_tcp_shared::sync_to_main::update_partitions_last_read_time_queue::UpdatePartitionsLastReadTimeQueue;
use my_no_sql_tcp_shared::sync_to_main::update_rows_expiration_time_queue::UpdateRowsExpirationTimeQueue;
use my_no_sql_tcp_shared::sync_to_main::UpdateEntityStatisticsData;
use my_no_sql_tcp_shared::MyNoSqlTcpContract;

#[test]
fn add_partition_twice_coalesces_into_one_entry() {
    let mut queue = UpdatePartitionsLastReadTimeQueue::new();
    queue.add_partition("T", "P1");
    queue.add_partition("T", "P1");
    let entry = queue.dequeue().expect("one entry must be queued");
    assert_eq!(entry.table_name, "T");
    assert_eq!(entry.partitions, vec!["P1".to_string()]);
    assert!(queue.dequeue().is_none());
}

#[test]
fn add_partition_merges_distinct_partitions_per_table() {
    let mut queue = UpdatePartitionsLastReadTimeQueue::new();
    queue.add_partition("T", "P1");
    queue.add_partition("T", "P2");
    queue.add_partition("U", "P1");
    let entry = queue.dequeue().unwrap();
    assert_eq!(entry.table_name, "T");
    assert_eq!(entry.partitions, vec!["P1".to_string(), "P2".to_string()]);
    let entry = queue.dequeue().unwrap();
    assert_eq!(entry.table_name, "U");
    assert_eq!(entry.partitions, vec!["P1".to_string()]);
    assert!(queue.dequeue().is_none());
}

#[test]
fn rows_expiration_merge_keeps_the_earlier_instant() {
    // The entry's shared expiration is deliberately not refreshed by a merge.
    let mut queue = UpdateRowsExpirationTimeQueue::new();
    queue.add("T", "P", &vec!["r1".to_string()], Some(100));
    queue.add("T", "P", &vec!["r2".to_string()], Some(200));
    let entry = queue.dequeue().unwrap();
    assert_eq!(entry.row_keys, vec!["r1".to_string(), "r2".to_string()]);
    assert_eq!(entry.expiration_time, Some(100));
    assert!(queue.dequeue().is_none());
}

#[test]
fn single_flight_until_confirmed() {
    let mut queues = SyncToMainNodeQueues::new();
    queues.new_connection(1);
    queues.update_partitions_last_read_time("T", &vec!["P1".to_string()]);

    let first = queues.get_next_event_to_deliver(None).expect("an event is pending");
    let confirmation_id = first.1.get_confirmation_id();

    // More updates arrive, but nothing is handed out until a confirmation.
    queues.update_partitions_last_read_time("T", &vec!["P2".to_string()]);
    queues.update_rows_last_read_time("T", "P1", &vec!["r".to_string()]);
    assert!(queues.get_next_event_to_deliver(None).is_none());
    assert!(queues.get_next_event_to_deliver(None).is_none());

    // The confirmation releases the next event.
    assert!(queues.get_next_event_to_deliver(Some(confirmation_id)).is_some());
}

#[test]
fn update_signals_one_ping_per_applied_facet() {
    let mut queues = SyncToMainNodeQueues::new();
    let no_op = UpdateEntityStatisticsData::default();
    assert_eq!(queues.update("T", "P", &Vec::new(), &no_op), 0);

    let data = UpdateEntityStatisticsData {
        partition_last_read_moment: true,
        row_last_read_moment: true,
        partition_expiration_moment: Some(None),
        row_expiration_moment: Some(Some(500)),
    };
    assert_eq!(queues.update("T", "P", &vec!["r".to_string()], &data), 4);
}

#[test]
fn disconnect_returns_in_flight_event_for_redelivery() {
    let mut queues = SyncToMainNodeQueues::new();
    queues.new_connection(1);
    queues.update_partitions_last_read_time("T", &vec!["P1".to_string()]);

    let first = queues.get_next_event_to_deliver(None).expect("an event is pending");
    let first_entry = match first.1 {
        DeliverToMainNodeEvent::UpdatePartitionsLastReadTime { event, .. } => event,
        other => panic!("unexpected event kind: id {}", other.get_confirmation_id()),
    };

    queues.disconnected();
    assert!(queues.get_next_event_to_deliver(None).is_none());

    queues.new_connection(2);
    let again = queues.get_next_event_to_deliver(None).expect("the event must be redelivered");
    assert_eq!(again.0, 2);
    match again.1 {
        DeliverToMainNodeEvent::UpdatePartitionsLastReadTime { event, .. } => {
            assert_eq!(event.table_name, first_entry.table_name);
            assert_eq!(event.partitions, first_entry.partitions);
        },
        other => panic!("unexpected event kind: id {}", other.get_confirmation_id()),
    }
}

#[test]
fn deliveries_follow_fixed_queue_priority() {
    let mut queues = SyncToMainNodeQueues::new();
    queues.new_connection(1);
    let data = UpdateEntityStatisticsData {
        partition_last_read_moment: true,
        row_last_read_moment: true,
        partition_expiration_moment: Some(Some(700)),
        row_expiration_moment: Some(Some(800)),
    };
    queues.update("T", "P", &vec!["r".to_string()], &data);

    let mut confirmed: Option<i64> = None;
    let mut kinds: Vec<&'static str> = Vec::new();
    while let Some((_, event)) = queues.get_next_event_to_deliver(confirmed) {
        kinds.push(match &event {
            DeliverToMainNodeEvent::UpdatePartitionsExpiration { .. } => "partition-expiration",
            DeliverToMainNodeEvent::UpdatePartitionsLastReadTime { .. } => "partition-last-read",
            DeliverToMainNodeEvent::UpdateRowsExpirationTime { .. } => "row-expiration",
            DeliverToMainNodeEvent::UpdateRowsLastReadTime { .. } => "row-last-read",
        });
        confirmed = Some(event.get_confirmation_id());
    }
    assert_eq!(
        kinds,
        vec![
            "partition-expiration",
            "partition-last-read",
            "row-expiration",
            "row-last-read",
        ]
    );
}

#[test]
fn confirmation_ids_are_strictly_increasing() {
    let mut queues = SyncToMainNodeQueues::new();
    queues.new_connection(1);
    queues.update_partitions_last_read_time("A", &vec!["P".to_string()]);
    queues.update_partitions_last_read_time("B", &vec!["P".to_string()]);

    let first = queues.get_next_event_to_deliver(None).unwrap();
    let id1 = first.1.get_confirmation_id();
    let second = queues.get_next_event_to_deliver(Some(id1)).unwrap();
    let id2 = second.1.get_confirmation_id();
    assert!(id2 > id1);
}

#[test]
fn pusher_translates_events_into_wire_messages() {
    let mut queues = SyncToMainNodeQueues::new();
    queues.new_connection(9);
    queues.update_rows_last_read_time("T", "P", &vec!["r1".to_string(), "r2".to_string()]);

    let (connection, message) = to_main_node_pusher(&mut queues, None).expect("a message is due");
    assert_eq!(connection, 9);
    match message {
        MyNoSqlTcpContract::UpdateRowsLastReadTime {
            table_name,
            partition_key,
            row_keys,
            ..
        } => {
            assert_eq!(table_name, "T");
            assert_eq!(partition_key, "P");
            assert_eq!(row_keys, vec!["r1".to_string(), "r2".to_string()]);
        },
        other => panic!("unexpected message: {:?}", other),
    }
    assert!(to_main_node_pusher(&mut queues, None).is_none());
}

#[test]
fn handler_connect_triggers_a_delivery() {
    let mut queues = SyncToMainNodeQueues::new();
    queues.update_partition_expiration_time("T", "P", Some(999));

    // Nothing is deliverable before a connection exists.
    assert!(handle_event(&mut queues, SyncToMainNodeEvent::PingToDeliver).is_none());

    let (connection, message) = handle_event(&mut queues, SyncToMainNodeEvent::Connected(3))
        .expect("connecting must flush the pending entry");
    assert_eq!(connection, 3);
    match message {
        MyNoSqlTcpContract::UpdatePartitionsExpirationTime { table_name, partitions, .. } => {
            assert_eq!(table_name, "T");
            assert_eq!(partitions, vec![("P".to_string(), Some(999))]);
        },
        other => panic!("unexpected message: {:?}", other),
    }

    // Disconnect mid-flight, reconnect, and the same content is delivered.
    assert!(handle_event(&mut queues, SyncToMainNodeEvent::Disconnected(3)).is_none());
    let (_, message) = handle_event(&mut queues, SyncToMainNodeEvent::Connected(4)).unwrap();
    match message {
        MyNoSqlTcpContract::UpdatePartitionsExpirationTime { partitions, .. } => {
            assert_eq!(partitions, vec![("P".to_string(), Some(999))]);
        },
        other => panic!("unexpected message: {:?}", other),
    }

    // The redelivery is in flight again, so a ping hands out nothing.
    assert!(handle_event(&mut queues, SyncToMainNodeEvent::PingToDeliver).is_none());
}

#[test]
fn partition_expiration_last_write_wins_within_entry() {
    let mut queues = SyncToMainNodeQueues::new();
    queues.new_connection(1);
    queues.update_partition_expiration_time("T", "P", Some(100));
    queues.update_partition_expiration_time("T", "P", None);
    queues.update_partition_expiration_time("T", "Q", Some(300));

    let (_, event) = queues.get_next_event_to_deliver(None).unwrap();
    match event {
        DeliverToMainNodeEvent::UpdatePartitionsExpiration { event, .. } => {
            assert_eq!(event.table_name, "T");
            assert_eq!(
                event.partitions,
                vec![("P".to_string(), None), ("Q".to_string(), Some(300))]
            );
        },
        other => panic!("unexpected event kind: id {}", other.get_confirmation_id()),
    }
}
