//! Round-trip and error-path tests of the wire contract.

use my_no_sql_tcp_shared::{ByteReader, DeleteRowTcpContract, MyNoSqlTcpContract, ReadingTcpContractFail};

fn round_trip(message: &MyNoSqlTcpContract) -> MyNoSqlTcpContract {
    let bytes = message.serialize();
    let mut reader = ByteReader::new(bytes);
    MyNoSqlTcpContract::deserialize(&mut reader).expect("round trip must parse")
}

fn assert_round_trip(message: MyNoSqlTcpContract) {
    let back = round_trip(&message);
    assert_eq!(back, message);
}

#[test]
fn ping_serializes_to_one_byte() {
    let bytes = MyNoSqlTcpContract::Ping.serialize();
    assert_eq!(bytes.len(), 1);
    assert_eq!(bytes[0], my_no_sql_tcp_shared::tcp_packets::PING);
    let mut reader = ByteReader::new(bytes);
    let back = MyNoSqlTcpContract::deserialize(&mut reader).unwrap();
    assert_eq!(back, MyNoSqlTcpContract::Ping);
}

#[test]
fn round_trip_ping_pong() {
    assert_round_trip(MyNoSqlTcpContract::Ping);
    assert_round_trip(MyNoSqlTcpContract::Pong);
}

#[test]
fn round_trip_greeting() {
    assert_round_trip(MyNoSqlTcpContract::Greeting { name: "reader-7".to_string() });
    assert_round_trip(MyNoSqlTcpContract::Greeting { name: String::new() });
    assert_round_trip(MyNoSqlTcpContract::Greeting { name: "naïve-läser".to_string() });
}

#[test]
fn round_trip_subscribe() {
    assert_round_trip(MyNoSqlTcpContract::Subscribe { table_name: "orders".to_string() });
}

#[test]
fn round_trip_init_table() {
    assert_round_trip(MyNoSqlTcpContract::InitTable {
        table_name: "t".to_string(),
        data: vec![1, 2, 3, 255],
    });
    assert_round_trip(MyNoSqlTcpContract::InitTable {
        table_name: String::new(),
        data: Vec::new(),
    });
}

#[test]
fn round_trip_init_partition() {
    assert_round_trip(MyNoSqlTcpContract::InitPartition {
        table_name: "t".to_string(),
        partition_key: "p".to_string(),
        data: vec![0, 9],
    });
}

#[test]
fn round_trip_update_rows() {
    assert_round_trip(MyNoSqlTcpContract::UpdateRows {
        table_name: "t".to_string(),
        data: vec![7; 100],
    });
}

#[test]
fn round_trip_delete_rows() {
    assert_round_trip(MyNoSqlTcpContract::DeleteRows {
        table_name: "t".to_string(),
        rows: Vec::new(),
    });
    assert_round_trip(MyNoSqlTcpContract::DeleteRows {
        table_name: "t".to_string(),
        rows: vec![
            DeleteRowTcpContract { partition_key: "p1".to_string(), row_key: "r1".to_string() },
            DeleteRowTcpContract { partition_key: "p2".to_string(), row_key: String::new() },
        ],
    });
}

#[test]
fn round_trip_greeting_from_node() {
    assert_round_trip(MyNoSqlTcpContract::GreetingFromNode {
        node_location: "eu-west".to_string(),
        node_version: "1.2.3".to_string(),
        compress: true,
    });
    assert_round_trip(MyNoSqlTcpContract::GreetingFromNode {
        node_location: "eu-west".to_string(),
        node_version: "1.2.3".to_string(),
        compress: false,
    });
}

#[test]
fn round_trip_versioned_table_messages() {
    assert_round_trip(MyNoSqlTcpContract::SubscribeAsNode("t".to_string()));
    assert_round_trip(MyNoSqlTcpContract::Unsubscribe("t".to_string()));
    assert_round_trip(MyNoSqlTcpContract::TableNotFound("missing".to_string()));
}

#[test]
fn round_trip_compressed_payload() {
    assert_round_trip(MyNoSqlTcpContract::CompressedPayload(vec![9, 8, 7]));
}

#[test]
fn round_trip_update_partitions_last_read_time() {
    assert_round_trip(MyNoSqlTcpContract::UpdatePartitionsLastReadTime {
        confirmation_id: 42,
        table_name: "t".to_string(),
        partitions: vec!["p1".to_string(), "p2".to_string()],
    });
    assert_round_trip(MyNoSqlTcpContract::UpdatePartitionsLastReadTime {
        confirmation_id: -1,
        table_name: "t".to_string(),
        partitions: Vec::new(),
    });
}

#[test]
fn round_trip_update_rows_last_read_time() {
    assert_round_trip(MyNoSqlTcpContract::UpdateRowsLastReadTime {
        confirmation_id: 7,
        table_name: "t".to_string(),
        partition_key: "p".to_string(),
        row_keys: vec!["r1".to_string(), "r2".to_string(), "r3".to_string()],
    });
}

#[test]
fn round_trip_update_partitions_expiration_time() {
    assert_round_trip(MyNoSqlTcpContract::UpdatePartitionsExpirationTime {
        confirmation_id: 1,
        table_name: "t".to_string(),
        partitions: vec![
            ("p1".to_string(), None),
            ("p2".to_string(), Some(1_700_000_000_000_000)),
        ],
    });
}

#[test]
fn round_trip_update_rows_expiration_time() {
    assert_round_trip(MyNoSqlTcpContract::UpdateRowsExpirationTime {
        confirmation_id: 2,
        table_name: "t".to_string(),
        partition_key: "p".to_string(),
        row_keys: vec!["r".to_string()],
        expiration_time: Some(123_456),
    });
    assert_round_trip(MyNoSqlTcpContract::UpdateRowsExpirationTime {
        confirmation_id: 3,
        table_name: "t".to_string(),
        partition_key: "p".to_string(),
        row_keys: Vec::new(),
        expiration_time: None,
    });
}

#[test]
fn round_trip_confirmation() {
    assert_round_trip(MyNoSqlTcpContract::Confirmation { confirmation_id: i64::MAX });
    assert_round_trip(MyNoSqlTcpContract::Confirmation { confirmation_id: i64::MIN });
}

#[test]
fn absent_expiration_encodes_as_zero_microseconds() {
    let message = MyNoSqlTcpContract::UpdateRowsExpirationTime {
        confirmation_id: 0,
        table_name: String::new(),
        partition_key: String::new(),
        row_keys: Vec::new(),
        expiration_time: None,
    };
    let bytes = message.serialize();
    // tag, version, confirmation id, two empty strings, empty list, instant 0
    let expected_tail = [0u8; 8];
    assert_eq!(&bytes[bytes.len() - 8..], &expected_tail);
    assert_round_trip(message);
}

#[test]
fn error_packet_is_rejected_as_fatal() {
    let bytes = MyNoSqlTcpContract::Error { message: "boom".to_string() }.serialize();
    let mut reader = ByteReader::new(bytes);
    let err = MyNoSqlTcpContract::deserialize(&mut reader).unwrap_err();
    assert_eq!(err, ReadingTcpContractFail::ErrorPacketReceived("boom".to_string()));
}

#[test]
fn error_packet_with_unknown_version_is_rejected() {
    let bytes = vec![my_no_sql_tcp_shared::tcp_packets::ERROR, 1];
    let mut reader = ByteReader::new(bytes);
    let err = MyNoSqlTcpContract::deserialize(&mut reader).unwrap_err();
    assert_eq!(
        err,
        ReadingTcpContractFail::UnsupportedProtocolVersion {
            packet_id: my_no_sql_tcp_shared::tcp_packets::ERROR,
            version: 1,
        }
    );
}

#[test]
fn empty_input_is_unexpected_end_of_stream() {
    let mut reader = ByteReader::new(Vec::new());
    let err = MyNoSqlTcpContract::deserialize(&mut reader).unwrap_err();
    assert_eq!(err, ReadingTcpContractFail::UnexpectedEndOfStream);
}

#[test]
fn truncated_input_is_unexpected_end_of_stream() {
    // A greeting whose length byte promises more content than follows.
    let mut reader = ByteReader::new(vec![my_no_sql_tcp_shared::tcp_packets::GREETING, 5, b'a']);
    let err = MyNoSqlTcpContract::deserialize(&mut reader).unwrap_err();
    assert_eq!(err, ReadingTcpContractFail::UnexpectedEndOfStream);
}

#[test]
fn unknown_tag_is_invalid_packet_id() {
    let mut reader = ByteReader::new(vec![200]);
    let err = MyNoSqlTcpContract::deserialize(&mut reader).unwrap_err();
    assert_eq!(err, ReadingTcpContractFail::InvalidPacketId(200));
}

#[test]
fn malformed_utf8_is_invalid_utf8() {
    let mut reader = ByteReader::new(vec![my_no_sql_tcp_shared::tcp_packets::GREETING, 1, 0xFF]);
    let err = MyNoSqlTcpContract::deserialize(&mut reader).unwrap_err();
    assert_eq!(err, ReadingTcpContractFail::InvalidUtf8);
}

#[test]
fn try_serialize_rejects_oversized_pascal_string() {
    let message = MyNoSqlTcpContract::Greeting { name: "x".repeat(256) };
    assert!(message.try_serialize().is_none());
    let ok = MyNoSqlTcpContract::Greeting { name: "x".repeat(255) };
    assert!(ok.try_serialize().is_some());
}

#[test]
fn try_serialize_rejects_epoch_zero_instant() {
    let message = MyNoSqlTcpContract::UpdateRowsExpirationTime {
        confirmation_id: 1,
        table_name: "t".to_string(),
        partition_key: "p".to_string(),
        row_keys: Vec::new(),
        expiration_time: Some(0),
    };
    assert!(message.try_serialize().is_none());
}

#[test]
fn serializer_round_trips_and_supplies_ping() {
    let mut serializer = my_no_sql_tcp_shared::MyNoSqlReaderTcpSerializer::new();
    let ping = serializer.get_ping();
    assert_eq!(ping, MyNoSqlTcpContract::Ping);
    let message = MyNoSqlTcpContract::Subscribe { table_name: "t".to_string() };
    let bytes = serializer.serialize_ref(&message);
    let mut reader = ByteReader::new(bytes);
    let back = serializer.deserialize(&mut reader).unwrap();
    assert_eq!(back, message);
    assert!(!serializer.apply_packet(&back));
}
