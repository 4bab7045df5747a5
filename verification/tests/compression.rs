//! Compression transparency and threshold tests.

use my_no_sql_tcp_shared::{ByteReader, MyNoSqlTcpContract};
use my_no_sql_tcp_shared::payload_compressor::{compress, decompress};
use my_no_sql_tcp_shared::tcp_contracts::pick_smaller_wire_form;

#[test]
fn compressor_round_trips_raw_bytes() {
    let payload: Vec<u8> = (0..2000u32).map(|i| (i % 7) as u8).collect();
    let packed = compress(payload.as_slice()).unwrap();
    assert_ne!(packed, payload);
    let unpacked = decompress(packed.as_slice()).unwrap();
    assert_eq!(unpacked, payload);
}

#[test]
fn compressible_message_travels_as_compressed_envelope() {
    let message = MyNoSqlTcpContract::UpdateRows {
        table_name: "t".to_string(),
        data: vec![0u8; 16_384],
    };
    let wire = message.compress_if_make_sence_and_serialize().unwrap();
    assert!(wire.len() < message.serialize().len());

    let mut reader = ByteReader::new(wire);
    let outer = MyNoSqlTcpContract::deserialize(&mut reader).unwrap();
    match &outer {
        MyNoSqlTcpContract::CompressedPayload(_) => {},
        other => panic!("expected a compressed envelope, got {:?}", other),
    }
    let inner = outer.decompress_if_compressed().unwrap();
    assert_eq!(inner, message);
}

#[test]
fn incompressible_message_travels_in_plain_form() {
    // The packed form of a 1-byte payload cannot undercut it by 11 bytes.
    let wire = MyNoSqlTcpContract::Ping.compress_if_make_sence_and_serialize().unwrap();
    assert_eq!(wire, MyNoSqlTcpContract::Ping.serialize());

    let mut reader = ByteReader::new(wire);
    let outer = MyNoSqlTcpContract::deserialize(&mut reader).unwrap();
    let inner = outer.decompress_if_compressed().unwrap();
    assert_eq!(inner, MyNoSqlTcpContract::Ping);
}

#[test]
fn non_compressed_message_passes_through_unchanged() {
    let message = MyNoSqlTcpContract::Subscribe { table_name: "t".to_string() };
    let back = message.decompress_if_compressed().unwrap();
    assert_eq!(back, MyNoSqlTcpContract::Subscribe { table_name: "t".to_string() });
}

#[test]
fn pick_smaller_wire_form_applies_the_threshold() {
    // 12 bytes of "compressed" data against 23 plain bytes: wins by 11.
    let plain = vec![1u8; 23];
    let packed = vec![2u8; 12];
    let chosen = pick_smaller_wire_form(plain.clone(), packed.clone());
    let expected = MyNoSqlTcpContract::CompressedPayload(packed.clone()).serialize();
    assert_eq!(chosen, expected);

    // 13 bytes against 23: wins by 10 only, which is not enough.
    let not_enough = vec![2u8; 13];
    let chosen = pick_smaller_wire_form(plain.clone(), not_enough);
    assert_eq!(chosen, plain);
}

#[test]
fn pong_answers_the_keep_alive_probe() {
    assert!(MyNoSqlTcpContract::Pong.is_pong());
    assert!(!MyNoSqlTcpContract::Ping.is_pong());
}
