//! The wire contract: a closed set of tagged message variants.
//!
//! Every variant's serialized form opens with its tag byte from
//! [`crate::tcp_packets`]; several variants carry a single-byte protocol
//! version right after the tag. [`spec_serialize_contract`] is the byte-exact
//! layout of each variant, [`spec_parse_contract`] is its inverse over
//! arbitrary input, and [`lemma_parse_serialize_contract`] proves the
//! round-trip law for every serializable variant other than `Error` (whose
//! receipt is a protocol-fatal condition rather than a value).
//!
//! Instants travel as `i64` unix microseconds; 0 is the absence sentinel, so
//! a present instant is never 0.

use crate::common_deserializers::{
    spec_parse_bool, spec_parse_byte, spec_parse_byte_array, spec_parse_date_time_opt,
    spec_parse_i32, spec_parse_i64, spec_parse_list_of_pascal_strings, spec_parse_pascal_string,
    ByteReader, ReadFailView, ReadingTcpContractFail, lemma_parse_serialize_byte_array,
    lemma_parse_serialize_date_time_opt, lemma_parse_serialize_i32, lemma_parse_serialize_i64,
    lemma_parse_serialize_list_of_pascal_strings, lemma_parse_serialize_pascal_string,
    read_date_time_opt, read_list_of_pascal_strings, read_pascal_string,
};
use crate::common_serializers::{
    pascal_string_fits, serialize_byte, serialize_byte_array, serialize_date_time_opt,
    serialize_i32, serialize_i64, serialize_list_of_pascal_strings, serialize_pascal_string,
    spec_serialize_byte, spec_serialize_byte_array, spec_serialize_date_time_opt,
    spec_serialize_i32, spec_serialize_i64, spec_serialize_list_of_pascal_strings,
    spec_serialize_pascal_string,
};
use crate::payload_compressor::{zip_pack_of, zip_unpack_of};
use crate::delete_row_tcp_contract::{
    delete_row_fits, lemma_parse_serialize_delete_row, spec_parse_delete_row,
    spec_serialize_delete_row, DeleteRowTcpContract, DeleteRowView,
};
use crate::tcp_packets::{
    COMPRESSED_PAYLOAD, CONFIRMATION, DELETE_ROWS, ERROR, GREETING,
    GREETING_FROM_NODE, INIT_PARTITION, INIT_TABLE, PING, PONG, SUBSCRIBE, SUBSCRIBE_AS_NODE,
    TABLES_NOT_FOUND, UNSUBSCRIBE, UPDATE_PARTITIONS_EXPIRATION_TIME,
    UPDATE_PARTITIONS_LAST_READ_TIME, UPDATE_ROWS, UPDATE_ROWS_EXPIRATION_TIME,
    UPDATE_ROWS_LAST_READ_TIME,
};
use vstd::prelude::*;

verus! {

#[derive(Debug, PartialEq)]
pub enum MyNoSqlTcpContract {
    Ping,
    Pong,
    Greeting { name: String },
    Subscribe { table_name: String },
    InitTable { table_name: String, data: Vec<u8> },
    InitPartition { table_name: String, partition_key: String, data: Vec<u8> },
    UpdateRows { table_name: String, data: Vec<u8> },
    DeleteRows { table_name: String, rows: Vec<DeleteRowTcpContract> },
    Error { message: String },
    GreetingFromNode { node_location: String, node_version: String, compress: bool },
    SubscribeAsNode(String),
    Unsubscribe(String),
    TableNotFound(String),
    CompressedPayload(Vec<u8>),
    UpdatePartitionsLastReadTime {
        confirmation_id: i64,
        table_name: String,
        partitions: Vec<String>,
    },
    UpdateRowsLastReadTime {
        confirmation_id: i64,
        table_name: String,
        partition_key: String,
        row_keys: Vec<String>,
    },
    UpdatePartitionsExpirationTime {
        confirmation_id: i64,
        table_name: String,
        partitions: Vec<(String, Option<i64>)>,
    },
    UpdateRowsExpirationTime {
        confirmation_id: i64,
        table_name: String,
        partition_key: String,
        row_keys: Vec<String>,
        expiration_time: Option<i64>,
    },
    Confirmation { confirmation_id: i64 },
}

/// The spec-level shape of a [`MyNoSqlTcpContract`].
#[verifier::ext_equal]
pub enum TcpContractView {
    Ping,
    Pong,
    Greeting { name: Seq<char> },
    Subscribe { table_name: Seq<char> },
    InitTable { table_name: Seq<char>, data: Seq<u8> },
    InitPartition { table_name: Seq<char>, partition_key: Seq<char>, data: Seq<u8> },
    UpdateRows { table_name: Seq<char>, data: Seq<u8> },
    DeleteRows { table_name: Seq<char>, rows: Seq<DeleteRowView> },
    Error { message: Seq<char> },
    GreetingFromNode { node_location: Seq<char>, node_version: Seq<char>, compress: bool },
    SubscribeAsNode(Seq<char>),
    Unsubscribe(Seq<char>),
    TableNotFound(Seq<char>),
    CompressedPayload(Seq<u8>),
    UpdatePartitionsLastReadTime {
        confirmation_id: i64,
        table_name: Seq<char>,
        partitions: Seq<Seq<char>>,
    },
    UpdateRowsLastReadTime {
        confirmation_id: i64,
        table_name: Seq<char>,
        partition_key: Seq<char>,
        row_keys: Seq<Seq<char>>,
    },
    UpdatePartitionsExpirationTime {
        confirmation_id: i64,
        table_name: Seq<char>,
        partitions: Seq<(Seq<char>, Option<i64>)>,
    },
    UpdateRowsExpirationTime {
        confirmation_id: i64,
        table_name: Seq<char>,
        partition_key: Seq<char>,
        row_keys: Seq<Seq<char>>,
        expiration_time: Option<i64>,
    },
    Confirmation { confirmation_id: i64 },
}

impl View for MyNoSqlTcpContract {
    type V = TcpContractView;

    open spec fn view(&self) -> TcpContractView {
        match self {
            MyNoSqlTcpContract::Ping => TcpContractView::Ping,
            MyNoSqlTcpContract::Pong => TcpContractView::Pong,
            MyNoSqlTcpContract::Greeting { name } => TcpContractView::Greeting { name: name@ },
            MyNoSqlTcpContract::Subscribe { table_name } => TcpContractView::Subscribe {
                table_name: table_name@,
            },
            MyNoSqlTcpContract::InitTable { table_name, data } => TcpContractView::InitTable {
                table_name: table_name@,
                data: data@,
            },
            MyNoSqlTcpContract::InitPartition { table_name, partition_key, data } => {
                TcpContractView::InitPartition {
                    table_name: table_name@,
                    partition_key: partition_key@,
                    data: data@,
                }
            },
            MyNoSqlTcpContract::UpdateRows { table_name, data } => TcpContractView::UpdateRows {
                table_name: table_name@,
                data: data@,
            },
            MyNoSqlTcpContract::DeleteRows { table_name, rows } => TcpContractView::DeleteRows {
                table_name: table_name@,
                rows: rows.deep_view(),
            },
            MyNoSqlTcpContract::Error { message } => TcpContractView::Error { message: message@ },
            MyNoSqlTcpContract::GreetingFromNode { node_location, node_version, compress } => {
                TcpContractView::GreetingFromNode {
                    node_location: node_location@,
                    node_version: node_version@,
                    compress: *compress,
                }
            },
            MyNoSqlTcpContract::SubscribeAsNode(table_name) => TcpContractView::SubscribeAsNode(
                table_name@,
            ),
            MyNoSqlTcpContract::Unsubscribe(table_name) => TcpContractView::Unsubscribe(
                table_name@,
            ),
            MyNoSqlTcpContract::TableNotFound(table_name) => TcpContractView::TableNotFound(
                table_name@,
            ),
            MyNoSqlTcpContract::CompressedPayload(data) => TcpContractView::CompressedPayload(
                data@,
            ),
            MyNoSqlTcpContract::UpdatePartitionsLastReadTime {
                confirmation_id,
                table_name,
                partitions,
            } => TcpContractView::UpdatePartitionsLastReadTime {
                confirmation_id: *confirmation_id,
                table_name: table_name@,
                partitions: partitions.deep_view(),
            },
            MyNoSqlTcpContract::UpdateRowsLastReadTime {
                confirmation_id,
                table_name,
                partition_key,
                row_keys,
            } => TcpContractView::UpdateRowsLastReadTime {
                confirmation_id: *confirmation_id,
                table_name: table_name@,
                partition_key: partition_key@,
                row_keys: row_keys.deep_view(),
            },
            MyNoSqlTcpContract::UpdatePartitionsExpirationTime {
                confirmation_id,
                table_name,
                partitions,
            } => TcpContractView::UpdatePartitionsExpirationTime {
                confirmation_id: *confirmation_id,
                table_name: table_name@,
                partitions: partitions.deep_view(),
            },
            MyNoSqlTcpContract::UpdateRowsExpirationTime {
                confirmation_id,
                table_name,
                partition_key,
                row_keys,
                expiration_time,
            } => TcpContractView::UpdateRowsExpirationTime {
                confirmation_id: *confirmation_id,
                table_name: table_name@,
                partition_key: partition_key@,
                row_keys: row_keys.deep_view(),
                expiration_time: *expiration_time,
            },
            MyNoSqlTcpContract::Confirmation { confirmation_id } => TcpContractView::Confirmation {
                confirmation_id: *confirmation_id,
            },
        }
    }
}

/// The encoded elements of a `DeleteRows` row list, without the leading count.
pub open spec fn spec_serialize_delete_rows_flat(l: Seq<DeleteRowView>) -> Seq<u8>
    decreases l.len(),
{
    if l.len() == 0 {
        Seq::empty()
    } else {
        spec_serialize_delete_row(l[0]) + spec_serialize_delete_rows_flat(l.drop_first())
    }
}

/// One (partition key, optional expiration) element of
/// `UpdatePartitionsExpirationTime`.
pub open spec fn spec_serialize_expiration_pair(p: (Seq<char>, Option<i64>)) -> Seq<u8> {
    spec_serialize_pascal_string(p.0) + spec_serialize_date_time_opt(p.1)
}

/// The encoded elements of a partition-expiration list, without the count.
pub open spec fn spec_serialize_expiration_pairs_flat(l: Seq<(Seq<char>, Option<i64>)>) -> Seq<u8>
    decreases l.len(),
{
    if l.len() == 0 {
        Seq::empty()
    } else {
        spec_serialize_expiration_pair(l[0]) + spec_serialize_expiration_pairs_flat(l.drop_first())
    }
}

/// The exact wire bytes of each message variant.
pub open spec fn spec_serialize_contract(v: TcpContractView) -> Seq<u8> {
    match v {
        TcpContractView::Ping => seq![PING],
        TcpContractView::Pong => seq![PONG],
        TcpContractView::Greeting { name } => seq![GREETING] + spec_serialize_pascal_string(name),
        TcpContractView::Subscribe { table_name } => seq![SUBSCRIBE]
            + spec_serialize_pascal_string(table_name),
        TcpContractView::InitTable { table_name, data } => seq![INIT_TABLE]
            + spec_serialize_pascal_string(table_name) + spec_serialize_byte_array(data),
        TcpContractView::InitPartition { table_name, partition_key, data } => seq![INIT_PARTITION]
            + spec_serialize_pascal_string(table_name) + spec_serialize_pascal_string(
            partition_key,
        ) + spec_serialize_byte_array(data),
        TcpContractView::UpdateRows { table_name, data } => seq![UPDATE_ROWS]
            + spec_serialize_pascal_string(table_name) + spec_serialize_byte_array(data),
        TcpContractView::DeleteRows { table_name, rows } => seq![DELETE_ROWS]
            + spec_serialize_pascal_string(table_name) + spec_serialize_i32(rows.len() as i32)
            + spec_serialize_delete_rows_flat(rows),
        TcpContractView::Error { message } => seq![ERROR, 0u8] + spec_serialize_pascal_string(
            message,
        ),
        TcpContractView::GreetingFromNode { node_location, node_version, compress } => {
            if compress {
                seq![GREETING_FROM_NODE, 1u8] + spec_serialize_pascal_string(node_location)
                    + spec_serialize_pascal_string(node_version) + seq![1u8]
            } else {
                seq![GREETING_FROM_NODE, 0u8] + spec_serialize_pascal_string(node_location)
                    + spec_serialize_pascal_string(node_version)
            }
        },
        TcpContractView::SubscribeAsNode(table_name) => seq![SUBSCRIBE_AS_NODE, 0u8]
            + spec_serialize_pascal_string(table_name),
        TcpContractView::Unsubscribe(table_name) => seq![UNSUBSCRIBE, 0u8]
            + spec_serialize_pascal_string(table_name),
        TcpContractView::TableNotFound(table_name) => seq![TABLES_NOT_FOUND, 0u8]
            + spec_serialize_pascal_string(table_name),
        TcpContractView::CompressedPayload(data) => seq![COMPRESSED_PAYLOAD]
            + spec_serialize_byte_array(data),
        TcpContractView::UpdatePartitionsLastReadTime {
            confirmation_id,
            table_name,
            partitions,
        } => seq![UPDATE_PARTITIONS_LAST_READ_TIME, 0u8] + spec_serialize_i64(confirmation_id)
            + spec_serialize_pascal_string(table_name) + spec_serialize_list_of_pascal_strings(
            partitions,
        ),
        TcpContractView::UpdateRowsLastReadTime {
            confirmation_id,
            table_name,
            partition_key,
            row_keys,
        } => seq![UPDATE_ROWS_LAST_READ_TIME, 0u8] + spec_serialize_i64(confirmation_id)
            + spec_serialize_pascal_string(table_name) + spec_serialize_pascal_string(
            partition_key,
        ) + spec_serialize_list_of_pascal_strings(row_keys),
        TcpContractView::UpdatePartitionsExpirationTime {
            confirmation_id,
            table_name,
            partitions,
        } => seq![UPDATE_PARTITIONS_EXPIRATION_TIME, 0u8] + spec_serialize_i64(confirmation_id)
            + spec_serialize_pascal_string(table_name) + spec_serialize_i32(partitions.len() as i32)
            + spec_serialize_expiration_pairs_flat(partitions),
        TcpContractView::UpdateRowsExpirationTime {
            confirmation_id,
            table_name,
            partition_key,
            row_keys,
            expiration_time,
        } => seq![UPDATE_ROWS_EXPIRATION_TIME, 0u8] + spec_serialize_i64(confirmation_id)
            + spec_serialize_pascal_string(table_name) + spec_serialize_pascal_string(
            partition_key,
        ) + spec_serialize_list_of_pascal_strings(row_keys) + spec_serialize_date_time_opt(
            expiration_time,
        ),
        TcpContractView::Confirmation { confirmation_id } => seq![CONFIRMATION, 0u8]
            + spec_serialize_i64(confirmation_id),
    }
}

/// When a message value can be put on the wire: every pascal string fits its
/// length byte, every list and byte array fits its `i32` count, and every
/// present instant is nonzero (0 is the absence sentinel and must never be
/// constructed by producers).
pub open spec fn serializable(v: TcpContractView) -> bool {
    match v {
        TcpContractView::Ping => true,
        TcpContractView::Pong => true,
        TcpContractView::Greeting { name } => pascal_string_fits(name),
        TcpContractView::Subscribe { table_name } => pascal_string_fits(table_name),
        TcpContractView::InitTable { table_name, data } => pascal_string_fits(table_name)
            && data.len() <= i32::MAX,
        TcpContractView::InitPartition { table_name, partition_key, data } => pascal_string_fits(
            table_name,
        ) && pascal_string_fits(partition_key) && data.len() <= i32::MAX,
        TcpContractView::UpdateRows { table_name, data } => pascal_string_fits(table_name)
            && data.len() <= i32::MAX,
        TcpContractView::DeleteRows { table_name, rows } => pascal_string_fits(table_name)
            && rows.len() <= i32::MAX && forall|i: int|
            0 <= i < rows.len() ==> delete_row_fits(#[trigger] rows[i]),
        TcpContractView::Error { message } => pascal_string_fits(message),
        TcpContractView::GreetingFromNode { node_location, node_version, compress: _ } => {
            pascal_string_fits(node_location) && pascal_string_fits(node_version)
        },
        TcpContractView::SubscribeAsNode(table_name) => pascal_string_fits(table_name),
        TcpContractView::Unsubscribe(table_name) => pascal_string_fits(table_name),
        TcpContractView::TableNotFound(table_name) => pascal_string_fits(table_name),
        TcpContractView::CompressedPayload(data) => data.len() <= i32::MAX,
        TcpContractView::UpdatePartitionsLastReadTime {
            confirmation_id: _,
            table_name,
            partitions,
        } => pascal_string_fits(table_name) && partitions.len() <= i32::MAX && forall|i: int|
            0 <= i < partitions.len() ==> pascal_string_fits(#[trigger] partitions[i]),
        TcpContractView::UpdateRowsLastReadTime {
            confirmation_id: _,
            table_name,
            partition_key,
            row_keys,
        } => pascal_string_fits(table_name) && pascal_string_fits(partition_key) && row_keys.len()
            <= i32::MAX && forall|i: int|
            0 <= i < row_keys.len() ==> pascal_string_fits(#[trigger] row_keys[i]),
        TcpContractView::UpdatePartitionsExpirationTime {
            confirmation_id: _,
            table_name,
            partitions,
        } => pascal_string_fits(table_name) && partitions.len() <= i32::MAX && (forall|i: int|
            0 <= i < partitions.len() ==> pascal_string_fits(#[trigger] partitions[i].0)) && (
        forall|i: int|
            0 <= i < partitions.len() ==> ((#[trigger] partitions[i].1) matches Some(t) ==> t
                != 0)),
        TcpContractView::UpdateRowsExpirationTime {
            confirmation_id: _,
            table_name,
            partition_key,
            row_keys,
            expiration_time,
        } => pascal_string_fits(table_name) && pascal_string_fits(partition_key) && row_keys.len()
            <= i32::MAX && (forall|i: int|
            0 <= i < row_keys.len() ==> pascal_string_fits(#[trigger] row_keys[i])) && (
        expiration_time matches Some(t) ==> t != 0),
        TcpContractView::Confirmation { confirmation_id: _ } => true,
    }
}

/// Parses exactly `count` consecutive row elements.
pub open spec fn spec_parse_delete_rows_n(b: Seq<u8>, count: nat) -> Result<
    (Seq<DeleteRowView>, int),
    ReadFailView,
>
    decreases count,
{
    if count == 0 {
        Ok((Seq::empty(), 0int))
    } else {
        match spec_parse_delete_row(b) {
            Ok((r, n)) => match spec_parse_delete_rows_n(b.skip(n), (count - 1) as nat) {
                Ok((l, m)) => Ok((seq![r] + l, n + m)),
                Err(e) => Err(e),
            },
            Err(e) => Err(e),
        }
    }
}

pub open spec fn spec_parse_list_of_delete_rows(b: Seq<u8>) -> Result<
    (Seq<DeleteRowView>, int),
    ReadFailView,
> {
    match spec_parse_i32(b) {
        Ok((k, _)) => match spec_parse_delete_rows_n(b.skip(4), k as usize as nat) {
            Ok((l, m)) => Ok((l, 4 + m)),
            Err(e) => Err(e),
        },
        Err(e) => Err(e),
    }
}

pub open spec fn spec_parse_expiration_pair(b: Seq<u8>) -> Result<
    ((Seq<char>, Option<i64>), int),
    ReadFailView,
> {
    match spec_parse_pascal_string(b) {
        Ok((pk, n)) => match spec_parse_date_time_opt(b.skip(n)) {
            Ok((dt, m)) => Ok(((pk, dt), n + m)),
            Err(e) => Err(e),
        },
        Err(e) => Err(e),
    }
}

/// Parses exactly `count` consecutive (partition key, expiration) pairs.
pub open spec fn spec_parse_expiration_pairs_n(b: Seq<u8>, count: nat) -> Result<
    (Seq<(Seq<char>, Option<i64>)>, int),
    ReadFailView,
>
    decreases count,
{
    if count == 0 {
        Ok((Seq::empty(), 0int))
    } else {
        match spec_parse_expiration_pair(b) {
            Ok((p, n)) => match spec_parse_expiration_pairs_n(b.skip(n), (count - 1) as nat) {
                Ok((l, m)) => Ok((seq![p] + l, n + m)),
                Err(e) => Err(e),
            },
            Err(e) => Err(e),
        }
    }
}

pub open spec fn spec_parse_list_of_expiration_pairs(b: Seq<u8>) -> Result<
    (Seq<(Seq<char>, Option<i64>)>, int),
    ReadFailView,
> {
    match spec_parse_i32(b) {
        Ok((k, _)) => match spec_parse_expiration_pairs_n(b.skip(4), k as usize as nat) {
            Ok((l, m)) => Ok((l, 4 + m)),
            Err(e) => Err(e),
        },
        Err(e) => Err(e),
    }
}

/// The body of a version-gated variant that carries only a table name: one
/// version byte (whose value is read and ignored) followed by the name.
pub open spec fn spec_parse_version_and_table(b: Seq<u8>) -> Result<(Seq<char>, int), ReadFailView> {
    match spec_parse_byte(b) {
        Ok((_, _)) => match spec_parse_pascal_string(b.skip(1)) {
            Ok((t, n)) => Ok((t, 1 + n)),
            Err(e) => Err(e),
        },
        Err(e) => Err(e),
    }
}

/// The body of `GreetingFromNode` after its tag: a version byte, two pascal
/// strings, and — only when the version is above 0 — a compression flag.
pub open spec fn spec_parse_greeting_from_node(b: Seq<u8>) -> Result<
    (TcpContractView, int),
    ReadFailView,
> {
    match spec_parse_byte(b) {
        Ok((version, _)) => match spec_parse_pascal_string(b.skip(1)) {
            Ok((node_location, n1)) => match spec_parse_pascal_string(b.skip(1 + n1)) {
                Ok((node_version, n2)) => {
                    if version > 0 {
                        match spec_parse_bool(b.skip(1 + n1 + n2)) {
                            Ok((compress, _)) => Ok((
                                TcpContractView::GreetingFromNode {
                                    node_location,
                                    node_version,
                                    compress,
                                },
                                2 + n1 + n2,
                            )),
                            Err(e) => Err(e),
                        }
                    } else {
                        Ok((
                            TcpContractView::GreetingFromNode {
                                node_location,
                                node_version,
                                compress: false,
                            },
                            1 + n1 + n2,
                        ))
                    }
                },
                Err(e) => Err(e),
            },
            Err(e) => Err(e),
        },
        Err(e) => Err(e),
    }
}

/// The shared head of every confirmation-bearing variant's body: a version
/// byte (read and ignored), the confirmation id, and the table name.
pub open spec fn spec_parse_confirmation_head(b: Seq<u8>) -> Result<
    ((i64, Seq<char>), int),
    ReadFailView,
> {
    match spec_parse_byte(b) {
        Ok((_, _)) => match spec_parse_i64(b.skip(1)) {
            Ok((confirmation_id, _)) => match spec_parse_pascal_string(b.skip(9)) {
                Ok((t, n)) => Ok(((confirmation_id, t), 9 + n)),
                Err(e) => Err(e),
            },
            Err(e) => Err(e),
        },
        Err(e) => Err(e),
    }
}

/// The wire grammar of a whole message: the inverse of
/// [`spec_serialize_contract`] extended to arbitrary input.
///
/// A well-formed `Error` packet parses to the failure
/// [`ReadFailView::ErrorPacketReceived`]: its receipt is protocol-fatal, so
/// it is never handed out as a value.
pub open spec fn spec_parse_contract(b: Seq<u8>) -> Result<(TcpContractView, int), ReadFailView> {
    match spec_parse_byte(b) {
        Err(e) => Err(e),
        Ok((tag, _)) => {
            let r = b.skip(1);
            if tag == PING {
                Ok((TcpContractView::Ping, 1int))
            } else if tag == PONG {
                Ok((TcpContractView::Pong, 1int))
            } else if tag == GREETING {
                match spec_parse_pascal_string(r) {
                    Ok((name, n)) => Ok((TcpContractView::Greeting { name }, 1 + n)),
                    Err(e) => Err(e),
                }
            } else if tag == SUBSCRIBE {
                match spec_parse_pascal_string(r) {
                    Ok((table_name, n)) => Ok((TcpContractView::Subscribe { table_name }, 1 + n)),
                    Err(e) => Err(e),
                }
            } else if tag == INIT_TABLE {
                match spec_parse_pascal_string(r) {
                    Ok((table_name, n1)) => match spec_parse_byte_array(r.skip(n1)) {
                        Ok((data, n2)) => Ok((
                            TcpContractView::InitTable { table_name, data },
                            1 + n1 + n2,
                        )),
                        Err(e) => Err(e),
                    },
                    Err(e) => Err(e),
                }
            } else if tag == INIT_PARTITION {
                match spec_parse_pascal_string(r) {
                    Ok((table_name, n1)) => match spec_parse_pascal_string(r.skip(n1)) {
                        Ok((partition_key, n2)) => match spec_parse_byte_array(r.skip(n1 + n2)) {
                            Ok((data, n3)) => Ok((
                                TcpContractView::InitPartition { table_name, partition_key, data },
                                1 + n1 + n2 + n3,
                            )),
                            Err(e) => Err(e),
                        },
                        Err(e) => Err(e),
                    },
                    Err(e) => Err(e),
                }
            } else if tag == UPDATE_ROWS {
                match spec_parse_pascal_string(r) {
                    Ok((table_name, n1)) => match spec_parse_byte_array(r.skip(n1)) {
                        Ok((data, n2)) => Ok((
                            TcpContractView::UpdateRows { table_name, data },
                            1 + n1 + n2,
                        )),
                        Err(e) => Err(e),
                    },
                    Err(e) => Err(e),
                }
            } else if tag == DELETE_ROWS {
                match spec_parse_pascal_string(r) {
                    Ok((table_name, n1)) => match spec_parse_list_of_delete_rows(r.skip(n1)) {
                        Ok((rows, n2)) => Ok((
                            TcpContractView::DeleteRows { table_name, rows },
                            1 + n1 + n2,
                        )),
                        Err(e) => Err(e),
                    },
                    Err(e) => Err(e),
                }
            } else if tag == ERROR {
                match spec_parse_byte(r) {
                    Ok((version, _)) => {
                        if version != 0 {
                            Err(ReadFailView::UnsupportedProtocolVersion {
                                packet_id: ERROR,
                                version,
                            })
                        } else {
                            match spec_parse_pascal_string(r.skip(1)) {
                                Ok((message, _)) => Err(ReadFailView::ErrorPacketReceived(message)),
                                Err(e) => Err(e),
                            }
                        }
                    },
                    Err(e) => Err(e),
                }
            } else if tag == GREETING_FROM_NODE {
                match spec_parse_greeting_from_node(r) {
                    Ok((v, n)) => Ok((v, 1 + n)),
                    Err(e) => Err(e),
                }
            } else if tag == SUBSCRIBE_AS_NODE {
                match spec_parse_version_and_table(r) {
                    Ok((t, n)) => Ok((TcpContractView::SubscribeAsNode(t), 1 + n)),
                    Err(e) => Err(e),
                }
            } else if tag == TABLES_NOT_FOUND {
                match spec_parse_version_and_table(r) {
                    Ok((t, n)) => Ok((TcpContractView::TableNotFound(t), 1 + n)),
                    Err(e) => Err(e),
                }
            } else if tag == UNSUBSCRIBE {
                match spec_parse_version_and_table(r) {
                    Ok((t, n)) => Ok((TcpContractView::Unsubscribe(t), 1 + n)),
                    Err(e) => Err(e),
                }
            } else if tag == COMPRESSED_PAYLOAD {
                match spec_parse_byte_array(r) {
                    Ok((data, n)) => Ok((TcpContractView::CompressedPayload(data), 1 + n)),
                    Err(e) => Err(e),
                }
            } else if tag == UPDATE_PARTITIONS_LAST_READ_TIME {
                match spec_parse_confirmation_head(r) {
                    Ok(((confirmation_id, table_name), n1)) => {
                        match spec_parse_list_of_pascal_strings(r.skip(n1)) {
                            Ok((partitions, n2)) => Ok((
                                TcpContractView::UpdatePartitionsLastReadTime {
                                    confirmation_id,
                                    table_name,
                                    partitions,
                                },
                                1 + n1 + n2,
                            )),
                            Err(e) => Err(e),
                        }
                    },
                    Err(e) => Err(e),
                }
            } else if tag == UPDATE_ROWS_LAST_READ_TIME {
                match spec_parse_confirmation_head(r) {
                    Ok(((confirmation_id, table_name), n1)) => {
                        match spec_parse_pascal_string(r.skip(n1)) {
                            Ok((partition_key, n2)) => {
                                match spec_parse_list_of_pascal_strings(r.skip(n1 + n2)) {
                                    Ok((row_keys, n3)) => Ok((
                                        TcpContractView::UpdateRowsLastReadTime {
                                            confirmation_id,
                                            table_name,
                                            partition_key,
                                            row_keys,
                                        },
                                        1 + n1 + n2 + n3,
                                    )),
                                    Err(e) => Err(e),
                                }
                            },
                            Err(e) => Err(e),
                        }
                    },
                    Err(e) => Err(e),
                }
            } else if tag == UPDATE_PARTITIONS_EXPIRATION_TIME {
                match spec_parse_confirmation_head(r) {
                    Ok(((confirmation_id, table_name), n1)) => {
                        match spec_parse_list_of_expiration_pairs(r.skip(n1)) {
                            Ok((partitions, n2)) => Ok((
                                TcpContractView::UpdatePartitionsExpirationTime {
                                    confirmation_id,
                                    table_name,
                                    partitions,
                                },
                                1 + n1 + n2,
                            )),
                            Err(e) => Err(e),
                        }
                    },
                    Err(e) => Err(e),
                }
            } else if tag == UPDATE_ROWS_EXPIRATION_TIME {
                match spec_parse_confirmation_head(r) {
                    Ok(((confirmation_id, table_name), n1)) => {
                        match spec_parse_pascal_string(r.skip(n1)) {
                            Ok((partition_key, n2)) => {
                                match spec_parse_list_of_pascal_strings(r.skip(n1 + n2)) {
                                    Ok((row_keys, n3)) => {
                                        match spec_parse_date_time_opt(r.skip(n1 + n2 + n3)) {
                                            Ok((expiration_time, _)) => Ok((
                                                TcpContractView::UpdateRowsExpirationTime {
                                                    confirmation_id,
                                                    table_name,
                                                    partition_key,
                                                    row_keys,
                                                    expiration_time,
                                                },
                                                9 + n1 + n2 + n3,
                                            )),
                                            Err(e) => Err(e),
                                        }
                                    },
                                    Err(e) => Err(e),
                                }
                            },
                            Err(e) => Err(e),
                        }
                    },
                    Err(e) => Err(e),
                }
            } else if tag == CONFIRMATION {
                match spec_parse_byte(r) {
                    Ok((_, _)) => match spec_parse_i64(r.skip(1)) {
                        Ok((confirmation_id, _)) => Ok((
                            TcpContractView::Confirmation { confirmation_id },
                            10int,
                        )),
                        Err(e) => Err(e),
                    },
                    Err(e) => Err(e),
                }
            } else {
                Err(ReadFailView::InvalidPacketId(tag))
            }
        },
    }
}

/// Extending an encoded prefix of a row list by one more element.
pub proof fn lemma_delete_rows_flat_take_step(l: Seq<DeleteRowView>, i: int)
    requires
        0 <= i < l.len(),
    ensures
        spec_serialize_delete_rows_flat(l.take(i + 1)) == spec_serialize_delete_rows_flat(
            l.take(i),
        ) + spec_serialize_delete_row(l[i]),
    decreases i,
{
    if i == 0 {
        assert(l.take(1).drop_first() =~= l.take(0));
        assert(spec_serialize_delete_rows_flat(l.take(0)) =~= Seq::<u8>::empty());
        assert(spec_serialize_delete_rows_flat(l.take(1)) =~= spec_serialize_delete_row(l[0]));
    } else {
        let tail = l.drop_first();
        assert(l.take(i + 1).drop_first() =~= tail.take(i));
        assert(l.take(i).drop_first() =~= tail.take(i - 1));
        lemma_delete_rows_flat_take_step(tail, i - 1);
        assert(l.take(i + 1)[0] =~= l[0]);
        assert(l.take(i)[0] =~= l[0]);
        assert(tail[i - 1] == l[i]);
    }
}

/// Extending an encoded prefix of a partition-expiration list by one element.
pub proof fn lemma_expiration_pairs_flat_take_step(l: Seq<(Seq<char>, Option<i64>)>, i: int)
    requires
        0 <= i < l.len(),
    ensures
        spec_serialize_expiration_pairs_flat(l.take(i + 1)) == spec_serialize_expiration_pairs_flat(
            l.take(i),
        ) + spec_serialize_expiration_pair(l[i]),
    decreases i,
{
    if i == 0 {
        assert(l.take(1).drop_first() =~= l.take(0));
        assert(spec_serialize_expiration_pairs_flat(l.take(0)) =~= Seq::<u8>::empty());
        assert(spec_serialize_expiration_pairs_flat(l.take(1)) =~= spec_serialize_expiration_pair(
            l[0],
        ));
    } else {
        let tail = l.drop_first();
        assert(l.take(i + 1).drop_first() =~= tail.take(i));
        assert(l.take(i).drop_first() =~= tail.take(i - 1));
        lemma_expiration_pairs_flat_take_step(tail, i - 1);
        assert(l.take(i + 1)[0] =~= l[0]);
        assert(l.take(i)[0] =~= l[0]);
        assert(tail[i - 1] == l[i]);
    }
}

/// Appends an `i32` count followed by each row's encoding.
#[verifier::loop_isolation(false)]
fn serialize_delete_rows_list(buffer: &mut Vec<u8>, rows: &Vec<DeleteRowTcpContract>)
    requires
        rows@.len() <= i32::MAX,
        forall|i: int| 0 <= i < rows@.len() ==> delete_row_fits(#[trigger] rows.deep_view()[i]),
    ensures
        final(buffer)@ == old(buffer)@ + spec_serialize_i32(rows@.len() as i32)
            + spec_serialize_delete_rows_flat(rows.deep_view()),
{
    serialize_i32(buffer, rows.len() as i32);
    let ghost l = rows.deep_view();
    let ghost base = buffer@;
    let n = rows.len();
    for i in 0..n
        invariant
            buffer@ == base + spec_serialize_delete_rows_flat(l.take(i as int)),
    {
        assert(rows.deep_view()[i as int] == rows@[i as int]@);
        rows[i].serialize(buffer);
        proof {
            lemma_delete_rows_flat_take_step(l, i as int);
            assert(buffer@ =~= base + spec_serialize_delete_rows_flat(l.take(i + 1)));
        }
    }
    proof {
        assert(l.take(n as int) =~= l);
        assert(buffer@ =~= old(buffer)@ + spec_serialize_i32(rows@.len() as i32)
            + spec_serialize_delete_rows_flat(l));
    }
}

/// Appends an `i32` count followed by each (partition key, optional
/// expiration) pair's encoding.
#[verifier::loop_isolation(false)]
fn serialize_expiration_pairs_list(buffer: &mut Vec<u8>, partitions: &Vec<(String, Option<i64>)>)
    requires
        partitions@.len() <= i32::MAX,
        forall|i: int|
            0 <= i < partitions@.len() ==> pascal_string_fits(
                (#[trigger] partitions.deep_view()[i]).0,
            ),
    ensures
        final(buffer)@ == old(buffer)@ + spec_serialize_i32(partitions@.len() as i32)
            + spec_serialize_expiration_pairs_flat(partitions.deep_view()),
{
    serialize_i32(buffer, partitions.len() as i32);
    let ghost l = partitions.deep_view();
    let ghost base = buffer@;
    let n = partitions.len();
    for i in 0..n
        invariant
            buffer@ == base + spec_serialize_expiration_pairs_flat(l.take(i as int)),
    {
        proof {
            let p = partitions@[i as int];
            match p.1 {
                Some(t) => {
                    assert(l[i as int] == (p.0@, p.1));
                },
                None => {
                    assert(l[i as int] == (p.0@, p.1));
                },
            }
        }
        serialize_pascal_string(buffer, partitions[i].0.as_str());
        serialize_date_time_opt(buffer, partitions[i].1);
        proof {
            lemma_expiration_pairs_flat_take_step(l, i as int);
            assert(buffer@ =~= base + spec_serialize_expiration_pairs_flat(l.take(i + 1)));
        }
    }
    proof {
        assert(l.take(n as int) =~= l);
        assert(buffer@ =~= old(buffer)@ + spec_serialize_i32(partitions@.len() as i32)
            + spec_serialize_expiration_pairs_flat(l));
    }
}

/// Parsing inverts serialization for a flat row list.
pub proof fn lemma_parse_serialize_delete_rows_flat(l: Seq<DeleteRowView>, rest: Seq<u8>)
    requires
        forall|i: int| 0 <= i < l.len() ==> delete_row_fits(#[trigger] l[i]),
    ensures
        spec_parse_delete_rows_n(spec_serialize_delete_rows_flat(l) + rest, l.len()) == Ok::<
            _,
            ReadFailView,
        >((l, spec_serialize_delete_rows_flat(l).len() as int)),
    decreases l.len(),
{
    if l.len() == 0 {
        assert(spec_serialize_delete_rows_flat(l) + rest =~= rest);
        assert(l =~= Seq::<DeleteRowView>::empty());
    } else {
        let head = l[0];
        let tail = l.drop_first();
        let hb = spec_serialize_delete_row(head);
        let tb = spec_serialize_delete_rows_flat(tail);
        let b = spec_serialize_delete_rows_flat(l) + rest;
        assert(b =~= hb + (tb + rest));
        lemma_parse_serialize_delete_row(head, tb + rest);
        assert(b.skip(hb.len() as int) =~= tb + rest);
        lemma_parse_serialize_delete_rows_flat(tail, rest);
        assert(seq![head] + tail =~= l);
    }
}

/// Parsing inverts serialization for a counted row list.
pub proof fn lemma_parse_serialize_list_of_delete_rows(l: Seq<DeleteRowView>, rest: Seq<u8>)
    requires
        l.len() <= i32::MAX,
        forall|i: int| 0 <= i < l.len() ==> delete_row_fits(#[trigger] l[i]),
    ensures
        spec_parse_list_of_delete_rows(
            spec_serialize_i32(l.len() as i32) + spec_serialize_delete_rows_flat(l) + rest,
        ) == Ok::<_, ReadFailView>((
            l,
            4 + spec_serialize_delete_rows_flat(l).len() as int,
        )),
{
    vstd::bytes::lemma_auto_spec_u32_to_from_le_bytes();
    let flat = spec_serialize_delete_rows_flat(l);
    let b = spec_serialize_i32(l.len() as i32) + flat + rest;
    assert(b =~= spec_serialize_i32(l.len() as i32) + (flat + rest));
    lemma_parse_serialize_i32(l.len() as i32, flat + rest);
    assert(b.take(4) =~= spec_serialize_i32(l.len() as i32).take(4));
    assert(b.skip(4) =~= flat + rest);
    let k = l.len() as i32;
    assert(k as usize as nat == l.len());
    lemma_parse_serialize_delete_rows_flat(l, rest);
}

/// Parsing inverts serialization for one (partition key, expiration) pair.
pub proof fn lemma_parse_serialize_expiration_pair(p: (Seq<char>, Option<i64>), rest: Seq<u8>)
    requires
        pascal_string_fits(p.0),
        p.1 matches Some(t) ==> t != 0,
    ensures
        spec_parse_expiration_pair(spec_serialize_expiration_pair(p) + rest) == Ok::<
            _,
            ReadFailView,
        >((p, spec_serialize_expiration_pair(p).len() as int)),
{
    vstd::bytes::lemma_auto_spec_u64_to_from_le_bytes();
    let (key, expiration) = p;
    let kb = spec_serialize_pascal_string(key);
    let db = spec_serialize_date_time_opt(expiration);
    let b = spec_serialize_expiration_pair(p) + rest;
    assert(b =~= kb + (db + rest));
    lemma_parse_serialize_pascal_string(key, db + rest);
    assert(b.skip(kb.len() as int) =~= db + rest);
    lemma_parse_serialize_date_time_opt(expiration, rest);
}

/// Parsing inverts serialization for a flat pair list.
pub proof fn lemma_parse_serialize_expiration_pairs_flat(
    l: Seq<(Seq<char>, Option<i64>)>,
    rest: Seq<u8>,
)
    requires
        forall|i: int| 0 <= i < l.len() ==> pascal_string_fits((#[trigger] l[i]).0),
        forall|i: int| 0 <= i < l.len() ==> ((#[trigger] l[i]).1 matches Some(t) ==> t != 0),
    ensures
        spec_parse_expiration_pairs_n(spec_serialize_expiration_pairs_flat(l) + rest, l.len())
            == Ok::<_, ReadFailView>((
            l,
            spec_serialize_expiration_pairs_flat(l).len() as int,
        )),
    decreases l.len(),
{
    if l.len() == 0 {
        assert(spec_serialize_expiration_pairs_flat(l) + rest =~= rest);
        assert(l =~= Seq::<(Seq<char>, Option<i64>)>::empty());
    } else {
        let head = l[0];
        let tail = l.drop_first();
        let hb = spec_serialize_expiration_pair(head);
        let tb = spec_serialize_expiration_pairs_flat(tail);
        let b = spec_serialize_expiration_pairs_flat(l) + rest;
        assert(b =~= hb + (tb + rest));
        lemma_parse_serialize_expiration_pair(head, tb + rest);
        assert(b.skip(hb.len() as int) =~= tb + rest);
        lemma_parse_serialize_expiration_pairs_flat(tail, rest);
        assert(seq![head] + tail =~= l);
    }
}

/// Parsing inverts serialization for a counted pair list.
pub proof fn lemma_parse_serialize_list_of_expiration_pairs(
    l: Seq<(Seq<char>, Option<i64>)>,
    rest: Seq<u8>,
)
    requires
        l.len() <= i32::MAX,
        forall|i: int| 0 <= i < l.len() ==> pascal_string_fits((#[trigger] l[i]).0),
        forall|i: int| 0 <= i < l.len() ==> ((#[trigger] l[i]).1 matches Some(t) ==> t != 0),
    ensures
        spec_parse_list_of_expiration_pairs(
            spec_serialize_i32(l.len() as i32) + spec_serialize_expiration_pairs_flat(l) + rest,
        ) == Ok::<_, ReadFailView>((
            l,
            4 + spec_serialize_expiration_pairs_flat(l).len() as int,
        )),
{
    vstd::bytes::lemma_auto_spec_u32_to_from_le_bytes();
    let flat = spec_serialize_expiration_pairs_flat(l);
    let b = spec_serialize_i32(l.len() as i32) + flat + rest;
    assert(b =~= spec_serialize_i32(l.len() as i32) + (flat + rest));
    lemma_parse_serialize_i32(l.len() as i32, flat + rest);
    assert(b.take(4) =~= spec_serialize_i32(l.len() as i32).take(4));
    assert(b.skip(4) =~= flat + rest);
    let k = l.len() as i32;
    assert(k as usize as nat == l.len());
    lemma_parse_serialize_expiration_pairs_flat(l, rest);
}

/// Parsing inverts serialization for the confirmation-bearing head that
/// follows the tag: version byte 0, confirmation id, table name.
pub proof fn lemma_parse_serialize_confirmation_head(
    confirmation_id: i64,
    table_name: Seq<char>,
    rest: Seq<u8>,
)
    requires
        pascal_string_fits(table_name),
    ensures
        spec_parse_confirmation_head(
            seq![0u8] + spec_serialize_i64(confirmation_id) + spec_serialize_pascal_string(
                table_name,
            ) + rest,
        ) == Ok::<_, ReadFailView>((
            (confirmation_id, table_name),
            9 + spec_serialize_pascal_string(table_name).len() as int,
        )),
{
    vstd::bytes::lemma_auto_spec_u64_to_from_le_bytes();
    let ib = spec_serialize_i64(confirmation_id);
    let tb = spec_serialize_pascal_string(table_name);
    let b = seq![0u8] + ib + tb + rest;
    assert(b.len() >= 1);
    assert(b[0] == 0u8);
    assert(b.skip(1) =~= ib + (tb + rest));
    lemma_parse_serialize_i64(confirmation_id, tb + rest);
    assert(b.skip(9) =~= tb + rest);
    lemma_parse_serialize_pascal_string(table_name, rest);
}

/// The `DeleteRows` case of the round-trip law.
#[verifier::rlimit(100)]
proof fn lemma_parse_serialize_case_delete_rows(v: TcpContractView, rest: Seq<u8>)
    requires
        serializable(v),
        v is DeleteRows,
    ensures
        spec_parse_contract(spec_serialize_contract(v) + rest) == Ok::<_, ReadFailView>((
            v,
            spec_serialize_contract(v).len() as int,
        )),
{
    vstd::bytes::lemma_auto_spec_u32_to_from_le_bytes();
    vstd::bytes::lemma_auto_spec_u64_to_from_le_bytes();
    let b = spec_serialize_contract(v) + rest;
    let (table_name, rows) = (v->DeleteRows_table_name, v->DeleteRows_rows);
    assert(b[0] == DELETE_ROWS);
    let tb = spec_serialize_pascal_string(table_name);
    let cb = spec_serialize_i32(rows.len() as i32);
    let fb = spec_serialize_delete_rows_flat(rows);
    let r = b.skip(1);
    assert(r =~= tb + (cb + fb + rest));
    lemma_parse_serialize_pascal_string(table_name, cb + fb + rest);
    assert(r.skip(tb.len() as int) =~= cb + fb + rest);
    lemma_parse_serialize_list_of_delete_rows(rows, rest);
}

/// The `GreetingFromNode` case of the round-trip law.
#[verifier::rlimit(100)]
proof fn lemma_parse_serialize_case_greeting_from_node(v: TcpContractView, rest: Seq<u8>)
    requires
        serializable(v),
        v is GreetingFromNode,
    ensures
        spec_parse_contract(spec_serialize_contract(v) + rest) == Ok::<_, ReadFailView>((
            v,
            spec_serialize_contract(v).len() as int,
        )),
{
    vstd::bytes::lemma_auto_spec_u32_to_from_le_bytes();
    vstd::bytes::lemma_auto_spec_u64_to_from_le_bytes();
    let b = spec_serialize_contract(v) + rest;
    let node_location = v->GreetingFromNode_node_location;
    let node_version = v->GreetingFromNode_node_version;
    let compress = v->GreetingFromNode_compress;
    assert(b[0] == GREETING_FROM_NODE);
    let lb = spec_serialize_pascal_string(node_location);
    let vb = spec_serialize_pascal_string(node_version);
    let r = b.skip(1);
    if compress {
        assert(r =~= seq![1u8] + (lb + (vb + (seq![1u8] + rest))));
        assert(r[0] == 1u8);
        assert(r.skip(1) =~= lb + (vb + (seq![1u8] + rest)));
        lemma_parse_serialize_pascal_string(node_location, vb + (seq![1u8] + rest));
        assert(r.skip(1 + lb.len() as int) =~= vb + (seq![1u8] + rest));
        lemma_parse_serialize_pascal_string(node_version, seq![1u8] + rest);
        assert(r.skip(1 + lb.len() as int + vb.len() as int) =~= seq![1u8] + rest);
        assert(spec_parse_bool(seq![1u8] + rest) == Ok::<_, ReadFailView>((true, 1int)));
    } else {
        assert(r =~= seq![0u8] + (lb + (vb + rest)));
        assert(r[0] == 0u8);
        assert(r.skip(1) =~= lb + (vb + rest));
        lemma_parse_serialize_pascal_string(node_location, vb + rest);
        assert(r.skip(1 + lb.len() as int) =~= vb + rest);
        lemma_parse_serialize_pascal_string(node_version, rest);
    }
}

/// The `UpdatePartitionsLastReadTime` case of the round-trip law.
#[verifier::rlimit(100)]
proof fn lemma_parse_serialize_case_uplrt(v: TcpContractView, rest: Seq<u8>)
    requires
        serializable(v),
        v is UpdatePartitionsLastReadTime,
    ensures
        spec_parse_contract(spec_serialize_contract(v) + rest) == Ok::<_, ReadFailView>((
            v,
            spec_serialize_contract(v).len() as int,
        )),
{
    vstd::bytes::lemma_auto_spec_u32_to_from_le_bytes();
    vstd::bytes::lemma_auto_spec_u64_to_from_le_bytes();
    let b = spec_serialize_contract(v) + rest;
    let confirmation_id = v->UpdatePartitionsLastReadTime_confirmation_id;
    let table_name = v->UpdatePartitionsLastReadTime_table_name;
    let partitions = v->UpdatePartitionsLastReadTime_partitions;
    assert(b[0] == UPDATE_PARTITIONS_LAST_READ_TIME);
    let ib = spec_serialize_i64(confirmation_id);
    let tb = spec_serialize_pascal_string(table_name);
    let lb = spec_serialize_list_of_pascal_strings(partitions);
    let r = b.skip(1);
    assert(r =~= seq![0u8] + ib + tb + (lb + rest));
    lemma_parse_serialize_confirmation_head(confirmation_id, table_name, lb + rest);
    assert(r.skip(9 + tb.len() as int) =~= lb + rest);
    lemma_parse_serialize_list_of_pascal_strings(partitions, rest);
}

/// The `UpdateRowsLastReadTime` case of the round-trip law.
#[verifier::rlimit(100)]
proof fn lemma_parse_serialize_case_urlrt(v: TcpContractView, rest: Seq<u8>)
    requires
        serializable(v),
        v is UpdateRowsLastReadTime,
    ensures
        spec_parse_contract(spec_serialize_contract(v) + rest) == Ok::<_, ReadFailView>((
            v,
            spec_serialize_contract(v).len() as int,
        )),
{
    vstd::bytes::lemma_auto_spec_u32_to_from_le_bytes();
    vstd::bytes::lemma_auto_spec_u64_to_from_le_bytes();
    let b = spec_serialize_contract(v) + rest;
    let confirmation_id = v->UpdateRowsLastReadTime_confirmation_id;
    let table_name = v->UpdateRowsLastReadTime_table_name;
    let partition_key = v->UpdateRowsLastReadTime_partition_key;
    let row_keys = v->UpdateRowsLastReadTime_row_keys;
    assert(b[0] == UPDATE_ROWS_LAST_READ_TIME);
    let ib = spec_serialize_i64(confirmation_id);
    let tb = spec_serialize_pascal_string(table_name);
    let pb = spec_serialize_pascal_string(partition_key);
    let lb = spec_serialize_list_of_pascal_strings(row_keys);
    let r = b.skip(1);
    assert(r =~= seq![0u8] + ib + tb + (pb + (lb + rest)));
    lemma_parse_serialize_confirmation_head(confirmation_id, table_name, pb + (lb + rest));
    assert(r.skip(9 + tb.len() as int) =~= pb + (lb + rest));
    lemma_parse_serialize_pascal_string(partition_key, lb + rest);
    assert(r.skip(9 + tb.len() as int + pb.len() as int) =~= lb + rest);
    lemma_parse_serialize_list_of_pascal_strings(row_keys, rest);
}

/// The `UpdatePartitionsExpirationTime` case of the round-trip law.
#[verifier::rlimit(100)]
proof fn lemma_parse_serialize_case_upet(v: TcpContractView, rest: Seq<u8>)
    requires
        serializable(v),
        v is UpdatePartitionsExpirationTime,
    ensures
        spec_parse_contract(spec_serialize_contract(v) + rest) == Ok::<_, ReadFailView>((
            v,
            spec_serialize_contract(v).len() as int,
        )),
{
    vstd::bytes::lemma_auto_spec_u32_to_from_le_bytes();
    vstd::bytes::lemma_auto_spec_u64_to_from_le_bytes();
    let b = spec_serialize_contract(v) + rest;
    let confirmation_id = v->UpdatePartitionsExpirationTime_confirmation_id;
    let table_name = v->UpdatePartitionsExpirationTime_table_name;
    let partitions = v->UpdatePartitionsExpirationTime_partitions;
    assert(b[0] == UPDATE_PARTITIONS_EXPIRATION_TIME);
    let ib = spec_serialize_i64(confirmation_id);
    let tb = spec_serialize_pascal_string(table_name);
    let cb = spec_serialize_i32(partitions.len() as i32);
    let fb = spec_serialize_expiration_pairs_flat(partitions);
    let r = b.skip(1);
    assert(r =~= seq![0u8] + ib + tb + (cb + fb + rest));
    lemma_parse_serialize_confirmation_head(confirmation_id, table_name, cb + fb + rest);
    assert(r.skip(9 + tb.len() as int) =~= cb + fb + rest);
    lemma_parse_serialize_list_of_expiration_pairs(partitions, rest);
}

/// The `UpdateRowsExpirationTime` case of the round-trip law.
#[verifier::rlimit(100)]
proof fn lemma_parse_serialize_case_uret(v: TcpContractView, rest: Seq<u8>)
    requires
        serializable(v),
        v is UpdateRowsExpirationTime,
    ensures
        spec_parse_contract(spec_serialize_contract(v) + rest) == Ok::<_, ReadFailView>((
            v,
            spec_serialize_contract(v).len() as int,
        )),
{
    vstd::bytes::lemma_auto_spec_u32_to_from_le_bytes();
    vstd::bytes::lemma_auto_spec_u64_to_from_le_bytes();
    let b = spec_serialize_contract(v) + rest;
    let confirmation_id = v->UpdateRowsExpirationTime_confirmation_id;
    let table_name = v->UpdateRowsExpirationTime_table_name;
    let partition_key = v->UpdateRowsExpirationTime_partition_key;
    let row_keys = v->UpdateRowsExpirationTime_row_keys;
    let expiration_time = v->UpdateRowsExpirationTime_expiration_time;
    assert(b[0] == UPDATE_ROWS_EXPIRATION_TIME);
    let ib = spec_serialize_i64(confirmation_id);
    let tb = spec_serialize_pascal_string(table_name);
    let pb = spec_serialize_pascal_string(partition_key);
    let lb = spec_serialize_list_of_pascal_strings(row_keys);
    let eb = spec_serialize_date_time_opt(expiration_time);
    let r = b.skip(1);
    assert(r =~= seq![0u8] + ib + tb + (pb + (lb + (eb + rest))));
    lemma_parse_serialize_confirmation_head(
        confirmation_id,
        table_name,
        pb + (lb + (eb + rest)),
    );
    assert(r.skip(9 + tb.len() as int) =~= pb + (lb + (eb + rest)));
    lemma_parse_serialize_pascal_string(partition_key, lb + (eb + rest));
    assert(r.skip(9 + tb.len() as int + pb.len() as int) =~= lb + (eb + rest));
    lemma_parse_serialize_list_of_pascal_strings(row_keys, eb + rest);
    assert(r.skip(9 + tb.len() as int + pb.len() as int + lb.len() as int) =~= eb + rest);
    lemma_parse_serialize_date_time_opt(expiration_time, rest);
}

/// The round-trip law of the wire contract: for every serializable message
/// value other than `Error`, parsing its wire form (with anything appended)
/// returns exactly that value and consumes exactly its wire form.
#[verifier::rlimit(100)]
pub proof fn lemma_parse_serialize_contract(v: TcpContractView, rest: Seq<u8>)
    requires
        serializable(v),
        !(v is Error),
    ensures
        spec_parse_contract(spec_serialize_contract(v) + rest) == Ok::<_, ReadFailView>((
            v,
            spec_serialize_contract(v).len() as int,
        )),
{
    vstd::bytes::lemma_auto_spec_u32_to_from_le_bytes();
    vstd::bytes::lemma_auto_spec_u64_to_from_le_bytes();
    let b = spec_serialize_contract(v) + rest;
    match v {
        TcpContractView::Ping => {
            assert(b[0] == PING);
        },
        TcpContractView::Pong => {
            assert(b[0] == PONG);
        },
        TcpContractView::Greeting { name } => {
            assert(b[0] == GREETING);
            assert(b.skip(1) =~= spec_serialize_pascal_string(name) + rest);
            lemma_parse_serialize_pascal_string(name, rest);
        },
        TcpContractView::Subscribe { table_name } => {
            assert(b[0] == SUBSCRIBE);
            assert(b.skip(1) =~= spec_serialize_pascal_string(table_name) + rest);
            lemma_parse_serialize_pascal_string(table_name, rest);
        },
        TcpContractView::InitTable { table_name, data } => {
            assert(b[0] == INIT_TABLE);
            let tb = spec_serialize_pascal_string(table_name);
            let db = spec_serialize_byte_array(data);
            let r = b.skip(1);
            assert(r =~= tb + (db + rest));
            lemma_parse_serialize_pascal_string(table_name, db + rest);
            assert(r.skip(tb.len() as int) =~= db + rest);
            lemma_parse_serialize_byte_array(data, rest);
        },
        TcpContractView::InitPartition { table_name, partition_key, data } => {
            assert(b[0] == INIT_PARTITION);
            let tb = spec_serialize_pascal_string(table_name);
            let pb = spec_serialize_pascal_string(partition_key);
            let db = spec_serialize_byte_array(data);
            let r = b.skip(1);
            assert(r =~= tb + (pb + (db + rest)));
            lemma_parse_serialize_pascal_string(table_name, pb + (db + rest));
            assert(r.skip(tb.len() as int) =~= pb + (db + rest));
            lemma_parse_serialize_pascal_string(partition_key, db + rest);
            assert(r.skip(tb.len() as int + pb.len() as int) =~= db + rest);
            lemma_parse_serialize_byte_array(data, rest);
        },
        TcpContractView::UpdateRows { table_name, data } => {
            assert(b[0] == UPDATE_ROWS);
            let tb = spec_serialize_pascal_string(table_name);
            let db = spec_serialize_byte_array(data);
            let r = b.skip(1);
            assert(r =~= tb + (db + rest));
            lemma_parse_serialize_pascal_string(table_name, db + rest);
            assert(r.skip(tb.len() as int) =~= db + rest);
            lemma_parse_serialize_byte_array(data, rest);
        },
        TcpContractView::DeleteRows { table_name, rows } => {
            lemma_parse_serialize_case_delete_rows(v, rest);
        },
        TcpContractView::Error { message } => {},
        TcpContractView::GreetingFromNode { node_location, node_version, compress } => {
            lemma_parse_serialize_case_greeting_from_node(v, rest);
        },
        TcpContractView::SubscribeAsNode(table_name) => {
            assert(b[0] == SUBSCRIBE_AS_NODE);
            let r = b.skip(1);
            assert(r =~= seq![0u8] + (spec_serialize_pascal_string(table_name) + rest));
            assert(r[0] == 0u8);
            assert(r.skip(1) =~= spec_serialize_pascal_string(table_name) + rest);
            lemma_parse_serialize_pascal_string(table_name, rest);
        },
        TcpContractView::Unsubscribe(table_name) => {
            assert(b[0] == UNSUBSCRIBE);
            let r = b.skip(1);
            assert(r =~= seq![0u8] + (spec_serialize_pascal_string(table_name) + rest));
            assert(r[0] == 0u8);
            assert(r.skip(1) =~= spec_serialize_pascal_string(table_name) + rest);
            lemma_parse_serialize_pascal_string(table_name, rest);
        },
        TcpContractView::TableNotFound(table_name) => {
            assert(b[0] == TABLES_NOT_FOUND);
            let r = b.skip(1);
            assert(r =~= seq![0u8] + (spec_serialize_pascal_string(table_name) + rest));
            assert(r[0] == 0u8);
            assert(r.skip(1) =~= spec_serialize_pascal_string(table_name) + rest);
            lemma_parse_serialize_pascal_string(table_name, rest);
        },
        TcpContractView::CompressedPayload(data) => {
            assert(b[0] == COMPRESSED_PAYLOAD);
            assert(b.skip(1) =~= spec_serialize_byte_array(data) + rest);
            lemma_parse_serialize_byte_array(data, rest);
        },
        TcpContractView::UpdatePartitionsLastReadTime {
            confirmation_id,
            table_name,
            partitions,
        } => {
            lemma_parse_serialize_case_uplrt(v, rest);
        },
        TcpContractView::UpdateRowsLastReadTime {
            confirmation_id,
            table_name,
            partition_key,
            row_keys,
        } => {
            lemma_parse_serialize_case_urlrt(v, rest);
        },
        TcpContractView::UpdatePartitionsExpirationTime {
            confirmation_id,
            table_name,
            partitions,
        } => {
            lemma_parse_serialize_case_upet(v, rest);
        },
        TcpContractView::UpdateRowsExpirationTime {
            confirmation_id,
            table_name,
            partition_key,
            row_keys,
            expiration_time,
        } => {
            lemma_parse_serialize_case_uret(v, rest);
        },
        TcpContractView::Confirmation { confirmation_id } => {
            assert(b[0] == CONFIRMATION);
            let ib = spec_serialize_i64(confirmation_id);
            let r = b.skip(1);
            assert(r =~= seq![0u8] + (ib + rest));
            assert(r[0] == 0u8);
            assert(r.skip(1) =~= ib + rest);
            lemma_parse_serialize_i64(confirmation_id, rest);
        },
    }
}

/// Reads an `i32` count followed by that many row elements.
#[verifier::loop_isolation(false)]
fn read_list_of_delete_rows(reader: &mut ByteReader) -> (r: Result<
    Vec<DeleteRowTcpContract>,
    ReadingTcpContractFail,
>)
    requires
        old(reader).wf(),
    ensures
        final(reader).wf(),
        match r {
            Ok(v) => spec_parse_list_of_delete_rows(old(reader).remaining()) matches Ok((l, n))
                && v.deep_view() == l && 0 <= n <= old(reader).remaining().len() && final(reader).remaining() == old(reader).remaining().skip(n),
            Err(e) => spec_parse_list_of_delete_rows(old(reader).remaining()) == Err::<
                (Seq<DeleteRowView>, int),
                _,
            >(e@),
        },
{
    let ghost rem0 = reader.remaining();
    match reader.read_i32() {
        Ok(k) => {
            let amount =
                #[verifier::truncate]
                (k as usize);
            let ghost rem_list = reader.remaining();
            let mut out: Vec<DeleteRowTcpContract> = Vec::new();
            let mut i: usize = 0;
            let ghost mut consumed: int = 0;
            while i < amount
                invariant
                    reader.wf(),
                    i <= amount,
                    0 <= consumed <= rem_list.len(),
                    consumed == rem_list.len() - reader.remaining().len(),
                    rem_list.skip(consumed) == reader.remaining(),
                    out.deep_view().len() == i,
                    match spec_parse_delete_rows_n(reader.remaining(), (amount - i) as nat) {
                        Ok((l2, m)) => spec_parse_delete_rows_n(rem_list, amount as nat)
                            == Ok::<_, ReadFailView>((out.deep_view() + l2, consumed + m)),
                        Err(e) => spec_parse_delete_rows_n(rem_list, amount as nat) == Err::<
                            (Seq<DeleteRowView>, int),
                            _,
                        >(e),
                    },
                decreases amount - i,
            {
                let ghost rem_before = reader.remaining();
                let ghost out_before = out.deep_view();
                match DeleteRowTcpContract::deserialize(reader) {
                    Ok(row) => {
                        out.push(row);
                        proof {
                            let (rv, n) = spec_parse_delete_row(rem_before)->Ok_0;
                            assert(out.deep_view() =~= out_before.push(rv));
                            vstd::seq_lib::lemma_seq_skip_of_skip(rem_list, consumed, n);
                            assert(rem_list.skip(consumed + n) =~= reader.remaining());
                            consumed = consumed + n;
                            match spec_parse_delete_rows_n(
                                reader.remaining(),
                                (amount - i - 1) as nat,
                            ) {
                                Ok((l2, m)) => {
                                    assert(out_before.push(rv) + l2 =~= out_before + (seq![rv]
                                        + l2));
                                },
                                Err(e) => {},
                            }
                        }
                        i = i + 1;
                    },
                    Err(e) => {
                        proof {
                            assert(spec_parse_delete_rows_n(rem_before, (amount - i) as nat)
                                == Err::<(Seq<DeleteRowView>, int), _>(e@));
                        }
                        return Err(e);
                    },
                }
            }
            proof {
                assert(spec_parse_delete_rows_n(reader.remaining(), 0nat) == Ok::<
                    _,
                    ReadFailView,
                >((Seq::<DeleteRowView>::empty(), 0int)));
                assert(out.deep_view() + Seq::<DeleteRowView>::empty() =~= out.deep_view());
                vstd::seq_lib::lemma_seq_skip_of_skip(rem0, 4, consumed);
                assert(reader.remaining() =~= rem0.skip(4 + consumed));
            }
            Ok(out)
        },
        Err(e) => Err(e),
    }
}

/// Reads an `i32` count followed by that many (partition key, optional
/// expiration) pairs.
#[verifier::loop_isolation(false)]
fn read_list_of_expiration_pairs(reader: &mut ByteReader) -> (r: Result<
    Vec<(String, Option<i64>)>,
    ReadingTcpContractFail,
>)
    requires
        old(reader).wf(),
    ensures
        final(reader).wf(),
        match r {
            Ok(v) => spec_parse_list_of_expiration_pairs(old(reader).remaining()) matches Ok(
                (l, n),
            ) && v.deep_view() == l && 0 <= n <= old(reader).remaining().len() && final(reader).remaining() == old(reader).remaining().skip(n),
            Err(e) => spec_parse_list_of_expiration_pairs(old(reader).remaining()) == Err::<
                (Seq<(Seq<char>, Option<i64>)>, int),
                _,
            >(e@),
        },
{
    let ghost rem0 = reader.remaining();
    match reader.read_i32() {
        Ok(k) => {
            let amount =
                #[verifier::truncate]
                (k as usize);
            let ghost rem_list = reader.remaining();
            let mut out: Vec<(String, Option<i64>)> = Vec::new();
            let mut i: usize = 0;
            let ghost mut consumed: int = 0;
            while i < amount
                invariant
                    reader.wf(),
                    i <= amount,
                    0 <= consumed <= rem_list.len(),
                    consumed == rem_list.len() - reader.remaining().len(),
                    rem_list.skip(consumed) == reader.remaining(),
                    out.deep_view().len() == i,
                    match spec_parse_expiration_pairs_n(reader.remaining(), (amount - i) as nat) {
                        Ok((l2, m)) => spec_parse_expiration_pairs_n(rem_list, amount as nat)
                            == Ok::<_, ReadFailView>((out.deep_view() + l2, consumed + m)),
                        Err(e) => spec_parse_expiration_pairs_n(rem_list, amount as nat) == Err::<
                            (Seq<(Seq<char>, Option<i64>)>, int),
                            _,
                        >(e),
                    },
                decreases amount - i,
            {
                let ghost rem_before = reader.remaining();
                let ghost out_before = out.deep_view();
                let partition_key = match read_pascal_string(reader) {
                    Ok(s) => s,
                    Err(e) => {
                        proof {
                            assert(spec_parse_expiration_pairs_n(rem_before, (amount - i) as nat)
                                == Err::<(Seq<(Seq<char>, Option<i64>)>, int), _>(e@));
                        }
                        return Err(e);
                    },
                };
                let expiration = match read_date_time_opt(reader) {
                    Ok(d) => d,
                    Err(e) => {
                        proof {
                            let (pk, n) = spec_parse_pascal_string(rem_before)->Ok_0;
                            assert(spec_parse_expiration_pair(rem_before) == Err::<
                                ((Seq<char>, Option<i64>), int),
                                _,
                            >(e@));
                            assert(spec_parse_expiration_pairs_n(rem_before, (amount - i) as nat)
                                == Err::<(Seq<(Seq<char>, Option<i64>)>, int), _>(e@));
                        }
                        return Err(e);
                    },
                };
                proof {
                    let (pk, n) = spec_parse_pascal_string(rem_before)->Ok_0;
                    assert(spec_parse_expiration_pair(rem_before) matches Ok((pv, _)) && pv == (
                        pk,
                        expiration,
                    ));
                }
                out.push((partition_key, expiration));
                proof {
                    let (pv, n) = spec_parse_expiration_pair(rem_before)->Ok_0;
                    match expiration {
                        Some(t) => assert(out.deep_view() =~= out_before.push(pv)),
                        None => assert(out.deep_view() =~= out_before.push(pv)),
                    }
                    vstd::seq_lib::lemma_seq_skip_of_skip(
                        rem_list,
                        consumed,
                        rem_before.len() - reader.remaining().len(),
                    );
                    assert(rem_list.skip(
                        consumed + (rem_before.len() - reader.remaining().len()),
                    ) =~= reader.remaining());
                    consumed = consumed + (rem_before.len() - reader.remaining().len());
                    match spec_parse_expiration_pairs_n(
                        reader.remaining(),
                        (amount - i - 1) as nat,
                    ) {
                        Ok((l2, m)) => {
                            assert(out_before.push(pv) + l2 =~= out_before + (seq![pv] + l2));
                        },
                        Err(e) => {},
                    }
                }
                i = i + 1;
            }
            proof {
                assert(spec_parse_expiration_pairs_n(reader.remaining(), 0nat) == Ok::<
                    _,
                    ReadFailView,
                >((Seq::<(Seq<char>, Option<i64>)>::empty(), 0int)));
                assert(out.deep_view() + Seq::<(Seq<char>, Option<i64>)>::empty()
                    =~= out.deep_view());
                vstd::seq_lib::lemma_seq_skip_of_skip(rem0, 4, consumed);
                assert(reader.remaining() =~= rem0.skip(4 + consumed));
            }
            Ok(out)
        },
        Err(e) => Err(e),
    }
}

/// Reads the shared head of a confirmation-bearing body: the version byte
/// (ignored), the confirmation id, and the table name.
fn read_confirmation_head(reader: &mut ByteReader) -> (r: Result<
    (i64, String),
    ReadingTcpContractFail,
>)
    requires
        old(reader).wf(),
    ensures
        final(reader).wf(),
        match r {
            Ok((id, t)) => spec_parse_confirmation_head(old(reader).remaining()) matches Ok(
                ((idv, tv), n),
            ) && id == idv && t@ == tv && 0 <= n <= old(reader).remaining().len() && final(reader).remaining() == old(reader).remaining().skip(n),
            Err(e) => spec_parse_confirmation_head(old(reader).remaining()) == Err::<
                ((i64, Seq<char>), int),
                _,
            >(e@),
        },
{
    let ghost rem0 = reader.remaining();
    match reader.read_byte() {
        Ok(_) => {},
        Err(e) => {
            return Err(e);
        },
    }
    let confirmation_id = match reader.read_i64() {
        Ok(v) => v,
        Err(e) => {
            return Err(e);
        },
    };
    proof {
        vstd::seq_lib::lemma_seq_skip_of_skip(rem0, 1, 8);
        assert(reader.remaining() =~= rem0.skip(9));
    }
    let table_name = match read_pascal_string(reader) {
        Ok(s) => s,
        Err(e) => {
            return Err(e);
        },
    };
    proof {
        let (tv, n) = spec_parse_pascal_string(rem0.skip(9))->Ok_0;
        vstd::seq_lib::lemma_seq_skip_of_skip(rem0, 9, n);
        assert(reader.remaining() =~= rem0.skip(9 + n));
    }
    Ok((confirmation_id, table_name))
}

impl MyNoSqlTcpContract {
    /// Decodes one message from the stream: the tag byte, then the variant's
    /// body. Input that is not the serialization of a message is rejected
    /// with the precise failure that [`spec_parse_contract`] assigns to it,
    /// and a well-formed `Error` packet is rejected as protocol-fatal.
    #[verifier::rlimit(100)]
    pub fn deserialize(socket_reader: &mut ByteReader) -> (r: Result<
        Self,
        ReadingTcpContractFail,
    >)
        requires
            old(socket_reader).wf(),
        ensures
            final(socket_reader).wf(),
            match r {
                Ok(c) => spec_parse_contract(old(socket_reader).remaining()) matches Ok((v, n))
                    && c@ == v && final(socket_reader).remaining() == old(
                    socket_reader,
                ).remaining().skip(n),
                Err(e) => spec_parse_contract(old(socket_reader).remaining()) == Err::<
                    (TcpContractView, int),
                    _,
                >(e@),
            },
    {
        let ghost rem0 = socket_reader.remaining();
        let packet_no = match socket_reader.read_byte() {
            Ok(t) => t,
            Err(e) => {
                return Err(e);
            },
        };
        let ghost r1 = rem0.skip(1);
        if packet_no == PING {
            Ok(Self::Ping)
        } else if packet_no == PONG {
            Ok(Self::Pong)
        } else if packet_no == GREETING {
            let name = match read_pascal_string(socket_reader) {
                Ok(s) => s,
                Err(e) => {
                    return Err(e);
                },
            };
            proof {
                let (nv, n) = spec_parse_pascal_string(r1)->Ok_0;
                vstd::seq_lib::lemma_seq_skip_of_skip(rem0, 1, n);
            }
            Ok(Self::Greeting { name })
        } else if packet_no == SUBSCRIBE {
            let table_name = match read_pascal_string(socket_reader) {
                Ok(s) => s,
                Err(e) => {
                    return Err(e);
                },
            };
            proof {
                let (tv, n) = spec_parse_pascal_string(r1)->Ok_0;
                vstd::seq_lib::lemma_seq_skip_of_skip(rem0, 1, n);
            }
            Ok(Self::Subscribe { table_name })
        } else if packet_no == INIT_TABLE {
            let table_name = match read_pascal_string(socket_reader) {
                Ok(s) => s,
                Err(e) => {
                    return Err(e);
                },
            };
            proof {
                let (tv, n1) = spec_parse_pascal_string(r1)->Ok_0;
                vstd::seq_lib::lemma_seq_skip_of_skip(rem0, 1, n1);
                assert(socket_reader.remaining() =~= r1.skip(n1));
            }
            let data = match socket_reader.read_byte_array() {
                Ok(d) => d,
                Err(e) => {
                    return Err(e);
                },
            };
            proof {
                let (tv, n1) = spec_parse_pascal_string(r1)->Ok_0;
                let (dv, n2) = spec_parse_byte_array(r1.skip(n1))->Ok_0;
                vstd::seq_lib::lemma_seq_skip_of_skip(rem0, 1 + n1, n2);
                vstd::seq_lib::lemma_seq_skip_of_skip(r1, n1, n2);
                assert(socket_reader.remaining() =~= rem0.skip(1 + n1 + n2));
            }
            Ok(Self::InitTable { table_name, data })
        } else if packet_no == INIT_PARTITION {
            let table_name = match read_pascal_string(socket_reader) {
                Ok(s) => s,
                Err(e) => {
                    return Err(e);
                },
            };
            proof {
                let (tv, n1) = spec_parse_pascal_string(r1)->Ok_0;
                vstd::seq_lib::lemma_seq_skip_of_skip(rem0, 1, n1);
                assert(socket_reader.remaining() =~= r1.skip(n1));
            }
            let partition_key = match read_pascal_string(socket_reader) {
                Ok(s) => s,
                Err(e) => {
                    return Err(e);
                },
            };
            proof {
                let (tv, n1) = spec_parse_pascal_string(r1)->Ok_0;
                let (pv, n2) = spec_parse_pascal_string(r1.skip(n1))->Ok_0;
                vstd::seq_lib::lemma_seq_skip_of_skip(r1, n1, n2);
                vstd::seq_lib::lemma_seq_skip_of_skip(rem0, 1, n1 + n2);
                assert(socket_reader.remaining() =~= r1.skip(n1 + n2));
            }
            let data = match socket_reader.read_byte_array() {
                Ok(d) => d,
                Err(e) => {
                    return Err(e);
                },
            };
            proof {
                let (tv, n1) = spec_parse_pascal_string(r1)->Ok_0;
                let (pv, n2) = spec_parse_pascal_string(r1.skip(n1))->Ok_0;
                let (dv, n3) = spec_parse_byte_array(r1.skip(n1 + n2))->Ok_0;
                vstd::seq_lib::lemma_seq_skip_of_skip(r1, n1 + n2, n3);
                vstd::seq_lib::lemma_seq_skip_of_skip(rem0, 1, n1 + n2 + n3);
                assert(socket_reader.remaining() =~= rem0.skip(1 + n1 + n2 + n3));
            }
            Ok(Self::InitPartition { table_name, partition_key, data })
        } else if packet_no == UPDATE_ROWS {
            let table_name = match read_pascal_string(socket_reader) {
                Ok(s) => s,
                Err(e) => {
                    return Err(e);
                },
            };
            proof {
                let (tv, n1) = spec_parse_pascal_string(r1)->Ok_0;
                vstd::seq_lib::lemma_seq_skip_of_skip(rem0, 1, n1);
                assert(socket_reader.remaining() =~= r1.skip(n1));
            }
            let data = match socket_reader.read_byte_array() {
                Ok(d) => d,
                Err(e) => {
                    return Err(e);
                },
            };
            proof {
                let (tv, n1) = spec_parse_pascal_string(r1)->Ok_0;
                let (dv, n2) = spec_parse_byte_array(r1.skip(n1))->Ok_0;
                vstd::seq_lib::lemma_seq_skip_of_skip(r1, n1, n2);
                vstd::seq_lib::lemma_seq_skip_of_skip(rem0, 1, n1 + n2);
                assert(socket_reader.remaining() =~= rem0.skip(1 + n1 + n2));
            }
            Ok(Self::UpdateRows { table_name, data })
        } else if packet_no == DELETE_ROWS {
            let table_name = match read_pascal_string(socket_reader) {
                Ok(s) => s,
                Err(e) => {
                    return Err(e);
                },
            };
            proof {
                let (tv, n1) = spec_parse_pascal_string(r1)->Ok_0;
                vstd::seq_lib::lemma_seq_skip_of_skip(rem0, 1, n1);
                assert(socket_reader.remaining() =~= r1.skip(n1));
            }
            let rows = match read_list_of_delete_rows(socket_reader) {
                Ok(v) => v,
                Err(e) => {
                    return Err(e);
                },
            };
            proof {
                let (tv, n1) = spec_parse_pascal_string(r1)->Ok_0;
                let (lv, n2) = spec_parse_list_of_delete_rows(r1.skip(n1))->Ok_0;
                vstd::seq_lib::lemma_seq_skip_of_skip(r1, n1, n2);
                vstd::seq_lib::lemma_seq_skip_of_skip(rem0, 1, n1 + n2);
                assert(socket_reader.remaining() =~= rem0.skip(1 + n1 + n2));
            }
            Ok(Self::DeleteRows { table_name, rows })
        } else if packet_no == ERROR {
            let packet_version = match socket_reader.read_byte() {
                Ok(v) => v,
                Err(e) => {
                    return Err(e);
                },
            };
            if packet_version != 0 {
                return Err(
                    ReadingTcpContractFail::UnsupportedProtocolVersion {
                        packet_id: ERROR,
                        version: packet_version,
                    },
                );
            }
            let message = match read_pascal_string(socket_reader) {
                Ok(s) => s,
                Err(e) => {
                    return Err(e);
                },
            };
            Err(ReadingTcpContractFail::ErrorPacketReceived(message))
        } else if packet_no == GREETING_FROM_NODE {
            let packet_version = match socket_reader.read_byte() {
                Ok(v) => v,
                Err(e) => {
                    return Err(e);
                },
            };
            let node_location = match read_pascal_string(socket_reader) {
                Ok(s) => s,
                Err(e) => {
                    return Err(e);
                },
            };
            proof {
                let (lv, n1) = spec_parse_pascal_string(r1.skip(1))->Ok_0;
                vstd::seq_lib::lemma_seq_skip_of_skip(r1, 1, n1);
                assert(socket_reader.remaining() =~= r1.skip(1 + n1));
            }
            let node_version = match read_pascal_string(socket_reader) {
                Ok(s) => s,
                Err(e) => {
                    return Err(e);
                },
            };
            proof {
                let (lv, n1) = spec_parse_pascal_string(r1.skip(1))->Ok_0;
                let (vv, n2) = spec_parse_pascal_string(r1.skip(1 + n1))->Ok_0;
                vstd::seq_lib::lemma_seq_skip_of_skip(r1, 1 + n1, n2);
                assert(socket_reader.remaining() =~= r1.skip(1 + n1 + n2));
            }
            let mut compress = false;
            if packet_version > 0 {
                compress = match socket_reader.read_bool() {
                    Ok(b) => b,
                    Err(e) => {
                        return Err(e);
                    },
                };
            }
            proof {
                let (lv, n1) = spec_parse_pascal_string(r1.skip(1))->Ok_0;
                let (vv, n2) = spec_parse_pascal_string(r1.skip(1 + n1))->Ok_0;
                if packet_version > 0 {
                    vstd::seq_lib::lemma_seq_skip_of_skip(rem0, 1, 2 + n1 + n2);
                } else {
                    vstd::seq_lib::lemma_seq_skip_of_skip(rem0, 1, 1 + n1 + n2);
                }
            }
            Ok(Self::GreetingFromNode { node_location, node_version, compress })
        } else if packet_no == SUBSCRIBE_AS_NODE {
            let table_name = match Self::read_version_and_table(socket_reader) {
                Ok(s) => s,
                Err(e) => {
                    return Err(e);
                },
            };
            proof {
                let (tv, n) = spec_parse_version_and_table(r1)->Ok_0;
                vstd::seq_lib::lemma_seq_skip_of_skip(rem0, 1, n);
            }
            Ok(Self::SubscribeAsNode(table_name))
        } else if packet_no == TABLES_NOT_FOUND {
            let table_name = match Self::read_version_and_table(socket_reader) {
                Ok(s) => s,
                Err(e) => {
                    return Err(e);
                },
            };
            proof {
                let (tv, n) = spec_parse_version_and_table(r1)->Ok_0;
                vstd::seq_lib::lemma_seq_skip_of_skip(rem0, 1, n);
            }
            Ok(Self::TableNotFound(table_name))
        } else if packet_no == UNSUBSCRIBE {
            let table_name = match Self::read_version_and_table(socket_reader) {
                Ok(s) => s,
                Err(e) => {
                    return Err(e);
                },
            };
            proof {
                let (tv, n) = spec_parse_version_and_table(r1)->Ok_0;
                vstd::seq_lib::lemma_seq_skip_of_skip(rem0, 1, n);
            }
            Ok(Self::Unsubscribe(table_name))
        } else if packet_no == COMPRESSED_PAYLOAD {
            let data = match socket_reader.read_byte_array() {
                Ok(d) => d,
                Err(e) => {
                    return Err(e);
                },
            };
            proof {
                let (dv, n) = spec_parse_byte_array(r1)->Ok_0;
                vstd::seq_lib::lemma_seq_skip_of_skip(rem0, 1, n);
            }
            Ok(Self::CompressedPayload(data))
        } else if packet_no == UPDATE_PARTITIONS_LAST_READ_TIME {
            let (confirmation_id, table_name) = match read_confirmation_head(socket_reader) {
                Ok(v) => v,
                Err(e) => {
                    return Err(e);
                },
            };
            proof {
                let (hv, n1) = spec_parse_confirmation_head(r1)->Ok_0;
                vstd::seq_lib::lemma_seq_skip_of_skip(rem0, 1, n1);
                assert(socket_reader.remaining() =~= r1.skip(n1));
            }
            let partitions = match read_list_of_pascal_strings(socket_reader) {
                Ok(v) => v,
                Err(e) => {
                    return Err(e);
                },
            };
            proof {
                let (hv, n1) = spec_parse_confirmation_head(r1)->Ok_0;
                let (lv, n2) = spec_parse_list_of_pascal_strings(r1.skip(n1))->Ok_0;
                vstd::seq_lib::lemma_seq_skip_of_skip(r1, n1, n2);
                vstd::seq_lib::lemma_seq_skip_of_skip(rem0, 1, n1 + n2);
                assert(socket_reader.remaining() =~= rem0.skip(1 + n1 + n2));
            }
            Ok(Self::UpdatePartitionsLastReadTime { confirmation_id, table_name, partitions })
        } else if packet_no == UPDATE_ROWS_LAST_READ_TIME {
            let (confirmation_id, table_name) = match read_confirmation_head(socket_reader) {
                Ok(v) => v,
                Err(e) => {
                    return Err(e);
                },
            };
            proof {
                let (hv, n1) = spec_parse_confirmation_head(r1)->Ok_0;
                vstd::seq_lib::lemma_seq_skip_of_skip(rem0, 1, n1);
                assert(socket_reader.remaining() =~= r1.skip(n1));
            }
            let partition_key = match read_pascal_string(socket_reader) {
                Ok(s) => s,
                Err(e) => {
                    return Err(e);
                },
            };
            proof {
                let (hv, n1) = spec_parse_confirmation_head(r1)->Ok_0;
                let (pv, n2) = spec_parse_pascal_string(r1.skip(n1))->Ok_0;
                vstd::seq_lib::lemma_seq_skip_of_skip(r1, n1, n2);
                assert(socket_reader.remaining() =~= r1.skip(n1 + n2));
            }
            let row_keys = match read_list_of_pascal_strings(socket_reader) {
                Ok(v) => v,
                Err(e) => {
                    return Err(e);
                },
            };
            proof {
                let (hv, n1) = spec_parse_confirmation_head(r1)->Ok_0;
                let (pv, n2) = spec_parse_pascal_string(r1.skip(n1))->Ok_0;
                let (lv, n3) = spec_parse_list_of_pascal_strings(r1.skip(n1 + n2))->Ok_0;
                vstd::seq_lib::lemma_seq_skip_of_skip(r1, n1 + n2, n3);
                vstd::seq_lib::lemma_seq_skip_of_skip(rem0, 1, n1 + n2 + n3);
                assert(socket_reader.remaining() =~= rem0.skip(1 + n1 + n2 + n3));
            }
            Ok(
                Self::UpdateRowsLastReadTime {
                    confirmation_id,
                    table_name,
                    partition_key,
                    row_keys,
                },
            )
        } else if packet_no == UPDATE_PARTITIONS_EXPIRATION_TIME {
            let (confirmation_id, table_name) = match read_confirmation_head(socket_reader) {
                Ok(v) => v,
                Err(e) => {
                    return Err(e);
                },
            };
            proof {
                let (hv, n1) = spec_parse_confirmation_head(r1)->Ok_0;
                vstd::seq_lib::lemma_seq_skip_of_skip(rem0, 1, n1);
                assert(socket_reader.remaining() =~= r1.skip(n1));
            }
            let partitions = match read_list_of_expiration_pairs(socket_reader) {
                Ok(v) => v,
                Err(e) => {
                    return Err(e);
                },
            };
            proof {
                let (hv, n1) = spec_parse_confirmation_head(r1)->Ok_0;
                let (lv, n2) = spec_parse_list_of_expiration_pairs(r1.skip(n1))->Ok_0;
                vstd::seq_lib::lemma_seq_skip_of_skip(r1, n1, n2);
                vstd::seq_lib::lemma_seq_skip_of_skip(rem0, 1, n1 + n2);
                assert(socket_reader.remaining() =~= rem0.skip(1 + n1 + n2));
            }
            Ok(Self::UpdatePartitionsExpirationTime { confirmation_id, table_name, partitions })
        } else if packet_no == UPDATE_ROWS_EXPIRATION_TIME {
            let (confirmation_id, table_name) = match read_confirmation_head(socket_reader) {
                Ok(v) => v,
                Err(e) => {
                    return Err(e);
                },
            };
            proof {
                let (hv, n1) = spec_parse_confirmation_head(r1)->Ok_0;
                vstd::seq_lib::lemma_seq_skip_of_skip(rem0, 1, n1);
                assert(socket_reader.remaining() =~= r1.skip(n1));
            }
            let partition_key = match read_pascal_string(socket_reader) {
                Ok(s) => s,
                Err(e) => {
                    return Err(e);
                },
            };
            proof {
                let (hv, n1) = spec_parse_confirmation_head(r1)->Ok_0;
                let (pv, n2) = spec_parse_pascal_string(r1.skip(n1))->Ok_0;
                vstd::seq_lib::lemma_seq_skip_of_skip(r1, n1, n2);
                assert(socket_reader.remaining() =~= r1.skip(n1 + n2));
            }
            let row_keys = match read_list_of_pascal_strings(socket_reader) {
                Ok(v) => v,
                Err(e) => {
                    return Err(e);
                },
            };
            proof {
                let (hv, n1) = spec_parse_confirmation_head(r1)->Ok_0;
                let (pv, n2) = spec_parse_pascal_string(r1.skip(n1))->Ok_0;
                let (lv, n3) = spec_parse_list_of_pascal_strings(r1.skip(n1 + n2))->Ok_0;
                vstd::seq_lib::lemma_seq_skip_of_skip(r1, n1 + n2, n3);
                assert(socket_reader.remaining() =~= r1.skip(n1 + n2 + n3));
            }
            let expiration_time = match read_date_time_opt(socket_reader) {
                Ok(d) => d,
                Err(e) => {
                    return Err(e);
                },
            };
            proof {
                let (hv, n1) = spec_parse_confirmation_head(r1)->Ok_0;
                let (pv, n2) = spec_parse_pascal_string(r1.skip(n1))->Ok_0;
                let (lv, n3) = spec_parse_list_of_pascal_strings(r1.skip(n1 + n2))->Ok_0;
                vstd::seq_lib::lemma_seq_skip_of_skip(r1, n1 + n2 + n3, 8);
                vstd::seq_lib::lemma_seq_skip_of_skip(rem0, 1, n1 + n2 + n3 + 8);
                assert(socket_reader.remaining() =~= rem0.skip(9 + n1 + n2 + n3));
            }
            Ok(
                Self::UpdateRowsExpirationTime {
                    confirmation_id,
                    table_name,
                    partition_key,
                    row_keys,
                    expiration_time,
                },
            )
        } else if packet_no == CONFIRMATION {
            match socket_reader.read_byte() {
                Ok(_) => {},
                Err(e) => {
                    return Err(e);
                },
            }
            let confirmation_id = match socket_reader.read_i64() {
                Ok(v) => v,
                Err(e) => {
                    return Err(e);
                },
            };
            proof {
                vstd::seq_lib::lemma_seq_skip_of_skip(r1, 1, 8);
                vstd::seq_lib::lemma_seq_skip_of_skip(rem0, 1, 9);
                assert(socket_reader.remaining() =~= rem0.skip(10));
            }
            Ok(Self::Confirmation { confirmation_id })
        } else {
            Err(ReadingTcpContractFail::InvalidPacketId(packet_no))
        }
    }

    /// Reads a version byte (ignored) followed by a table name: the shared
    /// body of `SubscribeAsNode`, `TableNotFound` and `Unsubscribe`.
    fn read_version_and_table(socket_reader: &mut ByteReader) -> (r: Result<
        String,
        ReadingTcpContractFail,
    >)
        requires
            old(socket_reader).wf(),
        ensures
            final(socket_reader).wf(),
            match r {
                Ok(t) => spec_parse_version_and_table(old(socket_reader).remaining()) matches Ok(
                    (tv, n),
                ) && t@ == tv && final(socket_reader).remaining() == old(
                    socket_reader,
                ).remaining().skip(n),
                Err(e) => spec_parse_version_and_table(old(socket_reader).remaining()) == Err::<
                    (Seq<char>, int),
                    _,
                >(e@),
            },
    {
        let ghost rem0 = socket_reader.remaining();
        match socket_reader.read_byte() {
            Ok(_) => {},
            Err(e) => {
                return Err(e);
            },
        }
        let table_name = match read_pascal_string(socket_reader) {
            Ok(s) => s,
            Err(e) => {
                return Err(e);
            },
        };
        proof {
            let (tv, n) = spec_parse_pascal_string(rem0.skip(1))->Ok_0;
            vstd::seq_lib::lemma_seq_skip_of_skip(rem0, 1, n);
            assert(socket_reader.remaining() =~= rem0.skip(1 + n));
        }
        Ok(table_name)
    }

    /// Appends this message's wire form to `buffer`.
    #[verifier::rlimit(100)]
    pub fn serialize_into(&self, buffer: &mut Vec<u8>)
        requires
            serializable(self@),
        ensures
            final(buffer)@ == old(buffer)@ + spec_serialize_contract(self@),
    {
        match self {
            Self::Ping => {
                buffer.push(PING);
                proof {
                    assert(buffer@ =~= old(buffer)@ + spec_serialize_contract(self@));
                }
            },
            Self::Pong => {
                buffer.push(PONG);
                proof {
                    assert(buffer@ =~= old(buffer)@ + spec_serialize_contract(self@));
                }
            },
            Self::Greeting { name } => {
                buffer.push(GREETING);
                serialize_pascal_string(buffer, name.as_str());
                proof {
                    assert(buffer@ =~= old(buffer)@ + spec_serialize_contract(self@));
                }
            },
            Self::Subscribe { table_name } => {
                buffer.push(SUBSCRIBE);
                serialize_pascal_string(buffer, table_name.as_str());
                proof {
                    assert(buffer@ =~= old(buffer)@ + spec_serialize_contract(self@));
                }
            },
            Self::InitTable { table_name, data } => {
                buffer.push(INIT_TABLE);
                serialize_pascal_string(buffer, table_name.as_str());
                serialize_byte_array(buffer, data.as_slice());
                proof {
                    assert(buffer@ =~= old(buffer)@ + spec_serialize_contract(self@));
                }
            },
            Self::InitPartition { table_name, partition_key, data } => {
                buffer.push(INIT_PARTITION);
                serialize_pascal_string(buffer, table_name.as_str());
                serialize_pascal_string(buffer, partition_key.as_str());
                serialize_byte_array(buffer, data.as_slice());
                proof {
                    assert(buffer@ =~= old(buffer)@ + spec_serialize_contract(self@));
                }
            },
            Self::UpdateRows { table_name, data } => {
                buffer.push(UPDATE_ROWS);
                serialize_pascal_string(buffer, table_name.as_str());
                serialize_byte_array(buffer, data.as_slice());
                proof {
                    assert(buffer@ =~= old(buffer)@ + spec_serialize_contract(self@));
                }
            },
            Self::DeleteRows { table_name, rows } => {
                buffer.push(DELETE_ROWS);
                serialize_pascal_string(buffer, table_name.as_str());
                serialize_delete_rows_list(buffer, rows);
                proof {
                    assert(buffer@ =~= old(buffer)@ + spec_serialize_contract(self@));
                }
            },
            Self::Error { message } => {
                buffer.push(ERROR);
                buffer.push(0);
                serialize_pascal_string(buffer, message.as_str());
                proof {
                    assert(buffer@ =~= old(buffer)@ + spec_serialize_contract(self@));
                }
            },
            Self::GreetingFromNode { node_location, node_version, compress } => {
                if *compress {
                    buffer.push(GREETING_FROM_NODE);
                    buffer.push(1);
                    serialize_pascal_string(buffer, node_location.as_str());
                    serialize_pascal_string(buffer, node_version.as_str());
                    buffer.push(1);
                } else {
                    buffer.push(GREETING_FROM_NODE);
                    buffer.push(0);
                    serialize_pascal_string(buffer, node_location.as_str());
                    serialize_pascal_string(buffer, node_version.as_str());
                }
                proof {
                    assert(buffer@ =~= old(buffer)@ + spec_serialize_contract(self@));
                }
            },
            Self::SubscribeAsNode(table_name) => {
                buffer.push(SUBSCRIBE_AS_NODE);
                buffer.push(0);
                serialize_pascal_string(buffer, table_name.as_str());
                proof {
                    assert(buffer@ =~= old(buffer)@ + spec_serialize_contract(self@));
                }
            },
            Self::TableNotFound(table_name) => {
                buffer.push(TABLES_NOT_FOUND);
                buffer.push(0);
                serialize_pascal_string(buffer, table_name.as_str());
                proof {
                    assert(buffer@ =~= old(buffer)@ + spec_serialize_contract(self@));
                }
            },
            Self::Unsubscribe(table_name) => {
                buffer.push(UNSUBSCRIBE);
                buffer.push(0);
                serialize_pascal_string(buffer, table_name.as_str());
                proof {
                    assert(buffer@ =~= old(buffer)@ + spec_serialize_contract(self@));
                }
            },
            Self::CompressedPayload(payload) => {
                buffer.push(COMPRESSED_PAYLOAD);
                serialize_byte_array(buffer, payload.as_slice());
                proof {
                    assert(buffer@ =~= old(buffer)@ + spec_serialize_contract(self@));
                }
            },
            Self::UpdatePartitionsLastReadTime { table_name, confirmation_id, partitions } => {
                buffer.push(UPDATE_PARTITIONS_LAST_READ_TIME);
                serialize_byte(buffer, 0);
                serialize_i64(buffer, *confirmation_id);
                serialize_pascal_string(buffer, table_name.as_str());
                serialize_list_of_pascal_strings(buffer, partitions);
                proof {
                    assert(buffer@ =~= old(buffer)@ + spec_serialize_contract(self@));
                }
            },
            Self::UpdateRowsLastReadTime {
                table_name,
                confirmation_id,
                partition_key,
                row_keys,
            } => {
                buffer.push(UPDATE_ROWS_LAST_READ_TIME);
                serialize_byte(buffer, 0);
                serialize_i64(buffer, *confirmation_id);
                serialize_pascal_string(buffer, table_name.as_str());
                serialize_pascal_string(buffer, partition_key.as_str());
                serialize_list_of_pascal_strings(buffer, row_keys);
                proof {
                    assert(buffer@ =~= old(buffer)@ + spec_serialize_contract(self@));
                }
            },
            Self::UpdatePartitionsExpirationTime { table_name, confirmation_id, partitions } => {
                buffer.push(UPDATE_PARTITIONS_EXPIRATION_TIME);
                serialize_byte(buffer, 0);
                serialize_i64(buffer, *confirmation_id);
                serialize_pascal_string(buffer, table_name.as_str());
                serialize_expiration_pairs_list(buffer, partitions);
                proof {
                    assert(buffer@ =~= old(buffer)@ + spec_serialize_contract(self@));
                }
            },
            Self::UpdateRowsExpirationTime {
                table_name,
                confirmation_id,
                partition_key,
                row_keys,
                expiration_time,
            } => {
                buffer.push(UPDATE_ROWS_EXPIRATION_TIME);
                serialize_byte(buffer, 0);
                serialize_i64(buffer, *confirmation_id);
                serialize_pascal_string(buffer, table_name.as_str());
                serialize_pascal_string(buffer, partition_key.as_str());
                serialize_list_of_pascal_strings(buffer, row_keys);
                serialize_date_time_opt(buffer, *expiration_time);
                proof {
                    assert(buffer@ =~= old(buffer)@ + spec_serialize_contract(self@));
                }
            },
            Self::Confirmation { confirmation_id } => {
                buffer.push(CONFIRMATION);
                serialize_byte(buffer, 0);
                serialize_i64(buffer, *confirmation_id);
                proof {
                    assert(buffer@ =~= old(buffer)@ + spec_serialize_contract(self@));
                }
            },
        }
    }

    /// This message's wire form.
    pub fn serialize(&self) -> (r: Vec<u8>)
        requires
            serializable(self@),
        ensures
            r@ == spec_serialize_contract(self@),
    {
        let mut buffer = Vec::new();
        self.serialize_into(&mut buffer);
        proof {
            assert(buffer@ =~= spec_serialize_contract(self@));
        }
        buffer
    }

    /// Whether this message can be put on the wire; see [`serializable`].
    pub fn check_serializable(&self) -> (b: bool)
        ensures
            b == serializable(self@),
    {
        match self {
            Self::Ping => true,
            Self::Pong => true,
            Self::Greeting { name } => name.as_str().as_bytes().len() <= 255,
            Self::Subscribe { table_name } => table_name.as_str().as_bytes().len() <= 255,
            Self::InitTable { table_name, data } => table_name.as_str().as_bytes().len() <= 255
                && data.len() <= MAX_I32_LEN,
            Self::InitPartition { table_name, partition_key, data } => table_name.as_str().as_bytes().len()
                <= 255 && partition_key.as_str().as_bytes().len() <= 255 && data.len() <= MAX_I32_LEN,
            Self::UpdateRows { table_name, data } => table_name.as_str().as_bytes().len() <= 255 && data.len()
                <= MAX_I32_LEN,
            Self::DeleteRows { table_name, rows } => table_name.as_str().as_bytes().len() <= 255 && rows.len()
                <= MAX_I32_LEN && all_delete_rows_fit(rows),
            Self::Error { message } => message.as_str().as_bytes().len() <= 255,
            Self::GreetingFromNode { node_location, node_version, compress: _ } => {
                node_location.as_str().as_bytes().len() <= 255 && node_version.as_str().as_bytes().len() <= 255
            },
            Self::SubscribeAsNode(table_name) => table_name.as_str().as_bytes().len() <= 255,
            Self::Unsubscribe(table_name) => table_name.as_str().as_bytes().len() <= 255,
            Self::TableNotFound(table_name) => table_name.as_str().as_bytes().len() <= 255,
            Self::CompressedPayload(data) => data.len() <= MAX_I32_LEN,
            Self::UpdatePartitionsLastReadTime { confirmation_id: _, table_name, partitions } => {
                table_name.as_str().as_bytes().len() <= 255 && partitions.len() <= MAX_I32_LEN
                    && all_pascal_strings_fit(partitions)
            },
            Self::UpdateRowsLastReadTime {
                confirmation_id: _,
                table_name,
                partition_key,
                row_keys,
            } => table_name.as_str().as_bytes().len() <= 255 && partition_key.as_str().as_bytes().len() <= 255
                && row_keys.len() <= MAX_I32_LEN && all_pascal_strings_fit(row_keys),
            Self::UpdatePartitionsExpirationTime {
                confirmation_id: _,
                table_name,
                partitions,
            } => table_name.as_str().as_bytes().len() <= 255 && partitions.len() <= MAX_I32_LEN
                && all_expiration_pairs_ok(partitions),
            Self::UpdateRowsExpirationTime {
                confirmation_id: _,
                table_name,
                partition_key,
                row_keys,
                expiration_time,
            } => table_name.as_str().as_bytes().len() <= 255 && partition_key.as_str().as_bytes().len() <= 255
                && row_keys.len() <= MAX_I32_LEN && all_pascal_strings_fit(row_keys) && match expiration_time {
                Some(t) => *t != 0,
                None => true,
            },
            Self::Confirmation { confirmation_id: _ } => true,
        }
    }

    /// This message's wire form, or `None` where the message cannot be put on
    /// the wire (a string over 255 UTF-8 bytes, an oversized list, or an
    /// instant of 0).
    pub fn try_serialize(&self) -> (r: Option<Vec<u8>>)
        ensures
            match r {
                Some(bytes) => serializable(self@) && bytes@ == spec_serialize_contract(self@),
                None => !serializable(self@),
            },
    {
        if self.check_serializable() {
            Some(self.serialize())
        } else {
            None
        }
    }

    /// Serializes this message, switching to the compressed envelope exactly
    /// where the packed payload undercuts the plain form by more than the
    /// envelope's worst-case overhead of 10 bytes. `None` reports a failure
    /// of the compression codec, which is unexpected, fatal for this payload,
    /// and owed not to happen for any wire form up to
    /// [`crate::payload_compressor::COMPRESS_GUARANTEED_LEN`] bytes.
    ///
    /// Together with [`MyNoSqlTcpContract::decompress_if_compressed`] this
    /// gives compression transparency: whichever form is chosen decodes back
    /// to this message.
    pub fn compress_if_make_sence_and_serialize(&self) -> (r: Option<Vec<u8>>)
        requires
            serializable(self@),
            !(self@ is CompressedPayload),
        ensures
            spec_serialize_contract(self@).len() <= crate::payload_compressor::COMPRESS_GUARANTEED_LEN
                ==> r is Some,
            r matches Some(bytes) ==> {
                let plain = spec_serialize_contract(self@);
                let packed = zip_pack_of(plain);
                &&& zip_unpack_of(packed) == Some(plain)
                &&& bytes@ == if packed.len() + 10 < plain.len() && packed.len() <= i32::MAX {
                    spec_serialize_contract(TcpContractView::CompressedPayload(packed))
                } else {
                    plain
                }
            },
    {
        let non_compressed = self.serialize();
        match crate::payload_compressor::compress(non_compressed.as_slice()) {
            Ok(compressed) => Some(pick_smaller_wire_form(non_compressed, compressed)),
            Err(_) => None,
        }
    }

    /// Unwraps a compressed envelope: decompresses its payload and parses the
    /// message inside; any other message is returned unchanged. Callers must
    /// apply this right after [`MyNoSqlTcpContract::deserialize`], before
    /// inspecting variant contents.
    pub fn decompress_if_compressed(self) -> (r: Result<Self, ReadingTcpContractFail>)
        ensures
            !(self@ is CompressedPayload) ==> r == Ok::<Self, ReadingTcpContractFail>(self),
            self@ matches TcpContractView::CompressedPayload(payload) ==> match zip_unpack_of(
                payload,
            ) {
                Some(inner) => parse_outcome_matches(inner, r),
                None => r == Err::<Self, _>(ReadingTcpContractFail::DecompressionFailed),
            },
    {
        match self {
            Self::CompressedPayload(payload) => {
                match crate::payload_compressor::decompress(payload.as_slice()) {
                    Ok(uncompressed) => {
                        let mut reader = ByteReader::new(uncompressed);
                        Self::deserialize(&mut reader)
                    },
                    Err(_) => Err(ReadingTcpContractFail::DecompressionFailed),
                }
            },
            other => Ok(other),
        }
    }

    /// Whether this message is the keep-alive answer.
    pub fn is_pong(&self) -> (r: bool)
        ensures
            r == (self@ is Pong),
    {
        match self {
            Self::Pong => true,
            _ => false,
        }
    }
}

/// The largest length that fits an `i32` count or length prefix.
pub const MAX_I32_LEN: usize = 0x7fff_ffff;

/// Whether every row of the list fits its pascal strings.
fn all_delete_rows_fit(rows: &Vec<DeleteRowTcpContract>) -> (b: bool)
    ensures
        b == (forall|i: int|
            0 <= i < rows.deep_view().len() ==> delete_row_fits(#[trigger] rows.deep_view()[i])),
{
    let n = rows.len();
    for i in 0..n
        invariant
            n == rows@.len(),
            forall|k: int| 0 <= k < i ==> delete_row_fits(#[trigger] rows.deep_view()[k]),
    {
        if rows[i].partition_key.as_str().as_bytes().len() > 255 || rows[i].row_key.as_str().as_bytes().len() > 255 {
            proof {
                assert(!delete_row_fits(rows.deep_view()[i as int]));
            }
            return false;
        }
        proof {
            assert(delete_row_fits(rows.deep_view()[i as int]));
        }
    }
    true
}

/// Whether every string of the list fits its length byte.
fn all_pascal_strings_fit(v: &Vec<String>) -> (b: bool)
    ensures
        b == (forall|i: int|
            0 <= i < v.deep_view().len() ==> pascal_string_fits(#[trigger] v.deep_view()[i])),
{
    let n = v.len();
    for i in 0..n
        invariant
            n == v@.len(),
            forall|k: int| 0 <= k < i ==> pascal_string_fits(#[trigger] v.deep_view()[k]),
    {
        if v[i].as_str().as_bytes().len() > 255 {
            proof {
                assert(!pascal_string_fits(v.deep_view()[i as int]));
            }
            return false;
        }
        proof {
            assert(pascal_string_fits(v.deep_view()[i as int]));
        }
    }
    true
}

/// Whether every pair of the list has a fitting key and a nonzero instant.
fn all_expiration_pairs_ok(v: &Vec<(String, Option<i64>)>) -> (b: bool)
    ensures
        b == ((forall|i: int|
            0 <= i < v.deep_view().len() ==> pascal_string_fits(
                (#[trigger] v.deep_view()[i]).0,
            )) && (forall|i: int|
            0 <= i < v.deep_view().len() ==> ((#[trigger] v.deep_view()[i]).1 matches Some(t)
                ==> t != 0))),
{
    let n = v.len();
    for i in 0..n
        invariant
            n == v@.len(),
            forall|k: int| 0 <= k < i ==> pascal_string_fits((#[trigger] v.deep_view()[k]).0),
            forall|k: int|
                0 <= k < i ==> ((#[trigger] v.deep_view()[k]).1 matches Some(t) ==> t != 0),
    {
        proof {
            let p = v@[i as int];
            match p.1 {
                Some(t) => {
                    assert(v.deep_view()[i as int] == (p.0@, p.1));
                },
                None => {
                    assert(v.deep_view()[i as int] == (p.0@, p.1));
                },
            }
        }
        if v[i].0.as_str().as_bytes().len() > 255 {
            proof {
                assert(!pascal_string_fits(v.deep_view()[i as int].0));
            }
            return false;
        }
        match v[i].1 {
            Some(t) => {
                if t == 0 {
                    proof {
                        assert(v.deep_view()[i as int].1 == Some(0i64));
                    }
                    return false;
                }
            },
            None => {},
        }
        proof {
            assert(pascal_string_fits((v.deep_view()[i as int]).0));
            assert((v.deep_view()[i as int]).1 matches Some(t) ==> t != 0);
        }
    }
    true
}

/// Picks the wire form to send: the compressed envelope only where the
/// packed payload undercuts the plain form by more than the envelope's own
/// worst-case overhead of 10 bytes (and fits the envelope's length prefix);
/// otherwise the plain form, so compression is never a net loss beyond that
/// fixed margin.
pub fn pick_smaller_wire_form(non_compressed: Vec<u8>, compressed: Vec<u8>) -> (r: Vec<u8>)
    ensures
        r@ == if compressed@.len() + 10 < non_compressed@.len() && compressed@.len() <= i32::MAX {
            spec_serialize_contract(TcpContractView::CompressedPayload(compressed@))
        } else {
            non_compressed@
        },
{
    if compressed.len() <= MAX_I32_LEN && compressed.len() + 10 < non_compressed.len() {
        MyNoSqlTcpContract::CompressedPayload(compressed).serialize()
    } else {
        non_compressed
    }
}

/// The outcome that [`MyNoSqlTcpContract::deserialize`] exposes on `bytes`.
pub open spec fn parse_outcome_matches(
    bytes: Seq<u8>,
    r: Result<MyNoSqlTcpContract, ReadingTcpContractFail>,
) -> bool {
    match spec_parse_contract(bytes) {
        Ok((v, _)) => r matches Ok(c) && c@ == v,
        Err(f) => r matches Err(e) && e@ == f,
    }
}

/// Compression transparency: a message that was serialized and packed into a
/// compressed envelope is recovered exactly by parsing the envelope,
/// unpacking its payload, and parsing again. The hypothesis on
/// [`zip_unpack_of`] is what [`compress`](crate::payload_compressor::compress)
/// guarantees of every payload it packs.
pub proof fn lemma_compression_transparency(v: TcpContractView, packed: Seq<u8>)
    requires
        serializable(v),
        !(v is Error),
        zip_unpack_of(packed) == Some(spec_serialize_contract(v)),
        packed.len() <= i32::MAX,
    ensures
        ({
            let env = spec_serialize_contract(TcpContractView::CompressedPayload(packed));
            &&& spec_parse_contract(env) == Ok::<_, ReadFailView>((
                TcpContractView::CompressedPayload(packed),
                env.len() as int,
            ))
            &&& spec_parse_contract(spec_serialize_contract(v)) == Ok::<_, ReadFailView>((
                v,
                spec_serialize_contract(v).len() as int,
            ))
        }),
{
    let env = spec_serialize_contract(TcpContractView::CompressedPayload(packed));
    lemma_parse_serialize_contract(TcpContractView::CompressedPayload(packed), Seq::empty());
    assert(env + Seq::<u8>::empty() =~= env);
    let plain = spec_serialize_contract(v);
    lemma_parse_serialize_contract(v, Seq::empty());
    assert(plain + Seq::<u8>::empty() =~= plain);
}

} // verus!
