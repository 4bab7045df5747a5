//! Wire protocol and delivery coordination for synchronizing table, partition
//! and row statistics between a reader node and its main node.
//!
//! The crate has two halves:
//! - a compact binary TCP message format ([`tcp_contracts::MyNoSqlTcpContract`])
//!   with optional transparent compression, built on length- and tag-prefixed
//!   primitives, and
//! - a delivery subsystem ([`sync_to_main`]) that coalesces bursty statistics
//!   updates into batched, acknowledged deliveries with at-most-one-in-flight
//!   confirmation semantics.

pub mod common_deserializers;
pub mod common_serializers;
pub mod delete_row_tcp_contract;
pub mod payload_compressor;
pub mod sync_to_main;
pub mod tcp_contracts;
pub mod tcp_packets;
pub mod tcp_serializer;

pub use common_deserializers::{ByteReader, ReadingTcpContractFail};
pub use delete_row_tcp_contract::DeleteRowTcpContract;
pub use tcp_contracts::MyNoSqlTcpContract;
pub use tcp_serializer::MyNoSqlReaderTcpSerializer;

