//! Message-kind discriminators of the wire protocol.
//!
//! Each value is the single tag byte that opens the serialized form of one
//! message variant. The numbering is a fixed external contract shared with the
//! peer implementation and must not be changed.

use vstd::prelude::*;

verus! {

pub const PING: u8 = 0;

pub const PONG: u8 = 1;

pub const GREETING: u8 = 2;

pub const SUBSCRIBE: u8 = 3;

pub const INIT_TABLE: u8 = 4;

pub const INIT_PARTITION: u8 = 5;

pub const UPDATE_ROWS: u8 = 6;

pub const DELETE_ROWS: u8 = 7;

pub const ERROR: u8 = 8;

pub const GREETING_FROM_NODE: u8 = 9;

pub const SUBSCRIBE_AS_NODE: u8 = 10;

pub const TABLES_NOT_FOUND: u8 = 11;

pub const UNSUBSCRIBE: u8 = 12;

pub const COMPRESSED_PAYLOAD: u8 = 13;

pub const UPDATE_PARTITIONS_LAST_READ_TIME: u8 = 14;

pub const UPDATE_ROWS_LAST_READ_TIME: u8 = 15;

pub const UPDATE_PARTITIONS_EXPIRATION_TIME: u8 = 16;

pub const UPDATE_ROWS_EXPIRATION_TIME: u8 = 17;

pub const CONFIRMATION: u8 = 18;

} // verus!
