//! The serializer a reader node plugs into its TCP session: it turns
//! [`MyNoSqlTcpContract`] values into wire bytes and back and supplies the
//! keep-alive message.

use crate::common_deserializers::{ByteReader, ReadingTcpContractFail, ReadFailView};
use crate::tcp_contracts::{
    parse_outcome_matches, serializable, spec_parse_contract, spec_serialize_contract,
    MyNoSqlTcpContract, TcpContractView,
};
use vstd::prelude::*;

verus! {

pub struct MyNoSqlReaderTcpSerializer {}

impl MyNoSqlReaderTcpSerializer {
    pub fn new() -> Self {
        Self {  }
    }

    pub fn serialize(&self, contract: MyNoSqlTcpContract) -> (r: Vec<u8>)
        requires
            serializable(contract@),
        ensures
            r@ == spec_serialize_contract(contract@),
    {
        contract.serialize()
    }

    pub fn serialize_ref(&self, contract: &MyNoSqlTcpContract) -> (r: Vec<u8>)
        requires
            serializable(contract@),
        ensures
            r@ == spec_serialize_contract(contract@),
    {
        contract.serialize()
    }

    /// The keep-alive probe to send on an idle connection.
    pub fn get_ping(&self) -> (r: MyNoSqlTcpContract)
        ensures
            r@ is Ping,
    {
        MyNoSqlTcpContract::Ping
    }

    /// No incoming packet changes this serializer's state.
    pub fn apply_packet(&mut self, _contract: &MyNoSqlTcpContract) -> (r: bool)
        ensures
            r == false,
    {
        false
    }

    pub fn deserialize(&mut self, socket_reader: &mut ByteReader) -> (r: Result<
        MyNoSqlTcpContract,
        ReadingTcpContractFail,
    >)
        requires
            old(socket_reader).wf(),
        ensures
            final(socket_reader).wf(),
            parse_outcome_matches(old(socket_reader).remaining(), r),
    {
        MyNoSqlTcpContract::deserialize(socket_reader)
    }
}

} // verus!
