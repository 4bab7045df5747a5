//! The per-row element of the `DeleteRows` message: a partition key and a row
//! key, each carried as a pascal string.

use crate::common_deserializers::{
    spec_parse_pascal_string, ByteReader, ReadFailView, ReadingTcpContractFail,
    lemma_parse_serialize_pascal_string, read_pascal_string,
};
use crate::common_serializers::{
    pascal_string_fits, serialize_pascal_string, spec_serialize_pascal_string,
};
use vstd::prelude::*;

verus! {

#[derive(Debug, PartialEq)]
pub struct DeleteRowTcpContract {
    pub partition_key: String,
    pub row_key: String,
}

/// The spec-level shape of a [`DeleteRowTcpContract`].
#[verifier::ext_equal]
pub struct DeleteRowView {
    pub partition_key: Seq<char>,
    pub row_key: Seq<char>,
}

impl View for DeleteRowTcpContract {
    type V = DeleteRowView;

    open spec fn view(&self) -> DeleteRowView {
        DeleteRowView { partition_key: self.partition_key@, row_key: self.row_key@ }
    }
}

impl DeepView for DeleteRowTcpContract {
    type V = DeleteRowView;

    open spec fn deep_view(&self) -> DeleteRowView {
        self.view()
    }
}

pub open spec fn delete_row_fits(r: DeleteRowView) -> bool {
    pascal_string_fits(r.partition_key) && pascal_string_fits(r.row_key)
}

pub open spec fn spec_serialize_delete_row(r: DeleteRowView) -> Seq<u8> {
    spec_serialize_pascal_string(r.partition_key) + spec_serialize_pascal_string(r.row_key)
}

pub open spec fn spec_parse_delete_row(b: Seq<u8>) -> Result<(DeleteRowView, int), ReadFailView> {
    match spec_parse_pascal_string(b) {
        Ok((pk, n)) => match spec_parse_pascal_string(b.skip(n)) {
            Ok((rk, m)) => Ok((DeleteRowView { partition_key: pk, row_key: rk }, n + m)),
            Err(e) => Err(e),
        },
        Err(e) => Err(e),
    }
}

impl DeleteRowTcpContract {
    pub fn deserialize(socket_reader: &mut ByteReader) -> (r: Result<
        Self,
        ReadingTcpContractFail,
    >)
        requires
            old(socket_reader).wf(),
        ensures
            final(socket_reader).wf(),
            match r {
                Ok(row) => spec_parse_delete_row(old(socket_reader).remaining()) matches Ok(
                    (rv, n),
                ) && row@ == rv && final(socket_reader).remaining() == old(
                    socket_reader,
                ).remaining().skip(n),
                Err(e) => spec_parse_delete_row(old(socket_reader).remaining()) == Err::<
                    (DeleteRowView, int),
                    _,
                >(e@),
            },
    {
        let ghost rem0 = socket_reader.remaining();
        let partition_key = match read_pascal_string(socket_reader) {
            Ok(s) => s,
            Err(e) => {
                return Err(e);
            },
        };
        let row_key = match read_pascal_string(socket_reader) {
            Ok(s) => s,
            Err(e) => {
                return Err(e);
            },
        };
        proof {
            let (pk, n) = spec_parse_pascal_string(rem0)->Ok_0;
            let (rk, m) = spec_parse_pascal_string(rem0.skip(n))->Ok_0;
            vstd::seq_lib::lemma_seq_skip_of_skip(rem0, n, m);
        }
        Ok(Self { partition_key, row_key })
    }

    pub fn serialize(&self, buffer: &mut Vec<u8>)
        requires
            delete_row_fits(self@),
        ensures
            final(buffer)@ == old(buffer)@ + spec_serialize_delete_row(self@),
    {
        serialize_pascal_string(buffer, self.partition_key.as_str());
        serialize_pascal_string(buffer, self.row_key.as_str());
        proof {
            assert(buffer@ =~= old(buffer)@ + spec_serialize_delete_row(self@));
        }
    }
}

/// Parsing inverts serialization for a single row element.
pub proof fn lemma_parse_serialize_delete_row(r: DeleteRowView, rest: Seq<u8>)
    requires
        delete_row_fits(r),
    ensures
        spec_parse_delete_row(spec_serialize_delete_row(r) + rest) == Ok::<_, ReadFailView>(
            (r, spec_serialize_delete_row(r).len() as int),
        ),
{
    let pb = spec_serialize_pascal_string(r.partition_key);
    let rb = spec_serialize_pascal_string(r.row_key);
    let b = spec_serialize_delete_row(r) + rest;
    assert(b =~= pb + (rb + rest));
    lemma_parse_serialize_pascal_string(r.partition_key, rb + rest);
    assert(b.skip(pb.len() as int) =~= rb + rest);
    lemma_parse_serialize_pascal_string(r.row_key, rest);
    assert(spec_parse_delete_row(b)->Ok_0.0 =~= r);
}

} // verus!
