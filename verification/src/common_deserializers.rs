//! Decoding of the protocol's primitives from an in-memory byte stream.
//!
//! [`ByteReader`] consumes bytes front to back; every exec reader is specified
//! against a spec-level parse function over the reader's remaining bytes. Each
//! parse function returns the decoded value together with the exact number of
//! bytes it consumes, or the precise failure. The lemmas at the end show that
//! each parse function inverts the corresponding encoding of
//! [`crate::common_serializers`], which is the primitive half of the protocol's
//! round-trip law.

use crate::common_serializers::{
    pascal_string_fits, spec_serialize_bool, spec_serialize_byte, spec_serialize_byte_array,
    spec_serialize_date_time_opt, spec_serialize_i32, spec_serialize_i64,
    spec_serialize_list_of_pascal_strings, spec_serialize_pascal_string,
    spec_serialize_pascal_strings_flat,
};
use vstd::bytes::{
    lemma_auto_spec_u32_to_from_le_bytes, lemma_auto_spec_u64_to_from_le_bytes,
    spec_u32_from_le_bytes, spec_u64_from_le_bytes, u32_from_le_bytes, u64_from_le_bytes,
};
use vstd::prelude::*;
use vstd::utf8::{decode_utf8, encode_utf8, encode_utf8_decode_utf8, encode_utf8_valid_utf8, valid_utf8};

verus! {

/// Why reading a contract from the byte stream failed.
///
/// The first three variants are recoverable at the connection layer: the input
/// was truncated, held malformed UTF-8, or opened with a tag byte that is not
/// part of the contract. The next two report fatal protocol violations: the
/// peer sent its error message, or a version byte the decoder does not
/// understand. The last one reports a failure of the compression codec while
/// unwrapping a compressed envelope.
#[derive(Debug, PartialEq)]
pub enum ReadingTcpContractFail {
    UnexpectedEndOfStream,
    InvalidUtf8,
    InvalidPacketId(u8),
    UnsupportedProtocolVersion { packet_id: u8, version: u8 },
    ErrorPacketReceived(String),
    DecompressionFailed,
}

/// The spec-level shape of a [`ReadingTcpContractFail`].
#[verifier::ext_equal]
pub enum ReadFailView {
    UnexpectedEndOfStream,
    InvalidUtf8,
    InvalidPacketId(u8),
    UnsupportedProtocolVersion { packet_id: u8, version: u8 },
    ErrorPacketReceived(Seq<char>),
    DecompressionFailed,
}

impl View for ReadingTcpContractFail {
    type V = ReadFailView;

    open spec fn view(&self) -> ReadFailView {
        match self {
            ReadingTcpContractFail::UnexpectedEndOfStream => ReadFailView::UnexpectedEndOfStream,
            ReadingTcpContractFail::InvalidUtf8 => ReadFailView::InvalidUtf8,
            ReadingTcpContractFail::InvalidPacketId(tag) => ReadFailView::InvalidPacketId(*tag),
            ReadingTcpContractFail::UnsupportedProtocolVersion { packet_id, version } => {
                ReadFailView::UnsupportedProtocolVersion {
                    packet_id: *packet_id,
                    version: *version,
                }
            },
            ReadingTcpContractFail::ErrorPacketReceived(message) => {
                ReadFailView::ErrorPacketReceived(message@)
            },
            ReadingTcpContractFail::DecompressionFailed => ReadFailView::DecompressionFailed,
        }
    }
}

pub open spec fn spec_parse_byte(b: Seq<u8>) -> Result<(u8, int), ReadFailView> {
    if b.len() >= 1 {
        Ok((b[0], 1int))
    } else {
        Err(ReadFailView::UnexpectedEndOfStream)
    }
}

pub open spec fn spec_parse_bool(b: Seq<u8>) -> Result<(bool, int), ReadFailView> {
    match spec_parse_byte(b) {
        Ok((v, n)) => Ok((v != 0, n)),
        Err(e) => Err(e),
    }
}

pub open spec fn spec_parse_i32(b: Seq<u8>) -> Result<(i32, int), ReadFailView> {
    if b.len() >= 4 {
        Ok((spec_u32_from_le_bytes(b.take(4)) as i32, 4int))
    } else {
        Err(ReadFailView::UnexpectedEndOfStream)
    }
}

pub open spec fn spec_parse_i64(b: Seq<u8>) -> Result<(i64, int), ReadFailView> {
    if b.len() >= 8 {
        Ok((spec_u64_from_le_bytes(b.take(8)) as i64, 8int))
    } else {
        Err(ReadFailView::UnexpectedEndOfStream)
    }
}

/// An instant of 0 microseconds decodes to "absent".
pub open spec fn spec_parse_date_time_opt(b: Seq<u8>) -> Result<(Option<i64>, int), ReadFailView> {
    match spec_parse_i64(b) {
        Ok((v, n)) => Ok((if v == 0 { None } else { Some(v) }, n)),
        Err(e) => Err(e),
    }
}

pub open spec fn spec_parse_pascal_string(b: Seq<u8>) -> Result<(Seq<char>, int), ReadFailView> {
    if b.len() < 1 {
        Err(ReadFailView::UnexpectedEndOfStream)
    } else {
        let n = b[0] as int;
        if b.len() < 1 + n {
            Err(ReadFailView::UnexpectedEndOfStream)
        } else {
            let content = b.subrange(1, 1 + n);
            if valid_utf8(content) {
                Ok((decode_utf8(content), 1 + n))
            } else {
                Err(ReadFailView::InvalidUtf8)
            }
        }
    }
}

pub open spec fn spec_parse_byte_array(b: Seq<u8>) -> Result<(Seq<u8>, int), ReadFailView> {
    match spec_parse_i32(b) {
        Ok((k, _)) => {
            if k < 0 || b.len() < 4 + k {
                Err(ReadFailView::UnexpectedEndOfStream)
            } else {
                Ok((b.subrange(4, 4 + k), 4 + k))
            }
        },
        Err(e) => Err(e),
    }
}

/// Parses exactly `count` consecutive pascal strings.
pub open spec fn spec_parse_pascal_strings_n(b: Seq<u8>, count: nat) -> Result<
    (Seq<Seq<char>>, int),
    ReadFailView,
>
    decreases count,
{
    if count == 0 {
        Ok((Seq::empty(), 0int))
    } else {
        match spec_parse_pascal_string(b) {
            Ok((s, n)) => match spec_parse_pascal_strings_n(b.skip(n), (count - 1) as nat) {
                Ok((l, m)) => Ok((seq![s] + l, n + m)),
                Err(e) => Err(e),
            },
            Err(e) => Err(e),
        }
    }
}

pub open spec fn spec_parse_list_of_pascal_strings(b: Seq<u8>) -> Result<
    (Seq<Seq<char>>, int),
    ReadFailView,
> {
    match spec_parse_i32(b) {
        Ok((k, _)) => match spec_parse_pascal_strings_n(b.skip(4), k as usize as nat) {
            Ok((l, m)) => Ok((l, 4 + m)),
            Err(e) => Err(e),
        },
        Err(e) => Err(e),
    }
}

/// Relies on `String::from_utf8`: it succeeds exactly on valid UTF-8 input and
/// returns the string whose characters are the decoding of those bytes.
#[verifier::external_body]
fn string_from_utf8(bytes: Vec<u8>) -> (r: Option<String>)
    ensures
        match r {
            Some(s) => valid_utf8(bytes@) && s@ == decode_utf8(bytes@),
            None => !valid_utf8(bytes@),
        },
{
    String::from_utf8(bytes).ok()
}

/// A byte stream that is consumed front to back.
///
/// This is the in-memory reader behind every decode path: a connection's
/// framing layer hands the received bytes to [`ByteReader::new`] and the
/// contract decoders consume them.
pub struct ByteReader {
    data: Vec<u8>,
    pos: usize,
}

impl ByteReader {
    pub closed spec fn wf(self) -> bool {
        self.pos <= self.data@.len()
    }

    /// The bytes not yet consumed.
    pub closed spec fn remaining(self) -> Seq<u8> {
        self.data@.skip(self.pos as int)
    }

    pub fn new(data: Vec<u8>) -> (r: Self)
        ensures
            r.wf(),
            r.remaining() == data@,
    {
        let r = ByteReader { data, pos: 0 };
        proof {
            assert(r.remaining() =~= r.data@);
        }
        r
    }

    pub fn read_byte(&mut self) -> (r: Result<u8, ReadingTcpContractFail>)
        requires
            old(self).wf(),
        ensures
            final(self).wf(),
            match r {
                Ok(v) => spec_parse_byte(old(self).remaining()) == Ok::<_, ReadFailView>((
                    v,
                    1int,
                )) && final(self).remaining() == old(self).remaining().skip(1),
                Err(e) => spec_parse_byte(old(self).remaining()) == Err::<(u8, int), _>(e@)
                    && final(self).remaining() == old(self).remaining(),
            },
    {
        if self.pos < self.data.len() {
            let v = self.data[self.pos];
            self.pos = self.pos + 1;
            proof {
                assert(old(self).remaining()[0] == v);
                assert(self.remaining() =~= old(self).remaining().skip(1));
            }
            Ok(v)
        } else {
            proof {
                assert(old(self).remaining().len() == 0);
            }
            Err(ReadingTcpContractFail::UnexpectedEndOfStream)
        }
    }

    /// Reads exactly `n` bytes, or fails without consuming anything.
    pub fn read_bytes(&mut self, n: usize) -> (r: Result<Vec<u8>, ReadingTcpContractFail>)
        requires
            old(self).wf(),
        ensures
            final(self).wf(),
            match r {
                Ok(v) => old(self).remaining().len() >= n && v@ == old(self).remaining().take(
                    n as int,
                ) && final(self).remaining() == old(self).remaining().skip(n as int),
                Err(e) => old(self).remaining().len() < n && e@
                    == ReadFailView::UnexpectedEndOfStream && final(self).remaining() == old(
                    self,
                ).remaining(),
            },
    {
        if n <= self.data.len() - self.pos {
            let mut out: Vec<u8> = Vec::new();
            let mut i: usize = 0;
            while i < n
                invariant
                    self.data@ == old(self).data@,
                    self.pos == old(self).pos,
                    self.wf(),
                    i <= n,
                    self.pos + n <= self.data@.len(),
                    self.data@.len() <= usize::MAX,
                    out@ == self.remaining().take(i as int),
                decreases n - i,
            {
                let b = self.data[self.pos + i];
                out.push(b);
                proof {
                    assert(self.remaining()[i as int] == b);
                    assert(out@ =~= self.remaining().take(i + 1));
                }
                i = i + 1;
            }
            self.pos = self.pos + n;
            proof {
                assert(self.remaining() =~= old(self).remaining().skip(n as int));
            }
            Ok(out)
        } else {
            Err(ReadingTcpContractFail::UnexpectedEndOfStream)
        }
    }

    pub fn read_bool(&mut self) -> (r: Result<bool, ReadingTcpContractFail>)
        requires
            old(self).wf(),
        ensures
            final(self).wf(),
            match r {
                Ok(v) => spec_parse_bool(old(self).remaining()) == Ok::<_, ReadFailView>((
                    v,
                    1int,
                )) && final(self).remaining() == old(self).remaining().skip(1),
                Err(e) => spec_parse_bool(old(self).remaining()) == Err::<(bool, int), _>(e@)
                    && final(self).remaining() == old(self).remaining(),
            },
    {
        match self.read_byte() {
            Ok(v) => Ok(v != 0),
            Err(e) => Err(e),
        }
    }

    pub fn read_i32(&mut self) -> (r: Result<i32, ReadingTcpContractFail>)
        requires
            old(self).wf(),
        ensures
            final(self).wf(),
            match r {
                Ok(v) => spec_parse_i32(old(self).remaining()) == Ok::<_, ReadFailView>((
                    v,
                    4int,
                )) && final(self).remaining() == old(self).remaining().skip(4),
                Err(e) => spec_parse_i32(old(self).remaining()) == Err::<(i32, int), _>(e@)
                    && final(self).remaining() == old(self).remaining(),
            },
    {
        match self.read_bytes(4) {
            Ok(bytes) => {
                let v = u32_from_le_bytes(bytes.as_slice());
                Ok(
                    #[verifier::truncate]
                    (v as i32),
                )
            },
            Err(e) => Err(e),
        }
    }

    pub fn read_i64(&mut self) -> (r: Result<i64, ReadingTcpContractFail>)
        requires
            old(self).wf(),
        ensures
            final(self).wf(),
            match r {
                Ok(v) => spec_parse_i64(old(self).remaining()) == Ok::<_, ReadFailView>((
                    v,
                    8int,
                )) && final(self).remaining() == old(self).remaining().skip(8),
                Err(e) => spec_parse_i64(old(self).remaining()) == Err::<(i64, int), _>(e@)
                    && final(self).remaining() == old(self).remaining(),
            },
    {
        match self.read_bytes(8) {
            Ok(bytes) => {
                let v = u64_from_le_bytes(bytes.as_slice());
                Ok(
                    #[verifier::truncate]
                    (v as i64),
                )
            },
            Err(e) => Err(e),
        }
    }

    /// Reads an `i32` length prefix followed by that many raw bytes.
    pub fn read_byte_array(&mut self) -> (r: Result<Vec<u8>, ReadingTcpContractFail>)
        requires
            old(self).wf(),
        ensures
            final(self).wf(),
            match r {
                Ok(v) => spec_parse_byte_array(old(self).remaining()) matches Ok((bv, n)) && v@
                    == bv && final(self).remaining() == old(self).remaining().skip(n),
                Err(e) => spec_parse_byte_array(old(self).remaining()) == Err::<(Seq<u8>, int), _>(
                    e@,
                ),
            },
    {
        let ghost rem0 = self.remaining();
        match self.read_i32() {
            Ok(k) => {
                if k < 0 {
                    return Err(ReadingTcpContractFail::UnexpectedEndOfStream);
                }
                match self.read_bytes(k as usize) {
                    Ok(v) => {
                        proof {
                            assert(v@ =~= rem0.subrange(4, 4 + k as int));
                            assert(self.remaining() =~= rem0.skip(4 + k as int));
                        }
                        Ok(v)
                    },
                    Err(e) => Err(e),
                }
            },
            Err(e) => Err(e),
        }
    }
}

/// Reads one pascal string: a length byte followed by that many UTF-8 bytes.
pub fn read_pascal_string(reader: &mut ByteReader) -> (r: Result<String, ReadingTcpContractFail>)
    requires
        old(reader).wf(),
    ensures
        final(reader).wf(),
        match r {
            Ok(s) => spec_parse_pascal_string(old(reader).remaining()) matches Ok((sv, n)) && s@
                == sv && final(reader).remaining() == old(reader).remaining().skip(n),
            Err(e) => spec_parse_pascal_string(old(reader).remaining()) == Err::<
                (Seq<char>, int),
                _,
            >(e@),
        },
{
    let ghost rem0 = reader.remaining();
    match reader.read_byte() {
        Ok(size) => {
            match reader.read_bytes(size as usize) {
                Ok(content) => {
                    proof {
                        assert(content@ =~= rem0.subrange(1, 1 + size as int));
                    }
                    match string_from_utf8(content) {
                        Some(s) => {
                            proof {
                                assert(reader.remaining() =~= rem0.skip(1 + size as int));
                            }
                            Ok(s)
                        },
                        None => Err(ReadingTcpContractFail::InvalidUtf8),
                    }
                },
                Err(e) => Err(e),
            }
        },
        Err(e) => Err(e),
    }
}

/// Reads an `i32` count followed by that many pascal strings.
#[verifier::loop_isolation(false)]
pub fn read_list_of_pascal_strings(reader: &mut ByteReader) -> (r: Result<
    Vec<String>,
    ReadingTcpContractFail,
>)
    requires
        old(reader).wf(),
    ensures
        final(reader).wf(),
        match r {
            Ok(v) => spec_parse_list_of_pascal_strings(old(reader).remaining()) matches Ok(
                (l, n),
            ) && v.deep_view() == l && 0 <= n <= old(reader).remaining().len() && final(reader).remaining() == old(reader).remaining().skip(n),
            Err(e) => spec_parse_list_of_pascal_strings(old(reader).remaining()) == Err::<
                (Seq<Seq<char>>, int),
                _,
            >(e@),
        },
{
    let ghost rem0 = reader.remaining();
    match reader.read_i32() {
        Ok(k) => {
            let amount =
                #[verifier::truncate]
                (k as usize);
            let ghost rem_list = reader.remaining();
            let mut out: Vec<String> = Vec::new();
            let mut i: usize = 0;
            let ghost mut consumed: int = 0;
            while i < amount
                invariant
                    reader.wf(),
                    i <= amount,
                    0 <= consumed <= rem_list.len(),
                    consumed == rem_list.len() - reader.remaining().len(),
                    rem_list.skip(consumed) == reader.remaining(),
                    out.deep_view().len() == i,
                    match spec_parse_pascal_strings_n(reader.remaining(), (amount - i) as nat) {
                        Ok((l2, m)) => spec_parse_pascal_strings_n(rem_list, amount as nat)
                            == Ok::<_, ReadFailView>((out.deep_view() + l2, consumed + m)),
                        Err(e) => spec_parse_pascal_strings_n(rem_list, amount as nat) == Err::<
                            (Seq<Seq<char>>, int),
                            _,
                        >(e),
                    },
                decreases amount - i,
            {
                let ghost rem_before = reader.remaining();
                let ghost out_before = out.deep_view();
                match read_pascal_string(reader) {
                    Ok(s) => {
                        out.push(s);
                        proof {
                            let (sv, n) = spec_parse_pascal_string(rem_before)->Ok_0;
                            assert(out.deep_view() =~= out_before.push(sv));
                            vstd::seq_lib::lemma_seq_skip_of_skip(rem_list, consumed, n);
                            assert(rem_list.skip(consumed + n) =~= reader.remaining());
                            consumed = consumed + n;
                            match spec_parse_pascal_strings_n(
                                reader.remaining(),
                                (amount - i - 1) as nat,
                            ) {
                                Ok((l2, m)) => {
                                    assert(out_before.push(sv) + l2 =~= out_before + (seq![sv]
                                        + l2));
                                },
                                Err(e) => {},
                            }
                        }
                        i = i + 1;
                    },
                    Err(e) => {
                        proof {
                            assert(spec_parse_pascal_strings_n(rem_before, (amount - i) as nat)
                                == Err::<(Seq<Seq<char>>, int), _>(e@));
                        }
                        return Err(e);
                    },
                }
            }
            proof {
                assert(spec_parse_pascal_strings_n(reader.remaining(), 0nat) == Ok::<
                    _,
                    ReadFailView,
                >((Seq::<Seq<char>>::empty(), 0int)));
                assert(out.deep_view() + Seq::<Seq<char>>::empty() =~= out.deep_view());
                vstd::seq_lib::lemma_seq_skip_of_skip(rem0, 4, consumed);
                assert(reader.remaining() =~= rem0.skip(4 + consumed));
            }
            Ok(out)
        },
        Err(e) => Err(e),
    }
}

/// Reads an optional instant: 8 bytes of unix microseconds where 0 is absent.
pub fn read_date_time_opt(reader: &mut ByteReader) -> (r: Result<
    Option<i64>,
    ReadingTcpContractFail,
>)
    requires
        old(reader).wf(),
    ensures
        final(reader).wf(),
        match r {
            Ok(v) => spec_parse_date_time_opt(old(reader).remaining()) == Ok::<_, ReadFailView>((
                v,
                8int,
            )) && final(reader).remaining() == old(reader).remaining().skip(8),
            Err(e) => spec_parse_date_time_opt(old(reader).remaining()) == Err::<
                (Option<i64>, int),
                _,
            >(e@),
        },
{
    match reader.read_i64() {
        Ok(v) => Ok(if v == 0 { None } else { Some(v) }),
        Err(e) => Err(e),
    }
}

/// Each decoder inverts its encoder: the round-trip laws for the primitives.
pub proof fn lemma_parse_serialize_byte(v: u8, rest: Seq<u8>)
    ensures
        spec_parse_byte(spec_serialize_byte(v) + rest) == Ok::<_, ReadFailView>((
            v,
            1int,
        )),
{
}

pub proof fn lemma_parse_serialize_bool(v: bool, rest: Seq<u8>)
    ensures
        spec_parse_bool(spec_serialize_bool(v) + rest) == Ok::<_, ReadFailView>((
            v,
            1int,
        )),
{
}

pub proof fn lemma_parse_serialize_i32(v: i32, rest: Seq<u8>)
    ensures
        spec_parse_i32(spec_serialize_i32(v) + rest) == Ok::<_, ReadFailView>((v, 4int)),
{
    lemma_auto_spec_u32_to_from_le_bytes();
    assert((spec_serialize_i32(v) + rest).take(4) =~= spec_serialize_i32(v));
    assert((v as u32) as i32 == v) by (bit_vector);
}

pub proof fn lemma_parse_serialize_i64(v: i64, rest: Seq<u8>)
    ensures
        spec_parse_i64(spec_serialize_i64(v) + rest) == Ok::<_, ReadFailView>((v, 8int)),
{
    lemma_auto_spec_u64_to_from_le_bytes();
    assert((spec_serialize_i64(v) + rest).take(8) =~= spec_serialize_i64(v));
    assert((v as u64) as i64 == v) by (bit_vector);
}

/// Present instants must be nonzero: microsecond 0 is the absence sentinel.
pub proof fn lemma_parse_serialize_date_time_opt(v: Option<i64>, rest: Seq<u8>)
    requires
        v matches Some(t) ==> t != 0,
    ensures
        spec_parse_date_time_opt(spec_serialize_date_time_opt(v) + rest) == Ok::<_, ReadFailView>(
            (v, 8int),
        ),
{
    match v {
        Some(t) => lemma_parse_serialize_i64(t, rest),
        None => lemma_parse_serialize_i64(0, rest),
    }
}

pub proof fn lemma_parse_serialize_pascal_string(s: Seq<char>, rest: Seq<u8>)
    requires
        pascal_string_fits(s),
    ensures
        spec_parse_pascal_string(spec_serialize_pascal_string(s) + rest) == Ok::<_, ReadFailView>(
            (s, spec_serialize_pascal_string(s).len() as int),
        ),
{
    let e = encode_utf8(s);
    let b = spec_serialize_pascal_string(s) + rest;
    assert(b[0] == e.len() as u8);
    assert(b.subrange(1, 1 + e.len() as int) =~= e);
    encode_utf8_valid_utf8(s);
    encode_utf8_decode_utf8(s);
}

pub proof fn lemma_parse_serialize_byte_array(a: Seq<u8>, rest: Seq<u8>)
    requires
        a.len() <= i32::MAX,
    ensures
        spec_parse_byte_array(spec_serialize_byte_array(a) + rest) == Ok::<_, ReadFailView>(
            (a, spec_serialize_byte_array(a).len() as int),
        ),
{
    lemma_auto_spec_u32_to_from_le_bytes();
    let b = spec_serialize_byte_array(a) + rest;
    lemma_parse_serialize_i32(a.len() as i32, a + rest);
    assert(b =~= spec_serialize_i32(a.len() as i32) + (a + rest));
    assert(b.take(4) =~= spec_serialize_i32(a.len() as i32).take(4));
    let k = a.len() as i32;
    assert(k as int == a.len() as int);
    assert(b.subrange(4, 4 + k as int) =~= a);
}

pub proof fn lemma_parse_serialize_pascal_strings_flat(l: Seq<Seq<char>>, rest: Seq<u8>)
    requires
        forall|i: int| 0 <= i < l.len() ==> pascal_string_fits(#[trigger] l[i]),
    ensures
        spec_parse_pascal_strings_n(spec_serialize_pascal_strings_flat(l) + rest, l.len())
            == Ok::<_, ReadFailView>((l, spec_serialize_pascal_strings_flat(l).len() as int)),
    decreases l.len(),
{
    if l.len() == 0 {
        assert(spec_serialize_pascal_strings_flat(l) + rest =~= rest);
        assert(l =~= Seq::<Seq<char>>::empty());
    } else {
        let head = l[0];
        let tail = l.drop_first();
        let hb = spec_serialize_pascal_string(head);
        let tb = spec_serialize_pascal_strings_flat(tail);
        let b = spec_serialize_pascal_strings_flat(l) + rest;
        assert(b =~= hb + (tb + rest));
        lemma_parse_serialize_pascal_string(head, tb + rest);
        assert(b.skip(hb.len() as int) =~= tb + rest);
        lemma_parse_serialize_pascal_strings_flat(tail, rest);
        assert(seq![head] + tail =~= l);
    }
}

pub proof fn lemma_parse_serialize_list_of_pascal_strings(l: Seq<Seq<char>>, rest: Seq<u8>)
    requires
        l.len() <= i32::MAX,
        forall|i: int| 0 <= i < l.len() ==> pascal_string_fits(#[trigger] l[i]),
    ensures
        spec_parse_list_of_pascal_strings(spec_serialize_list_of_pascal_strings(l) + rest)
            == Ok::<_, ReadFailView>((
            l,
            spec_serialize_list_of_pascal_strings(l).len() as int,
        )),
{
    lemma_auto_spec_u32_to_from_le_bytes();
    let flat = spec_serialize_pascal_strings_flat(l);
    let b = spec_serialize_list_of_pascal_strings(l) + rest;
    assert(b =~= spec_serialize_i32(l.len() as i32) + (flat + rest));
    lemma_parse_serialize_i32(l.len() as i32, flat + rest);
    assert(b.take(4) =~= spec_serialize_i32(l.len() as i32).take(4));
    assert(b.skip(4) =~= flat + rest);
    let k = l.len() as i32;
    assert(k as usize as nat == l.len());
    lemma_parse_serialize_pascal_strings_flat(l, rest);
}

} // verus!
