//! Length- and tag-prefixed encoding of the protocol's primitives.
//!
//! Every exec function appends the encoding of one primitive to a byte buffer
//! and is specified against a spec-level encoding function. The spec functions
//! are the single source of truth for the wire layout:
//! - integers are little-endian two's complement,
//! - a pascal string is one length byte (0..=255) followed by that many UTF-8
//!   bytes,
//! - a byte array is an `i32` length followed by the raw bytes,
//! - a list is an `i32` count followed by the encoded elements,
//! - an optional instant is an `i64` of unix microseconds where 0 means
//!   "absent".

use vstd::bytes::{
    spec_u32_to_le_bytes, spec_u64_to_le_bytes, u32_to_le_bytes, u64_to_le_bytes,
};
use vstd::prelude::*;
use vstd::utf8::encode_utf8;

verus! {

pub open spec fn spec_serialize_byte(v: u8) -> Seq<u8> {
    seq![v]
}

pub open spec fn spec_serialize_bool(v: bool) -> Seq<u8> {
    seq![if v { 1u8 } else { 0u8 }]
}

pub open spec fn spec_serialize_i32(v: i32) -> Seq<u8> {
    spec_u32_to_le_bytes(v as u32)
}

pub open spec fn spec_serialize_i64(v: i64) -> Seq<u8> {
    spec_u64_to_le_bytes(v as u64)
}

/// The wire form of an optional instant: absent is encoded as microsecond 0.
pub open spec fn spec_serialize_date_time_opt(v: Option<i64>) -> Seq<u8> {
    match v {
        Some(t) => spec_serialize_i64(t),
        None => spec_serialize_i64(0),
    }
}

/// A string can be carried as a pascal string only while its UTF-8 form fits
/// the single length byte.
pub open spec fn pascal_string_fits(s: Seq<char>) -> bool {
    encode_utf8(s).len() <= 255
}

pub open spec fn spec_serialize_pascal_string(s: Seq<char>) -> Seq<u8> {
    seq![encode_utf8(s).len() as u8] + encode_utf8(s)
}

pub open spec fn spec_serialize_byte_array(b: Seq<u8>) -> Seq<u8> {
    spec_serialize_i32(b.len() as i32) + b
}

/// The encoded elements of a string list, without the leading count.
pub open spec fn spec_serialize_pascal_strings_flat(l: Seq<Seq<char>>) -> Seq<u8>
    decreases l.len(),
{
    if l.len() == 0 {
        Seq::empty()
    } else {
        spec_serialize_pascal_string(l[0]) + spec_serialize_pascal_strings_flat(l.drop_first())
    }
}

pub open spec fn spec_serialize_list_of_pascal_strings(l: Seq<Seq<char>>) -> Seq<u8> {
    spec_serialize_i32(l.len() as i32) + spec_serialize_pascal_strings_flat(l)
}

/// The encoded elements of a byte-array list, without the leading count.
pub open spec fn spec_serialize_arrays_flat(l: Seq<Seq<u8>>) -> Seq<u8>
    decreases l.len(),
{
    if l.len() == 0 {
        Seq::empty()
    } else {
        spec_serialize_byte_array(l[0]) + spec_serialize_arrays_flat(l.drop_first())
    }
}

pub open spec fn spec_serialize_list_of_arrays(l: Seq<Seq<u8>>) -> Seq<u8> {
    spec_serialize_i32(l.len() as i32) + spec_serialize_arrays_flat(l)
}

/// Extending an encoded prefix of a string list by one more element.
pub proof fn lemma_pascal_strings_flat_take_step(l: Seq<Seq<char>>, i: int)
    requires
        0 <= i < l.len(),
    ensures
        spec_serialize_pascal_strings_flat(l.take(i + 1)) == spec_serialize_pascal_strings_flat(
            l.take(i),
        ) + spec_serialize_pascal_string(l[i]),
    decreases i,
{
    if i == 0 {
        assert(l.take(1).drop_first() =~= l.take(0));
        assert(spec_serialize_pascal_strings_flat(l.take(0)) =~= Seq::<u8>::empty());
        assert(spec_serialize_pascal_strings_flat(l.take(1)) =~= spec_serialize_pascal_string(
            l[0],
        ));
    } else {
        let tail = l.drop_first();
        assert(l.take(i + 1).drop_first() =~= tail.take(i));
        assert(l.take(i).drop_first() =~= tail.take(i - 1));
        lemma_pascal_strings_flat_take_step(tail, i - 1);
        assert(l.take(i + 1)[0] =~= l[0]);
        assert(l.take(i)[0] =~= l[0]);
        assert(spec_serialize_pascal_strings_flat(l.take(i + 1)) == spec_serialize_pascal_string(
            l[0],
        ) + spec_serialize_pascal_strings_flat(tail.take(i)));
        assert(tail[i - 1] == l[i]);
    }
}

/// Extending an encoded prefix of a byte-array list by one more element.
pub proof fn lemma_arrays_flat_take_step(l: Seq<Seq<u8>>, i: int)
    requires
        0 <= i < l.len(),
    ensures
        spec_serialize_arrays_flat(l.take(i + 1)) == spec_serialize_arrays_flat(l.take(i))
            + spec_serialize_byte_array(l[i]),
    decreases i,
{
    if i == 0 {
        assert(l.take(1).drop_first() =~= l.take(0));
        assert(spec_serialize_arrays_flat(l.take(0)) =~= Seq::<u8>::empty());
        assert(spec_serialize_arrays_flat(l.take(1)) =~= spec_serialize_byte_array(l[0]));
    } else {
        let tail = l.drop_first();
        assert(l.take(i + 1).drop_first() =~= tail.take(i));
        assert(l.take(i).drop_first() =~= tail.take(i - 1));
        lemma_arrays_flat_take_step(tail, i - 1);
        assert(l.take(i + 1)[0] =~= l[0]);
        assert(l.take(i)[0] =~= l[0]);
        assert(tail[i - 1] == l[i]);
    }
}

/// Appends a slice to the buffer byte for byte.
fn push_bytes(data: &mut Vec<u8>, src: &[u8])
    ensures
        final(data)@ == old(data)@ + src@,
{
    data.extend_from_slice(src);
    proof {
        assert(data@ =~= old(data)@ + src@);
    }
}

pub fn serialize_byte(data: &mut Vec<u8>, v: u8)
    ensures
        final(data)@ == old(data)@ + spec_serialize_byte(v),
{
    data.push(v);
    proof {
        assert(data@ =~= old(data)@ + spec_serialize_byte(v));
    }
}

pub fn serialize_bool(data: &mut Vec<u8>, v: bool)
    ensures
        final(data)@ == old(data)@ + spec_serialize_bool(v),
{
    if v {
        data.push(1);
    } else {
        data.push(0);
    }
    proof {
        assert(data@ =~= old(data)@ + spec_serialize_bool(v));
    }
}

pub fn serialize_i32(data: &mut Vec<u8>, v: i32)
    ensures
        final(data)@ == old(data)@ + spec_serialize_i32(v),
{
    let bytes = u32_to_le_bytes(v as u32);
    push_bytes(data, bytes.as_slice());
}

pub fn serialize_i64(data: &mut Vec<u8>, v: i64)
    ensures
        final(data)@ == old(data)@ + spec_serialize_i64(v),
{
    let bytes = u64_to_le_bytes(v as u64);
    push_bytes(data, bytes.as_slice());
}

pub fn serialize_date_time_opt(data: &mut Vec<u8>, v: Option<i64>)
    ensures
        final(data)@ == old(data)@ + spec_serialize_date_time_opt(v),
{
    match v {
        Some(t) => serialize_i64(data, t),
        None => serialize_i64(data, 0),
    }
}

pub fn serialize_pascal_string(data: &mut Vec<u8>, s: &str)
    requires
        pascal_string_fits(s@),
    ensures
        final(data)@ == old(data)@ + spec_serialize_pascal_string(s@),
{
    let bytes = s.as_bytes();
    data.push(bytes.len() as u8);
    push_bytes(data, bytes);
    proof {
        assert(data@ =~= old(data)@ + spec_serialize_pascal_string(s@));
    }
}

pub fn serialize_byte_array(data: &mut Vec<u8>, v: &[u8])
    requires
        v@.len() <= i32::MAX,
    ensures
        final(data)@ == old(data)@ + spec_serialize_byte_array(v@),
{
    serialize_i32(data, v.len() as i32);
    push_bytes(data, v);
    proof {
        assert(data@ =~= old(data)@ + spec_serialize_byte_array(v@));
    }
}

pub fn serialize_list_of_pascal_strings(data: &mut Vec<u8>, v: &Vec<String>)
    requires
        v@.len() <= i32::MAX,
        forall|i: int| 0 <= i < v@.len() ==> pascal_string_fits(#[trigger] v.deep_view()[i]),
    ensures
        final(data)@ == old(data)@ + spec_serialize_list_of_pascal_strings(v.deep_view()),
{
    serialize_i32(data, v.len() as i32);
    let ghost l = v.deep_view();
    let n = v.len();
    for i in 0..n
        invariant
            n == v@.len(),
            l == v.deep_view(),
            l.len() == n,
            forall|k: int| 0 <= k < l.len() ==> pascal_string_fits(#[trigger] l[k]),
            data@ == old(data)@ + spec_serialize_i32(n as i32)
                + spec_serialize_pascal_strings_flat(l.take(i as int)),
    {
        assert(l[i as int] == v@[i as int]@);
        serialize_pascal_string(data, v[i].as_str());
        proof {
            lemma_pascal_strings_flat_take_step(l, i as int);
            assert(data@ =~= old(data)@ + spec_serialize_i32(n as i32)
                + spec_serialize_pascal_strings_flat(l.take(i + 1)));
        }
    }
    proof {
        assert(l.take(n as int) =~= l);
    }
}

pub fn serialize_list_of_arrays(data: &mut Vec<u8>, v: &Vec<Vec<u8>>)
    requires
        v@.len() <= i32::MAX,
        forall|i: int| 0 <= i < v@.len() ==> (#[trigger] v.deep_view()[i]).len() <= i32::MAX,
    ensures
        final(data)@ == old(data)@ + spec_serialize_list_of_arrays(v.deep_view()),
{
    serialize_i32(data, v.len() as i32);
    let ghost l = v.deep_view();
    let n = v.len();
    for i in 0..n
        invariant
            n == v@.len(),
            l == v.deep_view(),
            l.len() == n,
            forall|k: int| 0 <= k < l.len() ==> (#[trigger] l[k]).len() <= i32::MAX,
            data@ == old(data)@ + spec_serialize_i32(n as i32) + spec_serialize_arrays_flat(
                l.take(i as int),
            ),
    {
        assert(l[i as int] == v@[i as int]@);
        serialize_byte_array(data, v[i].as_slice());
        proof {
            lemma_arrays_flat_take_step(l, i as int);
            assert(data@ =~= old(data)@ + spec_serialize_i32(n as i32)
                + spec_serialize_arrays_flat(l.take(i + 1)));
        }
    }
    proof {
        assert(l.take(n as int) =~= l);
    }
}

} // verus!
