//! The payload compressor: an opaque compress/decompress pair over raw bytes.
//!
//! A payload is packed as the single entry `"d"` of a deflate container and
//! recovered by reading that entry back. The container format is the `zip`
//! crate's; this module only wraps it, naming the outcome of each direction
//! with an uninterpreted spec function. The one fact the wrappers state
//! beyond those names is the codec's round trip: unpacking what `compress`
//! packed yields the original payload.

use std::io::{Cursor, Read, Write};
use vstd::prelude::*;

verus! {

#[verifier::external_type_specification]
#[verifier::external_body]
pub struct ExZipError(zip::result::ZipError);

/// What [`compress`] returns for a payload. The container holds a fixed entry
/// name and a fixed timestamp, so the bytes depend on the payload alone.
pub uninterp spec fn zip_pack_of(payload: Seq<u8>) -> Seq<u8>;

/// What [`decompress`] returns for its input: the recovered payload, or
/// `None` where the input is not a readable container.
pub uninterp spec fn zip_unpack_of(payload: Seq<u8>) -> Option<Seq<u8>>;

/// Payloads up to this length are guaranteed to pack: the container format
/// refuses an entry whose raw or compressed size crosses its 32-bit
/// threshold, and the margin left here covers the codec's worst-case framing
/// overhead (a few bytes per 64 KiB block) on the compressed stream.
pub const COMPRESS_GUARANTEED_LEN: u64 = 0xFFF0_0000;

/// Relies on `zip::ZipWriter`: `start_file` with deflate compression and the
/// default (constant) timestamp, `write_all`, and `finish` pack the payload
/// into a container that `zip::ZipArchive` reads back as written. Writing to
/// an in-memory buffer, the writer fails only when the entry's raw or
/// compressed size crosses the container's 32-bit threshold without the
/// large-file option, so success is owed below
/// [`COMPRESS_GUARANTEED_LEN`].
#[verifier::external_body]
pub fn compress(payload: &[u8]) -> (r: Result<Vec<u8>, zip::result::ZipError>)
    ensures
        r matches Ok(c) ==> c@ == zip_pack_of(payload@) && zip_unpack_of(c@) == Some(payload@),
        payload@.len() <= COMPRESS_GUARANTEED_LEN ==> r is Ok,
{
    let mut writer = zip::ZipWriter::new(Cursor::new(Vec::new()));
    let options = zip::write::SimpleFileOptions::default().compression_method(
        zip::CompressionMethod::Deflated,
    );
    writer.start_file("d", options)?;
    writer.write_all(payload)?;
    Ok(writer.finish()?.into_inner())
}

/// Relies on `zip::ZipArchive`: `new` parses the container and `by_name`
/// yields the entry `"d"` whose decompressed bytes `read_to_end` collects.
/// The result is a function of the input bytes alone.
#[verifier::external_body]
pub fn decompress(payload: &[u8]) -> (r: Result<Vec<u8>, zip::result::ZipError>)
    ensures
        match r {
            Ok(d) => zip_unpack_of(payload@) == Some(d@),
            Err(_) => zip_unpack_of(payload@) is None,
        },
{
    let mut archive = zip::ZipArchive::new(Cursor::new(payload.to_vec()))?;
    let mut out: Vec<u8> = Vec::new();
    archive.by_name("d")?.read_to_end(&mut out)?;
    Ok(out)
}

} // verus!
