//! Compression of message bodies.
use crate::message::RPCError;
use vstd::prelude::*;

verus! {

/// The header by which a client says which compressions it can read.
pub const HEADER_ACCEPT_ENCODING: &'static str = "connect-accept-encoding";

/// The name of the one compression.
pub const ENCODING_GZIP: &'static str = "gzip";

/// The size from which on a message is worth compressing.
pub const COMPRESS_MIN_BYTES: usize = 1024;

/// What flate2's `GzEncoder`, at its default level, makes of bytes.
pub uninterp spec fn gzipped(data: Seq<u8>) -> Seq<u8>;

/// What flate2's `GzDecoder` reads from bytes: none where they are no gzip data
/// or are damaged.
pub uninterp spec fn gunzipped(data: Seq<u8>) -> Option<Seq<u8>>;

/// `std::io::Error`, which says only that reading or writing failed.
#[verifier::external_type_specification]
#[verifier::external_body]
pub struct ExIoError(std::io::Error);

/// Runs `flate2::write::GzEncoder` over a vector, which takes every write: the
/// compressed bytes, from which `flate2::read::GzDecoder` reads the data back.
#[verifier::external_body]
fn encode_gzip(data: &[u8]) -> (r: Result<Vec<u8>, std::io::Error>)
    ensures
        match r {
            Ok(z) => z@ == gzipped(data@) && gunzipped(z@) == Some(data@),
            Err(_) => false,
        },
{
    let mut e = flate2::write::GzEncoder::new(Vec::new(), flate2::Compression::default());
    std::io::Write::write_all(&mut e, data)?;
    e.finish()
}

/// Runs `flate2::read::GzDecoder` to its end: the data of the first gzip member,
/// or an error where there is none or it is damaged.
#[verifier::external_body]
fn decode_gzip(data: &[u8]) -> (r: Result<Vec<u8>, std::io::Error>)
    ensures
        match r {
            Ok(v) => gunzipped(data@) == Some(v@),
            Err(_) => gunzipped(data@) is None,
        },
{
    let mut out = Vec::new();
    std::io::Read::read_to_end(&mut flate2::read::GzDecoder::new(data), &mut out)?;
    Ok(out)
}

/// Compresses data. Decompression gives it back.
pub fn gzip_compress(data: &[u8]) -> (out: Vec<u8>)
    ensures
        out@ == gzipped(data@),
        gunzipped(out@) == Some(data@),
{
    match encode_gzip(data) {
        Ok(z) => z,
        Err(_) => Vec::new(),
    }
}

/// Decompresses data.
pub fn gunzip(data: &[u8]) -> (r: Option<Vec<u8>>)
    ensures
        bytes_view(r) == gunzipped(data@),
{
    match decode_gzip(data) {
        Ok(v) => Some(v),
        Err(_) => None,
    }
}

/// The decompressed data where there is any, else the data as it came.
pub open spec fn decompressed_or_same(data: Seq<u8>, plain: Option<Seq<u8>>) -> Seq<u8> {
    match plain {
        Some(p) => p,
        None => data,
    }
}

/// The view of data that may be absent.
pub open spec fn bytes_view(v: Option<Vec<u8>>) -> Option<Seq<u8>> {
    match v {
        Some(v) => Some(v@),
        None => None,
    }
}

/// Chooses between the decompressed data and the data as it came.
pub fn plain_or_same(data: &[u8], plain: Option<Vec<u8>>) -> (out: Vec<u8>)
    ensures
        out@ == decompressed_or_same(data@, bytes_view(plain)),
{
    match plain {
        Some(p) => p,
        None => vstd::slice::slice_to_vec(data),
    }
}

/// Decompresses data; hands it back as it came where that fails.
pub fn gzip_decompress(data: &[u8]) -> (out: Vec<u8>)
    ensures
        out@ == decompressed_or_same(data@, gunzipped(data@)),
{
    plain_or_same(data, gunzip(data))
}

/// The error of data that claims to be compressed and cannot be decompressed.
pub open spec fn corrupt_gzip() -> crate::message::ErrorView {
    crate::message::plain_error(13, "corrupt gzip data"@)
}

/// Tells decompressed data from the error of data that is damaged.
pub fn plain_or_error(plain: Option<Vec<u8>>) -> (r: Result<Vec<u8>, RPCError>)
    ensures
        match r {
            Ok(v) => plain == Some(v),
            Err(e) => plain is None && e@ == corrupt_gzip(),
        },
{
    match plain {
        Some(v) => Ok(v),
        None => Err(RPCError::new(13, "corrupt gzip data")),
    }
}

/// Decompresses data; an error, never the compressed bytes, where that fails.
pub fn gzip_decompress_strict(data: &[u8]) -> (r: Result<Vec<u8>, RPCError>)
    ensures
        match r {
            Ok(v) => gunzipped(data@) == Some(v@),
            Err(e) => gunzipped(data@) is None && e@ == corrupt_gzip(),
        },
{
    plain_or_error(gunzip(data))
}

/// Data that can be decompressed is taken as what it was decompressed to, all of
/// it; data that cannot is kept as it came.
pub proof fn law_decompressed_or_same(data: Seq<u8>, plain: Seq<u8>)
    ensures
        decompressed_or_same(data, Some(plain)) == plain,
        decompressed_or_same(data, None) == data,
        corrupt_gzip() == (crate::message::ErrorView {
            code: 13,
            message: "corrupt gzip data"@,
            details: Seq::empty(),
        }),
{
}

/// Data that may be absent is seen just where it is there, all of it.
pub proof fn law_bytes_view(v: Vec<u8>)
    ensures
        bytes_view(Some(v)) == Some(v@),
        bytes_view(None) is None,
{
}

} // verus!
