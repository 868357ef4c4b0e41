//! Gzip compression of whole byte buffers, for files stored compressed.
//! The format code never calls these: callers compress and decompress at
//! the edge where bytes are read or written.
use crate::error::{ErrorKind, VcfError};
use flate2::read::GzDecoder;
use flate2::write::GzEncoder;
use flate2::Compression;
use std::io::Read;
use std::io::Write;
use vstd::prelude::*;

verus! {

/// The gzip stream that flate2 makes of `b` at the default level.
pub uninterp spec fn gzip_of(b: Seq<u8>) -> Seq<u8>;

/// The bytes that flate2 decodes from the gzip stream `b`, or `None` where
/// it reports an error (such as for bytes that are not gzip).
pub uninterp spec fn gunzip_of(b: Seq<u8>) -> Option<Seq<u8>>;

/// Relies on flate2's `GzEncoder` at `Compression::default()`, writing all
/// of `bytes` to a `Vec` and finishing the stream: with a `Vec` as the sink
/// neither the writes nor the compressor report an error, so the stream is
/// always made.
#[verifier::external_body]
fn gzip(bytes: &[u8]) -> (r: Result<Vec<u8>, String>)
    ensures
        r is Ok,
        r matches Ok(v) ==> v@ == gzip_of(bytes@),
{
    let mut e = GzEncoder::new(Vec::new(), Compression::default());
    e.write_all(bytes).map_err(|x| x.to_string())?;
    e.finish().map_err(|x| x.to_string())
}

/// Relies on flate2's `GzDecoder`, reading the whole stream `bytes` to a
/// `Vec`: whether it fails, and what it decodes, depend on the bytes alone;
/// a failure is given by its message.
#[verifier::external_body]
fn gunzip(bytes: &[u8]) -> (r: Result<Vec<u8>, String>)
    ensures
        match r {
            Ok(v) => gunzip_of(bytes@) == Some(v@),
            Err(_) => gunzip_of(bytes@) is None,
        },
{
    let mut d = GzDecoder::new(bytes);
    let mut out = Vec::new();
    d.read_to_end(&mut out).map_err(|x| x.to_string())?;
    Ok(out)
}

/// Encodes the bytes in the gzip format.
pub fn gz_encode(bytes: &[u8]) -> (r: Result<Vec<u8>, VcfError>)
    ensures
        r matches Ok(v) && v@ == gzip_of(bytes@),
{
    match gzip(bytes) {
        Ok(v) => Ok(v),
        Err(m) => Err(VcfError::new(ErrorKind::Codec, m)),
    }
}

/// Decodes bytes in the gzip format.
pub fn gz_decode(bytes: &[u8]) -> (r: Result<Vec<u8>, VcfError>)
    ensures
        match r {
            Ok(v) => gunzip_of(bytes@) == Some(v@),
            Err(e) => gunzip_of(bytes@) is None && e.kind == ErrorKind::Codec,
        },
{
    match gunzip(bytes) {
        Ok(v) => Ok(v),
        Err(m) => Err(VcfError::new(ErrorKind::Codec, m)),
    }
}

} // verus!
