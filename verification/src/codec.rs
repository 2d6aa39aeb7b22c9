//! The compression around NBT files: a gzip or zlib stream, told apart by its first
//! bytes, or raw NBT. The streams are decoded and encoded by flate2.
use vstd::prelude::*;
use std::io::Read;
use std::io::Write;
use crate::error::Error;

verus! {

/// How NBT bytes are compressed.
#[derive(Debug, Clone, Copy, PartialEq, Eq)]
pub enum Compression {
    Gzip,
    Zlib,
    Raw,
}

/// Gzip streams start with `1f 8b`, zlib streams (as Minecraft writes them) with
/// `78`; anything else is raw NBT.
pub open spec fn compression_of(b: Seq<u8>) -> Compression {
    if b.len() >= 2 && b[0] == 0x1f && b[1] == 0x8b {
        Compression::Gzip
    } else if b.len() >= 1 && b[0] == 0x78 {
        Compression::Zlib
    } else {
        Compression::Raw
    }
}

/// Tells how NBT bytes are compressed (see [`compression_of`]).
pub fn detect_compression(bytes: &[u8]) -> (r: Compression)
    ensures
        r == compression_of(bytes@),
{
    if bytes.len() >= 2 && bytes[0] == 0x1f && bytes[1] == 0x8b {
        Compression::Gzip
    } else if bytes.len() >= 1 && bytes[0] == 0x78 {
        Compression::Zlib
    } else {
        Compression::Raw
    }
}

/// What flate2's `GzDecoder` reads from a gzip stream: the decoded bytes, or the text
/// of its I/O error.
pub uninterp spec fn gunzip_result(b: Seq<u8>) -> Result<Seq<u8>, Seq<char>>;

/// What flate2's `ZlibDecoder` reads from a zlib stream: the decoded bytes, or the
/// text of its I/O error.
pub uninterp spec fn unzlib_result(b: Seq<u8>) -> Result<Seq<u8>, Seq<char>>;

/// The gzip stream that flate2's `GzEncoder` writes for the bytes at the default
/// compression level (with its default header: no time stamp, no name).
pub uninterp spec fn gzip_encoded(b: Seq<u8>) -> Seq<u8>;

/// Decodes a gzip stream with `flate2::read::GzDecoder::read_to_end`. The result is
/// named [`gunzip_result`]; nothing more is claimed of it.
#[verifier::external_body]
fn gunzip(b: &[u8]) -> (r: Result<Vec<u8>, String>)
    ensures
        match r {
            Ok(v) => gunzip_result(b@) == Ok::<Seq<u8>, Seq<char>>(v@),
            Err(m) => gunzip_result(b@) == Err::<Seq<u8>, Seq<char>>(m@),
        },
{
    let mut out = Vec::new();
    match flate2::read::GzDecoder::new(b).read_to_end(&mut out) {
        Ok(_) => Ok(out),
        Err(e) => Err(e.to_string()),
    }
}

/// Decodes a zlib stream with `flate2::read::ZlibDecoder::read_to_end`. The result is
/// named [`unzlib_result`]; nothing more is claimed of it.
#[verifier::external_body]
fn unzlib(b: &[u8]) -> (r: Result<Vec<u8>, String>)
    ensures
        match r {
            Ok(v) => unzlib_result(b@) == Ok::<Seq<u8>, Seq<char>>(v@),
            Err(m) => unzlib_result(b@) == Err::<Seq<u8>, Seq<char>>(m@),
        },
{
    let mut out = Vec::new();
    match flate2::read::ZlibDecoder::new(b).read_to_end(&mut out) {
        Ok(_) => Ok(out),
        Err(e) => Err(e.to_string()),
    }
}

/// Compresses bytes with `flate2::write::GzEncoder` into a `Vec` (`write_all`, then
/// `finish`). The contract claims that this succeeds (the encoder fails only when its
/// sink does, and writing to a `Vec` does not fail), that the stream is named
/// [`gzip_encoded`], that it starts with the gzip magic bytes `1f 8b` (the header
/// flate2 writes) and that `GzDecoder` reads the bytes back from it.
#[verifier::external_body]
fn gzip(raw: &[u8]) -> (r: Result<Vec<u8>, String>)
    ensures
        r is Ok,
        match r {
            Ok(v) => {
                &&& v@ == gzip_encoded(raw@)
                &&& v@.len() >= 2 && v@[0] == 0x1f && v@[1] == 0x8b
                &&& gunzip_result(v@) == Ok::<Seq<u8>, Seq<char>>(raw@)
            },
            Err(_) => true,
        },
{
    let mut encoder = flate2::write::GzEncoder::new(Vec::new(), flate2::Compression::default());
    match encoder.write_all(raw).and_then(|_| encoder.finish()) {
        Ok(v) => Ok(v),
        Err(e) => Err(e.to_string()),
    }
}

/// The raw NBT bytes of a file's contents: decompressed as its first bytes say, or
/// taken as they are; an NBT error in `context` with the decoder's message when the
/// stream is broken.
pub open spec fn decompress_spec(b: Seq<u8>) -> Result<Seq<u8>, Seq<char>> {
    match compression_of(b) {
        Compression::Gzip => gunzip_result(b),
        Compression::Zlib => unzlib_result(b),
        Compression::Raw => Ok(b),
    }
}

/// Decompresses the contents of an NBT file (see [`decompress_spec`]).
pub fn decompress_nbt_bytes(bytes: &[u8], context: &str) -> (r: Result<Vec<u8>, Error>)
    ensures
        match decompress_spec(bytes@) {
            Ok(raw) => r matches Ok(v) && v@ == raw,
            Err(m) => r matches Err(Error::Nbt { context: c, message: msg }) && c@ == context@ && msg@ == m,
        },
{
    let decoded = match detect_compression(bytes) {
        Compression::Gzip => gunzip(bytes),
        Compression::Zlib => unzlib(bytes),
        Compression::Raw => Ok(vstd::slice::slice_to_vec(bytes)),
    };
    match decoded {
        Ok(v) => Ok(v),
        Err(m) => Err(Error::nbt(context, m.as_str())),
    }
}

/// Gzip-compresses serialized NBT for the file at `path`. Compressing into memory
/// always succeeds, and what is written decompresses to the input; the error type is
/// that of the file writing that follows (an I/O error for `path`).
pub fn compress_nbt_bytes(raw: &[u8], path: &str) -> (r: Result<Vec<u8>, Error>)
    ensures
        r matches Ok(v) && v@ == gzip_encoded(raw@) && compression_of(v@) == Compression::Gzip
            && decompress_spec(v@) == Ok::<Seq<u8>, Seq<char>>(raw@),
{
    match gzip(raw) {
        Ok(v) => Ok(v),
        Err(m) => Err(Error::io(path, m.as_str())),
    }
}

} // verus!
