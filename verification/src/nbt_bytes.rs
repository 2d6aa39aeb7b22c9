//! NBT values and their binary form: fastnbt reads and writes the bytes, the library
//! works on its own model of the values.
use vstd::prelude::*;
use crate::codec::{compress_nbt_bytes, compression_of, decompress_nbt_bytes, decompress_spec, Compression};
use crate::error::Error;
use crate::nbt::{nv, unique_keys, Nbt, NbtV};

verus! {

/// fastnbt's value type, carried from the decoder to the model and back.
#[verifier::external_type_specification]
#[verifier::external_body]
pub struct ExFastnbtValue(fastnbt::Value);

/// Reads one NBT value from uncompressed bytes with `fastnbt::from_bytes`; an error
/// comes back as its text. Nothing is claimed of the outcome.
#[verifier::external_body]
fn value_from_bytes(raw: &[u8]) -> (r: Result<fastnbt::Value, String>) {
    match fastnbt::from_bytes::<fastnbt::Value>(raw) {
        Ok(v) => Ok(v),
        Err(e) => Err(e.to_string()),
    }
}

/// A fastnbt value as the library's model, variant for variant (arrays by their
/// elements; numbers through [`model_of_number`]). A compound's entries come in the
/// order its hash map yields them, which is not stated; the contract claims only that
/// a compound's keys are distinct, as a hash map's keys are.
#[verifier::external_body]
fn model_of_value(v: fastnbt::Value) -> (r: Nbt)
    ensures
        nv(r) matches NbtV::Compound(m) ==> unique_keys(m),
{
    match v {
        fastnbt::Value::String(x) => Nbt::String(x),
        fastnbt::Value::ByteArray(x) => Nbt::ByteArray(x.into_inner()),
        fastnbt::Value::IntArray(x) => Nbt::IntArray(x.into_inner()),
        fastnbt::Value::LongArray(x) => Nbt::LongArray(x.into_inner()),
        fastnbt::Value::List(x) => Nbt::List(x.into_iter().map(model_of_value).collect()),
        fastnbt::Value::Compound(x) => Nbt::Compound(x.into_iter().map(|(k, e)| (k, model_of_value(e))).collect()),
        other => model_of_number(other),
    }
}

/// A fastnbt number as the library's model (floats by their bit patterns); any other
/// value goes back to [`model_of_value`]. The contract claims only what that function's
/// does: a compound's keys are distinct.
#[verifier::external_body]
fn model_of_number(v: fastnbt::Value) -> (r: Nbt)
    ensures
        nv(r) matches NbtV::Compound(m) ==> unique_keys(m),
{
    match v {
        fastnbt::Value::Byte(x) => Nbt::Byte(x),
        fastnbt::Value::Short(x) => Nbt::Short(x),
        fastnbt::Value::Int(x) => Nbt::Int(x),
        fastnbt::Value::Long(x) => Nbt::Long(x),
        fastnbt::Value::Float(x) => Nbt::Float(x.to_bits()),
        fastnbt::Value::Double(x) => Nbt::Double(x.to_bits()),
        other => model_of_value(other),
    }
}

/// Writes one NBT value as uncompressed bytes with `fastnbt::to_bytes`; an error comes
/// back as its text. Nothing is claimed of the outcome: a compound's entries are
/// written in the order its hash map yields them.
#[verifier::external_body]
fn value_to_bytes(v: &fastnbt::Value) -> (r: Result<Vec<u8>, String>) {
    match fastnbt::to_bytes(v) {
        Ok(b) => Ok(b),
        Err(e) => Err(e.to_string()),
    }
}

/// Reads one NBT value from uncompressed bytes as the library's model; an NBT error in
/// `context` with fastnbt's message where the bytes are no NBT value. Which bytes
/// fastnbt accepts, and the order of a compound's entries (a hash map's), are fastnbt's
/// and are not stated.
pub fn decode_nbt(raw: &[u8], context: &str) -> (r: Result<Nbt, Error>)
    ensures
        r matches Err(e) ==> e matches Error::Nbt { context: c, .. } && c@ == context@,
        r matches Ok(v) ==> (nv(v) matches NbtV::Compound(m) ==> unique_keys(m)),
{
    match value_from_bytes(raw) {
        Ok(v) => Ok(model_of_value(v)),
        Err(m) => Err(Error::nbt(context, m.as_str())),
    }
}

/// Parses the contents of an NBT file: decompressed as its first bytes say (see
/// [`decompress_spec`]), then read by [`decode_nbt`]. A broken stream gives the
/// decoder's error; every error is an NBT error in `context`.
pub fn parse_nbt_bytes(bytes: &[u8], context: &str) -> (r: Result<Nbt, Error>)
    ensures
        decompress_spec(bytes@) matches Err(m) ==> r matches Err(Error::Nbt { context: c, message: msg })
            && c@ == context@ && msg@ == m,
        r matches Err(e) ==> e matches Error::Nbt { context: c, .. } && c@ == context@,
        r matches Ok(v) ==> (nv(v) matches NbtV::Compound(m) ==> unique_keys(m)),
{
    let raw = match decompress_nbt_bytes(bytes, context) {
        Ok(raw) => raw,
        Err(e) => {
            return Err(e);
        },
    };
    decode_nbt(raw.as_slice(), context)
}

/// Writes a fastnbt value as uncompressed NBT; an NBT error in `context` with
/// fastnbt's message where it cannot be written. The bytes are fastnbt's and are not
/// stated.
pub fn encode_nbt(value: &fastnbt::Value, context: &str) -> (r: Result<Vec<u8>, Error>)
    ensures
        r matches Err(e) ==> e matches Error::Nbt { context: c, .. } && c@ == context@,
{
    match value_to_bytes(value) {
        Ok(b) => Ok(b),
        Err(m) => Err(Error::nbt(context, m.as_str())),
    }
}

/// The contents of a gzip-compressed NBT file for `path`: the value written by
/// [`encode_nbt`], then compressed; what is written is a gzip stream that decompresses
/// to the NBT bytes. The only error is the NBT error for `path`.
pub fn encode_nbt_gzip(value: &fastnbt::Value, path: &str) -> (r: Result<Vec<u8>, Error>)
    ensures
        r matches Ok(b) ==> compression_of(b@) == Compression::Gzip && decompress_spec(b@) is Ok,
        r matches Err(e) ==> e matches Error::Nbt { context: c, .. } && c@ == path@,
{
    let raw = match encode_nbt(value, path) {
        Ok(raw) => raw,
        Err(e) => {
            return Err(e);
        },
    };
    compress_nbt_bytes(raw.as_slice(), path)
}

} // verus!
