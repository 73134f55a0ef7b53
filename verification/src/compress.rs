//! The gzip-compressed chunks of JSON lines that are uploaded as objects.
//! Compression is flate2's; this module states what a chunk has been given
//! and what its finished bytes are made of.

use vstd::prelude::*;
use crate::upload::{object_key, object_key_of};
use bytes::BufMut;
use std::io::Write;

verus! {

/// A chunk of JSON lines being compressed with gzip: flate2's `GzEncoder`
/// at the default level, writing into an in-memory `BytesMut`. What it has
/// been given is `gz_writes` of it.
#[verifier::external_body]
pub struct GzChunk {
    encoder: flate2::write::GzEncoder<bytes::buf::Writer<bytes::BytesMut>>,
}

/// The byte strings given to a chunk, in order, one per write.
pub uninterp spec fn gz_writes(c: GzChunk) -> Seq<Seq<u8>>;

/// The bytes that a gzip encoder at the default level, into an empty buffer,
/// has put into that buffer after being given these writes.
pub uninterp spec fn gz_emitted_len(writes: Seq<Seq<u8>>) -> nat;

/// The finished gzip stream of a gzip encoder at the default level given these
/// writes.
pub uninterp spec fn gzip_of_writes(writes: Seq<Seq<u8>>) -> Seq<u8>;

/// The bytes given by a sequence of writes, in order.
pub open spec fn concat_writes(writes: Seq<Seq<u8>>) -> Seq<u8>
    decreases writes.len(),
{
    if writes.len() == 0 {
        Seq::empty()
    } else {
        concat_writes(writes.drop_last()) + writes.last()
    }
}

/// The ten header bytes that flate2 writes for a gzip stream at the default
/// level with no name, comment, extra field or time: magic, deflate, no flags,
/// time 0, no level hint, unknown system.
pub open spec fn gzip_header() -> Seq<u8> {
    seq![0x1fu8, 0x8bu8, 8u8, 0u8, 0u8, 0u8, 0u8, 0u8, 0u8, 0xffu8]
}

/// A number modulo 2^32 as four little-endian bytes.
pub open spec fn le32(n: nat) -> Seq<u8> {
    let v = n % 0x1_0000_0000;
    seq![(v % 256) as u8, ((v / 256) % 256) as u8, ((v / 65536) % 256) as u8, ((v / 16777216) % 256) as u8]
}

/// flate2's `GzEncoder::new` over an empty `BytesMut` writer at
/// `Compression::default()`: an encoder that has been given nothing.
#[verifier::external_body]
fn gz_encoder_new() -> (r: GzChunk)
    ensures
        gz_writes(r) == Seq::<Seq<u8>>::empty(),
{
    GzChunk {
        encoder: flate2::write::GzEncoder::new(
            bytes::BytesMut::new().writer(),
            flate2::Compression::default(),
        ),
    }
}

/// `Write::write_all` on flate2's `GzEncoder`: it succeeds (the encoder
/// writes into a `BytesMut`, whose writer never fails, and the compressor fails
/// only on bad parameters or a full output buffer, which the encoder never
/// hands it), and the encoder has then been given `data` after what it had.
#[verifier::external_body]
fn gz_write_all(c: &mut GzChunk, data: &[u8]) -> (r: Result<(), String>)
    ensures
        r is Ok,
        gz_writes(*final(c)) == gz_writes(*old(c)).push(data@),
{
    match c.encoder.write_all(data) {
        Ok(()) => Ok(()),
        Err(err) => Err(err.to_string()),
    }
}

/// The length of the `BytesMut` inside flate2's `GzEncoder` (through
/// `get_ref` twice): the compressed bytes emitted so far.
#[verifier::external_body]
fn gz_buffered_len(c: &GzChunk) -> (r: usize)
    ensures
        r == gz_emitted_len(gz_writes(*c)),
{
    c.encoder.get_ref().get_ref().len()
}

/// flate2's `GzEncoder::finish`, then the bytes of the inner `BytesMut`: it
/// succeeds (for the same reasons as writing), giving the finished gzip
/// stream. flate2 writes the fixed header first and the input
/// length modulo 2^32, little-endian, last; the compressed data and the CRC-32
/// between them are given by name only.
#[verifier::external_body]
fn gz_finish(c: GzChunk) -> (r: Result<Vec<u8>, String>)
    ensures
        r is Ok,
        r matches Ok(b) ==> {
            &&& b@ == gzip_of_writes(gz_writes(c))
            &&& b@.len() >= 18
            &&& b@.subrange(0, 10) == gzip_header()
            &&& b@.subrange(b@.len() - 4, b@.len() as int) == le32(concat_writes(gz_writes(c)).len())
        },
{
    match c.encoder.finish() {
        Ok(w) => Ok(w.into_inner().to_vec()),
        Err(err) => Err(err.to_string()),
    }
}

/// A chunk that has been given nothing.
pub fn new_chunk() -> (r: GzChunk)
    ensures
        gz_writes(r) == Seq::<Seq<u8>>::empty(),
{
    gz_encoder_new()
}

/// Compresses `json` followed by a newline into the chunk.
pub fn write_json_line(chunk: &mut GzChunk, json: Vec<u8>) -> (r: Result<(), String>)
    ensures
        r is Ok,
        gz_writes(*final(chunk)) == gz_writes(*old(chunk)).push(json@.push(0x0au8)),
{
    let mut line = json;
    line.push(0x0au8);
    gz_write_all(chunk, line.as_slice())
}

/// The number of compressed bytes that the chunk has emitted so far.
pub fn compressed_len(chunk: &GzChunk) -> (r: usize)
    ensures
        r == gz_emitted_len(gz_writes(*chunk)),
{
    gz_buffered_len(chunk)
}

/// The finished gzip stream of the chunk.
pub fn finish_chunk(chunk: GzChunk) -> (r: Result<Vec<u8>, String>)
    ensures
        r is Ok,
        r matches Ok(b) ==> {
            &&& b@ == gzip_of_writes(gz_writes(chunk))
            &&& b@.subrange(0, 10) == gzip_header()
            &&& b@.subrange(b@.len() - 4, b@.len() as int) == le32(concat_writes(gz_writes(chunk)).len())
        },
{
    gz_finish(chunk)
}

/// The key and body of the object that the chunk is uploaded as: the object
/// key of sequence number `n` under `prefix`, and the chunk's finished gzip
/// stream.
pub fn upload_body(chunk: GzChunk, prefix: &str, n: usize) -> (r: Result<(String, Vec<u8>), String>)
    ensures
        r is Ok,
        r matches Ok((key, body)) ==> {
            &&& key@ == object_key_of(prefix@, n as nat)
            &&& body@ == gzip_of_writes(gz_writes(chunk))
            &&& body@.subrange(0, 10) == gzip_header()
            &&& body@.subrange(body@.len() - 4, body@.len() as int) == le32(concat_writes(gz_writes(chunk)).len())
        },
{
    let body = finish_chunk(chunk)?;
    Ok((object_key(prefix, n), body))
}

} // verus!
