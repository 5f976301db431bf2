//! The scratch space in which a push request becomes the body of an HTTP
//! request: serialized, then compressed as one Snappy block.

use vstd::prelude::*;
use crate::decode::decode_push_request;
use crate::decode::lemma_push_request_round_trip;
use crate::decode::parse_push_request;
use crate::logproto::PushRequest;
use crate::logproto::StreamModel;
use crate::wire::encode_push_request;
use crate::wire::push_request_bytes;
use crate::wire::varint;

verus! {

/// The Snappy block that `snap` makes of `input`: the raw format, one
/// header and no frames.
pub uninterp spec fn snappy_block(input: Seq<u8>) -> Seq<u8>;

/// What `snap` reads out of the Snappy block `block`, or nothing where
/// `block` is none that it can read.
pub uninterp spec fn snappy_unblock(block: Seq<u8>) -> Option<Seq<u8>>;

/// The streams of the push request that is carried by the body `body`, or
/// nothing where `body` is no block or what it holds is no push request.
pub open spec fn body_streams(body: Seq<u8>) -> Option<Seq<StreamModel>> {
    match snappy_unblock(body) {
        Some(bytes) => parse_push_request(bytes),
        None => None,
    }
}

/// Largest number of bytes that can be compressed into one block.
pub const MAX_BLOCK_INPUT: u64 = 0xffff_ffff;

/// The room that compressing `input_len` bytes may need, or zero where
/// that many bytes cannot be compressed into one block.
pub open spec fn max_compress_len_of(input_len: nat) -> nat {
    if input_len > MAX_BLOCK_INPUT || 32 + input_len + input_len / 6 > MAX_BLOCK_INPUT {
        0
    } else {
        32 + input_len + input_len / 6
    }
}

/// Whether `input_len` bytes can be compressed into one block.
pub open spec fn compressible(input_len: nat) -> bool {
    32 + input_len + input_len / 6 <= MAX_BLOCK_INPUT
}

/// `snap::raw::max_compress_len` returns 32 plus the input's length plus a
/// sixth of it, or zero where the input or that sum is beyond what 32 bits
/// hold.
pub assume_specification[ snap::raw::max_compress_len ](input_len: usize) -> (max: usize)
    ensures
        max == max_compress_len_of(input_len as nat),
;

/// Compresses `input` into the front of `output` with a fresh
/// `snap::raw::Encoder`, by its method `compress`, and returns how many
/// bytes were written. The method fails only where the input is too long
/// for one block or `output` is shorter than `max_compress_len` asks; it
/// leaves the length of `output` as it was. What it writes begins with
/// the length of the input as a varint, so it is never empty.
#[verifier::external_body]
fn compress_block(input: &[u8], output: &mut Vec<u8>) -> (written: usize)
    requires
        compressible(input@.len()),
        old(output)@.len() >= max_compress_len_of(input@.len()),
    ensures
        final(output)@.len() == old(output)@.len(),
        1 <= written <= final(output)@.len(),
        final(output)@.subrange(0, written as int) == snappy_block(input@),
        varint(input@.len()).is_prefix_of(final(output)@.subrange(0, written as int)),
{
    snap::raw::Encoder::new().compress(input, output).expect("snappy encoding is infallible")
}

/// Reads `block` with a fresh `snap::raw::Decoder`, by its method
/// `decompress_vec`, which returns the bytes that the block holds or
/// fails where it is no block that `snap` can read.
#[verifier::external_body]
fn decompress_block(block: &[u8]) -> (plain: Option<Vec<u8>>)
    ensures
        plain.is_some() == snappy_unblock(block@).is_some(),
        plain matches Some(bytes) ==> snappy_unblock(block@) == Some(bytes@),
{
    match snap::raw::Decoder::new().decompress_vec(block) {
        Ok(bytes) => Some(bytes),
        Err(_) => None,
    }
}

/// Reads the push request out of the body of an HTTP request: the block
/// is decompressed, and what it holds is read as a push request.
pub fn decode_body(body: &[u8]) -> (request: Option<PushRequest>)
    ensures
        request.is_some() == body_streams(body@).is_some(),
        request matches Some(read) ==> body_streams(body@) == Some(read@),
{
    match decompress_block(body) {
        Some(bytes) => decode_push_request(bytes.as_slice()),
        None => None,
    }
}

/// Encoding a batch of streams and decoding the body gives the batch
/// again, with every label string and every entry list as it was, where
/// `snap` reads back from the block the bytes that it made the block of.
/// That it does is the one thing here that rests on `snap`; nothing in
/// this crate states it.
pub proof fn lemma_body_round_trip(streams: Seq<StreamModel>)
    requires
        push_request_bytes(streams).len() <= u64::MAX,
        snappy_unblock(snappy_block(push_request_bytes(streams))) == Some(
            push_request_bytes(streams),
        ),
    ensures
        body_streams(snappy_block(push_request_bytes(streams))) == Some(streams),
{
    lemma_push_request_round_trip(streams);
}

/// Two byte vectors that are kept between requests, so that encoding one
/// does not allocate anew.
pub struct Buffer {
    encoded: Vec<u8>,
    snappy: Vec<u8>,
}

impl Buffer {
    /// The bytes of the message that was serialized last; none at first.
    pub closed spec fn serialized(&self) -> Seq<u8> {
        self.encoded@
    }

    /// The room in which the last message was compressed, with the body
    /// at its front; empty at first.
    pub closed spec fn compressed(&self) -> Seq<u8> {
        self.snappy@
    }

    /// A buffer with nothing allocated yet.
    pub fn new() -> (buffer: Buffer)
        ensures
            buffer.serialized() == Seq::<u8>::empty(),
            buffer.compressed() == Seq::<u8>::empty(),
    {
        Buffer { encoded: Vec::new(), snappy: Vec::new() }
    }

    /// The body of the HTTP request that carries `message`: its bytes,
    /// compressed as one Snappy block. The bytes must fit into one block.
    pub fn encode<'a>(&'a mut self, message: &PushRequest) -> (body: &'a [u8])
        requires
            compressible(push_request_bytes(message@).len()),
        ensures
            body@ == snappy_block(push_request_bytes(message@)),
            1 <= body@.len() <= max_compress_len_of(push_request_bytes(message@).len()),
            varint(push_request_bytes(message@).len()).is_prefix_of(body@),
            final(self).serialized() == push_request_bytes(message@),
            final(self).compressed().len() == max_compress_len_of(
                push_request_bytes(message@).len(),
            ),
            body@ == final(self).compressed().subrange(0, body@.len() as int),
    {
        self.encoded.clear();
        encode_push_request(message, &mut self.encoded);
        assert(self.encoded@ =~= push_request_bytes(message@));
        self.compress_encoded()
    }

    /// The body of the HTTP request that carries `message`, or nothing
    /// where its bytes do not fit into one block.
    pub fn try_encode<'a>(&'a mut self, message: &PushRequest) -> (body: Option<&'a [u8]>)
        ensures
            compressible(push_request_bytes(message@).len()) ==> body.is_some() && body.unwrap()@
                == snappy_block(push_request_bytes(message@)),
            !compressible(push_request_bytes(message@).len()) ==> body.is_none(),
            body matches Some(block) ==> {
                &&& 1 <= block@.len() <= max_compress_len_of(push_request_bytes(message@).len())
                &&& varint(push_request_bytes(message@).len()).is_prefix_of(block@)
                &&& final(self).compressed().len() == max_compress_len_of(
                    push_request_bytes(message@).len(),
                )
                &&& block@ == final(self).compressed().subrange(0, block@.len() as int)
            },
            body.is_none() ==> final(self).compressed() == old(self).compressed(),
            final(self).serialized() == push_request_bytes(message@),
    {
        self.encoded.clear();
        encode_push_request(message, &mut self.encoded);
        assert(self.encoded@ =~= push_request_bytes(message@));
        let needed = snap::raw::max_compress_len(self.encoded.len());
        if needed == 0 {
            None
        } else {
            Some(self.compress_encoded())
        }
    }

    /// Compresses what was serialized last.
    fn compress_encoded<'a>(&'a mut self) -> (body: &'a [u8])
        requires
            compressible(old(self).encoded@.len()),
        ensures
            body@ == snappy_block(old(self).encoded@),
            1 <= body@.len() <= max_compress_len_of(old(self).encoded@.len()),
            varint(old(self).encoded@.len()).is_prefix_of(body@),
            final(self).encoded@ == old(self).encoded@,
            final(self).snappy@.len() == max_compress_len_of(old(self).encoded@.len()),
            body@ == final(self).snappy@.subrange(0, body@.len() as int),
    {
        let needed = snap::raw::max_compress_len(self.encoded.len());
        self.snappy.resize(needed, 0);
        let written = compress_block(self.encoded.as_slice(), &mut self.snappy);
        vstd::slice::slice_subrange(self.snappy.as_slice(), 0, written)
    }
}

} // verus!
