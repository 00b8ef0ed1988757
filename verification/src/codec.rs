//! The wire format: every message is an eight-byte little-endian length
//! followed by that many bytes of payload.

use vstd::prelude::*;
use vstd::bytes::{
    lemma_auto_spec_u64_to_from_le_bytes, spec_u64_from_le_bytes, spec_u64_to_le_bytes,
    u64_from_le_bytes, u64_to_le_bytes,
};
use vstd::slice::slice_subrange;

verus! {

/// Why a frame could not be read.
#[derive(Debug, Clone, Copy, PartialEq, Eq)]
pub enum FrameError {
    /// The length of the message does not fit in memory.
    MessageLen,
}

/// The frame of a payload: its length, then the payload.
pub open spec fn spec_frame(payload: Seq<u8>) -> Seq<u8> {
    spec_u64_to_le_bytes(payload.len() as u64) + payload
}

/// The length that the first eight bytes of a buffer announce.
pub open spec fn announced_len(src: Seq<u8>) -> int {
    spec_u64_from_le_bytes(src.take(8)) as int
}

/// What reading one frame off the front of a buffer gives.
pub enum Decoded {
    /// The buffer does not hold a whole frame yet.
    Incomplete,
    /// The announced length does not fit in memory.
    TooLong,
    /// A frame with this payload, and the bytes left after it.
    Frame(Seq<u8>, Seq<u8>),
}

/// Reads one frame off the front of a buffer.
pub open spec fn spec_decode(src: Seq<u8>) -> Decoded {
    if src.len() < 8 {
        Decoded::Incomplete
    } else if announced_len(src) > usize::MAX - 8 {
        Decoded::TooLong
    } else if src.len() < 8 + announced_len(src) {
        Decoded::Incomplete
    } else {
        Decoded::Frame(
            src.subrange(8, 8 + announced_len(src)),
            src.skip(8 + announced_len(src)),
        )
    }
}

/// Appends the frame of `payload` to `dst`.
pub fn encode(payload: &[u8], dst: &mut Vec<u8>)
    ensures
        final(dst)@ == old(dst)@ + spec_frame(payload@),
{
    let message_len: u64 = payload.len() as u64;
    let mut prefix = u64_to_le_bytes(message_len);
    let ghost head = prefix@;
    dst.append(&mut prefix);
    dst.extend_from_slice(payload);
    assert(dst@ =~= old(dst)@ + (head + payload@));
}

/// Takes one frame off the front of `src` and returns its payload, or
/// leaves `src` as it is where it does not hold a whole frame yet.
pub fn decode(src: &mut Vec<u8>) -> (result: Result<Option<Vec<u8>>, FrameError>)
    ensures
        match spec_decode(old(src)@) {
            Decoded::Incomplete => result == Ok::<Option<Vec<u8>>, FrameError>(None) && final(src)@
                == old(src)@,
            Decoded::TooLong => result == Err::<Option<Vec<u8>>, FrameError>(
                FrameError::MessageLen,
            ) && final(src)@ == old(src)@,
            Decoded::Frame(payload, rest) => result matches Ok(Some(p)) && p@ == payload && final(src)@ == rest,
        },
{
    if src.len() < 8 {
        return Ok(None);
    }
    let announced = u64_from_le_bytes(slice_subrange(src.as_slice(), 0, 8));
    assert(src@.subrange(0, 8) =~= src@.take(8));
    if announced > (usize::MAX - 8) as u64 {
        return Err(FrameError::MessageLen);
    }
    let message_len: usize = announced as usize;
    if src.len() < 8 + message_len {
        return Ok(None);
    }
    let mut rest = src.split_off(8 + message_len);
    let mut payload = src.split_off(8);
    std::mem::swap(src, &mut rest);
    proof {
        assert(payload@ =~= old(src)@.subrange(8, 8 + message_len as int));
        assert(src@ =~= old(src)@.skip(8 + message_len as int));
    }
    Ok(Some(payload))
}

/// A frame that was encoded is decoded again to the same payload, and what
/// followed it in the buffer is left.
pub proof fn lemma_decode_frame(payload: Seq<u8>, rest: Seq<u8>)
    requires
        payload.len() <= usize::MAX - 8,
    ensures
        spec_decode(spec_frame(payload) + rest) == Decoded::Frame(payload, rest),
{
    lemma_auto_spec_u64_to_from_le_bytes();
    let src = spec_frame(payload) + rest;
    let head = spec_u64_to_le_bytes(payload.len() as u64);
    assert(head.len() == 8);
    assert(src.take(8) =~= head);
    assert(src.subrange(8, 8 + payload.len() as int) =~= payload);
    assert(src.skip(8 + payload.len() as int) =~= rest);
}

/// A buffer that holds only the beginning of a frame is left to be filled.
pub proof fn lemma_decode_partial(payload: Seq<u8>, cut: int)
    requires
        payload.len() <= usize::MAX - 8,
        0 <= cut < spec_frame(payload).len(),
    ensures
        spec_decode(spec_frame(payload).take(cut)) is Incomplete,
{
    lemma_auto_spec_u64_to_from_le_bytes();
    let head = spec_u64_to_le_bytes(payload.len() as u64);
    assert(head.len() == 8);
    if cut >= 8 {
        assert(spec_frame(payload).take(cut).take(8) =~= head);
    }
}

/// The codec of a client connection: requests out, responses in.
#[derive(Debug, Clone, Copy)]
pub struct ClientCodec(());

impl ClientCodec {
    /// The codec of a client connection. It keeps nothing between frames.
    pub fn new() -> Self {
        ClientCodec(())
    }

    /// Appends the frame of a serialized request to `dst`.
    pub fn encode(&mut self, item: &[u8], dst: &mut Vec<u8>)
        ensures
            final(dst)@ == old(dst)@ + spec_frame(item@),
    {
        encode(item, dst)
    }

    /// Takes the frame of a serialized response off the front of `src`.
    pub fn decode(&mut self, src: &mut Vec<u8>) -> (result: Result<Option<Vec<u8>>, FrameError>)
        ensures
            match spec_decode(old(src)@) {
                Decoded::Incomplete => result == Ok::<Option<Vec<u8>>, FrameError>(None) && final(src)@ == old(src)@,
                Decoded::TooLong => result == Err::<Option<Vec<u8>>, FrameError>(
                    FrameError::MessageLen,
                ) && final(src)@ == old(src)@,
                Decoded::Frame(payload, rest) => result matches Ok(Some(p)) && p@ == payload
                    && final(src)@ == rest,
            },
    {
        decode(src)
    }
}

/// The codec of a server connection: responses out, requests in.
#[derive(Debug, Clone, Copy)]
pub struct ServerCodec(());

impl ServerCodec {
    /// The codec of a server connection. It keeps nothing between frames.
    pub fn new() -> Self {
        ServerCodec(())
    }

    /// Appends the frame of a serialized response to `dst`.
    pub fn encode(&mut self, item: &[u8], dst: &mut Vec<u8>)
        ensures
            final(dst)@ == old(dst)@ + spec_frame(item@),
    {
        encode(item, dst)
    }

    /// Takes the frame of a serialized request off the front of `src`.
    pub fn decode(&mut self, src: &mut Vec<u8>) -> (result: Result<Option<Vec<u8>>, FrameError>)
        ensures
            match spec_decode(old(src)@) {
                Decoded::Incomplete => result == Ok::<Option<Vec<u8>>, FrameError>(None) && final(src)@ == old(src)@,
                Decoded::TooLong => result == Err::<Option<Vec<u8>>, FrameError>(
                    FrameError::MessageLen,
                ) && final(src)@ == old(src)@,
                Decoded::Frame(payload, rest) => result matches Ok(Some(p)) && p@ == payload
                    && final(src)@ == rest,
            },
    {
        decode(src)
    }
}

/// The codec of a connection between peers.
#[derive(Debug, Clone, Copy)]
pub struct P2PCodec(());

impl P2PCodec {
    /// The codec of a peer connection. It keeps nothing between frames.
    pub fn new() -> Self {
        P2PCodec(())
    }

    /// Appends the frame of a serialized message to `dst`.
    pub fn encode(&mut self, item: &[u8], dst: &mut Vec<u8>)
        ensures
            final(dst)@ == old(dst)@ + spec_frame(item@),
    {
        encode(item, dst)
    }

    /// Takes the frame of a serialized message off the front of `src`.
    pub fn decode(&mut self, src: &mut Vec<u8>) -> (result: Result<Option<Vec<u8>>, FrameError>)
        ensures
            match spec_decode(old(src)@) {
                Decoded::Incomplete => result == Ok::<Option<Vec<u8>>, FrameError>(None) && final(src)@ == old(src)@,
                Decoded::TooLong => result == Err::<Option<Vec<u8>>, FrameError>(
                    FrameError::MessageLen,
                ) && final(src)@ == old(src)@,
                Decoded::Frame(payload, rest) => result matches Ok(Some(p)) && p@ == payload
                    && final(src)@ == rest,
            },
    {
        decode(src)
    }
}

} // verus!
