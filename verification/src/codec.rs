//! Length-prefixed stream framing.
//!
//! A frame on the byte stream is a two-byte little-endian length followed
//! by that many payload bytes.  The codec holds a residual receive buffer,
//! so it is safe to feed it reads of any size: the packets it yields are a
//! function of the concatenated bytes alone, never of how the stream was
//! split.
use crate::wire::Error;
use crate::wire::Readable;
use crate::wire::Writeable;
use vstd::prelude::*;

verus! {

use vstd::bytes::spec_u16_from_le_bytes;
use vstd::bytes::spec_u16_to_le_bytes;
use vstd::slice::slice_subrange;

#[verifier::external_type_specification]
#[verifier::external_body]
pub struct ExBytesMut(bytes::BytesMut);

/// The bytes a [`bytes::BytesMut`] buffer holds, in order.
pub uninterp spec fn bm_bytes(b: bytes::BytesMut) -> Seq<u8>;

/// Relies on `bytes::BytesMut::new`: a new buffer is empty.
#[verifier::external_body]
fn bm_new() -> (r: bytes::BytesMut)
    ensures
        bm_bytes(r) == Seq::<u8>::empty(),
{
    bytes::BytesMut::new()
}

/// Relies on `bytes::BytesMut::extend_from_slice`: appends the given
/// bytes to the buffer.
#[verifier::external_body]
fn bm_extend(b: &mut bytes::BytesMut, data: &[u8])
    ensures
        bm_bytes(*final(b)) == bm_bytes(*old(b)) + data@,
{
    b.extend_from_slice(data);
}

/// Relies on `bytes::BytesMut::len`: the number of bytes held.
#[verifier::external_body]
fn bm_len(b: &bytes::BytesMut) -> (r: usize)
    ensures
        r == bm_bytes(*b).len(),
{
    b.len()
}

/// Relies on `bytes::BytesMut::as_ref`: a slice of the bytes held.
#[verifier::external_body]
fn bm_as_slice(b: &bytes::BytesMut) -> (r: &[u8])
    ensures
        r@ == bm_bytes(*b),
{
    b.as_ref()
}

/// Relies on `bytes::BytesMut::split_off`: splits at `at` and keeps the
/// tail, dropping the `at` bytes already consumed.
#[verifier::external_body]
fn bm_discard_prefix(b: &mut bytes::BytesMut, at: usize)
    requires
        at <= bm_bytes(*old(b)).len(),
    ensures
        bm_bytes(*final(b)) == bm_bytes(*old(b)).skip(at as int),
{
    let tail = b.split_off(at);
    *b = tail;
}

/// The framing of a payload: a two-byte little-endian length, then the
/// payload bytes.
pub open spec fn spec_frame(body: Seq<u8>) -> Seq<u8> {
    spec_u16_to_le_bytes(body.len() as u16) + body
}

/// The next complete frame at the front of the stream, if one is there:
/// its payload and the number of stream bytes it occupies.
pub open spec fn spec_next_frame(s: Seq<u8>) -> Option<(Seq<u8>, int)> {
    if s.len() < 2 {
        None
    } else {
        let len = spec_u16_from_le_bytes(s.take(2)) as int;
        if s.len() - 2 < len {
            None
        } else {
            Some((s.subrange(2, 2 + len), 2 + len))
        }
    }
}

/// The packets of a byte stream: frames are taken from the front as long
/// as they are complete and their payloads decode.
pub open spec fn stream_packets<T: Readable>(s: Seq<u8>) -> Seq<T::V>
    decreases s.len(),
{
    match spec_next_frame(s) {
        None => Seq::empty(),
        Some((frame, consumed)) => match T::dec_v(frame) {
            Some((w, n)) => seq![w] + stream_packets::<T>(s.skip(consumed)),
            None => Seq::empty(),
        },
    }
}

/// The packet sequence of a stream depends only on the concatenation of
/// the bytes, never on how the stream was partitioned into reads: a
/// residue `s` followed by `x` and then `y` is the same stream as `s`
/// followed by `x + y` at once.
pub proof fn lemma_partition_independent<T: Readable>(s: Seq<u8>, x: Seq<u8>, y: Seq<u8>)
    ensures
        stream_packets::<T>((s + x) + y) == stream_packets::<T>(s + (x + y)),
{
    assert((s + x) + y =~= s + (x + y));
}

/// One framing step: when a complete frame whose payload decodes is at
/// the front, the stream's packets are that packet followed by the
/// packets of the remaining stream.
pub proof fn lemma_stream_step<T: Readable>(s: Seq<u8>)
    requires
        spec_next_frame(s) matches Some((frame, consumed)) && T::dec_v(frame) is Some,
    ensures
        (match spec_next_frame(s) {
            Some((frame, consumed)) => match T::dec_v(frame) {
                Some((w, n)) => stream_packets::<T>(s) == seq![w] + stream_packets::<T>(
                    s.skip(consumed),
                ),
                None => false,
            },
            None => false,
        }),
{
}

/// The stream codec: a residual receive buffer on the decode side and a
/// staging buffer on the encode side.
pub struct Codec {
    received_buf: bytes::BytesMut,
    staging_buf: Vec<u8>,
}

impl View for Codec {
    type V = Seq<u8>;

    /// The residual received bytes not yet consumed by a frame.
    closed spec fn view(&self) -> Seq<u8> {
        bm_bytes(self.received_buf)
    }
}

impl Codec {
    /// The staging buffer is empty between calls.
    pub closed spec fn wf(&self) -> bool {
        self.staging_buf@.len() == 0
    }

    /// Creates an empty codec.
    pub fn new() -> (r: Codec)
        ensures
            r.wf(),
            r@ == Seq::<u8>::empty(),
    {
        Codec { received_buf: bm_new(), staging_buf: Vec::new() }
    }

    /// Appends newly received bytes to the residual buffer.
    pub fn accept(&mut self, data: &[u8])
        ensures
            final(self).wf() == old(self).wf(),
            final(self)@ == old(self)@ + data@,
    {
        bm_extend(&mut self.received_buf, data);
    }

    /// Encodes one packet as a length-prefixed frame appended to
    /// `output`.  Fails, writing nothing, exactly when the packet body
    /// does not fit a two-byte length.
    pub fn encode<T: Writeable>(&mut self, packet: &T, output: &mut Vec<u8>) -> (r: Result<
        (),
        Error,
    >)
        requires
            T::wf_v(packet@),
            old(self).wf(),
        ensures
            final(self).wf(),
            final(self)@ == old(self)@,
            (match r {
                Ok(_) => T::enc_v(packet@).len() <= 65535 && final(output)@ == old(output)@
                    + spec_frame(T::enc_v(packet@)),
                Err(e) => {
                    &&& e == Error::FrameTooLong
                    &&& T::enc_v(packet@).len() > 65535
                    &&& final(output)@ == old(output)@
                },
            }),
    {
        packet.write(&mut self.staging_buf);
        if self.staging_buf.len() > 65535 {
            self.staging_buf.clear();
            return Err(Error::FrameTooLong);
        }
        let len: u16 = self.staging_buf.len() as u16;
        len.write(output);
        output.extend_from_slice(self.staging_buf.as_slice());
        self.staging_buf.clear();
        assert(output@ =~= old(output)@ + spec_frame(T::enc_v(packet@)));
        Ok(())
    }

    /// Decodes one bare payload, as a datagram carries it: no length
    /// prefix, one packet per datagram.
    pub fn decode<T: Readable>(&mut self, input: &[u8]) -> (r: Result<Option<T>, Error>)
        ensures
            *final(self) == *old(self),
            (match r {
                Ok(opt) => (match opt {
                    Some(v) => T::dec_v(input@) matches Some((w, n)) && v@ == w,
                    None => false,
                }),
                Err(_) => T::dec_v(input@) is None,
            }),
    {
        let mut pos: usize = 0;
        assert(input@.skip(0) =~= input@);
        match T::read(input, &mut pos) {
            Ok(v) => Ok(Some(v)),
            Err(e) => Err(e),
        }
    }

    /// Yields the next complete frame's packet.
    ///
    /// Returns `Ok(None)`, leaving the buffer unchanged, while no
    /// complete frame has arrived; consumes the whole frame and returns
    /// its packet when the payload decodes; and fails, leaving the buffer
    /// unchanged, when a complete frame's payload does not decode.
    pub fn next_packet<T: Readable>(&mut self) -> (r: Result<Option<T>, Error>)
        ensures
            final(self).wf() == old(self).wf(),
            (match spec_next_frame(old(self)@) {
                None => r matches Ok(opt) && opt is None && final(self)@ == old(self)@,
                Some((frame, consumed)) => (match T::dec_v(frame) {
                    Some((w, n)) => {
                        &&& (match r {
                            Ok(opt) => opt matches Some(v) && v@ == w,
                            Err(_) => false,
                        })
                        &&& final(self)@ == old(self)@.skip(consumed)
                    },
                    None => r is Err && final(self)@ == old(self)@,
                }),
            }),
    {
        let total = bm_len(&self.received_buf);
        if total < 2 {
            return Ok(None);
        }
        let slice = bm_as_slice(&self.received_buf);
        let mut hdr_pos: usize = 0;
        let length = match u16::read(slice, &mut hdr_pos) {
            Ok(l) => l as usize,
            Err(_) => {
                return Ok(None);
            },
        };
        assert(slice@.skip(0) =~= slice@);
        assert(slice@.take(2) =~= slice@.skip(0).take(2));
        if total - 2 < length {
            return Ok(None);
        }
        let frame = slice_subrange(slice, 2, 2 + length);
        assert(frame@ =~= old(self)@.subrange(2, 2 + length as int));
        let mut pos: usize = 0;
        assert(frame@.skip(0) =~= frame@);
        let packet = match T::read(frame, &mut pos) {
            Ok(v) => v,
            Err(e) => {
                return Err(e);
            },
        };
        bm_discard_prefix(&mut self.received_buf, 2 + length);
        Ok(Some(packet))
    }
}

/// Whether the stream is in the handshake or the steady state.
#[derive(Debug, Clone, Copy, PartialEq, Eq, Hash, Structural)]
pub enum ProtocolState {
    Handshake,
    Play,
}

} // verus!
