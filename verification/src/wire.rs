//! Primitive wire encodings: little-endian integers, booleans, raw float
//! bits, prefixed strings and vectors, together with the `Writeable` /
//! `Readable` traits that every packet type implements.
//!
//! Each type is modelled by its view (`Seq` for byte strings, the value
//! itself for plain integers).  A specification-level encoder `enc_v` and
//! decoder `dec_v` are stated over views; the executable `write` and `read`
//! are proved to agree with them exactly.  Every `Readable` type carries
//! two proof obligations: decoding is sound (whatever it accepts is well
//! formed and re-encodes to exactly the bytes consumed) and complete (the
//! encoding of any well-formed value decodes back to that value).
use vstd::prelude::*;

verus! {

use vstd::bytes::lemma_auto_spec_u16_to_from_le_bytes;
use vstd::bytes::lemma_auto_spec_u32_to_from_le_bytes;
use vstd::bytes::lemma_auto_spec_u64_to_from_le_bytes;
use vstd::bytes::spec_u16_from_le_bytes;
use vstd::bytes::spec_u16_to_le_bytes;
use vstd::bytes::spec_u32_from_le_bytes;
use vstd::bytes::spec_u32_to_le_bytes;
use vstd::bytes::spec_u64_from_le_bytes;
use vstd::bytes::spec_u64_to_le_bytes;
use vstd::bytes::u16_from_le_bytes;
use vstd::bytes::u16_to_le_bytes;
use vstd::bytes::u32_from_le_bytes;
use vstd::bytes::u32_to_le_bytes;
use vstd::bytes::u64_from_le_bytes;
use vstd::bytes::u64_to_le_bytes;
use vstd::slice::slice_index_get;
use vstd::slice::slice_subrange;
use vstd::slice::slice_to_vec;

/// Collections longer than this many elements are rejected by the decoder.
pub const MAX_LENGTH: usize = 1048576;

/// Error when decoding a value from the wire.
#[derive(Debug, Clone, Copy, PartialEq, Eq, Structural)]
pub enum Error {
    /// The input ended before the value was complete.
    UnexpectedEof,
    /// A boolean byte held a value other than 0 or 1.
    InvalidBool,
    /// A wide character was not a valid Unicode scalar value.
    InvalidChar,
    /// A length prefix announced a collection larger than the maximum.
    LengthTooLarge,
    /// The leading packet id byte matched no packet in the catalogue.
    UnknownPacketId,
    /// An enumeration discriminant matched no variant.
    InvalidDiscriminant,
    /// An encoded packet body does not fit a two-byte frame length.
    FrameTooLong,
}

/// Splitting a concatenation at the length of its first part recovers
/// the two parts.
pub proof fn lemma_skip_concat(a: Seq<u8>, b: Seq<u8>)
    ensures
        (a + b).skip(a.len() as int) == b,
        (a + b).take(a.len() as int) == a,
{
    assert((a + b).skip(a.len() as int) =~= b);
    assert((a + b).take(a.len() as int) =~= a);
}

/// Skipping twice is skipping the sum.
pub proof fn lemma_skip_skip(s: Seq<u8>, a: int, b: int)
    requires
        0 <= a,
        0 <= b,
        a + b <= s.len(),
    ensures
        s.skip(a).skip(b) == s.skip(a + b),
{
    assert(s.skip(a).skip(b) =~= s.skip(a + b));
}

/// Trait for values that can be written to the wire.
pub trait Writeable: View + Sized {
    /// Well-formedness of a value's view: the value can be represented on
    /// the wire (lengths fit their prefixes, characters are scalar values).
    spec fn wf_v(w: Self::V) -> bool;

    /// The exact byte sequence a view encodes to.
    spec fn enc_v(w: Self::V) -> Seq<u8>;

    /// Appends the encoding of `self` to `buffer`.
    fn write(&self, buffer: &mut Vec<u8>)
        requires
            Self::wf_v(self@),
        ensures
            final(buffer)@ == old(buffer)@ + Self::enc_v(self@),
    ;
}

/// Trait for values that can be read back from the wire.
pub trait Readable: Writeable {
    /// The specification-level decoder: given the bytes from the current
    /// position to the end of the enclosing frame, returns the decoded
    /// view and the number of bytes consumed, or `None` on failure.
    spec fn dec_v(s: Seq<u8>) -> Option<(Self::V, int)>;

    /// True for types whose decoder consumes input relative to the end of
    /// the frame, so that they only round-trip when decoded from a frame
    /// that holds the encoding and nothing else.
    spec fn reads_to_end() -> bool;

    /// Soundness: whatever the decoder accepts is well formed and
    /// re-encodes to exactly the bytes consumed.
    proof fn lemma_dec_sound(s: Seq<u8>)
        ensures
            (match Self::dec_v(s) {
                Some((w, n)) => Self::wf_v(w) && 0 <= n <= s.len() && Self::enc_v(w) == s.take(n),
                None => true,
            }),
    ;

    /// Completeness: the encoding of a well-formed value decodes back to
    /// that value, consuming exactly the encoding.
    proof fn lemma_dec_complete(w: Self::V, rest: Seq<u8>)
        requires
            Self::wf_v(w),
            Self::reads_to_end() ==> rest.len() == 0,
        ensures
            Self::dec_v(Self::enc_v(w) + rest) == Some((w, Self::enc_v(w).len() as int)),
    ;

    /// Reads one value from `buf` starting at `*pos`, advancing `*pos`
    /// past the bytes consumed.  Agrees exactly with `dec_v` on the bytes
    /// from `*pos` to the end of `buf`.
    fn read(buf: &[u8], pos: &mut usize) -> (r: Result<Self, Error>)
        requires
            *old(pos) <= buf@.len(),
        ensures
            (match r {
                Ok(v) => {
                    &&& Self::dec_v(buf@.skip(*old(pos) as int)) == Some(
                        (v@, (*final(pos) - *old(pos)) as int),
                    )
                    &&& *old(pos) <= *final(pos) <= buf@.len()
                },
                Err(_) => Self::dec_v(buf@.skip(*old(pos) as int)) is None,
            }),
    ;
}

impl Writeable for u8 {
    open spec fn wf_v(w: u8) -> bool {
        true
    }

    open spec fn enc_v(w: u8) -> Seq<u8> {
        seq![w]
    }

    fn write(&self, buffer: &mut Vec<u8>) {
        buffer.push(*self);
        assert(buffer@ =~= old(buffer)@ + Self::enc_v(self@));
    }
}

impl Readable for u8 {
    open spec fn dec_v(s: Seq<u8>) -> Option<(u8, int)> {
        if s.len() >= 1 {
            Some((s[0], 1int))
        } else {
            None
        }
    }

    open spec fn reads_to_end() -> bool {
        false
    }

    proof fn lemma_dec_sound(s: Seq<u8>) {
        if s.len() >= 1 {
            assert(Self::enc_v(s[0]) =~= s.take(1));
        }
    }

    proof fn lemma_dec_complete(w: u8, rest: Seq<u8>) {
        assert((Self::enc_v(w) + rest)[0] == w);
    }

    fn read(buf: &[u8], pos: &mut usize) -> (r: Result<u8, Error>) {
        if *pos < buf.len() {
            let b = *slice_index_get(buf, *pos);
            *pos = *pos + 1;
            assert(buf@.skip(*old(pos) as int)[0] == b);
            Ok(b)
        } else {
            assert(buf@.skip(*old(pos) as int).len() == 0);
            Err(Error::UnexpectedEof)
        }
    }
}

impl Writeable for u16 {
    open spec fn wf_v(w: u16) -> bool {
        true
    }

    open spec fn enc_v(w: u16) -> Seq<u8> {
        spec_u16_to_le_bytes(w)
    }

    fn write(&self, buffer: &mut Vec<u8>) {
        let bs = u16_to_le_bytes(*self);
        buffer.extend_from_slice(bs.as_slice());
        assert(buffer@ =~= old(buffer)@ + Self::enc_v(self@));
    }
}

impl Readable for u16 {
    open spec fn dec_v(s: Seq<u8>) -> Option<(u16, int)> {
        if s.len() >= 2 {
            Some((spec_u16_from_le_bytes(s.take(2)), 2int))
        } else {
            None
        }
    }

    open spec fn reads_to_end() -> bool {
        false
    }

    proof fn lemma_dec_sound(s: Seq<u8>) {
        if s.len() >= 2 {
            lemma_auto_spec_u16_to_from_le_bytes();
            assert(Self::enc_v(spec_u16_from_le_bytes(s.take(2))) =~= s.take(2));
        }
    }

    proof fn lemma_dec_complete(w: u16, rest: Seq<u8>) {
        lemma_auto_spec_u16_to_from_le_bytes();
        assert((Self::enc_v(w) + rest).take(2) =~= Self::enc_v(w));
    }

    fn read(buf: &[u8], pos: &mut usize) -> (r: Result<u16, Error>) {
        if buf.len() - *pos >= 2 {
            let sub = slice_subrange(buf, *pos, *pos + 2);
            let v = u16_from_le_bytes(sub);
            *pos = *pos + 2;
            assert(buf@.skip(*old(pos) as int).take(2) =~= sub@);
            Ok(v)
        } else {
            assert(buf@.skip(*old(pos) as int).len() < 2);
            Err(Error::UnexpectedEof)
        }
    }
}

impl Writeable for u32 {
    open spec fn wf_v(w: u32) -> bool {
        true
    }

    open spec fn enc_v(w: u32) -> Seq<u8> {
        spec_u32_to_le_bytes(w)
    }

    fn write(&self, buffer: &mut Vec<u8>) {
        let bs = u32_to_le_bytes(*self);
        buffer.extend_from_slice(bs.as_slice());
        assert(buffer@ =~= old(buffer)@ + Self::enc_v(self@));
    }
}

impl Readable for u32 {
    open spec fn dec_v(s: Seq<u8>) -> Option<(u32, int)> {
        if s.len() >= 4 {
            Some((spec_u32_from_le_bytes(s.take(4)), 4int))
        } else {
            None
        }
    }

    open spec fn reads_to_end() -> bool {
        false
    }

    proof fn lemma_dec_sound(s: Seq<u8>) {
        if s.len() >= 4 {
            lemma_auto_spec_u32_to_from_le_bytes();
            assert(Self::enc_v(spec_u32_from_le_bytes(s.take(4))) =~= s.take(4));
        }
    }

    proof fn lemma_dec_complete(w: u32, rest: Seq<u8>) {
        lemma_auto_spec_u32_to_from_le_bytes();
        assert((Self::enc_v(w) + rest).take(4) =~= Self::enc_v(w));
    }

    fn read(buf: &[u8], pos: &mut usize) -> (r: Result<u32, Error>) {
        if buf.len() - *pos >= 4 {
            let sub = slice_subrange(buf, *pos, *pos + 4);
            let v = u32_from_le_bytes(sub);
            *pos = *pos + 4;
            assert(buf@.skip(*old(pos) as int).take(4) =~= sub@);
            Ok(v)
        } else {
            assert(buf@.skip(*old(pos) as int).len() < 4);
            Err(Error::UnexpectedEof)
        }
    }
}

impl Writeable for u64 {
    open spec fn wf_v(w: u64) -> bool {
        true
    }

    open spec fn enc_v(w: u64) -> Seq<u8> {
        spec_u64_to_le_bytes(w)
    }

    fn write(&self, buffer: &mut Vec<u8>) {
        let bs = u64_to_le_bytes(*self);
        buffer.extend_from_slice(bs.as_slice());
        assert(buffer@ =~= old(buffer)@ + Self::enc_v(self@));
    }
}

impl Readable for u64 {
    open spec fn dec_v(s: Seq<u8>) -> Option<(u64, int)> {
        if s.len() >= 8 {
            Some((spec_u64_from_le_bytes(s.take(8)), 8int))
        } else {
            None
        }
    }

    open spec fn reads_to_end() -> bool {
        false
    }

    proof fn lemma_dec_sound(s: Seq<u8>) {
        if s.len() >= 8 {
            lemma_auto_spec_u64_to_from_le_bytes();
            assert(Self::enc_v(spec_u64_from_le_bytes(s.take(8))) =~= s.take(8));
        }
    }

    proof fn lemma_dec_complete(w: u64, rest: Seq<u8>) {
        lemma_auto_spec_u64_to_from_le_bytes();
        assert((Self::enc_v(w) + rest).take(8) =~= Self::enc_v(w));
    }

    fn read(buf: &[u8], pos: &mut usize) -> (r: Result<u64, Error>) {
        if buf.len() - *pos >= 8 {
            let sub = slice_subrange(buf, *pos, *pos + 8);
            let v = u64_from_le_bytes(sub);
            *pos = *pos + 8;
            assert(buf@.skip(*old(pos) as int).take(8) =~= sub@);
            Ok(v)
        } else {
            assert(buf@.skip(*old(pos) as int).len() < 8);
            Err(Error::UnexpectedEof)
        }
    }
}

impl Writeable for i16 {
    open spec fn wf_v(w: i16) -> bool {
        true
    }

    open spec fn enc_v(w: i16) -> Seq<u8> {
        spec_u16_to_le_bytes(w as u16)
    }

    fn write(&self, buffer: &mut Vec<u8>) {
        let bs = u16_to_le_bytes(*self as u16);
        buffer.extend_from_slice(bs.as_slice());
        assert(buffer@ =~= old(buffer)@ + Self::enc_v(self@));
    }
}

impl Readable for i16 {
    open spec fn dec_v(s: Seq<u8>) -> Option<(i16, int)> {
        if s.len() >= 2 {
            Some((spec_u16_from_le_bytes(s.take(2)) as i16, 2int))
        } else {
            None
        }
    }

    open spec fn reads_to_end() -> bool {
        false
    }

    proof fn lemma_dec_sound(s: Seq<u8>) {
        if s.len() >= 2 {
            lemma_auto_spec_u16_to_from_le_bytes();
            let u = spec_u16_from_le_bytes(s.take(2));
            assert((u as i16) as u16 == u) by (bit_vector);
            assert(Self::enc_v(u as i16) =~= s.take(2));
        }
    }

    proof fn lemma_dec_complete(w: i16, rest: Seq<u8>) {
        lemma_auto_spec_u16_to_from_le_bytes();
        assert((Self::enc_v(w) + rest).take(2) =~= Self::enc_v(w));
        assert((w as u16) as i16 == w) by (bit_vector);
    }

    fn read(buf: &[u8], pos: &mut usize) -> (r: Result<i16, Error>) {
        if buf.len() - *pos >= 2 {
            let sub = slice_subrange(buf, *pos, *pos + 2);
            let u = u16_from_le_bytes(sub);
            let v = u as i16;
            *pos = *pos + 2;
            assert(buf@.skip(*old(pos) as int).take(2) =~= sub@);
            assert((u as i16) as u16 == u) by (bit_vector);
            Ok(v)
        } else {
            assert(buf@.skip(*old(pos) as int).len() < 2);
            Err(Error::UnexpectedEof)
        }
    }
}

impl Writeable for i64 {
    open spec fn wf_v(w: i64) -> bool {
        true
    }

    open spec fn enc_v(w: i64) -> Seq<u8> {
        spec_u64_to_le_bytes(w as u64)
    }

    fn write(&self, buffer: &mut Vec<u8>) {
        let bs = u64_to_le_bytes(*self as u64);
        buffer.extend_from_slice(bs.as_slice());
        assert(buffer@ =~= old(buffer)@ + Self::enc_v(self@));
    }
}

impl Readable for i64 {
    open spec fn dec_v(s: Seq<u8>) -> Option<(i64, int)> {
        if s.len() >= 8 {
            Some((spec_u64_from_le_bytes(s.take(8)) as i64, 8int))
        } else {
            None
        }
    }

    open spec fn reads_to_end() -> bool {
        false
    }

    proof fn lemma_dec_sound(s: Seq<u8>) {
        if s.len() >= 8 {
            lemma_auto_spec_u64_to_from_le_bytes();
            let u = spec_u64_from_le_bytes(s.take(8));
            assert((u as i64) as u64 == u) by (bit_vector);
            assert(Self::enc_v(u as i64) =~= s.take(8));
        }
    }

    proof fn lemma_dec_complete(w: i64, rest: Seq<u8>) {
        lemma_auto_spec_u64_to_from_le_bytes();
        assert((Self::enc_v(w) + rest).take(8) =~= Self::enc_v(w));
        assert((w as u64) as i64 == w) by (bit_vector);
    }

    fn read(buf: &[u8], pos: &mut usize) -> (r: Result<i64, Error>) {
        if buf.len() - *pos >= 8 {
            let sub = slice_subrange(buf, *pos, *pos + 8);
            let u = u64_from_le_bytes(sub);
            let v = u as i64;
            *pos = *pos + 8;
            assert(buf@.skip(*old(pos) as int).take(8) =~= sub@);
            assert((u as i64) as u64 == u) by (bit_vector);
            Ok(v)
        } else {
            assert(buf@.skip(*old(pos) as int).len() < 8);
            Err(Error::UnexpectedEof)
        }
    }
}

impl Writeable for bool {
    open spec fn wf_v(w: bool) -> bool {
        true
    }

    open spec fn enc_v(w: bool) -> Seq<u8> {
        if w {
            seq![1u8]
        } else {
            seq![0u8]
        }
    }

    fn write(&self, buffer: &mut Vec<u8>) {
        let b: u8 = if *self {
            1
        } else {
            0
        };
        buffer.push(b);
        assert(buffer@ =~= old(buffer)@ + Self::enc_v(self@));
    }
}

impl Readable for bool {
    open spec fn dec_v(s: Seq<u8>) -> Option<(bool, int)> {
        if s.len() >= 1 {
            if s[0] == 0 {
                Some((false, 1int))
            } else if s[0] == 1 {
                Some((true, 1int))
            } else {
                None
            }
        } else {
            None
        }
    }

    open spec fn reads_to_end() -> bool {
        false
    }

    proof fn lemma_dec_sound(s: Seq<u8>) {
        if s.len() >= 1 && s[0] == 0 {
            assert(Self::enc_v(false) =~= s.take(1));
        }
        if s.len() >= 1 && s[0] == 1 {
            assert(Self::enc_v(true) =~= s.take(1));
        }
    }

    proof fn lemma_dec_complete(w: bool, rest: Seq<u8>) {
        assert((Self::enc_v(w) + rest)[0] == (if w {
            1u8
        } else {
            0u8
        }));
    }

    fn read(buf: &[u8], pos: &mut usize) -> (r: Result<bool, Error>) {
        if *pos < buf.len() {
            let b = *slice_index_get(buf, *pos);
            assert(buf@.skip(*old(pos) as int)[0] == b);
            if b == 0 {
                *pos = *pos + 1;
                Ok(false)
            } else if b == 1 {
                *pos = *pos + 1;
                Ok(true)
            } else {
                Err(Error::InvalidBool)
            }
        } else {
            assert(buf@.skip(*old(pos) as int).len() == 0);
            Err(Error::UnexpectedEof)
        }
    }
}

/// A boolean byte other than 0 or 1 is a decode failure.
pub proof fn lemma_bool_rejected(s: Seq<u8>)
    requires
        s.len() >= 1,
        s[0] != 0,
        s[0] != 1,
    ensures
        <bool as Readable>::dec_v(s) is None,
{
}

/// The raw little-endian bit pattern of an IEEE 754 single-precision
/// value as it travels on the wire.  Carrying the bits keeps encoding and
/// decoding exact byte-level inverses.
#[derive(Debug, Clone, Copy, PartialEq, Eq, Structural)]
pub struct F32(pub u32);

impl View for F32 {
    type V = F32;

    open spec fn view(&self) -> F32 {
        *self
    }
}

impl Writeable for F32 {
    open spec fn wf_v(w: F32) -> bool {
        true
    }

    open spec fn enc_v(w: F32) -> Seq<u8> {
        spec_u32_to_le_bytes(w.0)
    }

    fn write(&self, buffer: &mut Vec<u8>) {
        let bs = u32_to_le_bytes(self.0);
        buffer.extend_from_slice(bs.as_slice());
        assert(buffer@ =~= old(buffer)@ + Self::enc_v(self@));
    }
}

impl Readable for F32 {
    open spec fn dec_v(s: Seq<u8>) -> Option<(F32, int)> {
        if s.len() >= 4 {
            Some((F32(spec_u32_from_le_bytes(s.take(4))), 4int))
        } else {
            None
        }
    }

    open spec fn reads_to_end() -> bool {
        false
    }

    proof fn lemma_dec_sound(s: Seq<u8>) {
        if s.len() >= 4 {
            lemma_auto_spec_u32_to_from_le_bytes();
            assert(Self::enc_v(F32(spec_u32_from_le_bytes(s.take(4)))) =~= s.take(4));
        }
    }

    proof fn lemma_dec_complete(w: F32, rest: Seq<u8>) {
        lemma_auto_spec_u32_to_from_le_bytes();
        assert((Self::enc_v(w) + rest).take(4) =~= Self::enc_v(w));
    }

    fn read(buf: &[u8], pos: &mut usize) -> (r: Result<F32, Error>) {
        if buf.len() - *pos >= 4 {
            let sub = slice_subrange(buf, *pos, *pos + 4);
            let v = F32(u32_from_le_bytes(sub));
            *pos = *pos + 4;
            assert(buf@.skip(*old(pos) as int).take(4) =~= sub@);
            Ok(v)
        } else {
            assert(buf@.skip(*old(pos) as int).len() < 4);
            Err(Error::UnexpectedEof)
        }
    }
}

} // verus!
