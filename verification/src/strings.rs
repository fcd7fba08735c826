//! String-like wire values: byte-prefixed strings, UTF-32 wide strings
//! with a one- or two-byte character count, and raw 16-byte MD5 digests.
use crate::wire::Error;
use crate::wire::Readable;
use crate::wire::Writeable;
use vstd::prelude::*;

verus! {

use vstd::bytes::lemma_auto_spec_u16_to_from_le_bytes;
use vstd::bytes::lemma_auto_spec_u32_to_from_le_bytes;
use vstd::bytes::spec_u16_to_le_bytes;
use vstd::bytes::spec_u32_from_le_bytes;
use vstd::bytes::spec_u32_to_le_bytes;
use vstd::bytes::u32_from_le_bytes;
use vstd::bytes::u32_to_le_bytes;
use vstd::slice::slice_subrange;
use vstd::slice::slice_to_vec;

/// A string carried as raw bytes behind a one-byte length prefix.
///
/// The wire format does not constrain the bytes themselves, so any byte
/// sequence of at most 255 bytes round-trips exactly.
#[derive(Debug, Clone, PartialEq, Eq)]
pub struct ByteString(pub Vec<u8>);

impl View for ByteString {
    type V = Seq<u8>;

    open spec fn view(&self) -> Seq<u8> {
        self.0@
    }
}

impl Writeable for ByteString {
    open spec fn wf_v(w: Seq<u8>) -> bool {
        w.len() <= 255
    }

    open spec fn enc_v(w: Seq<u8>) -> Seq<u8> {
        seq![w.len() as u8] + w
    }

    fn write(&self, buffer: &mut Vec<u8>) {
        let len: u8 = self.0.len() as u8;
        buffer.push(len);
        buffer.extend_from_slice(self.0.as_slice());
        assert(buffer@ =~= old(buffer)@ + Self::enc_v(self@));
    }
}

impl Readable for ByteString {
    open spec fn dec_v(s: Seq<u8>) -> Option<(Seq<u8>, int)> {
        if s.len() < 1 {
            None
        } else {
            let n = s[0] as int;
            if s.len() >= 1 + n {
                Some((s.subrange(1, 1 + n), 1 + n))
            } else {
                None
            }
        }
    }

    open spec fn reads_to_end() -> bool {
        false
    }

    proof fn lemma_dec_sound(s: Seq<u8>) {
        if s.len() >= 1 {
            let n = s[0] as int;
            if s.len() >= 1 + n {
                assert(Self::enc_v(s.subrange(1, 1 + n)) =~= s.take(1 + n));
            }
        }
    }

    proof fn lemma_dec_complete(w: Seq<u8>, rest: Seq<u8>) {
        let s = Self::enc_v(w) + rest;
        assert(s[0] == w.len() as u8);
        assert(s.subrange(1, 1 + w.len() as int) =~= w);
    }

    fn read(buf: &[u8], pos: &mut usize) -> (r: Result<ByteString, Error>) {
        let ghost s = buf@.skip(*pos as int);
        if *pos >= buf.len() {
            assert(s.len() == 0);
            return Err(Error::UnexpectedEof);
        }
        let len = *vstd::slice::slice_index_get(buf, *pos) as usize;
        assert(s[0] == buf@[*pos as int]);
        if buf.len() - (*pos + 1) < len {
            assert(s.len() < 1 + len);
            return Err(Error::UnexpectedEof);
        }
        let sub = slice_subrange(buf, *pos + 1, *pos + 1 + len);
        let v = ByteString(slice_to_vec(sub));
        *pos = *pos + 1 + len;
        assert(v@ =~= s.subrange(1, 1 + len as int));
        Ok(v)
    }
}

/// True when `c` is a Unicode scalar value, so a wide character on the
/// wire is acceptable.
pub open spec fn valid_wide_char(c: u32) -> bool {
    c < 0xD800 || (0xE000 <= c && c <= 0x10FFFF)
}

/// Executable mirror of [`valid_wide_char`].
pub fn is_valid_wide_char(c: u32) -> (r: bool)
    ensures
        r == valid_wide_char(c),
{
    c < 0xD800 || (0xE000 <= c && c <= 0x10FFFF)
}

/// Encoding of a sequence of wide characters: four little-endian bytes
/// per character.
pub open spec fn enc_chars(w: Seq<u32>) -> Seq<u8>
    decreases w.len(),
{
    if w.len() == 0 {
        Seq::empty()
    } else {
        spec_u32_to_le_bytes(w[0]) + enc_chars(w.skip(1))
    }
}

/// Decoder for exactly `count` wide characters, each of which must be a
/// Unicode scalar value.
pub open spec fn dec_chars(s: Seq<u8>, count: nat) -> Option<Seq<u32>>
    decreases count,
{
    if count == 0 {
        Some(Seq::empty())
    } else if s.len() >= 4 {
        let c = spec_u32_from_le_bytes(s.take(4));
        if valid_wide_char(c) {
            match dec_chars(s.skip(4), (count - 1) as nat) {
                Some(t) => Some(seq![c] + t),
                None => None,
            }
        } else {
            None
        }
    } else {
        None
    }
}

pub proof fn lemma_enc_chars_len(w: Seq<u32>)
    ensures
        enc_chars(w).len() == 4 * w.len(),
    decreases w.len(),
{
    lemma_auto_spec_u32_to_from_le_bytes();
    if w.len() > 0 {
        lemma_enc_chars_len(w.skip(1));
    }
}

/// Extending a character sequence by one extends its encoding by that
/// character's four bytes.
pub proof fn lemma_enc_chars_snoc(w: Seq<u32>, i: int)
    requires
        0 <= i < w.len(),
    ensures
        enc_chars(w.take(i + 1)) == enc_chars(w.take(i)) + spec_u32_to_le_bytes(w[i]),
    decreases i,
{
    lemma_auto_spec_u32_to_from_le_bytes();
    if i == 0 {
        assert(w.take(1)[0] == w[0]);
        assert(w.take(1).skip(1) =~= Seq::<u32>::empty());
        assert(enc_chars(w.take(1).skip(1)) == Seq::<u8>::empty());
        assert(enc_chars(w.take(0)) =~= Seq::<u8>::empty());
        assert(enc_chars(w.take(1)) == spec_u32_to_le_bytes(w.take(1)[0]) + enc_chars(
            w.take(1).skip(1),
        ));
        assert(enc_chars(w.take(1)) =~= spec_u32_to_le_bytes(w[0]));
    } else {
        lemma_enc_chars_snoc(w.skip(1), i - 1);
        assert(w.take(i + 1).skip(1) =~= w.skip(1).take(i));
        assert(w.take(i).skip(1) =~= w.skip(1).take(i - 1));
        assert(w.take(i + 1)[0] == w[0]);
        assert(w.take(i)[0] == w[0]);
        assert(enc_chars(w.take(i + 1)) == spec_u32_to_le_bytes(w[0]) + enc_chars(w.skip(1).take(i)));
        assert(spec_u32_to_le_bytes(w[0]) + (enc_chars(w.skip(1).take(i - 1)) + spec_u32_to_le_bytes(
            w.skip(1)[i - 1],
        )) =~= (spec_u32_to_le_bytes(w[0]) + enc_chars(w.skip(1).take(i - 1)))
            + spec_u32_to_le_bytes(w[i]));
    }
}

pub proof fn lemma_dec_chars_sound(s: Seq<u8>, count: nat)
    ensures
        (match dec_chars(s, count) {
            Some(w) => {
                &&& w.len() == count
                &&& (forall|i: int| 0 <= i < w.len() ==> valid_wide_char(#[trigger] w[i]))
                &&& s.len() >= 4 * count
                &&& enc_chars(w) == s.take(4 * count as int)
            },
            None => true,
        }),
    decreases count,
{
    if count > 0 && s.len() >= 4 {
        let c = spec_u32_from_le_bytes(s.take(4));
        if valid_wide_char(c) {
            lemma_dec_chars_sound(s.skip(4), (count - 1) as nat);
            match dec_chars(s.skip(4), (count - 1) as nat) {
                Some(t) => {
                    let w = seq![c] + t;
                    assert(w.skip(1) =~= t);
                    lemma_auto_spec_u32_to_from_le_bytes();
                    assert(spec_u32_to_le_bytes(c) =~= s.take(4));
                    assert(s.skip(4).take(4 * (count - 1) as int) =~= s.take(4 * count as int).skip(
                        4,
                    ));
                    assert(enc_chars(w) == spec_u32_to_le_bytes(w[0]) + enc_chars(t));
                    assert(spec_u32_to_le_bytes(c) + s.skip(4).take(4 * (count - 1) as int) =~= s.take(
                        4 * count as int,
                    ));
                },
                None => {},
            }
        }
    }
}

pub proof fn lemma_dec_chars_complete(w: Seq<u32>, rest: Seq<u8>)
    requires
        forall|i: int| 0 <= i < w.len() ==> valid_wide_char(#[trigger] w[i]),
    ensures
        dec_chars(enc_chars(w) + rest, w.len()) == Some(w),
    decreases w.len(),
{
    if w.len() > 0 {
        let s = enc_chars(w) + rest;
        lemma_auto_spec_u32_to_from_le_bytes();
        lemma_enc_chars_len(w.skip(1));
        assert(s.take(4) =~= spec_u32_to_le_bytes(w[0]));
        assert(spec_u32_from_le_bytes(s.take(4)) == w[0]);
        assert(s.skip(4) =~= enc_chars(w.skip(1)) + rest);
        lemma_dec_chars_complete(w.skip(1), rest);
        assert(seq![w[0]] + w.skip(1) =~= w);
    }
}

/// Reads `count` wide characters starting at `*pos`.
fn read_chars(buf: &[u8], pos: &mut usize, count: usize) -> (r: Result<Vec<u32>, Error>)
    requires
        *old(pos) <= buf@.len(),
    ensures
        (match r {
            Ok(v) => {
                &&& dec_chars(buf@.skip(*old(pos) as int), count as nat) == Some(v@)
                &&& *final(pos) == *old(pos) + 4 * count <= buf@.len()
            },
            Err(_) => dec_chars(buf@.skip(*old(pos) as int), count as nat) is None,
        }),
{
    let mut chars: Vec<u32> = Vec::new();
    let mut i: usize = 0;
    proof {
        let d = dec_chars(buf@.skip(*old(pos) as int), count as nat);
        assert(d matches Some(t) ==> chars@ + t =~= t);
    }
    while i < count
        invariant
            i <= count,
            chars@.len() == i,
            *old(pos) <= *pos <= buf@.len(),
            *pos == *old(pos) + 4 * i,
            dec_chars(buf@.skip(*old(pos) as int), count as nat) == (match dec_chars(
                buf@.skip(*pos as int),
                (count - i) as nat,
            ) {
                Some(t) => Some(chars@ + t),
                None => None,
            }),
        decreases count - i,
    {
        let ghost s_here = buf@.skip(*pos as int);
        if buf.len() - *pos < 4 {
            assert(s_here.len() < 4);
            assert(dec_chars(s_here, (count - i) as nat) is None);
            return Err(Error::UnexpectedEof);
        }
        let sub = slice_subrange(buf, *pos, *pos + 4);
        let c = u32_from_le_bytes(sub);
        assert(s_here.take(4) =~= sub@);
        if !is_valid_wide_char(c) {
            assert(dec_chars(s_here, (count - i) as nat) is None);
            return Err(Error::InvalidChar);
        }
        let ghost prev = chars@;
        chars.push(c);
        *pos = *pos + 4;
        i = i + 1;
        proof {
            assert(buf@.skip(*pos as int) =~= s_here.skip(4));
            assert(chars@ =~= prev + seq![c]);
            match dec_chars(buf@.skip(*pos as int), (count - i) as nat) {
                Some(t) => {
                    assert((prev + seq![c]) + t =~= prev + (seq![c] + t));
                },
                None => {},
            }
        }
    }
    assert(dec_chars(buf@.skip(*pos as int), 0) == Some(Seq::<u32>::empty()));
    assert(chars@ + Seq::<u32>::empty() =~= chars@);
    Ok(chars)
}

/// Writes the four little-endian bytes of each character in `w`.
fn write_chars(w: &Vec<u32>, buffer: &mut Vec<u8>)
    ensures
        final(buffer)@ == old(buffer)@ + enc_chars(w@),
{
    let mut i: usize = 0;
    assert(enc_chars(w@.take(0)) =~= Seq::<u8>::empty());
    assert(buffer@ =~= buffer@ + enc_chars(w@.take(0)));
    while i < w.len()
        invariant
            i <= w@.len(),
            buffer@ == old(buffer)@ + enc_chars(w@.take(i as int)),
        decreases w@.len() - i,
    {
        let bs = u32_to_le_bytes(w[i]);
        buffer.extend_from_slice(bs.as_slice());
        proof {
            lemma_enc_chars_snoc(w@, i as int);
        }
        i = i + 1;
    }
    assert(w@.take(w@.len() as int) =~= w@);
}

/// A wide string: UTF-32 little-endian code points behind a one-byte
/// character count.
#[derive(Debug, Clone, PartialEq, Eq)]
pub struct WideString(pub Vec<u32>);

impl View for WideString {
    type V = Seq<u32>;

    open spec fn view(&self) -> Seq<u32> {
        self.0@
    }
}

impl Writeable for WideString {
    open spec fn wf_v(w: Seq<u32>) -> bool {
        &&& w.len() <= 255
        &&& forall|i: int| 0 <= i < w.len() ==> valid_wide_char(#[trigger] w[i])
    }

    open spec fn enc_v(w: Seq<u32>) -> Seq<u8> {
        seq![w.len() as u8] + enc_chars(w)
    }

    fn write(&self, buffer: &mut Vec<u8>) {
        let len: u8 = self.0.len() as u8;
        buffer.push(len);
        write_chars(&self.0, buffer);
        assert(buffer@ =~= old(buffer)@ + Self::enc_v(self@));
    }
}

impl Readable for WideString {
    open spec fn dec_v(s: Seq<u8>) -> Option<(Seq<u32>, int)> {
        if s.len() < 1 {
            None
        } else {
            let n = s[0] as nat;
            match dec_chars(s.skip(1), n) {
                Some(w) => Some((w, 1 + 4 * n as int)),
                None => None,
            }
        }
    }

    open spec fn reads_to_end() -> bool {
        false
    }

    proof fn lemma_dec_sound(s: Seq<u8>) {
        if s.len() >= 1 {
            let n = s[0] as nat;
            lemma_dec_chars_sound(s.skip(1), n);
            match dec_chars(s.skip(1), n) {
                Some(w) => {
                    assert(Self::enc_v(w) =~= seq![s[0]] + s.skip(1).take(4 * n as int));
                    assert(seq![s[0]] + s.skip(1).take(4 * n as int) =~= s.take(1 + 4 * n as int));
                },
                None => {},
            }
        }
    }

    proof fn lemma_dec_complete(w: Seq<u32>, rest: Seq<u8>) {
        let s = Self::enc_v(w) + rest;
        assert(s[0] == w.len() as u8);
        assert(s.skip(1) =~= enc_chars(w) + rest);
        lemma_dec_chars_complete(w, rest);
        lemma_enc_chars_len(w);
    }

    fn read(buf: &[u8], pos: &mut usize) -> (r: Result<WideString, Error>) {
        let ghost s = buf@.skip(*pos as int);
        if *pos >= buf.len() {
            assert(s.len() == 0);
            return Err(Error::UnexpectedEof);
        }
        let len = *vstd::slice::slice_index_get(buf, *pos) as usize;
        assert(s[0] == buf@[*pos as int]);
        *pos = *pos + 1;
        assert(buf@.skip(*pos as int) =~= s.skip(1));
        match read_chars(buf, pos, len) {
            Ok(chars) => Ok(WideString(chars)),
            Err(e) => Err(e),
        }
    }
}

/// A wide string behind a two-byte character count, used only by the
/// welcome message.
#[derive(Debug, Clone, PartialEq, Eq)]
pub struct BigWideString(pub Vec<u32>);

impl View for BigWideString {
    type V = Seq<u32>;

    open spec fn view(&self) -> Seq<u32> {
        self.0@
    }
}

impl Writeable for BigWideString {
    open spec fn wf_v(w: Seq<u32>) -> bool {
        &&& w.len() <= 65535
        &&& forall|i: int| 0 <= i < w.len() ==> valid_wide_char(#[trigger] w[i])
    }

    open spec fn enc_v(w: Seq<u32>) -> Seq<u8> {
        spec_u16_to_le_bytes(w.len() as u16) + enc_chars(w)
    }

    fn write(&self, buffer: &mut Vec<u8>) {
        let len: u16 = self.0.len() as u16;
        len.write(buffer);
        write_chars(&self.0, buffer);
        assert(buffer@ =~= old(buffer)@ + Self::enc_v(self@));
    }
}

impl Readable for BigWideString {
    open spec fn dec_v(s: Seq<u8>) -> Option<(Seq<u32>, int)> {
        match <u16 as Readable>::dec_v(s) {
            Some((len, _)) => {
                match dec_chars(s.skip(2), len as nat) {
                    Some(w) => Some((w, 2 + 4 * len as int)),
                    None => None,
                }
            },
            None => None,
        }
    }

    open spec fn reads_to_end() -> bool {
        false
    }

    proof fn lemma_dec_sound(s: Seq<u8>) {
        if s.len() >= 2 {
            let len = vstd::bytes::spec_u16_from_le_bytes(s.take(2));
            lemma_dec_chars_sound(s.skip(2), len as nat);
            match dec_chars(s.skip(2), len as nat) {
                Some(w) => {
                    lemma_auto_spec_u16_to_from_le_bytes();
                    assert(spec_u16_to_le_bytes(len) =~= s.take(2));
                    assert(Self::enc_v(w) =~= s.take(2) + s.skip(2).take(4 * len as int));
                    assert(s.take(2) + s.skip(2).take(4 * len as int) =~= s.take(2 + 4 * len as int));
                },
                None => {},
            }
        }
    }

    proof fn lemma_dec_complete(w: Seq<u32>, rest: Seq<u8>) {
        let s = Self::enc_v(w) + rest;
        lemma_auto_spec_u16_to_from_le_bytes();
        assert(s.take(2) =~= spec_u16_to_le_bytes(w.len() as u16));
        assert(s.skip(2) =~= enc_chars(w) + rest);
        lemma_dec_chars_complete(w, rest);
        lemma_enc_chars_len(w);
    }

    fn read(buf: &[u8], pos: &mut usize) -> (r: Result<BigWideString, Error>) {
        let ghost s = buf@.skip(*pos as int);
        let len = match u16::read(buf, pos) {
            Ok(l) => l as usize,
            Err(e) => {
                return Err(e);
            },
        };
        assert(buf@.skip(*pos as int) =~= s.skip(2));
        match read_chars(buf, pos, len) {
            Ok(chars) => Ok(BigWideString(chars)),
            Err(e) => Err(e),
        }
    }
}

/// A raw 16-byte MD5 digest, carried on the wire with no length prefix.
#[derive(Debug, Clone, PartialEq, Eq)]
pub struct MD5Array(pub Vec<u8>);

impl View for MD5Array {
    type V = Seq<u8>;

    open spec fn view(&self) -> Seq<u8> {
        self.0@
    }
}

impl Writeable for MD5Array {
    open spec fn wf_v(w: Seq<u8>) -> bool {
        w.len() == 16
    }

    open spec fn enc_v(w: Seq<u8>) -> Seq<u8> {
        w
    }

    fn write(&self, buffer: &mut Vec<u8>) {
        buffer.extend_from_slice(self.0.as_slice());
    }
}

impl Readable for MD5Array {
    open spec fn dec_v(s: Seq<u8>) -> Option<(Seq<u8>, int)> {
        if s.len() >= 16 {
            Some((s.take(16), 16int))
        } else {
            None
        }
    }

    open spec fn reads_to_end() -> bool {
        false
    }

    proof fn lemma_dec_sound(s: Seq<u8>) {
    }

    proof fn lemma_dec_complete(w: Seq<u8>, rest: Seq<u8>) {
        assert((w + rest).take(16) =~= w);
    }

    fn read(buf: &[u8], pos: &mut usize) -> (r: Result<MD5Array, Error>) {
        let ghost s = buf@.skip(*pos as int);
        if buf.len() - *pos < 16 {
            assert(s.len() < 16);
            return Err(Error::UnexpectedEof);
        }
        let sub = slice_subrange(buf, *pos, *pos + 16);
        let v = MD5Array(slice_to_vec(sub));
        *pos = *pos + 16;
        assert(v@ =~= s.take(16));
        Ok(v)
    }
}

/// An optional wire value: one boolean, then the value if the boolean
/// was true.
#[derive(Debug, Clone, PartialEq, Eq)]
pub enum Optional<T> {
    /// The boolean prefix was 0 and no value follows.
    Absent,
    /// The boolean prefix was 1 and the value follows.
    Present(T),
}

impl<T: View> View for Optional<T> {
    type V = Option<T::V>;

    open spec fn view(&self) -> Option<T::V> {
        match self {
            Optional::Absent => None,
            Optional::Present(t) => Some(t@),
        }
    }
}

impl<T: Readable> Writeable for Optional<T> {
    open spec fn wf_v(w: Option<T::V>) -> bool {
        match w {
            Some(tv) => T::wf_v(tv),
            None => true,
        }
    }

    open spec fn enc_v(w: Option<T::V>) -> Seq<u8> {
        match w {
            None => seq![0u8],
            Some(tv) => seq![1u8] + T::enc_v(tv),
        }
    }

    fn write(&self, buffer: &mut Vec<u8>) {
        match self {
            Optional::Absent => {
                buffer.push(0);
                assert(buffer@ =~= old(buffer)@ + Self::enc_v(self@));
            },
            Optional::Present(t) => {
                buffer.push(1);
                t.write(buffer);
                assert(buffer@ =~= old(buffer)@ + Self::enc_v(self@));
            },
        }
    }
}

impl<T: Readable> Readable for Optional<T> {
    open spec fn dec_v(s: Seq<u8>) -> Option<(Option<T::V>, int)> {
        if s.len() < 1 {
            None
        } else if s[0] == 0 {
            Some((None, 1int))
        } else if s[0] == 1 {
            match T::dec_v(s.skip(1)) {
                Some((tv, n)) => Some((Some(tv), 1 + n)),
                None => None,
            }
        } else {
            None
        }
    }

    open spec fn reads_to_end() -> bool {
        T::reads_to_end()
    }

    proof fn lemma_dec_sound(s: Seq<u8>) {
        if s.len() >= 1 {
            if s[0] == 0 {
                assert(Self::enc_v(None) =~= s.take(1));
            } else if s[0] == 1 {
                T::lemma_dec_sound(s.skip(1));
                if let Some((tv, n)) = T::dec_v(s.skip(1)) {
                    assert(Self::enc_v(Some(tv)) =~= seq![1u8] + s.skip(1).take(n));
                    assert(seq![1u8] + s.skip(1).take(n) =~= s.take(1 + n));
                }
            }
        }
    }

    proof fn lemma_dec_complete(w: Option<T::V>, rest: Seq<u8>) {
        match w {
            None => {
                assert((Self::enc_v(w) + rest)[0] == 0u8);
            },
            Some(tv) => {
                let s = Self::enc_v(w) + rest;
                assert(s[0] == 1u8);
                assert(s.skip(1) =~= T::enc_v(tv) + rest);
                T::lemma_dec_complete(tv, rest);
            },
        }
    }

    fn read(buf: &[u8], pos: &mut usize) -> (r: Result<Optional<T>, Error>) {
        let ghost s = buf@.skip(*pos as int);
        let b = match u8::read(buf, pos) {
            Ok(b) => b,
            Err(e) => {
                return Err(e);
            },
        };
        assert(s[0] == b);
        if b == 0 {
            Ok(Optional::Absent)
        } else if b == 1 {
            assert(buf@.skip(*pos as int) =~= s.skip(1));
            match T::read(buf, pos) {
                Ok(t) => Ok(Optional::Present(t)),
                Err(e) => Err(e),
            }
        } else {
            Err(Error::InvalidBool)
        }
    }
}

} // verus!
