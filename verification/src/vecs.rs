//! Length-prefixed vectors of wire values: a one- or two-byte element
//! count followed by that many encoded elements.  Counts above
//! [`MAX_LENGTH`](crate::wire::MAX_LENGTH) are rejected.
use crate::wire::Error;
use crate::wire::Readable;
use crate::wire::Writeable;
use crate::wire::MAX_LENGTH;
use vstd::prelude::*;

verus! {

use vstd::bytes::lemma_auto_spec_u16_to_from_le_bytes;
use vstd::bytes::spec_u16_from_le_bytes;
use vstd::bytes::spec_u16_to_le_bytes;

/// The views of each element of a sequence of wire values.
pub open spec fn views_of<T: View>(s: Seq<T>) -> Seq<T::V> {
    s.map_values(|t: T| t@)
}

/// The concatenated encodings of a sequence of element views.
pub open spec fn enc_items<T: Writeable>(ws: Seq<T::V>) -> Seq<u8>
    decreases ws.len(),
{
    if ws.len() == 0 {
        Seq::empty()
    } else {
        T::enc_v(ws[0]) + enc_items::<T>(ws.skip(1))
    }
}

/// Every element view is well formed.
pub open spec fn wf_items<T: Writeable>(ws: Seq<T::V>) -> bool {
    forall|i: int| 0 <= i < ws.len() ==> T::wf_v(#[trigger] ws[i])
}

/// Decoder for exactly `count` elements.
pub open spec fn dec_items<T: Readable>(s: Seq<u8>, count: nat) -> Option<(Seq<T::V>, int)>
    decreases count,
{
    if count == 0 {
        Some((Seq::empty(), 0int))
    } else {
        match T::dec_v(s) {
            Some((w, n)) => match dec_items::<T>(s.skip(n), (count - 1) as nat) {
                Some((t, m)) => Some((seq![w] + t, n + m)),
                None => None,
            },
            None => None,
        }
    }
}

/// Extending an element sequence by one extends the concatenated
/// encoding by that element's encoding.
pub proof fn lemma_enc_items_snoc<T: Writeable>(ws: Seq<T::V>, i: int)
    requires
        0 <= i < ws.len(),
    ensures
        enc_items::<T>(ws.take(i + 1)) == enc_items::<T>(ws.take(i)) + T::enc_v(ws[i]),
    decreases i,
{
    if i == 0 {
        assert(ws.take(1)[0] == ws[0]);
        assert(ws.take(1).skip(1) =~= Seq::<T::V>::empty());
        assert(enc_items::<T>(ws.take(1).skip(1)) == Seq::<u8>::empty());
        assert(enc_items::<T>(ws.take(0)) =~= Seq::<u8>::empty());
        assert(enc_items::<T>(ws.take(1)) == T::enc_v(ws.take(1)[0]) + enc_items::<T>(
            ws.take(1).skip(1),
        ));
        assert(enc_items::<T>(ws.take(1)) =~= T::enc_v(ws[0]));
    } else {
        lemma_enc_items_snoc::<T>(ws.skip(1), i - 1);
        assert(ws.take(i + 1).skip(1) =~= ws.skip(1).take(i));
        assert(ws.take(i).skip(1) =~= ws.skip(1).take(i - 1));
        assert(ws.take(i + 1)[0] == ws[0]);
        assert(ws.take(i)[0] == ws[0]);
        assert(enc_items::<T>(ws.take(i + 1)) == T::enc_v(ws[0]) + enc_items::<T>(
            ws.skip(1).take(i),
        ));
        assert(T::enc_v(ws[0]) + (enc_items::<T>(ws.skip(1).take(i - 1)) + T::enc_v(
            ws.skip(1)[i - 1],
        )) =~= (T::enc_v(ws[0]) + enc_items::<T>(ws.skip(1).take(i - 1))) + T::enc_v(ws[i]));
    }
}

/// Soundness of [`dec_items`]: a successful decode yields exactly
/// `count` well-formed elements whose encodings are the consumed bytes.
pub proof fn lemma_dec_items_sound<T: Readable>(s: Seq<u8>, count: nat)
    ensures
        (match dec_items::<T>(s, count) {
            Some((ws, n)) => {
                &&& ws.len() == count
                &&& wf_items::<T>(ws)
                &&& 0 <= n <= s.len()
                &&& enc_items::<T>(ws) == s.take(n)
            },
            None => true,
        }),
    decreases count,
{
    if count > 0 {
        T::lemma_dec_sound(s);
        match T::dec_v(s) {
            Some((w, n)) => {
                lemma_dec_items_sound::<T>(s.skip(n), (count - 1) as nat);
                match dec_items::<T>(s.skip(n), (count - 1) as nat) {
                    Some((t, m)) => {
                        let ws = seq![w] + t;
                        assert(ws.skip(1) =~= t);
                        assert(ws[0] == w);
                        assert(enc_items::<T>(ws) == T::enc_v(w) + enc_items::<T>(t));
                        assert(s.take(n) + s.skip(n).take(m) =~= s.take(n + m));
                        assert forall|i: int| 0 <= i < ws.len() implies T::wf_v(
                            #[trigger] ws[i],
                        ) by {
                            if i > 0 {
                                assert(ws[i] == t[i - 1]);
                            }
                        }
                    },
                    None => {},
                }
            },
            None => {},
        }
    }
}

/// Completeness of [`dec_items`]: the concatenated encoding of
/// well-formed elements decodes back to those elements.
pub proof fn lemma_dec_items_complete<T: Readable>(ws: Seq<T::V>, rest: Seq<u8>)
    requires
        wf_items::<T>(ws),
        !T::reads_to_end(),
    ensures
        dec_items::<T>(enc_items::<T>(ws) + rest, ws.len()) == Some(
            (ws, enc_items::<T>(ws).len() as int),
        ),
    decreases ws.len(),
{
    if ws.len() > 0 {
        let s = enc_items::<T>(ws) + rest;
        let tail = enc_items::<T>(ws.skip(1)) + rest;
        assert(s =~= T::enc_v(ws[0]) + tail);
        T::lemma_dec_complete(ws[0], tail);
        let n = T::enc_v(ws[0]).len() as int;
        assert(s.skip(n) =~= tail);
        assert forall|i: int| 0 <= i < ws.skip(1).len() implies T::wf_v(
            #[trigger] ws.skip(1)[i],
        ) by {
            assert(ws.skip(1)[i] == ws[i + 1]);
        }
        lemma_dec_items_complete::<T>(ws.skip(1), rest);
        assert(seq![ws[0]] + ws.skip(1) =~= ws);
    }
}

/// Writes the encodings of all elements, in order, with no prefix.
pub fn write_items<T: Writeable>(items: &Vec<T>, buffer: &mut Vec<u8>)
    requires
        wf_items::<T>(views_of(items@)),
    ensures
        final(buffer)@ == old(buffer)@ + enc_items::<T>(views_of(items@)),
{
    let mut i: usize = 0;
    assert(enc_items::<T>(views_of(items@).take(0)) =~= Seq::<u8>::empty());
    assert(buffer@ =~= buffer@ + enc_items::<T>(views_of(items@).take(0)));
    while i < items.len()
        invariant
            i <= items@.len(),
            wf_items::<T>(views_of(items@)),
            buffer@ == old(buffer)@ + enc_items::<T>(views_of(items@).take(i as int)),
        decreases items@.len() - i,
    {
        assert(views_of(items@)[i as int] == items@[i as int]@);
        let item = &items[i];
        item.write(buffer);
        proof {
            lemma_enc_items_snoc::<T>(views_of(items@), i as int);
        }
        i = i + 1;
    }
    assert(views_of(items@).take(items@.len() as int) =~= views_of(items@));
}

/// Reads exactly `count` elements starting at `*pos`.
pub fn read_items<T: Readable>(buf: &[u8], pos: &mut usize, count: usize) -> (r: Result<
    Vec<T>,
    Error,
>)
    requires
        *old(pos) <= buf@.len(),
    ensures
        (match r {
            Ok(v) => {
                &&& v@.len() == count
                &&& dec_items::<T>(buf@.skip(*old(pos) as int), count as nat) == Some(
                    (views_of(v@), (*final(pos) - *old(pos)) as int),
                )
                &&& *old(pos) <= *final(pos) <= buf@.len()
            },
            Err(_) => dec_items::<T>(buf@.skip(*old(pos) as int), count as nat) is None,
        }),
{
    let mut items: Vec<T> = Vec::new();
    let mut i: usize = 0;
    proof {
        assert(views_of(items@) =~= Seq::<T::V>::empty());
        let d = dec_items::<T>(buf@.skip(*old(pos) as int), count as nat);
        assert(d matches Some((t, m)) ==> views_of(items@) + t =~= t);
    }
    while i < count
        invariant
            i <= count,
            items@.len() == i,
            *old(pos) <= *pos <= buf@.len(),
            dec_items::<T>(buf@.skip(*old(pos) as int), count as nat) == (match dec_items::<T>(
                buf@.skip(*pos as int),
                (count - i) as nat,
            ) {
                Some((t, m)) => Some(
                    (views_of(items@) + t, (*pos - *old(pos)) as int + m),
                ),
                None => None,
            }),
        decreases count - i,
    {
        let ghost s_here = buf@.skip(*pos as int);
        let ghost pos_before = *pos;
        match T::read(buf, pos) {
            Ok(v) => {
                let ghost prev = items@;
                items.push(v);
                i = i + 1;
                proof {
                    let delta = (*pos - pos_before) as int;
                    assert(buf@.skip(*pos as int) =~= s_here.skip(delta));
                    assert(views_of(items@) =~= views_of(prev) + seq![v@]);
                    match dec_items::<T>(buf@.skip(*pos as int), (count - i) as nat) {
                        Some((t, m)) => {
                            assert((views_of(prev) + seq![v@]) + t =~= views_of(prev) + (seq![v@]
                                + t));
                        },
                        None => {},
                    }
                }
            },
            Err(e) => {
                return Err(e);
            },
        }
    }
    assert(dec_items::<T>(buf@.skip(*pos as int), 0) == Some((Seq::<T::V>::empty(), 0int)));
    assert(views_of(items@) + Seq::<T::V>::empty() =~= views_of(items@));
    Ok(items)
}

/// When every well-formed element encodes to exactly `k` bytes, the
/// concatenated encoding of `ws` has `k * ws.len()` bytes.
pub proof fn lemma_enc_items_len_fixed<T: Writeable>(ws: Seq<T::V>, k: nat)
    requires
        wf_items::<T>(ws),
        forall|w: T::V| T::wf_v(w) ==> (#[trigger] T::enc_v(w)).len() == k,
    ensures
        enc_items::<T>(ws).len() == k * ws.len(),
    decreases ws.len(),
{
    if ws.len() > 0 {
        assert(T::wf_v(ws[0]));
        assert forall|i: int| 0 <= i < ws.skip(1).len() implies T::wf_v(
            #[trigger] ws.skip(1)[i],
        ) by {
            assert(ws.skip(1)[i] == ws[i + 1]);
        }
        lemma_enc_items_len_fixed::<T>(ws.skip(1), k);
        assert(k * ws.len() == k + k * (ws.len() - 1)) by (nonlinear_arith)
            requires ws.len() >= 1;
    }
}

/// Decoder for a counted vector whose count has already been read:
/// counts above [`MAX_LENGTH`] are rejected.
pub open spec fn dec_counted_vec<T: Readable>(s: Seq<u8>, count: nat) -> Option<(Seq<T::V>, int)> {
    if count > MAX_LENGTH {
        None
    } else {
        dec_items::<T>(s, count)
    }
}

/// A vector whose announced length exceeds the maximum is rejected,
/// whatever bytes follow.
pub proof fn lemma_oversized_vector_rejected<T: Readable>(s: Seq<u8>, count: nat)
    requires
        count > MAX_LENGTH,
    ensures
        dec_counted_vec::<T>(s, count) is None,
{
}

/// Encoding of a vector behind a one-byte element count.
pub open spec fn enc_u8_vec<T: Writeable>(ws: Seq<T::V>) -> Seq<u8> {
    seq![ws.len() as u8] + enc_items::<T>(ws)
}

/// Well-formedness of a vector behind a one-byte element count.
pub open spec fn wf_u8_vec<T: Writeable>(ws: Seq<T::V>) -> bool {
    ws.len() <= 255 && wf_items::<T>(ws)
}

/// Decoder for a vector behind a one-byte element count.
pub open spec fn dec_u8_vec<T: Readable>(s: Seq<u8>) -> Option<(Seq<T::V>, int)> {
    if s.len() < 1 {
        None
    } else {
        match dec_counted_vec::<T>(s.skip(1), s[0] as nat) {
            Some((ws, m)) => Some((ws, 1 + m)),
            None => None,
        }
    }
}

pub proof fn lemma_dec_u8_vec_sound<T: Readable>(s: Seq<u8>)
    ensures
        (match dec_u8_vec::<T>(s) {
            Some((ws, n)) => {
                &&& wf_u8_vec::<T>(ws)
                &&& 0 <= n <= s.len()
                &&& enc_u8_vec::<T>(ws) == s.take(n)
            },
            None => true,
        }),
{
    if s.len() >= 1 {
        let cnt = s[0] as nat;
        if cnt <= MAX_LENGTH {
            lemma_dec_items_sound::<T>(s.skip(1), cnt);
            match dec_items::<T>(s.skip(1), cnt) {
                Some((ws, m)) => {
                    assert(enc_u8_vec::<T>(ws) =~= seq![s[0]] + s.skip(1).take(m));
                    assert(seq![s[0]] + s.skip(1).take(m) =~= s.take(1 + m));
                },
                None => {},
            }
        }
    }
}

pub proof fn lemma_dec_u8_vec_complete<T: Readable>(ws: Seq<T::V>, rest: Seq<u8>)
    requires
        wf_u8_vec::<T>(ws),
        !T::reads_to_end(),
    ensures
        dec_u8_vec::<T>(enc_u8_vec::<T>(ws) + rest) == Some(
            (ws, enc_u8_vec::<T>(ws).len() as int),
        ),
{
    let s = enc_u8_vec::<T>(ws) + rest;
    assert(s[0] == ws.len() as u8);
    assert(s.skip(1) =~= enc_items::<T>(ws) + rest);
    lemma_dec_items_complete::<T>(ws, rest);
}

/// Writes a one-byte element count, then every element.
pub fn write_u8_vec<T: Writeable>(items: &Vec<T>, buffer: &mut Vec<u8>)
    requires
        wf_u8_vec::<T>(views_of(items@)),
    ensures
        final(buffer)@ == old(buffer)@ + enc_u8_vec::<T>(views_of(items@)),
{
    let len: u8 = items.len() as u8;
    buffer.push(len);
    write_items::<T>(items, buffer);
    assert(buffer@ =~= old(buffer)@ + enc_u8_vec::<T>(views_of(items@)));
}

/// Reads a one-byte element count, then that many elements.
pub fn read_u8_vec<T: Readable>(buf: &[u8], pos: &mut usize) -> (r: Result<Vec<T>, Error>)
    requires
        *old(pos) <= buf@.len(),
    ensures
        (match r {
            Ok(v) => {
                &&& dec_u8_vec::<T>(buf@.skip(*old(pos) as int)) == Some(
                    (views_of(v@), (*final(pos) - *old(pos)) as int),
                )
                &&& *old(pos) <= *final(pos) <= buf@.len()
            },
            Err(_) => dec_u8_vec::<T>(buf@.skip(*old(pos) as int)) is None,
        }),
{
    let ghost s = buf@.skip(*old(pos) as int);
    let count = match u8::read(buf, pos) {
        Ok(c) => c as usize,
        Err(e) => {
            assert(s.len() == 0);
            return Err(e);
        },
    };
    assert(s[0] == count as u8);
    assert(buf@.skip(*pos as int) =~= s.skip(1));
    match read_items::<T>(buf, pos, count) {
        Ok(v) => Ok(v),
        Err(e) => Err(e),
    }
}

/// Encoding of a vector behind a two-byte little-endian element count.
pub open spec fn enc_u16_vec<T: Writeable>(ws: Seq<T::V>) -> Seq<u8> {
    spec_u16_to_le_bytes(ws.len() as u16) + enc_items::<T>(ws)
}

/// Well-formedness of a vector behind a two-byte element count.
pub open spec fn wf_u16_vec<T: Writeable>(ws: Seq<T::V>) -> bool {
    ws.len() <= 65535 && wf_items::<T>(ws)
}

/// Decoder for a vector behind a two-byte element count.
pub open spec fn dec_u16_vec<T: Readable>(s: Seq<u8>) -> Option<(Seq<T::V>, int)> {
    if s.len() < 2 {
        None
    } else {
        let cnt = spec_u16_from_le_bytes(s.take(2)) as nat;
        match dec_counted_vec::<T>(s.skip(2), cnt) {
            Some((ws, m)) => Some((ws, 2 + m)),
            None => None,
        }
    }
}

pub proof fn lemma_dec_u16_vec_sound<T: Readable>(s: Seq<u8>)
    ensures
        (match dec_u16_vec::<T>(s) {
            Some((ws, n)) => {
                &&& wf_u16_vec::<T>(ws)
                &&& 0 <= n <= s.len()
                &&& enc_u16_vec::<T>(ws) == s.take(n)
            },
            None => true,
        }),
{
    if s.len() >= 2 {
        let cnt = spec_u16_from_le_bytes(s.take(2)) as nat;
        if cnt <= MAX_LENGTH {
            lemma_dec_items_sound::<T>(s.skip(2), cnt);
            match dec_items::<T>(s.skip(2), cnt) {
                Some((ws, m)) => {
                    lemma_auto_spec_u16_to_from_le_bytes();
                    assert(spec_u16_to_le_bytes(ws.len() as u16) =~= s.take(2));
                    assert(enc_u16_vec::<T>(ws) =~= s.take(2) + s.skip(2).take(m));
                    assert(s.take(2) + s.skip(2).take(m) =~= s.take(2 + m));
                },
                None => {},
            }
        }
    }
}

pub proof fn lemma_dec_u16_vec_complete<T: Readable>(ws: Seq<T::V>, rest: Seq<u8>)
    requires
        wf_u16_vec::<T>(ws),
        !T::reads_to_end(),
    ensures
        dec_u16_vec::<T>(enc_u16_vec::<T>(ws) + rest) == Some(
            (ws, enc_u16_vec::<T>(ws).len() as int),
        ),
{
    let s = enc_u16_vec::<T>(ws) + rest;
    lemma_auto_spec_u16_to_from_le_bytes();
    assert(s.take(2) =~= spec_u16_to_le_bytes(ws.len() as u16));
    assert(s.skip(2) =~= enc_items::<T>(ws) + rest);
    lemma_dec_items_complete::<T>(ws, rest);
}

/// Writes a two-byte element count, then every element.
pub fn write_u16_vec<T: Writeable>(items: &Vec<T>, buffer: &mut Vec<u8>)
    requires
        wf_u16_vec::<T>(views_of(items@)),
    ensures
        final(buffer)@ == old(buffer)@ + enc_u16_vec::<T>(views_of(items@)),
{
    let len: u16 = items.len() as u16;
    len.write(buffer);
    write_items::<T>(items, buffer);
    assert(buffer@ =~= old(buffer)@ + enc_u16_vec::<T>(views_of(items@)));
}

/// Reads a two-byte element count, then that many elements.
pub fn read_u16_vec<T: Readable>(buf: &[u8], pos: &mut usize) -> (r: Result<Vec<T>, Error>)
    requires
        *old(pos) <= buf@.len(),
    ensures
        (match r {
            Ok(v) => {
                &&& dec_u16_vec::<T>(buf@.skip(*old(pos) as int)) == Some(
                    (views_of(v@), (*final(pos) - *old(pos)) as int),
                )
                &&& *old(pos) <= *final(pos) <= buf@.len()
            },
            Err(_) => dec_u16_vec::<T>(buf@.skip(*old(pos) as int)) is None,
        }),
{
    let ghost s = buf@.skip(*old(pos) as int);
    let count = match u16::read(buf, pos) {
        Ok(c) => c as usize,
        Err(e) => {
            assert(s.len() < 2);
            return Err(e);
        },
    };
    assert(spec_u16_from_le_bytes(s.take(2)) == count as u16);
    assert(buf@.skip(*pos as int) =~= s.skip(2));
    match read_items::<T>(buf, pos, count) {
        Ok(v) => Ok(v),
        Err(e) => Err(e),
    }
}

} // verus!
