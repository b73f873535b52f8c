//! The typed-value capability: every value that crosses a channel can be
//! encoded into a byte frame and decoded back from one.
//!
//! Contracts are stated over each type's deep view (its mathematical model):
//! `encv` gives the payload bytes of a model value, `decv` is the defensive
//! payload decoder, and the per-type round-trip law says that `decv` inverts
//! `encv` on every encodable value.

use vstd::prelude::*;

use crate::frame::{be_u32, u32_be, Frame};

verus! {

use vstd::utf8::{decode_utf8, encode_utf8, valid_utf8};

/// The capability required of node input/output values: encoding to and
/// decoding from byte frames, plus an executable equality that agrees with
/// equality of models (used for join and group keys).
pub trait MxlData: DeepView + Sized {
    /// Whether this type's values encode as a `Data` payload. Every type but
    /// unit does; unit encodes as the bare `End` frame and does not round-trip.
    spec fn data_framed() -> bool;

    /// Whether the model value is encodable (element payloads fit in 32-bit
    /// lengths, and no element encodes to a non-data frame).
    spec fn enc_okv(v: Self::V) -> bool;

    /// The payload bytes of an encodable model value.
    spec fn encv(v: Self::V) -> Seq<u8>;

    /// The defensive payload decoder: `None` means the bytes are malformed
    /// for this type and the decoded frame is `Error`.
    spec fn decv(b: Seq<u8>) -> Option<Self::V>;

    /// A type that does not encode its values as a data payload decodes no
    /// payload either.
    proof fn lemma_not_data_framed(b: Seq<u8>)
        ensures
            !Self::data_framed() ==> Self::decv(b) is None,
    ;

    /// The round-trip law: decoding an encoded value gives that value back.
    proof fn lemma_round_trip(v: Self::V)
        requires
            Self::enc_okv(v),
        ensures
            Self::decv(Self::encv(v)) == Some(v),
    ;

    /// Encodes this value into a byte frame; an unencodable value is a hard
    /// error, never truncated.
    fn into_buffer_frame(self) -> (r: Result<Frame<Vec<u8>>, ()>)
        ensures
            Self::data_framed() ==> match r {
                Ok(f) => f@ matches Frame::Data(b) && Self::enc_okv(self.deep_view()) && b
                    == Self::encv(self.deep_view()),
                Err(_) => !Self::enc_okv(self.deep_view()),
            },
            !Self::data_framed() ==> r == Ok::<Frame<Vec<u8>>, ()>(Frame::End),
    ;

    /// Decodes a byte frame into a typed frame; a malformed payload decodes
    /// to `Error`, and `End` and `Error` pass through.
    fn from_buffer_frame(f: Frame<Vec<u8>>) -> (r: Frame<Self>)
        ensures
            Self::data_framed() ==> r.deep_view() == match f@ {
                Frame::Data(b) => match Self::decv(b) {
                    Some(m) => Frame::Data(m),
                    None => Frame::Error,
                },
                Frame::End => Frame::End,
                Frame::Error => Frame::Error,
            },
            !Self::data_framed() ==> r == Frame::<Self>::End,
    ;

    /// Equality of values, agreeing with equality of their models.
    fn md_eq(&self, other: &Self) -> (r: bool)
        ensures
            r == (self.deep_view() == other.deep_view()),
    ;

    /// A copy of the value with the same model.
    fn md_clone(&self) -> (r: Self)
        ensures
            r.deep_view() == self.deep_view(),
    ;

    /// The short name of this type, recorded in graph metadata as the input
    /// or output type of a node; generic parameters are not spelled out,
    /// matching how `format_node_type` truncates them.
    fn type_label() -> String;
}

/// The typed frame that decoding a byte frame yields, at the model level.
pub open spec fn dec_frame_m<T: MxlData>(f: Frame<Seq<u8>>) -> Frame<T::V> {
    match f {
        Frame::Data(b) => match T::decv(b) {
            Some(m) => Frame::Data(m),
            None => Frame::Error,
        },
        Frame::End => Frame::End,
        Frame::Error => Frame::Error,
    }
}

/// The byte frame that encoding a value yields, at the model level, for
/// data-framed types.
pub open spec fn enc_frame_m<T: MxlData>(v: T::V) -> Frame<Seq<u8>>
    recommends
        T::enc_okv(v),
{
    Frame::Data(T::encv(v))
}

/// Decoding an encoded value's frame gives exactly that value's data frame:
/// the frame codec round-trips on every encodable value of every
/// data-framed type.
pub proof fn lemma_codec_round_trip<T: MxlData>(v: T::V)
    requires
        T::enc_okv(v),
    ensures
        dec_frame_m::<T>(enc_frame_m::<T>(v)) == Frame::<T::V>::Data(v),
{
    T::lemma_round_trip(v);
}

/// Copies the byte range `[start, end)` out of a slice.
pub fn bytes_range(b: &[u8], start: usize, end: usize) -> (r: Vec<u8>)
    requires
        start <= end <= b@.len(),
    ensures
        r@ == b@.subrange(start as int, end as int),
{
    let mut out: Vec<u8> = Vec::new();
    let mut i: usize = start;
    while i < end
        invariant
            start <= i <= end <= b@.len(),
            out@ == b@.subrange(start as int, i as int),
        decreases end - i,
    {
        out.push(b[i]);
        i = i + 1;
        assert(b@.subrange(start as int, i - 1) + seq![b@[i - 1]] =~= b@.subrange(
            start as int,
            i as int,
        ));
    }
    out
}

/// Appends the four big-endian bytes of `n` to `out`.
pub fn push_u32_be(out: &mut Vec<u8>, n: u32)
    ensures
        final(out)@ == old(out)@ + u32_be(n),
{
    out.push((n >> 24) as u8);
    out.push(((n >> 16) & 0xff) as u8);
    out.push(((n >> 8) & 0xff) as u8);
    out.push((n & 0xff) as u8);
    assert(final(out)@ =~= old(out)@ + u32_be(n));
}

/// Reads the four big-endian bytes starting at `pos`.
pub fn read_u32_be(b: &[u8], pos: usize) -> (r: u32)
    requires
        pos + 4 <= b@.len(),
    ensures
        r == be_u32(b@.subrange(pos as int, pos + 4)),
{
    let r = ((b[pos] as u32) << 24) | ((b[pos + 1] as u32) << 16) | ((b[pos + 2] as u32) << 8) | (
    b[pos + 3] as u32);
    assert(b@.subrange(pos as int, pos + 4) =~= seq![
        b@[pos as int],
        b@[pos + 1],
        b@[pos + 2],
        b@[pos + 3],
    ]);
    r
}

impl MxlData for u32 {
    open spec fn data_framed() -> bool {
        true
    }

    open spec fn enc_okv(v: u32) -> bool {
        true
    }

    open spec fn encv(v: u32) -> Seq<u8> {
        u32_be(v)
    }

    open spec fn decv(b: Seq<u8>) -> Option<u32> {
        if b.len() >= 4 {
            Some(be_u32(b.subrange(0, 4)))
        } else {
            None
        }
    }

    proof fn lemma_not_data_framed(b: Seq<u8>) {
    }

    proof fn lemma_round_trip(v: u32) {
        crate::frame::lemma_u32_be_round_trip(v);
        assert(u32_be(v).subrange(0, 4) =~= u32_be(v));
    }

    fn into_buffer_frame(self) -> (r: Result<Frame<Vec<u8>>, ()>) {
        let mut out: Vec<u8> = Vec::new();
        push_u32_be(&mut out, self);
        Ok(Frame::Data(out))
    }

    fn from_buffer_frame(f: Frame<Vec<u8>>) -> (r: Frame<u32>) {
        match f {
            Frame::Data(b) => {
                if b.len() < 4 {
                    Frame::Error
                } else {
                    Frame::Data(read_u32_be(b.as_slice(), 0))
                }
            }
            Frame::End => Frame::End,
            Frame::Error => Frame::Error,
        }
    }

    fn md_eq(&self, other: &Self) -> (r: bool) {
        *self == *other
    }

    fn md_clone(&self) -> (r: Self) {
        *self
    }
    fn type_label() -> (r: String) {
        "u32".to_owned()
    }
}

impl MxlData for () {
    open spec fn data_framed() -> bool {
        false
    }

    open spec fn enc_okv(v: ()) -> bool {
        false
    }

    open spec fn encv(v: ()) -> Seq<u8> {
        Seq::empty()
    }

    open spec fn decv(b: Seq<u8>) -> Option<()> {
        None
    }

    proof fn lemma_not_data_framed(b: Seq<u8>) {
    }

    proof fn lemma_round_trip(v: ()) {
    }

    fn into_buffer_frame(self) -> (r: Result<Frame<Vec<u8>>, ()>) {
        Ok(Frame::End)
    }

    fn from_buffer_frame(f: Frame<Vec<u8>>) -> (r: Frame<()>) {
        Frame::End
    }

    fn md_eq(&self, other: &Self) -> (r: bool) {
        true
    }

    fn md_clone(&self) -> (r: Self) {
    }
    fn type_label() -> (r: String) {
        "()".to_owned()
    }
}

/// Relies on `String::into_bytes`: returns the UTF-8 bytes of the string.
#[verifier::external_body]
fn string_into_bytes(s: String) -> (r: Vec<u8>)
    ensures
        r@ == encode_utf8(s@),
{
    s.into_bytes()
}

/// Relies on `String::from_utf8`: returns the string whose UTF-8 encoding is
/// the given bytes, and fails exactly on invalid UTF-8.
#[verifier::external_body]
pub(crate) fn string_from_utf8(v: Vec<u8>) -> (r: Option<String>)
    ensures
        match r {
            Some(s) => valid_utf8(v@) && s@ == decode_utf8(v@),
            None => !valid_utf8(v@),
        },
{
    match String::from_utf8(v) {
        Ok(s) => Some(s),
        Err(_) => None,
    }
}

impl MxlData for String {
    open spec fn data_framed() -> bool {
        true
    }

    open spec fn enc_okv(v: Seq<char>) -> bool {
        true
    }

    open spec fn encv(v: Seq<char>) -> Seq<u8> {
        encode_utf8(v)
    }

    open spec fn decv(b: Seq<u8>) -> Option<Seq<char>> {
        if valid_utf8(b) {
            Some(decode_utf8(b))
        } else {
            None
        }
    }

    proof fn lemma_not_data_framed(b: Seq<u8>) {
    }

    proof fn lemma_round_trip(v: Seq<char>) {
        broadcast use vstd::utf8::encode_utf8_valid_utf8, vstd::utf8::encode_utf8_decode_utf8;

    }

    fn into_buffer_frame(self) -> (r: Result<Frame<Vec<u8>>, ()>) {
        Ok(Frame::Data(string_into_bytes(self)))
    }

    fn from_buffer_frame(f: Frame<Vec<u8>>) -> (r: Frame<String>) {
        match f {
            Frame::Data(b) => {
                match string_from_utf8(b) {
                    Some(s) => Frame::Data(s),
                    None => Frame::Error,
                }
            }
            Frame::End => Frame::End,
            Frame::Error => Frame::Error,
        }
    }

    fn md_eq(&self, other: &Self) -> (r: bool) {
        self.eq(other)
    }

    fn md_clone(&self) -> (r: Self) {
        self.clone()
    }
    fn type_label() -> (r: String) {
        "String".to_owned()
    }
}


impl<T: MxlData> MxlData for Option<T> {
    open spec fn data_framed() -> bool {
        true
    }

    open spec fn enc_okv(v: Option<T::V>) -> bool {
        match v {
            None => true,
            Some(m) => T::data_framed() && T::enc_okv(m),
        }
    }

    open spec fn encv(v: Option<T::V>) -> Seq<u8> {
        match v {
            None => seq![0u8],
            Some(m) => seq![1u8] + T::encv(m),
        }
    }

    open spec fn decv(b: Seq<u8>) -> Option<Option<T::V>> {
        if b.len() == 0 {
            None
        } else if b[0] == 0u8 {
            Some(None)
        } else {
            match T::decv(b.subrange(1, b.len() as int)) {
                Some(m) => Some(Some(m)),
                None => None,
            }
        }
    }

    proof fn lemma_not_data_framed(b: Seq<u8>) {
    }

    proof fn lemma_round_trip(v: Option<T::V>) {
        match v {
            None => {}
            Some(m) => {
                T::lemma_round_trip(m);
                let e = seq![1u8] + T::encv(m);
                assert(e.subrange(1, e.len() as int) =~= T::encv(m));
            }
        }
    }

    fn into_buffer_frame(self) -> (r: Result<Frame<Vec<u8>>, ()>) {
        let mut out: Vec<u8> = Vec::new();
        match self {
            Some(v) => {
                out.push(1u8);
                match v.into_buffer_frame() {
                    Ok(Frame::Data(mut eb)) => {
                        out.append(&mut eb);
                        assert(out@ =~= Self::encv(self.deep_view()));
                        Ok(Frame::Data(out))
                    }
                    _ => Err(()),
                }
            }
            None => {
                out.push(0u8);
                assert(out@ =~= Self::encv(self.deep_view()));
                Ok(Frame::Data(out))
            }
        }
    }

    fn from_buffer_frame(f: Frame<Vec<u8>>) -> (r: Frame<Option<T>>) {
        match f {
            Frame::Data(b) => {
                if b.len() == 0 {
                    return Frame::Error;
                }
                if b[0] == 0u8 {
                    return Frame::Data(None);
                }
                let rest = bytes_range(b.as_slice(), 1, b.len());
                proof {
                    T::lemma_not_data_framed(b@.subrange(1, b@.len() as int));
                }
                match T::from_buffer_frame(Frame::Data(rest)) {
                    Frame::Data(v) => Frame::Data(Some(v)),
                    _ => Frame::Error,
                }
            }
            Frame::End => Frame::End,
            Frame::Error => Frame::Error,
        }
    }

    fn md_eq(&self, other: &Self) -> (r: bool) {
        match (self, other) {
            (None, None) => true,
            (Some(a), Some(b)) => a.md_eq(b),
            _ => false,
        }
    }

    fn md_clone(&self) -> (r: Self) {
        match self {
            None => None,
            Some(a) => Some(a.md_clone()),
        }
    }

    fn type_label() -> (r: String) {
        "Option".to_owned()
    }
}

/// A key-value pair: the canonical shape for join-able streams.
#[derive(Debug, Clone)]
pub struct KV<K, V>(pub K, pub V);

impl<K: DeepView, V: DeepView> DeepView for KV<K, V> {
    type V = KV<K::V, V::V>;

    open spec fn deep_view(&self) -> KV<K::V, V::V> {
        KV(self.0.deep_view(), self.1.deep_view())
    }
}

impl<K, V> KV<K, V> {
    pub fn into_parts(self) -> (r: (K, V))
        ensures
            r.0 == self.0,
            r.1 == self.1,
    {
        (self.0, self.1)
    }

    pub fn key(&self) -> (r: &K)
        ensures
            r == &self.0,
    {
        &self.0
    }

    pub fn value(&self) -> (r: &V)
        ensures
            r == &self.1,
    {
        &self.1
    }
}

impl<K: MxlData, V: MxlData> MxlData for KV<K, V> {
    open spec fn data_framed() -> bool {
        true
    }

    open spec fn enc_okv(v: KV<K::V, V::V>) -> bool {
        &&& K::data_framed()
        &&& V::data_framed()
        &&& K::enc_okv(v.0)
        &&& V::enc_okv(v.1)
        &&& K::encv(v.0).len() <= u32::MAX
        &&& V::encv(v.1).len() <= u32::MAX
    }

    open spec fn encv(v: KV<K::V, V::V>) -> Seq<u8> {
        u32_be(K::encv(v.0).len() as u32) + u32_be(V::encv(v.1).len() as u32) + K::encv(v.0)
            + V::encv(v.1)
    }

    open spec fn decv(b: Seq<u8>) -> Option<KV<K::V, V::V>> {
        if b.len() < 8 {
            None
        } else {
            let kl = be_u32(b.subrange(0, 4)) as int;
            let vl = be_u32(b.subrange(4, 8)) as int;
            if 8 + kl + vl > b.len() {
                None
            } else {
                match (K::decv(b.subrange(8, 8 + kl)), V::decv(b.subrange(8 + kl, 8 + kl + vl))) {
                    (Some(k), Some(v)) => Some(KV(k, v)),
                    _ => None,
                }
            }
        }
    }

    proof fn lemma_not_data_framed(b: Seq<u8>) {
    }

    proof fn lemma_round_trip(v: KV<K::V, V::V>) {
        K::lemma_round_trip(v.0);
        V::lemma_round_trip(v.1);
        let kb = K::encv(v.0);
        let vb = V::encv(v.1);
        let e = Self::encv(v);
        crate::frame::lemma_u32_be_round_trip(kb.len() as u32);
        crate::frame::lemma_u32_be_round_trip(vb.len() as u32);
        assert(e.subrange(0, 4) =~= u32_be(kb.len() as u32));
        assert(e.subrange(4, 8) =~= u32_be(vb.len() as u32));
        assert(e.subrange(8, 8 + kb.len() as int) =~= kb);
        assert(e.subrange(8 + kb.len() as int, 8 + kb.len() as int + vb.len() as int) =~= vb);
    }

    fn into_buffer_frame(self) -> (r: Result<Frame<Vec<u8>>, ()>) {
        let KV(k, v) = self;
        let kf = k.into_buffer_frame();
        let vf = v.into_buffer_frame();
        match (kf, vf) {
            (Ok(Frame::Data(mut kb)), Ok(Frame::Data(mut vb))) => {
                if kb.len() > u32::MAX as usize || vb.len() > u32::MAX as usize {
                    return Err(());
                }
                let mut out: Vec<u8> = Vec::new();
                push_u32_be(&mut out, kb.len() as u32);
                push_u32_be(&mut out, vb.len() as u32);
                out.append(&mut kb);
                out.append(&mut vb);
                assert(out@ =~= Self::encv(self.deep_view()));
                Ok(Frame::Data(out))
            }
            _ => Err(()),
        }
    }

    fn from_buffer_frame(f: Frame<Vec<u8>>) -> (r: Frame<KV<K, V>>) {
        match f {
            Frame::Data(b) => {
                if b.len() < 8 {
                    return Frame::Error;
                }
                let kl = read_u32_be(b.as_slice(), 0) as usize;
                let vl = read_u32_be(b.as_slice(), 4) as usize;
                if kl > b.len() - 8 || vl > b.len() - 8 - kl {
                    return Frame::Error;
                }
                let kb = bytes_range(b.as_slice(), 8, 8 + kl);
                let vb = bytes_range(b.as_slice(), 8 + kl, 8 + kl + vl);
                proof {
                    K::lemma_not_data_framed(b@.subrange(8, 8 + kl as int));
                    V::lemma_not_data_framed(b@.subrange(8 + kl as int, 8 + kl + vl));
                }
                match (K::from_buffer_frame(Frame::Data(kb)), V::from_buffer_frame(
                    Frame::Data(vb),
                )) {
                    (Frame::Data(k), Frame::Data(v)) => Frame::Data(KV(k, v)),
                    _ => Frame::Error,
                }
            }
            Frame::End => Frame::End,
            Frame::Error => Frame::Error,
        }
    }

    fn md_eq(&self, other: &Self) -> (r: bool) {
        self.0.md_eq(&other.0) && self.1.md_eq(&other.1)
    }

    fn md_clone(&self) -> (r: Self) {
        KV(self.0.md_clone(), self.1.md_clone())
    }

    fn type_label() -> (r: String) {
        "KV".to_owned()
    }
}


/// Payload bytes of a sequence: each element is its 32-bit big-endian payload
/// length followed by its payload; an empty sequence is zero bytes.
pub open spec fn elems_enc<V: MxlData>(s: Seq<V::V>) -> Seq<u8>
    decreases s.len(),
{
    if s.len() == 0 {
        Seq::empty()
    } else {
        u32_be(V::encv(s[0]).len() as u32) + V::encv(s[0]) + elems_enc::<V>(s.skip(1))
    }
}

/// Defensive decoder for a non-empty sequence payload: reads one
/// length-prefixed element at a time and stops when fewer than four bytes
/// remain (ignoring them), as the wire format prescribes.
pub open spec fn elems_dec<V: MxlData>(b: Seq<u8>) -> Option<Seq<V::V>>
    recommends
        b.len() >= 4,
    decreases b.len(),
{
    let n = be_u32(b.subrange(0, 4)) as int;
    if 4 + n > b.len() {
        None
    } else {
        match V::decv(b.subrange(4, 4 + n)) {
            None => None,
            Some(v) => {
                let rest = b.subrange(4 + n, b.len() as int);
                if rest.len() < 4 {
                    Some(seq![v])
                } else {
                    match elems_dec::<V>(rest) {
                        None => None,
                        Some(t) => Some(seq![v] + t),
                    }
                }
            }
        }
    }
}

impl<V: MxlData> MxlData for Vec<V> {
    open spec fn data_framed() -> bool {
        true
    }

    open spec fn enc_okv(s: Seq<V::V>) -> bool {
        &&& (s.len() == 0 || V::data_framed())
        &&& forall|i: int|
            0 <= i < s.len() ==> V::enc_okv(#[trigger] s[i]) && V::encv(s[i]).len() <= u32::MAX
    }

    open spec fn encv(s: Seq<V::V>) -> Seq<u8> {
        elems_enc::<V>(s)
    }

    open spec fn decv(b: Seq<u8>) -> Option<Seq<V::V>> {
        if b.len() == 0 {
            Some(Seq::empty())
        } else if b.len() < 4 {
            None
        } else {
            elems_dec::<V>(b)
        }
    }

    proof fn lemma_not_data_framed(b: Seq<u8>) {
    }

    proof fn lemma_round_trip(s: Seq<V::V>) {
        if s.len() > 0 {
            lemma_elems_round_trip::<V>(s);
            lemma_elems_enc_len::<V>(s);
        }
    }

    #[verifier::loop_isolation(false)]
    fn into_buffer_frame(self) -> (r: Result<Frame<Vec<u8>>, ()>) {
        let ghost orig: Seq<V::V> = self.deep_view();
        let mut sv = self;
        let mut out: Vec<u8> = Vec::new();
        let ghost i: int = 0;
        proof {
            assert(sv.deep_view() =~= orig.skip(0));
            assert(out@ + elems_enc::<V>(orig.skip(0)) =~= elems_enc::<V>(orig.skip(0)));
            assert(orig.skip(0) =~= orig);
        }
        while sv.len() > 0
            invariant
                0 <= i <= orig.len(),
                sv.deep_view() =~= orig.skip(i),
                forall|j: int|
                    0 <= j < i ==> V::enc_okv(#[trigger] orig[j]) && V::encv(orig[j]).len()
                        <= u32::MAX && V::data_framed(),
                elems_enc::<V>(orig) == out@ + elems_enc::<V>(orig.skip(i)),
            decreases sv@.len(),
        {
            assert(orig.skip(i).len() > 0);
            let ghost old_deep = sv.deep_view();
            let ghost old_vs = sv@;
            let v = sv.remove(0);
            proof {
                assert(v.deep_view() == old_deep[0]);
                assert(old_deep[0] == orig.skip(i)[0]);
                assert(orig.skip(i)[0] == orig[i]);
                assert forall|j: int| 0 <= j < sv@.len() implies sv.deep_view()[j]
                    == orig.skip(i + 1)[j] by {
                    assert(sv@[j] == old_vs.remove(0)[j]);
                    assert(old_vs.remove(0)[j] == old_vs[j + 1]);
                    assert(sv.deep_view()[j] == sv@[j].deep_view());
                    assert(old_vs[j + 1].deep_view() == old_deep[j + 1]);
                    assert(old_deep[j + 1] == orig.skip(i)[j + 1]);
                    assert(orig.skip(i)[j + 1] == orig[i + 1 + j]);
                }
                assert(sv.deep_view() =~= orig.skip(i + 1));
            }
            match v.into_buffer_frame() {
                Ok(Frame::Data(mut eb)) => {
                    if eb.len() > u32::MAX as usize {
                        proof {
                            assert(0 <= i < orig.len());
                            assert(V::data_framed());
                            assert(!(V::enc_okv(orig[i]) && V::encv(orig[i]).len() <= u32::MAX));
                            assert(!Self::enc_okv(orig));
                                                    }
                        return Err(());
                    }
                    push_u32_be(&mut out, eb.len() as u32);
                    out.append(&mut eb);
                    proof {
                        assert(orig.skip(i).skip(1) =~= orig.skip(i + 1));
                        assert(elems_enc::<V>(orig.skip(i)) == u32_be(
                            V::encv(orig[i]).len() as u32,
                        ) + V::encv(orig[i]) + elems_enc::<V>(orig.skip(i + 1)));
                        i = i + 1;
                    }
                }
                other => {
                    proof {
                        assert(0 <= i < orig.len());
                        if V::data_framed() {
                            assert(other is Err || !(other->Ok_0 matches Frame::Data(_)));
                            assert(!V::enc_okv(orig[i]));
                        }
                        assert(!Self::enc_okv(orig));
                    }
                    return Err(());
                }
            }
        }
        proof {
            assert(sv@.len() == 0);
            assert(sv.deep_view().len() == sv@.len());
            assert(sv.deep_view().len() == 0);
            assert(i == orig.len());
            assert(orig.skip(i).len() == 0);
            assert(out@ + elems_enc::<V>(orig.skip(i)) =~= out@);
            assert(out@ == elems_enc::<V>(orig));
            if orig.len() > 0 {
                assert(V::data_framed());
            }
            assert(Self::enc_okv(orig));
        }
        Ok(Frame::Data(out))
    }

    #[verifier::loop_isolation(false)]
    fn from_buffer_frame(f: Frame<Vec<u8>>) -> (r: Frame<Vec<V>>) {
        match f {
            Frame::Data(b) => {
                if b.len() == 0 {
                    let empty: Vec<V> = Vec::new();
                    assert(empty.deep_view() =~= Seq::<V::V>::empty());
                    return Frame::Data(empty);
                }
                if b.len() < 4 {
                    return Frame::Error;
                }
                let mut out: Vec<V> = Vec::new();
                let mut pos: usize = 0;
                assert(b@.subrange(0, b@.len() as int) =~= b@);
                loop
                    invariant
                        pos + 4 <= b@.len(),
                        elems_dec::<V>(b@) == match elems_dec::<V>(
                            b@.subrange(pos as int, b@.len() as int),
                        ) {
                            Some(t) => Some(out.deep_view() + t),
                            None => None::<Seq<V::V>>,
                        },
                    decreases b@.len() - pos,
                {
                    let ghost rest = b@.subrange(pos as int, b@.len() as int);
                    let n32 = read_u32_be(b.as_slice(), pos);
                    proof {
                        assert(rest.subrange(0, 4) =~= b@.subrange(pos as int, pos + 4));
                    }
                    let n = n32 as usize;
                    if n > b.len() - pos - 4 {
                        return Frame::Error;
                    }
                    let eb = bytes_range(b.as_slice(), pos + 4, pos + 4 + n);
                    proof {
                        assert(rest.subrange(4, 4 + n as int) =~= b@.subrange(
                            pos + 4,
                            pos + 4 + n as int,
                        ));
                        V::lemma_not_data_framed(rest.subrange(4, 4 + n as int));
                    }
                    match V::from_buffer_frame(Frame::Data(eb)) {
                        Frame::Data(v) => {
                            let ghost old_out = out.deep_view();
                            out.push(v);
                            proof {
                                assert(out.deep_view() =~= old_out + seq![v.deep_view()]);
                            }
                        }
                        _ => {
                            return Frame::Error;
                        }
                    }
                    let newpos = pos + 4 + n;
                    proof {
                        assert(rest.subrange(4 + n as int, rest.len() as int) =~= b@.subrange(
                            newpos as int,
                            b@.len() as int,
                        ));
                    }
                    if b.len() - newpos < 4 {
                        proof {
                            assert(b@.subrange(newpos as int, b@.len() as int).len() < 4);
                        }
                        let r = Frame::Data(out);
                        assert(r.deep_view() == Frame::<Seq<V::V>>::Data(out.deep_view()));
                        return r;
                    }
                    pos = newpos;
                }
            }
            Frame::End => Frame::End,
            Frame::Error => Frame::Error,
        }
    }

    fn md_eq(&self, other: &Self) -> (r: bool) {
        if self.len() != other.len() {
            proof {
                assert(self.deep_view().len() != other.deep_view().len());
            }
            return false;
        }
        let mut i: usize = 0;
        while i < self.len()
            invariant
                i <= self@.len(),
                self@.len() == other@.len(),
                forall|j: int| 0 <= j < i ==> self.deep_view()[j] == other.deep_view()[j],
            decreases self@.len() - i,
        {
            if !self[i].md_eq(&other[i]) {
                proof {
                    assert(self.deep_view()[i as int] != other.deep_view()[i as int]);
                }
                return false;
            }
            i = i + 1;
        }
        proof {
            assert(self.deep_view() =~= other.deep_view());
        }
        true
    }

    #[verifier::loop_isolation(false)]
    fn md_clone(&self) -> (r: Self) {
        let mut out: Vec<V> = Vec::new();
        let mut i: usize = 0;
        while i < self.len()
            invariant
                i <= self@.len(),
                out.deep_view() =~= self.deep_view().take(i as int),
            decreases self@.len() - i,
        {
            let ghost before = out.deep_view();
            out.push(self[i].md_clone());
            proof {
                assert(out.deep_view() =~= before.push(self@[i as int].deep_view()));
                assert(out.deep_view() =~= self.deep_view().take(i + 1));
            }
            i = i + 1;
        }
        proof {
            assert(self.deep_view().take(self@.len() as int) =~= self.deep_view());
        }
        out
    }

    fn type_label() -> (r: String) {
        "Vec".to_owned()
    }
}

/// The encoding of a non-empty sequence is at least four bytes long.
proof fn lemma_elems_enc_len<V: MxlData>(s: Seq<V::V>)
    requires
        s.len() > 0,
    ensures
        elems_enc::<V>(s).len() >= 4,
{
}

/// Decoding an encoded non-empty sequence yields exactly that sequence.
proof fn lemma_elems_round_trip<V: MxlData>(s: Seq<V::V>)
    requires
        s.len() > 0,
        V::data_framed(),
        forall|i: int|
            0 <= i < s.len() ==> V::enc_okv(#[trigger] s[i]) && V::encv(s[i]).len() <= u32::MAX,
    ensures
        elems_dec::<V>(elems_enc::<V>(s)) == Some(s),
    decreases s.len(),
{
    let h = s[0];
    let hb = V::encv(h);
    let e = elems_enc::<V>(s);
    let tail_e = elems_enc::<V>(s.skip(1));
    crate::frame::lemma_u32_be_round_trip(hb.len() as u32);
    assert(e.subrange(0, 4) =~= u32_be(hb.len() as u32));
    assert(e.subrange(4, 4 + hb.len() as int) =~= hb);
    V::lemma_round_trip(h);
    let rest = e.subrange(4 + hb.len() as int, e.len() as int);
    assert(rest =~= tail_e);
    if s.len() == 1 {
        assert(tail_e.len() == 0);
        assert(seq![h] =~= s);
    } else {
        assert(forall|i: int|
            0 <= i < s.skip(1).len() ==> V::enc_okv(#[trigger] s.skip(1)[i]) && V::encv(
                s.skip(1)[i],
            ).len() <= u32::MAX);
        lemma_elems_enc_len::<V>(s.skip(1));
        lemma_elems_round_trip::<V>(s.skip(1));
        assert(seq![h] + s.skip(1) =~= s);
    }
}

} // verus!
