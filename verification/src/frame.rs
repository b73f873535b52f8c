//! Frames: the sole unit that crosses a channel, and their wire format.

use vstd::prelude::*;

verus! {

/// A tagged unit crossing a channel: a data payload, end-of-stream, or an
/// advisory error. `End` is terminal for a single stream; `Error` is
/// informational and non-terminal.
#[derive(Debug, Clone)]
pub enum Frame<T> {
    Data(T),
    End,
    Error,
}

impl<T: View> View for Frame<T> {
    type V = Frame<T::V>;

    open spec fn view(&self) -> Frame<T::V> {
        match self {
            Frame::Data(d) => Frame::Data(d@),
            Frame::End => Frame::End,
            Frame::Error => Frame::Error,
        }
    }
}

impl<T: DeepView> DeepView for Frame<T> {
    type V = Frame<T::V>;

    open spec fn deep_view(&self) -> Frame<T::V> {
        match self {
            Frame::Data(d) => Frame::Data(d.deep_view()),
            Frame::End => Frame::End,
            Frame::Error => Frame::Error,
        }
    }
}

impl<T> Frame<T> {
    /// Applies `f` to the payload of a data frame; `End` and `Error` pass
    /// through unchanged.
    pub fn map<U, F: Fn(T) -> U>(self, f: F) -> (r: Frame<U>)
        requires
            forall|d: T| self == Frame::<T>::Data(d) ==> f.requires((d,)),
        ensures
            match self {
                Frame::Data(d) => r matches Frame::Data(u) && f.ensures((d,), u),
                Frame::End => r == Frame::<U>::End,
                Frame::Error => r == Frame::<U>::Error,
            },
    {
        match self {
            Frame::Data(d) => Frame::Data(f(d)),
            Frame::Error => Frame::Error,
            Frame::End => Frame::End,
        }
    }

    /// Applies a frame-producing `f` to the payload of a data frame; `End`
    /// and `Error` pass through unchanged.
    pub fn flat_map<U, F: Fn(T) -> Frame<U>>(self, f: F) -> (r: Frame<U>)
        requires
            forall|d: T| self == Frame::<T>::Data(d) ==> f.requires((d,)),
        ensures
            match self {
                Frame::Data(d) => f.ensures((d,), r),
                Frame::End => r == Frame::<U>::End,
                Frame::Error => r == Frame::<U>::Error,
            },
    {
        match self {
            Frame::Data(d) => f(d),
            Frame::Error => Frame::Error,
            Frame::End => Frame::End,
        }
    }
}

/// Big-endian bytes of a 32-bit unsigned integer.
pub open spec fn u32_be(n: u32) -> Seq<u8> {
    seq![
        (n >> 24) as u8,
        ((n >> 16) & 0xff) as u8,
        ((n >> 8) & 0xff) as u8,
        (n & 0xff) as u8,
    ]
}

/// The 32-bit unsigned integer read from four big-endian bytes.
pub open spec fn be_u32(b: Seq<u8>) -> u32
    recommends
        b.len() == 4,
{
    (((b[0] as u32) << 24) | ((b[1] as u32) << 16) | ((b[2] as u32) << 8) | (b[3] as u32)) as u32
}

pub proof fn lemma_u32_be_round_trip(n: u32)
    ensures
        be_u32(u32_be(n)) == n,
{
    let b0 = (n >> 24) as u8;
    let b1 = ((n >> 16) & 0xff) as u8;
    let b2 = ((n >> 8) & 0xff) as u8;
    let b3 = (n & 0xff) as u8;
    assert((((b0 as u32) << 24) | ((b1 as u32) << 16) | ((b2 as u32) << 8) | (b3 as u32)) == n)
        by (bit_vector)
        requires
            b0 == (n >> 24) as u8,
            b1 == ((n >> 16) & 0xff) as u8,
            b2 == ((n >> 8) & 0xff) as u8,
            b3 == (n & 0xff) as u8,
    ;
}

/// Wire bytes of a byte frame: `Data(b)` is a zero tag, the payload length as
/// four big-endian bytes, then the payload; `End` is the single byte one;
/// `Error` is the single byte two.
pub open spec fn frame_enc(f: Frame<Seq<u8>>) -> Seq<u8> {
    match f {
        Frame::Data(b) => seq![0u8] + u32_be(b.len() as u32) + b,
        Frame::End => seq![1u8],
        Frame::Error => seq![2u8],
    }
}

/// Total wire decoder for a byte frame. Malformed input (empty buffer, an
/// unknown tag, or a length prefix that overruns the buffer) decodes to
/// `Error`; bytes past the encoded frame are ignored.
pub open spec fn frame_dec(b: Seq<u8>) -> Frame<Seq<u8>> {
    if b.len() == 0 {
        Frame::Error
    } else if b[0] == 0u8 {
        if b.len() >= 5 && be_u32(b.subrange(1, 5)) as int <= b.len() - 5 {
            Frame::Data(b.subrange(5, 5 + be_u32(b.subrange(1, 5)) as int))
        } else {
            Frame::Error
        }
    } else if b[0] == 1u8 {
        Frame::End
    } else {
        Frame::Error
    }
}

/// Every encodable frame decodes back to itself: the round trip through the
/// wire format is the identity on frames whose payload length fits in 32 bits.
pub proof fn lemma_frame_round_trip(f: Frame<Seq<u8>>)
    requires
        f matches Frame::Data(b) ==> b.len() <= u32::MAX,
    ensures
        frame_dec(frame_enc(f)) == f,
{
    match f {
        Frame::Data(b) => {
            let e = frame_enc(f);
            let n = b.len() as u32;
            lemma_u32_be_round_trip(n);
            assert(e.subrange(1, 5) =~= u32_be(n));
            assert(e.subrange(5, 5 + n as int) =~= b);
        }
        Frame::End => {}
        Frame::Error => {}
    }
}

impl Frame<Vec<u8>> {
    /// Serializes a byte frame into its wire bytes.
    pub fn into_bytes(self) -> (r: Vec<u8>)
        requires
            self@ matches Frame::Data(b) ==> b.len() <= u32::MAX,
        ensures
            r@ == frame_enc(self@),
    {
        let mut out: Vec<u8> = Vec::new();
        match self {
            Frame::Data(b) => {
                let n = b.len() as u32;
                out.push(0u8);
                out.push((n >> 24) as u8);
                out.push(((n >> 16) & 0xff) as u8);
                out.push(((n >> 8) & 0xff) as u8);
                out.push((n & 0xff) as u8);
                let mut i: usize = 0;
                while i < b.len()
                    invariant
                        i <= b.len(),
                        out@ == seq![0u8] + u32_be(b.len() as u32) + b@.subrange(0, i as int),
                    decreases b.len() - i,
                {
                    out.push(b[i]);
                    i = i + 1;
                    assert(out@.drop_last() + seq![b@[i - 1]] =~= out@);
                    assert(b@.subrange(0, i - 1) + seq![b@[i - 1]] =~= b@.subrange(0, i as int));
                }
                assert(b@.subrange(0, b@.len() as int) =~= b@);
                assert(out@ =~= frame_enc(self@));
            }
            Frame::End => {
                out.push(1u8);
                assert(out@ =~= frame_enc(self@));
            }
            Frame::Error => {
                out.push(2u8);
                assert(out@ =~= frame_enc(self@));
            }
        }
        out
    }

    /// Parses wire bytes back into a byte frame; malformed input yields
    /// `Error`.
    pub fn from_bytes(b: &[u8]) -> (r: Frame<Vec<u8>>)
        ensures
            r@ == frame_dec(b@),
    {
        if b.len() == 0 {
            return Frame::Error;
        }
        let tag = b[0];
        if tag == 0u8 {
            if b.len() < 5 {
                return Frame::Error;
            }
            let n: u32 = ((b[1] as u32) << 24) | ((b[2] as u32) << 16) | ((b[3] as u32) << 8)
                | (b[4] as u32);
            assert(b@.subrange(1, 5) =~= seq![b@[1], b@[2], b@[3], b@[4]]);
            if (n as usize) > b.len() - 5 {
                return Frame::Error;
            }
            let blen: usize = b.len();
            assert(n as int + 5 <= blen as int);
            let mut payload: Vec<u8> = Vec::new();
            let mut i: usize = 0;
            while i < n as usize
                invariant
                    i <= n,
                    n as int + 5 <= b@.len(),
                    n as int + 5 <= usize::MAX as int,
                    payload@ == b@.subrange(5, 5 + i as int),
                decreases n - i,
            {
                assert(i < n as usize && 5 + n as int <= b@.len());
                payload.push(b[5 + i]);
                i = i + 1;
                assert(b@.subrange(5, 5 + i - 1) + seq![b@[5 + i - 1]] =~= b@.subrange(
                    5,
                    5 + i as int,
                ));
            }
            let r = Frame::Data(payload);
            assert(r@ == frame_dec(b@));
            r
        } else if tag == 1u8 {
            Frame::End
        } else {
            Frame::Error
        }
    }
}

} // verus!
