//! The left join: buffers the right stream, then emits one output per
//! matching pair as left values arrive.

use vstd::prelude::*;

use crate::codec::{dec_frame_m, MxlData, KV};
use crate::ctx::{ctx_recv_model, ctx_send_model, CtxModel, MxlNodeCtx};
use crate::frame::Frame;
use crate::node::{node_send, sent_frame, xform_send_ok, MxlNode, TickError};

verus! {

use core::marker::PhantomData;

/// The input port carrying the left stream.
pub const LEFT_INPUT: u32 = 0;

/// The input port carrying the right stream.
pub const RIGHT_INPUT: u32 = 1;

/// Emitting the join outputs for one left value: one `KV(k, KV(l, r))` per
/// buffered right entry whose key equals `k`, in right insertion order. An
/// unencodable output stops the emission with a tick error.
pub open spec fn emit_matches<K: MxlData, L: MxlData, R: MxlData>(
    m: CtxModel,
    k: K::V,
    l: L::V,
    rb: Seq<KV<K::V, R::V>>,
) -> (CtxModel, Result<(), TickError>)
    decreases rb.len(),
{
    if rb.len() == 0 {
        (m, Ok(()))
    } else if rb[0].0 == k {
        let out = KV(k, KV(l, rb[0].1));
        if xform_send_ok::<KV<K, KV<L, R>>>(out) {
            emit_matches::<K, L, R>(
                ctx_send_model(m, 0, sent_frame::<KV<K, KV<L, R>>>(out)),
                k,
                l,
                rb.skip(1),
            )
        } else {
            (m, Err(TickError))
        }
    } else {
        emit_matches::<K, L, R>(m, k, l, rb.skip(1))
    }
}

/// What the left phase of one tick does, given the buffered right entries:
/// the next left frame, if any, is decoded; a data value emits its matches;
/// the left `End` emits the terminal `End`.
pub open spec fn left_phase_rel<K: MxlData, L: MxlData, R: MxlData>(
    rb: Seq<KV<K::V, R::V>>,
    m: CtxModel,
    m2: CtxModel,
    r: Result<(), TickError>,
) -> bool {
    let (m1, got) = ctx_recv_model(m, LEFT_INPUT);
    match got {
        None => r is Ok && m2 == m1,
        Some(bf) => match dec_frame_m::<KV<K, L>>(bf) {
            Frame::Data(kv) => {
                let (ms, rs) = emit_matches::<K, L, R>(m1, kv.0, kv.1, rb);
                m2 == ms && r == rs
            },
            Frame::End => r is Ok && m2 == ctx_send_model(m1, 0, Frame::End),
            Frame::Error => r is Ok && m2 == m1,
        },
    }
}

/// What one tick of the left join does: while buffering, one right frame is
/// drained (a right data value joins the buffer, the right `End` ends the
/// buffering phase, a right `Error` frame is an operator fault); as soon as
/// buffering is over — possibly on the same tick — the left phase runs.
pub open spec fn join_tick_rel<K: MxlData, L: MxlData, R: MxlData>(
    rb: Seq<KV<K::V, R::V>>,
    buffering: bool,
    rb2: Seq<KV<K::V, R::V>>,
    buffering2: bool,
    m: CtxModel,
    m2: CtxModel,
    r: Result<(), TickError>,
) -> bool {
    if buffering {
        let (m1, got) = ctx_recv_model(m, RIGHT_INPUT);
        match got {
            None => rb2 == rb && buffering2 && r is Ok && m2 == m1,
            Some(bf) => match dec_frame_m::<KV<K, R>>(bf) {
                Frame::Data(kv) => rb2 == rb.push(kv) && buffering2 && r is Ok && m2 == m1,
                Frame::End => rb2 == rb && !buffering2 && left_phase_rel::<K, L, R>(rb, m1, m2, r),
                Frame::Error => rb2 == rb && buffering2 && r is Err && m2 == m1,
            },
        }
    } else {
        rb2 == rb && !buffering2 && left_phase_rel::<K, L, R>(rb, m, m2, r)
    }
}

/// A left join keyed by `K`: drains the right input into an append-only
/// buffer until the right stream ends, then joins each left value against
/// the buffer. Unmatched left keys emit nothing.
#[verifier::reject_recursive_types(K)]
#[verifier::reject_recursive_types(L)]
#[verifier::reject_recursive_types(R)]
pub struct MxlLeftJoin<K: MxlData, L: MxlData, R: MxlData> {
    _left: PhantomData<L>,
    right_buffer: Vec<KV<K, R>>,
    buffering: bool,
}

impl<K: MxlData, L: MxlData, R: MxlData> MxlLeftJoin<K, L, R> {
    /// The models of the buffered right entries, in arrival order.
    pub closed spec fn rights(&self) -> Seq<KV<K::V, R::V>> {
        self.right_buffer.deep_view()
    }

    /// Whether the right stream is still being drained.
    pub closed spec fn is_buffering(&self) -> bool {
        self.buffering
    }

    pub fn new() -> (r: Self)
        ensures
            r.rights() == Seq::<KV<K::V, R::V>>::empty(),
            r.is_buffering(),
    {
        let r = MxlLeftJoin { _left: PhantomData, right_buffer: Vec::new(), buffering: true };
        proof {
            assert(r.rights() =~= Seq::<KV<K::V, R::V>>::empty());
        }
        r
    }

    /// Receives and decodes the next frame of the left stream.
    fn recv_left(&self, ctx: &mut MxlNodeCtx) -> (r: Option<Frame<KV<K, L>>>)
        ensures
            ({
                let (m2, out) = ctx_recv_model(old(ctx).model(), LEFT_INPUT);
                &&& final(ctx).model() == m2
                &&& crate::node::recv_rel::<KV<K, L>>(out, r)
            }),
    {
        if let Some(data) = ctx.recv(LEFT_INPUT) {
            Some(KV::<K, L>::from_buffer_frame(data))
        } else {
            None
        }
    }

    /// Receives and decodes the next frame of the right stream.
    fn recv_right(&self, ctx: &mut MxlNodeCtx) -> (r: Option<Frame<KV<K, R>>>)
        ensures
            ({
                let (m2, out) = ctx_recv_model(old(ctx).model(), RIGHT_INPUT);
                &&& final(ctx).model() == m2
                &&& crate::node::recv_rel::<KV<K, R>>(out, r)
            }),
    {
        if let Some(data) = ctx.recv(RIGHT_INPUT) {
            Some(KV::<K, R>::from_buffer_frame(data))
        } else {
            None
        }
    }

    /// Runs the joining phase for one tick.
    #[verifier::loop_isolation(false)]
    fn left_tick(&self, ctx: &mut MxlNodeCtx) -> (r: Result<(), TickError>)
        ensures
            left_phase_rel::<K, L, R>(self.rights(), old(ctx).model(), final(ctx).model(), r),
    {
        match self.recv_left(ctx) {
            Some(Frame::Data(left)) => {
                let KV(k, l) = left;
                let ghost gk = k.deep_view();
                let ghost gl = l.deep_view();
                let ghost m1 = ctx.model();
                let n = self.right_buffer.len();
                proof {
                    assert(self.rights().skip(0) =~= self.rights());
                }
                let mut i: usize = 0;
                while i < n
                    invariant
                        i <= n,
                        n == self.right_buffer@.len(),
                        emit_matches::<K, L, R>(m1, gk, gl, self.rights()) == emit_matches::<
                            K,
                            L,
                            R,
                        >(ctx.model(), gk, gl, self.rights().skip(i as int)),
                    decreases n - i,
                {
                    let ghost rest = self.rights().skip(i as int);
                    proof {
                        assert(rest[0] == self.rights()[i as int]);
                        assert(rest.skip(1) =~= self.rights().skip(i + 1));
                    }
                    let rkv = &self.right_buffer[i];
                    if rkv.key().md_eq(&k) {
                        let out = KV(k.md_clone(), KV(l.md_clone(), rkv.value().md_clone()));
                        match node_send::<KV<K, KV<L, R>>>(ctx, Frame::Data(out)) {
                            Ok(_) => {}
                            Err(e) => {
                                return Err(e);
                            }
                        }
                    }
                    i = i + 1;
                }
                proof {
                    assert(self.rights().skip(n as int) =~= Seq::<KV<K::V, R::V>>::empty());
                }
                Ok(())
            }
            Some(Frame::End) => {
                node_send::<KV<K, KV<L, R>>>(ctx, Frame::End)?;
                Ok(())
            }
            _ => Ok(()),
        }
    }
}

impl<K: MxlData, L: MxlData, R: MxlData> MxlNode for MxlLeftJoin<K, L, R> {
    fn operation(&self) -> (r: String) {
        "MxlLeftJoin".to_owned()
    }

    fn default_label(&self) -> (r: Option<String>) {
        None
    }

    fn tick(&mut self, ctx: &mut MxlNodeCtx) -> (r: Result<(), TickError>)
        ensures
            join_tick_rel::<K, L, R>(
                old(self).rights(),
                old(self).is_buffering(),
                final(self).rights(),
                final(self).is_buffering(),
                old(ctx).model(),
                final(ctx).model(),
                r,
            ),
    {
        if self.buffering {
            match self.recv_right(ctx) {
                Some(frame) => match frame {
                    Frame::Error => {
                        return Err(TickError);
                    }
                    Frame::Data(right_kv) => {
                        let ghost before = self.rights();
                        self.right_buffer.push(right_kv);
                        proof {
                            assert(self.rights() =~= before.push(
                                self.right_buffer@[self.right_buffer@.len() - 1].deep_view(),
                            ));
                        }
                    }
                    Frame::End => {
                        self.buffering = false;
                    }
                },
                None => {}
            }
        } else {
            return self.left_tick(ctx);
        }
        if !self.buffering {
            return self.left_tick(ctx);
        }
        Ok(())
    }
}

} // verus!
