//! The batch transform: accumulates inputs and emits them in fixed-size
//! groups, flushing any partial group at end of stream.

use vstd::prelude::*;

use crate::codec::{dec_frame_m, MxlData};
use crate::ctx::{
    ctx_recv_finished, ctx_recv_model, ctx_send_model, ctx_total_in, lemma_ctx_recv_decreases,
    CtxModel, MxlNodeCtx,
};
use crate::frame::Frame;
use crate::node::{node_recv, node_send, sent_frame, xform_send_ok, MxlNode, MxlTransform, TickError};

verus! {

use core::marker::PhantomData;

/// What the reading phase of one `batch` tick does: frames are drained from
/// port zero until none is buffered; each data value joins the current
/// batch, and the batch is emitted and reopened as soon as it reaches the
/// batch size (at most one batch per tick). An unencodable batch is a tick
/// error; the batch is then lost.
pub open spec fn batch_loop_rel<I: MxlData>(m: CtxModel, batch: Seq<I::V>, size: nat) -> (
    CtxModel,
    Seq<I::V>,
    Result<(), TickError>,
)
    decreases ctx_total_in(m),
    via batch_loop_rel_dec::<I>
{
    let (m1, got) = ctx_recv_model(m, 0);
    match got {
        None => (m1, batch, Ok(())),
        Some(bf) => match dec_frame_m::<I>(bf) {
            Frame::Data(iv) => {
                let b2 = batch.push(iv);
                if b2.len() >= size {
                    if xform_send_ok::<Vec<I>>(b2) {
                        (ctx_send_model(m1, 0, sent_frame::<Vec<I>>(b2)), Seq::empty(), Ok(()))
                    } else {
                        (m1, Seq::empty(), Err(TickError))
                    }
                } else {
                    batch_loop_rel::<I>(m1, b2, size)
                }
            },
            _ => batch_loop_rel::<I>(m1, batch, size),
        },
    }
}

#[via_fn]
proof fn batch_loop_rel_dec<I: MxlData>(m: CtxModel, batch: Seq<I::V>, size: nat) {
    if ctx_recv_model(m, 0).1 is Some {
        lemma_ctx_recv_decreases(m, 0);
    }
}

/// What one tick of `batch` does: once every input is finished, any partial
/// batch is flushed and the terminal `End` is emitted, exactly once;
/// otherwise the reading phase runs.
pub open spec fn batch_tick_rel<I: MxlData>(
    batch: Seq<I::V>,
    done: bool,
    size: nat,
    batch2: Seq<I::V>,
    done2: bool,
    m: CtxModel,
    m2: CtxModel,
    r: Result<(), TickError>,
) -> bool {
    if ctx_recv_finished(m) {
        if done {
            r is Ok && m2 == m && batch2 == batch && done2
        } else {
            &&& done2
            &&& batch2 == Seq::<I::V>::empty()
            &&& if batch.len() == 0 {
                r is Ok && m2 == ctx_send_model(m, 0, Frame::End)
            } else if xform_send_ok::<Vec<I>>(batch) {
                r is Ok && m2 == ctx_send_model(
                    ctx_send_model(m, 0, sent_frame::<Vec<I>>(batch)),
                    0,
                    Frame::End,
                )
            } else {
                r is Err && m2 == m
            }
        }
    } else {
        let (ms, bs, rs) = batch_loop_rel::<I>(m, batch, size);
        m2 == ms && batch2 == bs && r == rs && done2 == done
    }
}

/// Accumulates inputs into fixed-size batches and emits each batch as one
/// sequence frame; a partial batch is flushed at end of stream.
#[verifier::reject_recursive_types(I)]
pub struct BatchXform<I: MxlData> {
    batch_size: usize,
    cur_batch: Vec<I>,
    done: bool,
    _i: PhantomData<I>,
}

impl<I: MxlData> BatchXform<I> {
    /// The models of the values in the current batch, in arrival order.
    pub closed spec fn batch(&self) -> Seq<I::V> {
        self.cur_batch.deep_view()
    }

    /// The configured batch size.
    pub closed spec fn size(&self) -> nat {
        self.batch_size as nat
    }

    /// Whether the terminal `End` has been emitted.
    pub closed spec fn is_done(&self) -> bool {
        self.done
    }

    pub fn new(batch_size: usize) -> (r: Self)
        ensures
            r.batch() == Seq::<I::V>::empty(),
            r.size() == batch_size,
            !r.is_done(),
    {
        let r = BatchXform { batch_size, cur_batch: Vec::new(), done: false, _i: PhantomData };
        proof {
            assert(r.batch() =~= Seq::<I::V>::empty());
        }
        r
    }
}

impl<I: MxlData> MxlTransform for BatchXform<I> {
    type Input = I;

    type Output = Vec<I>;
}

impl<I: MxlData> MxlNode for BatchXform<I> {
    fn operation(&self) -> (r: String) {
        "BatchXform".to_owned()
    }

    fn default_label(&self) -> (r: Option<String>) {
        Some("Batch".to_owned())
    }

    #[verifier::loop_isolation(false)]
    fn tick(&mut self, ctx: &mut MxlNodeCtx) -> (r: Result<(), TickError>)
        ensures
            batch_tick_rel::<I>(
                old(self).batch(),
                old(self).is_done(),
                old(self).size(),
                final(self).batch(),
                final(self).is_done(),
                old(ctx).model(),
                final(ctx).model(),
                r,
            ),
    {
        if ctx.recv_finished() {
            if !self.done {
                self.done = true;
                let mut tmp: Vec<I> = Vec::new();
                core::mem::swap(&mut self.cur_batch, &mut tmp);
                proof {
                    assert(self.cur_batch.deep_view() =~= Seq::<I::V>::empty());
                }
                if tmp.len() > 0 {
                    node_send::<Vec<I>>(ctx, Frame::Data(tmp))?;
                }
                node_send::<Vec<I>>(ctx, Frame::End)?;
            }
            return Ok(());
        }
        let ghost m0 = ctx.model();
        let ghost b0 = self.cur_batch.deep_view();
        loop
            invariant
                self.done == old(self).done,
                self.batch_size == old(self).batch_size,
                batch_loop_rel::<I>(m0, b0, self.batch_size as nat) == batch_loop_rel::<I>(
                    ctx.model(),
                    self.cur_batch.deep_view(),
                    self.batch_size as nat,
                ),
            decreases ctx_total_in(ctx.model()),
        {
            proof {
                match ctx_recv_model(ctx.model(), 0).1 {
                    Some(bf) => {
                        lemma_ctx_recv_decreases(ctx.model(), 0);
                        match bf {
                            Frame::Data(b) => I::lemma_not_data_framed(b),
                            _ => (),
                        }
                    }
                    None => (),
                }
            }
            let ghost m_it = ctx.model();
            let ghost b_it = self.cur_batch.deep_view();
            match node_recv::<I>(ctx) {
                None => {
                    proof {
                        assert(batch_loop_rel::<I>(m_it, b_it, self.batch_size as nat) == (
                            ctx.model(),
                            b_it,
                            Ok::<(), TickError>(()),
                        ));
                    }
                    break;
                }
                Some(Frame::Data(data)) => {
                    let ghost before = self.cur_batch.deep_view();
                    self.cur_batch.push(data);
                    proof {
                        assert(self.cur_batch.deep_view() =~= before.push(
                            self.cur_batch@[self.cur_batch@.len() - 1].deep_view(),
                        ));
                    }
                    if self.cur_batch.len() >= self.batch_size {
                        let mut tmp: Vec<I> = Vec::new();
                        core::mem::swap(&mut self.cur_batch, &mut tmp);
                        proof {
                            assert(self.cur_batch.deep_view() =~= Seq::<I::V>::empty());
                        }
                        match node_send::<Vec<I>>(ctx, Frame::Data(tmp)) {
                            Ok(_) => {
                                proof {
                                    assert(batch_loop_rel::<I>(
                                        m_it,
                                        b_it,
                                        self.batch_size as nat,
                                    ) == (ctx.model(), Seq::<I::V>::empty(), Ok::<(), TickError>(())));
                                }
                                break;
                            }
                            Err(e) => {
                                proof {
                                    assert(batch_loop_rel::<I>(
                                        m_it,
                                        b_it,
                                        self.batch_size as nat,
                                    ) == (ctx.model(), Seq::<I::V>::empty(), Err::<(), TickError>(TickError)));
                                }
                                return Err(e);
                            }
                        }
                    }
                }
                Some(_) => {}
            }
        }
        Ok(())
    }
}

/// Builds a `batch` transform with the given batch size.
pub fn batch<I: MxlData>(size: usize) -> (r: BatchXform<I>)
    ensures
        r.batch() == Seq::<I::V>::empty(),
        r.size() == size,
        !r.is_done(),
{
    BatchXform::new(size)
}

} // verus!
