//! The collect transform: buffers every data value and emits them as one
//! sequence frame when the upstream finishes.

use vstd::prelude::*;

use crate::codec::{dec_frame_m, MxlData};
use crate::ctx::{ctx_recv_finished, ctx_recv_model, ctx_send_model, CtxModel, MxlNodeCtx};
use crate::frame::Frame;
use crate::node::{node_recv, node_send, sent_frame, xform_send_ok, MxlNode, MxlTransform, TickError};

verus! {

use core::marker::PhantomData;

/// Buffers all data values; on end of stream, emits the buffered sequence as
/// one data frame followed by the terminal `End`, exactly once.
#[verifier::reject_recursive_types(I)]
pub struct CollectXform<I: MxlData> {
    buf: Vec<I>,
    done: bool,
    _i: PhantomData<I>,
}

/// What one tick of `collect` does: the next data value, if any, is appended
/// to the buffer; once every input is finished the buffer is emitted as one
/// sequence frame followed by `End`, and the node is done. An unencodable
/// buffer is a tick error; the node is then done with nothing emitted.
pub open spec fn collect_tick_rel<I: MxlData>(
    buf: Seq<I::V>,
    done: bool,
    buf2: Seq<I::V>,
    done2: bool,
    m: CtxModel,
    m2: CtxModel,
    r: Result<(), TickError>,
) -> bool {
    let (m1, got) = ctx_recv_model(m, 0);
    let grown = match got {
        Some(bf) => match dec_frame_m::<I>(bf) {
            Frame::Data(iv) => buf.push(iv),
            _ => buf,
        },
        None => buf,
    };
    if ctx_recv_finished(m1) && !done {
        &&& done2
        &&& buf2 == Seq::<I::V>::empty()
        &&& if xform_send_ok::<Vec<I>>(grown) {
            r is Ok && m2 == ctx_send_model(
                ctx_send_model(m1, 0, sent_frame::<Vec<I>>(grown)),
                0,
                Frame::End,
            )
        } else {
            r is Err && m2 == m1
        }
    } else {
        r is Ok && m2 == m1 && buf2 == grown && done2 == done
    }
}

impl<I: MxlData> CollectXform<I> {
    /// The models of the buffered values, in arrival order.
    pub closed spec fn buffered(&self) -> Seq<I::V> {
        self.buf.deep_view()
    }

    /// Whether the terminal `End` has been emitted.
    pub closed spec fn is_done(&self) -> bool {
        self.done
    }

    pub fn new() -> (r: Self)
        ensures
            r.buffered() == Seq::<I::V>::empty(),
            !r.is_done(),
    {
        let r = CollectXform { buf: Vec::new(), done: false, _i: PhantomData };
        proof {
            assert(r.buffered() =~= Seq::<I::V>::empty());
        }
        r
    }
}

impl<I: MxlData> MxlTransform for CollectXform<I> {
    type Input = I;

    type Output = Vec<I>;
}

impl<I: MxlData> MxlNode for CollectXform<I> {
    fn operation(&self) -> (r: String) {
        "CollectXform".to_owned()
    }

    fn default_label(&self) -> (r: Option<String>) {
        Some("Collect".to_owned())
    }

    fn tick(&mut self, ctx: &mut MxlNodeCtx) -> (r: Result<(), TickError>)
        ensures
            collect_tick_rel::<I>(
                old(self).buffered(),
                old(self).is_done(),
                final(self).buffered(),
                final(self).is_done(),
                old(ctx).model(),
                final(ctx).model(),
                r,
            ),
    {
        proof {
            match ctx_recv_model(old(ctx).model(), 0).1 {
                Some(bf) => match bf {
                    Frame::Data(b) => I::lemma_not_data_framed(b),
                    _ => (),
                },
                None => (),
            }
        }
        if let Some(next) = node_recv::<I>(ctx) {
            match next {
                Frame::Data(data) => {
                    let ghost before = self.buf.deep_view();
                    self.buf.push(data);
                    proof {
                        assert(self.buf.deep_view() =~= before.push(
                            self.buf@[self.buf@.len() - 1].deep_view(),
                        ));
                    }
                }
                _ => {}
            }
        }
        let ghost gbuf = self.buf.deep_view();
        if ctx.recv_finished() && !self.done {
            self.done = true;
            let mut tmp: Vec<I> = Vec::new();
            core::mem::swap(&mut self.buf, &mut tmp);
            proof {
                assert(self.buf.deep_view() =~= Seq::<I::V>::empty());
                assert(tmp.deep_view() == gbuf);
            }
            node_send::<Vec<I>>(ctx, Frame::Data(tmp))?;
            node_send::<Vec<I>>(ctx, Frame::End)?;
        }
        Ok(())
    }
}

/// Builds a `collect` transform with an empty buffer.
pub fn collect<I: MxlData>() -> (r: CollectXform<I>)
    ensures
        r.buffered() == Seq::<I::V>::empty(),
        !r.is_done(),
{
    CollectXform::new()
}

} // verus!
