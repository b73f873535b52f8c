//! The built-in sink operators.

use vstd::prelude::*;

use crate::codec::{dec_frame_m, MxlData};
use crate::ctx::{ctx_recv_model, CtxModel, MxlNodeCtx};
use crate::frame::Frame;
use crate::node::{node_recv, MxlNode, MxlSink, TickError};

verus! {

use core::marker::PhantomData;

/// What one tick of the debug sink does: the next frame, if any, is decoded
/// and retained for inspection; nothing is emitted.
pub open spec fn debug_sink_tick_rel<V: MxlData>(
    seen: Seq<Frame<V::V>>,
    seen2: Seq<Frame<V::V>>,
    m: CtxModel,
    m2: CtxModel,
    r: Result<(), TickError>,
) -> bool {
    let (m1, got) = ctx_recv_model(m, 0);
    &&& r is Ok
    &&& m2 == m1
    &&& match got {
        None => seen2 == seen,
        Some(bf) => {
            if V::data_framed() {
                seen2 == seen.push(dec_frame_m::<V>(bf))
            } else {
                seen2 == seen.push(Frame::<V::V>::End)
            }
        },
    }
}

/// A diagnostic sink: retains every frame that arrives, in arrival order,
/// so a driver can inspect what reached the end of the pipeline.
#[verifier::reject_recursive_types(V)]
pub struct DebugSink<V: MxlData> {
    seen: Vec<Frame<V>>,
    _v: PhantomData<V>,
}

impl<V: MxlData> DebugSink<V> {
    /// The models of the frames seen so far, oldest first.
    pub closed spec fn seen(&self) -> Seq<Frame<V::V>> {
        self.seen.deep_view()
    }

    pub fn new() -> (r: Self)
        ensures
            r.seen() == Seq::<Frame<V::V>>::empty(),
    {
        let r = DebugSink { seen: Vec::new(), _v: PhantomData };
        proof {
            assert(r.seen() =~= Seq::<Frame<V::V>>::empty());
        }
        r
    }

    /// The frames seen so far, oldest first, handed back for inspection.
    pub fn take_seen(&mut self) -> (r: Vec<Frame<V>>)
        ensures
            r.deep_view() == old(self).seen(),
            final(self).seen() == Seq::<Frame<V::V>>::empty(),
    {
        let mut out: Vec<Frame<V>> = Vec::new();
        core::mem::swap(&mut self.seen, &mut out);
        proof {
            assert(self.seen() =~= Seq::<Frame<V::V>>::empty());
        }
        out
    }
}

impl<V: MxlData> MxlSink for DebugSink<V> {
    type Input = V;
}

impl<V: MxlData> MxlNode for DebugSink<V> {
    fn operation(&self) -> (r: String) {
        "DebugSink".to_owned()
    }

    fn default_label(&self) -> (r: Option<String>) {
        Some("Debug".to_owned())
    }

    fn tick(&mut self, ctx: &mut MxlNodeCtx) -> (r: Result<(), TickError>)
        ensures
            debug_sink_tick_rel::<V>(
                old(self).seen(),
                final(self).seen(),
                old(ctx).model(),
                final(ctx).model(),
                r,
            ),
    {
        if let Some(next) = node_recv::<V>(ctx) {
            let ghost before = self.seen();
            self.seen.push(next);
            proof {
                assert(self.seen() =~= before.push(
                    self.seen@[self.seen@.len() - 1].deep_view(),
                ));
            }
        }
        Ok(())
    }
}

} // verus!
