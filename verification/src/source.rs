//! The built-in source operators.

use vstd::prelude::*;

use crate::codec::MxlData;
use crate::ctx::{ctx_send_model, CtxModel, MxlNodeCtx};
use crate::frame::Frame;
use crate::node::{node_send, sent_frame, xform_send_ok, MxlNode, MxlSource, TickError};

verus! {

use std::collections::VecDeque;

/// What one tick of a vector source does: one element per tick, taken from
/// the back of the buffer (so elements are emitted in reverse order of the
/// original vector); when the buffer is exhausted, one terminal `End`;
/// nothing ever after.
pub open spec fn vec_source_tick_rel<V: MxlData>(
    pending: Seq<V::V>,
    fin: bool,
    pending2: Seq<V::V>,
    fin2: bool,
    m: CtxModel,
    m2: CtxModel,
    r: Result<(), TickError>,
) -> bool {
    if fin {
        r is Ok && m2 == m && pending2 == pending && fin2
    } else if pending.len() > 0 {
        let v = pending.last();
        &&& pending2 == pending.drop_last()
        &&& !fin2
        &&& if xform_send_ok::<V>(v) {
            r is Ok && m2 == ctx_send_model(m, 0, sent_frame::<V>(v))
        } else {
            r is Err && m2 == m
        }
    } else {
        &&& pending2 == pending
        &&& fin2
        &&& r is Ok
        &&& m2 == ctx_send_model(m, 0, Frame::End)
    }
}

/// Emits the elements of a vector one per tick, in reverse order, then one
/// `End`; idempotent thereafter.
#[verifier::reject_recursive_types(V)]
pub struct VecSource<V: MxlData> {
    data: VecDeque<V>,
    finished: bool,
}

impl<V: MxlData> VecSource<V> {
    /// The models of the elements not yet emitted; the back is emitted next.
    pub closed spec fn pending(&self) -> Seq<V::V> {
        self.data.deep_view()
    }

    /// Whether the terminal `End` has been emitted.
    pub closed spec fn is_finished(&self) -> bool {
        self.finished
    }

    #[verifier::loop_isolation(false)]
    pub fn new(data: Vec<V>) -> (r: Self)
        ensures
            r.pending() == data.deep_view(),
            !r.is_finished(),
    {
        let mut dq: VecDeque<V> = VecDeque::new();
        let mut rest = data;
        proof {
            assert(dq.deep_view() + rest.deep_view() =~= rest.deep_view());
        }
        while rest.len() > 0
            invariant
                dq.deep_view() + rest.deep_view() == data.deep_view(),
            decreases rest@.len(),
        {
            let ghost old_deep = rest.deep_view();
            let ghost old_vs = rest@;
            let ghost old_dq = dq.deep_view();
            let v = rest.remove(0);
            proof {
                assert(v.deep_view() == old_deep[0]);
                assert forall|j: int| 0 <= j < rest@.len() implies rest.deep_view()[j]
                    == old_deep.skip(1)[j] by {
                    assert(rest@[j] == old_vs.remove(0)[j]);
                    assert(old_vs.remove(0)[j] == old_vs[j + 1]);
                    assert(rest.deep_view()[j] == rest@[j].deep_view());
                }
                assert(rest.deep_view() =~= old_deep.skip(1));
            }
            dq.push_back(v);
            proof {
                assert(dq.deep_view() =~= old_dq.push(v.deep_view()));
                assert(dq.deep_view() + rest.deep_view() =~= data.deep_view());
            }
        }
        proof {
            assert(rest.deep_view() =~= Seq::<V::V>::empty());
        }
        let r = VecSource { data: dq, finished: false };
        proof {
            assert(r.pending() =~= data.deep_view());
        }
        r
    }
}

impl<V: MxlData> MxlSource for VecSource<V> {
    type Output = V;
}

impl<V: MxlData> MxlNode for VecSource<V> {
    fn operation(&self) -> (r: String) {
        "VecSource".to_owned()
    }

    fn default_label(&self) -> (r: Option<String>) {
        None
    }

    fn tick(&mut self, ctx: &mut MxlNodeCtx) -> (r: Result<(), TickError>)
        ensures
            vec_source_tick_rel::<V>(
                old(self).pending(),
                old(self).is_finished(),
                final(self).pending(),
                final(self).is_finished(),
                old(ctx).model(),
                final(ctx).model(),
                r,
            ),
    {
        if !self.finished {
            let ghost before = self.pending();
            match self.data.pop_back() {
                Some(next) => {
                    proof {
                        assert(self.pending() =~= before.drop_last());
                        assert(next.deep_view() == before.last());
                    }
                    node_send::<V>(ctx, Frame::Data(next))?;
                }
                None => {
                    proof {
                        assert(self.pending() =~= before);
                    }
                    self.finished = true;
                    node_send::<V>(ctx, Frame::End)?;
                }
            }
        }
        Ok(())
    }
}

/// Builds a vector source over the given elements.
pub fn vec_source<V: MxlData>(data: Vec<V>) -> (r: VecSource<V>)
    ensures
        r.pending() == data.deep_view(),
        !r.is_finished(),
{
    VecSource::new(data)
}

} // verus!
