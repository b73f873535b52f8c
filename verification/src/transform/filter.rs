//! The filter transform: keeps only data frames whose value satisfies a
//! predicate.

use vstd::prelude::*;

use crate::codec::{dec_frame_m, MxlData};
use crate::ctx::{ctx_recv_model, ctx_send_model, CtxModel, MxlNodeCtx};
use crate::frame::Frame;
use crate::node::{
    maybe_end, node_recv, node_send, sent_frame, xform_send_ok, MxlNode, MxlTransform, TickError,
};

verus! {

use core::marker::PhantomData;

/// What one tick of `filter` does: the next input frame, if any, is decoded;
/// a data value is re-emitted exactly when the predicate holds of it; then,
/// if every input is finished, the terminal `End` is emitted.
pub open spec fn filter_tick_rel<I: MxlData, F: Fn(&I) -> bool>(
    func: F,
    m: CtxModel,
    m2: CtxModel,
    r: Result<(), TickError>,
) -> bool {
    let (m1, got) = ctx_recv_model(m, 0);
    match got {
        None => r is Ok && m2 == maybe_end(m1),
        Some(bf) => {
            if !I::data_framed() {
                r is Ok && m2 == maybe_end(m1)
            } else {
                match dec_frame_m::<I>(bf) {
                    Frame::Data(iv) => exists|x: I, keep: bool|
                        #![auto]
                        x.deep_view() == iv && call_ensures(func, (&x,), keep) && ({
                            if keep {
                                if xform_send_ok::<I>(x.deep_view()) {
                                    r is Ok && m2 == maybe_end(
                                        ctx_send_model(m1, 0, sent_frame::<I>(x.deep_view())),
                                    )
                                } else {
                                    r is Err && m2 == m1
                                }
                            } else {
                                r is Ok && m2 == maybe_end(m1)
                            }
                        }),
                    _ => r is Ok && m2 == maybe_end(m1),
                }
            }
        },
    }
}

/// Keeps only the data frames whose value satisfies the predicate.
#[verifier::reject_recursive_types(I)]
pub struct FilterXform<I: MxlData, F: Fn(&I) -> bool> {
    func: F,
    _i: PhantomData<I>,
}

impl<I: MxlData, F: Fn(&I) -> bool> FilterXform<I, F> {
    /// The predicate this transform applies.
    pub closed spec fn spec_func(&self) -> F {
        self.func
    }

    #[verifier::type_invariant]
    spec fn wf(self) -> bool {
        forall|x: I| self.func.requires((&x,))
    }

    pub fn new(func: F) -> (r: Self)
        requires
            forall|x: I| func.requires((&x,)),
        ensures
            r.spec_func() == func,
    {
        FilterXform { func, _i: PhantomData }
    }
}

impl<I: MxlData, F: Fn(&I) -> bool> MxlTransform for FilterXform<I, F> {
    type Input = I;

    type Output = I;
}

impl<I: MxlData, F: Fn(&I) -> bool> MxlNode for FilterXform<I, F> {
    fn operation(&self) -> (r: String) {
        "FilterXform".to_owned()
    }

    fn default_label(&self) -> (r: Option<String>) {
        Some("Filter".to_owned())
    }

    fn tick(&mut self, ctx: &mut MxlNodeCtx) -> (r: Result<(), TickError>)
        ensures
            filter_tick_rel(old(self).spec_func(), old(ctx).model(), final(ctx).model(), r),
            *final(self) == *old(self),
    {
        proof {
            use_type_invariant(&*self);
        }
        if let Some(next) = node_recv::<I>(ctx) {
            match next {
                Frame::Data(data) => {
                    let ghost gx = data;
                    let keep = (self.func)(&data);
                    if keep {
                        node_send::<I>(ctx, Frame::Data(data))?;
                    }
                }
                _ => {}
            }
        }
        if ctx.recv_finished() {
            node_send::<I>(ctx, Frame::End)?;
        }
        Ok(())
    }
}

/// Builds a `filter` transform from a total predicate.
pub fn filter<I: MxlData, F: Fn(&I) -> bool>(f: F) -> (r: FilterXform<I, F>)
    requires
        forall|x: I| f.requires((&x,)),
    ensures
        r.spec_func() == f,
{
    FilterXform::new(f)
}

} // verus!
