//! Element-wise transforms: apply a user function to every data frame.

use vstd::prelude::*;

use crate::codec::{dec_frame_m, MxlData};
use crate::ctx::{ctx_recv_model, ctx_send_model, CtxModel, MxlNodeCtx};
use crate::frame::Frame;
use crate::node::{maybe_end, node_recv, node_send, sent_frame, xform_send_ok, MxlNode, MxlTransform, TickError};

verus! {

use core::marker::PhantomData;

/// What one tick of `map` does: the next input frame, if any, is decoded;
/// a data value is mapped through the function, encoded and emitted; then,
/// if every input is finished, the terminal `End` is emitted. An
/// unencodable mapped value is a tick error and emits nothing.
pub open spec fn map_tick_rel<I: MxlData, O: MxlData, F: Fn(I) -> O>(
    func: F,
    m: CtxModel,
    m2: CtxModel,
    r: Result<(), TickError>,
) -> bool {
    let (m1, got) = ctx_recv_model(m, 0);
    match got {
        None => r is Ok && m2 == maybe_end(m1),
        Some(bf) => {
            if !I::data_framed() {
                r is Ok && m2 == maybe_end(m1)
            } else {
                match dec_frame_m::<I>(bf) {
                    Frame::Data(iv) => exists|x: I, y: O|
                        #![auto]
                        x.deep_view() == iv && call_ensures(func, (x,), y) && ({
                            if xform_send_ok::<O>(y.deep_view()) {
                                r is Ok && m2 == maybe_end(
                                    ctx_send_model(m1, 0, sent_frame::<O>(y.deep_view())),
                                )
                            } else {
                                r is Err && m2 == m1
                            }
                        }),
                    _ => r is Ok && m2 == maybe_end(m1),
                }
            }
        },
    }
}

/// Applies a function to each data frame.
#[verifier::reject_recursive_types(I)]
#[verifier::reject_recursive_types(O)]
pub struct MapXform<I: MxlData, O: MxlData, F: Fn(I) -> O> {
    func: F,
    _i: PhantomData<I>,
    _o: PhantomData<O>,
}

impl<I: MxlData, O: MxlData, F: Fn(I) -> O> MapXform<I, O, F> {
    /// The function this transform applies.
    pub closed spec fn spec_func(&self) -> F {
        self.func
    }

    #[verifier::type_invariant]
    spec fn wf(self) -> bool {
        forall|x: I| self.func.requires((x,))
    }

    pub fn new(func: F) -> (r: Self)
        requires
            forall|x: I| func.requires((x,)),
        ensures
            r.spec_func() == func,
    {
        MapXform { func, _i: PhantomData, _o: PhantomData }
    }
}

impl<I: MxlData, O: MxlData, F: Fn(I) -> O> MxlTransform for MapXform<I, O, F> {
    type Input = I;

    type Output = O;
}

impl<I: MxlData, O: MxlData, F: Fn(I) -> O> MxlNode for MapXform<I, O, F> {
    fn operation(&self) -> (r: String) {
        "MapXform".to_owned()
    }

    fn default_label(&self) -> (r: Option<String>) {
        Some("Map".to_owned())
    }

    fn tick(&mut self, ctx: &mut MxlNodeCtx) -> (r: Result<(), TickError>)
        ensures
            map_tick_rel(old(self).spec_func(), old(ctx).model(), final(ctx).model(), r),
            *final(self) == *old(self),
    {
        proof {
            use_type_invariant(&*self);
        }
        if let Some(next) = node_recv::<I>(ctx) {
            match next {
                Frame::Data(data) => {
                    let ghost gx = data;
                    let y = (self.func)(data);
                    node_send::<O>(ctx, Frame::Data(y))?;
                }
                _ => {}
            }
        }
        if ctx.recv_finished() {
            node_send::<O>(ctx, Frame::End)?;
        }
        Ok(())
    }
}

/// Builds a `map` transform from a total function.
pub fn map<I: MxlData, O: MxlData, F: Fn(I) -> O>(f: F) -> (r: MapXform<I, O, F>)
    requires
        forall|x: I| f.requires((x,)),
    ensures
        r.spec_func() == f,
{
    MapXform::new(f)
}


/// What one tick of `try_map` does: as `map`, but the function itself may
/// fail, and its failure surfaces as a tick error (not as a downstream
/// `Error` frame) with nothing emitted.
pub open spec fn try_map_tick_rel<I: MxlData, O: MxlData, F: Fn(I) -> Result<O, TickError>>(
    func: F,
    m: CtxModel,
    m2: CtxModel,
    r: Result<(), TickError>,
) -> bool {
    let (m1, got) = ctx_recv_model(m, 0);
    match got {
        None => r is Ok && m2 == maybe_end(m1),
        Some(bf) => {
            if !I::data_framed() {
                r is Ok && m2 == maybe_end(m1)
            } else {
                match dec_frame_m::<I>(bf) {
                    Frame::Data(iv) => exists|x: I, y: Result<O, TickError>|
                        #![auto]
                        x.deep_view() == iv && call_ensures(func, (x,), y) && ({
                            match y {
                                Ok(o) => {
                                    if xform_send_ok::<O>(o.deep_view()) {
                                        r is Ok && m2 == maybe_end(
                                            ctx_send_model(m1, 0, sent_frame::<O>(o.deep_view())),
                                        )
                                    } else {
                                        r is Err && m2 == m1
                                    }
                                },
                                Err(_) => r is Err && m2 == m1,
                            }
                        }),
                    _ => r is Ok && m2 == maybe_end(m1),
                }
            }
        },
    }
}

/// Applies a fallible function to each data frame; a failure surfaces to the
/// driver through the tick result.
#[verifier::reject_recursive_types(I)]
#[verifier::reject_recursive_types(O)]
pub struct TryMapXform<I: MxlData, O: MxlData, F: Fn(I) -> Result<O, TickError>> {
    func: F,
    _i: PhantomData<I>,
    _o: PhantomData<O>,
}

impl<I: MxlData, O: MxlData, F: Fn(I) -> Result<O, TickError>> TryMapXform<I, O, F> {
    /// The function this transform applies.
    pub closed spec fn spec_func(&self) -> F {
        self.func
    }

    #[verifier::type_invariant]
    spec fn wf(self) -> bool {
        forall|x: I| self.func.requires((x,))
    }

    pub fn new(func: F) -> (r: Self)
        requires
            forall|x: I| func.requires((x,)),
        ensures
            r.spec_func() == func,
    {
        TryMapXform { func, _i: PhantomData, _o: PhantomData }
    }
}

impl<I: MxlData, O: MxlData, F: Fn(I) -> Result<O, TickError>> MxlTransform for TryMapXform<
    I,
    O,
    F,
> {
    type Input = I;

    type Output = O;
}

impl<I: MxlData, O: MxlData, F: Fn(I) -> Result<O, TickError>> MxlNode for TryMapXform<I, O, F> {
    fn operation(&self) -> (r: String) {
        "TryMapXform".to_owned()
    }

    fn default_label(&self) -> (r: Option<String>) {
        Some("TryMap".to_owned())
    }

    fn tick(&mut self, ctx: &mut MxlNodeCtx) -> (r: Result<(), TickError>)
        ensures
            try_map_tick_rel(old(self).spec_func(), old(ctx).model(), final(ctx).model(), r),
            *final(self) == *old(self),
    {
        proof {
            use_type_invariant(&*self);
        }
        if let Some(next) = node_recv::<I>(ctx) {
            match next {
                Frame::Data(data) => {
                    let ghost gx = data;
                    let y = (self.func)(data)?;
                    node_send::<O>(ctx, Frame::Data(y))?;
                }
                _ => {}
            }
        }
        if ctx.recv_finished() {
            node_send::<O>(ctx, Frame::End)?;
        }
        Ok(())
    }
}

/// Builds a `try_map` transform from a total fallible function.
pub fn try_map<I: MxlData, O: MxlData, F: Fn(I) -> Result<O, TickError>>(f: F) -> (r: TryMapXform<
    I,
    O,
    F,
>)
    requires
        forall|x: I| f.requires((x,)),
    ensures
        r.spec_func() == f,
{
    TryMapXform::new(f)
}

} // verus!
