//! The node contract: the per-tick protocol every operator implements, and
//! the codec glue shared by sources, transforms and sinks.

use vstd::prelude::*;

use crate::codec::{dec_frame_m, MxlData};
use crate::ctx::{ctx_recv_model, ctx_send_model, CtxModel, MxlNodeCtx};
use crate::frame::Frame;

verus! {

/// An out-of-band operator fault: an unencodable output value, a failing
/// user function, or a malformed frame where the operator cannot continue.
/// Surfaced through the tick result; the driver logs or aborts at its
/// discretion.
#[derive(Debug, PartialEq, Eq, Structural)]
pub struct TickError;

/// An active processing element of the graph. The driver calls `tick` once
/// per scheduling slice with a freshly built context; a node must be
/// reentrant across ticks and keep any state it needs internally.
pub trait MxlNode {
    /// The operation name recorded in the graph metadata, conventionally the
    /// implementing type's bare name.
    fn operation(&self) -> (r: String);

    fn default_label(&self) -> (r: Option<String>);

    fn tick(&mut self, ctx: &mut MxlNodeCtx) -> (r: Result<(), TickError>);
}

/// Whether a value of a data-framed type can be sent (its encoding succeeds);
/// values of non-data-framed types send the bare `End` frame instead.
pub open spec fn xform_send_ok<T: MxlData>(v: T::V) -> bool {
    !T::data_framed() || T::enc_okv(v)
}

/// The byte frame that sending `Data(v)` actually forwards.
pub open spec fn sent_frame<T: MxlData>(v: T::V) -> Frame<Seq<u8>> {
    if T::data_framed() {
        Frame::Data(T::encv(v))
    } else {
        Frame::End
    }
}

/// The typed frame that a receive yields for a byte frame, or `None` when
/// the port had nothing buffered.
pub open spec fn recv_rel<T: MxlData>(out: Option<Frame<Seq<u8>>>, r: Option<Frame<T>>) -> bool {
    match (r, out) {
        (None, None) => true,
        (Some(tf), Some(bf)) => {
            &&& (T::data_framed() ==> tf.deep_view() == dec_frame_m::<T>(bf))
            &&& (!T::data_framed() ==> tf == Frame::<T>::End)
        },
        _ => false,
    }
}

/// What sending a typed frame does to the context: `Data` is encoded and
/// forwarded (an unencodable value is a hard error and changes nothing),
/// `End` and `Error` are forwarded as such.
pub open spec fn send_rel<T: MxlData>(
    data: Frame<T>,
    m: CtxModel,
    m2: CtxModel,
    r: Result<(), TickError>,
) -> bool {
    match data {
        Frame::Data(d) => {
            if xform_send_ok::<T>(d.deep_view()) {
                r is Ok && m2 == ctx_send_model(m, 0, sent_frame::<T>(d.deep_view()))
            } else {
                r is Err && m2 == m
            }
        },
        Frame::End => r is Ok && m2 == ctx_send_model(m, 0, Frame::End),
        Frame::Error => r is Ok && m2 == ctx_send_model(m, 0, Frame::Error),
    }
}

/// Receives and decodes the next frame on input port zero.
pub fn node_recv<T: MxlData>(ctx: &mut MxlNodeCtx) -> (r: Option<Frame<T>>)
    ensures
        ({
            let (m2, out) = ctx_recv_model(old(ctx).model(), 0);
            &&& final(ctx).model() == m2
            &&& recv_rel::<T>(out, r)
        }),
{
    if let Some(data) = ctx.recv(0) {
        Some(T::from_buffer_frame(data))
    } else {
        None
    }
}

/// Encodes a typed frame and sends it on output port zero; an unencodable
/// value surfaces as a tick error, never truncated.
pub fn node_send<T: MxlData>(ctx: &mut MxlNodeCtx, data: Frame<T>) -> (r: Result<(), TickError>)
    ensures
        send_rel::<T>(data, old(ctx).model(), final(ctx).model(), r),
{
    match data {
        Frame::Data(d) => {
            match d.into_buffer_frame() {
                Ok(byte_frame) => {
                    ctx.send(0, byte_frame);
                    Ok(())
                }
                Err(_) => Err(TickError),
            }
        }
        Frame::End => {
            ctx.send(0, Frame::End);
            Ok(())
        }
        Frame::Error => {
            ctx.send(0, Frame::Error);
            Ok(())
        }
    }
}

/// The end-of-stream propagation step shared by the transforms: once every
/// input port reports finished, the terminal `End` is emitted on port zero.
pub open spec fn maybe_end(m: CtxModel) -> CtxModel {
    if crate::ctx::ctx_recv_finished(m) {
        ctx_send_model(m, 0, Frame::End)
    } else {
        m
    }
}

/// A source node: emits frames of its output type on port zero.
pub trait MxlSource: MxlNode + Sized {
    type Output: MxlData;

    /// Encodes and emits one output frame.
    fn send(&mut self, ctx: &mut MxlNodeCtx, data: Frame<Self::Output>) -> (r: Result<
        (),
        TickError,
    >)
        ensures
            send_rel::<Self::Output>(data, old(ctx).model(), final(ctx).model(), r),
            *final(self) == *old(self),
    {
        node_send::<Self::Output>(ctx, data)
    }
}

/// A transform node: consumes frames of its input type on port zero and
/// emits frames of its output type on port zero.
pub trait MxlTransform: MxlNode {
    type Input: MxlData;

    type Output: MxlData;

    /// Receives and decodes the next input frame.
    fn recv(&self, ctx: &mut MxlNodeCtx) -> (r: Option<Frame<Self::Input>>)
        ensures
            ({
                let (m2, out) = ctx_recv_model(old(ctx).model(), 0);
                &&& final(ctx).model() == m2
                &&& recv_rel::<Self::Input>(out, r)
            }),
    {
        node_recv::<Self::Input>(ctx)
    }

    /// Encodes and emits one output frame.
    fn send(&self, ctx: &mut MxlNodeCtx, data: Frame<Self::Output>) -> (r: Result<(), TickError>)
        ensures
            send_rel::<Self::Output>(data, old(ctx).model(), final(ctx).model(), r),
    {
        node_send::<Self::Output>(ctx, data)
    }
}

/// A sink node: consumes frames of its input type on port zero.
pub trait MxlSink: MxlNode {
    type Input: MxlData;

    /// Receives and decodes the next input frame.
    fn recv(&self, ctx: &mut MxlNodeCtx) -> (r: Option<Frame<Self::Input>>)
        ensures
            ({
                let (m2, out) = ctx_recv_model(old(ctx).model(), 0);
                &&& final(ctx).model() == m2
                &&& recv_rel::<Self::Input>(out, r)
            }),
    {
        node_recv::<Self::Input>(ctx)
    }
}

} // verus!
