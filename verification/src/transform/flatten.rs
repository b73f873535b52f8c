//! The flatten transform: explodes each incoming sequence frame into one
//! frame per element, in element order.

use vstd::prelude::*;

use crate::codec::{dec_frame_m, MxlData};
use crate::ctx::{ctx_recv_model, ctx_send_model, CtxModel, MxlNodeCtx};
use crate::frame::Frame;
use crate::node::{
    maybe_end, node_recv, node_send, sent_frame, xform_send_ok, MxlNode, MxlTransform, TickError,
};

verus! {

use core::marker::PhantomData;

/// Emitting a sequence of element values in order: each is encoded and sent
/// on port zero; an unencodable element stops the emission with a tick
/// error, the elements before it already sent.
pub open spec fn send_elems<I: MxlData>(m: CtxModel, s: Seq<I::V>) -> (CtxModel, Result<
    (),
    TickError,
>)
    decreases s.len(),
{
    if s.len() == 0 {
        (m, Ok(()))
    } else if !xform_send_ok::<I>(s[0]) {
        (m, Err(TickError))
    } else {
        send_elems::<I>(ctx_send_model(m, 0, sent_frame::<I>(s[0])), s.skip(1))
    }
}

/// What one tick of `flatten` does: the next input frame, if any, is decoded;
/// a sequence value is emitted element by element in order; the end-of-stream
/// check runs only on ticks that received a frame.
pub open spec fn flatten_tick_rel<I: MxlData>(
    m: CtxModel,
    m2: CtxModel,
    r: Result<(), TickError>,
) -> bool {
    let (m1, got) = ctx_recv_model(m, 0);
    match got {
        None => r is Ok && m2 == m1,
        Some(bf) => match dec_frame_m::<Vec<I>>(bf) {
            Frame::Data(sv) => {
                let (ms, rs) = send_elems::<I>(m1, sv);
                match rs {
                    Ok(_) => r is Ok && m2 == maybe_end(ms),
                    Err(_) => r is Err && m2 == ms,
                }
            },
            _ => r is Ok && m2 == maybe_end(m1),
        },
    }
}

/// Explodes each sequence frame into one frame per element.
#[verifier::reject_recursive_types(I)]
pub struct FlattenXform<I: MxlData> {
    _i: PhantomData<I>,
}

impl<I: MxlData> FlattenXform<I> {
    pub fn new() -> (r: Self) {
        FlattenXform { _i: PhantomData }
    }
}

impl<I: MxlData> MxlTransform for FlattenXform<I> {
    type Input = Vec<I>;

    type Output = I;
}

impl<I: MxlData> MxlNode for FlattenXform<I> {
    fn operation(&self) -> (r: String) {
        "FlattenXform".to_owned()
    }

    fn default_label(&self) -> (r: Option<String>) {
        Some("Flatten".to_owned())
    }

    #[verifier::loop_isolation(false)]
    fn tick(&mut self, ctx: &mut MxlNodeCtx) -> (r: Result<(), TickError>)
        ensures
            flatten_tick_rel::<I>(old(ctx).model(), final(ctx).model(), r),
    {
        if let Some(next) = node_recv::<Vec<I>>(ctx) {
            match next {
                Frame::Data(data) => {
                    let ghost orig: Seq<I::V> = data.deep_view();
                    let ghost m1 = ctx.model();
                    let mut rest = data;
                    proof {
                        assert(rest.deep_view() =~= orig);
                    }
                    while rest.len() > 0
                        invariant
                            send_elems::<I>(m1, orig) == send_elems::<I>(
                                ctx.model(),
                                rest.deep_view(),
                            ),
                        decreases rest@.len(),
                    {
                        let ghost old_deep = rest.deep_view();
                        let ghost old_vs = rest@;
                        let d = rest.remove(0);
                        proof {
                            assert(d.deep_view() == old_deep[0]);
                            assert forall|j: int| 0 <= j < rest@.len() implies rest.deep_view()[j]
                                == old_deep.skip(1)[j] by {
                                assert(rest@[j] == old_vs.remove(0)[j]);
                                assert(old_vs.remove(0)[j] == old_vs[j + 1]);
                                assert(rest.deep_view()[j] == rest@[j].deep_view());
                            }
                            assert(rest.deep_view() =~= old_deep.skip(1));
                        }
                        node_send::<I>(ctx, Frame::Data(d))?;
                    }
                    proof {
                        assert(rest.deep_view() =~= Seq::<I::V>::empty());
                    }
                    if ctx.recv_finished() {
                        node_send::<I>(ctx, Frame::End)?;
                    }
                }
                _ => {
                    if ctx.recv_finished() {
                        node_send::<I>(ctx, Frame::End)?;
                    }
                }
            }
        }
        Ok(())
    }
}

/// Builds a `flatten` transform.
pub fn flatten<I: MxlData>() -> FlattenXform<I> {
    FlattenXform::new()
}


/// Law: any finite sequence, collected into one sequence frame, reproduces
/// itself under `flatten`. Decoding the collected frame yields exactly the
/// collected elements, and the flatten emission then sends every element in
/// order without fault, each encoded exactly as the element itself encodes.
pub proof fn lemma_collect_flatten_reproduces<I: MxlData>(m: CtxModel, s: Seq<I::V>)
    requires
        s.len() == 0 || I::data_framed(),
        forall|i: int|
            0 <= i < s.len() ==> I::enc_okv(#[trigger] s[i]) && I::encv(s[i]).len() <= u32::MAX,
    ensures
        crate::codec::dec_frame_m::<Vec<I>>(crate::codec::enc_frame_m::<Vec<I>>(s))
            == Frame::<Seq<I::V>>::Data(s),
        send_elems::<I>(m, s).1 is Ok,
    decreases s.len(),
{
    crate::codec::lemma_codec_round_trip::<Vec<I>>(s);
    if s.len() > 0 {
        assert(xform_send_ok::<I>(s[0]));
        assert forall|i: int| 0 <= i < s.skip(1).len() implies I::enc_okv(#[trigger] s.skip(1)[i])
            && I::encv(s.skip(1)[i]).len() <= u32::MAX by {
            assert(s.skip(1)[i] == s[i + 1]);
        }
        lemma_collect_flatten_reproduces::<I>(
            ctx_send_model(m, 0, sent_frame::<I>(s[0])),
            s.skip(1),
        );
    }
}

} // verus!
