//! The built-in transform operators.

use vstd::prelude::*;

use crate::codec::{dec_frame_m, MxlData};
use crate::ctx::{ctx_recv_model, ctx_send_model, CtxModel, MxlNodeCtx};
use crate::frame::Frame;
use crate::node::{node_recv, node_send, MxlNode, MxlTransform, TickError};

pub mod batch;
pub mod collect;
pub mod filter;
pub mod groupby;
pub mod flatten;
pub mod map;

pub use batch::BatchXform;
pub use collect::CollectXform;
pub use filter::FilterXform;
pub use flatten::FlattenXform;
pub use groupby::GroupByKey;
pub use map::{MapXform, TryMapXform};

verus! {

/// A name for what `str::to_uppercase` returns: the uppercase mapping of a
/// character sequence.
pub uninterp spec fn upper_of(s: Seq<char>) -> Seq<char>;

/// A name for what `str::to_lowercase` returns: the lowercase mapping of a
/// character sequence.
pub uninterp spec fn lower_of(s: Seq<char>) -> Seq<char>;

/// Relies on `str::to_uppercase`: the result depends on the characters alone.
#[verifier::external_body]
fn to_uppercase_string(s: &String) -> (r: String)
    ensures
        r@ == upper_of(s@),
{
    s.as_str().to_uppercase()
}

/// Relies on `str::to_lowercase`: the result depends on the characters alone.
#[verifier::external_body]
fn to_lowercase_string(s: &String) -> (r: String)
    ensures
        r@ == lower_of(s@),
{
    s.as_str().to_lowercase()
}

/// What one tick of a case-mapping transform does, for the given character
/// mapping: each data frame's string is mapped and re-emitted, and the
/// terminal `End` follows the upstream `End` frame.
pub open spec fn case_tick_rel(
    mapping: spec_fn(Seq<char>) -> Seq<char>,
    m: CtxModel,
    m2: CtxModel,
    r: Result<(), TickError>,
) -> bool {
    let (m1, got) = ctx_recv_model(m, 0);
    match got {
        None => r is Ok && m2 == m1,
        Some(bf) => match dec_frame_m::<String>(bf) {
            Frame::Data(iv) => r is Ok && m2 == ctx_send_model(
                m1,
                0,
                Frame::Data(vstd::utf8::encode_utf8(mapping(iv))),
            ),
            Frame::End => r is Ok && m2 == ctx_send_model(m1, 0, Frame::End),
            Frame::Error => r is Ok && m2 == m1,
        },
    }
}

/// Maps each string frame to its uppercase form.
pub struct UppercaseXform;

impl MxlTransform for UppercaseXform {
    type Input = String;

    type Output = String;
}

impl MxlNode for UppercaseXform {
    fn operation(&self) -> (r: String) {
        "UppercaseXform".to_owned()
    }

    fn default_label(&self) -> (r: Option<String>) {
        None
    }

    fn tick(&mut self, ctx: &mut MxlNodeCtx) -> (r: Result<(), TickError>)
        ensures
            case_tick_rel(|s: Seq<char>| upper_of(s), old(ctx).model(), final(ctx).model(), r),
    {
        match node_recv::<String>(ctx) {
            Some(Frame::Data(data)) => node_send::<String>(
                ctx,
                Frame::Data(to_uppercase_string(&data)),
            )?,
            Some(Frame::End) => node_send::<String>(ctx, Frame::End)?,
            _ => {}
        }
        Ok(())
    }
}

/// Maps each string frame to its lowercase form.
pub struct LowercaseXform;

impl MxlTransform for LowercaseXform {
    type Input = String;

    type Output = String;
}

impl MxlNode for LowercaseXform {
    fn operation(&self) -> (r: String) {
        "LowercaseXform".to_owned()
    }

    fn default_label(&self) -> (r: Option<String>) {
        None
    }

    fn tick(&mut self, ctx: &mut MxlNodeCtx) -> (r: Result<(), TickError>)
        ensures
            case_tick_rel(|s: Seq<char>| lower_of(s), old(ctx).model(), final(ctx).model(), r),
    {
        match node_recv::<String>(ctx) {
            Some(Frame::Data(data)) => node_send::<String>(
                ctx,
                Frame::Data(to_lowercase_string(&data)),
            )?,
            Some(Frame::End) => node_send::<String>(ctx, Frame::End)?,
            _ => {}
        }
        Ok(())
    }
}

/// Counts the data frames seen and emits the count when the upstream stream
/// ends.
pub struct CountXform {
    state: u32,
}

impl CountXform {
    /// The number of data frames counted so far (wrapping at the 32-bit
    /// boundary).
    pub closed spec fn count(&self) -> u32 {
        self.state
    }
}

/// What one tick of `count` does: a data frame increments the counter; the
/// upstream `End` frame makes the node emit the count and then the terminal
/// `End`.
pub open spec fn count_tick_rel(
    n: u32,
    n2: u32,
    m: CtxModel,
    m2: CtxModel,
    r: Result<(), TickError>,
) -> bool {
    let (m1, got) = ctx_recv_model(m, 0);
    match got {
        None => r is Ok && m2 == m1 && n2 == n,
        Some(bf) => match dec_frame_m::<String>(bf) {
            Frame::Data(_) => r is Ok && m2 == m1 && n2 == (if n == u32::MAX { 0u32 } else { (n + 1) as u32 }),
            Frame::End => r is Ok && n2 == n && m2 == ctx_send_model(
                ctx_send_model(m1, 0, Frame::Data(crate::frame::u32_be(n))),
                0,
                Frame::End,
            ),
            Frame::Error => r is Ok && m2 == m1 && n2 == n,
        },
    }
}

impl MxlTransform for CountXform {
    type Input = String;

    type Output = u32;
}

impl MxlNode for CountXform {
    fn operation(&self) -> (r: String) {
        "CountXform".to_owned()
    }

    fn default_label(&self) -> (r: Option<String>) {
        None
    }

    fn tick(&mut self, ctx: &mut MxlNodeCtx) -> (r: Result<(), TickError>)
        ensures
            count_tick_rel(
                old(self).count(),
                final(self).count(),
                old(ctx).model(),
                final(ctx).model(),
                r,
            ),
    {
        match node_recv::<String>(ctx) {
            Some(Frame::Data(_data)) => {
                self.state = self.state.wrapping_add(1);
            }
            Some(Frame::End) => {
                node_send::<u32>(ctx, Frame::Data(self.state))?;
                node_send::<u32>(ctx, Frame::End)?;
            }
            _ => {}
        }
        Ok(())
    }
}

/// Builds a counting transform starting at zero.
pub fn count() -> (r: CountXform)
    ensures
        r.count() == 0,
{
    CountXform { state: 0 }
}

} // verus!
