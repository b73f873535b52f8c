//! The per-tick node context: the input and output ports a node sees while
//! it is being ticked, each port aggregating the channels bound to it.

use vstd::prelude::*;

use crate::channel::{
    channel_recv_spec, channel_send_spec, EdgeChannelState, InMemoryEdgeChannel,
};
use crate::frame::Frame;

verus! {

/// The mathematical model of one channel: its state and queued frames.
pub struct ChanModel {
    pub st: EdgeChannelState,
    pub q: Seq<Frame<Seq<u8>>>,
}

impl InMemoryEdgeChannel {
    /// This channel's model.
    pub open spec fn model(&self) -> ChanModel {
        ChanModel { st: self.st(), q: self.frames() }
    }
}

/// The models of a sequence of channels.
pub open spec fn chan_models(chs: Seq<InMemoryEdgeChannel>) -> Seq<ChanModel> {
    Seq::new(chs.len(), |i: int| chs[i].model())
}

/// A channel is finished once its writer has closed.
pub open spec fn chan_finished(m: ChanModel) -> bool {
    m.st != EdgeChannelState::Running
}

/// Sending one frame to every channel of a port (fan-out).
pub open spec fn send_all_chans(cs: Seq<ChanModel>, f: Frame<Seq<u8>>) -> Seq<ChanModel> {
    Seq::new(
        cs.len(),
        |i: int|
            {
                let (st2, q2) = channel_send_spec(cs[i].st, cs[i].q, f);
                ChanModel { st: st2, q: q2 }
            },
    )
}

/// First-ready scan over a port's channels: the first channel with a buffered
/// frame yields it (and only that channel changes); if none is ready, nothing
/// changes.
pub open spec fn scan_chans(cs: Seq<ChanModel>) -> (Seq<ChanModel>, Option<Frame<Seq<u8>>>)
    decreases cs.len(),
{
    if cs.len() == 0 {
        (cs, None)
    } else {
        let (st2, q2, out) = channel_recv_spec(cs[0].st, cs[0].q);
        match out {
            Some(f) => (seq![ChanModel { st: st2, q: q2 }] + cs.skip(1), Some(f)),
            None => {
                let (rest, o) = scan_chans(cs.skip(1));
                (seq![cs[0]] + rest, o)
            }
        }
    }
}

/// An input port: one or more input channels bound to the same destination
/// port, typically one per in-edge.
pub struct Input {
    input_chs: Vec<InMemoryEdgeChannel>,
}

impl Input {
    pub closed spec fn model(&self) -> Seq<ChanModel> {
        chan_models(self.input_chs@)
    }

    pub fn new(input_chs: Vec<InMemoryEdgeChannel>) -> (r: Self)
        ensures
            r.model() == chan_models(input_chs@),
    {
        Self { input_chs }
    }

    /// Returns the first frame found across this port's channels, scanning in
    /// channel order; fairness among channels is not guaranteed.
    #[verifier::loop_isolation(false)]
    pub fn recv(&mut self) -> (r: Option<Frame<Vec<u8>>>)
        ensures
            ({
                let (ms, out) = scan_chans(old(self).model());
                &&& final(self).model() == ms
                &&& match (r, out) {
                    (Some(rf), Some(of)) => rf@ == of,
                    (None, None) => true,
                    _ => false,
                }
            }),
    {
        let ghost oldm = self.model();
        let n = self.input_chs.len();
        proof {
            lemma_scan_from_zero(oldm);
        }
        let mut i: usize = 0;
        while i < n
            invariant
                i <= n,
                n == self.input_chs@.len(),
                forall|j: int|
                    0 <= j < n ==> (#[trigger] self.input_chs@[j]).model() == oldm[j],
                scan_chans(oldm) == scan_chans_from(oldm, i as int),
            decreases n - i,
        {
            let ch = &mut self.input_chs[i];
            let got = ch.recv();
            match got {
                Some(frame) => {
                    proof {
                        assert(self.model().len() == oldm.len());
                        assert forall|j: int| 0 <= j < n && j != i implies self.model()[j]
                            == oldm[j] by {
                            assert(self.input_chs@[j].model() == oldm[j]);
                        }
                        lemma_scan_found(oldm, i as int, self.model());
                    }
                    return Some(frame);
                }
                None => {
                    proof {
                        assert(self.input_chs@[i as int].model() == oldm[i as int]);
                        assert forall|j: int| 0 <= j < n implies (#[trigger] self.input_chs@[j]).model()
                            == oldm[j] by {}
                        lemma_scan_step(oldm, i as int);
                    }
                }
            }
            i = i + 1;
        }
        proof {
            lemma_scan_none(oldm, n as int);
            assert(self.model() =~= oldm);
        }
        None
    }

    /// Hands the port's channels back to the driver, which owns them between
    /// ticks.
    pub fn into_chs(self) -> (r: Vec<InMemoryEdgeChannel>)
        ensures
            chan_models(r@) == self.model(),
    {
        self.input_chs
    }

    /// True iff every channel on this port has a closed writer.
    pub fn finished(&self) -> (r: bool)
        ensures
            r == forall|j: int| 0 <= j < self.model().len() ==> chan_finished(#[trigger] self.model()[j]),
    {
        let n = self.input_chs.len();
        let mut i: usize = 0;
        while i < n
            invariant
                i <= n,
                n == self.input_chs@.len(),
                forall|j: int| 0 <= j < i ==> chan_finished(#[trigger] self.model()[j]),
            decreases n - i,
        {
            if !self.input_chs[i].finished() {
                assert(!chan_finished(self.model()[i as int]));
                return false;
            }
            i = i + 1;
        }
        true
    }
}

/// Helper: the scan outcome if the first `i` channels are known empty.
pub open spec fn scan_chans_from(cs: Seq<ChanModel>, i: int) -> (Seq<ChanModel>, Option<Frame<Seq<u8>>>)
    recommends
        0 <= i <= cs.len(),
    decreases cs.len() - i,
{
    if i >= cs.len() {
        (cs, None)
    } else {
        let (st2, q2, out) = channel_recv_spec(cs[i].st, cs[i].q);
        match out {
            Some(f) => (cs.update(i, ChanModel { st: st2, q: q2 }), Some(f)),
            None => scan_chans_from(cs, i + 1),
        }
    }
}

proof fn lemma_scan_from_equiv(cs: Seq<ChanModel>, i: int)
    requires
        0 <= i <= cs.len(),
    ensures
        scan_chans_from(cs, i) == ({
            let (tail, o) = scan_chans(cs.skip(i));
            (cs.take(i) + tail, o)
        }),
    decreases cs.len() - i,
{
    let s = cs.skip(i);
    if i >= cs.len() {
        assert(cs.take(i) + scan_chans(s).0 =~= cs);
    } else {
        assert(s[0] == cs[i]);
        let (st2, q2, out) = channel_recv_spec(cs[i].st, cs[i].q);
        match out {
            Some(f) => {
                assert(cs.take(i) + (seq![ChanModel { st: st2, q: q2 }] + s.skip(1)) =~= cs.update(
                    i,
                    ChanModel { st: st2, q: q2 },
                ));
            }
            None => {
                lemma_scan_from_equiv(cs, i + 1);
                assert(cs.skip(i + 1) =~= s.skip(1));
                let (tail, o) = scan_chans(s.skip(1));
                assert(cs.take(i + 1) + tail =~= cs.take(i) + (seq![cs[i]] + tail));
            }
        }
    }
}

proof fn lemma_scan_step(cs: Seq<ChanModel>, i: int)
    requires
        0 <= i < cs.len(),
        channel_recv_spec(cs[i].st, cs[i].q).2 is None,
    ensures
        scan_chans_from(cs, i) == scan_chans_from(cs, i + 1),
{
}

proof fn lemma_scan_found(cs: Seq<ChanModel>, i: int, after: Seq<ChanModel>)
    requires
        0 <= i < cs.len(),
        channel_recv_spec(cs[i].st, cs[i].q).2 is Some,
        scan_chans(cs) == scan_chans_from(cs, i),
        after.len() == cs.len(),
        after[i] == ({
            let (st2, q2, _o) = channel_recv_spec(cs[i].st, cs[i].q);
            ChanModel { st: st2, q: q2 }
        }),
        forall|j: int| 0 <= j < cs.len() && j != i ==> after[j] == cs[j],
    ensures
        scan_chans(cs).0 == after,
        scan_chans(cs).1 == channel_recv_spec(cs[i].st, cs[i].q).2,
{
    let (st2, q2, _o) = channel_recv_spec(cs[i].st, cs[i].q);
    assert(after =~= cs.update(i, ChanModel { st: st2, q: q2 }));
}

proof fn lemma_scan_from_zero(cs: Seq<ChanModel>)
    ensures
        scan_chans(cs) == scan_chans_from(cs, 0),
{
    lemma_scan_from_equiv(cs, 0);
    assert(cs.skip(0) =~= cs);
    let (tail, o) = scan_chans(cs);
    assert(cs.take(0) + tail =~= tail);
}

proof fn lemma_scan_none(cs: Seq<ChanModel>, n: int)
    requires
        n == cs.len(),
        scan_chans(cs) == scan_chans_from(cs, n),
    ensures
        scan_chans(cs).0 == cs,
        scan_chans(cs).1 is None,
{
}


/// Copies a byte frame, preserving its model.
fn clone_byte_frame(f: &Frame<Vec<u8>>) -> (r: Frame<Vec<u8>>)
    ensures
        r@ == f@,
{
    match f {
        Frame::Data(b) => {
            let copy = crate::codec::bytes_range(b.as_slice(), 0, b.len());
            assert(copy@ =~= b@);
            Frame::Data(copy)
        }
        Frame::End => Frame::End,
        Frame::Error => Frame::Error,
    }
}

/// An output port: one or more output channels bound to the same source port,
/// typically one per out-edge; a send fans the frame out to all of them.
pub struct Output {
    pub output_chs: Vec<InMemoryEdgeChannel>,
}

impl Output {
    pub open spec fn model(&self) -> Seq<ChanModel> {
        chan_models(self.output_chs@)
    }

    /// Forwards a copy of the frame to every channel bound to this port.
    #[verifier::loop_isolation(false)]
    pub fn send(&mut self, data: Frame<Vec<u8>>)
        ensures
            final(self).model() == send_all_chans(old(self).model(), data@),
    {
        let ghost oldm = self.model();
        let n = self.output_chs.len();
        let mut i: usize = 0;
        while i < n
            invariant
                i <= n,
                n == self.output_chs@.len(),
                forall|j: int|
                    i <= j < n ==> (#[trigger] self.output_chs@[j]).model() == oldm[j],
                forall|j: int|
                    0 <= j < i ==> (#[trigger] self.output_chs@[j]).model() == send_all_chans(
                        oldm,
                        data@,
                    )[j],
            decreases n - i,
        {
            let copy = clone_byte_frame(&data);
            let ch = &mut self.output_chs[i];
            ch.send(copy);
            i = i + 1;
        }
        proof {
            assert(self.model() =~= send_all_chans(oldm, data@));
        }
    }
}

/// The model of a port table: port index paired with the port's channels.
pub struct CtxModel {
    pub inputs: Seq<(u32, Seq<ChanModel>)>,
    pub outputs: Seq<(u32, Seq<ChanModel>)>,
}

/// The index of the first entry with the given port, if any.
pub open spec fn find_port<T>(s: Seq<(u32, T)>, port: u32) -> Option<int>
    decreases s.len(),
{
    if s.len() == 0 {
        None
    } else if s[0].0 == port {
        Some(0)
    } else {
        match find_port(s.skip(1), port) {
            Some(i) => Some(i + 1),
            None => None,
        }
    }
}

/// Sending on a context: the named output port fans the frame out; a send to
/// an unknown port is dropped.
pub open spec fn ctx_send_model(c: CtxModel, port: u32, f: Frame<Seq<u8>>) -> CtxModel {
    match find_port(c.outputs, port) {
        Some(i) => CtxModel {
            inputs: c.inputs,
            outputs: c.outputs.update(i, (port, send_all_chans(c.outputs[i].1, f))),
        },
        None => c,
    }
}

/// Receiving on a context: the named input port is scanned; a receive from an
/// unknown port yields nothing.
pub open spec fn ctx_recv_model(c: CtxModel, port: u32) -> (CtxModel, Option<Frame<Seq<u8>>>) {
    match find_port(c.inputs, port) {
        Some(i) => {
            let (ms, out) = scan_chans(c.inputs[i].1);
            (CtxModel { inputs: c.inputs.update(i, (port, ms)), outputs: c.outputs }, out)
        }
        None => (c, None),
    }
}

/// All input ports of a context report finished.
pub open spec fn ctx_recv_finished(c: CtxModel) -> bool {
    forall|i: int, j: int|
        0 <= i < c.inputs.len() && 0 <= j < c.inputs[i].1.len() ==> chan_finished(
            #[trigger] c.inputs[i].1[j],
        )
}

/// The per-tick view a node has of its ports. Rebuilt by the driver for every
/// tick; it carries no state between ticks.
pub struct MxlNodeCtx {
    pub inputs: Vec<(u32, Input)>,
    pub outputs: Vec<(u32, Output)>,
}

impl MxlNodeCtx {
    pub open spec fn model(&self) -> CtxModel {
        CtxModel {
            inputs: Seq::new(self.inputs@.len(), |i: int| (self.inputs@[i].0, self.inputs@[i].1.model())),
            outputs: Seq::new(
                self.outputs@.len(),
                |i: int| (self.outputs@[i].0, self.outputs@[i].1.model()),
            ),
        }
    }

    pub fn new() -> (r: Self)
        ensures
            r.model().inputs == Seq::<(u32, Seq<ChanModel>)>::empty(),
            r.model().outputs == Seq::<(u32, Seq<ChanModel>)>::empty(),
    {
        let r = MxlNodeCtx { inputs: Vec::new(), outputs: Vec::new() };
        proof {
            assert(r.model().inputs =~= Seq::<(u32, Seq<ChanModel>)>::empty());
            assert(r.model().outputs =~= Seq::<(u32, Seq<ChanModel>)>::empty());
        }
        r
    }

    /// Sends a byte frame on the given output port; an invalid port drops the
    /// frame.
    #[verifier::loop_isolation(false)]
    pub fn send(&mut self, output_idx: u32, data: Frame<Vec<u8>>)
        ensures
            final(self).model() == ctx_send_model(old(self).model(), output_idx, data@),
    {
        let ghost oldm = self.model();
        proof {
            lemma_find_port_zero(oldm.outputs, output_idx);
        }
        let n = self.outputs.len();
        let mut i: usize = 0;
        while i < n
            invariant
                i <= n,
                n == self.outputs@.len(),
                self.inputs@ == old(self).inputs@,
                forall|j: int| 0 <= j < n ==> #[trigger] self.outputs@[j] == old(self).outputs@[j],
                find_port(oldm.outputs, output_idx) == find_port_from(oldm.outputs, output_idx, i as int),
            decreases n - i,
        {
            if self.outputs[i].0 == output_idx {
                proof {
                    lemma_find_port_found(oldm.outputs, output_idx, i as int);
                }
                let entry = &mut self.outputs[i];
                entry.1.send(data);
                proof {
                    assert(self.model().inputs =~= oldm.inputs);
                    assert(self.model().outputs =~= ctx_send_model(oldm, output_idx, data@).outputs);
                }
                return;
            }
            i = i + 1;
        }
        proof {
            lemma_find_port_none(oldm.outputs, output_idx, n as int);
            assert(self.model().inputs =~= oldm.inputs);
            assert(self.model().outputs =~= oldm.outputs);
        }
    }

    /// Receives the next byte frame from the given input port; an invalid
    /// port yields nothing.
    #[verifier::loop_isolation(false)]
    pub fn recv(&mut self, input_idx: u32) -> (r: Option<Frame<Vec<u8>>>)
        ensures
            ({
                let (m2, out) = ctx_recv_model(old(self).model(), input_idx);
                &&& final(self).model() == m2
                &&& match (r, out) {
                    (Some(rf), Some(of)) => rf@ == of,
                    (None, None) => true,
                    _ => false,
                }
            }),
    {
        let ghost oldm = self.model();
        proof {
            lemma_find_port_zero(oldm.inputs, input_idx);
        }
        let n = self.inputs.len();
        let mut i: usize = 0;
        while i < n
            invariant
                i <= n,
                n == self.inputs@.len(),
                self.outputs@ == old(self).outputs@,
                forall|j: int| 0 <= j < n ==> #[trigger] self.inputs@[j] == old(self).inputs@[j],
                find_port(oldm.inputs, input_idx) == find_port_from(oldm.inputs, input_idx, i as int),
            decreases n - i,
        {
            if self.inputs[i].0 == input_idx {
                proof {
                    lemma_find_port_found(oldm.inputs, input_idx, i as int);
                }
                let entry = &mut self.inputs[i];
                let got = entry.1.recv();
                proof {
                    assert(self.model().outputs =~= oldm.outputs);
                    assert(self.model().inputs =~= ctx_recv_model(oldm, input_idx).0.inputs);
                }
                return got;
            }
            i = i + 1;
        }
        proof {
            lemma_find_port_none(oldm.inputs, input_idx, n as int);
            assert(self.model().inputs =~= oldm.inputs);
            assert(self.model().outputs =~= oldm.outputs);
        }
        None
    }

    /// True iff every input port reports finished.
    #[verifier::loop_isolation(false)]
    pub fn recv_finished(&self) -> (r: bool)
        ensures
            r == ctx_recv_finished(self.model()),
    {
        let n = self.inputs.len();
        let mut i: usize = 0;
        while i < n
            invariant
                i <= n,
                n == self.inputs@.len(),
                forall|k: int, j: int|
                    0 <= k < i && 0 <= j < self.model().inputs[k].1.len() ==> chan_finished(
                        #[trigger] self.model().inputs[k].1[j],
                    ),
            decreases n - i,
        {
            if !self.inputs[i].1.finished() {
                proof {
                    let m = self.model();
                    let k = i as int;
                    let im = self.inputs@[k].1.model();
                    assert(m.inputs[k].1 == im);
                    if ctx_recv_finished(m) {
                        assert forall|j: int| 0 <= j < im.len() implies chan_finished(
                            #[trigger] im[j],
                        ) by {
                            assert(chan_finished(m.inputs[k].1[j]));
                        }
                    }
                }
                return false;
            }
            i = i + 1;
        }
        true
    }
}

/// The index of the first entry with the given port at or past `i`.
pub open spec fn find_port_from<T>(s: Seq<(u32, T)>, port: u32, i: int) -> Option<int>
    recommends
        0 <= i <= s.len(),
    decreases s.len() - i,
{
    if i >= s.len() {
        None
    } else if s[i].0 == port {
        Some(i)
    } else {
        find_port_from(s, port, i + 1)
    }
}

proof fn lemma_find_port_equiv<T>(s: Seq<(u32, T)>, port: u32, i: int)
    requires
        0 <= i <= s.len(),
    ensures
        find_port_from(s, port, i) == match find_port(s.skip(i), port) {
            Some(k) => Some(k + i),
            None => None::<int>,
        },
    decreases s.len() - i,
{
    if i < s.len() {
        assert(s.skip(i)[0] == s[i]);
        if s[i].0 != port {
            lemma_find_port_equiv(s, port, i + 1);
            assert(s.skip(i + 1) =~= s.skip(i).skip(1));
        }
    }
}

proof fn lemma_find_port_zero<T>(s: Seq<(u32, T)>, port: u32)
    ensures
        find_port(s, port) == find_port_from(s, port, 0),
{
    lemma_find_port_equiv(s, port, 0);
    assert(s.skip(0) =~= s);
}

proof fn lemma_find_port_found<T>(s: Seq<(u32, T)>, port: u32, i: int)
    requires
        0 <= i < s.len(),
        s[i].0 == port,
        find_port(s, port) == find_port_from(s, port, i),
    ensures
        find_port(s, port) == Some(i),
{
}

proof fn lemma_find_port_none<T>(s: Seq<(u32, T)>, port: u32, n: int)
    requires
        n == s.len(),
        find_port(s, port) == find_port_from(s, port, n),
    ensures
        find_port(s, port) is None,
{
}


/// The number of frames queued across a sequence of channels.
pub open spec fn total_frames(cs: Seq<ChanModel>) -> nat
    decreases cs.len(),
{
    if cs.len() == 0 {
        0
    } else {
        cs[0].q.len() + total_frames(cs.skip(1))
    }
}

/// The number of frames queued across a port table.
pub open spec fn total_entries(es: Seq<(u32, Seq<ChanModel>)>) -> nat
    decreases es.len(),
{
    if es.len() == 0 {
        0
    } else {
        total_frames(es[0].1) + total_entries(es.skip(1))
    }
}

/// The number of frames buffered on all input ports of a context.
pub open spec fn ctx_total_in(m: CtxModel) -> nat {
    total_entries(m.inputs)
}

proof fn lemma_total_frames_update(cs: Seq<ChanModel>, i: int, c: ChanModel)
    requires
        0 <= i < cs.len(),
    ensures
        total_frames(cs.update(i, c)) + cs[i].q.len() == total_frames(cs) + c.q.len(),
    decreases cs.len(),
{
    if i == 0 {
        assert(cs.update(0, c).skip(1) =~= cs.skip(1));
    } else {
        assert(cs.update(i, c).skip(1) =~= cs.skip(1).update(i - 1, c));
        assert(cs.update(i, c)[0] == cs[0]);
        lemma_total_frames_update(cs.skip(1), i - 1, c);
    }
}

proof fn lemma_scan_decreases(cs: Seq<ChanModel>)
    requires
        scan_chans(cs).1 is Some,
    ensures
        total_frames(scan_chans(cs).0) < total_frames(cs),
    decreases cs.len(),
{
    let (st2, q2, out) = channel_recv_spec(cs[0].st, cs[0].q);
    match out {
        Some(_) => {
            assert(q2 == cs[0].q.skip(1));
            assert((seq![ChanModel { st: st2, q: q2 }] + cs.skip(1)).skip(1) =~= cs.skip(1));
        }
        None => {
            let (rest, _o) = scan_chans(cs.skip(1));
            lemma_scan_decreases(cs.skip(1));
            assert((seq![cs[0]] + rest).skip(1) =~= rest);
        }
    }
}

proof fn lemma_total_entries_update(
    es: Seq<(u32, Seq<ChanModel>)>,
    i: int,
    e: (u32, Seq<ChanModel>),
)
    requires
        0 <= i < es.len(),
    ensures
        total_entries(es.update(i, e)) + total_frames(es[i].1) == total_entries(es) + total_frames(
            e.1,
        ),
    decreases es.len(),
{
    if i == 0 {
        assert(es.update(0, e).skip(1) =~= es.skip(1));
    } else {
        assert(es.update(i, e).skip(1) =~= es.skip(1).update(i - 1, e));
        assert(es.update(i, e)[0] == es[0]);
        lemma_total_entries_update(es.skip(1), i - 1, e);
    }
}

/// A receive that yields a frame strictly shrinks the total number of
/// buffered input frames: the measure that bounds a node's reads per tick.
pub proof fn lemma_ctx_recv_decreases(m: CtxModel, port: u32)
    requires
        ctx_recv_model(m, port).1 is Some,
    ensures
        ctx_total_in(ctx_recv_model(m, port).0) < ctx_total_in(m),
{
    match find_port(m.inputs, port) {
        Some(i) => {
            lemma_find_port_in_bounds(m.inputs, port);
            let (ms, _out) = scan_chans(m.inputs[i].1);
            lemma_scan_decreases(m.inputs[i].1);
            lemma_total_entries_update(m.inputs, i, (port, ms));
        }
        None => {}
    }
}

proof fn lemma_find_port_in_bounds<T>(s: Seq<(u32, T)>, port: u32)
    requires
        find_port(s, port) is Some,
    ensures
        0 <= find_port(s, port)->0 < s.len(),
    decreases s.len(),
{
    if s.len() > 0 && s[0].0 != port {
        lemma_find_port_in_bounds(s.skip(1), port);
    }
}

} // verus!
