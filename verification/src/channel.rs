//! Edge channels: FIFO transport of byte frames between one producer port and
//! one consumer port.

use vstd::prelude::*;

use crate::frame::Frame;

verus! {

use std::collections::VecDeque;

/// The lifecycle of an edge channel. Consuming an `End` moves a channel to
/// `FinishedReading`; pushing an `End` moves it to `FinishedWriting`.
#[derive(Debug, Clone, PartialEq, Eq, Structural)]
pub enum EdgeChannelState {
    FinishedWriting,
    FinishedReading,
    Running,
}

/// An in-process edge channel: a state tag and a FIFO buffer of byte frames.
///
/// The engine's scheduling model is single-threaded and cooperative, so the
/// channel is an owned value mutated through exclusive references; the driver
/// holds every channel and lends it to the node being ticked.
pub struct InMemoryEdgeChannel {
    edge_id: String,
    state: EdgeChannelState,
    buffer: VecDeque<Frame<Vec<u8>>>,
}

/// What `send` does to a channel: a frame sent on a finished channel is
/// dropped; an `Error` frame is dropped; `Data` is queued; `End` is queued
/// and closes the channel for writing.
pub open spec fn channel_send_spec(
    st: EdgeChannelState,
    q: Seq<Frame<Seq<u8>>>,
    f: Frame<Seq<u8>>,
) -> (EdgeChannelState, Seq<Frame<Seq<u8>>>) {
    match st {
        EdgeChannelState::FinishedWriting => (st, q),
        EdgeChannelState::FinishedReading => (st, q),
        EdgeChannelState::Running => match f {
            Frame::Error => (st, q),
            Frame::Data(_) => (st, q.push(f)),
            Frame::End => (EdgeChannelState::FinishedWriting, q.push(f)),
        },
    }
}

/// What `recv` does to a channel: nothing after `FinishedReading`; otherwise
/// the front frame is popped, and popping an `End` closes the channel for
/// reading.
pub open spec fn channel_recv_spec(st: EdgeChannelState, q: Seq<Frame<Seq<u8>>>) -> (
    EdgeChannelState,
    Seq<Frame<Seq<u8>>>,
    Option<Frame<Seq<u8>>>,
) {
    match st {
        EdgeChannelState::FinishedReading => (st, q, None),
        _ => {
            if q.len() == 0 {
                (st, q, None)
            } else if q[0] is End {
                (EdgeChannelState::FinishedReading, q.skip(1), Some(q[0]))
            } else {
                (st, q.skip(1), Some(q[0]))
            }
        }
    }
}

impl InMemoryEdgeChannel {
    /// The queued frames, oldest first.
    pub closed spec fn frames(&self) -> Seq<Frame<Seq<u8>>> {
        Seq::new(self.buffer@.len(), |i: int| self.buffer@[i]@)
    }

    /// The channel's lifecycle state.
    pub closed spec fn st(&self) -> EdgeChannelState {
        self.state
    }

    /// The identifier this channel was created with.
    pub closed spec fn id(&self) -> Seq<char> {
        self.edge_id@
    }

    pub fn new(edge_id: String) -> (r: Self)
        ensures
            r.st() == EdgeChannelState::Running,
            r.frames() == Seq::<Frame<Seq<u8>>>::empty(),
            r.id() == edge_id@,
    {
        let r = InMemoryEdgeChannel { edge_id, state: EdgeChannelState::Running, buffer: VecDeque::new() };
        proof {
            assert(r.frames() =~= Seq::<Frame<Seq<u8>>>::empty());
        }
        r
    }

    pub fn state(&self) -> (r: EdgeChannelState)
        ensures
            r == self.st(),
    {
        match self.state {
            EdgeChannelState::FinishedWriting => EdgeChannelState::FinishedWriting,
            EdgeChannelState::FinishedReading => EdgeChannelState::FinishedReading,
            EdgeChannelState::Running => EdgeChannelState::Running,
        }
    }

    pub fn size(&self) -> (r: usize)
        ensures
            r == self.frames().len(),
    {
        self.buffer.len()
    }

    /// Accepts a frame; never fails. After the writer has closed (or the
    /// reader has finished), the frame is dropped.
    pub fn send(&mut self, data: Frame<Vec<u8>>)
        ensures
            (final(self).st(), final(self).frames()) == channel_send_spec(
                old(self).st(),
                old(self).frames(),
                data@,
            ),
            final(self).id() == old(self).id(),
    {
        match self.state {
            EdgeChannelState::FinishedWriting => {}
            EdgeChannelState::FinishedReading => {}
            EdgeChannelState::Running => {
                match data {
                    Frame::Error => {}
                    Frame::Data(d) => {
                        let ghost before = self.frames();
                        self.buffer.push_back(Frame::Data(d));
                        proof {
                            assert(self.frames() =~= before.push(Frame::Data(d@)));
                        }
                    }
                    Frame::End => {
                        let ghost before = self.frames();
                        self.buffer.push_back(Frame::End);
                        self.state = EdgeChannelState::FinishedWriting;
                        proof {
                            assert(self.frames() =~= before.push(Frame::End));
                        }
                    }
                }
            }
        }
    }

    /// Returns the next buffered frame, if any. Consuming an `End` transitions
    /// the channel to `FinishedReading`.
    pub fn recv(&mut self) -> (r: Option<Frame<Vec<u8>>>)
        ensures
            ({
                let (st2, q2, out) = channel_recv_spec(old(self).st(), old(self).frames());
                &&& final(self).st() == st2
                &&& final(self).frames() == q2
                &&& match (r, out) {
                    (Some(rf), Some(of)) => rf@ == of,
                    (None, None) => true,
                    _ => false,
                }
            }),
            final(self).id() == old(self).id(),
    {
        let next = match self.state {
            EdgeChannelState::FinishedWriting | EdgeChannelState::Running => {
                let ghost before = self.frames();
                let popped = self.buffer.pop_front();
                proof {
                    if before.len() > 0 {
                        assert(self.frames() =~= before.skip(1));
                    } else {
                        assert(self.frames() =~= before);
                    }
                }
                popped
            }
            EdgeChannelState::FinishedReading => None,
        };
        if let Some(Frame::End) = next {
            self.state = EdgeChannelState::FinishedReading;
        }
        next
    }

    /// True iff the writer has closed this channel (`FinishedWriting` or
    /// later: a channel is only ever finished for reading after its writer
    /// queued the terminal `End`).
    pub fn finished(&self) -> (r: bool)
        ensures
            r == (self.st() != EdgeChannelState::Running),
    {
        match self.state {
            EdgeChannelState::Running => false,
            _ => true,
        }
    }
}

/// Once a stream's `End` has been queued the channel accepts nothing more:
/// a send on a channel whose writer has closed leaves it unchanged.
pub proof fn lemma_eos_is_terminal(
    st: EdgeChannelState,
    q: Seq<Frame<Seq<u8>>>,
    f: Frame<Seq<u8>>,
)
    requires
        st != EdgeChannelState::Running,
    ensures
        channel_send_spec(st, q, f) == (st, q),
{
}

/// Fan-out equivalence: two channels in the same state receiving the same
/// sequence of sends stay in the same state, so every downstream bound to one
/// source port sees the identical frame sequence.
pub open spec fn channel_send_all(
    st: EdgeChannelState,
    q: Seq<Frame<Seq<u8>>>,
    fs: Seq<Frame<Seq<u8>>>,
) -> (EdgeChannelState, Seq<Frame<Seq<u8>>>)
    decreases fs.len(),
{
    if fs.len() == 0 {
        (st, q)
    } else {
        let (st2, q2) = channel_send_spec(st, q, fs[0]);
        channel_send_all(st2, q2, fs.skip(1))
    }
}

/// Sending one sequence of frames is deterministic in the channel state, so
/// equal channels fed the same frames remain equal.
pub proof fn lemma_fan_out_equal(
    st1: EdgeChannelState,
    q1: Seq<Frame<Seq<u8>>>,
    st2: EdgeChannelState,
    q2: Seq<Frame<Seq<u8>>>,
    fs: Seq<Frame<Seq<u8>>>,
)
    requires
        st1 == st2,
        q1 == q2,
    ensures
        channel_send_all(st1, q1, fs) == channel_send_all(st2, q2, fs),
    decreases fs.len(),
{
}

} // verus!
