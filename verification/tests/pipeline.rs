//! End-to-end operator tests: pipelines are driven by ticking each node with
//! a per-tick context built from the channels of its edges, as a host driver
//! would.

use mixlayer::codec::MxlData;
use mixlayer::node::MxlNode;
use mixlayer::IntoChunks;
use mixlayer::transform::{count, LowercaseXform, UppercaseXform};
use mixlayer::{
    DebugSink, Frame, InMemoryEdgeChannel, Input, KV, MxlLeftJoin, MxlNodeCtx, Output, VecSource,
};

fn ch(name: &str) -> InMemoryEdgeChannel {
    InMemoryEdgeChannel::new(name.to_owned())
}

/// Ticks a node with the given input and output channels bound to port 0,
/// handing the channels back afterwards.
fn tick1(
    node: &mut dyn MxlNode,
    inputs: Vec<InMemoryEdgeChannel>,
    outputs: Vec<InMemoryEdgeChannel>,
) -> (Vec<InMemoryEdgeChannel>, Vec<InMemoryEdgeChannel>) {
    let mut ctx = MxlNodeCtx::new();
    let has_in = !inputs.is_empty();
    let has_out = !outputs.is_empty();
    if has_in {
        ctx.inputs.push((0, Input::new(inputs)));
    }
    if has_out {
        ctx.outputs.push((0, Output { output_chs: outputs }));
    }
    node.tick(&mut ctx).expect("tick failed");
    let outs = if has_out { ctx.outputs.pop().unwrap().1.output_chs } else { Vec::new() };
    let ins = if has_in { ctx.inputs.pop().unwrap().1.into_chs() } else { Vec::new() };
    (ins, outs)
}

/// Drains every decoded frame out of a channel.
fn drain<T: MxlData>(ch: &mut InMemoryEdgeChannel) -> Vec<Frame<T>> {
    let mut out = Vec::new();
    while let Some(f) = ch.recv() {
        out.push(T::from_buffer_frame(f));
    }
    out
}

#[test]
fn vec_source_emits_reversed_then_end() {
    let mut src = VecSource::new(vec![1u32, 2, 3]);
    let mut c = ch("e0");
    for _ in 0..5 {
        let (_, outs) = tick1(&mut src, Vec::new(), vec![c]);
        c = outs.into_iter().next().unwrap();
    }
    let frames: Vec<Frame<u32>> = drain(&mut c);
    assert_eq!(frames.len(), 4);
    assert!(matches!(frames[0], Frame::Data(3)));
    assert!(matches!(frames[1], Frame::Data(2)));
    assert!(matches!(frames[2], Frame::Data(1)));
    assert!(matches!(frames[3], Frame::End));
}

#[test]
fn eos_is_idempotent() {
    // Once a source has emitted `End`, further ticks produce no frames.
    let mut src = VecSource::new(vec![9u32]);
    let mut c = ch("e0");
    for _ in 0..3 {
        let (_, outs) = tick1(&mut src, Vec::new(), vec![c]);
        c = outs.into_iter().next().unwrap();
    }
    assert_eq!(c.size(), 2); // Data(9), End
    for _ in 0..4 {
        let (_, outs) = tick1(&mut src, Vec::new(), vec![c]);
        c = outs.into_iter().next().unwrap();
    }
    assert_eq!(c.size(), 2);
}

#[test]
fn send_after_close_is_dropped() {
    let mut c = ch("e");
    c.send(Frame::Data(vec![1u8]));
    c.send(Frame::End);
    assert_eq!(c.size(), 2);
    c.send(Frame::Data(vec![2u8]));
    assert_eq!(c.size(), 2);
    assert!(c.finished());
}

#[test]
fn error_frames_are_dropped_by_channel() {
    let mut c = ch("e");
    c.send(Frame::Error);
    assert_eq!(c.size(), 0);
}

#[test]
fn fan_out_duplicates_frames() {
    // With fan-out degree two, each downstream receives the identical
    // sequence of frames.
    let mut out = Output { output_chs: vec![ch("a"), ch("b")] };
    out.send(Frame::Data(vec![1u8, 2]));
    out.send(Frame::End);
    let mut chans = out.output_chs;
    let left: Vec<Frame<Vec<u8>>> = {
        let mut v = Vec::new();
        while let Some(f) = chans[0].recv() {
            v.push(f);
        }
        v
    };
    let right: Vec<Frame<Vec<u8>>> = {
        let mut v = Vec::new();
        while let Some(f) = chans[1].recv() {
            v.push(f);
        }
        v
    };
    assert_eq!(left.len(), 2);
    assert_eq!(right.len(), 2);
    assert!(matches!((&left[0], &right[0]), (Frame::Data(a), Frame::Data(b)) if a == b));
    assert!(matches!((&left[1], &right[1]), (Frame::End, Frame::End)));
}

#[test]
fn map_uppercase_to_debug_sink() {
    // VecSource(["a","b"]) -> map(uppercase) -> DebugSink: the sink sees
    // "B", "A" (source emits in reverse order), then the stream end.
    let mut src = VecSource::new(vec!["a".to_owned(), "b".to_owned()]);
    let mut map_op = mixlayer::transform::map::map(|s: String| s.to_uppercase());
    let mut sink = DebugSink::<String>::new();
    let mut c1 = ch("src-map");
    let mut c2 = ch("map-sink");
    for _ in 0..6 {
        let (_, o) = tick1(&mut src, Vec::new(), vec![c1]);
        c1 = o.into_iter().next().unwrap();
        let (i, o) = tick1(&mut map_op, vec![c1], vec![c2]);
        c1 = i.into_iter().next().unwrap();
        c2 = o.into_iter().next().unwrap();
        let (i, _) = tick1(&mut sink, vec![c2], Vec::new());
        c2 = i.into_iter().next().unwrap();
    }
    let seen = sink.take_seen();
    assert_eq!(seen.len(), 3);
    assert!(matches!(&seen[0], Frame::Data(s) if s == "B"));
    assert!(matches!(&seen[1], Frame::Data(s) if s == "A"));
    assert!(matches!(&seen[2], Frame::End));
}

#[test]
fn filter_even_then_collect() {
    // VecSource([1,2,3,4]) -> filter(even) -> collect: one final data frame
    // [4, 2] (reversed source order, odd values filtered out), then End.
    let mut src = VecSource::new(vec![1u32, 2, 3, 4]);
    let mut filter_op = mixlayer::transform::filter::filter(|x: &u32| x % 2 == 0);
    let mut collect_op = mixlayer::transform::collect::collect::<u32>();
    let mut sink = DebugSink::<Vec<u32>>::new();
    let mut c1 = ch("src-filter");
    let mut c2 = ch("filter-collect");
    let mut c3 = ch("collect-sink");
    for _ in 0..8 {
        let (_, o) = tick1(&mut src, Vec::new(), vec![c1]);
        c1 = o.into_iter().next().unwrap();
        let (i, o) = tick1(&mut filter_op, vec![c1], vec![c2]);
        c1 = i.into_iter().next().unwrap();
        c2 = o.into_iter().next().unwrap();
        let (i, o) = tick1(&mut collect_op, vec![c2], vec![c3]);
        c2 = i.into_iter().next().unwrap();
        c3 = o.into_iter().next().unwrap();
        let (i, _) = tick1(&mut sink, vec![c3], Vec::new());
        c3 = i.into_iter().next().unwrap();
    }
    let seen = sink.take_seen();
    assert_eq!(seen.len(), 2);
    assert!(matches!(&seen[0], Frame::Data(v) if *v == vec![4u32, 2]));
    assert!(matches!(&seen[1], Frame::End));
}

#[test]
fn batch_then_flatten_preserves_elements() {
    // VecSource([1..5]) -> batch(2) -> flatten: data frames 5,4,3,2,1 (source
    // reversed) then End; the partial final batch of size one is flushed.
    let mut src = VecSource::new(vec![1u32, 2, 3, 4, 5]);
    let mut batch_op = mixlayer::transform::batch::batch::<u32>(2);
    let mut flatten_op = mixlayer::transform::flatten::flatten::<u32>();
    let mut sink = DebugSink::<u32>::new();
    let mut c1 = ch("src-batch");
    let mut c2 = ch("batch-flatten");
    let mut c3 = ch("flatten-sink");
    for _ in 0..12 {
        let (_, o) = tick1(&mut src, Vec::new(), vec![c1]);
        c1 = o.into_iter().next().unwrap();
        let (i, o) = tick1(&mut batch_op, vec![c1], vec![c2]);
        c1 = i.into_iter().next().unwrap();
        c2 = o.into_iter().next().unwrap();
        let (i, o) = tick1(&mut flatten_op, vec![c2], vec![c3]);
        c2 = i.into_iter().next().unwrap();
        c3 = o.into_iter().next().unwrap();
        let (i, _) = tick1(&mut sink, vec![c3], Vec::new());
        c3 = i.into_iter().next().unwrap();
    }
    let seen = sink.take_seen();
    let mut data = Vec::new();
    for f in &seen {
        if let Frame::Data(v) = f {
            data.push(*v);
        }
    }
    assert_eq!(data, vec![5u32, 4, 3, 2, 1]);
    assert!(matches!(seen.last().unwrap(), Frame::End));
}

#[test]
fn left_join_emits_all_matching_pairs() {
    // Left [("k",10),("k",20)] and right [("k","r1"),("k","r2")]: one output
    // per matching pair, in left arrival order, right insertion order
    // preserved; both sources emit in reverse, so the left arrivals are 20
    // then 10 and the right buffer holds r2 then r1. Then End.
    let mut left_src = VecSource::new(vec![
        KV("k".to_owned(), 10u32),
        KV("k".to_owned(), 20u32),
    ]);
    let mut right_src = VecSource::new(vec![
        KV("k".to_owned(), "r1".to_owned()),
        KV("k".to_owned(), "r2".to_owned()),
    ]);
    let mut join: MxlLeftJoin<String, u32, String> = MxlLeftJoin::new();
    let mut sink = DebugSink::<KV<String, KV<u32, String>>>::new();
    let mut lc = ch("left");
    let mut rc = ch("right");
    let mut oc = ch("out");
    for _ in 0..12 {
        let (_, o) = tick1(&mut left_src, Vec::new(), vec![lc]);
        lc = o.into_iter().next().unwrap();
        let (_, o) = tick1(&mut right_src, Vec::new(), vec![rc]);
        rc = o.into_iter().next().unwrap();
        // the join reads the left stream on port 0 and the right on port 1
        let mut ctx = MxlNodeCtx::new();
        ctx.inputs.push((0, Input::new(vec![lc])));
        ctx.inputs.push((1, Input::new(vec![rc])));
        ctx.outputs.push((0, Output { output_chs: vec![oc] }));
        join.tick(&mut ctx).expect("join tick failed");
        oc = ctx.outputs.pop().unwrap().1.output_chs.into_iter().next().unwrap();
        rc = ctx.inputs.pop().unwrap().1.into_chs().into_iter().next().unwrap();
        lc = ctx.inputs.pop().unwrap().1.into_chs().into_iter().next().unwrap();
        let (i, _) = tick1(&mut sink, vec![oc], Vec::new());
        oc = i.into_iter().next().unwrap();
    }
    let seen = sink.take_seen();
    let mut data = Vec::new();
    for f in &seen {
        if let Frame::Data(KV(k, KV(l, r))) = f {
            data.push((k.clone(), *l, r.clone()));
        }
    }
    assert_eq!(
        data,
        vec![
            ("k".to_owned(), 20u32, "r2".to_owned()),
            ("k".to_owned(), 20u32, "r1".to_owned()),
            ("k".to_owned(), 10u32, "r2".to_owned()),
            ("k".to_owned(), 10u32, "r1".to_owned()),
        ]
    );
    assert!(matches!(seen.last().unwrap(), Frame::End));
}

#[test]
fn group_by_key_groups_values() {
    // Stream (k1,1), (k2,2), (k1,3), End into group_by_key: exactly two data
    // frames after the end of the source, KV(k1,[1,3]) and KV(k2,[2]), then
    // End.
    let mut group = mixlayer::transform::groupby::group_by_key::<String, u32>();
    let mut sink = DebugSink::<KV<String, Vec<u32>>>::new();
    let mut c1 = ch("in");
    for kv in [
        KV("k1".to_owned(), 1u32),
        KV("k2".to_owned(), 2u32),
        KV("k1".to_owned(), 3u32),
    ] {
        let f = kv.into_buffer_frame().unwrap();
        c1.send(f);
    }
    c1.send(Frame::End);
    let mut c2 = ch("out");
    for _ in 0..8 {
        let (i, o) = tick1(&mut group, vec![c1], vec![c2]);
        c1 = i.into_iter().next().unwrap();
        c2 = o.into_iter().next().unwrap();
        let (i, _) = tick1(&mut sink, vec![c2], Vec::new());
        c2 = i.into_iter().next().unwrap();
    }
    let seen = sink.take_seen();
    let mut data = Vec::new();
    for f in &seen {
        if let Frame::Data(KV(k, vs)) = f {
            data.push((k.clone(), vs.clone()));
        }
    }
    assert_eq!(data.len(), 2);
    assert!(data.contains(&("k1".to_owned(), vec![1u32, 3])));
    assert!(data.contains(&("k2".to_owned(), vec![2u32])));
    assert!(matches!(seen.last().unwrap(), Frame::End));
}

#[test]
fn uppercase_and_lowercase_transform_text() {
    let mut up = UppercaseXform;
    let mut down = LowercaseXform;
    let mut c1 = ch("in");
    c1.send("mIxEd".to_owned().into_buffer_frame().unwrap());
    let mut c2 = ch("mid");
    let (i, o) = tick1(&mut up, vec![c1], vec![c2]);
    c1 = i.into_iter().next().unwrap();
    c2 = o.into_iter().next().unwrap();
    let frames: Vec<Frame<String>> = drain(&mut c2);
    assert!(matches!(&frames[0], Frame::Data(s) if s == "MIXED"));

    c1.send("mIxEd".to_owned().into_buffer_frame().unwrap());
    let mut c3 = ch("low");
    let (_, o) = tick1(&mut down, vec![c1], vec![c3]);
    c3 = o.into_iter().next().unwrap();
    let frames: Vec<Frame<String>> = drain(&mut c3);
    assert!(matches!(&frames[0], Frame::Data(s) if s == "mixed"));
}

#[test]
fn count_counts_data_frames() {
    let mut counter = count();
    let mut c1 = ch("in");
    for s in ["x", "y", "z"] {
        c1.send(s.to_owned().into_buffer_frame().unwrap());
    }
    c1.send(Frame::End);
    let mut c2 = ch("out");
    for _ in 0..6 {
        let (i, o) = tick1(&mut counter, vec![c1], vec![c2]);
        c1 = i.into_iter().next().unwrap();
        c2 = o.into_iter().next().unwrap();
    }
    let frames: Vec<Frame<u32>> = drain(&mut c2);
    assert_eq!(frames.len(), 2);
    assert!(matches!(frames[0], Frame::Data(3)));
    assert!(matches!(frames[1], Frame::End));
}

#[test]
fn try_map_failure_is_tick_error() {
    let mut op = mixlayer::transform::map::try_map(|x: u32| {
        if x == 13 {
            Err(mixlayer::TickError)
        } else {
            Ok(x + 1)
        }
    });
    let mut c1 = ch("in");
    c1.send(13u32.into_buffer_frame().unwrap());
    let mut ctx = MxlNodeCtx::new();
    ctx.inputs.push((0, Input::new(vec![c1])));
    ctx.outputs.push((0, Output { output_chs: vec![ch("out")] }));
    assert!(op.tick(&mut ctx).is_err());
}

#[test]
fn fs_sources_emit_read_outcomes() {
    let mut lines = mixlayer::FsLineSource::new("notes.txt".to_owned()).unwrap();
    let mut c = ch("lines");
    let feed: Vec<Option<Result<String, ()>>> = vec![
        Some(Ok("first".to_owned())),
        Some(Err(())),
        Some(Ok("second".to_owned())),
        None,
        Some(Ok("ignored".to_owned())),
    ];
    for item in feed {
        let mut ctx = MxlNodeCtx::new();
        ctx.outputs.push((0, Output { output_chs: vec![c] }));
        lines.tick_with_line(&mut ctx, item).unwrap();
        c = ctx.outputs.pop().unwrap().1.output_chs.into_iter().next().unwrap();
    }
    let frames: Vec<Frame<String>> = drain(&mut c);
    // the in-memory channel drops the advisory Error frame
    assert_eq!(frames.len(), 3);
    assert!(matches!(&frames[0], Frame::Data(s) if s == "first"));
    assert!(matches!(&frames[1], Frame::Data(s) if s == "second"));
    assert!(matches!(&frames[2], Frame::End));

    let mut whole = mixlayer::FsStringSource::new("all.txt".to_owned()).unwrap();
    assert!(whole.needs_read());
    let mut c = ch("whole");
    let mut ctx = MxlNodeCtx::new();
    ctx.outputs.push((0, Output { output_chs: vec![c] }));
    whole.tick_with_contents(&mut ctx, "entire file".to_owned()).unwrap();
    c = ctx.outputs.pop().unwrap().1.output_chs.into_iter().next().unwrap();
    assert!(!whole.needs_read());
    let frames: Vec<Frame<String>> = drain(&mut c);
    assert_eq!(frames.len(), 2);
    assert!(matches!(&frames[0], Frame::Data(s) if s == "entire file"));
    assert!(matches!(&frames[1], Frame::End));
}

#[test]
fn into_chunks_shapes() {
    assert_eq!("one".to_owned().into_chunks(), vec!["one".to_owned()]);
    assert_eq!(
        vec!["a".to_owned(), "b".to_owned()].into_chunks(),
        vec!["a".to_owned(), "b".to_owned()]
    );
}

#[test]
fn first_ready_scan_and_recv_finished() {
    let mut empty = ch("empty");
    let mut full = ch("full");
    full.send(7u32.into_buffer_frame().unwrap());
    full.send(Frame::End);
    let mut input = Input::new(vec![empty, full]);
    assert!(!input.finished());
    let got = input.recv().unwrap();
    assert!(matches!(u32::from_buffer_frame(got), Frame::Data(7)));
    let mut chans = input.into_chs();
    assert!(!chans[0].finished());
    assert!(chans[1].finished());
    let _ = chans;
}
