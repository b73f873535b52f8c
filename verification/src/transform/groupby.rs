//! The group-by-key transform: buffers keyed values into a multi-map while
//! the upstream is open, then emits one frame per key.

use vstd::prelude::*;

use crate::codec::{dec_frame_m, MxlData, KV};
use crate::ctx::{ctx_recv_model, ctx_send_model, CtxModel, MxlNodeCtx};
use crate::frame::Frame;
use crate::node::{node_recv, node_send, sent_frame, xform_send_ok, MxlNode, MxlTransform, TickError};

verus! {

/// The index of the first group with the given key, if any.
pub open spec fn find_key<A, B>(s: Seq<(A, B)>, k: A) -> Option<int>
    decreases s.len(),
{
    if s.len() == 0 {
        None
    } else if s[0].0 == k {
        Some(0)
    } else {
        match find_key(s.skip(1), k) {
            Some(i) => Some(i + 1),
            None => None,
        }
    }
}

/// Adds one keyed value to the groups: appended to the first group with the
/// same key, or opening a new group at the end.
pub open spec fn upsert_group<A, B>(gs: Seq<(A, Seq<B>)>, k: A, v: B) -> Seq<(A, Seq<B>)> {
    match find_key(gs, k) {
        Some(i) => gs.update(i, (gs[i].0, gs[i].1.push(v))),
        None => gs.push((k, seq![v])),
    }
}

/// Emitting the groups: one key-value frame per group in group order, then
/// the terminal `End`. An unencodable group stops the flush with a tick
/// error, the groups before it already sent.
pub open spec fn flush_groups<K: MxlData, V: MxlData>(
    m: CtxModel,
    gs: Seq<(K::V, Seq<V::V>)>,
) -> (CtxModel, Result<(), TickError>)
    decreases gs.len(),
{
    if gs.len() == 0 {
        (ctx_send_model(m, 0, Frame::End), Ok(()))
    } else {
        let kv = KV(gs[0].0, gs[0].1);
        if xform_send_ok::<KV<K, Vec<V>>>(kv) {
            flush_groups::<K, V>(ctx_send_model(m, 0, sent_frame::<KV<K, Vec<V>>>(kv)), gs.skip(1))
        } else {
            (m, Err(TickError))
        }
    }
}

/// What one tick of `group_by_key` does: while buffering, the next keyed
/// value joins its group (the upstream `End` frame ends the buffering
/// phase); once buffering is over, the whole multi-map is emitted, one frame
/// per key in insertion order of the keys, followed by `End`, exactly once.
pub open spec fn group_tick_rel<K: MxlData, V: MxlData>(
    groups: Option<Seq<(K::V, Seq<V::V>)>>,
    buffering: bool,
    groups2: Option<Seq<(K::V, Seq<V::V>)>>,
    buffering2: bool,
    m: CtxModel,
    m2: CtxModel,
    r: Result<(), TickError>,
) -> bool {
    if buffering {
        let (m1, got) = ctx_recv_model(m, 0);
        &&& m2 == m1
        &&& r is Ok
        &&& match got {
            None => groups2 == groups && buffering2,
            Some(bf) => match dec_frame_m::<KV<K, V>>(bf) {
                Frame::Data(kv) => groups2 == match groups {
                    Some(gs) => Some(upsert_group(gs, kv.0, kv.1)),
                    None => groups,
                } && buffering2,
                Frame::End => groups2 == groups && !buffering2,
                Frame::Error => groups2 == groups && buffering2,
            },
        }
    } else {
        match groups {
            Some(gs) => {
                let (ms, rs) = flush_groups::<K, V>(m, gs);
                groups2 is None && !buffering2 && m2 == ms && r == rs
            },
            None => groups2 is None && !buffering2 && m2 == m && r is Ok,
        }
    }
}

/// Buffers keyed values into a multi-map while the upstream is open; on end
/// of stream emits one data frame per key carrying all of that key's values.
#[verifier::reject_recursive_types(K)]
#[verifier::reject_recursive_types(V)]
pub struct GroupByKey<K: MxlData, V: MxlData> {
    buffer: Option<Vec<(K, Vec<V>)>>,
    buffering: bool,
}

impl<K: MxlData, V: MxlData> GroupByKey<K, V> {
    /// The models of the groups: key and values in insertion order, `None`
    /// once flushed.
    pub closed spec fn groups(&self) -> Option<Seq<(K::V, Seq<V::V>)>> {
        match self.buffer {
            Some(b) => Some(Seq::new(b@.len(), |i: int| (b@[i].0.deep_view(), b@[i].1.deep_view()))),
            None => None,
        }
    }

    /// Whether the node is still draining its upstream.
    pub closed spec fn is_buffering(&self) -> bool {
        self.buffering
    }

    pub fn new() -> (r: Self)
        ensures
            r.groups() == Some(Seq::<(K::V, Seq<V::V>)>::empty()),
            r.is_buffering(),
    {
        let r = GroupByKey { buffer: Some(Vec::new()), buffering: true };
        proof {
            assert(r.groups()->0 =~= Seq::<(K::V, Seq<V::V>)>::empty());
        }
        r
    }
}

impl<K: MxlData, V: MxlData> MxlTransform for GroupByKey<K, V> {
    type Input = KV<K, V>;

    type Output = KV<K, Vec<V>>;
}

spec fn entry_models<K: MxlData, V: MxlData>(b: Seq<(K, Vec<V>)>) -> Seq<(K::V, Seq<V::V>)> {
    Seq::new(b.len(), |i: int| (b[i].0.deep_view(), b[i].1.deep_view()))
}

/// The index of the first stored group whose key's model is `k`, searching
/// from `i`.
spec fn find_key_from<A, B>(s: Seq<(A, B)>, k: A, i: int) -> Option<int>
    recommends
        0 <= i <= s.len(),
    decreases s.len() - i,
{
    if i >= s.len() {
        None
    } else if s[i].0 == k {
        Some(i)
    } else {
        find_key_from(s, k, i + 1)
    }
}

proof fn lemma_find_key_equiv<A, B>(s: Seq<(A, B)>, k: A, i: int)
    requires
        0 <= i <= s.len(),
    ensures
        find_key_from(s, k, i) == match find_key(s.skip(i), k) {
            Some(j) => Some(j + i),
            None => None::<int>,
        },
    decreases s.len() - i,
{
    if i < s.len() {
        assert(s.skip(i)[0] == s[i]);
        if s[i].0 != k {
            lemma_find_key_equiv(s, k, i + 1);
            assert(s.skip(i + 1) =~= s.skip(i).skip(1));
        }
    }
}

proof fn lemma_find_key_zero<A, B>(s: Seq<(A, B)>, k: A)
    ensures
        find_key(s, k) == find_key_from(s, k, 0),
{
    lemma_find_key_equiv(s, k, 0);
    assert(s.skip(0) =~= s);
}

impl<K: MxlData, V: MxlData> MxlNode for GroupByKey<K, V> {
    fn operation(&self) -> (r: String) {
        "GroupByKey".to_owned()
    }

    fn default_label(&self) -> (r: Option<String>) {
        Some("GroupBy".to_owned())
    }

    #[verifier::loop_isolation(false)]
    fn tick(&mut self, ctx: &mut MxlNodeCtx) -> (r: Result<(), TickError>)
        ensures
            group_tick_rel::<K, V>(
                old(self).groups(),
                old(self).is_buffering(),
                final(self).groups(),
                final(self).is_buffering(),
                old(ctx).model(),
                final(ctx).model(),
                r,
            ),
    {
        if self.buffering {
            if let Some(frame) = node_recv::<KV<K, V>>(ctx) {
                match frame {
                    Frame::Data(data) => {
                        if let Some(buf) = &mut self.buffer {
                            let ghost oldb = buf@;
                            let KV(key, value) = data;
                            let n = buf.len();
                            let ghost gm = entry_models::<K, V>(oldb);
                            proof {
                                lemma_find_key_zero(gm, key.deep_view());
                            }
                            let mut i: usize = 0;
                            let mut found = false;
                            while i < n && !found
                                invariant
                                    i <= n,
                                    n == buf@.len(),
                                    !found,
                                    buf@ == oldb,
                                    find_key(gm, key.deep_view()) == find_key_from(
                                        gm,
                                        key.deep_view(),
                                        i as int,
                                    ),
                                decreases n - i,
                            {
                                if buf[i].0.md_eq(&key) {
                                    proof {
                                        assert(gm[i as int].0 == key.deep_view());
                                        assert(find_key(gm, key.deep_view()) == Some(i as int));
                                    }
                                    let slot = &mut buf[i];
                                    let ghost oldvs = slot.1.deep_view();
                                    slot.1.push(value);
                                    proof {
                                        assert(slot.1.deep_view() =~= oldvs.push(
                                            slot.1@[slot.1@.len() - 1].deep_view(),
                                        ));
                                        let newm = entry_models::<K, V>(buf@);
                                        assert(newm =~= upsert_group(
                                            gm,
                                            key.deep_view(),
                                            value.deep_view(),
                                        ));
                                    }
                                    found = true;
                                    proof {
                                        assert(self.groups()->0 =~= entry_models::<K, V>(buf@));
                                    }
                                    return Ok(());
                                }
                                i = i + 1;
                            }
                            proof {
                                assert(find_key(gm, key.deep_view()) is None);
                            }
                            let mut vs: Vec<V> = Vec::new();
                            vs.push(value);
                            let ghost gkey = key.deep_view();
                            let ghost gval = vs.deep_view();
                            buf.push((key, vs));
                            proof {
                                assert(gval =~= seq![value.deep_view()]);
                                let newm = entry_models::<K, V>(buf@);
                                assert(newm =~= upsert_group(gm, gkey, value.deep_view()));
                                assert(self.groups()->0 =~= newm);
                            }
                        }
                    }
                    Frame::End => {
                        self.buffering = false;
                    }
                    Frame::Error => {}
                }
            }
        } else {
            if let Some(mut buf) = self.buffer.take() {
                let ghost gm0 = entry_models::<K, V>(buf@);
                let ghost m0 = ctx.model();
                while buf.len() > 0
                    invariant
                        self.buffer is None,
                        !self.buffering,
                        flush_groups::<K, V>(m0, gm0) == flush_groups::<K, V>(
                            ctx.model(),
                            entry_models::<K, V>(buf@),
                        ),
                    decreases buf@.len(),
                {
                    let ghost oldb = buf@;
                    let (k, vs) = buf.remove(0);
                    proof {
                        assert(k.deep_view() == oldb[0].0.deep_view());
                        assert(entry_models::<K, V>(buf@) =~= entry_models::<K, V>(oldb).skip(1));
                    }
                    node_send::<KV<K, Vec<V>>>(ctx, Frame::Data(KV(k, vs)))?;
                }
                proof {
                    assert(entry_models::<K, V>(buf@) =~= Seq::<(K::V, Seq<V::V>)>::empty());
                }
                node_send::<KV<K, Vec<V>>>(ctx, Frame::End)?;
            }
        }
        Ok(())
    }
}

/// Builds a `group_by_key` transform with no groups.
pub fn group_by_key<K: MxlData, V: MxlData>() -> (r: GroupByKey<K, V>)
    ensures
        r.groups() == Some(Seq::<(K::V, Seq<V::V>)>::empty()),
        r.is_buffering(),
{
    GroupByKey::new()
}

} // verus!
