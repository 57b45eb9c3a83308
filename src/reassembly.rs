//! Routing decoded packets to the frames they belong to.
//!
//! A [`ReassemblyEngine`] keeps one [`FrameAccumulator`] per frame in
//! flight. For each packet it moves its high-water mark (the newest
//! timestamp seen, in PAWS order), drops the frames that have fallen more
//! than the stale threshold behind it, files the packet with its frame and
//! hands the frame out once it is complete.

use std::cmp::Ordering;
use vstd::prelude::*;

use crate::incoming_packet_parser::WUPVideoPacket;
use crate::packet_organizer::{
    add_spec, complete_spec, AccumulatorModel, FrameAccumulator, IncompleteReasonKind,
    PacketRejectReason,
};
use crate::paws::{paws_order, u32_paws_compare, U32_RING};

verus! {

/// The mathematical content of a [`ReassemblyEngine`].
pub struct EngineModel {
    /// The frames in flight.
    pub accumulators: Seq<AccumulatorModel>,
    /// The newest timestamp seen, once a packet has been seen.
    pub high_water_mark: Option<u32>,
    /// How far behind the high-water mark a frame may fall before it is
    /// dropped.
    pub stale_frame_threshold: u32,
}

/// No two frames in flight share a timestamp.
pub open spec fn distinct_timestamps(s: Seq<AccumulatorModel>) -> bool {
    forall|i: int, j: int|
        0 <= i < s.len() && 0 <= j < s.len() && i != j ==> #[trigger] s[i].timestamp
            != #[trigger] s[j].timestamp
}

/// The high-water mark after seeing a packet stamped `ts`: `ts` itself the
/// first time, later only when `ts` is newer in PAWS order.
pub open spec fn next_high_water_mark(hwm: Option<u32>, ts: u32) -> u32 {
    match hwm {
        None => ts,
        Some(h) => if paws_order(ts as int, h as int, U32_RING as int) == Some(Ordering::Greater) {
            ts
        } else {
            h
        },
    }
}

/// The oldest timestamp that is not stale under `hwm`.
pub open spec fn stale_floor(hwm: u32, threshold: u32) -> u32 {
    hwm.wrapping_sub(threshold)
}

/// A frame stamped `ts` is stale when it is older than `floor` in PAWS order.
pub open spec fn is_stale_spec(ts: u32, floor: u32) -> bool {
    paws_order(ts as int, floor as int, U32_RING as int) == Some(Ordering::Less)
}

/// Frames that go: stale ones.
pub open spec fn evict_pred(floor: u32) -> spec_fn(AccumulatorModel) -> bool {
    |a: AccumulatorModel| is_stale_spec(a.timestamp, floor)
}

/// Frames that stay as they are: fresh ones of another timestamp.
pub open spec fn keep_pred(floor: u32, ts: u32) -> spec_fn(AccumulatorModel) -> bool {
    |a: AccumulatorModel| !is_stale_spec(a.timestamp, floor) && a.timestamp != ts
}

/// The fresh frame of timestamp `ts`, if it is in flight.
pub open spec fn route_pred(floor: u32, ts: u32) -> spec_fn(AccumulatorModel) -> bool {
    |a: AccumulatorModel| !is_stale_spec(a.timestamp, floor) && a.timestamp == ts
}

impl EngineModel {
    /// The floor below which frames are stale once `p` has been seen.
    pub open spec fn floor_after(self, p: WUPVideoPacket) -> u32 {
        stale_floor(next_high_water_mark(self.high_water_mark, p.timestamp), self.stale_frame_threshold)
    }

    /// The timestamps of the frames that seeing `p` evicts, in the order in
    /// which they were held.
    pub open spec fn evicted(self, p: WUPVideoPacket) -> Seq<u32> {
        self.accumulators.filter(evict_pred(self.floor_after(p))).map_values(
            |a: AccumulatorModel| a.timestamp,
        )
    }

    /// The frames that seeing `p` leaves untouched.
    pub open spec fn untouched(self, p: WUPVideoPacket) -> Seq<AccumulatorModel> {
        self.accumulators.filter(keep_pred(self.floor_after(p), p.timestamp))
    }

    /// The frame that `p` is filed with: the fresh one of its timestamp, or a
    /// new empty one.
    pub open spec fn routed(self, p: WUPVideoPacket) -> AccumulatorModel {
        let found = self.accumulators.filter(route_pred(self.floor_after(p), p.timestamp));
        if found.len() == 0 {
            AccumulatorModel::empty(p.timestamp)
        } else {
            found[0]
        }
    }

    /// That frame once `p` has been offered to it.
    pub open spec fn filed(self, p: WUPVideoPacket) -> AccumulatorModel {
        match add_spec(self.routed(p), p) {
            Ok(m) => m,
            Err(_) => self.routed(p),
        }
    }

    /// The frames in flight after `p`: the untouched ones, then `p`'s frame
    /// unless it completed or can never complete.
    pub open spec fn after(self, p: WUPVideoPacket) -> Seq<AccumulatorModel> {
        match complete_spec(self.filed(p)) {
            Ok(_) => self.untouched(p),
            Err(kind) => if kind.spec_is_fatal() {
                self.untouched(p)
            } else {
                self.untouched(p).push(self.filed(p))
            },
        }
    }
}

/// What became of the frame of an ingested packet.
pub enum FrameStatus {
    /// The frame is complete; [`FrameAccumulator::complete`] gives its
    /// fragments in order. The engine no longer holds it.
    Completed(FrameAccumulator),
    /// The frame is not complete. When the reason is fatal the engine has
    /// dropped the frame; otherwise it keeps waiting for more fragments.
    Incomplete(IncompleteReasonKind),
}

/// What [`ReassemblyEngine::ingest`] did with one packet.
pub struct IngestReport {
    /// Timestamps of the stale frames that were dropped.
    pub evicted: Vec<u32>,
    /// Why the packet was refused by its frame, if it was.
    pub rejected: Option<PacketRejectReason>,
    /// The state of the packet's frame.
    pub status: FrameStatus,
}

/// Reassembles frames from a stream of decoded packets.
pub struct ReassemblyEngine {
    accumulators: Vec<FrameAccumulator>,
    high_water_mark: Option<u32>,
    stale_frame_threshold: u32,
}

/// The models of a sequence of accumulators.
pub open spec fn models(v: Seq<FrameAccumulator>) -> Seq<AccumulatorModel> {
    v.map_values(|a: FrameAccumulator| a@)
}

impl View for ReassemblyEngine {
    type V = EngineModel;

    closed spec fn view(&self) -> EngineModel {
        EngineModel {
            accumulators: models(self.accumulators@),
            high_water_mark: self.high_water_mark,
            stale_frame_threshold: self.stale_frame_threshold,
        }
    }
}

impl ReassemblyEngine {
    /// Every frame in flight is well formed and no two share a timestamp.
    pub closed spec fn wf(&self) -> bool {
        &&& forall|i: int| 0 <= i < self.accumulators@.len() ==> #[trigger] self.accumulators@[i].wf()
        &&& distinct_timestamps(self@.accumulators)
    }
}

/// Filtering keeps only elements that satisfy the predicate, each taken
/// from the filtered sequence, so it keeps timestamps distinct.
proof fn lemma_filter_distinct(s: Seq<AccumulatorModel>, pred: spec_fn(AccumulatorModel) -> bool)
    requires
        distinct_timestamps(s),
    ensures
        distinct_timestamps(s.filter(pred)),
        forall|i: int| 0 <= i < s.filter(pred).len() ==> pred(#[trigger] s.filter(pred)[i]),
        forall|i: int| 0 <= i < s.filter(pred).len() ==> s.contains(#[trigger] s.filter(pred)[i]),
    decreases s.len(),
{
    reveal(Seq::filter);
    if s.len() > 0 {
        let d = s.drop_last();
        lemma_filter_distinct(d, pred);
        let fd = d.filter(pred);
        let fs = s.filter(pred);
        assert forall|i: int| 0 <= i < fs.len() implies s.contains(#[trigger] fs[i]) by {
            if i < fd.len() {
                assert(d.contains(fd[i]));
                let j = choose|j: int| 0 <= j < d.len() && d[j] == fd[i];
                assert(s[j] == fd[i]);
            } else {
                assert(fs[i] == s[s.len() - 1]);
            }
        }
        if pred(s.last()) {
            assert forall|i: int, j: int|
                0 <= i < fs.len() && 0 <= j < fs.len() && i != j implies #[trigger] fs[i].timestamp
                != #[trigger] fs[j].timestamp by {
                if i < fd.len() && j < fd.len() {
                    assert(fs[i] == fd[i] && fs[j] == fd[j]);
                } else if i < fd.len() {
                    assert(d.contains(fd[i]));
                    let k = choose|k: int| 0 <= k < d.len() && d[k] == fd[i];
                    assert(s[k] == fd[i]);
                    assert(fs[j] == s[s.len() - 1]);
                } else {
                    assert(d.contains(fd[j]));
                    let k = choose|k: int| 0 <= k < d.len() && d[k] == fd[j];
                    assert(s[k] == fd[j]);
                    assert(fs[i] == s[s.len() - 1]);
                }
            }
        }
    }
}

fn is_stale(ts: u32, floor: u32) -> (r: bool)
    ensures
        r == is_stale_spec(ts, floor),
{
    match u32_paws_compare(ts, floor) {
        Some(Ordering::Less) => true,
        _ => false,
    }
}

impl ReassemblyEngine {
    /// An engine with no frame in flight that drops frames falling more than
    /// `stale_frame_threshold` behind the newest timestamp.
    pub fn new(stale_frame_threshold: u32) -> (r: ReassemblyEngine)
        ensures
            r.wf(),
            r@.accumulators.len() == 0,
            r@.high_water_mark is None,
            r@.stale_frame_threshold == stale_frame_threshold,
    {
        let r = ReassemblyEngine {
            accumulators: Vec::new(),
            high_water_mark: None,
            stale_frame_threshold,
        };
        assert(r@.accumulators =~= Seq::<AccumulatorModel>::empty());
        r
    }

    /// Takes in one decoded packet: moves the high-water mark, drops the
    /// stale frames, files the packet with the frame of its timestamp
    /// (opening one if there is none), and hands that frame out if it is now
    /// complete or drops it if it can never complete.
    pub fn ingest(&mut self, packet: WUPVideoPacket) -> (r: IngestReport)
        requires
            old(self).wf(),
            packet.wf(),
        ensures
            final(self).wf(),
            final(self)@.high_water_mark == Some(
                next_high_water_mark(old(self)@.high_water_mark, packet.timestamp),
            ),
            final(self)@.stale_frame_threshold == old(self)@.stale_frame_threshold,
            r.evicted@ == old(self)@.evicted(packet),
            r.rejected == match add_spec(old(self)@.routed(packet), packet) {
                Ok(_) => None::<PacketRejectReason>,
                Err(e) => Some(e),
            },
            match r.status {
                FrameStatus::Completed(frame) => {
                    &&& complete_spec(old(self)@.filed(packet)) is Ok
                    &&& frame@ == old(self)@.filed(packet)
                    &&& frame.wf()
                },
                FrameStatus::Incomplete(kind) => complete_spec(old(self)@.filed(packet)) == Err::<
                    Seq<WUPVideoPacket>,
                    IncompleteReasonKind,
                >(kind),
            },
            final(self)@.accumulators == old(self)@.after(packet),
    {
        let ghost before = self@;
        let ts = packet.timestamp;
        let hwm = match self.high_water_mark {
            None => ts,
            Some(h) => match u32_paws_compare(ts, h) {
                Some(Ordering::Greater) => ts,
                _ => h,
            },
        };
        self.high_water_mark = Some(hwm);
        let floor = hwm.wrapping_sub(self.stale_frame_threshold);
        assert(floor == before.floor_after(packet));

        let ghost orig = before.accumulators;
        let mut pending: Vec<FrameAccumulator> = Vec::new();
        std::mem::swap(&mut pending, &mut self.accumulators);
        let mut kept: Vec<FrameAccumulator> = Vec::new();
        let mut evicted: Vec<u32> = Vec::new();
        let mut current: Option<FrameAccumulator> = None;
        let ghost mut n: int = 0;
        let ghost mut current_at: int = 0;
        while pending.len() > 0
            invariant
                distinct_timestamps(orig),
                0 <= n <= orig.len(),
                n + pending@.len() == orig.len(),
                models(pending@) == orig.subrange(n, orig.len() as int),
                forall|i: int| 0 <= i < pending@.len() ==> #[trigger] pending@[i].wf(),
                forall|i: int| 0 <= i < kept@.len() ==> #[trigger] kept@[i].wf(),
                models(kept@) == orig.subrange(0, n).filter(keep_pred(floor, ts)),
                evicted@ == orig.subrange(0, n).filter(evict_pred(floor)).map_values(
                    |a: AccumulatorModel| a.timestamp,
                ),
                match current {
                    None => orig.subrange(0, n).filter(route_pred(floor, ts)).len() == 0,
                    Some(c) => {
                        &&& c.wf()
                        &&& c@.timestamp == ts
                        &&& 0 <= current_at < n
                        &&& orig[current_at] == c@
                        &&& orig.subrange(0, n).filter(route_pred(floor, ts)) == seq![c@]
                    },
                },
            decreases pending@.len(),
        {
            let ghost prev = orig.subrange(0, n);
            let ghost pp = pending@;
            assert(models(pp)[0] == orig.subrange(n, orig.len() as int)[0]);
            let a = pending.remove(0);
            let ghost x = a@;
            proof {
                assert(models(pending@) =~= models(pp).subrange(1, pp.len() as int));
                assert(orig.subrange(n + 1, orig.len() as int) =~= orig.subrange(n, orig.len() as int).subrange(1, pp.len() as int));
                assert(models(pending@) =~= orig.subrange(n + 1, orig.len() as int));
                assert(x == orig[n]);
                assert(orig.subrange(0, n + 1).drop_last() =~= prev);
                assert(orig.subrange(0, n + 1).last() == x);
                reveal(Seq::filter);
            }
            let k = *a.timestamp();
            if is_stale(k, floor) {
                evicted.push(k);
                proof {
                    assert(evicted@ =~= orig.subrange(0, n + 1).filter(evict_pred(floor)).map_values(
                        |a: AccumulatorModel| a.timestamp,
                    ));
                }
            } else if k == ts {
                proof {
                    if current is Some {
                        assert(orig[current_at].timestamp == orig[n].timestamp);
                    }
                    current_at = n;
                }
                current = Some(a);
                proof {
                    assert(orig.subrange(0, n + 1).filter(route_pred(floor, ts)) =~= seq![x]);
                }
            } else {
                kept.push(a);
                proof {
                    assert(models(kept@) =~= models(kept@).drop_last().push(x));
                }
            }
            proof {
                n = n + 1;
            }
        }
        proof {
            assert(orig.subrange(0, n) =~= orig);
            lemma_filter_distinct(orig, keep_pred(floor, ts));
        }
        let mut acc = match current {
            Some(a) => a,
            None => FrameAccumulator::new(ts),
        };
        assert(acc@ == before.routed(packet));
        let rejected = match acc.add_packet(packet) {
            Ok(()) => None,
            Err(e) => Some(e),
        };
        assert(acc@ == before.filed(packet));
        let outcome = match acc.complete() {
            Ok(_) => None,
            Err(reason) => Some(reason.kind),
        };
        let status = match outcome {
            None => FrameStatus::Completed(acc),
            Some(kind) => {
                if !kind.is_fatal() {
                    kept.push(acc);
                    proof {
                        assert(models(kept@) =~= before.untouched(packet).push(before.filed(packet)));
                    }
                }
                FrameStatus::Incomplete(kind)
            },
        };
        self.accumulators = kept;
        IngestReport { evicted, rejected, status }
    }
}

/// Memory stays bounded: once a packet that is not itself stale has been
/// taken in, no two frames in flight share a timestamp and none of them
/// lies further behind the high-water mark than the stale threshold, in
/// PAWS order. Older frames are gone.
pub proof fn lemma_bounded_memory(e: EngineModel, p: WUPVideoPacket)
    requires
        distinct_timestamps(e.accumulators),
        !is_stale_spec(p.timestamp, e.floor_after(p)),
    ensures
        distinct_timestamps(e.after(p)),
        forall|i: int|
            0 <= i < e.after(p).len() ==> !is_stale_spec(
                #[trigger] e.after(p)[i].timestamp,
                e.floor_after(p),
            ),
{
    let floor = e.floor_after(p);
    lemma_filter_distinct(e.accumulators, keep_pred(floor, p.timestamp));
    lemma_filter_distinct(e.accumulators, route_pred(floor, p.timestamp));
    let found = e.accumulators.filter(route_pred(floor, p.timestamp));
    if found.len() > 0 {
        assert(route_pred(floor, p.timestamp)(found[0]));
    }
    assert(e.routed(p).timestamp == p.timestamp);
    assert(e.filed(p).timestamp == p.timestamp);
    let u = e.untouched(p);
    let a = e.after(p);
    assert forall|i: int| 0 <= i < a.len() implies !is_stale_spec(#[trigger] a[i].timestamp, floor) by {
        if i < u.len() {
            assert(keep_pred(floor, p.timestamp)(u[i]));
        }
    }
    assert forall|i: int, j: int|
        0 <= i < a.len() && 0 <= j < a.len() && i != j implies #[trigger] a[i].timestamp
        != #[trigger] a[j].timestamp by {
        if i < u.len() {
            assert(keep_pred(floor, p.timestamp)(u[i]));
        }
        if j < u.len() {
            assert(keep_pred(floor, p.timestamp)(u[j]));
        }
    }
}

impl ReassemblyEngine {
    /// Number of frames in flight.
    pub fn accumulator_count(&self) -> (r: usize)
        ensures
            r == self@.accumulators.len(),
    {
        self.accumulators.len()
    }

    /// The newest timestamp seen, once a packet has been seen.
    pub fn high_water_mark(&self) -> (r: Option<u32>)
        ensures
            r == self@.high_water_mark,
    {
        self.high_water_mark
    }

    /// The distance behind the high-water mark at which frames are dropped.
    pub fn stale_frame_threshold(&self) -> (r: u32)
        ensures
            r == self@.stale_frame_threshold,
    {
        self.stale_frame_threshold
    }

    /// The timestamps of the frames in flight.
    pub fn frame_timestamps(&self) -> (r: Vec<u32>)
        ensures
            r@ == self@.accumulators.map_values(|a: AccumulatorModel| a.timestamp),
    {
        let mut r: Vec<u32> = Vec::new();
        let mut i: usize = 0;
        while i < self.accumulators.len()
            invariant
                i <= self.accumulators@.len(),
                r@ == self@.accumulators.subrange(0, i as int).map_values(
                    |a: AccumulatorModel| a.timestamp,
                ),
            decreases self.accumulators@.len() - i,
        {
            r.push(*self.accumulators[i].timestamp());
            i += 1;
            assert(r@ =~= self@.accumulators.subrange(0, i as int).map_values(
                |a: AccumulatorModel| a.timestamp,
            ));
        }
        assert(self@.accumulators.subrange(0, i as int) =~= self@.accumulators);
        r
    }
}

} // verus!
