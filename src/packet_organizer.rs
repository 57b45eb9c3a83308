//! Collecting the fragments of one frame.
//!
//! A [`FrameAccumulator`] holds the fragments that share one timestamp,
//! keyed by their 10-bit sequence number, and remembers which of them opens
//! and which closes the frame. The frame is complete when every sequence
//! number on the forward arc from the opening to the closing fragment is
//! held, and nothing else.

use std::collections::HashMap;
use vstd::prelude::*;

use crate::incoming_packet_parser::WUPVideoPacket;
use crate::paws::{ring_distance, U10_RING};

verus! {

broadcast use vstd::std_specs::hash::group_hash_axioms;

/// Why a fragment was refused by [`FrameAccumulator::add_packet`].
#[derive(Debug, Clone, Copy, PartialEq, Eq, Structural)]
pub enum PacketRejectReason {
    /// The given packet indicates it does not have a timestamp.
    NoTimestamp,
    /// The given packet's timestamp does not match this accumulator's.
    WrongTimestamp,
    /// This accumulator already has a packet with `frame_begin`.
    AlreadyHaveBegin,
    /// This accumulator already has a packet with `frame_end`.
    AlreadyHaveEnd,
    /// This accumulator already has a packet with that sequence number.
    AlreadyHaveSeq,
}

/// Why [`FrameAccumulator::complete`] could not hand out a frame.
#[derive(Debug, Clone, Copy, PartialEq, Eq, Structural)]
pub enum IncompleteReasonKind {
    /// Neither the begin nor the end packet has arrived.
    NoBeginEndPacket,
    /// The end packet has arrived, the begin packet has not.
    NoBeginPacket,
    /// The begin packet has arrived, the end packet has not.
    NoEndPacket,
    /// Both ends have arrived, but fewer packets than the arc between them.
    TooFewPackets,
    /// More packets are held than the arc between begin and end: the frame
    /// can never complete.
    TooManyPackets,
    /// As many packets as the arc, but at least one sequence number of the
    /// arc is missing (a packet outside the arc was accepted): the frame can
    /// never complete.
    Corrupt,
}

impl IncompleteReasonKind {
    /// The frame can never complete and should be dropped.
    pub open spec fn spec_is_fatal(self) -> bool {
        self is TooManyPackets || self is Corrupt
    }

    /// The variant's name.
    pub open spec fn spec_name(self) -> &'static str {
        match self {
            IncompleteReasonKind::NoBeginEndPacket => "NoBeginEndPacket",
            IncompleteReasonKind::NoBeginPacket => "NoBeginPacket",
            IncompleteReasonKind::NoEndPacket => "NoEndPacket",
            IncompleteReasonKind::TooFewPackets => "TooFewPackets",
            IncompleteReasonKind::TooManyPackets => "TooManyPackets",
            IncompleteReasonKind::Corrupt => "Corrupt",
        }
    }

    /// The variant's name.
    pub fn name(&self) -> (r: &'static str)
        ensures
            r == self.spec_name(),
    {
        match self {
            IncompleteReasonKind::NoBeginEndPacket => "NoBeginEndPacket",
            IncompleteReasonKind::NoBeginPacket => "NoBeginPacket",
            IncompleteReasonKind::NoEndPacket => "NoEndPacket",
            IncompleteReasonKind::TooFewPackets => "TooFewPackets",
            IncompleteReasonKind::TooManyPackets => "TooManyPackets",
            IncompleteReasonKind::Corrupt => "Corrupt",
        }
    }

    /// The frame can never complete and should be dropped.
    pub fn is_fatal(&self) -> (r: bool)
        ensures
            r == self.spec_is_fatal(),
    {
        match self {
            IncompleteReasonKind::TooManyPackets | IncompleteReasonKind::Corrupt => true,
            _ => false,
        }
    }
}

/// An [`IncompleteReasonKind`] with a human-readable explanation.
#[derive(Debug)]
pub struct IncompleteReason {
    pub kind: IncompleteReasonKind,
    pub text: String,
}

impl IncompleteReason {
    pub fn new(kind: IncompleteReasonKind, text: String) -> (r: IncompleteReason)
        ensures
            r.kind == kind,
            r.text == text,
    {
        IncompleteReason { kind, text }
    }

    /// The reason as text: the kind's name, a colon and the explanation.
    pub fn format_error(&self) -> (r: String)
        ensures
            r@ == self.kind.spec_name()@ + ": "@ + self.text@,
    {
        let mut r = self.kind.name().to_owned();
        r.append(": ");
        r.append(self.text.as_str());
        r
    }
}

/// The mathematical content of a [`FrameAccumulator`].
pub struct AccumulatorModel {
    /// The timestamp shared by every fragment of the frame.
    pub timestamp: u32,
    /// The fragments held, by sequence number.
    pub fragments: Map<u16, WUPVideoPacket>,
    /// Sequence number of the fragment that opens the frame, once held.
    pub begin_seq: Option<u16>,
    /// Sequence number of the fragment that closes the frame, once held.
    pub end_seq: Option<u16>,
}

impl AccumulatorModel {
    /// An accumulator for `timestamp` that holds nothing.
    pub open spec fn empty(timestamp: u32) -> AccumulatorModel {
        AccumulatorModel { timestamp, fragments: Map::empty(), begin_seq: None, end_seq: None }
    }

    /// Every fragment is filed under its own sequence number and carries
    /// the frame's timestamp; `begin_seq` and `end_seq` name the one held
    /// fragment with the respective flag, if any.
    pub open spec fn inv(self) -> bool {
        &&& self.fragments.dom().finite()
        &&& forall|k: u16| #[trigger]
            self.fragments.contains_key(k) ==> {
                let f = self.fragments[k];
                &&& f.wf()
                &&& f.seq_id == k
                &&& f.timestamp == self.timestamp
                &&& f.has_timestamp
            }
        &&& (self.begin_seq matches Some(b) ==> self.fragments.contains_key(b)
            && self.fragments[b].frame_begin)
        &&& (self.end_seq matches Some(e) ==> self.fragments.contains_key(e)
            && self.fragments[e].frame_end)
        &&& forall|k: u16| #[trigger]
            self.fragments.contains_key(k) && self.fragments[k].frame_begin ==> self.begin_seq
                == Some(k)
        &&& forall|k: u16| #[trigger]
            self.fragments.contains_key(k) && self.fragments[k].frame_end ==> self.end_seq == Some(
                k,
            )
    }
}

/// The result of offering `p` to an accumulator in state `m`: the first
/// reason that applies, or the new state, with `p` filed under its sequence
/// number and named as begin or end if it carries that flag.
pub open spec fn add_spec(m: AccumulatorModel, p: WUPVideoPacket) -> Result<
    AccumulatorModel,
    PacketRejectReason,
> {
    if !p.has_timestamp {
        Err(PacketRejectReason::NoTimestamp)
    } else if p.timestamp != m.timestamp {
        Err(PacketRejectReason::WrongTimestamp)
    } else if p.frame_begin && m.begin_seq is Some {
        Err(PacketRejectReason::AlreadyHaveBegin)
    } else if p.frame_end && m.end_seq is Some {
        Err(PacketRejectReason::AlreadyHaveEnd)
    } else if m.fragments.contains_key(p.seq_id) {
        Err(PacketRejectReason::AlreadyHaveSeq)
    } else {
        Ok(
            AccumulatorModel {
                timestamp: m.timestamp,
                fragments: m.fragments.insert(p.seq_id, p),
                begin_seq: if p.frame_begin {
                    Some(p.seq_id)
                } else {
                    m.begin_seq
                },
                end_seq: if p.frame_end {
                    Some(p.seq_id)
                } else {
                    m.end_seq
                },
            },
        )
    }
}

/// Number of sequence numbers on the forward arc from `b` to `e`, both
/// included.
pub open spec fn arc_len(b: u16, e: u16) -> int {
    ring_distance(b as int, e as int, U10_RING as int) + 1
}

/// The `i`-th sequence number on the forward arc that starts at `b`.
pub open spec fn arc_seq_id(b: u16, i: int) -> u16 {
    ((b as int + i) % U10_RING as int) as u16
}

/// Every sequence number on the arc from `b` to `e` is held.
pub open spec fn arc_held(m: AccumulatorModel, b: u16, e: u16) -> bool {
    forall|i: int| 0 <= i < arc_len(b, e) ==> #[trigger] m.fragments.contains_key(arc_seq_id(b, i))
}

/// The fragments of the arc from `b` to `e`, in arc order.
pub open spec fn arc_fragments(m: AccumulatorModel, b: u16, e: u16) -> Seq<WUPVideoPacket> {
    Seq::new(arc_len(b, e) as nat, |i: int| m.fragments[arc_seq_id(b, i)])
}

/// What completing an accumulator in state `m` gives: the frame's
/// fragments in arc order, or the first reason why there is no frame.
pub open spec fn complete_spec(m: AccumulatorModel) -> Result<Seq<WUPVideoPacket>, IncompleteReasonKind> {
    match (m.begin_seq, m.end_seq) {
        (None, None) => Err(IncompleteReasonKind::NoBeginEndPacket),
        (None, Some(_)) => Err(IncompleteReasonKind::NoBeginPacket),
        (Some(_), None) => Err(IncompleteReasonKind::NoEndPacket),
        (Some(b), Some(e)) => {
            if m.fragments.len() < arc_len(b, e) {
                Err(IncompleteReasonKind::TooFewPackets)
            } else if m.fragments.len() > arc_len(b, e) {
                Err(IncompleteReasonKind::TooManyPackets)
            } else if !arc_held(m, b, e) {
                Err(IncompleteReasonKind::Corrupt)
            } else {
                Ok(arc_fragments(m, b, e))
            }
        },
    }
}

/// The fragments of one frame, collected as they arrive.
pub struct FrameAccumulator {
    timestamp_: u32,
    packets: HashMap<u16, WUPVideoPacket>,
    begin_packet_: Option<u16>,
    end_packet_: Option<u16>,
}

impl View for FrameAccumulator {
    type V = AccumulatorModel;

    closed spec fn view(&self) -> AccumulatorModel {
        AccumulatorModel {
            timestamp: self.timestamp_,
            fragments: self.packets@,
            begin_seq: self.begin_packet_,
            end_seq: self.end_packet_,
        }
    }
}

impl FrameAccumulator {
    pub open spec fn wf(&self) -> bool {
        self@.inv()
    }

    /// An empty accumulator for the frame with `timestamp`.
    pub fn new(timestamp: u32) -> (r: FrameAccumulator)
        ensures
            r@ == AccumulatorModel::empty(timestamp),
            r.wf(),
    {
        let r = FrameAccumulator {
            timestamp_: timestamp,
            packets: HashMap::new(),
            begin_packet_: None,
            end_packet_: None,
        };
        assert(r@.fragments =~= Map::empty());
        r
    }

    /// The timestamp of the frame.
    pub fn timestamp(&self) -> (r: &u32)
        ensures
            *r == self@.timestamp,
    {
        &self.timestamp_
    }

    /// Files `packet` under its sequence number, or refuses it and leaves the
    /// accumulator as it was.
    pub fn add_packet(&mut self, packet: WUPVideoPacket) -> (r: Result<(), PacketRejectReason>)
        requires
            old(self).wf(),
            packet.wf(),
        ensures
            final(self).wf(),
            match r {
                Ok(()) => add_spec(old(self)@, packet) == Ok::<AccumulatorModel, PacketRejectReason>(final(self)@),
                Err(e) => add_spec(old(self)@, packet) == Err::<AccumulatorModel, PacketRejectReason>(e)
                    && final(self)@ == old(self)@,
            },
    {
        if !packet.has_timestamp {
            return Err(PacketRejectReason::NoTimestamp);
        }
        if packet.timestamp != self.timestamp_ {
            return Err(PacketRejectReason::WrongTimestamp);
        }
        if packet.frame_begin && self.begin_packet_.is_some() {
            return Err(PacketRejectReason::AlreadyHaveBegin);
        }
        if packet.frame_end && self.end_packet_.is_some() {
            return Err(PacketRejectReason::AlreadyHaveEnd);
        }
        let seq_id = packet.seq_id;
        if self.packets.contains_key(&seq_id) {
            return Err(PacketRejectReason::AlreadyHaveSeq);
        }
        if packet.frame_begin {
            self.begin_packet_ = Some(seq_id);
        }
        if packet.frame_end {
            self.end_packet_ = Some(seq_id);
        }
        self.packets.insert(seq_id, packet);
        Ok(())
    }

    /// The frame's fragments in arc order, from the begin fragment forward
    /// through the 10-bit ring to the end fragment, or the reason why the
    /// frame is not complete.
    pub fn complete(&self) -> (r: Result<Vec<&WUPVideoPacket>, IncompleteReason>)
        requires
            self.wf(),
        ensures
            match r {
                Ok(v) => {
                    &&& complete_spec(self@) is Ok
                    &&& v@.len() == complete_spec(self@)->Ok_0.len()
                    &&& forall|i: int| 0 <= i < v@.len() ==> *v@[i] == complete_spec(self@)->Ok_0[i]
                },
                Err(e) => complete_spec(self@) == Err::<Seq<WUPVideoPacket>, IncompleteReasonKind>(
                    e.kind,
                ),
            },
    {
        let (begin, end) = match (self.begin_packet_, self.end_packet_) {
            (None, None) => {
                return Err(
                    IncompleteReason::new(
                        IncompleteReasonKind::NoBeginEndPacket,
                        "have neither begin nor end packet.".to_string(),
                    ),
                );
            },
            (None, Some(_)) => {
                return Err(
                    IncompleteReason::new(
                        IncompleteReasonKind::NoBeginPacket,
                        "have end packet but not begin packet.".to_string(),
                    ),
                );
            },
            (Some(_), None) => {
                return Err(
                    IncompleteReason::new(
                        IncompleteReasonKind::NoEndPacket,
                        "have begin packet but not end packet.".to_string(),
                    ),
                );
            },
            (Some(b), Some(e)) => (b, e),
        };
        let end_absolute: u16 = if end < begin {
            end + U10_RING
        } else {
            end
        };
        let expected: u16 = end_absolute + 1 - begin;
        assert(expected == arc_len(begin, end));
        let have = self.packets.len();
        if have < expected as usize {
            return Err(
                IncompleteReason::new(
                    IncompleteReasonKind::TooFewPackets,
                    "fewer packets than the frame spans.".to_string(),
                ),
            );
        }
        if have > expected as usize {
            return Err(
                IncompleteReason::new(
                    IncompleteReasonKind::TooManyPackets,
                    "more packets than the frame spans.".to_string(),
                ),
            );
        }
        let mut sorted: Vec<&WUPVideoPacket> = Vec::new();
        let mut i: u16 = 0;
        while i < expected
            invariant
                self.wf(),
                self@.begin_seq == Some(begin),
                self@.end_seq == Some(end),
                expected == arc_len(begin, end),
                self@.fragments.len() == arc_len(begin, end),
                i <= expected,
                sorted@.len() == i,
                forall|j: int| 0 <= j < i ==> #[trigger] self@.fragments.contains_key(arc_seq_id(begin, j)),
                forall|j: int| 0 <= j < i ==> *sorted@[j] == arc_fragments(self@, begin, end)[j],
            decreases expected - i,
        {
            let key: u16 = (begin + i) % U10_RING;
            assert(key == arc_seq_id(begin, i as int));
            match self.packets.get(&key) {
                None => {
                    assert(!self@.fragments.contains_key(arc_seq_id(begin, i as int)));
                    return Err(
                        IncompleteReason::new(
                            IncompleteReasonKind::Corrupt,
                            "a sequence number inside the frame is missing.".to_string(),
                        ),
                    );
                },
                Some(p) => {
                    sorted.push(p);
                },
            }
            i += 1;
        }
        Ok(sorted)
    }
}

/// An accumulator holds at most one fragment that opens the frame and at
/// most one that closes it: two held fragments that both carry
/// `frame_begin`, or both carry `frame_end`, are the same fragment.
pub proof fn lemma_single_begin_and_end(m: AccumulatorModel, j: u16, k: u16)
    requires
        m.inv(),
        m.fragments.contains_key(j),
        m.fragments.contains_key(k),
        (m.fragments[j].frame_begin && m.fragments[k].frame_begin) || (m.fragments[j].frame_end
            && m.fragments[k].frame_end),
    ensures
        j == k,
{
}

/// A completed frame spans the forward arc from its begin fragment to its
/// end fragment: it has `(end - begin) mod 1024 + 1` fragments, the `i`-th
/// of which has sequence number `(begin + i) mod 1024`; the first opens the
/// frame and the last closes it.
pub proof fn lemma_frame_arc(m: AccumulatorModel)
    requires
        m.inv(),
        complete_spec(m) is Ok,
    ensures
        ({
            let frame = complete_spec(m)->Ok_0;
            let b = m.begin_seq->Some_0;
            let e = m.end_seq->Some_0;
            &&& frame.len() == (e as int - b as int) % 1024 + 1
            &&& forall|i: int| 0 <= i < frame.len() ==> #[trigger] frame[i].seq_id == (b as int + i) % 1024
            &&& frame[0].frame_begin
            &&& frame[frame.len() - 1].frame_end
        }),
{
    let frame = complete_spec(m)->Ok_0;
    let b = m.begin_seq->Some_0;
    let e = m.end_seq->Some_0;
    assert forall|i: int| 0 <= i < frame.len() implies #[trigger] frame[i].seq_id == (b as int + i) % 1024 by {
        assert(m.fragments.contains_key(arc_seq_id(b, i)));
    }
    assert(arc_seq_id(b, 0) == b);
    assert(arc_seq_id(b, frame.len() - 1) == e);
}

} // verus!
