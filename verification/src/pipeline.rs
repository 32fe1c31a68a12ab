//! The video path of one session, from the interleaved frames of the RTSP
//! connection to the actions of the segmenter: RTP decoding, access unit
//! reassembly, the presentation clock, and segmentation.

use vstd::prelude::*;
use crate::cmaf::{
    action_views, finalize_all, push_step, ActionModel, CmafSegmenter, SegmenterAction,
    SegmenterModel,
};
use crate::depacketizer::{
    fresh, handled, unit_views, AccessUnit, DepacketizerModel, H264RtpDepacketizer, PacketModel,
    UnitModel,
};
use crate::octets::{be16, be32_at};
use crate::rtp::{is_rtp, payload_end, payload_start, RtpPacket};
use crate::time::{rtp_delta, RtpTimeMapper};

verus! {

/// What the depacketizer reads of the RTP packet `data`.
pub open spec fn packet_of(data: Seq<u8>) -> PacketModel {
    PacketModel {
        marker: data[1] & 0x80 != 0,
        sequence_number: be16(data[2], data[3]) as u16,
        timestamp: be32_at(data, 4) as u32,
        payload: data.subrange(payload_start(data), payload_end(data)),
    }
}

/// The payload type of the RTP packet `data`.
pub open spec fn payload_type_of(data: Seq<u8>) -> u8 {
    data[1] & 0x7F
}

/// The video path of one session.
pub struct VideoPipeline {
    rtp_channel: u8,
    expected_payload: Option<u8>,
    depacketizer: H264RtpDepacketizer,
    time_mapper: RtpTimeMapper,
    segmenter: CmafSegmenter,
}

/// What a pipeline holds.
pub struct PipelineModel {
    /// The interleaved channel that carries RTP.
    pub rtp_channel: u8,
    /// The payload type of the video stream, where the description names one.
    pub expected_payload: Option<u8>,
    pub depacketizer: DepacketizerModel,
    /// The RTP timestamp that the presentation clock counts from.
    pub base: Option<u32>,
    pub segmenter: SegmenterModel,
}

impl View for VideoPipeline {
    type V = PipelineModel;

    closed spec fn view(&self) -> PipelineModel {
        PipelineModel {
            rtp_channel: self.rtp_channel,
            expected_payload: self.expected_payload,
            depacketizer: self.depacketizer@,
            base: self.time_mapper.first_timestamp,
            segmenter: self.segmenter@,
        }
    }
}

/// The clock base, the segmenter and the actions after one access unit has
/// been handed to the segmenter at its presentation time. The first unit
/// sets the base of the clock.
#[verifier::opaque]
pub open spec fn unit_step(base: Option<u32>, segmenter: SegmenterModel, unit: UnitModel) -> (
    Option<u32>,
    SegmenterModel,
    Seq<ActionModel>,
) {
    let origin = match base {
        Some(t) => t,
        None => unit.rtp_timestamp,
    };
    let pushed = push_step(
        segmenter,
        unit.nals,
        unit.is_idr,
        rtp_delta(origin, unit.rtp_timestamp) as u64,
    );
    (Some(origin), pushed.0, pushed.1)
}

/// The clock base, the segmenter and the actions after the first `n` of
/// `units` have been handed to the segmenter in order.
pub open spec fn units_step(
    base: Option<u32>,
    segmenter: SegmenterModel,
    units: Seq<UnitModel>,
    n: int,
) -> (Option<u32>, SegmenterModel, Seq<ActionModel>)
    decreases n,
{
    if n <= 0 {
        (base, segmenter, Seq::empty())
    } else {
        let before = units_step(base, segmenter, units, n - 1);
        let step = unit_step(before.0, before.1, units[n - 1]);
        (step.0, step.1, before.2 + step.2)
    }
}

/// The segmenter after the parameter sets that the depacketizer has to
/// hand out have been made known to it.
pub open spec fn with_parameter_sets(s: SegmenterModel, d: DepacketizerModel) -> SegmenterModel {
    if d.dirty && d.sps.is_some() && d.pps.is_some() {
        SegmenterModel { sps: d.sps, pps: d.pps, ..s }
    } else {
        s
    }
}

/// Whether a frame carries a packet of the video stream: it arrives on the
/// RTP channel, holds an RTP packet, and has the payload type expected.
pub open spec fn is_video(m: PipelineModel, channel: u8, data: Seq<u8>) -> bool {
    channel == m.rtp_channel && is_rtp(data) && (m.expected_payload matches Some(e)
        ==> payload_type_of(data) == e)
}

/// The pipeline after one interleaved frame, and the actions that follow.
///
/// A frame that carries no packet of the video stream changes nothing. The
/// access units that a packet ends go to the segmenter in order, after the
/// parameter sets that arrived with them.
pub open spec fn frame_step(m: PipelineModel, channel: u8, data: Seq<u8>) -> (
    PipelineModel,
    Seq<ActionModel>,
) {
    if !is_video(m, channel, data) {
        (m, Seq::empty())
    } else {
        let (d, units) = handled(m.depacketizer, packet_of(data));
        let fed = units_step(
            m.base,
            with_parameter_sets(m.segmenter, d),
            units,
            units.len() as int,
        );
        (
            PipelineModel {
                depacketizer: DepacketizerModel { dirty: false, ..d },
                base: fed.0,
                segmenter: fed.1,
                ..m
            },
            fed.2,
        )
    }
}

impl VideoPipeline {
    /// A pipeline for the RTP packets on `rtp_channel`, of the payload type
    /// given where one is, that feeds `segmenter`.
    pub fn new(rtp_channel: u8, expected_payload: Option<u8>, segmenter: CmafSegmenter) -> (r: Self)
        ensures
            r@ == (PipelineModel {
                rtp_channel,
                expected_payload,
                depacketizer: fresh(),
                base: None,
                segmenter: segmenter@,
            }),
    {
        VideoPipeline {
            rtp_channel,
            expected_payload,
            depacketizer: H264RtpDepacketizer::new(),
            time_mapper: RtpTimeMapper::new(),
            segmenter,
        }
    }

    /// Hands one access unit to the segmenter at its presentation time.
    fn feed_one(&mut self, unit: AccessUnit) -> (r: Vec<SegmenterAction>)
        ensures
            final(self)@.rtp_channel == old(self)@.rtp_channel,
            final(self)@.expected_payload == old(self)@.expected_payload,
            final(self)@.depacketizer == old(self)@.depacketizer,
            (final(self)@.base, final(self)@.segmenter, action_views(r@)) == unit_step(
                old(self)@.base,
                old(self)@.segmenter,
                unit@,
            ),
    {
        reveal(unit_step);
        let pts = self.time_mapper.pts90k(unit.rtp_timestamp);
        self.segmenter.push_access_unit(unit, pts)
    }

    /// Hands access units to the segmenter in order.
    #[verifier::rlimit(40)]
    fn feed(&mut self, units: Vec<AccessUnit>) -> (r: Vec<SegmenterAction>)
        ensures
            final(self)@.rtp_channel == old(self)@.rtp_channel,
            final(self)@.expected_payload == old(self)@.expected_payload,
            final(self)@.depacketizer == old(self)@.depacketizer,
            (final(self)@.base, final(self)@.segmenter, action_views(r@)) == units_step(
                old(self)@.base,
                old(self)@.segmenter,
                unit_views(units@),
                units@.len() as int,
            ),
    {
        let mut units = units;
        let mut out: Vec<SegmenterAction> = Vec::new();
        let ghost all = unit_views(units@);
        let ghost total = units@.len() as int;
        let ghost base0 = self@.base;
        let ghost seg0 = self@.segmenter;
        let ghost mut done: int = 0;
        assert(action_views(out@) =~= Seq::<ActionModel>::empty());
        assert(unit_views(units@) =~= all.skip(0));
        while units.len() > 0
            invariant
                0 <= done <= total,
                total == all.len(),
                units@.len() == total - done,
                unit_views(units@) == all.skip(done),
                self@.rtp_channel == old(self)@.rtp_channel,
                self@.expected_payload == old(self)@.expected_payload,
                self@.depacketizer == old(self)@.depacketizer,
                (self@.base, self@.segmenter, action_views(out@)) == units_step(
                    base0,
                    seg0,
                    all,
                    done,
                ),
            decreases units@.len(),
        {
            let ghost before = units@;
            let unit = units.remove(0);
            proof {
                lemma_removed_first(before, units@, unit, all, done);
            }
            let ghost so_far = units_step(base0, seg0, all, done);
            let mut actions = self.feed_one(unit);
            let ghost step = unit_step(so_far.0, so_far.1, all[done]);
            append_actions(&mut out, &mut actions);
            proof {
                assert(units_step(base0, seg0, all, done + 1) == (
                    step.0,
                    step.1,
                    so_far.2 + step.2,
                ));
                done = done + 1;
            }
        }
        out
    }

    /// Takes in one interleaved frame of the connection and returns the
    /// actions that follow.
    #[verifier::rlimit(40)]
    pub fn on_frame(&mut self, channel: u8, data: &[u8]) -> (r: Vec<SegmenterAction>)
        ensures
            (final(self)@, action_views(r@)) == frame_step(old(self)@, channel, data@),
    {
        let mut out: Vec<SegmenterAction> = Vec::new();
        assert(action_views(out@) =~= Seq::<ActionModel>::empty());
        if channel != self.rtp_channel {
            return out;
        }
        let packet = match RtpPacket::parse(data) {
            Some(p) => p,
            None => {
                return out;
            },
        };
        match self.expected_payload {
            Some(expected) => {
                if packet.payload_type != expected {
                    return out;
                }
            },
            None => {},
        }
        assert(crate::depacketizer::packet_model(packet) == packet_of(data@));
        let units = self.depacketizer.handle(&packet);
        let ghost d = self.depacketizer@;
        match self.depacketizer.take_parameter_sets() {
            Some((sps, pps)) => {
                self.segmenter.set_parameter_sets(sps, pps);
            },
            None => {},
        }
        assert(self@.segmenter == with_parameter_sets(old(self)@.segmenter, d));
        self.feed(units)
    }

    /// Completes the segment in progress at the end of the session and
    /// returns the actions that follow.
    pub fn finish(&mut self) -> (r: Vec<SegmenterAction>)
        ensures
            final(self)@ == (PipelineModel {
                segmenter: finalize_all(old(self)@.segmenter).0,
                ..old(self)@
            }),
            action_views(r@) == finalize_all(old(self)@.segmenter).1,
    {
        self.segmenter.finalize_segment()
    }

    /// Makes parameter sets known that have arrived outside the stream.
    pub fn set_parameter_sets(&mut self, sps: Vec<u8>, pps: Vec<u8>)
        ensures
            final(self)@ == (PipelineModel {
                segmenter: SegmenterModel { sps: Some(sps@), pps: Some(pps@), ..old(self)@.segmenter },
                ..old(self)@
            }),
    {
        self.segmenter.set_parameter_sets(sps, pps);
    }
}

/// Taking the first of a list of units leaves the rest of the list.
proof fn lemma_removed_first(
    before: Seq<AccessUnit>,
    after: Seq<AccessUnit>,
    unit: AccessUnit,
    all: Seq<UnitModel>,
    done: int,
)
    requires
        0 <= done < all.len(),
        before.len() > 0,
        unit_views(before) == all.skip(done),
        unit == before[0],
        after == before.remove(0),
    ensures
        unit@ == all[done],
        unit_views(after) == all.skip(done + 1),
{
    assert(unit_views(before).len() == before.len());
    assert(all.skip(done).len() == all.len() - done);
    assert(after.len() == before.len() - 1);
    assert(unit_views(before)[0] == before[0]@);
    assert(all.skip(done)[0] == all[done]);
    assert(unit_views(after) =~= all.skip(done + 1)) by {
        assert forall|k: int| 0 <= k < after.len() implies unit_views(after)[k] == all.skip(
            done + 1,
        )[k] by {
            assert(after[k] == before[k + 1]);
            assert(unit_views(before)[k + 1] == before[k + 1]@);
            assert(all.skip(done)[k + 1] == all[done + k + 1]);
        }
    }
}

/// Moves the actions of `more` to the end of `out`.
fn append_actions(out: &mut Vec<SegmenterAction>, more: &mut Vec<SegmenterAction>)
    ensures
        action_views(final(out)@) == action_views(old(out)@) + action_views(old(more)@),
{
    let ghost a = old(out)@;
    let ghost b = old(more)@;
    out.append(more);
    assert(out@ == a + b);
    assert(action_views(a + b) =~= action_views(a) + action_views(b));
}

} // verus!
