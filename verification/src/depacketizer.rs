//! Reassembly of H.264 access units from RTP packets: single NAL units,
//! STAP-A aggregates and FU-A fragments.

use vstd::prelude::*;
use vstd::slice::slice_to_vec;
use crate::octets::{append, be16, copy_range, read_be16, u16_be};
use crate::rtp::RtpPacket;
use crate::text::{bytes_eq, lemma_views_push, views};

verus! {

/// An access unit that has grown beyond this many bytes is dropped.
pub const MAX_ACCESS_UNIT_BYTES: usize = 8 * 1024 * 1024;

/// A fragmented NAL unit that has grown beyond this many bytes is dropped.
pub const MAX_FU_BUFFER_BYTES: usize = 4 * 1024 * 1024;

/// One coded picture: its NAL units in arrival order, without start codes.
#[derive(Debug, Clone)]
pub struct AccessUnit {
    pub nals: Vec<Vec<u8>>,
    pub rtp_timestamp: u32,
    pub is_idr: bool,
}

/// What an access unit holds.
pub struct UnitModel {
    pub nals: Seq<Seq<u8>>,
    pub rtp_timestamp: u32,
    pub is_idr: bool,
}

impl View for AccessUnit {
    type V = UnitModel;

    open spec fn view(&self) -> UnitModel {
        UnitModel {
            nals: views(self.nals@),
            rtp_timestamp: self.rtp_timestamp,
            is_idr: self.is_idr,
        }
    }
}

/// The models of a list of access units.
pub open spec fn unit_views(units: Seq<AccessUnit>) -> Seq<UnitModel> {
    Seq::new(units.len(), |i: int| units[i]@)
}

/// What a packet holds, as far as the depacketizer reads it.
pub struct PacketModel {
    pub marker: bool,
    pub sequence_number: u16,
    pub timestamp: u32,
    pub payload: Seq<u8>,
}

/// What the depacketizer reads of `p`.
pub open spec fn packet_model(p: RtpPacket) -> PacketModel {
    PacketModel {
        marker: p.marker,
        sequence_number: p.sequence_number,
        timestamp: p.timestamp,
        payload: p.payload@,
    }
}

/// The fragment being reassembled and the sequence number of its last packet.
pub struct FuModel {
    pub buffer: Option<Seq<u8>>,
    pub sequence: Option<u16>,
}

/// The state of a depacketizer.
pub struct DepacketizerModel {
    /// NAL units of the access unit in progress.
    pub nals: Seq<Seq<u8>>,
    /// Timestamp of the access unit in progress.
    pub timestamp: Option<u32>,
    /// Bytes in the access unit in progress; stops counting at `usize::MAX`.
    pub bytes: int,
    pub fu: FuModel,
    pub sps: Option<Seq<u8>>,
    pub pps: Option<Seq<u8>>,
    /// Both parameter sets are known and one has changed since they were last taken.
    pub dirty: bool,
}

/// The type of a NAL unit: the low five bits of its first byte.
pub open spec fn nal_type(nal: Seq<u8>) -> Option<u8> {
    if nal.len() > 0 {
        Some(nal[0] & 0x1F)
    } else {
        None
    }
}

/// Whether some unit of `nals` is a slice of an IDR picture (type 5).
pub open spec fn any_idr(nals: Seq<Seq<u8>>) -> bool {
    exists|i: int| 0 <= i < nals.len() && nal_type(#[trigger] nals[i]) == Some(5u8)
}

/// The NAL units of a STAP-A payload from offset `index`: each is a 16-bit
/// big-endian size and that many bytes. Reading stops at the first unit that
/// the payload cuts short.
pub open spec fn stap_nals(payload: Seq<u8>, index: int) -> Seq<Seq<u8>>
    decreases payload.len() - index,
{
    if index < 0 || index + 2 > payload.len() {
        Seq::empty()
    } else {
        let size = be16(payload[index], payload[index + 1]);
        if index + 2 + size > payload.len() {
            Seq::empty()
        } else {
            seq![payload.subrange(index + 2, index + 2 + size)] + stap_nals(
                payload,
                index + 2 + size,
            )
        }
    }
}

/// The sequence number that follows `s`.
pub open spec fn next_sequence(s: u16) -> u16 {
    if s == 0xFFFF {
        0
    } else {
        (s + 1) as u16
    }
}

/// The header of the NAL unit that an FU-A payload is a fragment of: the
/// top three bits of the FU indicator and the type from the FU header.
pub open spec fn fu_nal_header(payload: Seq<u8>) -> u8 {
    (payload[0] & 0xE0) | (payload[1] & 0x1F)
}

/// One FU-A packet: the reassembly state after it and the NAL unit that it
/// completes, if any.
///
/// A start fragment opens a new buffer. A later fragment whose sequence
/// number does not follow the previous one drops the buffer, as does a
/// buffer that outgrows its limit. An end fragment hands the buffer out.
pub open spec fn fu_step(fu: FuModel, payload: Seq<u8>, sequence: u16) -> (FuModel, Seq<Seq<u8>>) {
    if payload.len() <= 2 {
        (fu, Seq::empty())
    } else if payload[1] & 0x80 != 0 {
        (
            FuModel {
                buffer: Some(seq![fu_nal_header(payload)] + payload.skip(2)),
                sequence: Some(sequence),
            },
            Seq::empty(),
        )
    } else if fu.sequence.is_some() && sequence != next_sequence(fu.sequence.unwrap()) {
        (FuModel { buffer: None, sequence: None }, Seq::empty())
    } else {
        match fu.buffer {
            None => (fu, Seq::empty()),
            Some(buffer) => {
                let grown = buffer + payload.skip(2);
                if grown.len() > MAX_FU_BUFFER_BYTES {
                    (FuModel { buffer: None, sequence: None }, Seq::empty())
                } else if payload[1] & 0x40 != 0 {
                    (FuModel { buffer: None, sequence: None }, seq![grown])
                } else {
                    (FuModel { buffer: Some(grown), sequence: Some(sequence) }, Seq::empty())
                }
            },
        }
    }
}

/// The NAL units that a packet completes, and the reassembly state after it.
pub open spec fn extracted(fu: FuModel, p: PacketModel) -> (FuModel, Seq<Seq<u8>>) {
    if p.payload.len() == 0 {
        (fu, Seq::empty())
    } else {
        let t = p.payload[0] & 0x1F;
        if 1 <= t <= 23 {
            (fu, seq![p.payload])
        } else if t == 24 {
            (
                fu,
                if p.payload.len() <= 1 {
                    Seq::empty()
                } else {
                    stap_nals(p.payload, 1)
                },
            )
        } else if t == 28 {
            fu_step(fu, p.payload, p.sequence_number)
        } else {
            (fu, Seq::empty())
        }
    }
}

/// The state after the access unit in progress has been handed out.
pub open spec fn cleared(m: DepacketizerModel) -> DepacketizerModel {
    DepacketizerModel { nals: Seq::empty(), timestamp: None, bytes: 0, ..m }
}

/// The access unit that is handed out with the given timestamp.
pub open spec fn built(m: DepacketizerModel, timestamp: u32) -> UnitModel {
    UnitModel { nals: m.nals, rtp_timestamp: timestamp, is_idr: any_idr(m.nals) }
}

/// The state after `nal` has joined the access unit in progress.
///
/// A unit of type 7 or 8 is kept as the latest parameter set of its kind.
/// Where its bytes differ from the set kept before and the set of the other
/// kind is known, the parameter sets count as changed until they are taken.
pub open spec fn appended(m: DepacketizerModel, nal: Seq<u8>, timestamp: u32) -> DepacketizerModel {
    let t = nal_type(nal);
    DepacketizerModel {
        nals: m.nals.push(nal),
        timestamp: if m.timestamp.is_none() {
            Some(timestamp)
        } else {
            m.timestamp
        },
        bytes: if m.bytes + nal.len() > usize::MAX {
            usize::MAX as int
        } else {
            m.bytes + nal.len()
        },
        sps: if t == Some(7u8) {
            Some(nal)
        } else {
            m.sps
        },
        pps: if t == Some(8u8) {
            Some(nal)
        } else {
            m.pps
        },
        dirty: if t == Some(7u8) {
            m.dirty || (m.pps.is_some() && m.sps != Some(nal))
        } else if t == Some(8u8) {
            m.dirty || (m.sps.is_some() && m.pps != Some(nal))
        } else {
            m.dirty
        },
        ..m
    }
}

/// The state after the units `nals[from..]` have joined the access unit in
/// progress, one by one. An access unit that outgrows the size limit is
/// dropped with all that it holds.
pub open spec fn absorbed(m: DepacketizerModel, nals: Seq<Seq<u8>>, from: int, timestamp: u32) -> DepacketizerModel
    decreases nals.len() - from,
{
    if from < 0 || from >= nals.len() {
        m
    } else {
        let a = appended(m, nals[from], timestamp);
        if a.bytes > MAX_ACCESS_UNIT_BYTES {
            absorbed(cleared(a), nals, from + 1, timestamp)
        } else {
            absorbed(a, nals, from + 1, timestamp)
        }
    }
}

/// Whether an access unit is in progress.
pub open spec fn in_progress(m: DepacketizerModel) -> bool {
    m.timestamp.is_some() && m.nals.len() > 0
}

/// The state and the access units handed out after one packet.
///
/// A packet whose timestamp differs from that of the access unit in progress
/// ends that unit first. Then the NAL units that the packet completes join
/// the unit in progress. Last, a packet with the marker bit ends the unit.
pub open spec fn handled(m: DepacketizerModel, p: PacketModel) -> (
    DepacketizerModel,
    Seq<UnitModel>,
) {
    let boundary = in_progress(m) && m.timestamp.unwrap() != p.timestamp;
    let first = if boundary {
        seq![built(m, m.timestamp.unwrap())]
    } else {
        Seq::empty()
    };
    let m1 = if boundary {
        cleared(m)
    } else {
        m
    };
    let (fu, nals) = extracted(m1.fu, p);
    let m2 = absorbed(DepacketizerModel { fu, ..m1 }, nals, 0, p.timestamp);
    if p.marker && in_progress(m2) {
        (cleared(m2), first + seq![built(m2, m2.timestamp.unwrap())])
    } else {
        (m2, first)
    }
}

/// Reassembles access units from the RTP packets of one stream.
pub struct H264RtpDepacketizer {
    current_access_unit: Vec<Vec<u8>>,
    current_timestamp: Option<u32>,
    current_access_unit_bytes: usize,
    fu_buffer: Option<Vec<u8>>,
    fu_sequence: Option<u16>,
    sps: Option<Vec<u8>>,
    pps: Option<Vec<u8>>,
    parameter_sets_dirty: bool,
}

/// The contents of an optional byte string.
pub open spec fn opt_view(o: Option<Vec<u8>>) -> Option<Seq<u8>> {
    match o {
        Some(v) => Some(v@),
        None => None,
    }
}

impl View for H264RtpDepacketizer {
    type V = DepacketizerModel;

    closed spec fn view(&self) -> DepacketizerModel {
        DepacketizerModel {
            nals: views(self.current_access_unit@),
            timestamp: self.current_timestamp,
            bytes: self.current_access_unit_bytes as int,
            fu: FuModel { buffer: opt_view(self.fu_buffer), sequence: self.fu_sequence },
            sps: opt_view(self.sps),
            pps: opt_view(self.pps),
            dirty: self.parameter_sets_dirty,
        }
    }
}

/// The state of a depacketizer that has seen no packet.
pub open spec fn fresh() -> DepacketizerModel {
    DepacketizerModel {
        nals: Seq::empty(),
        timestamp: None,
        bytes: 0,
        fu: FuModel { buffer: None, sequence: None },
        sps: None,
        pps: None,
        dirty: false,
    }
}

/// Tests whether a slot holds exactly the bytes `nal`.
fn holds(slot: &Option<Vec<u8>>, nal: &[u8]) -> (r: bool)
    ensures
        r == (opt_view(*slot) == Some(nal@)),
{
    match slot {
        Some(v) => bytes_eq(v.as_slice(), nal),
        None => false,
    }
}

/// Tests whether some unit of `nals` has type 5.
fn contains_idr(nals: &Vec<Vec<u8>>) -> (r: bool)
    ensures
        r == any_idr(views(nals@)),
{
    let mut i: usize = 0;
    while i < nals.len()
        invariant
            i <= nals@.len(),
            forall|k: int| 0 <= k < i ==> nal_type(#[trigger] views(nals@)[k]) != Some(5u8),
        decreases nals@.len() - i,
    {
        if nals[i].len() > 0 && nals[i][0] & 0x1F == 5 {
            assert(nal_type(views(nals@)[i as int]) == Some(5u8));
            return true;
        }
        assert(nal_type(views(nals@)[i as int]) != Some(5u8));
        i += 1;
    }
    false
}

/// The NAL units of a STAP-A payload.
fn extract_stap_a(payload: &[u8]) -> (r: Vec<Vec<u8>>)
    ensures
        views(r@) == if payload@.len() <= 1 {
            Seq::<Seq<u8>>::empty()
        } else {
            stap_nals(payload@, 1)
        },
{
    let mut nals: Vec<Vec<u8>> = Vec::new();
    assert(views(nals@) =~= Seq::<Seq<u8>>::empty());
    if payload.len() <= 1 {
        return nals;
    }
    let mut index: usize = 1;
    while payload.len() - index >= 2
        invariant
            1 <= index <= payload@.len(),
            stap_nals(payload@, 1) == views(nals@) + stap_nals(payload@, index as int),
        decreases payload@.len() - index,
    {
        let size: usize = read_be16(payload[index], payload[index + 1]) as usize;
        if size > payload.len() - index - 2 {
            assert(stap_nals(payload@, index as int) =~= Seq::<Seq<u8>>::empty());
            assert(views(nals@) + Seq::<Seq<u8>>::empty() =~= views(nals@));
            return nals;
        }
        let nal = copy_range(payload, index + 2, index + 2 + size);
        proof {
            lemma_views_push(nals@, nal);
            assert(views(nals@).push(nal@) + stap_nals(payload@, index + 2 + size) =~= views(nals@)
                + (seq![nal@] + stap_nals(payload@, index + 2 + size)));
        }
        nals.push(nal);
        index = index + 2 + size;
    }
    assert(stap_nals(payload@, index as int) =~= Seq::<Seq<u8>>::empty());
    assert(views(nals@) + Seq::<Seq<u8>>::empty() =~= views(nals@));
    nals
}

impl H264RtpDepacketizer {
    /// A depacketizer that has seen no packet.
    pub fn new() -> (r: Self)
        ensures
            r@ == fresh(),
    {
        let r = H264RtpDepacketizer {
            current_access_unit: Vec::new(),
            current_timestamp: None,
            current_access_unit_bytes: 0,
            fu_buffer: None,
            fu_sequence: None,
            sps: None,
            pps: None,
            parameter_sets_dirty: false,
        };
        assert(r@.nals =~= Seq::<Seq<u8>>::empty());
        r
    }

    /// Hands out the parameter sets once after one of them has changed while
    /// both are known. The next call gives `None` until one changes again; a
    /// set that arrives again with the same bytes is no change.
    pub fn take_parameter_sets(&mut self) -> (r: Option<(Vec<u8>, Vec<u8>)>)
        ensures
            final(self)@ == (DepacketizerModel { dirty: false, ..old(self)@ }),
            match r {
                Some((sps, pps)) => old(self)@.dirty && old(self)@.sps == Some(sps@) && old(
                    self,
                )@.pps == Some(pps@),
                None => !(old(self)@.dirty && old(self)@.sps.is_some() && old(self)@.pps.is_some()),
            },
    {
        if self.parameter_sets_dirty {
            self.parameter_sets_dirty = false;
            match (&self.sps, &self.pps) {
                (Some(sps), Some(pps)) => {
                    return Some((slice_to_vec(sps.as_slice()), slice_to_vec(pps.as_slice())));
                },
                _ => {},
            }
        }
        None
    }

    /// Ends the access unit in progress and hands it out.
    fn build_access_unit(&mut self, timestamp: u32) -> (r: AccessUnit)
        ensures
            final(self)@ == cleared(old(self)@),
            r@ == built(old(self)@, timestamp),
    {
        let mut nals: Vec<Vec<u8>> = Vec::new();
        core::mem::swap(&mut nals, &mut self.current_access_unit);
        self.current_timestamp = None;
        self.current_access_unit_bytes = 0;
        let is_idr = contains_idr(&nals);
        assert(self@.nals =~= Seq::<Seq<u8>>::empty());
        AccessUnit { nals, rtp_timestamp: timestamp, is_idr }
    }

    /// Drops the access unit in progress.
    fn drop_access_unit(&mut self)
        ensures
            final(self)@ == cleared(old(self)@),
    {
        self.current_access_unit = Vec::new();
        self.current_timestamp = None;
        self.current_access_unit_bytes = 0;
        assert(self@.nals =~= Seq::<Seq<u8>>::empty());
    }

    /// Adds one NAL unit to the access unit in progress and records it when
    /// it is a parameter set.
    fn append_nal(&mut self, nal: Vec<u8>, timestamp: u32)
        ensures
            final(self)@ == appended(old(self)@, nal@, timestamp),
    {
        if self.current_timestamp.is_none() {
            self.current_timestamp = Some(timestamp);
        }
        if nal.len() > 0 {
            let t: u8 = nal[0] & 0x1F;
            if t == 7 {
                if self.pps.is_some() && !holds(&self.sps, nal.as_slice()) {
                    self.parameter_sets_dirty = true;
                }
                self.sps = Some(slice_to_vec(nal.as_slice()));
            } else if t == 8 {
                if self.sps.is_some() && !holds(&self.pps, nal.as_slice()) {
                    self.parameter_sets_dirty = true;
                }
                self.pps = Some(slice_to_vec(nal.as_slice()));
            }
        }
        self.current_access_unit_bytes = if nal.len() > usize::MAX
            - self.current_access_unit_bytes {
            usize::MAX
        } else {
            self.current_access_unit_bytes + nal.len()
        };
        proof {
            lemma_views_push(self.current_access_unit@, nal);
        }
        self.current_access_unit.push(nal);
    }

    /// Takes in one FU-A packet.
    fn extract_fu_a(&mut self, payload: &[u8], sequence: u16) -> (r: Vec<Vec<u8>>)
        ensures
            (final(self)@.fu, views(r@)) == fu_step(old(self)@.fu, payload@, sequence),
            final(self)@ == (DepacketizerModel { fu: final(self)@.fu, ..old(self)@ }),
    {
        let mut out: Vec<Vec<u8>> = Vec::new();
        assert(views(out@) =~= Seq::<Seq<u8>>::empty());
        if payload.len() <= 2 {
            return out;
        }
        let fu_indicator: u8 = payload[0];
        let fu_header: u8 = payload[1];
        let start: bool = (fu_header & 0x80) != 0;
        let end: bool = (fu_header & 0x40) != 0;
        let nal_header: u8 = (fu_indicator & 0xE0) | (fu_header & 0x1F);
        if start {
            let mut buffer: Vec<u8> = Vec::new();
            buffer.push(nal_header);
            let rest = vstd::slice::slice_subrange(payload, 2, payload.len());
            append(&mut buffer, rest);
            assert(buffer@ =~= seq![fu_nal_header(payload@)] + payload@.skip(2));
            self.fu_buffer = Some(buffer);
            self.fu_sequence = Some(sequence);
            return out;
        }
        match self.fu_sequence {
            Some(previous) => {
                let expected: u16 = if previous == 0xFFFF { 0 } else { previous + 1 };
                if sequence != expected {
                    self.fu_buffer = None;
                    self.fu_sequence = None;
                    return out;
                }
            },
            None => {},
        }
        let mut taken: Option<Vec<u8>> = None;
        core::mem::swap(&mut taken, &mut self.fu_buffer);
        match taken {
            None => out,
            Some(mut buffer) => {
                let rest = vstd::slice::slice_subrange(payload, 2, payload.len());
                append(&mut buffer, rest);
                assert(rest@ =~= payload@.skip(2));
                if buffer.len() > MAX_FU_BUFFER_BYTES {
                    self.fu_sequence = None;
                    return out;
                }
                if end {
                    self.fu_sequence = None;
                    proof {
                        lemma_views_push(out@, buffer);
                        assert(views(out@).push(buffer@) =~= seq![buffer@]);
                    }
                    out.push(buffer);
                    return out;
                }
                self.fu_buffer = Some(buffer);
                self.fu_sequence = Some(sequence);
                out
            },
        }
    }

    /// The NAL units that a packet completes.
    fn extract_nals(&mut self, packet: &RtpPacket) -> (r: Vec<Vec<u8>>)
        ensures
            (final(self)@.fu, views(r@)) == extracted(old(self)@.fu, packet_model(*packet)),
            final(self)@ == (DepacketizerModel { fu: final(self)@.fu, ..old(self)@ }),
    {
        let mut out: Vec<Vec<u8>> = Vec::new();
        assert(views(out@) =~= Seq::<Seq<u8>>::empty());
        if packet.payload.len() == 0 {
            return out;
        }
        let t: u8 = packet.payload[0] & 0x1F;
        if 1 <= t && t <= 23 {
            let whole = slice_to_vec(packet.payload.as_slice());
            proof {
                lemma_views_push(out@, whole);
                assert(views(out@).push(whole@) =~= seq![packet.payload@]);
            }
            out.push(whole);
            out
        } else if t == 24 {
            extract_stap_a(packet.payload.as_slice())
        } else if t == 28 {
            self.extract_fu_a(packet.payload.as_slice(), packet.sequence_number)
        } else {
            out
        }
    }
}

/// The models of a list with one more access unit are the models of the
/// list with the model of that unit.
pub proof fn lemma_unit_views_push(units: Seq<AccessUnit>, u: AccessUnit)
    ensures
        unit_views(units.push(u)) == unit_views(units).push(u@),
{
    assert(unit_views(units.push(u)) =~= unit_views(units).push(u@));
}

impl H264RtpDepacketizer {
    /// Takes in one RTP packet and hands out the access units that it ends.
    ///
    /// Every access unit handed out is marked as IDR exactly when one of its
    /// NAL units has type 5.
    #[verifier::rlimit(40)]
    pub fn handle(&mut self, packet: &RtpPacket) -> (r: Vec<AccessUnit>)
        ensures
            (final(self)@, unit_views(r@)) == handled(old(self)@, packet_model(*packet)),
            forall|i: int|
                0 <= i < r@.len() ==> (#[trigger] r@[i]).is_idr == any_idr(views(r@[i].nals@)),
    {
        let mut output: Vec<AccessUnit> = Vec::new();
        assert(unit_views(output@) =~= Seq::<UnitModel>::empty());
        match self.current_timestamp {
            Some(current_ts) => {
                if current_ts != packet.timestamp && self.current_access_unit.len() > 0 {
                    let unit = self.build_access_unit(current_ts);
                    proof {
                        lemma_unit_views_push(output@, unit);
                        assert(unit_views(output@).push(unit@) =~= seq![unit@]);
                    }
                    output.push(unit);
                }
            },
            None => {},
        }
        let ghost first = unit_views(output@);
        let nals = self.extract_nals(packet);
        let ghost start = self@;
        let mut i: usize = 0;
        while i < nals.len()
            invariant
                i <= nals@.len(),
                unit_views(output@) == first,
                absorbed(start, views(nals@), 0, packet.timestamp) == absorbed(
                    self@,
                    views(nals@),
                    i as int,
                    packet.timestamp,
                ),
                forall|k: int|
                    0 <= k < output@.len() ==> (#[trigger] output@[k]).is_idr == any_idr(
                        views(output@[k].nals@),
                    ),
            decreases nals@.len() - i,
        {
            let nal = slice_to_vec(nals[i].as_slice());
            assert(nal@ == views(nals@)[i as int]);
            self.append_nal(nal, packet.timestamp);
            if self.current_access_unit_bytes > MAX_ACCESS_UNIT_BYTES {
                self.drop_access_unit();
            }
            i += 1;
        }
        if packet.marker && self.current_timestamp.is_some() && self.current_access_unit.len() > 0 {
            let ts: u32 = match self.current_timestamp {
                Some(ts) => ts,
                None => packet.timestamp,
            };
            let unit = self.build_access_unit(ts);
            proof {
                lemma_unit_views_push(output@, unit);
                assert(first.push(unit@) =~= first + seq![unit@]);
            }
            output.push(unit);
        }
        output
    }
}

/// The state and the access units handed out after the packets of
/// `packets`, taken in order.
pub open spec fn handled_all(m: DepacketizerModel, packets: Seq<PacketModel>) -> (
    DepacketizerModel,
    Seq<UnitModel>,
)
    decreases packets.len(),
{
    if packets.len() == 0 {
        (m, Seq::empty())
    } else {
        let before = handled_all(m, packets.drop_last());
        let step = handled(before.0, packets.last());
        (step.0, before.1 + step.1)
    }
}

/// All NAL units that the packets of `packets` complete, in order, and the
/// reassembly state after them.
pub open spec fn yielded(fu: FuModel, packets: Seq<PacketModel>) -> (FuModel, Seq<Seq<u8>>)
    decreases packets.len(),
{
    if packets.len() == 0 {
        (fu, Seq::empty())
    } else {
        let before = yielded(fu, packets.drop_last());
        let step = extracted(before.0, packets.last());
        (step.0, before.1 + step.1)
    }
}

/// The number of bytes in `nals`.
pub open spec fn total_len(nals: Seq<Seq<u8>>) -> int
    decreases nals.len(),
{
    if nals.len() == 0 {
        0
    } else {
        total_len(nals.drop_last()) + nals.last().len()
    }
}

/// Whether no access unit is in progress in `m`.
pub open spec fn idle(m: DepacketizerModel) -> bool {
    m.nals.len() == 0 && m.timestamp.is_none() && m.bytes == 0
}

/// Whether `m` holds exactly the units `acc` of an access unit stamped `t`,
/// within the size limit.
pub open spec fn gathering(m: DepacketizerModel, acc: Seq<Seq<u8>>, t: u32) -> bool {
    &&& m.nals == acc
    &&& m.bytes == total_len(acc)
    &&& m.bytes <= MAX_ACCESS_UNIT_BYTES
    &&& if acc.len() == 0 {
        m.timestamp.is_none()
    } else {
        m.timestamp == Some(t)
    }
}

/// A number of bytes is never negative.
pub proof fn lemma_total_len_nonneg(nals: Seq<Seq<u8>>)
    ensures
        total_len(nals) >= 0,
    decreases nals.len(),
{
    if nals.len() > 0 {
        lemma_total_len_nonneg(nals.drop_last());
    }
}

/// The bytes of two lists in a row are the bytes of the one and of the other.
pub proof fn lemma_total_len_concat(a: Seq<Seq<u8>>, b: Seq<Seq<u8>>)
    ensures
        total_len(a + b) == total_len(a) + total_len(b),
    decreases b.len(),
{
    if b.len() == 0 {
        assert(a + b =~= a);
    } else {
        assert((a + b).drop_last() =~= a + b.drop_last());
        lemma_total_len_concat(a, b.drop_last());
    }
}

/// While the access unit stays within the size limit, taking in NAL units
/// only lengthens the unit in progress.
pub proof fn lemma_absorbed_below_limit(
    m: DepacketizerModel,
    acc: Seq<Seq<u8>>,
    nals: Seq<Seq<u8>>,
    from: int,
    t: u32,
)
    requires
        0 <= from <= nals.len(),
        gathering(m, acc, t),
        total_len(acc + nals.skip(from)) <= MAX_ACCESS_UNIT_BYTES,
    ensures
        gathering(absorbed(m, nals, from, t), acc + nals.skip(from), t),
        absorbed(m, nals, from, t).fu == m.fu,
    decreases nals.len() - from,
{
    if from >= nals.len() {
        assert(acc + nals.skip(from) =~= acc);
    } else {
        let a = appended(m, nals[from], t);
        let acc2 = acc.push(nals[from]);
        assert(acc + nals.skip(from) =~= acc2 + nals.skip(from + 1));
        lemma_total_len_concat(acc2, nals.skip(from + 1));
        lemma_total_len_nonneg(nals.skip(from + 1));
        assert(acc2.drop_last() =~= acc);
        assert(total_len(acc2) == total_len(acc) + nals[from].len());
        assert(gathering(a, acc2, t));
        lemma_absorbed_below_limit(a, acc2, nals, from + 1, t);
    }
}

/// Packets that share one timestamp and carry no marker hand out nothing:
/// the NAL units that they complete gather in the access unit in progress.
pub proof fn lemma_gather_without_marker(m: DepacketizerModel, packets: Seq<PacketModel>, t: u32)
    requires
        idle(m),
        forall|i: int| 0 <= i < packets.len() ==> (#[trigger] packets[i]).timestamp == t,
        forall|i: int| 0 <= i < packets.len() ==> !(#[trigger] packets[i]).marker,
        total_len(yielded(m.fu, packets).1) <= MAX_ACCESS_UNIT_BYTES,
    ensures
        handled_all(m, packets).1 == Seq::<UnitModel>::empty(),
        gathering(handled_all(m, packets).0, yielded(m.fu, packets).1, t),
        handled_all(m, packets).0.fu == yielded(m.fu, packets).0,
    decreases packets.len(),
{
    if packets.len() == 0 {
        assert(m.nals =~= Seq::<Seq<u8>>::empty());
    } else {
        let prefix = packets.drop_last();
        let p = packets.last();
        let y0 = yielded(m.fu, prefix);
        let step = extracted(y0.0, p);
        lemma_total_len_concat(y0.1, step.1);
        lemma_total_len_nonneg(step.1);
        lemma_total_len_nonneg(y0.1);
        lemma_gather_without_marker(m, prefix, t);
        let m1 = handled_all(m, prefix).0;
        let m1f = DepacketizerModel { fu: step.0, ..m1 };
        assert(gathering(m1f, y0.1, t));
        assert(step.1.skip(0) =~= step.1);
        lemma_absorbed_below_limit(m1f, y0.1, step.1, 0, t);
        assert(Seq::<UnitModel>::empty() + Seq::<UnitModel>::empty() =~= Seq::<UnitModel>::empty());
        assert(!(in_progress(m1) && m1.timestamp.unwrap() != p.timestamp));
        assert(handled(m1, p).0 == absorbed(m1f, step.1, 0, t));
    }
}

/// One access unit per timestamp.
///
/// Packets that share one timestamp, of which only the last carries the
/// marker, hand out exactly one access unit when they arrive at a
/// depacketizer with no unit in progress. It bears their timestamp and holds
/// the NAL units that they complete, in order. This needs the packets to
/// complete at least one NAL unit, and no more bytes than the size limit.
pub proof fn lemma_one_unit_per_timestamp(m: DepacketizerModel, packets: Seq<PacketModel>, t: u32)
    requires
        idle(m),
        packets.len() > 0,
        forall|i: int| 0 <= i < packets.len() ==> (#[trigger] packets[i]).timestamp == t,
        forall|i: int| 0 <= i < packets.len() - 1 ==> !(#[trigger] packets[i]).marker,
        packets.last().marker,
        yielded(m.fu, packets).1.len() > 0,
        total_len(yielded(m.fu, packets).1) <= MAX_ACCESS_UNIT_BYTES,
    ensures
        handled_all(m, packets).1 == seq![
            UnitModel {
                nals: yielded(m.fu, packets).1,
                rtp_timestamp: t,
                is_idr: any_idr(yielded(m.fu, packets).1),
            },
        ],
        idle(handled_all(m, packets).0),
{
    let prefix = packets.drop_last();
    let p = packets.last();
    let y0 = yielded(m.fu, prefix);
    let step = extracted(y0.0, p);
    lemma_total_len_concat(y0.1, step.1);
    lemma_total_len_nonneg(step.1);
    lemma_total_len_nonneg(y0.1);
    lemma_gather_without_marker(m, prefix, t);
    let m1 = handled_all(m, prefix).0;
    let m1f = DepacketizerModel { fu: step.0, ..m1 };
    assert(gathering(m1f, y0.1, t));
    assert(step.1.skip(0) =~= step.1);
    lemma_absorbed_below_limit(m1f, y0.1, step.1, 0, t);
    let m2 = absorbed(m1f, step.1, 0, t);
    let unit = built(m2, t);
    assert(Seq::<UnitModel>::empty() + seq![unit] =~= seq![unit]);
    assert(Seq::<UnitModel>::empty() + (Seq::<UnitModel>::empty() + seq![unit]) =~= seq![unit]);
}

/// The body of a STAP-A payload that aggregates `nals`: each unit behind its
/// 16-bit big-endian size.
pub open spec fn stap_body(nals: Seq<Seq<u8>>) -> Seq<u8>
    decreases nals.len(),
{
    if nals.len() == 0 {
        Seq::empty()
    } else {
        u16_be(nals[0].len() as u16) + nals[0] + stap_body(nals.drop_first())
    }
}

/// Whether `nal` can travel as a single-NAL packet and inside an aggregate:
/// its type is between 1 and 23 and its size fits 16 bits.
pub open spec fn is_plain_nal(nal: Seq<u8>) -> bool {
    0 < nal.len() <= 0xFFFF && 1 <= nal[0] & 0x1F <= 23
}

/// The packets that carry `nals` one by one under the timestamp `t`, the
/// marker on the last.
pub open spec fn single_packets(nals: Seq<Seq<u8>>, t: u32, sequence: Seq<u16>) -> Seq<
    PacketModel,
> {
    Seq::new(
        nals.len(),
        |i: int|
            PacketModel {
                marker: i == nals.len() - 1,
                sequence_number: sequence[i],
                timestamp: t,
                payload: nals[i],
            },
    )
}

/// The packet that carries `nals` as one STAP-A aggregate under the
/// timestamp `t`, with the marker.
pub open spec fn stap_packet(header: u8, nals: Seq<Seq<u8>>, t: u32, sequence: u16) -> PacketModel {
    PacketModel {
        marker: true,
        sequence_number: sequence,
        timestamp: t,
        payload: seq![header] + stap_body(nals),
    }
}

/// Reading an aggregate gives back the units that were put into it.
#[verifier::rlimit(40)]
pub proof fn lemma_stap_nals(payload: Seq<u8>, index: int, nals: Seq<Seq<u8>>)
    requires
        0 <= index <= payload.len(),
        payload.skip(index) == stap_body(nals),
        forall|i: int| 0 <= i < nals.len() ==> (#[trigger] nals[i]).len() <= 0xFFFF,
    ensures
        stap_nals(payload, index) == nals,
    decreases nals.len(),
{
    if nals.len() == 0 {
        assert(payload.skip(index).len() == 0);
        assert(stap_nals(payload, index) =~= nals);
    } else {
        let first = nals[0];
        let rest = nals.drop_first();
        let size = first.len() as u16;
        let body = stap_body(nals);
        assert(body == u16_be(size) + first + stap_body(rest));
        assert(payload.skip(index).len() == body.len());
        assert(payload[index] == payload.skip(index)[0]);
        assert(payload[index + 1] == payload.skip(index)[1]);
        assert(body[0] == (size / 256) as u8);
        assert(body[1] == (size % 256) as u8);
        assert(be16(payload[index], payload[index + 1]) == first.len());
        assert(payload.subrange(index + 2, index + 2 + first.len()) =~= first) by {
            assert forall|k: int| 0 <= k < first.len() implies payload[index + 2 + k] == first[k] by {
                assert(payload[index + 2 + k] == payload.skip(index)[2 + k]);
                assert(body[2 + k] == first[k]);
            }
        }
        assert(payload.skip(index + 2 + first.len()) =~= stap_body(rest)) by {
            assert forall|k: int| 0 <= k < stap_body(rest).len() implies payload[index + 2
                + first.len() + k] == stap_body(rest)[k] by {
                assert(payload[index + 2 + first.len() + k] == payload.skip(index)[2 + first.len()
                    + k]);
                assert(body[2 + first.len() + k] == stap_body(rest)[k]);
            }
        }
        assert forall|i: int| 0 <= i < rest.len() implies (#[trigger] rest[i]).len() <= 0xFFFF by {
            assert(rest[i] == nals[i + 1]);
        }
        lemma_stap_nals(payload, index + 2 + first.len(), rest);
        assert(seq![first] + rest =~= nals);
    }
}

/// Single-NAL packets complete exactly the units that they carry.
pub proof fn lemma_yielded_singles(
    fu: FuModel,
    nals: Seq<Seq<u8>>,
    t: u32,
    sequence: Seq<u16>,
    k: int,
)
    requires
        0 <= k <= nals.len(),
        forall|i: int| 0 <= i < nals.len() ==> is_plain_nal(#[trigger] nals[i]),
    ensures
        yielded(fu, single_packets(nals, t, sequence).take(k)) == (fu, nals.take(k)),
    decreases k,
{
    let packets = single_packets(nals, t, sequence);
    if k == 0 {
        assert(nals.take(0) =~= Seq::<Seq<u8>>::empty());
    } else {
        lemma_yielded_singles(fu, nals, t, sequence, k - 1);
        assert(packets.take(k).drop_last() =~= packets.take(k - 1));
        assert(packets.take(k).last() == packets[k - 1]);
        assert(is_plain_nal(nals[k - 1]));
        assert(nals.take(k - 1) + seq![nals[k - 1]] =~= nals.take(k));
    }
}

/// An aggregate and single packets give the same access unit.
///
/// The access unit handed out for one STAP-A packet that aggregates `nals`
/// is the one handed out for single-NAL packets that carry the same units
/// under the same timestamp with the marker on the last: it holds `nals`.
pub proof fn lemma_stap_equals_singles(
    m: DepacketizerModel,
    header: u8,
    nals: Seq<Seq<u8>>,
    t: u32,
    stap_sequence: u16,
    sequence: Seq<u16>,
)
    requires
        idle(m),
        header & 0x1F == 24,
        nals.len() > 0,
        forall|i: int| 0 <= i < nals.len() ==> is_plain_nal(#[trigger] nals[i]),
        total_len(nals) <= MAX_ACCESS_UNIT_BYTES,
    ensures
        handled_all(m, seq![stap_packet(header, nals, t, stap_sequence)]).1 == handled_all(
            m,
            single_packets(nals, t, sequence),
        ).1,
        handled_all(m, single_packets(nals, t, sequence)).1 == seq![
            UnitModel { nals, rtp_timestamp: t, is_idr: any_idr(nals) },
        ],
{
    let singles = single_packets(nals, t, sequence);
    lemma_yielded_singles(m.fu, nals, t, sequence, nals.len() as int);
    assert(singles.take(nals.len() as int) =~= singles);
    assert(nals.take(nals.len() as int) =~= nals);
    lemma_one_unit_per_timestamp(m, singles, t);

    let p = stap_packet(header, nals, t, stap_sequence);
    let one = seq![p];
    assert(one.drop_last() =~= Seq::<PacketModel>::empty());
    assert(one.last() == p);
    assert(p.payload[0] == header);
    assert(p.payload.skip(1) =~= stap_body(nals));
    assert(stap_body(nals).len() >= 2) by {
        assert(stap_body(nals) == u16_be(nals[0].len() as u16) + nals[0] + stap_body(
            nals.drop_first(),
        ));
    }
    assert forall|i: int| 0 <= i < nals.len() implies (#[trigger] nals[i]).len() <= 0xFFFF by {
        assert(is_plain_nal(nals[i]));
    }
    lemma_stap_nals(p.payload, 1, nals);
    assert(extracted(m.fu, p) == (m.fu, nals));
    assert(yielded(m.fu, one.drop_last()) == (m.fu, Seq::<Seq<u8>>::empty()));
    assert(p.payload.len() > 1);
    assert(yielded(m.fu, one) == (m.fu, Seq::<Seq<u8>>::empty() + nals));
    assert(Seq::<Seq<u8>>::empty() + nals =~= nals);
    lemma_one_unit_per_timestamp(m, one, t);
}

/// Parameter sets count as changed only when their bytes change.
///
/// A parameter set that arrives again with the bytes that are already kept
/// leaves the sets as they are and marks nothing: after the sets have been
/// taken, the next take gives nothing. A set whose bytes differ from the one
/// kept marks the sets as changed exactly when the set of the other kind is
/// known.
pub proof fn lemma_parameter_sets_change(m: DepacketizerModel, nal: Seq<u8>, timestamp: u32)
    ensures
        nal_type(nal) == Some(7u8) && m.sps == Some(nal) ==> appended(m, nal, timestamp).dirty
            == m.dirty && appended(m, nal, timestamp).sps == m.sps,
        nal_type(nal) == Some(8u8) && m.pps == Some(nal) ==> appended(m, nal, timestamp).dirty
            == m.dirty && appended(m, nal, timestamp).pps == m.pps,
        nal_type(nal) == Some(7u8) && m.sps != Some(nal) && !m.dirty ==> appended(
            m,
            nal,
            timestamp,
        ).dirty == m.pps.is_some(),
        nal_type(nal) == Some(8u8) && m.pps != Some(nal) && !m.dirty ==> appended(
            m,
            nal,
            timestamp,
        ).dirty == m.sps.is_some(),
        appended(m, nal, timestamp).pps == (if nal_type(nal) == Some(8u8) {
            Some(nal)
        } else {
            m.pps
        }),
        appended(m, nal, timestamp).sps == (if nal_type(nal) == Some(7u8) {
            Some(nal)
        } else {
            m.sps
        }),
{
}

} // verus!
