//! Decoding of one RTP packet: the fixed header, the CSRC list, an optional
//! header extension and optional trailing padding.

use vstd::prelude::*;
use crate::octets::{be16, be32_at, copy_range, read_be16, read_be32};

verus! {

/// The header fields that the gateway reads, and the payload.
#[derive(Debug, Clone)]
pub struct RtpPacket {
    pub payload_type: u8,
    pub marker: bool,
    pub sequence_number: u16,
    pub timestamp: u32,
    pub ssrc: u32,
    pub payload: Vec<u8>,
}

/// Length of the fixed header plus the CSRC list.
pub open spec fn csrc_end(data: Seq<u8>) -> int {
    12 + 4 * ((data[0] & 0x0F) as int)
}

/// Whether the extension bit is set.
pub open spec fn has_extension(data: Seq<u8>) -> bool {
    data[0] & 0x10 != 0
}

/// Whether the padding bit is set.
pub open spec fn has_padding(data: Seq<u8>) -> bool {
    data[0] & 0x20 != 0
}

/// Offset of the first payload byte. Meaningful when the extension header,
/// if announced, lies within the packet.
pub open spec fn payload_start(data: Seq<u8>) -> int {
    let base = csrc_end(data);
    if has_extension(data) {
        base + 4 + 4 * be16(data[base + 2], data[base + 3])
    } else {
        base
    }
}

/// Offset one past the last payload byte: the packet's end, less the padding
/// that its last byte counts when the padding bit is set.
pub open spec fn payload_end(data: Seq<u8>) -> int {
    if has_padding(data) {
        let pad = data[data.len() - 1] as int;
        if pad > data.len() {
            0
        } else {
            data.len() - pad
        }
    } else {
        data.len() as int
    }
}

/// Whether `data` is an RTP version 2 packet whose header, extension and
/// padding fit inside it.
pub open spec fn is_rtp(data: Seq<u8>) -> bool {
    &&& data.len() >= 12
    &&& data[0] >> 6 == 2
    &&& (has_extension(data) ==> csrc_end(data) + 4 <= data.len())
    &&& payload_start(data) <= data.len()
    &&& payload_start(data) <= payload_end(data)
}

impl RtpPacket {
    /// Decodes one packet. `None` when the version is not 2, when the packet
    /// is shorter than its header says, or when the padding count reaches
    /// into the header.
    pub fn parse(data: &[u8]) -> (r: Option<RtpPacket>)
        ensures
            r.is_some() <==> is_rtp(data@),
            r matches Some(p) ==> {
                &&& p.marker == (data@[1] & 0x80 != 0)
                &&& p.payload_type == data@[1] & 0x7F
                &&& p.sequence_number as int == be16(data@[2], data@[3])
                &&& p.timestamp as int == be32_at(data@, 4)
                &&& p.ssrc as int == be32_at(data@, 8)
                &&& p.payload@ == data@.subrange(payload_start(data@), payload_end(data@))
            },
    {
        if data.len() < 12 {
            return None;
        }
        let b0: u8 = data[0];
        let b1: u8 = data[1];
        if b0 >> 6 != 2 {
            return None;
        }
        let padding: bool = (b0 & 0x20) != 0;
        let extension: bool = (b0 & 0x10) != 0;
        let cc: u8 = b0 & 0x0F;
        assert(cc <= 15) by (bit_vector)
            requires
                cc == b0 & 0x0F,
        ;
        let marker: bool = (b1 & 0x80) != 0;
        let payload_type: u8 = b1 & 0x7F;
        let sequence_number: u16 = read_be16(data[2], data[3]);
        let timestamp: u32 = read_be32(data, 4);
        let ssrc: u32 = read_be32(data, 8);

        let mut offset: usize = 12 + (cc as usize) * 4;
        if extension {
            if data.len() < offset + 4 {
                return None;
            }
            let words: u16 = read_be16(data[offset + 2], data[offset + 3]);
            offset = offset + 4 + (words as usize) * 4;
        }
        if data.len() < offset {
            return None;
        }
        let mut end: usize = data.len();
        if padding {
            let pad: usize = data[data.len() - 1] as usize;
            end = if pad > end { 0 } else { end - pad };
        }
        if end < offset {
            return None;
        }
        let payload: Vec<u8> = copy_range(data, offset, end);
        Some(RtpPacket { payload_type, marker, sequence_number, timestamp, ssrc, payload })
    }
}

} // verus!
