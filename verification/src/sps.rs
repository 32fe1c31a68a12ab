//! Reading the picture size out of an H.264 sequence parameter set.
//!
//! The parameter set is a bit stream: after removal of the emulation
//! prevention bytes its fields are fixed-width bit groups and Exp-Golomb
//! codes, read most significant bit first.

use vstd::prelude::*;

verus! {

/// Removal of emulation prevention bytes from the first `n` bytes of `nal`:
/// the bytes kept so far, and how many zero bytes (at most two are counted)
/// ended the input so far.
pub open spec fn rbsp_state(nal: Seq<u8>, n: int) -> (Seq<u8>, int)
    decreases n,
{
    if n <= 0 {
        (Seq::empty(), 0)
    } else {
        let (out, zeros) = rbsp_state(nal, n - 1);
        let b = nal[n - 1];
        if zeros >= 2 && b == 3 {
            (out, 0)
        } else if b == 0 {
            (
                out.push(b),
                if zeros < 2 {
                    zeros + 1
                } else {
                    2
                },
            )
        } else {
            (out.push(b), 0)
        }
    }
}

/// `nal` without its emulation prevention bytes: every `03` that follows two
/// or more zero bytes is dropped.
pub open spec fn rbsp(nal: Seq<u8>) -> Seq<u8> {
    rbsp_state(nal, nal.len() as int).0
}

/// Removes the emulation prevention bytes from `nal`.
pub fn nal_to_rbsp(nal: &[u8]) -> (out: Vec<u8>)
    ensures
        out@ == rbsp(nal@),
{
    let mut out: Vec<u8> = Vec::new();
    let mut zeros: u8 = 0;
    let mut i: usize = 0;
    while i < nal.len()
        invariant
            i <= nal@.len(),
            (out@, zeros as int) == rbsp_state(nal@, i as int),
        decreases nal@.len() - i,
    {
        let b: u8 = nal[i];
        i += 1;
        if zeros >= 2 && b == 3 {
            zeros = 0;
        } else {
            out.push(b);
            if b == 0 {
                if zeros < 2 {
                    zeros += 1;
                }
            } else {
                zeros = 0;
            }
        }
    }
    out
}

/// Number of bits in `data`.
pub open spec fn bit_len(data: Seq<u8>) -> int {
    8 * (data.len() as int)
}

/// The bit of `data` at bit offset `pos`, counting from the most significant
/// bit of the first byte.
pub open spec fn bit_at(data: Seq<u8>, pos: int) -> bool {
    (data[pos / 8] >> ((7 - pos % 8) as u8)) & 1 == 1
}

/// The number spelled by the `n` bits of `data` from `pos`, most significant first.
pub open spec fn bits_value(data: Seq<u8>, pos: int, n: int) -> int
    decreases n,
{
    if n <= 0 {
        0
    } else {
        2 * bits_value(data, pos, n - 1) + if bit_at(data, pos + n - 1) {
            1int
        } else {
            0int
        }
    }
}

/// Number of zero bits from `pos` up to the next one bit or the end of `data`.
pub open spec fn zero_run(data: Seq<u8>, pos: int) -> nat
    decreases bit_len(data) - pos,
{
    if pos < 0 || pos >= bit_len(data) || bit_at(data, pos) {
        0
    } else {
        1 + zero_run(data, pos + 1)
    }
}

/// An unsigned Exp-Golomb code at `pos`: its value and the offset after it.
///
/// The code is `z` zero bits, a one bit and `z` more bits; its value is the
/// number spelled by the one bit and the bits after it, less one. A code
/// that begins exactly at the end of the data reads as zero. A code with
/// more than 31 leading zeros, or one that the data cuts short, is no code.
pub open spec fn ue_at(data: Seq<u8>, pos: int) -> Option<(int, int)> {
    let z = zero_run(data, pos) as int;
    if pos + z >= bit_len(data) {
        if z == 0 {
            Some((0, pos))
        } else {
            None
        }
    } else if z > 31 || pos + 2 * z + 1 > bit_len(data) {
        None
    } else {
        Some((pow2(z) + bits_value(data, pos + z + 1, z) - 1, pos + 2 * z + 1))
    }
}

/// Two to the power `n`.
pub open spec fn pow2(n: int) -> int
    decreases n,
{
    if n <= 0 {
        1
    } else {
        2 * pow2(n - 1)
    }
}

/// The signed value that the unsigned Exp-Golomb value `k` stands for:
/// 0, 1, -1, 2, -2, and so on.
pub open spec fn signed_of(k: int) -> int {
    if k % 2 == 0 {
        -(k / 2)
    } else {
        (k + 1) / 2
    }
}

/// The offset after `n` bits at `pos`, when the data holds them.
pub open spec fn after_bits(data: Seq<u8>, pos: Option<int>, n: int) -> Option<int> {
    match pos {
        Some(p) => if p + n <= bit_len(data) {
            Some(p + n)
        } else {
            None
        },
        None => None,
    }
}

/// The offset after the Exp-Golomb code at `pos`.
pub open spec fn after_ue(data: Seq<u8>, pos: Option<int>) -> Option<int> {
    match pos {
        Some(p) => match ue_at(data, p) {
            Some((_, q)) => Some(q),
            None => None,
        },
        None => None,
    }
}

/// The value of the Exp-Golomb code at `pos`; zero where there is none.
pub open spec fn ue_value(data: Seq<u8>, pos: Option<int>) -> int {
    match pos {
        Some(p) => match ue_at(data, p) {
            Some((v, _)) => v,
            None => 0,
        },
        None => 0,
    }
}

/// The bit at `pos`; false where there is none.
pub open spec fn flag_value(data: Seq<u8>, pos: Option<int>) -> bool {
    match pos {
        Some(p) => p < bit_len(data) && bit_at(data, p),
        None => false,
    }
}

/// The offset after `n` Exp-Golomb codes in a row.
pub open spec fn after_ues(data: Seq<u8>, pos: Option<int>, n: int) -> Option<int>
    decreases n,
{
    if n <= 0 {
        pos
    } else {
        after_ues(data, after_ue(data, pos), n - 1)
    }
}

/// The scale value that follows `last` after a change of `delta`.
pub open spec fn next_scale(last: int, delta: int) -> int {
    (last + delta + 256) % 256
}

/// The offset after the rest of a scaling list: `left` entries remain, and
/// `last` and `next` are the running scale values. An entry carries a delta
/// only while `next` is not zero.
pub open spec fn after_scaling_entries(
    data: Seq<u8>,
    pos: Option<int>,
    left: int,
    last: int,
    next: int,
) -> Option<int>
    decreases left,
{
    if left <= 0 || pos.is_none() {
        pos
    } else if next != 0 {
        let n = next_scale(last, signed_of(ue_value(data, pos)));
        after_scaling_entries(
            data,
            after_ue(data, pos),
            left - 1,
            if n == 0 {
                last
            } else {
                n
            },
            n,
        )
    } else {
        after_scaling_entries(data, pos, left - 1, last, next)
    }
}

/// The offset after a scaling list of `size` entries.
pub open spec fn after_scaling_list(data: Seq<u8>, pos: Option<int>, size: int) -> Option<int> {
    after_scaling_entries(data, pos, size, 8, 8)
}

/// The offset after the scaling lists numbered `i` up to `count`: each is a
/// presence flag and, when the flag is set, a list of 16 entries for the
/// first six and of 64 for the others.
pub open spec fn after_scaling_lists(data: Seq<u8>, pos: Option<int>, i: int, count: int) -> Option<
    int,
>
    decreases count - i,
{
    if i >= count || pos.is_none() {
        pos
    } else {
        let p = after_bits(data, pos, 1);
        let q = if flag_value(data, pos) {
            after_scaling_list(
                data,
                p,
                if i < 6 {
                    16
                } else {
                    64
                },
            )
        } else {
            p
        };
        after_scaling_lists(data, q, i + 1, count)
    }
}

/// A cursor over the bits of a byte string.
pub struct BitReader<'a> {
    pub data: &'a [u8],
    pub byte: usize,
    pub bit: u8,
}

impl<'a> BitReader<'a> {
    /// The cursor stands inside the data or at its end.
    pub open spec fn wf(&self) -> bool {
        self.bit < 8 && self.byte <= self.data@.len() && (self.byte == self.data@.len()
            ==> self.bit == 0)
    }

    /// Bit offset of the cursor.
    pub open spec fn pos(&self) -> int {
        self.byte * 8 + self.bit
    }

    /// A cursor at the first bit of `data`.
    pub fn new(data: &'a [u8]) -> (r: Self)
        ensures
            r.wf(),
            r.pos() == 0,
            r.data@ == data@,
    {
        BitReader { data, byte: 0, bit: 0 }
    }

    /// Reads one bit; `None` at the end of the data.
    pub fn read_bit(&mut self) -> (r: Option<bool>)
        requires
            old(self).wf(),
        ensures
            final(self).wf(),
            final(self).data@ == old(self).data@,
            match r {
                Some(b) => old(self).pos() < bit_len(old(self).data@) && b == bit_at(
                    old(self).data@,
                    old(self).pos(),
                ) && final(self).pos() == old(self).pos() + 1,
                None => old(self).pos() >= bit_len(old(self).data@) && final(self).pos() == old(
                    self,
                ).pos(),
            },
    {
        if self.byte >= self.data.len() {
            return None;
        }
        let shift: u8 = 7 - self.bit;
        let value: u8 = (self.data[self.byte] >> shift) & 1;
        assert(self.pos() / 8 == self.byte && self.pos() % 8 == self.bit);
        self.bit += 1;
        if self.bit >= 8 {
            self.bit = 0;
            self.byte += 1;
        }
        Some(value == 1)
    }

    /// Reads up to eight bits as a number, most significant first.
    pub fn read_bits(&mut self, count: u8) -> (r: Option<u8>)
        requires
            old(self).wf(),
            count <= 8,
        ensures
            final(self).wf(),
            final(self).data@ == old(self).data@,
            r.is_some() <==> old(self).pos() + count <= bit_len(old(self).data@),
            r matches Some(v) ==> v as int == bits_value(
                old(self).data@,
                old(self).pos(),
                count as int,
            ) && final(self).pos() == old(self).pos() + count,
    {
        let mut value: u16 = 0;
        let mut i: u8 = 0;
        while i < count
            invariant
                i <= count <= 8,
                self.wf(),
                self.data@ == old(self).data@,
                self.pos() == old(self).pos() + i,
                self.pos() <= bit_len(self.data@),
                value as int == bits_value(self.data@, old(self).pos(), i as int),
                value < pow2(i as int),
            decreases count - i,
        {
            match self.read_bit() {
                Some(b) => {
                    proof {
                        lemma_pow2_bound(i as int + 1);
                        lemma_pow2_mono(i as int + 1, 8);
                        lemma_pow2_eight();
                    }
                    value = 2 * value + if b { 1 } else { 0 };
                },
                None => {
                    return None;
                },
            }
            i += 1;
        }
        proof {
            lemma_pow2_mono(count as int, 8);
            lemma_pow2_eight();
        }
        Some(value as u8)
    }

    /// Reads an unsigned Exp-Golomb code.
    #[verifier::rlimit(40)]
    pub fn read_ue(&mut self) -> (r: Option<u32>)
        requires
            old(self).wf(),
        ensures
            final(self).wf(),
            final(self).data@ == old(self).data@,
            match r {
                Some(v) => ue_at(old(self).data@, old(self).pos()) == Some(
                    (v as int, final(self).pos()),
                ) && v < u32::MAX,
                None => ue_at(old(self).data@, old(self).pos()).is_none(),
            },
    {
        let ghost data = self.data@;
        let ghost start = self.pos();
        let mut zeros: u32 = 0;
        let mut phase: u8 = 0;
        while phase == 0
            invariant
                self.wf(),
                self.data@ == data,
                start == old(self).pos(),
                data == old(self).data@,
                zeros <= 32,
                phase <= 2,
                phase != 0 ==> zeros <= 31,
                phase == 0 ==> self.pos() == start + zeros && zero_run(data, start) == zeros
                    + zero_run(data, self.pos()),
                phase == 1 ==> self.pos() == start + zeros + 1 && zero_run(data, start) == zeros
                    && start + zeros < bit_len(data),
                phase == 2 ==> self.pos() == start + zeros && zero_run(data, start) == zeros
                    && start + zeros >= bit_len(data),
            decreases bit_len(data) - self.pos() + (if phase == 0 { 1int } else { 0int }),
        {
            if zeros > 31 {
                return None;
            }
            match self.read_bit() {
                Some(b) => {
                    if b {
                        phase = 1;
                    } else {
                        zeros += 1;
                    }
                },
                None => {
                    phase = 2;
                },
            }
        }
        if phase == 2 {
            if zeros == 0 {
                return Some(0);
            }
            return None;
        }
        let mut value: u64 = 1;
        let mut i: u32 = 0;
        proof {
            lemma_pow2_bound(1);
        }
        while i < zeros
            invariant
                i <= zeros <= 31,
                self.wf(),
                self.data@ == data,
                self.pos() == start + zeros + 1 + i,
                self.pos() <= bit_len(data),
                value as int == pow2(i as int) + bits_value(data, start + zeros + 1, i as int),
                value < pow2(i as int + 1),
                value >= 1,
                pow2(i as int + 1) <= 0x1_0000_0000,
                zero_run(data, start) == zeros,
                start + zeros < bit_len(data),
                start == old(self).pos(),
                data == old(self).data@,
            decreases zeros - i,
        {
            match self.read_bit() {
                Some(b) => {
                    proof {
                        lemma_pow2_bound(i as int + 2);
                        lemma_pow2_bound(i as int + 1);
                    }
                    value = 2 * value + if b { 1 } else { 0 };
                },
                None => {
                    return None;
                },
            }
            i += 1;
        }
        proof {
            lemma_pow2_bound(zeros as int);
        }
        Some((value - 1) as u32)
    }

    /// Reads a signed Exp-Golomb code.
    pub fn read_se(&mut self) -> (r: Option<i32>)
        requires
            old(self).wf(),
        ensures
            final(self).wf(),
            final(self).data@ == old(self).data@,
            match r {
                Some(v) => ue_at(old(self).data@, old(self).pos()) matches Some((k, q)) && v as int
                    == signed_of(k) && q == final(self).pos(),
                None => ue_at(old(self).data@, old(self).pos()).is_none(),
            },
    {
        match self.read_ue() {
            Some(k) => {
                let half: u32 = k / 2;
                if k % 2 == 0 {
                    Some(-(half as i32))
                } else {
                    Some((half + 1) as i32)
                }
            },
            None => None,
        }
    }
}

/// Powers of two up to the 32nd: each is at least one, at most 2^32, and
/// twice the one before.
pub proof fn lemma_pow2_bound(n: int)
    requires
        0 <= n <= 32,
    ensures
        pow2(n) <= 0x1_0000_0000,
        n > 0 ==> pow2(n) == 2 * pow2(n - 1),
        pow2(n) >= 1,
    decreases n,
{
    if n > 0 {
        lemma_pow2_bound(n - 1);
    }
    if n < 32 {
        lemma_pow2_mono(n, 32);
    }
    assert(pow2(32) == 0x1_0000_0000) by {
        reveal_with_fuel(pow2, 34);
    }
}

/// Two to the eighth is 256.
pub proof fn lemma_pow2_eight()
    ensures
        pow2(8) == 256,
{
    reveal_with_fuel(pow2, 10);
}

/// Powers of two grow with the exponent.
pub proof fn lemma_pow2_mono(a: int, b: int)
    requires
        0 <= a <= b,
    ensures
        pow2(a) <= pow2(b),
        pow2(a) >= 1,
    decreases b - a,
{
    if a < b {
        lemma_pow2_mono(a + 1, b);
    } else {
        lemma_pow2_positive(a);
    }
}

/// A power of two is at least one.
pub proof fn lemma_pow2_positive(n: int)
    ensures
        pow2(n) >= 1,
    decreases n,
{
    if n > 0 {
        lemma_pow2_positive(n - 1);
    }
}

/// Computes the scale value that follows `last` after a change of `delta`.
fn scale_after(last: i64, delta: i32) -> (r: i64)
    requires
        0 <= last < 256,
    ensures
        r == next_scale(last as int, delta as int),
        0 <= r < 256,
{
    let sum: i64 = last + (delta as i64) + 256 + 0x1_0000_0000;
    sum % 256
}

/// Skips one scaling list of `size` entries.
pub fn skip_scaling_list(br: &mut BitReader<'_>, size: usize) -> (r: Option<()>)
    requires
        old(br).wf(),
    ensures
        final(br).wf(),
        final(br).data@ == old(br).data@,
        match r {
            Some(_) => after_scaling_list(old(br).data@, Some(old(br).pos()), size as int) == Some(
                final(br).pos(),
            ),
            None => after_scaling_list(old(br).data@, Some(old(br).pos()), size as int).is_none(),
        },
{
    let ghost data = br.data@;
    let ghost start = br.pos();
    let mut last: i64 = 8;
    let mut next: i64 = 8;
    let mut i: usize = 0;
    while i < size
        invariant
            i <= size,
            br.wf(),
            br.data@ == data,
            data == old(br).data@,
            start == old(br).pos(),
            0 <= last < 256,
            0 <= next < 256,
            after_scaling_list(data, Some(start), size as int) == after_scaling_entries(
                data,
                Some(br.pos()),
                size - i,
                last as int,
                next as int,
            ),
        decreases size - i,
    {
        if next != 0 {
            let ghost here = br.pos();
            match br.read_se() {
                Some(delta) => {
                    next = scale_after(last, delta);
                },
                None => {
                    assert(after_scaling_entries(
                        data,
                        None,
                        size - i - 1,
                        if next_scale(last as int, signed_of(ue_value(data, Some(here)))) == 0 {
                            last as int
                        } else {
                            next_scale(last as int, signed_of(ue_value(data, Some(here))))
                        },
                        next_scale(last as int, signed_of(ue_value(data, Some(here)))),
                    ).is_none());
                    return None;
                },
            }
        }
        if next != 0 {
            last = next;
        }
        i += 1;
    }
    Some(())
}

/// Whether a profile carries chroma format, bit depths and scaling lists in
/// its parameter set.
pub open spec fn has_chroma_info(profile: int) -> bool {
    profile == 100 || profile == 110 || profile == 122 || profile == 244 || profile == 44
        || profile == 83 || profile == 86 || profile == 118 || profile == 128 || profile == 138
        || profile == 139 || profile == 134 || profile == 135 || profile == 144
}

/// The offset after the chroma format, the bit depths, the transform bypass
/// flag and the scaling lists, which begin at `pos`.
pub open spec fn after_chroma_info(d: Seq<u8>, pos: Option<int>) -> Option<int> {
    let chroma = ue_value(d, pos);
    let a = after_ue(d, pos);
    let b = if chroma == 3 {
        after_bits(d, a, 1)
    } else {
        a
    };
    let c = after_bits(d, after_ue(d, after_ue(d, b)), 1);
    let e = after_bits(d, c, 1);
    if flag_value(d, c) {
        after_scaling_lists(
            d,
            e,
            0,
            if chroma == 3 {
                12
            } else {
                8
            },
        )
    } else {
        e
    }
}

/// The offset after the picture order count fields of the given type, which
/// begin at `pos`.
pub open spec fn after_order_count(d: Seq<u8>, pos: Option<int>, kind: int) -> Option<int> {
    if kind == 0 {
        after_ue(d, pos)
    } else if kind == 1 {
        let a = after_ue(d, after_ue(d, after_bits(d, pos, 1)));
        after_ues(d, after_ue(d, a), ue_value(d, a))
    } else {
        pos
    }
}

/// Picture width and height in pixels from the decoded fields: the size in
/// macroblocks, less the cropping in units that depend on the chroma format
/// and on whether the stream is frame-coded; never below zero.
pub open spec fn picture_size(
    chroma: int,
    width_mbs: int,
    height_units: int,
    frames_only: bool,
    crop: (int, int, int, int),
) -> (int, int) {
    let rows = if frames_only {
        1int
    } else {
        2int
    };
    let width = (width_mbs + 1) * 16;
    let height = (height_units + 1) * 16 * rows;
    let unit_x = if chroma == 1 || chroma == 2 {
        2int
    } else {
        1int
    };
    let unit_y = if chroma == 1 {
        2 * rows
    } else {
        rows
    };
    let cut_x = (crop.0 + crop.1) * unit_x;
    let cut_y = (crop.2 + crop.3) * unit_y;
    (
        if width > cut_x {
            width - cut_x
        } else {
            0
        },
        if height > cut_y {
            height - cut_y
        } else {
            0
        },
    )
}

/// The fields of a sequence parameter set that decide the picture size,
/// under the names that the H.264 standard gives them.
pub struct SpsFields {
    pub chroma_format_idc: int,
    pub pic_width_in_mbs_minus1: int,
    pub pic_height_in_map_units_minus1: int,
    pub frame_mbs_only_flag: bool,
    pub frame_crop_left_offset: int,
    pub frame_crop_right_offset: int,
    pub frame_crop_top_offset: int,
    pub frame_crop_bottom_offset: int,
}

/// The fields of the parameter set `sps`, each read at its place.
///
/// `sps` is the whole NAL unit: its first byte is the NAL header, the rest
/// the payload with emulation prevention bytes, which are removed first.
/// The chroma format is 1 where the profile carries none; the cropping
/// offsets are zero where the cropping flag is not set. `None` when the
/// data ends inside a field that is read.
pub open spec fn sps_fields(sps: Seq<u8>) -> Option<SpsFields> {
    if sps.len() < 2 {
        None
    } else {
        let d = rbsp(sps.skip(1));
        let profile = bits_value(d, 0, 8);
        let s0 = after_ue(d, after_bits(d, Some(0), 24));
        let high = has_chroma_info(profile);
        let s1 = if high {
            after_chroma_info(d, s0)
        } else {
            s0
        };
        let s2 = after_ue(d, s1);
        let s3 = after_order_count(d, after_ue(d, s2), ue_value(d, s2));
        let s4 = after_bits(d, after_ue(d, s3), 1);
        let s5 = after_ue(d, s4);
        let s6 = after_ue(d, s5);
        let frames_only = flag_value(d, s6);
        let s7 = after_bits(d, s6, 1);
        let s8 = if frames_only {
            s7
        } else {
            after_bits(d, s7, 1)
        };
        let s9 = after_bits(d, s8, 1);
        let cropped = flag_value(d, s9);
        let s10 = after_bits(d, s9, 1);
        let c1 = after_ue(d, s10);
        let c2 = after_ue(d, c1);
        let c3 = after_ue(d, c2);
        let end = if cropped {
            after_ue(d, c3)
        } else {
            s10
        };
        if end.is_none() {
            None
        } else {
            Some(
                SpsFields {
                    chroma_format_idc: if high {
                        ue_value(d, s0)
                    } else {
                        1
                    },
                    pic_width_in_mbs_minus1: ue_value(d, s4),
                    pic_height_in_map_units_minus1: ue_value(d, s5),
                    frame_mbs_only_flag: frames_only,
                    frame_crop_left_offset: if cropped {
                        ue_value(d, s10)
                    } else {
                        0
                    },
                    frame_crop_right_offset: if cropped {
                        ue_value(d, c1)
                    } else {
                        0
                    },
                    frame_crop_top_offset: if cropped {
                        ue_value(d, c2)
                    } else {
                        0
                    },
                    frame_crop_bottom_offset: if cropped {
                        ue_value(d, c3)
                    } else {
                        0
                    },
                },
            )
        }
    }
}

/// The picture size that the fields `f` declare.
pub open spec fn declared_size(f: SpsFields) -> (int, int) {
    picture_size(
        f.chroma_format_idc,
        f.pic_width_in_mbs_minus1,
        f.pic_height_in_map_units_minus1,
        f.frame_mbs_only_flag,
        (
            f.frame_crop_left_offset,
            f.frame_crop_right_offset,
            f.frame_crop_top_offset,
            f.frame_crop_bottom_offset,
        ),
    )
}

/// The picture size that the parameter set `sps` declares. `None` when the
/// data ends inside a field that is read, or when the size does not fit 32
/// bits.
pub open spec fn sps_dimensions(sps: Seq<u8>) -> Option<(int, int)> {
    match sps_fields(sps) {
        Some(f) => if declared_size(f).0 > u32::MAX || declared_size(f).1 > u32::MAX {
            None
        } else {
            Some(declared_size(f))
        },
        None => None,
    }
}

/// The picture size by the formula of the standard.
///
/// With `w = (pic_width_in_mbs_minus1 + 1) * 16` and
/// `h = (pic_height_in_map_units_minus1 + 1) * 16 * (2 - frame_mbs_only_flag)`,
/// and with the cropping units `cx` and `cy` of the chroma format (for
/// format 1, the common one, `cx = 2` and `cy = 2 * (2 - frame_mbs_only_flag)`),
/// a parameter set whose fields can all be read, whose cropping stays
/// inside the picture and whose size fits 32 bits declares
/// `w - (left + right) * cx` by `h - (top + bottom) * cy`.
pub proof fn lemma_sps_dimensions_formula(sps: Seq<u8>)
    requires
        sps_fields(sps).is_some(),
        ({
            let f = sps_fields(sps).unwrap();
            let rows = if f.frame_mbs_only_flag {
                1int
            } else {
                2int
            };
            let w = (f.pic_width_in_mbs_minus1 + 1) * 16;
            let h = (f.pic_height_in_map_units_minus1 + 1) * 16 * rows;
            let cx = if f.chroma_format_idc == 1 || f.chroma_format_idc == 2 {
                2int
            } else {
                1int
            };
            let cy = if f.chroma_format_idc == 1 {
                2 * rows
            } else {
                rows
            };
            &&& (f.frame_crop_left_offset + f.frame_crop_right_offset) * cx <= w <= u32::MAX
            &&& (f.frame_crop_top_offset + f.frame_crop_bottom_offset) * cy <= h <= u32::MAX
            &&& f.frame_crop_left_offset + f.frame_crop_right_offset >= 0
            &&& f.frame_crop_top_offset + f.frame_crop_bottom_offset >= 0
        }),
    ensures
        ({
            let f = sps_fields(sps).unwrap();
            let rows = if f.frame_mbs_only_flag {
                1int
            } else {
                2int
            };
            let w = (f.pic_width_in_mbs_minus1 + 1) * 16;
            let h = (f.pic_height_in_map_units_minus1 + 1) * 16 * rows;
            let cx = if f.chroma_format_idc == 1 || f.chroma_format_idc == 2 {
                2int
            } else {
                1int
            };
            let cy = if f.chroma_format_idc == 1 {
                2 * rows
            } else {
                rows
            };
            sps_dimensions(sps) == Some(
                (
                    w - (f.frame_crop_left_offset + f.frame_crop_right_offset) * cx,
                    h - (f.frame_crop_top_offset + f.frame_crop_bottom_offset) * cy,
                ),
            )
        }),
{
    let f = sps_fields(sps).unwrap();
    let rows = if f.frame_mbs_only_flag {
        1int
    } else {
        2int
    };
    let cx = if f.chroma_format_idc == 1 || f.chroma_format_idc == 2 {
        2int
    } else {
        1int
    };
    let cy = if f.chroma_format_idc == 1 {
        2 * rows
    } else {
        rows
    };
    let x = (f.frame_crop_left_offset + f.frame_crop_right_offset) * cx;
    let y = (f.frame_crop_top_offset + f.frame_crop_bottom_offset) * cy;
    assert(x >= 0) by (nonlinear_arith)
        requires
            f.frame_crop_left_offset + f.frame_crop_right_offset >= 0,
            cx >= 1,
            x == (f.frame_crop_left_offset + f.frame_crop_right_offset) * cx,
    ;
    assert(y >= 0) by (nonlinear_arith)
        requires
            f.frame_crop_top_offset + f.frame_crop_bottom_offset >= 0,
            cy >= 1,
            y == (f.frame_crop_top_offset + f.frame_crop_bottom_offset) * cy,
    ;
}

/// Skips the scaling lists of a parameter set.
fn skip_scaling_lists(br: &mut BitReader<'_>, count: usize) -> (r: Option<()>)
    requires
        old(br).wf(),
    ensures
        final(br).wf(),
        final(br).data@ == old(br).data@,
        match r {
            Some(_) => after_scaling_lists(old(br).data@, Some(old(br).pos()), 0, count as int)
                == Some(final(br).pos()),
            None => after_scaling_lists(
                old(br).data@,
                Some(old(br).pos()),
                0,
                count as int,
            ).is_none(),
        },
{
    let ghost data = br.data@;
    let ghost start = br.pos();
    let mut i: usize = 0;
    while i < count
        invariant
            i <= count,
            br.wf(),
            br.data@ == data,
            data == old(br).data@,
            start == old(br).pos(),
            after_scaling_lists(data, Some(start), 0, count as int) == after_scaling_lists(
                data,
                Some(br.pos()),
                i as int,
                count as int,
            ),
        decreases count - i,
    {
        let ghost here = br.pos();
        match br.read_bit() {
            Some(present) => {
                if present {
                    match skip_scaling_list(br, if i < 6 { 16 } else { 64 }) {
                        Some(_) => {},
                        None => {
                            assert(after_scaling_lists(data, None, i + 1, count as int).is_none());
                            return None;
                        },
                    }
                }
            },
            None => {
                assert(after_bits(data, Some(here), 1).is_none());
                assert(after_scaling_lists(data, None, i + 1, count as int).is_none());
                return None;
            },
        }
        i += 1;
    }
    Some(())
}

/// Skips `count` Exp-Golomb codes.
fn skip_codes(br: &mut BitReader<'_>, count: u32) -> (r: Option<()>)
    requires
        old(br).wf(),
    ensures
        final(br).wf(),
        final(br).data@ == old(br).data@,
        match r {
            Some(_) => after_ues(old(br).data@, Some(old(br).pos()), count as int) == Some(
                final(br).pos(),
            ),
            None => after_ues(old(br).data@, Some(old(br).pos()), count as int).is_none(),
        },
{
    let ghost data = br.data@;
    let ghost start = br.pos();
    let mut i: u32 = 0;
    while i < count
        invariant
            i <= count,
            br.wf(),
            br.data@ == data,
            data == old(br).data@,
            start == old(br).pos(),
            after_ues(data, Some(start), count as int) == after_ues(
                data,
                Some(br.pos()),
                count - i,
            ),
        decreases count - i,
    {
        match br.read_ue() {
            Some(_) => {},
            None => {
                proof {
                    lemma_after_ues_none(data, count - i - 1);
                }
                return None;
            },
        }
        i += 1;
    }
    Some(())
}

proof fn lemma_after_ues_none(data: Seq<u8>, n: int)
    ensures
        after_ues(data, None, n).is_none(),
    decreases n,
{
    if n > 0 {
        lemma_after_ues_none(data, n - 1);
    }
}

/// Reads the chroma format and skips the fields that follow it.
fn read_chroma_info(br: &mut BitReader<'_>) -> (r: Option<u32>)
    requires
        old(br).wf(),
    ensures
        final(br).wf(),
        final(br).data@ == old(br).data@,
        match r {
            Some(chroma) => after_chroma_info(old(br).data@, Some(old(br).pos())) == Some(
                final(br).pos(),
            ) && chroma as int == ue_value(old(br).data@, Some(old(br).pos())),
            None => after_chroma_info(old(br).data@, Some(old(br).pos())).is_none(),
        },
{
    let chroma: u32 = match br.read_ue() {
        Some(v) => v,
        None => {
            return None;
        },
    };
    if chroma == 3 {
        match br.read_bit() {
            Some(_) => {},
            None => {
                return None;
            },
        }
    }
    match br.read_ue() {
        Some(_) => {},
        None => {
            return None;
        },
    }
    match br.read_ue() {
        Some(_) => {},
        None => {
            return None;
        },
    }
    match br.read_bit() {
        Some(_) => {},
        None => {
            return None;
        },
    }
    let scaling: bool = match br.read_bit() {
        Some(b) => b,
        None => {
            return None;
        },
    };
    if scaling {
        match skip_scaling_lists(br, if chroma == 3 { 12 } else { 8 }) {
            Some(_) => {},
            None => {
                return None;
            },
        }
    }
    Some(chroma)
}

/// Skips the picture order count fields of the given type.
fn skip_order_count(br: &mut BitReader<'_>, kind: u32) -> (r: Option<()>)
    requires
        old(br).wf(),
    ensures
        final(br).wf(),
        final(br).data@ == old(br).data@,
        match r {
            Some(_) => after_order_count(old(br).data@, Some(old(br).pos()), kind as int) == Some(
                final(br).pos(),
            ),
            None => after_order_count(old(br).data@, Some(old(br).pos()), kind as int).is_none(),
        },
{
    if kind == 0 {
        match br.read_ue() {
            Some(_) => Some(()),
            None => None,
        }
    } else if kind == 1 {
        match br.read_bit() {
            Some(_) => {},
            None => {
                proof {
                    lemma_after_ues_none(br.data@, ue_value(br.data@, None));
                }
                return None;
            },
        }
        match br.read_se() {
            Some(_) => {},
            None => {
                proof {
                    lemma_after_ues_none(br.data@, ue_value(br.data@, None));
                }
                return None;
            },
        }
        match br.read_se() {
            Some(_) => {},
            None => {
                proof {
                    lemma_after_ues_none(br.data@, ue_value(br.data@, None));
                }
                return None;
            },
        }
        let ghost at = br.pos();
        let cycle: u32 = match br.read_ue() {
            Some(v) => v,
            None => {
                proof {
                    lemma_after_ues_none(br.data@, ue_value(br.data@, Some(at)));
                }
                return None;
            },
        };
        skip_codes(br, cycle)
    } else {
        Some(())
    }
}

/// The cropping offsets of a parameter set: left, right, top, bottom.
fn read_crop(br: &mut BitReader<'_>) -> (r: Option<(u32, u32, u32, u32)>)
    requires
        old(br).wf(),
    ensures
        final(br).wf(),
        final(br).data@ == old(br).data@,
        ({
            let d = old(br).data@;
            let s10 = Some(old(br).pos());
            let c1 = after_ue(d, s10);
            let c2 = after_ue(d, c1);
            let c3 = after_ue(d, c2);
            match r {
                Some(c) => after_ue(d, c3) == Some(final(br).pos()) && c.0 as int == ue_value(
                    d,
                    s10,
                ) && c.1 as int == ue_value(d, c1) && c.2 as int == ue_value(d, c2) && c.3 as int
                    == ue_value(d, c3),
                None => after_ue(d, c3).is_none(),
            }
        }),
{
    let left: u32 = match br.read_ue() {
        Some(v) => v,
        None => {
            return None;
        },
    };
    let right: u32 = match br.read_ue() {
        Some(v) => v,
        None => {
            return None;
        },
    };
    let top: u32 = match br.read_ue() {
        Some(v) => v,
        None => {
            return None;
        },
    };
    let bottom: u32 = match br.read_ue() {
        Some(v) => v,
        None => {
            return None;
        },
    };
    Some((left, right, top, bottom))
}

/// Computes the picture size from the decoded fields.
fn compute_size(
    chroma: u32,
    width_mbs: u32,
    height_units: u32,
    frames_only: bool,
    crop: (u32, u32, u32, u32),
) -> (r: (u64, u64))
    ensures
        (r.0 as int, r.1 as int) == picture_size(
            chroma as int,
            width_mbs as int,
            height_units as int,
            frames_only,
            (crop.0 as int, crop.1 as int, crop.2 as int, crop.3 as int),
        ),
{
    let rows: u64 = if frames_only { 1 } else { 2 };
    let width: u64 = (width_mbs as u64 + 1) * 16;
    let height: u64 = (height_units as u64 + 1) * 16 * rows;
    let unit_x: u64 = if chroma == 1 || chroma == 2 { 2 } else { 1 };
    let unit_y: u64 = if chroma == 1 { 2 * rows } else { rows };
    let cut_x: u64 = (crop.0 as u64 + crop.1 as u64) * unit_x;
    let cut_y: u64 = (crop.2 as u64 + crop.3 as u64) * unit_y;
    (
        if width > cut_x { width - cut_x } else { 0 },
        if height > cut_y { height - cut_y } else { 0 },
    )
}

/// Reads the picture width and height, in pixels, from a sequence parameter
/// set NAL unit.
#[verifier::rlimit(40)]
pub fn parse_sps_dimensions(sps: &[u8]) -> (r: Option<(u32, u32)>)
    ensures
        match r {
            Some((w, h)) => sps_dimensions(sps@) == Some((w as int, h as int)),
            None => sps_dimensions(sps@).is_none(),
        },
{
    if sps.len() < 2 {
        return None;
    }
    let body = vstd::slice::slice_subrange(sps, 1, sps.len());
    assert(body@ =~= sps@.skip(1));
    let unescaped: Vec<u8> = nal_to_rbsp(body);
    let ghost d = unescaped@;
    let mut br = BitReader::new(unescaped.as_slice());
    let profile: u8 = match br.read_bits(8) {
        Some(v) => v,
        None => {
            return None;
        },
    };
    match br.read_bits(8) {
        Some(_) => {},
        None => {
            return None;
        },
    }
    match br.read_bits(8) {
        Some(_) => {},
        None => {
            return None;
        },
    }
    match br.read_ue() {
        Some(_) => {},
        None => {
            return None;
        },
    }
    let ghost s0 = after_ue(d, after_bits(d, Some(0), 24));
    assert(s0 == Some(br.pos()));
    let mut chroma: u32 = 1;
    if profile == 100 || profile == 110 || profile == 122 || profile == 244 || profile == 44
        || profile == 83 || profile == 86 || profile == 118 || profile == 128 || profile == 138
        || profile == 139 || profile == 134 || profile == 135 || profile == 144 {
        chroma = match read_chroma_info(&mut br) {
            Some(v) => v,
            None => {
                return None;
            },
        };
    }
    let ghost s1 = Some(br.pos());
    match br.read_ue() {
        Some(_) => {},
        None => {
            return None;
        },
    }
    let ghost s2 = Some(br.pos());
    let kind: u32 = match br.read_ue() {
        Some(v) => v,
        None => {
            return None;
        },
    };
    match skip_order_count(&mut br, kind) {
        Some(_) => {},
        None => {
            return None;
        },
    }
    let ghost s3 = Some(br.pos());
    match br.read_ue() {
        Some(_) => {},
        None => {
            return None;
        },
    }
    match br.read_bit() {
        Some(_) => {},
        None => {
            return None;
        },
    }
    let ghost s4 = Some(br.pos());
    let width_mbs: u32 = match br.read_ue() {
        Some(v) => v,
        None => {
            return None;
        },
    };
    let ghost s5 = Some(br.pos());
    let height_units: u32 = match br.read_ue() {
        Some(v) => v,
        None => {
            return None;
        },
    };
    let ghost s6 = Some(br.pos());
    let frames_only: bool = match br.read_bit() {
        Some(b) => b,
        None => {
            return None;
        },
    };
    if !frames_only {
        match br.read_bit() {
            Some(_) => {},
            None => {
                return None;
            },
        }
    }
    let ghost s8 = Some(br.pos());
    match br.read_bit() {
        Some(_) => {},
        None => {
            return None;
        },
    }
    let ghost s9 = Some(br.pos());
    let cropped: bool = match br.read_bit() {
        Some(b) => b,
        None => {
            return None;
        },
    };
    let ghost s10 = Some(br.pos());
    let mut crop: (u32, u32, u32, u32) = (0, 0, 0, 0);
    if cropped {
        crop = match read_crop(&mut br) {
            Some(c) => c,
            None => {
                return None;
            },
        };
    }
    let size = compute_size(chroma, width_mbs, height_units, frames_only, crop);
    if size.0 > u32::MAX as u64 || size.1 > u32::MAX as u64 {
        return None;
    }
    Some((size.0 as u32, size.1 as u32))
}

} // verus!
