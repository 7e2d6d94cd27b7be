//! How the NAL units of an Annex B stream would go out as RTP packets.
use crate::rtp_packetization::{
    annex_b_units_from, find_nal_units_annex_b, fu_a_fragment_count, rtp_payloads,
};
use vstd::arithmetic::div_mod::{
    lemma_fundamental_div_mod, lemma_fundamental_div_mod_converse_div, lemma_mod_bound,
};
use vstd::prelude::*;

verus! {

/// How one NAL unit is sent: its position in the stream, its type and length, the sequence
/// numbers of its first and last packets, how many packets it takes, and whether it is cut
/// into FU-A fragments.
#[derive(Debug, Clone, PartialEq, Eq, Structural)]
pub struct NalRtpSummary {
    pub nal_index: usize,
    pub nal_type: u8,
    pub nal_len: usize,
    pub first_seq: u16,
    pub last_seq: u16,
    pub packet_count: usize,
    pub fragmented: bool,
}

/// The type of a NAL unit (0 for an empty one).
pub open spec fn unit_type(unit: Seq<u8>) -> u8 {
    if unit.len() > 0 {
        unit[0] & 0x1f
    } else {
        0
    }
}

/// Number of RTP packets that the first `i` units take.
pub open spec fn rtp_packets_before(units: Seq<Seq<u8>>, mtu: int, i: int) -> int
    decreases i,
{
    if i <= 0 {
        0
    } else {
        rtp_packets_before(units, mtu, i - 1) + rtp_payloads(units[i - 1], mtu).len()
    }
}

proof fn lemma_packets_before_nonnegative(units: Seq<Seq<u8>>, mtu: int, i: int)
    ensures
        rtp_packets_before(units, mtu, i) >= 0,
    decreases i,
{
    if i > 0 {
        lemma_packets_before_nonnegative(units, mtu, i - 1);
    }
}

/// Whether `s` describes unit `i` of `units` sent with sequence numbers counting up from 0
/// (modulo 2^16) over the whole stream.
pub open spec fn describes_unit(s: NalRtpSummary, units: Seq<Seq<u8>>, mtu: int, i: int) -> bool {
    let unit = units[i];
    let count = rtp_payloads(unit, mtu).len();
    let before = rtp_packets_before(units, mtu, i);
    &&& s.nal_index == i
    &&& s.nal_type == unit_type(unit)
    &&& s.nal_len == unit.len()
    &&& s.packet_count == count
    &&& s.fragmented == (unit.len() > mtu)
    &&& s.first_seq == before % 65536
    &&& s.last_seq == (before + count - 1) % 65536
}

/// The number of RTP packets `packetize_nal_as_rtp` makes of a NAL unit of `len` bytes.
fn rtp_packet_count(len: usize, mtu: usize) -> (res: usize)
    requires
        mtu >= 3,
    ensures
        len <= mtu ==> res == 1,
        len > mtu ==> res == fu_a_fragment_count(len as int, mtu as int),
        res >= 1,
{
    if len <= mtu {
        return 1;
    }
    let chunk = mtu - 2;
    let q = (len - 1) / chunk;
    let r = (len - 1) % chunk;
    proof {
        let x = len - 1;
        lemma_fundamental_div_mod(x as int, chunk as int);
        lemma_mod_bound(x as int, chunk as int);
        if r == 0 {
            assert(x + chunk - 1 == q * chunk + (chunk - 1)) by (nonlinear_arith)
                requires
                    x == chunk * q + r,
                    r == 0,
            ;
            lemma_fundamental_div_mod_converse_div(x + chunk - 1, chunk as int, q as int, chunk - 1);
        } else {
            assert(x + chunk - 1 == (q + 1) * chunk + (r - 1)) by (nonlinear_arith)
                requires
                    x == chunk * q + r,
            ;
            lemma_fundamental_div_mod_converse_div(
                x + chunk - 1,
                chunk as int,
                q + 1,
                r - 1,
            );
        }
        assert(q * chunk <= x) by (nonlinear_arith)
            requires
                x == chunk * q + r,
                r >= 0,
        ;
        assert(q < len) by (nonlinear_arith)
            requires
                q * chunk <= x,
                x < len,
                chunk >= 1,
                q >= 0,
        ;
        assert(q >= 1) by (nonlinear_arith)
            requires
                x == chunk * q + r,
                r < chunk,
                x >= chunk,
        ;
    }
    if r == 0 {
        q
    } else {
        q + 1
    }
}

/// Describes how the first `max_units` NAL units of an Annex B stream go out as RTP with the
/// given MTU, numbering packets from 0 over the whole stream.
pub fn summarize_rtp_packetization(bytes: &[u8], mtu: usize, max_units: usize) -> (res: Vec<
    NalRtpSummary,
>)
    requires
        mtu >= 3,
    ensures
        res.len() == if max_units < annex_b_units_from(bytes@, 0).len() {
            max_units as int
        } else {
            annex_b_units_from(bytes@, 0).len() as int
        },
        forall|i: int|
            0 <= i < res.len() ==> describes_unit(
                #[trigger] res[i],
                annex_b_units_from(bytes@, 0),
                mtu as int,
                i,
            ),
{
    let units = find_nal_units_annex_b(bytes);
    let ghost all = annex_b_units_from(bytes@, 0);
    assert(units@.map_values(|s: &[u8]| s@) == all);
    let n = if max_units < units.len() {
        max_units
    } else {
        units.len()
    };
    let mut res: Vec<NalRtpSummary> = Vec::new();
    let mut seq: u16 = 0;
    let mut i: usize = 0;
    while i < n
        invariant
            mtu >= 3,
            n <= units.len(),
            units@.map_values(|s: &[u8]| s@) == all,
            i <= n,
            res.len() == i,
            seq == rtp_packets_before(all, mtu as int, i as int) % 65536,
            forall|j: int| 0 <= j < i ==> describes_unit(#[trigger] res[j], all, mtu as int, j),
        decreases n - i,
    {
        let unit = units[i];
        assert(unit@ == all[i as int]);
        let len = unit.len();
        let nal_type = if len > 0 {
            unit[0] & 0x1f
        } else {
            0
        };
        let count = rtp_packet_count(len, mtu);
        assert(count == rtp_payloads(all[i as int], mtu as int).len());
        let ghost before = rtp_packets_before(all, mtu as int, i as int);
        proof {
            lemma_packets_before_nonnegative(all, mtu as int, i as int);
        }
        let step = (count % 65536) as u32;
        let first_seq = seq;
        let last_seq = ((seq as u32 + step + 65535) % 65536) as u16;
        assert(last_seq == (before + count - 1) % 65536) by (nonlinear_arith)
            requires
                seq == before % 65536,
                step == count % 65536,
                last_seq == (seq + step + 65535) % 65536,
                before >= 0,
                count >= 1,
        ;
        res.push(
            NalRtpSummary {
                nal_index: i,
                nal_type,
                nal_len: len,
                first_seq,
                last_seq,
                packet_count: count,
                fragmented: len > mtu,
            },
        );
        let next_seq = ((seq as u32 + step) % 65536) as u16;
        assert(next_seq == (before + count) % 65536) by (nonlinear_arith)
            requires
                seq == before % 65536,
                step == count % 65536,
                next_seq == (seq + step) % 65536,
                before >= 0,
                count >= 1,
        ;
        seq = next_seq;
        i += 1;
        assert(rtp_packets_before(all, mtu as int, i as int) == before + count);
    }
    res
}

} // verus!
