//! Inspection of raw H.264 Annex B streams: start codes, NAL headers, NAL type counts and
//! GOP summaries.
use crate::rtp_packetization::{next_start_code, start_code3_at, start_code4_at, start_code_at};
use std::collections::HashMap;
use vstd::prelude::*;

verus! {

broadcast use vstd::std_specs::hash::group_hash_axioms;

/// Whether the stream holds a four-byte or a three-byte start code anywhere.
pub open spec fn holds_start_code(b: Seq<u8>) -> bool {
    (exists|i: int| start_code4_at(b, i)) || (exists|i: int| start_code3_at(b, i))
}

/// Whether the stream holds an Annex B start code (`00 00 00 01` or `00 00 01`).
pub fn contains_annex_b_start_code(bytes: &[u8]) -> (res: bool)
    ensures
        res == holds_start_code(bytes@),
{
    let len = bytes.len();
    let mut i: usize = 0;
    while i < len && len - i >= 4
        invariant
            len == bytes@.len(),
            forall|k: int| 0 <= k < i ==> !start_code4_at(bytes@, k),
        decreases len - i,
    {
        if bytes[i] == 0 && bytes[i + 1] == 0 && bytes[i + 2] == 0 && bytes[i + 3] == 1 {
            assert(start_code4_at(bytes@, i as int));
            return true;
        }
        i += 1;
    }
    assert(forall|k: int| !start_code4_at(bytes@, k));
    let mut j: usize = 0;
    while j < len && len - j >= 3
        invariant
            len == bytes@.len(),
            forall|k: int| 0 <= k < j ==> !start_code3_at(bytes@, k),
        decreases len - j,
    {
        if bytes[j] == 0 && bytes[j + 1] == 0 && bytes[j + 2] == 1 {
            assert(start_code3_at(bytes@, j as int));
            return true;
        }
        j += 1;
    }
    assert(forall|k: int| !start_code3_at(bytes@, k));
    false
}

/// Law: a stream holds an Annex B start code exactly when it holds `00 00 01`, since the
/// four-byte code ends with the three-byte one.
pub proof fn lemma_start_code_means_three_byte_code(b: Seq<u8>)
    ensures
        holds_start_code(b) <==> exists|i: int| start_code3_at(b, i),
{
    if exists|i: int| start_code4_at(b, i) {
        let i = choose|i: int| start_code4_at(b, i);
        assert(start_code3_at(b, i + 1));
    }
}

/// The byte that follows the first start code of the stream, if the stream has a start
/// code and a byte after it.
pub open spec fn first_header_after_start_code(b: Seq<u8>) -> Option<u8> {
    match next_start_code(b, 0) {
        Some(i) => {
            let h = if start_code4_at(b, i) {
                i + 4
            } else {
                i + 3
            };
            if h < b.len() {
                Some(b[h])
            } else {
                None
            }
        },
        None => None,
    }
}

/// The NAL header that follows the first start code of the stream.
pub fn first_nal_header_after_start_code(bytes: &[u8]) -> (res: Option<u8>)
    ensures
        res == first_header_after_start_code(bytes@),
{
    let len = bytes.len();
    let mut index: usize = 0;
    while index < len
        invariant
            len == bytes@.len(),
            index <= len,
            next_start_code(bytes@, 0) == next_start_code(bytes@, index as int),
        decreases len - index,
    {
        if len - index >= 4 && bytes[index] == 0 && bytes[index + 1] == 0 && bytes[index + 2] == 0
            && bytes[index + 3] == 1 {
            assert(start_code4_at(bytes@, index as int));
            if index + 4 < len {
                return Some(bytes[index + 4]);
            } else {
                return None;
            }
        }
        if len - index >= 3 && bytes[index] == 0 && bytes[index + 1] == 0 && bytes[index + 2] == 1 {
            assert(start_code3_at(bytes@, index as int));
            assert(!start_code4_at(bytes@, index as int));
            if index + 3 < len {
                return Some(bytes[index + 3]);
            } else {
                return None;
            }
        }
        assert(!start_code_at(bytes@, index as int));
        index += 1;
    }
    None
}

/// The NAL headers found by scanning from `i`: a header is the byte right after a
/// four-byte start code (scanning goes on past that byte) or after a three-byte one
/// (likewise); scanning stops when fewer than four bytes are left.
pub open spec fn nal_headers_from(b: Seq<u8>, i: int) -> Seq<u8>
    decreases b.len() - i,
{
    if i < 0 || i + 3 >= b.len() {
        seq![]
    } else if i + 4 < b.len() && start_code4_at(b, i) {
        seq![b[i + 4]] + nal_headers_from(b, i + 5)
    } else if start_code3_at(b, i) {
        seq![b[i + 3]] + nal_headers_from(b, i + 4)
    } else {
        nal_headers_from(b, i + 1)
    }
}

/// The NAL header bytes that follow the start codes of the stream.
pub fn find_nal_headers(bytes: &[u8]) -> (res: Vec<u8>)
    ensures
        res@ == nal_headers_from(bytes@, 0),
{
    let len = bytes.len();
    let mut index: usize = 0;
    let mut res: Vec<u8> = Vec::new();
    while index < len && len - index > 3
        invariant
            len == bytes@.len(),
            nal_headers_from(bytes@, 0) == res@ + nal_headers_from(bytes@, index as int),
        decreases len - index,
    {
        let ghost before = res@;
        if len - index > 4 {
            if bytes[index] == 0 && bytes[index + 1] == 0 && bytes[index + 2] == 0 && bytes[index
                + 3] == 1 {
                res.push(bytes[index + 4]);
                assert(before + nal_headers_from(bytes@, index as int) =~= res@ + nal_headers_from(
                    bytes@,
                    index + 5,
                ));
                index += 5;
                continue ;
            }
        }
        if bytes[index] == 0 && bytes[index + 1] == 0 && bytes[index + 2] == 1 {
            res.push(bytes[index + 3]);
            assert(before + nal_headers_from(bytes@, index as int) =~= res@ + nal_headers_from(
                bytes@,
                index + 4,
            ));
            index += 4;
        } else {
            index += 1;
        }
    }
    assert(nal_headers_from(bytes@, index as int) =~= Seq::<u8>::empty());
    assert(res@ + Seq::<u8>::empty() =~= res@);
    res
}

/// How many times `x` occurs in `s`.
pub open spec fn occurrences(s: Seq<u8>, x: u8) -> nat
    decreases s.len(),
{
    if s.len() == 0 {
        0
    } else {
        occurrences(s.drop_last(), x) + if s.last() == x {
            1nat
        } else {
            0nat
        }
    }
}

proof fn lemma_occurrences_bound(s: Seq<u8>, x: u8)
    ensures
        occurrences(s, x) <= s.len(),
        s.contains(x) <==> occurrences(s, x) > 0,
    decreases s.len(),
{
    if s.len() > 0 {
        lemma_occurrences_bound(s.drop_last(), x);
        if s.drop_last().contains(x) {
            let k = choose|k: int| 0 <= k < s.drop_last().len() && s.drop_last()[k] == x;
            assert(s[k] == x);
        }
        if s.contains(x) && s.last() != x {
            let k = choose|k: int| 0 <= k < s.len() && s[k] == x;
            assert(s.drop_last()[k] == x);
        }
    }
}

/// Counts how often each byte occurs: every byte of the input is a key, mapped to its count.
pub fn count_header(bytes: &[u8]) -> (res: HashMap<u8, usize>)
    ensures
        forall|x: u8| #[trigger] res@.contains_key(x) <==> bytes@.contains(x),
        forall|x: u8| #[trigger] res@.contains_key(x) ==> res@[x] == occurrences(bytes@, x),
{
    let mut res: HashMap<u8, usize> = HashMap::new();
    let mut i: usize = 0;
    while i < bytes.len()
        invariant
            i <= bytes.len(),
            forall|x: u8| #[trigger] res@.contains_key(x) <==> bytes@.take(i as int).contains(x),
            forall|x: u8| #[trigger]
                res@.contains_key(x) ==> res@[x] == occurrences(bytes@.take(i as int), x),
        decreases bytes.len() - i,
    {
        let byte = bytes[i];
        let ghost prefix = bytes@.take(i as int);
        let ghost next = bytes@.take(i + 1);
        assert(next.drop_last() =~= prefix);
        assert(next.last() == byte);
        proof {
            lemma_occurrences_bound(prefix, byte);
        }
        let count: usize = match res.get(&byte) {
            Some(c) => *c,
            None => 0,
        };
        assert(count == occurrences(prefix, byte));
        res.insert(byte, count + 1);
        assert forall|x: u8| #[trigger] res@.contains_key(x) <==> next.contains(x) by {
            if next.contains(x) && x != byte {
                let k = choose|k: int| 0 <= k < next.len() && next[k] == x;
                assert(prefix[k] == x);
            }
            if prefix.contains(x) {
                let k = choose|k: int| 0 <= k < prefix.len() && prefix[k] == x;
                assert(next[k] == x);
            }
            if x == byte {
                assert(next[i as int] == x);
            }
        }
        i += 1;
    }
    assert(bytes@.take(i as int) =~= bytes@);
    res
}

/// Where the GOP scanner stands: nothing yet, or the kind of the last NAL unit it took.
pub enum GopState {
    Initial,
    Sps,
    Pps,
    Idr,
    NonIdr,
}

/// What one group of pictures held: whether an SPS and a PPS came before its IDR slices,
/// and how many IDR and non-IDR slices it has.
#[derive(Debug, Clone, PartialEq, Eq, Structural)]
pub struct GopSummary {
    pub sps_before_idr: bool,
    pub pps_before_idr: bool,
    pub idr_slices: usize,
    pub non_idr_slices: usize,
}

impl Default for GopSummary {
    fn default() -> (res: Self)
        ensures
            res == empty_gop(),
    {
        GopSummary { sps_before_idr: false, pps_before_idr: false, idr_slices: 0, non_idr_slices: 0 }
    }
}

/// A GOP with nothing in it.
pub open spec fn empty_gop() -> GopSummary {
    GopSummary { sps_before_idr: false, pps_before_idr: false, idr_slices: 0, non_idr_slices: 0 }
}

/// The scanner's progress: finished GOPs, the GOP being filled, and the scanner state.
pub struct GopScan {
    pub done: Seq<GopSummary>,
    pub current: GopSummary,
    pub state: GopState,
}

/// One NAL header through the GOP scanner. An SPS (type 7) opens a GOP when nothing was seen
/// yet or after non-IDR slices; a PPS (8) follows an SPS or opens a GOP after non-IDR
/// slices; IDR slices (5) follow a PPS or IDR slices, or open a GOP after non-IDR slices;
/// non-IDR slices (1) follow IDR or non-IDR slices. Anything else is passed over.
pub open spec fn gop_step(scan: GopScan, header: u8) -> GopScan {
    let t = header & 0x1f;
    let c = scan.current;
    if t == 7 {
        match scan.state {
            GopState::Initial => GopScan {
                done: scan.done,
                current: GopSummary { sps_before_idr: true, ..c },
                state: GopState::Sps,
            },
            GopState::NonIdr => GopScan {
                done: scan.done.push(c),
                current: GopSummary { sps_before_idr: true, ..empty_gop() },
                state: GopState::Sps,
            },
            _ => scan,
        }
    } else if t == 8 {
        match scan.state {
            GopState::Sps => GopScan {
                done: scan.done,
                current: GopSummary { pps_before_idr: true, ..c },
                state: GopState::Pps,
            },
            GopState::NonIdr => GopScan {
                done: scan.done.push(c),
                current: GopSummary { pps_before_idr: true, ..empty_gop() },
                state: GopState::Pps,
            },
            _ => scan,
        }
    } else if t == 5 {
        match scan.state {
            GopState::Pps => GopScan {
                done: scan.done,
                current: GopSummary { idr_slices: (c.idr_slices + 1) as usize, ..c },
                state: GopState::Idr,
            },
            GopState::Idr => GopScan {
                done: scan.done,
                current: GopSummary { idr_slices: (c.idr_slices + 1) as usize, ..c },
                state: GopState::Idr,
            },
            GopState::NonIdr => GopScan {
                done: scan.done.push(c),
                current: GopSummary { idr_slices: 1, ..empty_gop() },
                state: GopState::Idr,
            },
            _ => scan,
        }
    } else if t == 1 {
        match scan.state {
            GopState::Idr => GopScan {
                done: scan.done,
                current: GopSummary { non_idr_slices: (c.non_idr_slices + 1) as usize, ..c },
                state: GopState::NonIdr,
            },
            GopState::NonIdr => GopScan {
                done: scan.done,
                current: GopSummary { non_idr_slices: (c.non_idr_slices + 1) as usize, ..c },
                state: GopState::NonIdr,
            },
            _ => scan,
        }
    } else {
        scan
    }
}

/// The GOP scanner after all of `headers`, in order.
pub open spec fn gop_scan(headers: Seq<u8>) -> GopScan
    decreases headers.len(),
{
    if headers.len() == 0 {
        GopScan { done: seq![], current: empty_gop(), state: GopState::Initial }
    } else {
        gop_step(gop_scan(headers.drop_last()), headers.last())
    }
}

/// The GOP summaries of a sequence of NAL headers: the finished GOPs, then the one being
/// filled at the end.
pub open spec fn gop_summaries(headers: Seq<u8>) -> Seq<GopSummary> {
    gop_scan(headers).done.push(gop_scan(headers).current)
}

/// The scanner's counts never exceed the headers seen, and its state tells what the GOP
/// being filled holds.
proof fn lemma_gop_scan_invariant(headers: Seq<u8>)
    requires
        headers.len() <= usize::MAX,
    ensures
        gop_scan(headers).current.idr_slices + gop_scan(headers).current.non_idr_slices
            <= headers.len(),
        gop_scan(headers).state is Idr ==> gop_scan(headers).current.idr_slices >= 1,
        gop_scan(headers).state is NonIdr ==> gop_scan(headers).current.idr_slices >= 1
            && gop_scan(headers).current.non_idr_slices >= 1,
        forall|j: int|
            0 <= j < gop_scan(headers).done.len() ==> (#[trigger] gop_scan(headers).done[j]).idr_slices
                >= 1 && gop_scan(headers).done[j].non_idr_slices >= 1,
    decreases headers.len(),
{
    if headers.len() > 0 {
        lemma_gop_scan_invariant(headers.drop_last());
        let prev = gop_scan(headers.drop_last());
        let next = gop_scan(headers);
        assert forall|j: int| 0 <= j < next.done.len() implies (#[trigger] next.done[j]).idr_slices
            >= 1 && next.done[j].non_idr_slices >= 1 by {
            if j < prev.done.len() {
                assert(next.done[j] == prev.done[j]);
            }
        }
    }
}

/// Law: every GOP that is followed by another one holds at least one IDR slice and at least
/// one non-IDR slice, and there is always at least one summary.
pub proof fn lemma_finished_gops_hold_slices(headers: Seq<u8>)
    requires
        headers.len() <= usize::MAX,
    ensures
        gop_summaries(headers).len() >= 1,
        forall|j: int|
            0 <= j < gop_summaries(headers).len() - 1 ==> (#[trigger] gop_summaries(
                headers,
            )[j]).idr_slices >= 1 && gop_summaries(headers)[j].non_idr_slices >= 1,
{
    lemma_gop_scan_invariant(headers);
    let scan = gop_scan(headers);
    assert forall|j: int| 0 <= j < gop_summaries(headers).len() - 1 implies (#[trigger] gop_summaries(
        headers,
    )[j]).idr_slices >= 1 && gop_summaries(headers)[j].non_idr_slices >= 1 by {
        assert(gop_summaries(headers)[j] == scan.done[j]);
    }
}

/// The headers that GOP grouping looks at, in order, each cut down to its type bits: those
/// of SPS (7), PPS (8), IDR (5) and non-IDR (1) units.
pub open spec fn gop_relevant(headers: Seq<u8>) -> Seq<u8>
    decreases headers.len(),
{
    if headers.len() == 0 {
        seq![]
    } else {
        let t = headers.last() & 0x1f;
        if t == 1 || t == 5 || t == 7 || t == 8 {
            gop_relevant(headers.drop_last()).push(t)
        } else {
            gop_relevant(headers.drop_last())
        }
    }
}

proof fn lemma_gop_scan_relevant(headers: Seq<u8>)
    ensures
        gop_scan(headers) == gop_scan(gop_relevant(headers)),
    decreases headers.len(),
{
    if headers.len() > 0 {
        lemma_gop_scan_relevant(headers.drop_last());
        let h = headers.last();
        let t = h & 0x1f;
        assert(t & 0x1f == t) by (bit_vector)
            requires
                t == h & 0x1f,
        ;
        let rest = gop_relevant(headers.drop_last());
        if t == 1 || t == 5 || t == 7 || t == 8 {
            assert(rest.push(t).drop_last() =~= rest);
            assert(gop_scan(rest.push(t)) == gop_step(gop_scan(rest), t));
        }
    }
}

/// Law: GOP grouping depends only on the type bits of the SPS, PPS, IDR and non-IDR headers:
/// headers of any other type, and the other bits of each header, leave the summaries
/// unchanged.
pub proof fn lemma_gops_depend_on_slice_types(headers: Seq<u8>)
    ensures
        gop_summaries(headers) == gop_summaries(gop_relevant(headers)),
{
    lemma_gop_scan_relevant(headers);
}

proof fn lemma_scan_of_sps_pps_idr()
    ensures
        gop_scan(seq![7u8, 8u8, 5u8]) == (GopScan {
            done: seq![],
            current: GopSummary {
                sps_before_idr: true,
                pps_before_idr: true,
                idr_slices: 1,
                non_idr_slices: 0,
            },
            state: GopState::Idr,
        }),
{
    assert(7u8 & 0x1f == 7) by (bit_vector);
    assert(8u8 & 0x1f == 8) by (bit_vector);
    assert(5u8 & 0x1f == 5) by (bit_vector);
    let h1 = seq![7u8];
    let h2 = seq![7u8, 8u8];
    let h3 = seq![7u8, 8u8, 5u8];
    assert(h1.drop_last() =~= Seq::<u8>::empty());
    assert(h2.drop_last() =~= h1);
    assert(h3.drop_last() =~= h2);
    let s0 = gop_scan(Seq::<u8>::empty());
    let s1 = gop_scan(h1);
    let s2 = gop_scan(h2);
    let s3 = gop_scan(h3);
    assert(s1 == gop_step(s0, 7u8));
    assert(s1.state is Sps && s1.done == s0.done && s1.current == GopSummary {
        sps_before_idr: true,
        ..empty_gop()
    });
    assert(s2 == gop_step(s1, 8u8));
    assert(s2.state is Pps && s2.done == s0.done);
    assert(s3 == gop_step(s2, 5u8));
}

proof fn lemma_scan_of_sps_pps_idr_then_non_idr(n: nat)
    requires
        n <= usize::MAX,
    ensures
        gop_scan(seq![7u8, 8u8, 5u8] + Seq::new(n, |i: int| 1u8)) == (GopScan {
            done: seq![],
            current: GopSummary {
                sps_before_idr: true,
                pps_before_idr: true,
                idr_slices: 1,
                non_idr_slices: n as usize,
            },
            state: if n == 0 {
                GopState::Idr
            } else {
                GopState::NonIdr
            },
        }),
    decreases n,
{
    let h = seq![7u8, 8u8, 5u8] + Seq::new(n, |i: int| 1u8);
    if n == 0 {
        lemma_scan_of_sps_pps_idr();
        assert(h =~= seq![7u8, 8u8, 5u8]);
    } else {
        lemma_scan_of_sps_pps_idr_then_non_idr((n - 1) as nat);
        assert(1u8 & 0x1f == 1) by (bit_vector);
        assert(h.drop_last() =~= seq![7u8, 8u8, 5u8] + Seq::new((n - 1) as nat, |i: int| 1u8));
        assert(h.last() == 1u8);
    }
}

/// Law: an SPS, a PPS and an IDR slice followed by `n` non-IDR slices make exactly one GOP,
/// which counts one IDR slice and all `n` non-IDR slices.
pub proof fn lemma_one_gop_counts_every_non_idr_slice(n: nat)
    requires
        n <= usize::MAX,
    ensures
        gop_summaries(seq![7u8, 8u8, 5u8] + Seq::new(n, |i: int| 1u8)) == seq![
            GopSummary {
                sps_before_idr: true,
                pps_before_idr: true,
                idr_slices: 1,
                non_idr_slices: n as usize,
            },
        ],
{
    lemma_scan_of_sps_pps_idr_then_non_idr(n);
    assert(Seq::<GopSummary>::empty().push(
        GopSummary {
            sps_before_idr: true,
            pps_before_idr: true,
            idr_slices: 1,
            non_idr_slices: n as usize,
        },
    ) =~= seq![
        GopSummary {
            sps_before_idr: true,
            pps_before_idr: true,
            idr_slices: 1,
            non_idr_slices: n as usize,
        },
    ]);
}

proof fn lemma_scan_of_sps_pps_then_idr(n: nat)
    requires
        1 <= n <= usize::MAX,
    ensures
        gop_scan(seq![7u8, 8u8] + Seq::new(n, |i: int| 5u8)) == (GopScan {
            done: seq![],
            current: GopSummary {
                sps_before_idr: true,
                pps_before_idr: true,
                idr_slices: n as usize,
                non_idr_slices: 0,
            },
            state: GopState::Idr,
        }),
    decreases n,
{
    let h = seq![7u8, 8u8] + Seq::new(n, |i: int| 5u8);
    assert(5u8 & 0x1f == 5) by (bit_vector);
    if n == 1 {
        lemma_scan_of_sps_pps_idr();
        assert(h =~= seq![7u8, 8u8, 5u8]);
    } else {
        lemma_scan_of_sps_pps_then_idr((n - 1) as nat);
        assert(h.drop_last() =~= seq![7u8, 8u8] + Seq::new((n - 1) as nat, |i: int| 5u8));
        assert(h.last() == 5u8);
    }
}

/// Law: an SPS and a PPS followed by `n >= 1` IDR slices make exactly one GOP, which counts
/// all `n` IDR slices and no non-IDR slice.
pub proof fn lemma_one_gop_counts_every_idr_slice(n: nat)
    requires
        1 <= n <= usize::MAX,
    ensures
        gop_summaries(seq![7u8, 8u8] + Seq::new(n, |i: int| 5u8)) == seq![
            GopSummary {
                sps_before_idr: true,
                pps_before_idr: true,
                idr_slices: n as usize,
                non_idr_slices: 0,
            },
        ],
{
    lemma_scan_of_sps_pps_then_idr(n);
    assert(Seq::<GopSummary>::empty().push(
        GopSummary {
            sps_before_idr: true,
            pps_before_idr: true,
            idr_slices: n as usize,
            non_idr_slices: 0,
        },
    ) =~= seq![
        GopSummary {
            sps_before_idr: true,
            pps_before_idr: true,
            idr_slices: n as usize,
            non_idr_slices: 0,
        },
    ]);
}

/// Groups a sequence of NAL headers into GOP summaries.
pub fn summarize_gops(bytes: &[u8]) -> (res: Vec<GopSummary>)
    ensures
        res@ == gop_summaries(bytes@),
{
    let mut current = GopSummary::default();
    let mut state = GopState::Initial;
    let mut res: Vec<GopSummary> = Vec::new();
    let mut i: usize = 0;
    assert(bytes@.take(0) =~= Seq::<u8>::empty());
    while i < bytes.len()
        invariant
            i <= bytes.len(),
            gop_scan(bytes@.take(i as int)) == (GopScan { done: res@, current, state }),
        decreases bytes.len() - i,
    {
        let ghost prefix = bytes@.take(i as int);
        let ghost next = bytes@.take(i + 1);
        assert(next.drop_last() =~= prefix);
        proof {
            lemma_gop_scan_invariant(prefix);
        }
        let byte = bytes[i];
        assert(next.last() == byte);
        let nal_type = byte & 0x1f;
        if nal_type == 7 {
            match state {
                GopState::Initial => {
                    current.sps_before_idr = true;
                    state = GopState::Sps;
                },
                GopState::NonIdr => {
                    res.push(current);
                    current = GopSummary::default();
                    current.sps_before_idr = true;
                    state = GopState::Sps;
                },
                _ => {},
            }
        } else if nal_type == 8 {
            match state {
                GopState::Sps => {
                    current.pps_before_idr = true;
                    state = GopState::Pps;
                },
                GopState::NonIdr => {
                    res.push(current);
                    current = GopSummary::default();
                    current.sps_before_idr = false;
                    current.pps_before_idr = true;
                    state = GopState::Pps;
                },
                _ => {},
            }
        } else if nal_type == 5 {
            match state {
                GopState::Pps => {
                    current.idr_slices += 1;
                    state = GopState::Idr;
                },
                GopState::Idr => {
                    current.idr_slices += 1;
                },
                GopState::NonIdr => {
                    res.push(current);
                    current = GopSummary::default();
                    current.sps_before_idr = false;
                    current.pps_before_idr = false;
                    current.idr_slices += 1;
                    state = GopState::Idr;
                },
                _ => {},
            }
        } else if nal_type == 1 {
            match state {
                GopState::Idr => {
                    current.non_idr_slices += 1;
                    state = GopState::NonIdr;
                },
                GopState::NonIdr => {
                    current.non_idr_slices += 1;
                    state = GopState::NonIdr;
                },
                _ => {},
            }
        }
        i += 1;
    }
    assert(bytes@.take(i as int) =~= bytes@);
    res.push(current);
    res
}

/// The name of a common NAL unit type.
pub open spec fn nal_type_label(nal_type: u8) -> Seq<char> {
    if nal_type == 1 {
        "non-IDR slice"@
    } else if nal_type == 5 {
        "IDR slice"@
    } else if nal_type == 6 {
        "SEI"@
    } else if nal_type == 7 {
        "SPS"@
    } else if nal_type == 8 {
        "PPS"@
    } else {
        "unknown"@
    }
}

/// Names the common H.264 NAL unit types.
pub fn nal_type_name(nal_type: u8) -> (res: &'static str)
    ensures
        res@ == nal_type_label(nal_type),
{
    match nal_type {
        1 => "non-IDR slice",
        5 => "IDR slice",
        6 => "SEI",
        7 => "SPS",
        8 => "PPS",
        _ => "unknown",
    }
}

/// The lower-case hexadecimal digit of `n` (below 16).
pub open spec fn hex_digit(n: int) -> char {
    if n < 10 {
        (48 + n) as char
    } else {
        (87 + n) as char
    }
}

/// A byte as two lower-case hexadecimal digits.
pub open spec fn hex_byte(b: u8) -> Seq<char> {
    seq![hex_digit(b as int / 16), hex_digit(b as int % 16)]
}

/// Bytes as two-digit lower-case hexadecimal numbers separated by single spaces.
pub open spec fn hex_dump(s: Seq<u8>) -> Seq<char>
    decreases s.len(),
{
    if s.len() == 0 {
        seq![]
    } else if s.len() == 1 {
        hex_byte(s[0])
    } else {
        hex_dump(s.drop_last()) + seq![' '] + hex_byte(s.last())
    }
}

fn hex_digit_str(n: u8) -> (res: &'static str)
    requires
        n < 16,
    ensures
        res@ == seq![hex_digit(n as int)],
{
    match n {
        0 => {
            proof {
                reveal_strlit("0");
            }
            "0"
        },
        1 => {
            proof {
                reveal_strlit("1");
            }
            "1"
        },
        2 => {
            proof {
                reveal_strlit("2");
            }
            "2"
        },
        3 => {
            proof {
                reveal_strlit("3");
            }
            "3"
        },
        4 => {
            proof {
                reveal_strlit("4");
            }
            "4"
        },
        5 => {
            proof {
                reveal_strlit("5");
            }
            "5"
        },
        6 => {
            proof {
                reveal_strlit("6");
            }
            "6"
        },
        7 => {
            proof {
                reveal_strlit("7");
            }
            "7"
        },
        8 => {
            proof {
                reveal_strlit("8");
            }
            "8"
        },
        9 => {
            proof {
                reveal_strlit("9");
            }
            "9"
        },
        10 => {
            proof {
                reveal_strlit("a");
            }
            "a"
        },
        11 => {
            proof {
                reveal_strlit("b");
            }
            "b"
        },
        12 => {
            proof {
                reveal_strlit("c");
            }
            "c"
        },
        13 => {
            proof {
                reveal_strlit("d");
            }
            "d"
        },
        14 => {
            proof {
                reveal_strlit("e");
            }
            "e"
        },
        _ => {
            proof {
                reveal_strlit("f");
            }
            "f"
        },
    }
}

/// Formats bytes as lower-case hexadecimal pairs separated by spaces, e.g. `00 1f ab`.
pub fn format_hex(bytes: &[u8]) -> (res: String)
    ensures
        res@ == hex_dump(bytes@),
{
    let mut res = String::new();
    let mut i: usize = 0;
    while i < bytes.len()
        invariant
            i <= bytes.len(),
            res@ == hex_dump(bytes@.take(i as int)),
        decreases bytes.len() - i,
    {
        let byte = bytes[i];
        let ghost prefix = bytes@.take(i as int);
        let ghost next = bytes@.take(i + 1);
        assert(next.drop_last() =~= prefix);
        assert(next.last() == byte);
        if i > 0 {
            proof {
                reveal_strlit(" ");
            }
            res.append(" ");
        }
        assert(byte >> 4 == byte / 16 && byte & 0x0f == byte % 16) by (bit_vector);
        res.append(hex_digit_str(byte >> 4));
        res.append(hex_digit_str(byte & 0x0f));
        proof {
            if i == 0 {
                assert(prefix =~= Seq::<u8>::empty());
                assert(next.len() == 1);
                assert(res@ =~= hex_byte(byte));
            } else {
                assert(res@ =~= hex_dump(prefix) + seq![' '] + hex_byte(byte));
            }
        }
        i += 1;
    }
    assert(bytes@.take(i as int) =~= bytes@);
    res
}

/// Number of bytes that the inspector shows as a preview of a stream.
pub const PREVIEW_LEN: usize = 64;

/// The start of the stream shown as a preview: its first `PREVIEW_LEN` bytes, or all of it
/// when it is shorter.
pub fn inspection_preview(bytes: &[u8]) -> (res: &[u8])
    ensures
        res@ == bytes@.take(if bytes.len() < PREVIEW_LEN {
            bytes.len() as int
        } else {
            PREVIEW_LEN as int
        }),
{
    let preview_len = if bytes.len() < PREVIEW_LEN {
        bytes.len()
    } else {
        PREVIEW_LEN
    };
    vstd::slice::slice_subrange(bytes, 0, preview_len)
}

} // verus!
