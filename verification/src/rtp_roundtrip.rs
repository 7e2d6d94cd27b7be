//! What the receiver side gives back of what the sender side produced.
use crate::rtp_packetization::{
    depacketize_all, depacketize_step, fu_a_append, fu_a_collect, fu_a_fragment, fu_a_fragment_count, fu_a_nal_header,
    fu_end_flag, fu_header_of, fu_indicator_of, fu_start_flag, rtp_payloads, stap_a_units,
    DepacketizerState,
};
use vstd::prelude::*;

verus! {

/// Header bits of FU-A fragments as written by the packetizer and read by the receiver.
proof fn lemma_fu_bits(h: u8)
    ensures
        fu_indicator_of(h) & 0x1f == 28,
        fu_a_nal_header(fu_indicator_of(h), fu_header_of(h, true, false)) == h,
        fu_a_nal_header(fu_indicator_of(h), fu_header_of(h, false, false)) == h,
        fu_a_nal_header(fu_indicator_of(h), fu_header_of(h, false, true)) == h,
        fu_start_flag(fu_header_of(h, true, false)),
        !fu_end_flag(fu_header_of(h, true, false)),
        !fu_start_flag(fu_header_of(h, false, false)),
        !fu_end_flag(fu_header_of(h, false, false)),
        !fu_start_flag(fu_header_of(h, false, true)),
        fu_end_flag(fu_header_of(h, false, true)),
{
    assert(((h & 0xe0) | 28) & 0x1f == 28) by (bit_vector);
    assert(((h & 0xe0) | 28) & 0xe0 | ((0x80 | (h & 0x1f)) & 0x1f) == h) by (bit_vector);
    assert(((h & 0xe0) | 28) & 0xe0 | ((h & 0x1f) & 0x1f) == h) by (bit_vector);
    assert(((h & 0xe0) | 28) & 0xe0 | ((0x40 | (h & 0x1f)) & 0x1f) == h) by (bit_vector);
    assert((0x80 | (h & 0x1f)) & 0x80 == 0x80) by (bit_vector);
    assert((0x80 | (h & 0x1f)) & 0x40 != 0x40) by (bit_vector);
    assert((h & 0x1f) & 0x80 != 0x80) by (bit_vector);
    assert((h & 0x1f) & 0x40 != 0x40) by (bit_vector);
    assert((0x40 | (h & 0x1f)) & 0x80 != 0x80) by (bit_vector);
    assert((0x40 | (h & 0x1f)) & 0x40 == 0x40) by (bit_vector);
}

/// The fragment count `n` of a fragmented NAL unit: at least two fragments, and the
/// fragmented bytes end inside the `n`-th chunk.
proof fn lemma_count_bounds(len: int, mtu: int)
    requires
        mtu >= 3,
        len > mtu,
    ensures
        fu_a_fragment_count(len, mtu) >= 2,
        (fu_a_fragment_count(len, mtu) - 1) * (mtu - 2) < len - 1,
        len - 1 <= fu_a_fragment_count(len, mtu) * (mtu - 2),
{
    let c = mtu - 2;
    let p = len - 1;
    let n = fu_a_fragment_count(len, mtu);
    let r = (p + c - 1) % c;
    vstd::arithmetic::div_mod::lemma_fundamental_div_mod(p + c - 1, c);
    vstd::arithmetic::div_mod::lemma_mod_bound(p + c - 1, c);
    assert(p + c - 1 == c * n + r);
    assert(n * c >= p && (n - 1) * c < p) by (nonlinear_arith)
        requires
            p + c - 1 == c * n + r,
            0 <= r < c,
    ;
    assert(n >= 2) by (nonlinear_arith)
        requires
            n * c >= p,
            p > c,
            c > 0,
    ;
}

/// Fragment `k` of a fragmented NAL unit, piece by piece.
proof fn lemma_fragment_shape(nal: Seq<u8>, mtu: int, k: int)
    requires
        mtu >= 3,
        nal.len() > mtu,
        0 <= k < fu_a_fragment_count(nal.len() as int, mtu),
    ensures
        ({
            let c = mtu - 2;
            let n = fu_a_fragment_count(nal.len() as int, mtu);
            let f = rtp_payloads(nal, mtu)[k];
            let end = if k + 1 == n {
                nal.len() as int
            } else {
                1 + (k + 1) * c
            };
            &&& rtp_payloads(nal, mtu).len() == n
            &&& 1 <= 1 + k * c < end <= nal.len()
            &&& f.len() >= 2
            &&& f[0] == fu_indicator_of(nal[0])
            &&& f[1] == fu_header_of(nal[0], k == 0, k + 1 == n)
            &&& f.subrange(2, f.len() as int) == nal.subrange(1 + k * c, end)
        }),
{
    let c = mtu - 2;
    let n = fu_a_fragment_count(nal.len() as int, mtu);
    lemma_count_bounds(nal.len() as int, mtu);
    assert(k * c <= (n - 1) * c) by (nonlinear_arith)
        requires
            k <= n - 1,
            c > 0,
    ;
    assert(k * c >= 0) by (nonlinear_arith)
        requires
            k >= 0,
            c > 0,
    ;
    if k + 1 < n {
        assert((k + 1) * c <= (n - 1) * c) by (nonlinear_arith)
            requires
                k + 1 <= n - 1,
                c > 0,
        ;
        assert((k + 1) * c == k * c + c) by (nonlinear_arith);
    }
    let f = rtp_payloads(nal, mtu)[k];
    let end = if k + 1 == n {
        nal.len() as int
    } else {
        1 + (k + 1) * c
    };
    assert(f == fu_a_fragment(nal, mtu, k));
    assert(f.subrange(2, f.len() as int) =~= nal.subrange(1 + k * c, end));
}

/// After the first `j` fragments (but not all of them), the receiver has collected the
/// first `1 + j * (mtu - 2)` bytes of the NAL unit and made nothing ready.
proof fn lemma_depacketize_fragments_prefix(state: DepacketizerState, nal: Seq<u8>, mtu: int, j: int)
    requires
        mtu >= 3,
        nal.len() > mtu,
        state.partial.len() == 0,
        1 <= j < fu_a_fragment_count(nal.len() as int, mtu),
    ensures
        depacketize_all(state, rtp_payloads(nal, mtu).take(j)) == (DepacketizerState {
            ready: state.ready,
            partial: nal.subrange(0, 1 + j * (mtu - 2)),
        }),
    decreases j,
{
    let c = mtu - 2;
    let n = fu_a_fragment_count(nal.len() as int, mtu);
    let ps = rtp_payloads(nal, mtu);
    let k = j - 1;
    lemma_fragment_shape(nal, mtu, k);
    lemma_fu_bits(nal[0]);
    assert(ps.take(j).drop_last() =~= ps.take(k));
    assert(ps.take(j).last() == ps[k]);
    let f = ps[k];
    assert((k + 1) * c == k * c + c) by (nonlinear_arith);
    let before = depacketize_all(state, ps.take(k));
    if j == 1 {
        assert(ps.take(0) =~= Seq::<Seq<u8>>::empty());
        assert(k * c == 0) by (nonlinear_arith)
            requires
                k == 0,
        ;
        assert(before == state);
        assert(fu_a_append(state.partial, f) =~= nal.subrange(0, 1 + j * c));
    } else {
        lemma_depacketize_fragments_prefix(state, nal, mtu, k);
        assert(fu_a_append(nal.subrange(0, 1 + k * c), f) =~= nal.subrange(0, 1 + j * c));
    }
    assert(before.partial =~= nal.subrange(0, 1 + k * c) || j == 1);
    assert(f.len() > 0);
    assert(f[0] & 0x1f == 28);
    assert(!fu_end_flag(f[1]));
    assert(depacketize_all(state, ps.take(j)) == depacketize_step(before, f));
}

/// Law: a NAL unit sent through `packetize_nal_as_rtp` comes out of the depacketizer whole,
/// appended to what was ready before. A unit that fits into one packet must be non-empty and
/// of a single-NAL type (1 to 23); a fragmented unit needs a receiver that is not in the
/// middle of another fragmented unit.
pub proof fn lemma_depacketize_packetized_nal(state: DepacketizerState, nal: Seq<u8>, mtu: usize)
    requires
        nal.len() > mtu ==> mtu >= 3,
        nal.len() > mtu ==> state.partial.len() == 0,
        nal.len() <= mtu ==> nal.len() > 0 && 1 <= nal[0] & 0x1f <= 23,
    ensures
        depacketize_all(state, rtp_payloads(nal, mtu as int)) == (DepacketizerState {
            ready: state.ready.push(nal),
            partial: state.partial,
        }),
{
    let mtu = mtu as int;
    let ps = rtp_payloads(nal, mtu);
    if nal.len() <= mtu {
        assert(ps.drop_last() =~= Seq::<Seq<u8>>::empty());
        assert(ps.last() == nal);
        assert(depacketize_all(state, ps.drop_last()) == state);
        assert(depacketize_all(state, ps) == depacketize_step(state, nal));
    } else {
        let c = mtu - 2;
        let n = fu_a_fragment_count(nal.len() as int, mtu);
        let k = n - 1;
        lemma_count_bounds(nal.len() as int, mtu);
        lemma_fragment_shape(nal, mtu, k);
        lemma_fu_bits(nal[0]);
        lemma_depacketize_fragments_prefix(state, nal, mtu, k);
        assert(ps.take(k) =~= ps.drop_last());
        let f = ps[k];
        assert(fu_a_append(nal.subrange(0, 1 + k * c), f) =~= nal);
        assert(f.len() > 0);
        assert(f[0] & 0x1f == 28);
        assert(fu_end_flag(f[1]));
        assert(ps.last() == f);
        assert(depacketize_all(state, ps) == depacketize_step(depacketize_all(state, ps.take(k)), f));
        assert(state.partial =~= seq![]);
    }
}

/// Collecting fragments `k..` after the first `k` have been collected gives the whole unit.
proof fn lemma_collect_fragments_suffix(nal: Seq<u8>, mtu: int, k: int)
    requires
        mtu >= 3,
        nal.len() > mtu,
        0 <= k < fu_a_fragment_count(nal.len() as int, mtu),
    ensures
        fu_a_collect(
            if k == 0 {
                seq![]
            } else {
                nal.subrange(0, 1 + k * (mtu - 2))
            },
            rtp_payloads(nal, mtu).skip(k),
        ) == nal,
    decreases fu_a_fragment_count(nal.len() as int, mtu) - k,
{
    let c = mtu - 2;
    let n = fu_a_fragment_count(nal.len() as int, mtu);
    let ps = rtp_payloads(nal, mtu);
    let acc = if k == 0 {
        seq![]
    } else {
        nal.subrange(0, 1 + k * c)
    };
    lemma_fragment_shape(nal, mtu, k);
    lemma_fu_bits(nal[0]);
    let f = ps[k];
    let rest = ps.skip(k);
    assert(rest[0] == f);
    assert(rest.len() > 0);
    assert(f.len() >= 2 && f[0] & 0x1f == 28);
    assert((k + 1) * c == k * c + c) by (nonlinear_arith);
    if k == 0 {
        assert(k * c == 0) by (nonlinear_arith)
            requires
                k == 0,
        ;
    }
    let next = fu_a_append(acc, f);
    if k + 1 == n {
        lemma_count_bounds(nal.len() as int, mtu);
        assert(fu_end_flag(f[1]));
        assert(fu_a_collect(acc, rest) == next);
        assert(next =~= nal);
    } else {
        assert(!fu_end_flag(f[1]));
        assert(fu_a_collect(acc, rest) == fu_a_collect(next, rest.drop_first()));
        assert(next =~= nal.subrange(0, 1 + (k + 1) * c));
        assert(rest.drop_first() =~= ps.skip(k + 1));
        lemma_collect_fragments_suffix(nal, mtu, k + 1);
    }
}

/// Law: `reconstruct_fu_a_payloads` rebuilds a NAL unit from the FU-A payloads that
/// `packetize_nal_as_rtp` cut it into.
pub proof fn lemma_reconstruct_packetized_nal(nal: Seq<u8>, mtu: usize)
    requires
        nal.len() > mtu,
        mtu >= 3,
    ensures
        fu_a_collect(seq![], rtp_payloads(nal, mtu as int)) == nal,
{
    lemma_count_bounds(nal.len() as int, mtu as int);
    lemma_collect_fragments_suffix(nal, mtu as int, 0);
    assert(rtp_payloads(nal, mtu as int).skip(0) =~= rtp_payloads(nal, mtu as int));
}

/// The RTP payloads of a run of NAL units, packetized one after the other.
pub open spec fn rtp_payloads_of_all(nals: Seq<Seq<u8>>, mtu: int) -> Seq<Seq<u8>>
    decreases nals.len(),
{
    if nals.len() == 0 {
        seq![]
    } else {
        rtp_payloads_of_all(nals.drop_last(), mtu) + rtp_payloads(nals.last(), mtu)
    }
}

/// Whether a NAL unit survives packetization and depacketization for the given MTU.
pub open spec fn survives_rtp(nal: Seq<u8>, mtu: int) -> bool {
    &&& nal.len() > mtu ==> mtu >= 3
    &&& nal.len() <= mtu ==> nal.len() > 0 && 1 <= nal[0] & 0x1f <= 23
}

/// Feeding two runs of payloads is feeding the first, then the second.
pub proof fn lemma_depacketize_all_append(state: DepacketizerState, a: Seq<Seq<u8>>, b: Seq<Seq<u8>>)
    ensures
        depacketize_all(state, a + b) == depacketize_all(depacketize_all(state, a), b),
    decreases b.len(),
{
    if b.len() == 0 {
        assert(a + b =~= a);
    } else {
        assert((a + b).drop_last() =~= a + b.drop_last());
        assert((a + b).last() == b.last());
        lemma_depacketize_all_append(state, a, b.drop_last());
    }
}

/// Law: a run of NAL units packetized one after the other comes out of a depacketizer that
/// is not in the middle of a fragmented unit as the same run, in order.
pub proof fn lemma_depacketize_packetized_nals(state: DepacketizerState, nals: Seq<Seq<u8>>, mtu: usize)
    requires
        state.partial.len() == 0,
        forall|i: int| 0 <= i < nals.len() ==> survives_rtp(#[trigger] nals[i], mtu as int),
    ensures
        depacketize_all(state, rtp_payloads_of_all(nals, mtu as int)) == (DepacketizerState {
            ready: state.ready + nals,
            partial: state.partial,
        }),
    decreases nals.len(),
{
    if nals.len() == 0 {
        assert(state.ready + nals =~= state.ready);
    } else {
        let init = nals.drop_last();
        assert forall|i: int| 0 <= i < init.len() implies survives_rtp(#[trigger] init[i], mtu as int) by {
            assert(init[i] == nals[i]);
        }
        lemma_depacketize_packetized_nals(state, init, mtu);
        lemma_depacketize_all_append(
            state,
            rtp_payloads_of_all(init, mtu as int),
            rtp_payloads(nals.last(), mtu as int),
        );
        assert(survives_rtp(nals[nals.len() - 1], mtu as int));
        let mid = DepacketizerState { ready: state.ready + init, partial: state.partial };
        lemma_depacketize_packetized_nal(mid, nals.last(), mtu);
        assert((state.ready + init).push(nals.last()) =~= state.ready + nals);
    }
}

/// Law: every RTP payload that `packetize_nal_as_rtp` produces fits into the MTU.
pub proof fn lemma_rtp_payloads_fit_mtu(nal: Seq<u8>, mtu: usize)
    requires
        nal.len() > mtu ==> mtu >= 3,
    ensures
        forall|k: int|
            0 <= k < rtp_payloads(nal, mtu as int).len() ==> (#[trigger] rtp_payloads(
                nal,
                mtu as int,
            )[k]).len() <= mtu,
{
    let m = mtu as int;
    assert forall|k: int| 0 <= k < rtp_payloads(nal, m).len() implies (#[trigger] rtp_payloads(
        nal,
        m,
    )[k]).len() <= mtu by {
        if nal.len() > mtu {
            lemma_fragment_shape(nal, m, k);
            let c = m - 2;
            let n = fu_a_fragment_count(nal.len() as int, m);
            let f = rtp_payloads(nal, m)[k];
            assert(f.subrange(2, f.len() as int).len() == f.len() - 2);
            if k + 1 == n {
                lemma_count_bounds(nal.len() as int, m);
                assert(nal.len() - (1 + k * c) <= c) by (nonlinear_arith)
                    requires
                        k == n - 1,
                        nal.len() - 1 <= n * c,
                ;
            } else {
                assert((k + 1) * c - k * c == c) by (nonlinear_arith);
            }
        }
    }
}

/// A length as a big-endian 16-bit field: `[len / 256, len % 256]`.
pub open spec fn be16(len: nat) -> Seq<u8> {
    seq![(len / 256) as u8, (len % 256) as u8]
}

/// The aggregation part of a STAP-A payload built from `units`: each unit behind its length
/// as a big-endian 16-bit field.
pub open spec fn stap_a_body(units: Seq<Seq<u8>>) -> Seq<u8>
    decreases units.len(),
{
    if units.len() == 0 {
        seq![]
    } else {
        be16(units[0].len()) + units[0] + stap_a_body(units.drop_first())
    }
}

proof fn lemma_stap_a_units_of_body(prefix: Seq<u8>, units: Seq<Seq<u8>>)
    requires
        forall|i: int| 0 <= i < units.len() ==> (#[trigger] units[i]).len() < 65536,
    ensures
        stap_a_units(prefix + stap_a_body(units), prefix.len() as int) == units,
    decreases units.len(),
{
    let b = prefix + stap_a_body(units);
    let k = prefix.len() as int;
    if units.len() == 0 {
        assert(b =~= prefix);
        assert(stap_a_units(b, k) =~= units);
    } else {
        let u = units[0];
        let rest = units.drop_first();
        let l = u.len();
        assert(l < 65536);
        let next = prefix + be16(l) + u;
        assert(b =~= next + stap_a_body(rest));
        assert(b[k] == (l / 256) as u8);
        assert(b[k + 1] == (l % 256) as u8);
        assert((l / 256) as u8 as int == l / 256);
        assert((l % 256) as u8 as int == l % 256);
        assert(b[k] as int * 256 + b[k + 1] as int == l);
        assert(b.subrange(k + 2, k + 2 + l) =~= u);
        assert forall|i: int| 0 <= i < rest.len() implies (#[trigger] rest[i]).len() < 65536 by {
            assert(rest[i] == units[i + 1]);
        }
        lemma_stap_a_units_of_body(next, rest);
        assert(next.len() == k + 2 + l);
        assert(stap_a_units(b, k) == seq![u] + stap_a_units(b, k + 2 + l));
        assert(seq![u] + rest =~= units);
    }
}

/// Law: a STAP-A payload `[0x78]`, then for each NAL unit its length as a big-endian 16-bit
/// field (`[len / 256, len % 256]`) and its bytes, makes exactly those units ready, in order,
/// and leaves the collected fragment bytes alone (each unit shorter than 65536 bytes).
pub proof fn lemma_depacketize_stap_a(state: DepacketizerState, units: Seq<Seq<u8>>)
    requires
        forall|i: int| 0 <= i < units.len() ==> (#[trigger] units[i]).len() < 65536,
    ensures
        depacketize_step(state, seq![0x78u8] + stap_a_body(units)) == (DepacketizerState {
            ready: state.ready + units,
            partial: state.partial,
        }),
{
    let payload = seq![0x78u8] + stap_a_body(units);
    lemma_stap_a_units_of_body(seq![0x78u8], units);
    assert(payload[0] == 0x78u8);
    assert(0x78u8 & 0x1f == 24) by (bit_vector);
}

} // verus!
