use std::collections::VecDeque;
use vstd::arithmetic::div_mod::lemma_fundamental_div_mod_converse_div;
use vstd::prelude::*;

verus! {

/// One RTP packet carrying (part of) an H.264 payload.
#[derive(Debug, PartialEq, Eq)]
pub struct RtpPacket {
    pub sequence_number: u16,
    pub timestamp: u32,
    pub marker: bool,
    pub payload_type: u8,
    pub ssrc: u32,
    pub payload: Vec<u8>,
}

/// The FU indicator: the F and NRI bits of the fragmented unit's header, with type 28.
pub open spec fn fu_indicator_of(header: u8) -> u8 {
    (header & 0xe0) | 28
}

/// The FU header: start and end flags plus the type of the fragmented NAL unit.
pub open spec fn fu_header_of(header: u8, start: bool, end: bool) -> u8 {
    if start {
        0x80 | (header & 0x1f)
    } else if end {
        0x40 | (header & 0x1f)
    } else {
        header & 0x1f
    }
}

/// Number of FU-A fragments needed for a NAL unit of `nal_len` bytes: the bytes after the
/// header are cut into chunks of `mtu - 2` bytes, the last one possibly shorter.
pub open spec fn fu_a_fragment_count(nal_len: int, mtu: int) -> int {
    (nal_len - 1 + (mtu - 2) - 1) / (mtu - 2)
}

/// The payload of the `k`-th FU-A fragment of `nal`.
pub open spec fn fu_a_fragment(nal: Seq<u8>, mtu: int, k: int) -> Seq<u8> {
    let chunk = mtu - 2;
    let last = k + 1 == fu_a_fragment_count(nal.len() as int, mtu);
    let start = 1 + k * chunk;
    let end = if last {
        nal.len() as int
    } else {
        1 + (k + 1) * chunk
    };
    seq![fu_indicator_of(nal[0]), fu_header_of(nal[0], k == 0, last)] + nal.subrange(start, end)
}

/// The RTP payloads that carry `nal` for the given MTU: the NAL unit itself when it fits,
/// FU-A fragments otherwise.
pub open spec fn rtp_payloads(nal: Seq<u8>, mtu: int) -> Seq<Seq<u8>> {
    if nal.len() <= mtu {
        seq![nal]
    } else {
        Seq::new(
            fu_a_fragment_count(nal.len() as int, mtu) as nat,
            |k: int| fu_a_fragment(nal, mtu, k),
        )
    }
}

/// Facts about the fragment count: for `k` fragments starting before the end of the
/// fragmented bytes, `k` is below the count, and it is the last one exactly when the
/// remaining bytes fit into one chunk.
proof fn lemma_fragment_count(payload_len: int, chunk: int, k: int)
    requires
        chunk > 0,
        k >= 0,
        k * chunk < payload_len,
    ensures
        k < (payload_len + chunk - 1) / chunk,
        payload_len <= (k + 1) * chunk <==> (payload_len + chunk - 1) / chunk == k + 1,
{
    let n = (payload_len + chunk - 1) / chunk;
    let r = (payload_len + chunk - 1) % chunk;
    vstd::arithmetic::div_mod::lemma_fundamental_div_mod(payload_len + chunk - 1, chunk);
    assert(0 <= r < chunk) by {
        vstd::arithmetic::div_mod::lemma_mod_bound(payload_len + chunk - 1, chunk);
    }
    assert(payload_len + chunk - 1 == chunk * n + r);
    assert(n * chunk >= payload_len) by (nonlinear_arith)
        requires
            payload_len + chunk - 1 == chunk * n + r,
            r < chunk,
    ;
    assert(k < n) by (nonlinear_arith)
        requires
            k * chunk < payload_len,
            n * chunk >= payload_len,
            chunk > 0,
    ;
    if payload_len <= (k + 1) * chunk {
        let r2 = payload_len - 1 - k * chunk;
        assert(payload_len + chunk - 1 == (k + 1) * chunk + r2) by (nonlinear_arith)
            requires
                r2 == payload_len - 1 - k * chunk,
        ;
        lemma_fundamental_div_mod_converse_div(payload_len + chunk - 1, chunk, k + 1, r2);
    }
    if n == k + 1 {
        assert(payload_len <= (k + 1) * chunk);
    }
}

/// Packetizes one NAL unit as RTP: a single packet when it fits into `mtu` bytes, FU-A
/// fragments otherwise. Sequence numbers count up from `sequence_number`; only the last
/// packet carries `marker`.
pub fn packetize_nal_as_rtp(
    nal: &[u8],
    mtu: usize,
    sequence_number: u16,
    timestamp: u32,
    payload_type: u8,
    ssrc: u32,
    marker: bool,
) -> (res: Vec<RtpPacket>)
    requires
        nal.len() > mtu ==> mtu >= 3,
        nal.len() > mtu ==> sequence_number + fu_a_fragment_count(nal.len() as int, mtu as int)
            - 1 <= u16::MAX,
    ensures
        res.len() == rtp_payloads(nal@, mtu as int).len(),
        forall|k: int|
            #![trigger res[k]]
            0 <= k < res.len() ==> {
                &&& res[k].payload@ == rtp_payloads(nal@, mtu as int)[k]
                &&& res[k].sequence_number == sequence_number + k
                &&& res[k].timestamp == timestamp
                &&& res[k].payload_type == payload_type
                &&& res[k].ssrc == ssrc
                &&& res[k].marker == (marker && k == res.len() - 1)
            },
{
    if nal.len() <= mtu {
        let mut res: Vec<RtpPacket> = Vec::new();
        res.push(
            RtpPacket {
                sequence_number,
                timestamp,
                marker,
                payload_type,
                ssrc,
                payload: vstd::slice::slice_to_vec(nal),
            },
        );
        return res;
    }
    let ghost first_seq = sequence_number;
    let ghost len = nal@.len() as int;
    let ghost count = fu_a_fragment_count(len, mtu as int);
    let mut res: Vec<RtpPacket> = Vec::new();
    let mut sequence_number = sequence_number;
    let nal_header = nal[0];
    let mut index: usize = 1;
    let chunk_size = mtu - 2;
    assert(count == (len - 1 + chunk_size - 1) / (chunk_size as int));
    assert(0 * chunk_size == 0);
    proof {
        lemma_fragment_count(len - 1, chunk_size as int, 0);
    }
    while index < nal.len()
        invariant
            mtu >= 3,
            chunk_size == mtu - 2,
            len == nal@.len(),
            len > mtu,
            nal_header == nal@[0],
            count == fu_a_fragment_count(len, mtu as int),
            count == (len - 1 + chunk_size - 1) / (chunk_size as int),
            first_seq + count - 1 <= u16::MAX,
            1 <= index <= len,
            index < len ==> index == 1 + res.len() * chunk_size,
            index < len ==> res.len() < count,
            index < len ==> sequence_number == first_seq + res.len(),
            index == len ==> res.len() == count,
            forall|j: int|
                #![trigger res[j]]
                0 <= j < res.len() ==> {
                    &&& res[j].payload@ == fu_a_fragment(nal@, mtu as int, j)
                    &&& res[j].sequence_number == first_seq + j
                    &&& res[j].timestamp == timestamp
                    &&& res[j].payload_type == payload_type
                    &&& res[j].ssrc == ssrc
                    &&& res[j].marker == (marker && j == count - 1)
                },
        decreases len - index,
    {
        let ghost k = res.len() as int;
        proof {
            lemma_fragment_count(len - 1, chunk_size as int, k);
        }
        let fu_indicator = (nal_header & 0xe0) | 28;
        if index == 1 {
            assert(k == 0) by (nonlinear_arith)
                requires
                    index == 1 + k * chunk_size,
                    chunk_size > 0,
                    k >= 0,
                    index == 1,
            ;
            assert(0 < (k + 1) * chunk_size < len - 1) by (nonlinear_arith)
                requires
                    k == 0,
                    chunk_size + 2 == mtu,
                    mtu < len,
                    chunk_size > 0,
            ;
            let fu_header = 0x80 | nal_header & 0x1f;
            let mut payload: Vec<u8> = Vec::new();
            payload.push(fu_indicator);
            payload.push(fu_header);
            payload.extend_from_slice(&nal[index..index + chunk_size]);
            let packet = RtpPacket {
                sequence_number,
                timestamp,
                marker: false,
                payload_type,
                ssrc,
                payload,
            };
            assert(k * chunk_size == 0 && (k + 1) * chunk_size == chunk_size) by (nonlinear_arith)
                requires
                    k == 0,
            ;
            assert(packet.payload@ =~= fu_a_fragment(nal@, mtu as int, k));
            res.push(packet);
            sequence_number += 1;
            index += chunk_size;
        } else if chunk_size >= nal.len() - index {
            assert(len - 1 <= (k + 1) * chunk_size) by (nonlinear_arith)
                requires
                    index == 1 + k * chunk_size,
                    chunk_size >= len - index,
            ;
            assert(count == k + 1);
            let fu_header = 0x40 | nal_header & 0x1f;
            let mut payload: Vec<u8> = Vec::new();
            payload.push(fu_indicator);
            payload.push(fu_header);
            payload.extend_from_slice(&nal[index..nal.len()]);
            let packet = RtpPacket { sequence_number, timestamp, marker, payload_type, ssrc, payload };
            assert(k != 0);
            assert(packet.payload@ =~= fu_a_fragment(nal@, mtu as int, k));
            res.push(packet);
            index = nal.len();
        } else {
            assert(k != 0);
            assert(len - 1 > (k + 1) * chunk_size) by (nonlinear_arith)
                requires
                    index == 1 + k * chunk_size,
                    chunk_size < len - index,
            ;
            assert(count != k + 1);
            assert(index + chunk_size == 1 + (k + 1) * chunk_size) by (nonlinear_arith)
                requires
                    index == 1 + k * chunk_size,
            ;
            let fu_header = nal_header & 0x1f;
            let mut payload: Vec<u8> = Vec::new();
            payload.push(fu_indicator);
            payload.push(fu_header);
            payload.extend_from_slice(&nal[index..index + chunk_size]);
            let packet = RtpPacket {
                sequence_number,
                timestamp,
                marker: false,
                payload_type,
                ssrc,
                payload,
            };
            assert(packet.payload@ =~= fu_a_fragment(nal@, mtu as int, k));
            res.push(packet);
            index += chunk_size;
            sequence_number += 1;
        }
    }
    res
}

/// What a depacketizer holds between packets: the NAL units ready to be taken out, oldest
/// first, and the bytes collected so far of a NAL unit that arrives in FU-A fragments.
pub struct DepacketizerState {
    pub ready: Seq<Seq<u8>>,
    pub partial: Seq<u8>,
}

/// Value of the big-endian 16-bit length field at `index`.
pub open spec fn be_u16_at(payload: Seq<u8>, index: int) -> int {
    payload[index] as int * 256 + payload[index + 1] as int
}

/// The NAL units aggregated in a STAP-A payload from offset `index` on: each is a 16-bit
/// big-endian size followed by that many bytes. A unit whose size runs past the end of the
/// payload is dropped, and so is everything after it.
pub open spec fn stap_a_units(payload: Seq<u8>, index: int) -> Seq<Seq<u8>>
    decreases payload.len() - index,
{
    if index < 0 || index + 2 > payload.len() {
        seq![]
    } else {
        let start = index + 2;
        let size = be_u16_at(payload, index);
        if start + size <= payload.len() {
            seq![payload.subrange(start, start + size)] + stap_a_units(payload, start + size)
        } else {
            seq![]
        }
    }
}

/// The NAL header carried by an FU-A fragment: F and NRI from the indicator, the type from
/// the FU header.
pub open spec fn fu_a_nal_header(fu_indicator: u8, fu_header: u8) -> u8 {
    (fu_indicator & 0xe0) | (fu_header & 0x1f)
}

/// Whether an FU header has its start flag set.
pub open spec fn fu_start_flag(fu_header: u8) -> bool {
    fu_header & 0x80 == 0x80
}

/// Whether an FU header has its end flag set.
pub open spec fn fu_end_flag(fu_header: u8) -> bool {
    fu_header & 0x40 == 0x40
}

/// The partial NAL unit after adding one FU-A fragment (of at least two bytes): the
/// reconstructed header when the fragment starts a unit, then the fragment's data.
pub open spec fn fu_a_append(partial: Seq<u8>, fragment: Seq<u8>) -> Seq<u8> {
    let with_header = if fu_start_flag(fragment[1]) {
        partial.push(fu_a_nal_header(fragment[0], fragment[1]))
    } else {
        partial
    };
    with_header + fragment.subrange(2, fragment.len() as int)
}

/// Effect of one RTP payload on a depacketizer: a single NAL unit (type 1 to 23) is ready
/// as it is; a STAP-A (type 24) makes each aggregated unit ready; an FU-A (type 28) of at
/// least two bytes is collected, and the collected unit is ready once its end flag is seen.
/// Empty payloads and all other types leave the state as it was.
pub open spec fn depacketize_step(state: DepacketizerState, payload: Seq<u8>) -> DepacketizerState {
    if payload.len() == 0 {
        state
    } else {
        let t = payload[0] & 0x1f;
        if 1 <= t <= 23 {
            DepacketizerState { ready: state.ready.push(payload), partial: state.partial }
        } else if t == 24 {
            DepacketizerState {
                ready: state.ready + stap_a_units(payload, 1),
                partial: state.partial,
            }
        } else if t == 28 && payload.len() >= 2 {
            let collected = fu_a_append(state.partial, payload);
            if fu_end_flag(payload[1]) {
                DepacketizerState { ready: state.ready.push(collected), partial: seq![] }
            } else {
                DepacketizerState { ready: state.ready, partial: collected }
            }
        } else {
            state
        }
    }
}

/// Effect of a sequence of RTP payloads, taken in order.
pub open spec fn depacketize_all(state: DepacketizerState, payloads: Seq<Seq<u8>>) -> DepacketizerState
    decreases payloads.len(),
{
    if payloads.len() == 0 {
        state
    } else {
        depacketize_step(depacketize_all(state, payloads.drop_last()), payloads.last())
    }
}

/// The payload bytes of each packet.
pub open spec fn packet_payloads(packets: Seq<RtpPacket>) -> Seq<Seq<u8>> {
    packets.map_values(|p: RtpPacket| p.payload@)
}

/// The state of a depacketizer that has seen no packet.
pub open spec fn empty_depacketizer_state() -> DepacketizerState {
    DepacketizerState { ready: seq![], partial: seq![] }
}

/// Receiver side of H.264 over RTP: turns RTP packets back into NAL units.
pub struct RtpDepacketizer {
    rtp_queue: VecDeque<RtpPacket>,
    nal_queue: VecDeque<Vec<u8>>,
    curr_nal: Vec<u8>,
}

impl View for RtpDepacketizer {
    type V = DepacketizerState;

    closed spec fn view(&self) -> DepacketizerState {
        DepacketizerState {
            ready: self.nal_queue@.map_values(|v: Vec<u8>| v@),
            partial: self.curr_nal@,
        }
    }
}

impl RtpDepacketizer {
    /// Holds between calls: no packet waits to be processed.
    pub closed spec fn wf(&self) -> bool {
        self.rtp_queue@.len() == 0
    }

    /// A depacketizer with nothing ready and nothing collected.
    pub fn new() -> (res: Self)
        ensures
            res.wf(),
            res@ == empty_depacketizer_state(),
    {
        let res = Self { rtp_queue: VecDeque::new(), nal_queue: VecDeque::new(), curr_nal: Vec::new() };
        assert(res@.ready =~= Seq::<Seq<u8>>::empty());
        res
    }

    /// Feeds one RTP packet in; the NAL units it completes become ready.
    pub fn push_in(&mut self, packet: RtpPacket)
        requires
            old(self).wf(),
        ensures
            final(self).wf(),
            final(self)@ == depacketize_step(old(self)@, packet.payload@),
    {
        let ghost payload = packet.payload@;
        self.rtp_queue.push_back(packet);
        assert(packet_payloads(self.rtp_queue@) =~= seq![payload]);
        let ghost before = self@;
        self.process();
        assert(seq![payload].drop_last() =~= Seq::<Seq<u8>>::empty());
        assert(depacketize_all(before, seq![payload]) == depacketize_step(
            depacketize_all(before, Seq::<Seq<u8>>::empty()),
            payload,
        ));
    }

    /// Takes out the oldest ready NAL unit, if any.
    pub fn pop_out(&mut self) -> (res: Option<Vec<u8>>)
        requires
            old(self).wf(),
        ensures
            final(self).wf(),
            old(self)@.ready.len() == 0 ==> res is None && final(self)@ == old(self)@,
            old(self)@.ready.len() > 0 ==> res is Some && res->0@ == old(self)@.ready[0]
                && final(self)@ == (DepacketizerState {
                ready: old(self)@.ready.drop_first(),
                partial: old(self)@.partial,
            }),
    {
        let res = self.nal_queue.pop_front();
        proof {
            if res is Some {
                assert(self@.ready =~= old(self)@.ready.drop_first());
            }
        }
        res
    }

    /// Processes every queued packet in order.
    fn process(&mut self)
        ensures
            final(self).rtp_queue@.len() == 0,
            final(self)@ == depacketize_all(old(self)@, packet_payloads(old(self).rtp_queue@)),
    {
        let ghost start = self@;
        let ghost payloads = packet_payloads(self.rtp_queue@);
        let ghost mut done: int = 0;
        loop
            invariant
                0 <= done <= payloads.len(),
                packet_payloads(self.rtp_queue@) == payloads.skip(done),
                self@ == depacketize_all(start, payloads.take(done)),
            ensures
                self.rtp_queue@.len() == 0,
                self@ == depacketize_all(start, payloads),
            decreases self.rtp_queue@.len(),
        {
            let ghost queue = self.rtp_queue@;
            assert(packet_payloads(queue).len() == queue.len());
            match self.rtp_queue.pop_front() {
                Some(rtp) => {
                    assert(packet_payloads(queue)[0] == rtp.payload@);
                    assert(payloads.skip(done)[0] == payloads[done]);
                    assert(rtp.payload@ == payloads[done]);
                    self.handle_payload(rtp.payload);
                    proof {
                        assert(payloads.take(done + 1).drop_last() =~= payloads.take(done));
                        assert(packet_payloads(self.rtp_queue@) =~= packet_payloads(queue).skip(1));
                        assert(payloads.skip(done).skip(1) =~= payloads.skip(done + 1));
                        done = done + 1;
                    }
                },
                None => {
                    assert(payloads.skip(done).len() == 0);
                    assert(payloads.take(done) =~= payloads);
                    break ;
                },
            }
        }
    }

    /// Applies one RTP payload to the ready queue and the collected fragment bytes.
    fn handle_payload(&mut self, payload: Vec<u8>)
        ensures
            final(self).rtp_queue == old(self).rtp_queue,
            final(self)@ == depacketize_step(old(self)@, payload@),
    {
        if payload.len() == 0 {
            return ;
        }
        let first_byte = payload[0];
        let rtp_type = first_byte & 0x1f;
        assert(rtp_type == payload@[0] & 0x1f);
        if 1 <= rtp_type && rtp_type <= 23 {
            // Single NAL unit.
            let ghost old_ready = self@.ready;
            self.nal_queue.push_back(payload);
            assert(self@.ready =~= old_ready.push(payload@));
        } else if rtp_type == 24 {
            // STAP-A.
            let ghost old_ready = self@.ready;
            let ghost p = payload@;
            let len = payload.len();
            let mut index: usize = 1;
            while len - index >= 2
                invariant
                    len == payload.len(),
                    p == payload@,
                    1 <= index <= len,
                    old_ready + stap_a_units(p, 1) == self@.ready + stap_a_units(p, index as int),
                    self.rtp_queue == old(self).rtp_queue,
                    self.curr_nal == old(self).curr_nal,
                decreases len - index,
            {
                let size = (payload[index] as usize) * 256 + (payload[index + 1] as usize);
                assert(size == be_u16_at(p, index as int));
                index += 2;
                if size <= len - index {
                    let ghost before = self@.ready;
                    let nal_packet = vstd::slice::slice_to_vec(&payload[index..index + size]);
                    self.nal_queue.push_back(nal_packet);
                    assert(self@.ready =~= before.push(p.subrange(index as int, index + size)));
                    assert(stap_a_units(p, index - 2) == seq![p.subrange(index as int, index + size)]
                        + stap_a_units(p, index + size));
                    assert(before.push(p.subrange(index as int, index + size)) + stap_a_units(
                        p,
                        index + size,
                    ) =~= before + (seq![p.subrange(index as int, index + size)]
                        + stap_a_units(p, index + size)));
                    index += size;
                } else {
                    assert(stap_a_units(p, index - 2) =~= Seq::<Seq<u8>>::empty());
                    assert(stap_a_units(p, len as int) =~= Seq::<Seq<u8>>::empty());
                    index = len;
                }
            }
            assert(stap_a_units(p, index as int) =~= Seq::<Seq<u8>>::empty());
        } else if rtp_type == 28 {
            // FU-A.
            if payload.len() >= 2 {
                let fu_indicator = payload[0];
                let fu_header = payload[1];
                let fu_type = fu_indicator & 0x1f;
                let start = (fu_header & 0x80) >> 7;
                let end = (fu_header & 0x40) >> 6;
                assert(start == 1 <==> fu_start_flag(fu_header)) by (bit_vector)
                    requires
                        start == (fu_header & 0x80) >> 7,
                ;
                assert(end == 1 <==> fu_end_flag(fu_header)) by (bit_vector)
                    requires
                        end == (fu_header & 0x40) >> 6,
                ;
                if fu_type == 28 {
                    let nal_header = (fu_indicator & 0xe0) | (fu_header & 0x1f);
                    let ghost old_partial = self.curr_nal@;
                    if start == 1 {
                        self.curr_nal.push(nal_header);
                    }
                    self.curr_nal.extend_from_slice(&payload[2..payload.len()]);
                    assert(self.curr_nal@ =~= fu_a_append(old_partial, payload@));
                    if end == 1 {
                        let ghost old_ready = self@.ready;
                        let mut nal_packet: Vec<u8> = Vec::new();
                        std::mem::swap(&mut nal_packet, &mut self.curr_nal);
                        self.nal_queue.push_back(nal_packet);
                        assert(self@.ready =~= old_ready.push(fu_a_append(old_partial, payload@)));
                        assert(self.curr_nal@ =~= Seq::<u8>::empty());
                    }
                }
            }
        }
    }
}

/// The NAL unit rebuilt from a run of FU-A payloads, continuing from `collected`: payloads
/// shorter than two bytes or of another type are skipped, and the first payload with the end
/// flag closes the unit.
pub open spec fn fu_a_collect(collected: Seq<u8>, payloads: Seq<Seq<u8>>) -> Seq<u8>
    decreases payloads.len(),
{
    if payloads.len() == 0 {
        collected
    } else {
        let p = payloads[0];
        if p.len() >= 2 && p[0] & 0x1f == 28 {
            let next = fu_a_append(collected, p);
            if fu_end_flag(p[1]) {
                next
            } else {
                fu_a_collect(next, payloads.drop_first())
            }
        } else {
            fu_a_collect(collected, payloads.drop_first())
        }
    }
}

/// Rebuilds one NAL unit from its FU-A payloads.
pub fn reconstruct_fu_a_payloads(payload: &Vec<Vec<u8>>) -> (res: Vec<u8>)
    ensures
        res@ == fu_a_collect(seq![], payload@.map_values(|v: Vec<u8>| v@)),
{
    let ghost all = payload@.map_values(|v: Vec<u8>| v@);
    let mut res: Vec<u8> = Vec::new();
    let mut i: usize = 0;
    assert(all.skip(0) =~= all);
    assert(res@ =~= Seq::<u8>::empty());
    while i < payload.len()
        invariant
            i <= payload.len(),
            all == payload@.map_values(|v: Vec<u8>| v@),
            fu_a_collect(seq![], all) == fu_a_collect(res@, all.skip(i as int)),
        decreases payload.len() - i,
    {
        let packet = &payload[i];
        assert(all.skip(i as int)[0] == packet@);
        assert(all.skip(i as int).drop_first() =~= all.skip(i + 1));
        if packet.len() >= 2 {
            let fu_indicator = packet[0];
            let fu_header = packet[1];
            let fu_type = fu_indicator & 0x1f;
            let start = (fu_header & 0x80) >> 7;
            let end = (fu_header & 0x40) >> 6;
            assert(start == 1 <==> fu_start_flag(fu_header)) by (bit_vector)
                requires
                    start == (fu_header & 0x80) >> 7,
            ;
            assert(end == 1 <==> fu_end_flag(fu_header)) by (bit_vector)
                requires
                    end == (fu_header & 0x40) >> 6,
            ;
            if fu_type == 28 {
                let ghost old_res = res@;
                let nal_header = (fu_indicator & 0xe0) | (fu_header & 0x1f);
                if start == 1 {
                    res.push(nal_header);
                }
                res.extend_from_slice(&packet[2..packet.len()]);
                assert(res@ =~= fu_a_append(old_res, packet@));
                if end == 1 {
                    return res;
                }
            }
        }
        i += 1;
    }
    assert(all.skip(i as int) =~= Seq::<Seq<u8>>::empty());
    res
}

/// A four-byte Annex B start code `00 00 00 01` begins at `i`.
pub open spec fn start_code4_at(b: Seq<u8>, i: int) -> bool {
    &&& 0 <= i
    &&& i + 4 <= b.len()
    &&& b[i] == 0 && b[i + 1] == 0 && b[i + 2] == 0 && b[i + 3] == 1
}

/// A three-byte Annex B start code `00 00 01` begins at `i`.
pub open spec fn start_code3_at(b: Seq<u8>, i: int) -> bool {
    &&& 0 <= i
    &&& i + 3 <= b.len()
    &&& b[i] == 0 && b[i + 1] == 0 && b[i + 2] == 1
}

/// Some Annex B start code begins at `i`.
pub open spec fn start_code_at(b: Seq<u8>, i: int) -> bool {
    start_code4_at(b, i) || start_code3_at(b, i)
}

/// The first position at or after `i` where a start code begins.
pub open spec fn next_start_code(b: Seq<u8>, i: int) -> Option<int>
    decreases b.len() - i,
{
    if i + 3 > b.len() {
        None
    } else if start_code_at(b, i) {
        Some(i)
    } else {
        next_start_code(b, i + 1)
    }
}

/// `next_start_code` finds the first start code at or after `i`, and nothing when there is
/// none.
pub proof fn lemma_next_start_code(b: Seq<u8>, i: int)
    requires
        0 <= i,
    ensures
        next_start_code(b, i) matches Some(j) ==> i <= j && start_code_at(b, j) && forall|k: int|
            i <= k < j ==> !start_code_at(b, k),
        next_start_code(b, i) is None ==> forall|k: int| i <= k ==> !start_code_at(b, k),
    decreases b.len() - i,
{
    if i + 3 > b.len() {
    } else if start_code_at(b, i) {
    } else {
        lemma_next_start_code(b, i + 1);
        assert forall|k: int| i <= k && next_start_code(b, i + 1) is None implies !start_code_at(
            b,
            k,
        ) by {
            if k > i {
            }
        }
    }
}

/// The NAL units of an Annex B stream found from position `i` on: after each start code,
/// the bytes up to the next start code, or up to the end of the stream.
pub open spec fn annex_b_units_from(b: Seq<u8>, i: int) -> Seq<Seq<u8>>
    decreases b.len() - i,
{
    if i < 0 || i + 3 > b.len() {
        seq![]
    } else if start_code_at(b, i) {
        let s = if start_code4_at(b, i) {
            i + 4
        } else {
            i + 3
        };
        match next_start_code(b, s) {
            Some(n) => {
                proof {
                    lemma_next_start_code(b, s);
                }
                seq![b.subrange(s, n)] + annex_b_units_from(b, n)
            },
            None => seq![b.subrange(s, b.len() as int)],
        }
    } else {
        annex_b_units_from(b, i + 1)
    }
}

/// Finds the position of the next Annex B start code at or after `index`.
pub fn next_nal_index(bytes: &[u8], index: usize) -> (res: Option<usize>)
    ensures
        res matches Some(j) ==> next_start_code(bytes@, index as int) == Some(j as int),
        res is None <==> next_start_code(bytes@, index as int) is None,
        res matches Some(j) ==> index <= j && start_code_at(bytes@, j as int) && forall|k: int|
            index <= k < j ==> !start_code_at(bytes@, k),
        res is None ==> forall|k: int| index <= k ==> !start_code_at(bytes@, k),
{
    proof {
        lemma_next_start_code(bytes@, index as int);
    }
    let mut i = index;
    while i <= bytes.len() && bytes.len() - i >= 3
        invariant
            index <= i,
            next_start_code(bytes@, index as int) == next_start_code(bytes@, i as int),
        decreases bytes.len() - i,
    {
        if bytes.len() - i >= 4 && bytes[i] == 0 && bytes[i + 1] == 0 && bytes[i + 2] == 0
            && bytes[i + 3] == 1 {
            assert(start_code4_at(bytes@, i as int));
            proof {
                lemma_next_start_code(bytes@, index as int);
            }
            return Some(i);
        }
        if bytes[i] == 0 && bytes[i + 1] == 0 && bytes[i + 2] == 1 {
            assert(start_code3_at(bytes@, i as int));
            proof {
                lemma_next_start_code(bytes@, index as int);
            }
            return Some(i);
        }
        i += 1;
    }
    None
}

/// Splits an Annex B byte stream into its NAL units, without the start codes.
pub fn find_nal_units_annex_b(bytes: &[u8]) -> (res: Vec<&[u8]>)
    ensures
        res@.map_values(|s: &[u8]| s@) == annex_b_units_from(bytes@, 0),
{
    let mut res: Vec<&[u8]> = Vec::new();
    let mut index: usize = 0;
    let len = bytes.len();
    while index <= len && len - index >= 3
        invariant
            len == bytes@.len(),
            index <= len,
            annex_b_units_from(bytes@, 0) == res@.map_values(|s: &[u8]| s@) + annex_b_units_from(
                bytes@,
                index as int,
            ),
        decreases len - index,
    {
        let ghost before = res@.map_values(|s: &[u8]| s@);
        let code4 = len - index >= 4 && bytes[index] == 0 && bytes[index + 1] == 0 && bytes[index
            + 2] == 0 && bytes[index + 3] == 1;
        let code3 = bytes[index] == 0 && bytes[index + 1] == 0 && bytes[index + 2] == 1;
        if code4 || code3 {
            let start = if code4 {
                index + 4
            } else {
                index + 3
            };
            match next_nal_index(bytes, start) {
                Some(next) => {
                    res.push(&bytes[start..next]);
                    assert(res@.map_values(|s: &[u8]| s@) =~= before.push(
                        bytes@.subrange(start as int, next as int),
                    ));
                    assert(before.push(bytes@.subrange(start as int, next as int))
                        + annex_b_units_from(bytes@, next as int) =~= before + (seq![
                        bytes@.subrange(start as int, next as int),
                    ] + annex_b_units_from(bytes@, next as int)));
                    index = next;
                },
                None => {
                    res.push(&bytes[start..len]);
                    assert(res@.map_values(|s: &[u8]| s@) =~= before.push(
                        bytes@.subrange(start as int, len as int),
                    ));
                    assert(annex_b_units_from(bytes@, len as int) =~= Seq::<Seq<u8>>::empty());
                    index = len;
                },
            }
        } else {
            index += 1;
        }
    }
    assert(annex_b_units_from(bytes@, index as int) =~= Seq::<Seq<u8>>::empty());
    res
}

} // verus!
