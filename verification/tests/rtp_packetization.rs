use video_capture::rtp_packetization::{
    find_nal_units_annex_b, next_nal_index, packetize_nal_as_rtp, reconstruct_fu_a_payloads,
    RtpDepacketizer, RtpPacket,
};

#[test]
fn finds_annex_b_nal_unit_byte_ranges_without_start_codes() {
    let bytes = [
        0x00, 0x00, 0x00, 0x01, 0x67, 0xaa, 0xbb, 0x00, 0x00, 0x01, 0x68, 0xcc, 0x00, 0x00,
        0x01, 0x65, 0xdd, 0xee,
    ];

    let nal_units = find_nal_units_annex_b(&bytes);

    assert_eq!(
        nal_units,
        vec![
            &[0x67, 0xaa, 0xbb][..],
            &[0x68, 0xcc][..],
            &[0x65, 0xdd, 0xee][..],
        ]
    );
}

#[test]
fn finds_three_byte_start_code_at_end_boundary() {
    let bytes = [0x00, 0x00, 0x00, 0x01, 0x67, 0x00, 0x00, 0x01];

    assert_eq!(next_nal_index(&bytes, 5), Some(5));
}

#[test]
fn packetizes_small_nal_as_single_rtp_packet() {
    let nal = [0x67, 0xaa, 0xbb];

    let packets = packetize_nal_as_rtp(&nal, 1200, 100, 3000, 96, 0x11223344, true);

    assert_eq!(
        packets,
        vec![RtpPacket {
            sequence_number: 100,
            timestamp: 3000,
            marker: true,
            payload_type: 96,
            ssrc: 0x11223344,
            payload: vec![0x67, 0xaa, 0xbb],
        }]
    );
}

#[test]
fn depacketizer_outputs_single_nal_packet() {
    let mut depacketizer = RtpDepacketizer::new();

    depacketizer.push_in(RtpPacket {
        sequence_number: 100,
        timestamp: 3000,
        marker: true,
        payload_type: 96,
        ssrc: 0x11223344,
        payload: vec![0x67, 0xaa, 0xbb],
    });

    assert_eq!(depacketizer.pop_out(), Some(vec![0x67, 0xaa, 0xbb]));
    assert_eq!(depacketizer.pop_out(), None);
}

#[test]
fn depacketizer_outputs_single_nals_and_reconstructed_fu_a_nal_in_order() {
    let mut depacketizer = RtpDepacketizer::new();

    depacketizer.push_in(RtpPacket {
        sequence_number: 100,
        timestamp: 3000,
        marker: false,
        payload_type: 96,
        ssrc: 0x11223344,
        payload: vec![0x67, 0xaa, 0xbb],
    });
    assert_eq!(depacketizer.pop_out(), Some(vec![0x67, 0xaa, 0xbb]));
    assert_eq!(depacketizer.pop_out(), None);

    depacketizer.push_in(RtpPacket {
        sequence_number: 101,
        timestamp: 3000,
        marker: false,
        payload_type: 96,
        ssrc: 0x11223344,
        payload: vec![0x7c, 0x85, 0x11, 0x22, 0x33],
    });
    assert_eq!(depacketizer.pop_out(), None);

    depacketizer.push_in(RtpPacket {
        sequence_number: 102,
        timestamp: 3000,
        marker: true,
        payload_type: 96,
        ssrc: 0x11223344,
        payload: vec![0x7c, 0x45, 0x44, 0x55],
    });
    assert_eq!(
        depacketizer.pop_out(),
        Some(vec![0x65, 0x11, 0x22, 0x33, 0x44, 0x55])
    );
    assert_eq!(depacketizer.pop_out(), None);

    depacketizer.push_in(RtpPacket {
        sequence_number: 103,
        timestamp: 6000,
        marker: true,
        payload_type: 96,
        ssrc: 0x11223344,
        payload: vec![0x68, 0xcc],
    });
    assert_eq!(depacketizer.pop_out(), Some(vec![0x68, 0xcc]));
    assert_eq!(depacketizer.pop_out(), None);
}

#[test]
fn depacketizer_outputs_each_nal_from_stap_a_packet() {
    let mut depacketizer = RtpDepacketizer::new();

    depacketizer.push_in(RtpPacket {
        sequence_number: 100,
        timestamp: 3000,
        marker: true,
        payload_type: 96,
        ssrc: 0x11223344,
        payload: vec![0x78, 0x00, 0x03, 0x67, 0xaa, 0xbb, 0x00, 0x02, 0x68, 0xcc],
    });

    assert_eq!(depacketizer.pop_out(), Some(vec![0x67, 0xaa, 0xbb]));
    assert_eq!(depacketizer.pop_out(), Some(vec![0x68, 0xcc]));
    assert_eq!(depacketizer.pop_out(), None);
}

#[test]
fn fragments_large_nal_as_fu_a_packets() {
    let nal = [0x65, 0xaa, 0xbb, 0xcc, 0xdd, 0xee];

    let packets = packetize_nal_as_rtp(&nal, 5, 100, 3000, 96, 0x11223344, true);
    println!("{packets:?}");

    assert_eq!(packets.len(), 2);

    assert_eq!(
        packets[0],
        RtpPacket {
            sequence_number: 100,
            timestamp: 3000,
            marker: false,
            payload_type: 96,
            ssrc: 0x11223344,
            payload: vec![0x7c, 0x85, 0xaa, 0xbb, 0xcc],
        }
    );

    assert_eq!(
        packets[1],
        RtpPacket {
            sequence_number: 101,
            timestamp: 3000,
            marker: true,
            payload_type: 96,
            ssrc: 0x11223344,
            payload: vec![0x7c, 0x45, 0xdd, 0xee],
        }
    );
}

#[test]
fn marks_exact_final_fu_a_chunk_as_end() {
    let nal = [0x65, 0xaa, 0xbb, 0xcc, 0xdd, 0xee, 0xff];

    let packets = packetize_nal_as_rtp(&nal, 5, 100, 3000, 96, 0x11223344, true);

    assert_eq!(packets.len(), 2);

    assert_eq!(packets[0].payload, vec![0x7c, 0x85, 0xaa, 0xbb, 0xcc]);
    assert_eq!(packets[0].marker, false);

    assert_eq!(packets[1].payload, vec![0x7c, 0x45, 0xdd, 0xee, 0xff]);
    assert_eq!(packets[1].marker, true);
}

#[test]
fn reconstructs_fu_a_payloads_as_original_nal_unit() {
    let fu_a_payloads = vec![
        vec![0x7c, 0x85, 0xaa, 0xbb, 0xcc],
        vec![0x7c, 0x45, 0xdd, 0xee],
    ];

    let nal = reconstruct_fu_a_payloads(&fu_a_payloads);

    assert_eq!(nal, vec![0x65, 0xaa, 0xbb, 0xcc, 0xdd, 0xee]);
}
