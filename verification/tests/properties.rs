use video_capture::capture::{yuyv_to_yuv420p, CameraStreamEncoder};
use video_capture::cli::{build_ffmpeg_capture_args, parse_cli, CliCommand};
use video_capture::encoder::H264EncodeError;
use video_capture::h264_encode::encode_synthetic_h264_bytes;
use video_capture::h264_inspect::{
    contains_annex_b_start_code, count_header, find_nal_headers, first_nal_header_after_start_code,
    format_hex, nal_type_name, summarize_gops, GopSummary,
};
use video_capture::rtp_packetization::{
    find_nal_units_annex_b, next_nal_index, packetize_nal_as_rtp, reconstruct_fu_a_payloads,
    RtpDepacketizer, RtpPacket,
};

fn packet(sequence_number: u16, payload: Vec<u8>) -> RtpPacket {
    RtpPacket {
        sequence_number,
        timestamp: 9000,
        marker: false,
        payload_type: 96,
        ssrc: 7,
        payload,
    }
}

#[test]
fn packetized_large_nal_comes_back_from_depacketizer() {
    let nal: Vec<u8> = vec![0x65, 1, 2, 3, 4, 5, 6, 7, 8, 9];
    let packets = packetize_nal_as_rtp(&nal, 4, 10, 90, 96, 5, true);
    assert_eq!(packets.len(), 5);
    for (k, p) in packets.iter().enumerate() {
        assert_eq!(p.sequence_number, 10 + k as u16);
        assert!(p.payload.len() <= 4);
        assert_eq!(p.marker, k == 4);
    }
    let mut depacketizer = RtpDepacketizer::new();
    for p in packets {
        depacketizer.push_in(p);
    }
    assert_eq!(depacketizer.pop_out(), Some(nal));
    assert_eq!(depacketizer.pop_out(), None);
}

#[test]
fn packetized_nal_payloads_reconstruct_the_nal() {
    let nal: Vec<u8> = vec![0x45, 0xaa, 0xbb, 0xcc, 0xdd, 0xee, 0xff, 0x11];
    let payloads: Vec<Vec<u8>> = packetize_nal_as_rtp(&nal, 3, 0, 0, 96, 0, false)
        .into_iter()
        .map(|p| p.payload)
        .collect();
    assert_eq!(payloads.len(), 7);
    assert_eq!(reconstruct_fu_a_payloads(&payloads), nal);
}

#[test]
fn run_of_nals_comes_back_in_order() {
    let nals: Vec<Vec<u8>> = vec![
        vec![0x67, 0x42, 0x00],
        vec![0x68, 0xce],
        vec![0x65, 1, 2, 3, 4, 5, 6, 7, 8, 9, 10, 11],
        vec![0x41, 0x9a],
    ];
    let mut depacketizer = RtpDepacketizer::new();
    let mut seq: u16 = 0;
    for nal in &nals {
        for p in packetize_nal_as_rtp(nal, 5, seq, 0, 96, 0, false) {
            seq += 1;
            depacketizer.push_in(p);
        }
    }
    for nal in nals {
        assert_eq!(depacketizer.pop_out(), Some(nal));
    }
    assert_eq!(depacketizer.pop_out(), None);
}

#[test]
fn packetizing_exactly_mtu_sized_nal_gives_one_packet() {
    let nal = [0x61, 1, 2, 3, 4];
    let packets = packetize_nal_as_rtp(&nal, 5, 65535, 1, 2, 3, true);
    assert_eq!(packets.len(), 1);
    assert_eq!(packets[0].sequence_number, 65535);
    assert_eq!(packets[0].payload, nal.to_vec());
    assert!(packets[0].marker);
}

#[test]
fn depacketizer_ignores_empty_and_unknown_payloads() {
    let mut depacketizer = RtpDepacketizer::new();
    depacketizer.push_in(packet(0, vec![]));
    depacketizer.push_in(packet(1, vec![0x00, 0x11]));
    depacketizer.push_in(packet(2, vec![0x1e, 0x11]));
    depacketizer.push_in(packet(3, vec![0x7c]));
    assert_eq!(depacketizer.pop_out(), None);
}

#[test]
fn depacketizer_drops_truncated_stap_a_unit() {
    let mut depacketizer = RtpDepacketizer::new();
    depacketizer.push_in(packet(0, vec![0x78, 0x00, 0x02, 0x67, 0xaa, 0x00, 0x05, 0x68]));
    assert_eq!(depacketizer.pop_out(), Some(vec![0x67, 0xaa]));
    assert_eq!(depacketizer.pop_out(), None);
}

#[test]
fn depacketizer_emits_fu_a_end_without_start() {
    let mut depacketizer = RtpDepacketizer::new();
    depacketizer.push_in(packet(0, vec![0x7c, 0x45, 0x44, 0x55]));
    assert_eq!(depacketizer.pop_out(), Some(vec![0x44, 0x55]));
}

#[test]
fn reconstruct_stops_at_end_flag_and_skips_others() {
    let payloads = vec![
        vec![0x7c],
        vec![0x67, 0x01],
        vec![0x7c, 0x85, 0x01],
        vec![0x7c, 0x45, 0x02],
        vec![0x7c, 0x05, 0x03],
    ];
    assert_eq!(reconstruct_fu_a_payloads(&payloads), vec![0x65, 0x01, 0x02]);
}

#[test]
fn joined_annex_b_stream_splits_into_its_units() {
    let units: Vec<Vec<u8>> = vec![vec![0x67, 0x00], vec![], vec![0x65, 0x00, 0x00, 0x02, 0x00]];
    let mut stream = Vec::new();
    for u in &units {
        stream.extend_from_slice(&[0, 0, 0, 1]);
        stream.extend_from_slice(u);
    }
    let found = find_nal_units_annex_b(&stream);
    let found: Vec<Vec<u8>> = found.iter().map(|s| s.to_vec()).collect();
    assert_eq!(found, units);
}

#[test]
fn found_units_hold_no_start_code() {
    let bytes = [0xff, 0x00, 0x00, 0x01, 0x65, 0x00, 0x00, 0x00, 0x01, 0x41, 0x00, 0x00, 0x01];
    let units = find_nal_units_annex_b(&bytes);
    assert_eq!(units, vec![&[0x65][..], &[0x41][..], &[][..]]);
    for u in units {
        assert!(!u.windows(3).any(|w| w == [0, 0, 1]));
    }
}

#[test]
fn first_header_is_first_byte_of_first_unit() {
    let bytes = [0x12, 0x00, 0x00, 0x01, 0x68, 0xce, 0x00, 0x00, 0x00, 0x01, 0x65];
    let units = find_nal_units_annex_b(&bytes);
    assert_eq!(first_nal_header_after_start_code(&bytes), Some(units[0][0]));
    assert_eq!(first_nal_header_after_start_code(&bytes), Some(0x68));
}

#[test]
fn no_start_code_means_no_units_and_no_header() {
    let bytes = [0x00, 0x00, 0x02, 0x00, 0x00];
    assert!(find_nal_units_annex_b(&bytes).is_empty());
    assert_eq!(first_nal_header_after_start_code(&bytes), None);
    assert!(!contains_annex_b_start_code(&bytes));
    assert_eq!(next_nal_index(&bytes, 0), None);
    assert!(find_nal_headers(&bytes).is_empty());
}

#[test]
fn start_code_at_end_has_no_header() {
    assert_eq!(first_nal_header_after_start_code(&[0x07, 0x00, 0x00, 0x01]), None);
    assert!(contains_annex_b_start_code(&[0x07, 0x00, 0x00, 0x01]));
}

#[test]
fn counts_each_header_byte() {
    let counts = count_header(&[0x67, 0x68, 0x65, 0x65, 0x41]);
    assert_eq!(counts.len(), 4);
    assert_eq!(counts[&0x65], 2);
    assert_eq!(counts[&0x67], 1);
    assert_eq!(counts[&0x41], 1);
    assert!(count_header(&[]).is_empty());
}

#[test]
fn gop_summaries_close_only_after_non_idr_slices() {
    let headers = [0x09, 0x65, 0x67, 0x68, 0x65, 0x41, 0x68, 0x65, 0x41, 0x65, 0x06];
    let gops = summarize_gops(&headers);
    assert_eq!(
        gops,
        vec![
            GopSummary { sps_before_idr: true, pps_before_idr: true, idr_slices: 1, non_idr_slices: 1 },
            GopSummary { sps_before_idr: false, pps_before_idr: true, idr_slices: 1, non_idr_slices: 1 },
            GopSummary { sps_before_idr: false, pps_before_idr: false, idr_slices: 1, non_idr_slices: 0 },
        ]
    );
    for gop in &gops[..gops.len() - 1] {
        assert!(gop.idr_slices >= 1 && gop.non_idr_slices >= 1);
    }
    assert_eq!(summarize_gops(&[]), vec![GopSummary::default()]);
}

#[test]
fn formats_bytes_as_spaced_hex() {
    assert_eq!(format_hex(&[0x00, 0x1f, 0xab, 0xff]), "00 1f ab ff");
    assert_eq!(format_hex(&[0x7c]), "7c");
    assert_eq!(format_hex(&[]), "");
}

#[test]
fn names_other_nal_types() {
    assert_eq!(nal_type_name(6), "SEI");
    assert_eq!(nal_type_name(3), "unknown");
}

#[test]
fn parses_packetize_command_and_reports_usage() {
    let args = vec!["vc".to_string(), "packetize".to_string(), "in.h264".to_string()];
    assert_eq!(
        parse_cli(args),
        Ok(CliCommand::Packetize { input_path: "in.h264".to_string() })
    );
    let args = vec!["vc".to_string(), "record".to_string(), "in.h264".to_string()];
    assert_eq!(
        parse_cli(args),
        Err("Usage: vc capture-h264 <output-path>\nExample: vc capture-h264 captures/rust-camera.h264".to_string())
    );
    assert_eq!(
        parse_cli(vec![]),
        Err("Usage: video-capture capture-h264 <output-path>\nExample: video-capture capture-h264 captures/rust-camera.h264".to_string())
    );
}

#[test]
fn ffmpeg_args_end_with_output_path() {
    let args = build_ffmpeg_capture_args("out.h264");
    assert_eq!(args.len(), 23);
    assert_eq!(args[22], "out.h264");
}

#[test]
fn refuses_odd_or_mismatched_yuyv_frames() {
    assert_eq!(yuyv_to_yuv420p(&[0; 12], 3, 2), None);
    assert_eq!(yuyv_to_yuv420p(&[0; 6], 2, 2), None);
    assert_eq!(yuyv_to_yuv420p(&[], 0, 0), Some((vec![], vec![], vec![])));
}

#[test]
fn camera_frames_become_payloads_within_mtu() {
    let mut encoder = CameraStreamEncoder::new().expect("encoder setup");
    let (width, height) = (32usize, 32usize);
    let frame: Vec<u8> = (0..width * height * 2).map(|i| (i * 7 % 251) as u8).collect();
    let payloads = encoder
        .encode_frame(&frame, width, height, 100, 0)
        .expect("frame encodes")
        .expect("frame has a valid size");
    assert!(!payloads.is_empty());
    for p in &payloads {
        assert!(!p.is_empty() && p.len() <= 100);
    }
    assert!(matches!(encoder.encode_frame(&frame, 31, 32, 100, 1), Ok(None)));
}

#[test]
fn encoding_no_frames_gives_empty_stream() -> Result<(), H264EncodeError> {
    assert!(encode_synthetic_h264_bytes(16, 16, 0)?.is_empty());
    let bytes = encode_synthetic_h264_bytes(16, 16, 1)?;
    assert!(bytes.windows(4).any(|w| w == [0, 0, 0, 1]));
    Ok(())
}
