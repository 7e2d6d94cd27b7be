use video_capture::capture::{yuyv_to_yuv420p, CameraStreamEncoder, CAPTURE_MTU};
use video_capture::encoder::H264Encoder;
use video_capture::h264_encode::{encode_synthetic_frames, SyntheticYuvFrame};
use video_capture::h264_inspect::{contains_annex_b_start_code, find_nal_headers, summarize_gops};
use video_capture::payloader::RtpH264Payloader;
use video_capture::rtp_packetization::find_nal_units_annex_b;

#[test]
fn synthetic_run_is_the_frames_encoded_in_order() {
    let mut run_encoder = H264Encoder::with_intra_period(30).expect("encoder setup");
    let stream = encode_synthetic_frames(&mut run_encoder, 16, 16, 3).expect("frames encode");

    let mut step_encoder = H264Encoder::with_intra_period(30).expect("encoder setup");
    let mut expected = Vec::new();
    for i in 0..3 {
        let frame = SyntheticYuvFrame::generate_yuv420p_frame(16, 16, i);
        let bytes = step_encoder
            .encode(&frame.y, &frame.u, &frame.v, frame.width, frame.height)
            .expect("frame encodes");
        expected.extend_from_slice(&bytes);
    }
    assert!(!stream.is_empty());
    assert_eq!(stream, expected);
}

#[test]
fn synthetic_run_of_no_frames_is_empty() {
    let mut encoder = H264Encoder::new().expect("encoder setup");
    assert_eq!(encode_synthetic_frames(&mut encoder, 16, 16, 0).expect("nothing to encode"), Vec::<u8>::new());
}

#[test]
fn payloader_gives_nothing_for_an_empty_stream_or_zero_mtu() {
    let mut payloader = RtpH264Payloader::new();
    assert!(payloader.payload(1200, &[]).is_empty());
    assert!(payloader.payload(0, &[0, 0, 0, 1, 0x65, 1, 2, 3]).is_empty());
}

#[test]
fn payloader_fragments_a_large_unit_within_mtu() {
    let mut payloader = RtpH264Payloader::new();
    let mut stream = vec![0, 0, 0, 1, 0x65];
    stream.extend((0..300).map(|i| (i % 200 + 2) as u8));
    let payloads = payloader.payload(100, &stream);
    assert!(payloads.len() >= 4);
    for p in &payloads {
        assert!(!p.is_empty() && p.len() <= 100);
    }
    assert_eq!(payloads[0][0] & 0x1f, 28);
}

#[test]
fn gop_summaries_ignore_other_headers_and_high_bits() {
    let noisy = [0x67, 0x06, 0x68, 0x65, 0x09, 0x41, 0x0c, 0x61];
    let bare = [7, 8, 5, 1, 1];
    assert_eq!(summarize_gops(&noisy), summarize_gops(&bare));
}

#[test]
fn no_units_exactly_when_no_start_code() {
    let plain = [1u8, 2, 0, 0, 2, 0, 1];
    assert!(find_nal_units_annex_b(&plain).is_empty());
    assert!(!contains_annex_b_start_code(&plain));
    let framed = [9u8, 0, 0, 1];
    assert_eq!(find_nal_units_annex_b(&framed).len(), 1);
    assert!(contains_annex_b_start_code(&framed));
}

#[test]
fn headers_are_the_first_bytes_of_the_units() {
    let stream = [0u8, 0, 0, 1, 0x67, 1, 2, 0, 0, 1, 0x68, 3, 0, 0, 0, 1, 0x65, 4, 5, 6];
    let units = find_nal_units_annex_b(&stream);
    assert!(units.iter().all(|u| !u.is_empty()));
    let firsts: Vec<u8> = units.iter().map(|u| u[0]).collect();
    assert_eq!(firsts, vec![0x67, 0x68, 0x65]);
    assert_eq!(find_nal_headers(&stream), firsts);
}

#[test]
fn camera_steps_encode_then_payload_within_mtu() {
    let mut encoder = CameraStreamEncoder::new().expect("encoder setup");
    let (width, height) = (16usize, 16usize);
    let frame: Vec<u8> = (0..width * height * 2).map(|i| (i * 5 % 251) as u8).collect();
    let (y, u, v) = yuyv_to_yuv420p(&frame, width, height).expect("valid frame");
    let bitstream = encoder.encode_planes(&y, &u, &v, width, height, 0).expect("frame encodes");
    assert!(bitstream.windows(4).any(|w| w == [0, 0, 0, 1]));
    let payloads = encoder.payload_bitstream(CAPTURE_MTU, &bitstream);
    assert!(!payloads.is_empty());
    assert!(payloads.iter().all(|p| !p.is_empty() && p.len() <= CAPTURE_MTU));
}
