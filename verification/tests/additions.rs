use video_capture::cli::{parse_cli, CliCommand};
use video_capture::encoder::H264EncodeError;
use video_capture::h264_encode::append_encoded_frame;
use video_capture::h264_inspect::inspection_preview;
use video_capture::rtp_summary::{summarize_rtp_packetization, NalRtpSummary};

#[test]
fn parses_encode_synthetic_h264_command() {
    let args = vec![
        "video-capture".to_string(),
        "encode-synthetic-h264".to_string(),
        "captures/openh264-test.h264".to_string(),
    ];
    assert_eq!(
        parse_cli(args).expect("command should parse"),
        CliCommand::EncodeSyntheticH264 { output_path: "captures/openh264-test.h264".into() }
    );
}

#[test]
fn appends_encoded_frame_or_reports_its_error() {
    let mut output = vec![1, 2];
    assert!(append_encoded_frame(&mut output, 0, Ok(vec![3, 4])).is_ok());
    assert_eq!(output, vec![1, 2, 3, 4]);
    let res = append_encoded_frame(&mut output, 7, Err(openh264::Error::msg("refused")));
    assert!(matches!(res, Err(H264EncodeError::Frame { index: 7, .. })));
    assert_eq!(output, vec![1, 2, 3, 4]);
}

#[test]
fn summarizes_rtp_packetization_of_first_units() {
    let mut stream = vec![0, 0, 0, 1, 0x67, 1, 2];
    stream.extend_from_slice(&[0, 0, 1, 0x68, 9]);
    stream.extend_from_slice(&[0, 0, 0, 1, 0x65]);
    stream.extend_from_slice(&[5u8; 20]);
    stream.extend_from_slice(&[0, 0, 1, 0x41, 3]);
    let summaries = summarize_rtp_packetization(&stream, 8, 3);
    assert_eq!(
        summaries,
        vec![
            NalRtpSummary { nal_index: 0, nal_type: 7, nal_len: 3, first_seq: 0, last_seq: 0, packet_count: 1, fragmented: false },
            NalRtpSummary { nal_index: 1, nal_type: 8, nal_len: 2, first_seq: 1, last_seq: 1, packet_count: 1, fragmented: false },
            NalRtpSummary { nal_index: 2, nal_type: 5, nal_len: 21, first_seq: 2, last_seq: 5, packet_count: 4, fragmented: true },
        ]
    );
    assert_eq!(summarize_rtp_packetization(&stream, 8, 10).len(), 4);
    assert!(summarize_rtp_packetization(&[1, 2, 3], 1200, 5).is_empty());
}

#[test]
fn preview_is_at_most_sixty_four_bytes() {
    let bytes: Vec<u8> = (0..100).collect();
    assert_eq!(inspection_preview(&bytes), &bytes[..64]);
    assert_eq!(inspection_preview(&bytes[..10]), &bytes[..10]);
}
