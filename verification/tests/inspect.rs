use video_capture::cli::{build_ffmpeg_capture_args, parse_cli, CliCommand};
use video_capture::h264_inspect::{
    contains_annex_b_start_code, find_nal_headers, first_nal_header_after_start_code,
    nal_type_name, summarize_gops, GopSummary,
};

#[test]
fn summarizes_gops_from_idr_clusters() {
    let nal_headers = vec![
        0x67, 0x68, 0x65, 0x65, 0x41, 0x41, 0x67, 0x68, 0x65, 0x65, 0x65, 0x41,
    ];

    assert_eq!(
        summarize_gops(&nal_headers),
        vec![
            GopSummary {
                sps_before_idr: true,
                pps_before_idr: true,
                idr_slices: 2,
                non_idr_slices: 2,
            },
            GopSummary {
                sps_before_idr: true,
                pps_before_idr: true,
                idr_slices: 3,
                non_idr_slices: 1,
            },
        ]
    );
}

#[test]
fn names_common_h264_nal_types() {
    assert_eq!(nal_type_name(7), "SPS");
    assert_eq!(nal_type_name(8), "PPS");
    assert_eq!(nal_type_name(5), "IDR slice");
    assert_eq!(nal_type_name(1), "non-IDR slice");
}

#[test]
fn finds_multiple_nal_headers_after_start_codes() {
    let bytes = [
        0x00, 0x00, 0x00, 0x01, 0x67, 0xaa, 0xbb, 0x00, 0x00, 0x01, 0x68, 0xcc, 0x00, 0x00,
        0x01, 0x65,
    ];

    assert_eq!(find_nal_headers(&bytes), vec![0x67, 0x68, 0x65]);
}

#[test]
fn parse_inspect_command() {
    let args = vec![
        "video-capture".to_string(),
        "inspect".to_string(),
        "capture/rust-camera.h264".to_string(),
    ];
    let command = parse_cli(args).expect("command should parse");
    assert_eq!(
        command,
        CliCommand::Inspect {
            input_path: "capture/rust-camera.h264".into()
        }
    );
}

#[test]
fn detects_annex_b_start_code() {
    let bytes = [0x12, 0x00, 0x00, 0x00, 0x01, 0x67];
    assert!(contains_annex_b_start_code(&bytes));
}

#[test]
fn finds_first_nal_header_after_start_code() {
    let bytes = [0x00, 0x00, 0x00, 0x01, 0x67, 0x64];

    assert_eq!(first_nal_header_after_start_code(&bytes), Some(0x67));
}

#[test]
fn parses_capture_h264_command() {
    let args = vec![
        "video-capture".to_string(),
        "capture-h264".to_string(),
        "captures/rust-camera.h264".to_string(),
    ];

    let command = parse_cli(args).expect("command should parse");

    assert_eq!(
        command,
        CliCommand::CaptureH264 {
            output_path: "captures/rust-camera.h264".into(),
        }
    );
}

#[test]
fn builds_avfoundation_x264_args_for_output_path() {
    let args = build_ffmpeg_capture_args("captures/rust-camera.h264");

    assert_eq!(
        args,
        vec![
            "-f",
            "avfoundation",
            "-framerate",
            "30",
            "-video_size",
            "1280x720",
            "-i",
            "0",
            "-c:v",
            "libx264",
            "-preset",
            "ultrafast",
            "-tune",
            "zerolatency",
            "-g",
            "30",
            "-keyint_min",
            "30",
            "-sc_threshold",
            "0",
            "-f",
            "h264",
            "captures/rust-camera.h264",
        ]
    );
}
