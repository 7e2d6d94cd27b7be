use video_capture::capture::yuyv_to_yuv420p;
use video_capture::encoder::H264EncodeError;
use video_capture::h264_encode::{encode_synthetic_h264_bytes, SyntheticYuvFrame};

#[test]
fn converts_2x2_yuyv_to_yuv420p() {
    let yuyv = vec![
        10, 100, 20, 150,
        30, 110, 40, 170
    ];

    let (y, u, v) = yuyv_to_yuv420p(&yuyv, 2, 2).expect("valid 2x2 YUYV frame");

    assert_eq!(y, vec![10, 20, 30, 40]);
    assert_eq!(u, vec![105]);
    assert_eq!(v, vec![160]);
}

#[test]
fn converts_4x4_yuyv_to_yuv420p() {
    let yuyv: Vec<u8> = vec![
        10, 100, 11, 150, 12, 101, 13, 151,
        20, 110, 21, 160, 22, 111, 23, 161,
        30, 120, 31, 170, 32, 121, 33, 171,
        40, 130, 41, 180, 42, 131, 43, 181,
    ];

    let (y, u, v) = yuyv_to_yuv420p(&yuyv, 4, 4).expect("valid 4x4 YUYV frame");

    assert_eq!(
        y,
        vec![
            10, 11, 12, 13, 20, 21, 22, 23, 30, 31, 32, 33, 40, 41, 42, 43,
        ]
    );
    assert_eq!(u, vec![105, 106, 125, 126]);
    assert_eq!(v, vec![155, 156, 175, 176]);
}

#[test]
fn converts_6x4_yuyv_to_yuv420p() {
    let yuyv: Vec<u8> = vec![
        10, 100, 11, 150, 12, 101, 13, 151, 14, 102, 15, 152,
        20, 110, 21, 160, 22, 111, 23, 161, 24, 112, 25, 162,
        30, 120, 31, 170, 32, 121, 33, 171, 34, 122, 35, 172,
        40, 130, 41, 180, 42, 131, 43, 181, 44, 132, 45, 182,
    ];

    let (y, u, v) = yuyv_to_yuv420p(&yuyv, 6, 4).expect("valid 6x4 YUYV frame");

    assert_eq!(
        y,
        vec![
            10, 11, 12, 13, 14, 15,
            20, 21, 22, 23, 24, 25,
            30, 31, 32, 33, 34, 35,
            40, 41, 42, 43, 44, 45,
        ]
    );
    assert_eq!(u, vec![105, 106, 107, 125, 126, 127]);
    assert_eq!(v, vec![155, 156, 157, 175, 176, 177]);
}

#[test]
fn encodes_multiple_synthetic_frames_to_h264_bytes() -> Result<(), H264EncodeError> {
    let bytes = encode_synthetic_h264_bytes(320, 240, 10)?;

    assert!(!bytes.is_empty());

    let start_code_count = bytes
        .windows(4)
        .filter(|window| *window == [0, 0, 0, 1])
        .count();

    assert!(start_code_count >= 3);

    Ok(())
}

#[test]
fn encodes_one_synthetic_yuv_frame_to_h264_bytes() -> Result<(), openh264::Error> {
    let frame = SyntheticYuvFrame::generate_yuv420p_frame(320, 240, 0);
    let yuv = openh264::formats::YUVSlices::new(
        (&frame.y, &frame.u, &frame.v),
        (frame.width, frame.height),
        (frame.width, frame.width / 2, frame.width / 2),
    );
    let mut encoder = openh264::encoder::Encoder::new()?;
    let bitstream = encoder.encode(&yuv)?;
    let bytes = bitstream.to_vec();
    assert!(!bytes.is_empty());
    assert!(bytes.windows(4).any(|window| window == [0, 0, 0, 1]));
    Ok(())
}

#[test]
fn generates_yuv420p_planes_with_expected_sizes() {
    let frame = SyntheticYuvFrame::generate_yuv420p_frame(4, 2, 0);

    assert_eq!(frame.y.len(), 8);
    assert_eq!(frame.u.len(), 2);
    assert_eq!(frame.v.len(), 2);
}

#[test]
fn generates_moving_luma_gradient() {
    let frame0 = SyntheticYuvFrame::generate_yuv420p_frame(4, 2, 0);
    let frame1 = SyntheticYuvFrame::generate_yuv420p_frame(4, 2, 1);

    assert_eq!(frame0.y, vec![0, 1, 2, 3, 1, 2, 3, 4]);
    assert_eq!(frame1.y, vec![1, 2, 3, 4, 2, 3, 4, 5]);
}
