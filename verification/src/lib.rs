//! H.264 Annex B scanning, RTP packetization and depacketization, and the small
//! inspection and frame-conversion helpers of a camera-to-H.264 pipeline.

pub mod rtp_packetization;
pub mod rtp_roundtrip;
pub mod rtp_summary;
pub mod annex_b_framing;
pub mod h264_inspect;
pub mod cli;
pub mod capture;
pub mod encoder;
pub mod h264_encode;
pub mod payloader;
