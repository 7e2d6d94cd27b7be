# video_capture

A verified library for a small camera-to-H.264 pipeline: Annex B stream scanning and
inspection, H.264 RTP packetization (single NAL unit, FU-A) and depacketization (single NAL
unit, STAP-A, FU-A), YUYV to YUV 4:2:0 conversion, synthetic test frames, and the OpenH264 /
`rtp` calls that encode and payload frames.

- `src/` is the library; Verus proves its functions against their contracts, except the
  trusted calls in `encoder.rs` and `payloader.rs`, whose bodies call OpenH264 and the `rtp`
  crate. `H264Encoder` and `RtpH264Payloader` keep a ghost record of every frame and stream
  handed to those crates; only those trusted calls state what the record gains, so the
  verified encoding functions say what went in and what was done with what came back, on
  the strength of those trusted contracts. `rtp_roundtrip.rs` and `annex_b_framing.rs` hold
  the laws that relate the sender and receiver sides.
- `app/` is the command-line tool (`capture-h264`, `inspect`, `packetize`,
  `encode-synthetic-h264`), file I/O, and the camera capture loop.
- `tests/` runs the library on concrete inputs.
