//! Synthetic YUV 4:2:0 frames, and their encoding into an H.264 stream.
use crate::capture::lemma_plane_bound;
use crate::encoder::{EncodeCall, H264EncodeError, H264Encoder};
use vstd::prelude::*;

verus! {

/// A planar YUV 4:2:0 frame with no row padding.
pub struct SyntheticYuvFrame {
    pub width: usize,
    pub height: usize,
    pub y: Vec<u8>,
    pub u: Vec<u8>,
    pub v: Vec<u8>,
}

/// The luma of pixel (`row`, `col`) of synthetic frame `frame_index`: a diagonal gradient
/// that moves by one step per frame.
pub open spec fn synthetic_luma(row: int, col: int, frame_index: int) -> u8 {
    ((col + row + frame_index) % 256) as u8
}

/// Neutral chroma.
pub open spec fn neutral_chroma() -> u8 {
    128
}

/// Whether the planes are those of synthetic frame `frame_index` of `width` x `height`.
pub open spec fn is_synthetic_planes(
    y: Seq<u8>,
    u: Seq<u8>,
    v: Seq<u8>,
    width: int,
    height: int,
    frame_index: int,
) -> bool {
    &&& y.len() == width * height
    &&& forall|row: int, col: int|
        0 <= row < height && 0 <= col < width ==> #[trigger] y[row * width + col]
            == synthetic_luma(row, col, frame_index)
    &&& u == Seq::new(((width / 2) * (height / 2)) as nat, |i: int| neutral_chroma())
    &&& v == Seq::new(((width / 2) * (height / 2)) as nat, |i: int| neutral_chroma())
}

/// Law: synthetic frame `frame_index` is grey: every U and every V sample is 128, and the
/// luma of pixel (`row`, `col`) is `(col + row + frame_index) % 256`.
pub proof fn lemma_synthetic_frame_is_grey(
    y: Seq<u8>,
    u: Seq<u8>,
    v: Seq<u8>,
    width: int,
    height: int,
    frame_index: int,
)
    requires
        0 <= width,
        0 <= height,
        0 <= frame_index,
        is_synthetic_planes(y, u, v, width, height, frame_index),
    ensures
        y.len() == width * height,
        u.len() == (width / 2) * (height / 2),
        v.len() == (width / 2) * (height / 2),
        forall|i: int| 0 <= i < (width / 2) * (height / 2) ==> #[trigger] u[i] == 128u8 && v[i] == 128u8,
        forall|row: int, col: int|
            0 <= row < height && 0 <= col < width ==> #[trigger] y[row * width + col] == ((col + row
                + frame_index) % 256) as u8,
{
    assert(0 <= (width / 2) * (height / 2)) by (nonlinear_arith)
        requires
            0 <= width,
            0 <= height,
    ;
    assert forall|row: int, col: int| 0 <= row < height && 0 <= col < width implies #[trigger] y[row
        * width + col] == ((col + row + frame_index) % 256) as u8 by {
        assert(y[row * width + col] == synthetic_luma(row, col, frame_index));
    }
}

impl SyntheticYuvFrame {
    /// Whether this is synthetic frame `frame_index` of the given size.
    pub open spec fn is_synthetic_frame(self, width: int, height: int, frame_index: int) -> bool {
        &&& self.width == width
        &&& self.height == height
        &&& is_synthetic_planes(self.y@, self.u@, self.v@, width, height, frame_index)
    }

    /// Generates frame `frame_index` of a grey test sequence: a luma gradient that moves one
    /// step per frame, with neutral chroma. Width and height must be even.
    pub fn generate_yuv420p_frame(width: usize, height: usize, frame_index: usize) -> (res: Self)
        requires
            width % 2 == 0,
            height % 2 == 0,
            width * height <= usize::MAX,
            width > 0 && height > 0 ==> width - 1 + height - 1 + frame_index <= usize::MAX,
        ensures
            res.is_synthetic_frame(width as int, height as int, frame_index as int),
    {
        let ghost w = width as int;
        let mut y: Vec<u8> = Vec::with_capacity(width * height);
        let mut row: usize = 0;
        while row < height
            invariant
                w == width,
                width > 0 && height > 0 ==> width - 1 + height - 1 + frame_index <= usize::MAX,
                row <= height,
                y@.len() == row * w,
                forall|r: int, c: int|
                    0 <= r < row && 0 <= c < w ==> #[trigger] y@[r * w + c] == synthetic_luma(
                        r,
                        c,
                        frame_index as int,
                    ),
            decreases height - row,
        {
            let mut col: usize = 0;
            while col < width
                invariant
                    w == width,
                    width > 0 ==> width - 1 + height - 1 + frame_index <= usize::MAX,
                    row < height,
                    col <= width,
                    y@.len() == row * w + col,
                    forall|r: int, c: int|
                        (0 <= r < row && 0 <= c < w) || (r == row && 0 <= c < col) ==> #[trigger] y@[r
                            * w + c] == synthetic_luma(r, c, frame_index as int),
                decreases width - col,
            {
                let value = ((col + row + frame_index) % 256) as u8;
                let ghost old_y = y@;
                y.push(value);
                assert forall|r: int, c: int|
                    (0 <= r < row && 0 <= c < w) || (r == row && 0 <= c < col + 1) implies #[trigger] y@[r
                    * w + c] == synthetic_luma(r, c, frame_index as int) by {
                    lemma_plane_bound(w, row + 1, r, c);
                    if r == row && c == col {
                    } else {
                        if r < row {
                            lemma_plane_bound(w, row as int, r, c);
                        }
                        assert(y@[r * w + c] == old_y[r * w + c]);
                    }
                }
                col += 1;
            }
            assert((row + 1) * w == row * w + w) by (nonlinear_arith);
            row += 1;
        }
        assert((width / 2) * (height / 2) <= width * height) by (nonlinear_arith);
        assert(height * w == w * height) by (nonlinear_arith);
        let u = vec![128; (width / 2) * (height / 2)];
        let v = vec![128; (width / 2) * (height / 2)];
        let res = Self { width, height, y, u, v };
        assert(res.u@ =~= Seq::new(((w / 2) * (height / 2)) as nat, |i: int| neutral_chroma()));
        assert(res.v@ =~= Seq::new(((w / 2) * (height / 2)) as nat, |i: int| neutral_chroma()));
        res
    }
}

/// The frames an encoder was handed after its record held `before`.
pub open spec fn calls_since(before: Seq<EncodeCall>, after: Seq<EncodeCall>) -> Seq<EncodeCall> {
    after.skip(before.len() as int)
}

/// An encoder set up with `intra_period` was handed synthetic frame `frame_index` of
/// `width` x `height`.
pub open spec fn is_synthetic_call(
    call: EncodeCall,
    width: usize,
    height: usize,
    intra_period: u32,
    frame_index: int,
) -> bool {
    &&& call.intra_period == intra_period
    &&& call.width == width
    &&& call.height == height
    &&& is_synthetic_planes(call.y, call.u, call.v, width as int, height as int, frame_index)
}

/// Call `i` of the run handed an encoder set up with `intra_period` synthetic frame `i`.
pub open spec fn is_synthetic_run(
    calls: Seq<EncodeCall>,
    width: usize,
    height: usize,
    intra_period: u32,
) -> bool {
    forall|i: int|
        0 <= i < calls.len() ==> #[trigger] is_synthetic_call(calls[i], width, height, intra_period, i)
}

/// Every frame of the run was encoded.
pub open spec fn all_encoded(calls: Seq<EncodeCall>) -> bool {
    forall|i: int| 0 <= i < calls.len() ==> (#[trigger] calls[i]).answer is Ok
}

/// The encoder's answers for a run, laid end to end (a failed frame adds nothing).
pub open spec fn encoded_stream(calls: Seq<EncodeCall>) -> Seq<u8>
    decreases calls.len(),
{
    if calls.len() == 0 {
        seq![]
    } else {
        encoded_stream(calls.drop_last()) + match calls.last().answer {
            Ok(bytes) => bytes,
            Err(_) => seq![],
        }
    }
}

/// Intra period of the synthetic test stream: one intra frame every 30 frames.
pub const SYNTHETIC_INTRA_PERIOD: u32 = 30;

/// Takes what the encoder answered for frame `index`: its bytes are appended to `output`, or
/// its error becomes the error of frame `index` and `output` stays as it was.
pub fn append_encoded_frame(
    output: &mut Vec<u8>,
    index: usize,
    encoded: Result<Vec<u8>, openh264::Error>,
) -> (res: Result<(), H264EncodeError>)
    ensures
        encoded matches Ok(b) ==> res is Ok && final(output)@ == old(output)@ + b@,
        encoded matches Err(e) ==> res == Err::<(), H264EncodeError>(
            H264EncodeError::Frame { index, source: e },
        ) && final(output)@ == old(output)@,
{
    match encoded {
        Ok(bitstream) => {
            let mut bitstream = bitstream;
            output.append(&mut bitstream);
            Ok(())
        },
        Err(e) => Err(H264EncodeError::Frame { index, source: e }),
    }
}

/// What a synthetic run of at most `frame_count` frames gives: an encoder set up with
/// `intra_period` was handed synthetic frames 0, 1, ... in order. When all `frame_count` frames were encoded, the
/// result is their encoded bytes end to end; otherwise every frame but the last one handed
/// over was encoded, and the result is the error of that last frame.
pub open spec fn is_synthetic_run_result(
    run: Seq<EncodeCall>,
    width: usize,
    height: usize,
    intra_period: u32,
    frame_count: usize,
    res: Result<Vec<u8>, H264EncodeError>,
) -> bool {
    &&& run.len() <= frame_count
    &&& is_synthetic_run(run, width, height, intra_period)
    &&& match res {
        Ok(out) => run.len() == frame_count && all_encoded(run) && out@ == encoded_stream(run),
        Err(e) => {
            &&& run.len() > 0
            &&& all_encoded(run.drop_last())
            &&& run.last().answer matches Err(source)
            &&& e == (H264EncodeError::Frame { index: (run.len() - 1) as usize, source })
        },
    }
}

/// Hands `encoder` synthetic frames 0, 1, ... of `width` x `height`
/// (`SyntheticYuvFrame::generate_yuv420p_frame`) until `frame_count` frames are encoded or one
/// fails, and returns the encoder's output for each frame, in frame order. The first failure
/// ends the run and is reported as the error of that frame; no later frame is handed over.
pub fn encode_synthetic_frames(
    encoder: &mut H264Encoder,
    width: usize,
    height: usize,
    frame_count: usize,
) -> (res: Result<Vec<u8>, H264EncodeError>)
    requires
        frame_count > 0 ==> width % 2 == 0 && height % 2 == 0 && width * height <= usize::MAX
            && (width > 0 && height > 0 ==> width - 1 + height - 1 + frame_count - 1
            <= usize::MAX),
    ensures
        old(encoder).calls().is_prefix_of(final(encoder).calls()),
        final(encoder).intra_period() == old(encoder).intra_period(),
        is_synthetic_run_result(
            calls_since(old(encoder).calls(), final(encoder).calls()),
            width,
            height,
            old(encoder).intra_period(),
            frame_count,
            res,
        ),
{
    let ghost start = encoder.calls();
    let ghost period = encoder.intra_period();
    let mut output: Vec<u8> = Vec::new();
    let mut frame_index: usize = 0;
    while frame_index < frame_count
        invariant
            frame_count > 0 ==> width % 2 == 0 && height % 2 == 0 && width * height <= usize::MAX
                && (width > 0 && height > 0 ==> width - 1 + height - 1 + frame_count - 1
                <= usize::MAX),
            frame_index <= frame_count,
            start == old(encoder).calls(),
            period == old(encoder).intra_period(),
            start.is_prefix_of(encoder.calls()),
            encoder.intra_period() == period,
            calls_since(start, encoder.calls()).len() == frame_index,
            is_synthetic_run(calls_since(start, encoder.calls()), width, height, period),
            all_encoded(calls_since(start, encoder.calls())),
            output@ == encoded_stream(calls_since(start, encoder.calls())),
        decreases frame_count - frame_index,
    {
        let frame = SyntheticYuvFrame::generate_yuv420p_frame(width, height, frame_index);
        assert(height * width == width * height) by (nonlinear_arith);
        assert((height / 2) * (width / 2) == (width / 2) * (height / 2)) by (nonlinear_arith);
        let ghost before = encoder.calls();
        let encoded = encoder.encode(&frame.y, &frame.u, &frame.v, frame.width, frame.height);
        let ghost run = calls_since(start, encoder.calls());
        proof {
            assert(run =~= calls_since(start, before).push(encoder.calls().last()));
            assert(run.drop_last() =~= calls_since(start, before));
            assert(is_synthetic_call(
                run[frame_index as int],
                width,
                height,
                period,
                frame_index as int,
            ));
        }
        match append_encoded_frame(&mut output, frame_index, encoded) {
            Ok(()) => {},
            Err(e) => {
                return Err(e);
            },
        }
        frame_index += 1;
    }
    Ok(output)
}

/// Encodes `frame_count` synthetic frames of `width` x `height` with an OpenH264 encoder that
/// emits an intra frame every `SYNTHETIC_INTRA_PERIOD` frames, and returns the encoded Annex B
/// stream: the encoder's output for each frame, in frame order (see
/// `encode_synthetic_frames`, which it runs on that freshly set-up encoder). An encoder
/// OpenH264 refuses to set up is a `Setup` error.
pub fn encode_synthetic_h264_bytes(width: usize, height: usize, frame_count: usize) -> (res: Result<
    Vec<u8>,
    H264EncodeError,
>)
    requires
        frame_count > 0 ==> width % 2 == 0 && height % 2 == 0 && width * height <= usize::MAX
            && (width > 0 && height > 0 ==> width - 1 + height - 1 + frame_count - 1
            <= usize::MAX),
    ensures
        (res matches Err(e) && e is Setup) || (exists|run: Seq<EncodeCall>|
            is_synthetic_run_result(run, width, height, SYNTHETIC_INTRA_PERIOD, frame_count, res)),
{
    let mut encoder = match H264Encoder::with_intra_period(SYNTHETIC_INTRA_PERIOD) {
        Ok(encoder) => encoder,
        Err(e) => {
            return Err(H264EncodeError::Setup(e));
        },
    };
    let ghost start = encoder.calls();
    let res = encode_synthetic_frames(&mut encoder, width, height, frame_count);
    assert(is_synthetic_run_result(
        calls_since(start, encoder.calls()),
        width,
        height,
        SYNTHETIC_INTRA_PERIOD,
        frame_count,
        res,
    ));
    res
}

} // verus!
