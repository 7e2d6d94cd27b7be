//! Camera frames to encoder input: packed YUYV 4:2:2 to planar YUV 4:2:0.
use crate::encoder::{EncodeCall, H264EncodeError, H264Encoder};
use crate::payloader::{PayloadCall, RtpH264Payloader};
use vstd::prelude::*;

verus! {

/// Position `row * width + col` of a pixel in a plane of rows of `width` samples is unique.
pub proof fn lemma_plane_index(width: int, row: int, col: int, row2: int, col2: int)
    requires
        0 <= col < width,
        0 <= col2 < width,
        0 <= row,
        0 <= row2,
        row * width + col == row2 * width + col2,
    ensures
        row == row2,
        col == col2,
{
    if row < row2 {
        assert(row * width + col < row2 * width + col2) by (nonlinear_arith)
            requires
                row < row2,
                0 <= col < width,
                0 <= col2,
        ;
    }
    if row2 < row {
        assert(row2 * width + col2 < row * width + col) by (nonlinear_arith)
            requires
                row2 < row,
                0 <= col2 < width,
                0 <= col,
        ;
    }
}

/// Pixels of a plane of `rows` rows of `width` samples lie inside the plane.
pub proof fn lemma_plane_bound(width: int, rows: int, row: int, col: int)
    requires
        0 <= col < width,
        0 <= row < rows,
    ensures
        0 <= row * width + col < rows * width,
        row * width + col + 1 <= (row + 1) * width,
        (row + 1) * width <= rows * width,
{
    assert(0 <= row * width + col < rows * width) by (nonlinear_arith)
        requires
            0 <= col < width,
            0 <= row < rows,
    ;
    assert((row + 1) * width == row * width + width) by (nonlinear_arith);
    assert((row + 1) * width <= rows * width) by (nonlinear_arith)
        requires
            row + 1 <= rows,
            width > 0,
    ;
}

/// The luma sample of pixel (`row`, `col`) in a packed YUYV frame: every pixel has its own
/// Y byte at twice its position.
pub open spec fn yuyv_luma(buffer: Seq<u8>, width: int, row: int, col: int) -> u8 {
    buffer[(row * width + col) * 2]
}

/// A chroma sample of the 2x2 block (`row_pair`, `pair`) in 4:2:0: the mean of the samples
/// of the two rows of the block, rounded down. `offset` is 1 for U and 3 for V.
pub open spec fn yuyv_chroma(buffer: Seq<u8>, width: int, row_pair: int, pair: int, offset: int) -> u8 {
    let top = (2 * row_pair) * width * 2 + pair * 4 + offset;
    let bottom = (2 * row_pair + 1) * width * 2 + pair * 4 + offset;
    ((buffer[top] as int + buffer[bottom] as int) / 2) as u8
}

/// Whether the planes are the 4:2:0 conversion of a packed YUYV frame of `width` x `height`.
pub open spec fn is_yuv420p_of_yuyv(
    buffer: Seq<u8>,
    width: int,
    height: int,
    y: Seq<u8>,
    u: Seq<u8>,
    v: Seq<u8>,
) -> bool {
    let half_w = width / 2;
    let half_h = height / 2;
    &&& y.len() == width * height
    &&& u.len() == half_w * half_h
    &&& v.len() == half_w * half_h
    &&& forall|row: int, col: int|
        0 <= row < height && 0 <= col < width ==> #[trigger] y[row * width + col] == yuyv_luma(
            buffer,
            width,
            row,
            col,
        )
    &&& forall|rp: int, p: int|
        0 <= rp < half_h && 0 <= p < half_w ==> #[trigger] u[rp * half_w + p] == yuyv_chroma(
            buffer,
            width,
            rp,
            p,
            1,
        )
    &&& forall|rp: int, p: int|
        0 <= rp < half_h && 0 <= p < half_w ==> #[trigger] v[rp * half_w + p] == yuyv_chroma(
            buffer,
            width,
            rp,
            p,
            3,
        )
}

/// Law: in a 4:2:0 conversion of a packed YUYV frame, the luma of each pixel is the Y byte at
/// twice the pixel's position in the frame, and each chroma sample of the 2x2 block
/// (`row_pair`, `pair`) is the mean, rounded down, of the byte at
/// `4 * (row_pair * width + pair) + offset` (top row) and the byte `2 * width` further on
/// (bottom row), with `offset` 1 for U and 3 for V.
pub proof fn lemma_yuyv_conversion_samples(
    buffer: Seq<u8>,
    width: int,
    height: int,
    y: Seq<u8>,
    u: Seq<u8>,
    v: Seq<u8>,
)
    requires
        is_yuv420p_of_yuyv(buffer, width, height, y, u, v),
    ensures
        y.len() == width * height,
        u.len() == (width / 2) * (height / 2),
        v.len() == (width / 2) * (height / 2),
        forall|row: int, col: int|
            0 <= row < height && 0 <= col < width ==> #[trigger] y[row * width + col] == buffer[2 * (
            row * width + col)],
        forall|rp: int, p: int|
            0 <= rp < height / 2 && 0 <= p < width / 2 ==> #[trigger] u[rp * (width / 2) + p] == ((
            buffer[4 * (rp * width + p) + 1] as int + buffer[4 * (rp * width + p) + 2 * width + 1] as int)
                / 2) as u8,
        forall|rp: int, p: int|
            0 <= rp < height / 2 && 0 <= p < width / 2 ==> #[trigger] v[rp * (width / 2) + p] == ((
            buffer[4 * (rp * width + p) + 3] as int + buffer[4 * (rp * width + p) + 2 * width + 3] as int)
                / 2) as u8,
{
    assert forall|row: int, col: int| 0 <= row < height && 0 <= col < width implies #[trigger] y[row
        * width + col] == buffer[2 * (row * width + col)] by {
        assert(y[row * width + col] == yuyv_luma(buffer, width, row, col));
    }
    assert forall|rp: int, p: int| 0 <= rp < height / 2 && 0 <= p < width / 2 implies #[trigger] u[rp
        * (width / 2) + p] == ((buffer[4 * (rp * width + p) + 1] as int + buffer[4 * (rp * width + p)
        + 2 * width + 1] as int) / 2) as u8 by {
        assert(u[rp * (width / 2) + p] == yuyv_chroma(buffer, width, rp, p, 1));
        assert((2 * rp) * width * 2 + p * 4 == 4 * (rp * width + p)) by (nonlinear_arith);
        assert((2 * rp + 1) * width * 2 + p * 4 == 4 * (rp * width + p) + 2 * width)
            by (nonlinear_arith);
    }
    assert forall|rp: int, p: int| 0 <= rp < height / 2 && 0 <= p < width / 2 implies #[trigger] v[rp
        * (width / 2) + p] == ((buffer[4 * (rp * width + p) + 3] as int + buffer[4 * (rp * width + p)
        + 2 * width + 3] as int) / 2) as u8 by {
        assert(v[rp * (width / 2) + p] == yuyv_chroma(buffer, width, rp, p, 3));
        assert((2 * rp) * width * 2 + p * 4 == 4 * (rp * width + p)) by (nonlinear_arith);
        assert((2 * rp + 1) * width * 2 + p * 4 == 4 * (rp * width + p) + 2 * width)
            by (nonlinear_arith);
    }
}

/// Converts a packed YUYV 4:2:2 frame to planar YUV 4:2:0: Y keeps every sample, U and V
/// average each pair of rows. Gives nothing when a dimension is odd or the buffer does not
/// hold exactly `width * height * 2` bytes.
pub fn yuyv_to_yuv420p(buffer: &[u8], width: usize, height: usize) -> (res: Option<
    (Vec<u8>, Vec<u8>, Vec<u8>),
>)
    requires
        width % 2 == 0 && height % 2 == 0 ==> width * height * 2 <= usize::MAX,
    ensures
        res is None <==> (width % 2 != 0 || height % 2 != 0 || buffer.len() != width * height
            * 2),
        res matches Some((y, u, v)) ==> is_yuv420p_of_yuyv(
            buffer@,
            width as int,
            height as int,
            y@,
            u@,
            v@,
        ),
{
    if width % 2 != 0 || height % 2 != 0 {
        return None;
    }
    if buffer.len() != width * height * 2 {
        return None;
    }
    let ghost w = width as int;
    let ghost h = height as int;
    let half_w = width / 2;
    let half_h = height / 2;
    assert(half_w * half_h <= width * height) by (nonlinear_arith)
        requires
            half_w * 2 == width,
            half_h * 2 == height,
    ;
    let mut u_plane: Vec<u8> = Vec::with_capacity(half_w * half_h);
    let mut v_plane: Vec<u8> = Vec::with_capacity(half_w * half_h);
    let mut y_plane: Vec<u8> = vec![0; width * height];
    let mut row_pair: usize = 0;
    while row_pair < half_h
        invariant
            buffer@.len() == w * h * 2,
            w == width,
            h == height,
            half_w * 2 == width,
            half_h * 2 == height,
            half_w * half_h <= width * height,
            width * height * 2 <= usize::MAX,
            row_pair <= half_h,
            y_plane@.len() == w * h,
            u_plane@.len() == row_pair * half_w,
            v_plane@.len() == row_pair * half_w,
            forall|row: int, col: int|
                0 <= row < 2 * row_pair && 0 <= col < w ==> #[trigger] y_plane@[row * w + col]
                    == yuyv_luma(buffer@, w, row, col),
            forall|rp: int, p: int|
                0 <= rp < row_pair && 0 <= p < half_w ==> #[trigger] u_plane@[rp * half_w + p]
                    == yuyv_chroma(buffer@, w, rp, p, 1),
            forall|rp: int, p: int|
                0 <= rp < row_pair && 0 <= p < half_w ==> #[trigger] v_plane@[rp * half_w + p]
                    == yuyv_chroma(buffer@, w, rp, p, 3),
        decreases half_h - row_pair,
    {
        let top_row = row_pair * 2;
        let bottom_row = top_row + 1;
        let mut pair: usize = 0;
        while pair < half_w
            invariant
                buffer@.len() == w * h * 2,
                w == width,
                h == height,
                half_w * 2 == width,
                half_h * 2 == height,
                width * height * 2 <= usize::MAX,
                row_pair < half_h,
                top_row == 2 * row_pair,
                bottom_row == top_row + 1,
                pair <= half_w,
                y_plane@.len() == w * h,
                u_plane@.len() == row_pair * half_w + pair,
                v_plane@.len() == row_pair * half_w + pair,
                forall|row: int, col: int|
                    (0 <= row < 2 * row_pair && 0 <= col < w) || ((row == top_row || row
                        == bottom_row) && 0 <= col < 2 * pair) ==> #[trigger] y_plane@[row * w
                        + col] == yuyv_luma(buffer@, w, row, col),
                forall|rp: int, p: int|
                    (0 <= rp < row_pair && 0 <= p < half_w) || (rp == row_pair && 0 <= p < pair)
                        ==> #[trigger] u_plane@[rp * half_w + p] == yuyv_chroma(buffer@, w, rp, p, 1),
                forall|rp: int, p: int|
                    (0 <= rp < row_pair && 0 <= p < half_w) || (rp == row_pair && 0 <= p < pair)
                        ==> #[trigger] v_plane@[rp * half_w + p] == yuyv_chroma(buffer@, w, rp, p, 3),
            decreases half_w - pair,
        {
            let x = pair * 2;
            proof {
                lemma_plane_bound(w, h, top_row as int, x as int);
                lemma_plane_bound(w, h, top_row as int, x + 1);
                lemma_plane_bound(w, h, bottom_row as int, x as int);
                lemma_plane_bound(w, h, bottom_row as int, x + 1);
                assert(top_row * width * 2 + pair * 4 == (top_row * w + x) * 2) by (nonlinear_arith)
                    requires
                        x == pair * 2,
                        w == width,
                ;
                assert(bottom_row * width * 2 + pair * 4 == (bottom_row * w + x) * 2)
                    by (nonlinear_arith)
                    requires
                        x == pair * 2,
                        w == width,
                ;
                assert((bottom_row * w + x + 1) * 2 + 1 < w * h * 2) by (nonlinear_arith)
                    requires
                        bottom_row * w + x + 1 < w * h,
                ;
            }
            let top_offset = top_row * width * 2 + pair * 4;
            let bottom_offset = bottom_row * width * 2 + pair * 4;
            let ghost old_y = y_plane@;
            let top_index = top_row * width + x;
            let bottom_index = bottom_row * width + x;
            y_plane.set(top_index, buffer[top_offset]);
            y_plane.set(top_index + 1, buffer[top_offset + 2]);
            y_plane.set(bottom_index, buffer[bottom_offset]);
            y_plane.set(bottom_index + 1, buffer[bottom_offset + 2]);
            assert forall|row: int, col: int|
                (0 <= row < 2 * row_pair && 0 <= col < w) || ((row == top_row || row == bottom_row)
                    && 0 <= col < 2 * (pair + 1)) implies #[trigger] y_plane@[row * w + col]
                == yuyv_luma(buffer@, w, row, col) by {
                lemma_plane_bound(w, h, row, col);
                if row * w + col == top_index as int {
                    lemma_plane_index(w, row, col, top_row as int, x as int);
                } else if row * w + col == top_index + 1 {
                    lemma_plane_index(w, row, col, top_row as int, x + 1);
                } else if row * w + col == bottom_index as int {
                    lemma_plane_index(w, row, col, bottom_row as int, x as int);
                } else if row * w + col == bottom_index + 1 {
                    lemma_plane_index(w, row, col, bottom_row as int, x + 1);
                } else {
                    assert(y_plane@[row * w + col] == old_y[row * w + col]);
                    if row == top_row || row == bottom_row {
                        if col >= 2 * pair {
                            assert(col == x || col == x + 1);
                        }
                    }
                }
            }
            let u1 = buffer[top_offset + 1] as u16;
            let v1 = buffer[top_offset + 3] as u16;
            let u2 = buffer[bottom_offset + 1] as u16;
            let v2 = buffer[bottom_offset + 3] as u16;
            let ghost old_u = u_plane@;
            let ghost old_v = v_plane@;
            u_plane.push(((u1 + u2) / 2) as u8);
            v_plane.push(((v1 + v2) / 2) as u8);
            assert(top_offset == (2 * row_pair) * w * 2 + pair * 4);
            assert(bottom_offset == (2 * row_pair + 1) * w * 2 + pair * 4);
            assert forall|rp: int, p: int|
                (0 <= rp < row_pair && 0 <= p < half_w) || (rp == row_pair && 0 <= p < pair + 1)
                    implies #[trigger] u_plane@[rp * half_w + p] == yuyv_chroma(buffer@, w, rp, p, 1) by {
                lemma_plane_bound(half_w as int, half_h as int, rp, p);
                if rp == row_pair && p == pair {
                } else {
                    if rp < row_pair {
                        lemma_plane_bound(half_w as int, row_pair as int, rp, p);
                    }
                    assert(u_plane@[rp * half_w + p] == old_u[rp * half_w + p]);
                }
            }
            assert forall|rp: int, p: int|
                (0 <= rp < row_pair && 0 <= p < half_w) || (rp == row_pair && 0 <= p < pair + 1)
                    implies #[trigger] v_plane@[rp * half_w + p] == yuyv_chroma(buffer@, w, rp, p, 3) by {
                lemma_plane_bound(half_w as int, half_h as int, rp, p);
                if rp == row_pair && p == pair {
                } else {
                    if rp < row_pair {
                        lemma_plane_bound(half_w as int, row_pair as int, rp, p);
                    }
                    assert(v_plane@[rp * half_w + p] == old_v[rp * half_w + p]);
                }
            }
            pair += 1;
        }
        assert((row_pair + 1) * half_w == row_pair * half_w + half_w) by (nonlinear_arith);
        row_pair += 1;
    }
    assert(half_h * half_w == half_w * half_h) by (nonlinear_arith);
    let ghost y = y_plane@;
    assert forall|row: int, col: int| 0 <= row < h && 0 <= col < w implies #[trigger] y[row * w
        + col] == yuyv_luma(buffer@, w, row, col) by {}
    Some((y_plane, u_plane, v_plane))
}

/// A camera frame that `yuyv_to_yuv420p` refuses: an odd dimension, or a buffer that does
/// not hold exactly `width * height * 2` bytes.
pub open spec fn is_refused_frame(buffer: Seq<u8>, width: usize, height: usize) -> bool {
    width % 2 != 0 || height % 2 != 0 || buffer.len() != width * height * 2
}

/// The encoder was handed the 4:2:0 conversion of this packed YUYV frame, at its size.
pub open spec fn encodes_camera_frame(call: EncodeCall, buffer: Seq<u8>, width: usize, height: usize) -> bool {
    &&& call.width == width
    &&& call.height == height
    &&& is_yuv420p_of_yuyv(buffer, width as int, height as int, call.y, call.u, call.v)
}

/// How many camera frames the capture loop takes before it stops.
pub const CAPTURE_FRAME_COUNT: usize = 200;

/// The MTU the capture loop cuts encoded frames to.
pub const CAPTURE_MTU: usize = 1200;

/// Turns camera frames into RTP payloads: YUYV to YUV 4:2:0, OpenH264 encoding with the
/// default settings, then H.264 RTP payloading.
pub struct CameraStreamEncoder {
    encoder: H264Encoder,
    payloader: RtpH264Payloader,
}

impl CameraStreamEncoder {
    /// The frames handed to the encoder so far, with its answers.
    pub closed spec fn encoded(&self) -> Seq<EncodeCall> {
        self.encoder.calls()
    }

    /// The bitstreams handed to the payloader so far, with its payloads.
    pub closed spec fn payloaded(&self) -> Seq<PayloadCall> {
        self.payloader.calls()
    }

    /// The intra period the encoder was set up with.
    pub closed spec fn intra_period(&self) -> u32 {
        self.encoder.intra_period()
    }

    /// An encoder with OpenH264's default settings (intra period 0, left to OpenH264) and a
    /// fresh payloader.
    pub fn new() -> (res: Result<Self, H264EncodeError>)
        ensures
            res matches Ok(s) ==> s.encoded().len() == 0 && s.payloaded().len() == 0
                && s.intra_period() == 0,
            res matches Err(e) ==> e is Setup,
    {
        match H264Encoder::new() {
            Ok(encoder) => Ok(CameraStreamEncoder { encoder, payloader: RtpH264Payloader::new() }),
            Err(e) => Err(H264EncodeError::Setup(e)),
        }
    }

    /// Encodes one unpadded YUV 4:2:0 frame of `width` x `height`. The encoder gets exactly
    /// these planes; what it encodes comes back, and its failure is reported as the error of
    /// frame `frame_index`. The payloader sees nothing.
    pub fn encode_planes(
        &mut self,
        y: &[u8],
        u: &[u8],
        v: &[u8],
        width: usize,
        height: usize,
        frame_index: usize,
    ) -> (res: Result<Vec<u8>, H264EncodeError>)
        requires
            y.len() == height * width,
            u.len() == (height / 2) * (width / 2),
            v.len() == (height / 2) * (width / 2),
        ensures
            final(self).encoded().len() == old(self).encoded().len() + 1,
            final(self).encoded().drop_last() == old(self).encoded(),
            final(self).encoded().last().y == y@,
            final(self).encoded().last().u == u@,
            final(self).encoded().last().v == v@,
            final(self).encoded().last().width == width,
            final(self).encoded().last().height == height,
            final(self).encoded().last().intra_period == old(self).intra_period(),
            match final(self).encoded().last().answer {
                Ok(bitstream) => res matches Ok(out) && out@ == bitstream,
                Err(source) => res == Err::<Vec<u8>, H264EncodeError>(
                    H264EncodeError::Frame { index: frame_index, source },
                ),
            },
            final(self).payloaded() == old(self).payloaded(),
            final(self).intra_period() == old(self).intra_period(),
    {
        let ghost before = self.encoder.calls();
        let res = self.encoder.encode(y, u, v, width, height);
        assert(self.encoder.calls().drop_last() =~= before);
        match res {
            Ok(bitstream) => Ok(bitstream),
            Err(e) => Err(H264EncodeError::Frame { index: frame_index, source: e }),
        }
    }

    /// Cuts an encoded bitstream into RTP payloads of at most `mtu` bytes. The payloader gets
    /// exactly this bitstream and `mtu`; the encoder sees nothing.
    pub fn payload_bitstream(&mut self, mtu: usize, bitstream: &[u8]) -> (payloads: Vec<Vec<u8>>)
        ensures
            final(self).payloaded() == old(self).payloaded().push(
                PayloadCall {
                    mtu,
                    stream: bitstream@,
                    payloads: payloads@.map_values(|p: Vec<u8>| p@),
                },
            ),
            bitstream.len() == 0 || mtu == 0 ==> payloads.len() == 0,
            forall|i: int| 0 <= i < payloads.len() ==> 0 < (#[trigger] payloads[i]).len() <= mtu,
            final(self).encoded() == old(self).encoded(),
            final(self).intra_period() == old(self).intra_period(),
    {
        self.payloader.payload(mtu, bitstream)
    }

    /// Encodes one packed YUYV camera frame and cuts the result into RTP payloads of at most
    /// `mtu` bytes. A frame that `yuyv_to_yuv420p` refuses (odd size, wrong length) is
    /// skipped: `Ok(None)`, and neither the encoder nor the payloader sees anything.
    /// Otherwise the encoder gets the converted planes; an encoder failure is reported as the
    /// error of frame `frame_index`, and what it encodes goes to the payloader with `mtu`.
    pub fn encode_frame(
        &mut self,
        buffer: &[u8],
        width: usize,
        height: usize,
        mtu: usize,
        frame_index: usize,
    ) -> (res: Result<Option<Vec<Vec<u8>>>, H264EncodeError>)
        requires
            width % 2 == 0 && height % 2 == 0 ==> width * height * 2 <= usize::MAX,
        ensures
            res matches Ok(None) <==> is_refused_frame(buffer@, width, height),
            is_refused_frame(buffer@, width, height) ==> final(self).encoded() == old(
                self,
            ).encoded() && final(self).payloaded() == old(self).payloaded(),
            !is_refused_frame(buffer@, width, height) ==> final(self).encoded().len() == old(
                self,
            ).encoded().len() + 1 && final(self).encoded().drop_last() == old(self).encoded()
                && encodes_camera_frame(final(self).encoded().last(), buffer@, width, height)
                && final(self).encoded().last().intra_period == old(self).intra_period(),
            !is_refused_frame(buffer@, width, height) ==> match final(self).encoded().last().answer {
                Ok(bitstream) => res matches Ok(Some(payloads)) && final(self).payloaded() == old(
                    self,
                ).payloaded().push(
                    PayloadCall {
                        mtu,
                        stream: bitstream,
                        payloads: payloads@.map_values(|p: Vec<u8>| p@),
                    },
                ),
                Err(source) => res == Err::<Option<Vec<Vec<u8>>>, H264EncodeError>(
                    H264EncodeError::Frame { index: frame_index, source },
                ) && final(self).payloaded() == old(self).payloaded(),
            },
            res matches Ok(Some(payloads)) ==> forall|i: int|
                0 <= i < payloads.len() ==> 0 < (#[trigger] payloads[i]).len() <= mtu,
            final(self).intra_period() == old(self).intra_period(),
    {
        match yuyv_to_yuv420p(buffer, width, height) {
            None => Ok(None),
            Some((y, u, v)) => {
                assert(height * width == width * height) by (nonlinear_arith);
                assert((height / 2) * (width / 2) == (width / 2) * (height / 2)) by (nonlinear_arith);
                match self.encode_planes(&y, &u, &v, width, height, frame_index) {
                    Ok(bitstream) => Ok(Some(self.payload_bitstream(mtu, &bitstream))),
                    Err(e) => Err(e),
                }
            },
        }
    }
}

} // verus!
