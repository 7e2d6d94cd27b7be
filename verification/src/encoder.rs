//! The OpenH264 encoder, as the rest of the library calls it.
use openh264::encoder::{Encoder, EncoderConfig, IntraFramePeriod};
use openh264::formats::YUVSlices;
use openh264::OpenH264API;
use vstd::prelude::*;

verus! {

/// OpenH264's encoder. Its state (configuration, reference frames) is opaque here.
#[verifier::external_type_specification]
#[verifier::external_body]
pub struct ExEncoder(openh264::encoder::Encoder);

/// OpenH264's error.
#[verifier::external_type_specification]
#[verifier::external_body]
pub struct ExOpenH264Error(openh264::Error);

/// Why encoding to H.264 failed.
#[derive(Debug)]
pub enum H264EncodeError {
    /// The encoder could not be created.
    Setup(openh264::Error),
    /// Encoding the frame at this position failed.
    Frame { index: usize, source: openh264::Error },
}

/// One frame handed to an [`H264Encoder`]: its planes and size, the intra period the encoder
/// was set up with, and what the encoder answered (the encoded bytes, or its error).
pub struct EncodeCall {
    pub y: Seq<u8>,
    pub u: Seq<u8>,
    pub v: Seq<u8>,
    pub width: usize,
    pub height: usize,
    pub intra_period: u32,
    pub answer: Result<Seq<u8>, openh264::Error>,
}

/// An encoder's answer, its bytes taken as a sequence.
pub open spec fn encode_answer(res: Result<Vec<u8>, openh264::Error>) -> Result<
    Seq<u8>,
    openh264::Error,
> {
    match res {
        Ok(bytes) => Ok(bytes@),
        Err(e) => Err(e),
    }
}

/// An OpenH264 encoder together with a ghost record of how it was set up and of every frame
/// it was handed, in order, with its answer. Only the trusted calls below, which make the
/// OpenH264 calls, state what the record holds; the record takes no space at run time.
pub struct H264Encoder {
    encoder: Encoder,
    intra_period: Ghost<u32>,
    calls: Ghost<Seq<EncodeCall>>,
}

impl H264Encoder {
    /// The frames handed to this encoder so far, oldest first, with the answers.
    pub closed spec fn calls(&self) -> Seq<EncodeCall> {
        self.calls@
    }

    /// The intra period this encoder was set up with (0 leaves the choice to OpenH264, as
    /// its default configuration does).
    pub closed spec fn intra_period(&self) -> u32 {
        self.intra_period@
    }

    /// Calls `Encoder::new()`: an encoder built from the bundled OpenH264 source with
    /// `EncoderConfig::new()`, whose intra period is `IntraFramePeriod::from_num_frames(0)`.
    /// OpenH264 may refuse for reasons its documentation does not state, so success is not
    /// promised; an encoder that comes back has been handed no frame yet.
    #[verifier::external_body]
    fn open_default() -> (res: Result<Self, openh264::Error>)
        ensures
            res matches Ok(e) ==> e.calls().len() == 0 && e.intra_period() == 0,
    {
        match Encoder::new() {
            Ok(encoder) => Ok(H264Encoder { encoder, intra_period: Ghost(0), calls: Ghost(Seq::empty()) }),
            Err(e) => Err(e),
        }
    }

    /// Calls `Encoder::with_api_config` with the bundled OpenH264 build and
    /// `EncoderConfig::new()` changed by `intra_frame_period(IntraFramePeriod::from_num_frames(
    /// intra_period))`. Setup may fail for reasons OpenH264 does not document, so success is
    /// not promised; an encoder that comes back has that intra period and no frame yet.
    #[verifier::external_body]
    fn open_with_intra_period(intra_period: u32) -> (res: Result<Self, openh264::Error>)
        ensures
            res matches Ok(e) ==> e.calls().len() == 0 && e.intra_period() == intra_period,
    {
        let config = EncoderConfig::new().intra_frame_period(
            IntraFramePeriod::from_num_frames(intra_period),
        );
        match Encoder::with_api_config(OpenH264API::from_source(), config) {
            Ok(encoder) => Ok(
                H264Encoder { encoder, intra_period: Ghost(intra_period), calls: Ghost(Seq::empty()) },
            ),
            Err(e) => Err(e),
        }
    }

    /// Calls `Encoder::encode` on `YUVSlices::new((y, u, v), (width, height), (width, width / 2,
    /// width / 2))` and collects the encoded NAL units with `EncodedBitStream::to_vec`; the
    /// record gains this frame and the answer. `YUVSlices::new` panics unless the plane sizes
    /// match the dimensions, hence the `requires`. What OpenH264 answers depends on the frames
    /// it saw before and on its own threading, so the answer itself is not stated.
    #[verifier::external_body]
    fn encode_planes(&mut self, y: &[u8], u: &[u8], v: &[u8], width: usize, height: usize) -> (res:
        Result<Vec<u8>, openh264::Error>)
        requires
            y.len() == height * width,
            u.len() == (height / 2) * (width / 2),
            v.len() == (height / 2) * (width / 2),
        ensures
            final(self).calls() == old(self).calls().push(
                EncodeCall {
                    y: y@,
                    u: u@,
                    v: v@,
                    width,
                    height,
                    intra_period: old(self).intra_period(),
                    answer: encode_answer(res),
                },
            ),
            final(self).intra_period() == old(self).intra_period(),
    {
        let yuv = YUVSlices::new((y, u, v), (width, height), (width, width / 2, width / 2));
        match self.encoder.encode(&yuv) {
            Ok(bitstream) => Ok(bitstream.to_vec()),
            Err(e) => Err(e),
        }
    }

    /// An encoder with OpenH264's default configuration. OpenH264 may refuse; its error is
    /// handed back.
    pub fn new() -> (res: Result<Self, openh264::Error>)
        ensures
            res matches Ok(e) ==> e.calls().len() == 0 && e.intra_period() == 0,
    {
        Self::open_default()
    }

    /// An encoder that emits an intra frame every `intra_period` frames. OpenH264 may refuse;
    /// its error is handed back.
    pub fn with_intra_period(intra_period: u32) -> (res: Result<Self, openh264::Error>)
        ensures
            res matches Ok(e) ==> e.calls().len() == 0 && e.intra_period() == intra_period,
    {
        Self::open_with_intra_period(intra_period)
    }

    /// Encodes one unpadded YUV 4:2:0 frame of `width` x `height` (strides `width`,
    /// `width / 2`, `width / 2`); the record gains the frame and the answer.
    pub fn encode(&mut self, y: &[u8], u: &[u8], v: &[u8], width: usize, height: usize) -> (res:
        Result<Vec<u8>, openh264::Error>)
        requires
            y.len() == height * width,
            u.len() == (height / 2) * (width / 2),
            v.len() == (height / 2) * (width / 2),
        ensures
            final(self).calls() == old(self).calls().push(
                EncodeCall {
                    y: y@,
                    u: u@,
                    v: v@,
                    width,
                    height,
                    intra_period: old(self).intra_period(),
                    answer: encode_answer(res),
                },
            ),
            final(self).intra_period() == old(self).intra_period(),
    {
        self.encode_planes(y, u, v, width, height)
    }
}

} // verus!
