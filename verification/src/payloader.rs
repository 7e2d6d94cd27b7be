//! The `rtp` crate's H.264 payloader, as the rest of the library calls it.
use rtp::codecs::h264::H264Payloader;
use rtp::packetizer::Payloader;
use vstd::prelude::*;

verus! {

/// The `rtp` crate's H.264 payloader. It keeps the last SPS and PPS it saw, opaque here.
#[verifier::external_type_specification]
#[verifier::external_body]
pub struct ExH264Payloader(rtp::codecs::h264::H264Payloader);

/// The `rtp` crate's error.
#[verifier::external_type_specification]
#[verifier::external_body]
pub struct ExRtpError(rtp::Error);

/// One stream handed to an [`RtpH264Payloader`]: the MTU, the Annex B bytes, and the
/// payloads that came back.
pub struct PayloadCall {
    pub mtu: usize,
    pub stream: Seq<u8>,
    pub payloads: Seq<Seq<u8>>,
}

/// The `rtp` crate's H.264 payloader together with a ghost record of every stream it was
/// handed, in order, with the payloads it gave for it. Only the trusted calls below, which
/// make the `rtp` calls, state what the record holds; it takes no space at run time.
pub struct RtpH264Payloader {
    payloader: H264Payloader,
    calls: Ghost<Seq<PayloadCall>>,
}

impl RtpH264Payloader {
    /// The streams handed to this payloader so far, oldest first, with their payloads.
    pub closed spec fn calls(&self) -> Seq<PayloadCall> {
        self.calls@
    }

    /// Calls `H264Payloader::default()`: a payloader that has seen no SPS or PPS and no
    /// stream yet.
    #[verifier::external_body]
    fn open() -> (res: Self)
        ensures
            res.calls().len() == 0,
    {
        RtpH264Payloader { payloader: H264Payloader::default(), calls: Ghost(Seq::empty()) }
    }

    /// Calls `Payloader::payload` of `H264Payloader` on an Annex B byte stream, hands the
    /// payloads back as byte vectors, and the record gains the call. The crate's source
    /// returns `Ok` on every path, gives no payload for an empty stream or an MTU of 0, and
    /// never gives an empty payload or one longer than `mtu` (non-empty single NAL units only
    /// when they fit, FU-A fragments of at most `mtu - 2` bytes behind their two header
    /// bytes, an SPS/PPS aggregate only when it fits). Which payloads come out depends on the
    /// SPS and PPS the payloader kept from earlier calls, so that is not stated.
    #[verifier::external_body]
    fn payload_stream(&mut self, mtu: usize, stream: &[u8]) -> (res: Result<
        Vec<Vec<u8>>,
        rtp::Error,
    >)
        ensures
            res is Ok,
            res matches Ok(payloads) ==> final(self).calls() == old(self).calls().push(
                PayloadCall {
                    mtu,
                    stream: stream@,
                    payloads: payloads@.map_values(|p: Vec<u8>| p@),
                },
            ),
            res matches Ok(payloads) ==> (stream.len() == 0 || mtu == 0 ==> payloads.len() == 0),
            res matches Ok(payloads) ==> forall|i: int|
                0 <= i < payloads.len() ==> 0 < (#[trigger] payloads[i]).len() <= mtu,
    {
        match self.payloader.payload(mtu, &stream.to_vec().into()) {
            Ok(payloads) => Ok(payloads.iter().map(|p| p.to_vec()).collect()),
            Err(e) => Err(e),
        }
    }

    /// A payloader that has seen nothing yet.
    pub fn new() -> (res: Self)
        ensures
            res.calls().len() == 0,
    {
        Self::open()
    }

    /// Cuts an Annex B stream into H.264 RTP payloads of at most `mtu` bytes; the record
    /// gains the call.
    pub fn payload(&mut self, mtu: usize, stream: &[u8]) -> (payloads: Vec<Vec<u8>>)
        ensures
            final(self).calls() == old(self).calls().push(
                PayloadCall {
                    mtu,
                    stream: stream@,
                    payloads: payloads@.map_values(|p: Vec<u8>| p@),
                },
            ),
            stream.len() == 0 || mtu == 0 ==> payloads.len() == 0,
            forall|i: int| 0 <= i < payloads.len() ==> 0 < (#[trigger] payloads[i]).len() <= mtu,
    {
        match self.payload_stream(mtu, stream) {
            Ok(payloads) => payloads,
            Err(_) => {
                proof {
                    assert(false);
                }
                Vec::new()
            },
        }
    }
}

} // verus!
