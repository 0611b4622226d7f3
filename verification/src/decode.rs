//! Decoding the NAL units of the screen stream with OpenH264 and repacking
//! each decoded picture into tight planes.
use vstd::prelude::*;
use openh264::decoder::Decoder;
use openh264::formats::YUVSource;
use crate::annexb::{NalBuffer, complete_nals, trailing_partial};
use crate::frame::{YuvFrame, frame_fits, repack_tight, repacked};

verus! {

/// The OpenH264 decoder type (`openh264::decoder::Decoder`), opaque here:
/// its state is only carried from one call to the next.
#[verifier::external_type_specification]
#[verifier::external_body]
pub struct ExDecoder(openh264::decoder::Decoder);

/// The OpenH264 error type (`openh264::Error`), opaque here: it is only
/// carried through to be reported.
#[verifier::external_type_specification]
#[verifier::external_body]
pub struct ExOpenH264Error(openh264::Error);

/// An OpenH264 decoder together with, as ghost state, the record of the
/// packets handed to it so far and the answer it gave to the last one; only
/// its two trusted methods below set them.
pub struct H264 {
    inner: Decoder,
    fed: Ghost<Seq<Seq<u8>>>,
    answer: Ghost<Result<Option<YuvFrame>, openh264::Error>>,
}

impl H264 {
    /// The packets handed to the decoder so far, in order.
    pub closed spec fn fed(&self) -> Seq<Seq<u8>> {
        self.fed@
    }

    /// What the decoder answered to the last packet handed to it.
    pub closed spec fn last_answer(&self) -> Result<Option<YuvFrame>, openh264::Error> {
        self.answer@
    }

    /// Creates an OpenH264 decoder with default settings
    /// (`openh264::decoder::Decoder::new`), with nothing fed yet. Whether it
    /// succeeds is not promised: the crate documents that it should not fail
    /// but may.
    #[verifier::external_body]
    fn create() -> (r: Result<H264, openh264::Error>)
        ensures
            r matches Ok(d) ==> d.fed() == Seq::<Seq<u8>>::empty(),
    {
        match Decoder::new() {
            Ok(inner) => Ok(H264 { inner, fed: Ghost(Seq::empty()), answer: Ghost(Ok(None)) }),
            Err(e) => Err(e),
        }
    }

    /// Hands `packet` to the decoder (`openh264::decoder::Decoder::decode`),
    /// which records it as fed, and copies out the picture returned, if any;
    /// what is returned is recorded as the last answer.
    /// The result depends on everything fed before, so only what holds of
    /// every picture is stated: the `U` and `V` strides are the same value,
    /// and (as `DecodedYUV` builds its slices from `height * stride` in
    /// `i32`) the planes are `height * stride_y` and `height * stride_u / 2`
    /// bytes long whenever those products fit in an `i32`.
    #[verifier::external_body]
    fn decode(&mut self, packet: &[u8]) -> (r: Result<Option<YuvFrame>, openh264::Error>)
        ensures
            final(self).fed() == old(self).fed().push(packet@),
            final(self).last_answer() == r,
            r matches Ok(Some(f)) ==> f.stride_u == f.stride_v,
            r matches Ok(Some(f)) ==> (f.height * f.stride_y <= i32::MAX ==> f.y@.len()
                == f.height * f.stride_y),
            r matches Ok(Some(f)) ==> (f.height * f.stride_u <= i32::MAX ==> f.u@.len() == (
            f.height * f.stride_u) / 2 && f.v@.len() == (f.height * f.stride_u) / 2),
    {
        self.fed = Ghost(self.fed@.push(packet@));
        let r = match self.inner.decode(packet) {
            Ok(Some(p)) => {
                let ((width, height), (stride_y, stride_u, stride_v)) = (p.dimensions(), p.strides());
                let (y, u, v) = (p.y().to_vec(), p.u().to_vec(), p.v().to_vec());
                Ok(Some(YuvFrame { width, height, stride_y, stride_u, stride_v, y, u, v }))
            },
            Ok(None) => Ok(None),
            Err(e) => Err(e),
        };
        self.answer = Ghost(r);
        r
    }
}

/// An error reported by the H.264 decoder.
pub struct CodecError {
    pub source: openh264::Error,
}

/// What feeding one NAL unit to the decoder gave.
pub enum NalOutcome {
    /// A picture of this size was decoded and repacked into the tight buffer.
    Frame { width: usize, height: usize },
    /// The decoder needs more data before it can return a picture.
    NeedMoreData,
    /// The decoder returned a picture whose planes are too short for its
    /// size and strides, or whose tight size does not fit in memory.
    Malformed,
    /// The decoder rejected the data.
    Failed(CodecError),
}

/// The receiving end of the screen stream: an Annex-B accumulator, the
/// OpenH264 decoder, and the tight plane buffer that each decoded picture is
/// repacked into (kept between pictures and resized only when the size
/// changes).
pub struct StreamDecoder {
    decoder: H264,
    pending: NalBuffer,
    tight: Vec<u8>,
}

impl StreamDecoder {
    /// The bytes held back after the last complete NAL unit.
    pub closed spec fn pending_bytes(&self) -> Seq<u8> {
        self.pending@
    }

    /// The tight planes of the last repacked picture.
    pub closed spec fn tight_planes(&self) -> Seq<u8> {
        self.tight@
    }

    /// What the decoder answered to the last NAL unit handed to it.
    pub closed spec fn decoder_answer(&self) -> Result<Option<YuvFrame>, openh264::Error> {
        self.decoder.last_answer()
    }

    /// The NAL units handed to the decoder so far, in order.
    pub closed spec fn fed_units(&self) -> Seq<Seq<u8>> {
        self.decoder.fed()
    }

    /// Creates the decoder; fails only when OpenH264 does.
    pub fn new() -> (r: Result<StreamDecoder, CodecError>)
        ensures
            r matches Ok(d) ==> d.pending_bytes() == Seq::<u8>::empty() && d.tight_planes()
                == Seq::<u8>::empty() && d.fed_units() == Seq::<Seq<u8>>::empty(),
    {
        match H264::create() {
            Ok(decoder) => Ok(StreamDecoder { decoder, pending: NalBuffer::new(), tight: Vec::new() }),
            Err(e) => Err(CodecError { source: e }),
        }
    }

    /// Appends a chunk of the stream and returns its complete NAL units, each
    /// with its start code, in stream order.
    pub fn push_chunk(&mut self, data: &[u8]) -> (nals: Vec<Vec<u8>>)
        requires
            old(self).pending_bytes().len() + data@.len() <= usize::MAX,
        ensures
            nals@.map_values(|n: Vec<u8>| n@) == complete_nals(old(self).pending_bytes() + data@),
            final(self).pending_bytes() == trailing_partial(old(self).pending_bytes() + data@),
            final(self).tight_planes() == old(self).tight_planes(),
            final(self).fed_units() == old(self).fed_units(),
    {
        self.pending.push(data)
    }

    /// Number of bytes held back after the last complete NAL unit.
    pub fn pending_len(&self) -> (n: usize)
        ensures
            n == self.pending_bytes().len(),
    {
        self.pending.pending_len()
    }

    /// The tight planes of the last repacked picture.
    pub fn tight(&self) -> (t: &[u8])
        ensures
            t@ == self.tight_planes(),
    {
        self.tight.as_slice()
    }

    /// Takes what the decoder returned for one packet: a picture is repacked
    /// into the tight buffer when its planes hold every row read, and is
    /// reported as malformed otherwise; the tight buffer changes only for a
    /// repacked picture.
    pub fn absorb(&mut self, decoded: Result<Option<YuvFrame>, CodecError>) -> (r: NalOutcome)
        ensures
            final(self).pending_bytes() == old(self).pending_bytes(),
            final(self).fed_units() == old(self).fed_units(),
            final(self).decoder_answer() == old(self).decoder_answer(),
            match decoded {
                Ok(Some(f)) => if f.fits() {
                    &&& r == (NalOutcome::Frame { width: f.width, height: f.height })
                    &&& repacked(f, old(self).tight_planes(), final(self).tight_planes())
                } else {
                    r is Malformed && final(self).tight_planes() == old(self).tight_planes()
                },
                Ok(None) => r is NeedMoreData && final(self).tight_planes() == old(
                    self,
                ).tight_planes(),
                Err(e) => r == NalOutcome::Failed(e) && final(self).tight_planes() == old(
                    self,
                ).tight_planes(),
            },
    {
        match decoded {
            Ok(Some(frame)) => {
                if frame_fits(&frame) {
                    repack_tight(&frame, &mut self.tight);
                    NalOutcome::Frame { width: frame.width, height: frame.height }
                } else {
                    NalOutcome::Malformed
                }
            },
            Ok(None) => NalOutcome::NeedMoreData,
            Err(e) => NalOutcome::Failed(e),
        }
    }

    /// Feeds one NAL unit to the decoder and takes what it returns (see
    /// [`StreamDecoder::absorb`]): a picture comes out only when the decoder
    /// gave one whose planes hold every row read, and it is then repacked
    /// into the tight buffer; otherwise the tight buffer is unchanged. The
    /// unit is recorded as handed to the decoder, and the outcome follows
    /// the decoder's answer to it: that very picture is repacked, its `U`
    /// rows after the luma and its `V` rows after those.
    pub fn decode_nal(&mut self, nal: &[u8]) -> (r: NalOutcome)
        ensures
            final(self).pending_bytes() == old(self).pending_bytes(),
            final(self).fed_units() == old(self).fed_units().push(nal@),
            r matches NalOutcome::Frame { width, height } ==> exists|f: YuvFrame|
                f.width == width && f.height == height && f.fits() && #[trigger] repacked(
                    f,
                    old(self).tight_planes(),
                    final(self).tight_planes(),
                ),
            !(r is Frame) ==> final(self).tight_planes() == old(self).tight_planes(),
            match final(self).decoder_answer() {
                Ok(Some(f)) => if f.fits() {
                    &&& r == (NalOutcome::Frame { width: f.width, height: f.height })
                    &&& repacked(f, old(self).tight_planes(), final(self).tight_planes())
                } else {
                    r is Malformed
                },
                Ok(None) => r is NeedMoreData,
                Err(e) => r == NalOutcome::Failed(CodecError { source: e }),
            },
    {
        let decoded = match self.decoder.decode(nal) {
            Ok(p) => Ok(p),
            Err(e) => Err(CodecError { source: e }),
        };
        let ghost seen = decoded;
        let ghost before = self.tight_planes();
        let r = self.absorb(decoded);
        proof {
            if let Ok(Some(f)) = seen {
                if f.fits() {
                    assert(before == old(self).tight_planes());
                    assert(r == (NalOutcome::Frame { width: f.width, height: f.height }));
                    assert(repacked(f, old(self).tight_planes(), self.tight_planes()));
                }
            }
        }
        r
    }
}

} // verus!
