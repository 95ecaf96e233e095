//! Payload specific feedback (RFC 4585 section 6.3).
use vstd::prelude::*;
use crate::bytes::{ByteReader, be_u16, be_u32, enc_u16, enc_u32, writes, parse_outcome, write_bytes, push_u8,
    push_u16, push_u32, push_bytes, lemma_u16_roundtrip, lemma_u32_roundtrip};
use crate::error::Error;
use crate::utils::rtcp::{header_error, read_header, padding_bytes, make_padding};

verus! {

#[derive(Debug, Clone)]
pub enum RtcpPayloadFeedback {
    PictureLossIndication,
    ReferencePictureSelectionIndication,
    ApplicationSpecific(Vec<u8>),
}

pub enum PayloadFeedbackView {
    PictureLossIndication,
    ReferencePictureSelectionIndication,
    ApplicationSpecific(Seq<u8>),
}

impl View for RtcpPayloadFeedback {
    type V = PayloadFeedbackView;

    open spec fn view(&self) -> PayloadFeedbackView {
        match self {
            RtcpPayloadFeedback::PictureLossIndication => PayloadFeedbackView::PictureLossIndication,
            RtcpPayloadFeedback::ReferencePictureSelectionIndication => PayloadFeedbackView::ReferencePictureSelectionIndication,
            RtcpPayloadFeedback::ApplicationSpecific(v) => PayloadFeedbackView::ApplicationSpecific(v@),
        }
    }
}

#[derive(Debug, Clone, Copy, PartialEq, Eq, PartialOrd, Ord, Structural)]
pub enum RtcpPayloadFeedbackType {
    PictureLossIndication,
    SliceLossIndication,
    ReferencePictureSelectionIndication,
    ApplicationLayerFeedback,
}

pub open spec fn payload_feedback_type_id(t: RtcpPayloadFeedbackType) -> u8 {
    match t {
        RtcpPayloadFeedbackType::PictureLossIndication => 1,
        RtcpPayloadFeedbackType::SliceLossIndication => 2,
        RtcpPayloadFeedbackType::ReferencePictureSelectionIndication => 3,
        RtcpPayloadFeedbackType::ApplicationLayerFeedback => 15,
    }
}

pub open spec fn payload_feedback_type_from(id: u8) -> Option<RtcpPayloadFeedbackType> {
    if id == 1 {
        Some(RtcpPayloadFeedbackType::PictureLossIndication)
    } else if id == 2 {
        Some(RtcpPayloadFeedbackType::SliceLossIndication)
    } else if id == 3 {
        Some(RtcpPayloadFeedbackType::ReferencePictureSelectionIndication)
    } else if id == 15 {
        Some(RtcpPayloadFeedbackType::ApplicationLayerFeedback)
    } else {
        None
    }
}

/// Every feedback type comes back from its id.
pub proof fn lemma_payload_feedback_type_roundtrip(t: RtcpPayloadFeedbackType)
    ensures
        payload_feedback_type_from(payload_feedback_type_id(t)) == Some(t),
{
}

impl RtcpPayloadFeedbackType {
    pub fn id(&self) -> (r: u8)
        ensures
            r == payload_feedback_type_id(*self),
    {
        match self {
            RtcpPayloadFeedbackType::PictureLossIndication => 1,
            RtcpPayloadFeedbackType::SliceLossIndication => 2,
            RtcpPayloadFeedbackType::ReferencePictureSelectionIndication => 3,
            RtcpPayloadFeedbackType::ApplicationLayerFeedback => 15,
        }
    }

    pub fn from(id: u8) -> (r: Option<RtcpPayloadFeedbackType>)
        ensures
            r == payload_feedback_type_from(id),
    {
        match id {
            1 => Some(RtcpPayloadFeedbackType::PictureLossIndication),
            2 => Some(RtcpPayloadFeedbackType::SliceLossIndication),
            3 => Some(RtcpPayloadFeedbackType::ReferencePictureSelectionIndication),
            15 => Some(RtcpPayloadFeedbackType::ApplicationLayerFeedback),
            _ => None,
        }
    }
}

pub struct PayloadFeedbackPacketView {
    pub ssrc: u32,
    pub media_ssrc: u32,
    pub feedback: PayloadFeedbackView,
}

///https://tools.ietf.org/html/rfc4585#section-6.1
#[derive(Debug, Clone)]
pub struct RtcpPacketPayloadFeedback {
    pub ssrc: u32,
    pub media_ssrc: u32,
    pub feedback: RtcpPayloadFeedback,
}

impl View for RtcpPacketPayloadFeedback {
    type V = PayloadFeedbackPacketView;

    open spec fn view(&self) -> PayloadFeedbackPacketView {
        PayloadFeedbackPacketView { ssrc: self.ssrc, media_ssrc: self.media_ssrc, feedback: self.feedback@ }
    }
}

/// The type of a feedback message.
pub open spec fn payload_feedback_kind(f: PayloadFeedbackView) -> RtcpPayloadFeedbackType {
    match f {
        PayloadFeedbackView::PictureLossIndication => RtcpPayloadFeedbackType::PictureLossIndication,
        PayloadFeedbackView::ReferencePictureSelectionIndication => RtcpPayloadFeedbackType::ReferencePictureSelectionIndication,
        PayloadFeedbackView::ApplicationSpecific(..) => RtcpPayloadFeedbackType::ApplicationLayerFeedback,
    }
}

/// The bytes a feedback message carries after the SSRCs, before padding.
pub open spec fn payload_feedback_data(f: PayloadFeedbackView) -> Seq<u8> {
    match f {
        PayloadFeedbackView::ApplicationSpecific(d) => d,
        _ => Seq::empty(),
    }
}

/// The encoding of a payload feedback packet. The data is padded to whole
/// words; the padding flag is not set.
pub open spec fn payload_feedback_bytes(p: PayloadFeedbackPacketView) -> Seq<u8> {
    let d = payload_feedback_data(p.feedback);
    seq![(0x80u8 | payload_feedback_type_id(payload_feedback_kind(p.feedback))) as u8, 206u8]
        + enc_u16(((2 + (d.len() + 3) / 4) % 0x10000) as u16) + enc_u32(p.ssrc) + enc_u32(p.media_ssrc) + d
        + padding_bytes(d.len() as int)
}

/// A payload feedback packet decoded from the front of `s`, with the number
/// of bytes it takes, or why there is none. Picture loss and reference
/// picture selection indications carry nothing and need a length of two;
/// application layer feedback carries the words the length field counts
/// beyond two, modulo 2^16; slice loss indications are not supported.
pub open spec fn parse_payload_feedback(s: Seq<u8>) -> Result<(PayloadFeedbackPacketView, int), Error> {
    match header_error(s, 206) {
        Some(e) => Err(e),
        None => match payload_feedback_type_from(s[0] & 0x1F) {
            None => Err(Error::UnknownType),
            Some(t) => if s.len() < 12 {
                Err(Error::UnexpectedEof)
            } else {
                let length = be_u16(s, 2) as int;
                let ssrc = be_u32(s, 4);
                let media_ssrc = be_u32(s, 8);
                match t {
                    RtcpPayloadFeedbackType::PictureLossIndication => if length != 2 {
                        Err(Error::InvalidLength)
                    } else {
                        Ok((PayloadFeedbackPacketView { ssrc, media_ssrc, feedback: PayloadFeedbackView::PictureLossIndication }, 12))
                    },
                    RtcpPayloadFeedbackType::ReferencePictureSelectionIndication => if length != 2 {
                        Err(Error::InvalidLength)
                    } else {
                        Ok((PayloadFeedbackPacketView { ssrc, media_ssrc, feedback: PayloadFeedbackView::ReferencePictureSelectionIndication }, 12))
                    },
                    RtcpPayloadFeedbackType::ApplicationLayerFeedback => {
                        let n = (length + 0x10000 - 2) % 0x10000 * 4;
                        if s.len() < 12 + n {
                            Err(Error::UnexpectedEof)
                        } else {
                            Ok((
                                PayloadFeedbackPacketView {
                                    ssrc,
                                    media_ssrc,
                                    feedback: PayloadFeedbackView::ApplicationSpecific(s.subrange(12, 12 + n)),
                                },
                                12 + n,
                            ))
                        }
                    },
                    RtcpPayloadFeedbackType::SliceLossIndication => Err(Error::Unsupported),
                }
            },
        },
    }
}

/// A payload feedback packet that its encoding gives back: application
/// data must be whole words that the length field can count.
pub open spec fn payload_feedback_roundtrips(p: PayloadFeedbackPacketView) -> bool {
    let d = payload_feedback_data(p.feedback);
    &&& d.len() % 4 == 0
    &&& 2 + d.len() / 4 < 0x10000
}

/// Decoding the encoding of a payload feedback packet gives back the
/// packet, whatever follows it.
pub proof fn lemma_payload_feedback_roundtrip(p: PayloadFeedbackPacketView, trailer: Seq<u8>)
    requires
        payload_feedback_roundtrips(p),
    ensures
        parse_payload_feedback(payload_feedback_bytes(p) + trailer) == Ok::<(PayloadFeedbackPacketView, int), Error>(
            (p, payload_feedback_bytes(p).len() as int),
        ),
{
    let d = payload_feedback_data(p.feedback);
    let b = payload_feedback_bytes(p);
    let s = b + trailer;
    let q = (2 + (d.len() + 3) / 4) as u16;
    let id = payload_feedback_type_id(payload_feedback_kind(p.feedback));
    assert(id == 1 || id == 3 || id == 15);
    assert((0x80u8 | id) >> 6 == 2 && (0x80u8 | id) & 0x1F == id) by (bit_vector)
        requires
            id == 1 || id == 3 || id == 15,
    ;
    assert(s[0] == (0x80u8 | id));
    assert(s[1] == 206u8);
    assert(s.subrange(2, 4) =~= enc_u16(q));
    lemma_u16_roundtrip(q, s, 2);
    assert(s.subrange(4, 8) =~= enc_u32(p.ssrc));
    lemma_u32_roundtrip(p.ssrc, s, 4);
    assert(s.subrange(8, 12) =~= enc_u32(p.media_ssrc));
    lemma_u32_roundtrip(p.media_ssrc, s, 8);
    assert(padding_bytes(d.len() as int) =~= Seq::<u8>::empty());
    assert(s.subrange(12, 12 + d.len() as int) =~= d);
}

impl RtcpPacketPayloadFeedback {
    #[verifier::rlimit(30)]
    pub fn parse(reader: &mut ByteReader) -> (r: Result<RtcpPacketPayloadFeedback, Error>)
        ensures
            final(reader).data() == old(reader).data(),
            parse_outcome(r, parse_payload_feedback(old(reader).rest()), old(reader).rest(), final(reader).rest()),
    {
        let ghost s = reader.rest();
        let info = read_header(reader, 206)?;
        let feedback_type = match RtcpPayloadFeedbackType::from(info & 0x1F) {
            Some(t) => t,
            None => return Err(Error::UnknownType),
        };
        let length = reader.read_u16_be()?;
        assert(s.skip(2)[0] == s[2] && s.skip(2)[1] == s[3]);
        let ssrc = reader.read_u32_be()?;
        let media_ssrc = reader.read_u32_be()?;
        assert(s.skip(2).skip(2) =~= s.skip(4));
        assert(s.skip(4).skip(4) =~= s.skip(8));
        assert(s.skip(8).skip(4) =~= s.skip(12));
        assert(s.skip(4)[0] == s[4] && s.skip(4)[1] == s[5] && s.skip(4)[2] == s[6] && s.skip(4)[3] == s[7]);
        assert(s.skip(8)[0] == s[8] && s.skip(8)[1] == s[9] && s.skip(8)[2] == s[10] && s.skip(8)[3] == s[11]);
        let feedback = match feedback_type {
            RtcpPayloadFeedbackType::PictureLossIndication => {
                if length != 2 {
                    return Err(Error::InvalidLength);
                }
                RtcpPayloadFeedback::PictureLossIndication
            },
            RtcpPayloadFeedbackType::ReferencePictureSelectionIndication => {
                if length != 2 {
                    return Err(Error::InvalidLength);
                }
                RtcpPayloadFeedback::ReferencePictureSelectionIndication
            },
            RtcpPayloadFeedbackType::ApplicationLayerFeedback => {
                let n = length.wrapping_sub(2) as usize * 4;
                let buffer = reader.read_vec(n)?;
                assert(buffer@ =~= s.subrange(12, 12 + n as int));
                assert(s.skip(12).skip(n as int) =~= s.skip(12 + n as int));
                RtcpPayloadFeedback::ApplicationSpecific(buffer)
            },
            RtcpPayloadFeedbackType::SliceLossIndication => {
                return Err(Error::Unsupported);
            },
        };
        Ok(RtcpPacketPayloadFeedback { ssrc, media_ssrc, feedback })
    }

    pub fn feedback_type(&self) -> (r: RtcpPayloadFeedbackType)
        ensures
            r == payload_feedback_kind(self.feedback@),
    {
        match self.feedback {
            RtcpPayloadFeedback::PictureLossIndication => RtcpPayloadFeedbackType::PictureLossIndication,
            RtcpPayloadFeedback::ReferencePictureSelectionIndication => RtcpPayloadFeedbackType::ReferencePictureSelectionIndication,
            RtcpPayloadFeedback::ApplicationSpecific(..) => RtcpPayloadFeedbackType::ApplicationLayerFeedback,
        }
    }

    /// The size of the packet without the padding of its data.
    pub fn byte_size(&self) -> (r: usize)
        requires
            12 + payload_feedback_data(self.feedback@).len() <= usize::MAX,
        ensures
            r == 12 + payload_feedback_data(self.feedback@).len(),
    {
        12 + self.feedback_byte_size()
    }

    fn feedback_byte_size(&self) -> (r: usize)
        ensures
            r == payload_feedback_data(self.feedback@).len(),
    {
        match &self.feedback {
            RtcpPayloadFeedback::PictureLossIndication => 0,
            RtcpPayloadFeedback::ReferencePictureSelectionIndication => 0,
            RtcpPayloadFeedback::ApplicationSpecific(payload) => payload.len(),
        }
    }

    pub fn write(&self, buf: &mut [u8], pos: usize) -> (r: Result<usize, Error>)
        requires
            pos <= old(buf)@.len(),
            payload_feedback_data(self.feedback@).len() + 3 <= usize::MAX,
        ensures
            writes(old(buf)@, final(buf)@, pos as int, payload_feedback_bytes(self@), r),
    {
        let fb_byte_size = self.feedback_byte_size();
        let mut out: Vec<u8> = Vec::new();
        push_u8(&mut out, 0x80u8 | self.feedback_type().id());
        push_u8(&mut out, 206);
        push_u16(&mut out, ((2 + (fb_byte_size + 3) / 4) % 0x10000) as u16);
        push_u32(&mut out, self.ssrc);
        push_u32(&mut out, self.media_ssrc);
        match &self.feedback {
            RtcpPayloadFeedback::ApplicationSpecific(payload) => {
                push_bytes(&mut out, payload.as_slice());
            },
            _ => {},
        }
        let padding = make_padding(fb_byte_size);
        push_bytes(&mut out, padding.as_slice());
        assert(out@ =~= payload_feedback_bytes(self@));
        write_bytes(buf, pos, out.as_slice())
    }
}

} // verus!
