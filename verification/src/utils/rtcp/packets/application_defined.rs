//! Application defined packets (RFC 3550 section 6.7).
use vstd::prelude::*;
use crate::bytes::{ByteReader, be_u16, be_u32, enc_u16, enc_u32, writes, parse_outcome, write_bytes, push_u8,
    push_u16, push_u32, push_bytes, lemma_u16_roundtrip, lemma_u32_roundtrip};
use crate::error::Error;
use crate::utils::rtcp::{header_error, read_header};

verus! {

pub struct ApplicationDefinedView {
    pub subtype: u8,
    pub src: u32,
    pub name: Seq<u8>,
    pub data: Seq<u8>,
}

/// https://tools.ietf.org/html/rfc3550#section-6.7
#[derive(Debug, Clone)]
pub struct RtcpPacketApplicationDefined {
    pub subtype: u8,
    pub src: u32,
    pub name: [u8; 4],
    pub data: Vec<u8>,
}

impl View for RtcpPacketApplicationDefined {
    type V = ApplicationDefinedView;

    open spec fn view(&self) -> ApplicationDefinedView {
        ApplicationDefinedView { subtype: self.subtype, src: self.src, name: self.name@, data: self.data@ }
    }
}

/// The encoding of an application defined packet whose data is a whole
/// number of words. The sub type is or-ed into the first byte unmasked.
pub open spec fn application_defined_bytes(a: ApplicationDefinedView) -> Seq<u8> {
    seq![(0x80u8 | a.subtype) as u8, 204u8] + enc_u16(((2 + a.data.len() / 4) % 0x10000) as u16)
        + enc_u32(a.src) + a.name + a.data
}

/// An application defined packet decoded from the front of `s`, with the
/// number of bytes it takes, or why there is none. The length field counts
/// the words after the header, less one, and must cover the SSRC and name.
pub open spec fn parse_application_defined(s: Seq<u8>) -> Result<(ApplicationDefinedView, int), Error> {
    match header_error(s, 204) {
        Some(e) => Err(e),
        None => if s.len() < 4 {
            Err(Error::UnexpectedEof)
        } else if be_u16(s, 2) < 2 {
            Err(Error::InvalidLength)
        } else {
            let end = 12 + (be_u16(s, 2) - 2) * 4;
            if s.len() < end {
                Err(Error::UnexpectedEof)
            } else {
                Ok((
                    ApplicationDefinedView {
                        subtype: s[0] & 0x1F,
                        src: be_u32(s, 4),
                        name: s.subrange(8, 12),
                        data: s.subrange(12, end),
                    },
                    end,
                ))
            }
        },
    }
}

/// An application defined packet that its encoding gives back: a five bit
/// sub type, a four byte name and data of whole words that its length field
/// can count.
pub open spec fn application_defined_roundtrips(a: ApplicationDefinedView) -> bool {
    &&& a.subtype < 32
    &&& a.name.len() == 4
    &&& a.data.len() % 4 == 0
    &&& 2 + a.data.len() / 4 < 0x10000
}

/// Decoding the encoding of an application defined packet gives back the
/// packet, whatever follows it.
pub proof fn lemma_application_defined_roundtrip(a: ApplicationDefinedView, trailer: Seq<u8>)
    requires
        application_defined_roundtrips(a),
    ensures
        parse_application_defined(application_defined_bytes(a) + trailer) == Ok::<
            (ApplicationDefinedView, int),
            Error,
        >((a, application_defined_bytes(a).len() as int)),
{
    let b = application_defined_bytes(a);
    let s = b + trailer;
    let q = (2 + a.data.len() / 4) as u16;
    let st = a.subtype;
    assert((0x80u8 | st) >> 6 == 2 && (0x80u8 | st) & 0x1F == st) by (bit_vector)
        requires
            st < 32,
    ;
    assert(s[0] == (0x80u8 | st));
    assert(s[1] == 204u8);
    assert(s.subrange(2, 4) =~= enc_u16(q));
    lemma_u16_roundtrip(q, s, 2);
    assert(s.subrange(4, 8) =~= enc_u32(a.src));
    lemma_u32_roundtrip(a.src, s, 4);
    assert(s.subrange(8, 12) =~= a.name);
    assert(s.subrange(12, 12 + a.data.len() as int) =~= a.data);
}

impl RtcpPacketApplicationDefined {
    pub fn parse(reader: &mut ByteReader) -> (r: Result<RtcpPacketApplicationDefined, Error>)
        ensures
            final(reader).data() == old(reader).data(),
            parse_outcome(r, parse_application_defined(old(reader).rest()), old(reader).rest(), final(reader).rest()),
    {
        let ghost s = reader.rest();
        let info = read_header(reader, 204)?;
        let length = reader.read_u16_be()?;
        assert(s.skip(2).skip(2) =~= s.skip(4));
        if length < 2 {
            return Err(Error::InvalidLength);
        }
        let subtype = info & 0x1F;
        let src = reader.read_u32_be()?;
        assert(s.skip(4).skip(4) =~= s.skip(8));
        let n = reader.read_slice(4)?;
        let name = [n[0], n[1], n[2], n[3]];
        assert(name@ =~= s.subrange(8, 12));
        assert(s.skip(8).skip(4) =~= s.skip(12));
        let data_length = (length - 2) as usize * 4;
        let data = reader.read_vec(data_length)?;
        assert(data@ =~= s.subrange(12, 12 + data_length as int));
        assert(s.skip(12).skip(data_length as int) =~= s.skip(12 + data_length as int));
        Ok(RtcpPacketApplicationDefined { subtype, src, name, data })
    }

    /// Writes the packet at `pos`. Data that is not a whole number of words
    /// is refused before anything is written.
    pub fn write(&self, buf: &mut [u8], pos: usize) -> (r: Result<usize, Error>)
        requires
            pos <= old(buf)@.len(),
        ensures
            self.data@.len() % 4 != 0 ==> r == Err::<usize, Error>(Error::UnalignedData) && final(buf)@ == old(buf)@,
            self.data@.len() % 4 == 0 ==> writes(old(buf)@, final(buf)@, pos as int, application_defined_bytes(self@), r),
    {
        if self.data.len() % 4 > 0 {
            return Err(Error::UnalignedData);
        }
        let mut out: Vec<u8> = Vec::new();
        push_u8(&mut out, 0x80u8 | self.subtype);
        push_u8(&mut out, 204);
        push_u16(&mut out, ((2 + self.data.len() / 4) % 0x10000) as u16);
        push_u32(&mut out, self.src);
        push_bytes(&mut out, &self.name);
        push_bytes(&mut out, self.data.as_slice());
        assert(out@ =~= application_defined_bytes(self@));
        write_bytes(buf, pos, out.as_slice())
    }
}

} // verus!
