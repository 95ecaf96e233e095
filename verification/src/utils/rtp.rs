//! RTP packets: telling them from RTCP on a multiplexed port (RFC 5761
//! section 4), and reading the fields of a received one (RFC 3550 section
//! 5.1) with `rtp_rs`.
use vstd::prelude::*;
use crate::bytes::{be_u16, be_u32};

verus! {

/// The size of the fixed RTP header (`rtp_rs::RtpReader::MIN_HEADER_LEN`).
pub const RTP_MIN_HEADER_LEN: usize = 12;

/// `b` holds a fixed RTP header whose payload type is not one of the RTCP
/// range 64 to 95.
pub open spec fn rtp_header_shape(b: Seq<u8>) -> bool {
    b.len() >= RTP_MIN_HEADER_LEN && ((b[1] & 0x7F) < 64 || (b[1] & 0x7F) >= 96)
}

/// Returns true if the buffer seem to contain a RTP header: it holds a
/// fixed header and its payload type is not one of the RTCP range 64 to 95.
pub fn is_rtp_header(buffer: &[u8]) -> (r: bool)
    ensures
        r == rtp_header_shape(buffer@),
{
    if buffer.len() < RTP_MIN_HEADER_LEN {
        false
    } else {
        let payload_type = buffer[1] & 0b0111_1111;
        payload_type < 64 || payload_type >= 96
    }
}

/// Why a buffer does not hold an RTP packet.
#[derive(Debug, PartialEq, Eq, Clone, Copy, Structural)]
pub enum RtpReadError {
    BufferTooShort(usize),
    UnsupportedVersion(u8),
    HeadersTruncated { header_len: usize, buffer_len: usize },
    PaddingLengthInvalid(u8),
}

/// Where the CSRC list of the RTP header in `b` ends: after the fixed
/// header and four bytes for each CSRC the header counts.
pub open spec fn rtp_csrc_end(b: Seq<u8>) -> int {
    12 + 4 * (b[0] & 0x0F) as int
}

/// Whether the RTP header in `b` is followed by a header extension.
pub open spec fn rtp_has_extension(b: Seq<u8>) -> bool {
    b[0] & 0x10 != 0
}

/// Whether the RTP packet in `b` ends in padding, whose last byte counts it.
pub open spec fn rtp_has_padding(b: Seq<u8>) -> bool {
    b[0] & 0x20 != 0
}

/// The length of the data of the header extension after the CSRC list: the
/// words that its length field counts.
pub open spec fn rtp_extension_len(b: Seq<u8>) -> int {
    4 * be_u16(b, rtp_csrc_end(b) + 2) as int
}

/// Where the payload of the RTP packet in `b` starts: after the CSRC list,
/// and after the header extension where there is one.
pub open spec fn rtp_payload_offset(b: Seq<u8>) -> int {
    if rtp_has_extension(b) {
        rtp_csrc_end(b) + 4 + rtp_extension_len(b)
    } else {
        rtp_csrc_end(b)
    }
}

/// The length of the payload of the RTP packet in `b`: what lies between
/// its headers and its padding.
pub open spec fn rtp_payload_length(b: Seq<u8>) -> int {
    b.len() - rtp_payload_offset(b) - if rtp_has_padding(b) { b[b.len() - 1] as int } else { 0 }
}

/// Why the bytes `b` are not an RTP packet that can be read, if they are
/// not, in the order the checks are made: a fixed header, version 2, a
/// header extension and the headers within the buffer, and padding whose
/// count is not zero and fits after the headers.
pub open spec fn rtp_read_error(b: Seq<u8>) -> Option<RtpReadError> {
    let len = b.len() as int;
    let csrc_end = rtp_csrc_end(b);
    let offset = rtp_payload_offset(b);
    if len < 12 {
        Some(RtpReadError::BufferTooShort(len as usize))
    } else if b[0] >> 6 != 2 {
        Some(RtpReadError::UnsupportedVersion(b[0] >> 6))
    } else if rtp_has_extension(b) && csrc_end + 4 > len {
        Some(RtpReadError::HeadersTruncated { header_len: (csrc_end + 4) as usize, buffer_len: len as usize })
    } else if rtp_has_extension(b) && offset > len {
        Some(RtpReadError::HeadersTruncated { header_len: offset as usize, buffer_len: len as usize })
    } else if offset > len {
        Some(RtpReadError::HeadersTruncated { header_len: offset as usize, buffer_len: len as usize })
    } else if rtp_has_padding(b) && len == offset {
        Some(RtpReadError::HeadersTruncated { header_len: offset as usize, buffer_len: (len - 1) as usize })
    } else if rtp_has_padding(b) && (b[len - 1] == 0 || offset + b[len - 1] > len) {
        Some(RtpReadError::PaddingLengthInvalid(b[len - 1]))
    } else {
        None
    }
}

/// `rtp_rs::RtpReader::new`: whether, and why not, `b` is read as an RTP
/// packet. The contract claims that the reader makes the checks of
/// `rtp_read_error`, in its order, with its error values.
#[verifier::external_body]
fn rtp_reader_check(b: &[u8]) -> (r: Option<RtpReadError>)
    ensures
        r == rtp_read_error(b@),
{
    match rtp_rs::RtpReader::new(b) {
        Ok(_) => None,
        Err(rtp_rs::RtpReaderError::BufferTooShort(n)) => Some(RtpReadError::BufferTooShort(n)),
        Err(rtp_rs::RtpReaderError::UnsupportedVersion(v)) => Some(RtpReadError::UnsupportedVersion(v)),
        Err(rtp_rs::RtpReaderError::HeadersTruncated { header_len, buffer_len }) => {
            Some(RtpReadError::HeadersTruncated { header_len, buffer_len })
        },
        Err(rtp_rs::RtpReaderError::PaddingLengthInvalid(p)) => Some(RtpReadError::PaddingLengthInvalid(p)),
    }
}

/// `rtp_rs::RtpReader::payload_offset` on a packet the reader accepts:
/// the size of its headers, as `rtp_payload_offset` states it.
#[verifier::external_body]
fn rtp_reader_payload_offset(b: &[u8]) -> (r: usize)
    requires
        rtp_read_error(b@) is None,
    ensures
        r == rtp_payload_offset(b@),
{
    rtp_rs::RtpReader::new(b).unwrap().payload_offset()
}

/// `rtp_rs::RtpReader::payload` on a packet the reader accepts: the bytes
/// between the headers and the padding; the contract states their length
/// as `rtp_payload_length` does.
#[verifier::external_body]
fn rtp_reader_payload_length(b: &[u8]) -> (r: usize)
    requires
        rtp_read_error(b@) is None,
    ensures
        r == rtp_payload_length(b@),
{
    rtp_rs::RtpReader::new(b).unwrap().payload().len()
}

/// A received RTP packet that reads as one, owning its bytes.
pub struct ParsedRtpPacket {
    buffer: Vec<u8>,
}

impl View for ParsedRtpPacket {
    type V = Seq<u8>;

    closed spec fn view(&self) -> Seq<u8> {
        self.buffer@
    }
}

impl ParsedRtpPacket {
    /// The bytes read as an RTP packet.
    pub closed spec fn wf(&self) -> bool {
        rtp_read_error(self.buffer@) is None && self.buffer@.len() >= RTP_MIN_HEADER_LEN
    }

    /// Parse and create a new `ParsedRtpPacket`.
    /// If it fails to parse the packet, the packet along with the error will be returned.
    pub fn new(buffer: Vec<u8>) -> (r: Result<Self, (RtpReadError, Vec<u8>)>)
        ensures
            match r {
                Ok(p) => p.wf() && p@ == buffer@ && rtp_read_error(buffer@) is None,
                Err((e, b)) => rtp_read_error(buffer@) == Some(e) && b@ == buffer@,
            },
    {
        match rtp_reader_check(buffer.as_slice()) {
            None => Ok(ParsedRtpPacket { buffer }),
            Some(e) => Err((e, buffer)),
        }
    }

    /// Get the underlying buffer for the packet
    pub fn into_raw_buffer(self) -> (r: Vec<u8>)
        ensures
            r@ == self@,
    {
        self.buffer
    }

    pub proof fn lemma_header(&self)
        requires
            self.wf(),
        ensures
            self@.len() >= 12,
            rtp_read_error(self@) is None,
    {
    }

    pub fn mark(&self) -> (r: bool)
        requires
            self.wf(),
        ensures
            r == (self@[1] & 0x80 != 0),
    {
        (self.buffer[1] & 0x80) != 0
    }

    pub fn payload_type(&self) -> (r: u8)
        requires
            self.wf(),
        ensures
            r == self@[1] & 0x7F,
    {
        self.buffer[1] & 0x7F
    }

    pub fn csrc_count(&self) -> (r: u8)
        requires
            self.wf(),
        ensures
            r == self@[0] & 0x0F,
    {
        self.buffer[0] & 0x0F
    }

    pub fn sequence_number(&self) -> (r: u16)
        requires
            self.wf(),
        ensures
            r == be_u16(self@, 2),
    {
        self.buffer[2] as u16 * 0x100 + self.buffer[3] as u16
    }

    pub fn timestamp(&self) -> (r: u32)
        requires
            self.wf(),
        ensures
            r == be_u32(self@, 4),
    {
        self.buffer[4] as u32 * 0x1000000 + self.buffer[5] as u32 * 0x10000 + self.buffer[6] as u32 * 0x100
            + self.buffer[7] as u32
    }

    pub fn ssrc(&self) -> (r: u32)
        requires
            self.wf(),
        ensures
            r == be_u32(self@, 8),
    {
        self.buffer[8] as u32 * 0x1000000 + self.buffer[9] as u32 * 0x10000 + self.buffer[10] as u32 * 0x100
            + self.buffer[11] as u32
    }

    /// The RTP version; 2 for every packet that reads.
    pub fn version(&self) -> (r: u8)
        requires
            self.wf(),
        ensures
            r == self@[0] >> 6,
            r == 2,
    {
        let b0 = self.buffer[0];
        assert((b0 & 0xC0) >> 6 == b0 >> 6) by (bit_vector);
        (b0 & 0xC0) >> 6
    }

    /// The number of padding bytes at the end of the packet, which the last
    /// byte counts, if the padding bit is set.
    pub fn padding(&self) -> (r: Option<u8>)
        requires
            self.wf(),
        ensures
            r == if rtp_has_padding(self@) { Some(self@[self@.len() - 1]) } else { None::<u8> },
    {
        if (self.buffer[0] & 0x20) != 0 {
            Some(self.buffer[self.buffer.len() - 1])
        } else {
            None
        }
    }

    /// The contributing sources the header lists.
    pub fn csrc(&self) -> (r: Vec<u32>)
        requires
            self.wf(),
        ensures
            r@ == Seq::new((self@[0] & 0x0F) as nat, |i: int| be_u32(self@, 12 + 4 * i)),
    {
        let count = (self.buffer[0] & 0x0F) as usize;
        let ghost b = self@;
        assert(rtp_csrc_end(b) <= rtp_payload_offset(b) <= b.len());
        let mut r: Vec<u32> = Vec::new();
        let mut i: usize = 0;
        while i < count
            invariant
                b == self@,
                count == b[0] & 0x0F,
                12 + 4 * count <= b.len(),
                b.len() == self.buffer@.len(),
                i <= count,
                r@ == Seq::new(i as nat, |k: int| be_u32(b, 12 + 4 * k)),
            decreases count - i,
        {
            let k = 12 + 4 * i;
            let v = self.buffer[k] as u32 * 0x1000000 + self.buffer[k + 1] as u32 * 0x10000 + self.buffer[k + 2] as u32
                * 0x100 + self.buffer[k + 3] as u32;
            r.push(v);
            assert(r@ =~= Seq::new((i + 1) as nat, |k: int| be_u32(b, 12 + 4 * k)));
            i = i + 1;
        }
        r
    }

    /// The header extension, if the extension bit is set: its id and its
    /// data.
    pub fn extension(&self) -> (r: Option<(u16, &[u8])>)
        requires
            self.wf(),
        ensures
            match r {
                Some((id, data)) => rtp_has_extension(self@) && id == be_u16(self@, rtp_csrc_end(self@)) && data@
                    == self@.subrange(rtp_csrc_end(self@) + 4, rtp_csrc_end(self@) + 4 + rtp_extension_len(self@)),
                None => !rtp_has_extension(self@),
            },
    {
        if (self.buffer[0] & 0x10) == 0 {
            return None;
        }
        let ghost b = self@;
        let offset = 12 + 4 * (self.buffer[0] & 0x0F) as usize;
        assert(offset == rtp_csrc_end(b));
        let id = self.buffer[offset] as u16 * 0x100 + self.buffer[offset + 1] as u16;
        let len = 4 * (self.buffer[offset + 2] as usize * 0x100 + self.buffer[offset + 3] as usize);
        assert(len == rtp_extension_len(b));
        Some((id, vstd::slice::slice_subrange(self.buffer.as_slice(), offset + 4, offset + 4 + len)))
    }

    /// The size of the headers.
    pub fn payload_offset(&self) -> (r: usize)
        requires
            self.wf(),
        ensures
            r == rtp_payload_offset(self@),
    {
        rtp_reader_payload_offset(self.buffer.as_slice())
    }

    /// The payload, without headers and padding.
    pub fn payload(&self) -> (r: &[u8])
        requires
            self.wf(),
        ensures
            rtp_payload_offset(self@) + rtp_payload_length(self@) <= self@.len(),
            r@.len() == rtp_payload_length(self@),
            r@ == self@.subrange(
                rtp_payload_offset(self@) as int,
                rtp_payload_offset(self@) + rtp_payload_length(self@),
            ),
    {
        let offset = rtp_reader_payload_offset(self.buffer.as_slice());
        let length = rtp_reader_payload_length(self.buffer.as_slice());
        let n = self.buffer.len();
        assert(offset + length <= n);
        vstd::slice::slice_subrange(self.buffer.as_slice(), offset, offset + length)
    }
}

} // verus!
