//! Receiver reference time blocks (RFC 3611 section 4.4).
use vstd::prelude::*;
use crate::bytes::{ByteReader, be_u16, be_u64, enc_u16, enc_u64, writes, parse_outcome, write_bytes, push_u8,
    push_u16, push_u64, lemma_u16_roundtrip, lemma_u64_roundtrip};
use crate::error::Error;

verus! {

///     0                   1                   2                   3
///     0 1 2 3 4 5 6 7 8 9 0 1 2 3 4 5 6 7 8 9 0 1 2 3 4 5 6 7 8 9 0 1
///    +-+-+-+-+-+-+-+-+-+-+-+-+-+-+-+-+-+-+-+-+-+-+-+-+-+-+-+-+-+-+-+-+
///    |     BT=4      |   reserved    |       block length = 2        |
///    +-+-+-+-+-+-+-+-+-+-+-+-+-+-+-+-+-+-+-+-+-+-+-+-+-+-+-+-+-+-+-+-+
///    |              NTP timestamp, most significant word             |
///    +-+-+-+-+-+-+-+-+-+-+-+-+-+-+-+-+-+-+-+-+-+-+-+-+-+-+-+-+-+-+-+-+
///    |             NTP timestamp, least significant word             |
///    +-+-+-+-+-+-+-+-+-+-+-+-+-+-+-+-+-+-+-+-+-+-+-+-+-+-+-+-+-+-+-+-+
#[derive(Debug, Clone, Copy, PartialEq, Eq, Structural)]
pub struct ExtendedReportReceiverReferenceTime {
    pub timestamp: u64,
}

impl View for ExtendedReportReceiverReferenceTime {
    type V = ExtendedReportReceiverReferenceTime;

    open spec fn view(&self) -> ExtendedReportReceiverReferenceTime {
        *self
    }
}

/// The twelve bytes of a receiver reference time block.
pub open spec fn reference_time_bytes(t: ExtendedReportReceiverReferenceTime) -> Seq<u8> {
    seq![4u8, 0u8] + enc_u16(2) + enc_u64(t.timestamp)
}

/// A receiver reference time block decoded from the front of `s`, with the
/// number of bytes it takes, or why there is none.
pub open spec fn parse_reference_time(s: Seq<u8>) -> Result<(ExtendedReportReceiverReferenceTime, int), Error> {
    if s.len() < 1 {
        Err(Error::UnexpectedEof)
    } else if s[0] != 4 {
        Err(Error::UnexpectedPacketType)
    } else if s.len() < 4 {
        Err(Error::UnexpectedEof)
    } else if be_u16(s, 2) != 2 {
        Err(Error::InvalidLength)
    } else if s.len() < 12 {
        Err(Error::UnexpectedEof)
    } else {
        Ok((ExtendedReportReceiverReferenceTime { timestamp: be_u64(s, 4) }, 12))
    }
}

/// Decoding the encoding of a receiver reference time block gives it back.
pub proof fn lemma_reference_time_roundtrip(t: ExtendedReportReceiverReferenceTime, trailer: Seq<u8>)
    ensures
        parse_reference_time(reference_time_bytes(t) + trailer) == Ok::<
            (ExtendedReportReceiverReferenceTime, int),
            Error,
        >((t, 12)),
{
    let s = reference_time_bytes(t) + trailer;
    assert(s.subrange(2, 4) =~= enc_u16(2));
    lemma_u16_roundtrip(2, s, 2);
    assert(s.subrange(4, 12) =~= enc_u64(t.timestamp));
    lemma_u64_roundtrip(t.timestamp, s, 4);
}

impl ExtendedReportReceiverReferenceTime {
    pub fn parse(reader: &mut ByteReader) -> (r: Result<ExtendedReportReceiverReferenceTime, Error>)
        ensures
            final(reader).data() == old(reader).data(),
            parse_outcome(r, parse_reference_time(old(reader).rest()), old(reader).rest(), final(reader).rest()),
    {
        let ghost s = reader.rest();
        if reader.read_u8()? != 4 {
            return Err(Error::UnexpectedPacketType);
        }
        let _ = reader.read_u8()?;
        assert(s.skip(1).skip(1) =~= s.skip(2));
        let length = reader.read_u16_be()?;
        assert(s.skip(2)[0] == s[2] && s.skip(2)[1] == s[3]);
        assert(s.skip(2).skip(2) =~= s.skip(4));
        if length != 2 {
            return Err(Error::InvalidLength);
        }
        let timestamp = reader.read_u64_be()?;
        assert(be_u64(s.skip(4), 0) == be_u64(s, 4));
        assert(s.skip(4).skip(8) =~= s.skip(12));
        Ok(ExtendedReportReceiverReferenceTime { timestamp })
    }

    pub fn write(&self, buf: &mut [u8], pos: usize) -> (r: Result<usize, Error>)
        requires
            pos <= old(buf)@.len(),
        ensures
            writes(old(buf)@, final(buf)@, pos as int, reference_time_bytes(*self), r),
    {
        let mut out: Vec<u8> = Vec::new();
        push_u8(&mut out, 4);
        push_u8(&mut out, 0);
        push_u16(&mut out, 2);
        push_u64(&mut out, self.timestamp);
        assert(out@ =~= reference_time_bytes(*self));
        write_bytes(buf, pos, out.as_slice())
    }
}

} // verus!
