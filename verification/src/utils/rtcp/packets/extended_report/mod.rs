//! Extended reports (RFC 3611 section 2).
//!
//! 0                   1                   2                   3
//! 0 1 2 3 4 5 6 7 8 9 0 1 2 3 4 5 6 7 8 9 0 1 2 3 4 5 6 7 8 9 0 1
//! +-+-+-+-+-+-+-+-+-+-+-+-+-+-+-+-+-+-+-+-+-+-+-+-+-+-+-+-+-+-+-+-+
//! |V=2|P|reserved |   PT=XR=207   |             length            |
//! +-+-+-+-+-+-+-+-+-+-+-+-+-+-+-+-+-+-+-+-+-+-+-+-+-+-+-+-+-+-+-+-+
//! |                              SSRC                             |
//! +-+-+-+-+-+-+-+-+-+-+-+-+-+-+-+-+-+-+-+-+-+-+-+-+-+-+-+-+-+-+-+-+
//! :                         report blocks                         :
//! +-+-+-+-+-+-+-+-+-+-+-+-+-+-+-+-+-+-+-+-+-+-+-+-+-+-+-+-+-+-+-+-+
use vstd::prelude::*;
use crate::bytes::{ByteReader, be_u16, be_u32, parse_outcome, push_bytes};
use crate::error::Error;
use crate::utils::rtcp::{header_error, read_header};

pub mod receiver_reference_time;
pub mod target_bitrate;
pub mod delay_last_receiver_report;

pub use receiver_reference_time::{ExtendedReportReceiverReferenceTime, parse_reference_time};
pub use target_bitrate::{TargetBitrateItem, ExtendedReportTargetBitrate, parse_target_bitrate};
pub use delay_last_receiver_report::{ExtendedReportDelayLastReceiverReport, parse_delays};

verus! {

#[derive(Debug, Clone, Copy, PartialEq, Eq, PartialOrd, Ord, Structural)]
pub enum ExtendedReportBlockType {
    ReceiverReferenceTime,
    DelayLastReceiverReport,
    /// https://source.chromium.org/chromium/chromium/src/+/master:third_party/webrtc/modules/rtp_rtcp/source/rtcp_packet/target_bitrate.h
    TargetBitrate,
}

pub open spec fn block_type_from(ptype: u8) -> Option<ExtendedReportBlockType> {
    if ptype == 4 {
        Some(ExtendedReportBlockType::ReceiverReferenceTime)
    } else if ptype == 5 {
        Some(ExtendedReportBlockType::DelayLastReceiverReport)
    } else if ptype == 42 {
        Some(ExtendedReportBlockType::TargetBitrate)
    } else {
        None
    }
}

pub open spec fn block_type_value(t: ExtendedReportBlockType) -> u8 {
    match t {
        ExtendedReportBlockType::ReceiverReferenceTime => 4,
        ExtendedReportBlockType::DelayLastReceiverReport => 5,
        ExtendedReportBlockType::TargetBitrate => 42,
    }
}

/// Every block type comes back from its value.
pub proof fn lemma_block_type_roundtrip(t: ExtendedReportBlockType)
    ensures
        block_type_from(block_type_value(t)) == Some(t),
{
}

impl ExtendedReportBlockType {
    pub fn from(ptype: u8) -> (r: Option<ExtendedReportBlockType>)
        ensures
            r == block_type_from(ptype),
    {
        match ptype {
            4 => Some(ExtendedReportBlockType::ReceiverReferenceTime),
            5 => Some(ExtendedReportBlockType::DelayLastReceiverReport),
            42 => Some(ExtendedReportBlockType::TargetBitrate),
            _ => None,
        }
    }

    pub fn value(&self) -> (r: u8)
        ensures
            r == block_type_value(*self),
    {
        match self {
            ExtendedReportBlockType::ReceiverReferenceTime => 4,
            ExtendedReportBlockType::DelayLastReceiverReport => 5,
            ExtendedReportBlockType::TargetBitrate => 42,
        }
    }
}

#[derive(Debug, Clone)]
pub enum ExtendedReportBlock {
    ReceiverReferenceTime(ExtendedReportReceiverReferenceTime),
    TargetBitrate(ExtendedReportTargetBitrate),
    DelayLastReceiverReport(ExtendedReportDelayLastReceiverReport),
    Unknown { block_type: u8, type_specific: u8, content: Vec<u8> },
}

pub enum ExtendedReportBlockView {
    ReceiverReferenceTime(u64),
    TargetBitrate(Seq<TargetBitrateItem>),
    DelayLastReceiverReport(Map<u32, (u32, u32)>),
    Unknown { block_type: u8, type_specific: u8, content: Seq<u8> },
}

impl View for ExtendedReportBlock {
    type V = ExtendedReportBlockView;

    open spec fn view(&self) -> ExtendedReportBlockView {
        match self {
            ExtendedReportBlock::ReceiverReferenceTime(t) => ExtendedReportBlockView::ReceiverReferenceTime(t.timestamp),
            ExtendedReportBlock::TargetBitrate(t) => ExtendedReportBlockView::TargetBitrate(t@),
            ExtendedReportBlock::DelayLastReceiverReport(d) => ExtendedReportBlockView::DelayLastReceiverReport(d@),
            ExtendedReportBlock::Unknown { block_type, type_specific, content } => ExtendedReportBlockView::Unknown {
                block_type: *block_type,
                type_specific: *type_specific,
                content: content@,
            },
        }
    }
}

pub struct ExtendedReportView {
    pub ssrc: u32,
    pub blocks: Seq<ExtendedReportBlockView>,
}

#[derive(Debug, Clone)]
pub struct RtcpPacketExtendedReport {
    pub ssrc: u32,
    pub blocks: Vec<ExtendedReportBlock>,
}

impl View for RtcpPacketExtendedReport {
    type V = ExtendedReportView;

    open spec fn view(&self) -> ExtendedReportView {
        ExtendedReportView { ssrc: self.ssrc, blocks: self.blocks@.map_values(|b: ExtendedReportBlock| b@) }
    }
}

/// The block that the whole of `block` holds: a known type by its own
/// decoding, any other type with the bytes after its header.
pub open spec fn parse_block(block: Seq<u8>) -> Result<ExtendedReportBlockView, Error> {
    match block_type_from(block[0]) {
        Some(ExtendedReportBlockType::ReceiverReferenceTime) => match parse_reference_time(block) {
            Ok((t, n)) => Ok(ExtendedReportBlockView::ReceiverReferenceTime(t.timestamp)),
            Err(e) => Err(e),
        },
        Some(ExtendedReportBlockType::DelayLastReceiverReport) => match parse_delays(block) {
            Ok((d, n)) => Ok(ExtendedReportBlockView::DelayLastReceiverReport(d)),
            Err(e) => Err(e),
        },
        Some(ExtendedReportBlockType::TargetBitrate) => match parse_target_bitrate(block) {
            Ok((t, n)) => Ok(ExtendedReportBlockView::TargetBitrate(t)),
            Err(e) => Err(e),
        },
        None => Ok(ExtendedReportBlockView::Unknown { block_type: block[0], type_specific: block[1], content: block.skip(4) }),
    }
}

/// `done` put before the blocks of `r`, if there are any.
pub open spec fn prepend_blocks(
    done: Seq<ExtendedReportBlockView>,
    r: Result<(Seq<ExtendedReportBlockView>, int), Error>,
) -> Result<(Seq<ExtendedReportBlockView>, int), Error> {
    match r {
        Ok((rest, end)) => Ok((done + rest, end)),
        Err(e) => Err(e),
    }
}

/// The block at the front of `t`, with its size, or why there is none. A
/// block is its four byte header and the words its length field counts, at
/// most 2048 bytes.
#[verifier::opaque]
pub open spec fn first_block(t: Seq<u8>) -> Result<(ExtendedReportBlockView, int), Error> {
    if t.len() < 4 {
        Err(Error::UnexpectedEof)
    } else {
        let full = be_u16(t, 2) as int * 4 + 4;
        if full > 2048 {
            Err(Error::InvalidLength)
        } else if t.len() < full {
            Err(Error::UnexpectedEof)
        } else {
            match parse_block(t.take(full)) {
                Err(e) => Err(e),
                Ok(b) => Ok((b, full)),
            }
        }
    }
}

/// The blocks from `pos` on, while `read` words of the `length` that the
/// header gives have been read, with where they end.
pub open spec fn parse_blocks(s: Seq<u8>, pos: int, read: int, length: int) -> Result<(Seq<ExtendedReportBlockView>, int), Error>
    decreases s.len() - pos,
{
    if read >= length || pos < 0 || pos > s.len() {
        Ok((Seq::empty(), pos))
    } else {
        match first_block(s.skip(pos)) {
            Err(e) => Err(e),
            Ok((b, full)) => if full < 4 || pos + full > s.len() {
                Ok((Seq::empty(), pos))
            } else {
                prepend_blocks(seq![b], parse_blocks(s, pos + full, (read + full / 4) % 0x10000, length))
            },
        }
    }
}

/// An extended report decoded from the front of `s`, with the number of
/// bytes it takes, or why there is none.
pub open spec fn parse_extended_report(s: Seq<u8>) -> Result<(ExtendedReportView, int), Error> {
    match header_error(s, 207) {
        Some(e) => Err(e),
        None => if s.len() < 4 {
            Err(Error::UnexpectedEof)
        } else if be_u16(s, 2) < 1 {
            Err(Error::InvalidLength)
        } else if s.len() < 8 {
            Err(Error::UnexpectedEof)
        } else {
            match parse_blocks(s, 8, 1, be_u16(s, 2) as int) {
                Ok((blocks, end)) => Ok((ExtendedReportView { ssrc: be_u32(s, 4), blocks }, end)),
                Err(e) => Err(e),
            }
        },
    }
}

pub proof fn lemma_prepend_blocks(a: Seq<ExtendedReportBlockView>, b: Seq<ExtendedReportBlockView>, r: Result<(Seq<ExtendedReportBlockView>, int), Error>)
    ensures
        prepend_blocks(a, prepend_blocks(b, r)) == prepend_blocks(a + b, r),
{
    match r {
        Ok((rest, end)) => {
            assert(a + (b + rest) =~= (a + b) + rest);
        },
        Err(e) => {},
    }
}

impl ExtendedReportBlock {
    /// Decodes a whole block.
    fn parse_whole(block: &[u8]) -> (r: Result<ExtendedReportBlock, Error>)
        requires
            block@.len() >= 4,
        ensures
            match (r, parse_block(block@)) {
                (Ok(b), Ok(v)) => b@ == v,
                (Err(e), Err(f)) => e == f,
                _ => false,
            },
    {
        let mut reader = ByteReader::new(block);
        match ExtendedReportBlockType::from(block[0]) {
            Some(ExtendedReportBlockType::TargetBitrate) => {
                let b = ExtendedReportTargetBitrate::parse(&mut reader)?;
                Ok(ExtendedReportBlock::TargetBitrate(b))
            },
            Some(ExtendedReportBlockType::ReceiverReferenceTime) => {
                let b = ExtendedReportReceiverReferenceTime::parse(&mut reader)?;
                Ok(ExtendedReportBlock::ReceiverReferenceTime(b))
            },
            Some(ExtendedReportBlockType::DelayLastReceiverReport) => {
                let b = ExtendedReportDelayLastReceiverReport::parse(&mut reader)?;
                Ok(ExtendedReportBlock::DelayLastReceiverReport(b))
            },
            None => {
                let mut content: Vec<u8> = Vec::new();
                push_bytes(&mut content, vstd::slice::slice_subrange(block, 4, block.len()));
                assert(content@ =~= block@.skip(4));
                Ok(ExtendedReportBlock::Unknown { block_type: block[0], type_specific: block[1], content })
            },
        }
    }
}

impl ExtendedReportBlock {
    /// Reads the block at the front of the reader, giving it back with its
    /// size.
    fn read(reader: &mut ByteReader) -> (r: Result<(ExtendedReportBlock, usize), Error>)
        ensures
            final(reader).data() == old(reader).data(),
            match (r, first_block(old(reader).rest())) {
                (Ok((b, n)), Ok((v, m))) => b@ == v && n == m && 4 <= n <= 2048 && n <= old(reader).rest().len()
                    && final(reader).rest() == old(reader).rest().skip(m),
                (Err(e), Err(f)) => e == f,
                _ => false,
            },
    {
        reveal(first_block);
        let ghost t = reader.rest();
        let header = reader.read_slice(4)?;
        assert(header@ =~= t.take(4));
        let block_length = (header[2] as usize * 0x100 + header[3] as usize) * 4;
        assert(block_length == be_u16(t, 2) as int * 4);
        let full_block_length = block_length + 4;
        if full_block_length > 2048 {
            return Err(Error::InvalidLength);
        }
        let body = reader.read_slice(block_length)?;
        let mut block_data: Vec<u8> = Vec::new();
        push_bytes(&mut block_data, header);
        push_bytes(&mut block_data, body);
        assert(block_data@ =~= t.take(full_block_length as int));
        assert(t.skip(4).skip(block_length as int) =~= t.skip(full_block_length as int));
        let block = ExtendedReportBlock::parse_whole(block_data.as_slice())?;
        Ok((block, full_block_length))
    }
}

impl RtcpPacketExtendedReport {
    #[verifier::rlimit(50)]
    pub fn parse(reader: &mut ByteReader) -> (r: Result<RtcpPacketExtendedReport, Error>)
        ensures
            final(reader).data() == old(reader).data(),
            parse_outcome(r, parse_extended_report(old(reader).rest()), old(reader).rest(), final(reader).rest()),
    {
        let ghost s = reader.rest();
        let _ = read_header(reader, 207)?;
        let length = reader.read_u16_be()?;
        assert(s.skip(2)[0] == s[2] && s.skip(2)[1] == s[3]);
        assert(s.skip(2).skip(2) =~= s.skip(4));
        if length < 1 {
            return Err(Error::InvalidLength);
        }
        let ssrc = reader.read_u32_be()?;
        assert(be_u32(s.skip(4), 0) == be_u32(s, 4));
        assert(s.skip(4).skip(4) =~= s.skip(8));
        let ghost total = parse_blocks(s, 8, 1, length as int);
        let mut blocks: Vec<ExtendedReportBlock> = Vec::new();
        let mut read: u16 = 1;
        let ghost mut pos: int = 8;
        assert(blocks@.map_values(|b: ExtendedReportBlock| b@) =~= Seq::<ExtendedReportBlockView>::empty());
        assert(prepend_blocks(Seq::empty(), total) == total) by {
            match total {
                Ok((rest, end)) => { assert(Seq::<ExtendedReportBlockView>::empty() + rest =~= rest); },
                Err(e) => {},
            }
        }
        while read < length
            invariant
                s == old(reader).rest(),
                header_error(s, 207) is None,
                s.len() >= 8,
                length == be_u16(s, 2),
                length >= 1,
                8 <= pos <= s.len(),
                reader.data() == old(reader).data(),
                reader.rest() == s.skip(pos),
                total == parse_blocks(s, 8, 1, length as int),
                total == prepend_blocks(
                    blocks@.map_values(|b: ExtendedReportBlock| b@),
                    parse_blocks(s, pos, read as int, length as int),
                ),
            decreases s.len() - pos,
        {
            let ghost rest = parse_blocks(s, pos, read as int, length as int);
            let (block, full_block_length) = match ExtendedReportBlock::read(reader) {
                Ok(x) => x,
                Err(e) => {
                    assert(rest == Err::<(Seq<ExtendedReportBlockView>, int), Error>(e));
                    return Err(e);
                },
            };
            assert(s.skip(pos).skip(full_block_length as int) =~= s.skip(pos + full_block_length));
            let ghost done = blocks@.map_values(|b: ExtendedReportBlock| b@);
            blocks.push(block);
            proof {
                lemma_prepend_blocks(
                    done,
                    seq![block@],
                    parse_blocks(s, pos + full_block_length, (read + full_block_length / 4) % 0x10000, length as int),
                );
                assert(blocks@.map_values(|b: ExtendedReportBlock| b@) =~= done + seq![block@]);
            }
            read = read.wrapping_add((full_block_length / 4) as u16);
            proof { pos = pos + full_block_length; }
        }
        proof {
            let done = blocks@.map_values(|b: ExtendedReportBlock| b@);
            assert(done + Seq::<ExtendedReportBlockView>::empty() =~= done);
        }
        Ok(RtcpPacketExtendedReport { ssrc, blocks })
    }
}

} // verus!
