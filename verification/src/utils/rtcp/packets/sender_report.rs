//! Sender reports (RFC 3550 section 6.4.1).
use vstd::prelude::*;
use std::collections::BTreeMap;
use crate::bytes::{ByteReader, be_u16, be_u32, be_u64, enc_u16, enc_u32, enc_u64, writes, parse_outcome,
    write_bytes, push_u8, push_u16, push_u32, push_u64, lemma_u16_roundtrip, lemma_u32_roundtrip,
    lemma_u64_roundtrip};
use crate::error::Error;
use crate::utils::rtcp::{RtcpReportBlock, header_error, info_byte, make_info_byte, lemma_info_byte, read_header,
    read_reports, push_reports, parsed_reports, reports_bytes, reports_fit, lemma_reports_roundtrip,
    read_profile_data, parse_profile_data, profile_data_bytes, spec_profile_data_length, profile_data_length,
    write_profile_data_to, lemma_profile_data_roundtrip, lemma_profile_data_len, opt_view, needs_padding};

verus! {

pub struct SenderReportView {
    pub ssrc: u32,
    pub network_timestamp: u64,
    pub rtp_timestamp: u32,
    pub packet_count: u32,
    pub byte_count: u32,
    pub reports: Map<u32, RtcpReportBlock>,
    pub profile_data: Option<Seq<u8>>,
}

/// https://tools.ietf.org/html/rfc1889#section-6.3.1
#[derive(Debug, Clone)]
pub struct RtcpPacketSenderReport {
    pub ssrc: u32,
    pub network_timestamp: u64,
    pub rtp_timestamp: u32,
    pub packet_count: u32,
    pub byte_count: u32,
    pub reports: BTreeMap<u32, RtcpReportBlock>,
    pub profile_data: Option<Vec<u8>>,
}

impl View for RtcpPacketSenderReport {
    type V = SenderReportView;

    open spec fn view(&self) -> SenderReportView {
        SenderReportView {
            ssrc: self.ssrc,
            network_timestamp: self.network_timestamp,
            rtp_timestamp: self.rtp_timestamp,
            packet_count: self.packet_count,
            byte_count: self.byte_count,
            reports: self.reports@,
            profile_data: opt_view(self.profile_data),
        }
    }
}

/// The length field of a sender report: its size in words, less one.
pub open spec fn sender_report_quads(r: SenderReportView) -> int {
    6 + 6 * r.reports.len() as int + match r.profile_data {
        Some(p) => (p.len() as int + 3) / 4,
        None => 0,
    }
}

/// The twenty eight bytes before the report blocks.
pub open spec fn sender_report_header(r: SenderReportView) -> Seq<u8> {
    seq![info_byte(needs_padding(r.profile_data), r.reports.len() as u8), 200u8]
        + enc_u16((sender_report_quads(r) % 0x10000) as u16) + enc_u32(r.ssrc) + enc_u64(r.network_timestamp)
        + enc_u32(r.rtp_timestamp) + enc_u32(r.packet_count) + enc_u32(r.byte_count)
}

/// The encoding of a sender report with at most fifteen report blocks.
pub open spec fn sender_report_bytes(r: SenderReportView) -> Seq<u8> {
    sender_report_header(r) + reports_bytes(r.reports) + profile_data_bytes(r.profile_data, true)
}

/// The fixed fields of a sender report come back from its header.
pub proof fn lemma_sender_report_header(r: SenderReportView, s: Seq<u8>)
    requires
        s.len() >= 28,
        s.take(28) == sender_report_header(r),
        r.reports.len() <= 15,
        sender_report_quads(r) < 0x10000,
    ensures
        header_error(s, 200) is None,
        s[0] & 0x1F == r.reports.len(),
        (s[0] & 0x20 != 0) == needs_padding(r.profile_data),
        be_u16(s, 2) == sender_report_quads(r),
        be_u32(s, 4) == r.ssrc,
        be_u64(s, 8) == r.network_timestamp,
        be_u32(s, 16) == r.rtp_timestamp,
        be_u32(s, 20) == r.packet_count,
        be_u32(s, 24) == r.byte_count,
{
    let h = sender_report_header(r);
    lemma_info_byte(needs_padding(r.profile_data), r.reports.len() as u8);
    assert forall|i: int| 0 <= i < 28 implies s[i] == h[i] by {
        assert(s.take(28)[i] == s[i]);
    }
    let q = sender_report_quads(r) as u16;
    assert(h.subrange(2, 4) =~= enc_u16(q));
    assert(h.subrange(4, 8) =~= enc_u32(r.ssrc));
    assert(h.subrange(8, 16) =~= enc_u64(r.network_timestamp));
    assert(h.subrange(16, 20) =~= enc_u32(r.rtp_timestamp));
    assert(h.subrange(20, 24) =~= enc_u32(r.packet_count));
    assert(h.subrange(24, 28) =~= enc_u32(r.byte_count));
    assert(s.subrange(2, 4) =~= h.subrange(2, 4));
    assert(s.subrange(4, 8) =~= h.subrange(4, 8));
    assert(s.subrange(8, 16) =~= h.subrange(8, 16));
    assert(s.subrange(16, 20) =~= h.subrange(16, 20));
    assert(s.subrange(20, 24) =~= h.subrange(20, 24));
    assert(s.subrange(24, 28) =~= h.subrange(24, 28));
    lemma_u16_roundtrip(q, s, 2);
    lemma_u32_roundtrip(r.ssrc, s, 4);
    lemma_u64_roundtrip(r.network_timestamp, s, 8);
    lemma_u32_roundtrip(r.rtp_timestamp, s, 16);
    lemma_u32_roundtrip(r.packet_count, s, 20);
    lemma_u32_roundtrip(r.byte_count, s, 24);
}

/// A sender report decoded from the front of `s`, with the number of bytes
/// it takes, or why there is none. The low five bits of the first byte
/// count the report blocks, and the bit above them marks padding.
pub open spec fn parse_sender_report(s: Seq<u8>) -> Result<(SenderReportView, int), Error> {
    match header_error(s, 200) {
        Some(e) => Err(e),
        None => if s.len() < 28 {
            Err(Error::UnexpectedEof)
        } else {
            let count = (s[0] & 0x1F) as int;
            if s.len() < 28 + 24 * count {
                Err(Error::UnexpectedEof)
            } else {
                let reports = parsed_reports(s.skip(28), 0, count as nat);
                let length = be_u16(s, 2) as int * 4 + 4;
                let bytes_read = 28 + 24 * reports.len();
                if length < bytes_read {
                    Err(Error::InvalidLength)
                } else {
                    match parse_profile_data(s.skip(28 + 24 * count), length - bytes_read, s[0] & 0x20 != 0) {
                        Err(e) => Err(e),
                        Ok((profile_data, n)) => Ok(
                            (
                                SenderReportView {
                                    ssrc: be_u32(s, 4),
                                    network_timestamp: be_u64(s, 8),
                                    rtp_timestamp: be_u32(s, 16),
                                    packet_count: be_u32(s, 20),
                                    byte_count: be_u32(s, 24),
                                    reports,
                                    profile_data,
                                },
                                28 + 24 * count + n,
                            ),
                        ),
                    }
                }
            }
        },
    }
}

/// A sender report that its encoding gives back: at most fifteen report
/// blocks that fit their fields, a length that fits its field, and profile
/// data that is absent or not empty.
pub open spec fn sender_report_roundtrips(r: SenderReportView) -> bool {
    &&& r.reports.dom().finite()
    &&& r.reports.len() <= 15
    &&& reports_fit(r.reports)
    &&& sender_report_quads(r) < 0x10000
    &&& match r.profile_data {
        Some(p) => p.len() > 0,
        None => true,
    }
}

/// Decoding the encoding of a sender report gives back the report.
#[verifier::rlimit(50)]
pub proof fn lemma_sender_report_roundtrip(r: SenderReportView, trailer: Seq<u8>)
    requires
        sender_report_roundtrips(r),
    ensures
        parse_sender_report(sender_report_bytes(r) + trailer) == Ok::<(SenderReportView, int), Error>(
            (r, sender_report_bytes(r).len() as int),
        ),
{
    let n = r.reports.len();
    let b = sender_report_bytes(r);
    let s = b + trailer;
    let h = sender_report_header(r);
    let rb = reports_bytes(r.reports);
    let pb = profile_data_bytes(r.profile_data, true);
    lemma_reports_roundtrip(r.reports, pb + trailer);
    assert(b =~= h + (rb + pb));
    assert(s.take(28) =~= h);
    lemma_sender_report_header(r, s);
    assert(s.skip(28) =~= rb + (pb + trailer));
    assert(parsed_reports(s.skip(28), 0, n) == r.reports);
    let length = be_u16(s, 2) as int * 4 + 4;
    let l = spec_profile_data_length(r.profile_data);
    assert(length - (28 + 24 * n) == l);
    assert(s.skip(28 + 24 * n as int) =~= pb + trailer);
    lemma_profile_data_roundtrip(r.profile_data, trailer);
    assert(parse_profile_data(s.skip(28 + 24 * n as int), l, needs_padding(r.profile_data)) == Ok::<(Option<Seq<u8>>, int), Error>((r.profile_data, l)));
    assert(pb.len() == l);
    assert(b.len() == 28 + 24 * n + l);
}

/// A sender report with at most fifteen report blocks is written in
/// `byte_size` bytes, a whole number of words, and its length field counts
/// those words less one (RFC 3550 section 6.4.1) when it can count them.
pub proof fn lemma_sender_report_size(r: RtcpPacketSenderReport)
    requires
        r.reports@.len() <= 15,
        reports_fit(r.reports@),
    ensures
        sender_report_bytes(r@).len() == r.spec_byte_size(),
        r.spec_byte_size() % 4 == 0,
        sender_report_quads(r@) < 0x10000 ==> r.spec_byte_size() == 4 * (be_u16(sender_report_bytes(r@), 2) + 1),
{
    broadcast use vstd::std_specs::btree::group_btree_axioms;
    let v = r@;
    lemma_reports_roundtrip(v.reports, Seq::empty());
    lemma_profile_data_len(v.profile_data);
    let b = sender_report_bytes(v);
    let h = sender_report_header(v);
    assert(h.len() == 28);
    assert(b.len() == 28 + 24 * v.reports.len() + spec_profile_data_length(v.profile_data));
    assert(4 * sender_report_quads(v) + 4 == b.len());
    if sender_report_quads(v) < 0x10000 {
        let q = sender_report_quads(v) as u16;
        assert(b.subrange(2, 4) =~= h.subrange(2, 4));
        assert(h.subrange(2, 4) =~= enc_u16(q));
        lemma_u16_roundtrip(q, b, 2);
    }
}

impl RtcpPacketSenderReport {
    #[verifier::rlimit(100)]
    pub fn parse(reader: &mut ByteReader) -> (r: Result<RtcpPacketSenderReport, Error>)
        ensures
            final(reader).data() == old(reader).data(),
            parse_outcome(r, parse_sender_report(old(reader).rest()), old(reader).rest(), final(reader).rest()),
    {
        let ghost s = reader.rest();
        let info = read_header(reader, 200)?;
        let length = reader.read_u16_be()? as usize * 4 + 4;
        let ssrc = reader.read_u32_be()?;
        let network_timestamp = reader.read_u64_be()?;
        let rtp_timestamp = reader.read_u32_be()?;
        let packet_count = reader.read_u32_be()?;
        let byte_count = reader.read_u32_be()?;
        assert(s.skip(2).skip(2) =~= s.skip(4));
        assert(s.skip(4).skip(4) =~= s.skip(8));
        assert(s.skip(8).skip(8) =~= s.skip(16));
        assert(s.skip(16).skip(4) =~= s.skip(20));
        assert(s.skip(20).skip(4) =~= s.skip(24));
        assert(s.skip(24).skip(4) =~= s.skip(28));
        assert(be_u64(s.skip(8), 0) == be_u64(s, 8));
        let count = (info & 0x1F) as usize;
        let reports = read_reports(reader, count)?;
        assert(s.skip(28).skip(24 * count as int) =~= s.skip(28 + 24 * count as int));
        proof {
            crate::utils::rtcp::order::lemma_keys_ordered();
            vstd::std_specs::btree::axiom_spec_btree_map_len(&reports);
            crate::utils::rtcp::lemma_parsed_reports_len(s.skip(28), count as nat);
        }
        let bytes_read = 28 + 24 * reports.len();
        if length < bytes_read {
            return Err(Error::InvalidLength);
        }
        let profile_data = read_profile_data(reader, length - bytes_read, (info & 0x20) != 0)?;
        assert(s.skip(28 + 24 * count as int).skip((length - bytes_read) as int) =~= s.skip(
            28 + 24 * count as int + (length - bytes_read) as int,
        ));
        Ok(RtcpPacketSenderReport {
            ssrc,
            network_timestamp,
            rtp_timestamp,
            packet_count,
            byte_count,
            reports,
            profile_data,
        })
    }

    pub open spec fn spec_byte_size(&self) -> int {
        28 + 24 * self.reports@.len() + spec_profile_data_length(opt_view(self.profile_data))
    }

    pub fn byte_size(&self) -> (r: usize)
        requires
            self.spec_byte_size() <= usize::MAX,
        ensures
            r == self.spec_byte_size(),
    {
        broadcast use vstd::std_specs::btree::group_btree_axioms;
        proof { crate::utils::rtcp::order::lemma_keys_ordered(); }
        let p = match &self.profile_data {
            Some(payload) => {
                if payload.len() > usize::MAX - 3 {
                    assert(false);
                }
                profile_data_length(&self.profile_data)
            },
            None => 0,
        };
        28 + 24 * self.reports.len() + p
    }

    /// Writes the report at `pos`. A report with more than fifteen blocks is
    /// refused before anything is written.
    pub fn write(&self, buf: &mut [u8], pos: usize) -> (r: Result<usize, Error>)
        requires
            pos <= old(buf)@.len(),
            reports_fit(self.reports@),
            match self.profile_data {
                Some(p) => p@.len() + 3 <= usize::MAX,
                None => true,
            },
        ensures
            self.reports@.len() > 15 ==> r == Err::<usize, Error>(Error::TooManyEntries) && final(buf)@ == old(buf)@,
            self.reports@.len() <= 15 ==> writes(old(buf)@, final(buf)@, pos as int, sender_report_bytes(self@), r)
                && sender_report_bytes(self@).len() == self.spec_byte_size(),
    {
        broadcast use vstd::std_specs::btree::group_btree_axioms;
        proof { crate::utils::rtcp::order::lemma_keys_ordered(); }
        if self.reports.len() > 15 {
            return Err(Error::TooManyEntries);
        }
        let mut out: Vec<u8> = Vec::new();
        self.write_to(&mut out);
        proof { lemma_sender_report_size(*self); }
        write_bytes(buf, pos, out.as_slice())
    }

    /// Appends the encoding of a report with at most fifteen blocks.
    pub fn write_to(&self, out: &mut Vec<u8>)
        requires
            self.reports@.len() <= 15,
            reports_fit(self.reports@),
            match self.profile_data {
                Some(p) => p@.len() + 3 <= usize::MAX,
                None => true,
            },
        ensures
            final(out)@ == old(out)@ + sender_report_bytes(self@),
    {
        proof {
            crate::utils::rtcp::order::lemma_keys_ordered();
            vstd::std_specs::btree::axiom_spec_btree_map_len(&self.reports);
        }
        let count = self.reports.len();
        let padding = match &self.profile_data {
            Some(payload) => payload.len() % 4 != 0,
            None => false,
        };
        let info = make_info_byte(padding, count as u8);
        let mut quad_size = 6 + 6 * count;
        if let Some(payload) = &self.profile_data {
            quad_size = quad_size + (payload.len() + 3) / 4;
        }
        assert(quad_size == sender_report_quads(self@));
        let ghost start = out@;
        push_u8(out, info);
        push_u8(out, 200);
        push_u16(out, (quad_size % 0x10000) as u16);
        push_u32(out, self.ssrc);
        push_u64(out, self.network_timestamp);
        push_u32(out, self.rtp_timestamp);
        push_u32(out, self.packet_count);
        push_u32(out, self.byte_count);
        assert(out@ =~= start + sender_report_header(self@));
        push_reports(out, &self.reports);
        write_profile_data_to(out, &self.profile_data, true);
        assert(out@ =~= start + sender_report_bytes(self@));
    }
}

} // verus!
