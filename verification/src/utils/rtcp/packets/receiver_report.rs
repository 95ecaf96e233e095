//! Receiver reports (RFC 3550 section 6.4.2).
use vstd::prelude::*;
use std::collections::BTreeMap;
use crate::bytes::{ByteReader, be_u16, be_u32, enc_u16, enc_u32, writes, parse_outcome, write_bytes, push_u8,
    push_u16, push_u32, lemma_u16_roundtrip, lemma_u32_roundtrip};
use crate::error::Error;
use crate::utils::rtcp::{RtcpReportBlock, header_error, info_byte, make_info_byte, lemma_info_byte, read_header,
    read_reports, push_reports, parsed_reports, reports_bytes, reports_fit, lemma_reports_roundtrip,
    lemma_parsed_reports_len, read_profile_data, parse_profile_data, profile_data_bytes,
    spec_profile_data_length, profile_data_length, write_profile_data_to, lemma_profile_data_roundtrip, opt_view};
use crate::utils::rtcp::needs_padding;

verus! {

pub struct ReceiverReportView {
    pub ssrc: u32,
    pub reports: Map<u32, RtcpReportBlock>,
    pub profile_data: Option<Seq<u8>>,
}

///https://tools.ietf.org/html/rfc1889#section-6.3.2
#[derive(Debug, Clone)]
pub struct RtcpPacketReceiverReport {
    pub ssrc: u32,
    pub reports: BTreeMap<u32, RtcpReportBlock>,
    pub profile_data: Option<Vec<u8>>,
}

impl View for RtcpPacketReceiverReport {
    type V = ReceiverReportView;

    open spec fn view(&self) -> ReceiverReportView {
        ReceiverReportView { ssrc: self.ssrc, reports: self.reports@, profile_data: opt_view(self.profile_data) }
    }
}

/// The length field of a receiver report: its size in words, less one.
pub open spec fn receiver_report_quads(r: ReceiverReportView) -> int {
    1 + 6 * r.reports.len() as int + match r.profile_data {
        Some(p) => (p.len() as int + 3) / 4,
        None => 0,
    }
}

/// The eight bytes before the report blocks.
pub open spec fn receiver_report_header(r: ReceiverReportView) -> Seq<u8> {
    seq![info_byte(needs_padding(r.profile_data), r.reports.len() as u8), 201u8]
        + enc_u16((receiver_report_quads(r) % 0x10000) as u16) + enc_u32(r.ssrc)
}

/// The encoding of a receiver report with at most fifteen report blocks.
pub open spec fn receiver_report_bytes(r: ReceiverReportView) -> Seq<u8> {
    receiver_report_header(r) + reports_bytes(r.reports) + profile_data_bytes(r.profile_data, true)
}

/// A receiver report decoded from the front of `s`, with the number of
/// bytes it takes, or why there is none. The low five bits of the first
/// byte count the report blocks, and the bit above them marks padding.
pub open spec fn parse_receiver_report(s: Seq<u8>) -> Result<(ReceiverReportView, int), Error> {
    match header_error(s, 201) {
        Some(e) => Err(e),
        None => if s.len() < 8 {
            Err(Error::UnexpectedEof)
        } else {
            let count = (s[0] & 0x1F) as int;
            if s.len() < 8 + 24 * count {
                Err(Error::UnexpectedEof)
            } else {
                let reports = parsed_reports(s.skip(8), 0, count as nat);
                let length = be_u16(s, 2) as int * 4 + 4;
                let bytes_read = 8 + 24 * reports.len();
                if length < bytes_read {
                    Err(Error::InvalidLength)
                } else {
                    match parse_profile_data(s.skip(8 + 24 * count), length - bytes_read, s[0] & 0x20 != 0) {
                        Err(e) => Err(e),
                        Ok((profile_data, n)) => Ok(
                            (ReceiverReportView { ssrc: be_u32(s, 4), reports, profile_data }, 8 + 24 * count + n),
                        ),
                    }
                }
            }
        },
    }
}

/// A receiver report that its encoding gives back: at most fifteen report
/// blocks that fit their fields, a length that fits its field, and profile
/// data that is absent or not empty.
pub open spec fn receiver_report_roundtrips(r: ReceiverReportView) -> bool {
    &&& r.reports.dom().finite()
    &&& r.reports.len() <= 15
    &&& reports_fit(r.reports)
    &&& receiver_report_quads(r) < 0x10000
    &&& match r.profile_data {
        Some(p) => p.len() > 0,
        None => true,
    }
}

/// Decoding the encoding of a receiver report gives back the report.
#[verifier::rlimit(50)]
pub proof fn lemma_receiver_report_roundtrip(r: ReceiverReportView, trailer: Seq<u8>)
    requires
        receiver_report_roundtrips(r),
    ensures
        parse_receiver_report(receiver_report_bytes(r) + trailer) == Ok::<(ReceiverReportView, int), Error>(
            (r, receiver_report_bytes(r).len() as int),
        ),
{
    let n = r.reports.len();
    let b = receiver_report_bytes(r);
    let s = b + trailer;
    let h = receiver_report_header(r);
    let rb = reports_bytes(r.reports);
    let pb = profile_data_bytes(r.profile_data, true);
    lemma_reports_roundtrip(r.reports, pb + trailer);
    assert(b =~= h + (rb + pb));
    lemma_info_byte(needs_padding(r.profile_data), n as u8);
    let q = receiver_report_quads(r) as u16;
    assert(s[0] == h[0]);
    assert(s[1] == h[1]);
    assert(s.subrange(2, 4) =~= enc_u16(q));
    assert(s.subrange(4, 8) =~= enc_u32(r.ssrc));
    lemma_u16_roundtrip(q, s, 2);
    lemma_u32_roundtrip(r.ssrc, s, 4);
    assert(s.skip(8) =~= rb + (pb + trailer));
    assert(parsed_reports(s.skip(8), 0, n) == r.reports);
    let l = spec_profile_data_length(r.profile_data);
    assert(s.skip(8 + 24 * n as int) =~= pb + trailer);
    lemma_profile_data_roundtrip(r.profile_data, trailer);
    assert(pb.len() == l);
    assert(b.len() == 8 + 24 * n + l);
}

impl RtcpPacketReceiverReport {
    #[verifier::rlimit(100)]
    pub fn parse(reader: &mut ByteReader) -> (r: Result<RtcpPacketReceiverReport, Error>)
        ensures
            final(reader).data() == old(reader).data(),
            parse_outcome(r, parse_receiver_report(old(reader).rest()), old(reader).rest(), final(reader).rest()),
    {
        let ghost s = reader.rest();
        let info = read_header(reader, 201)?;
        let length = reader.read_u16_be()? as usize * 4 + 4;
        let ssrc = reader.read_u32_be()?;
        assert(s.skip(2).skip(2) =~= s.skip(4));
        assert(s.skip(4).skip(4) =~= s.skip(8));
        let count = (info & 0x1F) as usize;
        let reports = read_reports(reader, count)?;
        assert(s.skip(8).skip(24 * count as int) =~= s.skip(8 + 24 * count as int));
        proof {
            crate::utils::rtcp::order::lemma_keys_ordered();
            vstd::std_specs::btree::axiom_spec_btree_map_len(&reports);
            lemma_parsed_reports_len(s.skip(8), count as nat);
        }
        let bytes_read = 8 + 24 * reports.len();
        if length < bytes_read {
            return Err(Error::InvalidLength);
        }
        let profile_data = read_profile_data(reader, length - bytes_read, (info & 0x20) != 0)?;
        assert(s.skip(8 + 24 * count as int).skip((length - bytes_read) as int) =~= s.skip(
            8 + 24 * count as int + (length - bytes_read) as int,
        ));
        Ok(RtcpPacketReceiverReport { ssrc, reports, profile_data })
    }

    pub open spec fn spec_byte_size(&self) -> int {
        8 + 24 * self.reports@.len() + spec_profile_data_length(opt_view(self.profile_data))
    }

    pub fn byte_size(&self) -> (r: usize)
        requires
            self.spec_byte_size() <= usize::MAX,
        ensures
            r == self.spec_byte_size(),
    {
        proof {
            crate::utils::rtcp::order::lemma_keys_ordered();
            vstd::std_specs::btree::axiom_spec_btree_map_len(&self.reports);
        }
        let p = match &self.profile_data {
            Some(payload) => profile_data_length(&self.profile_data),
            None => 0,
        };
        8 + 24 * self.reports.len() + p
    }

    /// Writes the report at `pos`. A report with more than fifteen blocks is
    /// refused before anything is written.
    pub fn write(&self, buf: &mut [u8], pos: usize) -> (r: Result<usize, Error>)
        requires
            pos <= old(buf)@.len(),
            reports_fit(self.reports@),
            match self.profile_data {
                Some(p) => p@.len() + 3 <= usize::MAX,
                None => true,
            },
        ensures
            self.reports@.len() > 15 ==> r == Err::<usize, Error>(Error::TooManyEntries) && final(buf)@ == old(buf)@,
            self.reports@.len() <= 15 ==> writes(old(buf)@, final(buf)@, pos as int, receiver_report_bytes(self@), r),
    {
        proof {
            crate::utils::rtcp::order::lemma_keys_ordered();
            vstd::std_specs::btree::axiom_spec_btree_map_len(&self.reports);
        }
        if self.reports.len() > 15 {
            return Err(Error::TooManyEntries);
        }
        let mut out: Vec<u8> = Vec::new();
        self.write_to(&mut out);
        write_bytes(buf, pos, out.as_slice())
    }

    /// Appends the encoding of a report with at most fifteen blocks.
    pub fn write_to(&self, out: &mut Vec<u8>)
        requires
            self.reports@.len() <= 15,
            reports_fit(self.reports@),
            match self.profile_data {
                Some(p) => p@.len() + 3 <= usize::MAX,
                None => true,
            },
        ensures
            final(out)@ == old(out)@ + receiver_report_bytes(self@),
    {
        proof {
            crate::utils::rtcp::order::lemma_keys_ordered();
            vstd::std_specs::btree::axiom_spec_btree_map_len(&self.reports);
        }
        let count = self.reports.len();
        let padding = match &self.profile_data {
            Some(payload) => payload.len() % 4 != 0,
            None => false,
        };
        let info = make_info_byte(padding, count as u8);
        let mut quad_size = 1 + 6 * count;
        if let Some(payload) = &self.profile_data {
            quad_size = quad_size + (payload.len() + 3) / 4;
        }
        assert(quad_size == receiver_report_quads(self@));
        let ghost start = out@;
        push_u8(out, info);
        push_u8(out, 201);
        push_u16(out, (quad_size % 0x10000) as u16);
        push_u32(out, self.ssrc);
        assert(out@ =~= start + receiver_report_header(self@));
        push_reports(out, &self.reports);
        write_profile_data_to(out, &self.profile_data, true);
        assert(out@ =~= start + receiver_report_bytes(self@));
    }
}

} // verus!
