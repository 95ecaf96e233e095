//! RTCP (RFC 3550) packet framing shared by all packet types.
use vstd::prelude::*;
use vstd::relations::{is_minimal, total_ordering};
use std::collections::BTreeMap;
use vstd::std_specs::iter::IteratorSpec;
use crate::bytes::{ByteReader, be_u24, be_u32, enc_u8, enc_u24, enc_u32, push_u32, written, write_result, writes,
    write_bytes, lemma_written_concat, lemma_written_empty, lemma_u24_roundtrip, lemma_u32_roundtrip};
use crate::error::Error;

pub mod packets;
pub mod order;
pub mod packet;
pub use packet::{RtcpPacketType, RtcpPacket};
use order::{lemma_keys_ordered, lemma_increasing_u32};

verus! {

/// `b` holds at least the four bytes of an RTCP header, and its payload
/// type (second byte without the marker bit) lies in 64..96.
pub open spec fn rtcp_header_shape(b: Seq<u8>) -> bool {
    b.len() >= 4 && 64 <= (b[1] & 0x7F) < 96
}

/// Returns true if the buffer seem to contain a RTCP header: at least four
/// bytes, and a payload type (the second byte without its marker bit) in
/// 64..96, the range that RTCP packet types 192..223 fall into when RTP and
/// RTCP share a port (RFC 5761, section 4).
pub fn is_rtcp_header(buffer: &[u8]) -> (r: bool)
    ensures
        r == rtcp_header_shape(buffer@),
{
    if buffer.len() < 4 {
        false
    } else {
        let payload_type = buffer[1] & 0b0111_1111;
        payload_type >= 64 && payload_type < 96
    }
}

// ---------------------------------------------------------------------------
// Common header
// ---------------------------------------------------------------------------

/// The first header byte holds version 2 in its top two bits.
pub open spec fn version_ok(info: u8) -> bool {
    info >> 6 == 2
}

/// Why the first two header bytes of `s` do not start a packet of type
/// `packet_type`, if they do not.
pub open spec fn header_error(s: Seq<u8>, packet_type: u8) -> Option<Error> {
    if s.len() < 1 {
        Some(Error::UnexpectedEof)
    } else if !version_ok(s[0]) {
        Some(Error::InvalidVersion)
    } else if s.len() < 2 {
        Some(Error::UnexpectedEof)
    } else if s[1] != packet_type {
        Some(Error::UnexpectedPacketType)
    } else {
        None
    }
}

/// Read the version byte and the packet type byte, giving back the first
/// header byte.
pub fn read_header(reader: &mut ByteReader, packet_type: u8) -> (r: Result<u8, Error>)
    ensures
        final(reader).data() == old(reader).data(),
        match header_error(old(reader).rest(), packet_type) {
            Some(e) => r == Err::<u8, Error>(e),
            None => r == Ok::<u8, Error>(old(reader).rest()[0]) && final(reader).rest()
                == old(reader).rest().skip(2) && final(reader).pos() == old(reader).pos() + 2,
        },
{
    let ghost s = reader.rest();
    let info = reader.read_u8()?;
    if (info >> 6) != 2 {
        return Err(Error::InvalidVersion);
    }
    let t = reader.read_u8()?;
    assert(s.skip(1)[0] == s[1]);
    assert(s.skip(1).skip(1) =~= s.skip(2));
    if t != packet_type {
        return Err(Error::UnexpectedPacketType);
    }
    Ok(info)
}

/// The first header byte of a packet with version 2, the given padding flag
/// and a five bit count or sub type.
pub open spec fn info_byte(padding: bool, count: u8) -> u8 {
    if padding {
        (0x80u8 | 0x20u8 | count) as u8
    } else {
        (0x80u8 | count) as u8
    }
}

pub proof fn lemma_info_byte(padding: bool, count: u8)
    requires
        count < 32,
    ensures
        version_ok(info_byte(padding, count)),
        info_byte(padding, count) & 0x1F == count,
        (info_byte(padding, count) & 0x20 != 0) == padding,
{
    if padding {
        assert((0x80u8 | 0x20u8 | count) >> 6 == 2 && (0x80u8 | 0x20u8 | count) & 0x1F == count
            && (0x80u8 | 0x20u8 | count) & 0x20 != 0) by (bit_vector)
            requires
                count < 32,
        ;
    } else {
        assert((0x80u8 | count) >> 6 == 2 && (0x80u8 | count) & 0x1F == count && (0x80u8 | count)
            & 0x20 == 0) by (bit_vector)
            requires
                count < 32,
        ;
    }
}

pub fn make_info_byte(padding: bool, count: u8) -> (r: u8)
    requires
        count < 32,
    ensures
        r == info_byte(padding, count),
{
    if padding {
        0x80u8 | 0x20u8 | count
    } else {
        0x80u8 | count
    }
}

// ---------------------------------------------------------------------------
// Profile specific extensions
// ---------------------------------------------------------------------------

/// The profile data read from the front of `s` when `length` bytes are left
/// in the packet, with the number of bytes taken, or why there is none.
/// When the packet is padded, its last byte counts the padding bytes.
pub open spec fn parse_profile_data(s: Seq<u8>, length: int, padded: bool) -> Result<(Option<Seq<u8>>, int), Error> {
    if length == 0 {
        Ok((None, 0))
    } else if s.len() < length {
        Err(Error::UnexpectedEof)
    } else {
        let data = s.take(length);
        if padded {
            let padded_bytes = data[length - 1] as int;
            if padded_bytes == 0 || padded_bytes > length {
                Err(Error::InvalidPadding)
            } else if length - padded_bytes > 0 {
                Ok((Some(data.take(length - padded_bytes)), length))
            } else {
                Ok((None, length))
            }
        } else {
            Ok((Some(data), length))
        }
    }
}

pub fn read_profile_data(reader: &mut ByteReader, profile_data_length_with_padding: usize, padded: bool) -> (r: Result<Option<Vec<u8>>, Error>)
    ensures
        final(reader).data() == old(reader).data(),
        match (r, parse_profile_data(old(reader).rest(), profile_data_length_with_padding as int, padded)) {
            (Ok(v), Ok((w, n))) => opt_view(v) == w && final(reader).rest() == old(reader).rest().skip(n) && final(reader).pos() == old(reader).pos() + n,
            (Err(e), Err(f)) => e == f,
            _ => false,
        },
{
    let ghost s = reader.rest();
    if profile_data_length_with_padding == 0 {
        assert(reader.rest() =~= s.skip(0));
        return Ok(None);
    }
    let mut buffer = reader.read_vec(profile_data_length_with_padding)?;
    if padded {
        let padded_bytes = buffer[buffer.len() - 1] as usize;
        if padded_bytes == 0 || padded_bytes > profile_data_length_with_padding {
            return Err(Error::InvalidPadding);
        }
        buffer.truncate(profile_data_length_with_padding - padded_bytes);
    }
    if buffer.len() > 0 {
        Ok(Some(buffer))
    } else {
        Ok(None)
    }
}

/// The padding bytes that end a padded packet whose payload has `length`
/// bytes; the last one counts them.
pub open spec fn padding_bytes(length: int) -> Seq<u8> {
    if length % 4 == 1 {
        seq![0u8, 0u8, 3u8]
    } else if length % 4 == 2 {
        seq![0u8, 2u8]
    } else if length % 4 == 3 {
        seq![1u8]
    } else {
        Seq::empty()
    }
}

pub open spec fn profile_data_bytes(data: Option<Seq<u8>>, padding: bool) -> Seq<u8> {
    match data {
        Some(payload) => payload + if padding { padding_bytes(payload.len() as int) } else { Seq::empty() },
        None => Seq::empty(),
    }
}

pub open spec fn spec_profile_data_length(data: Option<Seq<u8>>) -> int {
    match data {
        Some(payload) => (payload.len() as int + 3) / 4 * 4,
        None => 0,
    }
}

pub fn profile_data_length(data: &Option<Vec<u8>>) -> (r: usize)
    requires
        match data {
            Some(payload) => payload@.len() + 3 <= usize::MAX,
            None => true,
        },
    ensures
        r == spec_profile_data_length(match data {
            Some(payload) => Some(payload@),
            None => None,
        }),
{
    if let Some(payload) = data {
        ((payload.len() + 3) / 4) * 4
    } else {
        0
    }
}

pub open spec fn opt_view(data: Option<Vec<u8>>) -> Option<Seq<u8>> {
    match data {
        Some(payload) => Some(payload@),
        None => None,
    }
}

/// The padding bytes for a payload of `length` bytes.
pub fn make_padding(length: usize) -> (r: Vec<u8>)
    ensures
        r@ == padding_bytes(length as int),
{
    let rem = length % 4;
    let mut v: Vec<u8> = Vec::new();
    if rem == 1 {
        v.push(0u8);
        v.push(0u8);
        v.push(3u8);
    } else if rem == 2 {
        v.push(0u8);
        v.push(2u8);
    } else if rem == 3 {
        v.push(1u8);
    }
    assert(v@ =~= padding_bytes(length as int));
    v
}

pub fn write_profile_data(buf: &mut [u8], pos: usize, data: &Option<Vec<u8>>, padding: bool) -> (r: Result<usize, Error>)
    requires
        pos <= old(buf)@.len(),
    ensures
        writes(old(buf)@, final(buf)@, pos as int, profile_data_bytes(opt_view(*data), padding), r),
{
    let ghost buf0 = buf@;
    match data {
        Some(payload) => {
            let pad = if padding { make_padding(payload.len()) } else { Vec::new() };
            assert(profile_data_bytes(opt_view(*data), padding) =~= payload@ + pad@);
            proof { lemma_written_concat(buf0, pos as int, payload@, pad@); }
            match write_bytes(buf, pos, payload.as_slice()) {
                Ok(p) => {
                    write_bytes(buf, p, pad.as_slice())
                },
                Err(e) => Err(e),
            }
        },
        None => {
            assert(profile_data_bytes(opt_view(*data), padding) =~= Seq::<u8>::empty());
            proof { lemma_written_empty(buf@, pos as int); }
            Ok(pos)
        },
    }
}

/// Append profile data, padded when asked and needed.
pub fn write_profile_data_to(out: &mut Vec<u8>, data: &Option<Vec<u8>>, padding: bool)
    ensures
        final(out)@ == old(out)@ + profile_data_bytes(opt_view(*data), padding),
{
    match data {
        Some(payload) => {
            crate::bytes::push_bytes(out, payload.as_slice());
            if padding {
                let pad = make_padding(payload.len());
                crate::bytes::push_bytes(out, pad.as_slice());
            }
            assert(out@ =~= old(out)@ + profile_data_bytes(opt_view(*data), padding));
        },
        None => {
            assert(out@ =~= old(out)@ + profile_data_bytes(opt_view(*data), padding));
        },
    }
}

/// Profile data is written, padded where it needs to be, in its length
/// rounded up to a whole number of words.
pub proof fn lemma_profile_data_len(data: Option<Seq<u8>>)
    ensures
        profile_data_bytes(data, true).len() == spec_profile_data_length(data),
        spec_profile_data_length(data) % 4 == 0,
{
    match data {
        Some(p) => {
            assert(profile_data_bytes(data, true) =~= p + padding_bytes(p.len() as int));
        },
        None => {},
    }
}

/// Profile data that is not a whole number of words long is padded.
pub open spec fn needs_padding(profile_data: Option<Seq<u8>>) -> bool {
    match profile_data {
        Some(p) => p.len() % 4 != 0,
        None => false,
    }
}

/// Profile data comes back from its encoding, padded where it needs to be,
/// when it is absent or not empty.
pub proof fn lemma_profile_data_roundtrip(data: Option<Seq<u8>>, trailer: Seq<u8>)
    requires
        match data {
            Some(p) => p.len() > 0,
            None => true,
        },
    ensures
        profile_data_bytes(data, true).len() == spec_profile_data_length(data),
        parse_profile_data(profile_data_bytes(data, true) + trailer, spec_profile_data_length(data), needs_padding(data))
            == Ok::<(Option<Seq<u8>>, int), Error>((data, spec_profile_data_length(data))),
{
    match data {
        Some(p) => {
            let b = profile_data_bytes(data, true);
            let l = spec_profile_data_length(data);
            let s = b + trailer;
            assert(b =~= p + padding_bytes(p.len() as int));
            assert(b.len() == l);
            assert(s.take(l) =~= b);
            if needs_padding(data) {
                assert(b[l - 1] as int == l - p.len());
                assert(s.take(l).take(p.len() as int) =~= p);
            } else {
                assert(b =~= p);
            }
        },
        None => {},
    }
}

// ---------------------------------------------------------------------------
// Report blocks
// ---------------------------------------------------------------------------

#[derive(Debug, Clone, Copy, PartialEq, Eq, Structural)]
pub struct RtcpReportBlock {
    pub fraction_lost: u8,
    pub cumulative_packets_lost: u32,
    pub highest_sequence_received: u32,
    pub jitter: u32,
    pub timestamp_last_sr: u32,
    pub delay_since_last_sr: u32,
}

/// The twenty bytes of a report block.
pub open spec fn report_block_bytes(b: RtcpReportBlock) -> Seq<u8> {
    enc_u8(b.fraction_lost) + enc_u24(b.cumulative_packets_lost) + enc_u32(b.highest_sequence_received)
        + enc_u32(b.jitter) + enc_u32(b.timestamp_last_sr) + enc_u32(b.delay_since_last_sr)
}

/// The report block held by the twenty bytes of `s` from `i` on.
pub open spec fn report_block_at(s: Seq<u8>, i: int) -> RtcpReportBlock {
    RtcpReportBlock {
        fraction_lost: s[i],
        cumulative_packets_lost: be_u24(s, i + 1),
        highest_sequence_received: be_u32(s, i + 4),
        jitter: be_u32(s, i + 8),
        timestamp_last_sr: be_u32(s, i + 12),
        delay_since_last_sr: be_u32(s, i + 16),
    }
}

/// A report block whose packet loss count fits its 24 bit field.
pub open spec fn report_block_fits(b: RtcpReportBlock) -> bool {
    b.cumulative_packets_lost < 0x1000000
}

pub proof fn lemma_report_block_roundtrip(b: RtcpReportBlock, s: Seq<u8>, i: int)
    requires
        report_block_fits(b),
        0 <= i,
        i + 20 <= s.len(),
        s.subrange(i, i + 20) == report_block_bytes(b),
    ensures
        report_block_at(s, i) == b,
{
    let e = report_block_bytes(b);
    assert(s[i] == s.subrange(i, i + 20)[0]);
    assert(s.subrange(i + 1, i + 4) =~= e.subrange(1, 4));
    assert(e.subrange(1, 4) =~= enc_u24(b.cumulative_packets_lost));
    lemma_u24_roundtrip(b.cumulative_packets_lost, s, i + 1);
    assert(s.subrange(i + 4, i + 8) =~= e.subrange(4, 8));
    assert(e.subrange(4, 8) =~= enc_u32(b.highest_sequence_received));
    lemma_u32_roundtrip(b.highest_sequence_received, s, i + 4);
    assert(s.subrange(i + 8, i + 12) =~= e.subrange(8, 12));
    assert(e.subrange(8, 12) =~= enc_u32(b.jitter));
    lemma_u32_roundtrip(b.jitter, s, i + 8);
    assert(s.subrange(i + 12, i + 16) =~= e.subrange(12, 16));
    assert(e.subrange(12, 16) =~= enc_u32(b.timestamp_last_sr));
    lemma_u32_roundtrip(b.timestamp_last_sr, s, i + 12);
    assert(s.subrange(i + 16, i + 20) =~= e.subrange(16, 20));
    assert(e.subrange(16, 20) =~= enc_u32(b.delay_since_last_sr));
    lemma_u32_roundtrip(b.delay_since_last_sr, s, i + 16);
}

impl RtcpReportBlock {
    pub fn new() -> (r: Self)
        ensures
            r == (RtcpReportBlock {
                fraction_lost: 0,
                cumulative_packets_lost: 0,
                highest_sequence_received: 0,
                jitter: 0,
                timestamp_last_sr: 0,
                delay_since_last_sr: 0,
            }),
    {
        RtcpReportBlock {
            fraction_lost: 0,
            cumulative_packets_lost: 0,
            highest_sequence_received: 0,
            jitter: 0,
            timestamp_last_sr: 0,
            delay_since_last_sr: 0,
        }
    }

    pub fn parse(reader: &mut ByteReader) -> (r: Result<RtcpReportBlock, Error>)
        ensures
            final(reader).data() == old(reader).data(),
            old(reader).rest().len() >= 20 ==> r == Ok::<RtcpReportBlock, Error>(
                report_block_at(old(reader).rest(), 0),
            ) && final(reader).rest() == old(reader).rest().skip(20) && final(reader).pos()
                == old(reader).pos() + 20,
            old(reader).rest().len() < 20 ==> r == Err::<RtcpReportBlock, Error>(Error::UnexpectedEof),
    {
        let b = reader.read_slice(20)?;
        let c = (b[1] as u32) * 0x10000 + (b[2] as u32) * 0x100 + b[3] as u32;
        let h = (b[4] as u32) * 0x1000000 + (b[5] as u32) * 0x10000 + (b[6] as u32) * 0x100 + b[7] as u32;
        let j = (b[8] as u32) * 0x1000000 + (b[9] as u32) * 0x10000 + (b[10] as u32) * 0x100 + b[11] as u32;
        let t = (b[12] as u32) * 0x1000000 + (b[13] as u32) * 0x10000 + (b[14] as u32) * 0x100 + b[15] as u32;
        let d = (b[16] as u32) * 0x1000000 + (b[17] as u32) * 0x10000 + (b[18] as u32) * 0x100 + b[19] as u32;
        Ok(RtcpReportBlock {
            fraction_lost: b[0],
            cumulative_packets_lost: c,
            highest_sequence_received: h,
            jitter: j,
            timestamp_last_sr: t,
            delay_since_last_sr: d,
        })
    }

    pub fn byte_size(&self) -> (r: usize)
        ensures
            r == 20,
            r == report_block_bytes(*self).len(),
    {
        self.quad_byte_size() * 4
    }

    pub fn quad_byte_size(&self) -> (r: usize)
        ensures
            r == 5,
    {
        5
    }

    /// Append the twenty bytes of the block.
    pub fn write_to(&self, out: &mut Vec<u8>)
        requires
            report_block_fits(*self),
        ensures
            final(out)@ == old(out)@ + report_block_bytes(*self),
    {
        crate::bytes::push_u8(out, self.fraction_lost);
        crate::bytes::push_u24(out, self.cumulative_packets_lost);
        push_u32(out, self.highest_sequence_received);
        push_u32(out, self.jitter);
        push_u32(out, self.timestamp_last_sr);
        push_u32(out, self.delay_since_last_sr);
        assert(out@ =~= old(out)@ + report_block_bytes(*self));
    }

    pub fn write(&self, buf: &mut [u8], pos: usize) -> (r: Result<usize, Error>)
        requires
            pos <= old(buf)@.len(),
            report_block_fits(*self),
        ensures
            writes(old(buf)@, final(buf)@, pos as int, report_block_bytes(*self), r),
    {
        let c = self.cumulative_packets_lost;
        let h = self.highest_sequence_received;
        let j = self.jitter;
        let t = self.timestamp_last_sr;
        let d = self.delay_since_last_sr;
        let a = [
            self.fraction_lost,
            ((c / 0x10000) % 0x100) as u8, ((c / 0x100) % 0x100) as u8, (c % 0x100) as u8,
            (h / 0x1000000) as u8, ((h / 0x10000) % 0x100) as u8, ((h / 0x100) % 0x100) as u8, (h % 0x100) as u8,
            (j / 0x1000000) as u8, ((j / 0x10000) % 0x100) as u8, ((j / 0x100) % 0x100) as u8, (j % 0x100) as u8,
            (t / 0x1000000) as u8, ((t / 0x10000) % 0x100) as u8, ((t / 0x100) % 0x100) as u8, (t % 0x100) as u8,
            (d / 0x1000000) as u8, ((d / 0x10000) % 0x100) as u8, ((d / 0x100) % 0x100) as u8, (d % 0x100) as u8,
        ];
        assert(a@ =~= report_block_bytes(*self));
        write_bytes(buf, pos, &a)
    }
}

// ---------------------------------------------------------------------------
// Keys in increasing order
// ---------------------------------------------------------------------------

pub open spec fn u32_leq() -> spec_fn(u32, u32) -> bool {
    |a: u32, b: u32| a <= b
}

pub proof fn lemma_u32_leq_total()
    ensures
        total_ordering(u32_leq()),
{
}

/// The elements of a finite set of `u32` values in increasing order.
#[verifier::opaque]
pub open spec fn sorted_keys(s: Set<u32>) -> Seq<u32>
    decreases s.len(),
    when s.finite()
{
    if s.len() == 0 {
        Seq::empty()
    } else {
        proof {
            lemma_u32_leq_total();
            s.find_unique_minimal_ensures(u32_leq());
        }
        let m = s.find_unique_minimal(u32_leq());
        seq![m] + sorted_keys(s.remove(m))
    }
}

pub open spec fn strictly_increasing(s: Seq<u32>) -> bool {
    forall|i: int, j: int| 0 <= i < j < s.len() ==> s[i] < s[j]
}

pub proof fn lemma_sorted_keys(s: Set<u32>)
    requires
        s.finite(),
    ensures
        strictly_increasing(sorted_keys(s)),
        sorted_keys(s).to_set() == s,
        sorted_keys(s).len() == s.len(),
    decreases s.len(),
{
    reveal(sorted_keys);
    if s.len() == 0 {
        assert(sorted_keys(s).to_set() =~= s);
    } else {
        let r = u32_leq();
        assert(total_ordering(r));
        s.find_unique_minimal_ensures(r);
        let m = s.find_unique_minimal(r);
        assert(is_minimal(r, m, s));
        let rest = s.remove(m);
        lemma_sorted_keys(rest);
        let t = sorted_keys(rest);
        let k = sorted_keys(s);
        assert(k == seq![m] + t);
        assert forall|x: u32| rest.contains(x) implies m < x by {
            assert(s.contains(x));
            assert(r(x, m) ==> r(m, x));
        }
        assert forall|i: int, j: int| 0 <= i < j < k.len() implies k[i] < k[j] by {
            if i > 0 {
                assert(k[i] == t[i - 1]);
                assert(k[j] == t[j - 1]);
            } else {
                assert(k[j] == t[j - 1]);
                assert(t.to_set().contains(t[j - 1]));
            }
        }
        assert(k.to_set() =~= s) by {
            assert forall|x: u32| k.to_set().contains(x) <==> s.contains(x) by {
                if x == m {
                    assert(k[0] == m);
                }
                if s.contains(x) && x != m {
                    assert(rest.contains(x));
                    assert(t.to_set().contains(x));
                    let i = choose|i: int| 0 <= i < t.len() && t[i] == x;
                    assert(k[i + 1] == x);
                }
                if k.to_set().contains(x) {
                    let i = choose|i: int| 0 <= i < k.len() && k[i] == x;
                    if i > 0 {
                        assert(t[i - 1] == x);
                        assert(t.to_set().contains(x));
                    }
                }
            }
        }
    }
}

/// Two increasing sequences with the same elements are the same.
pub proof fn lemma_strictly_increasing_unique(a: Seq<u32>, b: Seq<u32>)
    requires
        strictly_increasing(a),
        strictly_increasing(b),
        a.to_set() == b.to_set(),
    ensures
        a == b,
    decreases a.len(),
{
    if a.len() == 0 {
        if b.len() > 0 {
            assert(b.to_set().contains(b[0]));
        }
        assert(a =~= b);
    } else {
        if b.len() == 0 {
            assert(a.to_set().contains(a[0]));
        }
        assert(a.to_set().contains(a[0]));
        assert(b.to_set().contains(b[0]));
        let i = choose|i: int| 0 <= i < b.len() && b[i] == a[0];
        let j = choose|j: int| 0 <= j < a.len() && a[j] == b[0];
        assert(a[0] == b[0]) by {
            if i > 0 { assert(b[0] < b[i]); }
            if j > 0 { assert(a[0] < a[j]); }
        }
        let a1 = a.drop_first();
        let b1 = b.drop_first();
        assert forall|x: u32| a1.to_set().contains(x) <==> b1.to_set().contains(x) by {
            if a1.to_set().contains(x) {
                let k = choose|k: int| 0 <= k < a1.len() && a1[k] == x;
                assert(a[k + 1] == x);
                assert(a.to_set().contains(x));
                let l = choose|l: int| 0 <= l < b.len() && b[l] == x;
                assert(l != 0);
                assert(b1[l - 1] == x);
            }
            if b1.to_set().contains(x) {
                let k = choose|k: int| 0 <= k < b1.len() && b1[k] == x;
                assert(b[k + 1] == x);
                assert(b.to_set().contains(x));
                let l = choose|l: int| 0 <= l < a.len() && a[l] == x;
                assert(l != 0);
                assert(a1[l - 1] == x);
            }
        }
        assert(a1.to_set() =~= b1.to_set());
        lemma_strictly_increasing_unique(a1, b1);
        assert(a =~= seq![a[0]] + a1);
        assert(b =~= seq![b[0]] + b1);
    }
}

} // verus!

verus! {

// ---------------------------------------------------------------------------
// Lists of report blocks
// ---------------------------------------------------------------------------

/// The report blocks of `m` for the keys in `keys`, each after its SSRC.
pub open spec fn report_list_bytes(keys: Seq<u32>, m: Map<u32, RtcpReportBlock>) -> Seq<u8>
    decreases keys.len(),
{
    if keys.len() == 0 {
        Seq::empty()
    } else {
        report_list_bytes(keys.drop_last(), m) + enc_u32(keys.last()) + report_block_bytes(m[keys.last()])
    }
}

/// The report blocks of `m` in increasing SSRC order, each after its SSRC.
#[verifier::opaque]
pub open spec fn reports_bytes(m: Map<u32, RtcpReportBlock>) -> Seq<u8> {
    report_list_bytes(sorted_keys(m.dom()), m)
}

pub open spec fn reports_fit(m: Map<u32, RtcpReportBlock>) -> bool {
    forall|k: u32| m.contains_key(k) ==> report_block_fits(#[trigger] m[k])
}

/// The report blocks in the `n` twenty four byte entries of `s` from
/// `start` on, where a later entry for an SSRC replaces an earlier one.
pub open spec fn parsed_reports(s: Seq<u8>, start: int, n: nat) -> Map<u32, RtcpReportBlock>
    decreases n,
{
    if n == 0 {
        Map::empty()
    } else {
        parsed_reports(s, start, (n - 1) as nat).insert(
            be_u32(s, start + 24 * (n - 1)),
            report_block_at(s, start + 24 * (n - 1) + 4),
        )
    }
}

/// Decoding `n` entries gives at most `n` report blocks.
pub proof fn lemma_parsed_reports_len(s: Seq<u8>, n: nat)
    ensures
        parsed_reports(s, 0, n).dom().finite(),
        parsed_reports(s, 0, n).len() <= n,
    decreases n,
{
    if n > 0 {
        lemma_parsed_reports_len(s, (n - 1) as nat);
    }
}

pub proof fn lemma_report_list_len(keys: Seq<u32>, m: Map<u32, RtcpReportBlock>)
    ensures
        report_list_bytes(keys, m).len() == 24 * keys.len(),
    decreases keys.len(),
{
    if keys.len() > 0 {
        lemma_report_list_len(keys.drop_last(), m);
    }
}

pub proof fn lemma_report_list_entry(keys: Seq<u32>, m: Map<u32, RtcpReportBlock>, j: int)
    requires
        0 <= j < keys.len(),
    ensures
        report_list_bytes(keys, m).subrange(24 * j, 24 * j + 4) == enc_u32(keys[j]),
        report_list_bytes(keys, m).subrange(24 * j + 4, 24 * j + 24) == report_block_bytes(m[keys[j]]),
    decreases keys.len(),
{
    let prev = keys.drop_last();
    let b = report_list_bytes(keys, m);
    let a = report_list_bytes(prev, m);
    lemma_report_list_len(prev, m);
    let n = 24 * prev.len() as int;
    assert(b == a + enc_u32(keys.last()) + report_block_bytes(m[keys.last()]));
    if j < prev.len() {
        lemma_report_list_entry(prev, m, j);
        assert(24 * j + 24 <= n);
        assert(b.subrange(24 * j, 24 * j + 4) =~= a.subrange(24 * j, 24 * j + 4));
        assert(b.subrange(24 * j + 4, 24 * j + 24) =~= a.subrange(24 * j + 4, 24 * j + 24));
    } else {
        assert(24 * j == n);
        assert(b.subrange(n, n + 4) =~= enc_u32(keys.last()));
        assert(b.subrange(n + 4, n + 24) =~= report_block_bytes(m[keys.last()]));
    }
}

#[verifier::rlimit(40)]
pub proof fn lemma_parsed_reports_prefix(keys: Seq<u32>, m: Map<u32, RtcpReportBlock>, t: Seq<u8>, i: nat)
    requires
        i <= keys.len(),
        forall|j: int| 0 <= j < keys.len() ==> m.contains_key(#[trigger] keys[j]),
        forall|j: int| 0 <= j < keys.len() ==> report_block_fits(m[#[trigger] keys[j]]),
    ensures
        parsed_reports(report_list_bytes(keys, m) + t, 0, i) == m.restrict(keys.take(i as int).to_set()),
    decreases i,
{
    let s = report_list_bytes(keys, m) + t;
    if i == 0 {
        assert(m.restrict(keys.take(0).to_set()) =~= Map::empty());
    } else {
        lemma_parsed_reports_prefix(keys, m, t, (i - 1) as nat);
        let j = i - 1;
        lemma_report_list_len(keys, m);
        lemma_report_list_entry(keys, m, j);
        let b = report_list_bytes(keys, m);
        assert(s.subrange(24 * j, 24 * j + 4) =~= b.subrange(24 * j, 24 * j + 4));
        assert(s.subrange(24 * j + 4, 24 * j + 24) =~= b.subrange(24 * j + 4, 24 * j + 24));
        lemma_u32_roundtrip(keys[j], s, 24 * j);
        lemma_report_block_roundtrip(m[keys[j]], s, 24 * j + 4);
        assert(keys.take(i as int).to_set() =~= keys.take(j).to_set().insert(keys[j])) by {
            assert forall|x: u32| keys.take(i as int).to_set().contains(x) <==> keys.take(j).to_set().insert(keys[j]).contains(x) by {
                if keys.take(i as int).to_set().contains(x) {
                    let k = choose|k: int| 0 <= k < i && keys.take(i as int)[k] == x;
                    if k < j {
                        assert(keys.take(j)[k] == x);
                    }
                }
                if keys.take(j).to_set().contains(x) {
                    let k = choose|k: int| 0 <= k < j && keys.take(j)[k] == x;
                    assert(keys.take(i as int)[k] == x);
                }
                if x == keys[j] {
                    assert(keys.take(i as int)[j] == x);
                }
            }
        }
        assert(m.restrict(keys.take(i as int).to_set()) =~= m.restrict(keys.take(j).to_set()).insert(keys[j], m[keys[j]]));
    }
}

/// Report blocks come back from their encoding.
pub proof fn lemma_reports_roundtrip(m: Map<u32, RtcpReportBlock>, t: Seq<u8>)
    requires
        m.dom().finite(),
        reports_fit(m),
    ensures
        parsed_reports(reports_bytes(m) + t, 0, m.len()) == m,
        reports_bytes(m).len() == 24 * m.len(),
{
    reveal(reports_bytes);
    let keys = sorted_keys(m.dom());
    lemma_sorted_keys(m.dom());
    assert forall|j: int| 0 <= j < keys.len() implies m.contains_key(#[trigger] keys[j]) by {
        assert(keys.to_set().contains(keys[j]));
    }
    lemma_parsed_reports_prefix(keys, m, t, keys.len());
    lemma_report_list_len(keys, m);
    assert(keys.take(keys.len() as int) =~= keys);
    assert(m.restrict(keys.to_set()) =~= m);
}

/// Read `count` SSRC and report block entries.
pub fn read_reports(reader: &mut ByteReader, count: usize) -> (r: Result<BTreeMap<u32, RtcpReportBlock>, Error>)
    ensures
        final(reader).data() == old(reader).data(),
        old(reader).rest().len() >= 24 * count ==> r is Ok && r->Ok_0@ == parsed_reports(
            old(reader).rest(),
            0,
            count as nat,
        ) && final(reader).rest() == old(reader).rest().skip(24 * count) && final(reader).pos()
            == old(reader).pos() + 24 * count,
        old(reader).rest().len() < 24 * count ==> r == Err::<BTreeMap<u32, RtcpReportBlock>, Error>(
            Error::UnexpectedEof,
        ),
{
    broadcast use vstd::std_specs::btree::group_btree_axioms;
    let ghost s = reader.rest();
    let ghost p0 = reader.pos();
    let mut reports: BTreeMap<u32, RtcpReportBlock> = BTreeMap::new();
    let mut i: usize = 0;
    while i < count
        invariant
            i <= count,
            reader.data() == old(reader).data(),
            s == old(reader).rest(),
            s.len() >= 24 * i,
            reader.rest() == s.skip(24 * i),
            reader.pos() == p0 + 24 * i,
            p0 == old(reader).pos(),
            reports@ == parsed_reports(s, 0, i as nat),
        decreases count - i,
    {
        let ghost k = 24 * i as int;
        let ssrc = match reader.read_u32_be() {
            Ok(v) => v,
            Err(e) => {
                assert(s.len() < 24 * count);
                return Err(e);
            },
        };
        let block = match RtcpReportBlock::parse(reader) {
            Ok(b) => b,
            Err(e) => {
                assert(s.len() < 24 * count);
                return Err(e);
            },
        };
        assert(s.skip(k).skip(4) =~= s.skip(k + 4));
        assert(s.skip(k + 4).skip(20) =~= s.skip(k + 24));
        assert(ssrc == be_u32(s, k));
        assert(block == report_block_at(s, k + 4)) by {
            assert(report_block_at(s.skip(k + 4), 0) == report_block_at(s, k + 4));
        }
        reports.insert(ssrc, block);
        i = i + 1;
    }
    Ok(reports)
}

/// The SSRCs of `reports` in increasing order.
pub fn sorted_report_keys(reports: &BTreeMap<u32, RtcpReportBlock>) -> (r: Vec<u32>)
    ensures
        r@ == sorted_keys(reports@.dom()),
{
    broadcast use vstd::std_specs::btree::group_btree_axioms;
    let ghost m = reports@;
    let ghost entries = vstd::std_specs::btree::spec_btree_map_iter(reports).remaining();
    let mut out: Vec<u32> = Vec::new();
    let entry_iter = reports.iter();
    proof {
        lemma_keys_ordered();
    }
    for kv in it: entry_iter
        invariant
            m == reports@,
            it.seq() == entries,
            entries == vstd::std_specs::btree::spec_btree_map_iter(reports).remaining(),
            out@ == entries.take(it.index() as int).map_values(|kv: (&u32, &RtcpReportBlock)| *kv.0),
    {
        let (k, v) = kv;
        let ghost i = it.index() as int;
        assert(kv == entries[i]);
        out.push(*k);
        assert(out@ =~= entries.take(i + 1).map_values(|kv: (&u32, &RtcpReportBlock)| *kv.0));
    }
    proof {
        let keys = entries.map_values(|kv: (&u32, &RtcpReportBlock)| *kv.0);
        assert(entries.take(entries.len() as int) =~= entries);
        assert(out@ == keys);
        assert(vstd::std_specs::btree::increasing_seq(keys));
        lemma_increasing_u32(keys);
        lemma_sorted_keys(m.dom());
        vstd::std_specs::btree::axiom_spec_btree_map_iter(reports);
        assert(keys.to_set() =~= m.dom()) by {
            assert forall|x: u32| keys.to_set().contains(x) <==> m.dom().contains(x) by {
                if keys.to_set().contains(x) {
                    let j = choose|j: int| 0 <= j < keys.len() && keys[j] == x;
                    assert(reports@.contains_key(*entries[j].0));
                }
                if m.dom().contains(x) {
                    assert(entries.contains((&x, &reports@[x])));
                    let j = choose|j: int| 0 <= j < entries.len() && entries[j] == (&x, &reports@[x]);
                    assert(keys[j] == x);
                }
            }
        }
        lemma_strictly_increasing_unique(keys, sorted_keys(m.dom()));
    }
    out
}

/// Append the SSRC and report block entries of `reports` in increasing SSRC
/// order.
pub fn push_reports(out: &mut Vec<u8>, reports: &BTreeMap<u32, RtcpReportBlock>)
    requires
        reports_fit(reports@),
    ensures
        final(out)@ == old(out)@ + reports_bytes(reports@),
{
    reveal(reports_bytes);
    broadcast use vstd::std_specs::btree::group_btree_axioms;
    let ghost m = reports@;
    let ghost start = out@;
    let ghost entries = vstd::std_specs::btree::spec_btree_map_iter(reports).remaining();
    let ghost mut done: int = 0;
    let entry_iter = reports.iter();
    proof {
        lemma_keys_ordered();
        assert(vstd::std_specs::btree::increasing_seq(entries.map_values(|kv: (&u32, &RtcpReportBlock)| *kv.0)));
        lemma_increasing_u32(entries.map_values(|kv: (&u32, &RtcpReportBlock)| *kv.0));
    }
    for kv in it: entry_iter
        invariant
            m == reports@,
            reports_fit(m),
            it.seq() == entries,
            entries == vstd::std_specs::btree::spec_btree_map_iter(reports).remaining(),
            done == it.index(),
            out@ == start + report_list_bytes(
                entries.take(done).map_values(|kv: (&u32, &RtcpReportBlock)| *kv.0),
                m,
            ),
    {
        let (k, v) = kv;
        let ghost i = it.index() as int;
        let ghost keys_prev = it.seq().take(i).map_values(|kv: (&u32, &RtcpReportBlock)| *kv.0);
        let ghost keys_next = it.seq().take(i + 1).map_values(|kv: (&u32, &RtcpReportBlock)| *kv.0);
        assert(kv == entries[i]);
        proof { vstd::std_specs::btree::axiom_spec_btree_map_iter(reports); }
        assert(0 <= i < entries.len());
        assert(reports@.contains_key(*entries[i].0) && reports@[*entries[i].0] == *entries[i].1);
        assert(m.contains_key(*k) && m[*k] == *v);
        assert(keys_next.drop_last() =~= keys_prev);
        assert(keys_next.last() == *k);
        push_u32(out, *k);
        v.write_to(out);
        assert(out@ =~= start + report_list_bytes(keys_next, m));
        proof { done = done + 1; }
    }
    proof {
        let keys = entries.map_values(|kv: (&u32, &RtcpReportBlock)| *kv.0);
        assert(done == entries.len());
        assert(entries.take(done) =~= entries);
        lemma_sorted_keys(m.dom());

        vstd::std_specs::btree::axiom_spec_btree_map_iter(reports);
        assert(keys.to_set() =~= m.dom()) by {
            assert forall|x: u32| keys.to_set().contains(x) <==> m.dom().contains(x) by {
                if keys.to_set().contains(x) {
                    let j = choose|j: int| 0 <= j < keys.len() && keys[j] == x;
                    assert(reports@.contains_key(*entries[j].0));
                }
                if m.dom().contains(x) {
                    assert(entries.contains((&x, &reports@[x])));
                    let j = choose|j: int| 0 <= j < entries.len() && entries[j] == (&x, &reports@[x]);
                    assert(keys[j] == x);
                }
            }
        }
        lemma_strictly_increasing_unique(keys, sorted_keys(m.dom()));
    }
}

} // verus!
