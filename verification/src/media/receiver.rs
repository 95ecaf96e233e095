//! What a media receiver sends back to the remote sender: bandwidth limits
//! (REMB) and resend requests.
use vstd::prelude::*;
use vstd::arithmetic::power2::{pow2, lemma_pow2_unfold};
use crate::bytes::{be_u16, enc_u8, enc_u16, enc_u32, push_u8, push_u16, push_u32};
use crate::utils::rtp::{ParsedRtpPacket, rtp_payload_offset, rtp_payload_length};
use crate::utils::SequenceNumber;
use crate::utils::rtcp::RtcpPacket;
use crate::utils::rtcp::packets::{RtcpPacketPayloadFeedback, RtcpPayloadFeedback, RtcpPacketTransportFeedback,
    RtcpTransportFeedback};
use crate::utils::rtcp::packets::payload_feedback::PayloadFeedbackView;
use crate::utils::rtcp::packets::transport_feedback::{TransportFeedbackView, nacks_from};
use crate::utils::resend_requester::{ids, RtpPacketResendRequester, ResendRequesterView, handle_packet_spec, reset_spec,
    initial_requester};
use crate::media::receiver_stats::{ReceiverStats, ReceiverStatsView, register_spec, initial_stats, bandwidth_reset};

verus! {

/// The largest mantissa of a REMB bitrate (18 bits).
pub const REMB_MAX_MANTISSA: u32 = 0x3FFFF;
/// 'R' 'E' 'M' 'B'.
pub const REMB_IDENTIFIER: u32 = 0x52454D42;
/// The bitrate announced when a limit is lifted.
pub const DEFAULT_BANDWIDTH_LIMIT: u32 = 50_000_000;

/// The mantissa and exponent of the bitrate `m * 2^e`: halved until the
/// mantissa fits in 18 bits.
pub open spec fn remb_split(m: nat, e: nat) -> (nat, nat)
    decreases m,
{
    if m <= REMB_MAX_MANTISSA {
        (m, e)
    } else {
        remb_split(m / 2, e + 1)
    }
}

/// The application specific payload of a REMB message (draft-alvestrand-
/// rmcat-remb) for one stream: identifier, stream count, exponent and
/// mantissa of the bitrate, and the stream's SSRC.
pub open spec fn remb_bytes(bitrate: u32, ssrc: u32) -> Seq<u8> {
    let (m, e) = remb_split(bitrate as nat, 0);
    enc_u32(REMB_IDENTIFIER) + enc_u8(1) + enc_u8((e * 4 + m / 0x10000) as u8) + enc_u16((m % 0x10000) as u16)
        + enc_u32(ssrc)
}

/// Halving until the mantissa fits keeps the bitrate's leading bits: the
/// mantissa times two to the exponent is the bitrate with its low bits
/// cleared.
pub proof fn lemma_remb_split(m: nat, e: nat)
    ensures
        remb_split(m, e).0 <= REMB_MAX_MANTISSA,
        remb_split(m, e).1 >= e,
        remb_split(m, e).0 * pow2((remb_split(m, e).1 - e) as nat) <= m,
        m < (remb_split(m, e).0 + 1) * pow2((remb_split(m, e).1 - e) as nat),
    decreases m,
{
    if m <= REMB_MAX_MANTISSA {
        assert(pow2(0) == 1) by { vstd::arithmetic::power2::lemma2_to64(); }
        assert(remb_split(m, e) == (m, e));
        assert((e - e) as nat == 0);
    } else {
        lemma_remb_split(m / 2, e + 1);
        let (mm, ee) = remb_split(m / 2, e + 1);
        assert(remb_split(m, e) == (mm, ee));
        let k = (ee - e - 1) as nat;
        assert((ee - e) as nat == k + 1);
        lemma_pow2_unfold(k + 1);
        let p = pow2(k);
        assert(mm * p <= m / 2);
        assert(m / 2 < (mm + 1) * p);
        assert(mm * (2 * p) <= m) by (nonlinear_arith)
            requires
                mm * p <= m / 2,
        ;
        assert(m < (mm + 1) * (2 * p)) by (nonlinear_arith)
            requires
                m / 2 < (mm + 1) * p,
        ;
    }
}

/// The exponent of a 32 bit bitrate is at most fourteen.
proof fn lemma_remb_exponent(m: nat, e: nat)
    requires
        m * pow2(e) <= u32::MAX,
        e <= 14,
    ensures
        remb_split(m, e).1 <= 14,
    decreases m,
{
    if m > REMB_MAX_MANTISSA {
        vstd::arithmetic::power2::lemma2_to64();
        if e == 14 {
            assert(m * pow2(e) >= 0x40000 * 0x4000) by (nonlinear_arith)
                requires
                    m >= 0x40000,
                    pow2(e) == 0x4000,
            ;
        }
        lemma_pow2_unfold(e + 1);
        assert((m / 2) * pow2(e + 1) <= m * pow2(e)) by (nonlinear_arith)
            requires
                pow2(e + 1) == 2 * pow2(e),
        ;
        lemma_remb_exponent(m / 2, e + 1);
        assert(remb_split(m, e) == remb_split(m / 2, e + 1));
    }
}

/// The REMB payload that announces `bitrate` for the stream `ssrc`.
pub fn remb_payload(bitrate: u32, ssrc: u32) -> (r: Vec<u8>)
    ensures
        r@ == remb_bytes(bitrate, ssrc),
{
    let mut mantissa: u32 = bitrate;
    let mut exponent: u8 = 0;
    proof {
        vstd::arithmetic::power2::lemma2_to64();
        lemma_remb_exponent(bitrate as nat, 0);
    }
    while mantissa > REMB_MAX_MANTISSA
        invariant
            remb_split(mantissa as nat, exponent as nat) == remb_split(bitrate as nat, 0),
            remb_split(bitrate as nat, 0).1 <= 14,
            exponent <= remb_split(bitrate as nat, 0).1,
        decreases mantissa,
    {
        assert(mantissa >> 1u32 == mantissa / 2) by (bit_vector);
        proof { lemma_remb_split(mantissa as nat / 2, exponent as nat + 1); }
        mantissa = mantissa >> 1;
        exponent = exponent + 1;
    }
    let mut out: Vec<u8> = Vec::new();
    push_u32(&mut out, REMB_IDENTIFIER);
    push_u8(&mut out, 1);
    assert(mantissa >> 16u32 == mantissa / 0x10000) by (bit_vector);
    assert((exponent << 2u8) == exponent * 4) by (bit_vector)
        requires
            exponent <= 14,
    ;
    let high = (mantissa >> 16) as u8;
    assert(exponent * 4 + high < 256);
    assert((exponent << 2u8) | high == (exponent << 2u8) + high) by (bit_vector)
        requires
            high < 4,
            exponent <= 14,
    ;
    push_u8(&mut out, (exponent << 2) | high);
    assert(mantissa & 0xFFFF == mantissa % 0x10000) by (bit_vector);
    push_u16(&mut out, (mantissa & 0xFFFF) as u16);
    push_u32(&mut out, ssrc);
    proof { assert(out@ =~= remb_bytes(bitrate, ssrc)); }
    out
}

/// The payload feedback packet that announces `bitrate` for the stream
/// `ssrc` (its sender SSRC is zero, as REMB asks).
pub fn remb_packet(bitrate: u32, ssrc: u32) -> (r: RtcpPacketPayloadFeedback)
    ensures
        r.ssrc == 0,
        r.media_ssrc == ssrc,
        r.feedback@ == PayloadFeedbackView::ApplicationSpecific(remb_bytes(bitrate, ssrc)),
{
    RtcpPacketPayloadFeedback {
        media_ssrc: ssrc,
        ssrc: 0,
        feedback: RtcpPayloadFeedback::ApplicationSpecific(remb_payload(bitrate, ssrc)),
    }
}

/// The bitrate to announce when the bandwidth limit changes from
/// `current` to `limit`: none if it does not change; the default when the
/// limit is lifted.
pub open spec fn limit_change_bitrate(current: Option<u32>, limit: Option<u32>) -> Option<u32> {
    if current == limit {
        None
    } else {
        Some(match limit {
            Some(l) => l,
            None => DEFAULT_BANDWIDTH_LIMIT,
        })
    }
}

pub fn remb_for_limit_change(current: Option<u32>, limit: Option<u32>) -> (r: Option<u32>)
    ensures
        r == limit_change_bitrate(current, limit),
{
    if current == limit {
        return None;
    }
    let enforce_send = current.is_some();
    if enforce_send || limit.is_some() {
        Some(match limit {
            Some(l) => l,
            None => DEFAULT_BANDWIDTH_LIMIT,
        })
    } else {
        None
    }
}

/// The request to resend `packets` of the stream `media_ssrc`.
pub fn resend_request(media_ssrc: u32, packets: &[SequenceNumber<u16>]) -> (r: RtcpPacketTransportFeedback)
    ensures
        r.ssrc == 1,
        r.media_ssrc == media_ssrc,
        r.feedback@ == TransportFeedbackView::GenericNACK(nacks_from(ids(packets@), 0)),
{
    RtcpPacketTransportFeedback {
        ssrc: 1,
        media_ssrc,
        feedback: RtcpTransportFeedback::create_generic_nack(packets),
    }
}


/// What a media receiver tells its user about the stream.
pub enum MediaReceiverEvent {
    /// A packet arrived; it is handed on.
    DataReceived(ParsedRtpPacket),
    /// Some sequences have been lost.
    /// We'll not re-request these any more.
    DataLost(Vec<u16>),
    /// The first packet after the start or a goodbye arrived.
    ReceiverActivated,
    /// The remote sender said goodbye, with its reason if it gave one.
    ByeSignalReceived(Option<String>),
}

pub enum MediaReceiverEventView {
    DataReceived(Seq<u8>),
    DataLost(Seq<u16>),
    ReceiverActivated,
    ByeSignalReceived(Option<Seq<char>>),
}

impl View for MediaReceiverEvent {
    type V = MediaReceiverEventView;

    open spec fn view(&self) -> MediaReceiverEventView {
        match self {
            MediaReceiverEvent::DataReceived(p) => MediaReceiverEventView::DataReceived(p@),
            MediaReceiverEvent::DataLost(v) => MediaReceiverEventView::DataLost(v@),
            MediaReceiverEvent::ReceiverActivated => MediaReceiverEventView::ReceiverActivated,
            MediaReceiverEvent::ByeSignalReceived(r) => MediaReceiverEventView::ByeSignalReceived(match r {
                Some(t) => Some(t@),
                None => None,
            }),
        }
    }
}

pub open spec fn event_views(v: Seq<MediaReceiverEvent>) -> Seq<MediaReceiverEventView> {
    v.map_values(|e: MediaReceiverEvent| e@)
}

/// The event for packets that timed out and are not requested again: their
/// sequence numbers.
pub fn lost_packets_event(packets: &[SequenceNumber<u16>]) -> (r: MediaReceiverEvent)
    ensures
        r@ == MediaReceiverEventView::DataLost(ids(packets@)),
{
    let mut lost: Vec<u16> = Vec::new();
    let mut i: usize = 0;
    while i < packets.len()
        invariant
            i <= packets@.len(),
            lost@ == ids(packets@.take(i as int)),
        decreases packets@.len() - i,
    {
        lost.push(packets[i].packet_id);
        assert(ids(packets@.take(i + 1)) =~= ids(packets@.take(i as int)).push(packets@[i as int].packet_id));
        i = i + 1;
    }
    assert(packets@.take(i as int) =~= packets@);
    MediaReceiverEvent::DataLost(lost)
}

pub struct MediaReceiverView {
    pub ssrc: u32,
    pub activated: bool,
    pub bandwidth_limit: Option<u32>,
    pub statistics: ReceiverStatsView,
    pub resend_requester: ResendRequesterView,
}

/// The state of a media receiver: whether its stream is active, the
/// bandwidth limit it announces, its statistics and its resend requests.
pub struct MediaReceiver {
    id: u32,
    activated: bool,
    bandwidth_limit: Option<u32>,
    statistics: ReceiverStats,
    resend_requester: RtpPacketResendRequester,
}

impl View for MediaReceiver {
    type V = MediaReceiverView;

    closed spec fn view(&self) -> MediaReceiverView {
        MediaReceiverView {
            ssrc: self.id,
            activated: self.activated,
            bandwidth_limit: self.bandwidth_limit,
            statistics: self.statistics@,
            resend_requester: self.resend_requester@,
        }
    }
}

/// The bandwidth limit announcement `bitrate` for `ssrc` asks for, if any.
pub open spec fn remb_view(bitrate: Option<u32>, ssrc: u32) -> Option<(u32, Seq<u8>)> {
    match bitrate {
        Some(b) => Some((ssrc, remb_bytes(b, ssrc))),
        None => None,
    }
}

pub open spec fn remb_packet_view(p: Option<RtcpPacketPayloadFeedback>) -> Option<(u32, Seq<u8>)> {
    match p {
        Some(f) => match f.feedback@ {
            PayloadFeedbackView::ApplicationSpecific(b) => if f.ssrc == 0 { Some((f.media_ssrc, b)) } else { None },
            _ => None,
        },
        None => None,
    }
}

impl MediaReceiver {
    pub closed spec fn wf(&self) -> bool {
        self.statistics.wf() && self.resend_requester.wf()
    }

    pub fn new(ssrc: u32) -> (r: Self)
        ensures
            r.wf(),
            r@.ssrc == ssrc,
            !r@.activated,
            r@.bandwidth_limit is None,
            r@.statistics == initial_stats(),
            r@.resend_requester == initial_requester(64),
    {
        MediaReceiver {
            id: ssrc,
            activated: false,
            bandwidth_limit: None,
            statistics: ReceiverStats::new(),
            resend_requester: RtpPacketResendRequester::new(None),
        }
    }

    /// The media source id for the receiver
    pub fn ssrc(&self) -> (r: u32)
        ensures
            r == self@.ssrc,
    {
        self.id
    }

    pub fn statistics(&self) -> (r: &ReceiverStats)
        ensures
            r@ == self@.statistics,
    {
        &self.statistics
    }

    /// Returns the bandwidth limit signalled via REMB RTCP packets.
    pub fn bandwidth_limit(&self) -> (r: Option<u32>)
        ensures
            r == self@.bandwidth_limit,
    {
        self.bandwidth_limit
    }

    /// Sets the bandwidth limit signalled via REMB RTCP packets; gives back
    /// the announcement to send, if the limit changed. Once an announcement
    /// goes out, the bandwidth histories start afresh.
    pub fn set_bandwidth_limit(&mut self, limit: Option<u32>) -> (r: Option<RtcpPacketPayloadFeedback>)
        requires
            old(self).wf(),
        ensures
            final(self).wf(),
            final(self)@ == (MediaReceiverView {
                bandwidth_limit: limit,
                statistics: if limit_change_bitrate(old(self)@.bandwidth_limit, limit) is Some {
                    bandwidth_reset(old(self)@.statistics)
                } else {
                    old(self)@.statistics
                },
                ..old(self)@
            }),
            remb_packet_view(r) == remb_view(limit_change_bitrate(old(self)@.bandwidth_limit, limit), old(self)@.ssrc),
    {
        let bitrate = remb_for_limit_change(self.bandwidth_limit, limit);
        self.bandwidth_limit = limit;
        match bitrate {
            Some(b) => {
                let remb = remb_packet(b, self.id);
                self.statistics.reset_bandwith();
                Some(remb)
            },
            None => None,
        }
    }

    /// Announces the bandwidth limit again, if there is one (as when the
    /// sender exceeds it); the bandwidth histories then start afresh.
    pub fn announce_bandwidth_limit(&mut self) -> (r: Option<RtcpPacketPayloadFeedback>)
        requires
            old(self).wf(),
        ensures
            final(self).wf(),
            final(self)@ == (MediaReceiverView {
                statistics: if old(self)@.bandwidth_limit is Some {
                    bandwidth_reset(old(self)@.statistics)
                } else {
                    old(self)@.statistics
                },
                ..old(self)@
            }),
            remb_packet_view(r) == remb_view(old(self)@.bandwidth_limit, old(self)@.ssrc),
    {
        match self.bandwidth_limit {
            Some(limit) => {
                let remb = remb_packet(limit, self.id);
                self.statistics.reset_bandwith();
                Some(remb)
            },
            None => None,
        }
    }

    /// Takes a packet of the stream that arrived at `now_ms` milliseconds
    /// and in second `now_s`: it counts in the statistics, by its sequence
    /// number, header and payload sizes, and in the resend requests; the
    /// first packet of an inactive stream activates it, and announces the
    /// bandwidth limit where there is one, after which the bandwidth
    /// histories start afresh. The packet is handed on.
    pub fn handle_rtp_packet(
        &mut self,
        packet: ParsedRtpPacket,
        now_ms: u32,
        now_s: u64,
    ) -> (r: (Vec<MediaReceiverEvent>, Option<RtcpPacketPayloadFeedback>))
        requires
            old(self).wf(),
            packet.wf(),
        ensures
            final(self).wf(),
            ({
                let registered = register_spec(
                    old(self)@.statistics,
                    be_u16(packet@, 2),
                    rtp_payload_offset(packet@) as usize,
                    rtp_payload_length(packet@) as usize,
                    now_s,
                );
                final(self)@ == (MediaReceiverView {
                    activated: true,
                    statistics: if !old(self)@.activated && old(self)@.bandwidth_limit is Some {
                        bandwidth_reset(registered)
                    } else {
                        registered
                    },
                    resend_requester: handle_packet_spec(old(self)@.resend_requester, be_u16(packet@, 2), now_ms).0,
                    ..old(self)@
                })
            }),
            event_views(r.0@) == (if old(self)@.activated {
                seq![MediaReceiverEventView::DataReceived(packet@)]
            } else {
                seq![MediaReceiverEventView::ReceiverActivated, MediaReceiverEventView::DataReceived(packet@)]
            }),
            remb_packet_view(r.1) == (if old(self)@.activated { None } else { remb_view(old(self)@.bandwidth_limit, old(self)@.ssrc) }),
    {
        let packet_id = packet.sequence_number();
        let header_length = packet.payload_offset();
        let payload_length = packet.payload().len();
        self.statistics.register_incoming_rtp(packet_id, header_length, payload_length, now_s);
        let _ = self.resend_requester.handle_packet_received(SequenceNumber::new(packet_id), now_ms);
        let ghost bytes = packet@;
        let mut events: Vec<MediaReceiverEvent> = Vec::new();
        let mut remb: Option<RtcpPacketPayloadFeedback> = None;
        if !self.activated {
            self.activated = true;
            remb = match self.bandwidth_limit {
                Some(limit) => {
                    let p = remb_packet(limit, self.id);
                    self.statistics.reset_bandwith();
                    Some(p)
                },
                None => None,
            };
            events.push(MediaReceiverEvent::ReceiverActivated);
        }
        events.push(MediaReceiverEvent::DataReceived(packet));
        proof {
            if old(self)@.activated {
                assert(event_views(events@) =~= seq![MediaReceiverEventView::DataReceived(bytes)]);
            } else {
                assert(event_views(events@) =~= seq![
                    MediaReceiverEventView::ReceiverActivated,
                    MediaReceiverEventView::DataReceived(bytes),
                ]);
            }
        }
        (events, remb)
    }

    /// Takes the remote sender's goodbye: the stream is inactive until its
    /// next packet.
    pub fn handle_bye(&mut self, reason: Option<String>) -> (r: MediaReceiverEvent)
        requires
            old(self).wf(),
        ensures
            final(self).wf(),
            final(self)@ == (MediaReceiverView { activated: false, ..old(self)@ }),
            r@ == MediaReceiverEventView::ByeSignalReceived(match reason {
                Some(t) => Some(t@),
                None => None,
            }),
    {
        self.activated = false;
        self.statistics.reset();
        MediaReceiverEvent::ByeSignalReceived(reason)
    }

    /// Takes the end of the stream: the resend requests start afresh.
    pub fn handle_end(&mut self)
        requires
            old(self).wf(),
        ensures
            final(self).wf(),
            final(self)@ == (MediaReceiverView { resend_requester: reset_spec(old(self)@.resend_requester), ..old(self)@ }),
    {
        self.resend_requester.reset();
    }
}

} // verus!
