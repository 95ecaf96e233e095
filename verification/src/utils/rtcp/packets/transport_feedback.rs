//! Transport layer feedback (RFC 4585 section 6.2): generic NACKs.
use vstd::prelude::*;
use crate::bytes::{ByteReader, be_u16, be_u32, enc_u16, enc_u32, writes, parse_outcome, write_bytes, push_u8,
    push_u16, push_u32, lemma_u16_roundtrip, lemma_u32_roundtrip};
use crate::error::Error;
use crate::utils::packet_id::{SequenceNumber, spec_difference};
use crate::utils::resend_requester::{ids, wrap16};
use crate::utils::rtcp::{header_error, read_header};

verus! {

/// One generic NACK: a lost packet and a bitmask of further lost packets.
#[derive(Debug, Clone, Copy, PartialEq, Eq, Structural)]
pub struct RtcpFeedbackGenericNACK {
    pub packet_id: u16,
    pub bitmask_lost_packets: u16,
}

/// Whether bit `k` of `mask` is set.
pub open spec fn bit_set(mask: u16, k: u16) -> bool {
    mask & (1u16 << k) != 0
}

/// The packets that the bits from `k` on announce: bit `k` stands for
/// packet `id + k + 1` (RFC 4585 section 6.2.1).
pub open spec fn nack_bits(id: u16, mask: u16, k: int) -> Seq<u16>
    decreases 16 - k,
{
    if k < 0 || k >= 16 {
        Seq::empty()
    } else {
        (if bit_set(mask, k as u16) {
            seq![wrap16(id + k + 1)]
        } else {
            Seq::empty()
        }) + nack_bits(id, mask, k + 1)
    }
}

/// The packets that an iterator at `index` still gives out.
pub open spec fn nack_remaining(id: u16, mask: u16, index: int) -> Seq<u16> {
    if index == 0 {
        seq![id] + nack_bits(id, mask, 0)
    } else if 1 <= index <= 16 {
        nack_bits(id, mask, index - 1)
    } else {
        Seq::empty()
    }
}

/// Hands out the packets that a generic NACK marks as lost.
pub struct NackPacketIterator {
    packet_id: u16,
    bitmask: u16,
    index: u8,
}

impl View for NackPacketIterator {
    type V = Seq<u16>;

    closed spec fn view(&self) -> Seq<u16> {
        nack_remaining(self.packet_id, self.bitmask, self.index as int)
    }
}

impl NackPacketIterator {
    /// The next lost packet, if any is left.
    pub fn next(&mut self) -> (r: Option<u16>)
        ensures
            old(self)@.len() == 0 ==> r is None && final(self)@ == old(self)@,
            old(self)@.len() > 0 ==> r == Some(old(self)@[0]) && final(self)@ == old(self)@.drop_first(),
    {
        while self.index < 17
            invariant
                self@ == old(self)@,
                self.packet_id == old(self).packet_id,
                self.bitmask == old(self).bitmask,
            decreases 17 - self.index,
        {
            if self.index == 0 {
                self.index = 1;
                assert(old(self)@ =~= seq![self.packet_id] + self@);
                return Some(self.packet_id);
            } else {
                let k = self.index - 1;
                let set = (self.bitmask & (1 << k)) > 0;
                self.index += 1;
                if set {
                    let r = self.packet_id.wrapping_add((k + 1) as u16);
                    assert(wrap16(self.packet_id + k + 1) == r);
                    assert(old(self)@ == nack_bits(self.packet_id, self.bitmask, k as int));
                    assert(self@ == nack_bits(self.packet_id, self.bitmask, k + 1));
                    assert(old(self)@ =~= seq![r] + self@);
                    return Some(r);
                }
                assert(old(self)@ =~= self@);
            }
        }
        None
    }
}

impl RtcpFeedbackGenericNACK {
    pub fn parse(reader: &mut ByteReader) -> (r: Result<RtcpFeedbackGenericNACK, Error>)
        ensures
            final(reader).data() == old(reader).data(),
            old(reader).rest().len() >= 4 ==> r == Ok::<RtcpFeedbackGenericNACK, Error>(
                RtcpFeedbackGenericNACK {
                    packet_id: be_u16(old(reader).rest(), 0),
                    bitmask_lost_packets: be_u16(old(reader).rest(), 2),
                },
            ) && final(reader).rest() == old(reader).rest().skip(4),
            old(reader).rest().len() < 4 ==> r == Err::<RtcpFeedbackGenericNACK, Error>(Error::UnexpectedEof),
    {
        let ghost s = reader.rest();
        let pid = reader.read_u16_be()?;
        let bitmask_lost_packets = reader.read_u16_be()?;
        assert(s.skip(2).skip(2) =~= s.skip(4));
        assert(s.skip(2)[0] == s[2] && s.skip(2)[1] == s[3]);
        Ok(RtcpFeedbackGenericNACK { packet_id: pid, bitmask_lost_packets })
    }

    pub fn byte_size() -> (r: usize)
        ensures
            r == 4,
    {
        4
    }

    pub fn write(&self, buf: &mut [u8], pos: usize) -> (r: Result<usize, Error>)
        requires
            pos <= old(buf)@.len(),
        ensures
            writes(old(buf)@, final(buf)@, pos as int, nack_bytes(*self), r),
    {
        let mut out: Vec<u8> = Vec::new();
        push_u16(&mut out, self.packet_id);
        push_u16(&mut out, self.bitmask_lost_packets);
        write_bytes(buf, pos, out.as_slice())
    }

    /// The packets that this NACK marks as lost.
    pub fn lost_packets(&self) -> (r: NackPacketIterator)
        ensures
            r@ == nack_lost(*self),
    {
        NackPacketIterator { index: 0, packet_id: self.packet_id, bitmask: self.bitmask_lost_packets }
    }
}

/// The packets a NACK marks as lost: its packet, then those its bits name.
pub open spec fn nack_lost(n: RtcpFeedbackGenericNACK) -> Seq<u16> {
    seq![n.packet_id] + nack_bits(n.packet_id, n.bitmask_lost_packets, 0)
}

/// The packets a list of NACKs marks as lost, in order.
pub open spec fn nacks_lost(nacks: Seq<RtcpFeedbackGenericNACK>) -> Seq<u16>
    decreases nacks.len(),
{
    if nacks.len() == 0 {
        Seq::empty()
    } else {
        nacks_lost(nacks.drop_last()) + nack_lost(nacks.last())
    }
}

/// The four bytes of a NACK.
pub open spec fn nack_bytes(n: RtcpFeedbackGenericNACK) -> Seq<u8> {
    enc_u16(n.packet_id) + enc_u16(n.bitmask_lost_packets)
}

#[derive(Debug, Clone)]
pub enum RtcpTransportFeedback {
    GenericNACK(Vec<RtcpFeedbackGenericNACK>),
}

pub enum TransportFeedbackView {
    GenericNACK(Seq<RtcpFeedbackGenericNACK>),
}

impl View for RtcpTransportFeedback {
    type V = TransportFeedbackView;

    open spec fn view(&self) -> TransportFeedbackView {
        match self {
            RtcpTransportFeedback::GenericNACK(v) => TransportFeedbackView::GenericNACK(v@),
        }
    }
}

/// How far `id` lies from `head`, wrapping within 256 of the ends.
pub open spec fn nack_distance(id: u16, head: u16) -> int {
    spec_difference(id as nat, head as nat, Some(256), 0xFFFF)
}

/// Whether a NACK with head `head` can carry `id` in its bits: `id` lies
/// one to sixteen packets from the head.
pub open spec fn in_nack_reach(id: u16, head: u16) -> bool {
    1 <= nack_distance(id, head) <= 16
}

/// The end of the group of packets that starts before `i` with `head`:
/// it runs on while the packets lie within the reach of the head.
pub open spec fn group_end(p: Seq<u16>, head: u16, i: int) -> int
    decreases p.len() - i,
{
    if i < 0 || i >= p.len() || !in_nack_reach(p[i], head) {
        i
    } else {
        group_end(p, head, i + 1)
    }
}

/// The bits for the packets `p[start..end]` relative to `head`: a packet at
/// distance `d` sets bit `d - 1`.
pub open spec fn group_mask(p: Seq<u16>, head: u16, start: int, end: int) -> u16
    decreases end - start,
{
    if end <= start {
        0
    } else {
        group_mask(p, head, start, end - 1) | (1u16 << ((nack_distance(p[end - 1], head) - 1) as u16))
    }
}

/// The NACKs for the packets from `start` on: each takes the next packet as
/// its head, and the packets that follow it within its reach as bits.
pub open spec fn nacks_from(p: Seq<u16>, start: int) -> Seq<RtcpFeedbackGenericNACK>
    decreases p.len() - start,
{
    if start < 0 || start >= p.len() {
        Seq::empty()
    } else {
        let end = group_end(p, p[start], start + 1);
        if end <= start || end > p.len() {
            Seq::empty()
        } else {
            seq![RtcpFeedbackGenericNACK { packet_id: p[start], bitmask_lost_packets: group_mask(p, p[start], start + 1, end) }]
                + nacks_from(p, end)
        }
    }
}

pub proof fn lemma_group_end_bounds(p: Seq<u16>, head: u16, i: int)
    requires
        0 <= i <= p.len(),
    ensures
        i <= group_end(p, head, i) <= p.len(),
        group_end(p, head, i) < p.len() ==> !in_nack_reach(p[group_end(p, head, i)], head),
    decreases p.len() - i,
{
    if i < p.len() && in_nack_reach(p[i], head) {
        lemma_group_end_bounds(p, head, i + 1);
    }
}

pub proof fn lemma_group_end_reach(p: Seq<u16>, head: u16, i: int, j: int)
    requires
        0 <= i <= j < group_end(p, head, i),
        group_end(p, head, i) <= p.len(),
    ensures
        in_nack_reach(p[j], head),
    decreases j - i,
{
    if i < j {
        lemma_group_end_reach(p, head, i + 1, j);
    }
}

/// How many packets `b` lies ahead of `a`, going round past 65535.
pub open spec fn forward(a: u16, b: u16) -> int {
    if a <= b {
        b - a
    } else {
        b - a + 0x10000
    }
}

/// The packets climb from the first one: each lies further ahead of the
/// first than the one before it, and none comes round to within sixteen
/// packets behind the first.
pub open spec fn climbing(p: Seq<u16>) -> bool {
    &&& forall|i: int, j: int| 0 <= i < j < p.len() ==> forward(p[0], #[trigger] p[i]) < forward(p[0], #[trigger] p[j])
    &&& forall|j: int| 0 <= j < p.len() ==> forward(p[0], #[trigger] p[j]) < 0x10000 - 16
}

/// Within its reach, the distance from a head is how far ahead the packet
/// lies, when it lies ahead and does not come round to just behind it.
proof fn lemma_reach_is_forward(id: u16, head: u16)
    requires
        1 <= forward(head, id) < 0x10000 - 16,
    ensures
        in_nack_reach(id, head) == (forward(head, id) <= 16),
        forward(head, id) <= 16 ==> nack_distance(id, head) == forward(head, id) && wrap16(head + forward(head, id)) == id,
{
}

/// No bit from `k` on is set in a mask below `2^k`.
proof fn lemma_nack_bits_none(id: u16, m: u16, k: int)
    requires
        0 <= k <= 16,
        k < 16 ==> m < (1u16 << (k as u16)),
    ensures
        nack_bits(id, m, k) == Seq::<u16>::empty(),
    decreases 16 - k,
{
    if k < 16 {
        let kk = k as u16;
        assert(m < (1u16 << kk) ==> m & (1u16 << kk) == 0) by (bit_vector)
            requires
                kk < 16,
        ;
        if k + 1 < 16 {
            assert(m < (1u16 << kk) ==> m < (1u16 << ((kk + 1) as u16))) by (bit_vector)
                requires
                    kk < 15,
            ;
        }
        lemma_nack_bits_none(id, m, k + 1);
    }
}

/// Setting bit `t` above every bit of `m` adds packet `id + t + 1` at the
/// end of what the bits from `k` on announce.
proof fn lemma_nack_bits_push(id: u16, m: u16, t: int, k: int)
    requires
        0 <= k <= t < 16,
        m < (1u16 << (t as u16)),
    ensures
        nack_bits(id, m | (1u16 << (t as u16)), k) == nack_bits(id, m, k) + seq![wrap16(id + t + 1)],
    decreases t - k,
{
    let tt = t as u16;
    let kk = k as u16;
    let m2 = m | (1u16 << tt);
    if k == t {
        assert(m2 & (1u16 << tt) != 0 && m & (1u16 << tt) == 0) by (bit_vector)
            requires
                m < (1u16 << tt),
                tt < 16,
                m2 == m | (1u16 << tt),
        ;
        if t + 1 < 16 {
            assert(m2 < (1u16 << ((tt + 1) as u16)) && m < (1u16 << ((tt + 1) as u16))) by (bit_vector)
                requires
                    m < (1u16 << tt),
                    tt < 15,
                    m2 == m | (1u16 << tt),
            ;
            assert(((t + 1) as u16) == ((tt + 1) as u16));
        }
        lemma_nack_bits_none(id, m2, t + 1);
        lemma_nack_bits_none(id, m, t + 1);
        assert(nack_bits(id, m2, k) =~= nack_bits(id, m, k) + seq![wrap16(id + t + 1)]);
    } else {
        assert((m2 & (1u16 << kk) != 0) == (m & (1u16 << kk) != 0)) by (bit_vector)
            requires
                kk < tt,
                tt < 16,
                m2 == m | (1u16 << tt),
        ;
        lemma_nack_bits_push(id, m, t, k + 1);
        assert(nack_bits(id, m2, k) =~= nack_bits(id, m, k) + seq![wrap16(id + t + 1)]);
    }
}

/// The bits of a group name exactly the packets of the group after its
/// head, when the packets climb from the head.
proof fn lemma_group_bits(p: Seq<u16>, s: int, e: int)
    requires
        0 <= s < e <= group_end(p, p[s], s + 1) <= p.len(),
        forall|i: int, j: int| s <= i < j < p.len() ==> forward(p[s], #[trigger] p[i]) < forward(p[s], #[trigger] p[j]),
        forall|j: int| s <= j < p.len() ==> forward(p[s], #[trigger] p[j]) < 0x10000 - 16,
    ensures
        nack_bits(p[s], group_mask(p, p[s], s + 1, e), 0) == p.subrange(s + 1, e),
        e > s + 1 ==> forward(p[s], p[e - 1]) <= 16,
        e > s + 1 && forward(p[s], p[e - 1]) < 16 ==> group_mask(p, p[s], s + 1, e) < (1u16 << (forward(p[s], p[e - 1]) as u16)),
    decreases e - s,
{
    let h = p[s];
    if e == s + 1 {
        assert(0u16 < (1u16 << 0u16)) by (bit_vector);
        lemma_nack_bits_none(h, 0, 0);
        assert(p.subrange(s + 1, e) =~= Seq::<u16>::empty());
    } else {
        lemma_group_bits(p, s, e - 1);
        lemma_group_end_reach(p, h, s + 1, e - 1);
        lemma_reach_is_forward(p[e - 1], h);
        let f = forward(h, p[e - 1]);
        let t = f - 1;
        let m = group_mask(p, h, s + 1, e - 1);
        assert(nack_distance(p[e - 1], h) == f);
        assert(group_mask(p, h, s + 1, e) == m | (1u16 << (t as u16)));
        let tt = t as u16;
        if e - 1 > s + 1 {
            let f0 = forward(h, p[e - 2]);
            assert(f0 < f);
            let ff = f0 as u16;
            assert(m < (1u16 << ff) && ff <= tt ==> m < (1u16 << tt)) by (bit_vector)
                requires
                    tt < 16,
            ;
        } else {
            assert(0u16 < (1u16 << tt)) by (bit_vector)
                requires
                    tt < 16,
            ;
        }
        lemma_nack_bits_push(h, m, t, 0);
        assert(wrap16(h + t + 1) == p[e - 1]);
        assert(p.subrange(s + 1, e) =~= p.subrange(s + 1, e - 1) + seq![p[e - 1]]);
        if f < 16 {
            let m2 = m | (1u16 << tt);
            assert(m2 < (1u16 << ((tt + 1) as u16))) by (bit_vector)
                requires
                    m < (1u16 << tt),
                    tt < 15,
                    m2 == m | (1u16 << tt),
            ;
        }
    }
}

proof fn lemma_nacks_lost_front(a: RtcpFeedbackGenericNACK, rest: Seq<RtcpFeedbackGenericNACK>)
    ensures
        nacks_lost(seq![a] + rest) == nack_lost(a) + nacks_lost(rest),
    decreases rest.len(),
{
    let all = seq![a] + rest;
    if rest.len() == 0 {
        assert(all =~= seq![a]);
        assert(all.drop_last() =~= Seq::<RtcpFeedbackGenericNACK>::empty());
        assert(nacks_lost(all) == nacks_lost(all.drop_last()) + nack_lost(all.last()));
        assert(nacks_lost(all) =~= nack_lost(a));
        assert(nack_lost(a) + nacks_lost(rest) =~= nack_lost(a));
    } else {
        lemma_nacks_lost_front(a, rest.drop_last());
        assert((seq![a] + rest).drop_last() =~= seq![a] + rest.drop_last());
        assert((seq![a] + rest).last() == rest.last());
        assert(nack_lost(a) + nacks_lost(rest) =~= nack_lost(a) + nacks_lost(rest.drop_last()) + nack_lost(rest.last()));
    }
}

proof fn lemma_nacks_from_lost(p: Seq<u16>, start: int)
    requires
        0 <= start <= p.len(),
        climbing(p),
    ensures
        nacks_lost(nacks_from(p, start)) == p.skip(start),
    decreases p.len() - start,
{
    if start == p.len() {
        assert(p.skip(start) =~= Seq::<u16>::empty());
    } else {
        let h = p[start];
        let end = group_end(p, h, start + 1);
        lemma_group_end_bounds(p, h, start + 1);
        assert forall|i: int, j: int| start <= i < j < p.len() implies forward(h, #[trigger] p[i]) < forward(h, #[trigger] p[j]) by {
            assert(forward(p[0], p[start]) <= forward(p[0], p[i]));
        }
        assert forall|j: int| start <= j < p.len() implies forward(h, #[trigger] p[j]) < 0x10000 - 16 by {
            assert(forward(p[0], p[start]) <= forward(p[0], p[j]));
        }
        lemma_group_bits(p, start, end);
        let first = RtcpFeedbackGenericNACK { packet_id: h, bitmask_lost_packets: group_mask(p, h, start + 1, end) };
        assert(nacks_from(p, start) == seq![first] + nacks_from(p, end));
        lemma_nacks_lost_front(first, nacks_from(p, end));
        lemma_nacks_from_lost(p, end);
        assert(nack_lost(first) =~= p.subrange(start, end));
        assert(p.skip(start) =~= p.subrange(start, end) + p.skip(end));
    }
}

/// The NACKs that `create_generic_nack` makes for packets that climb from
/// the first one give back, one after another, exactly those packets.
pub proof fn lemma_nacks_give_back_packets(p: Seq<u16>)
    requires
        climbing(p),
    ensures
        nacks_lost(nacks_from(p, 0)) == p,
{
    lemma_nacks_from_lost(p, 0);
    assert(p.skip(0) =~= p);
}

impl RtcpTransportFeedback {
    /// Groups the lost packets into generic NACKs.
    pub fn create_generic_nack(packets: &[SequenceNumber<u16>]) -> (r: RtcpTransportFeedback)
        ensures
            r@ == TransportFeedbackView::GenericNACK(nacks_from(ids(packets@), 0)),
    {
        let ghost p = ids(packets@);
        let mut feedbacks: Vec<RtcpFeedbackGenericNACK> = Vec::new();
        let mut index: usize = 0;
        while index < packets.len()
            invariant
                index <= packets@.len(),
                p == ids(packets@),
                p.len() == packets@.len(),
                nacks_from(p, 0) == feedbacks@ + nacks_from(p, index as int),
            decreases packets@.len() - index,
        {
            let head = packets[index];
            let start = index;
            let mut mask: u16 = 0;
            index = index + 1;
            proof { lemma_group_end_bounds(p, head.packet_id, index as int); }
            while index < packets.len()
                invariant
                    start < index <= packets@.len(),
                    p == ids(packets@),
                    p.len() == packets@.len(),
                    head == packets@[start as int],
                    group_end(p, head.packet_id, start + 1) == group_end(p, head.packet_id, index as int),
                    mask == group_mask(p, head.packet_id, start + 1, index as int),
                ensures
                    start < index <= packets@.len(),
                    group_end(p, head.packet_id, start + 1) == group_end(p, head.packet_id, index as int),
                    mask == group_mask(p, head.packet_id, start + 1, index as int),
                    index == packets@.len() || !in_nack_reach(p[index as int], head.packet_id),
                decreases packets@.len() - index,
            {
                let difference = packets[index].difference(&head, Some(256));
                assert(difference == nack_distance(p[index as int], head.packet_id));
                if difference < 1 || difference > 16 {
                    break;
                }
                mask |= 1 << (difference - 1);
                index = index + 1;
            }
            proof {
                assert(index == group_end(p, head.packet_id, index as int));
                assert(p[start as int] == head.packet_id);
            }
            feedbacks.push(RtcpFeedbackGenericNACK { packet_id: head.packet_id, bitmask_lost_packets: mask });
            assert(nacks_from(p, start as int) == seq![feedbacks@.last()] + nacks_from(p, index as int));
            assert(feedbacks@ =~= feedbacks@.drop_last() + seq![feedbacks@.last()]);
        }
        RtcpTransportFeedback::GenericNACK(feedbacks)
    }
}

#[derive(Debug, PartialEq, Eq, Clone, Copy, Structural)]
pub enum RtcpTransportFeedbackType {
    GenericNACK,
}

impl RtcpTransportFeedbackType {
    pub fn id(&self) -> (r: u8)
        ensures
            r == 1,
    {
        match self {
            RtcpTransportFeedbackType::GenericNACK => 1,
        }
    }

    pub fn from(id: u8) -> (r: Option<RtcpTransportFeedbackType>)
        ensures
            r == if id == 1 { Some(RtcpTransportFeedbackType::GenericNACK) } else { None::<RtcpTransportFeedbackType> },
    {
        match id {
            1 => Some(RtcpTransportFeedbackType::GenericNACK),
            _ => None,
        }
    }
}

pub struct TransportFeedbackPacketView {
    pub ssrc: u32,
    pub media_ssrc: u32,
    pub feedback: TransportFeedbackView,
}

///https://tools.ietf.org/html/rfc4585#section-6.1
#[derive(Debug, Clone)]
pub struct RtcpPacketTransportFeedback {
    pub ssrc: u32,
    pub media_ssrc: u32,
    pub feedback: RtcpTransportFeedback,
}

impl View for RtcpPacketTransportFeedback {
    type V = TransportFeedbackPacketView;

    open spec fn view(&self) -> TransportFeedbackPacketView {
        TransportFeedbackPacketView { ssrc: self.ssrc, media_ssrc: self.media_ssrc, feedback: self.feedback@ }
    }
}

/// The NACKs held by the `n` four byte entries of `s` from `start` on.
pub open spec fn nacks_at(s: Seq<u8>, start: int, n: nat) -> Seq<RtcpFeedbackGenericNACK> {
    Seq::new(
        n,
        |i: int|
            RtcpFeedbackGenericNACK {
                packet_id: be_u16(s, start + 4 * i),
                bitmask_lost_packets: be_u16(s, start + 4 * i + 2),
            },
    )
}

/// The NACKs, each in four bytes.
pub open spec fn nack_list_bytes(nacks: Seq<RtcpFeedbackGenericNACK>) -> Seq<u8>
    decreases nacks.len(),
{
    if nacks.len() == 0 {
        Seq::empty()
    } else {
        nack_list_bytes(nacks.drop_last()) + nack_bytes(nacks.last())
    }
}

/// The NACKs of a transport feedback packet.
pub open spec fn nacks_of(f: TransportFeedbackView) -> Seq<RtcpFeedbackGenericNACK> {
    match f {
        TransportFeedbackView::GenericNACK(v) => v,
    }
}

/// The encoding of a transport feedback packet.
pub open spec fn transport_feedback_bytes(t: TransportFeedbackPacketView) -> Seq<u8> {
    seq![0x81u8, 205u8] + enc_u16(((2 + nacks_of(t.feedback).len()) % 0x10000) as u16) + enc_u32(t.ssrc)
        + enc_u32(t.media_ssrc) + nack_list_bytes(nacks_of(t.feedback))
}

/// A transport feedback packet decoded from the front of `s`, with the
/// number of bytes it takes, or why there is none. The length field,
/// less two and taken modulo 2^16, counts the NACKs.
pub open spec fn parse_transport_feedback(s: Seq<u8>) -> Result<(TransportFeedbackPacketView, int), Error> {
    match header_error(s, 205) {
        Some(e) => Err(e),
        None => if s[0] & 0x1F != 1 {
            Err(Error::UnknownType)
        } else if s.len() < 12 {
            Err(Error::UnexpectedEof)
        } else {
            let count = (be_u16(s, 2) as int + 0x10000 - 2) % 0x10000;
            if s.len() < 12 + 4 * count {
                Err(Error::UnexpectedEof)
            } else {
                Ok((
                    TransportFeedbackPacketView {
                        ssrc: be_u32(s, 4),
                        media_ssrc: be_u32(s, 8),
                        feedback: TransportFeedbackView::GenericNACK(nacks_at(s, 12, count as nat)),
                    },
                    12 + 4 * count,
                ))
            }
        },
    }
}

pub proof fn lemma_nack_list(nacks: Seq<RtcpFeedbackGenericNACK>, s: Seq<u8>, start: int)
    requires
        0 <= start,
        start + 4 * nacks.len() <= s.len(),
        s.subrange(start, start + 4 * nacks.len()) == nack_list_bytes(nacks),
    ensures
        nack_list_bytes(nacks).len() == 4 * nacks.len(),
        nacks_at(s, start, nacks.len()) == nacks,
    decreases nacks.len(),
{
    if nacks.len() > 0 {
        let prev = nacks.drop_last();
        let n = prev.len() as int;
        lemma_nack_list_len(prev);
        assert(s.subrange(start, start + 4 * n) =~= s.subrange(start, start + 4 * nacks.len()).subrange(0, 4 * n));
        assert(nack_list_bytes(nacks).subrange(0, 4 * n) =~= nack_list_bytes(prev));
        lemma_nack_list(prev, s, start);
        let last = nacks.last();
        assert(s.subrange(start + 4 * n, start + 4 * n + 4) =~= nack_list_bytes(nacks).subrange(4 * n, 4 * n + 4));
        assert(nack_list_bytes(nacks).subrange(4 * n, 4 * n + 4) =~= nack_bytes(last));
        assert(nack_bytes(last).subrange(2, 4) =~= enc_u16(last.bitmask_lost_packets));
        assert(s.subrange(start + 4 * n, start + 4 * n + 2) =~= enc_u16(last.packet_id));
        assert(s.subrange(start + 4 * n + 2, start + 4 * n + 4) =~= enc_u16(last.bitmask_lost_packets));
        lemma_u16_roundtrip(last.packet_id, s, start + 4 * n);
        lemma_u16_roundtrip(last.bitmask_lost_packets, s, start + 4 * n + 2);
        let got = nacks_at(s, start, nacks.len());
        let got_prev = nacks_at(s, start, prev.len());
        assert forall|i: int| 0 <= i < nacks.len() implies got[i] == nacks[i] by {
            if i < n {
                assert(got_prev[i] == prev[i]);
            }
        }
        assert(got =~= nacks);
    }
}

pub proof fn lemma_nack_list_len(nacks: Seq<RtcpFeedbackGenericNACK>)
    ensures
        nack_list_bytes(nacks).len() == 4 * nacks.len(),
    decreases nacks.len(),
{
    if nacks.len() > 0 {
        lemma_nack_list_len(nacks.drop_last());
    }
}

/// Decoding the encoding of a transport feedback packet gives back the
/// packet, whatever follows it, when its length field can count its NACKs.
#[verifier::rlimit(40)]
pub proof fn lemma_transport_feedback_roundtrip(t: TransportFeedbackPacketView, trailer: Seq<u8>)
    requires
        2 + nacks_of(t.feedback).len() < 0x10000,
    ensures
        parse_transport_feedback(transport_feedback_bytes(t) + trailer) == Ok::<
            (TransportFeedbackPacketView, int),
            Error,
        >((t, transport_feedback_bytes(t).len() as int)),
{
    let nacks = nacks_of(t.feedback);
    let n = nacks.len() as int;
    let b = transport_feedback_bytes(t);
    let s = b + trailer;
    let q = (2 + n) as u16;
    lemma_nack_list_len(nacks);
    assert(s[0] == 0x81u8);
    assert(s[1] == 205u8);
    assert((0x81u8 >> 6) == 2 && 0x81u8 & 0x1F == 1) by (bit_vector);
    assert(s.subrange(2, 4) =~= enc_u16(q));
    lemma_u16_roundtrip(q, s, 2);
    assert(s.subrange(4, 8) =~= enc_u32(t.ssrc));
    lemma_u32_roundtrip(t.ssrc, s, 4);
    assert(s.subrange(8, 12) =~= enc_u32(t.media_ssrc));
    lemma_u32_roundtrip(t.media_ssrc, s, 8);
    assert((q as int + 0x10000 - 2) % 0x10000 == n);
    assert(s.subrange(12, 12 + 4 * n) =~= nack_list_bytes(nacks));
    lemma_nack_list(nacks, s, 12);
    match t.feedback {
        TransportFeedbackView::GenericNACK(v) => {},
    }
}

/// A transport feedback packet is written in `byte_size` bytes, twelve and
/// four for each NACK, and its length field counts those words less one
/// (RFC 4585 section 6.1) when it can count them.
pub proof fn lemma_transport_feedback_size(t: TransportFeedbackPacketView)
    ensures
        transport_feedback_bytes(t).len() == 12 + 4 * nacks_of(t.feedback).len(),
        2 + nacks_of(t.feedback).len() < 0x10000 ==> 12 + 4 * nacks_of(t.feedback).len() == 4 * (be_u16(
            transport_feedback_bytes(t),
            2,
        ) + 1),
{
    let n = nacks_of(t.feedback).len();
    let b = transport_feedback_bytes(t);
    lemma_nack_list_len(nacks_of(t.feedback));
    if 2 + n < 0x10000 {
        let q = (2 + n) as u16;
        assert(b.subrange(2, 4) =~= enc_u16(q));
        lemma_u16_roundtrip(q, b, 2);
    }
}

impl RtcpPacketTransportFeedback {
    pub fn parse(reader: &mut ByteReader) -> (r: Result<RtcpPacketTransportFeedback, Error>)
        ensures
            final(reader).data() == old(reader).data(),
            parse_outcome(r, parse_transport_feedback(old(reader).rest()), old(reader).rest(), final(reader).rest()),
    {
        let ghost s = reader.rest();
        let info = read_header(reader, 205)?;
        let feedback_type = match RtcpTransportFeedbackType::from(info & 0x1F) {
            Some(t) => t,
            None => return Err(Error::UnknownType),
        };
        let length = reader.read_u16_be()?;
        assert(s.skip(2)[0] == s[2] && s.skip(2)[1] == s[3]);
        assert(length == be_u16(s, 2));
        let ssrc = reader.read_u32_be()?;
        let media_ssrc = reader.read_u32_be()?;
        assert(s.skip(2).skip(2) =~= s.skip(4));
        assert(s.skip(4).skip(4) =~= s.skip(8));
        assert(s.skip(8).skip(4) =~= s.skip(12));
        assert(s.skip(4)[0] == s[4] && s.skip(4)[1] == s[5] && s.skip(4)[2] == s[6] && s.skip(4)[3] == s[7]);
        assert(s.skip(8)[0] == s[8] && s.skip(8)[1] == s[9] && s.skip(8)[2] == s[10] && s.skip(8)[3] == s[11]);
        let feedback = match feedback_type {
            RtcpTransportFeedbackType::GenericNACK => {
                let count = length.wrapping_sub(2) as usize * 4 / RtcpFeedbackGenericNACK::byte_size();
                assert(count == (be_u16(s, 2) as int + 0x10000 - 2) % 0x10000);
                let mut reports: Vec<RtcpFeedbackGenericNACK> = Vec::new();
                let mut i: usize = 0;
                while i < count
                    invariant
                        i <= count,
                        count == (be_u16(s, 2) as int + 0x10000 - 2) % 0x10000,
                        s == old(reader).rest(),
                        header_error(s, 205) is None,
                        s[0] & 0x1F == 1,
                        s.len() >= 12 + 4 * i,
                        reader.data() == old(reader).data(),
                        reader.rest() == s.skip(12 + 4 * i),
                        reports@ =~= nacks_at(s, 12, i as nat),
                    decreases count - i,
                {
                    let ghost k = 12 + 4 * i as int;
                    let nack = RtcpFeedbackGenericNACK::parse(reader)?;
                    assert(be_u16(s.skip(k), 0) == be_u16(s, k));
                    assert(be_u16(s.skip(k), 2) == be_u16(s, k + 2));
                    reports.push(nack);
                    assert(s.skip(k).skip(4) =~= s.skip(k + 4));
                    i = i + 1;
                }
                RtcpTransportFeedback::GenericNACK(reports)
            },
        };
        Ok(RtcpPacketTransportFeedback { ssrc, media_ssrc, feedback })
    }

    pub fn feedback_type(&self) -> (r: RtcpTransportFeedbackType)
        ensures
            r == RtcpTransportFeedbackType::GenericNACK,
    {
        match &self.feedback {
            RtcpTransportFeedback::GenericNACK(..) => RtcpTransportFeedbackType::GenericNACK,
        }
    }

    pub fn byte_size(&self) -> (r: usize)
        requires
            12 + 4 * nacks_of(self.feedback@).len() <= usize::MAX,
        ensures
            r == 12 + 4 * nacks_of(self.feedback@).len(),
    {
        12 + self.feedback_byte_size()
    }

    fn feedback_byte_size(&self) -> (r: usize)
        requires
            4 * nacks_of(self.feedback@).len() <= usize::MAX,
        ensures
            r == 4 * nacks_of(self.feedback@).len(),
    {
        match &self.feedback {
            RtcpTransportFeedback::GenericNACK(nacks) => nacks.len() * RtcpFeedbackGenericNACK::byte_size(),
        }
    }

    pub fn write(&self, buf: &mut [u8], pos: usize) -> (r: Result<usize, Error>)
        requires
            pos <= old(buf)@.len(),
            4 * nacks_of(self.feedback@).len() <= usize::MAX,
        ensures
            writes(old(buf)@, final(buf)@, pos as int, transport_feedback_bytes(self@), r),
            transport_feedback_bytes(self@).len() == 12 + 4 * nacks_of(self.feedback@).len(),
    {
        proof { lemma_transport_feedback_size(self@); }
        let fb_byte_size = self.feedback_byte_size();
        let mut out: Vec<u8> = Vec::new();
        push_u8(&mut out, 0x80u8 | self.feedback_type().id());
        push_u8(&mut out, 205);
        push_u16(&mut out, ((2 + fb_byte_size / 4) % 0x10000) as u16);
        push_u32(&mut out, self.ssrc);
        push_u32(&mut out, self.media_ssrc);
        assert((0x80u8 | 1u8) == 0x81u8) by (bit_vector);
        match &self.feedback {
            RtcpTransportFeedback::GenericNACK(nacks) => {
                let ghost head = out@;
                let mut i: usize = 0;
                while i < nacks.len()
                    invariant
                        i <= nacks@.len(),
                        out@ == head + nack_list_bytes(nacks@.take(i as int)),
                    decreases nacks@.len() - i,
                {
                    push_u16(&mut out, nacks[i].packet_id);
                    push_u16(&mut out, nacks[i].bitmask_lost_packets);
                    assert(nacks@.take(i + 1).drop_last() =~= nacks@.take(i as int));
                    i = i + 1;
                }
                assert(nacks@.take(i as int) =~= nacks@);
            },
        }
        assert(out@ =~= transport_feedback_bytes(self@));
        write_bytes(buf, pos, out.as_slice())
    }
}

} // verus!
