//! The RTP packets sent lately, kept so that they can be sent again when
//! the receiver asks for them.
//!
//! The history runs on a clock of milliseconds that the caller supplies; it
//! starts at the maximal packet age, so that no packet is too old at first.
use vstd::prelude::*;
use std::collections::VecDeque;

verus! {

pub struct RtpSendPacket {
    pub sequence: u16,
    pub first_send: u32,
    pub last_send: u32,
    pub buffer: Vec<u8>,
}

pub struct SentPacketView {
    pub sequence: u16,
    pub first_send: u32,
    pub last_send: u32,
    pub buffer: Seq<u8>,
}

impl View for RtpSendPacket {
    type V = SentPacketView;

    open spec fn view(&self) -> SentPacketView {
        SentPacketView {
            sequence: self.sequence,
            first_send: self.first_send,
            last_send: self.last_send,
            buffer: self.buffer@,
        }
    }
}

pub struct RtpPacketHistory {
    max_saved_packets: usize,
    max_packet_age: u32,
    max_saved_bytes: usize,
    min_resend_interval: u32,
    current_byte_count: usize,
    packets: VecDeque<RtpSendPacket>,
}

pub struct PacketHistoryView {
    pub max_saved_packets: usize,
    pub max_packet_age: u32,
    pub max_saved_bytes: usize,
    pub min_resend_interval: u32,
    pub current_byte_count: usize,
    /// The packets kept, oldest first.
    pub packets: Seq<SentPacketView>,
}

impl View for RtpPacketHistory {
    type V = PacketHistoryView;

    closed spec fn view(&self) -> PacketHistoryView {
        PacketHistoryView {
            max_saved_packets: self.max_saved_packets,
            max_packet_age: self.max_packet_age,
            max_saved_bytes: self.max_saved_bytes,
            min_resend_interval: self.min_resend_interval,
            current_byte_count: self.current_byte_count,
            packets: self.packets@.map_values(|p: RtpSendPacket| p@),
        }
    }
}

/// The bytes held by the packets.
pub open spec fn total_bytes(ps: Seq<SentPacketView>) -> int
    decreases ps.len(),
{
    if ps.len() == 0 {
        0
    } else {
        total_bytes(ps.drop_last()) + ps.last().buffer.len()
    }
}

/// The packets without the oldest ones, as long as they hold more than
/// `max` bytes.
pub open spec fn drop_over_bytes(ps: Seq<SentPacketView>, max: int) -> Seq<SentPacketView>
    decreases ps.len(),
{
    if ps.len() > 0 && total_bytes(ps) > max {
        drop_over_bytes(ps.drop_first(), max)
    } else {
        ps
    }
}

/// The packets without the oldest ones, as long as they were last sent at
/// or before `timeout_time`.
pub open spec fn drop_timed_out(ps: Seq<SentPacketView>, timeout_time: int) -> Seq<SentPacketView>
    decreases ps.len(),
{
    if ps.len() > 0 && ps[0].last_send <= timeout_time {
        drop_timed_out(ps.drop_first(), timeout_time)
    } else {
        ps
    }
}

/// The newest `max` packets.
pub open spec fn keep_newest(ps: Seq<SentPacketView>, max: int) -> Seq<SentPacketView> {
    if ps.len() > max {
        ps.skip(ps.len() - max)
    } else {
        ps
    }
}

/// The packets that stay after a clean up at `now`: the oldest go while
/// there are too many bytes, then while they are older than the maximal
/// age, then while there are too many packets.
pub open spec fn cleaned(v: PacketHistoryView, ps: Seq<SentPacketView>, now: u32) -> Seq<SentPacketView> {
    keep_newest(
        drop_timed_out(drop_over_bytes(ps, v.max_saved_bytes as int), now - v.max_packet_age),
        v.max_saved_packets as int,
    )
}

/// The first packet with the given sequence number.
pub open spec fn find_sequence(ps: Seq<SentPacketView>, sequence: u16) -> Option<int>
    decreases ps.len(),
{
    if ps.len() == 0 {
        None
    } else {
        match find_sequence(ps.drop_last(), sequence) {
            Some(i) => Some(i),
            None => if ps.last().sequence == sequence {
                Some(ps.len() - 1)
            } else {
                None
            },
        }
    }
}

/// `a + b` as a `u32` sum wraps.
pub open spec fn add_wrapping32(a: u32, b: u32) -> int {
    if a + b > u32::MAX {
        a + b - 0x1_0000_0000
    } else {
        a + b
    }
}

pub proof fn lemma_total_bytes_prefix(ps: Seq<SentPacketView>)
    requires
        ps.len() > 0,
    ensures
        total_bytes(ps) == ps[0].buffer.len() + total_bytes(ps.drop_first()),
    decreases ps.len(),
{
    if ps.len() > 1 {
        lemma_total_bytes_prefix(ps.drop_last());
        assert(ps.drop_last().drop_first() =~= ps.drop_first().drop_last());
    } else {
        assert(ps.drop_first() =~= Seq::<SentPacketView>::empty());
        assert(ps.drop_last() =~= Seq::<SentPacketView>::empty());
    }
}

pub proof fn lemma_total_bytes_nonneg(ps: Seq<SentPacketView>)
    ensures
        total_bytes(ps) >= 0,
    decreases ps.len(),
{
    if ps.len() > 0 {
        lemma_total_bytes_nonneg(ps.drop_last());
    }
}

/// The limits a history is made with.
pub open spec fn initial_limits(v: PacketHistoryView) -> bool {
    &&& v.max_saved_packets == 1000
    &&& v.max_packet_age == 10_000
    &&& v.max_saved_bytes == 1_000_000
    &&& v.min_resend_interval == 50
}

impl RtpPacketHistory {
    /// The byte count is the bytes of the packets kept, and neither the
    /// bytes nor the packets exceed their limits.
    pub closed spec fn wf(&self) -> bool {
        &&& initial_limits(self@)
        &&& self@.current_byte_count == total_bytes(self@.packets)
        &&& self@.current_byte_count <= self@.max_saved_bytes
        &&& self@.packets.len() <= self@.max_saved_packets
    }

    pub proof fn lemma_wf(&self)
        requires
            self.wf(),
        ensures
            initial_limits(self@),
            self@.current_byte_count == total_bytes(self@.packets),
            self@.current_byte_count <= self@.max_saved_bytes,
            self@.packets.len() <= self@.max_saved_packets,
    {
    }

    pub fn new() -> (r: Self)
        ensures
            r.wf(),
            r@.packets.len() == 0,
            r@.current_byte_count == 0,
    {
        let r = RtpPacketHistory {
            max_saved_packets: 1000,
            max_packet_age: 10_000,
            max_saved_bytes: 1_000_000,
            min_resend_interval: 50,
            current_byte_count: 0,
            packets: VecDeque::new(),
        };
        assert(r@.packets =~= Seq::<SentPacketView>::empty());
        r
    }

    /// Keeps a packet sent at `now`, then cleans up.
    pub fn enqueue_send_packet(&mut self, sequence: u16, buffer: Vec<u8>, now: u32)
        requires
            old(self).wf(),
            now >= old(self)@.max_packet_age,
            buffer@.len() + old(self)@.max_saved_bytes <= usize::MAX,
        ensures
            final(self).wf(),
            final(self)@.packets == cleaned(
                old(self)@,
                old(self)@.packets.push(SentPacketView { sequence, first_send: now, last_send: now, buffer: buffer@ }),
                now,
            ),
    {
        let packet = RtpSendPacket { sequence, first_send: now, last_send: now, buffer };
        let ghost before = self@.packets;
        self.current_byte_count = self.current_byte_count + packet.buffer.len();
        self.packets.push_back(packet);
        proof {
            let ps = self@.packets;
            assert(ps =~= before.push(packet@));
            assert(ps.drop_last() =~= before);
        }
        self.remove_old(now);
    }

    /// Drops the oldest packets while there are too many bytes, too old
    /// packets or too many packets.
    pub fn cleanup(&mut self, now: u32)
        requires
            old(self).wf(),
            now >= old(self)@.max_packet_age,
        ensures
            final(self).wf(),
            final(self)@.packets == cleaned(old(self)@, old(self)@.packets, now),
    {
        self.remove_old(now);
    }

    fn remove_old(&mut self, now: u32)
        requires
            initial_limits(old(self)@),
            old(self)@.current_byte_count == total_bytes(old(self)@.packets),
            now >= old(self)@.max_packet_age,
        ensures
            final(self).wf(),
            final(self)@.packets == cleaned(old(self)@, old(self)@.packets, now),
    {
        let ghost v = self@;
        while self.current_byte_count > self.max_saved_bytes
            invariant
                initial_limits(self@),
                self@.current_byte_count == total_bytes(self@.packets),
                drop_over_bytes(v.packets, v.max_saved_bytes as int) == drop_over_bytes(self@.packets, v.max_saved_bytes as int),
                v.max_saved_bytes == self@.max_saved_bytes,
            decreases self@.packets.len(),
        {
            let ghost ps = self@.packets;
            proof {
                lemma_total_bytes_nonneg(ps);
                if ps.len() == 0 {
                    assert(total_bytes(ps) == 0);
                }
                lemma_total_bytes_prefix(ps);
                lemma_total_bytes_nonneg(ps.drop_first());
            }
            let packet = self.packets.pop_front().unwrap();
            assert(self@.packets =~= ps.drop_first());
            self.current_byte_count = self.current_byte_count - packet.buffer.len();
        }
        let timeout_time = now - self.max_packet_age;
        let ghost after_bytes = self@.packets;
        assert(after_bytes == drop_over_bytes(v.packets, v.max_saved_bytes as int));
        while self.packets.len() > 0 && self.packets[0].last_send <= timeout_time
            invariant
                initial_limits(self@),
                self@.current_byte_count == total_bytes(self@.packets),
                self@.current_byte_count <= self@.max_saved_bytes,
                timeout_time == now - v.max_packet_age,
                drop_timed_out(after_bytes, timeout_time as int) == drop_timed_out(self@.packets, timeout_time as int),
            decreases self@.packets.len(),
        {
            let ghost ps = self@.packets;
            proof {
                lemma_total_bytes_prefix(ps);
                lemma_total_bytes_nonneg(ps.drop_first());
            }
            let packet = self.packets.pop_front().unwrap();
            assert(self@.packets =~= ps.drop_first());
            self.current_byte_count = self.current_byte_count - packet.buffer.len();
        }
        let ghost after_age = self@.packets;
        while self.packets.len() > self.max_saved_packets
            invariant
                initial_limits(self@),
                self@.current_byte_count == total_bytes(self@.packets),
                self@.current_byte_count <= self@.max_saved_bytes,
                self@.packets.len() >= self@.max_saved_packets ==> self@.packets == after_age.skip(
                    after_age.len() - self@.packets.len(),
                ),
                after_age.len() <= self@.max_saved_packets ==> self@.packets == after_age,
                after_age.len() >= self@.packets.len(),
                self@.packets.len() >= self@.max_saved_packets || self@.packets == after_age,
            decreases self@.packets.len(),
        {
            let ghost ps = self@.packets;
            proof {
                lemma_total_bytes_prefix(ps);
                lemma_total_bytes_nonneg(ps.drop_first());
            }
            let packet = self.packets.pop_front().unwrap();
            assert(self@.packets =~= ps.drop_first());
            assert(after_age.skip(after_age.len() - ps.len()).drop_first() =~= after_age.skip(after_age.len() - self@.packets.len()));
            self.current_byte_count = self.current_byte_count - packet.buffer.len();
        }
        assert(after_age.len() >= v.max_saved_packets ==> after_age.skip(0) =~= after_age);
    }

    /// The packet with the given sequence number, to be sent again at `now`,
    /// unless it was sent within the resend interval.
    pub fn resend_packet(&mut self, sequence: u16, now: u32) -> (r: Option<&[u8]>)
        requires
            old(self).wf(),
        ensures
            final(self).wf(),
            match find_sequence(old(self)@.packets, sequence) {
                Some(i) => if add_wrapping32(old(self)@.packets[i].last_send, old(self)@.min_resend_interval) < now {
                    &&& r matches Some(b) && b@ == old(self)@.packets[i].buffer
                    &&& final(self)@ == (PacketHistoryView {
                        packets: old(self)@.packets.update(
                            i,
                            SentPacketView { last_send: now, ..old(self)@.packets[i] },
                        ),
                        ..old(self)@
                    })
                } else {
                    r is None && final(self)@ == old(self)@
                },
                None => r is None && final(self)@ == old(self)@,
            },
    {
        let ghost ps = self@.packets;
        let mut i: usize = 0;
        while i < self.packets.len()
            invariant
                ps == self@.packets,
                self.wf(),
                self@ == old(self)@,
                i <= ps.len(),
                find_sequence(ps.take(i as int), sequence) is None,
            decreases ps.len() - i,
        {
            assert(ps.take(i + 1).drop_last() =~= ps.take(i as int));
            if self.packets[i].sequence == sequence {
                proof { lemma_find_sequence_prefix(ps, i as int, sequence); }
                if self.packets[i].last_send.wrapping_add(self.min_resend_interval) < now {
                    let mut packet = self.packets.remove(i).unwrap();
                    packet.last_send = now;
                    self.packets.insert(i, packet);
                    proof {
                        assert(self@.packets =~= ps.update(i as int, SentPacketView { last_send: now, ..ps[i as int] }));
                        lemma_total_bytes_update(ps, i as int, SentPacketView { last_send: now, ..ps[i as int] });
                    }
                    return Some(self.packets[i].buffer.as_slice());
                }
                return None;
            }
            i = i + 1;
        }
        assert(ps.take(i as int) =~= ps);
        None
    }
}

pub proof fn lemma_find_sequence_prefix(ps: Seq<SentPacketView>, i: int, sequence: u16)
    requires
        0 <= i < ps.len(),
        find_sequence(ps.take(i), sequence) is None,
        ps[i].sequence == sequence,
    ensures
        find_sequence(ps, sequence) == Some(i),
    decreases ps.len(),
{
    if i < ps.len() - 1 {
        assert(ps.drop_last().take(i) =~= ps.take(i));
        lemma_find_sequence_prefix(ps.drop_last(), i, sequence);
    } else {
        assert(ps.drop_last() =~= ps.take(i));
    }
}

/// Replacing a packet by one with the same bytes keeps the byte count.
pub proof fn lemma_total_bytes_update(ps: Seq<SentPacketView>, i: int, p: SentPacketView)
    requires
        0 <= i < ps.len(),
        p.buffer.len() == ps[i].buffer.len(),
    ensures
        total_bytes(ps.update(i, p)) == total_bytes(ps),
    decreases ps.len(),
{
    if i < ps.len() - 1 {
        lemma_total_bytes_update(ps.drop_last(), i, p);
        assert(ps.update(i, p).drop_last() =~= ps.drop_last().update(i, p));
    } else {
        assert(ps.update(i, p).drop_last() =~= ps.drop_last());
    }
}

} // verus!
