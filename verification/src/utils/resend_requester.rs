//! Tracks incoming RTP sequence numbers and decides which packets to ask
//! the sender for again.
//!
//! The requester is a state machine over a clock that its caller supplies:
//! every operation that depends on the time takes `now`, the milliseconds
//! since the requester was created. Events are queued and taken with
//! [`RtpPacketResendRequester::next_event`]; when a resend timer should run,
//! [`RtpPacketResendRequester::resend_delay`] says for how long, and the caller
//! reports its expiry with [`RtpPacketResendRequester::resend_timer_elapsed`].
use vstd::prelude::*;
use vstd::arithmetic::div_mod::{lemma_small_mod, lemma_mod_add_multiples_vanish};
use crate::utils::packet_id::{SequenceNumber, spec_is_less, spec_difference};

verus! {

/// The value of a slot whose packet has arrived or was given up.
pub const RECEIVED: u32 = 0xFFFF_FFFF;

/// Sequence numbers closer than this to the wrap are compared across it.
pub const CLIPPING_WINDOW: u16 = 1024;

#[derive(Debug, PartialEq, Eq, Clone, Copy, Structural)]
pub enum PacketReceivedResult {
    /// The packet has been received successfully
    Success,
    /// The packet is too old
    PacketTooOld,
}

#[derive(Debug, PartialEq)]
pub enum RtpPacketResendRequesterEvent {
    SequenceTimedOut,
    SequenceGapped,
    ResendPackets(Vec<SequenceNumber<u16>>),
    PacketTimedOut(Vec<SequenceNumber<u16>>),
}

pub enum ResendEventView {
    SequenceTimedOut,
    SequenceGapped,
    ResendPackets(Seq<u16>),
    PacketTimedOut(Seq<u16>),
}

/// The packet ids held by a list of sequence numbers.
pub open spec fn ids(v: Seq<SequenceNumber<u16>>) -> Seq<u16> {
    v.map_values(|x: SequenceNumber<u16>| x.packet_id)
}

impl View for RtpPacketResendRequesterEvent {
    type V = ResendEventView;

    open spec fn view(&self) -> ResendEventView {
        match self {
            RtpPacketResendRequesterEvent::SequenceTimedOut => ResendEventView::SequenceTimedOut,
            RtpPacketResendRequesterEvent::SequenceGapped => ResendEventView::SequenceGapped,
            RtpPacketResendRequesterEvent::ResendPackets(v) => ResendEventView::ResendPackets(ids(v@)),
            RtpPacketResendRequesterEvent::PacketTimedOut(v) => ResendEventView::PacketTimedOut(ids(v@)),
        }
    }
}

/// The state of a requester. `window[k]` is the time by which packet
/// `pending_index + k` is expected, or [`RECEIVED`].
pub struct ResendRequesterView {
    pub last_packet_id: u16,
    pub last_packet_timestamp: u32,
    pub pending_index: u16,
    pub window: Seq<u32>,
    pub nack_delay: u32,
    pub resend_request_interval: u32,
    pub events: Seq<ResendEventView>,
    pub resend_delay: Option<u32>,
}

/// `x` reduced to a 16 bit sequence number.
pub open spec fn wrap16(x: int) -> u16 {
    (x % 0x10000) as u16
}

/// The ids `base + k`, in increasing `k`, of the slots `w[k]` that `keep`
/// selects.
pub open spec fn ids_where(base: u16, w: Seq<u32>, keep: spec_fn(u32) -> bool) -> Seq<u16>
    decreases w.len(),
{
    if w.len() == 0 {
        Seq::empty()
    } else {
        let prev = ids_where(base, w.drop_last(), keep);
        if keep(w.last()) {
            prev.push(wrap16(base + w.len() - 1))
        } else {
            prev
        }
    }
}

pub open spec fn not_received() -> spec_fn(u32) -> bool {
    |t: u32| t != RECEIVED
}

pub open spec fn due(now: u32) -> spec_fn(u32) -> bool {
    |t: u32| t <= now
}

pub open spec fn expired(now: u32) -> spec_fn(u32) -> bool {
    |t: u32| t <= now && now - t >= 1000
}

pub open spec fn resendable(now: u32) -> spec_fn(u32) -> bool {
    |t: u32| t <= now && now - t < 1000
}

/// The earliest expected time later than `now`, or [`RECEIVED`].
pub open spec fn next_expected(w: Seq<u32>, now: u32) -> u32
    decreases w.len(),
{
    if w.len() == 0 {
        RECEIVED
    } else {
        let prev = next_expected(w.drop_last(), now);
        if w.last() > now && w.last() < prev {
            w.last()
        } else {
            prev
        }
    }
}

/// Every pending packet taken as lost: the window is cleared, and when
/// `emit` is set and some packet was pending, they are reported as timed
/// out.
pub open spec fn flush_spec(v: ResendRequesterView, emit: bool) -> ResendRequesterView {
    let lost = ids_where(v.pending_index, v.window, not_received());
    ResendRequesterView {
        window: Seq::new(v.window.len(), |k: int| RECEIVED),
        events: if emit && lost.len() > 0 {
            v.events.push(ResendEventView::PacketTimedOut(lost))
        } else {
            v.events
        },
        ..v
    }
}

/// A new sequence that ends at `id`, after the old one has been flushed;
/// `event` is reported when a packet of the old one was pending.
pub open spec fn restart_spec(v: ResendRequesterView, id: u16, event: ResendEventView) -> ResendRequesterView {
    let had_sequence = ids_where(v.pending_index, v.window, not_received()).len() > 0;
    let f = flush_spec(v, true);
    ResendRequesterView {
        pending_index: wrap16(id + 1 - v.window.len() % 0x10000),
        events: if had_sequence { f.events.push(event) } else { f.events },
        ..f
    }
}

/// The window moved on by `n` packets, which are expected by `expected`;
/// those of the packets that leave it and are still pending are reported
/// as timed out.
pub open spec fn shift_spec(v: ResendRequesterView, n: int, expected: u32) -> ResendRequesterView {
    let lost = ids_where(v.pending_index, v.window.take(n), not_received());
    ResendRequesterView {
        pending_index: wrap16(v.pending_index + n),
        window: v.window.skip(n) + Seq::new(n as nat, |k: int| expected),
        events: if lost.len() > 0 {
            v.events.push(ResendEventView::PacketTimedOut(lost))
        } else {
            v.events
        },
        ..v
    }
}

/// Unless a resend timer runs: packets overdue by a second or more are
/// given up and reported as timed out, the other overdue packets are asked
/// for again and the timer is set to the resend interval; otherwise the
/// timer is set to run until the next expected packet is due.
pub open spec fn update_spec(v: ResendRequesterView, now: u32) -> ResendRequesterView {
    if v.resend_delay is Some {
        v
    } else {
        let timed_out = ids_where(v.pending_index, v.window, expired(now));
        let resend = ids_where(v.pending_index, v.window, resendable(now));
        let next = next_expected(v.window, now);
        let events1 = if timed_out.len() > 0 {
            v.events.push(ResendEventView::PacketTimedOut(timed_out))
        } else {
            v.events
        };
        ResendRequesterView {
            window: Seq::new(
                v.window.len(),
                |k: int| if expired(now)(v.window[k]) { RECEIVED } else { v.window[k] },
            ),
            events: if resend.len() > 0 {
                events1.push(ResendEventView::ResendPackets(resend))
            } else {
                events1
            },
            resend_delay: if resend.len() > 0 {
                Some(v.resend_request_interval)
            } else if next != RECEIVED {
                Some((next - now) as u32)
            } else {
                None
            },
            ..v
        }
    }
}

/// The state after packet `id` arrived at `now`, and the answer.
pub open spec fn handle_packet_spec(v: ResendRequesterView, id: u16, now: u32) -> (ResendRequesterView, PacketReceivedResult) {
    let len = v.window.len() as int;
    let elapsed = if now >= v.last_packet_timestamp {
        now - v.last_packet_timestamp
    } else {
        now - v.last_packet_timestamp + 0x1_0000_0000
    };
    let timed_out = elapsed > 1000;
    let expected = if now + v.nack_delay < 0x1_0000_0000 {
        now + v.nack_delay
    } else {
        now + v.nack_delay - 0x1_0000_0000
    };
    if !timed_out && spec_is_less(id as nat, v.pending_index as nat, Some(CLIPPING_WINDOW as nat), 0xFFFF) {
        (v, PacketReceivedResult::PacketTooOld)
    } else {
        let v1 = if timed_out { restart_spec(v, id, ResendEventView::SequenceTimedOut) } else { v };
        let distance = spec_difference(v1.pending_index as nat, id as nat, Some(CLIPPING_WINDOW as nat), 0xFFFF);
        let v2 = if distance >= 2 * len {
            restart_spec(v1, id, ResendEventView::SequenceGapped)
        } else if distance >= len {
            shift_spec(v1, distance - len + 1, expected as u32)
        } else {
            v1
        };
        let slot = if distance >= len { len - 1 } else { distance };
        let v3 = ResendRequesterView {
            window: v2.window.update(slot, RECEIVED),
            last_packet_id: id,
            last_packet_timestamp: now,
            ..v2
        };
        (update_spec(v3, now), PacketReceivedResult::Success)
    }
}

/// The requester back at the start of a sequence, its window cleared
/// without reporting anything and its timer stopped.
pub open spec fn reset_spec(v: ResendRequesterView) -> ResendRequesterView {
    ResendRequesterView {
        last_packet_id: 0,
        last_packet_timestamp: 0xFFFF0000,
        pending_index: 0,
        window: Seq::new(v.window.len(), |k: int| RECEIVED),
        resend_delay: None,
        ..v
    }
}

/// The first event waiting, if any.
pub open spec fn first_event(v: ResendRequesterView) -> Option<ResendEventView> {
    if v.events.len() > 0 {
        Some(v.events[0])
    } else {
        None
    }
}

// ---------------------------------------------------------------------------
// Ring buffer arithmetic
// ---------------------------------------------------------------------------

pub proof fn lemma_mod_range(a: int, m: int)
    requires
        0 < m,
        0 <= a < 3 * m,
    ensures
        a % m == if a < m { a } else if a < 2 * m { a - m } else { a - 2 * m },
{
    if a < m {
        lemma_small_mod(a as nat, m as nat);
    } else if a < 2 * m {
        lemma_small_mod((a - m) as nat, m as nat);
        lemma_mod_add_multiples_vanish(a - m, m);
    } else {
        lemma_small_mod((a - 2 * m) as nat, m as nat);
        lemma_mod_add_multiples_vanish(a - 2 * m, m);
        lemma_mod_add_multiples_vanish(a - m, m);
    }
}

/// The slots of `buf` read from `start` on, wrapping at the end.
pub open spec fn ring(buf: Seq<u32>, start: int) -> Seq<u32> {
    Seq::new(buf.len(), |k: int| buf[(start + k) % (buf.len() as int)])
}

/// Writing slot `(start + j) % len` writes entry `j` of the ring.
pub proof fn lemma_ring_update(buf: Seq<u32>, start: int, j: int, v: u32)
    requires
        0 <= start < buf.len(),
        0 <= j < buf.len(),
    ensures
        ring(buf.update((start + j) % (buf.len() as int), v), start) == ring(buf, start).update(j, v),
{
    let n = buf.len() as int;
    lemma_mod_range(start + j, n);
    assert forall|k: int| 0 <= k < n implies #[trigger] ring(buf.update((start + j) % n, v), start)[k]
        == ring(buf, start).update(j, v)[k] by {
        lemma_mod_range(start + k, n);
    }
    assert(ring(buf.update((start + j) % n, v), start) =~= ring(buf, start).update(j, v));
}

/// Reading from `(start + m) % len` turns the ring by `m`.
pub proof fn lemma_ring_rotate(buf: Seq<u32>, start: int, m: int)
    requires
        0 <= start < buf.len(),
        0 <= m <= buf.len(),
    ensures
        ring(buf, (start + m) % (buf.len() as int)) == ring(buf, start).skip(m) + ring(buf, start).take(m),
{
    let n = buf.len() as int;
    let s2 = (start + m) % n;
    lemma_mod_range(start + m, n);
    assert forall|k: int| 0 <= k < n implies #[trigger] ring(buf, s2)[k] == (ring(buf, start).skip(m) + ring(
        buf,
        start,
    ).take(m))[k] by {
        lemma_mod_range(s2 + k, n);
        lemma_mod_range(start + m + k, n);
        if k < n - m {
            lemma_mod_range(start + m + k, n);
        } else {
            lemma_mod_range(start + m + k - n, n);
        }
    }
    assert(ring(buf, s2) =~= ring(buf, start).skip(m) + ring(buf, start).take(m));
}

// ---------------------------------------------------------------------------
// The requester
// ---------------------------------------------------------------------------

/// Listens to the incoming packet ids and request resends if required
pub struct RtpPacketResendRequester {
    /// Last received, valid packet id
    last_packet_id: SequenceNumber<u16>,
    /// Received timestamp of the last valid packet
    last_packet_timestamp: u32,
    /// Current lower end packet id
    pending_index: SequenceNumber<u16>,
    /// Current lower end buffer index
    pending_timestamp_index: usize,
    /// Buffer containing the expected arrival timestamps, used as a ring
    /// that starts at `pending_timestamp_index`.
    pending_timestamps: Vec<u32>,
    nack_delay: u32,
    resend_request_interval: u32,
    /// Events not yet taken, oldest first.
    events: Vec<RtpPacketResendRequesterEvent>,
    /// The length of the resend timer while it runs.
    resend_delay: Option<u32>,
}

/// A requester with a window of `frame_size` packets, all received, that
/// has seen no packet yet.
pub open spec fn initial_requester(frame_size: nat) -> ResendRequesterView {
    ResendRequesterView {
        last_packet_id: 0,
        last_packet_timestamp: 0xFFFF0000,
        pending_index: 0,
        window: Seq::new(frame_size, |k: int| RECEIVED),
        nack_delay: 5,
        resend_request_interval: 25,
        events: Seq::empty(),
        resend_delay: None,
    }
}

/// Whether a frame size can size the window: at least one slot, and twice
/// as many still counted by a `usize`.
pub open spec fn frame_size_ok(n: usize) -> bool {
    0 < n && 2 * n <= usize::MAX
}

/// The ids of a list of sequence numbers, as a plain sequence.
pub open spec fn event_views(v: Seq<RtpPacketResendRequesterEvent>) -> Seq<ResendEventView> {
    v.map_values(|e: RtpPacketResendRequesterEvent| e@)
}

impl View for RtpPacketResendRequester {
    type V = ResendRequesterView;

    closed spec fn view(&self) -> ResendRequesterView {
        ResendRequesterView {
            last_packet_id: self.last_packet_id.packet_id,
            last_packet_timestamp: self.last_packet_timestamp,
            pending_index: self.pending_index.packet_id,
            window: ring(self.pending_timestamps@, self.pending_timestamp_index as int),
            nack_delay: self.nack_delay,
            resend_request_interval: self.resend_request_interval,
            events: event_views(self.events@),
            resend_delay: self.resend_delay,
        }
    }
}

/// `(start + k) % len` for `start, k < len`, without a division.
fn ring_slot(start: usize, k: usize, len: usize) -> (r: usize)
    requires
        start < len,
        k < len,
        2 * len <= usize::MAX,
    ensures
        r == (start + k) % (len as int),
        r < len,
{
    proof { lemma_mod_range(start + k, len as int); }
    if start + k < len {
        start + k
    } else {
        start + k - len
    }
}

/// The id `k` packets after `base`.
fn id_after(base: SequenceNumber<u16>, k: usize) -> (r: SequenceNumber<u16>)
    ensures
        r.packet_id == wrap16(base.packet_id + k),
{
    let r = base.add((k % 0x10000) as u16);
    proof {
        vstd::arithmetic::div_mod::lemma_add_mod_noop_right(base.packet_id as int, k as int, 0x10000);
    }
    r
}

pub proof fn lemma_ids_where_step(base: u16, w: Seq<u32>, j: int, keep: spec_fn(u32) -> bool)
    requires
        0 <= j < w.len(),
    ensures
        ids_where(base, w.take(j + 1), keep) == if keep(w[j]) {
            ids_where(base, w.take(j), keep).push(wrap16(base + j))
        } else {
            ids_where(base, w.take(j), keep)
        },
{
    assert(w.take(j + 1).drop_last() =~= w.take(j));
}

pub proof fn lemma_next_expected_step(w: Seq<u32>, j: int, now: u32)
    requires
        0 <= j < w.len(),
    ensures
        next_expected(w.take(j + 1), now) == if w[j] > now && w[j] < next_expected(w.take(j), now) {
            w[j]
        } else {
            next_expected(w.take(j), now)
        },
{
    assert(w.take(j + 1).drop_last() =~= w.take(j));
}

pub proof fn lemma_ids_where_len(base: u16, w: Seq<u32>, keep: spec_fn(u32) -> bool)
    ensures
        ids_where(base, w, keep).len() <= w.len(),
    decreases w.len(),
{
    if w.len() > 0 {
        lemma_ids_where_len(base, w.drop_last(), keep);
    }
}

/// A ring that holds `v` everywhere holds it from any start.
pub proof fn lemma_ring_constant(buf: Seq<u32>, s: int, t: int, v: u32)
    requires
        0 <= s < buf.len(),
        0 <= t < buf.len(),
        ring(buf, s) == Seq::new(buf.len(), |k: int| v),
    ensures
        ring(buf, t) == Seq::new(buf.len(), |k: int| v),
{
    let n = buf.len() as int;
    assert forall|i: int| 0 <= i < n implies buf[i] == v by {
        let k = if i >= s { i - s } else { i - s + n };
        lemma_mod_range(s + k, n);
        assert(ring(buf, s)[k] == v);
    }
    assert forall|k: int| 0 <= k < n implies #[trigger] ring(buf, t)[k] == v by {
        lemma_mod_range(t + k, n);
    }
    assert(ring(buf, t) =~= Seq::new(buf.len(), |k: int| v));
}

impl RtpPacketResendRequester {
    /// The internal consistency of a requester: a non empty ring that a
    /// `usize` can index twice over, and a start inside it.
    pub closed spec fn wf(&self) -> bool {
        &&& frame_size_ok(self.pending_timestamps@.len() as usize)
        &&& self.pending_timestamps@.len() <= usize::MAX
        &&& self.pending_timestamp_index < self.pending_timestamps@.len()
    }

    pub proof fn lemma_wf(&self)
        requires
            self.wf(),
        ensures
            frame_size_ok(self@.window.len() as usize),
    {
    }

    pub fn new(frame_size: Option<usize>) -> (r: Self)
        requires
            match frame_size {
                Some(n) => frame_size_ok(n),
                None => true,
            },
        ensures
            r.wf(),
            r@ == initial_requester(match frame_size {
                Some(n) => n as nat,
                None => 64,
            }),
    {
        let n = match frame_size {
            Some(n) => n,
            None => 64,
        };
        let mut pending_timestamps: Vec<u32> = Vec::new();
        let mut i: usize = 0;
        while i < n
            invariant
                i <= n,
                pending_timestamps@ =~= Seq::new(i as nat, |k: int| RECEIVED),
            decreases n - i,
        {
            pending_timestamps.push(RECEIVED);
            i = i + 1;
        }
        let r = RtpPacketResendRequester {
            last_packet_id: SequenceNumber::new(0),
            last_packet_timestamp: 0xFFFF0000,
            pending_index: SequenceNumber::new(0),
            pending_timestamp_index: 0,
            pending_timestamps,
            nack_delay: 5,
            resend_request_interval: 25,
            events: Vec::new(),
            resend_delay: None,
        };
        proof {
            assert forall|k: int| 0 <= k < n implies #[trigger] ring(r.pending_timestamps@, 0)[k] == RECEIVED by {
                lemma_small_mod(k as nat, n as nat);
            }
            assert(ring(r.pending_timestamps@, 0) =~= Seq::new(n as nat, |k: int| RECEIVED));
            assert(event_views(r.events@) =~= Seq::empty());
        }
        r
    }

    /// Assume all, not yet received packets as lost. Gives back whether
    /// any packet was pending.
    fn flush_pending_packets(&mut self, emit: bool) -> (had: bool)
        requires
            old(self).wf(),
        ensures
            final(self).wf(),
            final(self)@ == flush_spec(old(self)@, emit),
            had == (ids_where(old(self)@.pending_index, old(self)@.window, not_received()).len() > 0),
            final(self).pending_timestamp_index == old(self).pending_timestamp_index,
            final(self).pending_timestamps@.len() == old(self).pending_timestamps@.len(),
    {
        let ghost w = self@.window;
        let ghost base = self@.pending_index;
        let len = self.pending_timestamps.len();
        let start = self.pending_timestamp_index;
        let mut lost: Vec<SequenceNumber<u16>> = Vec::new();
        let mut j: usize = 0;
        while j < len
            invariant
                self.wf(),
                len == self.pending_timestamps@.len(),
                len == w.len(),
                start == self.pending_timestamp_index,
                j <= len,
                ring(self.pending_timestamps@, start as int) =~= Seq::new(
                    len as nat,
                    |k: int| if k < j { RECEIVED } else { w[k] },
                ),
                ids(lost@) =~= ids_where(base, w.take(j as int), not_received()),
                base == self.pending_index.packet_id,
                w == old(self)@.window,
                self@.events == old(self)@.events,
                self.pending_index == old(self).pending_index,
                self.last_packet_id == old(self).last_packet_id,
                self.last_packet_timestamp == old(self).last_packet_timestamp,
                self.nack_delay == old(self).nack_delay,
                self.resend_request_interval == old(self).resend_request_interval,
                self.resend_delay == old(self).resend_delay,
            decreases len - j,
        {
            let index = ring_slot(start, j, len);
            proof {
                lemma_ids_where_step(base, w, j as int, not_received());
                assert(ring(self.pending_timestamps@, start as int)[j as int] == w[j as int]);
            }
            if self.pending_timestamps[index] != RECEIVED {
                proof { lemma_ring_update(self.pending_timestamps@, start as int, j as int, RECEIVED); }
                self.pending_timestamps.set(index, RECEIVED);
                let id = id_after(self.pending_index, j);
                let ghost before = lost@;
                lost.push(id);
                assert(ids(lost@) =~= ids(before).push(id.packet_id));
            }
            j = j + 1;
        }
        assert(w.take(len as int) =~= w);
        let had = lost.len() > 0;
        if emit && had {
            self.events.push(RtpPacketResendRequesterEvent::PacketTimedOut(lost));
        }
        proof {
            assert(event_views(self.events@) =~= flush_spec(old(self)@, emit).events);
            assert(self@.window =~= Seq::new(len as nat, |k: int| RECEIVED));
        }
        had
    }
}

impl RtpPacketResendRequester {
    /// Moves the window on by `n` packets, expected by `expected`.
    fn shift_window(&mut self, n: usize, expected: u32)
        requires
            old(self).wf(),
            0 < n <= old(self)@.window.len(),
        ensures
            final(self).wf(),
            final(self)@ == shift_spec(old(self)@, n as int, expected),
    {
        let ghost w = self@.window;
        let ghost base = self@.pending_index;
        let len = self.pending_timestamps.len();
        let start = self.pending_timestamp_index;
        let mut lost: Vec<SequenceNumber<u16>> = Vec::new();
        let mut j: usize = 0;
        while j < n
            invariant
                self.wf(),
                len == self.pending_timestamps@.len(),
                len == w.len(),
                start == self.pending_timestamp_index,
                j <= n <= len,
                ring(self.pending_timestamps@, start as int) =~= Seq::new(
                    len as nat,
                    |k: int| if k < j { expected } else { w[k] },
                ),
                ids(lost@) =~= ids_where(base, w.take(j as int), not_received()),
                base == self.pending_index.packet_id,
                w == old(self)@.window,
                self@.events == old(self)@.events,
                self.pending_index == old(self).pending_index,
                self.last_packet_id == old(self).last_packet_id,
                self.last_packet_timestamp == old(self).last_packet_timestamp,
                self.nack_delay == old(self).nack_delay,
                self.resend_request_interval == old(self).resend_request_interval,
                self.resend_delay == old(self).resend_delay,
            decreases n - j,
        {
            let index = ring_slot(start, j, len);
            proof {
                lemma_ids_where_step(base, w, j as int, not_received());
                assert(ring(self.pending_timestamps@, start as int)[j as int] == w[j as int]);
                lemma_ring_update(self.pending_timestamps@, start as int, j as int, expected);
            }
            let previous = self.pending_timestamps[index];
            self.pending_timestamps.set(index, expected);
            if previous != RECEIVED {
                let id = id_after(self.pending_index, j);
                let ghost before = lost@;
                lost.push(id);
                assert(ids(lost@) =~= ids(before).push(id.packet_id));
            }
            j = j + 1;
        }
        let ghost buf = self.pending_timestamps@;
        if lost.len() > 0 {
            self.events.push(RtpPacketResendRequesterEvent::PacketTimedOut(lost));
        }
        self.pending_index = id_after(self.pending_index, n);
        proof { lemma_mod_range(start + n, len as int); }
        self.pending_timestamp_index = if start + n < len { start + n } else { start + n - len };
        proof {
            lemma_ring_rotate(buf, start as int, n as int);
            assert(ring(buf, start as int).skip(n as int) =~= w.skip(n as int));
            assert(ring(buf, start as int).take(n as int) =~= Seq::new(n as nat, |k: int| expected));
            assert(event_views(self.events@) =~= shift_spec(old(self)@, n as int, expected).events);
            assert(self@.window =~= shift_spec(old(self)@, n as int, expected).window);
        }
    }

    /// Overdue packets are asked for again or given up, and the resend
    /// timer is set, unless it runs already.
    fn update_packet_resend_requests(&mut self, now: u32)
        requires
            old(self).wf(),
        ensures
            final(self).wf(),
            final(self)@ == update_spec(old(self)@, now),
    {
        if self.resend_delay.is_some() {
            /* nothing to do, we've already scheduled a resend */
            return;
        }
        let ghost w = self@.window;
        let ghost base = self@.pending_index;
        let len = self.pending_timestamps.len();
        let start = self.pending_timestamp_index;
        let mut lost: Vec<SequenceNumber<u16>> = Vec::new();
        let mut resend: Vec<SequenceNumber<u16>> = Vec::new();
        let mut next_minimal_expected_time: u32 = RECEIVED;
        let mut j: usize = 0;
        while j < len
            invariant
                self.wf(),
                len == self.pending_timestamps@.len(),
                len == w.len(),
                start == self.pending_timestamp_index,
                j <= len,
                ring(self.pending_timestamps@, start as int) =~= Seq::new(
                    len as nat,
                    |k: int| if k < j && expired(now)(w[k]) { RECEIVED } else { w[k] },
                ),
                ids(lost@) =~= ids_where(base, w.take(j as int), expired(now)),
                ids(resend@) =~= ids_where(base, w.take(j as int), resendable(now)),
                next_minimal_expected_time == next_expected(w.take(j as int), now),
                next_minimal_expected_time == RECEIVED || next_minimal_expected_time > now,
                base == self.pending_index.packet_id,
                w == old(self)@.window,
                self@.events == old(self)@.events,
                self.pending_index == old(self).pending_index,
                self.last_packet_id == old(self).last_packet_id,
                self.last_packet_timestamp == old(self).last_packet_timestamp,
                self.nack_delay == old(self).nack_delay,
                self.resend_request_interval == old(self).resend_request_interval,
                self.resend_delay == old(self).resend_delay,
            decreases len - j,
        {
            let index = ring_slot(start, j, len);
            proof {
                lemma_ids_where_step(base, w, j as int, expired(now));
                lemma_ids_where_step(base, w, j as int, resendable(now));
                lemma_next_expected_step(w, j as int, now);
                assert(ring(self.pending_timestamps@, start as int)[j as int] == w[j as int]);
            }
            let t = self.pending_timestamps[index];
            if t <= now {
                let difference = now - t;
                let id = id_after(self.pending_index, j);
                if difference >= 1000 {
                    /* that packet is being lost... don't recover, count as timeout */
                    let ghost before = lost@;
                    lost.push(id);
                    assert(ids(lost@) =~= ids(before).push(id.packet_id));
                    proof { lemma_ring_update(self.pending_timestamps@, start as int, j as int, RECEIVED); }
                    self.pending_timestamps.set(index, RECEIVED);
                } else {
                    let ghost before = resend@;
                    resend.push(id);
                    assert(ids(resend@) =~= ids(before).push(id.packet_id));
                }
            } else if t < next_minimal_expected_time {
                next_minimal_expected_time = t;
            }
            j = j + 1;
        }
        assert(w.take(len as int) =~= w);
        let ghost v = old(self)@;
        let ghost events1 = if ids_where(base, w, expired(now)).len() > 0 {
            v.events.push(ResendEventView::PacketTimedOut(ids_where(base, w, expired(now))))
        } else {
            v.events
        };
        if lost.len() > 0 {
            self.events.push(RtpPacketResendRequesterEvent::PacketTimedOut(lost));
        }
        assert(event_views(self.events@) =~= events1);
        if resend.len() > 0 {
            self.events.push(RtpPacketResendRequesterEvent::ResendPackets(resend));
            self.resend_delay = Some(self.resend_request_interval);
        } else if next_minimal_expected_time != RECEIVED {
            self.resend_delay = Some(next_minimal_expected_time - now);
        }
        proof {
            assert(event_views(self.events@) =~= update_spec(v, now).events);
            assert(self@.window =~= update_spec(v, now).window);
        }
    }
}

impl RtpPacketResendRequester {
    /// Ends the current sequence and starts one that ends at `id`.
    fn restart_sequence(&mut self, id: SequenceNumber<u16>, event: RtpPacketResendRequesterEvent)
        requires
            old(self).wf(),
        ensures
            final(self).wf(),
            final(self)@ == restart_spec(old(self)@, id.packet_id, event@),
    {
        let had_sequence = self.flush_pending_packets(true);
        let len = self.pending_timestamps.len();
        let ghost buf = self.pending_timestamps@;
        let ghost start = self.pending_timestamp_index;
        let first = id.add(1).sub((len % 0x10000) as u16);
        proof {
            let m = 0x10000int;
            lemma_small_mod((len % 0x10000) as nat, 0x10000);
            vstd::arithmetic::div_mod::lemma_sub_mod_noop(id.packet_id + 1, (len % 0x10000) as int, m);
        }
        self.pending_index = first;
        self.pending_timestamp_index = 0;
        proof {
            assert(ring(buf, start as int) =~= Seq::new(buf.len(), |k: int| RECEIVED));
            lemma_ring_constant(buf, start as int, 0, RECEIVED);
        }
        if had_sequence {
            self.events.push(event);
        }
        proof {
            assert(event_views(self.events@) =~= restart_spec(old(self)@, id.packet_id, event@).events);
            assert(self@.window =~= restart_spec(old(self)@, id.packet_id, event@).window);
        }
    }

    /// Registers the arrival of packet `id` at `now`.
    #[verifier::rlimit(50)]
    pub fn handle_packet_received(&mut self, id: SequenceNumber<u16>, now: u32) -> (r: PacketReceivedResult)
        requires
            old(self).wf(),
        ensures
            final(self).wf(),
            (final(self)@, r) == handle_packet_spec(old(self)@, id.packet_id, now),
    {
        let ghost v = self@;
        let len = self.pending_timestamps.len();
        if now.wrapping_sub(self.last_packet_timestamp) > 1000 {
            /* We've not received packets for a quite long time. Marking the old sequence as finished and beginning a new one. */
            self.restart_sequence(id, RtpPacketResendRequesterEvent::SequenceTimedOut);
        } else if id.is_less(&self.pending_index, Some(CLIPPING_WINDOW)) {
            return PacketReceivedResult::PacketTooOld;
        }
        let ghost v1 = self@;
        let mut distance = self.pending_index.difference(&id, Some(CLIPPING_WINDOW)) as usize;
        if distance >= len * 2 {
            /* Assuming we're having a new sequence, or lost more than len packets. */
            self.restart_sequence(id, RtpPacketResendRequesterEvent::SequenceGapped);
            distance = len - 1;
        } else if distance >= len {
            /* new_packets is ideally 1 which means that we've received an in order packet */
            let new_packets = distance - len + 1;
            let expected_arrival_timestamp = now.wrapping_add(self.nack_delay);
            self.shift_window(new_packets, expected_arrival_timestamp);
            distance = len - 1;
        }
        let ghost v2 = self@;
        let ghost buf = self.pending_timestamps@;
        assert(v2.window.len() == len);
        assert(buf.len() == len);
        let index = ring_slot(self.pending_timestamp_index, distance, len);
        proof { lemma_ring_update(buf, self.pending_timestamp_index as int, distance as int, RECEIVED); }
        self.pending_timestamps.set(index, RECEIVED); /* packet has been received */
        self.last_packet_id = id;
        self.last_packet_timestamp = now;
        let ghost v3 = self@;
        assert(v3 == ResendRequesterView {
            window: v2.window.update(distance as int, RECEIVED),
            last_packet_id: id.packet_id,
            last_packet_timestamp: now,
            ..v2
        });
        self.update_packet_resend_requests(now);
        PacketReceivedResult::Success
    }
}

impl RtpPacketResendRequester {
    /// The ring slot at which the window starts.
    pub closed spec fn ring_start(&self) -> int {
        self.pending_timestamp_index as int
    }

    /// Changes the window to `frame_size` packets. Pending packets are
    /// reported as timed out first; then the requester starts over.
    pub fn set_frame_size(&mut self, frame_size: usize)
        requires
            old(self).wf(),
            frame_size_ok(frame_size),
            old(self).ring_start() < frame_size,
        ensures
            final(self).wf(),
            final(self)@ == reset_spec(ResendRequesterView {
                window: Seq::new(frame_size as nat, |k: int| RECEIVED),
                ..flush_spec(old(self)@, true)
            }),
    {
        /* a new frame size starts the window afresh */
        self.flush_pending_packets(true);
        self.pending_timestamps.resize(frame_size, RECEIVED);
        self.reset();
        proof {
            assert(self@.window =~= Seq::new(frame_size as nat, |k: int| RECEIVED));
        }
    }

    pub fn set_nack_delay(&mut self, delay: u32)
        requires
            old(self).wf(),
        ensures
            final(self).wf(),
            final(self)@ == (ResendRequesterView { nack_delay: delay, ..old(self)@ }),
    {
        self.nack_delay = delay;
    }

    pub fn set_resend_interval(&mut self, interval: u32)
        requires
            old(self).wf(),
        ensures
            final(self).wf(),
            final(self)@ == (ResendRequesterView { resend_request_interval: interval, ..old(self)@ }),
    {
        self.resend_request_interval = interval;
    }

    pub fn reset(&mut self)
        requires
            old(self).wf(),
        ensures
            final(self).wf(),
            final(self)@ == reset_spec(old(self)@),
    {
        self.resend_delay = None;
        self.last_packet_id = SequenceNumber::new(0);
        self.last_packet_timestamp = 0xFFFF0000;
        assert(self.pending_timestamps@.len() == old(self)@.window.len());
        self.flush_pending_packets(false);
        self.pending_timestamp_index = 0;
        self.pending_index = self.last_packet_id;
        let len = self.pending_timestamps.len();
        let ghost v = self@;
        let mut i: usize = 0;
        while i < len
            invariant
                i <= len,
                len == self.pending_timestamps@.len(),
                frame_size_ok(len),
                forall|k: int| 0 <= k < i ==> self.pending_timestamps@[k] == RECEIVED,
                self.pending_timestamp_index == 0,
                self.pending_index == self.last_packet_id,
                self.last_packet_id.packet_id == 0,
                self.last_packet_timestamp == 0xFFFF0000,
                self.resend_delay is None,
                event_views(self.events@) == old(self)@.events,
                self.nack_delay == old(self).nack_delay,
                self.resend_request_interval == old(self).resend_request_interval,
                len == old(self)@.window.len(),
            decreases len - i,
        {
            self.pending_timestamps.set(i, RECEIVED);
            i = i + 1;
        }
        proof {
            assert forall|k: int| 0 <= k < len implies #[trigger] ring(self.pending_timestamps@, 0)[k] == RECEIVED by {
                lemma_small_mod(k as nat, len as nat);
            }
            assert(self@.window =~= reset_spec(old(self)@).window);
        }
    }

    pub fn last_packet_id(&self) -> (r: u16)
        ensures
            r == self@.last_packet_id,
    {
        self.last_packet_id.packet_id
    }

    /// Stops the resend timer and forgets the pending packets without
    /// reporting them.
    pub fn reset_resends(&mut self)
        requires
            old(self).wf(),
        ensures
            final(self).wf(),
            final(self)@ == flush_spec(ResendRequesterView { resend_delay: None, ..old(self)@ }, false),
    {
        self.resend_delay = None;
        self.flush_pending_packets(false);
    }

    /// The packets that are overdue at `now`.
    pub fn missing_packets(&self, now: u32) -> (r: Vec<SequenceNumber<u16>>)
        requires
            self.wf(),
        ensures
            ids(r@) == ids_where(self@.pending_index, self@.window, due(now)),
    {
        let ghost w = self@.window;
        let ghost base = self@.pending_index;
        let len = self.pending_timestamps.len();
        let start = self.pending_timestamp_index;
        let mut result: Vec<SequenceNumber<u16>> = Vec::new();
        let mut j: usize = 0;
        while j < len
            invariant
                self.wf(),
                len == self.pending_timestamps@.len(),
                len == w.len(),
                start == self.pending_timestamp_index,
                j <= len,
                w == self@.window,
                base == self.pending_index.packet_id,
                ids(result@) =~= ids_where(base, w.take(j as int), due(now)),
            decreases len - j,
        {
            let index = ring_slot(start, j, len);
            proof { lemma_ids_where_step(base, w, j as int, due(now)); }
            if self.pending_timestamps[index] <= now {
                let id = id_after(self.pending_index, j);
                let ghost before = result@;
                result.push(id);
                assert(ids(result@) =~= ids(before).push(id.packet_id));
            }
            j = j + 1;
        }
        assert(w.take(len as int) =~= w);
        result
    }

    /// Takes the oldest event that has not been taken yet.
    pub fn next_event(&mut self) -> (r: Option<RtpPacketResendRequesterEvent>)
        requires
            old(self).wf(),
        ensures
            final(self).wf(),
            match r {
                Some(e) => first_event(old(self)@) == Some(e@),
                None => first_event(old(self)@) is None,
            },
            final(self)@ == (ResendRequesterView {
                events: if old(self)@.events.len() > 0 { old(self)@.events.drop_first() } else { old(self)@.events },
                ..old(self)@
            }),
    {
        if self.events.len() == 0 {
            None
        } else {
            let e = self.events.remove(0);
            proof {
                assert(event_views(self.events@) =~= event_views(old(self).events@).drop_first());
            }
            Some(e)
        }
    }

    /// How long the resend timer runs, while it runs.
    pub fn resend_delay(&self) -> (r: Option<u32>)
        ensures
            r == self@.resend_delay,
    {
        self.resend_delay
    }

    /// The resend timer ran out at `now`: overdue packets are looked at
    /// again.
    pub fn resend_timer_elapsed(&mut self, now: u32)
        requires
            old(self).wf(),
        ensures
            final(self).wf(),
            final(self)@ == update_spec(ResendRequesterView { resend_delay: None, ..old(self)@ }, now),
    {
        self.resend_delay = None;
        self.update_packet_resend_requests(now);
    }
}

// ---------------------------------------------------------------------------
// An accepted packet is not missing
// ---------------------------------------------------------------------------

/// An id that `ids_where` lists stands for a slot that `keep` selects.
pub proof fn lemma_ids_where_member(base: u16, w: Seq<u32>, keep: spec_fn(u32) -> bool, x: u16)
    requires
        ids_where(base, w, keep).contains(x),
    ensures
        exists|k: int| 0 <= k < w.len() && keep(w[k]) && wrap16(base + k) == x,
    decreases w.len(),
{
    let prev = ids_where(base, w.drop_last(), keep);
    let k = w.len() - 1;
    if keep(w.last()) && x == wrap16(base + k) {
        assert(keep(w[k]) && wrap16(base + k) == x);
    } else {
        if keep(w.last()) {
            let full = prev.push(wrap16(base + k));
            let i = choose|i: int| 0 <= i < full.len() && #[trigger] full[i] == x;
            assert(i < prev.len());
            assert(prev[i] == x);
        }
        assert(prev.contains(x));
        lemma_ids_where_member(base, w.drop_last(), keep, x);
        let j = choose|j: int| 0 <= j < w.drop_last().len() && keep(#[trigger] w.drop_last()[j]) && wrap16(base + j) == x;
        assert(w[j] == w.drop_last()[j]);
    }
}

/// Two slots of a window of at most 2^16 packets stand for different ids.
pub proof fn lemma_wrap16_distinct(base: u16, a: int, b: int)
    requires
        0 <= a < 0x10000,
        0 <= b < 0x10000,
        wrap16(base + a) == wrap16(base + b),
    ensures
        a == b,
{
    lemma_mod_range(base + a, 0x10000);
    lemma_mod_range(base + b, 0x10000);
}

/// A sequence number that is not older than the lower end of the window
/// and within 1024 of it lies that far ahead of it.
pub proof fn lemma_difference_ahead(pending: u16, id: u16)
    requires
        !spec_is_less(id as nat, pending as nat, Some(CLIPPING_WINDOW as nat), 0xFFFF),
        spec_difference(pending as nat, id as nat, Some(CLIPPING_WINDOW as nat), 0xFFFF) < 1024,
    ensures
        wrap16(pending + spec_difference(pending as nat, id as nat, Some(CLIPPING_WINDOW as nat), 0xFFFF)) == id,
{
    let d = spec_difference(pending as nat, id as nat, Some(CLIPPING_WINDOW as nat), 0xFFFF);
    lemma_mod_range(id + 1024, 0x10000);
    assert(0 <= pending + d < 3 * 0x10000);
    lemma_mod_range(pending + d, 0x10000);
}

/// After a restart at `id` the window ends at `id`.
pub proof fn lemma_difference_restart(id: u16, len: int)
    requires
        1 <= len <= 512,
    ensures
        spec_difference(wrap16(id + 1 - len % 0x10000) as nat, id as nat, Some(CLIPPING_WINDOW as nat), 0xFFFF) == len - 1,
        wrap16(wrap16(id + 1 - len % 0x10000) + len - 1) == id,
{
    lemma_small_mod(len as nat, 0x10000);
    if id + 1 - len >= 0 {
        lemma_mod_range(id + 1 - len, 0x10000);
        lemma_mod_range(id + 1 - len + len - 1, 0x10000);
    } else {
        lemma_mod_add_multiples_vanish(id + 1 - len, 0x10000);
        lemma_mod_range(id + 1 - len + 0x10000, 0x10000);
        lemma_mod_range(id + 1 - len + 0x10000 + len - 1, 0x10000);
    }
}

/// A packet that the requester accepts is not among the packets it reports
/// missing at the time the packet arrived, for windows of at most 512
/// packets and any time but the last millisecond of the clock.
pub proof fn lemma_received_packet_not_missing(v: ResendRequesterView, id: u16, now: u32)
    requires
        0 < v.window.len() <= 512,
        now < RECEIVED,
    ensures
        handle_packet_spec(v, id, now).1 == PacketReceivedResult::Success ==> !ids_where(
            handle_packet_spec(v, id, now).0.pending_index,
            handle_packet_spec(v, id, now).0.window,
            due(now),
        ).contains(id),
{
    let len = v.window.len() as int;
    let elapsed = if now >= v.last_packet_timestamp {
        now - v.last_packet_timestamp
    } else {
        now - v.last_packet_timestamp + 0x1_0000_0000
    };
    let timed_out = elapsed > 1000;
    if !timed_out && spec_is_less(id as nat, v.pending_index as nat, Some(CLIPPING_WINDOW as nat), 0xFFFF) {
        return;
    }
    let v1 = if timed_out { restart_spec(v, id, ResendEventView::SequenceTimedOut) } else { v };
    let d = spec_difference(v1.pending_index as nat, id as nat, Some(CLIPPING_WINDOW as nat), 0xFFFF);
    let expected = if now + v.nack_delay < 0x1_0000_0000 {
        now + v.nack_delay
    } else {
        now + v.nack_delay - 0x1_0000_0000
    };
    let v2 = if d >= 2 * len {
        restart_spec(v1, id, ResendEventView::SequenceGapped)
    } else if d >= len {
        shift_spec(v1, d - len + 1, expected as u32)
    } else {
        v1
    };
    let slot = if d >= len { len - 1 } else { d };
    let v3 = ResendRequesterView {
        window: v2.window.update(slot, RECEIVED),
        last_packet_id: id,
        last_packet_timestamp: now,
        ..v2
    };
    let fin = update_spec(v3, now);
    assert(handle_packet_spec(v, id, now) == (fin, PacketReceivedResult::Success));
    assert(v1.window.len() == len);
    assert(v2.window.len() == len);
    // the slot of the packet stands for the packet
    if timed_out {
        lemma_difference_restart(id, len);
    }
    if d >= 2 * len {
        lemma_difference_restart(id, len);
    } else {
        if !timed_out {
            lemma_difference_ahead(v.pending_index, id);
        }
        if d >= len {
            let n = d - len + 1;
            lemma_mod_range(v1.pending_index + n, 0x10000);
            lemma_mod_range(v1.pending_index + d, 0x10000);
            lemma_mod_range(wrap16(v1.pending_index + n) + len - 1, 0x10000);
        }
    }
    assert(wrap16(v3.pending_index + slot) == id);
    assert(fin.window[slot] == RECEIVED);
    assert(fin.pending_index == v3.pending_index);
    if ids_where(fin.pending_index, fin.window, due(now)).contains(id) {
        lemma_ids_where_member(fin.pending_index, fin.window, due(now), id);
        let k = choose|k: int| 0 <= k < fin.window.len() && due(now)(#[trigger] fin.window[k]) && wrap16(fin.pending_index + k) == id;
        lemma_wrap16_distinct(fin.pending_index, k, slot);
    }
}

} // verus!
