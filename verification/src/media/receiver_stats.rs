//! Statistics over the RTP packets a receiver gets: the highest sequence
//! number and the bytes received per second over the last minute.
//!
//! The statistics run on a clock of whole seconds that the caller supplies.
use vstd::prelude::*;

verus! {

/// The seconds of history kept. A power of two, so that a second maps to a
/// slot by its low bits.
pub const HISTORY_TIME_SPAN: usize = 64;

#[derive(Debug)]
pub struct ReceiverStats {
    initialized: bool,
    highest_sequence_received: u16,
    highest_sequence_timestamp: u64,
    bandwidth_current_index: usize,
    bandwidth_payload_history: Vec<usize>,
    bandwidth_header_history: Vec<usize>,
}

pub struct ReceiverStatsView {
    pub initialized: bool,
    pub highest_sequence_received: u16,
    pub highest_sequence_timestamp: u64,
    pub bandwidth_current_index: int,
    pub bandwidth_payload_history: Seq<usize>,
    pub bandwidth_header_history: Seq<usize>,
}

/// The statistics with both bandwidth histories cleared.
pub open spec fn bandwidth_reset(v: ReceiverStatsView) -> ReceiverStatsView {
    ReceiverStatsView {
        bandwidth_payload_history: Seq::new(64, |i: int| 0usize),
        bandwidth_header_history: Seq::new(64, |i: int| 0usize),
        ..v
    }
}

impl View for ReceiverStats {
    type V = ReceiverStatsView;

    closed spec fn view(&self) -> ReceiverStatsView {
        ReceiverStatsView {
            initialized: self.initialized,
            highest_sequence_received: self.highest_sequence_received,
            highest_sequence_timestamp: self.highest_sequence_timestamp,
            bandwidth_current_index: self.bandwidth_current_index as int,
            bandwidth_payload_history: self.bandwidth_payload_history@,
            bandwidth_header_history: self.bandwidth_header_history@,
        }
    }
}

/// `a + b` as a `usize` sum wraps.
pub open spec fn add_wrapping(a: usize, b: usize) -> usize {
    if a + b > usize::MAX {
        (a + b - usize::MAX - 1) as usize
    } else {
        (a + b) as usize
    }
}

/// The sum and the count of the first sixty non zero entries of `h`.
pub open spec fn minute_totals(h: Seq<usize>) -> (usize, usize)
    decreases h.len(),
{
    if h.len() == 0 {
        (0, 0)
    } else {
        let (sum, count) = minute_totals(h.drop_last());
        if count < 60 && h.last() > 0 {
            (add_wrapping(sum, h.last()), (count + 1) as usize)
        } else {
            (sum, count)
        }
    }
}

/// The history read from slot `start` on, wrapping at the end.
pub open spec fn from_slot(h: Seq<usize>, start: int) -> Seq<usize> {
    Seq::new(h.len(), |k: int| h[(start + k) % (h.len() as int)])
}

/// The entry of the second before the current one.
pub open spec fn last_second(h: Seq<usize>, current: int) -> usize {
    if current > 0 {
        h[current - 1]
    } else {
        h[h.len() - 1]
    }
}

/// Whether slot `j` lies after `from` and up to `to`, going round.
pub open spec fn passed_slot(from: int, to: int, j: int) -> bool {
    let d = (to - from + 64) % 64;
    let dj = (j - from + 64) % 64;
    0 < dj <= d
}

/// The history with the slots passed on the way from `from` to `to`
/// cleared, and `length` added to slot `to`.
pub open spec fn advance_history(h: Seq<usize>, from: int, to: int, length: usize) -> Seq<usize> {
    let cleared = Seq::new(h.len(), |j: int| if passed_slot(from, to, j) { 0usize } else { h[j] });
    cleared.update(to, add_wrapping(cleared[to], length))
}

/// The statistics after a packet with `packet_id`, a header of
/// `header_length` and a payload of `payload_length` bytes arrived in
/// second `now`. The highest sequence number follows the packet when it is
/// higher, near the wrap, five seconds stale or the first one.
pub open spec fn register_spec(
    v: ReceiverStatsView,
    packet_id: u16,
    header_length: usize,
    payload_length: usize,
    now: u64,
) -> ReceiverStatsView {
    let takes_packet = !v.initialized || packet_id > v.highest_sequence_received
        || v.highest_sequence_received > 0xFF00 || now - v.highest_sequence_timestamp >= 5;
    let slot = (now % 64) as int;
    ReceiverStatsView {
        initialized: true,
        highest_sequence_received: if takes_packet { packet_id } else { v.highest_sequence_received },
        bandwidth_current_index: slot,
        bandwidth_header_history: advance_history(v.bandwidth_header_history, v.bandwidth_current_index, slot, header_length),
        bandwidth_payload_history: advance_history(v.bandwidth_payload_history, v.bandwidth_current_index, slot, payload_length),
        ..v
    }
}

/// The statistics before any packet arrived.
pub open spec fn initial_stats() -> ReceiverStatsView {
    ReceiverStatsView {
        initialized: false,
        highest_sequence_received: 0,
        highest_sequence_timestamp: 0,
        bandwidth_current_index: 0,
        bandwidth_payload_history: Seq::new(64, |i: int| 0usize),
        bandwidth_header_history: Seq::new(64, |i: int| 0usize),
    }
}

impl ReceiverStats {
    /// Two histories of one slot per second and a current slot among them.
    pub closed spec fn wf(&self) -> bool {
        &&& self.bandwidth_payload_history@.len() == HISTORY_TIME_SPAN
        &&& self.bandwidth_header_history@.len() == HISTORY_TIME_SPAN
        &&& self.bandwidth_current_index < HISTORY_TIME_SPAN
        &&& self.highest_sequence_timestamp == 0
    }

    pub proof fn lemma_wf(&self)
        requires
            self.wf(),
        ensures
            self@.bandwidth_payload_history.len() == 64,
            self@.bandwidth_header_history.len() == 64,
            0 <= self@.bandwidth_current_index < 64,
            self@.highest_sequence_timestamp == 0,
    {
    }

    pub fn new() -> (r: Self)
        ensures
            r.wf(),
            r@ == initial_stats(),
    {
        let r = ReceiverStats {
            initialized: false,
            bandwidth_current_index: 0,
            bandwidth_payload_history: vec![0usize; HISTORY_TIME_SPAN],
            bandwidth_header_history: vec![0usize; HISTORY_TIME_SPAN],
            highest_sequence_received: 0,
            highest_sequence_timestamp: 0,
        };
        assert(r@.bandwidth_payload_history =~= Seq::new(64, |i: int| 0usize));
        assert(r@.bandwidth_header_history =~= Seq::new(64, |i: int| 0usize));
        r
    }

    /// The sum and count of the first sixty non zero seconds of `buffer`,
    /// read from the current slot on; their quotient is the average rate
    /// over the last minute.
    fn bandwidth_minute(&self, buffer: &[usize]) -> (r: (usize, usize))
        requires
            self.wf(),
            buffer@.len() == HISTORY_TIME_SPAN,
        ensures
            r == minute_totals(from_slot(buffer@, self@.bandwidth_current_index)),
    {
        let current = self.bandwidth_current_index;
        let ghost h = from_slot(buffer@, current as int);
        let mut index = current;
        let mut count: usize = 0;
        let mut sum: usize = 0;
        let ghost mut k: int = 0;
        proof { vstd::arithmetic::div_mod::lemma_small_mod(current as nat, 64); }
        while count < 60
            invariant_except_break
                index == (current + k) % 64,
                0 <= k < 64,
            invariant
                self.wf(),
                current == self.bandwidth_current_index,
                buffer@.len() == HISTORY_TIME_SPAN,
                h == from_slot(buffer@, current as int),
                0 <= k <= 64,
                (sum, count) == minute_totals(h.take(k)),
                count >= 60 ==> minute_totals(h) == minute_totals(h.take(k)),
            ensures
                (sum, count) == minute_totals(h),
            decreases 64 - k,
        {
            proof {
                assert(h.take(k + 1).drop_last() =~= h.take(k));
                assert(h[k] == buffer@[index as int]);
                lemma_step64(current as int, k);
            }
            if buffer[index] > 0 {
                sum = sum.wrapping_add(buffer[index]);
                count += 1;
            }
            proof { k = k + 1; }
            index += 1;
            if index == current {
                proof { lemma_minute_totals_rest(h, k); }
                break;
            } else if index >= buffer.len() {
                index = 0;
                if current == 0 {
                    proof { lemma_minute_totals_rest(h, k); }
                    break;
                }
            }
            if count >= 60 {
                proof { lemma_minute_totals_rest(h, k); }
            }
        }
        (sum, count)
    }

    fn bandwidth_second(&self, buffer: &[usize]) -> (r: usize)
        requires
            self.wf(),
            buffer@.len() == HISTORY_TIME_SPAN,
        ensures
            r == last_second(buffer@, self@.bandwidth_current_index),
    {
        if self.bandwidth_current_index > 0 {
            buffer[self.bandwidth_current_index - 1]
        } else {
            buffer[buffer.len() - 1]
        }
    }

    /// The header bytes of the last minute: their sum and the number of
    /// seconds in which any arrived.
    pub fn bandwidth_header_minute_totals(&self) -> (r: (usize, usize))
        requires
            self.wf(),
        ensures
            r == minute_totals(from_slot(self@.bandwidth_header_history, self@.bandwidth_current_index)),
    {
        self.bandwidth_minute(self.bandwidth_header_history.as_slice())
    }

    pub fn bandwidth_header_second(&self) -> (r: usize)
        requires
            self.wf(),
        ensures
            r == last_second(self@.bandwidth_header_history, self@.bandwidth_current_index),
    {
        self.bandwidth_second(self.bandwidth_header_history.as_slice())
    }

    /// The payload bytes of the last minute: their sum and the number of
    /// seconds in which any arrived.
    pub fn bandwidth_payload_minute_totals(&self) -> (r: (usize, usize))
        requires
            self.wf(),
        ensures
            r == minute_totals(from_slot(self@.bandwidth_payload_history, self@.bandwidth_current_index)),
    {
        self.bandwidth_minute(self.bandwidth_payload_history.as_slice())
    }

    pub fn bandwidth_payload_second(&self) -> (r: usize)
        requires
            self.wf(),
        ensures
            r == last_second(self@.bandwidth_payload_history, self@.bandwidth_current_index),
    {
        self.bandwidth_second(self.bandwidth_payload_history.as_slice())
    }

    /// Keeps everything as it is.
    pub fn reset(&mut self)
        requires
            old(self).wf(),
        ensures
            final(self).wf(),
            final(self)@ == old(self)@,
    {
    }

    /// Clears both histories.
    pub fn reset_bandwith(&mut self)
        requires
            old(self).wf(),
        ensures
            final(self).wf(),
            final(self)@ == bandwidth_reset(old(self)@),
    {
        let mut i: usize = 0;
        while i < HISTORY_TIME_SPAN
            invariant
                i <= HISTORY_TIME_SPAN,
                self.bandwidth_payload_history@.len() == HISTORY_TIME_SPAN,
                self.bandwidth_header_history@.len() == HISTORY_TIME_SPAN,
                forall|j: int| 0 <= j < i ==> self.bandwidth_payload_history@[j] == 0,
                forall|j: int| 0 <= j < i ==> self.bandwidth_header_history@[j] == 0,
                self.initialized == old(self).initialized,
                self.highest_sequence_received == old(self).highest_sequence_received,
                self.highest_sequence_timestamp == old(self).highest_sequence_timestamp,
                self.bandwidth_current_index == old(self).bandwidth_current_index,
                old(self).wf(),
            decreases HISTORY_TIME_SPAN - i,
        {
            self.bandwidth_payload_history.set(i, 0);
            self.bandwidth_header_history.set(i, 0);
            i = i + 1;
        }
        assert(self@.bandwidth_payload_history =~= Seq::new(64, |i: int| 0usize));
        assert(self@.bandwidth_header_history =~= Seq::new(64, |i: int| 0usize));
    }

    /// Registers a packet that arrived in second `current_seconds`.
    #[verifier::rlimit(40)]
    pub fn register_incoming_rtp(&mut self, packet_id: u16, header_length: usize, payload_length: usize, current_seconds: u64)
        requires
            old(self).wf(),
        ensures
            final(self).wf(),
            final(self)@ == register_spec(old(self)@, packet_id, header_length, payload_length, current_seconds),
    {
        if !self.initialized || packet_id > self.highest_sequence_received || self.highest_sequence_received > 0xFF00
            || current_seconds - self.highest_sequence_timestamp >= 5 {
            self.highest_sequence_received = packet_id;
        }
        self.initialized = true;
        let ghost from = self.bandwidth_current_index as int;
        let ghost highest = self.highest_sequence_received;
        let ghost h0 = self.bandwidth_header_history@;
        let ghost p0 = self.bandwidth_payload_history@;
        let bandwidth_index = ((current_seconds % 0x1_0000_0000) as u32 % HISTORY_TIME_SPAN as u32) as usize;
        assert(bandwidth_index == current_seconds % 64) by {
            vstd::arithmetic::div_mod::lemma_mod_mod(current_seconds as int, 64, 0x400_0000);
        }
        let ghost mut k: int = 0;
        while self.bandwidth_current_index != bandwidth_index
            invariant
                self.bandwidth_payload_history@.len() == HISTORY_TIME_SPAN,
                self.bandwidth_header_history@.len() == HISTORY_TIME_SPAN,
                self.bandwidth_current_index < HISTORY_TIME_SPAN,
                bandwidth_index < 64,
                0 <= from < 64,
                0 <= k < 64,
                self.bandwidth_current_index == (from + k) % 64,
                k <= (bandwidth_index - from + 64) % 64,
                self.bandwidth_header_history@ =~= Seq::new(64, |j: int| if 0 < (j - from + 64) % 64 <= k { 0usize } else { h0[j] }),
                self.bandwidth_payload_history@ =~= Seq::new(64, |j: int| if 0 < (j - from + 64) % 64 <= k { 0usize } else { p0[j] }),
                self.initialized,
                self.highest_sequence_received == highest,
                self.highest_sequence_timestamp == 0,
                h0.len() == 64,
                p0.len() == 64,
            decreases (bandwidth_index - self.bandwidth_current_index + 64) % 64,
        {
            self.bandwidth_current_index += 1;
            if self.bandwidth_current_index >= HISTORY_TIME_SPAN {
                self.bandwidth_current_index = 0;
            }
            self.bandwidth_header_history.set(self.bandwidth_current_index, 0);
            self.bandwidth_payload_history.set(self.bandwidth_current_index, 0);
            proof {
                k = k + 1;
                lemma_ring64(from, k, bandwidth_index as int);
            }
        }
        let i = self.bandwidth_current_index;
        let h = self.bandwidth_header_history[i];
        self.bandwidth_header_history.set(i, h.wrapping_add(header_length));
        let p = self.bandwidth_payload_history[i];
        self.bandwidth_payload_history.set(i, p.wrapping_add(payload_length));
        proof {
            lemma_ring64(from, k, bandwidth_index as int);
        }
        assert(self@.bandwidth_header_history =~= advance_history(h0, from, bandwidth_index as int, header_length));
        assert(self@.bandwidth_payload_history =~= advance_history(p0, from, bandwidth_index as int, payload_length));
    }
}

/// Once sixty seconds are counted, the seconds after them change nothing.
pub proof fn lemma_minute_totals_rest(h: Seq<usize>, k: int)
    requires
        0 <= k <= h.len(),
        minute_totals(h.take(k)).1 >= 60 || k == h.len(),
    ensures
        minute_totals(h) == minute_totals(h.take(k)),
    decreases h.len() - k,
{
    if k < h.len() {
        assert(h.take(k + 1).drop_last() =~= h.take(k));
        lemma_minute_totals_rest(h, k + 1);
    } else {
        assert(h.take(k) =~= h);
    }
}

/// One step round the sixty four slots, from `c + k`.
pub proof fn lemma_step64(c: int, k: int)
    requires
        0 <= c < 64,
        0 <= k < 64,
    ensures
        (c + k) % 64 + 1 == 64 ==> (c + k + 1) % 64 == 0,
        (c + k) % 64 + 1 < 64 ==> (c + k + 1) % 64 == (c + k) % 64 + 1,
        ((c + k + 1) % 64 == c) <==> (k + 1 == 64),
        0 <= (c + k) % 64 < 64,
{
    lemma_ring64(c, k, 0);
    if k + 1 < 64 {
        lemma_ring64(c, k + 1, 0);
    } else {
        vstd::arithmetic::div_mod::lemma_small_mod(c as nat, 64);
        vstd::arithmetic::div_mod::lemma_mod_add_multiples_vanish(c, 64);
    }
}

/// Stepping round the sixty four slots.
pub proof fn lemma_ring64(from: int, k: int, to: int)
    requires
        0 <= from < 64,
        0 <= to < 64,
        0 <= k < 64,
    ensures
        (from + k) % 64 == if from + k < 64 { from + k } else { from + k - 64 },
        ((from + k) % 64 == to) <==> (k == (to - from + 64) % 64),
{
    if from + k < 64 {
        vstd::arithmetic::div_mod::lemma_small_mod((from + k) as nat, 64);
    } else {
        vstd::arithmetic::div_mod::lemma_small_mod((from + k - 64) as nat, 64);
        vstd::arithmetic::div_mod::lemma_mod_add_multiples_vanish(from + k - 64, 64);
    }
    if to - from + 64 < 64 {
        vstd::arithmetic::div_mod::lemma_small_mod((to - from + 64) as nat, 64);
    } else {
        vstd::arithmetic::div_mod::lemma_small_mod((to - from) as nat, 64);
        vstd::arithmetic::div_mod::lemma_mod_add_multiples_vanish(to - from, 64);
    }
}

} // verus!
