//! What a media sender shares with the peer connection: the properties it
//! announces for its stream, and how far their negotiation got.
use vstd::prelude::*;
use crate::media::NegotiationState;
use crate::utils::rtcp::packets::{RtcpFeedbackGenericNACK, RtcpTransportFeedback};
use crate::utils::rtcp::packets::transport_feedback::{nack_lost, nacks_lost};
use crate::bytes::{be_u16, be_u32, enc_u16, enc_u32, lemma_u16_roundtrip, lemma_u32_roundtrip};
use crate::utils::rtp::{rtp_read_error, rtp_payload_offset, rtp_payload_length};

verus! {

/// A text that may be absent, as plain characters.
pub open spec fn opt_text(s: Option<String>) -> Option<Seq<char>> {
    match s {
        Some(t) => Some(t@),
        None => None,
    }
}

/// The properties a list of entries holds: the value of each key is that of
/// its last entry.
pub open spec fn props_map(s: Seq<(String, Option<String>)>) -> Map<Seq<char>, Option<Seq<char>>>
    decreases s.len(),
{
    if s.len() == 0 {
        Map::empty()
    } else {
        props_map(s.drop_last()).insert(s.last().0@, opt_text(s.last().1))
    }
}

/// Whether no key occurs twice.
pub open spec fn unique_keys(s: Seq<(String, Option<String>)>) -> bool {
    forall|i: int, j: int| 0 <= i < j < s.len() ==> s[i].0@ != s[j].0@
}

/// The keys of the properties are those of the entries, and with unique
/// keys each entry gives the value of its key.
proof fn lemma_props_map(s: Seq<(String, Option<String>)>)
    ensures
        forall|k: Seq<char>| #[trigger] props_map(s).contains_key(k) <==> exists|i: int| 0 <= i < s.len() && s[i].0@ == k,
        unique_keys(s) ==> forall|i: int| 0 <= i < s.len() ==> props_map(s)[#[trigger] s[i].0@] == opt_text(s[i].1),
    decreases s.len(),
{
    if s.len() > 0 {
        let t = s.drop_last();
        lemma_props_map(t);
        assert forall|k: Seq<char>| #[trigger] props_map(s).contains_key(k) <==> exists|i: int| 0 <= i < s.len() && s[i].0@ == k by {
            if props_map(s).contains_key(k) && k != s.last().0@ {
                let i = choose|i: int| 0 <= i < t.len() && t[i].0@ == k;
                assert(s[i] == t[i]);
            }
            if exists|i: int| 0 <= i < s.len() && s[i].0@ == k {
                let i = choose|i: int| 0 <= i < s.len() && s[i].0@ == k;
                if i < s.len() - 1 {
                    assert(t[i] == s[i]);
                }
            }
        }
        if unique_keys(s) {
            assert forall|i: int| 0 <= i < s.len() implies props_map(s)[#[trigger] s[i].0@] == opt_text(s[i].1) by {
                if i < s.len() - 1 {
                    assert(t[i] == s[i]);
                    assert(s[i].0@ != s[s.len() - 1].0@);
                }
            }
        }
    }
}

/// The entry for `key` set to `v` where it is, or added at the end.
proof fn lemma_props_set(s: Seq<(String, Option<String>)>, t: Seq<(String, Option<String>)>, key: String, v: Option<String>)
    requires
        unique_keys(s),
        t == (if exists|i: int| 0 <= i < s.len() && s[i].0@ == key@ {
            s.update(choose|i: int| 0 <= i < s.len() && s[i].0@ == key@, (key, v))
        } else {
            s.push((key, v))
        }),
    ensures
        unique_keys(t),
        props_map(t) == props_map(s).insert(key@, opt_text(v)),
{
    lemma_props_map(s);
    if exists|i: int| 0 <= i < s.len() && s[i].0@ == key@ {
        let i = choose|i: int| 0 <= i < s.len() && s[i].0@ == key@;
        assert forall|a: int, b: int| 0 <= a < b < t.len() implies t[a].0@ != t[b].0@ by {
            if a == i { assert(s[b].0@ != s[i].0@); }
            if b == i { assert(s[a].0@ != s[i].0@); }
        }
        lemma_props_map(t);
        assert(t[i].0@ == key@);
        assert forall|k: Seq<char>| #[trigger] props_map(t).contains_key(k) <==> props_map(s).insert(key@, opt_text(v)).contains_key(k) by {
            if k == key@ {
                assert(t[i].0@ == k);
            }
            if exists|j: int| 0 <= j < s.len() && s[j].0@ == k {
                let j = choose|j: int| 0 <= j < s.len() && s[j].0@ == k;
                if j != i { assert(t[j] == s[j]); }
            }
            if exists|j: int| 0 <= j < t.len() && t[j].0@ == k {
                let j = choose|j: int| 0 <= j < t.len() && t[j].0@ == k;
                if j != i { assert(t[j] == s[j]); }
            }
        }
        assert forall|k: Seq<char>| #[trigger] props_map(t).contains_key(k) implies props_map(t)[k] == props_map(s).insert(key@, opt_text(v))[k] by {
            let j = choose|j: int| 0 <= j < t.len() && t[j].0@ == k;
            if j != i { assert(t[j] == s[j]); }
        }
        assert(props_map(t) =~= props_map(s).insert(key@, opt_text(v)));
    } else {
        assert forall|a: int, b: int| 0 <= a < b < t.len() implies t[a].0@ != t[b].0@ by {
            if b == s.len() { assert(t[a] == s[a]); }
        }
        assert(t.drop_last() =~= s);
    }
}

/// Removing the entry at `i` removes its key.
proof fn lemma_props_remove(s: Seq<(String, Option<String>)>, i: int)
    requires
        unique_keys(s),
        0 <= i < s.len(),
    ensures
        unique_keys(s.remove(i)),
        props_map(s.remove(i)) == props_map(s).remove(s[i].0@),
{
    let t = s.remove(i);
    lemma_props_map(s);
    assert forall|a: int, b: int| 0 <= a < b < t.len() implies t[a].0@ != t[b].0@ by {
        let a2 = if a < i { a } else { a + 1 };
        let b2 = if b < i { b } else { b + 1 };
        assert(t[a] == s[a2] && t[b] == s[b2]);
    }
    lemma_props_map(t);
    assert forall|k: Seq<char>| #[trigger] props_map(t).contains_key(k) <==> props_map(s).remove(s[i].0@).contains_key(k) by {
        if exists|j: int| 0 <= j < t.len() && t[j].0@ == k {
            let j = choose|j: int| 0 <= j < t.len() && t[j].0@ == k;
            let j2 = if j < i { j } else { j + 1 };
            assert(t[j] == s[j2]);
        }
        if exists|j: int| 0 <= j < s.len() && s[j].0@ == k {
            let j = choose|j: int| 0 <= j < s.len() && s[j].0@ == k;
            if k != s[i].0@ {
                if j < i { assert(t[j] == s[j]); } else { assert(t[j - 1] == s[j]); }
            }
        }
    }
    assert forall|k: Seq<char>| #[trigger] props_map(t).contains_key(k) implies props_map(t)[k] == props_map(s)[k] by {
        let j = choose|j: int| 0 <= j < t.len() && t[j].0@ == k;
        let j2 = if j < i { j } else { j + 1 };
        assert(t[j] == s[j2]);
    }
    assert(props_map(t) =~= props_map(s).remove(s[i].0@));
}

pub struct SharedDataView {
    pub properties: Map<Seq<char>, Option<Seq<char>>>,
    pub negotiation_state: NegotiationState,
}

/// The properties of a media sender and the state of their negotiation.
pub struct MediaSenderSharedData {
    properties: Vec<(String, Option<String>)>,
    negotiation_state: NegotiationState,
}

impl View for MediaSenderSharedData {
    type V = SharedDataView;

    closed spec fn view(&self) -> SharedDataView {
        SharedDataView { properties: props_map(self.properties@), negotiation_state: self.negotiation_state }
    }
}

/// The negotiation state after a change is asked for: a negotiated state
/// that does change becomes changed; others stay.
pub open spec fn changed_state(s: NegotiationState, change_state: bool) -> NegotiationState {
    if s == NegotiationState::Negotiated && change_state {
        NegotiationState::Changed
    } else {
        s
    }
}

/// Whether the properties may change in `s`: not while their change is
/// being propagated.
pub open spec fn may_change(s: NegotiationState) -> bool {
    s != NegotiationState::Propagated
}

/// The key of the channel name, which its user may not change.
pub open spec fn cname_key() -> Seq<char> {
    "cname"@
}

impl MediaSenderSharedData {
    pub closed spec fn wf(&self) -> bool {
        unique_keys(self.properties@)
    }

    /// The entries the properties are kept as, in the order they came.
    pub closed spec fn entries(&self) -> Seq<(String, Option<String>)> {
        self.properties@
    }

    pub proof fn lemma_entries(&self)
        requires
            self.wf(),
        ensures
            unique_keys(self.entries()),
            props_map(self.entries()) == self@.properties,
    {
    }

    pub fn new() -> (r: Self)
        ensures
            r.wf(),
            r@.properties == Map::<Seq<char>, Option<Seq<char>>>::empty(),
            r@.negotiation_state == NegotiationState::Nothing,
    {
        MediaSenderSharedData { properties: Vec::new(), negotiation_state: NegotiationState::Nothing }
    }

    /// Whether the properties may change now; a negotiated state becomes
    /// changed where `change_state` is set.
    pub fn try_change(&mut self, change_state: bool) -> (r: bool)
        ensures
            final(self).wf() == old(self).wf(),
            r == may_change(old(self)@.negotiation_state),
            final(self)@ == (SharedDataView {
                negotiation_state: changed_state(old(self)@.negotiation_state, change_state),
                ..old(self)@
            }),
    {
        match self.negotiation_state {
            NegotiationState::Nothing | NegotiationState::Changed => true,
            NegotiationState::Propagated => false,
            NegotiationState::Negotiated => {
                if change_state {
                    self.negotiation_state = NegotiationState::Changed;
                }
                true
            },
        }
    }

    /// The entries of the properties, each key once.
    pub fn properties(&self) -> (r: &Vec<(String, Option<String>)>)
        ensures
            r@ == self.entries(),
    {
        &self.properties
    }

    pub fn negotiation_state(&self) -> (r: NegotiationState)
        ensures
            r == self@.negotiation_state,
    {
        self.negotiation_state
    }

    /// Whether the properties still have to be negotiated.
    pub fn negotiation_needed(&self) -> (r: bool)
        ensures
            r == (self@.negotiation_state == NegotiationState::Nothing || self@.negotiation_state
                == NegotiationState::Changed),
    {
        matches!(self.negotiation_state, NegotiationState::Nothing | NegotiationState::Changed)
    }

    /// Moves the negotiation to `value` where `test` accepts the current
    /// state.
    pub fn promote_negotiation<T>(&mut self, test: T, value: NegotiationState)
        where T: Fn(NegotiationState) -> bool
        requires
            call_requires(test, (old(self)@.negotiation_state,)),
        ensures
            final(self).wf() == old(self).wf(),
            final(self)@.properties == old(self)@.properties,
            exists|b: bool| call_ensures(test, (old(self)@.negotiation_state,), b)
                && final(self)@.negotiation_state == (if b { value } else { old(self)@.negotiation_state }),
    {
        let b = test(self.negotiation_state);
        if b {
            self.negotiation_state = value;
        }
    }

    /// Sets the property `key` to `value`, whatever the negotiation state.
    pub fn insert_property(&mut self, key: String, value: Option<String>)
        requires
            old(self).wf(),
        ensures
            final(self).wf(),
            final(self)@ == (SharedDataView {
                properties: old(self)@.properties.insert(key@, opt_text(value)),
                ..old(self)@
            }),
    {
        let ghost s = self.properties@;
        let mut i: usize = 0;
        while i < self.properties.len()
            invariant
                self.properties@ == s,
                s == old(self).properties@,
                unique_keys(s),
                i <= s.len(),
                self.negotiation_state == old(self).negotiation_state,
                forall|j: int| 0 <= j < i ==> s[j].0@ != key@,
            decreases s.len() - i,
        {
            if self.properties[i].0 == key {
                proof {
                    assert(exists|j: int| 0 <= j < s.len() && s[j].0@ == key@);
                    let c = choose|j: int| 0 <= j < s.len() && s[j].0@ == key@;
                    if c != i {
                        assert(s[c].0@ == s[i as int].0@);
                    }
                    lemma_props_set(s, s.update(i as int, (key, value)), key, value);
                }
                self.properties.set(i, (key, value));
                return;
            }
            i = i + 1;
        }
        proof { lemma_props_set(s, s.push((key, value)), key, value); }
        self.properties.push((key, value));
    }

    /// Drops every property.
    pub fn clear_properties(&mut self)
        ensures
            final(self).wf(),
            final(self)@ == (SharedDataView {
                properties: Map::<Seq<char>, Option<Seq<char>>>::empty(),
                ..old(self)@
            }),
    {
        self.properties.clear();
        proof { assert(props_map(self.properties@) =~= Map::<Seq<char>, Option<Seq<char>>>::empty()); }
    }

    /// Sets a property on behalf of the sender's user; the channel name
    /// stays, and nothing changes while a change is being propagated.
    /// Gives back whether the properties changed (and the peer is to look
    /// at them).
    pub fn register_property(&mut self, key: String, value: Option<String>) -> (r: bool)
        requires
            old(self).wf(),
        ensures
            final(self).wf(),
            r == (key@ != cname_key() && may_change(old(self)@.negotiation_state)),
            r ==> final(self)@ == (SharedDataView {
                properties: old(self)@.properties.insert(key@, opt_text(value)),
                negotiation_state: changed_state(old(self)@.negotiation_state, true),
            }),
            !r ==> final(self)@ == old(self)@,
    {
        /* you're not allowed to change the channel name */
        if key == String::from_str("cname") {
            return false;
        }
        if !self.try_change(true) {
            return false;
        }
        self.insert_property(key, value);
        true
    }

    /// Drops a property on behalf of the sender's user, unless a change is
    /// being propagated; dropping one that was there changes the
    /// negotiation. Gives back whether the peer is to look at the
    /// properties.
    pub fn unset_property(&mut self, key: &String) -> (r: bool)
        requires
            old(self).wf(),
        ensures
            final(self).wf(),
            r == may_change(old(self)@.negotiation_state),
            r ==> final(self)@ == (SharedDataView {
                properties: old(self)@.properties.remove(key@),
                negotiation_state: changed_state(
                    old(self)@.negotiation_state,
                    old(self)@.properties.contains_key(key@),
                ),
            }),
            !r ==> final(self)@ == old(self)@,
    {
        if !self.try_change(false) {
            return false;
        }
        let ghost s = self.properties@;
        proof { lemma_props_map(s); }
        let mut i: usize = 0;
        while i < self.properties.len()
            invariant
                self.properties@ == s,
                props_map(s) == old(self)@.properties,
                unique_keys(s),
                i <= s.len(),
                self.negotiation_state == old(self).negotiation_state,
                may_change(old(self).negotiation_state),
                forall|j: int| 0 <= j < i ==> s[j].0@ != key@,
            decreases s.len() - i,
        {
            if self.properties[i].0 == *key {
                self.properties.remove(i);
                proof {
                    lemma_props_remove(s, i as int);
                    lemma_props_map(s);
                    assert(props_map(s).contains_key(s[i as int].0@));
                }
                self.try_change(true);
                return true;
            }
            i = i + 1;
        }
        proof { assert(props_map(s).remove(key@) =~= props_map(s)); }
        true
    }
}


/// The packets to send again for transport feedback from the remote
/// receiver: every packet its NACKs mark as lost, in order.
pub fn retransmissions(feedback: &RtcpTransportFeedback) -> (r: Vec<u16>)
    ensures
        r@ == match feedback {
            RtcpTransportFeedback::GenericNACK(nacks) => nacks_lost(nacks@),
        },
{
    let mut out: Vec<u16> = Vec::new();
    match feedback {
        RtcpTransportFeedback::GenericNACK(nacks) => {
            let mut i: usize = 0;
            while i < nacks.len()
                invariant
                    i <= nacks.len(),
                    out@ == nacks_lost(nacks@.take(i as int)),
                decreases nacks.len() - i,
            {
                proof {
                    assert(nacks@.take(i + 1).drop_last() =~= nacks@.take(i as int));
                    assert(nacks@.take(i + 1).last() == nacks@[i as int]);
                }
                let mut lost = nacks[i].lost_packets();
                let ghost start = out@;
                let ghost all = lost@;
                let ghost mut taken: int = 0;
                assert(all == nack_lost(nacks@[i as int]));
                loop
                    invariant
                        0 <= taken <= all.len(),
                        lost@ == all.skip(taken),
                        out@ == start + all.take(taken),
                    ensures
                        out@ == start + all,
                    decreases all.len() - taken,
                {
                    match lost.next() {
                        Some(id) => {
                            out.push(id);
                            proof {
                                assert(all.skip(taken)[0] == id);
                                assert(all.take(taken + 1) =~= all.take(taken).push(id));
                                assert(all.skip(taken).drop_first() =~= all.skip(taken + 1));
                                taken = taken + 1;
                            }
                        },
                        None => {
                            proof { assert(all.take(taken) =~= all); }
                            break;
                        },
                    }
                }
                i = i + 1;
            }
            proof { assert(nacks@.take(nacks@.len() as int) =~= nacks@); }
        },
    }
    out
}


/// The contributing sources, four bytes each, most significant first.
pub open spec fn csrc_bytes(csrcs: Seq<u32>) -> Seq<u8>
    decreases csrcs.len(),
{
    if csrcs.len() == 0 {
        Seq::empty()
    } else {
        csrc_bytes(csrcs.drop_last()) + enc_u32(csrcs.last())
    }
}

/// The RTP packet (RFC 3550 section 5.1, without padding) for these header
/// fields, contributing sources, payload and header extension: version 2,
/// the extension bit and the source count, then the marker bit and the
/// payload type, the sequence number, the timestamp, the source, the
/// contributing sources, the extension (its id, its length in words and
/// its data), and the payload.
pub open spec fn rtp_packet_bytes(
    ssrc: u32,
    payload_type: u8,
    marked: bool,
    csrcs: Seq<u32>,
    sequence: u16,
    timestamp: u32,
    payload: Seq<u8>,
    extension: Option<(u16, Seq<u8>)>,
) -> Seq<u8> {
    seq![
        (0x80u8 | (if extension is Some { 0x10u8 } else { 0u8 }) | csrcs.len() as u8) as u8,
        (if marked { payload_type | 0x80u8 } else { payload_type }) as u8,
    ] + enc_u16(sequence) + enc_u32(timestamp) + enc_u32(ssrc) + csrc_bytes(csrcs) + match extension {
        Some((id, data)) => enc_u16(id) + enc_u16(((data.len() / 4) % 0x10000) as u16) + data,
        None => Seq::empty(),
    } + payload
}

proof fn lemma_csrc_bytes_len(csrcs: Seq<u32>)
    ensures
        csrc_bytes(csrcs).len() == 4 * csrcs.len(),
    decreases csrcs.len(),
{
    if csrcs.len() > 0 {
        lemma_csrc_bytes_len(csrcs.drop_last());
    }
}

/// A packet built for at most fifteen contributing sources, with header
/// extension data (if any) a whole number of words long, reads back as an
/// RTP packet: its sequence number, timestamp and source come back, and its
/// payload is the payload it was built with.
pub proof fn lemma_built_packet_reads_back(
    ssrc: u32,
    payload_type: u8,
    marked: bool,
    csrcs: Seq<u32>,
    sequence: u16,
    timestamp: u32,
    payload: Seq<u8>,
    extension: Option<(u16, Seq<u8>)>,
)
    requires
        csrcs.len() <= 15,
        match extension {
            Some((id, data)) => data.len() % 4 == 0 && data.len() / 4 < 0x10000,
            None => true,
        },
    ensures
        ({
            let b = rtp_packet_bytes(ssrc, payload_type, marked, csrcs, sequence, timestamp, payload, extension);
            &&& rtp_read_error(b) is None
            &&& rtp_payload_offset(b) == rtp_packet_length(
                csrcs.len() as int,
                0,
                match extension {
                    Some((id, data)) => Some(data.len() as int),
                    None => None,
                },
            )
            &&& rtp_payload_length(b) == payload.len()
            &&& b.subrange(rtp_payload_offset(b), rtp_payload_offset(b) + rtp_payload_length(b)) == payload
            &&& be_u16(b, 2) == sequence
            &&& be_u32(b, 4) == timestamp
            &&& be_u32(b, 8) == ssrc
        }),
{
    let b = rtp_packet_bytes(ssrc, payload_type, marked, csrcs, sequence, timestamp, payload, extension);
    let cc = csrcs.len() as u8;
    let e: u8 = if extension is Some { 0x10u8 } else { 0u8 };
    let b0 = (0x80u8 | e | cc) as u8;
    assert(b0 >> 6 == 2 && b0 & 0x0F == cc && b0 & 0x20 == 0 && ((b0 & 0x10 != 0) == (e == 0x10u8))) by (bit_vector)
        requires
            cc < 16,
            e == 0x10u8 || e == 0u8,
            b0 == (0x80u8 | e | cc) as u8,
    ;
    lemma_csrc_bytes_len(csrcs);
    let head = seq![b0, (if marked { payload_type | 0x80u8 } else { payload_type }) as u8] + enc_u16(sequence)
        + enc_u32(timestamp) + enc_u32(ssrc);
    let cb = csrc_bytes(csrcs);
    let xb = match extension {
        Some((id, data)) => enc_u16(id) + enc_u16(((data.len() / 4) % 0x10000) as u16) + data,
        None => Seq::<u8>::empty(),
    };
    assert(b =~= head + cb + xb + payload);
    assert(b[0] == b0);
    assert(b.subrange(2, 4) =~= enc_u16(sequence));
    assert(b.subrange(4, 8) =~= enc_u32(timestamp));
    assert(b.subrange(8, 12) =~= enc_u32(ssrc));
    lemma_u16_roundtrip(sequence, b, 2);
    lemma_u32_roundtrip(timestamp, b, 4);
    lemma_u32_roundtrip(ssrc, b, 8);
    let csrc_end = 12 + 4 * cc as int;
    match extension {
        Some((id, data)) => {
            let q = ((data.len() / 4) % 0x10000) as u16;
            assert(b.subrange(csrc_end + 2, csrc_end + 4) =~= enc_u16(q));
            lemma_u16_roundtrip(q, b, csrc_end + 2);
            assert(4 * q as int == data.len());
        },
        None => {},
    }
    let off = rtp_payload_offset(b);
    assert(off == head.len() + cb.len() + xb.len());
    assert(b.subrange(off, off + payload.len()) =~= payload);
}

/// The size of an RTP packet: the fixed header, four bytes per/// The size of an RTP packet: the fixed header, four bytes per
/// contributing source, the header extension with its four byte header,
/// and the payload.
pub open spec fn rtp_packet_length(csrc_count: int, payload_length: int, extension_length: Option<int>) -> int {
    12 + 4 * csrc_count + payload_length + match extension_length {
        Some(n) => 4 + n,
        None => 0,
    }
}

/// The most bytes a packet may take when it is built.
pub const RTP_BUFFER_LENGTH: usize = 2048;

/// `rtp_rs::RtpPacketBuilder` without a header extension, written with
/// `build_into_unchecked` into a buffer of `RTP_BUFFER_LENGTH` bytes. The
/// contract claims the bytes that `rtp_packet_bytes` states, and their
/// number, as `target_length` counts it; more than fifteen sources or a
/// larger packet would panic.
#[verifier::external_body]
fn build_rtp_packet(ssrc: u32, payload_type: u8, marked: bool, csrcs: &[u32], sequence: u16, timestamp: u32, payload: &[u8]) -> (r: Vec<u8>)
    requires
        csrcs@.len() <= 15,
        rtp_packet_length(csrcs@.len() as int, payload@.len() as int, None) <= RTP_BUFFER_LENGTH,
    ensures
        r@ == rtp_packet_bytes(ssrc, payload_type, marked, csrcs@, sequence, timestamp, payload@, None),
        r@.len() == rtp_packet_length(csrcs@.len() as int, payload@.len() as int, None),
{
    let builder = rtp_rs::RtpPacketBuilder::new().ssrc(ssrc).payload_type(payload_type).marked(marked)
        .set_csrc(csrcs).sequence(rtp_rs::Seq::from(sequence)).timestamp(timestamp).payload(payload);
    let mut buffer = vec![0u8; RTP_BUFFER_LENGTH];
    let size = builder.build_into_unchecked(&mut buffer);
    buffer[0..size].to_vec()
}

/// `rtp_rs::RtpPacketBuilder` with the header extension `id` carrying
/// `data`, written as `build_rtp_packet` writes.
#[verifier::external_body]
fn build_rtp_packet_extended(
    ssrc: u32,
    payload_type: u8,
    marked: bool,
    csrcs: &[u32],
    sequence: u16,
    timestamp: u32,
    payload: &[u8],
    id: u16,
    data: &[u8],
) -> (r: Vec<u8>)
    requires
        csrcs@.len() <= 15,
        rtp_packet_length(csrcs@.len() as int, payload@.len() as int, Some(data@.len() as int)) <= RTP_BUFFER_LENGTH,
    ensures
        r@ == rtp_packet_bytes(ssrc, payload_type, marked, csrcs@, sequence, timestamp, payload@, Some((id, data@))),
        r@.len() == rtp_packet_length(csrcs@.len() as int, payload@.len() as int, Some(data@.len() as int)),
{
    let builder = rtp_rs::RtpPacketBuilder::new().ssrc(ssrc).payload_type(payload_type).marked(marked)
        .set_csrc(csrcs).sequence(rtp_rs::Seq::from(sequence)).timestamp(timestamp).payload(payload)
        .extension(id, data);
    let mut buffer = vec![0u8; RTP_BUFFER_LENGTH];
    let size = builder.build_into_unchecked(&mut buffer);
    buffer[0..size].to_vec()
}

pub struct MediaSenderView {
    pub id: u32,
    pub payload_type: u8,
    pub contributing_sources: Seq<u32>,
    pub sequence_number: u16,
    pub last_send_timestamp: u32,
}

/// The sending side of a stream: its source id, the header fields of the
/// packets it sends, and the sequence number of the next one.
pub struct MediaSender {
    id: u32,
    current_payload_type: u8,
    current_contributing_sources: Vec<u32>,
    current_sequence_number: u16,
    last_send_timestamp: u32,
}

impl View for MediaSender {
    type V = MediaSenderView;

    closed spec fn view(&self) -> MediaSenderView {
        MediaSenderView {
            id: self.id,
            payload_type: self.current_payload_type,
            contributing_sources: self.current_contributing_sources@,
            sequence_number: self.current_sequence_number,
            last_send_timestamp: self.last_send_timestamp,
        }
    }
}

/// Whether a packet with `payload_length` bytes of payload and an
/// extension of `extension_length` bytes can be built for a sender.
pub open spec fn packet_fits(v: MediaSenderView, payload_length: int, extension_length: Option<int>) -> bool {
    v.contributing_sources.len() <= 15 && rtp_packet_length(
        v.contributing_sources.len() as int,
        payload_length,
        extension_length,
    ) <= RTP_BUFFER_LENGTH
}

pub open spec fn extension_view(extension: Option<(u16, &[u8])>) -> Option<(u16, Seq<u8>)> {
    match extension {
        Some((id, data)) => Some((id, data@)),
        None => None,
    }
}

pub open spec fn extension_length(extension: Option<(u16, &[u8])>) -> Option<int> {
    match extension {
        Some((id, data)) => Some(data@.len() as int),
        None => None,
    }
}

impl MediaSender {
    /// A sender of the source `id` that has sent nothing yet.
    pub fn new(id: u32) -> (r: Self)
        ensures
            r@ == (MediaSenderView {
                id,
                payload_type: 0,
                contributing_sources: Seq::empty(),
                sequence_number: 0,
                last_send_timestamp: 0,
            }),
    {
        MediaSender {
            id,
            current_payload_type: 0,
            current_contributing_sources: Vec::new(),
            current_sequence_number: 0,
            last_send_timestamp: 0,
        }
    }

    pub fn id(&self) -> (r: u32)
        ensures
            r == self@.id,
    {
        self.id
    }

    pub fn payload_type(&self) -> (r: u8)
        ensures
            r == self@.payload_type,
    {
        self.current_payload_type
    }

    pub fn set_payload_type(&mut self, payload_type: u8)
        ensures
            final(self)@ == (MediaSenderView { payload_type, ..old(self)@ }),
    {
        self.current_payload_type = payload_type;
    }

    pub fn contributing_sources(&self) -> (r: &Vec<u32>)
        ensures
            r@ == self@.contributing_sources,
    {
        &self.current_contributing_sources
    }

    pub fn set_contributing_sources(&mut self, sources: Vec<u32>)
        ensures
            final(self)@ == (MediaSenderView { contributing_sources: sources@, ..old(self)@ }),
    {
        self.current_contributing_sources = sources;
    }

    pub fn current_sequence_no(&self) -> (r: u16)
        ensures
            r == self@.sequence_number,
    {
        self.current_sequence_number
    }

    pub fn set_current_sequence_no(&mut self, sequence: u16)
        ensures
            final(self)@ == (MediaSenderView { sequence_number: sequence, ..old(self)@ }),
    {
        self.current_sequence_number = sequence;
    }

    pub fn last_send_timestamp(&self) -> (r: u32)
        ensures
            r == self@.last_send_timestamp,
    {
        self.last_send_timestamp
    }

    /// Whether a packet with `payload_length` bytes of payload and an
    /// extension of `extension_length` bytes can be built.
    pub fn packet_fits(&self, payload_length: usize, extension_length: Option<usize>) -> (r: bool)
        ensures
            r == packet_fits(self@, payload_length as int, match extension_length {
                Some(n) => Some(n as int),
                None => None,
            }),
    {
        let sources = self.current_contributing_sources.len();
        if sources > 15 {
            return false;
        }
        let header = 12 + 4 * sources;
        let extension = match extension_length {
            Some(n) => {
                if n > RTP_BUFFER_LENGTH {
                    return false;
                }
                4 + n
            },
            None => 0,
        };
        if payload_length > RTP_BUFFER_LENGTH {
            return false;
        }
        header + payload_length + extension <= RTP_BUFFER_LENGTH
    }

    /// The packet that sends `data` as the sequence number `seq_no`.
    pub fn send_seq(&mut self, data: &[u8], seq_no: u16, marked: bool, timestamp: u32, extension: Option<(u16, &[u8])>) -> (r: Vec<u8>)
        requires
            packet_fits(old(self)@, data@.len() as int, extension_length(extension)),
        ensures
            final(self)@ == (MediaSenderView { last_send_timestamp: timestamp, ..old(self)@ }),
            r@ == rtp_packet_bytes(
                old(self)@.id,
                old(self)@.payload_type,
                marked,
                old(self)@.contributing_sources,
                seq_no,
                timestamp,
                data@,
                extension_view(extension),
            ),
    {
        self.last_send_timestamp = timestamp;
        let sources = self.current_contributing_sources.as_slice();
        match extension {
            Some((id, ext)) => build_rtp_packet_extended(
                self.id,
                self.current_payload_type,
                marked,
                sources,
                seq_no,
                timestamp,
                data,
                id,
                ext,
            ),
            None => build_rtp_packet(self.id, self.current_payload_type, marked, sources, seq_no, timestamp, data),
        }
    }

    /// The packet that sends `data` as the next sequence number, which it
    /// gives back with the packet.
    pub fn send(&mut self, data: &[u8], marked: bool, timestamp: u32, extension: Option<(u16, &[u8])>) -> (r: (u16, Vec<u8>))
        requires
            packet_fits(old(self)@, data@.len() as int, extension_length(extension)),
        ensures
            r.0 == old(self)@.sequence_number,
            final(self)@ == (MediaSenderView {
                sequence_number: (if old(self)@.sequence_number == u16::MAX { 0 } else { (old(self)@.sequence_number + 1) as u16 }),
                last_send_timestamp: timestamp,
                ..old(self)@
            }),
            r.1@ == rtp_packet_bytes(
                old(self)@.id,
                old(self)@.payload_type,
                marked,
                old(self)@.contributing_sources,
                old(self)@.sequence_number,
                timestamp,
                data@,
                extension_view(extension),
            ),
    {
        let sequence_no = self.current_sequence_number;
        self.current_sequence_number = self.current_sequence_number.wrapping_add(1);
        let packet = self.send_seq(data, sequence_no, marked, timestamp, extension);
        (sequence_no, packet)
    }
}

} // verus!
