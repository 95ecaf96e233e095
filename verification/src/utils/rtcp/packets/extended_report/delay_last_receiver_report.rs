//! Delay since last receiver report blocks (RFC 3611 section 4.5).
use vstd::prelude::*;
use std::collections::BTreeMap;
use vstd::std_specs::iter::IteratorSpec;
use crate::bytes::{ByteReader, be_u16, be_u32, enc_u16, enc_u32, writes, parse_outcome, write_bytes, push_u8,
    push_u16, push_u32, lemma_u16_roundtrip, lemma_u32_roundtrip};
use crate::error::Error;
use crate::utils::rtcp::{sorted_keys, lemma_sorted_keys, lemma_strictly_increasing_unique};
use crate::utils::rtcp::order::{lemma_keys_ordered, lemma_increasing_u32};

verus! {

///   0                   1                   2                   3
///   0 1 2 3 4 5 6 7 8 9 0 1 2 3 4 5 6 7 8 9 0 1 2 3 4 5 6 7 8 9 0 1
///  +-+-+-+-+-+-+-+-+-+-+-+-+-+-+-+-+-+-+-+-+-+-+-+-+-+-+-+-+-+-+-+-+
///  |     BT=5      |   reserved    |         block length          |
///  +=+=+=+=+=+=+=+=+=+=+=+=+=+=+=+=+=+=+=+=+=+=+=+=+=+=+=+=+=+=+=+=+
///  |                 SSRC_1 (SSRC of first receiver)               | sub-
///  +-+-+-+-+-+-+-+-+-+-+-+-+-+-+-+-+-+-+-+-+-+-+-+-+-+-+-+-+-+-+-+-+ block
///  |                         last RR (LRR)                         |   1
///  +-+-+-+-+-+-+-+-+-+-+-+-+-+-+-+-+-+-+-+-+-+-+-+-+-+-+-+-+-+-+-+-+
///  |                   delay since last RR (DLRR)                  |
///  +=+=+=+=+=+=+=+=+=+=+=+=+=+=+=+=+=+=+=+=+=+=+=+=+=+=+=+=+=+=+=+=+
#[derive(Debug, Clone)]
pub struct ExtendedReportDelayLastReceiverReport {
    /// The key is the SSRC,
    /// the first element in the value tuple is the last receiver report timestamp.
    /// The second element is the delay, expressed in units of 1/65536 seconds, between
    /// receiving the last Receiver Reference Time Report Block and sending this DLRR Report Block.
    pub delays: BTreeMap<u32, (u32, u32)>,
}

impl View for ExtendedReportDelayLastReceiverReport {
    type V = Map<u32, (u32, u32)>;

    open spec fn view(&self) -> Map<u32, (u32, u32)> {
        self.delays@
    }
}

/// The entries of `m` for the keys in `keys`, each in twelve bytes.
pub open spec fn delay_list_bytes(keys: Seq<u32>, m: Map<u32, (u32, u32)>) -> Seq<u8>
    decreases keys.len(),
{
    if keys.len() == 0 {
        Seq::empty()
    } else {
        delay_list_bytes(keys.drop_last(), m) + enc_u32(keys.last()) + enc_u32(m[keys.last()].0) + enc_u32(
            m[keys.last()].1,
        )
    }
}

/// The encoding of a delay block: the entries in increasing SSRC order,
/// after a length of three words per entry, modulo 2^16.
pub open spec fn delays_bytes(m: Map<u32, (u32, u32)>) -> Seq<u8> {
    seq![5u8, 0u8] + enc_u16((((m.len() % 0x10000) * 3) % 0x10000) as u16) + delay_list_bytes(
        sorted_keys(m.dom()),
        m,
    )
}

/// The entries in the `n` twelve byte groups of `s` from `start` on, where
/// a later entry for an SSRC replaces an earlier one.
pub open spec fn parsed_delays(s: Seq<u8>, start: int, n: nat) -> Map<u32, (u32, u32)>
    decreases n,
{
    if n == 0 {
        Map::empty()
    } else {
        let k = start + 12 * (n - 1);
        parsed_delays(s, start, (n - 1) as nat).insert(be_u32(s, k), (be_u32(s, k + 4), be_u32(s, k + 8)))
    }
}

/// A delay block decoded from the front of `s`, with the number of bytes it
/// takes, or why there is none. The length field counts words, three per
/// entry; a remainder is refused once the whole entries have been read.
pub open spec fn parse_delays(s: Seq<u8>) -> Result<(Map<u32, (u32, u32)>, int), Error> {
    if s.len() < 1 {
        Err(Error::UnexpectedEof)
    } else if s[0] != 5 {
        Err(Error::UnexpectedPacketType)
    } else if s.len() < 4 {
        Err(Error::UnexpectedEof)
    } else {
        let n = be_u16(s, 2) as int / 3;
        if s.len() < 4 + 12 * n {
            Err(Error::UnexpectedEof)
        } else if be_u16(s, 2) as int % 3 != 0 {
            Err(Error::InvalidLength)
        } else {
            Ok((parsed_delays(s, 4, n as nat), 4 + 12 * n))
        }
    }
}

pub proof fn lemma_delay_list_len(keys: Seq<u32>, m: Map<u32, (u32, u32)>)
    ensures
        delay_list_bytes(keys, m).len() == 12 * keys.len(),
    decreases keys.len(),
{
    if keys.len() > 0 {
        lemma_delay_list_len(keys.drop_last(), m);
    }
}

pub proof fn lemma_delay_list_entry(keys: Seq<u32>, m: Map<u32, (u32, u32)>, j: int)
    requires
        0 <= j < keys.len(),
    ensures
        delay_list_bytes(keys, m).subrange(12 * j, 12 * j + 12) == enc_u32(keys[j]) + enc_u32(m[keys[j]].0)
            + enc_u32(m[keys[j]].1),
    decreases keys.len(),
{
    let prev = keys.drop_last();
    let b = delay_list_bytes(keys, m);
    let a = delay_list_bytes(prev, m);
    lemma_delay_list_len(prev, m);
    let n = 12 * prev.len() as int;
    if j < prev.len() {
        lemma_delay_list_entry(prev, m, j);
        assert(b.subrange(12 * j, 12 * j + 12) =~= a.subrange(12 * j, 12 * j + 12));
    } else {
        assert(b.subrange(n, n + 12) =~= enc_u32(keys.last()) + enc_u32(m[keys.last()].0) + enc_u32(m[keys.last()].1));
    }
}

#[verifier::rlimit(40)]
pub proof fn lemma_parsed_delays_prefix(h: Seq<u8>, keys: Seq<u32>, m: Map<u32, (u32, u32)>, t: Seq<u8>, i: nat)
    requires
        h.len() == 4,
        i <= keys.len(),
        forall|j: int| 0 <= j < keys.len() ==> m.contains_key(#[trigger] keys[j]),
    ensures
        parsed_delays(h + delay_list_bytes(keys, m) + t, 4, i) == m.restrict(
            keys.take(i as int).to_set(),
        ),
    decreases i,
{
    let s = h + delay_list_bytes(keys, m) + t;
    if i == 0 {
        assert(m.restrict(keys.take(0).to_set()) =~= Map::empty());
    } else {
        lemma_parsed_delays_prefix(h, keys, m, t, (i - 1) as nat);
        let j = i - 1;
        lemma_delay_list_len(keys, m);
        lemma_delay_list_entry(keys, m, j);
        let b = delay_list_bytes(keys, m);
        let e = b.subrange(12 * j, 12 * j + 12);
        assert(s.subrange(4 + 12 * j, 4 + 12 * j + 4) =~= e.subrange(0, 4));
        assert(s.subrange(4 + 12 * j + 4, 4 + 12 * j + 8) =~= e.subrange(4, 8));
        assert(s.subrange(4 + 12 * j + 8, 4 + 12 * j + 12) =~= e.subrange(8, 12));
        assert(e.subrange(0, 4) =~= enc_u32(keys[j]));
        assert(e.subrange(4, 8) =~= enc_u32(m[keys[j]].0));
        assert(e.subrange(8, 12) =~= enc_u32(m[keys[j]].1));
        lemma_u32_roundtrip(keys[j], s, 4 + 12 * j);
        lemma_u32_roundtrip(m[keys[j]].0, s, 4 + 12 * j + 4);
        lemma_u32_roundtrip(m[keys[j]].1, s, 4 + 12 * j + 8);
        assert(keys.take(i as int).to_set() =~= keys.take(j).to_set().insert(keys[j])) by {
            assert forall|x: u32| keys.take(i as int).to_set().contains(x) <==> keys.take(j).to_set().insert(keys[j]).contains(x) by {
                if keys.take(i as int).to_set().contains(x) {
                    let k = choose|k: int| 0 <= k < i && keys.take(i as int)[k] == x;
                    if k < j {
                        assert(keys.take(j)[k] == x);
                    }
                }
                if keys.take(j).to_set().contains(x) {
                    let k = choose|k: int| 0 <= k < j && keys.take(j)[k] == x;
                    assert(keys.take(i as int)[k] == x);
                }
                if x == keys[j] {
                    assert(keys.take(i as int)[j] == x);
                }
            }
        }
        assert(m.restrict(keys.take(i as int).to_set()) =~= m.restrict(keys.take(j).to_set()).insert(keys[j], m[keys[j]]));
    }
}

/// Decoding the encoding of a delay block gives it back, when its length
/// field can count its entries.
#[verifier::rlimit(40)]
pub proof fn lemma_delays_roundtrip(m: Map<u32, (u32, u32)>, trailer: Seq<u8>)
    requires
        m.dom().finite(),
        3 * m.len() < 0x10000,
    ensures
        parse_delays(delays_bytes(m) + trailer) == Ok::<(Map<u32, (u32, u32)>, int), Error>(
            (m, delays_bytes(m).len() as int),
        ),
{
    let keys = sorted_keys(m.dom());
    lemma_sorted_keys(m.dom());
    let q = (3 * m.len()) as u16;
    let b = delays_bytes(m);
    let s = b + trailer;
    let body = delay_list_bytes(keys, m);
    lemma_delay_list_len(keys, m);
    assert(s.subrange(2, 4) =~= enc_u16(q));
    lemma_u16_roundtrip(q, s, 2);
    assert forall|j: int| 0 <= j < keys.len() implies m.contains_key(#[trigger] keys[j]) by {
        assert(keys.to_set().contains(keys[j]));
    }
    let h = seq![5u8, 0u8] + enc_u16(q);
    assert(s =~= h + body + trailer);
    lemma_parsed_delays_prefix(h, keys, m, trailer, keys.len());
    assert(keys.take(keys.len() as int) =~= keys);
    assert(m.restrict(keys.to_set()) =~= m);
}

impl ExtendedReportDelayLastReceiverReport {
    pub fn parse(reader: &mut ByteReader) -> (r: Result<ExtendedReportDelayLastReceiverReport, Error>)
        ensures
            final(reader).data() == old(reader).data(),
            parse_outcome(r, parse_delays(old(reader).rest()), old(reader).rest(), final(reader).rest()),
    {
        broadcast use vstd::std_specs::btree::group_btree_axioms;
        let ghost s = reader.rest();
        if reader.read_u8()? != 5 {
            return Err(Error::UnexpectedPacketType);
        }
        let _ = reader.read_u8()?;
        assert(s.skip(1).skip(1) =~= s.skip(2));
        let mut length = reader.read_u16_be()?;
        assert(s.skip(2)[0] == s[2] && s.skip(2)[1] == s[3]);
        assert(s.skip(2).skip(2) =~= s.skip(4));
        let ghost total = length as int;
        let mut delays: BTreeMap<u32, (u32, u32)> = BTreeMap::new();
        let mut i: usize = 0;
        while length > 0
            invariant
                total == be_u16(s, 2),
                length == total - 3 * i,
                0 <= length,
                s == old(reader).rest(),
                s.len() >= 4,
                s[0] == 5,
                s.len() >= 4 + 12 * i,
                reader.data() == old(reader).data(),
                reader.rest() == s.skip(4 + 12 * i),
                delays@ == parsed_delays(s, 4, i as nat),
            decreases length,
        {
            if length < 3 {
                return Err(Error::InvalidLength);
            }
            let ghost k = 4 + 12 * i as int;
            let ssrc = reader.read_u32_be()?;
            let last_rr = reader.read_u32_be()?;
            let delay = reader.read_u32_be()?;
            assert(be_u32(s.skip(k), 0) == be_u32(s, k));
            assert(s.skip(k).skip(4) =~= s.skip(k + 4));
            assert(be_u32(s.skip(k + 4), 0) == be_u32(s, k + 4));
            assert(s.skip(k + 4).skip(4) =~= s.skip(k + 8));
            assert(be_u32(s.skip(k + 8), 0) == be_u32(s, k + 8));
            assert(s.skip(k + 8).skip(4) =~= s.skip(k + 12));
            delays.insert(ssrc, (last_rr, delay));
            length -= 3;
            i = i + 1;
        }
        Ok(ExtendedReportDelayLastReceiverReport { delays })
    }

    pub fn write(&self, buf: &mut [u8], pos: usize) -> (r: Result<usize, Error>)
        requires
            pos <= old(buf)@.len(),
        ensures
            writes(old(buf)@, final(buf)@, pos as int, delays_bytes(self@), r),
    {
        broadcast use vstd::std_specs::btree::group_btree_axioms;
        proof {
            lemma_keys_ordered();
            vstd::std_specs::btree::axiom_spec_btree_map_len(&self.delays);
        }
        let mut out: Vec<u8> = Vec::new();
        push_u8(&mut out, 5);
        push_u8(&mut out, 0);
        let count = (self.delays.len() % 0x10000) as u16;
        push_u16(&mut out, ((count as u32 * 3) % 0x10000) as u16);
        push_delays(&mut out, &self.delays);
        assert(out@ =~= delays_bytes(self@));
        write_bytes(buf, pos, out.as_slice())
    }
}

/// Append the entries of `delays` in increasing SSRC order.
fn push_delays(out: &mut Vec<u8>, delays: &BTreeMap<u32, (u32, u32)>)
    ensures
        final(out)@ == old(out)@ + delay_list_bytes(sorted_keys(delays@.dom()), delays@),
{
    broadcast use vstd::std_specs::btree::group_btree_axioms;
    let ghost m = delays@;
    let ghost start = out@;
    let ghost entries = vstd::std_specs::btree::spec_btree_map_iter(delays).remaining();
    let ghost mut done: int = 0;
    let entry_iter = delays.iter();
    proof {
        lemma_keys_ordered();
        assert(vstd::std_specs::btree::increasing_seq(entries.map_values(|kv: (&u32, &(u32, u32))| *kv.0)));
        lemma_increasing_u32(entries.map_values(|kv: (&u32, &(u32, u32))| *kv.0));
    }
    for kv in it: entry_iter
        invariant
            m == delays@,
            it.seq() == entries,
            entries == vstd::std_specs::btree::spec_btree_map_iter(delays).remaining(),
            done == it.index(),
            out@ == start + delay_list_bytes(entries.take(done).map_values(|kv: (&u32, &(u32, u32))| *kv.0), m),
    {
        let (k, v) = kv;
        let ghost i = it.index() as int;
        let ghost keys_prev = it.seq().take(i).map_values(|kv: (&u32, &(u32, u32))| *kv.0);
        let ghost keys_next = it.seq().take(i + 1).map_values(|kv: (&u32, &(u32, u32))| *kv.0);
        assert(kv == entries[i]);
        proof { vstd::std_specs::btree::axiom_spec_btree_map_iter(delays); }
        assert(0 <= i < entries.len());
        assert(delays@.contains_key(*entries[i].0) && delays@[*entries[i].0] == *entries[i].1);
        assert(m.contains_key(*k) && m[*k] == *v);
        assert(keys_next.drop_last() =~= keys_prev);
        assert(keys_next.last() == *k);
        push_u32(out, *k);
        push_u32(out, v.0);
        push_u32(out, v.1);
        assert(out@ =~= start + delay_list_bytes(keys_next, m));
        proof { done = done + 1; }
    }
    proof {
        let keys = entries.map_values(|kv: (&u32, &(u32, u32))| *kv.0);
        assert(done == entries.len());
        assert(entries.take(done) =~= entries);
        vstd::std_specs::btree::axiom_spec_btree_map_iter(delays);
        lemma_sorted_keys(m.dom());
        assert(keys.to_set() =~= m.dom()) by {
            assert forall|x: u32| keys.to_set().contains(x) <==> m.dom().contains(x) by {
                if keys.to_set().contains(x) {
                    let j = choose|j: int| 0 <= j < keys.len() && keys[j] == x;
                    assert(delays@.contains_key(*entries[j].0));
                }
                if m.dom().contains(x) {
                    assert(entries.contains((&x, &delays@[x])));
                    let j = choose|j: int| 0 <= j < entries.len() && entries[j] == (&x, &delays@[x]);
                    assert(keys[j] == x);
                }
            }
        }
        lemma_strictly_increasing_unique(keys, sorted_keys(m.dom()));
    }
}

} // verus!
