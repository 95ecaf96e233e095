//! Target bitrate blocks, as libWebRTC defines them.
//!
//!   0                   1                   2                   3
//!   0 1 2 3 4 5 6 7 8 9 0 1 2 3 4 5 6 7 8 9 0 1 2 3 4 5 6 7 8 9 0 1
//!  +-+-+-+-+-+-+-+-+-+-+-+-+-+-+-+-+-+-+-+-+-+-+-+-+-+-+-+-+-+-+-+-+
//!  |     BT=42     |   reserved    |         block length          |
//!  +=+=+=+=+=+=+=+=+=+=+=+=+=+=+=+=+=+=+=+=+=+=+=+=+=+=+=+=+=+=+=+=+
//!  |   S   |   T   |                Target Bitrate                 |
//!  +-+-+-+-+-+-+-+-+-+-+-+-+-+-+-+-+-+-+-+-+-+-+-+-+-+-+-+-+-+-+-+-+
//!  :  ...                                                          :
//!
//!  Spatial Layer (S): 4 bits, Temporal Layer (T): 4 bits, Target Bitrate:
//!  24 bits, the encoder target bitrate for this layer, in kbps.
use vstd::prelude::*;
use crate::bytes::{ByteReader, be_u16, be_u24, enc_u16, enc_u24, writes, parse_outcome, write_bytes, push_u8,
    push_u16, push_u24, lemma_u16_roundtrip, lemma_u24_roundtrip};
use crate::error::Error;

verus! {

#[derive(Debug, Clone, Copy, PartialEq, Eq, Structural)]
pub struct TargetBitrateItem {
    pub spatial_layer: u8,
    pub temporal_layer: u8,
    pub bitrate: u32,
}

#[derive(Debug, Clone)]
pub struct ExtendedReportTargetBitrate {
    pub items: Vec<TargetBitrateItem>,
}

impl View for ExtendedReportTargetBitrate {
    type V = Seq<TargetBitrateItem>;

    open spec fn view(&self) -> Seq<TargetBitrateItem> {
        self.items@
    }
}

/// The four bytes of an item: the layers in the two nibbles of the first
/// byte, then the bitrate in 24 bits.
pub open spec fn item_bytes(i: TargetBitrateItem) -> Seq<u8> {
    seq![((i.spatial_layer << 4u8) | (i.temporal_layer & 0xFu8)) as u8] + enc_u24(i.bitrate)
}

pub open spec fn item_list_bytes(items: Seq<TargetBitrateItem>) -> Seq<u8>
    decreases items.len(),
{
    if items.len() == 0 {
        Seq::empty()
    } else {
        item_list_bytes(items.drop_last()) + item_bytes(items.last())
    }
}

/// The encoding of a target bitrate block.
pub open spec fn target_bitrate_bytes(items: Seq<TargetBitrateItem>) -> Seq<u8> {
    seq![42u8, 0u8] + enc_u16((items.len() % 0x10000) as u16) + item_list_bytes(items)
}

/// The item held by the four bytes of `s` from `i` on.
pub open spec fn item_at(s: Seq<u8>, i: int) -> TargetBitrateItem {
    TargetBitrateItem { spatial_layer: s[i] >> 4u8, temporal_layer: s[i] & 0xFu8, bitrate: be_u24(s, i + 1) }
}

/// A target bitrate block decoded from the front of `s`, with the number of
/// bytes it takes, or why there is none. The length field counts the items.
pub open spec fn parse_target_bitrate(s: Seq<u8>) -> Result<(Seq<TargetBitrateItem>, int), Error> {
    if s.len() < 1 {
        Err(Error::UnexpectedEof)
    } else if s[0] != 42 {
        Err(Error::UnexpectedPacketType)
    } else if s.len() < 4 {
        Err(Error::UnexpectedEof)
    } else {
        let count = be_u16(s, 2) as int;
        if s.len() < 4 + 4 * count {
            Err(Error::UnexpectedEof)
        } else {
            Ok((Seq::new(count as nat, |i: int| item_at(s, 4 + 4 * i)), 4 + 4 * count))
        }
    }
}

/// An item that its encoding gives back: layers of four bits and a bitrate
/// of 24.
pub open spec fn item_fits(i: TargetBitrateItem) -> bool {
    i.spatial_layer < 16 && i.temporal_layer < 16 && i.bitrate < 0x1000000
}

pub proof fn lemma_item_list(items: Seq<TargetBitrateItem>, s: Seq<u8>, start: int)
    requires
        0 <= start,
        start + 4 * items.len() <= s.len(),
        s.subrange(start, start + 4 * items.len()) == item_list_bytes(items),
        forall|j: int| 0 <= j < items.len() ==> item_fits(#[trigger] items[j]),
    ensures
        item_list_bytes(items).len() == 4 * items.len(),
        Seq::new(items.len(), |i: int| item_at(s, start + 4 * i)) == items,
    decreases items.len(),
{
    if items.len() > 0 {
        let prev = items.drop_last();
        let n = prev.len() as int;
        lemma_item_list_len(prev);
        assert(s.subrange(start, start + 4 * n) =~= s.subrange(start, start + 4 * items.len()).subrange(0, 4 * n));
        assert(item_list_bytes(items).subrange(0, 4 * n) =~= item_list_bytes(prev));
        assert forall|j: int| 0 <= j < prev.len() implies item_fits(#[trigger] prev[j]) by {
            assert(prev[j] == items[j]);
        }
        lemma_item_list(prev, s, start);
        let last = items.last();
        assert(item_fits(items[items.len() - 1]));
        assert(s.subrange(start + 4 * n, start + 4 * n + 4) =~= item_list_bytes(items).subrange(4 * n, 4 * n + 4));
        assert(item_list_bytes(items).subrange(4 * n, 4 * n + 4) =~= item_bytes(last));
        let b = ((last.spatial_layer << 4u8) | (last.temporal_layer & 0xFu8)) as u8;
        let sp = last.spatial_layer;
        let tp = last.temporal_layer;
        assert(((sp << 4u8) | (tp & 0xFu8)) >> 4u8 == sp && ((sp << 4u8) | (tp & 0xFu8)) & 0xFu8 == tp) by (bit_vector)
            requires
                sp < 16,
                tp < 16,
        ;
        let e = item_bytes(last);
        assert(s.subrange(start + 4 * n, start + 4 * n + 4)[0] == e[0]);
        assert(s[start + 4 * n] == b);
        assert(e.subrange(1, 4) =~= enc_u24(last.bitrate));
        assert(s.subrange(start + 4 * n + 1, start + 4 * n + 4) =~= e.subrange(1, 4));
        lemma_u24_roundtrip(last.bitrate, s, start + 4 * n + 1);
        let got = Seq::new(items.len(), |i: int| item_at(s, start + 4 * i));
        let got_prev = Seq::new(prev.len(), |i: int| item_at(s, start + 4 * i));
        assert forall|i: int| 0 <= i < items.len() implies got[i] == items[i] by {
            if i < n {
                assert(got_prev[i] == prev[i]);
            }
        }
        assert(got =~= items);
    }
}

pub proof fn lemma_item_list_len(items: Seq<TargetBitrateItem>)
    ensures
        item_list_bytes(items).len() == 4 * items.len(),
    decreases items.len(),
{
    if items.len() > 0 {
        lemma_item_list_len(items.drop_last());
    }
}

/// Decoding the encoding of a target bitrate block gives it back, when the
/// length field can count its items and every item fits its fields.
pub proof fn lemma_target_bitrate_roundtrip(items: Seq<TargetBitrateItem>, trailer: Seq<u8>)
    requires
        items.len() < 0x10000,
        forall|j: int| 0 <= j < items.len() ==> item_fits(#[trigger] items[j]),
    ensures
        parse_target_bitrate(target_bitrate_bytes(items) + trailer) == Ok::<(Seq<TargetBitrateItem>, int), Error>(
            (items, target_bitrate_bytes(items).len() as int),
        ),
{
    let s = target_bitrate_bytes(items) + trailer;
    let q = items.len() as u16;
    lemma_item_list_len(items);
    assert(s.subrange(2, 4) =~= enc_u16(q));
    lemma_u16_roundtrip(q, s, 2);
    assert(s.subrange(4, 4 + 4 * items.len() as int) =~= item_list_bytes(items));
    lemma_item_list(items, s, 4);
}

impl ExtendedReportTargetBitrate {
    pub fn parse(reader: &mut ByteReader) -> (r: Result<ExtendedReportTargetBitrate, Error>)
        ensures
            final(reader).data() == old(reader).data(),
            parse_outcome(r, parse_target_bitrate(old(reader).rest()), old(reader).rest(), final(reader).rest()),
    {
        let ghost s = reader.rest();
        if reader.read_u8()? != 42 {
            return Err(Error::UnexpectedPacketType);
        }
        let _ = reader.read_u8()?;
        assert(s.skip(1).skip(1) =~= s.skip(2));
        let length = reader.read_u16_be()? as usize;
        assert(s.skip(2)[0] == s[2] && s.skip(2)[1] == s[3]);
        assert(s.skip(2).skip(2) =~= s.skip(4));
        let mut items: Vec<TargetBitrateItem> = Vec::new();
        let mut i: usize = 0;
        while i < length
            invariant
                i <= length,
                length == be_u16(s, 2),
                s == old(reader).rest(),
                s.len() >= 4,
                s[0] == 42,
                s.len() >= 4 + 4 * i,
                reader.data() == old(reader).data(),
                reader.rest() == s.skip(4 + 4 * i),
                items@ =~= Seq::new(i as nat, |j: int| item_at(s, 4 + 4 * j)),
            decreases length - i,
        {
            let ghost k = 4 + 4 * i as int;
            let info = reader.read_u8()?;
            assert(s.skip(k).skip(1) =~= s.skip(k + 1));
            let bitrate = reader.read_u24_be()?;
            assert(be_u24(s.skip(k + 1), 0) == be_u24(s, k + 1));
            assert(s.skip(k + 1).skip(3) =~= s.skip(k + 4));
            items.push(TargetBitrateItem { bitrate, spatial_layer: info >> 4, temporal_layer: info & 0xF });
            i = i + 1;
        }
        Ok(ExtendedReportTargetBitrate { items })
    }

    pub fn write(&self, buf: &mut [u8], pos: usize) -> (r: Result<usize, Error>)
        requires
            pos <= old(buf)@.len(),
            forall|j: int| 0 <= j < self.items@.len() ==> (#[trigger] self.items@[j]).bitrate < 0x1000000,
        ensures
            writes(old(buf)@, final(buf)@, pos as int, target_bitrate_bytes(self@), r),
    {
        let mut out: Vec<u8> = Vec::new();
        push_u8(&mut out, 42);
        push_u8(&mut out, 0);
        push_u16(&mut out, (self.items.len() % 0x10000) as u16);
        let ghost head = out@;
        let mut i: usize = 0;
        while i < self.items.len()
            invariant
                i <= self.items@.len(),
                out@ == head + item_list_bytes(self.items@.take(i as int)),
            decreases self.items@.len() - i,
        {
            let item = self.items[i];
            push_u8(&mut out, (item.spatial_layer << 4) as u8 | (item.temporal_layer & 0xF) as u8);
            push_u24(&mut out, item.bitrate);
            assert(self.items@.take(i + 1).drop_last() =~= self.items@.take(i as int));
            i = i + 1;
        }
        assert(self.items@.take(i as int) =~= self.items@);
        assert(out@ =~= target_bitrate_bytes(self@));
        write_bytes(buf, pos, out.as_slice())
    }
}

} // verus!
