//! Source description packets (RFC 3550 section 6.5).
//!
//!         0                   1                   2                   3
//!         0 1 2 3 4 5 6 7 8 9 0 1 2 3 4 5 6 7 8 9 0 1 2 3 4 5 6 7 8 9 0 1
//!        +-+-+-+-+-+-+-+-+-+-+-+-+-+-+-+-+-+-+-+-+-+-+-+-+-+-+-+-+-+-+-+-+
//! header |V=2|P|    SC   |  PT=SDES=202  |             length            |
//!        +=+=+=+=+=+=+=+=+=+=+=+=+=+=+=+=+=+=+=+=+=+=+=+=+=+=+=+=+=+=+=+=+
//! chunk  |                          SSRC/CSRC_1                          |
//!   1    +-+-+-+-+-+-+-+-+-+-+-+-+-+-+-+-+-+-+-+-+-+-+-+-+-+-+-+-+-+-+-+-+
//!        |                           SDES items                          |
//!        |                              ...                              |
//!        +=+=+=+=+=+=+=+=+=+=+=+=+=+=+=+=+=+=+=+=+=+=+=+=+=+=+=+=+=+=+=+=+
use vstd::prelude::*;
use vstd::utf8::encode_utf8;
use crate::bytes::{ByteReader, be_u16, be_u32, enc_u16, enc_u32, written, write_result, writes, parse_outcome,
    write_bytes, push_u8, push_u16, push_u32, push_bytes, lemma_u16_roundtrip, lemma_u32_roundtrip};
use crate::error::Error;
use crate::text::{string_from_utf8, string_bytes, text_of, lemma_text_roundtrip};
use crate::utils::rtcp::{header_error, read_header, info_byte, make_info_byte, lemma_info_byte};

verus! {

#[derive(Clone, Copy, Debug, PartialEq, Eq, Structural)]
pub enum SourceDescriptionType {
    CName,
    Name,
    Email,
    Phone,
    Location,
    Tool,
    Note,
    Private,
}

pub open spec fn description_type_from(ptype: u8) -> Option<SourceDescriptionType> {
    if ptype == 1 {
        Some(SourceDescriptionType::CName)
    } else if ptype == 2 {
        Some(SourceDescriptionType::Name)
    } else if ptype == 3 {
        Some(SourceDescriptionType::Email)
    } else if ptype == 4 {
        Some(SourceDescriptionType::Phone)
    } else if ptype == 5 {
        Some(SourceDescriptionType::Location)
    } else if ptype == 6 {
        Some(SourceDescriptionType::Tool)
    } else if ptype == 7 {
        Some(SourceDescriptionType::Note)
    } else if ptype == 8 {
        Some(SourceDescriptionType::Private)
    } else {
        None
    }
}

pub open spec fn description_type_value(t: SourceDescriptionType) -> u8 {
    match t {
        SourceDescriptionType::CName => 1,
        SourceDescriptionType::Name => 2,
        SourceDescriptionType::Email => 3,
        SourceDescriptionType::Phone => 4,
        SourceDescriptionType::Location => 5,
        SourceDescriptionType::Tool => 6,
        SourceDescriptionType::Note => 7,
        SourceDescriptionType::Private => 8,
    }
}

/// Every description type comes back from its value.
pub proof fn lemma_description_type_roundtrip(t: SourceDescriptionType)
    ensures
        description_type_from(description_type_value(t)) == Some(t),
{
}

impl SourceDescriptionType {
    pub fn from(ptype: u8) -> (r: Option<SourceDescriptionType>)
        ensures
            r == description_type_from(ptype),
    {
        match ptype {
            1 => Some(SourceDescriptionType::CName),
            2 => Some(SourceDescriptionType::Name),
            3 => Some(SourceDescriptionType::Email),
            4 => Some(SourceDescriptionType::Phone),
            5 => Some(SourceDescriptionType::Location),
            6 => Some(SourceDescriptionType::Tool),
            7 => Some(SourceDescriptionType::Note),
            8 => Some(SourceDescriptionType::Private),
            _ => None,
        }
    }

    pub fn value(&self) -> (r: u8)
        ensures
            r == description_type_value(*self),
    {
        match self {
            SourceDescriptionType::CName => 1,
            SourceDescriptionType::Name => 2,
            SourceDescriptionType::Email => 3,
            SourceDescriptionType::Phone => 4,
            SourceDescriptionType::Location => 5,
            SourceDescriptionType::Tool => 6,
            SourceDescriptionType::Note => 7,
            SourceDescriptionType::Private => 8,
        }
    }
}

#[derive(Clone, Debug, PartialEq)]
pub enum SourceDescription {
    /// https://tools.ietf.org/html/rfc3550#section-6.5.1
    CName(String),
    /// https://tools.ietf.org/html/rfc3550#section-6.5.2
    Name(String),
    /// https://tools.ietf.org/html/rfc3550#section-6.5.3
    Email(String),
    /// https://tools.ietf.org/html/rfc3550#section-6.5.4
    Phone(String),
    /// https://tools.ietf.org/html/rfc3550#section-6.5.5
    Location(String),
    /// https://tools.ietf.org/html/rfc3550#section-6.5.6
    Tool(String),
    /// https://tools.ietf.org/html/rfc3550#section-6.5.7
    Note(String),
    /// https://tools.ietf.org/html/rfc3550#section-6.5.7
    Private { prefix: String, value: String },
}

/// A description as its type and texts; only private descriptions have a
/// prefix.
pub struct SourceDescriptionView {
    pub kind: SourceDescriptionType,
    pub value: Seq<char>,
    pub prefix: Seq<char>,
}

impl View for SourceDescription {
    type V = SourceDescriptionView;

    open spec fn view(&self) -> SourceDescriptionView {
        match self {
            SourceDescription::CName(v) => SourceDescriptionView { kind: SourceDescriptionType::CName, value: v@, prefix: Seq::empty() },
            SourceDescription::Name(v) => SourceDescriptionView { kind: SourceDescriptionType::Name, value: v@, prefix: Seq::empty() },
            SourceDescription::Email(v) => SourceDescriptionView { kind: SourceDescriptionType::Email, value: v@, prefix: Seq::empty() },
            SourceDescription::Phone(v) => SourceDescriptionView { kind: SourceDescriptionType::Phone, value: v@, prefix: Seq::empty() },
            SourceDescription::Location(v) => SourceDescriptionView { kind: SourceDescriptionType::Location, value: v@, prefix: Seq::empty() },
            SourceDescription::Tool(v) => SourceDescriptionView { kind: SourceDescriptionType::Tool, value: v@, prefix: Seq::empty() },
            SourceDescription::Note(v) => SourceDescriptionView { kind: SourceDescriptionType::Note, value: v@, prefix: Seq::empty() },
            SourceDescription::Private { prefix, value } => SourceDescriptionView {
                kind: SourceDescriptionType::Private,
                value: value@,
                prefix: prefix@,
            },
        }
    }
}

/// The size of a description without its padding.
pub open spec fn description_size(d: SourceDescriptionView) -> int {
    if d.kind == SourceDescriptionType::Private {
        3 + encode_utf8(d.prefix).len() as int + encode_utf8(d.value).len() as int
    } else {
        2 + encode_utf8(d.value).len() as int
    }
}

/// A description whose length byte can count its text.
pub open spec fn description_fits(d: SourceDescriptionView) -> bool {
    description_size(d) <= 257
}

/// The zero bytes that pad `n` bytes to a whole number of words.
pub open spec fn zero_padding(n: int) -> Seq<u8> {
    Seq::new(((4 - n % 4) % 4) as nat, |i: int| 0u8)
}

/// `n` rounded up to a whole number of 32-bit words.
pub open spec fn padded(n: int) -> int {
    n + (4 - n % 4) % 4
}

/// The encoding of a description that fits, zero-padded to a 32-bit
/// boundary.
pub open spec fn description_bytes(d: SourceDescriptionView) -> Seq<u8> {
    seq![description_type_value(d.kind)] + if d.kind == SourceDescriptionType::Private {
        seq![(1 + encode_utf8(d.prefix).len() + encode_utf8(d.value).len()) as u8, encode_utf8(d.prefix).len() as u8]
            + encode_utf8(d.prefix) + encode_utf8(d.value)
    } else {
        seq![encode_utf8(d.value).len() as u8] + encode_utf8(d.value)
    } + zero_padding(description_size(d))
}

/// What writing a description puts out: its encoding when it fits, else
/// its type byte alone.
pub open spec fn description_output(d: SourceDescriptionView) -> Seq<u8> {
    if description_fits(d) {
        description_bytes(d)
    } else {
        seq![description_type_value(d.kind)]
    }
}

/// The prefix and the value held by the content `c` of a private
/// description (RFC 3550 section 6.5.8): a prefix length byte, the prefix,
/// then the value; or why they cannot be read.
pub open spec fn parse_private(c: Seq<u8>) -> Result<(Seq<char>, Seq<char>), Error> {
    if c.len() < 1 || c.len() < 1 + c[0] {
        Err(Error::InvalidLength)
    } else {
        match text_of(c.subrange(1, 1 + c[0] as int)) {
            None => Err(Error::InvalidUtf8),
            Some(prefix) => match text_of(c.subrange(1 + c[0] as int, c.len() as int)) {
                None => Err(Error::InvalidUtf8),
                Some(value) => Ok((prefix, value)),
            },
        }
    }
}

/// A description decoded from the front of `s`, with the number of bytes
/// it takes (its padding is left unread), or why there is none. The text of
/// a description that is not private is checked before its type.
pub open spec fn parse_description(s: Seq<u8>) -> Result<(SourceDescriptionView, int), Error> {
    if s.len() < 2 {
        Err(Error::UnexpectedEof)
    } else {
        let length = s[1] as int;
        if s.len() < 2 + length {
            Err(Error::UnexpectedEof)
        } else if description_type_from(s[0]) == Some(SourceDescriptionType::Private) {
            match parse_private(s.subrange(2, 2 + length)) {
                Err(e) => Err(e),
                Ok((prefix, value)) => Ok((SourceDescriptionView { kind: SourceDescriptionType::Private, value, prefix }, 2 + length)),
            }
        } else {
            match text_of(s.subrange(2, 2 + length)) {
                None => Err(Error::InvalidUtf8),
                Some(value) => match description_type_from(s[0]) {
                    None => Err(Error::UnknownType),
                    Some(kind) => Ok((SourceDescriptionView { kind, value, prefix: Seq::empty() }, 2 + length)),
                },
            }
        }
    }
}

/// A description that decoding its encoding gives back: it fits its length
/// byte, and only a private description has a prefix.
pub open spec fn description_roundtrips(d: SourceDescriptionView) -> bool {
    &&& description_fits(d)
    &&& d.kind != SourceDescriptionType::Private ==> d.prefix.len() == 0
}

/// Decoding the encoding of a description gives it back; the padding after
/// it is left unread.
pub proof fn lemma_description_roundtrip(d: SourceDescriptionView, trailer: Seq<u8>)
    requires
        description_roundtrips(d),
    ensures
        parse_description(description_bytes(d) + trailer) == Ok::<(SourceDescriptionView, int), Error>(
            (d, description_size(d)),
        ),
{
    let t = encode_utf8(d.value);
    let s = description_bytes(d) + trailer;
    lemma_text_roundtrip(d.value);
    lemma_description_type_roundtrip(d.kind);
    if d.kind == SourceDescriptionType::Private {
        let pb = encode_utf8(d.prefix);
        let len: int = 1 + pb.len() as int + t.len() as int;
        lemma_text_roundtrip(d.prefix);
        assert(s[1] == len as u8);
        let c = s.subrange(2, 2 + len);
        assert(c =~= seq![pb.len() as u8] + pb + t);
        assert(c.subrange(1, 1 + c[0] as int) =~= pb);
        assert(c.subrange(1 + c[0] as int, c.len() as int) =~= t);
    } else {
        assert(s[1] == t.len() as u8);
        assert(s.subrange(2, 2 + t.len() as int) =~= t);
        assert(d.prefix =~= Seq::<char>::empty());
    }
}

impl SourceDescription {
    pub fn parse(reader: &mut ByteReader) -> (r: Result<SourceDescription, Error>)
        ensures
            final(reader).data() == old(reader).data(),
            parse_outcome(r, parse_description(old(reader).rest()), old(reader).rest(), final(reader).rest()),
    {
        let ghost s = reader.rest();
        let description_type = reader.read_u8()?;
        let total_length = reader.read_u8()? as usize;
        assert(s.skip(1)[0] == s[1]);
        assert(s.skip(1).skip(1) =~= s.skip(2));
        let str_buffer = reader.read_vec(total_length)?;
        assert(str_buffer@ =~= s.subrange(2, 2 + total_length as int));
        assert(s.skip(2).skip(total_length as int) =~= s.skip(2 + total_length as int));
        if description_type == 8 {
            if total_length < 1 || total_length < 1 + str_buffer[0] as usize {
                return Err(Error::InvalidLength);
            }
            let prefix_end = 1 + str_buffer[0] as usize;
            let prefix_bytes = vstd::slice::slice_to_vec(vstd::slice::slice_subrange(str_buffer.as_slice(), 1, prefix_end));
            let value_bytes = vstd::slice::slice_to_vec(
                vstd::slice::slice_subrange(str_buffer.as_slice(), prefix_end, total_length),
            );
            let prefix = match string_from_utf8(prefix_bytes) {
                Some(v) => v,
                None => return Err(Error::InvalidUtf8),
            };
            let value = match string_from_utf8(value_bytes) {
                Some(v) => v,
                None => return Err(Error::InvalidUtf8),
            };
            return Ok(SourceDescription::Private { prefix, value });
        }
        let value = match string_from_utf8(str_buffer) {
            Some(v) => v,
            None => return Err(Error::InvalidUtf8),
        };
        let description_type = match SourceDescriptionType::from(description_type) {
            Some(t) => t,
            None => return Err(Error::UnknownType),
        };
        Ok(match description_type {
            SourceDescriptionType::CName => SourceDescription::CName(value),
            SourceDescriptionType::Name => SourceDescription::Name(value),
            SourceDescriptionType::Email => SourceDescription::Email(value),
            SourceDescriptionType::Phone => SourceDescription::Phone(value),
            SourceDescriptionType::Location => SourceDescription::Location(value),
            SourceDescriptionType::Tool => SourceDescription::Tool(value),
            SourceDescriptionType::Note => SourceDescription::Note(value),
            SourceDescriptionType::Private => {
                /* a private description was read above */
                return Err(Error::UnknownType);
            },
        })
    }

    /// The size of the description without its padding.
    pub fn byte_size(&self) -> (r: usize)
        requires
            description_size(self@) <= usize::MAX,
        ensures
            r == description_size(self@),
    {
        match self {
            SourceDescription::Private { prefix, value } => 3 + string_bytes(prefix).len() + string_bytes(value).len(),
            _ => 2 + string_bytes(self.description_value()).len(),
        }
    }

    pub fn description_type(&self) -> (r: SourceDescriptionType)
        ensures
            r == self@.kind,
    {
        match self {
            SourceDescription::CName(..) => SourceDescriptionType::CName,
            SourceDescription::Name(..) => SourceDescriptionType::Name,
            SourceDescription::Email(..) => SourceDescriptionType::Email,
            SourceDescription::Phone(..) => SourceDescriptionType::Phone,
            SourceDescription::Location(..) => SourceDescriptionType::Location,
            SourceDescription::Tool(..) => SourceDescriptionType::Tool,
            SourceDescription::Note(..) => SourceDescriptionType::Note,
            SourceDescription::Private { .. } => SourceDescriptionType::Private,
        }
    }

    /// The text of a description that is not private.
    fn description_value(&self) -> (r: &String)
        requires
            self@.kind != SourceDescriptionType::Private,
        ensures
            r@ == self@.value,
    {
        match self {
            SourceDescription::CName(value) => value,
            SourceDescription::Name(value) => value,
            SourceDescription::Email(value) => value,
            SourceDescription::Phone(value) => value,
            SourceDescription::Location(value) => value,
            SourceDescription::Tool(value) => value,
            SourceDescription::Note(value) => value,
            SourceDescription::Private { value, .. } => value,
        }
    }

    /// Appends what writing the description puts out, and tells whether it
    /// fit.
    fn write_to(&self, out: &mut Vec<u8>) -> (ok: bool)
        requires
            description_size(self@) <= usize::MAX,
        ensures
            ok == description_fits(self@),
            final(out)@ == old(out)@ + description_output(self@),
    {
        let ghost d = self@;
        let ghost start = out@;
        push_u8(out, self.description_type().value());
        let bytes_written = match self {
            SourceDescription::Private { prefix, value } => {
                let p = string_bytes(prefix);
                let v = string_bytes(value);
                let total_length = 1 + v.len() + p.len();
                if total_length > 255 {
                    return false;
                }
                push_u8(out, total_length as u8);
                push_u8(out, p.len() as u8);
                push_bytes(out, p);
                push_bytes(out, v);
                total_length + 2
            },
            _ => {
                let value = string_bytes(self.description_value());
                if value.len() > 255 {
                    return false;
                }
                push_u8(out, value.len() as u8);
                push_bytes(out, value);
                value.len() + 2
            },
        };
        assert(bytes_written == description_size(d));
        let padding = (4 - bytes_written % 4) % 4;
        let ghost body = out@;
        let mut j: usize = 0;
        while j < padding
            invariant
                j <= padding,
                out@ == body + Seq::new(j as nat, |k: int| 0u8),
            decreases padding - j,
        {
            push_u8(out, 0);
            assert(Seq::new((j + 1) as nat, |k: int| 0u8) =~= Seq::new(j as nat, |k: int| 0u8) + seq![0u8]);
            j = j + 1;
        }
        assert(out@ =~= start + description_bytes(d));
        true
    }

    /// Writes the description at `pos`. A text too long for its length byte
    /// is refused after the type byte has been written.
    pub fn write(&self, buf: &mut [u8], pos: usize) -> (r: Result<usize, Error>)
        requires
            pos <= old(buf)@.len(),
            description_size(self@) <= usize::MAX,
        ensures
            final(buf)@ == written(old(buf)@, pos as int, description_output(self@)),
            description_fits(self@) ==> writes(old(buf)@, final(buf)@, pos as int, description_output(self@), r)
                && description_output(self@).len() == padded(description_size(self@)),
            !description_fits(self@) ==> r == if write_result(old(buf)@.len() as int, pos as int, description_output(self@)) is Ok {
                Err::<usize, Error>(Error::ValueTooLong)
            } else {
                Err::<usize, Error>(Error::WriteZero)
            },
    {
        let mut out: Vec<u8> = Vec::new();
        let ok = self.write_to(&mut out);
        assert(out@ =~= description_output(self@));
        proof {
            if ok {
                lemma_description_bytes_len(self@);
            }
        }
        let r = write_bytes(buf, pos, out.as_slice());
        if ok {
            r
        } else {
            match r {
                Ok(_) => Err(Error::ValueTooLong),
                Err(e) => Err(e),
            }
        }
    }
}

#[derive(Clone, Debug)]
pub struct RtcpPacketSourceDescription {
    pub descriptions: Vec<(u32, SourceDescription)>,
}

/// The chunks of a source description packet: SSRCs with their description.
pub open spec fn chunk_views(v: Seq<(u32, SourceDescription)>) -> Seq<(u32, SourceDescriptionView)> {
    v.map_values(|c: (u32, SourceDescription)| (c.0, c.1@))
}

impl View for RtcpPacketSourceDescription {
    type V = Seq<(u32, SourceDescriptionView)>;

    open spec fn view(&self) -> Seq<(u32, SourceDescriptionView)> {
        chunk_views(self.descriptions@)
    }
}

/// `done` put before the chunks of `r`, if there are any.
pub open spec fn prepend_chunks(
    done: Seq<(u32, SourceDescriptionView)>,
    r: Result<(Seq<(u32, SourceDescriptionView)>, int), Error>,
) -> Result<(Seq<(u32, SourceDescriptionView)>, int), Error> {
    match r {
        Ok((rest, end)) => Ok((done + rest, end)),
        Err(e) => Err(e),
    }
}

/// `n` chunks decoded from `pos` on, each an SSRC and one description
/// whose zero padding up to the next 32-bit boundary is skipped, with where
/// they end.
pub open spec fn parse_chunks(s: Seq<u8>, pos: int, n: nat) -> Result<(Seq<(u32, SourceDescriptionView)>, int), Error>
    decreases n,
{
    if n == 0 || pos < 0 {
        Ok((Seq::empty(), pos))
    } else if s.len() < pos + 4 {
        Err(Error::UnexpectedEof)
    } else {
        match parse_description(s.skip(pos + 4)) {
            Err(e) => Err(e),
            Ok((d, k)) => if s.len() < pos + 4 + padded(k) {
                Err(Error::UnexpectedEof)
            } else {
                prepend_chunks(seq![(be_u32(s, pos), d)], parse_chunks(s, pos + 4 + padded(k), (n - 1) as nat))
            },
        }
    }
}

/// A source description packet decoded from the front of `s`, with the
/// number of bytes it takes, or why there is none. The low five bits of the
/// first byte count the chunks; the length field is not used.
pub open spec fn parse_source_description(s: Seq<u8>) -> Result<(Seq<(u32, SourceDescriptionView)>, int), Error> {
    match header_error(s, 202) {
        Some(e) => Err(e),
        None => if s.len() < 4 {
            Err(Error::UnexpectedEof)
        } else {
            parse_chunks(s, 4, (s[0] & 0x1F) as nat)
        },
    }
}

/// The sizes of the chunks, each four bytes of SSRC and its description
/// padded to a whole number of words.
pub open spec fn chunks_size(ds: Seq<(u32, SourceDescriptionView)>) -> int
    decreases ds.len(),
{
    if ds.len() == 0 {
        0
    } else {
        chunks_size(ds.drop_last()) + padded(description_size(ds.last().1)) + 4
    }
}

/// Every description fits its length byte.
pub open spec fn chunks_fit(ds: Seq<(u32, SourceDescriptionView)>) -> bool {
    forall|k: int| 0 <= k < ds.len() ==> description_fits(#[trigger] ds[k].1)
}

/// What writing the chunks puts out: each SSRC and description, up to and
/// including the first description that does not fit.
pub open spec fn chunks_output(ds: Seq<(u32, SourceDescriptionView)>) -> Seq<u8>
    decreases ds.len(),
{
    if ds.len() == 0 {
        Seq::empty()
    } else if !chunks_fit(ds.drop_last()) {
        chunks_output(ds.drop_last())
    } else {
        chunks_output(ds.drop_last()) + enc_u32(ds.last().0) + description_output(ds.last().1)
    }
}

/// The header of a source description packet: its length field is the
/// size of the chunks in words, modulo 2^16.
pub open spec fn source_description_header(ds: Seq<(u32, SourceDescriptionView)>) -> Seq<u8> {
    seq![info_byte(false, ds.len() as u8), 202u8] + enc_u16(((chunks_size(ds) / 4) % 0x10000) as u16)
}

pub proof fn lemma_chunks_size_nonneg(ds: Seq<(u32, SourceDescriptionView)>)
    ensures
        chunks_size(ds) >= 0,
        forall|i: int| 0 <= i <= ds.len() ==> chunks_size(#[trigger] ds.take(i)) <= chunks_size(ds),
    decreases ds.len(),
{
    if ds.len() > 0 {
        lemma_chunks_size_nonneg(ds.drop_last());
        assert(ds.take(ds.len() as int) =~= ds);
        assert forall|i: int| 0 <= i < ds.len() implies chunks_size(#[trigger] ds.take(i)) <= chunks_size(ds) by {
            assert(ds.drop_last().take(i) =~= ds.take(i));
        }
    }
}

impl RtcpPacketSourceDescription {
    #[verifier::rlimit(80)]
    pub fn parse(reader: &mut ByteReader) -> (r: Result<RtcpPacketSourceDescription, Error>)
        ensures
            final(reader).data() == old(reader).data(),
            parse_outcome(r, parse_source_description(old(reader).rest()), old(reader).rest(), final(reader).rest()),
    {
        let ghost s = reader.rest();
        let info = read_header(reader, 202)?;
        let source_count = (info & 0x1F) as usize;
        let _ = reader.read_u16_be()?;
        assert(s.skip(2).skip(2) =~= s.skip(4));
        let ghost total = parse_chunks(s, 4, source_count as nat);
        let ghost mut pos: int = 4;
        let mut descriptions: Vec<(u32, SourceDescription)> = Vec::new();
        assert(prepend_chunks(Seq::empty(), total) == total) by {
            match total {
                Ok((rest, end)) => { assert(Seq::<(u32, SourceDescriptionView)>::empty() + rest =~= rest); },
                Err(e) => {},
            }
        }
        assert(chunk_views(descriptions@) =~= Seq::<(u32, SourceDescriptionView)>::empty());
        let mut i: usize = 0;
        while i < source_count
            invariant
                i <= source_count,
                s == old(reader).rest(),
                header_error(s, 202) is None,
                s.len() >= 4,
                source_count == s[0] & 0x1F,
                4 <= pos <= s.len(),
                reader.data() == old(reader).data(),
                reader.rest() == s.skip(pos),
                total == parse_chunks(s, 4, source_count as nat),
                total == prepend_chunks(chunk_views(descriptions@), parse_chunks(s, pos, (source_count - i) as nat)),
            decreases source_count - i,
        {
            let ghost rest = parse_chunks(s, pos, (source_count - i) as nat);
            let ssrc = match reader.read_u32_be() {
                Ok(v) => v,
                Err(e) => {
                    assert(rest == Err::<(Seq<(u32, SourceDescriptionView)>, int), Error>(e));
                    return Err(e);
                },
            };
            assert(be_u32(s.skip(pos), 0) == be_u32(s, pos));
            assert(s.skip(pos).skip(4) =~= s.skip(pos + 4));
            let before = reader.position();
            let description = match SourceDescription::parse(reader) {
                Ok(d) => d,
                Err(e) => {
                    assert(rest == Err::<(Seq<(u32, SourceDescriptionView)>, int), Error>(e));
                    return Err(e);
                },
            };
            let ghost k = s.skip(pos + 4).len() - reader.rest().len();
            let consumed = reader.position() - before;
            assert(consumed == k);
            assert(s.skip(pos + 4).skip(k) =~= s.skip(pos + 4 + k));
            let pad = (4 - consumed % 4) % 4;
            match reader.read_slice(pad) {
                Ok(_) => {},
                Err(e) => {
                    assert(rest == Err::<(Seq<(u32, SourceDescriptionView)>, int), Error>(e));
                    return Err(e);
                },
            }
            let ghost k = padded(k);
            let ghost done = chunk_views(descriptions@);
            assert(s.skip(pos + 4).skip(k) =~= s.skip(pos + 4 + k));
            descriptions.push((ssrc, description));
            proof {
                let next = parse_chunks(s, pos + 4 + k, (source_count - i - 1) as nat);
                match next {
                    Ok((r2, end)) => {
                        assert(done + (seq![(ssrc, description@)] + r2) =~= (done + seq![(ssrc, description@)]) + r2);
                    },
                    Err(e) => {},
                }
                assert(chunk_views(descriptions@) =~= done + seq![(ssrc, description@)]);
                pos = pos + 4 + k;
            }
            i = i + 1;
        }
        proof {
            let done = chunk_views(descriptions@);
            assert(done + Seq::<(u32, SourceDescriptionView)>::empty() =~= done);
        }
        Ok(RtcpPacketSourceDescription { descriptions })
    }

    /// The size of the chunks, each padded to a whole number of words.
    fn payload_length(&self) -> (r: usize)
        requires
            chunks_size(self@) <= usize::MAX,
        ensures
            r == chunks_size(self@),
    {
        let ghost ds = self@;
        proof { lemma_chunks_size_nonneg(ds); }
        let mut sum: usize = 0;
        let mut i: usize = 0;
        while i < self.descriptions.len()
            invariant
                i <= self.descriptions@.len(),
                ds == chunk_views(self.descriptions@),
                ds.len() == self.descriptions@.len(),
                chunks_size(ds) <= usize::MAX,
                forall|j: int| 0 <= j <= ds.len() ==> chunks_size(#[trigger] ds.take(j)) <= chunks_size(ds),
                sum == chunks_size(ds.take(i as int)),
            decreases self.descriptions@.len() - i,
        {
            assert(ds.take(i + 1).drop_last() =~= ds.take(i as int));
            assert(ds.take(i + 1).last() == ds[i as int]);
            assert(chunks_size(ds.take(i + 1)) <= chunks_size(ds));
            let n = self.descriptions[i].1.byte_size();
            sum = sum + 4 + n + (4 - n % 4) % 4;
            i = i + 1;
        }
        assert(ds.take(i as int) =~= ds);
        sum
    }

    /// The size of the packet: its header and its chunks, each padded to a
    /// whole number of words.
    pub fn byte_size(&self) -> (r: usize)
        requires
            4 + chunks_size(self@) <= usize::MAX,
        ensures
            r == 4 + chunks_size(self@),
    {
        4 + self.payload_length()
    }

    /// Writes the packet at `pos`. More than fifteen descriptions are
    /// refused before anything is written; writing stops after the type
    /// byte of the first description whose text is too long.
    pub fn write(&self, buf: &mut [u8], pos: usize) -> (r: Result<usize, Error>)
        requires
            pos <= old(buf)@.len(),
            chunks_size(self@) + 3 <= usize::MAX,
        ensures
            self@.len() > 15 ==> r == Err::<usize, Error>(Error::TooManyEntries) && final(buf)@ == old(buf)@,
            self@.len() <= 15 ==> {
                let out = source_description_header(self@) + chunks_output(self@);
                &&& final(buf)@ == written(old(buf)@, pos as int, out)
                &&& chunks_fit(self@) ==> writes(old(buf)@, final(buf)@, pos as int, out, r) && out.len() == 4 + chunks_size(self@)
                &&& !chunks_fit(self@) ==> r == if write_result(old(buf)@.len() as int, pos as int, out) is Ok {
                    Err::<usize, Error>(Error::ValueTooLong)
                } else {
                    Err::<usize, Error>(Error::WriteZero)
                }
            },
    {
        if self.descriptions.len() > 15 {
            return Err(Error::TooManyEntries);
        }
        let ghost ds = self@;
        let payload_length = self.payload_length();
        let mut out: Vec<u8> = Vec::new();
        push_u8(&mut out, make_info_byte(false, self.descriptions.len() as u8));
        push_u8(&mut out, 202);
        push_u16(&mut out, ((payload_length / 4) % 0x10000) as u16);
        assert(out@ =~= source_description_header(ds));
        proof { lemma_chunks_size_nonneg(ds); }
        let mut failed = false;
        let mut i: usize = 0;
        while i < self.descriptions.len()
            invariant
                i <= self.descriptions@.len(),
                ds == chunk_views(self.descriptions@),
                ds.len() == self.descriptions@.len(),
                chunks_size(ds) <= usize::MAX,
                forall|j: int| 0 <= j <= ds.len() ==> chunks_size(#[trigger] ds.take(j)) <= chunks_size(ds),
                out@ == source_description_header(ds) + chunks_output(ds.take(i as int)),
                failed == !chunks_fit(ds.take(i as int)),
            decreases self.descriptions@.len() - i,
        {
            assert(ds.take(i + 1).drop_last() =~= ds.take(i as int));
            assert(ds.take(i + 1).last() == ds[i as int]);
            assert(chunks_size(ds.take(i + 1)) <= chunks_size(ds));
            if !failed {
                let (ssrc, description) = &self.descriptions[i];
                proof {
                    lemma_chunks_size_nonneg(ds.take(i as int));
                    assert(ds[i as int].1 == description@);
                }
                push_u32(&mut out, *ssrc);
                let ok = description.write_to(&mut out);
                if !ok {
                    failed = true;
                }
            }
            proof {
                if !chunks_fit(ds.take(i as int)) {
                    let k = choose|k: int| 0 <= k < i && !description_fits(#[trigger] ds.take(i as int)[k].1);
                    assert(ds.take(i + 1)[k] == ds.take(i as int)[k]);
                } else {
                    assert forall|k: int| 0 <= k < i + 1 && description_fits(ds[i as int].1) implies description_fits(#[trigger] ds.take(i + 1)[k].1) by {
                        if k < i {
                            assert(ds.take(i + 1)[k] == ds.take(i as int)[k]);
                        }
                    }
                    if !description_fits(ds[i as int].1) {
                        assert(!description_fits(ds.take(i + 1)[i as int].1));
                    }
                }
            }
            i = i + 1;
        }
        assert(ds.take(i as int) =~= ds);
        proof {
            if !failed {
                lemma_source_description_length(ds);
            }
        }
        let r = write_bytes(buf, pos, out.as_slice());
        if !failed {
            r
        } else {
            match r {
                Ok(_) => Err(Error::ValueTooLong),
                Err(e) => Err(e),
            }
        }
    }
}

/// A description that fits is written as a whole number of words.
pub proof fn lemma_description_bytes_len(d: SourceDescriptionView)
    requires
        description_fits(d),
    ensures
        description_output(d).len() == padded(description_size(d)),
        padded(description_size(d)) % 4 == 0,
{
    let n = description_size(d);
    assert(zero_padding(n).len() == (4 - n % 4) % 4);
    if d.kind == SourceDescriptionType::Private {
        assert(description_bytes(d).len() == 3 + encode_utf8(d.prefix).len() + encode_utf8(d.value).len() + zero_padding(n).len());
    } else {
        assert(description_bytes(d).len() == 2 + encode_utf8(d.value).len() + zero_padding(n).len());
    }
}

/// Chunks whose descriptions all fit are written in `chunks_size` bytes,
/// a whole number of words.
pub proof fn lemma_chunks_output_len(ds: Seq<(u32, SourceDescriptionView)>)
    requires
        chunks_fit(ds),
    ensures
        chunks_output(ds).len() == chunks_size(ds),
        chunks_size(ds) % 4 == 0,
    decreases ds.len(),
{
    if ds.len() > 0 {
        let prev = ds.drop_last();
        assert(chunks_fit(prev)) by {
            assert forall|k: int| 0 <= k < prev.len() implies description_fits(#[trigger] prev[k].1) by {
                assert(prev[k] == ds[k]);
            }
        }
        lemma_chunks_output_len(prev);
        assert(description_fits(ds[ds.len() - 1].1));
        lemma_description_bytes_len(ds.last().1);
    }
}

/// A source description packet whose descriptions all fit is written in
/// `byte_size` bytes (its header and its padded chunks), a whole number of
/// words, and its length field is that number of words less one (RFC 3550
/// section 6.4.1) when it can count them.
pub proof fn lemma_source_description_length(ds: Seq<(u32, SourceDescriptionView)>)
    requires
        chunks_fit(ds),
    ensures
        (source_description_header(ds) + chunks_output(ds)).len() == 4 + chunks_size(ds),
        (4 + chunks_size(ds)) % 4 == 0,
        chunks_size(ds) / 4 < 0x10000 ==> 4 * (be_u16(source_description_header(ds), 2) + 1) == 4 + chunks_size(ds),
{
    lemma_chunks_output_len(ds);
    let h = source_description_header(ds);
    let q = ((chunks_size(ds) / 4) % 0x10000) as u16;
    assert(h.subrange(2, 4) =~= enc_u16(q));
    lemma_u16_roundtrip(q, h, 2);
}

/// The bytes of one chunk whose description fits.
pub open spec fn chunk_bytes(c: (u32, SourceDescriptionView)) -> Seq<u8> {
    enc_u32(c.0) + description_bytes(c.1)
}

/// A chunk that decoding its encoding gives back: its description round
/// trips.
pub open spec fn chunk_roundtrips(c: (u32, SourceDescriptionView)) -> bool {
    description_roundtrips(c.1)
}

/// The chunks of a packet that decoding its encoding gives back.
pub open spec fn chunks_roundtrip(ds: Seq<(u32, SourceDescriptionView)>) -> bool {
    forall|k: int| 0 <= k < ds.len() ==> chunk_roundtrips(#[trigger] ds[k])
}

pub proof fn lemma_chunks_output_front(c: (u32, SourceDescriptionView), rest: Seq<(u32, SourceDescriptionView)>)
    requires
        description_fits(c.1),
        chunks_fit(rest),
    ensures
        chunks_output(seq![c] + rest) == chunk_bytes(c) + chunks_output(rest),
    decreases rest.len(),
{
    let all = seq![c] + rest;
    if rest.len() == 0 {
        assert(all.drop_last() =~= Seq::<(u32, SourceDescriptionView)>::empty());
        assert(chunks_output(all.drop_last()) =~= Seq::<u8>::empty());
        assert(chunks_fit(all.drop_last()));
        assert(chunks_output(rest) =~= Seq::<u8>::empty());
        assert(chunks_output(all) =~= chunk_bytes(c) + chunks_output(rest));
    } else {
        let r2 = rest.drop_last();
        assert(chunks_fit(r2)) by {
            assert forall|k: int| 0 <= k < r2.len() implies description_fits(#[trigger] r2[k].1) by {
                assert(r2[k] == rest[k]);
            }
        }
        lemma_chunks_output_front(c, r2);
        assert(all.drop_last() =~= seq![c] + r2);
        assert(chunks_fit(all.drop_last())) by {
            assert forall|k: int| 0 <= k < all.drop_last().len() implies description_fits(#[trigger] all.drop_last()[k].1) by {
                if k > 0 {
                    assert(all.drop_last()[k] == rest[k - 1]);
                }
            }
        }
        assert(all.last() == rest.last());
        assert(chunks_output(all) =~= chunk_bytes(c) + chunks_output(rest));
    }
}

/// The first chunk of the encoded chunks, and the encoding of the rest
/// after it.
#[verifier::rlimit(40)]
pub proof fn lemma_first_chunk(ds: Seq<(u32, SourceDescriptionView)>, s: Seq<u8>, pos: int)
    requires
        0 <= pos,
        ds.len() > 0,
        chunks_roundtrip(ds),
        pos + chunks_output(ds).len() <= s.len(),
        s.subrange(pos, pos + chunks_output(ds).len()) == chunks_output(ds),
    ensures
        chunks_roundtrip(ds.drop_first()),
        s.len() >= pos + 4,
        be_u32(s, pos) == ds[0].0,
        parse_description(s.skip(pos + 4)) == Ok::<(SourceDescriptionView, int), Error>(
            (ds[0].1, description_size(ds[0].1)),
        ),
        chunks_output(ds).len() == 4 + padded(description_size(ds[0].1)) + chunks_output(ds.drop_first()).len(),
        s.subrange(
            pos + 4 + padded(description_size(ds[0].1)),
            pos + 4 + padded(description_size(ds[0].1)) + chunks_output(ds.drop_first()).len(),
        ) == chunks_output(ds.drop_first()),
{
    let c = ds[0];
    let rest = ds.drop_first();
    assert(ds =~= seq![c] + rest);
    assert(chunk_roundtrips(ds[0]));
    assert(chunks_roundtrip(rest)) by {
        assert forall|k: int| 0 <= k < rest.len() implies chunk_roundtrips(#[trigger] rest[k]) by {
            assert(rest[k] == ds[k + 1]);
        }
    }
    assert(chunks_fit(rest)) by {
        assert forall|k: int| 0 <= k < rest.len() implies description_fits(#[trigger] rest[k].1) by {
            assert(chunk_roundtrips(rest[k]));
        }
    }
    lemma_chunks_output_front(c, rest);
    let cb = chunk_bytes(c);
    let d = c.1;
    let k = padded(description_size(d));
    assert(description_bytes(d).len() == k);
    assert(cb.len() == 4 + k);
    let out = chunks_output(ds);
    assert(s.subrange(pos, pos + 4) =~= enc_u32(c.0)) by {
        assert(s.subrange(pos, pos + 4) =~= out.subrange(0, 4));
        assert(out.subrange(0, 4) =~= cb.subrange(0, 4));
    }
    lemma_u32_roundtrip(c.0, s, pos);
    let tail = s.skip(pos + 4);
    assert(tail =~= description_bytes(d) + tail.skip(k)) by {
        assert forall|j: int| 0 <= j < k implies tail[j] == description_bytes(d)[j] by {
            assert(tail[j] == s[pos + 4 + j]);
            assert(s[pos + 4 + j] == out[4 + j]);
            assert(out[4 + j] == cb[4 + j]);
        }
    }
    lemma_description_roundtrip(d, tail.skip(k));
    let rest_out = chunks_output(rest);
    assert(s.subrange(pos + 4 + k, pos + 4 + k + rest_out.len()) =~= rest_out) by {
        assert forall|j: int| 0 <= j < rest_out.len() implies s.subrange(pos + 4 + k, pos + 4 + k + rest_out.len())[j] == rest_out[j] by {
            assert(s[pos + 4 + k + j] == out[4 + k + j]);
        }
    }
}

pub proof fn lemma_parse_chunks_roundtrip(ds: Seq<(u32, SourceDescriptionView)>, s: Seq<u8>, pos: int)
    requires
        0 <= pos,
        chunks_roundtrip(ds),
        pos + chunks_output(ds).len() <= s.len(),
        s.subrange(pos, pos + chunks_output(ds).len()) == chunks_output(ds),
    ensures
        parse_chunks(s, pos, ds.len()) == Ok::<(Seq<(u32, SourceDescriptionView)>, int), Error>(
            (ds, pos + chunks_output(ds).len()),
        ),
    decreases ds.len(),
{
    if ds.len() == 0 {
        assert(chunks_output(ds) =~= Seq::<u8>::empty());
        assert(ds =~= Seq::<(u32, SourceDescriptionView)>::empty());
    } else {
        lemma_first_chunk(ds, s, pos);
        let rest = ds.drop_first();
        let k = padded(description_size(ds[0].1));
        lemma_parse_chunks_roundtrip(rest, s, pos + 4 + k);
        let first = seq![(be_u32(s, pos), ds[0].1)];
        assert(first + rest =~= ds);
        let rec = parse_chunks(s, pos + 4 + k, rest.len());
        assert(rec == Ok::<(Seq<(u32, SourceDescriptionView)>, int), Error>(
            (rest, pos + 4 + k + chunks_output(rest).len()),
        ));
        assert(parse_chunks(s, pos, ds.len()) == prepend_chunks(first, rec));
        assert(pos + 4 + k + chunks_output(rest).len() == pos + chunks_output(ds).len());
        assert(prepend_chunks(first, rec) == Ok::<(Seq<(u32, SourceDescriptionView)>, int), Error>(
            (first + rest, pos + chunks_output(ds).len()),
        ));
    }
}

/// Decoding the encoding of a source description packet gives back its
/// chunks, when there are at most fifteen and each description round trips.
#[verifier::rlimit(40)]
pub proof fn lemma_source_description_roundtrip(ds: Seq<(u32, SourceDescriptionView)>, trailer: Seq<u8>)
    requires
        ds.len() <= 15,
        chunks_roundtrip(ds),
    ensures
        parse_source_description(source_description_header(ds) + chunks_output(ds) + trailer) == Ok::<
            (Seq<(u32, SourceDescriptionView)>, int),
            Error,
        >((ds, 4 + chunks_output(ds).len() as int)),
{
    let h = source_description_header(ds);
    let out = chunks_output(ds);
    let s = h + out + trailer;
    lemma_info_byte(false, ds.len() as u8);
    assert(h.len() == 4);
    assert(s[0] == h[0]);
    assert(s[1] == h[1]);
    assert(header_error(s, 202) is None);
    assert(s[0] & 0x1F == ds.len());
    assert(s.subrange(4, 4 + out.len() as int) =~= out);
    lemma_parse_chunks_roundtrip(ds, s, 4);
    assert(parse_source_description(s) == parse_chunks(s, 4, ds.len()));
}

} // verus!
