//! Goodbye packets (RFC 3550 section 6.6).
use vstd::prelude::*;
use vstd::utf8::encode_utf8;
use crate::bytes::{ByteReader, be_u16, be_u32, enc_u16, enc_u32, written, write_result, writes, parse_outcome,
    write_bytes, push_u8, push_u16, push_u32, push_bytes, lemma_u32_roundtrip, lemma_written_concat};
use crate::error::Error;
use crate::text::{string_from_utf8, string_bytes, text_of, lemma_text_roundtrip};
use crate::utils::rtcp::{header_error, read_header, info_byte, make_info_byte, lemma_info_byte};

verus! {

pub struct ByeView {
    pub src: Seq<u32>,
    pub reason: Option<Seq<char>>,
}

/// https://tools.ietf.org/html/rfc3550#section-6.6
#[derive(Debug, Clone, Eq, PartialEq)]
pub struct RtcpPacketBye {
    pub src: Vec<u32>,
    pub reason: Option<String>,
}

impl View for RtcpPacketBye {
    type V = ByeView;

    open spec fn view(&self) -> ByeView {
        ByeView {
            src: self.src@,
            reason: match self.reason {
                Some(r) => Some(r@),
                None => None,
            },
        }
    }
}

/// The number of zero bytes that follow a reason of `length` bytes.
pub open spec fn reason_padding(length: int) -> int {
    (4 - length % 4) % 4
}

/// The SSRC list, each in four bytes.
pub open spec fn src_list_bytes(src: Seq<u32>) -> Seq<u8>
    decreases src.len(),
{
    if src.len() == 0 {
        Seq::empty()
    } else {
        src_list_bytes(src.drop_last()) + enc_u32(src.last())
    }
}

/// The reason length in words.
pub open spec fn reason_quads(b: ByeView) -> int {
    match b.reason {
        Some(r) => (encode_utf8(r).len() as int + 3) / 4,
        None => 0,
    }
}

/// Header and SSRC list.
pub open spec fn bye_head_bytes(b: ByeView) -> Seq<u8> {
    seq![info_byte(false, b.src.len() as u8), 203u8] + enc_u16(((b.src.len() + reason_quads(b)) % 0x10000) as u16)
        + src_list_bytes(b.src)
}

/// The length byte, the text and its zero padding.
pub open spec fn reason_bytes(r: Seq<char>) -> Seq<u8> {
    seq![encode_utf8(r).len() as u8] + encode_utf8(r) + Seq::new(
        reason_padding(encode_utf8(r).len() as int) as nat,
        |i: int| 0u8,
    )
}

/// The encoding of a goodbye packet with at most fifteen sources and a
/// reason of at most 255 bytes.
pub open spec fn bye_bytes(b: ByeView) -> Seq<u8> {
    bye_head_bytes(b) + match b.reason {
        Some(r) => reason_bytes(r),
        None => Seq::empty(),
    }
}

/// A goodbye packet decoded from the front of `s`, with the number of bytes
/// it takes, or why there is none. The reason is there when bytes follow
/// the SSRC list.
pub open spec fn parse_bye(s: Seq<u8>) -> Result<(ByeView, int), Error> {
    match header_error(s, 203) {
        Some(e) => Err(e),
        None => if s.len() < 4 {
            Err(Error::UnexpectedEof)
        } else {
            let count = (s[0] & 0x1F) as int;
            let p = 4 + 4 * count;
            if s.len() < p {
                Err(Error::UnexpectedEof)
            } else {
                let src = Seq::new(count as nat, |i: int| be_u32(s, 4 + 4 * i));
                if s.len() == p {
                    Ok((ByeView { src, reason: None }, p))
                } else {
                    let length = s[p] as int;
                    if s.len() < p + 1 + length {
                        Err(Error::UnexpectedEof)
                    } else {
                        match text_of(s.subrange(p + 1, p + 1 + length)) {
                            None => Err(Error::InvalidUtf8),
                            Some(reason) => if s.len() < p + 1 + length + reason_padding(length) {
                                Err(Error::UnexpectedEof)
                            } else {
                                Ok((ByeView { src, reason: Some(reason) }, p + 1 + length + reason_padding(length)))
                            },
                        }
                    }
                }
            }
        },
    }
}

/// A goodbye packet that its encoding gives back.
pub open spec fn bye_roundtrips(b: ByeView) -> bool {
    &&& b.src.len() <= 15
    &&& match b.reason {
        Some(r) => encode_utf8(r).len() <= 255,
        None => true,
    }
}

pub proof fn lemma_src_list(src: Seq<u32>, s: Seq<u8>, start: int)
    requires
        0 <= start,
        start + 4 * src.len() <= s.len(),
        s.subrange(start, start + 4 * src.len()) == src_list_bytes(src),
    ensures
        src_list_bytes(src).len() == 4 * src.len(),
        Seq::new(src.len(), |i: int| be_u32(s, start + 4 * i)) == src,
    decreases src.len(),
{
    if src.len() > 0 {
        let prev = src.drop_last();
        let n = prev.len() as int;
        lemma_src_list_len(prev);
        assert(s.subrange(start, start + 4 * n) =~= s.subrange(start, start + 4 * src.len()).subrange(0, 4 * n));
        assert(src_list_bytes(src).subrange(0, 4 * n) =~= src_list_bytes(prev));
        lemma_src_list(prev, s, start);
        assert(s.subrange(start + 4 * n, start + 4 * n + 4) =~= src_list_bytes(src).subrange(4 * n, 4 * n + 4));
        assert(src_list_bytes(src).subrange(4 * n, 4 * n + 4) =~= enc_u32(src.last()));
        lemma_u32_roundtrip(src.last(), s, start + 4 * n);
        let got = Seq::new(src.len(), |i: int| be_u32(s, start + 4 * i));
        let got_prev = Seq::new(prev.len(), |i: int| be_u32(s, start + 4 * i));
        assert forall|i: int| 0 <= i < src.len() implies got[i] == src[i] by {
            if i < n {
                assert(got_prev[i] == prev[i]);
            }
        }
        assert(got =~= src);
    }
}

pub proof fn lemma_src_list_len(src: Seq<u32>)
    ensures
        src_list_bytes(src).len() == 4 * src.len(),
    decreases src.len(),
{
    if src.len() > 0 {
        lemma_src_list_len(src.drop_last());
    }
}

/// Decoding the encoding of a goodbye packet gives back the packet, when
/// nothing follows it or when it has a reason.
#[verifier::rlimit(50)]
pub proof fn lemma_bye_roundtrip(b: ByeView, trailer: Seq<u8>)
    requires
        bye_roundtrips(b),
        b.reason is None ==> trailer.len() == 0,
    ensures
        parse_bye(bye_bytes(b) + trailer) == Ok::<(ByeView, int), Error>((b, bye_bytes(b).len() as int)),
{
    let n = b.src.len() as int;
    let bb = bye_bytes(b);
    let s = bb + trailer;
    let head = bye_head_bytes(b);
    lemma_src_list_len(b.src);
    lemma_info_byte(false, n as u8);
    assert(s[0] == head[0]);
    assert(s[1] == head[1]);
    assert(s.subrange(4, 4 + 4 * n) =~= src_list_bytes(b.src));
    lemma_src_list(b.src, s, 4);
    match b.reason {
        None => {
            assert(bb =~= head);
        },
        Some(r) => {
            let t = encode_utf8(r);
            let l = t.len() as int;
            let p = 4 + 4 * n;
            assert(s[p] == l as u8);
            assert(s.subrange(p + 1, p + 1 + l) =~= t);
            lemma_text_roundtrip(r);
        },
    }
}

impl RtcpPacketBye {
    #[verifier::rlimit(50)]
    pub fn parse(reader: &mut ByteReader) -> (r: Result<RtcpPacketBye, Error>)
        ensures
            final(reader).data() == old(reader).data(),
            parse_outcome(r, parse_bye(old(reader).rest()), old(reader).rest(), final(reader).rest()),
    {
        let ghost s = reader.rest();
        let info = read_header(reader, 203)?;
        let _ = reader.read_u16_be()?;
        assert(s.skip(2).skip(2) =~= s.skip(4));
        let src_count = (info & 0x1F) as usize;
        let mut src: Vec<u32> = Vec::new();
        let mut i: usize = 0;
        while i < src_count
            invariant
                i <= src_count,
                src_count == s[0] & 0x1F,
                s == old(reader).rest(),
                header_error(s, 203) is None,
                s.len() >= 4 + 4 * i,
                reader.data() == old(reader).data(),
                reader.rest() == s.skip(4 + 4 * i),
                src@ =~= Seq::new(i as nat, |j: int| be_u32(s, 4 + 4 * j)),
            decreases src_count - i,
        {
            let ghost k = 4 + 4 * i as int;
            let v = match reader.read_u32_be() {
                Ok(v) => v,
                Err(e) => return Err(e),
            };
            assert(v == be_u32(s, k)) by {
                assert(s.skip(k)[0] == s[k]);
                assert(s.skip(k)[1] == s[k + 1]);
                assert(s.skip(k)[2] == s[k + 2]);
                assert(s.skip(k)[3] == s[k + 3]);
            }
            src.push(v);
            assert(s.skip(k).skip(4) =~= s.skip(k + 4));
            i = i + 1;
        }
        let ghost p = 4 + 4 * src_count as int;
        let mut reason: Option<String> = None;
        if let Ok(length) = reader.read_u8() {
            assert(length == s[p]);
            assert(s.skip(p).skip(1) =~= s.skip(p + 1));
            let buffer = reader.read_vec(length as usize)?;
            assert(buffer@ =~= s.subrange(p + 1, p + 1 + length));
            assert(s.skip(p + 1).skip(length as int) =~= s.skip(p + 1 + length));
            let text = match string_from_utf8(buffer) {
                Some(t) => t,
                None => return Err(Error::InvalidUtf8),
            };
            reason = Some(text);
            let padding = (4 - (length as usize) % 4) % 4;
            let _ = reader.read_slice(padding)?;
            assert(s.skip(p + 1 + length).skip(padding as int) =~= s.skip(p + 1 + length + padding));
        } else {
            assert(s.skip(p) =~= s.skip(s.len() as int));
        }
        Ok(RtcpPacketBye { src, reason })
    }

    /// Writes the packet at `pos`. More than fifteen sources are refused
    /// before anything is written; a reason longer than 255 bytes is refused
    /// after the header and the sources have been written.
    pub fn write(&self, buf: &mut [u8], pos: usize) -> (r: Result<usize, Error>)
        requires
            pos <= old(buf)@.len(),
        ensures
            self.src@.len() > 15 ==> r == Err::<usize, Error>(Error::TooManyEntries) && final(buf)@ == old(buf)@,
            self.src@.len() <= 15 ==> match self@.reason {
                Some(t) => if encode_utf8(t).len() > 255 {
                    final(buf)@ == written(old(buf)@, pos as int, bye_head_bytes(self@)) && r == if write_result(
                        old(buf)@.len() as int,
                        pos as int,
                        bye_head_bytes(self@),
                    ) is Ok {
                        Err::<usize, Error>(Error::ValueTooLong)
                    } else {
                        Err::<usize, Error>(Error::WriteZero)
                    }
                } else {
                    writes(old(buf)@, final(buf)@, pos as int, bye_bytes(self@), r)
                },
                None => writes(old(buf)@, final(buf)@, pos as int, bye_bytes(self@), r),
            },
    {
        if self.src.len() > 15 {
            return Err(Error::TooManyEntries);
        }
        let ghost b = self@;
        let reason_length = match &self.reason {
            Some(reason) => {
                let len = string_bytes(reason).len();
                if len % 4 == 0 { len / 4 } else { len / 4 + 1 }
            },
            None => 0,
        };
        let mut out: Vec<u8> = Vec::new();
        push_u8(&mut out, make_info_byte(false, self.src.len() as u8));
        push_u8(&mut out, 203);
        push_u16(&mut out, ((self.src.len() + reason_length) % 0x10000) as u16);
        let mut i: usize = 0;
        while i < self.src.len()
            invariant
                i <= self.src@.len(),
                self.src@.len() <= 15,
                b == self@,
                out@ == seq![info_byte(false, self.src@.len() as u8), 203u8] + enc_u16(
                    ((self.src@.len() + reason_quads(b)) % 0x10000) as u16,
                ) + src_list_bytes(self.src@.take(i as int)),
            decreases self.src@.len() - i,
        {
            push_u32(&mut out, self.src[i]);
            assert(self.src@.take(i + 1).drop_last() =~= self.src@.take(i as int));
            i = i + 1;
        }
        assert(self.src@.take(i as int) =~= self.src@);
        assert(out@ == bye_head_bytes(b));
        match &self.reason {
            Some(reason) => {
                let text = string_bytes(reason);
                if text.len() > 255 {
                    let ghost before = buf@;
                    return match write_bytes(buf, pos, out.as_slice()) {
                        Ok(_) => Err(Error::ValueTooLong),
                        Err(e) => Err(e),
                    };
                }
                push_u8(&mut out, text.len() as u8);
                push_bytes(&mut out, text);
                let padding = (4 - text.len() % 4) % 4;
                let mut j: usize = 0;
                while j < padding
                    invariant
                        j <= padding,
                        padding == reason_padding(text@.len() as int),
                        out@ == bye_head_bytes(b) + seq![text@.len() as u8] + text@ + Seq::new(j as nat, |k: int| 0u8),
                    decreases padding - j,
                {
                    push_u8(&mut out, 0);
                    assert(Seq::new((j + 1) as nat, |k: int| 0u8) =~= Seq::new(j as nat, |k: int| 0u8) + seq![0u8]);
                    j = j + 1;
                }
                assert(out@ =~= bye_bytes(b));
            },
            None => {
                assert(out@ =~= bye_bytes(b));
            },
        }
        write_bytes(buf, pos, out.as_slice())
    }
}

} // verus!
