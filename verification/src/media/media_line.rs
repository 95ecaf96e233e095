//! Media lines: the codecs and header extensions a line offers, and what
//! its local description says of it.
use vstd::prelude::*;
use crate::rtc::MediaKind;
use crate::description::LocalLineContent;

verus! {

/// An RTCP feedback a codec supports (RFC 4585 `a=rtcp-fb`): its type, and
/// its parameter and extra text.
#[derive(Debug, Clone, PartialEq)]
pub struct CodecFeedback {
    pub feedback_type: String,
    pub parameter: String,
    pub extra: String,
}

/// A codec of a media line: its payload type, its name, clock rate and
/// channels (`a=rtpmap`), its format parameters (`a=fmtp`) and the RTCP
/// feedback it supports.
#[derive(Debug, Clone, PartialEq)]
pub struct Codec {
    pub payload_type: u8,
    pub codec_name: String,
    pub frequency: u32,
    pub channels: Option<u32>,
    pub parameters: Option<String>,
    pub feedback: Vec<CodecFeedback>,
}

/// A header extension of a media line (RFC 8285 `a=extmap`): its id and
/// its URI.
#[derive(Debug, Clone, PartialEq)]
pub struct MediaExtension {
    pub id: u16,
    pub url: String,
}

pub struct CodecView {
    pub payload_type: u8,
    pub codec_name: String,
    pub frequency: u32,
    pub channels: Option<u32>,
    pub parameters: Option<String>,
    pub feedback: Seq<CodecFeedback>,
}

impl View for Codec {
    type V = CodecView;

    open spec fn view(&self) -> CodecView {
        CodecView {
            payload_type: self.payload_type,
            codec_name: self.codec_name,
            frequency: self.frequency,
            channels: self.channels,
            parameters: self.parameters,
            feedback: self.feedback@,
        }
    }
}

pub open spec fn codec_views(s: Seq<Codec>) -> Seq<CodecView> {
    s.map_values(|c: Codec| c@)
}

/// The codecs of `s` whose payload type is not `pt`, in order.
pub open spec fn codecs_without(s: Seq<Codec>, pt: u8) -> Seq<Codec>
    decreases s.len(),
{
    if s.len() == 0 {
        Seq::empty()
    } else if s.last().payload_type == pt {
        codecs_without(s.drop_last(), pt)
    } else {
        codecs_without(s.drop_last(), pt).push(s.last())
    }
}

/// The extensions of `s` whose id is not `id`, in order.
pub open spec fn extensions_without(s: Seq<MediaExtension>, id: u16) -> Seq<MediaExtension>
    decreases s.len(),
{
    if s.len() == 0 {
        Seq::empty()
    } else if s.last().id == id {
        extensions_without(s.drop_last(), id)
    } else {
        extensions_without(s.drop_last(), id).push(s.last())
    }
}

/// The payload types of some codecs, in order.
pub open spec fn payload_types(s: Seq<Codec>) -> Seq<u8> {
    s.map_values(|c: Codec| c.payload_type)
}

/// A copy of a string.
fn copy_string(s: &String) -> (r: String)
    ensures
        r == *s,
{
    s.clone()
}

fn copy_opt_string(s: &Option<String>) -> (r: Option<String>)
    ensures
        r == *s,
{
    match s {
        Some(t) => Some(copy_string(t)),
        None => None,
    }
}

/// A copy of a codec.
pub fn copy_codec(c: &Codec) -> (r: Codec)
    ensures
        r@ == c@,
{
    let mut feedback: Vec<CodecFeedback> = Vec::new();
    let mut i: usize = 0;
    while i < c.feedback.len()
        invariant
            i <= c.feedback@.len(),
            feedback@ == c.feedback@.take(i as int),
        decreases c.feedback@.len() - i,
    {
        let f = &c.feedback[i];
        feedback.push(CodecFeedback {
            feedback_type: copy_string(&f.feedback_type),
            parameter: copy_string(&f.parameter),
            extra: copy_string(&f.extra),
        });
        assert(feedback@ =~= c.feedback@.take(i + 1));
        i = i + 1;
    }
    assert(c.feedback@.take(i as int) =~= c.feedback@);
    let r = Codec {
        payload_type: c.payload_type,
        codec_name: copy_string(&c.codec_name),
        frequency: c.frequency,
        channels: c.channels,
        parameters: copy_opt_string(&c.parameters),
        feedback,
    };
    r
}

/// A copy of some codecs.
pub fn copy_codecs(v: &Vec<Codec>) -> (r: Vec<Codec>)
    ensures
        codec_views(r@) == codec_views(v@),
{
    let mut r: Vec<Codec> = Vec::new();
    let mut i: usize = 0;
    while i < v.len()
        invariant
            i <= v@.len(),
            r@.len() == i,
            codec_views(r@) == codec_views(v@.take(i as int)),
        decreases v@.len() - i,
    {
        let ghost before = r@;
        r.push(copy_codec(&v[i]));
        proof {
            assert forall|k: int| 0 <= k < i + 1 implies codec_views(r@)[k] == codec_views(v@.take(i + 1))[k] by {
                if k < i {
                    assert(r@[k] == before[k]);
                    assert(codec_views(before)[k] == codec_views(v@.take(i as int))[k]);
                }
            }
            assert(codec_views(r@) =~= codec_views(v@.take(i + 1)));
        }
        i = i + 1;
    }
    assert(v@.take(i as int) =~= v@);
    r
}

/// A copy of some header extensions.
pub fn copy_extensions(v: &Vec<MediaExtension>) -> (r: Vec<MediaExtension>)
    ensures
        r@ == v@,
{
    let mut r: Vec<MediaExtension> = Vec::new();
    let mut i: usize = 0;
    while i < v.len()
        invariant
            i <= v@.len(),
            r@ == v@.take(i as int),
        decreases v@.len() - i,
    {
        r.push(MediaExtension { id: v[i].id, url: copy_string(&v[i].url) });
        assert(r@ =~= v@.take(i + 1));
        i = i + 1;
    }
    assert(v@.take(i as int) =~= v@);
    r
}

/// A codec description of a remote media description (`a=rtpmap`).
#[derive(Debug, Clone, PartialEq)]
pub struct RemoteRtpmap {
    pub payload_type: u8,
    pub codec_name: String,
    pub frequency: u32,
    pub channels: Option<u32>,
}

/// Format parameters of a remote media description (`a=fmtp`).
#[derive(Debug, Clone, PartialEq)]
pub struct RemoteFmtp {
    pub payload_type: u8,
    pub parameters: String,
}

/// An RTCP feedback of a remote media description (`a=rtcp-fb`), for one
/// payload type or (`None`) for all.
#[derive(Debug, Clone, PartialEq)]
pub struct RemoteRtcpFb {
    pub payload_type: Option<u8>,
    pub feedback: CodecFeedback,
}

/// The first codec description of `maps` from `i` on for `pt`.
pub open spec fn rtpmap_from(maps: Seq<RemoteRtpmap>, pt: u8, i: int) -> Option<RemoteRtpmap>
    decreases maps.len() - i,
{
    if i < 0 || i >= maps.len() {
        None
    } else if maps[i].payload_type == pt {
        Some(maps[i])
    } else {
        rtpmap_from(maps, pt, i + 1)
    }
}

/// The first format parameters of `fmtps` from `i` on for `pt`.
pub open spec fn fmtp_from(fmtps: Seq<RemoteFmtp>, pt: u8, i: int) -> Option<String>
    decreases fmtps.len() - i,
{
    if i < 0 || i >= fmtps.len() {
        None
    } else if fmtps[i].payload_type == pt {
        Some(fmtps[i].parameters)
    } else {
        fmtp_from(fmtps, pt, i + 1)
    }
}

/// The RTCP feedbacks of `fbs` that apply to `pt`: those for it and those
/// for all payload types, in order.
pub open spec fn feedback_for(fbs: Seq<RemoteRtcpFb>, pt: u8) -> Seq<CodecFeedback>
    decreases fbs.len(),
{
    if fbs.len() == 0 {
        Seq::empty()
    } else {
        let rest = feedback_for(fbs.drop_last(), pt);
        match fbs.last().payload_type {
            Some(p) => if p == pt { rest.push(fbs.last().feedback) } else { rest },
            None => rest.push(fbs.last().feedback),
        }
    }
}

/// The remote codec for the payload type `pt`: named by its first codec
/// description, with its first format parameters and the RTCP feedbacks
/// that apply to it; none without a codec description.
pub open spec fn spec_remote_codec(pt: u8, maps: Seq<RemoteRtpmap>, fmtps: Seq<RemoteFmtp>, fbs: Seq<RemoteRtcpFb>) -> Option<CodecView> {
    match rtpmap_from(maps, pt, 0) {
        None => None,
        Some(m) => Some(CodecView {
            payload_type: pt,
            codec_name: m.codec_name,
            frequency: m.frequency,
            channels: m.channels,
            parameters: fmtp_from(fmtps, pt, 0),
            feedback: feedback_for(fbs, pt),
        }),
    }
}

fn find_rtpmap(maps: &[RemoteRtpmap], pt: u8) -> (r: Option<usize>)
    ensures
        match r {
            Some(i) => i < maps@.len() && rtpmap_from(maps@, pt, 0) == Some(maps@[i as int]),
            None => rtpmap_from(maps@, pt, 0) is None,
        },
{
    let mut i: usize = 0;
    while i < maps.len()
        invariant
            i <= maps@.len(),
            rtpmap_from(maps@, pt, 0) == rtpmap_from(maps@, pt, i as int),
        decreases maps@.len() - i,
    {
        if maps[i].payload_type == pt {
            return Some(i);
        }
        i = i + 1;
    }
    None
}

fn find_fmtp(fmtps: &[RemoteFmtp], pt: u8) -> (r: Option<String>)
    ensures
        r == fmtp_from(fmtps@, pt, 0),
{
    let mut k: usize = 0;
    while k < fmtps.len()
        invariant
            k <= fmtps@.len(),
            fmtp_from(fmtps@, pt, 0) == fmtp_from(fmtps@, pt, k as int),
        decreases fmtps@.len() - k,
    {
        if fmtps[k].payload_type == pt {
            return Some(copy_string(&fmtps[k].parameters));
        }
        k = k + 1;
    }
    None
}

/// The codec a remote media description describes for `payload_type`.
pub fn remote_codec(payload_type: u8, maps: &[RemoteRtpmap], fmtps: &[RemoteFmtp], fbs: &[RemoteRtcpFb]) -> (r: Option<Codec>)
    ensures
        match r {
            Some(c) => spec_remote_codec(payload_type, maps@, fmtps@, fbs@) == Some(c@),
            None => spec_remote_codec(payload_type, maps@, fmtps@, fbs@) is None,
        },
{
    let m = match find_rtpmap(maps, payload_type) {
        Some(j) => &maps[j],
        None => return None,
    };
    let parameters = find_fmtp(fmtps, payload_type);
    let mut feedback: Vec<CodecFeedback> = Vec::new();
    let mut n: usize = 0;
    while n < fbs.len()
        invariant
            n <= fbs@.len(),
            feedback@ == feedback_for(fbs@.take(n as int), payload_type),
        decreases fbs@.len() - n,
    {
        let fb = &fbs[n];
        proof {
            assert(fbs@.take(n + 1).drop_last() =~= fbs@.take(n as int));
            assert(fbs@.take(n + 1).last() == fbs@[n as int]);
        }
        let applies = match fb.payload_type {
            Some(p) => p == payload_type,
            None => true,
        };
        if applies {
            feedback.push(CodecFeedback {
                feedback_type: copy_string(&fb.feedback.feedback_type),
                parameter: copy_string(&fb.feedback.parameter),
                extra: copy_string(&fb.feedback.extra),
            });
        }
        n = n + 1;
    }
    assert(fbs@.take(n as int) =~= fbs@);
    Some(Codec {
        payload_type,
        codec_name: copy_string(&m.codec_name),
        frequency: m.frequency,
        channels: m.channels,
        parameters,
        feedback,
    })
}

/// The payload types that some codec descriptions describe.
pub open spec fn rtpmap_types(maps: Seq<RemoteRtpmap>) -> Seq<u8> {
    maps.map_values(|m: RemoteRtpmap| m.payload_type)
}

/// The remote codecs for the payload types `types`.
pub open spec fn remote_codecs_of(types: Seq<u8>, maps: Seq<RemoteRtpmap>, fmtps: Seq<RemoteFmtp>, fbs: Seq<RemoteRtcpFb>) -> Seq<CodecView> {
    types.map_values(|pt: u8| spec_remote_codec(pt, maps, fmtps, fbs).unwrap())
}

proof fn lemma_rtpmap_found(maps: Seq<RemoteRtpmap>, pt: u8, i: int, j: int)
    requires
        0 <= i <= j < maps.len(),
        maps[j].payload_type == pt,
    ensures
        rtpmap_from(maps, pt, i) is Some,
    decreases j - i,
{
    if maps[i].payload_type != pt {
        lemma_rtpmap_found(maps, pt, i + 1, j);
    }
}

/// The payload types that some codec descriptions describe.
pub fn rtpmap_payload_types(maps: &[RemoteRtpmap]) -> (r: Vec<u8>)
    ensures
        r@ == rtpmap_types(maps@),
{
    let mut r: Vec<u8> = Vec::new();
    let mut i: usize = 0;
    while i < maps.len()
        invariant
            i <= maps@.len(),
            r@ == rtpmap_types(maps@.take(i as int)),
        decreases maps@.len() - i,
    {
        r.push(maps[i].payload_type);
        assert(r@ =~= rtpmap_types(maps@.take(i + 1)));
        i = i + 1;
    }
    assert(maps@.take(i as int) =~= maps@);
    r
}

/// The remote codecs for payload types that all have a codec description.
pub fn remote_codecs(types: &[u8], maps: &[RemoteRtpmap], fmtps: &[RemoteFmtp], fbs: &[RemoteRtcpFb]) -> (r: Vec<Codec>)
    requires
        forall|k: int| 0 <= k < types@.len() ==> rtpmap_types(maps@).contains(#[trigger] types@[k]),
    ensures
        codec_views(r@) == remote_codecs_of(types@, maps@, fmtps@, fbs@),
{
    let mut r: Vec<Codec> = Vec::new();
    let mut i: usize = 0;
    while i < types.len()
        invariant
            i <= types@.len(),
            r@.len() == i,
            forall|k: int| 0 <= k < types@.len() ==> rtpmap_types(maps@).contains(#[trigger] types@[k]),
            codec_views(r@) == remote_codecs_of(types@.take(i as int), maps@, fmtps@, fbs@),
        decreases types@.len() - i,
    {
        let pt = types[i];
        proof {
            assert(rtpmap_types(maps@).contains(types@[i as int]));
            let j = choose|j: int| 0 <= j < rtpmap_types(maps@).len() && rtpmap_types(maps@)[j] == pt;
            lemma_rtpmap_found(maps@, pt, 0, j);
        }
        let c = match remote_codec(pt, maps, fmtps, fbs) {
            Some(c) => c,
            None => {
                assert(false);
                return r;
            },
        };
        let ghost before = r@;
        r.push(c);
        proof {
            assert forall|k: int| 0 <= k < i + 1 implies codec_views(r@)[k] == remote_codecs_of(
                types@.take(i + 1),
                maps@,
                fmtps@,
                fbs@,
            )[k] by {
                if k < i {
                    assert(r@[k] == before[k]);
                    assert(codec_views(before)[k] == remote_codecs_of(types@.take(i as int), maps@, fmtps@, fbs@)[k]);
                }
            }
            assert(codec_views(r@) =~= remote_codecs_of(types@.take(i + 1), maps@, fmtps@, fbs@));
        }
        i = i + 1;
    }
    assert(types@.take(i as int) =~= types@);
    r
}

/// A media line of a peer connection: its media id and index, the kind of
/// media it carries, the id of its transport (zero while it has none),
/// whether its local part changed since the last negotiation, the sources
/// of its remote and local streams, and the codecs and header extensions
/// of either side.
pub struct MediaLine {
    pub id: String,
    pub index: u32,
    pub kind: MediaKind,
    pub transport_id: u32,
    pub requires_negotiation: bool,
    pub remote_streams: Vec<u32>,
    pub local_streams: Vec<u32>,
    pub remote_codecs: Vec<Codec>,
    pub local_codecs: Vec<Codec>,
    pub remote_extensions: Vec<MediaExtension>,
    pub local_extensions: Vec<MediaExtension>,
}

impl MediaLine {
    /// A media line without transport, streams, codecs or extensions.
    pub fn new(index: u32, id: String, kind: MediaKind) -> (r: Self)
        ensures
            r.index == index,
            r.id == id,
            r.kind == kind,
            r.transport_id == 0,
            !r.requires_negotiation,
            r.remote_streams@.len() == 0,
            r.local_streams@.len() == 0,
            r.remote_codecs@.len() == 0,
            r.local_codecs@.len() == 0,
            r.remote_extensions@.len() == 0,
            r.local_extensions@.len() == 0,
    {
        MediaLine {
            id,
            index,
            kind,
            transport_id: 0,
            requires_negotiation: false,
            remote_streams: Vec::new(),
            local_streams: Vec::new(),
            remote_codecs: Vec::new(),
            local_codecs: Vec::new(),
            remote_extensions: Vec::new(),
            local_extensions: Vec::new(),
        }
    }

    /// What the local description says of an audio or video line: its
    /// local codecs and header extensions, and whether it has local and
    /// remote streams.
    pub fn local_content(&self) -> (r: LocalLineContent)
        ensures
            r matches LocalLineContent::Media { kind, codecs, extensions, has_local_streams, has_remote_streams } && kind
                == self.kind && codec_views(codecs@) == codec_views(self.local_codecs@) && extensions@
                == self.local_extensions@ && has_local_streams == (self.local_streams@.len() > 0) && has_remote_streams
                == (self.remote_streams@.len() > 0),
    {
        LocalLineContent::Media {
            kind: self.kind,
            codecs: copy_codecs(&self.local_codecs),
            extensions: copy_extensions(&self.local_extensions),
            has_local_streams: self.local_streams.len() > 0,
            has_remote_streams: self.remote_streams.len() > 0,
        }
    }

    /// Removes the local codec with the payload type `payload_type`; the
    /// line is to be negotiated again.
    pub fn unregister_local_codec(&mut self, payload_type: u8)
        ensures
            final(self).local_codecs@ == codecs_without(old(self).local_codecs@, payload_type),
            final(self).requires_negotiation,
            final(self).local_extensions == old(self).local_extensions,
            final(self).remote_codecs == old(self).remote_codecs,
            final(self).remote_extensions == old(self).remote_extensions,
            final(self).local_streams == old(self).local_streams,
            final(self).remote_streams == old(self).remote_streams,
            final(self).id == old(self).id,
            final(self).index == old(self).index,
            final(self).kind == old(self).kind,
            final(self).transport_id == old(self).transport_id,
    {
        let mut rest: Vec<Codec> = Vec::new();
        std::mem::swap(&mut rest, &mut self.local_codecs);
        let ghost all = rest@;
        let total = rest.len();
        let mut kept: Vec<Codec> = Vec::new();
        let mut k: usize = 0;
        while rest.len() > 0
            invariant
                k <= all.len(),
                all.len() == total,
                rest@ == all.skip(k as int),
                kept@ == codecs_without(all.take(k as int), payload_type),
            decreases rest@.len(),
        {
            let c = rest.remove(0);
            proof {
                assert(all.take(k + 1).drop_last() =~= all.take(k as int));
                assert(all.take(k + 1).last() == c);
            }
            if c.payload_type != payload_type {
                kept.push(c);
            }
            proof { assert(rest@ =~= all.skip(k + 1)); }
            k = k + 1;
        }
        proof { assert(all.take(k as int) =~= all); }
        self.local_codecs = kept;
        self.requires_negotiation = true;
    }

    /// Offers the codec `codec`, in place of the one with its payload type;
    /// the line is to be negotiated again.
    pub fn register_local_codec(&mut self, codec: Codec)
        ensures
            final(self).local_codecs@ == codecs_without(old(self).local_codecs@, codec.payload_type).push(codec),
            final(self).requires_negotiation,
            final(self).local_extensions == old(self).local_extensions,
            final(self).remote_codecs == old(self).remote_codecs,
            final(self).local_streams == old(self).local_streams,
            final(self).remote_streams == old(self).remote_streams,
            final(self).kind == old(self).kind,
            final(self).transport_id == old(self).transport_id,
    {
        self.unregister_local_codec(codec.payload_type);
        self.local_codecs.push(codec);
        self.requires_negotiation = true;
    }

    /// Removes the local header extension with the id `extension_id`; the
    /// line is to be negotiated again.
    pub fn unregister_local_extension(&mut self, extension_id: u16)
        ensures
            final(self).local_extensions@ == extensions_without(old(self).local_extensions@, extension_id),
            final(self).requires_negotiation,
            final(self).local_codecs == old(self).local_codecs,
            final(self).remote_codecs == old(self).remote_codecs,
            final(self).remote_extensions == old(self).remote_extensions,
            final(self).local_streams == old(self).local_streams,
            final(self).remote_streams == old(self).remote_streams,
            final(self).kind == old(self).kind,
            final(self).transport_id == old(self).transport_id,
    {
        let mut rest: Vec<MediaExtension> = Vec::new();
        std::mem::swap(&mut rest, &mut self.local_extensions);
        let ghost all = rest@;
        let total = rest.len();
        let mut kept: Vec<MediaExtension> = Vec::new();
        let mut k: usize = 0;
        while rest.len() > 0
            invariant
                k <= all.len(),
                all.len() == total,
                rest@ == all.skip(k as int),
                kept@ == extensions_without(all.take(k as int), extension_id),
            decreases rest@.len(),
        {
            let e = rest.remove(0);
            proof {
                assert(all.take(k + 1).drop_last() =~= all.take(k as int));
                assert(all.take(k + 1).last() == e);
            }
            if e.id != extension_id {
                kept.push(e);
            }
            proof { assert(rest@ =~= all.skip(k + 1)); }
            k = k + 1;
        }
        proof { assert(all.take(k as int) =~= all); }
        self.local_extensions = kept;
        self.requires_negotiation = true;
    }

    /// Offers the header extension `extension`, in place of the one with
    /// its id; the line is to be negotiated again.
    pub fn register_local_extension(&mut self, extension: MediaExtension)
        ensures
            final(self).local_extensions@ == extensions_without(old(self).local_extensions@, extension.id).push(extension),
            final(self).requires_negotiation,
            final(self).local_codecs == old(self).local_codecs,
            final(self).remote_codecs == old(self).remote_codecs,
            final(self).local_streams == old(self).local_streams,
            final(self).remote_streams == old(self).remote_streams,
            final(self).kind == old(self).kind,
            final(self).transport_id == old(self).transport_id,
    {
        self.unregister_local_extension(extension.id);
        self.local_extensions.push(extension);
        self.requires_negotiation = true;
    }
}

} // verus!
