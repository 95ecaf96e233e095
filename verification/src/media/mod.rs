//! Media streams: the parts that run without a peer connection.
use vstd::prelude::*;
use crate::error::Error;
use crate::utils::rtcp::RtcpReportBlock;
use crate::utils::rtcp::packets::{RtcpTransportFeedback, RtcpPayloadFeedback, RtcpPacketExtendedReport};

pub mod receiver_stats;
pub mod sender;
pub mod receiver;
pub mod media_line;
use sender::{MediaSenderSharedData, SharedDataView, props_map, opt_text};
pub use receiver_stats::ReceiverStats;

verus! {

#[derive(Debug, PartialEq, Eq, Copy, Clone, Structural)]
pub enum NegotiationState {
    /// Nothing has been negotiated yet.
    Nothing,
    Changed,
    Propagated,
    Negotiated,
}

#[derive(Debug)]
pub enum ControlDataSendError {
    BuildFailed(Error),
    SendFailed,
}

#[derive(Debug, PartialEq, Eq, Clone, Copy, Structural)]
pub enum MediaLineParseError {
    MissingMediaId,
    InvalidFormatList,
    MissingCodecDescription(u32),
    InvalidSendRecvStatus,
}

#[derive(Debug)]
pub enum MediaSenderEvent {
    UnknownRtcpPacketReceived(Vec<u8>),
    ReceiverReportReceived(RtcpReportBlock),
    TransportFeedbackReceived(RtcpTransportFeedback),
    PayloadFeedbackReceived(RtcpPayloadFeedback),
    ExtendedReportReceived(RtcpPacketExtendedReport),
    /// The remote supported codecs have been updated.
    /// This could have two reasons:
    /// 1. We initially received the remote codecs
    /// 2. The remote has narrowed their supported codecs
    RemoteCodecsUpdated,
}


pub struct SsrcAttributeView {
    pub id: u32,
    pub attribute: Option<Seq<char>>,
    pub value: Option<Seq<char>>,
}

/// A source attribute of a media description (RFC 5576 `a=ssrc`): the
/// source, and the name and value of one of its properties where given.
#[derive(Debug, Clone, PartialEq)]
pub struct SsrcAttribute {
    pub id: u32,
    pub attribute: Option<String>,
    pub value: Option<String>,
}

impl View for SsrcAttribute {
    type V = SsrcAttributeView;

    open spec fn view(&self) -> SsrcAttributeView {
        SsrcAttributeView { id: self.id, attribute: opt_text(self.attribute), value: opt_text(self.value) }
    }
}

pub open spec fn ssrc_views(v: Seq<SsrcAttribute>) -> Seq<SsrcAttributeView> {
    v.map_values(|a: SsrcAttribute| a@)
}

/// The properties that the source attributes `attrs` give the source `id`,
/// a later attribute overriding an earlier one.
pub open spec fn ssrc_properties(attrs: Seq<SsrcAttributeView>, id: u32) -> Map<Seq<char>, Option<Seq<char>>>
    decreases attrs.len(),
{
    if attrs.len() == 0 {
        Map::empty()
    } else {
        let m = ssrc_properties(attrs.drop_last(), id);
        let a = attrs.last();
        match a.attribute {
            Some(k) => if a.id == id { m.insert(k, a.value) } else { m },
            None => m,
        }
    }
}

/// The source attributes of the source `id` for property entries.
pub open spec fn entry_ssrcs(entries: Seq<(String, Option<String>)>, id: u32) -> Seq<SsrcAttributeView> {
    entries.map_values(|e: (String, Option<String>)| SsrcAttributeView { id, attribute: Some(e.0@), value: opt_text(e.1) })
}

pub(crate) fn copy_text(s: &Option<String>) -> (r: Option<String>)
    ensures
        opt_text(r) == opt_text(*s),
{
    match s {
        Some(t) => Some(t.clone()),
        None => None,
    }
}

/// A track of the connection: its source id, and where it is sent.
#[derive(Debug)]
pub struct InternalMediaTrack {
    pub id: u32,
    pub media_line: u32,
    pub transport_id: u32,
}

impl InternalMediaTrack {
    /// Replaces the properties by those that the source attributes of a
    /// media description give the source `id`.
    pub fn parse_properties_from_sdp(properties: &mut MediaSenderSharedData, id: u32, attributes: &Vec<SsrcAttribute>)
        requires
            old(properties).wf(),
        ensures
            final(properties).wf(),
            final(properties)@ == (SharedDataView {
                properties: ssrc_properties(ssrc_views(attributes@), id),
                ..old(properties)@
            }),
    {
        properties.clear_properties();
        let mut i: usize = 0;
        while i < attributes.len()
            invariant
                properties.wf(),
                i <= attributes.len(),
                properties@ == (SharedDataView {
                    properties: ssrc_properties(ssrc_views(attributes@).take(i as int), id),
                    ..old(properties)@
                }),
            decreases attributes.len() - i,
        {
            proof {
                assert(ssrc_views(attributes@).take(i + 1).drop_last() =~= ssrc_views(attributes@).take(i as int));
                assert(ssrc_views(attributes@).take(i + 1).last() == attributes@[i as int]@);
            }
            let a = &attributes[i];
            if a.id == id {
                match &a.attribute {
                    Some(key) => properties.insert_property(key.clone(), copy_text(&a.value)),
                    None => {},
                }
            }
            i = i + 1;
        }
        proof { assert(ssrc_views(attributes@).take(attributes@.len() as int) =~= ssrc_views(attributes@)); }
    }

    /// The source attributes that describe the properties of the source
    /// `id`: one per property, or a bare one where there is none.
    pub fn write_sdp(properties: &MediaSenderSharedData, id: u32) -> (r: Vec<SsrcAttribute>)
        ensures
            properties.entries().len() == 0 ==> ssrc_views(r@) == seq![SsrcAttributeView { id, attribute: None, value: None }],
            properties.entries().len() > 0 ==> ssrc_views(r@) == entry_ssrcs(properties.entries(), id),
    {
        let entries = properties.properties();
        let mut r: Vec<SsrcAttribute> = Vec::new();
        if entries.len() == 0 {
            r.push(SsrcAttribute { id, attribute: None, value: None });
            proof { assert(ssrc_views(r@) =~= seq![SsrcAttributeView { id, attribute: None, value: None }]); }
            return r;
        }
        let mut i: usize = 0;
        while i < entries.len()
            invariant
                i <= entries.len(),
                r@.len() == i,
                ssrc_views(r@) == entry_ssrcs(entries@.take(i as int), id),
            decreases entries.len() - i,
        {
            let entry = &entries[i];
            let attribute = entry.0.clone();
            let value = copy_text(&entry.1);
            let ghost before = r@;
            r.push(SsrcAttribute { id, attribute: Some(attribute), value });
            proof {
                assert(entry == entries@[i as int]);
                assert(r@ == before.push(SsrcAttribute { id, attribute: Some(attribute), value }));
                assert(ssrc_views(r@).last() == (SsrcAttributeView { id, attribute: Some(entry.0@), value: opt_text(entry.1) }));
                assert forall|j: int| 0 <= j < i implies ssrc_views(r@)[j] == entry_ssrcs(entries@.take(i + 1), id)[j] by {
                    assert(r@[j] == before[j]);
                    assert(ssrc_views(before)[j] == entry_ssrcs(entries@.take(i as int), id)[j]);
                    assert(entries@.take(i as int)[j] == entries@.take(i + 1)[j]);
                }
                assert(ssrc_views(r@) =~= entry_ssrcs(entries@.take(i + 1), id));
            }
            i = i + 1;
        }
        proof { assert(entries@.take(entries@.len() as int) =~= entries@); }
        r
    }
}


/// The sources of `ids` in the order they first occur, each once.
pub open spec fn distinct_ids(ids: Seq<u32>) -> Seq<u32>
    decreases ids.len(),
{
    if ids.len() == 0 {
        Seq::empty()
    } else {
        let d = distinct_ids(ids.drop_last());
        if d.contains(ids.last()) { d } else { d.push(ids.last()) }
    }
}

/// The remote streams of a description hold each of its sources once, and
/// no other.
pub proof fn lemma_distinct_ids(ids: Seq<u32>)
    ensures
        forall|i: int, j: int| 0 <= i < j < distinct_ids(ids).len() ==> distinct_ids(ids)[i] != distinct_ids(ids)[j],
        forall|x: u32| distinct_ids(ids).contains(x) <==> ids.contains(x),
    decreases ids.len(),
{
    if ids.len() > 0 {
        let t = ids.drop_last();
        let last = ids.last();
        let d = distinct_ids(t);
        lemma_distinct_ids(t);
        if !d.contains(last) {
            assert(d.push(last)[d.len() as int] == last);
        }
        assert(distinct_ids(ids).contains(last));
        assert(ids[ids.len() - 1] == last);
        assert forall|x: u32| x != last implies (distinct_ids(ids).contains(x) <==> d.contains(x)) by {
            if !d.contains(last) {
                if d.push(last).contains(x) {
                    let k = choose|k: int| 0 <= k < d.len() + 1 && d.push(last)[k] == x;
                    assert(k < d.len());
                    assert(d[k] == x);
                }
                if d.contains(x) {
                    let k = choose|k: int| 0 <= k < d.len() && d[k] == x;
                    assert(d.push(last)[k] == x);
                }
            }
        }
        assert forall|x: u32| x != last implies (ids.contains(x) <==> t.contains(x)) by {
            if t.contains(x) {
                let k = choose|k: int| 0 <= k < t.len() && t[k] == x;
                assert(ids[k] == x);
            }
            if ids.contains(x) {
                let k = choose|k: int| 0 <= k < ids.len() && ids[k] == x;
                assert(k < ids.len() - 1);
                assert(t[k] == x);
            }
        }
    }
}

/// The remote streams a media description announces: the sources of its
/// source attributes, each once, unless it only receives.
pub fn remote_streams_from_sdp(receive_only: bool, ssrc_ids: &[u32]) -> (r: Vec<u32>)
    ensures
        r@ == (if receive_only { Seq::empty() } else { distinct_ids(ssrc_ids@) }),
{
    let mut r: Vec<u32> = Vec::new();
    if receive_only {
        return r;
    }
    let mut i: usize = 0;
    while i < ssrc_ids.len()
        invariant
            i <= ssrc_ids.len(),
            r@ == distinct_ids(ssrc_ids@.take(i as int)),
        decreases ssrc_ids.len() - i,
    {
        let id = ssrc_ids[i];
        proof {
            assert(ssrc_ids@.take(i + 1).drop_last() =~= ssrc_ids@.take(i as int));
            assert(ssrc_ids@.take(i + 1).last() == id);
        }
        let mut seen = false;
        let mut j: usize = 0;
        while j < r.len()
            invariant
                j <= r.len(),
                seen == (exists|k: int| 0 <= k < j && r@[k] == id),
            decreases r.len() - j,
        {
            if r[j] == id {
                seen = true;
            }
            j = j + 1;
        }
        if !seen {
            r.push(id);
        }
        i = i + 1;
    }
    proof { assert(ssrc_ids@.take(ssrc_ids@.len() as int) =~= ssrc_ids@); }
    r
}

/// The direction a media line announces (RFC 3264 section 5.1).
#[derive(Debug, PartialEq, Eq, Clone, Copy, Structural)]
pub enum MediaDirection {
    Inactive,
    Recvonly,
    Sendonly,
    Sendrecv,
}

/// The direction of a media line with or without local and remote
/// streams: it sends what it has and receives what the other side has.
pub open spec fn spec_media_direction(no_local_streams: bool, no_remote_streams: bool) -> MediaDirection {
    if no_local_streams && no_remote_streams {
        MediaDirection::Inactive
    } else if no_local_streams {
        MediaDirection::Recvonly
    } else if no_remote_streams {
        MediaDirection::Sendonly
    } else {
        MediaDirection::Sendrecv
    }
}

/// The direction of a media line with or without local and remote
/// streams: it sends what it has and receives what the other side has.
pub fn local_media_direction(no_local_streams: bool, no_remote_streams: bool) -> (r: MediaDirection)
    ensures
        r == spec_media_direction(no_local_streams, no_remote_streams),
{
    if no_local_streams && no_remote_streams {
        MediaDirection::Inactive
    } else if no_local_streams {
        MediaDirection::Recvonly
    } else if no_remote_streams {
        MediaDirection::Sendonly
    } else {
        MediaDirection::Sendrecv
    }
}


/// The first format, from the front, that no codec description (`rtpmap`)
/// describes; a format names the payload type of its low eight bits.
pub open spec fn first_undescribed(formats: Seq<u32>, rtpmaps: Seq<u8>) -> Option<u32>
    decreases formats.len(),
{
    if formats.len() == 0 {
        None
    } else if !rtpmaps.contains((formats[0] % 256) as u8) {
        Some(formats[0])
    } else {
        first_undescribed(formats.drop_first(), rtpmaps)
    }
}

/// The payload types of the codecs a remote media description gives its
/// media line, in the order of its formats, or why it is refused: it needs
/// a media id; an application line may neither only send nor only
/// receive, and has no codecs; any other line lists its formats as numbers,
/// each with a codec description. `formats` is `None` where the formats
/// are not numbers.
pub open spec fn spec_media_line_codecs(
    has_mid: bool,
    application: bool,
    receive_only: bool,
    send_only: bool,
    formats: Option<Seq<u32>>,
    rtpmaps: Seq<u8>,
) -> Result<Seq<u8>, MediaLineParseError> {
    if !has_mid {
        Err(MediaLineParseError::MissingMediaId)
    } else if application {
        if receive_only || send_only {
            Err(MediaLineParseError::InvalidSendRecvStatus)
        } else {
            Ok(Seq::empty())
        }
    } else {
        match formats {
            None => Err(MediaLineParseError::InvalidFormatList),
            Some(f) => match first_undescribed(f, rtpmaps) {
                Some(x) => Err(MediaLineParseError::MissingCodecDescription(x)),
                None => Ok(f.map_values(|x: u32| (x % 256) as u8)),
            },
        }
    }
}

proof fn lemma_first_undescribed_none(formats: Seq<u32>, rtpmaps: Seq<u8>)
    requires
        first_undescribed(formats, rtpmaps) is None,
    ensures
        forall|k: int| 0 <= k < formats.len() ==> rtpmaps.contains((#[trigger] formats[k] % 256) as u8),
    decreases formats.len(),
{
    if formats.len() > 0 {
        lemma_first_undescribed_none(formats.drop_first(), rtpmaps);
        assert forall|k: int| 0 <= k < formats.len() implies rtpmaps.contains((#[trigger] formats[k] % 256) as u8) by {
            if k > 0 {
                assert(formats[k] == formats.drop_first()[k - 1]);
            }
        }
    }
}

/// The payload types of the codecs of a media line that is not refused
/// all have a codec description.
pub proof fn lemma_codecs_described(
    has_mid: bool,
    application: bool,
    receive_only: bool,
    send_only: bool,
    formats: Option<Seq<u32>>,
    rtpmaps: Seq<u8>,
)
    ensures
        (spec_media_line_codecs(has_mid, application, receive_only, send_only, formats, rtpmaps) matches Ok(types)
            ==> forall|k: int| 0 <= k < types.len() ==> rtpmaps.contains(#[trigger] types[k])),
{
    if has_mid && !application {
        if let Some(f) = formats {
            if first_undescribed(f, rtpmaps) is None {
                lemma_first_undescribed_none(f, rtpmaps);
                let types = f.map_values(|x: u32| (x % 256) as u8);
                assert forall|k: int| 0 <= k < types.len() implies rtpmaps.contains(#[trigger] types[k]) by {
                    assert(rtpmaps.contains((f[k] % 256) as u8));
                }
            }
        }
    }
}

fn contains_payload_type(list: &[u8], t: u8) -> (r: bool)
    ensures
        r == list@.contains(t),
{
    let mut i: usize = 0;
    while i < list.len()
        invariant
            i <= list.len(),
            forall|k: int| 0 <= k < i ==> list@[k] != t,
        decreases list.len() - i,
    {
        if list[i] == t {
            return true;
        }
        i = i + 1;
    }
    false
}

pub fn media_line_codecs(
    has_mid: bool,
    application: bool,
    receive_only: bool,
    send_only: bool,
    formats: Option<&[u32]>,
    rtpmaps: &[u8],
) -> (r: Result<Vec<u8>, MediaLineParseError>)
    ensures
        match (r, spec_media_line_codecs(
            has_mid,
            application,
            receive_only,
            send_only,
            match formats { Some(f) => Some(f@), None => None },
            rtpmaps@,
        )) {
            (Ok(v), Ok(w)) => v@ == w,
            (Err(e), Err(f)) => e == f,
            _ => false,
        },
{
    if !has_mid {
        return Err(MediaLineParseError::MissingMediaId);
    }
    if application {
        if receive_only || send_only {
            return Err(MediaLineParseError::InvalidSendRecvStatus);
        }
        let none: Vec<u8> = Vec::new();
        proof { assert(none@ =~= Seq::<u8>::empty()); }
        return Ok(none);
    }
    let list = match formats {
        Some(f) => f,
        None => return Err(MediaLineParseError::InvalidFormatList),
    };
    let mut out: Vec<u8> = Vec::new();
    let mut i: usize = 0;
    proof { assert(list@.skip(0) =~= list@); }
    while i < list.len()
        invariant
            formats == Some(list),
            has_mid && !application,
            i <= list.len(),
            out@ == list@.take(i as int).map_values(|x: u32| (x % 256) as u8),
            first_undescribed(list@, rtpmaps@) == first_undescribed(list@.skip(i as int), rtpmaps@),
        decreases list.len() - i,
    {
        let format = list[i];
        let payload_type = (format % 256) as u8;
        proof {
            assert(list@.skip(i as int)[0] == format);
            assert(list@.skip(i as int).drop_first() =~= list@.skip(i + 1));
        }
        if !contains_payload_type(rtpmaps, payload_type) {
            assert(first_undescribed(list@.skip(i as int), rtpmaps@) == Some(format));
            return Err(MediaLineParseError::MissingCodecDescription(format));
        }
        out.push(payload_type);
        proof {
            assert(out@ =~= list@.take(i + 1).map_values(|x: u32| (x % 256) as u8));
        }
        i = i + 1;
    }
    proof {
        assert(list@.take(list@.len() as int) =~= list@);
        assert(list@.skip(list@.len() as int) =~= Seq::<u32>::empty());
    }
    Ok(out)
}

} // verus!
