//! Session descriptions as plain values: what a peer connection puts into
//! the description it creates, and what applying a remote description
//! does to its media lines and transports.
use vstd::prelude::*;
use crate::media::{NegotiationState, SsrcAttribute, ssrc_views, copy_text, MediaDirection,
    spec_media_direction, local_media_direction};
use crate::media::{MediaLineParseError, spec_media_line_codecs, media_line_codecs, distinct_ids, remote_streams_from_sdp};
use crate::rtc::{SignallingState, SetupRole, MediaKind, CreateAnswerError, RtcDescriptionType, spec_local_allowed,
    spec_after_local, spec_line_after_local, line_after_local_description, spec_remote_allowed, spec_after_remote,
    spec_line_after_remote, line_after_remote_description, RemoteDescriptionApplyError, spec_remote_line_transport,
    remote_line_transport, opt_chars, TransportKey, transport_key, transport_keys, spec_first_shared, shared_transport,
    spec_setup_is, check_known_line, check_media_line_count};
use crate::media::media_line::{Codec, CodecView, MediaExtension, RemoteRtpmap, RemoteFmtp, RemoteRtcpFb, codec_views,
    copy_codecs, copy_extensions, rtpmap_types, remote_codecs_of, rtpmap_payload_types, remote_codecs};
use crate::media::lemma_codecs_described;
use crate::transport::{ICECredentials, RTPTransportSetup, spec_announced_setup, announced_setup};

verus! {

// ---------------------------------------------------------------------------
// The local description
// ---------------------------------------------------------------------------

/// What a media line holds for its local description.
#[derive(Debug, Clone)]
pub enum LocalLineContent {
    /// A data channel line: the local SCTP port and the number of streams
    /// the association offers.
    Application { sctp_port: u16, max_channels: u16 },
    /// An audio or video line: its local codecs and header extensions, in
    /// order, and whether it has local and remote streams.
    Media {
        kind: MediaKind,
        codecs: Vec<Codec>,
        extensions: Vec<MediaExtension>,
        has_local_streams: bool,
        has_remote_streams: bool,
    },
}

/// A media line of a peer connection, as its local description needs it:
/// its index, its media id, the id of its transport, how far its
/// negotiation got, what it holds, and the source attributes its senders
/// describe.
#[derive(Debug, Clone)]
pub struct LocalLine {
    pub index: u32,
    pub mid: String,
    pub transport_id: u32,
    pub negotiation_state: NegotiationState,
    pub content: LocalLineContent,
    pub ssrc_attributes: Vec<SsrcAttribute>,
}

/// A transport of a peer connection, as a local description announces it:
/// its id, its local ICE credentials, the fingerprint of its certificate
/// and its setup role.
#[derive(Debug, Clone)]
pub struct LocalTransport {
    pub id: u32,
    pub credentials: ICECredentials,
    pub fingerprint: Vec<u8>,
    pub setup: RTPTransportSetup,
}

/// What a media description of the local description carries besides its
/// transport attributes.
#[derive(Debug, Clone)]
pub enum LocalMediaContent {
    /// A data channel: `m=application` over DTLS/SCTP with its `sctpmap`.
    Application { sctp_port: u16, max_channels: u16 },
    /// Audio or video over UDP/TLS/RTP/SAVPF with RTP and RTCP on one port:
    /// its codecs (whose payload types are its formats, each described by
    /// its `rtpmap`, `fmtp` and `rtcp-fb` attributes), its header
    /// extensions and its direction.
    Media { kind: MediaKind, codecs: Vec<Codec>, extensions: Vec<MediaExtension>, direction: MediaDirection },
}

/// One media description of the local description: its media id, its
/// content, the ICE credentials of its transport with the trickle option,
/// the fingerprint and setup role of its transport, and its source
/// attributes.
#[derive(Debug, Clone)]
pub struct LocalMediaDescription {
    pub mid: String,
    pub content: LocalMediaContent,
    pub ice_ufrag: String,
    pub ice_pwd: String,
    pub trickle: bool,
    pub fingerprint: Vec<u8>,
    pub setup: SetupRole,
    pub ssrc_attributes: Vec<SsrcAttribute>,
}

/// A local description: the media ids grouped into one BUNDLE, in order,
/// and a media description per media line.
#[derive(Debug, Clone)]
pub struct LocalDescription {
    pub bundle: Vec<String>,
    pub media: Vec<LocalMediaDescription>,
}

/// The position of the first transport of `ts` from `i` on with the id `id`.
pub open spec fn transport_from(ts: Seq<LocalTransport>, id: u32, i: int) -> Option<int>
    decreases ts.len() - i,
{
    if i < 0 || i >= ts.len() {
        None
    } else if ts[i].id == id {
        Some(i)
    } else {
        transport_from(ts, id, i + 1)
    }
}

proof fn lemma_transport_from(ts: Seq<LocalTransport>, id: u32, i: int)
    ensures
        transport_from(ts, id, i) matches Some(j) ==> 0 <= i <= j < ts.len() && ts[j].id == id,
    decreases ts.len() - i,
{
    if 0 <= i < ts.len() && ts[i].id != id {
        lemma_transport_from(ts, id, i + 1);
    }
}

/// Why the media line `line` cannot be described: an audio or video line
/// without codecs, or a line whose transport is gone.
pub open spec fn line_error(line: LocalLine, ts: Seq<LocalTransport>) -> Option<CreateAnswerError> {
    if line.content matches LocalLineContent::Media { codecs, .. } && codecs@.len() == 0 {
        Some(CreateAnswerError::DescribeError(line.index))
    } else if transport_from(ts, line.transport_id, 0) is None {
        Some(CreateAnswerError::MissingTransportChannel(line.index))
    } else {
        None
    }
}

/// Why a local description cannot be made from the media lines from `i`
/// on: the error of the first line that cannot be described.
pub open spec fn lines_error(lines: Seq<LocalLine>, ts: Seq<LocalTransport>, i: int) -> Option<CreateAnswerError>
    decreases lines.len() - i,
{
    if i < 0 || i >= lines.len() {
        None
    } else if line_error(lines[i], ts) is Some {
        line_error(lines[i], ts)
    } else {
        lines_error(lines, ts, i + 1)
    }
}

/// Why a local description cannot be made in the signalling state `state`
/// for the media lines `lines`, if it cannot.
pub open spec fn create_error(state: SignallingState, lines: Seq<LocalLine>, ts: Seq<LocalTransport>) -> Option<CreateAnswerError> {
    if !spec_local_allowed(state) {
        Some(CreateAnswerError::InvalidNegotiationState)
    } else {
        lines_error(lines, ts, 0)
    }
}

/// `d` describes the media line `line` over the transport `t`.
pub open spec fn describes(d: LocalMediaDescription, line: LocalLine, t: LocalTransport) -> bool {
    &&& d.mid@ == line.mid@
    &&& d.ice_ufrag@ == t.credentials.username@
    &&& d.ice_pwd@ == t.credentials.password@
    &&& d.trickle
    &&& d.fingerprint@ == t.fingerprint@
    &&& d.setup == spec_announced_setup(t.setup)
    &&& match line.content {
        LocalLineContent::Application { sctp_port, max_channels } => {
            &&& d.content matches LocalMediaContent::Application { sctp_port: p, max_channels: c } && p == sctp_port
                && c == max_channels
            &&& d.ssrc_attributes@.len() == 0
        },
        LocalLineContent::Media { kind, codecs, extensions, has_local_streams, has_remote_streams } => {
            &&& d.content matches LocalMediaContent::Media { kind: k, codecs: c, extensions: x, direction } && k == kind
                && codec_views(c@) == codec_views(codecs@) && x@ == extensions@ && direction == spec_media_direction(
                !has_local_streams,
                !has_remote_streams,
            )
            &&& ssrc_views(d.ssrc_attributes@) == ssrc_views(line.ssrc_attributes@)
        },
    }
}

/// `d` describes the media line `line` over its transport among `ts`: the
/// first one with the id the line names.
pub open spec fn describes_line(d: LocalMediaDescription, line: LocalLine, ts: Seq<LocalTransport>) -> bool {
    transport_from(ts, line.transport_id, 0) matches Some(j) && describes(d, line, ts[j])
}

/// The texts of some strings.
pub open spec fn texts(v: Seq<String>) -> Seq<Seq<char>> {
    v.map_values(|s: String| s@)
}

/// The media ids of some media lines.
pub open spec fn line_mids(lines: Seq<LocalLine>) -> Seq<Seq<char>> {
    lines.map_values(|l: LocalLine| l.mid@)
}

/// A copy of some source attributes.
fn copy_ssrc_attributes(v: &Vec<SsrcAttribute>) -> (r: Vec<SsrcAttribute>)
    ensures
        ssrc_views(r@) == ssrc_views(v@),
{
    let mut r: Vec<SsrcAttribute> = Vec::new();
    let mut i: usize = 0;
    while i < v.len()
        invariant
            i <= v@.len(),
            r@.len() == i,
            forall|k: int| 0 <= k < i ==> (#[trigger] r@[k])@ == v@[k]@,
        decreases v@.len() - i,
    {
        let a = &v[i];
        r.push(SsrcAttribute { id: a.id, attribute: copy_text(&a.attribute), value: copy_text(&a.value) });
        i = i + 1;
    }
    assert(ssrc_views(r@) =~= ssrc_views(v@));
    r
}

/// The position of the first transport with the id `id`, if any.
fn find_transport(ts: &[LocalTransport], id: u32) -> (r: Option<usize>)
    ensures
        match r {
            Some(i) => transport_from(ts@, id, 0) == Some(i as int),
            None => transport_from(ts@, id, 0) is None,
        },
{
    let mut i: usize = 0;
    while i < ts.len()
        invariant
            i <= ts@.len(),
            transport_from(ts@, id, 0) == transport_from(ts@, id, i as int),
        decreases ts@.len() - i,
    {
        if ts[i].id == id {
            return Some(i);
        }
        i = i + 1;
    }
    None
}

/// The media description of `line` over the transport `t`.
fn describe_line(line: &LocalLine, t: &LocalTransport) -> (r: LocalMediaDescription)
    ensures
        describes(r, *line, *t),
{
    let (content, ssrc_attributes) = match &line.content {
        LocalLineContent::Application { sctp_port, max_channels } => (
            LocalMediaContent::Application { sctp_port: *sctp_port, max_channels: *max_channels },
            Vec::new(),
        ),
        LocalLineContent::Media { kind, codecs, extensions, has_local_streams, has_remote_streams } => (
            LocalMediaContent::Media {
                kind: *kind,
                codecs: copy_codecs(codecs),
                extensions: copy_extensions(extensions),
                direction: local_media_direction(!*has_local_streams, !*has_remote_streams),
            },
            copy_ssrc_attributes(&line.ssrc_attributes),
        ),
    };
    LocalMediaDescription {
        mid: line.mid.clone(),
        content,
        ice_ufrag: t.credentials.username.clone(),
        ice_pwd: t.credentials.password.clone(),
        trickle: true,
        fingerprint: t.fingerprint.clone(),
        setup: announced_setup(t.setup),
        ssrc_attributes,
    }
}

/// Creates the local description of a peer connection in the signalling
/// state `state` with the media lines `lines` over the transports
/// `transports`, with the negotiation states of its senders: the
/// description, the signalling state after it, and the negotiation states
/// of the lines and of the senders after it. It is refused while a local
/// offer waits for its answer or when all is negotiated, and for the first
/// line that has no codecs or whose transport is gone.
pub fn create_local_description(
    state: SignallingState,
    lines: &[LocalLine],
    transports: &[LocalTransport],
    senders: &[NegotiationState],
) -> (r: Result<(LocalDescription, SignallingState, Vec<NegotiationState>, Vec<NegotiationState>), CreateAnswerError>)
    ensures
        match create_error(state, lines@, transports@) {
            Some(e) => r == Err::<(LocalDescription, SignallingState, Vec<NegotiationState>, Vec<NegotiationState>), CreateAnswerError>(e),
            None => r matches Ok((d, s, line_states, sender_states)) && {
                &&& texts(d.bundle@) == line_mids(lines@)
                &&& d.media@.len() == lines@.len()
                &&& forall|i: int| 0 <= i < lines@.len() ==> describes_line(#[trigger] d.media@[i], lines@[i], transports@)
                &&& s == spec_after_local(state)
                &&& line_states@.len() == lines@.len()
                &&& forall|i: int| 0 <= i < lines@.len() ==> #[trigger] line_states@[i] == spec_line_after_local(
                    state,
                    lines@[i].negotiation_state,
                )
                &&& sender_states@.len() == senders@.len()
                &&& forall|i: int| 0 <= i < senders@.len() ==> #[trigger] sender_states@[i] == spec_line_after_local(
                    state,
                    senders@[i],
                )
            },
        },
{
    if !state.local_description_allowed() {
        return Err(CreateAnswerError::InvalidNegotiationState);
    }
    let mut bundle: Vec<String> = Vec::new();
    let mut media: Vec<LocalMediaDescription> = Vec::new();
    let mut line_states: Vec<NegotiationState> = Vec::new();
    let mut i: usize = 0;
    while i < lines.len()
        invariant
            spec_local_allowed(state),
            i <= lines@.len(),
            lines_error(lines@, transports@, 0) == lines_error(lines@, transports@, i as int),
            bundle@.len() == i,
            media@.len() == i,
            line_states@.len() == i,
            forall|k: int| 0 <= k < i ==> (#[trigger] bundle@[k])@ == lines@[k].mid@,
            forall|k: int| 0 <= k < i ==> describes_line(#[trigger] media@[k], lines@[k], transports@),
            forall|k: int| 0 <= k < i ==> #[trigger] line_states@[k] == spec_line_after_local(
                state,
                lines@[k].negotiation_state,
            ),
        decreases lines@.len() - i,
    {
        let line = &lines[i];
        if let LocalLineContent::Media { codecs, .. } = &line.content {
            if codecs.len() == 0 {
                return Err(CreateAnswerError::DescribeError(line.index));
            }
        }
        let j = match find_transport(transports, line.transport_id) {
            Some(j) => j,
            None => return Err(CreateAnswerError::MissingTransportChannel(line.index)),
        };
        proof { lemma_transport_from(transports@, line.transport_id, 0); }
        let d = describe_line(line, &transports[j]);
        let ghost (b0, m0, s0) = (bundle@, media@, line_states@);
        bundle.push(line.mid.clone());
        media.push(d);
        line_states.push(line_after_local_description(state, line.negotiation_state));
        proof {
            assert forall|k: int| 0 <= k < i + 1 implies (#[trigger] bundle@[k])@ == lines@[k].mid@ by {
                if k < i {
                    assert(bundle@[k] == b0[k]);
                }
            }
            assert forall|k: int| 0 <= k < i + 1 implies describes_line(#[trigger] media@[k], lines@[k], transports@) by {
                if k < i {
                    assert(media@[k] == m0[k]);
                }
            }
            assert forall|k: int| 0 <= k < i + 1 implies #[trigger] line_states@[k] == spec_line_after_local(
                state,
                lines@[k].negotiation_state,
            ) by {
                if k < i {
                    assert(line_states@[k] == s0[k]);
                }
            }
        }
        i = i + 1;
    }
    let mut sender_states: Vec<NegotiationState> = Vec::new();
    let mut k: usize = 0;
    while k < senders.len()
        invariant
            k <= senders@.len(),
            sender_states@.len() == k,
            forall|m: int| 0 <= m < k ==> #[trigger] sender_states@[m] == spec_line_after_local(state, senders@[m]),
        decreases senders@.len() - k,
    {
        sender_states.push(line_after_local_description(state, senders[k]));
        k = k + 1;
    }
    proof {
        assert(texts(bundle@) =~= line_mids(lines@));
    }
    Ok((LocalDescription { bundle, media }, state.after_local_description(), line_states, sender_states))
}

// ---------------------------------------------------------------------------
// Applying a remote description
// ---------------------------------------------------------------------------

/// A media line of a remote description, as far as applying it reads it:
/// its ICE credentials and setup role, whether it has a media id, whether
/// it is an application line and only receives or only sends, its formats
/// (`None` where they are not numbers), its codec descriptions, format
/// parameters and RTCP feedbacks, and the sources of its source
/// attributes.
#[derive(Debug, Clone)]
pub struct RemoteMediaLine {
    pub ice_ufrag: Option<String>,
    pub ice_pwd: Option<String>,
    pub setup: Option<SetupRole>,
    pub has_mid: bool,
    pub application: bool,
    pub receive_only: bool,
    pub send_only: bool,
    pub formats: Option<Vec<u32>>,
    pub rtpmaps: Vec<RemoteRtpmap>,
    pub fmtps: Vec<RemoteFmtp>,
    pub rtcp_fbs: Vec<RemoteRtcpFb>,
    pub ssrc_ids: Vec<u32>,
}

/// A media line this side already has: the position of its transport
/// among the transports, and how far its negotiation got.
#[derive(Debug, Clone, Copy, PartialEq, Eq, Structural)]
pub struct KnownLine {
    pub transport: usize,
    pub negotiation_state: NegotiationState,
}

/// What applying a remote media line does.
#[derive(Debug, Clone)]
pub enum LineChange {
    /// A known media line takes the remote streams.
    Updated { remote_streams: Vec<u32> },
    /// A new media line on the transport at this position (an existing one
    /// or one made for it), with its remote codecs and its remote streams.
    Created { transport: usize, codecs: Vec<Codec>, remote_streams: Vec<u32> },
}

pub enum LineChangeView {
    Updated { remote_streams: Seq<u32> },
    Created { transport: int, codecs: Seq<CodecView>, remote_streams: Seq<u32> },
}

impl View for LineChange {
    type V = LineChangeView;

    open spec fn view(&self) -> LineChangeView {
        match self {
            LineChange::Updated { remote_streams } => LineChangeView::Updated { remote_streams: remote_streams@ },
            LineChange::Created { transport, codecs, remote_streams } => LineChangeView::Created {
                transport: *transport as int,
                codecs: codec_views(codecs@),
                remote_streams: remote_streams@,
            },
        }
    }
}

pub open spec fn change_views(v: Seq<LineChange>) -> Seq<LineChangeView> {
    v.map_values(|c: LineChange| c@)
}

/// The role of a transport made for a line where this side takes `local`.
pub open spec fn spec_transport_setup(local: SetupRole) -> RTPTransportSetup {
    match local {
        SetupRole::Active => RTPTransportSetup::Active,
        SetupRole::Passive => RTPTransportSetup::Passive,
        SetupRole::Actpass => RTPTransportSetup::Actpass,
        SetupRole::Holdconn => RTPTransportSetup::Holdconn,
    }
}

fn transport_setup(local: SetupRole) -> (r: RTPTransportSetup)
    ensures
        r == spec_transport_setup(local),
{
    match local {
        SetupRole::Active => RTPTransportSetup::Active,
        SetupRole::Passive => RTPTransportSetup::Passive,
        SetupRole::Actpass => RTPTransportSetup::Actpass,
        SetupRole::Holdconn => RTPTransportSetup::Holdconn,
    }
}

/// The remote streams a media line announces.
pub open spec fn spec_remote_streams(r: RemoteMediaLine) -> Seq<u32> {
    if r.receive_only {
        Seq::empty()
    } else {
        distinct_ids(r.ssrc_ids@)
    }
}

/// The formats of a remote media line, where they are numbers.
pub open spec fn line_formats(r: RemoteMediaLine) -> Option<Seq<u32>> {
    match r.formats {
        Some(f) => Some(f@),
        None => None,
    }
}

/// The payload types of the codecs of a new media line, or why it is
/// refused.
pub open spec fn spec_line_codecs(r: RemoteMediaLine) -> Result<Seq<u8>, MediaLineParseError> {
    spec_media_line_codecs(
        r.has_mid,
        r.application,
        r.receive_only,
        r.send_only,
        line_formats(r),
        rtpmap_types(r.rtpmaps@),
    )
}

/// What applying the remote media line `r` at index `i` does, given the
/// `known` media lines, the number `n` of transports there were before and
/// the transports `ts` there are now: the change or the error, and the
/// transports after it. A known line must keep the credentials and role of
/// its transport; a new line shares the first transport with its
/// credentials, which must have the role it asks for, or gets a new one
/// (kept even where the line is then refused).
pub open spec fn spec_remote_line(i: int, r: RemoteMediaLine, known: Seq<KnownLine>, n: int, ts: Seq<TransportKey>) -> (
    Result<LineChangeView, RemoteDescriptionApplyError>,
    Seq<TransportKey>,
) {
    match spec_remote_line_transport(i as usize, opt_chars(r.ice_ufrag), opt_chars(r.ice_pwd), r.setup) {
        Err(e) => (Err(e), ts),
        Ok((user, pass, local)) => if i < known.len() {
            let t = known[i].transport as int;
            if t >= n {
                (Err(RemoteDescriptionApplyError::MissingTransport { media_index: i as u32 }), ts)
            } else if ts[t].0 == user && ts[t].1 == pass && spec_setup_is(ts[t].2, local) {
                (Ok(LineChangeView::Updated { remote_streams: spec_remote_streams(r) }), ts)
            } else {
                (Err(RemoteDescriptionApplyError::MissMatchingIceSettings { media_index: i as u32 }), ts)
            }
        } else {
            match spec_first_shared(ts, user, pass, local, 0) {
                Err(e) => (Err(e), ts),
                Ok(shared) => {
                    let (pos, ts2) = match shared {
                        Some(j) => (j, ts),
                        None => (ts.len() as int, ts.push((user, pass, spec_transport_setup(local)))),
                    };
                    match spec_line_codecs(r) {
                        Err(e) => (Err(RemoteDescriptionApplyError::MediaLineParseError { media_line: i as u32, error: e }), ts2),
                        Ok(types) => (
                            Ok(
                                LineChangeView::Created {
                                    transport: pos,
                                    codecs: remote_codecs_of(types, r.rtpmaps@, r.fmtps@, r.rtcp_fbs@),
                                    remote_streams: spec_remote_streams(r),
                                },
                            ),
                            ts2,
                        ),
                    }
                },
            }
        },
    }
}

/// The remote media lines from `i` on applied one after another: the
/// changes of the lines applied, the transports after them, and the error
/// of the first line that is refused, if any.
pub open spec fn spec_remote_lines(rs: Seq<RemoteMediaLine>, known: Seq<KnownLine>, n: int, ts: Seq<TransportKey>, i: int) -> (
    Seq<LineChangeView>,
    Seq<TransportKey>,
    Option<RemoteDescriptionApplyError>,
)
    decreases rs.len() - i,
{
    if i < 0 || i >= rs.len() {
        (Seq::empty(), ts, None)
    } else {
        match spec_remote_line(i, rs[i], known, n, ts) {
            (Err(e), ts2) => (Seq::empty(), ts2, Some(e)),
            (Ok(c), ts2) => {
                let rest = spec_remote_lines(rs, known, n, ts2, i + 1);
                (seq![c] + rest.0, rest.1, rest.2)
            },
        }
    }
}

/// What applying a remote description did: the changes of the media lines
/// applied, the transports made for new lines, and either the signalling
/// state and the negotiation states of the known lines and of the senders
/// after it, or why it was refused.
pub struct RemoteDescriptionOutcome {
    pub changes: Vec<LineChange>,
    pub new_transports: Vec<(ICECredentials, RTPTransportSetup)>,
    pub result: Result<(SignallingState, Vec<NegotiationState>, Vec<NegotiationState>), RemoteDescriptionApplyError>,
}

/// The negotiation states after a remote description was applied in `s`.
pub open spec fn states_after_remote(s: SignallingState, v: Seq<NegotiationState>) -> Seq<NegotiationState> {
    v.map_values(|x: NegotiationState| spec_line_after_remote(s, x))
}

fn after_remote_all(s: SignallingState, v: &[NegotiationState]) -> (r: Vec<NegotiationState>)
    ensures
        r@ == states_after_remote(s, v@),
{
    let mut r: Vec<NegotiationState> = Vec::new();
    let mut i: usize = 0;
    while i < v.len()
        invariant
            i <= v@.len(),
            r@ == states_after_remote(s, v@.take(i as int)),
        decreases v@.len() - i,
    {
        r.push(line_after_remote_description(s, v[i]));
        assert(states_after_remote(s, v@.take(i + 1)) =~= states_after_remote(s, v@.take(i as int)).push(
            spec_line_after_remote(s, v@[i as int]),
        ));
        i = i + 1;
    }
    assert(v@.take(i as int) =~= v@);
    r
}

fn copy_credentials(c: &ICECredentials) -> (r: ICECredentials)
    ensures
        r.username@ == c.username@,
        r.password@ == c.password@,
{
    ICECredentials { username: c.username.clone(), password: c.password.clone() }
}

/// Applies the media lines of a remote description of type `mode` in the
/// signalling state `state`, to the `known` media lines over the
/// `transports`, with the negotiation states of the senders. It is refused
/// where the description may not be applied in this state and where it has
/// fewer media lines than this side; otherwise the media lines are applied
/// in order up to the first that is refused. On success the signalling
/// state and the negotiation states follow the description.
pub fn apply_remote_description(
    state: SignallingState,
    mode: RtcDescriptionType,
    known: &[KnownLine],
    remote: &[RemoteMediaLine],
    transports: &[(ICECredentials, RTPTransportSetup)],
    senders: &[NegotiationState],
) -> (r: RemoteDescriptionOutcome)
    requires
        remote@.len() <= u32::MAX,
    ensures
        !spec_remote_allowed(state, mode) ==> r.changes@.len() == 0 && r.new_transports@.len() == 0
            && r.result == Err::<(SignallingState, Vec<NegotiationState>, Vec<NegotiationState>), RemoteDescriptionApplyError>(
            RemoteDescriptionApplyError::InvalidNegotiationState),
        spec_remote_allowed(state, mode) && known@.len() > remote@.len() ==> r.changes@.len() == 0
            && r.new_transports@.len() == 0
            && r.result == Err::<(SignallingState, Vec<NegotiationState>, Vec<NegotiationState>), RemoteDescriptionApplyError>(
            RemoteDescriptionApplyError::MissingMediaLines),
        spec_remote_allowed(state, mode) && known@.len() <= remote@.len() ==> {
            let (changes, ts, err) = spec_remote_lines(
                remote@,
                known@,
                transports@.len() as int,
                transport_keys(transports@),
                0,
            );
            &&& change_views(r.changes@) == changes
            &&& transport_keys(transports@) + transport_keys(r.new_transports@) == ts
            &&& match err {
                Some(e) => r.result == Err::<(SignallingState, Vec<NegotiationState>, Vec<NegotiationState>), RemoteDescriptionApplyError>(e),
                None => r.result matches Ok((s, line_states, sender_states)) && s == spec_after_remote(state)
                    && line_states@ == states_after_remote(state, known@.map_values(|k: KnownLine| k.negotiation_state))
                    && sender_states@ == states_after_remote(state, senders@),
            }
        },
{
    let mut changes: Vec<LineChange> = Vec::new();
    let mut new_transports: Vec<(ICECredentials, RTPTransportSetup)> = Vec::new();
    if !state.remote_description_allowed(mode) {
        return RemoteDescriptionOutcome { changes, new_transports, result: Err(RemoteDescriptionApplyError::InvalidNegotiationState) };
    }
    if let Err(e) = check_media_line_count(known.len(), remote.len()) {
        return RemoteDescriptionOutcome { changes, new_transports, result: Err(e) };
    }
    let ghost n = transports@.len() as int;
    let ghost total = spec_remote_lines(remote@, known@, n, transport_keys(transports@), 0);
    let mut all: Vec<(ICECredentials, RTPTransportSetup)> = Vec::new();
    let mut k: usize = 0;
    while k < transports.len()
        invariant
            k <= transports@.len(),
            transport_keys(all@) == transport_keys(transports@.take(k as int)),
        decreases transports@.len() - k,
    {
        let c = copy_credentials(&transports[k].0);
        let ghost a0 = all@;
        all.push((c, transports[k].1));
        proof {
            let want = transport_keys(transports@.take(k + 1));
            assert(want =~= transport_keys(transports@.take(k as int)).push(transport_key(transports@[k as int])));
            assert(transport_keys(all@) =~= transport_keys(a0).push(transport_key(all@[k as int])));
            assert(transport_key(all@[k as int]) == transport_key(transports@[k as int]));
        }
        k = k + 1;
    }
    assert(transports@.take(k as int) =~= transports@);
    assert(transport_keys(new_transports@) =~= Seq::<TransportKey>::empty());
    assert(change_views(changes@) =~= Seq::<LineChangeView>::empty());
    let mut i: usize = 0;
    while i < remote.len()
        invariant
            spec_remote_allowed(state, mode),
            remote@.len() <= u32::MAX,
            known@.len() <= remote@.len(),
            i <= remote@.len(),
            n == transports@.len(),
            transport_keys(all@) == transport_keys(transports@) + transport_keys(new_transports@),
            total == spec_remote_lines(remote@, known@, n, transport_keys(transports@), 0),
            ({
                let rest = spec_remote_lines(remote@, known@, n, transport_keys(all@), i as int);
                total == (change_views(changes@) + rest.0, rest.1, rest.2)
            }),
        decreases remote@.len() - i,
    {
        let ghost ts = transport_keys(all@);
        let ghost step = spec_remote_line(i as int, remote@[i as int], known@, n, ts);
        let ghost rest = spec_remote_lines(remote@, known@, n, step.1, i + 1);
        let line = &remote[i];
        let (credentials, local) = match remote_line_transport(i, &line.ice_ufrag, &line.ice_pwd, line.setup) {
            Ok(v) => v,
            Err(e) => {
                proof { assert(change_views(changes@) + Seq::<LineChangeView>::empty() =~= change_views(changes@)); }
                return RemoteDescriptionOutcome { changes, new_transports, result: Err(e) };
            },
        };
        let change = if i < known.len() {
            let t = known[i].transport;
            if t >= transports.len() {
                proof { assert(change_views(changes@) + Seq::<LineChangeView>::empty() =~= change_views(changes@)); }
                return RemoteDescriptionOutcome {
                    changes,
                    new_transports,
                    result: Err(RemoteDescriptionApplyError::MissingTransport { media_index: i as u32 }),
                };
            }
            proof { assert(ts[t as int] == transport_key(all@[t as int])); }
            if let Err(e) = check_known_line(i as u32, &all[t].0, all[t].1, &credentials, local) {
                proof { assert(change_views(changes@) + Seq::<LineChangeView>::empty() =~= change_views(changes@)); }
                return RemoteDescriptionOutcome { changes, new_transports, result: Err(e) };
            }
            LineChange::Updated { remote_streams: remote_streams_from_sdp(line.receive_only, line.ssrc_ids.as_slice()) }
        } else {
            let pos = match shared_transport(all.as_slice(), &credentials, local) {
                Err(e) => {
                    proof { assert(change_views(changes@) + Seq::<LineChangeView>::empty() =~= change_views(changes@)); }
                    return RemoteDescriptionOutcome { changes, new_transports, result: Err(e) };
                },
                Ok(Some(p)) => p,
                Ok(None) => {
                    let p = all.len();
                    let setup = transport_setup(local);
                    let c1 = copy_credentials(&credentials);
                    let c2 = copy_credentials(&credentials);
                    let ghost nt0 = new_transports@;
                    all.push((c1, setup));
                    new_transports.push((c2, setup));
                    proof {
                        assert(transport_keys(all@) =~= ts.push(transport_key(all@.last())));
                        assert(transport_keys(new_transports@) =~= transport_keys(nt0).push(
                            transport_key(new_transports@.last()),
                        ));
                    }
                    p
                },
            };
            let formats = match &line.formats {
                Some(f) => Some(f.as_slice()),
                None => None,
            };
            let described = rtpmap_payload_types(line.rtpmaps.as_slice());
            let types = match media_line_codecs(line.has_mid, line.application, line.receive_only, line.send_only, formats, described.as_slice()) {
                Ok(c) => c,
                Err(e) => {
                    proof { assert(change_views(changes@) + Seq::<LineChangeView>::empty() =~= change_views(changes@)); }
                    return RemoteDescriptionOutcome {
                        changes,
                        new_transports,
                        result: Err(RemoteDescriptionApplyError::MediaLineParseError { media_line: i as u32, error: e }),
                    };
                },
            };
            proof {
                lemma_codecs_described(
                    line.has_mid,
                    line.application,
                    line.receive_only,
                    line.send_only,
                    line_formats(*line),
                    described@,
                );
            }
            let codecs = remote_codecs(types.as_slice(), line.rtpmaps.as_slice(), line.fmtps.as_slice(), line.rtcp_fbs.as_slice());
            LineChange::Created {
                transport: pos,
                codecs,
                remote_streams: remote_streams_from_sdp(line.receive_only, line.ssrc_ids.as_slice()),
            }
        };
        let ghost before = changes@;
        changes.push(change);
        proof {
            assert(change_views(changes@) =~= change_views(before).push(change@));
            assert(change_views(before) + (seq![change@] + rest.0) =~= change_views(changes@) + rest.0);
        }
        i = i + 1;
    }
    proof { assert(change_views(changes@) + Seq::<LineChangeView>::empty() =~= change_views(changes@)); }
    let ghost known_states = known@.map_values(|k: KnownLine| k.negotiation_state);
    let mut states: Vec<NegotiationState> = Vec::new();
    let mut j: usize = 0;
    while j < known.len()
        invariant
            j <= known@.len(),
            known_states == known@.map_values(|k: KnownLine| k.negotiation_state),
            states@ == known_states.take(j as int),
        decreases known@.len() - j,
    {
        states.push(known[j].negotiation_state);
        assert(states@ =~= known_states.take(j + 1));
        j = j + 1;
    }
    assert(known_states.take(j as int) =~= known_states);
    let line_states = after_remote_all(state, states.as_slice());
    let sender_states = after_remote_all(state, senders);
    RemoteDescriptionOutcome {
        changes,
        new_transports,
        result: Ok((state.after_remote_description(), line_states, sender_states)),
    }
}

} // verus!
