//! The states of a peer connection and the errors of its negotiation.
use vstd::prelude::*;
use crate::media::{NegotiationState, MediaLineParseError};
use crate::transport::{ICECredentials, RTPTransportSetup, RTCTransportState};
use crate::utils::rtcp::{RtcpPacket, RtcpReportBlock, opt_view, sorted_keys, sorted_report_keys, lemma_sorted_keys};
use crate::utils::rtcp::packet::{RtcpPacketView, parse_packet, split_ranges, split_meets_empty_packet};
use crate::utils::rtcp::packets::{RtcpPacketSenderReport, SourceDescription, RtcpTransportFeedback, RtcpPayloadFeedback};
use crate::utils::rtcp::packets::sender_report::SenderReportView;
use crate::utils::rtcp::packets::receiver_report::ReceiverReportView;
use crate::utils::rtcp::packets::source_description::{SourceDescriptionView, chunk_views};
use crate::utils::rtcp::packets::transport_feedback::TransportFeedbackView;
use crate::utils::rtcp::packets::payload_feedback::PayloadFeedbackView;

verus! {

/// The DTLS setup role a media description names (RFC 4145 `a=setup`).
#[derive(Debug, PartialEq, Eq, Clone, Copy, Structural)]
pub enum SetupRole {
    Active,
    Passive,
    Actpass,
    Holdconn,
}

/// The role this side takes when the remote side lets it choose.
pub const ACT_PASS_DEFAULT_SETUP_TYPE: SetupRole = SetupRole::Passive;

#[derive(Debug, PartialOrd, PartialEq, Eq, Clone, Copy, Structural)]
pub enum RtcDescriptionType {
    Offer,
    Answer,
}

#[derive(Debug, PartialOrd, PartialEq, Eq, Clone, Copy, Structural)]
pub enum PeerConnectionState {
    New,
    Connecting,
    Connected,
    Disconnecting,
    Disconnected,
    Failed,
}

#[derive(Debug, PartialEq, Eq, Clone, Copy, Structural)]
pub enum SignallingState {
    /// Nothing has been negotiated
    Nothing,
    /// A local offer has been created, awaiting the remote answer.
    /// When being in this state, no modifications to the streams are allowed.
    HaveLocalOffer,
    /// Received a remote offer, awaiting the own answer to be generated
    HaveRemoteOffer,
    /// Everything has been negotiated
    Negotiated,
    /// Everything has been negotiated, but something changed
    NegotiationRequired,
}

/// Whether a remote description of type `mode` may be applied in the
/// signalling state `s`: an offer while nothing is being negotiated, an
/// answer only to a local offer.
pub open spec fn spec_remote_allowed(s: SignallingState, mode: RtcDescriptionType) -> bool {
    match mode {
        RtcDescriptionType::Offer => s == SignallingState::Nothing || s == SignallingState::Negotiated,
        RtcDescriptionType::Answer => s == SignallingState::HaveLocalOffer,
    }
}

/// The signalling state once a remote description was applied in `s`: an
/// answer completes the negotiation, an offer awaits the local answer.
pub open spec fn spec_after_remote(s: SignallingState) -> SignallingState {
    if s == SignallingState::HaveLocalOffer {
        SignallingState::Negotiated
    } else {
        SignallingState::HaveRemoteOffer
    }
}

/// Whether a local description may be created in `s`: not while a local
/// offer waits for its answer, nor when nothing is to be negotiated.
pub open spec fn spec_local_allowed(s: SignallingState) -> bool {
    s != SignallingState::HaveLocalOffer && s != SignallingState::Negotiated
}

/// The signalling state once a local description was created in `s`: an
/// answer to a remote offer completes the negotiation; otherwise it is an
/// offer.
pub open spec fn spec_after_local(s: SignallingState) -> SignallingState {
    if s == SignallingState::HaveRemoteOffer {
        SignallingState::Negotiated
    } else {
        SignallingState::HaveLocalOffer
    }
}

/// The negotiation state of a media line or sender once a local
/// description was created in the signalling state `s`: an offer
/// propagates what is new or changed, an answer settles everything.
pub open spec fn spec_line_after_local(s: SignallingState, line: NegotiationState) -> NegotiationState {
    if s == SignallingState::HaveRemoteOffer {
        NegotiationState::Negotiated
    } else if line == NegotiationState::Changed || line == NegotiationState::Nothing {
        NegotiationState::Propagated
    } else {
        line
    }
}

/// The negotiation state of a media line or sender once a remote
/// description was applied in the signalling state `s`: the answer to a
/// local offer settles what that offer propagated.
pub open spec fn spec_line_after_remote(s: SignallingState, line: NegotiationState) -> NegotiationState {
    if s == SignallingState::HaveLocalOffer && line == NegotiationState::Propagated {
        NegotiationState::Negotiated
    } else {
        line
    }
}

impl SignallingState {
    pub fn remote_description_allowed(&self, mode: RtcDescriptionType) -> (r: bool)
        ensures
            r == spec_remote_allowed(*self, mode),
    {
        match mode {
            RtcDescriptionType::Offer => matches!(self, SignallingState::Nothing | SignallingState::Negotiated),
            RtcDescriptionType::Answer => matches!(self, SignallingState::HaveLocalOffer),
        }
    }

    pub fn after_remote_description(&self) -> (r: SignallingState)
        requires
            *self == SignallingState::Nothing || *self == SignallingState::Negotiated || *self
                == SignallingState::HaveLocalOffer,
        ensures
            r == spec_after_remote(*self),
    {
        match self {
            SignallingState::HaveLocalOffer => SignallingState::Negotiated,
            _ => SignallingState::HaveRemoteOffer,
        }
    }

    pub fn local_description_allowed(&self) -> (r: bool)
        ensures
            r == spec_local_allowed(*self),
    {
        !matches!(self, SignallingState::HaveLocalOffer | SignallingState::Negotiated)
    }

    pub fn after_local_description(&self) -> (r: SignallingState)
        requires
            spec_local_allowed(*self),
        ensures
            r == spec_after_local(*self),
    {
        match self {
            SignallingState::HaveRemoteOffer => SignallingState::Negotiated,
            _ => SignallingState::HaveLocalOffer,
        }
    }

    /// Whether a negotiated connection has to negotiate again, given the
    /// negotiation states of its media lines and whether a sender needs it.
    pub fn negotiation_required(&self, lines: &[NegotiationState], sender_needs: bool) -> (r: bool)
        ensures
            r == (*self == SignallingState::Negotiated && ((exists|i: int|
                0 <= i < lines@.len() && (lines@[i] == NegotiationState::Nothing || lines@[i]
                    == NegotiationState::Changed)) || sender_needs)),
    {
        if !matches!(self, SignallingState::Negotiated) {
            return false;
        }
        let mut i: usize = 0;
        while i < lines.len()
            invariant
                i <= lines.len(),
                *self == SignallingState::Negotiated,
                forall|j: int| 0 <= j < i ==> !(lines@[j] == NegotiationState::Nothing || lines@[j] == NegotiationState::Changed),
            decreases lines.len() - i,
        {
            if matches!(lines[i], NegotiationState::Nothing | NegotiationState::Changed) {
                assert(lines@[i as int] == NegotiationState::Nothing || lines@[i as int] == NegotiationState::Changed);
                return true;
            }
            i = i + 1;
        }
        sender_needs
    }
}

/// The negotiation state of a media line or sender once a local
/// description was created in the signalling state `s`.
pub fn line_after_local_description(s: SignallingState, line: NegotiationState) -> (r: NegotiationState)
    ensures
        r == spec_line_after_local(s, line),
{
    if matches!(s, SignallingState::HaveRemoteOffer) {
        NegotiationState::Negotiated
    } else if matches!(line, NegotiationState::Changed | NegotiationState::Nothing) {
        NegotiationState::Propagated
    } else {
        line
    }
}

/// The negotiation state of a media line or sender once a remote
/// description was applied in the signalling state `s`.
pub fn line_after_remote_description(s: SignallingState, line: NegotiationState) -> (r: NegotiationState)
    ensures
        r == spec_line_after_remote(s, line),
{
    if matches!(s, SignallingState::HaveLocalOffer) && matches!(line, NegotiationState::Propagated) {
        NegotiationState::Negotiated
    } else {
        line
    }
}

/// A remote offer and the local answer take a connection that is not
/// negotiating back to the negotiated state, and settle every media line.
pub proof fn lemma_remote_offer_round(s: SignallingState, line: NegotiationState)
    requires
        s == SignallingState::Nothing || s == SignallingState::Negotiated,
    ensures
        spec_remote_allowed(s, RtcDescriptionType::Offer),
        spec_local_allowed(spec_after_remote(s)),
        spec_after_local(spec_after_remote(s)) == SignallingState::Negotiated,
        spec_line_after_local(spec_after_remote(s), spec_line_after_remote(s, line)) == NegotiationState::Negotiated,
{
}

/// A local offer and the remote answer take a connection that has nothing
/// negotiated, or has to negotiate again, to the negotiated state, and
/// settle every media line that was new or changed.
pub proof fn lemma_local_offer_round(s: SignallingState, line: NegotiationState)
    requires
        s == SignallingState::Nothing || s == SignallingState::NegotiationRequired,
    ensures
        spec_local_allowed(s),
        spec_remote_allowed(spec_after_local(s), RtcDescriptionType::Answer),
        spec_after_remote(spec_after_local(s)) == SignallingState::Negotiated,
        (line == NegotiationState::Nothing || line == NegotiationState::Changed) ==> spec_line_after_remote(
            spec_after_local(s),
            spec_line_after_local(s, line),
        ) == NegotiationState::Negotiated,
{
}

// ---------------------------------------------------------------------------
// Checks of the media lines of a remote description
// ---------------------------------------------------------------------------

/// An attribute that every media line of a remote description carries.
#[derive(Debug, PartialEq, Eq, Clone, Copy, Structural)]
pub enum RemoteLineAttribute {
    IceUfrag,
    IcePwd,
    Setup,
}

/// Why a remote description cannot be applied.
#[derive(Debug, PartialEq, Eq, Clone, Copy, Structural)]
pub enum RemoteDescriptionApplyError {
    InvalidNegotiationState,
    /// The remote description contains less media lines than
    /// we're expecting
    MissingMediaLines,
    /// The transport of a known media line is gone.
    MissingTransport { media_index: u32 },
    MediaLineParseError { media_line: u32, error: MediaLineParseError },
    MissingAttribute { media_index: usize, attribute: RemoteLineAttribute },
    IceSetupUnsupported { media_index: usize },
    MissMatchingIceSettings { media_index: u32 },
    MixedIceSetupStates,
}

/// A remote description names every media line this side has: it has at
/// least as many.
pub fn check_media_line_count(local_lines: usize, remote_lines: usize) -> (r: Result<(), RemoteDescriptionApplyError>)
    ensures
        r == if local_lines > remote_lines {
            Err::<(), RemoteDescriptionApplyError>(RemoteDescriptionApplyError::MissingMediaLines)
        } else {
            Ok::<(), RemoteDescriptionApplyError>(())
        },
{
    if local_lines > remote_lines {
        Err(RemoteDescriptionApplyError::MissingMediaLines)
    } else {
        Ok(())
    }
}

/// The role this side takes for the setup role `remote` of a remote media
/// line: the opposite one, the default where the remote side lets it
/// choose; a line that holds the connection is not supported.
pub open spec fn spec_local_setup(remote: SetupRole) -> Option<SetupRole> {
    match remote {
        SetupRole::Passive => Some(SetupRole::Active),
        SetupRole::Active => Some(SetupRole::Passive),
        SetupRole::Actpass => Some(ACT_PASS_DEFAULT_SETUP_TYPE),
        SetupRole::Holdconn => None,
    }
}

/// The ICE credentials (user name fragment and password) of the remote
/// media line `media_index` and the role this side takes for it, or the
/// first attribute it lacks (user name fragment, password, setup role in
/// that order), or an unsupported role.
pub open spec fn spec_remote_line_transport(
    media_index: usize,
    ice_ufrag: Option<Seq<char>>,
    ice_pwd: Option<Seq<char>>,
    setup: Option<SetupRole>,
) -> Result<(Seq<char>, Seq<char>, SetupRole), RemoteDescriptionApplyError> {
    match (ice_ufrag, ice_pwd, setup) {
        (None, _, _) => Err(RemoteDescriptionApplyError::MissingAttribute { media_index, attribute: RemoteLineAttribute::IceUfrag }),
        (Some(_), None, _) => Err(RemoteDescriptionApplyError::MissingAttribute { media_index, attribute: RemoteLineAttribute::IcePwd }),
        (Some(_), Some(_), None) => Err(RemoteDescriptionApplyError::MissingAttribute { media_index, attribute: RemoteLineAttribute::Setup }),
        (Some(u), Some(p), Some(s)) => match spec_local_setup(s) {
            None => Err(RemoteDescriptionApplyError::IceSetupUnsupported { media_index }),
            Some(local) => Ok((u, p, local)),
        },
    }
}

/// The text of an optional string.
pub open spec fn opt_chars(s: Option<String>) -> Option<Seq<char>> {
    match s {
        Some(t) => Some(t@),
        None => None,
    }
}

/// The ICE credentials of the remote media line `media_index` and the role
/// this side takes for it, as `spec_remote_line_transport` states.
pub fn remote_line_transport(
    media_index: usize,
    ice_ufrag: &Option<String>,
    ice_pwd: &Option<String>,
    setup: Option<SetupRole>,
) -> (r: Result<(ICECredentials, SetupRole), RemoteDescriptionApplyError>)
    ensures
        match (r, spec_remote_line_transport(media_index, opt_chars(*ice_ufrag), opt_chars(*ice_pwd), setup)) {
            (Ok((c, l)), Ok((u, p, l2))) => c.username@ == u && c.password@ == p && l == l2,
            (Err(e), Err(f)) => e == f,
            _ => false,
        },
{
    let username = match ice_ufrag {
        Some(u) => u.clone(),
        None => return Err(RemoteDescriptionApplyError::MissingAttribute { media_index, attribute: RemoteLineAttribute::IceUfrag }),
    };
    let password = match ice_pwd {
        Some(p) => p.clone(),
        None => return Err(RemoteDescriptionApplyError::MissingAttribute { media_index, attribute: RemoteLineAttribute::IcePwd }),
    };
    let remote = match setup {
        Some(s) => s,
        None => return Err(RemoteDescriptionApplyError::MissingAttribute { media_index, attribute: RemoteLineAttribute::Setup }),
    };
    let local = match remote {
        SetupRole::Passive => SetupRole::Active,
        SetupRole::Active => SetupRole::Passive,
        SetupRole::Actpass => ACT_PASS_DEFAULT_SETUP_TYPE,
        SetupRole::Holdconn => return Err(RemoteDescriptionApplyError::IceSetupUnsupported { media_index }),
    };
    Ok((ICECredentials { username, password }, local))
}

/// Whether a transport in the role `t` has the role `r`.
pub open spec fn spec_setup_is(t: RTPTransportSetup, r: SetupRole) -> bool {
    match t {
        RTPTransportSetup::Unset => false,
        RTPTransportSetup::Active => r == SetupRole::Active,
        RTPTransportSetup::Passive => r == SetupRole::Passive,
        RTPTransportSetup::Actpass => r == SetupRole::Actpass,
        RTPTransportSetup::Holdconn => r == SetupRole::Holdconn,
    }
}

pub fn setup_is(t: RTPTransportSetup, r: SetupRole) -> (b: bool)
    ensures
        b == spec_setup_is(t, r),
{
    match t {
        RTPTransportSetup::Unset => false,
        RTPTransportSetup::Active => matches!(r, SetupRole::Active),
        RTPTransportSetup::Passive => matches!(r, SetupRole::Passive),
        RTPTransportSetup::Actpass => matches!(r, SetupRole::Actpass),
        RTPTransportSetup::Holdconn => matches!(r, SetupRole::Holdconn),
    }
}

/// Whether two sets of ICE credentials are the same.
pub open spec fn same_credentials(a: ICECredentials, b: ICECredentials) -> bool {
    a.username@ == b.username@ && a.password@ == b.password@
}

/// A remote description may update a media line that was negotiated
/// before only if it keeps the ICE credentials and the role of the line's
/// transport.
pub fn check_known_line(
    media_index: u32,
    transport_credentials: &ICECredentials,
    transport_setup: RTPTransportSetup,
    credentials: &ICECredentials,
    local_setup: SetupRole,
) -> (r: Result<(), RemoteDescriptionApplyError>)
    ensures
        r == if same_credentials(*transport_credentials, *credentials) && spec_setup_is(transport_setup, local_setup) {
            Ok::<(), RemoteDescriptionApplyError>(())
        } else {
            Err::<(), RemoteDescriptionApplyError>(RemoteDescriptionApplyError::MissMatchingIceSettings { media_index })
        },
{
    if !(transport_credentials.username == credentials.username && transport_credentials.password
        == credentials.password) {
        return Err(RemoteDescriptionApplyError::MissMatchingIceSettings { media_index });
    }
    if !setup_is(transport_setup, local_setup) {
        return Err(RemoteDescriptionApplyError::MissMatchingIceSettings { media_index });
    }
    Ok(())
}

/// A transport as a remote description is checked against: the text of
/// its ICE user name fragment and password, and its role.
pub type TransportKey = (Seq<char>, Seq<char>, RTPTransportSetup);

pub open spec fn transport_key(t: (ICECredentials, RTPTransportSetup)) -> TransportKey {
    (t.0.username@, t.0.password@, t.1)
}

pub open spec fn transport_keys(v: Seq<(ICECredentials, RTPTransportSetup)>) -> Seq<TransportKey> {
    v.map_values(|t: (ICECredentials, RTPTransportSetup)| transport_key(t))
}

/// The transport from `i` on that a new media line with the credentials
/// `user` and `pass` shares: the first with those credentials, which must
/// have the role `setup`; `None` where no transport has them.
pub open spec fn spec_first_shared(ts: Seq<TransportKey>, user: Seq<char>, pass: Seq<char>, setup: SetupRole, i: int) -> Result<
    Option<int>,
    RemoteDescriptionApplyError,
>
    decreases ts.len() - i,
{
    if i < 0 || i >= ts.len() {
        Ok(None)
    } else if ts[i].0 == user && ts[i].1 == pass {
        if spec_setup_is(ts[i].2, setup) {
            Ok(Some(i))
        } else {
            Err(RemoteDescriptionApplyError::MixedIceSetupStates)
        }
    } else {
        spec_first_shared(ts, user, pass, setup, i + 1)
    }
}

/// The transport a new media line shares: the first of `transports` with
/// the same ICE credentials, which must have the role the line asks for;
/// `None` where no transport has them, and a new one is made.
pub fn shared_transport(
    transports: &[(ICECredentials, RTPTransportSetup)],
    credentials: &ICECredentials,
    setup: SetupRole,
) -> (r: Result<Option<usize>, RemoteDescriptionApplyError>)
    ensures
        match (r, spec_first_shared(transport_keys(transports@), credentials.username@, credentials.password@, setup, 0)) {
            (Ok(Some(i)), Ok(Some(j))) => i == j,
            (Ok(None), Ok(None)) => true,
            (Err(e), Err(f)) => e == f,
            _ => false,
        },
{
    let ghost keys = transport_keys(transports@);
    let mut i: usize = 0;
    while i < transports.len()
        invariant
            i <= transports@.len(),
            keys == transport_keys(transports@),
            spec_first_shared(keys, credentials.username@, credentials.password@, setup, 0) == spec_first_shared(
                keys,
                credentials.username@,
                credentials.password@,
                setup,
                i as int,
            ),
        decreases transports@.len() - i,
    {
        let (c, t) = &transports[i];
        if c.username == credentials.username && c.password == credentials.password {
            if setup_is(*t, setup) {
                return Ok(Some(i));
            } else {
                return Err(RemoteDescriptionApplyError::MixedIceSetupStates);
            }
        }
        i = i + 1;
    }
    Ok(None)
}

// ---------------------------------------------------------------------------
// Events of a transport
// ---------------------------------------------------------------------------

/// What a transport reports to its peer connection, without its payload.
#[derive(Debug, PartialEq, Eq, Clone, Copy, Structural)]
pub enum TransportEventKind {
    TransportStateChanged,
    IceStateChanged,
    LocalIceCandidate,
    LocalIceGatheringFinished,
    MessageReceivedDtls,
    MessageReceivedRtp,
    MessageReceivedRtcp,
    MessageDropped,
}

/// What a peer connection does with an event of one of its transports.
#[derive(Debug, PartialEq, Eq, Clone, Copy, Structural)]
pub enum IceEventAction {
    /// Announce a local ICE candidate (`end` false) or the end of them
    /// (`end` true) for the media line that owns the transport.
    AnnounceLocalCandidate { end: bool, media_line: u32 },
    /// Tell the application channel that its transport is connected.
    TransportConnected,
    /// Hand the decrypted DTLS data to the application channel.
    ApplicationData,
    /// Split the RTCP message and route its packets.
    RouteRtcp,
    /// Route the RTP packet to its receiver.
    RouteRtp,
    /// Nothing to do.
    Ignore,
}

/// What to do with the event `event` of a transport that is now in
/// `state` and is owned by the media line `owning_media_line`.
pub fn ice_event_action(event: TransportEventKind, state: RTCTransportState, owning_media_line: u32) -> (r: IceEventAction)
    ensures
        r == match event {
            TransportEventKind::LocalIceCandidate => IceEventAction::AnnounceLocalCandidate { end: false, media_line: owning_media_line },
            TransportEventKind::LocalIceGatheringFinished => IceEventAction::AnnounceLocalCandidate { end: true, media_line: owning_media_line },
            TransportEventKind::TransportStateChanged => if state == RTCTransportState::Connected {
                IceEventAction::TransportConnected
            } else {
                IceEventAction::Ignore
            },
            TransportEventKind::MessageReceivedDtls => IceEventAction::ApplicationData,
            TransportEventKind::MessageReceivedRtcp => IceEventAction::RouteRtcp,
            TransportEventKind::MessageReceivedRtp => IceEventAction::RouteRtp,
            TransportEventKind::IceStateChanged | TransportEventKind::MessageDropped => IceEventAction::Ignore,
        },
{
    match event {
        TransportEventKind::LocalIceCandidate => IceEventAction::AnnounceLocalCandidate { end: false, media_line: owning_media_line },
        TransportEventKind::LocalIceGatheringFinished => IceEventAction::AnnounceLocalCandidate { end: true, media_line: owning_media_line },
        TransportEventKind::TransportStateChanged => {
            if matches!(state, RTCTransportState::Connected) {
                IceEventAction::TransportConnected
            } else {
                IceEventAction::Ignore
            }
        },
        TransportEventKind::MessageReceivedDtls => IceEventAction::ApplicationData,
        TransportEventKind::MessageReceivedRtcp => IceEventAction::RouteRtcp,
        TransportEventKind::MessageReceivedRtp => IceEventAction::RouteRtp,
        TransportEventKind::IceStateChanged | TransportEventKind::MessageDropped => IceEventAction::Ignore,
    }
}

/// Where a received RTP packet goes.
#[derive(Debug, PartialEq, Eq, Clone, Copy, Structural)]
pub enum RtpRoute {
    /// To the receiver at this index.
    Receiver(usize),
    /// A receiver has the packet's SSRC, but it is registered to another
    /// transport: the packet is dropped.
    WrongTransport,
    /// No receiver has the packet's SSRC.
    Unassignable,
}

/// Where an RTP packet with SSRC `ssrc` that arrived on transport
/// `transport_id` goes, for receivers given as their SSRC and the id of
/// their transport: to the first receiver with that SSRC, if it is on that
/// transport.
pub fn rtp_route(ssrc: u32, receivers: &[(u32, u32)], transport_id: u32) -> (r: RtpRoute)
    ensures
        match r {
            RtpRoute::Receiver(i) => i < receivers@.len() && receivers@[i as int].0 == ssrc && receivers@[i as int].1
                == transport_id && forall|j: int| 0 <= j < i ==> (#[trigger] receivers@[j]).0 != ssrc,
            RtpRoute::WrongTransport => exists|i: int|
                0 <= i < receivers@.len() && (#[trigger] receivers@[i]).0 == ssrc && receivers@[i].1 != transport_id
                    && forall|j: int| 0 <= j < i ==> (#[trigger] receivers@[j]).0 != ssrc,
            RtpRoute::Unassignable => forall|j: int| 0 <= j < receivers@.len() ==> (#[trigger] receivers@[j]).0 != ssrc,
        },
{
    let mut i: usize = 0;
    while i < receivers.len()
        invariant
            i <= receivers@.len(),
            forall|j: int| 0 <= j < i ==> (#[trigger] receivers@[j]).0 != ssrc,
        decreases receivers@.len() - i,
    {
        if receivers[i].0 == ssrc {
            if receivers[i].1 == transport_id {
                return RtpRoute::Receiver(i);
            } else {
                return RtpRoute::WrongTransport;
            }
        }
        i = i + 1;
    }
    RtpRoute::Unassignable
}

#[derive(Debug)]
pub enum CreateAnswerError {
    MediaLineError { error: String, media_id: u32 },
    DescribeError(u32),
    MissingTransportChannel(u32),
    InternalError(String),
    InvalidNegotiationState,
}


// ---------------------------------------------------------------------------
// Where received RTCP packets go
// ---------------------------------------------------------------------------

pub enum RtcpRouteView {
    ReceiverReportBlock { ssrc: u32, report: RtcpReportBlock, profile_data: Option<Seq<u8>> },
    SenderReport(SenderReportView),
    SourceDescription { ssrc: u32, description: SourceDescriptionView },
    TransportFeedback { ssrc: u32, feedback: TransportFeedbackView },
    PayloadFeedback { ssrc: u32, feedback: PayloadFeedbackView },
    Unassignable(RtcpPacketView),
    Unknown(Seq<u8>),
}

/// Where (a part of) a received RTCP packet goes: to the sender or the
/// receiver of one of the connection's streams, to the user when no stream
/// takes it, or to every sender and receiver.
#[derive(Debug)]
pub enum RtcpRoute {
    /// A report block of a receiver report, for the sender of the stream
    /// `ssrc`, with the report's profile data.
    ReceiverReportBlock { ssrc: u32, report: RtcpReportBlock, profile_data: Option<Vec<u8>> },
    /// A sender report, for the receiver of its stream.
    SenderReport(RtcpPacketSenderReport),
    /// A source description, for the receiver of the stream `ssrc`.
    SourceDescription { ssrc: u32, description: SourceDescription },
    /// Transport feedback, for the sender of the stream `ssrc`.
    TransportFeedback { ssrc: u32, feedback: RtcpTransportFeedback },
    /// Payload feedback, for the sender of the stream `ssrc`.
    PayloadFeedback { ssrc: u32, feedback: RtcpPayloadFeedback },
    /// A packet no stream takes, for the user.
    Unassignable(RtcpPacket),
    /// A packet of unknown kind, for every sender and receiver.
    Unknown(Vec<u8>),
}

impl View for RtcpRoute {
    type V = RtcpRouteView;

    open spec fn view(&self) -> RtcpRouteView {
        match self {
            RtcpRoute::ReceiverReportBlock { ssrc, report, profile_data } => RtcpRouteView::ReceiverReportBlock {
                ssrc: *ssrc,
                report: *report,
                profile_data: opt_view(*profile_data),
            },
            RtcpRoute::SenderReport(r) => RtcpRouteView::SenderReport(r@),
            RtcpRoute::SourceDescription { ssrc, description } => RtcpRouteView::SourceDescription {
                ssrc: *ssrc,
                description: description@,
            },
            RtcpRoute::TransportFeedback { ssrc, feedback } => RtcpRouteView::TransportFeedback {
                ssrc: *ssrc,
                feedback: feedback@,
            },
            RtcpRoute::PayloadFeedback { ssrc, feedback } => RtcpRouteView::PayloadFeedback {
                ssrc: *ssrc,
                feedback: feedback@,
            },
            RtcpRoute::Unassignable(p) => RtcpRouteView::Unassignable(p@),
            RtcpRoute::Unknown(d) => RtcpRouteView::Unknown(d@),
        }
    }
}

pub open spec fn route_views(v: Seq<RtcpRoute>) -> Seq<RtcpRouteView> {
    v.map_values(|r: RtcpRoute| r@)
}

/// The report blocks of `rr` under `keys`, in order, for the streams that
/// have a sender.
pub open spec fn report_routes(keys: Seq<u32>, rr: ReceiverReportView, senders: Seq<u32>) -> Seq<RtcpRouteView>
    decreases keys.len(),
{
    if keys.len() == 0 {
        Seq::empty()
    } else {
        let k = keys.last();
        report_routes(keys.drop_last(), rr, senders) + if senders.contains(k) {
            seq![RtcpRouteView::ReceiverReportBlock { ssrc: k, report: rr.reports[k], profile_data: rr.profile_data }]
        } else {
            Seq::empty()
        }
    }
}

/// The descriptions of `d`, in order, for the streams that have a receiver.
pub open spec fn description_routes(d: Seq<(u32, SourceDescriptionView)>, receivers: Seq<u32>) -> Seq<RtcpRouteView>
    decreases d.len(),
{
    if d.len() == 0 {
        Seq::empty()
    } else {
        let (k, desc) = d.last();
        description_routes(d.drop_last(), receivers) + if receivers.contains(k) {
            seq![RtcpRouteView::SourceDescription { ssrc: k, description: desc }]
        } else {
            Seq::empty()
        }
    }
}

/// Where a received packet goes, given the SSRCs of the streams with a
/// sender and of those with a receiver. A goodbye goes nowhere.
pub open spec fn packet_routes(p: RtcpPacketView, senders: Seq<u32>, receivers: Seq<u32>) -> Seq<RtcpRouteView> {
    match p {
        RtcpPacketView::ReceiverReport(rr) => report_routes(sorted_keys(rr.reports.dom()), rr, senders),
        RtcpPacketView::SenderReport(sr) => if receivers.contains(sr.ssrc) {
            seq![RtcpRouteView::SenderReport(sr)]
        } else {
            seq![RtcpRouteView::Unassignable(p)]
        },
        RtcpPacketView::SourceDescription(d) => description_routes(d, receivers),
        RtcpPacketView::Bye(_) => Seq::empty(),
        RtcpPacketView::TransportFeedback(f) => if senders.contains(f.media_ssrc) {
            seq![RtcpRouteView::TransportFeedback { ssrc: f.media_ssrc, feedback: f.feedback }]
        } else {
            seq![RtcpRouteView::Unassignable(p)]
        },
        RtcpPacketView::PayloadFeedback(f) => if senders.contains(f.media_ssrc) {
            seq![RtcpRouteView::PayloadFeedback { ssrc: f.media_ssrc, feedback: f.feedback }]
        } else {
            seq![RtcpRouteView::Unassignable(p)]
        },
        RtcpPacketView::ExtendedReport(_) => seq![RtcpRouteView::Unassignable(p)],
        RtcpPacketView::Unknown(d) => seq![RtcpRouteView::Unknown(d)],
    }
}

fn contains_ssrc(list: &[u32], ssrc: u32) -> (r: bool)
    ensures
        r == list@.contains(ssrc),
{
    let mut i: usize = 0;
    while i < list.len()
        invariant
            i <= list.len(),
            forall|j: int| 0 <= j < i ==> list@[j] != ssrc,
        decreases list.len() - i,
    {
        if list[i] == ssrc {
            return true;
        }
        i = i + 1;
    }
    false
}

fn copy_profile_data(data: &Option<Vec<u8>>) -> (r: Option<Vec<u8>>)
    ensures
        opt_view(r) == opt_view(*data),
{
    match data {
        Some(d) => {
            let c = d.clone();
            assert(c@ =~= d@);
            Some(c)
        },
        None => None,
    }
}

/// Hands each received RTCP packet to where it belongs, given the SSRCs of
/// the streams with a sender and of those with a receiver: report blocks
/// and feedback to senders, sender reports and source descriptions to
/// receivers; what no stream takes to the user.
pub fn route_rtcp_packet(packet: RtcpPacket, senders: &[u32], receivers: &[u32]) -> (r: Vec<RtcpRoute>)
    ensures
        route_views(r@) == packet_routes(packet@, senders@, receivers@),
{
    let ghost p = packet@;
    let mut out: Vec<RtcpRoute> = Vec::new();
    match packet {
        RtcpPacket::ReceiverReport(rr) => {
            let keys = sorted_report_keys(&rr.reports);
            proof { lemma_sorted_keys(rr.reports@.dom()); }
            let mut i: usize = 0;
            while i < keys.len()
                invariant
                    i <= keys.len(),
                    keys@ == sorted_keys(rr.reports@.dom()),
                    keys@.to_set() == rr.reports@.dom(),
                    route_views(out@) == report_routes(keys@.take(i as int), rr@, senders@),
                decreases keys.len() - i,
            {
                let k = keys[i];
                proof {
                    assert(keys@.take(i + 1).drop_last() =~= keys@.take(i as int));
                    assert(keys@.take(i + 1).last() == k);
                    assert(keys@.to_set().contains(k));
                }
                let ghost before = out@;
                if contains_ssrc(senders, k) {
                    let report = *rr.reports.get(&k).unwrap();
                    out.push(RtcpRoute::ReceiverReportBlock { ssrc: k, report, profile_data: copy_profile_data(&rr.profile_data) });
                }
                proof { assert(route_views(out@) =~= report_routes(keys@.take(i + 1), rr@, senders@)); }
                i = i + 1;
            }
            proof { assert(keys@.take(keys@.len() as int) =~= keys@); }
        },
        RtcpPacket::SenderReport(sr) => {
            if contains_ssrc(receivers, sr.ssrc) {
                out.push(RtcpRoute::SenderReport(sr));
            } else {
                out.push(RtcpRoute::Unassignable(RtcpPacket::SenderReport(sr)));
            }
        },
        RtcpPacket::SourceDescription(sd) => {
            let mut rest = sd.descriptions;
            let ghost all = rest@;
            let ghost mut done: int = 0;
            while rest.len() > 0
                invariant
                    0 <= done <= all.len(),
                    rest@ == all.skip(done),
                    route_views(out@) == description_routes(chunk_views(all.take(done)), receivers@),
                decreases rest.len(),
            {
                let (k, description) = rest.remove(0);
                proof {
                    assert(chunk_views(all.take(done + 1)).drop_last() =~= chunk_views(all.take(done)));
                    assert(all[done] == (k, description));
                }
                if contains_ssrc(receivers, k) {
                    out.push(RtcpRoute::SourceDescription { ssrc: k, description });
                }
                proof {
                    assert(route_views(out@) =~= description_routes(chunk_views(all.take(done + 1)), receivers@));
                    done = done + 1;
                    assert(rest@ =~= all.skip(done));
                }
            }
            proof { assert(all.take(done) =~= all); }
        },
        RtcpPacket::Bye(_) => {},
        RtcpPacket::TransportFeedback(fb) => {
            if contains_ssrc(senders, fb.media_ssrc) {
                out.push(RtcpRoute::TransportFeedback { ssrc: fb.media_ssrc, feedback: fb.feedback });
            } else {
                out.push(RtcpRoute::Unassignable(RtcpPacket::TransportFeedback(fb)));
            }
        },
        RtcpPacket::PayloadFeedback(pfb) => {
            if contains_ssrc(senders, pfb.media_ssrc) {
                out.push(RtcpRoute::PayloadFeedback { ssrc: pfb.media_ssrc, feedback: pfb.feedback });
            } else {
                out.push(RtcpRoute::Unassignable(RtcpPacket::PayloadFeedback(pfb)));
            }
        },
        RtcpPacket::ExtendedReport(xr) => {
            out.push(RtcpRoute::Unassignable(RtcpPacket::ExtendedReport(xr)));
        },
        RtcpPacket::Unknown(data) => {
            out.push(RtcpRoute::Unknown(data));
        },
    }
    proof { assert(route_views(out@) =~= packet_routes(p, senders@, receivers@)); }
    out
}


/// The most packets a received compound RTCP packet is split into.
pub const MAX_COMPOUND_PACKETS: usize = 128;

/// The routes of the packets of `b` at `ranges`, in order; a packet that
/// does not decode goes nowhere.
pub open spec fn ranges_routes(b: Seq<u8>, ranges: Seq<(int, int)>, senders: Seq<u32>, receivers: Seq<u32>) -> Seq<
    RtcpRouteView,
>
    decreases ranges.len(),
{
    if ranges.len() == 0 {
        Seq::empty()
    } else {
        let (start, end) = ranges.last();
        ranges_routes(b, ranges.drop_last(), senders, receivers) + match parse_packet(b.subrange(start, end)) {
            Ok(p) => packet_routes(p, senders, receivers),
            Err(_) => Seq::empty(),
        }
    }
}

/// Where the packets of a received compound RTCP packet `b` go; one that
/// does not split goes nowhere.
pub open spec fn message_routes(b: Seq<u8>, senders: Seq<u32>, receivers: Seq<u32>) -> Seq<RtcpRouteView> {
    let (ranges, err) = split_ranges(b, 0, MAX_COMPOUND_PACKETS as int);
    match err {
        Some(_) => Seq::empty(),
        None => ranges_routes(b, ranges, senders, receivers),
    }
}

/// Splits a received compound RTCP packet and routes each of its packets
/// with `route_rtcp_packet`, skipping those that do not decode.
pub fn route_rtcp_message(message: &[u8], senders: &[u32], receivers: &[u32]) -> (r: Vec<RtcpRoute>)
    requires
        !split_meets_empty_packet(message@, 0, MAX_COMPOUND_PACKETS as int),
    ensures
        route_views(r@) == message_routes(message@, senders@, receivers@),
{
    let empty: &[u8] = &[];
    let mut packets = [empty; 128];
    let count = match RtcpPacket::split_up_packets(message, &mut packets) {
        Ok(n) => n,
        Err(_) => {
            proof { assert(route_views(Seq::<RtcpRoute>::empty()) =~= Seq::<RtcpRouteView>::empty()); }
            return Vec::new();
        },
    };
    let ghost ranges = split_ranges(message@, 0, MAX_COMPOUND_PACKETS as int).0;
    let mut out: Vec<RtcpRoute> = Vec::new();
    let mut i: usize = 0;
    while i < count
        invariant
            count == ranges.len(),
            count <= 128,
            i <= count,
            packets@.len() == 128,
            forall|j: int| 0 <= j < ranges.len() ==> (#[trigger] packets@[j])@ == message@.subrange(ranges[j].0, ranges[j].1),
            route_views(out@) == ranges_routes(message@, ranges.take(i as int), senders@, receivers@),
        decreases count - i,
    {
        proof {
            assert(ranges.take(i + 1).drop_last() =~= ranges.take(i as int));
            assert(ranges.take(i + 1).last() == ranges[i as int]);
        }
        let ghost before = out@;
        match RtcpPacket::parse(packets[i]) {
            Ok(packet) => {
                let mut routes = route_rtcp_packet(packet, senders, receivers);
                let ghost added = routes@;
                out.append(&mut routes);
                proof {
                    assert(out@ == before + added);
                    assert(route_views(out@) =~= route_views(before) + route_views(added));
                }
            },
            Err(_) => {},
        }
        proof { assert(route_views(out@) =~= ranges_routes(message@, ranges.take(i + 1), senders@, receivers@)); }
        i = i + 1;
    }
    proof { assert(ranges.take(count as int) =~= ranges); }
    out
}


// ---------------------------------------------------------------------------
// Streams of media lines
// ---------------------------------------------------------------------------

/// The receivers, as (SSRC, media line) pairs, that a remote description
/// of the media line `line` ends: those of that line whose source it no
/// longer announces, in order.
pub open spec fn ended_receivers(receivers: Seq<(u32, u32)>, line: u32, remote_streams: Seq<u32>) -> Seq<u32>
    decreases receivers.len(),
{
    if receivers.len() == 0 {
        Seq::empty()
    } else {
        let rest = ended_receivers(receivers.drop_last(), line, remote_streams);
        let (id, media_line) = receivers.last();
        if media_line == line && !remote_streams.contains(id) { rest.push(id) } else { rest }
    }
}

/// The sources of `remote_streams` that get a new receiver: those no
/// receiver takes yet, each once, in order.
pub open spec fn started_receivers(receivers: Seq<(u32, u32)>, remote_streams: Seq<u32>) -> Seq<u32>
    decreases remote_streams.len(),
{
    if remote_streams.len() == 0 {
        Seq::empty()
    } else {
        let rest = started_receivers(receivers, remote_streams.drop_last());
        let id = remote_streams.last();
        if rest.contains(id) || exists|k: int| 0 <= k < receivers.len() && #[trigger] receivers[k].0 == id {
            rest
        } else {
            rest.push(id)
        }
    }
}

fn has_receiver(receivers: &[(u32, u32)], id: u32) -> (r: bool)
    ensures
        r == exists|k: int| 0 <= k < receivers@.len() && #[trigger] receivers@[k].0 == id,
{
    let mut i: usize = 0;
    while i < receivers.len()
        invariant
            i <= receivers.len(),
            forall|k: int| 0 <= k < i ==> #[trigger] receivers@[k].0 != id,
        decreases receivers.len() - i,
    {
        if receivers[i].0 == id {
            return true;
        }
        i = i + 1;
    }
    false
}

fn contains_id(list: &Vec<u32>, id: u32) -> (r: bool)
    ensures
        r == list@.contains(id),
{
    let mut i: usize = 0;
    while i < list.len()
        invariant
            i <= list.len(),
            forall|k: int| 0 <= k < i ==> list@[k] != id,
        decreases list.len() - i,
    {
        if list[i] == id {
            return true;
        }
        i = i + 1;
    }
    false
}

/// How the receivers change when a remote description of the media line
/// `line` announces `remote_streams`: the ones that end, and the sources
/// that get a new receiver.
pub fn receiver_changes(receivers: &[(u32, u32)], line: u32, remote_streams: &[u32]) -> (r: (Vec<u32>, Vec<u32>))
    ensures
        r.0@ == ended_receivers(receivers@, line, remote_streams@),
        r.1@ == started_receivers(receivers@, remote_streams@),
{
    let mut ended: Vec<u32> = Vec::new();
    let mut i: usize = 0;
    while i < receivers.len()
        invariant
            i <= receivers.len(),
            ended@ == ended_receivers(receivers@.take(i as int), line, remote_streams@),
        decreases receivers.len() - i,
    {
        let (id, media_line) = receivers[i];
        proof {
            assert(receivers@.take(i + 1).drop_last() =~= receivers@.take(i as int));
            assert(receivers@.take(i + 1).last() == (id, media_line));
        }
        if media_line == line && !contains_ssrc(remote_streams, id) {
            ended.push(id);
        }
        i = i + 1;
    }
    proof { assert(receivers@.take(receivers@.len() as int) =~= receivers@); }
    let mut started: Vec<u32> = Vec::new();
    let mut j: usize = 0;
    while j < remote_streams.len()
        invariant
            j <= remote_streams.len(),
            started@ == started_receivers(receivers@, remote_streams@.take(j as int)),
        decreases remote_streams.len() - j,
    {
        let id = remote_streams[j];
        proof {
            assert(remote_streams@.take(j + 1).drop_last() =~= remote_streams@.take(j as int));
            assert(remote_streams@.take(j + 1).last() == id);
        }
        if !contains_id(&started, id) && !has_receiver(receivers, id) {
            started.push(id);
        }
        j = j + 1;
    }
    proof { assert(remote_streams@.take(remote_streams@.len() as int) =~= remote_streams@); }
    (ended, started)
}

/// The kind of media a media line carries.
#[derive(Debug, PartialEq, Eq, Clone, Copy, Structural)]
pub enum MediaKind {
    Audio,
    Video,
    Application,
}

/// The media line a new sender of `kind` takes, given each line's kind and
/// whether it has no local streams: the first one of that kind without
/// local streams; none if a new line is needed.
pub fn sender_media_line(lines: &[(MediaKind, bool)], kind: MediaKind) -> (r: Option<usize>)
    ensures
        match r {
            Some(i) => {
                &&& i < lines@.len()
                &&& lines@[i as int] == (kind, true)
                &&& forall|k: int| 0 <= k < i ==> lines@[k] != (kind, true)
            },
            None => forall|k: int| 0 <= k < lines@.len() ==> lines@[k] != (kind, true),
        },
{
    let mut i: usize = 0;
    while i < lines.len()
        invariant
            i <= lines.len(),
            forall|k: int| 0 <= k < i ==> lines@[k] != (kind, true),
        decreases lines.len() - i,
    {
        let (line_kind, no_local_streams) = lines[i];
        if line_kind == kind && no_local_streams {
            return Some(i);
        }
        i = i + 1;
    }
    None
}

} // verus!
