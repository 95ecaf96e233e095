//! What arrives on a transport, and what is kept for resending.
pub mod packet_history;
pub use packet_history::{RtpSendPacket, RtpPacketHistory};

use vstd::prelude::*;
use crate::utils::rtp::{is_rtp_header, rtp_header_shape};
use crate::utils::rtcp::{is_rtcp_header, rtcp_header_shape};
use crate::rtc::SetupRole;

verus! {

/// Whether `buf` starts a DTLS record: its first byte is a TLS content type
/// (20 to 64, RFC 7983).
pub fn is_ssl_packet(buf: &[u8]) -> (r: bool)
    ensures
        r == (buf@.len() > 1 && 20 <= buf@[0] <= 64),
{
    buf.len() > 1 && (buf[0] >= 20 && buf[0] <= 64)
}

/// What a datagram received on a transport carries.
#[derive(Debug, PartialEq, Eq, Clone, Copy, Structural)]
pub enum IncomingPacketKind {
    Dtls,
    Rtp,
    Rtcp,
    Unknown,
}

/// Tells DTLS records, RTP and RTCP packets apart, in that order of
/// preference.
pub fn classify_incoming(data: &[u8]) -> (r: IncomingPacketKind)
    ensures
        r == (if data@.len() > 1 && 20 <= data@[0] <= 64 {
            IncomingPacketKind::Dtls
        } else if rtp_header_shape(data@) {
            IncomingPacketKind::Rtp
        } else if rtcp_header_shape(data@) {
            IncomingPacketKind::Rtcp
        } else {
            IncomingPacketKind::Unknown
        }),
{
    if is_ssl_packet(data) {
        IncomingPacketKind::Dtls
    } else if is_rtp_header(data) {
        IncomingPacketKind::Rtp
    } else if is_rtcp_header(data) {
        IncomingPacketKind::Rtcp
    } else {
        IncomingPacketKind::Unknown
    }
}

/// On a port that RTP and RTCP share, a datagram that holds a fixed RTP
/// header is told as RTCP exactly when it is not told as RTP.
pub proof fn lemma_rtp_rtcp_exclusive(b: Seq<u8>)
    requires
        b.len() >= 12,
    ensures
        rtcp_header_shape(b) == !rtp_header_shape(b),
{
}

#[derive(Debug, PartialEq, Eq, Clone, Copy, Structural)]
pub enum RTCTransportICECandidateAddError {
    UnknownMediaChannel,
    /* This should never happen */
    MissingTransport,
    RemoteCandidatesAlreadyReceived,
    FqdnNotYetSupported,
    InvalidComponentIndex,
    RemoteStateMissing,
}

#[derive(Debug, PartialEq, Eq, Clone, Copy, Structural)]
pub enum RTCTransportDescriptionApplyError {
    /// Applied media line isn't the owning media line,
    /// and the owning media line hasn't yet applied any description
    MissingInitialDescription,
    MissingUsernameFragment,
    MissingPassword,
    MissingFingerprint,
    MissingSetup,
    MissingRtcpMux,
    InvalidSetupValue,
    /// We've locally a contradicting setup value for the remote peer.
    ContradictingSetupValue,
    /// The setup value does not matches the previous value
    MissMatchingSetupValue,
    CandidateAddError(RTCTransportICECandidateAddError),
}

/// The DTLS role of a transport.
#[derive(Debug, PartialEq, Eq, Clone, Copy, Structural)]
pub enum RTPTransportSetup {
    /// The setup state has not yet been decided
    Unset,
    Active,
    Passive,
    Actpass,
    Holdconn,
}

/// The DTLS role of a transport once the remote side announced `remote`:
/// an undecided side takes the role opposite to the remote one (passive
/// where the remote side lets it choose, unless it let the remote side
/// choose too); a decided side keeps its role if the remote one complements
/// it; holding stays holding.
pub open spec fn spec_negotiate_setup(local: RTPTransportSetup, remote: SetupRole) -> Result<
    RTPTransportSetup,
    RTCTransportDescriptionApplyError,
> {
    match local {
        RTPTransportSetup::Unset | RTPTransportSetup::Actpass => match remote {
            SetupRole::Passive => Ok(RTPTransportSetup::Active),
            SetupRole::Active => Ok(RTPTransportSetup::Passive),
            SetupRole::Actpass => if local == RTPTransportSetup::Actpass {
                Err(RTCTransportDescriptionApplyError::InvalidSetupValue)
            } else {
                Ok(RTPTransportSetup::Passive)
            },
            SetupRole::Holdconn => Ok(RTPTransportSetup::Holdconn),
        },
        RTPTransportSetup::Holdconn => Ok(RTPTransportSetup::Holdconn),
        RTPTransportSetup::Active => if remote == SetupRole::Passive {
            Ok(RTPTransportSetup::Active)
        } else {
            Err(RTCTransportDescriptionApplyError::ContradictingSetupValue)
        },
        RTPTransportSetup::Passive => if remote == SetupRole::Active {
            Ok(RTPTransportSetup::Passive)
        } else {
            Err(RTCTransportDescriptionApplyError::ContradictingSetupValue)
        },
    }
}

pub fn negotiate_setup(local: RTPTransportSetup, remote: SetupRole) -> (r: Result<RTPTransportSetup, RTCTransportDescriptionApplyError>)
    ensures
        r == spec_negotiate_setup(local, remote),
{
    match local {
        RTPTransportSetup::Unset | RTPTransportSetup::Actpass => match remote {
            SetupRole::Passive => Ok(RTPTransportSetup::Active),
            SetupRole::Active => Ok(RTPTransportSetup::Passive),
            SetupRole::Actpass => {
                if matches!(local, RTPTransportSetup::Actpass) {
                    Err(RTCTransportDescriptionApplyError::InvalidSetupValue)
                } else {
                    Ok(RTPTransportSetup::Passive)
                }
            },
            SetupRole::Holdconn => Ok(RTPTransportSetup::Holdconn),
        },
        RTPTransportSetup::Holdconn => Ok(RTPTransportSetup::Holdconn),
        RTPTransportSetup::Active => {
            if matches!(remote, SetupRole::Passive) {
                Ok(RTPTransportSetup::Active)
            } else {
                Err(RTCTransportDescriptionApplyError::ContradictingSetupValue)
            }
        },
        RTPTransportSetup::Passive => {
            if matches!(remote, SetupRole::Active) {
                Ok(RTPTransportSetup::Passive)
            } else {
                Err(RTCTransportDescriptionApplyError::ContradictingSetupValue)
            }
        },
    }
}

/// The setup role a transport in the role `local` announces: an undecided
/// one lets the remote side choose.
pub open spec fn spec_announced_setup(local: RTPTransportSetup) -> SetupRole {
    match local {
        RTPTransportSetup::Unset | RTPTransportSetup::Actpass => SetupRole::Actpass,
        RTPTransportSetup::Active => SetupRole::Active,
        RTPTransportSetup::Passive => SetupRole::Passive,
        RTPTransportSetup::Holdconn => SetupRole::Holdconn,
    }
}

/// The setup role a transport announces: an undecided one lets the remote
/// side choose.
pub fn announced_setup(local: RTPTransportSetup) -> (r: SetupRole)
    ensures
        r == spec_announced_setup(local),
{
    match local {
        RTPTransportSetup::Unset | RTPTransportSetup::Actpass => SetupRole::Actpass,
        RTPTransportSetup::Active => SetupRole::Active,
        RTPTransportSetup::Passive => SetupRole::Passive,
        RTPTransportSetup::Holdconn => SetupRole::Holdconn,
    }
}

/// A transport whose role is undecided always takes one from the first
/// remote description that lets it, and any role it ends up with is decided.
pub proof fn lemma_setup_decided(local: RTPTransportSetup, remote: SetupRole)
    ensures
        local == RTPTransportSetup::Unset ==> spec_negotiate_setup(local, remote) is Ok,
        spec_negotiate_setup(local, remote) matches Ok(s) ==> (s == RTPTransportSetup::Active || s
            == RTPTransportSetup::Passive || s == RTPTransportSetup::Holdconn),
{
}

/// The DTLS roles of the two sides complement each other: against an active
/// remote side this side ends up passive (or holding), against a passive one
/// active (or holding), so the two sides never both take the same active or
/// passive role; an undecided side takes exactly the opposite role, a decided
/// side keeps its own, and a holding remote side leaves only holding.
pub proof fn lemma_setup_complements(local: RTPTransportSetup, remote: SetupRole)
    ensures
        (spec_negotiate_setup(local, SetupRole::Active) matches Ok(s) ==> (s
            == RTPTransportSetup::Passive || s == RTPTransportSetup::Holdconn)),
        (spec_negotiate_setup(local, SetupRole::Passive) matches Ok(s) ==> (s
            == RTPTransportSetup::Active || s == RTPTransportSetup::Holdconn)),
        (spec_negotiate_setup(local, SetupRole::Holdconn) matches Ok(s) ==> s
            == RTPTransportSetup::Holdconn),
        (local == RTPTransportSetup::Unset || local == RTPTransportSetup::Actpass) ==> (
        spec_negotiate_setup(local, SetupRole::Active) == Ok::<
            RTPTransportSetup,
            RTCTransportDescriptionApplyError,
        >(RTPTransportSetup::Passive) && spec_negotiate_setup(local, SetupRole::Passive) == Ok::<
            RTPTransportSetup,
            RTCTransportDescriptionApplyError,
        >(RTPTransportSetup::Active)),
        (local == RTPTransportSetup::Active || local == RTPTransportSetup::Passive) ==> (
        spec_negotiate_setup(local, remote) matches Ok(s) ==> s == local),
{
}

/// Negotiation fails exactly when both sides leave the choice to the other
/// (an invalid setup value) or when this side's decided role does not
/// complement the remote one (a contradicting setup value); where the remote
/// side leaves the choice to an undecided side, that side becomes passive.
pub proof fn lemma_setup_failures(local: RTPTransportSetup, remote: SetupRole)
    ensures
        (spec_negotiate_setup(local, remote) == Err::<RTPTransportSetup, RTCTransportDescriptionApplyError>(
            RTCTransportDescriptionApplyError::InvalidSetupValue)) <==> (local == RTPTransportSetup::Actpass
            && remote == SetupRole::Actpass),
        (spec_negotiate_setup(local, remote) == Err::<RTPTransportSetup, RTCTransportDescriptionApplyError>(
            RTCTransportDescriptionApplyError::ContradictingSetupValue)) <==> ((local
            == RTPTransportSetup::Active && remote != SetupRole::Passive) || (local
            == RTPTransportSetup::Passive && remote != SetupRole::Active)),
        spec_negotiate_setup(local, remote) is Err ==> (spec_negotiate_setup(local, remote)
            == Err::<RTPTransportSetup, RTCTransportDescriptionApplyError>(
            RTCTransportDescriptionApplyError::InvalidSetupValue) || spec_negotiate_setup(local, remote)
            == Err::<RTPTransportSetup, RTCTransportDescriptionApplyError>(
            RTCTransportDescriptionApplyError::ContradictingSetupValue)),
        spec_negotiate_setup(RTPTransportSetup::Unset, SetupRole::Actpass) == Ok::<
            RTPTransportSetup,
            RTCTransportDescriptionApplyError,
        >(RTPTransportSetup::Passive),
        local == RTPTransportSetup::Holdconn ==> spec_negotiate_setup(local, remote) == Ok::<
            RTPTransportSetup,
            RTCTransportDescriptionApplyError,
        >(RTPTransportSetup::Holdconn),
{
}

/// The ICE credentials of a peer.
#[derive(Clone, Debug)]
pub struct ICECredentials {
    pub username: String,
    pub password: String,
}

/// What a transport keeps of the remote peer once a description of it was
/// applied.
#[derive(Clone, Debug)]
pub struct PeerState {
    pub credentials: ICECredentials,
    pub fingerprint: Vec<u8>,
    pub candidates_gathered: bool,
}

/// The attributes of a remote media description that its transport reads:
/// whether it asks for RTP and RTCP on one port, whether it is an
/// application (data channel) line, its ICE credentials, the fingerprint
/// of its DTLS certificate and its setup role.
#[derive(Clone, Debug)]
pub struct RemoteTransportAttributes {
    pub rtcp_mux: bool,
    pub application: bool,
    pub ice_ufrag: Option<String>,
    pub ice_pwd: Option<String>,
    pub fingerprint: Option<Vec<u8>>,
    pub setup: Option<SetupRole>,
}

/// The first attribute that a transport needs and a remote description
/// lacks, in the order a transport checks them: RTCP multiplexing (not
/// asked of application lines), the ICE user name fragment and password,
/// the fingerprint and the setup role.
pub open spec fn missing_transport_attribute(a: RemoteTransportAttributes) -> Option<RTCTransportDescriptionApplyError> {
    if !a.rtcp_mux && !a.application {
        Some(RTCTransportDescriptionApplyError::MissingRtcpMux)
    } else if a.ice_ufrag is None {
        Some(RTCTransportDescriptionApplyError::MissingUsernameFragment)
    } else if a.ice_pwd is None {
        Some(RTCTransportDescriptionApplyError::MissingPassword)
    } else if a.fingerprint is None {
        Some(RTCTransportDescriptionApplyError::MissingFingerprint)
    } else if a.setup is None {
        Some(RTCTransportDescriptionApplyError::MissingSetup)
    } else {
        None
    }
}

/// What applying a remote description does to a transport whose role is
/// `setup` and which holds a remote peer state or not: a description that
/// lacks an attribute is refused and changes nothing; a transport that
/// already holds a remote peer state keeps it and its role; otherwise the
/// remote peer state is taken from the description (its candidates are
/// not yet complete), and the role is negotiated, which may fail after the
/// peer state was taken. The first part of the result is the peer state to
/// store, if any; the second the role of the transport, or the error.
pub fn apply_remote_attributes(
    setup: RTPTransportSetup,
    has_remote_state: bool,
    attributes: &RemoteTransportAttributes,
) -> (r: (Option<PeerState>, Result<RTPTransportSetup, RTCTransportDescriptionApplyError>))
    ensures
        match missing_transport_attribute(*attributes) {
            Some(e) => r.0 is None && r.1 == Err::<RTPTransportSetup, RTCTransportDescriptionApplyError>(e),
            None => if has_remote_state {
                r.0 is None && r.1 == Ok::<RTPTransportSetup, RTCTransportDescriptionApplyError>(setup)
            } else {
                &&& r.0 matches Some(state) && state.credentials.username@ == attributes.ice_ufrag->Some_0@
                    && state.credentials.password@ == attributes.ice_pwd->Some_0@
                    && state.fingerprint@ == attributes.fingerprint->Some_0@ && !state.candidates_gathered
                &&& r.1 == spec_negotiate_setup(setup, attributes.setup->Some_0)
            },
        },
{
    if !attributes.rtcp_mux && !attributes.application {
        /* only multiplexed RTP and RTCP is supported */
        return (None, Err(RTCTransportDescriptionApplyError::MissingRtcpMux));
    }
    let username = match &attributes.ice_ufrag {
        Some(u) => u,
        None => return (None, Err(RTCTransportDescriptionApplyError::MissingUsernameFragment)),
    };
    let password = match &attributes.ice_pwd {
        Some(p) => p,
        None => return (None, Err(RTCTransportDescriptionApplyError::MissingPassword)),
    };
    let fingerprint = match &attributes.fingerprint {
        Some(f) => f,
        None => return (None, Err(RTCTransportDescriptionApplyError::MissingFingerprint)),
    };
    let remote_setup = match attributes.setup {
        Some(s) => s,
        None => return (None, Err(RTCTransportDescriptionApplyError::MissingSetup)),
    };
    if has_remote_state {
        return (None, Ok(setup));
    }
    let state = PeerState {
        credentials: ICECredentials { username: username.clone(), password: password.clone() },
        fingerprint: fingerprint.clone(),
        candidates_gathered: false,
    };
    (Some(state), negotiate_setup(setup, remote_setup))
}


#[derive(Clone, Copy, Debug, PartialEq, Eq, Structural)]
pub enum RTCTransportFailReason {
    DtlsInitFailed,
    DtlsError,
    DtlsEncryptError,
    DtlsEof,
    IceFinished,
    IceStreamFinished,
    IceFailure,
}

#[derive(Clone, Copy, Debug, PartialEq, Eq, Structural)]
pub enum RTCTransportState {
    Disconnected,
    Connecting,
    Connected,
    UnrecoverableFailed(RTCTransportFailReason),
}

/// The state of the ICE component a transport runs on (RFC 8445).
#[derive(Clone, Copy, Debug, PartialEq, Eq, Structural)]
pub enum IceComponentState {
    Disconnected,
    Gathering,
    Connecting,
    Connected,
    Ready,
    Failed,
}

/// The state of a transport whose ICE component is in `component`: a
/// failed transport stays failed; a transport is connected once ICE is
/// connected and the DTLS handshake is done.
pub open spec fn spec_transport_state(
    current: RTCTransportState,
    component: IceComponentState,
    dtls_connected: bool,
) -> RTCTransportState {
    match current {
        RTCTransportState::UnrecoverableFailed(_) => current,
        _ => match component {
            IceComponentState::Ready | IceComponentState::Connected => if dtls_connected {
                RTCTransportState::Connected
            } else {
                RTCTransportState::Connecting
            },
            IceComponentState::Gathering | IceComponentState::Connecting => RTCTransportState::Connecting,
            _ => RTCTransportState::Disconnected,
        },
    }
}

/// The state of a transport after its ICE component and DTLS handshake
/// changed, and whether that is a change to report. A failed ICE
/// component is reported as a failure of the transport before.
pub fn update_transport_state(current: RTCTransportState, component: IceComponentState, dtls_connected: bool) -> (r: (
    RTCTransportState,
    bool,
))
    requires
        current is UnrecoverableFailed || component != IceComponentState::Failed,
    ensures
        r.0 == spec_transport_state(current, component, dtls_connected),
        r.1 == (r.0 != current),
{
    if let RTCTransportState::UnrecoverableFailed(_) = current {
        return (current, false);
    }
    let state = match component {
        IceComponentState::Ready | IceComponentState::Connected => {
            if dtls_connected {
                RTCTransportState::Connected
            } else {
                RTCTransportState::Connecting
            }
        },
        IceComponentState::Gathering | IceComponentState::Connecting => RTCTransportState::Connecting,
        _ => RTCTransportState::Disconnected,
    };
    (state, state != current)
}

/// A transport that failed stays failed, whatever its ICE component and
/// DTLS handshake do afterwards.
pub proof fn lemma_failure_is_final(reason: RTCTransportFailReason, component: IceComponentState, dtls_connected: bool)
    ensures
        spec_transport_state(RTCTransportState::UnrecoverableFailed(reason), component, dtls_connected)
            == RTCTransportState::UnrecoverableFailed(reason),
{
}


// ---------------------------------------------------------------------------
// Polling a transport
// ---------------------------------------------------------------------------

/// An event of a transport that its polling decides on; the candidates
/// themselves stay with the driver, which numbers them.
#[derive(Clone, Copy, Debug, PartialEq, Eq, Structural)]
pub enum TransportEvent {
    TransportStateChanged,
    IceStateChanged(IceComponentState),
    LocalIceCandidate(u32),
    LocalIceGatheringFinished,
}

/// What a transport polls, in this order.
#[derive(Clone, Copy, Debug, PartialEq, Eq, Structural)]
pub enum TransportPollSource {
    /// The local candidates of its ICE stream.
    Gathering,
    /// The state of its ICE component.
    ComponentState,
    /// The data of its ICE component, then its DTLS connection.
    Data,
}

/// What the driver of a transport observed: a poll begins, or the source
/// it was told to poll answered (`None` where it had nothing yet).
#[derive(Clone, Copy, Debug, PartialEq, Eq, Structural)]
pub enum TransportPollInput {
    Begin,
    /// A local candidate, or (`Some(None)`) the end of the candidates.
    Gathering(Option<Option<u32>>),
    /// The new state of the ICE component, or (`Some(None)`) the end of
    /// its state stream.
    ComponentState(Option<Option<IceComponentState>>),
}

/// What the driver of a transport does next.
#[derive(Clone, Copy, Debug, PartialEq, Eq, Structural)]
pub enum TransportPollAction {
    /// Hand out this event.
    Emit(TransportEvent),
    /// Poll this source and report what it gave.
    Poll(TransportPollSource),
    /// Nothing more can come from this transport for now.
    Pending,
}

/// The part of a transport that its polling decides on.
pub struct TransportPollState {
    pub state: RTCTransportState,
    pub candidates_gathered: bool,
    pub dtls_connected: bool,
    /// The events waiting to be handed out, oldest first.
    pub pending: Vec<TransportEvent>,
}

pub struct TransportPollView {
    pub state: RTCTransportState,
    pub candidates_gathered: bool,
    pub dtls_connected: bool,
    pub pending: Seq<TransportEvent>,
}

impl View for TransportPollState {
    type V = TransportPollView;

    open spec fn view(&self) -> TransportPollView {
        TransportPollView {
            state: self.state,
            candidates_gathered: self.candidates_gathered,
            dtls_connected: self.dtls_connected,
            pending: self.pending@,
        }
    }
}

/// One step of polling a transport: a poll first hands out the oldest
/// waiting event; a failed transport gives nothing more; then it polls its
/// local candidates until they are complete, the state of its ICE
/// component, and its data. A failed component or the end of its state
/// stream fails the transport for good; another component state is handed
/// out, after a change of the transport state it causes is queued.
pub open spec fn spec_transport_poll(v: TransportPollView, input: TransportPollInput) -> (TransportPollView, TransportPollAction) {
    match input {
        TransportPollInput::Begin => if v.pending.len() > 0 {
            (TransportPollView { pending: v.pending.drop_first(), ..v }, TransportPollAction::Emit(v.pending[0]))
        } else if v.state is UnrecoverableFailed {
            (v, TransportPollAction::Pending)
        } else if !v.candidates_gathered {
            (v, TransportPollAction::Poll(TransportPollSource::Gathering))
        } else {
            (v, TransportPollAction::Poll(TransportPollSource::ComponentState))
        },
        TransportPollInput::Gathering(g) => match g {
            None => (v, TransportPollAction::Poll(TransportPollSource::ComponentState)),
            Some(Some(c)) => (v, TransportPollAction::Emit(TransportEvent::LocalIceCandidate(c))),
            Some(None) => (
                TransportPollView { candidates_gathered: true, ..v },
                TransportPollAction::Emit(TransportEvent::LocalIceGatheringFinished),
            ),
        },
        TransportPollInput::ComponentState(c) => match c {
            None => (v, TransportPollAction::Poll(TransportPollSource::Data)),
            Some(None) => (
                TransportPollView { state: RTCTransportState::UnrecoverableFailed(RTCTransportFailReason::IceFinished), ..v },
                TransportPollAction::Emit(TransportEvent::TransportStateChanged),
            ),
            Some(Some(s)) => if s == IceComponentState::Failed {
                (
                    TransportPollView { state: RTCTransportState::UnrecoverableFailed(RTCTransportFailReason::IceFailure), ..v },
                    TransportPollAction::Emit(TransportEvent::TransportStateChanged),
                )
            } else {
                let next = spec_transport_state(v.state, s, v.dtls_connected);
                (
                    TransportPollView {
                        state: next,
                        pending: if next != v.state { v.pending.push(TransportEvent::TransportStateChanged) } else { v.pending },
                        ..v
                    },
                    TransportPollAction::Emit(TransportEvent::IceStateChanged(s)),
                )
            },
        },
    }
}

/// Takes one step of polling a transport, on what its driver observed.
pub fn transport_poll_step(poll: &mut TransportPollState, input: TransportPollInput) -> (r: TransportPollAction)
    ensures
        (final(poll)@, r) == spec_transport_poll(old(poll)@, input),
{
    match input {
        TransportPollInput::Begin => {
            if poll.pending.len() > 0 {
                let event = poll.pending.remove(0);
                assert(poll.pending@ =~= old(poll).pending@.drop_first());
                TransportPollAction::Emit(event)
            } else if let RTCTransportState::UnrecoverableFailed(_) = poll.state {
                TransportPollAction::Pending
            } else if !poll.candidates_gathered {
                TransportPollAction::Poll(TransportPollSource::Gathering)
            } else {
                TransportPollAction::Poll(TransportPollSource::ComponentState)
            }
        },
        TransportPollInput::Gathering(g) => match g {
            None => TransportPollAction::Poll(TransportPollSource::ComponentState),
            Some(Some(c)) => TransportPollAction::Emit(TransportEvent::LocalIceCandidate(c)),
            Some(None) => {
                poll.candidates_gathered = true;
                TransportPollAction::Emit(TransportEvent::LocalIceGatheringFinished)
            },
        },
        TransportPollInput::ComponentState(c) => match c {
            None => TransportPollAction::Poll(TransportPollSource::Data),
            Some(None) => {
                poll.state = RTCTransportState::UnrecoverableFailed(RTCTransportFailReason::IceFinished);
                TransportPollAction::Emit(TransportEvent::TransportStateChanged)
            },
            Some(Some(s)) => {
                if matches!(s, IceComponentState::Failed) {
                    poll.state = RTCTransportState::UnrecoverableFailed(RTCTransportFailReason::IceFailure);
                    TransportPollAction::Emit(TransportEvent::TransportStateChanged)
                } else {
                    let (next, changed) = update_transport_state(poll.state, s, poll.dtls_connected);
                    poll.state = next;
                    if changed {
                        poll.pending.push(TransportEvent::TransportStateChanged);
                    }
                    TransportPollAction::Emit(TransportEvent::IceStateChanged(s))
                }
            },
        },
    }
}

/// The events a transport queues are handed out oldest first: a poll of a
/// transport with waiting events hands out the first one and leaves the
/// rest in order.
pub proof fn lemma_poll_events_in_order(v: TransportPollView)
    requires
        v.pending.len() > 0,
    ensures
        spec_transport_poll(v, TransportPollInput::Begin).1 == TransportPollAction::Emit(v.pending[0]),
        spec_transport_poll(v, TransportPollInput::Begin).0.pending == v.pending.drop_first(),
{
}

/// The end of the local candidates is handed out once: after it, polls no
/// longer ask for candidates.
pub proof fn lemma_gathering_finishes_once(v: TransportPollView, input: TransportPollInput)
    ensures
        v.candidates_gathered ==> spec_transport_poll(v, input).0.candidates_gathered,
        v.candidates_gathered ==> spec_transport_poll(v, TransportPollInput::Begin).1 != TransportPollAction::Poll(
            TransportPollSource::Gathering,
        ),
        spec_transport_poll(v, TransportPollInput::Gathering(Some(None))).0.candidates_gathered,
{
}

/// A failed transport stays failed whatever its driver observes, and once
/// its waiting events are handed out, polling it gives nothing more.
pub proof fn lemma_failed_transport_is_pending(v: TransportPollView, input: TransportPollInput)
    requires
        v.state is UnrecoverableFailed,
    ensures
        spec_transport_poll(v, input).0.state is UnrecoverableFailed,
        v.pending.len() == 0 ==> spec_transport_poll(v, TransportPollInput::Begin).1 == TransportPollAction::Pending,
{
}


/// What a transport does with a remote ICE candidate.
#[derive(Clone, Copy, Debug, PartialEq, Eq, Structural)]
pub enum RemoteCandidateAction {
    /// The transport failed for good; candidates change nothing.
    Ignore,
    /// The candidate goes to the ICE stream.
    Add,
    /// No candidate: the remote side has sent all of them.
    EndOfCandidates,
}

/// A remote ICE candidate, as far as a transport checks it: whether its
/// address is a host name, and the component it is for.
#[derive(Clone, Copy, Debug, PartialEq, Eq, Structural)]
pub struct RemoteCandidateInfo {
    pub fqdn: bool,
    pub component: u32,
}

/// What a transport in `state` does with the remote candidate `candidate`
/// (none for the end of candidates), given whether a remote description
/// was applied and, if so, whether its candidates are complete, and the
/// number of components of its ICE stream.
pub fn remote_candidate_action(
    state: RTCTransportState,
    remote_gathered: Option<bool>,
    candidate: Option<RemoteCandidateInfo>,
    components: usize,
) -> (r: Result<RemoteCandidateAction, RTCTransportICECandidateAddError>)
    ensures
        r == (if state is UnrecoverableFailed {
            Ok(RemoteCandidateAction::Ignore)
        } else {
            match remote_gathered {
                None => Err(RTCTransportICECandidateAddError::RemoteStateMissing),
                Some(true) => Err(RTCTransportICECandidateAddError::RemoteCandidatesAlreadyReceived),
                Some(false) => match candidate {
                    None => Ok(RemoteCandidateAction::EndOfCandidates),
                    Some(c) => if c.fqdn {
                        Err(RTCTransportICECandidateAddError::FqdnNotYetSupported)
                    } else if c.component > components {
                        Err(RTCTransportICECandidateAddError::InvalidComponentIndex)
                    } else {
                        Ok(RemoteCandidateAction::Add)
                    },
                },
            }
        }),
{
    if let RTCTransportState::UnrecoverableFailed(_) = state {
        return Ok(RemoteCandidateAction::Ignore);
    }
    match remote_gathered {
        None => Err(RTCTransportICECandidateAddError::RemoteStateMissing),
        Some(true) => Err(RTCTransportICECandidateAddError::RemoteCandidatesAlreadyReceived),
        Some(false) => match candidate {
            None => Ok(RemoteCandidateAction::EndOfCandidates),
            Some(c) => {
                if c.fqdn {
                    Err(RTCTransportICECandidateAddError::FqdnNotYetSupported)
                } else if c.component as usize > components {
                    Err(RTCTransportICECandidateAddError::InvalidComponentIndex)
                } else {
                    Ok(RemoteCandidateAction::Add)
                }
            },
        },
    }
}

} // verus!
