//! The application (data) channel: the data channels that run over one SCTP
//! association, how they are opened, acknowledged, closed and reset.
//!
//! `ChannelApplication` decides; whoever drives it performs what it asks
//! for (`ApplicationAction`) on the SCTP session and hands back what
//! happened there.
use vstd::prelude::*;
use crate::sctp::sctp_macros::{SCTP_EOR, SCTP_UNORDERED, SCTP_STREAM_RESET_DENIED, SCTP_STREAM_RESET_FAILED, SCTP_STREAM_RESET_INCOMING_SSN};
use crate::sctp::notification::{SctpNotification, SctpNotificationStreamReset, SctpNotificationAssocChange, SctpSacState, NotificationView, StreamResetView};
use crate::rtc::{SetupRole, ACT_PASS_DEFAULT_SETUP_TYPE};
use crate::sctp::message::{
    DataChannelMessage as RawDataChannelMessage, DataChannelType, DataChannelControlMessage,
    DataChannelControlMessageOpen, DataChannelControlMessageOpenAck, MessageView,
    ControlMessageView, OpenView,
};

verus! {

broadcast use {vstd::std_specs::btree::group_btree_axioms, vstd::laws_cmp::group_laws_cmp};

/// Events which are emitted by the `ApplicationChannel`.
#[derive(Debug)]
pub enum ApplicationChannelEvent {
    DataChannelReceived(DataChannel),
    StateChanged { new_state: ApplicationChannelState },
}

#[derive(Debug, PartialEq, Eq, Clone, Copy, Structural)]
pub enum ApplicationChannelState {
    Disconnected,
    Connecting,
    Connected,
}

/// A message received on a data channel; an empty message has no content.
#[derive(PartialEq, Debug)]
pub enum DataChannelMessage {
    String(Option<String>),
    Binary(Option<Vec<u8>>),
}

impl View for DataChannelMessage {
    type V = MessageView;

    /// The wire form of the message: an absent content is the empty message.
    open spec fn view(&self) -> MessageView {
        match self {
            DataChannelMessage::String(Some(s)) => MessageView::String(s@),
            DataChannelMessage::String(None) => MessageView::StringEmpty,
            DataChannelMessage::Binary(Some(b)) => MessageView::Binary(b@),
            DataChannelMessage::Binary(None) => MessageView::BinaryEmpty,
        }
    }
}

pub enum ChannelEventView {
    MessageReceived(MessageView),
    StateChanged(DataChannelState),
}

#[derive(PartialEq, Debug)]
pub enum DataChannelEvent {
    MessageReceived(DataChannelMessage),
    StateChanged(DataChannelState),
}

impl View for DataChannelEvent {
    type V = ChannelEventView;

    open spec fn view(&self) -> ChannelEventView {
        match self {
            DataChannelEvent::MessageReceived(m) => ChannelEventView::MessageReceived(m@),
            DataChannelEvent::StateChanged(s) => ChannelEventView::StateChanged(*s),
        }
    }
}

/// The state of a data channel.
#[derive(PartialOrd, PartialEq, Eq, Debug, Copy, Clone, Structural)]
pub enum DataChannelState {
    /// The data channel isn't yet established.
    /// Messages cannot be send or received.
    Connecting,
    /// The data channel has been established.
    /// Messages can be send and received.
    Open,
    /// The data channel is closing.
    /// Messages may be received but cannot be send.
    Closing,
    /// The data channel has been closed.
    /// Messages cannot be send or received.
    Closed,
}

pub enum DataChannelActionView {
    SendMessage(u16, MessageView),
    Close(u16),
}

/// What a data channel asks of the application channel it belongs to.
#[derive(PartialEq, Debug)]
pub enum DataChannelAction {
    SendMessage(u16, RawDataChannelMessage),
    Close(u16),
}

impl View for DataChannelAction {
    type V = DataChannelActionView;

    open spec fn view(&self) -> DataChannelActionView {
        match self {
            DataChannelAction::SendMessage(id, m) => DataChannelActionView::SendMessage(*id, m@),
            DataChannelAction::Close(id) => DataChannelActionView::Close(*id),
        }
    }
}

pub struct DataChannelView {
    pub channel_id: u32,
    pub internal_channel_id: u16,
    pub label: Seq<char>,
    pub protocol: Seq<char>,
    pub state: DataChannelState,
    pub channel_type: DataChannelType,
}

/// The user's side of a data channel.
#[derive(Debug)]
pub struct DataChannel {
    channel_id: u32,
    internal_channel_id: u16,
    label: String,
    protocol: String,
    state: DataChannelState,
    channel_type: DataChannelType,
}

impl View for DataChannel {
    type V = DataChannelView;

    closed spec fn view(&self) -> DataChannelView {
        DataChannelView {
            channel_id: self.channel_id,
            internal_channel_id: self.internal_channel_id,
            label: self.label@,
            protocol: self.protocol@,
            state: self.state,
            channel_type: self.channel_type,
        }
    }
}

/// The error a data channel that is not open answers a message with.
pub open spec fn not_open_error() -> Seq<char> {
    "channel isn't open"@
}

impl DataChannel {
    /// A unique id for this channel, which will be used for all
    /// Application channel events
    pub fn unique_id(&self) -> (r: u32)
        ensures
            r == self@.channel_id,
    {
        self.channel_id
    }

    /// The name of the Data Channel as a UTF-8 encoded string.
    /// This may be an empty string.
    pub fn label(&self) -> (r: &String)
        ensures
            r@ == self@.label,
    {
        &self.label
    }

    /// Returns the protocol of the data channel.
    /// If this is an empty string the protocol is unspecified.
    /// If it is a non-empty string, it specifies a protocol registered in the
    /// 'WebSocket Subprotocol Name Registry' created in [RFC6455](https://tools.ietf.org/html/rfc6455).
    pub fn protocol(&self) -> (r: &String)
        ensures
            r@ == self@.protocol,
    {
        &self.protocol
    }

    /// Returns the current data channel state
    pub fn state(&self) -> (r: &DataChannelState)
        ensures
            *r == self@.state,
    {
        &self.state
    }

    /// Get the underlying data channel transport type
    pub fn channel_type(&self) -> (r: &DataChannelType)
        ensures
            *r == self@.channel_type,
    {
        &self.channel_type
    }

    /// The request that sends a text message to the remote peer, which
    /// only an open channel makes. `None` sends the empty message.
    pub fn send_text_message(&mut self, message: Option<String>) -> (r: Result<DataChannelAction, String>)
        ensures
            final(self)@ == old(self)@,
            old(self)@.state != DataChannelState::Open ==> (r matches Err(e) && e@ == not_open_error()),
            old(self)@.state == DataChannelState::Open ==> (r matches Ok(a) && a@ == DataChannelActionView::SendMessage(
                old(self)@.internal_channel_id,
                match message {
                    Some(s) => MessageView::String(s@),
                    None => MessageView::StringEmpty,
                },
            )),
    {
        if self.state != DataChannelState::Open {
            return Err(String::from_str("channel isn't open"));
        }
        match message {
            Some(message) => Ok(DataChannelAction::SendMessage(self.internal_channel_id, RawDataChannelMessage::String(message))),
            None => Ok(DataChannelAction::SendMessage(self.internal_channel_id, RawDataChannelMessage::StringEmpty())),
        }
    }

    /// The request that sends a binary message to the remote peer, which
    /// only an open channel makes. `None` sends the empty message.
    pub fn send_binary_message(&mut self, message: Option<Vec<u8>>) -> (r: Result<DataChannelAction, String>)
        ensures
            final(self)@ == old(self)@,
            old(self)@.state != DataChannelState::Open ==> (r matches Err(e) && e@ == not_open_error()),
            old(self)@.state == DataChannelState::Open ==> (r matches Ok(a) && a@ == DataChannelActionView::SendMessage(
                old(self)@.internal_channel_id,
                match message {
                    Some(b) => MessageView::Binary(b@),
                    None => MessageView::BinaryEmpty,
                },
            )),
    {
        if self.state != DataChannelState::Open {
            return Err(String::from_str("channel isn't open"));
        }
        match message {
            Some(message) => Ok(DataChannelAction::SendMessage(self.internal_channel_id, RawDataChannelMessage::Binary(message))),
            None => Ok(DataChannelAction::SendMessage(self.internal_channel_id, RawDataChannelMessage::BinaryEmpty())),
        }
    }

    /// The request that closes the channel; a channel that is closing or
    /// closed makes none.
    pub fn close(&mut self) -> (r: Option<DataChannelAction>)
        ensures
            final(self)@ == old(self)@,
            r matches Some(a) <==> (old(self)@.state == DataChannelState::Connecting
                || old(self)@.state == DataChannelState::Open),
            r matches Some(a) ==> a@ == DataChannelActionView::Close(old(self)@.internal_channel_id),
    {
        if matches!(self.state, DataChannelState::Closed | DataChannelState::Closing) {
            return None;
        }
        Some(DataChannelAction::Close(self.internal_channel_id))
    }
}


// ---------------------------------------------------------------------------
// The application channel
// ---------------------------------------------------------------------------

/// The SCTP port of the remote side when its description names none.
pub const DEFAULT_SCTP_PORT: u16 = 5000;
/// The number of streams the association is set up with, each way.
pub const MAX_CHANNELS: u16 = 1024;

/// What the application channel knows of one of its data channels.
pub struct ChannelRecord {
    /// The SCTP stream the channel runs on.
    pub stream_id: u16,
    pub channel_id: u32,
    pub state: DataChannelState,
    pub channel_type: DataChannelType,
    pub priority: u16,
    pub label: Seq<char>,
    pub protocol: Seq<char>,
}

struct InternalDataChannel {
    state: DataChannelState,
    channel_type: DataChannelType,
    priority: u16,
    label: String,
    protocol: String,
    internal_channel_id: u16,
    channel_id: u32,
}

impl View for InternalDataChannel {
    type V = ChannelRecord;

    closed spec fn view(&self) -> ChannelRecord {
        ChannelRecord {
            stream_id: self.internal_channel_id,
            channel_id: self.channel_id,
            state: self.state,
            channel_type: self.channel_type,
            priority: self.priority,
            label: self.label@,
            protocol: self.protocol@,
        }
    }
}

pub struct ChannelApplicationView {
    pub state: ApplicationChannelState,
    pub max_incoming_channel: u16,
    pub max_outgoing_channel: u16,
    /// The remote SCTP port, once a remote description configured it.
    pub remote_port: Option<u16>,
    /// Streams whose outgoing side still is to be reset.
    pub pending_stream_resets: Seq<u16>,
    pub dtls_role_client: bool,
    /// The data channels by their SCTP stream id.
    pub channels: Map<u16, ChannelRecord>,
    /// The unique id the next data channel gets.
    pub channel_id_index: u32,
}

pub enum ActionView {
    SendMessage { stream_id: u16, message: MessageView, flags: u16 },
    ResetStreams(Seq<u16>),
    ChannelEvent { channel_id: u32, event: ChannelEventView },
}

/// What the application channel asks its driver to do, in order.
#[derive(Debug, PartialEq)]
pub enum ApplicationAction {
    /// Send `message` on the SCTP stream `stream_id` with the send flags
    /// `flags` (`SCTP_EOR`, and `SCTP_UNORDERED` where set).
    SendMessage { stream_id: u16, message: RawDataChannelMessage, flags: u16 },
    /// Reset the outgoing side of these streams, then report whether that
    /// worked with `ChannelApplication::stream_resets_sent`.
    ResetStreams(Vec<u16>),
    /// Hand `event` to the data channel with the unique id `channel_id`.
    ChannelEvent { channel_id: u32, event: DataChannelEvent },
}

impl View for ApplicationAction {
    type V = ActionView;

    open spec fn view(&self) -> ActionView {
        match self {
            ApplicationAction::SendMessage { stream_id, message, flags } => ActionView::SendMessage {
                stream_id: *stream_id,
                message: message@,
                flags: *flags,
            },
            ApplicationAction::ResetStreams(v) => ActionView::ResetStreams(v@),
            ApplicationAction::ChannelEvent { channel_id, event } => ActionView::ChannelEvent {
                channel_id: *channel_id,
                event: event@,
            },
        }
    }
}

pub open spec fn action_views(v: Seq<ApplicationAction>) -> Seq<ActionView> {
    v.map_values(|a: ApplicationAction| a@)
}

/// The implementation for the application media channel aka Data Channels
pub struct ChannelApplication {
    state: ApplicationChannelState,
    max_incoming_channel: u16,
    max_outgoing_channel: u16,
    remote_port: Option<u16>,
    pending_stream_resets: Vec<u16>,
    dtls_role_client: bool,
    internal_channels: std::collections::BTreeMap<u16, InternalDataChannel>,
    channel_id_index: u32,
}

spec fn channel_records(m: Map<u16, InternalDataChannel>) -> Map<u16, ChannelRecord> {
    m.map_values(|c: InternalDataChannel| c@)
}

impl View for ChannelApplication {
    type V = ChannelApplicationView;

    closed spec fn view(&self) -> ChannelApplicationView {
        ChannelApplicationView {
            state: self.state,
            max_incoming_channel: self.max_incoming_channel,
            max_outgoing_channel: self.max_outgoing_channel,
            remote_port: self.remote_port,
            pending_stream_resets: self.pending_stream_resets@,
            dtls_role_client: self.dtls_role_client,
            channels: channel_records(self.internal_channels@),
            channel_id_index: self.channel_id_index,
        }
    }
}

/// The parity of the stream ids this side opens channels on: even for the
/// DTLS client, odd for the server.
pub open spec fn own_parity(v: ChannelApplicationView) -> int {
    if v.dtls_role_client { 0 } else { 1 }
}

/// Whether `id` is the first stream id of this side's parity, at or above
/// the first one, that no channel takes.
pub open spec fn first_free_stream(v: ChannelApplicationView, id: int) -> bool {
    &&& 0 <= id < 0x10000
    &&& id % 2 == own_parity(v)
    &&& !v.channels.contains_key(id as u16)
    &&& forall|k: int| 0 <= k < id && k % 2 == own_parity(v) ==> #[trigger] v.channels.contains_key(k as u16)
}

/// Whether every stream id of this side's parity is taken.
pub open spec fn all_streams_taken(v: ChannelApplicationView) -> bool {
    forall|k: int| 0 <= k < 0x10000 && k % 2 == own_parity(v) ==> #[trigger] v.channels.contains_key(k as u16)
}

/// The send flags of a message on a channel in `state` of type `t`: a
/// message that need not keep its order goes unordered on an open channel
/// of an unordered type.
pub open spec fn send_flags(state: DataChannelState, t: DataChannelType, enforce_ordered: bool) -> u16 {
    if !enforce_ordered && state == DataChannelState::Open && !t.spec_is_ordered() {
        0x2400
    } else {
        0x2000
    }
}

/// Every message goes out with the end-of-record flag; it goes out unordered
/// exactly on an open channel whose type value has the unordered bit 0x80
/// set, unless the caller asks for order.
pub proof fn lemma_send_flags(state: DataChannelState, t: DataChannelType, enforce_ordered: bool)
    ensures
        send_flags(state, t, enforce_ordered) == (if !enforce_ordered && state == DataChannelState::Open
            && t.spec_value() & 0x80u8 != 0u8 {
            SCTP_EOR | SCTP_UNORDERED
        } else {
            SCTP_EOR
        }),
        SCTP_EOR == 0x2000 && SCTP_UNORDERED == 0x0400,
{
    crate::sctp::message::lemma_channel_type_ordered_bit(t);
    assert(0x2000u16 | 0x0400u16 == 0x2400u16) by (bit_vector);
}

/// The request that resets the pending streams, where there are any.
pub open spec fn reset_actions(pending: Seq<u16>) -> Seq<ActionView> {
    if pending.len() == 0 {
        Seq::empty()
    } else {
        seq![ActionView::ResetStreams(pending)]
    }
}

pub open spec fn open_request_view(c: ChannelRecord) -> MessageView {
    MessageView::Control(ControlMessageView::Open(OpenView {
        channel_type: c.channel_type,
        priority: c.priority,
        label: c.label,
        protocol: c.protocol,
    }))
}

/// The greeting a channel created while connected sends after its open
/// request.
pub open spec fn greeting() -> Seq<char> {
    "HEY!"@
}

impl ChannelApplication {
    /// Whether every channel is filed under its own stream id.
    pub closed spec fn wf(&self) -> bool {
        forall|k: u16| #[trigger] self.internal_channels@.contains_key(k)
            ==> self.internal_channels@[k].internal_channel_id == k
    }

    pub fn new() -> (r: Self)
        ensures
            r.wf(),
            r@.state == ApplicationChannelState::Disconnected,
            r@.max_incoming_channel == MAX_CHANNELS,
            r@.max_outgoing_channel == MAX_CHANNELS,
            r@.remote_port is None,
            r@.pending_stream_resets == Seq::<u16>::empty(),
            r@.dtls_role_client,
            r@.channels == Map::<u16, ChannelRecord>::empty(),
            r@.channel_id_index == 0,
    {
        let r = ChannelApplication {
            state: ApplicationChannelState::Disconnected,
            max_incoming_channel: MAX_CHANNELS,
            max_outgoing_channel: MAX_CHANNELS,
            remote_port: None,
            pending_stream_resets: Vec::new(),
            /* initially assume we're the client */
            dtls_role_client: true,
            internal_channels: std::collections::BTreeMap::new(),
            channel_id_index: 0,
        };
        proof {
            assert(channel_records(r.internal_channels@) =~= Map::<u16, ChannelRecord>::empty());
        }
        r
    }
}


/// The error when every stream id of this side's parity is taken.
pub open spec fn hardware_limit_error() -> Seq<char> {
    "max amount of hardware channels reached"@
}

/// The error when the next free stream id lies beyond the negotiated
/// number of streams.
pub open spec fn channel_limit_error() -> Seq<char> {
    "max amount of channels reached"@
}

/// The unique id after `i`, wrapping.
pub open spec fn next_channel_id(i: u32) -> u32 {
    if i == u32::MAX { 0 } else { (i + 1) as u32 }
}

/// The record of a channel this side creates: it starts connecting if the
/// association is up, closed otherwise.
pub open spec fn created_record(
    v: ChannelApplicationView,
    id: u16,
    channel_type: DataChannelType,
    label: Seq<char>,
    protocol: Seq<char>,
    priority: u16,
) -> ChannelRecord {
    ChannelRecord {
        stream_id: id,
        channel_id: v.channel_id_index,
        state: if v.state == ApplicationChannelState::Connected {
            DataChannelState::Connecting
        } else {
            DataChannelState::Closed
        },
        channel_type,
        priority,
        label,
        protocol,
    }
}

/// The application channel once `rec` took the stream `id`.
pub open spec fn with_channel(v: ChannelApplicationView, id: u16, rec: ChannelRecord) -> ChannelApplicationView {
    ChannelApplicationView {
        channels: v.channels.insert(id, rec),
        channel_id_index: next_channel_id(v.channel_id_index),
        ..v
    }
}

/// What creating the channel `rec` on stream `id` sends: nothing before the
/// association is up; then its open request and a greeting.
pub open spec fn created_actions(v: ChannelApplicationView, id: u16, rec: ChannelRecord) -> Seq<ActionView> {
    if v.state == ApplicationChannelState::Connected {
        seq![
            ActionView::SendMessage {
                stream_id: id,
                message: open_request_view(rec),
                flags: send_flags(rec.state, rec.channel_type, true),
            },
            ActionView::SendMessage {
                stream_id: id,
                message: MessageView::String(greeting()),
                flags: send_flags(rec.state, rec.channel_type, false),
            },
        ]
    } else {
        Seq::empty()
    }
}

/// The user's handle of the channel `rec` on stream `id`.
pub open spec fn handle_view(id: u16, rec: ChannelRecord) -> DataChannelView {
    DataChannelView {
        channel_id: rec.channel_id,
        internal_channel_id: id,
        label: rec.label,
        protocol: rec.protocol,
        state: rec.state,
        channel_type: rec.channel_type,
    }
}

proof fn lemma_records_insert(m: Map<u16, InternalDataChannel>, k: u16, c: InternalDataChannel)
    ensures
        channel_records(m.insert(k, c)) == channel_records(m).insert(k, c@),
{
    assert(channel_records(m.insert(k, c)) =~= channel_records(m).insert(k, c@));
}

proof fn lemma_records_remove(m: Map<u16, InternalDataChannel>, k: u16)
    ensures
        channel_records(m.remove(k)) == channel_records(m).remove(k),
{
    assert(channel_records(m.remove(k)) =~= channel_records(m).remove(k));
}

/// There is at most one first free stream id.
pub proof fn lemma_first_free_unique(v: ChannelApplicationView, a: int, b: int)
    requires
        first_free_stream(v, a),
        first_free_stream(v, b),
    ensures
        a == b,
{
    if a < b {
        assert(v.channels.contains_key(a as u16));
    } else if b < a {
        assert(v.channels.contains_key(b as u16));
    }
}

impl InternalDataChannel {
    fn send_action(&self, message: RawDataChannelMessage, enforce_ordered: bool) -> (r: ApplicationAction)
        ensures
            r@ == (ActionView::SendMessage {
                stream_id: self.internal_channel_id,
                message: message@,
                flags: send_flags(self@.state, self@.channel_type, enforce_ordered),
            }),
    {
        let mut flags = SCTP_EOR;
        if !enforce_ordered && self.state == DataChannelState::Open && !self.channel_type.is_ordered() {
            assert(0x2000u16 | 0x0400u16 == 0x2400u16) by (bit_vector);
            flags = flags | SCTP_UNORDERED;
        }
        ApplicationAction::SendMessage { stream_id: self.internal_channel_id, message, flags }
    }

    fn open_request(&self) -> (r: RawDataChannelMessage)
        ensures
            r@ == open_request_view(self@),
    {
        RawDataChannelMessage::Control(DataChannelControlMessage::Open(DataChannelControlMessageOpen {
            label: self.label.clone(),
            priority: self.priority,
            protocol: self.protocol.clone(),
            channel_type: self.channel_type,
        }))
    }

    fn handle(&self) -> (r: DataChannel)
        ensures
            r@ == handle_view(self.internal_channel_id, self@),
    {
        let r = DataChannel {
            channel_id: self.channel_id,
            internal_channel_id: self.internal_channel_id,
            label: self.label.clone(),
            protocol: self.protocol.clone(),
            state: self.state,
            channel_type: self.channel_type,
        };
        proof { reveal_view_of(&r); }
        r
    }
}

proof fn reveal_view_of(d: &DataChannel)
    ensures
        d@ == (DataChannelView {
            channel_id: d.channel_id,
            internal_channel_id: d.internal_channel_id,
            label: d.label@,
            protocol: d.protocol@,
            state: d.state,
            channel_type: d.channel_type,
        }),
{
}

impl ChannelApplication {
    /// Creates a data channel on the first free stream id of this side's
    /// parity; if the association is up, the channel starts connecting and
    /// its open request goes out.
    pub fn create_data_channel(
        &mut self,
        channel_type: DataChannelType,
        label: String,
        protocol: Option<String>,
        priority: u16,
    ) -> (r: Result<(DataChannel, Vec<ApplicationAction>), String>)
        requires
            old(self).wf(),
        ensures
            final(self).wf(),
            r is Err ==> final(self)@ == old(self)@,
            all_streams_taken(old(self)@) ==> (r matches Err(e) && e@ == hardware_limit_error()),
            (exists|id: int| first_free_stream(old(self)@, id) && id >= 2 * old(self)@.max_outgoing_channel)
                ==> (r matches Err(e) && e@ == channel_limit_error()),
            (exists|id: int| first_free_stream(old(self)@, id) && id < 2 * old(self)@.max_outgoing_channel)
                ==> r is Ok,
            r matches Ok((ch, actions)) ==> {
                let id = ch@.internal_channel_id;
                let rec = created_record(
                    old(self)@,
                    id,
                    channel_type,
                    label@,
                    match protocol { Some(p) => p@, None => Seq::empty() },
                    priority,
                );
                &&& first_free_stream(old(self)@, id as int)
                &&& id < 2 * old(self)@.max_outgoing_channel
                &&& ch@ == handle_view(id, rec)
                &&& final(self)@ == with_channel(old(self)@, id, rec)
                &&& action_views(actions@) == created_actions(old(self)@, id, rec)
            },
    {
        let ghost v = self@;
        let mut id: u16 = if self.dtls_role_client { 0 } else { 1 };
        while self.internal_channels.contains_key(&id)
            invariant
                self@ == v,
                self.wf(),
                v.channels.dom() == self.internal_channels@.dom(),
                id as int % 2 == own_parity(v),
                forall|k: int| 0 <= k < id && k % 2 == own_parity(v) ==> #[trigger] v.channels.contains_key(k as u16),
            decreases 0x10000 - id,
        {
            if id > 0xfffd {
                proof {
                    assert forall|k: int| 0 <= k < 0x10000 && k % 2 == own_parity(v) implies #[trigger] v.channels.contains_key(k as u16) by {
                        if k >= id {
                            assert(k == id);
                        }
                    }
                }
                return Err(String::from_str("max amount of hardware channels reached"));
            }
            id = id + 2;
        }
        proof {
            assert(first_free_stream(v, id as int));
            if all_streams_taken(v) {
                assert(v.channels.contains_key(id));
            }
            if exists|i: int| first_free_stream(v, i) && i >= 2 * v.max_outgoing_channel {
                let i = choose|i: int| first_free_stream(v, i) && i >= 2 * v.max_outgoing_channel;
                lemma_first_free_unique(v, i, id as int);
            }
            if exists|i: int| first_free_stream(v, i) && i < 2 * v.max_outgoing_channel {
                let i = choose|i: int| first_free_stream(v, i) && i < 2 * v.max_outgoing_channel;
                lemma_first_free_unique(v, i, id as int);
            }
        }
        if id as u32 >= self.max_outgoing_channel as u32 * 2 {
            return Err(String::from_str("max amount of channels reached"));
        }
        let protocol = match protocol {
            Some(p) => p,
            None => String::new(),
        };
        let connected = self.state == ApplicationChannelState::Connected;
        let channel = InternalDataChannel {
            state: if connected { DataChannelState::Connecting } else { DataChannelState::Closed },
            channel_type,
            priority,
            label,
            protocol,
            internal_channel_id: id,
            channel_id: self.channel_id_index,
        };
        let mut actions: Vec<ApplicationAction> = Vec::new();
        if connected {
            let open = channel.open_request();
            actions.push(channel.send_action(open, true));
            actions.push(channel.send_action(RawDataChannelMessage::String(String::from_str("HEY!")), false));
        }
        let handle = channel.handle();
        self.channel_id_index = self.channel_id_index.wrapping_add(1);
        let ghost rec = channel@;
        self.internal_channels.insert(id, channel);
        proof {
            lemma_records_insert(old(self).internal_channels@, id, channel);
            assert(action_views(actions@) =~= created_actions(v, id, rec));
        }
        Ok((handle, actions))
    }
}


/// The application channel with `pending` as its streams to reset.
pub open spec fn with_pending(v: ChannelApplicationView, pending: Seq<u16>) -> ChannelApplicationView {
    ChannelApplicationView { pending_stream_resets: pending, ..v }
}

/// The record `c` in the state `state`.
pub open spec fn in_state(c: ChannelRecord, state: DataChannelState) -> ChannelRecord {
    ChannelRecord { state, ..c }
}

/// Closing the channel on stream `id` from this side: a connecting or open
/// channel starts closing, tells its user so, and its stream is reset; any
/// other is left alone.
pub open spec fn close_locally(v: ChannelApplicationView, id: u16) -> (ChannelApplicationView, Seq<ActionView>) {
    let c = v.channels[id];
    if c.state == DataChannelState::Connecting || c.state == DataChannelState::Open {
        let v2 = ChannelApplicationView {
            channels: v.channels.insert(id, in_state(c, DataChannelState::Closing)),
            pending_stream_resets: v.pending_stream_resets.push(id),
            ..v
        };
        (
            v2,
            seq![
                ActionView::ChannelEvent {
                    channel_id: c.channel_id,
                    event: ChannelEventView::StateChanged(DataChannelState::Closing),
                },
                ActionView::ResetStreams(v2.pending_stream_resets),
            ],
        )
    } else {
        (v, Seq::empty())
    }
}

/// The record of a channel the remote side opens with `req`: it is open at
/// once, since this side only acknowledges it.
pub open spec fn received_record(v: ChannelApplicationView, id: u16, req: OpenView) -> ChannelRecord {
    ChannelRecord {
        stream_id: id,
        channel_id: v.channel_id_index,
        state: DataChannelState::Open,
        channel_type: req.channel_type,
        priority: req.priority,
        label: req.label,
        protocol: req.protocol,
    }
}

/// The acknowledgement of an open request.
pub open spec fn open_ack_view() -> MessageView {
    MessageView::Control(ControlMessageView::OpenAck)
}

/// Whether the channel on stream `id` is one whose messages reach its user.
pub open spec fn delivers(v: ChannelApplicationView, id: u16) -> bool {
    v.channels.contains_key(id) && (v.channels[id].state == DataChannelState::Open
        || v.channels[id].state == DataChannelState::Connecting)
}

pub enum AppEventView {
    DataChannelReceived(DataChannelView),
    StateChanged(ApplicationChannelState),
}

impl View for ApplicationChannelEvent {
    type V = AppEventView;

    open spec fn view(&self) -> AppEventView {
        match self {
            ApplicationChannelEvent::DataChannelReceived(ch) => AppEventView::DataChannelReceived(ch@),
            ApplicationChannelEvent::StateChanged { new_state } => AppEventView::StateChanged(*new_state),
        }
    }
}

pub open spec fn event_view(e: Option<ApplicationChannelEvent>) -> Option<AppEventView> {
    match e {
        Some(e) => Some(e@),
        None => None,
    }
}

/// What a control message on stream `id` does: the application channel
/// after it, the event it raises, and what it asks for.
pub open spec fn control_spec(v: ChannelApplicationView, id: u16, m: ControlMessageView) -> (
    ChannelApplicationView,
    Option<AppEventView>,
    Seq<ActionView>,
) {
    match m {
        ControlMessageView::Open(req) => if id as int % 2 == own_parity(v) {
            let pending = v.pending_stream_resets.push(id);
            (with_pending(v, pending), None, seq![ActionView::ResetStreams(pending)])
        } else if v.channels.contains_key(id) {
            (close_locally(v, id).0, None, close_locally(v, id).1)
        } else {
            let rec = received_record(v, id, req);
            (
                with_channel(v, id, rec),
                Some(AppEventView::DataChannelReceived(handle_view(id, rec))),
                seq![ActionView::SendMessage { stream_id: id, message: open_ack_view(), flags: 0x2000 }],
            )
        },
        ControlMessageView::OpenAck => if v.channels.contains_key(id) && v.channels[id].state
            == DataChannelState::Connecting {
            (
                ChannelApplicationView {
                    channels: v.channels.insert(id, in_state(v.channels[id], DataChannelState::Open)),
                    ..v
                },
                None,
                seq![
                    ActionView::ChannelEvent {
                        channel_id: v.channels[id].channel_id,
                        event: ChannelEventView::StateChanged(DataChannelState::Open),
                    },
                ],
            )
        } else {
            (v, None, Seq::empty())
        },
    }
}

impl ChannelApplication {
    fn reset_request(&self) -> (r: Vec<ApplicationAction>)
        ensures
            action_views(r@) == reset_actions(self@.pending_stream_resets),
    {
        let mut r: Vec<ApplicationAction> = Vec::new();
        if self.pending_stream_resets.len() > 0 {
            let pending = self.pending_stream_resets.clone();
            proof { assert(pending@ =~= self.pending_stream_resets@); }
            r.push(ApplicationAction::ResetStreams(pending));
        }
        proof { assert(action_views(r@) =~= reset_actions(self@.pending_stream_resets)); }
        r
    }

    /// Closes the channel on stream `id` from this side.
    fn close_datachannel_locally(&mut self, id: u16) -> (r: Vec<ApplicationAction>)
        requires
            old(self).wf(),
            old(self)@.channels.contains_key(id),
        ensures
            final(self).wf(),
            (final(self)@, action_views(r@)) == close_locally(old(self)@, id),
    {
        let ghost v = self@;
        let state = match self.internal_channels.get(&id) {
            Some(c) => c.state,
            None => return Vec::new(),
        };
        if !matches!(state, DataChannelState::Connecting | DataChannelState::Open) {
            proof { assert(action_views(Seq::<ApplicationAction>::empty()) =~= Seq::<ActionView>::empty()); }
            return Vec::new();
        }
        let mut channel = match self.internal_channels.remove(&id) {
            Some(c) => c,
            None => return Vec::new(),
        };
        channel.state = DataChannelState::Closing;
        let mut r: Vec<ApplicationAction> = Vec::new();
        r.push(ApplicationAction::ChannelEvent {
            channel_id: channel.channel_id,
            event: DataChannelEvent::StateChanged(DataChannelState::Closing),
        });
        let ghost removed = self.internal_channels@;
        self.internal_channels.insert(id, channel);
        self.pending_stream_resets.push(id);
        let mut resets = self.reset_request();
        let ghost reset_views = action_views(resets@);
        let ghost parts = (r@, resets@);
        r.append(&mut resets);
        proof {
            lemma_records_insert(removed, id, channel);
            lemma_records_remove(old(self).internal_channels@, id);
            assert(self@.channels =~= v.channels.insert(id, in_state(v.channels[id], DataChannelState::Closing)));
            assert(v.channels[id].channel_id == channel.channel_id);
            assert(self@.pending_stream_resets.len() > 0);
            assert(reset_views =~= seq![ActionView::ResetStreams(self@.pending_stream_resets)]);
            assert(r@ == parts.0 + parts.1);
            assert(reset_views == action_views(parts.1));
            assert(reset_views.len() == 1);
            assert(action_views(parts.1).len() == parts.1.len());
            assert(parts.1.len() == 1);
            assert(parts.0.len() == 1);
            assert(r@.len() == 2);
            assert(r@[1] == parts.1[0]);
            assert(v.channels[id].state == DataChannelState::Connecting || v.channels[id].state == DataChannelState::Open);
            assert(action_views(r@)[0] == close_locally(v, id).1[0]);
            assert(action_views(r@)[1] == reset_views[0]);
            assert(action_views(r@)[1] == close_locally(v, id).1[1]);
            assert(action_views(r@) =~= close_locally(v, id).1);
        }
        r
    }

    /// Handles a control message that arrived on stream `id`: an open
    /// request creates the channel and acknowledges it, unless the stream
    /// is of this side's parity (the stream is reset) or taken (its channel
    /// closes); an acknowledgement opens a connecting channel.
    pub fn process_control_message(
        &mut self,
        id: u16,
        message: DataChannelControlMessage,
    ) -> (r: (Option<ApplicationChannelEvent>, Vec<ApplicationAction>))
        requires
            old(self).wf(),
        ensures
            final(self).wf(),
            (final(self)@, event_view(r.0), action_views(r.1@)) == control_spec(old(self)@, id, message@),
    {
        let ghost v = self@;
        match message {
            DataChannelControlMessage::Open(request) => {
                /*
                   If one side wants to open a Data Channel, it chooses a Stream
                   Identifier for which the corresponding incoming and outgoing Streams
                   are free.  If the side is the DTLS client, it MUST choose an even
                   Stream Identifier, if the side is the DTLS server, it MUST choose an
                   odd one.
                 */
                let own: u16 = if self.dtls_role_client { 0 } else { 1 };
                assert((id & 1u16) == id % 2) by (bit_vector);
                if (id & 1) == own {
                    /* the remote side used a stream id of ours: reset that stream */
                    self.pending_stream_resets.push(id);
                    let r = self.reset_request();
                    proof { assert(action_views(r@) =~= seq![ActionView::ResetStreams(v.pending_stream_resets.push(id))]); }
                    return (None, r);
                }
                if self.internal_channels.contains_key(&id) {
                    /* the stream already holds a channel: close it */
                    let r = self.close_datachannel_locally(id);
                    return (None, r);
                }
                let channel = InternalDataChannel {
                    channel_id: self.channel_id_index,
                    internal_channel_id: id,
                    channel_type: request.channel_type,
                    priority: request.priority,
                    label: request.label,
                    protocol: request.protocol,
                    state: DataChannelState::Open,
                };
                let handle = channel.handle();
                self.channel_id_index = self.channel_id_index.wrapping_add(1);
                let ack = channel.send_action(
                    RawDataChannelMessage::Control(DataChannelControlMessage::OpenAck(DataChannelControlMessageOpenAck {})),
                    true,
                );
                let ghost rec = channel@;
                self.internal_channels.insert(id, channel);
                let mut r: Vec<ApplicationAction> = Vec::new();
                r.push(ack);
                proof {
                    lemma_records_insert(old(self).internal_channels@, id, channel);
                    assert(action_views(r@) =~= seq![ActionView::SendMessage { stream_id: id, message: open_ack_view(), flags: 0x2000 }]);
                }
                (Some(ApplicationChannelEvent::DataChannelReceived(handle)), r)
            },
            DataChannelControlMessage::OpenAck(_) => {
                let state = match self.internal_channels.get(&id) {
                    Some(c) => c.state,
                    None => return (None, Vec::new()),
                };
                if state != DataChannelState::Connecting {
                    return (None, Vec::new());
                }
                let mut channel = match self.internal_channels.remove(&id) {
                    Some(c) => c,
                    None => return (None, Vec::new()),
                };
                channel.state = DataChannelState::Open;
                let mut r: Vec<ApplicationAction> = Vec::new();
                r.push(ApplicationAction::ChannelEvent {
                    channel_id: channel.channel_id,
                    event: DataChannelEvent::StateChanged(DataChannelState::Open),
                });
                let ghost removed = self.internal_channels@;
                self.internal_channels.insert(id, channel);
                proof {
                    lemma_records_insert(removed, id, channel);
                    lemma_records_remove(old(self).internal_channels@, id);
                    assert(self@.channels =~= v.channels.insert(id, in_state(v.channels[id], DataChannelState::Open)));
                    assert(action_views(r@) =~= seq![ActionView::ChannelEvent {
                        channel_id: v.channels[id].channel_id,
                        event: ChannelEventView::StateChanged(DataChannelState::Open),
                    }]);
                }
                (None, r)
            },
        }
    }
}


/// Whether a stream reset notification with `flags` reports incoming
/// streams that were reset, neither denied nor failed.
pub open spec fn incoming_reset_succeeded(flags: u16) -> bool {
    &&& flags & SCTP_STREAM_RESET_DENIED == 0
    &&& flags & SCTP_STREAM_RESET_FAILED == 0
    &&& flags & SCTP_STREAM_RESET_INCOMING_SSN != 0
}

/// The channels once the remote side reset `streams`, in order: each
/// stream's channel goes, and one that was not closed yet learns it is.
pub open spec fn drop_streams(channels: Map<u16, ChannelRecord>, streams: Seq<u16>) -> (
    Map<u16, ChannelRecord>,
    Seq<ActionView>,
)
    decreases streams.len(),
{
    if streams.len() == 0 {
        (channels, Seq::empty())
    } else {
        let (m, a) = drop_streams(channels, streams.drop_last());
        let id = streams.last();
        if m.contains_key(id) && m[id].state != DataChannelState::Closed {
            (
                m.remove(id),
                a.push(
                    ActionView::ChannelEvent {
                        channel_id: m[id].channel_id,
                        event: ChannelEventView::StateChanged(DataChannelState::Closed),
                    },
                ),
            )
        } else {
            (m.remove(id), a)
        }
    }
}

/// What a notification of the SCTP stack does: the application channel
/// after it, the event it raises, and what it asks for.
pub open spec fn notification_spec(v: ChannelApplicationView, n: NotificationView) -> (
    ChannelApplicationView,
    Option<AppEventView>,
    Seq<ActionView>,
) {
    match n {
        NotificationView::StreamReset(e) => {
            let (m, a) = if incoming_reset_succeeded(e.flags) {
                drop_streams(v.channels, e.streams)
            } else {
                (v.channels, Seq::empty())
            };
            (ChannelApplicationView { channels: m, ..v }, None, a + reset_actions(v.pending_stream_resets))
        },
        NotificationView::AssocChange(a) => if a.state == SctpSacState::CommUp {
            (
                ChannelApplicationView { state: ApplicationChannelState::Connected, ..v },
                Some(AppEventView::StateChanged(ApplicationChannelState::Connected)),
                Seq::empty(),
            )
        } else {
            (v, None, Seq::empty())
        },
        NotificationView::Generic(_) => (v, None, Seq::empty()),
    }
}

/// What a message on stream `id` does.
pub open spec fn message_spec(v: ChannelApplicationView, id: u16, m: MessageView) -> (
    ChannelApplicationView,
    Option<AppEventView>,
    Seq<ActionView>,
) {
    match m {
        MessageView::Control(c) => control_spec(v, id, c),
        _ => if delivers(v, id) {
            (
                v,
                None,
                seq![
                    ActionView::ChannelEvent {
                        channel_id: v.channels[id].channel_id,
                        event: ChannelEventView::MessageReceived(m),
                    },
                ],
            )
        } else {
            (v, None, Seq::empty())
        },
    }
}

/// What a request of a data channel does.
pub open spec fn channel_action_spec(v: ChannelApplicationView, a: DataChannelActionView) -> (
    ChannelApplicationView,
    Seq<ActionView>,
) {
    match a {
        DataChannelActionView::SendMessage(id, m) => if v.channels.contains_key(id) {
            (
                v,
                seq![
                    ActionView::SendMessage {
                        stream_id: id,
                        message: m,
                        flags: send_flags(v.channels[id].state, v.channels[id].channel_type, false),
                    },
                ],
            )
        } else {
            (v, Seq::empty())
        },
        DataChannelActionView::Close(id) => if v.channels.contains_key(id) {
            close_locally(v, id)
        } else {
            (v, Seq::empty())
        },
    }
}

/// The DTLS role of this side that a remote description with the setup
/// role `setup` gives: the client unless the remote side is active or lets
/// this side choose; none without a usable setup role.
pub open spec fn dtls_client_for(setup: Option<SetupRole>) -> Option<bool> {
    match setup {
        Some(SetupRole::Active) => Some(false),
        Some(SetupRole::Passive) => Some(true),
        Some(SetupRole::Actpass) => Some(ACT_PASS_DEFAULT_SETUP_TYPE == SetupRole::Active),
        _ => None,
    }
}

pub open spec fn missing_setup_error() -> Seq<char> {
    "missing/invalid setup type"@
}

pub open spec fn role_mismatch_error() -> Seq<char> {
    "client/server role miss match to previous description"@
}

pub open spec fn port_mismatch_error() -> Seq<char> {
    "remote port miss match to previous description"@
}

/// Once the remote side reset `streams`, none of them keeps a channel,
/// and every other stream keeps its channel as it was.
pub proof fn lemma_reset_streams_leave_no_channel(channels: Map<u16, ChannelRecord>, streams: Seq<u16>)
    ensures
        forall|i: int| 0 <= i < streams.len() ==> !#[trigger] drop_streams(channels, streams).0.contains_key(streams[i]),
        forall|k: u16| !streams.contains(k) ==> (#[trigger] drop_streams(channels, streams).0.contains_key(k)
            == channels.contains_key(k)),
        forall|k: u16| !streams.contains(k) && channels.contains_key(k) ==> #[trigger] drop_streams(channels, streams).0[k]
            == channels[k],
    decreases streams.len(),
{
    if streams.len() > 0 {
        let rest = streams.drop_last();
        let last = streams.last();
        lemma_reset_streams_leave_no_channel(channels, rest);
        let m = drop_streams(channels, rest).0;
        assert(drop_streams(channels, streams).0 == m.remove(last));
        assert forall|i: int| 0 <= i < streams.len() implies !#[trigger] drop_streams(channels, streams).0.contains_key(streams[i]) by {
            if i < streams.len() - 1 {
                assert(streams[i] == rest[i]);
                assert(!m.contains_key(rest[i]));
            }
        }
        assert forall|k: u16| !streams.contains(k) implies !rest.contains(k) && k != last by {
            if rest.contains(k) {
                let j = choose|j: int| 0 <= j < rest.len() && rest[j] == k;
                assert(streams[j] == k);
            }
            if k == last {
                assert(streams[streams.len() - 1] == k);
            }
        }
    }
}

impl ChannelApplication {
    /// Handles a message that arrived on stream `id`: a control message
    /// goes to `process_control_message`; any other reaches the user of the
    /// stream's channel while that is connecting or open.
    pub fn process_sctp_message(
        &mut self,
        id: u16,
        message: RawDataChannelMessage,
    ) -> (r: (Option<ApplicationChannelEvent>, Vec<ApplicationAction>))
        requires
            old(self).wf(),
        ensures
            final(self).wf(),
            (final(self)@, event_view(r.0), action_views(r.1@)) == message_spec(old(self)@, id, message@),
    {
        let ghost v = self@;
        let received = match message {
            RawDataChannelMessage::Control(m) => return self.process_control_message(id, m),
            RawDataChannelMessage::BinaryEmpty() => DataChannelMessage::Binary(None),
            RawDataChannelMessage::Binary(buffer) => DataChannelMessage::Binary(Some(buffer)),
            RawDataChannelMessage::StringEmpty() => DataChannelMessage::String(None),
            RawDataChannelMessage::String(text) => DataChannelMessage::String(Some(text)),
        };
        let mut r: Vec<ApplicationAction> = Vec::new();
        match self.internal_channels.get(&id) {
            Some(channel) => {
                if matches!(channel.state, DataChannelState::Open | DataChannelState::Connecting) {
                    r.push(ApplicationAction::ChannelEvent {
                        channel_id: channel.channel_id,
                        event: DataChannelEvent::MessageReceived(received),
                    });
                }
            },
            None => {},
        }
        proof { assert(action_views(r@) =~= message_spec(v, id, message@).2); }
        (None, r)
    }

    fn process_stream_reset(&mut self, notification: &SctpNotificationStreamReset) -> (r: Vec<ApplicationAction>)
        requires
            old(self).wf(),
        ensures
            final(self).wf(),
            (final(self)@, None::<AppEventView>, action_views(r@)) == notification_spec(
                old(self)@,
                NotificationView::StreamReset(notification@),
            ),
    {
        let ghost v = self@;
        let mut r: Vec<ApplicationAction> = Vec::new();
        let flags = notification.flags;
        if (flags & SCTP_STREAM_RESET_DENIED) == 0 && (flags & SCTP_STREAM_RESET_FAILED) == 0
            && (flags & SCTP_STREAM_RESET_INCOMING_SSN) != 0 {
            let streams = &notification.streams;
            let mut i: usize = 0;
            while i < streams.len()
                invariant
                    self.wf(),
                    i <= streams.len(),
                    self@ == (ChannelApplicationView { channels: self@.channels, ..v }),
                    (self@.channels, action_views(r@)) == drop_streams(v.channels, streams@.take(i as int)),
                decreases streams.len() - i,
            {
                let id = streams[i];
                proof {
                    assert(streams@.take(i + 1).drop_last() =~= streams@.take(i as int));
                    assert(streams@.take(i + 1).last() == id);
                }
                let ghost before = self.internal_channels@;
                let ghost r0 = r@;
                match self.internal_channels.remove(&id) {
                    Some(channel) => {
                        if channel.state != DataChannelState::Closed {
                            r.push(ApplicationAction::ChannelEvent {
                                channel_id: channel.channel_id,
                                event: DataChannelEvent::StateChanged(DataChannelState::Closed),
                            });
                        }
                    },
                    None => {},
                }
                proof {
                    lemma_records_remove(before, id);
                    assert(action_views(r@) =~= drop_streams(v.channels, streams@.take(i + 1)).1);
                }
                i = i + 1;
            }
            proof { assert(streams@.take(streams@.len() as int) =~= streams@); }
        } else {
            proof { assert(action_views(r@) =~= Seq::<ActionView>::empty()); }
        }
        let ghost events = action_views(r@);
        let mut resets = self.reset_request();
        let ghost parts = (r@, resets@);
        r.append(&mut resets);
        proof {
            assert(r@ == parts.0 + parts.1);
            assert(action_views(r@) =~= events + reset_actions(v.pending_stream_resets));
        }
        r
    }

    /// Handles a notification of the SCTP stack: a successful reset of
    /// incoming streams drops their channels, the association coming up
    /// connects the application channel.
    pub fn process_sctp_notification(
        &mut self,
        notification: &SctpNotification,
    ) -> (r: (Option<ApplicationChannelEvent>, Vec<ApplicationAction>))
        requires
            old(self).wf(),
        ensures
            final(self).wf(),
            (final(self)@, event_view(r.0), action_views(r.1@)) == notification_spec(old(self)@, notification@),
    {
        let ghost v = self@;
        match notification {
            SctpNotification::StreamReset(event) => (None, self.process_stream_reset(event)),
            SctpNotification::AssocChange(event) => {
                proof { assert(action_views(Seq::<ApplicationAction>::empty()) =~= Seq::<ActionView>::empty()); }
                match event.state {
                    SctpSacState::CommUp => {
                        self.state = ApplicationChannelState::Connected;
                        (Some(ApplicationChannelEvent::StateChanged { new_state: ApplicationChannelState::Connected }), Vec::new())
                    },
                    _ => (None, Vec::new()),
                }
            },
            SctpNotification::Generic(_) => {
                proof { assert(action_views(Seq::<ApplicationAction>::empty()) =~= Seq::<ActionView>::empty()); }
                (None, Vec::new())
            },
        }
    }

    /// Handles a request of one of the data channels: a message goes out
    /// on the channel's stream, a close closes it from this side.
    pub fn handle_channel_action(&mut self, action: DataChannelAction) -> (r: Vec<ApplicationAction>)
        requires
            old(self).wf(),
        ensures
            final(self).wf(),
            (final(self)@, action_views(r@)) == channel_action_spec(old(self)@, action@),
    {
        let ghost v = self@;
        match action {
            DataChannelAction::SendMessage(id, message) => {
                let mut r: Vec<ApplicationAction> = Vec::new();
                match self.internal_channels.get(&id) {
                    Some(channel) => {
                        r.push(channel.send_action(message, false));
                    },
                    None => {},
                }
                proof { assert(action_views(r@) =~= channel_action_spec(v, action@).1); }
                r
            },
            DataChannelAction::Close(id) => {
                if self.internal_channels.contains_key(&id) {
                    self.close_datachannel_locally(id)
                } else {
                    proof { assert(action_views(Seq::<ApplicationAction>::empty()) =~= Seq::<ActionView>::empty()); }
                    Vec::new()
                }
            },
        }
    }

    /// Reports whether the streams of the last `ResetStreams` request were
    /// reset; those that were are no longer pending.
    pub fn stream_resets_sent(&mut self, success: bool)
        requires
            old(self).wf(),
        ensures
            final(self).wf(),
            final(self)@ == (if success { with_pending(old(self)@, Seq::empty()) } else { old(self)@ }),
    {
        if success {
            self.pending_stream_resets.clear();
        }
    }

    /// Takes the DTLS role and SCTP port of a remote description. The
    /// first one fixes them: `Ok(Some(port))` asks to configure the SCTP
    /// session, then to call `remote_configured`. A later one must repeat
    /// them.
    pub fn set_remote_description(&mut self, setup: Option<SetupRole>, sctp_port: Option<u16>) -> (r: Result<Option<u16>, String>)
        requires
            old(self).wf(),
        ensures
            final(self).wf(),
            ({
                let v = old(self)@;
                let port = match sctp_port { Some(p) => p, None => DEFAULT_SCTP_PORT };
                match dtls_client_for(setup) {
                    None => final(self)@ == v && (r matches Err(e) && e@ == missing_setup_error()),
                    Some(client) => match v.remote_port {
                        Some(p) => {
                            &&& final(self)@ == v
                            &&& client != v.dtls_role_client ==> (r matches Err(e) && e@ == role_mismatch_error())
                            &&& client == v.dtls_role_client && p != port ==> (r matches Err(e) && e@ == port_mismatch_error())
                            &&& client == v.dtls_role_client && p == port ==> r == Ok::<Option<u16>, String>(None)
                        },
                        None => {
                            &&& final(self)@ == (ChannelApplicationView { dtls_role_client: client, ..v })
                            &&& r == Ok::<Option<u16>, String>(Some(port))
                        },
                    },
                }
            }),
    {
        let dtls_role_client = match setup {
            Some(SetupRole::Active) => false,
            Some(SetupRole::Passive) => true,
            Some(SetupRole::Actpass) => matches!(ACT_PASS_DEFAULT_SETUP_TYPE, SetupRole::Active),
            _ => return Err(String::from_str("missing/invalid setup type")),
        };
        let remote_port = match sctp_port {
            Some(p) => p,
            None => DEFAULT_SCTP_PORT,
        };
        match self.remote_port {
            Some(port) => {
                if self.dtls_role_client != dtls_role_client {
                    return Err(String::from_str("client/server role miss match to previous description"));
                }
                if port != remote_port {
                    return Err(String::from_str("remote port miss match to previous description"));
                }
                Ok(None)
            },
            None => {
                self.dtls_role_client = dtls_role_client;
                Ok(Some(remote_port))
            },
        }
    }

    /// Records that the SCTP session was configured for the remote `port`.
    pub fn remote_configured(&mut self, port: u16)
        requires
            old(self).wf(),
        ensures
            final(self).wf(),
            final(self)@ == (ChannelApplicationView { remote_port: Some(port), ..old(self)@ }),
    {
        self.remote_port = Some(port);
    }

    /// Starts connecting once a transport is there, while disconnected:
    /// `Some(port)` asks to connect the SCTP session to the remote `port`.
    pub fn handle_transport_connected(&mut self, has_transport: bool) -> (r: Option<u16>)
        requires
            old(self).wf(),
            has_transport && old(self)@.state == ApplicationChannelState::Disconnected
                ==> old(self)@.remote_port is Some,
        ensures
            final(self).wf(),
            has_transport && old(self)@.state == ApplicationChannelState::Disconnected ==> {
                &&& final(self)@ == (ChannelApplicationView { state: ApplicationChannelState::Connecting, ..old(self)@ })
                &&& r == old(self)@.remote_port
            },
            !(has_transport && old(self)@.state == ApplicationChannelState::Disconnected) ==> {
                &&& final(self)@ == old(self)@
                &&& r is None
            },
    {
        if !has_transport || self.state != ApplicationChannelState::Disconnected {
            return None;
        }
        self.state = ApplicationChannelState::Connecting;
        self.remote_port
    }

    pub fn state(&self) -> (r: ApplicationChannelState)
        ensures
            r == self@.state,
    {
        self.state
    }

    /// The remote SCTP port, once a remote description configured it.
    pub fn remote_port(&self) -> (r: Option<u16>)
        ensures
            r == self@.remote_port,
    {
        self.remote_port
    }

    /// The number of streams this side opens, which its description offers.
    pub fn max_outgoing_channel(&self) -> (r: u16)
        ensures
            r == self@.max_outgoing_channel,
    {
        self.max_outgoing_channel
    }
}

} // verus!
