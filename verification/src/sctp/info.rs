//! Per message information exchanged with the SCTP stack.
use vstd::prelude::*;
use crate::sctp::notification::SctpNotification;

verus! {

/// What the SCTP stack tells about a received message.
#[derive(Debug, Clone, Copy, PartialEq, Eq, Structural)]
pub struct SctpRecvInfo {
    pub rcv_sid: u16,
    pub rcv_ssn: u16,
    pub rcv_flags: u16,
    pub rcv_ppid: u32,
    pub rcv_tsn: u32,
    pub rcv_cumtsn: u32,
    pub rcv_context: u32,
    pub rcv_assoc_id: u32,
}

/// See values [here](https://tools.ietf.org/html/rfc6458#section-5.3.2)
#[derive(Debug, Clone, Copy, PartialEq, Eq, Structural)]
pub struct SctpSendInfo {
    pub snd_sid: u16,
    pub snd_flags: u16,
    pub snd_ppid: u32,
    pub snd_context: u32,
    pub snd_assoc_id: u32,
}

impl SctpSendInfo {
    /// Create a new `SctpSendInfo` struct containing zeros only.
    pub fn new() -> (r: Self)
        ensures
            r == (SctpSendInfo { snd_sid: 0, snd_flags: 0, snd_ppid: 0, snd_context: 0, snd_assoc_id: 0 }),
    {
        SctpSendInfo { snd_sid: 0, snd_flags: 0, snd_ppid: 0, snd_context: 0, snd_assoc_id: 0 }
    }
}

#[derive(Debug, Clone, Copy, PartialEq, Eq, Structural)]
pub enum UsrSctpConnectResult {
    Success,
    BindFailed(i32),
    ConnectFailed(i32),
}

pub enum UsrSctpSessionEvent {
    MessageReceived { buffer: Vec<u8>, info: SctpRecvInfo },
    EventReceived { notification: SctpNotification },
}

pub enum SctpUserCallbackAddressEvent {
    MessageReceived { buffer: Vec<u8>, info: SctpRecvInfo, flags: i32 },
    MessageSend { buffer: Vec<u8> },
}

} // verus!
