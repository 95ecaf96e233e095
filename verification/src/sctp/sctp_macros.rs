//! Flags of the SCTP socket API that the data channel logic reads and sets.
use vstd::prelude::*;

verus! {

/// Send flag: deliver the message unordered.
pub const SCTP_UNORDERED: u16 = 0x0400;
/// Send flag: the message ends a record.
pub const SCTP_EOR: u16 = 0x2000;

/// Stream reset notification flag: incoming streams were reset.
pub const SCTP_STREAM_RESET_INCOMING_SSN: u16 = 0x0001;
/// Stream reset notification flag: outgoing streams were reset.
pub const SCTP_STREAM_RESET_OUTGOING_SSN: u16 = 0x0002;
/// Stream reset notification flag: the peer denied the reset.
pub const SCTP_STREAM_RESET_DENIED: u16 = 0x0004;
/// Stream reset notification flag: the reset failed.
pub const SCTP_STREAM_RESET_FAILED: u16 = 0x0008;

} // verus!
