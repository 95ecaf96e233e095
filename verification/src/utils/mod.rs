pub mod packet_id;
pub mod rtcp;
pub mod resend_requester;
pub mod rtp;
pub use packet_id::{SequenceNumber, SequenceNumberBase, Unsigned};
pub use resend_requester::{PacketReceivedResult, RtpPacketResendRequesterEvent};
