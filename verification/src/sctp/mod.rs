pub mod message;
pub mod notification;
pub mod info;
pub mod sctp_macros;
pub use info::{SctpRecvInfo, SctpSendInfo, UsrSctpConnectResult, UsrSctpSessionEvent, SctpUserCallbackAddressEvent};
