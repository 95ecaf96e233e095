pub mod sender_report;
pub mod receiver_report;
pub mod bye;
pub use sender_report::RtcpPacketSenderReport;
pub use receiver_report::RtcpPacketReceiverReport;
pub use bye::RtcpPacketBye;
pub mod application_defined;
pub use application_defined::RtcpPacketApplicationDefined;
pub mod transport_feedback;
pub use transport_feedback::{RtcpFeedbackGenericNACK, NackPacketIterator, RtcpTransportFeedback, RtcpTransportFeedbackType, RtcpPacketTransportFeedback};
pub mod payload_feedback;
pub use payload_feedback::{RtcpPayloadFeedback, RtcpPayloadFeedbackType, RtcpPacketPayloadFeedback};
pub mod extended_report;
pub mod source_description;
pub use source_description::{SourceDescriptionType, SourceDescription, RtcpPacketSourceDescription};
pub use extended_report::RtcpPacketExtendedReport;
