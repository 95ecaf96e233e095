pub mod error;
pub mod bytes;
pub mod text;
pub mod utils;
pub mod sctp;
pub mod media;
pub mod transport;
pub mod application;
pub mod rtc;
pub mod description;
pub mod srtp2;
