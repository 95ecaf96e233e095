use vstd::prelude::*;

verus! {

/// The category of a failure, mirroring the kinds of I/O errors that the
/// protocol code reports.
#[derive(Debug, Clone, Copy, PartialEq, Eq, Structural)]
pub enum ErrorKind {
    UnexpectedEof,
    InvalidInput,
    InvalidData,
    WriteZero,
    Other,
}

/// Every way in which decoding or encoding a protocol element can fail.
#[derive(Debug, Clone, Copy, PartialEq, Eq, Structural)]
pub enum Error {
    /// The input ended before the element was complete.
    UnexpectedEof,
    /// The output buffer is too small for the element.
    WriteZero,
    /// The version bits of an RTCP header are not 2.
    InvalidVersion,
    /// The packet type byte does not match the element being decoded.
    UnexpectedPacketType,
    /// A length field is inconsistent with the content.
    InvalidLength,
    /// The padding count of a padded packet is invalid.
    InvalidPadding,
    /// A type or sub type value is unknown.
    UnknownType,
    /// The element is known but not supported.
    Unsupported,
    /// A text field is not valid UTF-8.
    InvalidUtf8,
    /// More entries than the header can count.
    TooManyEntries,
    /// A text or data field is longer than its length field allows.
    ValueTooLong,
    /// Data whose length must be a multiple of four is not.
    UnalignedData,
    /// A data channel message is not the control message that was expected.
    UnexpectedMessage,
    /// The input holds more packets than the caller made room for.
    TooManyPackets,
}

impl Error {
    /// The category of this error.
    pub fn kind(&self) -> (k: ErrorKind)
        ensures
            k == self.spec_kind(),
    {
        match self {
            Error::UnexpectedEof => ErrorKind::UnexpectedEof,
            Error::WriteZero => ErrorKind::WriteZero,
            Error::TooManyEntries | Error::ValueTooLong | Error::UnalignedData => ErrorKind::InvalidData,
            Error::Unsupported => ErrorKind::Other,
            _ => ErrorKind::InvalidInput,
        }
    }

    pub open spec fn spec_kind(&self) -> ErrorKind {
        match self {
            Error::UnexpectedEof => ErrorKind::UnexpectedEof,
            Error::WriteZero => ErrorKind::WriteZero,
            Error::TooManyEntries | Error::ValueTooLong | Error::UnalignedData => ErrorKind::InvalidData,
            Error::Unsupported => ErrorKind::Other,
            _ => ErrorKind::InvalidInput,
        }
    }
}

} // verus!

verus! {

/// A result whose success value is taken by its view.
pub open spec fn view_result<T: View>(r: Result<T, Error>) -> Result<T::V, Error> {
    match r {
        Ok(v) => Ok(v@),
        Err(e) => Err(e),
    }
}

} // verus!
