//! Error type shared across the KG-Q336 file/decode/protocol stack.
use vstd::prelude::*;

verus! {

/// Everything that can go wrong while decoding a KG-Q336 file, image or
/// wire frame.
#[derive(Debug, Clone, PartialEq, Eq, Structural)]
pub enum KgQ336Error {
    /// The `.kg` file lacks the `xiepinruanjian\r\n` header.
    MissingHeader,
    /// The `.kg` file lacks the trailing CRLF.
    MissingFooter,
    /// A byte of the `.kg` body is not valid UTF-8-of-Latin-1.
    BadMojibake { offset: usize, byte: u8 },
    /// The image is shorter than one channel record.
    ShortImage { got: usize, min: usize },
    /// The input is neither a `.kg` file, a 32 KiB dump nor a 50 KB image.
    UnknownShape { got: usize },
    /// Fewer bytes than the frame header announces.
    ShortFrame { got: usize, want: usize },
    /// The first byte of a frame is not the start-of-frame marker.
    BadSof { got: u8 },
    /// An inbound frame carries the host-to-radio direction byte.
    BadDirection { got: u8 },
    /// The decrypted checksum does not match the frame contents.
    BadChecksum { cmd: u8, expected: u8, got: u8 },
    /// A read reply echoes another address than the one requested.
    BadReadAddress { expected: u16, got: u16 },
    /// A reply carries another command byte than the request.
    BadReplyCmd { want: u8, got: u8 },
}

} // verus!
