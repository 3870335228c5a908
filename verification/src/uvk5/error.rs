//! Error type shared across the UV-K5 protocol stack.
use vstd::prelude::*;

verus! {

/// Everything that can go wrong while talking to a UV-K5 or decoding its
/// EEPROM.
#[derive(Debug, Clone)]
pub enum UvK5Error {
    /// A reply frame does not start with `AB CD .. 00`; the four header
    /// bytes.
    BadHeader([u8; 4]),
    /// A reply frame does not end with `DC BA`; the four footer bytes.
    BadFooter([u8; 4]),
    /// The hello reply is too short to carry a firmware string.
    NoHelloReply,
    /// Fewer EEPROM bytes than expected.
    ShortEeprom { got: usize },
    /// An upload image is neither `WRITABLE_SIZE` nor `EEPROM_SIZE` long.
    BadImageSize { got: usize },
    /// A write reply has the wrong opcode or is too short; its first bytes.
    BadWriteReply { offset: u16, reply: Vec<u8> },
    /// A write reply echoes another address than the one written.
    BadWriteAddress { expected: u16, got: u16 },
}

} // verus!
