//! Quansheng UV-K5 / UV-K5(8): wire framing, EEPROM channel decoding and
//! the read / write / reset sessions.
//!
//! Writes only ever touch the first [`WRITABLE_SIZE`] (`0x1d00`) bytes;
//! `0x1d00..0x2000` holds factory calibration and is never overwritten.
use vstd::prelude::*;

pub mod decode;
pub mod error;
pub mod session;
pub mod wire;

pub use error::UvK5Error;
pub use session::{read_eeprom, reset_radio, write_eeprom, EepromRead, EepromWrite};
pub use decode::{decode_channels, DecodeReport};
pub use wire::{EEPROM_SIZE, WRITABLE_SIZE};

verus! {

} // verus!
