//! narm: channel and codeplug management for handheld amateur radios.
//!
//! The verified library holds the codeplug codecs (the KG-Q336 `.kg`
//! file wrapper, cipher and framing; the UV-K5 framing and EEPROM
//! channel decoder), the channel model, CHIRP CSV export and the
//! Maidenhead locator parser.
use vstd::prelude::*;

pub mod channel;
pub mod chirp;
pub mod convert;
pub mod format;
pub mod grid;
pub mod kgq336;
pub mod radio;
pub mod repeaters;
pub mod step;
pub mod text;
pub mod uvk5;

pub use channel::{validate, Admit, Bandwidth, C4fmRate, Channel, Config, Mode, NarmError, Power};
pub use radio::Radio;

verus! {

} // verus!
