//! Wouxun KG-Q332 / KG-Q336 codeplug: the `.kg` file wrapper, the
//! serial wire protocol primitives and the channel decoder.
use vstd::prelude::*;

pub mod decode;
pub mod error;
pub mod file;
pub mod session;
pub mod wire;

pub use decode::{decode_channels, DecodeReport};
pub use error::KgQ336Error;
pub use file::{
    logical_to_kg_shape, mojibake, to_kg_shape, unmojibake, unscramble, KG_SHAPE_LEN, PHYSICAL_LEN,
};
pub use session::{read_codeplug, CodeplugRead};
pub use wire::{
    build_read_cmd, build_write_cmd, checksum, decrypt_inplace, encrypt_inplace, parse_in_frame,
    split_read_reply, InFrame, CMD_END, CMD_RD, CMD_WR, DIR_IN, DIR_OUT, END_FRAME, READ_BLOCK,
    SOF, WRITE_BLOCK,
};

verus! {

} // verus!
