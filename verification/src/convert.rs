//! Which codeplug conversions narm can do, and doing them: a file read
//! into a radio's canonical image (the `.kg` shape for the KG-Q336, the
//! raw EEPROM for the UV-K5), and a canonical or freshly read image
//! written out in the requested format.
use vstd::prelude::*;

use crate::format::Format;
use crate::kgq336::file::{
    logical_to_kg_shape, mojibake, spec_logical_to_kg_shape, spec_mojibake, spec_unmojibake,
    spec_unscramble, unmojibake, unscramble, PHYSICAL_LEN,
};
use crate::kgq336::KgQ336Error;
use crate::radio::Radio;

verus! {

/// Why a conversion cannot be done.
#[derive(Debug, Clone, PartialEq, Eq, Structural)]
pub enum ConvertError {
    /// A raw KG-Q336 input is not a 32 KiB physical dump.
    BadPhysicalSize { radio: Radio, got: usize },
    /// The `.kg` file could not be unwrapped.
    Kg(KgQ336Error),
    /// A text format was given where a binary codeplug is needed.
    NotBinary(Format),
    /// There is no reader for this input format on this radio yet.
    InputNotImplemented { format: Format, radio: Radio },
    /// There is no `.kg`-shape to physical-dump conversion.
    NoPhysicalEncoder(Radio),
    /// There is no writer for this output format yet.
    OutputNotImplemented(Format),
    /// There is no writer for this output format on this radio yet.
    OutputNotImplementedFor { format: Format, radio: Radio },
    /// The UV-K5 has no manufacturer file format.
    NoManufacturerFormat,
}

/// What to write out.
#[derive(Debug, Clone)]
pub enum Output {
    /// These bytes, as they are.
    Bytes(Vec<u8>),
    /// The channels decoded from this canonical image, as narm TOML.
    Channels(Vec<u8>),
}

/// The `.kg`-shape image of a physical KG-Q336 dump.
pub open spec fn kg_shape_of_physical(physical: Seq<u8>) -> Seq<u8> {
    spec_logical_to_kg_shape(spec_unscramble(physical))
}

/// What reading a file of format `fmt` for `radio` gives: the canonical
/// image, or why it cannot be read.
pub open spec fn spec_decode_input(radio: Radio, fmt: Format, bytes: Seq<u8>) -> Result<
    Seq<u8>,
    ConvertError,
> {
    match fmt {
        Format::Bin => if radio == Radio::WouxunKgQ336 {
            if bytes.len() != PHYSICAL_LEN {
                Err(ConvertError::BadPhysicalSize { radio, got: bytes.len() as usize })
            } else {
                Ok(kg_shape_of_physical(bytes))
            }
        } else if radio == Radio::QuanshengUvK5 {
            Ok(bytes)
        } else {
            Err(ConvertError::InputNotImplemented { format: fmt, radio })
        },
        Format::Manufacturer => if radio == Radio::WouxunKgQ336 {
            match spec_unmojibake(bytes) {
                Ok(raw) => Ok(raw),
                Err(e) => Err(ConvertError::Kg(e)),
            }
        } else {
            Err(ConvertError::InputNotImplemented { format: fmt, radio })
        },
        _ => Err(ConvertError::NotBinary(fmt)),
    }
}

/// The `.kg`-shape image of a physical KG-Q336 dump.
fn reshape_physical(physical: &[u8]) -> (kg: Vec<u8>)
    ensures
        kg@ == kg_shape_of_physical(physical@),
{
    let logical = unscramble(physical);
    logical_to_kg_shape(logical.as_slice())
}

/// Read a binary codeplug file (`-b` or `-m`) into the radio's canonical
/// image: a KG-Q336 physical dump is reshaped, a `.kg` file unwrapped, a
/// UV-K5 dump taken as it is.
pub fn decode_input(radio: Radio, fmt: Format, bytes: Vec<u8>) -> (r: Result<Vec<u8>, ConvertError>)
    ensures
        match r {
            Ok(v) => spec_decode_input(radio, fmt, bytes@) == Ok::<Seq<u8>, ConvertError>(v@),
            Err(e) => spec_decode_input(radio, fmt, bytes@) == Err::<Seq<u8>, ConvertError>(e),
        },
{
    match fmt {
        Format::Bin => match radio {
            Radio::WouxunKgQ336 => {
                if bytes.len() != PHYSICAL_LEN {
                    return Err(ConvertError::BadPhysicalSize { radio, got: bytes.len() });
                }
                Ok(reshape_physical(bytes.as_slice()))
            },
            Radio::QuanshengUvK5 => Ok(bytes),
            _ => Err(ConvertError::InputNotImplemented { format: fmt, radio }),
        },
        Format::Manufacturer => match radio {
            Radio::WouxunKgQ336 => match unmojibake(bytes.as_slice()) {
                Ok(raw) => Ok(raw),
                Err(e) => Err(ConvertError::Kg(e)),
            },
            _ => Err(ConvertError::InputNotImplemented { format: fmt, radio }),
        },
        _ => Err(ConvertError::NotBinary(fmt)),
    }
}

/// Write a canonical image in format `fmt`: the KG-Q336 image re-wrapped
/// as a `.kg` file, any image's channels as TOML, a UV-K5 image as it
/// is. There is no way back from the `.kg` shape to a physical dump.
pub fn encode_canonical(radio: Radio, canonical: &[u8], fmt: Format) -> (r: Result<
    Output,
    ConvertError,
>)
    ensures
        radio == Radio::WouxunKgQ336 && fmt == Format::Bin ==> r == Err::<Output, ConvertError>(
            ConvertError::NoPhysicalEncoder(radio),
        ),
        radio == Radio::WouxunKgQ336 && fmt == Format::Manufacturer ==> (r matches Ok(
            Output::Bytes(b),
        ) && b@ == spec_mojibake(canonical@)),
        fmt == Format::Toml ==> (r matches Ok(Output::Channels(c)) && c@ == canonical@),
        radio != Radio::WouxunKgQ336 && fmt == Format::Bin ==> (r matches Ok(Output::Bytes(b))
            && b@ == canonical@),
        fmt == Format::Yaml || fmt == Format::Csv ==> r == Err::<Output, ConvertError>(
            ConvertError::OutputNotImplemented(fmt),
        ),
        radio != Radio::WouxunKgQ336 && fmt == Format::Manufacturer ==> r == Err::<
            Output,
            ConvertError,
        >(ConvertError::OutputNotImplementedFor { format: fmt, radio }),
{
    let mut copy: Vec<u8> = Vec::new();
    copy.extend_from_slice(canonical);
    match fmt {
        Format::Bin => match radio {
            Radio::WouxunKgQ336 => Err(ConvertError::NoPhysicalEncoder(radio)),
            _ => Ok(Output::Bytes(copy)),
        },
        Format::Manufacturer => match radio {
            Radio::WouxunKgQ336 => Ok(Output::Bytes(mojibake(canonical))),
            _ => Err(ConvertError::OutputNotImplementedFor { format: fmt, radio }),
        },
        Format::Toml => Ok(Output::Channels(copy)),
        _ => Err(ConvertError::OutputNotImplemented(fmt)),
    }
}

/// Write an image read off a radio in format `fmt`: `-b` gives the bytes
/// as read; a KG-Q336 dump is reshaped before it is wrapped as a `.kg`
/// file or decoded to TOML; a UV-K5 dump decodes to TOML as it is.
pub fn encode_live_output(radio: Radio, raw: Vec<u8>, fmt: Format) -> (r: Result<
    Output,
    ConvertError,
>)
    ensures
        fmt == Format::Bin ==> (r matches Ok(Output::Bytes(b)) && b@ == raw@),
        radio == Radio::WouxunKgQ336 && fmt == Format::Manufacturer ==> (r matches Ok(
            Output::Bytes(b),
        ) && b@ == spec_mojibake(kg_shape_of_physical(raw@))),
        radio == Radio::WouxunKgQ336 && fmt == Format::Toml ==> (r matches Ok(Output::Channels(c))
            && c@ == kg_shape_of_physical(raw@)),
        radio == Radio::QuanshengUvK5 && fmt == Format::Toml ==> (r matches Ok(
            Output::Channels(c),
        ) && c@ == raw@),
        radio == Radio::QuanshengUvK5 && fmt == Format::Manufacturer ==> r == Err::<
            Output,
            ConvertError,
        >(ConvertError::NoManufacturerFormat),
        fmt == Format::Yaml || fmt == Format::Csv ==> r == Err::<Output, ConvertError>(
            ConvertError::OutputNotImplemented(fmt),
        ),
        radio != Radio::WouxunKgQ336 && radio != Radio::QuanshengUvK5 && (fmt == Format::Toml
            || fmt == Format::Manufacturer) ==> r == Err::<Output, ConvertError>(
            ConvertError::OutputNotImplementedFor { format: fmt, radio },
        ),
{
    match fmt {
        Format::Bin => Ok(Output::Bytes(raw)),
        Format::Manufacturer => match radio {
            Radio::WouxunKgQ336 => {
                let kg = reshape_physical(raw.as_slice());
                Ok(Output::Bytes(mojibake(kg.as_slice())))
            },
            Radio::QuanshengUvK5 => Err(ConvertError::NoManufacturerFormat),
            _ => Err(ConvertError::OutputNotImplementedFor { format: fmt, radio }),
        },
        Format::Toml => match radio {
            Radio::WouxunKgQ336 => Ok(Output::Channels(reshape_physical(raw.as_slice()))),
            Radio::QuanshengUvK5 => Ok(Output::Channels(raw)),
            _ => Err(ConvertError::OutputNotImplementedFor { format: fmt, radio }),
        },
        _ => Err(ConvertError::OutputNotImplemented(fmt)),
    }
}

} // verus!
