use narm::convert::{decode_input, encode_canonical, encode_live_output, ConvertError, Output};
use narm::format::Format;
use narm::kgq336::file::{image_shape, ImageShape};
use narm::kgq336::{logical_to_kg_shape, mojibake, unscramble, KgQ336Error, KG_SHAPE_LEN, PHYSICAL_LEN};
use narm::repeaters::filter_clause;
use narm::Radio;

fn bytes(o: Output) -> Vec<u8> {
    match o {
        Output::Bytes(b) => b,
        Output::Channels(_) => panic!("expected bytes"),
    }
}

fn channels(o: Output) -> Vec<u8> {
    match o {
        Output::Channels(c) => c,
        Output::Bytes(_) => panic!("expected channels"),
    }
}

#[test]
fn kg_physical_dump_is_reshaped() {
    let physical: Vec<u8> = (0..PHYSICAL_LEN).map(|i| (i % 253) as u8).collect();
    let want = logical_to_kg_shape(&unscramble(&physical));
    let got = decode_input(Radio::WouxunKgQ336, Format::Bin, physical).unwrap();
    assert_eq!(got, want);
    assert_eq!(got.len(), KG_SHAPE_LEN);
}

#[test]
fn kg_physical_dump_of_wrong_size_rejected() {
    assert_eq!(
        decode_input(Radio::WouxunKgQ336, Format::Bin, vec![0; 10]).unwrap_err(),
        ConvertError::BadPhysicalSize { radio: Radio::WouxunKgQ336, got: 10 }
    );
}

#[test]
fn kg_file_is_unwrapped() {
    let raw = vec![1u8, 2, 0xC8, 0xFF];
    assert_eq!(decode_input(Radio::WouxunKgQ336, Format::Manufacturer, mojibake(&raw)).unwrap(), raw);
    assert_eq!(
        decode_input(Radio::WouxunKgQ336, Format::Manufacturer, b"nope".to_vec()).unwrap_err(),
        ConvertError::Kg(KgQ336Error::MissingHeader)
    );
}

#[test]
fn uvk5_dump_passes_through_and_text_inputs_are_refused() {
    assert_eq!(decode_input(Radio::QuanshengUvK5, Format::Bin, vec![7, 8]).unwrap(), vec![7, 8]);
    assert_eq!(
        decode_input(Radio::QuanshengUvK5, Format::Toml, vec![]).unwrap_err(),
        ConvertError::NotBinary(Format::Toml)
    );
    assert_eq!(
        decode_input(Radio::QuanshengUvK5, Format::Manufacturer, vec![]).unwrap_err(),
        ConvertError::InputNotImplemented { format: Format::Manufacturer, radio: Radio::QuanshengUvK5 }
    );
    assert_eq!(
        decode_input(Radio::TytMd380, Format::Bin, vec![]).unwrap_err(),
        ConvertError::InputNotImplemented { format: Format::Bin, radio: Radio::TytMd380 }
    );
}

#[test]
fn canonical_outputs() {
    let img = vec![0x41u8, 0xE9];
    assert_eq!(bytes(encode_canonical(Radio::WouxunKgQ336, &img, Format::Manufacturer).unwrap()), mojibake(&img));
    assert_eq!(channels(encode_canonical(Radio::QuanshengUvK5, &img, Format::Toml).unwrap()), img);
    assert_eq!(bytes(encode_canonical(Radio::QuanshengUvK5, &img, Format::Bin).unwrap()), img);
    assert_eq!(
        encode_canonical(Radio::WouxunKgQ336, &img, Format::Bin).unwrap_err(),
        ConvertError::NoPhysicalEncoder(Radio::WouxunKgQ336)
    );
    assert_eq!(
        encode_canonical(Radio::QuanshengUvK5, &img, Format::Csv).unwrap_err(),
        ConvertError::OutputNotImplemented(Format::Csv)
    );
}

#[test]
fn live_outputs() {
    let raw: Vec<u8> = (0..PHYSICAL_LEN).map(|i| (i % 7) as u8).collect();
    let kg = logical_to_kg_shape(&unscramble(&raw));
    assert_eq!(bytes(encode_live_output(Radio::WouxunKgQ336, raw.clone(), Format::Bin).unwrap()), raw);
    assert_eq!(channels(encode_live_output(Radio::WouxunKgQ336, raw.clone(), Format::Toml).unwrap()), kg);
    assert_eq!(
        bytes(encode_live_output(Radio::WouxunKgQ336, raw.clone(), Format::Manufacturer).unwrap()),
        mojibake(&kg)
    );
    assert_eq!(
        encode_live_output(Radio::QuanshengUvK5, vec![1], Format::Manufacturer).unwrap_err(),
        ConvertError::NoManufacturerFormat
    );
    assert_eq!(
        encode_live_output(Radio::YaesuFt50r, vec![1], Format::Toml).unwrap_err(),
        ConvertError::OutputNotImplementedFor { format: Format::Toml, radio: Radio::YaesuFt50r }
    );
}

#[test]
fn image_shapes() {
    assert_eq!(image_shape(&mojibake(&[1, 2, 3])), Some(ImageShape::KgFile));
    assert_eq!(image_shape(&vec![0; PHYSICAL_LEN]), Some(ImageShape::RawDump));
    assert_eq!(image_shape(&vec![0; KG_SHAPE_LEN]), Some(ImageShape::KgShape));
    assert_eq!(image_shape(&[0; 3]), None);
}

#[test]
fn sql_filter_clauses() {
    assert_eq!(filter_clause("", 0, 0), "");
    assert_eq!(filter_clause("", 2, 0), " AND band IN (?,?)");
    assert_eq!(filter_clause("r.", 1, 3), " AND r.band IN (?) AND LOWER(r.mode) IN (?,?,?)");
}
