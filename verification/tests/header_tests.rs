use excavator::st::{
    decode_stb_header, decode_stl_header, encode_stb_header, encode_stl_header, StbOrStmHeader,
    StbOrStmHeaderExtra, StlHeader,
};

fn stl_sample_raw() -> Vec<u8> {
    vec![
        0x00, 0x00, 0x00, 0x00, 0x00, 0x00, 0x00, 0x00, //
        0x6B, 0x0B, 0x00, 0x00, //
        0x01, 0x00, 0x00, 0x00, //
        0xCD, 0xAB, 0x01, 0x00, 0x00, 0x00, 0x00, 0x00,
    ]
}

fn stl_sample_header() -> StlHeader {
    StlHeader {
        entry_count: 2923,
        field_count: 1,
        data_pointer: 0x1ABCD,
    }
}

fn stm_sample_raw() -> Vec<u8> {
    vec![
        0x00, 0x00, 0x00, 0x00, 0x00, 0x00, 0x00, 0x00, //
        0x6B, 0x0B, 0x00, 0x00, //
        0x08, 0x00, 0x00, 0x00, //
        0xCD, 0xAB, 0x01, 0x00, 0x00, 0x00, 0x00, 0x00, //
        0xCD, 0xAB, 0x02, 0x00, 0x00, 0x00, 0x00, 0x00, //
        0x00, 0x00, 0x00, 0x00, //
        0xCE, 0x03, 0x00, 0x00, //
        0xCD, 0xAB, 0x03, 0x00, 0x00, 0x00, 0x00, 0x00, //
        0x00, 0x00, 0x00, 0x00, //
        0x02, 0x00, 0x00, 0x00, //
        0xCD, 0xAB, 0x04, 0x00, 0x00, 0x00, 0x00, 0x00,
    ]
}

fn stm_sample_header() -> StbOrStmHeader {
    StbOrStmHeader {
        entry_count: 2923,
        field_count: 8,
        checksums_pointer: 0x1ABCD,
        data_pointer: 0x2ABCD,
        extra1: StbOrStmHeaderExtra {
            extra_entry_count: 974,
            pointer: 0x3ABCD,
        },
        extra2: StbOrStmHeaderExtra {
            extra_entry_count: 2,
            pointer: 0x4ABCD,
        },
    }
}

#[test]
fn stl_header_deserialize() {
    let result = decode_stl_header(&stl_sample_raw()).unwrap();
    assert_eq!(result, stl_sample_header());
}

#[test]
fn stl_header_serialize() {
    let result = encode_stl_header(&stl_sample_header());
    assert_eq!(result, stl_sample_raw());
}

#[test]
fn st_stl_header_deserialize() {
    let result = decode_stl_header(&stl_sample_raw()).unwrap();
    assert_eq!(result, stl_sample_header());
}

#[test]
fn st_stl_header_serialize() {
    let result = encode_stl_header(&stl_sample_header());
    assert_eq!(result, stl_sample_raw());
}

#[test]
fn stm_header_deserialize() {
    let result = decode_stb_header(&stm_sample_raw()).unwrap();
    assert_eq!(result, stm_sample_header());
}

#[test]
fn stm_header_serialize() {
    let result = encode_stb_header(&stm_sample_header());
    assert_eq!(result, stm_sample_raw());
}

#[test]
fn stl_header_bad_magic() {
    let mut raw = stl_sample_raw();
    raw[3] = 1;
    assert_eq!(
        decode_stl_header(&raw),
        Err(excavator::error::DataError::FormatError)
    );
}

#[test]
fn stm_header_short_input() {
    let raw = stm_sample_raw();
    assert_eq!(
        decode_stb_header(&raw[..32]),
        Err(excavator::error::DataError::FormatError)
    );
}
