use excavator::error::DataError;
use excavator::st::{decode_all, read_st, read_st_cell, read_st_header, StHeaderCommon};
use excavator::stb::read_stb;
use excavator::util_binary::ByteSource;

fn push_u32(v: &mut Vec<u8>, x: u32) {
    v.extend_from_slice(&x.to_le_bytes());
}

fn push_u64(v: &mut Vec<u8>, x: u64) {
    v.extend_from_slice(&x.to_le_bytes());
}

/// A line-variant dataset of 2 rows by 2 columns.
fn sample_stl() -> Vec<u8> {
    let mut v = Vec::new();
    push_u64(&mut v, 0); // magic
    push_u32(&mut v, 2); // entry_count
    push_u32(&mut v, 2); // field_count
    push_u64(&mut v, 24); // data_pointer
    assert_eq!(v.len(), 24);
    push_u64(&mut v, 56);
    push_u64(&mut v, 61);
    push_u64(&mut v, 66);
    push_u64(&mut v, 71);
    assert_eq!(v.len(), 56);
    v.extend_from_slice(b"r0c0\0");
    v.extend_from_slice(b"r0c1\0");
    v.extend_from_slice(b"r1c0\0");
    v.extend_from_slice(b"r1c1\0");
    v
}

/// A block-variant dataset of 2 rows by 1 column; the extra sub-tables
/// are unused.
fn sample_stb() -> Vec<u8> {
    let mut v = Vec::new();
    push_u64(&mut v, 0); // magic
    push_u32(&mut v, 2); // entry_count
    push_u32(&mut v, 1); // field_count
    push_u64(&mut v, 0); // checksums_pointer (unused here)
    push_u64(&mut v, 64); // data_pointer
    push_u32(&mut v, 0); // extra block 1 reserved
    push_u32(&mut v, 0); // extra1 count
    push_u64(&mut v, 0); // extra1 pointer
    push_u32(&mut v, 0); // extra block 2 reserved
    push_u32(&mut v, 0); // extra2 count
    push_u64(&mut v, 0); // extra2 pointer
    assert_eq!(v.len(), 64);
    push_u64(&mut v, 80);
    push_u64(&mut v, 85);
    assert_eq!(v.len(), 80);
    v.extend_from_slice(b"name\0");
    v.extend_from_slice(b"val\0");
    v
}

#[test]
fn read_header_common_fields() {
    let mut source = ByteSource::new(sample_stl());
    let header = read_st_header(&mut source, true).unwrap();
    assert_eq!(
        header,
        StHeaderCommon {
            entry_count: 2,
            field_count: 2,
            data_pointer: 24
        }
    );
}

#[test]
fn read_whole_grid() {
    let mut source = ByteSource::new(sample_stl());
    let outcome = read_st(&mut source, true).unwrap();
    assert_eq!(outcome.field_count, 2);
    assert_eq!(
        outcome.strings,
        vec![
            "r0c0".to_string(),
            "r0c1".to_string(),
            "r1c0".to_string(),
            "r1c1".to_string()
        ]
    );
}

#[test]
fn read_single_cells() {
    let mut source = ByteSource::new(sample_stl());
    let header = read_st_header(&mut source, true).unwrap();
    assert_eq!(read_st_cell(&mut source, &header, 0, 0).unwrap(), "r0c0");
    assert_eq!(read_st_cell(&mut source, &header, 1, 0).unwrap(), "r1c0");
    assert_eq!(read_st_cell(&mut source, &header, 1, 1).unwrap(), "r1c1");
}

#[test]
fn cell_out_of_bounds() {
    let mut source = ByteSource::new(sample_stl());
    let header = read_st_header(&mut source, true).unwrap();
    assert_eq!(
        read_st_cell(&mut source, &header, 2, 0),
        Err(DataError::OutOfBounds)
    );
    assert_eq!(
        read_st_cell(&mut source, &header, 0, 2),
        Err(DataError::OutOfBounds)
    );
}

#[test]
fn cell_failure_is_local() {
    // Break the last cell's terminator: other cells still decode.
    let mut data = sample_stl();
    let len = data.len();
    data.truncate(len - 1);
    let mut source = ByteSource::new(data);
    let header = read_st_header(&mut source, true).unwrap();
    assert_eq!(read_st_cell(&mut source, &header, 0, 0).unwrap(), "r0c0");
    assert_eq!(
        read_st_cell(&mut source, &header, 1, 1),
        Err(DataError::FormatError)
    );
    // The bulk read aborts instead.
    assert_eq!(read_st(&mut source, true).err(), Some(DataError::FormatError));
}

#[test]
fn stl_wrong_variant_rejected() {
    let mut source = ByteSource::new(sample_stl());
    // A 24-byte line-variant file is too short for the block shape.
    assert_eq!(read_st(&mut source, false).err(), Some(DataError::FormatError));
}

#[test]
fn stb_rows_and_labels() {
    let mut source = ByteSource::new(sample_stb());
    let data = read_stb(&mut source).unwrap();
    assert_eq!(data.entry_count(), 2);
    assert_eq!(data.field_count(), 1);
    assert_eq!(data.field_names(), &["name".to_string()]);
    assert_eq!(data.entry(0), &["val".to_string()]);
}

#[test]
fn decode_all_groups_rows() {
    let mut source = ByteSource::new(sample_stl());
    let header = read_st_header(&mut source, true).unwrap();
    let rows = decode_all(&mut source, &header).unwrap();
    assert_eq!(
        rows,
        vec![
            vec!["r0c0".to_string(), "r0c1".to_string()],
            vec!["r1c0".to_string(), "r1c1".to_string()]
        ]
    );
}

#[test]
fn decode_all_aborts_on_bad_cell() {
    let mut data = sample_stl();
    let len = data.len();
    data.truncate(len - 1);
    let mut source = ByteSource::new(data);
    let header = read_st_header(&mut source, true).unwrap();
    assert_eq!(
        decode_all(&mut source, &header).err(),
        Some(DataError::FormatError)
    );
}

#[test]
fn block_header_common_fields() {
    let mut source = ByteSource::new(sample_stb());
    let header = read_st_header(&mut source, false).unwrap();
    assert_eq!(
        header,
        StHeaderCommon {
            entry_count: 2,
            field_count: 1,
            data_pointer: 64
        }
    );
}
