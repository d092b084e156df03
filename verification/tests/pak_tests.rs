use excavator::error::DataError;
use excavator::pak::{read_whole_file, slice_file_from_pak, PakIndex, PakIndexFileEntry};
use excavator::util_binary::ByteSource;

fn push_u32(v: &mut Vec<u8>, x: u32) {
    v.extend_from_slice(&x.to_le_bytes());
}

fn push_u64(v: &mut Vec<u8>, x: u64) {
    v.extend_from_slice(&x.to_le_bytes());
}

/// A well-formed two-file archive:
/// header, data table, name table, names, then per-file headers with the
/// file bytes right behind each.
fn sample_archive() -> Vec<u8> {
    let mut v = Vec::new();
    push_u32(&mut v, 0); // reserved
    push_u32(&mut v, 2); // file_count
    push_u64(&mut v, 24); // data_table_offset
    push_u64(&mut v, 40); // name_table_offset
    assert_eq!(v.len(), 24);
    push_u64(&mut v, 75); // data pointer of file 0
    push_u64(&mut v, 110); // data pointer of file 1
    push_u64(&mut v, 56); // name pointer of file 0
    push_u64(&mut v, 66); // name pointer of file 1
    assert_eq!(v.len(), 56);
    v.extend_from_slice(b"alpha.stl\0");
    v.extend_from_slice(b"beta.bin\0");
    assert_eq!(v.len(), 75);
    push_u64(&mut v, 3); // file 0 size
    push_u64(&mut v, 0);
    push_u64(&mut v, 0);
    push_u64(&mut v, 0);
    v.extend_from_slice(b"AAA");
    assert_eq!(v.len(), 110);
    push_u64(&mut v, 4); // file 1 size
    push_u64(&mut v, 0);
    push_u64(&mut v, 0);
    push_u64(&mut v, 0);
    v.extend_from_slice(b"BBBB");
    assert_eq!(v.len(), 146);
    v
}

#[test]
fn index_lists_every_file() {
    let mut source = ByteSource::new(sample_archive());
    let index = PakIndex::create_index(&mut source).unwrap();
    assert_eq!(index.files.len(), 2);
    assert_eq!(index.files[0].0, b"alpha.stl".to_vec());
    assert_eq!(
        index.files[0].1,
        PakIndexFileEntry {
            data_start: 107,
            data_length: 3
        }
    );
    assert_eq!(index.files[1].0, b"beta.bin".to_vec());
    assert_eq!(
        index.files[1].1,
        PakIndexFileEntry {
            data_start: 142,
            data_length: 4
        }
    );
}

#[test]
fn lookup_finds_every_present_name() {
    let mut source = ByteSource::new(sample_archive());
    let index = PakIndex::create_index(&mut source).unwrap();
    for (name, entry) in &index.files {
        assert_eq!(index.lookup(name), Some(*entry));
    }
    assert_eq!(index.lookup(b"missing"), None);
}

#[test]
fn extract_returns_exact_bytes() {
    let mut source = ByteSource::new(sample_archive());
    let index = PakIndex::create_index(&mut source).unwrap();
    let first = index.files[0].1;
    assert_eq!(read_whole_file(&first, &mut source).unwrap(), b"AAA".to_vec());
    let second = index.files[1].1;
    assert_eq!(
        read_whole_file(&second, &mut source).unwrap(),
        b"BBBB".to_vec()
    );
}

#[test]
fn extract_out_of_bounds() {
    let mut source = ByteSource::new(sample_archive());
    let entry = PakIndexFileEntry {
        data_start: 142,
        data_length: 100,
    };
    assert_eq!(
        read_whole_file(&entry, &mut source),
        Err(DataError::OutOfBounds)
    );
}

#[test]
fn bad_magic_rejects_whole_archive() {
    let mut data = sample_archive();
    data[0] = 0xFF;
    let mut source = ByteSource::new(data);
    assert_eq!(
        PakIndex::create_index(&mut source).err(),
        Some(DataError::FormatError)
    );
}

#[test]
fn short_archive_rejected() {
    let mut source = ByteSource::new(vec![0, 0, 0, 0, 1, 0]);
    assert_eq!(
        PakIndex::create_index(&mut source).err(),
        Some(DataError::FormatError)
    );
}

#[test]
fn slice_named_file_out_of_archive() {
    assert_eq!(
        slice_file_from_pak(sample_archive(), b"beta.bin").unwrap(),
        b"BBBB".to_vec()
    );
    assert_eq!(
        slice_file_from_pak(sample_archive(), b"gamma"),
        Err(DataError::NotFound)
    );
    assert_eq!(
        slice_file_from_pak(vec![1, 2, 3], b"beta.bin"),
        Err(DataError::FormatError)
    );
}

#[test]
fn error_messages() {
    assert_eq!(DataError::FormatError.message(), "malformed data");
    assert_eq!(DataError::NotFound.message(), "name not found in archive");
    assert_eq!(DataError::OutOfBounds.message(), "range exceeds source bounds");
    assert_eq!(DataError::IoError("disk on fire".to_string()).message(), "disk on fire");
}
