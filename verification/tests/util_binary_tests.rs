use excavator::util_binary::{
    bytes_eq, parse_struct, read_pile_o_pointers, seek_absolute, u64_checked_signed_diff,
    ByteSource, StructParserError,
};

#[test]
fn parse_nothing_struct() {
    let result = parse_struct(&Vec::new(), |parser| Ok(("return value", parser)));
    assert_eq!(result, Ok("return value"));
}

#[test]
fn parse_number_struct() {
    let data: Vec<u8> = vec![
        0x44, 0x33, 0x22, 0x11, 0x88, 0x77, 0x66, 0x55, 0x44, 0x33, 0x22, 0x11,
    ];
    let result = parse_struct(&data, |mut parser| {
        let n = parser.read_u32()?;
        let m = parser.read_u64()?;
        Ok(((n, m), parser))
    });
    assert_eq!(result, Ok((0x11223344, 0x1122334455667788)));
}

#[test]
fn parse_error_unexpected_end() {
    let data: [u8; 8] = *b"whatever";
    let result = parse_struct(&data, |mut parser| {
        let bytes = parser.read_bytes(1000)?;
        Ok((bytes, parser))
    });
    assert_eq!(result, Err(StructParserError::UnexpectedEnd));
}

#[test]
fn parse_error_leftover_data() {
    let data = [0x11u8; 30];
    let result = parse_struct(&data, |mut parser| {
        let n = parser.read_u32()?;
        let m = parser.read_u64()?;
        Ok(((n, m), parser))
    });
    assert_eq!(result, Err(StructParserError::LeftoverData));
}

#[test]
fn checked_signed_diff_cases() {
    assert_eq!(u64_checked_signed_diff(10, 3), Some(7));
    assert_eq!(u64_checked_signed_diff(3, 10), Some(-7));
    assert_eq!(u64_checked_signed_diff(5, 5), Some(0));
    assert_eq!(u64_checked_signed_diff(u64::MAX, 0), None);
    assert_eq!(u64_checked_signed_diff(0, u64::MAX), None);
    assert_eq!(
        u64_checked_signed_diff(0x7fff_ffff_ffff_ffff, 0),
        Some(i64::MAX)
    );
    assert_eq!(
        u64_checked_signed_diff(0, 0x8000_0000_0000_0000),
        Some(i64::MIN)
    );
}

#[test]
fn byte_source_reads() {
    let mut source = ByteSource::new(vec![1, 2, 3, 4, 5, 6, 7, 8, 9, 10, 11, 12]);
    assert_eq!(source.len(), 12);
    assert_eq!(source.read_u32().unwrap(), 0x04030201);
    assert_eq!(source.stream_position(), 4);
    assert_eq!(source.read_u64().unwrap(), 0x0c0b0a0908070605);
    // Past the end: failure, position unchanged.
    assert!(source.read_u32().is_err());
    assert_eq!(source.stream_position(), 12);
    seek_absolute(&mut source, 2);
    assert_eq!(source.read_exact(3).unwrap(), vec![3, 4, 5]);
}

#[test]
fn byte_source_nul_terminated() {
    let mut source = ByteSource::new(b"one\0two\0three".to_vec());
    assert_eq!(source.read_nul_terminated().unwrap(), b"one".to_vec());
    assert_eq!(source.read_nul_terminated().unwrap(), b"two".to_vec());
    // The final run has no terminator: failure, position unchanged.
    assert!(source.read_nul_terminated().is_err());
    assert_eq!(source.stream_position(), 8);
}

#[test]
fn pointer_pile_reads() {
    let mut data = Vec::new();
    data.extend_from_slice(&7u64.to_le_bytes());
    data.extend_from_slice(&0x1ABCDu64.to_le_bytes());
    let mut source = ByteSource::new(data);
    let pointers = read_pile_o_pointers(&mut source, 2).unwrap();
    assert_eq!(pointers, vec![7, 0x1ABCD]);
    seek_absolute(&mut source, 0);
    assert!(read_pile_o_pointers(&mut source, 3).is_err());
}

#[test]
fn bytes_eq_cases() {
    assert!(bytes_eq(b"abc", b"abc"));
    assert!(!bytes_eq(b"abc", b"abd"));
    assert!(!bytes_eq(b"abc", b"ab"));
    assert!(bytes_eq(b"", b""));
}
