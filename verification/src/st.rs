//! The tabular dataset ("st" family) codecs: two header shapes and
//! indexed access to a row-major grid of zero-terminated strings.
//!
//! Byte layout, little-endian:
//! - line variant ("stl") header, 24 bytes: 8 reserved zero bytes;
//!   `entry_count: u32`; `field_count: u32`; `data_pointer: u64`;
//! - block variant ("stb"/"stm") header, 64 bytes: 8 reserved zero bytes;
//!   `entry_count: u32`; `field_count: u32`; `checksums_pointer: u64`;
//!   `data_pointer: u64`; then two 16-byte extra blocks, each 4 reserved
//!   zero bytes, `extra_entry_count: u32` and `pointer: u64`;
//! - at `data_pointer`: `entry_count * field_count` 64-bit absolute
//!   offsets, row-major, each pointing at a zero-terminated string.
//!
//! The caller says which variant to expect, by file extension: no in-file
//! discriminator tells the two shapes apart reliably. The two extra
//! sub-tables of the block variant have undetermined semantics and are
//! treated as opaque; they are not needed for cell access.

use vstd::prelude::*;

use crate::error::DataError;
use crate::text::{lossy_of, lossy_utf8};
use crate::util_binary::{le32_at, le64_at, find_nul, ByteSource, seek_absolute};

verus! {

/// The line-variant ("stl") header.
#[derive(Clone, Copy, Debug, PartialEq, Eq, Structural)]
pub struct StlHeader {
    pub entry_count: u32,
    pub field_count: u32,
    pub data_pointer: u64,
}

/// One of the two opaque extra sub-table descriptors of the block variant.
#[derive(Clone, Copy, Debug, PartialEq, Eq, Structural)]
pub struct StbOrStmHeaderExtra {
    pub extra_entry_count: u32,
    pub pointer: u64,
}

/// The block-variant ("stb"/"stm") header.
#[derive(Clone, Copy, Debug, PartialEq, Eq, Structural)]
pub struct StbOrStmHeader {
    pub entry_count: u32,
    pub field_count: u32,
    pub checksums_pointer: u64,
    pub data_pointer: u64,
    pub extra1: StbOrStmHeaderExtra,
    pub extra2: StbOrStmHeaderExtra,
}

/// The fields shared by both header shapes; all cell access needs only these.
#[derive(Clone, Copy, Debug, PartialEq, Eq, Structural)]
pub struct StHeaderCommon {
    pub entry_count: u32,
    pub field_count: u32,
    pub data_pointer: u64,
}

impl From<StlHeader> for StHeaderCommon {
    fn from(value: StlHeader) -> (r: Self) {
        StHeaderCommon {
            entry_count: value.entry_count,
            field_count: value.field_count,
            data_pointer: value.data_pointer,
        }
    }
}

impl vstd::std_specs::convert::FromSpecImpl<StlHeader> for StHeaderCommon {
    open spec fn obeys_from_spec() -> bool {
        true
    }

    open spec fn from_spec(v: StlHeader) -> Self {
        StHeaderCommon {
            entry_count: v.entry_count,
            field_count: v.field_count,
            data_pointer: v.data_pointer,
        }
    }
}

impl From<StbOrStmHeader> for StHeaderCommon {
    fn from(value: StbOrStmHeader) -> (r: Self) {
        StHeaderCommon {
            entry_count: value.entry_count,
            field_count: value.field_count,
            data_pointer: value.data_pointer,
        }
    }
}

impl vstd::std_specs::convert::FromSpecImpl<StbOrStmHeader> for StHeaderCommon {
    open spec fn obeys_from_spec() -> bool {
        true
    }

    open spec fn from_spec(v: StbOrStmHeader) -> Self {
        StHeaderCommon {
            entry_count: v.entry_count,
            field_count: v.field_count,
            data_pointer: v.data_pointer,
        }
    }
}

/// The 24 bytes that serialize a line-variant header.
pub open spec fn stl_header_bytes(h: StlHeader) -> Seq<u8> {
    vstd::bytes::spec_u64_to_le_bytes(0u64) + vstd::bytes::spec_u32_to_le_bytes(h.entry_count)
        + vstd::bytes::spec_u32_to_le_bytes(h.field_count) + vstd::bytes::spec_u64_to_le_bytes(
        h.data_pointer,
    )
}

/// The line-variant header at the start of `data`, when the magic bytes
/// are present and zero.
pub open spec fn parse_stl_header(data: Seq<u8>) -> Option<StlHeader> {
    if data.len() >= 24 && le64_at(data, 0) == 0 {
        Some(
            StlHeader {
                entry_count: le32_at(data, 8),
                field_count: le32_at(data, 12),
                data_pointer: le64_at(data, 16),
            },
        )
    } else {
        None
    }
}

/// The 64 bytes that serialize a block-variant header.
pub open spec fn stb_header_bytes(h: StbOrStmHeader) -> Seq<u8> {
    vstd::bytes::spec_u64_to_le_bytes(0u64) + vstd::bytes::spec_u32_to_le_bytes(h.entry_count)
        + vstd::bytes::spec_u32_to_le_bytes(h.field_count) + vstd::bytes::spec_u64_to_le_bytes(
        h.checksums_pointer,
    ) + vstd::bytes::spec_u64_to_le_bytes(h.data_pointer) + vstd::bytes::spec_u32_to_le_bytes(0u32)
        + vstd::bytes::spec_u32_to_le_bytes(h.extra1.extra_entry_count)
        + vstd::bytes::spec_u64_to_le_bytes(h.extra1.pointer) + vstd::bytes::spec_u32_to_le_bytes(
        0u32,
    ) + vstd::bytes::spec_u32_to_le_bytes(h.extra2.extra_entry_count)
        + vstd::bytes::spec_u64_to_le_bytes(h.extra2.pointer)
}

/// The block-variant header at the start of `data`, when all three groups
/// of reserved magic bytes are present and zero.
pub open spec fn parse_stb_header(data: Seq<u8>) -> Option<StbOrStmHeader> {
    if data.len() >= 64 && le64_at(data, 0) == 0 && le32_at(data, 32) == 0 && le32_at(data, 48)
        == 0 {
        Some(
            StbOrStmHeader {
                entry_count: le32_at(data, 8),
                field_count: le32_at(data, 12),
                checksums_pointer: le64_at(data, 16),
                data_pointer: le64_at(data, 24),
                extra1: StbOrStmHeaderExtra {
                    extra_entry_count: le32_at(data, 36),
                    pointer: le64_at(data, 40),
                },
                extra2: StbOrStmHeaderExtra {
                    extra_entry_count: le32_at(data, 52),
                    pointer: le64_at(data, 56),
                },
            },
        )
    } else {
        None
    }
}

/// Serializing a line-variant header and decoding the bytes gives the
/// original header back, for every header value.
pub proof fn lemma_stl_header_roundtrip(h: StlHeader)
    ensures
        parse_stl_header(stl_header_bytes(h)) == Some(h),
{
    vstd::bytes::lemma_auto_spec_u64_to_from_le_bytes();
    vstd::bytes::lemma_auto_spec_u32_to_from_le_bytes();
    let b = stl_header_bytes(h);
    assert(b.subrange(0, 8) =~= vstd::bytes::spec_u64_to_le_bytes(0u64));
    assert(b.subrange(8, 12) =~= vstd::bytes::spec_u32_to_le_bytes(h.entry_count));
    assert(b.subrange(12, 16) =~= vstd::bytes::spec_u32_to_le_bytes(h.field_count));
    assert(b.subrange(16, 24) =~= vstd::bytes::spec_u64_to_le_bytes(h.data_pointer));
}

/// Serializing a block-variant header and decoding the bytes gives the
/// original header back, for every header value.
pub proof fn lemma_stb_header_roundtrip(h: StbOrStmHeader)
    ensures
        parse_stb_header(stb_header_bytes(h)) == Some(h),
{
    vstd::bytes::lemma_auto_spec_u64_to_from_le_bytes();
    vstd::bytes::lemma_auto_spec_u32_to_from_le_bytes();
    let b = stb_header_bytes(h);
    assert(b.subrange(0, 8) =~= vstd::bytes::spec_u64_to_le_bytes(0u64));
    assert(b.subrange(8, 12) =~= vstd::bytes::spec_u32_to_le_bytes(h.entry_count));
    assert(b.subrange(12, 16) =~= vstd::bytes::spec_u32_to_le_bytes(h.field_count));
    assert(b.subrange(16, 24) =~= vstd::bytes::spec_u64_to_le_bytes(h.checksums_pointer));
    assert(b.subrange(24, 32) =~= vstd::bytes::spec_u64_to_le_bytes(h.data_pointer));
    assert(b.subrange(32, 36) =~= vstd::bytes::spec_u32_to_le_bytes(0u32));
    assert(b.subrange(36, 40) =~= vstd::bytes::spec_u32_to_le_bytes(h.extra1.extra_entry_count));
    assert(b.subrange(40, 48) =~= vstd::bytes::spec_u64_to_le_bytes(h.extra1.pointer));
    assert(b.subrange(48, 52) =~= vstd::bytes::spec_u32_to_le_bytes(0u32));
    assert(b.subrange(52, 56) =~= vstd::bytes::spec_u32_to_le_bytes(h.extra2.extra_entry_count));
    assert(b.subrange(56, 64) =~= vstd::bytes::spec_u64_to_le_bytes(h.extra2.pointer));
}

/// Serializes a line-variant header into its fixed 24-byte layout.
pub fn encode_stl_header(h: &StlHeader) -> (v: Vec<u8>)
    ensures
        v@ == stl_header_bytes(*h),
{
    let mut v = vstd::bytes::u64_to_le_bytes(0);
    let mut p1 = vstd::bytes::u32_to_le_bytes(h.entry_count);
    let mut p2 = vstd::bytes::u32_to_le_bytes(h.field_count);
    let mut p3 = vstd::bytes::u64_to_le_bytes(h.data_pointer);
    v.append(&mut p1);
    v.append(&mut p2);
    v.append(&mut p3);
    v
}

/// Serializes a block-variant header into its fixed 64-byte layout.
pub fn encode_stb_header(h: &StbOrStmHeader) -> (v: Vec<u8>)
    ensures
        v@ == stb_header_bytes(*h),
{
    let mut v = vstd::bytes::u64_to_le_bytes(0);
    let mut p1 = vstd::bytes::u32_to_le_bytes(h.entry_count);
    let mut p2 = vstd::bytes::u32_to_le_bytes(h.field_count);
    let mut p3 = vstd::bytes::u64_to_le_bytes(h.checksums_pointer);
    let mut p4 = vstd::bytes::u64_to_le_bytes(h.data_pointer);
    let mut p5 = vstd::bytes::u32_to_le_bytes(0);
    let mut p6 = vstd::bytes::u32_to_le_bytes(h.extra1.extra_entry_count);
    let mut p7 = vstd::bytes::u64_to_le_bytes(h.extra1.pointer);
    let mut p8 = vstd::bytes::u32_to_le_bytes(0);
    let mut p9 = vstd::bytes::u32_to_le_bytes(h.extra2.extra_entry_count);
    let mut p10 = vstd::bytes::u64_to_le_bytes(h.extra2.pointer);
    v.append(&mut p1);
    v.append(&mut p2);
    v.append(&mut p3);
    v.append(&mut p4);
    v.append(&mut p5);
    v.append(&mut p6);
    v.append(&mut p7);
    v.append(&mut p8);
    v.append(&mut p9);
    v.append(&mut p10);
    v
}

/// Decodes a line-variant header from the start of `data`.
pub fn decode_stl_header(data: &[u8]) -> (r: Result<StlHeader, DataError>)
    ensures
        parse_stl_header(data@) matches Some(h) ==> r == Ok::<StlHeader, DataError>(h),
        parse_stl_header(data@) is None ==> r == Err::<StlHeader, DataError>(
            DataError::FormatError,
        ),
{
    let mut source = ByteSource::new(vstd::slice::slice_to_vec(data));
    read_stl_header(&mut source)
}

/// Decodes a block-variant header from the start of `data`.
pub fn decode_stb_header(data: &[u8]) -> (r: Result<StbOrStmHeader, DataError>)
    ensures
        parse_stb_header(data@) matches Some(h) ==> r == Ok::<StbOrStmHeader, DataError>(h),
        parse_stb_header(data@) is None ==> r == Err::<StbOrStmHeader, DataError>(
            DataError::FormatError,
        ),
{
    let mut source = ByteSource::new(vstd::slice::slice_to_vec(data));
    read_stb_header(&mut source)
}

/// Reads a line-variant header from the start of the source.
pub fn read_stl_header(source: &mut ByteSource) -> (r: Result<StlHeader, DataError>)
    ensures
        final(source).bytes() == old(source).bytes(),
        parse_stl_header(old(source).bytes()) matches Some(h) ==> r == Ok::<StlHeader, DataError>(
            h,
        ),
        parse_stl_header(old(source).bytes()) is None ==> r == Err::<StlHeader, DataError>(
            DataError::FormatError,
        ),
{
    let ghost data = old(source).bytes();
    source.rewind();
    let magic = match source.read_u64() {
        Ok(x) => x,
        Err(e) => { return Err(DataError::FormatError) },
    };
    if magic != 0 {
        return Err(DataError::FormatError);
    }
    let entry_count = match source.read_u32() {
        Ok(x) => x,
        Err(e) => { return Err(DataError::FormatError) },
    };
    let field_count = match source.read_u32() {
        Ok(x) => x,
        Err(e) => { return Err(DataError::FormatError) },
    };
    let data_pointer = match source.read_u64() {
        Ok(x) => x,
        Err(e) => { return Err(DataError::FormatError) },
    };
    Ok(StlHeader { entry_count, field_count, data_pointer })
}

/// Reads a block-variant header from the start of the source.
pub fn read_stb_header(source: &mut ByteSource) -> (r: Result<StbOrStmHeader, DataError>)
    ensures
        final(source).bytes() == old(source).bytes(),
        parse_stb_header(old(source).bytes()) matches Some(h) ==> r == Ok::<
            StbOrStmHeader,
            DataError,
        >(h),
        parse_stb_header(old(source).bytes()) is None ==> r == Err::<StbOrStmHeader, DataError>(
            DataError::FormatError,
        ),
{
    let ghost data = old(source).bytes();
    source.rewind();
    let magic = match source.read_u64() {
        Ok(x) => x,
        Err(e) => { return Err(DataError::FormatError) },
    };
    if magic != 0 {
        return Err(DataError::FormatError);
    }
    let entry_count = match source.read_u32() {
        Ok(x) => x,
        Err(e) => { return Err(DataError::FormatError) },
    };
    let field_count = match source.read_u32() {
        Ok(x) => x,
        Err(e) => { return Err(DataError::FormatError) },
    };
    let checksums_pointer = match source.read_u64() {
        Ok(x) => x,
        Err(e) => { return Err(DataError::FormatError) },
    };
    let data_pointer = match source.read_u64() {
        Ok(x) => x,
        Err(e) => { return Err(DataError::FormatError) },
    };
    let magic1 = match source.read_u32() {
        Ok(x) => x,
        Err(e) => { return Err(DataError::FormatError) },
    };
    let extra1_count = match source.read_u32() {
        Ok(x) => x,
        Err(e) => { return Err(DataError::FormatError) },
    };
    let extra1_pointer = match source.read_u64() {
        Ok(x) => x,
        Err(e) => { return Err(DataError::FormatError) },
    };
    let magic2 = match source.read_u32() {
        Ok(x) => x,
        Err(e) => { return Err(DataError::FormatError) },
    };
    let extra2_count = match source.read_u32() {
        Ok(x) => x,
        Err(e) => { return Err(DataError::FormatError) },
    };
    let extra2_pointer = match source.read_u64() {
        Ok(x) => x,
        Err(e) => { return Err(DataError::FormatError) },
    };
    if magic1 != 0 || magic2 != 0 {
        return Err(DataError::FormatError);
    }
    Ok(
        StbOrStmHeader {
            entry_count,
            field_count,
            checksums_pointer,
            data_pointer,
            extra1: StbOrStmHeaderExtra { extra_entry_count: extra1_count, pointer: extra1_pointer },
            extra2: StbOrStmHeaderExtra { extra_entry_count: extra2_count, pointer: extra2_pointer },
        },
    )
}


/// The number of cells the header declares: rows times columns.
pub open spec fn st_cell_count(h: StHeaderCommon) -> int {
    h.entry_count * h.field_count
}

/// The absolute offset of the `k`-th cell's string, read from the
/// row-major pointer table at `data_pointer`.
pub open spec fn st_string_pointer(data: Seq<u8>, h: StHeaderCommon, k: int) -> u64 {
    le64_at(data, h.data_pointer + 8 * k)
}

/// The raw bytes of the `k`-th cell: the zero-terminated string its table
/// pointer points at. `None` when the pointer table entry lies outside
/// the data or no zero byte follows the string's start.
pub open spec fn st_cell_bytes(data: Seq<u8>, h: StHeaderCommon, k: int) -> Option<Seq<u8>> {
    if h.data_pointer + 8 * (k + 1) <= data.len() {
        let p = st_string_pointer(data, h, k) as int;
        match find_nul(data, p) {
            Some(j) => Some(data.subrange(p, j)),
            None => None,
        }
    } else {
        None
    }
}

/// Reads the raw bytes of the cell at linear index `index`, reseeking
/// from scratch: no state is kept between cell reads.
pub fn read_st_cell_bytes(source: &mut ByteSource, header: &StHeaderCommon, index: u64) -> (r:
    Result<Vec<u8>, DataError>)
    ensures
        final(source).bytes() == old(source).bytes(),
        index >= st_cell_count(*header) ==> r == Err::<Vec<u8>, DataError>(DataError::OutOfBounds),
        index < st_cell_count(*header) ==> match st_cell_bytes(
            old(source).bytes(),
            *header,
            index as int,
        ) {
            Some(b) => r matches Ok(v) && v@ == b,
            None => r == Err::<Vec<u8>, DataError>(DataError::FormatError),
        },
{
    proof {
        assert((header.entry_count as u64) * (header.field_count as u64) <= u64::MAX) by (nonlinear_arith)
            requires
                header.entry_count <= 0xffff_ffffu64,
                header.field_count <= 0xffff_ffffu64,
        ;
    }
    let total: u64 = (header.entry_count as u64) * (header.field_count as u64);
    if index >= total {
        return Err(DataError::OutOfBounds);
    }
    let len: usize = source.len();
    if index >= 0x1fff_ffff_ffff_ffff {
        return Err(DataError::FormatError);
    }
    let off: u64 = 8 * index;
    if header.data_pointer > len as u64 || off + 8 > len as u64 - header.data_pointer {
        return Err(DataError::FormatError);
    }
    seek_absolute(source, header.data_pointer + off);
    let string_pointer = match source.read_u64() {
        Ok(x) => x,
        Err(e) => {
            assert(false);
            return Err(DataError::FormatError);
        },
    };
    seek_absolute(source, string_pointer);
    match source.read_nul_terminated() {
        Ok(v) => Ok(v),
        Err(e) => Err(DataError::FormatError),
    }
}

/// Reads and decodes the cell at `row` and `col`. The computed row and
/// column must lie inside the declared grid, else `OutOfBounds`; a decode
/// failure is local to this cell.
pub fn read_st_cell(source: &mut ByteSource, header: &StHeaderCommon, row: usize, col: usize) -> (r:
    Result<String, DataError>)
    ensures
        final(source).bytes() == old(source).bytes(),
        row >= header.entry_count || col >= header.field_count ==> r == Err::<String, DataError>(
            DataError::OutOfBounds,
        ),
        row < header.entry_count && col < header.field_count ==> match st_cell_bytes(
            old(source).bytes(),
            *header,
            row * header.field_count + col,
        ) {
            Some(b) => r matches Ok(s) && s@ == lossy_of(b),
            None => r == Err::<String, DataError>(DataError::FormatError),
        },
{
    if row as u64 >= header.entry_count as u64 || col as u64 >= header.field_count as u64 {
        return Err(DataError::OutOfBounds);
    }
    proof {
        assert((row as u64) * (header.field_count as u64) + (col as u64) < (header.entry_count
            as u64) * (header.field_count as u64) && (header.entry_count as u64)
            * (header.field_count as u64) <= u64::MAX) by (nonlinear_arith)
            requires
                (row as u64) < (header.entry_count as u64),
                (col as u64) < (header.field_count as u64),
                (header.entry_count as u64) <= 0xffff_ffff,
                (header.field_count as u64) <= 0xffff_ffff,
        ;
    }
    let k: u64 = (row as u64) * (header.field_count as u64) + (col as u64);
    match read_st_cell_bytes(source, header, k) {
        Ok(v) => Ok(lossy_utf8(v.as_slice())),
        Err(e) => Err(e),
    }
}


/// The common fields of a line-variant header.
pub open spec fn common_of_stl(h: StlHeader) -> StHeaderCommon {
    StHeaderCommon {
        entry_count: h.entry_count,
        field_count: h.field_count,
        data_pointer: h.data_pointer,
    }
}

/// The common fields of a block-variant header.
pub open spec fn common_of_stb(h: StbOrStmHeader) -> StHeaderCommon {
    StHeaderCommon {
        entry_count: h.entry_count,
        field_count: h.field_count,
        data_pointer: h.data_pointer,
    }
}

/// The common header fields at the start of `data`, decoding the shape
/// the caller asked for.
pub open spec fn st_header_spec(data: Seq<u8>, is_line_variant: bool) -> Option<StHeaderCommon> {
    if is_line_variant {
        match parse_stl_header(data) {
            Some(h) => Some(common_of_stl(h)),
            None => None,
        }
    } else {
        match parse_stb_header(data) {
            Some(h) => Some(common_of_stb(h)),
            None => None,
        }
    }
}

/// Reads the header shape named by `is_line_variant` from the start of
/// the source and keeps its common fields.
pub fn read_st_header(source: &mut ByteSource, is_line_variant: bool) -> (r: Result<
    StHeaderCommon,
    DataError,
>)
    ensures
        final(source).bytes() == old(source).bytes(),
        st_header_spec(old(source).bytes(), is_line_variant) matches Some(h) ==> r == Ok::<
            StHeaderCommon,
            DataError,
        >(h),
        st_header_spec(old(source).bytes(), is_line_variant) is None ==> r == Err::<
            StHeaderCommon,
            DataError,
        >(DataError::FormatError),
{
    if is_line_variant {
        match read_stl_header(source) {
            Ok(h) => Ok(StHeaderCommon::from(h)),
            Err(e) => Err(e),
        }
    } else {
        match read_stb_header(source) {
            Ok(h) => Ok(StHeaderCommon::from(h)),
            Err(e) => Err(e),
        }
    }
}

/// Every cell the header declares can be decoded from `data`.
pub open spec fn st_all_cells_ok(data: Seq<u8>, h: StHeaderCommon) -> bool {
    forall|k: int| 0 <= k < st_cell_count(h) ==> #[trigger] st_cell_bytes(data, h, k) is Some
}

/// A whole decoded tabular dataset: all cells in row-major order.
pub struct StReadOutcome {
    pub field_count: usize,
    pub strings: Vec<String>,
}

/// Decodes every cell of the dataset in row-major order. Fails with
/// `FormatError` when the header, the pointer table, or any cell is
/// malformed: no partial grid is exposed.
pub fn read_st(source: &mut ByteSource, is_line_variant: bool) -> (r: Result<
    StReadOutcome,
    DataError,
>)
    ensures
        final(source).bytes() == old(source).bytes(),
        st_header_spec(old(source).bytes(), is_line_variant) is None ==> r == Err::<
            StReadOutcome,
            DataError,
        >(DataError::FormatError),
        st_header_spec(old(source).bytes(), is_line_variant) matches Some(h) ==> {
            let data = old(source).bytes();
            &&& (st_cell_count(h) > usize::MAX || !st_all_cells_ok(data, h)) ==> r == Err::<
                StReadOutcome,
                DataError,
            >(DataError::FormatError)
            &&& (st_cell_count(h) <= usize::MAX && st_all_cells_ok(data, h)) ==> {
                &&& r matches Ok(o)
                &&& o.field_count == h.field_count
                &&& o.strings@.len() == st_cell_count(h)
                &&& forall|k: int|
                    0 <= k < st_cell_count(h) ==> (#[trigger] o.strings@[k])@ == lossy_of(
                        st_cell_bytes(data, h, k).unwrap(),
                    )
            }
        },
{
    let ghost data = old(source).bytes();
    let header = match read_st_header(source, is_line_variant) {
        Ok(h) => h,
        Err(e) => { return Err(DataError::FormatError) },
    };
    proof {
        assert((header.entry_count as u64) * (header.field_count as u64) <= u64::MAX
            && (header.entry_count as u64) * (header.field_count as u64) == st_cell_count(header))
            by (nonlinear_arith)
            requires
                (header.entry_count as u64) <= 0xffff_ffff,
                (header.field_count as u64) <= 0xffff_ffff,
        ;
    }
    let total: u64 = (header.entry_count as u64) * (header.field_count as u64);
    if total > usize::MAX as u64 {
        return Err(DataError::FormatError);
    }
    let mut strings: Vec<String> = Vec::new();
    let mut k: u64 = 0;
    while k < total
        invariant
            k <= total,
            source.bytes() == data,
            data == old(source).bytes(),
            Some(header) == st_header_spec(data, is_line_variant),
            total == st_cell_count(header),
            total <= usize::MAX,
            strings@.len() == k,
            forall|j: int| 0 <= j < k ==> #[trigger] st_cell_bytes(data, header, j) is Some,
            forall|j: int|
                0 <= j < k ==> (#[trigger] strings@[j])@ == lossy_of(
                    st_cell_bytes(data, header, j).unwrap(),
                ),
        decreases total - k,
    {
        match read_st_cell_bytes(source, &header, k) {
            Ok(v) => {
                strings.push(lossy_utf8(v.as_slice()));
            },
            Err(e) => {
                proof {
                    assert(st_cell_bytes(data, header, k as int) is None);
                    assert(!st_all_cells_ok(data, header));
                }
                return Err(DataError::FormatError);
            },
        }
        k = k + 1;
    }
    Ok(StReadOutcome { field_count: header.field_count as usize, strings })
}


/// Decodes the whole grid as `entry_count` rows of `field_count`
/// strings. Fails with `FormatError` exactly when some declared cell
/// cannot be decoded; no partial grid is exposed.
pub fn decode_all(source: &mut ByteSource, header: &StHeaderCommon) -> (r: Result<
    Vec<Vec<String>>,
    DataError,
>)
    ensures
        final(source).bytes() == old(source).bytes(),
        !st_all_cells_ok(old(source).bytes(), *header) ==> r == Err::<Vec<Vec<String>>, DataError>(
            DataError::FormatError,
        ),
        st_all_cells_ok(old(source).bytes(), *header) ==> {
            let data = old(source).bytes();
            &&& r matches Ok(rows)
            &&& rows@.len() == header.entry_count
            &&& forall|i: int| 0 <= i < rows@.len() ==> (#[trigger] rows@[i])@.len() == header.field_count
            &&& forall|i: int, j: int|
                0 <= i < rows@.len() && 0 <= j < header.field_count ==> (#[trigger] rows@[i]@[j])@
                    == lossy_of(st_cell_bytes(data, *header, i * header.field_count + j).unwrap())
        },
{
    let ghost data = old(source).bytes();
    let entry_count = header.entry_count;
    let field_count = header.field_count;
    let mut rows: Vec<Vec<String>> = Vec::new();
    let mut i: u32 = 0;
    while i < entry_count
        invariant
            i <= entry_count,
            entry_count == header.entry_count,
            field_count == header.field_count,
            source.bytes() == data,
            data == old(source).bytes(),
            rows@.len() == i,
            forall|i2: int| 0 <= i2 < i ==> (#[trigger] rows@[i2])@.len() == field_count,
            forall|k: int|
                0 <= k < i * field_count ==> #[trigger] st_cell_bytes(data, *header, k) is Some,
            forall|i2: int, j2: int|
                0 <= i2 < i && 0 <= j2 < field_count ==> (#[trigger] rows@[i2]@[j2])@ == lossy_of(
                    st_cell_bytes(data, *header, i2 * field_count + j2).unwrap(),
                ),
        decreases entry_count - i,
    {
        let mut row: Vec<String> = Vec::new();
        let mut j: u32 = 0;
        while j < field_count
            invariant
                i < entry_count,
                j <= field_count,
                entry_count == header.entry_count,
                field_count == header.field_count,
                source.bytes() == data,
                data == old(source).bytes(),
                row@.len() == j,
                forall|k: int|
                    0 <= k < i * field_count + j ==> #[trigger] st_cell_bytes(
                        data,
                        *header,
                        k,
                    ) is Some,
                forall|j2: int|
                    0 <= j2 < j ==> (#[trigger] row@[j2])@ == lossy_of(
                        st_cell_bytes(data, *header, i * field_count + j2).unwrap(),
                    ),
            decreases field_count - j,
        {
            proof {
                assert((i as int) * (field_count as int) + (j as int) < (entry_count as int) * (
                field_count as int) && (entry_count as int) * (field_count as int)
                    <= 0xffff_ffff_ffff_ffff) by (nonlinear_arith)
                    requires
                        (i as int) < (entry_count as int),
                        (j as int) < (field_count as int),
                        (entry_count as int) <= 0xffff_ffff,
                        (field_count as int) <= 0xffff_ffff,
                ;
            }
            let k: u64 = (i as u64) * (field_count as u64) + (j as u64);
            match read_st_cell_bytes(source, header, k) {
                Ok(v) => {
                    row.push(lossy_utf8(v.as_slice()));
                },
                Err(e) => {
                    proof {
                        assert(st_cell_bytes(data, *header, k as int) is None);
                        assert(!st_all_cells_ok(data, *header));
                    }
                    return Err(DataError::FormatError);
                },
            }
            j = j + 1;
        }
        rows.push(row);
        proof {
            assert((i as int) * (field_count as int) + (field_count as int) == ((i as int) + 1) * (
            field_count as int)) by (nonlinear_arith);
        }
        i = i + 1;
    }
    proof {
        assert(st_all_cells_ok(data, *header)) by {
            assert(forall|k: int|
                0 <= k < st_cell_count(*header) ==> #[trigger] st_cell_bytes(
                    data,
                    *header,
                    k,
                ) is Some);
        }
    }
    Ok(rows)
}

} // verus!
