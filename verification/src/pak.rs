//! The archive ("pak") index: a name → location table built once per
//! archive, plus extraction of a named sub-file's bytes.
//!
//! Byte layout, little-endian:
//! - header: 4 reserved zero bytes; `file_count: u32`;
//!   `data_table_offset: u64`; `name_table_offset: u64`;
//! - data table: `file_count` 64-bit absolute offsets;
//! - name table: `file_count` 64-bit absolute offsets, each pointing at a
//!   zero-terminated byte string;
//! - at each data offset a 32-byte per-file header: `file_size: u64` and
//!   three reserved 64-bit fields; the file's bytes follow immediately.

use vstd::prelude::*;

use crate::error::DataError;
use crate::util_binary::{le32_at, le64_at, find_nul, ByteSource};
use crate::util_binary::{read_pile_o_pointers, seek_absolute};

verus! {

/// Where one archived file's bytes lie inside the archive.
#[derive(Clone, Copy, Debug, PartialEq, Eq, Structural)]
pub struct PakIndexFileEntry {
    /// Absolute offset of the first content byte.
    pub data_start: u64,
    /// Number of content bytes.
    pub data_length: u64,
}

/// The name → location table of one archive, in table order.
///
/// Names are raw byte strings: the format assumes no encoding, and names
/// are only decoded lossily for display. The index does not enforce name
/// uniqueness; lookup returns the first match.
#[derive(Clone, Debug)]
pub struct PakIndex {
    pub files: Vec<(Vec<u8>, PakIndexFileEntry)>,
}

/// The archive header is present and its reserved bytes are zero.
pub open spec fn pak_header_wf(data: Seq<u8>) -> bool {
    &&& data.len() >= 24
    &&& le32_at(data, 0) == 0
}

/// The number of files the header declares.
pub open spec fn pak_file_count(data: Seq<u8>) -> u32 {
    le32_at(data, 4)
}

/// Absolute offset of the table of data pointers.
pub open spec fn pak_data_table_offset(data: Seq<u8>) -> u64 {
    le64_at(data, 8)
}

/// Absolute offset of the table of name pointers.
pub open spec fn pak_name_table_offset(data: Seq<u8>) -> u64 {
    le64_at(data, 16)
}

/// The `i`-th entry of the data-pointer table.
pub open spec fn pak_data_pointer(data: Seq<u8>, i: int) -> u64 {
    le64_at(data, pak_data_table_offset(data) + 8 * i)
}

/// The `i`-th entry of the name-pointer table.
pub open spec fn pak_name_pointer(data: Seq<u8>, i: int) -> u64 {
    le64_at(data, pak_name_table_offset(data) + 8 * i)
}

/// The whole archive structure is well formed: header magic, both pointer
/// tables in bounds, every name zero-terminated, and every per-file
/// header in bounds. Content ranges are deliberately not checked here;
/// they are checked at extraction time.
pub open spec fn pak_wf(data: Seq<u8>) -> bool {
    let n = pak_file_count(data) as int;
    &&& pak_header_wf(data)
    &&& pak_data_table_offset(data) + 8 * n <= data.len()
    &&& pak_name_table_offset(data) + 8 * n <= data.len()
    &&& forall|i: int| 0 <= i < n ==> find_nul(data, #[trigger] pak_name_pointer(data, i) as int) is Some
    &&& forall|i: int| 0 <= i < n ==> #[trigger] pak_data_pointer(data, i) + 32 <= data.len()
}

/// The `i`-th file's name: the bytes from its name pointer up to (not
/// including) the first zero byte.
pub open spec fn pak_name_at(data: Seq<u8>, i: int) -> Seq<u8> {
    let start = pak_name_pointer(data, i) as int;
    data.subrange(start, find_nul(data, start).unwrap())
}

/// The `i`-th file's location: its bytes begin right after the 32-byte
/// per-file header, and their length is the header's `file_size` field.
pub open spec fn pak_entry_at(data: Seq<u8>, i: int) -> PakIndexFileEntry {
    PakIndexFileEntry {
        data_start: (pak_data_pointer(data, i) + 32) as u64,
        data_length: le64_at(data, pak_data_pointer(data, i) as int),
    }
}

impl PakIndex {
    /// Builds the index over a whole archive. Any malformed structure
    /// aborts the build: no partial index is ever exposed.
    pub fn create_index(source: &mut ByteSource) -> (r: Result<PakIndex, DataError>)
        ensures
            final(source).bytes() == old(source).bytes(),
            pak_wf(old(source).bytes()) ==> {
                let data = old(source).bytes();
                &&& r matches Ok(idx)
                &&& idx.files@.len() == pak_file_count(data) as int
                &&& forall|i: int|
                    0 <= i < idx.files@.len() ==> (#[trigger] idx.files@[i]).0@ == pak_name_at(
                        data,
                        i,
                    ) && idx.files@[i].1 == pak_entry_at(data, i)
            },
            !pak_wf(old(source).bytes()) ==> r == Err::<PakIndex, DataError>(
                DataError::FormatError,
            ),
    {
        let ghost data = old(source).bytes();
        source.rewind();
        let reserved = match source.read_u32() {
            Ok(x) => x,
            Err(e) => { return Err(DataError::FormatError) },
        };
        if reserved != 0 {
            return Err(DataError::FormatError);
        }
        let file_count = match source.read_u32() {
            Ok(x) => x,
            Err(e) => { return Err(DataError::FormatError) },
        };
        let data_table_offset = match source.read_u64() {
            Ok(x) => x,
            Err(e) => { return Err(DataError::FormatError) },
        };
        let name_table_offset = match source.read_u64() {
            Ok(x) => x,
            Err(e) => { return Err(DataError::FormatError) },
        };
        let count = file_count as usize;

        seek_absolute(source, data_table_offset);
        let data_pointers = match read_pile_o_pointers(source, count) {
            Ok(v) => v,
            Err(e) => { return Err(DataError::FormatError) },
        };
        seek_absolute(source, name_table_offset);
        let name_pointers = match read_pile_o_pointers(source, count) {
            Ok(v) => v,
            Err(e) => { return Err(DataError::FormatError) },
        };

        let mut file_names: Vec<Vec<u8>> = Vec::new();
        let mut i: usize = 0;
        while i < count
            invariant
                i <= count,
                count == pak_file_count(data) as int,
                source.bytes() == data,
                data == old(source).bytes(),
                pak_header_wf(data),
                pak_name_table_offset(data) + 8 * count <= data.len(),
                name_pointers@.len() == count,
                forall|j: int| 0 <= j < count ==> name_pointers@[j] == pak_name_pointer(data, j),
                file_names@.len() == i,
                forall|j: int|
                    0 <= j < i ==> find_nul(data, pak_name_pointer(data, j) as int) is Some,
                forall|j: int| 0 <= j < i ==> (#[trigger] file_names@[j])@ == pak_name_at(data, j),
            decreases count - i,
        {
            seek_absolute(source, name_pointers[i]);
            let name = match source.read_nul_terminated() {
                Ok(v) => v,
                Err(e) => {
                    proof {
                        assert(find_nul(data, pak_name_pointer(data, i as int) as int) is None);
                        assert(!pak_wf(data));
                    }
                    return Err(DataError::FormatError);
                },
            };
            file_names.push(name);
            i = i + 1;
        }

        let mut entries: Vec<PakIndexFileEntry> = Vec::new();
        let mut i: usize = 0;
        while i < count
            invariant
                i <= count,
                count == pak_file_count(data) as int,
                source.bytes() == data,
                data == old(source).bytes(),
                pak_header_wf(data),
                pak_data_table_offset(data) + 8 * count <= data.len(),
                pak_name_table_offset(data) + 8 * count <= data.len(),
                forall|j: int|
                    0 <= j < count ==> find_nul(
                        data,
                        #[trigger] pak_name_pointer(data, j) as int,
                    ) is Some,
                file_names@.len() == count,
                forall|j: int| 0 <= j < count ==> (#[trigger] file_names@[j])@ == pak_name_at(data, j),
                data_pointers@.len() == count,
                forall|j: int| 0 <= j < count ==> data_pointers@[j] == pak_data_pointer(data, j),
                entries@.len() == i,
                forall|j: int| 0 <= j < i ==> #[trigger] pak_data_pointer(data, j) + 32 <= data.len(),
                forall|j: int| 0 <= j < i ==> entries@[j] == pak_entry_at(data, j),
            decreases count - i,
        {
            seek_absolute(source, data_pointers[i]);
            let file_size = match source.read_u64() {
                Ok(x) => x,
                Err(e) => {
                    proof {
                        assert(pak_data_pointer(data, i as int) + 32 > data.len());
                        assert(!pak_wf(data));
                    }
                    return Err(DataError::FormatError);
                },
            };
            let reserved_tail = match source.read_exact(24) {
                Ok(v) => v,
                Err(e) => {
                    proof {
                        assert(pak_data_pointer(data, i as int) + 32 > data.len());
                        assert(!pak_wf(data));
                    }
                    return Err(DataError::FormatError);
                },
            };
            let data_start = source.stream_position();
            entries.push(PakIndexFileEntry { data_start, data_length: file_size });
            i = i + 1;
        }

        let ghost all_names = file_names@;
        let mut files: Vec<(Vec<u8>, PakIndexFileEntry)> = Vec::new();
        let mut i: usize = 0;
        while i < count
            invariant
                i <= count,
                count == pak_file_count(data) as int,
                source.bytes() == data,
                data == old(source).bytes(),
                pak_header_wf(data),
                pak_data_table_offset(data) + 8 * count <= data.len(),
                pak_name_table_offset(data) + 8 * count <= data.len(),
                forall|j: int|
                    0 <= j < count ==> find_nul(
                        data,
                        #[trigger] pak_name_pointer(data, j) as int,
                    ) is Some,
                forall|j: int| 0 <= j < count ==> #[trigger] pak_data_pointer(data, j) + 32 <= data.len(),
                count == all_names.len(),
                count == entries@.len(),
                forall|j: int| 0 <= j < count ==> (#[trigger] all_names[j])@ == pak_name_at(data, j),
                forall|j: int| 0 <= j < count ==> entries@[j] == pak_entry_at(data, j),
                file_names@ == all_names.subrange(i as int, count as int),
                files@.len() == i,
                forall|j: int|
                    0 <= j < i ==> (#[trigger] files@[j]).0 == all_names[j] && files@[j].1
                        == entries@[j],
            decreases count - i,
        {
            let name = file_names.remove(0);
            let entry = entries[i];
            assert(file_names@ =~= all_names.subrange(i + 1, count as int));
            files.push((name, entry));
            i = i + 1;
        }
        Ok(PakIndex { files })
    }
}

/// The index the archive describes, as name/location pairs in table order.
pub open spec fn pak_index_model(data: Seq<u8>) -> Seq<(Seq<u8>, PakIndexFileEntry)> {
    Seq::new(pak_file_count(data) as nat, |i: int| (pak_name_at(data, i), pak_entry_at(data, i)))
}

/// The first entry whose name equals `name`, scanning in table order.
pub open spec fn lookup_spec(pairs: Seq<(Seq<u8>, PakIndexFileEntry)>, name: Seq<u8>) -> Option<
    PakIndexFileEntry,
>
    decreases pairs.len(),
{
    if pairs.len() == 0 {
        None
    } else if pairs[0].0 == name {
        Some(pairs[0].1)
    } else {
        lookup_spec(pairs.drop_first(), name)
    }
}

/// A first-match scan may skip any prefix holding no match.
proof fn lemma_lookup_advance(pairs: Seq<(Seq<u8>, PakIndexFileEntry)>, name: Seq<u8>, i: int)
    requires
        0 <= i <= pairs.len(),
        forall|j: int| 0 <= j < i ==> (#[trigger] pairs[j]).0 != name,
    ensures
        lookup_spec(pairs, name) == lookup_spec(pairs.skip(i), name),
    decreases i,
{
    if i > 0 {
        assert(pairs[0].0 != name);
        lemma_lookup_advance(pairs.drop_first(), name, i - 1);
        assert(pairs.drop_first().skip(i - 1) =~= pairs.skip(i));
    } else {
        assert(pairs.skip(0) =~= pairs);
    }
}

/// Every name present in the index is found: looking up the name of any
/// entry yields some entry stored under exactly that name.
pub proof fn lemma_lookup_finds_present(
    pairs: Seq<(Seq<u8>, PakIndexFileEntry)>,
    name: Seq<u8>,
    i: int,
)
    requires
        0 <= i < pairs.len(),
        pairs[i].0 == name,
    ensures
        lookup_spec(pairs, name) matches Some(e) && exists|j: int|
            0 <= j < pairs.len() && (#[trigger] pairs[j]).0 == name && pairs[j].1 == e,
    decreases pairs.len(),
{
    if pairs[0].0 == name {
        assert(pairs[0].0 == name && pairs[0].1 == lookup_spec(pairs, name).unwrap());
    } else {
        assert(i > 0);
        lemma_lookup_finds_present(pairs.drop_first(), name, i - 1);
        let e = lookup_spec(pairs.drop_first(), name).unwrap();
        let j = choose|j: int|
            0 <= j < pairs.drop_first().len() && (#[trigger] pairs.drop_first()[j]).0 == name
                && pairs.drop_first()[j].1 == e;
        assert(pairs[j + 1].0 == name && pairs[j + 1].1 == e);
    }
}

/// Over a well-formed archive, looking up any name the archive holds
/// succeeds.
pub proof fn lemma_index_finds_all_names(data: Seq<u8>)
    requires
        pak_wf(data),
    ensures
        forall|i: int|
            0 <= i < pak_file_count(data) ==> lookup_spec(
                pak_index_model(data),
                #[trigger] pak_name_at(data, i),
            ) is Some,
{
    assert forall|i: int| 0 <= i < pak_file_count(data) implies lookup_spec(
        pak_index_model(data),
        #[trigger] pak_name_at(data, i),
    ) is Some by {
        lemma_lookup_finds_present(pak_index_model(data), pak_name_at(data, i), i);
    }
}

impl PakIndex {
    /// The name/location pairs this index holds, as mathematical values.
    pub open spec fn model(&self) -> Seq<(Seq<u8>, PakIndexFileEntry)> {
        Seq::new(self.files@.len(), |i: int| (self.files@[i].0@, self.files@[i].1))
    }

    /// The stored location for an exact byte-string name; the first match
    /// in table order, or `None` when the name is absent.
    pub fn lookup(&self, name: &[u8]) -> (r: Option<PakIndexFileEntry>)
        ensures
            r == lookup_spec(self.model(), name@),
    {
        let n = self.files.len();
        let mut i: usize = 0;
        while i < n
            invariant
                i <= n,
                n == self.files@.len(),
                forall|j: int| 0 <= j < i ==> (#[trigger] self.model()[j]).0 != name@,
            decreases n - i,
        {
            if crate::util_binary::bytes_eq(self.files[i].0.as_slice(), name) {
                proof {
                    lemma_lookup_advance(self.model(), name@, i as int);
                    assert(self.model().skip(i as int)[0] == self.model()[i as int]);
                }
                return Some(self.files[i].1);
            }
            i = i + 1;
        }
        proof {
            lemma_lookup_advance(self.model(), name@, n as int);
        }
        None
    }
}

/// Reads one archived file's bytes out of the archive: exactly
/// `data_length` bytes starting at `data_start`. Fails with `OutOfBounds`
/// exactly when that range exceeds the archive's length.
pub fn read_whole_file(file_entry: &PakIndexFileEntry, source: &mut ByteSource) -> (r: Result<
    Vec<u8>,
    DataError,
>)
    ensures
        final(source).bytes() == old(source).bytes(),
        file_entry.data_start + file_entry.data_length <= old(source).bytes().len() ==> {
            &&& r matches Ok(v) && v@ == old(source).bytes().subrange(
                file_entry.data_start as int,
                file_entry.data_start + file_entry.data_length,
            )
        },
        file_entry.data_start + file_entry.data_length > old(source).bytes().len() ==> r == Err::<
            Vec<u8>,
            DataError,
        >(DataError::OutOfBounds),
{
    let len = source.len();
    if file_entry.data_start > len as u64 || file_entry.data_length > len as u64
        - file_entry.data_start {
        return Err(DataError::OutOfBounds);
    }
    seek_absolute(source, file_entry.data_start);
    match source.read_exact(file_entry.data_length as usize) {
        Ok(v) => Ok(v),
        Err(_) => {
            assert(false);
            Err(DataError::OutOfBounds)
        },
    }
}

/// Looks one named file up inside a whole archive held in memory and
/// returns its bytes. Fails with `FormatError` when the archive is
/// malformed, `NotFound` when no entry bears the name, and `OutOfBounds`
/// when the entry's range exceeds the archive.
pub fn slice_file_from_pak(data: Vec<u8>, inner_path: &[u8]) -> (r: Result<Vec<u8>, DataError>)
    ensures
        !pak_wf(data@) ==> r == Err::<Vec<u8>, DataError>(DataError::FormatError),
        pak_wf(data@) ==> match lookup_spec(pak_index_model(data@), inner_path@) {
            None => r == Err::<Vec<u8>, DataError>(DataError::NotFound),
            Some(e) => {
                &&& e.data_start + e.data_length <= data@.len() ==> {
                    &&& r matches Ok(v) && v@ == data@.subrange(
                        e.data_start as int,
                        e.data_start + e.data_length,
                    )
                }
                &&& e.data_start + e.data_length > data@.len() ==> r == Err::<Vec<u8>, DataError>(
                    DataError::OutOfBounds,
                )
            },
        },
{
    let ghost gdata = data@;
    let mut source = ByteSource::new(data);
    let index = match PakIndex::create_index(&mut source) {
        Ok(idx) => idx,
        Err(e) => { return Err(DataError::FormatError) },
    };
    proof {
        assert(index.model() =~= pak_index_model(gdata));
    }
    match index.lookup(inner_path) {
        None => Err(DataError::NotFound),
        Some(entry) => read_whole_file(&entry, &mut source),
    }
}

} // verus!
