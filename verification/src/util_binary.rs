//! General functions used for parsing binary formats: an in-memory
//! seekable byte source, fixed-width little-endian reads, and pointer
//! tables of absolute offsets.

use vstd::prelude::*;

use crate::error::DataError;

verus! {

/// The little-endian 32-bit value stored at `pos` in `data`.
pub open spec fn le32_at(data: Seq<u8>, pos: int) -> u32 {
    vstd::bytes::spec_u32_from_le_bytes(data.subrange(pos, pos + 4))
}

/// The little-endian 64-bit value stored at `pos` in `data`.
pub open spec fn le64_at(data: Seq<u8>, pos: int) -> u64 {
    vstd::bytes::spec_u64_from_le_bytes(data.subrange(pos, pos + 8))
}

/// A read-only, randomly seekable byte source held in memory.
///
/// The position may be seeked past the end of the data; any read that
/// would run past the end fails with `FormatError` and leaves the
/// position unchanged.
pub struct ByteSource {
    data: Vec<u8>,
    pos: u64,
}

impl ByteSource {
    /// The bytes this source reads from.
    pub closed spec fn bytes(&self) -> Seq<u8> {
        self.data@
    }

    /// The current read position.
    pub closed spec fn position(&self) -> u64 {
        self.pos
    }

    pub fn new(data: Vec<u8>) -> (s: Self)
        ensures
            s.bytes() == data@,
            s.position() == 0,
    {
        ByteSource { data, pos: 0 }
    }

    pub fn len(&self) -> (n: usize)
        ensures
            n == self.bytes().len(),
    {
        self.data.len()
    }

    pub fn stream_position(&self) -> (p: u64)
        ensures
            p == self.position(),
    {
        self.pos
    }

    pub fn rewind(&mut self)
        ensures
            final(self).bytes() == old(self).bytes(),
            final(self).position() == 0,
    {
        self.pos = 0;
    }

    /// Reads exactly `n` bytes at the current position, advancing past them.
    pub fn read_exact(&mut self, n: usize) -> (r: Result<Vec<u8>, DataError>)
        ensures
            final(self).bytes() == old(self).bytes(),
            old(self).position() + n <= old(self).bytes().len() ==> {
                &&& r matches Ok(v) && v@ == old(self).bytes().subrange(
                    old(self).position() as int,
                    old(self).position() + n,
                )
                &&& final(self).position() == old(self).position() + n
            },
            old(self).position() + n > old(self).bytes().len() ==> {
                &&& r == Err::<Vec<u8>, DataError>(DataError::FormatError)
                &&& final(self).position() == old(self).position()
            },
    {
        let len: usize = self.data.len();
        if self.pos > len as u64 {
            return Err(DataError::FormatError);
        }
        if n as u64 > len as u64 - self.pos {
            return Err(DataError::FormatError);
        }
        let start: usize = self.pos as usize;
        let mut v: Vec<u8> = Vec::new();
        let mut i: usize = 0;
        while i < n
            invariant
                i <= n,
                start + n <= self.data.len(),
                v@ == self.data@.subrange(start as int, start + i),
            decreases n - i,
        {
            v.push(self.data[start + i]);
            assert(v@ =~= self.data@.subrange(start as int, start + i + 1));
            i = i + 1;
        }
        self.pos = self.pos + n as u64;
        Ok(v)
    }

    /// Reads one little-endian unsigned 32-bit integer.
    pub fn read_u32(&mut self) -> (r: Result<u32, DataError>)
        ensures
            final(self).bytes() == old(self).bytes(),
            old(self).position() + 4 <= old(self).bytes().len() ==> {
                &&& r matches Ok(x) && x == le32_at(old(self).bytes(), old(self).position() as int)
                &&& final(self).position() == old(self).position() + 4
            },
            old(self).position() + 4 > old(self).bytes().len() ==> {
                &&& r == Err::<u32, DataError>(DataError::FormatError)
                &&& final(self).position() == old(self).position()
            },
    {
        match self.read_exact(4) {
            Ok(v) => Ok(vstd::bytes::u32_from_le_bytes(v.as_slice())),
            Err(e) => Err(e),
        }
    }

    /// Reads one little-endian unsigned 64-bit integer.
    pub fn read_u64(&mut self) -> (r: Result<u64, DataError>)
        ensures
            final(self).bytes() == old(self).bytes(),
            old(self).position() + 8 <= old(self).bytes().len() ==> {
                &&& r matches Ok(x) && x == le64_at(old(self).bytes(), old(self).position() as int)
                &&& final(self).position() == old(self).position() + 8
            },
            old(self).position() + 8 > old(self).bytes().len() ==> {
                &&& r == Err::<u64, DataError>(DataError::FormatError)
                &&& final(self).position() == old(self).position()
            },
    {
        match self.read_exact(8) {
            Ok(v) => Ok(vstd::bytes::u64_from_le_bytes(v.as_slice())),
            Err(e) => Err(e),
        }
    }
}

/// The position of the first zero byte at or after `pos`, if any.
pub open spec fn find_nul(data: Seq<u8>, pos: int) -> Option<int>
    decreases data.len() - pos,
{
    if pos < 0 || pos >= data.len() {
        None
    } else if data[pos] == 0 {
        Some(pos)
    } else {
        find_nul(data, pos + 1)
    }
}

/// Scanning for a zero byte may start anywhere inside a zero-free prefix.
pub proof fn lemma_find_nul_advance(data: Seq<u8>, p: int, i: int)
    requires
        0 <= p <= i <= data.len(),
        forall|j: int| p <= j < i ==> data[j] != 0,
    ensures
        find_nul(data, p) == find_nul(data, i),
    decreases i - p,
{
    if p < i {
        assert(data[p] != 0);
        lemma_find_nul_advance(data, p + 1, i);
    }
}

impl ByteSource {
    /// Reads bytes up to (not including) the next zero byte, and advances
    /// past that zero byte. Fails with `FormatError` when no zero byte
    /// remains, leaving the position unchanged.
    pub fn read_nul_terminated(&mut self) -> (r: Result<Vec<u8>, DataError>)
        ensures
            final(self).bytes() == old(self).bytes(),
            match find_nul(old(self).bytes(), old(self).position() as int) {
                Some(j) => {
                    &&& r matches Ok(v) && v@ == old(self).bytes().subrange(
                        old(self).position() as int,
                        j,
                    )
                    &&& final(self).position() == j + 1
                },
                None => {
                    &&& r == Err::<Vec<u8>, DataError>(DataError::FormatError)
                    &&& final(self).position() == old(self).position()
                },
            },
    {
        let len: usize = self.data.len();
        if self.pos >= len as u64 {
            return Err(DataError::FormatError);
        }
        let start: usize = self.pos as usize;
        let mut i: usize = start;
        let mut v: Vec<u8> = Vec::new();
        while i < len
            invariant
                start <= i <= len,
                len == self.data.len(),
                self.data@ == old(self).bytes(),
                self.pos == old(self).position(),
                start as int == old(self).position() as int,
                v@ == self.data@.subrange(start as int, i as int),
                forall|j: int| start <= j < i ==> self.data@[j] != 0,
            decreases len - i,
        {
            let b = self.data[i];
            if b == 0 {
                proof {
                    lemma_find_nul_advance(self.data@, start as int, i as int);
                }
                self.pos = (i + 1) as u64;
                return Ok(v);
            }
            v.push(b);
            assert(v@ =~= self.data@.subrange(start as int, i + 1));
            i = i + 1;
        }
        proof {
            lemma_find_nul_advance(self.data@, start as int, len as int);
        }
        Err(DataError::FormatError)
    }
}

/// Reads `count` little-endian 64-bit absolute offsets at the current
/// position; fails with `FormatError` when fewer bytes remain.
pub fn read_pile_o_pointers(source: &mut ByteSource, count: usize) -> (r: Result<
    Vec<u64>,
    DataError,
>)
    ensures
        final(source).bytes() == old(source).bytes(),
        old(source).position() + 8 * count <= old(source).bytes().len() ==> {
            &&& r matches Ok(v)
            &&& v@.len() == count
            &&& forall|i: int|
                0 <= i < count ==> v@[i] == le64_at(
                    old(source).bytes(),
                    old(source).position() + 8 * i,
                )
            &&& final(source).position() == old(source).position() + 8 * count
        },
        old(source).position() + 8 * count > old(source).bytes().len() ==> {
            &&& r == Err::<Vec<u64>, DataError>(DataError::FormatError)
            &&& final(source).position() == old(source).position()
        },
{
    let len: usize = source.len();
    if count as u64 > 0x1fff_ffff_ffff_ffff {
        return Err(DataError::FormatError);
    }
    let pos0 = source.stream_position();
    if pos0 > len as u64 || (count as u64) * 8 > len as u64 - pos0 {
        return Err(DataError::FormatError);
    }
    let mut v: Vec<u64> = Vec::new();
    let mut i: usize = 0;
    while i < count
        invariant
            i <= count,
            source.bytes() == old(source).bytes(),
            source.bytes().len() == len,
            pos0 + 8 * count <= len,
            source.position() == pos0 + 8 * i,
            v@.len() == i,
            forall|j: int| 0 <= j < i ==> v@[j] == le64_at(source.bytes(), pos0 + 8 * j),
        decreases count - i,
    {
        match source.read_u64() {
            Ok(x) => {
                v.push(x);
            },
            Err(_) => {
                assert(false);
                return Err(DataError::FormatError);
            },
        }
        i = i + 1;
    }
    Ok(v)
}

/// Repositions the source to an absolute offset.
///
/// This helper exists so a buffered reader could keep its window when
/// the target lies inside it; on an in-memory source the observable
/// effect is simply setting the position.
pub fn seek_absolute(source: &mut ByteSource, position: u64)
    ensures
        final(source).bytes() == old(source).bytes(),
        final(source).position() == position,
{
    source.pos = position;
}

/// Whether two byte strings hold the same bytes.
pub fn bytes_eq(a: &[u8], b: &[u8]) -> (r: bool)
    ensures
        r == (a@ == b@),
{
    let n = a.len();
    if n != b.len() {
        assert(a@ != b@) by {
            assert(a@.len() != b@.len());
        }
        return false;
    }
    let mut i: usize = 0;
    while i < n
        invariant
            i <= n,
            n == a@.len() == b@.len(),
            forall|j: int| 0 <= j < i ==> a@[j] == b@[j],
        decreases n - i,
    {
        if *vstd::slice::slice_index_get(a, i) != *vstd::slice::slice_index_get(b, i) {
            return false;
        }
        i = i + 1;
    }
    proof {
        assert(a@ =~= b@);
    }
    true
}

/// The signed difference `lhs - rhs`, when it is representable in an `i64`.
pub fn u64_checked_signed_diff(lhs: u64, rhs: u64) -> (r: Option<i64>)
    ensures
        -0x8000_0000_0000_0000 <= lhs - rhs <= 0x7fff_ffff_ffff_ffff ==> (r matches Some(d) && d
            == lhs - rhs),
        lhs - rhs > 0x7fff_ffff_ffff_ffff ==> r is None,
        lhs - rhs < -0x8000_0000_0000_0000 ==> r is None,
{
    if lhs >= rhs {
        let d = lhs - rhs;
        if d <= 0x7fff_ffff_ffff_ffff {
            Some(d as i64)
        } else {
            None
        }
    } else {
        let d = rhs - lhs;
        if d < 0x8000_0000_0000_0000 {
            Some(-(d as i64))
        } else if d == 0x8000_0000_0000_0000 {
            Some(i64::MIN)
        } else {
            None
        }
    }
}

/// Why parsing a fixed-size in-memory structure failed.
#[derive(Clone, Copy, Debug, Eq, Hash, PartialEq, Structural)]
pub enum StructParserError {
    /// The end of the data was reached too early.
    UnexpectedEnd,
    /// There was still some data left when `finish` was called.
    LeftoverData,
}

/// A cursor over an in-memory byte slice for decoding fixed-size
/// structures field by field.
pub struct StructParser<'a> {
    data: &'a [u8],
}

impl<'a> StructParser<'a> {
    /// The bytes not yet consumed.
    pub closed spec fn remaining(&self) -> Seq<u8> {
        self.data@
    }

    pub fn new(data: &'a [u8]) -> (p: Self)
        ensures
            p.remaining() == data@,
    {
        StructParser { data }
    }

    /// Succeeds exactly when every byte has been consumed.
    pub fn finish(self) -> (r: Result<(), StructParserError>)
        ensures
            self.remaining().len() == 0 ==> r == Ok::<(), StructParserError>(()),
            self.remaining().len() != 0 ==> r == Err::<(), StructParserError>(
                StructParserError::LeftoverData,
            ),
    {
        if self.data.len() == 0 {
            Ok(())
        } else {
            Err(StructParserError::LeftoverData)
        }
    }

    /// Consumes and returns the next `n` bytes.
    pub fn read_bytes(&mut self, n: usize) -> (r: Result<&'a [u8], StructParserError>)
        ensures
            old(self).remaining().len() >= n ==> {
                &&& r matches Ok(b) && b@ == old(self).remaining().subrange(0, n as int)
                &&& final(self).remaining() == old(self).remaining().subrange(
                    n as int,
                    old(self).remaining().len() as int,
                )
            },
            old(self).remaining().len() < n ==> {
                &&& r == Err::<&'a [u8], StructParserError>(StructParserError::UnexpectedEnd)
                &&& final(self).remaining() == old(self).remaining()
            },
    {
        let len: usize = self.data.len();
        if len < n {
            return Err(StructParserError::UnexpectedEnd);
        }
        let head = vstd::slice::slice_subrange(self.data, 0, n);
        self.data = vstd::slice::slice_subrange(self.data, n, len);
        Ok(head)
    }

    /// Consumes one little-endian unsigned 32-bit integer.
    pub fn read_u32(&mut self) -> (r: Result<u32, StructParserError>)
        ensures
            old(self).remaining().len() >= 4 ==> {
                &&& r matches Ok(x) && x == le32_at(old(self).remaining(), 0)
                &&& final(self).remaining() == old(self).remaining().subrange(
                    4,
                    old(self).remaining().len() as int,
                )
            },
            old(self).remaining().len() < 4 ==> {
                &&& r == Err::<u32, StructParserError>(StructParserError::UnexpectedEnd)
                &&& final(self).remaining() == old(self).remaining()
            },
    {
        match self.read_bytes(4) {
            Ok(b) => Ok(vstd::bytes::u32_from_le_bytes(b)),
            Err(e) => Err(e),
        }
    }

    /// Consumes one little-endian unsigned 64-bit integer.
    pub fn read_u64(&mut self) -> (r: Result<u64, StructParserError>)
        ensures
            old(self).remaining().len() >= 8 ==> {
                &&& r matches Ok(x) && x == le64_at(old(self).remaining(), 0)
                &&& final(self).remaining() == old(self).remaining().subrange(
                    8,
                    old(self).remaining().len() as int,
                )
            },
            old(self).remaining().len() < 8 ==> {
                &&& r == Err::<u64, StructParserError>(StructParserError::UnexpectedEnd)
                &&& final(self).remaining() == old(self).remaining()
            },
    {
        match self.read_bytes(8) {
            Ok(b) => Ok(vstd::bytes::u64_from_le_bytes(b)),
            Err(e) => Err(e),
        }
    }
}

/// Holds when `func`, run over a parser covering `data`, can return `t`
/// while consuming the data exactly.
pub open spec fn parses_exactly<'a, T, F: FnOnce(StructParser<'a>) -> Result<
    (T, StructParser<'a>),
    StructParserError,
>>(data: Seq<u8>, func: F, t: T) -> bool {
    exists|p0: StructParser<'a>, p1: StructParser<'a>|
        {
            &&& p0.remaining() == data
            &&& #[trigger] call_ensures(func, (p0,), Ok((t, p1)))
            &&& p1.remaining().len() == 0
        }
}

/// Holds when `func`, run over a parser covering `data`, can fail with `e`.
pub open spec fn parse_fails_with<'a, T, F: FnOnce(StructParser<'a>) -> Result<
    (T, StructParser<'a>),
    StructParserError,
>>(data: Seq<u8>, func: F, e: StructParserError) -> bool {
    exists|p0: StructParser<'a>|
        p0.remaining() == data && #[trigger] call_ensures(func, (p0,), Err(e))
}

/// Holds when `func`, run over a parser covering `data`, can succeed
/// while leaving some bytes unconsumed.
pub open spec fn parse_leaves_data<'a, T, F: FnOnce(StructParser<'a>) -> Result<
    (T, StructParser<'a>),
    StructParserError,
>>(data: Seq<u8>, func: F) -> bool {
    exists|p0: StructParser<'a>, t: T, p1: StructParser<'a>|
        {
            &&& p0.remaining() == data
            &&& #[trigger] call_ensures(func, (p0,), Ok((t, p1)))
            &&& p1.remaining().len() != 0
        }
}

/// Runs `func` over a parser covering `data` and then checks that `func`
/// consumed the data exactly, failing with `LeftoverData` otherwise.
pub fn parse_struct<'a, T, F: FnOnce(StructParser<'a>) -> Result<
    (T, StructParser<'a>),
    StructParserError,
>>(data: &'a [u8], func: F) -> (r: Result<T, StructParserError>)
    requires
        forall|p: StructParser<'a>|
            p.remaining() == data@ ==> #[trigger] call_requires(func, (p,)),
    ensures
        r matches Ok(t) ==> parses_exactly(data@, func, t),
        r matches Err(e) ==> parse_fails_with::<T, F>(data@, func, e) || (e
            == StructParserError::LeftoverData && parse_leaves_data::<T, F>(data@, func)),
{
    let parser = StructParser::new(data);
    let ghost p0 = parser;
    match func(parser) {
        Ok((result, rest)) => {
            let ghost g1 = rest;
            match rest.finish() {
                Ok(()) => {
                    proof {
                        assert(call_ensures(
                            func,
                            (p0,),
                            Ok::<(T, StructParser<'a>), StructParserError>((result, g1)),
                        ));
                    }
                    Ok(result)
                },
                Err(e) => {
                    proof {
                        assert(call_ensures(
                            func,
                            (p0,),
                            Ok::<(T, StructParser<'a>), StructParserError>((result, g1)),
                        ));
                    }
                    Err(e)
                },
            }
        },
        Err(e) => {
            proof {
                assert(call_ensures(func, (p0,), Err::<(T, StructParser<'a>), StructParserError>(e)));
            }
            Err(e)
        },
    }
}

} // verus!
