//! Classifying files by extension. The tabular formats are told apart
//! from each other and from archives by the file name alone: no reliable
//! in-file discriminator exists.

use vstd::prelude::*;
use vstd::string::StringSliceAdditionalSpecFns;

verus! {

/// The file formats the data-access layer understands.
#[derive(Clone, Copy, Debug, PartialEq, Eq, Structural)]
pub enum FileType {
    Unknown,
    Pak,
    StmOrStb,
    Stl,
}

/// A path separator byte: either slash, as both kinds occur in paths and
/// in archive-internal names.
pub open spec fn is_path_sep(b: u8) -> bool {
    b == 47 || b == 92
}

/// The file name of a path: the suffix after the last path separator.
pub open spec fn path_file_name(s: Seq<u8>) -> Seq<u8>
    decreases s.len(),
{
    if s.len() == 0 {
        s
    } else if is_path_sep(s[s.len() - 1]) {
        Seq::empty()
    } else {
        path_file_name(s.drop_last()).push(s[s.len() - 1])
    }
}

/// The extension of a file name: the suffix after the last dot, provided
/// some dot stands after the name's first byte. A name without a dot, or
/// whose only dot begins it, has no extension.
pub open spec fn extension_of(name: Seq<u8>) -> Option<Seq<u8>>
    decreases name.len(),
{
    if name.len() <= 1 {
        None
    } else if name[name.len() - 1] == 46 {
        Some(Seq::empty())
    } else {
        match extension_of(name.drop_last()) {
            Some(e) => Some(e.push(name[name.len() - 1])),
            None => None,
        }
    }
}

/// The format an extension names.
pub open spec fn file_type_of_extension(ext: Option<Seq<u8>>) -> FileType {
    match ext {
        Some(e) => {
            if e == seq![112u8, 97u8, 107u8] {  // "pak"
                FileType::Pak
            } else if e == seq![115u8, 116u8, 109u8] || e == seq![115u8, 116u8, 98u8] {  // "stm", "stb"
                FileType::StmOrStb
            } else if e == seq![115u8, 116u8, 108u8] {  // "stl"
                FileType::Stl
            } else {
                FileType::Unknown
            }
        },
        None => FileType::Unknown,
    }
}

/// The format a whole path names, by its file name's extension.
pub open spec fn file_type_of_path(s: Seq<u8>) -> FileType {
    file_type_of_extension(extension_of(path_file_name(s)))
}

/// A zero-separator suffix beginning right after a separator (or at the
/// start) is the path's file name.
pub proof fn lemma_file_name_suffix(s: Seq<u8>, i: int)
    requires
        0 <= i <= s.len(),
        forall|j: int| i <= j < s.len() ==> !is_path_sep(s[j]),
        i == 0 || is_path_sep(s[i - 1]),
    ensures
        path_file_name(s) == s.subrange(i, s.len() as int),
    decreases s.len(),
{
    if s.len() == 0 {
        assert(path_file_name(s) =~= s.subrange(i, s.len() as int));
    } else if i == s.len() {
        assert(is_path_sep(s[s.len() - 1]));
        assert(path_file_name(s) =~= s.subrange(i, s.len() as int));
    } else {
        assert(!is_path_sep(s[s.len() - 1]));
        lemma_file_name_suffix(s.drop_last(), i);
        assert(s.drop_last().subrange(i, s.len() - 1) =~= s.subrange(i, s.len() - 1));
        assert(s.subrange(i, s.len() - 1).push(s[s.len() - 1]) =~= s.subrange(i, s.len() as int));
    }
}

/// A name whose bytes after the first hold no dot has no extension.
pub proof fn lemma_extension_none(name: Seq<u8>)
    requires
        forall|j: int| 1 <= j < name.len() ==> name[j] != 46,
    ensures
        extension_of(name) is None,
    decreases name.len(),
{
    if name.len() > 1 {
        lemma_extension_none(name.drop_last());
    }
}

/// The suffix after the last dot is the extension, when that dot stands
/// after the name's first byte.
pub proof fn lemma_extension_suffix(name: Seq<u8>, d: int)
    requires
        1 <= d < name.len(),
        name[d] == 46,
        forall|j: int| d < j < name.len() ==> name[j] != 46,
    ensures
        extension_of(name) == Some(name.subrange(d + 1, name.len() as int)),
    decreases name.len(),
{
    if d == name.len() - 1 {
        assert(extension_of(name) == Some(Seq::<u8>::empty()));
        assert(name.subrange(d + 1, name.len() as int) =~= Seq::<u8>::empty());
    } else {
        assert(name[name.len() - 1] != 46);
        lemma_extension_suffix(name.drop_last(), d);
        assert(name.drop_last().subrange(d + 1, name.len() - 1) =~= name.subrange(
            d + 1,
            name.len() - 1,
        ));
        assert(name.subrange(d + 1, name.len() - 1).push(name[name.len() - 1]) =~= name.subrange(
            d + 1,
            name.len() as int,
        ));
    }
}

impl FileType {
    /// Classifies an already-extracted extension.
    pub fn from_extension(ext: Option<&str>) -> (r: FileType)
        ensures
            r == file_type_of_extension(
                match ext {
                    Some(e) => Some(e.spec_bytes()),
                    None => None,
                },
            ),
    {
        match ext {
            None => FileType::Unknown,
            Some(e) => Self::classify_extension_bytes(e.as_bytes()),
        }
    }

    /// Classifies extension bytes.
    fn classify_extension_bytes(ext: &[u8]) -> (r: FileType)
        ensures
            r == file_type_of_extension(Some(ext@)),
    {
        let pak: [u8; 3] = [112, 97, 107];
        let stm: [u8; 3] = [115, 116, 109];
        let stb: [u8; 3] = [115, 116, 98];
        let stl: [u8; 3] = [115, 116, 108];
        if crate::util_binary::bytes_eq(ext, pak.as_slice()) {
            proof {
                assert(pak@ =~= seq![112u8, 97u8, 107u8]);
            }
            FileType::Pak
        } else if crate::util_binary::bytes_eq(ext, stm.as_slice()) || crate::util_binary::bytes_eq(
            ext,
            stb.as_slice(),
        ) {
            proof {
                assert(stm@ =~= seq![115u8, 116u8, 109u8]);
                assert(stb@ =~= seq![115u8, 116u8, 98u8]);
            }
            FileType::StmOrStb
        } else if crate::util_binary::bytes_eq(ext, stl.as_slice()) {
            proof {
                assert(stl@ =~= seq![115u8, 116u8, 108u8]);
            }
            FileType::Stl
        } else {
            proof {
                assert(pak@ =~= seq![112u8, 97u8, 107u8]);
                assert(stm@ =~= seq![115u8, 116u8, 109u8]);
                assert(stb@ =~= seq![115u8, 116u8, 98u8]);
                assert(stl@ =~= seq![115u8, 116u8, 108u8]);
            }
            FileType::Unknown
        }
    }

    /// Classifies a path by its file name's extension.
    pub fn from_path(path: &str) -> (r: FileType)
        ensures
            r == file_type_of_path(path.spec_bytes()),
    {
        let bytes = path.as_bytes();
        let len = bytes.len();

        let mut start: usize = len;
        while start > 0
            invariant
                start <= len,
                len == bytes@.len(),
                forall|j: int| start <= j < len ==> !is_path_sep(bytes@[j]),
            ensures
                start <= len,
                len == bytes@.len(),
                forall|j: int| start <= j < len ==> !is_path_sep(bytes@[j]),
                start == 0 || is_path_sep(bytes@[start - 1]),
            decreases start,
        {
            let b = *vstd::slice::slice_index_get(bytes, start - 1);
            if b == 47 || b == 92 {
                break ;
            }
            start = start - 1;
        }
        proof {
            lemma_file_name_suffix(bytes@, start as int);
        }
        let ghost name = bytes@.subrange(start as int, len as int);

        let mut dot: usize = len;
        while dot > start
            invariant
                start <= dot <= len,
                len == bytes@.len(),
                forall|j: int| dot <= j < len ==> bytes@[j] != 46,
            ensures
                start <= dot <= len,
                len == bytes@.len(),
                forall|j: int| dot <= j < len ==> bytes@[j] != 46,
                dot == start || bytes@[dot - 1] == 46,
            decreases dot,
        {
            let b = *vstd::slice::slice_index_get(bytes, dot - 1);
            if b == 46 {
                break ;
            }
            dot = dot - 1;
        }
        if dot == start || dot == start + 1 {
            proof {
                lemma_extension_none(name);
            }
            return FileType::Unknown;
        }
        proof {
            assert(bytes@[dot - 1] == 46);
            lemma_extension_suffix(name, dot - 1 - start);
            assert(name.subrange(dot - start, name.len() as int) =~= bytes@.subrange(
                dot as int,
                len as int,
            ));
        }
        let ext = vstd::slice::slice_subrange(bytes, dot, len);
        Self::classify_extension_bytes(ext)
    }
}

} // verus!
