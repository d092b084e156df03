//! Item locations: an item either lives directly on the filesystem or
//! inside an archive. Equality is structural, and every consumer handles
//! both cases by exhaustive matching.

use vstd::prelude::*;
use vstd::string::StringSliceAdditionalSpecFns;

use crate::formats;
use crate::text::{lossy_of, lossy_utf8};

verus! {

/// How a filesystem entry is classified for browsing.
#[derive(Clone, Copy, Debug, Eq, Hash, PartialEq, Structural)]
pub enum FsItemKind {
    Directory,
    File,
    Other,
}

/// A finer filesystem classification reported by directory listings.
#[derive(Clone, Copy, Debug, Eq, Hash, PartialEq, Structural)]
pub enum FsItemType {
    Dir,
    File,
    Symlink,
    Other,
}

/// One entry of a directory listing.
#[derive(Clone, Debug)]
pub struct FsItem {
    pub path: String,
    pub item_type: FsItemType,
}

/// Where an item lives. An archive entry names the archive file it lives
/// in and its raw byte-string name inside the archive; archives do not
/// nest.
#[derive(Clone, Debug, Eq, Hash, PartialEq)]
pub enum ItemInfo {
    Fs { path: String, kind: FsItemKind },
    Pak { outer_path: String, inner_path: Vec<u8> },
}

/// The mathematical value of a location: the contents of its paths and
/// names, with the container values abstracted away.
pub enum ItemInfoV {
    Fs { path: Seq<char>, kind: FsItemKind },
    Pak { outer_path: Seq<char>, inner_path: Seq<u8> },
}

impl View for ItemInfo {
    type V = ItemInfoV;

    open spec fn view(&self) -> ItemInfoV {
        match self {
            ItemInfo::Fs { path, kind } => ItemInfoV::Fs { path: path@, kind: *kind },
            ItemInfo::Pak { outer_path, inner_path } => ItemInfoV::Pak {
                outer_path: outer_path@,
                inner_path: inner_path@,
            },
        }
    }
}

/// Structural equality of two locations: they hold the same contents.
pub open spec fn loc_eq(a: ItemInfo, b: ItemInfo) -> bool {
    a@ == b@
}

/// Whether two locations name the same item.
pub fn item_info_eq(a: &ItemInfo, b: &ItemInfo) -> (r: bool)
    ensures
        r == loc_eq(*a, *b),
{
    match (a, b) {
        (ItemInfo::Fs { path: pa, kind: ka }, ItemInfo::Fs { path: pb, kind: kb }) => {
            let kinds_match = match (ka, kb) {
                (FsItemKind::Directory, FsItemKind::Directory) => true,
                (FsItemKind::File, FsItemKind::File) => true,
                (FsItemKind::Other, FsItemKind::Other) => true,
                _ => false,
            };
            kinds_match && pa.eq(pb)
        },
        (
            ItemInfo::Pak { outer_path: oa, inner_path: ia },
            ItemInfo::Pak { outer_path: ob, inner_path: ib },
        ) => oa.eq(ob) && crate::util_binary::bytes_eq(
            ia.as_slice(),
            ib.as_slice(),
        ),
        _ => false,
    }
}

/// The bytes a location is displayed and ordered by: for a filesystem
/// item the file name of its path; for an archive entry its whole inner
/// name.
pub open spec fn display_key_of(v: ItemInfoV) -> Seq<u8> {
    match v {
        ItemInfoV::Fs { path, kind } => formats::path_file_name(vstd::utf8::encode_utf8(path)),
        ItemInfoV::Pak { outer_path, inner_path } => inner_path,
    }
}

/// The display key of a location value.
pub open spec fn display_key(loc: ItemInfo) -> Seq<u8> {
    display_key_of(loc@)
}

/// The extension a location is classified by: the extension of its
/// display key's file name. Archive-internal names use the same
/// separators as paths.
pub open spec fn spec_extension(loc: ItemInfo) -> Option<Seq<u8>> {
    formats::extension_of(formats::path_file_name(display_key(loc)))
}

impl ItemInfo {
    /// The display-key bytes of this location.
    pub fn display_key_bytes(&self) -> (r: Vec<u8>)
        ensures
            r@ == display_key(*self),
    {
        match self {
            ItemInfo::Fs { path, kind } => {
                let bytes = path.as_str().as_bytes();
                let len = bytes.len();
                let mut start: usize = len;
                while start > 0
                    invariant
                        start <= len,
                        len == bytes@.len(),
                        forall|j: int| start <= j < len ==> !formats::is_path_sep(bytes@[j]),
                    ensures
                        start <= len,
                        forall|j: int| start <= j < len ==> !formats::is_path_sep(bytes@[j]),
                        start == 0 || formats::is_path_sep(bytes@[start - 1]),
                    decreases start,
                {
                    let b = *vstd::slice::slice_index_get(bytes, start - 1);
                    if b == 47 || b == 92 {
                        break ;
                    }
                    start = start - 1;
                }
                proof {
                    formats::lemma_file_name_suffix(bytes@, start as int);
                }
                vstd::slice::slice_to_vec(vstd::slice::slice_subrange(bytes, start, len))
            },
            ItemInfo::Pak { outer_path, inner_path } => {
                let mut v: Vec<u8> = Vec::new();
                let n = inner_path.len();
                let mut i: usize = 0;
                while i < n
                    invariant
                        i <= n,
                        n == inner_path@.len(),
                        v@ == inner_path@.subrange(0, i as int),
                    decreases n - i,
                {
                    v.push(inner_path[i]);
                    assert(v@ =~= inner_path@.subrange(0, i + 1));
                    i = i + 1;
                }
                proof {
                    assert(v@ =~= inner_path@);
                }
                v
            },
        }
    }

    /// The name this item is shown under, decoded lossily; `None` when
    /// the display key is empty, as for a path that ends in a separator.
    pub fn file_name_lossy(&self) -> (r: Option<String>)
        ensures
            display_key(*self).len() == 0 ==> r is None,
            display_key(*self).len() != 0 ==> (r matches Some(s) && s@ == lossy_of(
                display_key(*self),
            )),
    {
        let key = self.display_key_bytes();
        if key.len() == 0 {
            None
        } else {
            Some(lossy_utf8(key.as_slice()))
        }
    }

    /// The extension of the item's name, as raw bytes.
    pub fn extension(&self) -> (r: Option<Vec<u8>>)
        ensures
            match spec_extension(*self) {
                Some(e) => r matches Some(v) && v@ == e,
                None => r is None,
            },
    {
        let key = self.display_key_bytes();
        let bytes = key.as_slice();
        let len = bytes.len();
        let mut start: usize = len;
        while start > 0
            invariant
                start <= len,
                len == bytes@.len(),
                forall|j: int| start <= j < len ==> !formats::is_path_sep(bytes@[j]),
            ensures
                start <= len,
                forall|j: int| start <= j < len ==> !formats::is_path_sep(bytes@[j]),
                start == 0 || formats::is_path_sep(bytes@[start - 1]),
            decreases start,
        {
            let b = *vstd::slice::slice_index_get(bytes, start - 1);
            if b == 47 || b == 92 {
                break ;
            }
            start = start - 1;
        }
        proof {
            formats::lemma_file_name_suffix(bytes@, start as int);
        }
        let ghost name = bytes@.subrange(start as int, len as int);
        let mut dot: usize = len;
        while dot > start
            invariant
                start <= dot <= len,
                len == bytes@.len(),
                forall|j: int| dot <= j < len ==> bytes@[j] != 46,
            ensures
                start <= dot <= len,
                forall|j: int| dot <= j < len ==> bytes@[j] != 46,
                dot == start || bytes@[dot - 1] == 46,
            decreases dot,
        {
            let b = *vstd::slice::slice_index_get(bytes, dot - 1);
            if b == 46 {
                break ;
            }
            dot = dot - 1;
        }
        if dot == start || dot == start + 1 {
            proof {
                formats::lemma_extension_none(name);
            }
            return None;
        }
        proof {
            assert(bytes@[dot - 1] == 46);
            formats::lemma_extension_suffix(name, dot - 1 - start);
            assert(name.subrange(dot - start, name.len() as int) =~= bytes@.subrange(
                dot as int,
                len as int,
            ));
        }
        Some(vstd::slice::slice_to_vec(vstd::slice::slice_subrange(bytes, dot, len)))
    }

    /// A copy of this location that names the same item.
    pub fn duplicate(&self) -> (r: ItemInfo)
        ensures
            r@ == self@,
    {
        match self {
            ItemInfo::Fs { path, kind } => ItemInfo::Fs { path: path.clone(), kind: *kind },
            ItemInfo::Pak { outer_path, inner_path } => {
                let inner = vstd::slice::slice_to_vec(inner_path.as_slice());
                ItemInfo::Pak { outer_path: outer_path.clone(), inner_path: inner }
            },
        }
    }

    /// Whether this item is a plain file rather than a directory or
    /// anything else; every archive entry is a file.
    pub fn is_file(&self) -> (r: bool)
        ensures
            r == match *self {
                ItemInfo::Fs { path, kind } => kind == FsItemKind::File,
                ItemInfo::Pak { .. } => true,
            },
    {
        match self {
            ItemInfo::Fs { path, kind } => matches!(kind, FsItemKind::File),
            ItemInfo::Pak { .. } => true,
        }
    }

    /// The filesystem path that backs this item: for an archive entry,
    /// the archive file's path.
    pub fn outer_path(&self) -> (r: &String)
        ensures
            r@ == match *self {
                ItemInfo::Fs { path, kind } => path@,
                ItemInfo::Pak { outer_path, inner_path } => outer_path@,
            },
    {
        match self {
            ItemInfo::Fs { path, .. } => path,
            ItemInfo::Pak { outer_path, .. } => outer_path,
        }
    }
}

} // verus!
