use excavator::location::{item_info_eq, FsItem, FsItemKind, FsItemType, ItemInfo};

fn fs(path: &str, kind: FsItemKind) -> ItemInfo {
    ItemInfo::Fs {
        path: path.to_string(),
        kind,
    }
}

fn pak(outer: &str, inner: &[u8]) -> ItemInfo {
    ItemInfo::Pak {
        outer_path: outer.to_string(),
        inner_path: inner.to_vec(),
    }
}

#[test]
fn file_names_are_last_components() {
    assert_eq!(
        fs("a/b/c.stl", FsItemKind::File).file_name_lossy(),
        Some("c.stl".to_string())
    );
    assert_eq!(
        fs("plain", FsItemKind::File).file_name_lossy(),
        Some("plain".to_string())
    );
    assert_eq!(fs("dir/", FsItemKind::Directory).file_name_lossy(), None);
    assert_eq!(
        pak("d.pak", b"sub/inner.stb").file_name_lossy(),
        Some("sub/inner.stb".to_string())
    );
}

#[test]
fn lossy_decoding_replaces_invalid_bytes() {
    // The invalid byte cannot pass through unchanged; it becomes the
    // replacement character.
    let name = pak("d.pak", b"bad\xFFname").file_name_lossy().unwrap();
    assert_eq!(name, "bad\u{FFFD}name");
}

#[test]
fn extensions_come_from_file_names() {
    assert_eq!(
        fs("a/b.stl", FsItemKind::File).extension(),
        Some(b"stl".to_vec())
    );
    assert_eq!(fs("a/b", FsItemKind::File).extension(), None);
    assert_eq!(fs("a.stl/b", FsItemKind::File).extension(), None);
    assert_eq!(fs("a/.stl", FsItemKind::File).extension(), None);
    assert_eq!(
        pak("d.pak", b"sub/inner.stb").extension(),
        Some(b"stb".to_vec())
    );
}

#[test]
fn file_classification() {
    assert!(fs("a", FsItemKind::File).is_file());
    assert!(!fs("a", FsItemKind::Directory).is_file());
    assert!(!fs("a", FsItemKind::Other).is_file());
    assert!(pak("d.pak", b"x").is_file());
}

#[test]
fn outer_paths() {
    assert_eq!(fs("a/b", FsItemKind::File).outer_path(), "a/b");
    assert_eq!(pak("d.pak", b"x").outer_path(), "d.pak");
}

#[test]
fn location_equality_is_structural() {
    let a = fs("a/b", FsItemKind::File);
    assert!(item_info_eq(&a, &a.duplicate()));
    assert!(!item_info_eq(&a, &fs("a/b", FsItemKind::Directory)));
    assert!(!item_info_eq(&a, &fs("a/c", FsItemKind::File)));
    assert!(!item_info_eq(&a, &pak("a/b", b"x")));
    let p = pak("d.pak", b"x");
    assert!(item_info_eq(&p, &p.duplicate()));
    assert!(!item_info_eq(&p, &pak("d.pak", b"y")));
}

#[test]
fn listing_entry_holds_classification() {
    let item = FsItem {
        path: "a/b".to_string(),
        item_type: FsItemType::Symlink,
    };
    assert_eq!(item.item_type, FsItemType::Symlink);
    assert_ne!(item.item_type, FsItemType::Dir);
    assert_eq!(item.path, "a/b");
}
