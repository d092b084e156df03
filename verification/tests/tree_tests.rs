use excavator::cache::AsyncCache;
use excavator::error::DataError;
use excavator::location::{FsItemKind, ItemInfo};
use excavator::natural::natural_compare;
use excavator::tree::{
    sort_entries, ChildListing, ExpandHandler, FileTree, NodeKind, TreeChildren, TreeNode,
};

fn dir_node(path: &str) -> TreeNode {
    TreeNode::new(
        ItemInfo::Fs {
            path: path.to_string(),
            kind: FsItemKind::Directory,
        },
        NodeKind::FsDirectory,
    )
}

fn fs_child(path: &str) -> (ItemInfo, NodeKind) {
    (
        ItemInfo::Fs {
            path: path.to_string(),
            kind: FsItemKind::File,
        },
        NodeKind::FsFile,
    )
}

fn child_names(node: &TreeNode) -> Vec<String> {
    node.children_snapshot()
        .unwrap()
        .iter()
        .map(|c| c.location.file_name_lossy().unwrap())
        .collect()
}

#[test]
fn natural_order_of_numbered_names() {
    assert!(natural_compare(b"file1", b"file2") < 0);
    assert!(natural_compare(b"file2", b"file10") < 0);
    assert!(natural_compare(b"file10", b"file2") > 0);
    assert!(natural_compare(b"file2", b"FILE2") == 0);
    assert!(natural_compare(b"file002", b"file2") == 0);
    assert!(natural_compare(b"file", b"file1") < 0);
}

#[test]
fn siblings_sort_naturally() {
    let listing: ChildListing = vec![fs_child("d/file2"), fs_child("d/file10"), fs_child("d/file1")];
    let sorted = sort_entries(listing);
    let names: Vec<String> = sorted
        .iter()
        .map(|e| e.0.file_name_lossy().unwrap())
        .collect();
    assert_eq!(
        names,
        vec![
            "file1".to_string(),
            "file2".to_string(),
            "file10".to_string()
        ]
    );
}

#[test]
fn equal_keys_keep_listing_order() {
    // "FILE2" and "file2" compare equal case-insensitively, and "file02"
    // carries the same numeric value: all three keep their given order.
    let listing: ChildListing = vec![
        fs_child("a/FILE2"),
        fs_child("b/file2"),
        fs_child("c/file02"),
        fs_child("d/file1"),
    ];
    let sorted = sort_entries(listing);
    let outers: Vec<String> = sorted.iter().map(|e| e.0.outer_path().clone()).collect();
    assert_eq!(
        outers,
        vec![
            "d/file1".to_string(),
            "a/FILE2".to_string(),
            "b/file2".to_string(),
            "c/file02".to_string()
        ]
    );
}

#[test]
fn expansion_loads_sorted_children() {
    let mut cache: AsyncCache<ChildListing> = AsyncCache::new();
    let mut node = dir_node("root");
    // The first drive starts the directory producer.
    assert_eq!(node.handle_load(&mut cache), Some(ExpandHandler::Directory));
    assert!(matches!(node.children, TreeChildren::Loading));
    // Before completion the node keeps loading, and no second production
    // starts.
    assert_eq!(node.handle_load(&mut cache), None);
    assert!(matches!(node.children, TreeChildren::Loading));
    // Completion materializes one child per pair, in natural order.
    cache.fulfill(
        &node.location.duplicate(),
        Ok(vec![fs_child("root/file2"), fs_child("root/file10"), fs_child("root/file1")]),
    );
    assert_eq!(node.handle_load(&mut cache), None);
    assert_eq!(
        child_names(&node),
        vec![
            "file1".to_string(),
            "file2".to_string(),
            "file10".to_string()
        ]
    );
    for child in node.children_snapshot().unwrap() {
        assert!(matches!(child.children, TreeChildren::Unloaded));
    }
}

#[test]
fn failed_directory_load_is_terminal() {
    let mut cache: AsyncCache<ChildListing> = AsyncCache::new();
    let mut node = dir_node("root");
    assert_eq!(node.handle_load(&mut cache), Some(ExpandHandler::Directory));
    cache.fulfill(
        &node.location.duplicate(),
        Err(DataError::IoError("permission denied".to_string())),
    );
    assert_eq!(node.handle_load(&mut cache), None);
    match &node.children {
        TreeChildren::Failed(message) => assert_eq!(message, "permission denied"),
        _ => panic!("node should have failed"),
    }
    // A further poll does not retry: the failure stays.
    assert_eq!(node.handle_load(&mut cache), None);
    assert!(matches!(node.children, TreeChildren::Failed(_)));
}

#[test]
fn only_directories_and_archives_expand() {
    let mut cache: AsyncCache<ChildListing> = AsyncCache::new();
    assert_eq!(dir_node("d").expand_handler(), Some(ExpandHandler::Directory));
    let pak = TreeNode::new(
        ItemInfo::Fs {
            path: "d/data.pak".to_string(),
            kind: FsItemKind::File,
        },
        NodeKind::FsFile,
    );
    assert_eq!(pak.expand_handler(), Some(ExpandHandler::PakArchive));
    let plain = TreeNode::new(
        ItemInfo::Fs {
            path: "d/data.stl".to_string(),
            kind: FsItemKind::File,
        },
        NodeKind::FsFile,
    );
    assert_eq!(plain.expand_handler(), None);
    let mut inner = TreeNode::new(
        ItemInfo::Pak {
            outer_path: "d/data.pak".to_string(),
            inner_path: b"nested.pak".to_vec(),
        },
        NodeKind::ArchivedFile,
    );
    // Archive entries never expand further, archive-named or not.
    assert_eq!(inner.expand_handler(), None);
    assert_eq!(inner.handle_load(&mut cache), None);
    assert!(matches!(inner.children, TreeChildren::Unloaded));
}

#[test]
fn root_replacement_keeps_same_path() {
    let mut tree = FileTree::default();
    assert!(tree.root.is_none());
    tree.set_root_from_path("top".to_string());
    // Drive the root to a loaded state, then ask for the same path: the
    // loaded tree stays.
    let mut cache: AsyncCache<ChildListing> = AsyncCache::new();
    let root = tree.root.as_mut().unwrap();
    root.handle_load(&mut cache);
    cache.fulfill(&root.location.duplicate(), Ok(vec![]));
    root.handle_load(&mut cache);
    assert!(matches!(root.children, TreeChildren::Loaded(_)));
    tree.set_root_from_path_if_different("top".to_string());
    assert!(matches!(
        tree.root.as_ref().unwrap().children,
        TreeChildren::Loaded(_)
    ));
    // A different path replaces the root with a fresh unloaded node.
    tree.set_root_from_path_if_different("other".to_string());
    assert!(matches!(
        tree.root.as_ref().unwrap().children,
        TreeChildren::Unloaded
    ));
}
