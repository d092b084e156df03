use excavator::formats::FileType;

#[test]
fn lib_known_extensions() {
    let examples = vec![
        ("cool/file.pak", FileType::Pak),
        ("cool/file.stb", FileType::StmOrStb),
        ("cool/file.stm", FileType::StmOrStb),
        ("cool/file.stl", FileType::Stl),
    ];

    for example in examples {
        assert_eq!(FileType::from_path(example.0), example.1);
    }
}

#[test]
fn lib_unknown_extensions() {
    let examples = vec!["cool/file", "file.lfdlfkdjflkdf", "file.blp"];

    for example in examples {
        assert_eq!(FileType::from_path(example), FileType::Unknown);
    }
}

#[test]
fn formats_known_extensions() {
    let examples = vec![
        (Some("pak"), FileType::Pak),
        (Some("stb"), FileType::StmOrStb),
        (Some("stm"), FileType::StmOrStb),
        (Some("stl"), FileType::Stl),
    ];

    for example in examples {
        assert_eq!(FileType::from_extension(example.0), example.1);
    }
}

#[test]
fn formats_unknown_extensions() {
    let examples = vec![None, Some("lfdlfkdjflkdf"), Some("blp")];

    for example in examples {
        assert_eq!(FileType::from_extension(example), FileType::Unknown);
    }
}

#[test]
fn extension_edge_cases() {
    // A hidden file's leading dot starts no extension.
    assert_eq!(FileType::from_path(".pak"), FileType::Unknown);
    // The extension comes from the file name, not a directory name.
    assert_eq!(FileType::from_path("dir.pak/file"), FileType::Unknown);
    assert_eq!(FileType::from_path("dir.stl/file.pak"), FileType::Pak);
    // Backslash separates as well.
    assert_eq!(FileType::from_path("dir\\file.stl"), FileType::Stl);
    assert_eq!(FileType::from_path(""), FileType::Unknown);
}
