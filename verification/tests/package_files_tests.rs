use meow::package_files::{file_paths, mtree_file_paths, mtree_is_supported, EntryKind, MtreeEntry};

const MTREE: &str = "#mtree
/set type=file uid=0 gid=0 mode=644
./.BUILDINFO time=1664539577.0 size=4896 md5digest=0c3b39e7a3a1f6e2c0b7a2f1b9b0a6d4
./.PKGINFO time=1664539577.0 size=1132
/set mode=755
./usr time=1664539577.0 type=dir
./usr/bin time=1664539577.0 type=dir
./usr/bin/pacman time=1664539577.0 size=123456
./usr/bin/vercmp time=1664539577.0 type=link link=pacman
";

#[test]
fn file_list_holds_non_directories() {
    let entries = vec![
        MtreeEntry { path: "/.BUILDINFO".to_string(), kind: Some(EntryKind::File) },
        MtreeEntry { path: "/usr".to_string(), kind: Some(EntryKind::Directory) },
        MtreeEntry { path: "/usr/bin/bash".to_string(), kind: Some(EntryKind::File) },
        MtreeEntry { path: "/usr/bin".to_string(), kind: Some(EntryKind::Directory) },
        MtreeEntry { path: "/usr/bin/sh".to_string(), kind: Some(EntryKind::SymbolicLink) },
    ];
    assert_eq!(
        file_paths(&entries),
        vec!["/.BUILDINFO".to_string(), "/usr/bin/bash".to_string(), "/usr/bin/sh".to_string()]
    );
    assert!(file_paths(&vec![]).is_empty());
}

#[test]
fn package_mtree_file_list() {
    assert!(mtree_is_supported(MTREE.as_bytes()));
    assert_eq!(
        mtree_file_paths(MTREE.as_bytes()),
        Some(vec![
            "./.BUILDINFO".to_string(),
            "./.PKGINFO".to_string(),
            "./usr/bin/pacman".to_string(),
            "./usr/bin/vercmp".to_string(),
        ])
    );
}

#[test]
fn mtree_without_types_or_unreadable() {
    // An entry without a type gives no list.
    let text = b"./usr/bin/pacman size=1\n";
    assert!(mtree_is_supported(text));
    assert_eq!(mtree_file_paths(text), None);
    // An unknown special command does not read.
    let text = b"/frob type=file\n./a type=file\n";
    assert!(mtree_is_supported(text));
    assert_eq!(mtree_file_paths(text), None);
    assert_eq!(mtree_file_paths(b""), Some(vec![]));
}

#[test]
fn unsupported_mtree_lines() {
    // Relative entries depend on the working directory.
    assert!(!mtree_is_supported(b"bin type=dir\n"));
    assert!(!mtree_is_supported(b"/set type=file\nfile type=file\n"));
    // `/unset` is not implemented by the crate.
    assert!(!mtree_is_supported(b"/unset all\n"));
    assert!(!mtree_is_supported(b"  /unset\n"));
    // A time the system clock cannot hold.
    assert!(!mtree_is_supported(b"./a time=18446744073709551615.0 type=file\n"));
    assert!(!mtree_is_supported(b"./a time=9223372036854775807.1000000000 type=file\n"));
    assert!(mtree_is_supported(b"./a time=9223372036854775807.999999999 type=file\n"));
    // A time whose seconds do not fit does not parse.
    assert!(!mtree_is_supported(b"./a time=18446744073709551616.0 type=file\n"));
    // Blank lines, comments and `..` are fine.
    assert!(mtree_is_supported(b"\n   \n# bin\n..\n./x type=file"));
    assert!(mtree_is_supported(b"/set type=dir\n/unsetx\n"));
}

#[test]
fn mtree_keywords_must_parse() {
    let sha = "ab".repeat(32);
    let line = format!(
        "./usr/bin/x type=file mode=0755 size=12 uid=0 gid=0 time=1690000000.5 md5digest={} \
         sha256digest={} link=y nochange ignore=1 device=linux,1,2 uname=root\n",
        "0F".repeat(16),
        sha
    );
    assert!(mtree_is_supported(line.as_bytes()));
    assert_eq!(mtree_file_paths(line.as_bytes()), Some(vec!["./usr/bin/x".to_string()]));
    assert!(mtree_is_supported(b"/set type=file mode=644\n./a\n"));
    // Unknown keys, and values that do not read as their key asks.
    assert!(!mtree_is_supported(b"./usr/bin/x bogus\n"));
    assert!(!mtree_is_supported(b"/set bogus=1\n"));
    assert!(!mtree_is_supported(b"./a size=abc\n"));
    assert!(!mtree_is_supported(b"./a size=18446744073709551616\n"));
    assert!(!mtree_is_supported(b"./a mode=999\n"));
    assert!(!mtree_is_supported(b"./a mode=75\n"));
    assert!(!mtree_is_supported(b"./a type=weird\n"));
    assert!(!mtree_is_supported(b"./a contents\n"));
    assert!(!mtree_is_supported(b"./a device=foo,1,2\n"));
    assert!(!mtree_is_supported(b"./a device=linux,1\n"));
    assert!(!mtree_is_supported(b"./a time=12\n"));
    assert!(!mtree_is_supported(format!("./a sha256digest={}\n", &sha[1..]).as_bytes()));
    assert!(!mtree_is_supported(b"./a md5=zz\n"));
}
