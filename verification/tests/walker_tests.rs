use coswid_tree::assembler::{build_tag_bytes, TagMetadata};
use coswid_tree::model::HashAlg;
use coswid_tree::one_or_many::{collapse, OneOrMany};
use coswid_tree::store::{ByteStream, ChildEntry, DirNode, ErrorKind};
use coswid_tree::walker::walk_dir;

use sha2::{Digest, Sha256};

fn stream_of(content: &[u8]) -> ByteStream {
    ByteStream {
        chunks: vec![content.to_vec()],
        end: None,
    }
}

fn file_child(name: &str, content: &[u8]) -> ChildEntry {
    ChildEntry::File(name.to_string(), Ok(stream_of(content)))
}

fn empty_dir_child(name: &str) -> ChildEntry {
    ChildEntry::Subdir(
        name.to_string(),
        DirNode {
            entries: Vec::new(),
            end: None,
        },
    )
}

fn metadata() -> TagMetadata {
    TagMetadata {
        tag_id: "org.example.tree.stable".to_string(),
        tag_version: 0,
        software_name: "Example Tree".to_string(),
        software_version: Some("1.0".to_string()),
        entity_name: "Example Author".to_string(),
    }
}

#[test]
fn single_file_hello_yields_lone_file_entry() {
    let node = DirNode {
        entries: vec![file_child("hello.txt", b"hi")],
        end: None,
    };
    let root = walk_dir(String::new(), &node).unwrap();
    assert_eq!(root.fs_name, "");
    assert_eq!(root.root, "/");
    assert!(root.path_elements.directory.is_none());
    match &root.path_elements.file {
        Some(OneOrMany::One(f)) => {
            assert_eq!(f.fs_name, "hello.txt");
            assert_eq!(f.root, "/");
            assert!(f.size.is_none());
            assert!(f.file_version.is_none());
            assert!(matches!(f.hash.alg, HashAlg::Sha256));
            let expected = Sha256::digest(b"hi").to_vec();
            assert_eq!(f.hash.digest, expected);
        }
        other => panic!("expected a lone file entry, got {:?}", other.is_some()),
    }
}

#[test]
fn two_empty_subdirs_yield_ordered_list() {
    let node = DirNode {
        entries: vec![empty_dir_child("a"), empty_dir_child("b")],
        end: None,
    };
    let root = walk_dir(String::new(), &node).unwrap();
    assert!(root.path_elements.file.is_none());
    match &root.path_elements.directory {
        Some(OneOrMany::Many(dirs)) => {
            assert_eq!(dirs.len(), 2);
            assert_eq!(dirs[0].fs_name, "a");
            assert_eq!(dirs[1].fs_name, "b");
            assert!(dirs[0].path_elements.file.is_none());
            assert!(dirs[0].path_elements.directory.is_none());
            assert!(dirs[1].path_elements.file.is_none());
            assert!(dirs[1].path_elements.directory.is_none());
        }
        _ => panic!("expected an ordered list of two directory entries"),
    }
}

#[test]
fn cancellation_mid_enumeration_surfaces_at_top_level() {
    let inner = DirNode {
        entries: vec![file_child("kept.txt", b"data")],
        end: Some(ErrorKind::Cancelled),
    };
    let node = DirNode {
        entries: vec![file_child("before.txt", b"x"), ChildEntry::Subdir("sub".to_string(), inner)],
        end: None,
    };
    let r = build_tag_bytes(String::new(), &node, metadata());
    match r {
        Err(e) => {
            assert_eq!(e.kind, ErrorKind::Cancelled);
            assert_eq!(e.path, vec!["sub".to_string()]);
        }
        Ok(_) => panic!("cancellation must abort the whole build"),
    }
}

#[test]
fn symlinks_and_unknown_entries_are_dropped_without_failure() {
    let node = DirNode {
        entries: vec![
            ChildEntry::Symlink("link".to_string()),
            ChildEntry::Other("socket".to_string()),
        ],
        end: None,
    };
    let root = walk_dir(String::new(), &node).unwrap();
    assert!(root.path_elements.file.is_none());
    assert!(root.path_elements.directory.is_none());
}

#[test]
fn stream_failure_aborts_with_io_error_and_path() {
    let bad = ByteStream {
        chunks: vec![b"partial".to_vec()],
        end: Some(ErrorKind::Io),
    };
    let node = DirNode {
        entries: vec![ChildEntry::File("broken.bin".to_string(), Ok(bad))],
        end: None,
    };
    let e = walk_dir(String::new(), &node).unwrap_err();
    assert_eq!(e.kind, ErrorKind::Io);
    assert_eq!(e.path, vec!["broken.bin".to_string()]);
}

#[test]
fn missing_checksum_aborts_with_path() {
    let node = DirNode {
        entries: vec![ChildEntry::File(
            "orphan".to_string(),
            Err(ErrorKind::MissingChecksum),
        )],
        end: None,
    };
    let e = walk_dir(String::new(), &node).unwrap_err();
    assert_eq!(e.kind, ErrorKind::MissingChecksum);
    assert_eq!(e.path, vec!["orphan".to_string()]);
}

#[test]
fn not_found_fault_propagates_like_any_other() {
    let node = DirNode {
        entries: vec![ChildEntry::File(
            "gone".to_string(),
            Err(ErrorKind::NotFound),
        )],
        end: None,
    };
    let e = walk_dir(String::new(), &node).unwrap_err();
    assert_eq!(e.kind, ErrorKind::NotFound);
    assert_eq!(e.path, vec!["gone".to_string()]);
}

#[test]
fn enumeration_failure_at_root_has_empty_path() {
    let node = DirNode {
        entries: Vec::new(),
        end: Some(ErrorKind::Io),
    };
    let e = walk_dir(String::new(), &node).unwrap_err();
    assert_eq!(e.kind, ErrorKind::Io);
    assert!(e.path.is_empty());
}

#[test]
fn nested_error_path_lists_every_name() {
    let leaf = DirNode {
        entries: vec![ChildEntry::File("f".to_string(), Err(ErrorKind::Io))],
        end: None,
    };
    let mid = DirNode {
        entries: vec![ChildEntry::Subdir("inner".to_string(), leaf)],
        end: None,
    };
    let node = DirNode {
        entries: vec![ChildEntry::Subdir("outer".to_string(), mid)],
        end: None,
    };
    let e = walk_dir(String::new(), &node).unwrap_err();
    assert_eq!(e.kind, ErrorKind::Io);
    assert_eq!(
        e.path,
        vec!["outer".to_string(), "inner".to_string(), "f".to_string()]
    );
}

#[test]
fn collapse_follows_cardinality() {
    let zero: Option<OneOrMany<u64>> = collapse(Vec::new());
    assert!(zero.is_none());

    let one = collapse(vec![7u64]);
    assert!(matches!(one, Some(OneOrMany::One(7))));

    let many = collapse(vec![1u64, 2, 3]);
    match many {
        Some(OneOrMany::Many(v)) => assert_eq!(v, vec![1u64, 2, 3]),
        _ => panic!("three values must stay a list"),
    }
}

#[test]
fn chunked_stream_hashes_like_whole_content() {
    let chunked = ByteStream {
        chunks: vec![b"he".to_vec(), b"llo ".to_vec(), b"world".to_vec()],
        end: None,
    };
    let node = DirNode {
        entries: vec![ChildEntry::File("greeting".to_string(), Ok(chunked))],
        end: None,
    };
    let root = walk_dir(String::new(), &node).unwrap();
    match &root.path_elements.file {
        Some(OneOrMany::One(f)) => {
            assert_eq!(f.hash.digest, Sha256::digest(b"hello world").to_vec());
        }
        _ => panic!("expected a lone file entry"),
    }
}

#[test]
fn walk_preserves_discovery_order_unsorted() {
    let node = DirNode {
        entries: vec![
            file_child("zeta", b"z"),
            file_child("alpha", b"a"),
            file_child("mid", b"m"),
        ],
        end: None,
    };
    let root = walk_dir(String::new(), &node).unwrap();
    match &root.path_elements.file {
        Some(OneOrMany::Many(files)) => {
            let names: Vec<&str> = files.iter().map(|f| f.fs_name.as_str()).collect();
            assert_eq!(names, vec!["zeta", "alpha", "mid"]);
        }
        _ => panic!("expected a list of three file entries"),
    }
}

#[test]
fn builder_is_deterministic_over_unchanged_snapshot() {
    let make = || DirNode {
        entries: vec![
            file_child("hello.txt", b"hi"),
            empty_dir_child("a"),
            empty_dir_child("b"),
        ],
        end: None,
    };
    let b1 = build_tag_bytes(String::new(), &make(), metadata()).unwrap();
    let b2 = build_tag_bytes(String::new(), &make(), metadata()).unwrap();
    assert_eq!(b1, b2);
}
