use coswid_tree::assembler::{assemble_tag, build_tag_bytes, TagMetadata};
use coswid_tree::codec::{emit_bool, emit_bstr, emit_tstr, emit_uint, encode_tag};
use coswid_tree::store::{ByteStream, ChildEntry, DirNode};
use coswid_tree::walker::walk_dir;

use ciborium::value::Value;
use sha2::{Digest, Sha256};

fn metadata() -> TagMetadata {
    TagMetadata {
        tag_id: "org.example.tree.stable".to_string(),
        tag_version: 0,
        software_name: "Example Tree".to_string(),
        software_version: Some("1.0".to_string()),
        entity_name: "Example Author".to_string(),
    }
}

fn hello_snapshot() -> DirNode {
    DirNode {
        entries: vec![ChildEntry::File(
            "hello.txt".to_string(),
            Ok(ByteStream {
                chunks: vec![b"hi".to_vec()],
                end: None,
            }),
        )],
        end: None,
    }
}

fn decode(bytes: &[u8]) -> Value {
    ciborium::de::from_reader(bytes).expect("the encoder must emit well-formed CBOR")
}

fn map_entries(v: &Value) -> &Vec<(Value, Value)> {
    match v {
        Value::Map(m) => m,
        _ => panic!("expected a CBOR map"),
    }
}

fn map_get<'a>(v: &'a Value, key: u64) -> &'a Value {
    for (k, val) in map_entries(v) {
        if let Value::Integer(i) = k {
            if i128::from(*i) == key as i128 {
                return val;
            }
        }
    }
    panic!("key {} absent from map", key);
}

fn map_has(v: &Value, key: u64) -> bool {
    map_entries(v).iter().any(|(k, _)| {
        if let Value::Integer(i) = k {
            i128::from(*i) == key as i128
        } else {
            false
        }
    })
}

fn as_u64(v: &Value) -> u64 {
    match v {
        Value::Integer(i) => u64::try_from(i128::from(*i)).unwrap(),
        _ => panic!("expected an integer"),
    }
}

fn as_text(v: &Value) -> &str {
    match v {
        Value::Text(t) => t.as_str(),
        _ => panic!("expected a text string"),
    }
}

#[test]
fn uint_encodings_are_canonical() {
    let cases: Vec<(u64, Vec<u8>)> = vec![
        (0, vec![0x00]),
        (23, vec![0x17]),
        (24, vec![0x18, 24]),
        (255, vec![0x18, 255]),
        (256, vec![0x19, 0x01, 0x00]),
        (65535, vec![0x19, 0xff, 0xff]),
        (65536, vec![0x1a, 0x00, 0x01, 0x00, 0x00]),
        (4294967295, vec![0x1a, 0xff, 0xff, 0xff, 0xff]),
        (
            4294967296,
            vec![0x1b, 0x00, 0x00, 0x00, 0x01, 0x00, 0x00, 0x00, 0x00],
        ),
        (
            u64::MAX,
            vec![0x1b, 0xff, 0xff, 0xff, 0xff, 0xff, 0xff, 0xff, 0xff],
        ),
    ];
    for (n, expected) in cases {
        let mut out: Vec<u8> = Vec::new();
        emit_uint(&mut out, n);
        assert_eq!(out, expected, "encoding of {}", n);
        let back = decode(&out);
        assert_eq!(as_u64(&back), n);
    }
}

#[test]
fn primitive_encodings_match_the_wire_format() {
    let mut out: Vec<u8> = Vec::new();
    emit_bool(&mut out, true);
    emit_bool(&mut out, false);
    assert_eq!(out, vec![0xf5, 0xf4]);

    let mut text: Vec<u8> = Vec::new();
    emit_tstr(&mut text, "hi");
    assert_eq!(text, vec![0x62, b'h', b'i']);

    let mut bytes: Vec<u8> = Vec::new();
    emit_bstr(&mut bytes, &[1, 2, 3]);
    assert_eq!(bytes, vec![0x43, 1, 2, 3]);
}

#[test]
fn encoded_tag_decodes_with_expected_top_level_fields() {
    let bytes = build_tag_bytes(String::new(), &hello_snapshot(), metadata()).unwrap();
    let tag = decode(&bytes);

    assert_eq!(as_text(map_get(&tag, 0)), "org.example.tree.stable");
    assert_eq!(as_u64(map_get(&tag, 12)), 0);
    assert_eq!(map_get(&tag, 8), &Value::Bool(true));
    assert_eq!(map_get(&tag, 9), &Value::Bool(false));
    assert_eq!(map_get(&tag, 11), &Value::Bool(false));
    assert_eq!(as_text(map_get(&tag, 1)), "Example Tree");
    assert_eq!(as_text(map_get(&tag, 13)), "1.0");

    let entity = map_get(&tag, 2);
    assert_eq!(as_text(map_get(entity, 31)), "Example Author");
    assert_eq!(as_u64(map_get(entity, 33)), 1);
    assert!(!map_has(entity, 32));
    assert!(!map_has(entity, 34));
}

#[test]
fn encoded_payload_mirrors_the_walked_tree() {
    let bytes = build_tag_bytes(String::new(), &hello_snapshot(), metadata()).unwrap();
    let tag = decode(&bytes);

    let payload = map_get(&tag, 6);
    let root = map_get(payload, 16);
    assert_eq!(as_text(map_get(root, 24)), "");
    assert_eq!(as_text(map_get(root, 25)), "/");

    let pe = map_get(root, 26);
    assert!(!map_has(pe, 16), "no subdirectories, so the slot is absent");
    let file = map_get(pe, 17);
    assert_eq!(as_text(map_get(file, 24)), "hello.txt");
    assert_eq!(as_text(map_get(file, 25)), "/");
    assert!(!map_has(file, 20));
    assert!(!map_has(file, 21));
    match map_get(file, 7) {
        Value::Array(hash) => {
            assert_eq!(hash.len(), 2);
            assert_eq!(as_u64(&hash[0]), 1);
            match &hash[1] {
                Value::Bytes(digest) => {
                    assert_eq!(digest, &Sha256::digest(b"hi").to_vec());
                }
                _ => panic!("the digest must be a byte string"),
            }
        }
        _ => panic!("the hash must be a two-element array"),
    }
}

#[test]
fn two_subdirs_encode_as_ordered_array_and_file_slot_absent() {
    let empty = || DirNode {
        entries: Vec::new(),
        end: None,
    };
    let node = DirNode {
        entries: vec![
            ChildEntry::Subdir("a".to_string(), empty()),
            ChildEntry::Subdir("b".to_string(), empty()),
        ],
        end: None,
    };
    let bytes = build_tag_bytes(String::new(), &node, metadata()).unwrap();
    let tag = decode(&bytes);
    let root = map_get(map_get(&tag, 6), 16);
    let pe = map_get(root, 26);
    assert!(!map_has(pe, 17), "no files, so the slot is absent");
    match map_get(pe, 16) {
        Value::Array(dirs) => {
            assert_eq!(dirs.len(), 2);
            assert_eq!(as_text(map_get(&dirs[0], 24)), "a");
            assert_eq!(as_text(map_get(&dirs[1], 24)), "b");
            let a_pe = map_get(&dirs[0], 26);
            assert!(!map_has(a_pe, 16));
            assert!(!map_has(a_pe, 17));
        }
        _ => panic!("two subdirectories must encode as an array"),
    }
}

#[test]
fn lone_subdir_encodes_unwrapped() {
    let node = DirNode {
        entries: vec![ChildEntry::Subdir(
            "only".to_string(),
            DirNode {
                entries: Vec::new(),
                end: None,
            },
        )],
        end: None,
    };
    let bytes = build_tag_bytes(String::new(), &node, metadata()).unwrap();
    let tag = decode(&bytes);
    let pe = map_get(map_get(map_get(&tag, 6), 16), 26);
    match map_get(pe, 16) {
        Value::Map(_) => {
            assert_eq!(as_text(map_get(map_get(pe, 16), 24)), "only");
        }
        _ => panic!("a lone subdirectory must encode as the map itself, not an array"),
    }
}

#[test]
fn tag_map_keys_come_in_declared_order() {
    let bytes = build_tag_bytes(String::new(), &hello_snapshot(), metadata()).unwrap();
    let tag = decode(&bytes);
    let keys: Vec<i128> = map_entries(&tag)
        .iter()
        .map(|(k, _)| match k {
            Value::Integer(i) => i128::from(*i),
            _ => panic!("all tag keys are integers"),
        })
        .collect();
    assert_eq!(keys, vec![0, 12, 8, 9, 11, 1, 13, 2, 6]);
}

#[test]
fn absent_software_version_is_omitted() {
    let mut meta = metadata();
    meta.software_version = None;
    let root = walk_dir(String::new(), &hello_snapshot()).unwrap();
    let tag = assemble_tag(root, meta);
    let bytes = encode_tag(&tag);
    let decoded = decode(&bytes);
    assert!(!map_has(&decoded, 13));
    assert_eq!(map_entries(&decoded).len(), 8);
}

#[test]
fn reencoding_the_same_snapshot_gives_equal_documents() {
    let b1 = build_tag_bytes(String::new(), &hello_snapshot(), metadata()).unwrap();
    let b2 = build_tag_bytes(String::new(), &hello_snapshot(), metadata()).unwrap();
    assert_eq!(b1, b2);
    assert_eq!(decode(&b1), decode(&b2));
}
