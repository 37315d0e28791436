use vstd::prelude::*;

use vstd::utf8::{decode_utf8, encode_utf8, encode_utf8_decode_utf8, valid_utf8};

use crate::codec::{
    entity_map_len, file_map_len, pe_map_len, spec_bool, spec_bstr, spec_dir_body,
    spec_encode_dir, spec_encode_dirs, spec_encode_entities, spec_encode_entity, spec_encode_file,
    spec_encode_files, spec_encode_roles, spec_encode_tag, spec_entity_body, spec_entity_slot,
    tag_map_len, spec_file_body,
    spec_hash_item, spec_header, spec_pe_dirs, spec_pe_files, spec_role_slot, spec_tag_head, spec_tag_payload_part, spec_tag_version_part, spec_tstr,
    spec_uint,
};
use crate::model::{DirView, EntityRole, EntityView, FileView, HashAlg, TagView};

verus! {

/// Read one CBOR initial-bytes form off the front of `b`: the major type,
/// the argument, and what follows. Only the shortest (canonical) forms are
/// accepted, so exactly the forms the encoder emits decode.
#[verifier::opaque]
pub open spec fn take_header(b: Seq<u8>) -> Option<(u8, nat, Seq<u8>)> {
    if b.len() < 1 {
        None
    } else {
        let m = b[0] / 32;
        let k = b[0] % 32;
        if k < 24 {
            Some((m, k as nat, b.skip(1)))
        } else if k == 24 {
            if b.len() >= 2 && b[1] >= 24 {
                Some((m, b[1] as nat, b.skip(2)))
            } else {
                None
            }
        } else if k == 25 {
            if b.len() >= 3 && (b[1] as nat) * 0x100 + (b[2] as nat) >= 0x100 {
                Some((m, (b[1] as nat) * 0x100 + (b[2] as nat), b.skip(3)))
            } else {
                None
            }
        } else if k == 26 {
            if b.len() >= 5 && ((b[1] as nat) * 0x1000000 + (b[2] as nat) * 0x10000 + (
            b[3] as nat) * 0x100 + (b[4] as nat)) >= 0x10000 {
                Some(
                    (
                        m,
                        (b[1] as nat) * 0x1000000 + (b[2] as nat) * 0x10000 + (b[3] as nat) * 0x100
                            + (b[4] as nat),
                        b.skip(5),
                    ),
                )
            } else {
                None
            }
        } else if k == 27 {
            if b.len() >= 9 && ((b[1] as nat) * 0x100000000000000 + (b[2] as nat) * 0x1000000000000
                + (b[3] as nat) * 0x10000000000 + (b[4] as nat) * 0x100000000 + (b[5] as nat)
                * 0x1000000 + (b[6] as nat) * 0x10000 + (b[7] as nat) * 0x100 + (b[8] as nat))
                >= 0x100000000 {
                Some(
                    (
                        m,
                        (b[1] as nat) * 0x100000000000000 + (b[2] as nat) * 0x1000000000000 + (
                        b[3] as nat) * 0x10000000000 + (b[4] as nat) * 0x100000000 + (b[5] as nat)
                            * 0x1000000 + (b[6] as nat) * 0x10000 + (b[7] as nat) * 0x100 + (
                        b[8] as nat),
                        b.skip(9),
                    ),
                )
            } else {
                None
            }
        } else {
            None
        }
    }
}

/// The top byte of a header determines the major type and the short count.
proof fn lemma_initial_byte(m: u8, k: u8)
    requires
        m < 8,
        k < 32,
    ensures
        (m * 32 + k) / 32 == m,
        (m * 32 + k) % 32 == k,
{
    assert((m * 32 + k) / 32 == m && (m * 32 + k) % 32 == k) by (bit_vector)
        requires
            m < 8 && k < 32,
    ;
}

/// A 16-bit value is rebuilt from its two bytes.
proof fn lemma_bytes2(n: u64)
    requires
        n < 0x10000,
    ensures
        (n / 0x100) * 0x100 + n % 0x100 == n,
{
}

/// A 32-bit value is rebuilt from its four bytes.
proof fn lemma_bytes4(n: u64)
    requires
        n < 0x100000000,
    ensures
        (n / 0x1000000) * 0x1000000 + ((n / 0x10000) % 0x100) * 0x10000 + ((n / 0x100) % 0x100)
            * 0x100 + n % 0x100 == n,
{
    assert((n / 0x1000000) * 0x1000000 + ((n / 0x10000) % 0x100) * 0x10000 + ((n / 0x100) % 0x100)
        * 0x100 + n % 0x100 == n) by (bit_vector)
        requires
            n < 0x100000000,
    ;
}

/// A 64-bit value is rebuilt from its eight bytes.
proof fn lemma_bytes8(n: u64)
    ensures
        (n / 0x100000000000000) * 0x100000000000000 + ((n / 0x1000000000000) % 0x100)
            * 0x1000000000000 + ((n / 0x10000000000) % 0x100) * 0x10000000000 + ((n / 0x100000000)
            % 0x100) * 0x100000000 + ((n / 0x1000000) % 0x100) * 0x1000000 + ((n / 0x10000) % 0x100)
            * 0x10000 + ((n / 0x100) % 0x100) * 0x100 + n % 0x100 == n,
{
    assert((n / 0x100000000000000) * 0x100000000000000 + ((n / 0x1000000000000) % 0x100)
        * 0x1000000000000 + ((n / 0x10000000000) % 0x100) * 0x10000000000 + ((n / 0x100000000)
        % 0x100) * 0x100000000 + ((n / 0x1000000) % 0x100) * 0x1000000 + ((n / 0x10000) % 0x100)
        * 0x10000 + ((n / 0x100) % 0x100) * 0x100 + n % 0x100 == n) by (bit_vector);
}

/// Reading a header off its own encoding gives back what was encoded.
#[verifier::rlimit(100)]
pub proof fn lemma_take_header(m: u8, n: nat, rest: Seq<u8>)
    requires
        m < 8,
        n <= u64::MAX,
    ensures
        take_header(spec_header(m, n) + rest) == Some((m, n, rest)),
{
    reveal(spec_header);
    reveal(take_header);
    let b = spec_header(m, n) + rest;
    let nv = n as u64;
    if n < 24 {
        assert(b[0] == (m * 32 + n) as u8);
        lemma_initial_byte(m, n as u8);
        assert(b.skip(1) =~= rest);
    } else if n < 0x100 {
        assert(b[0] == (m * 32 + 24) as u8);
        lemma_initial_byte(m, 24);
        assert(b[1] == n as u8);
        assert(b.skip(2) =~= rest);
    } else if n < 0x10000 {
        lemma_initial_byte(m, 25);
        assert(b[1] == (n / 0x100) as u8);
        assert(b[2] == (n % 0x100) as u8);
        lemma_bytes2(nv);
        assert((b[1] as nat) * 0x100 + (b[2] as nat) == n);
        assert(b.skip(3) =~= rest);
    } else if n < 0x100000000 {
        lemma_initial_byte(m, 26);
        lemma_bytes4(nv);
        assert(b[1] as nat == n / 0x1000000);
        assert(b[2] as nat == (n / 0x10000) % 0x100);
        assert(b[3] as nat == (n / 0x100) % 0x100);
        assert(b[4] as nat == n % 0x100);
        assert((b[1] as nat) * 0x1000000 + (b[2] as nat) * 0x10000 + (b[3] as nat) * 0x100 + (
        b[4] as nat) == n);
        assert(b.skip(5) =~= rest);
    } else {
        lemma_initial_byte(m, 27);
        lemma_bytes8(nv);
        assert(b[1] as nat == n / 0x100000000000000);
        assert(b[2] as nat == (n / 0x1000000000000) % 0x100);
        assert(b[3] as nat == (n / 0x10000000000) % 0x100);
        assert(b[4] as nat == (n / 0x100000000) % 0x100);
        assert(b[5] as nat == (n / 0x1000000) % 0x100);
        assert(b[6] as nat == (n / 0x10000) % 0x100);
        assert(b[7] as nat == (n / 0x100) % 0x100);
        assert(b[8] as nat == n % 0x100);
        assert((b[1] as nat) * 0x100000000000000 + (b[2] as nat) * 0x1000000000000 + (b[3] as nat)
            * 0x10000000000 + (b[4] as nat) * 0x100000000 + (b[5] as nat) * 0x1000000 + (
        b[6] as nat) * 0x10000 + (b[7] as nat) * 0x100 + (b[8] as nat) == n);
        assert(b.skip(9) =~= rest);
    }
}

/// Every header is at least one byte and at most nine.
pub proof fn lemma_header_len(m: u8, n: nat)
    ensures
        1 <= spec_header(m, n).len() <= 9,
{
    reveal(spec_header);
}

/// Read one unsigned integer item off the front of `b`.
pub open spec fn take_uint(b: Seq<u8>) -> Option<(nat, Seq<u8>)> {
    match take_header(b) {
        Option::Some((m, n, r)) => if m == 0 {
            Some((n, r))
        } else {
            None
        },
        Option::None => None,
    }
}

/// Reading an unsigned integer off its own encoding gives it back.
pub proof fn lemma_take_uint(n: nat, rest: Seq<u8>)
    requires
        n <= u64::MAX,
    ensures
        take_uint(spec_uint(n) + rest) == Some((n, rest)),
{
    lemma_take_header(0, n, rest);
}

/// Read one boolean item off the front of `b`.
pub open spec fn take_bool(b: Seq<u8>) -> Option<(bool, Seq<u8>)> {
    if b.len() >= 1 && b[0] == 0xf5u8 {
        Some((true, b.skip(1)))
    } else if b.len() >= 1 && b[0] == 0xf4u8 {
        Some((false, b.skip(1)))
    } else {
        None
    }
}

/// Reading a boolean off its own encoding gives it back.
pub proof fn lemma_take_bool(v: bool, rest: Seq<u8>)
    ensures
        take_bool(spec_bool(v) + rest) == Some((v, rest)),
{
    assert((spec_bool(v) + rest).skip(1) =~= rest);
}

/// Read one byte-string item off the front of `b`.
pub open spec fn take_bstr(b: Seq<u8>) -> Option<(Seq<u8>, Seq<u8>)> {
    match take_header(b) {
        Option::Some((m, n, r)) => if m == 2 && r.len() >= n {
            Some((r.take(n as int), r.skip(n as int)))
        } else {
            None
        },
        Option::None => None,
    }
}

/// Reading a byte string off its own encoding gives it back.
pub proof fn lemma_take_bstr(d: Seq<u8>, rest: Seq<u8>)
    requires
        d.len() <= u64::MAX,
    ensures
        take_bstr(spec_bstr(d) + rest) == Some((d, rest)),
{
    assert(spec_bstr(d) + rest =~= spec_header(2, d.len()) + (d + rest));
    lemma_take_header(2, d.len(), d + rest);
    assert((d + rest).take(d.len() as int) =~= d);
    assert((d + rest).skip(d.len() as int) =~= rest);
}

/// Read one text-string item off the front of `b`: its UTF-8 bytes must be
/// valid, and the value is the character sequence they encode.
pub open spec fn take_tstr(b: Seq<u8>) -> Option<(Seq<char>, Seq<u8>)> {
    match take_header(b) {
        Option::Some((m, n, r)) => if m == 3 && r.len() >= n && valid_utf8(r.take(n as int)) {
            Some((decode_utf8(r.take(n as int)), r.skip(n as int)))
        } else {
            None
        },
        Option::None => None,
    }
}

/// Reading a text string off its own encoding gives back the characters
/// that were encoded.
pub proof fn lemma_take_tstr(s: Seq<char>, rest: Seq<u8>)
    requires
        encode_utf8(s).len() <= u64::MAX,
    ensures
        take_tstr(spec_tstr(s) + rest) == Some((s, rest)),
{
    let t = encode_utf8(s);
    assert(spec_tstr(s) + rest =~= spec_header(3, t.len()) + (t + rest));
    lemma_take_header(3, t.len(), t + rest);
    assert((t + rest).take(t.len() as int) =~= t);
    assert((t + rest).skip(t.len() as int) =~= rest);
    broadcast use vstd::utf8::encode_utf8_valid_utf8;

    encode_utf8_decode_utf8(s);
}

/// Read a file entry's hash value (after its key) and finish the entry:
/// the declared map length must match the fields that were present.
pub open spec fn take_file_hash(
    fs_name: Seq<char>,
    root: Seq<char>,
    size: Option<u64>,
    file_version: Option<Seq<char>>,
    l: nat,
    b: Seq<u8>,
) -> Option<(FileView, Seq<u8>)> {
    match take_header(b) {
        Option::Some((m, cnt, r)) => if m == 4 && cnt == 2 {
            match take_uint(r) {
                Option::Some((alg, r2)) => if alg == 1 {
                    match take_bstr(r2) {
                        Option::Some((digest, r3)) => {
                            let f = FileView {
                                fs_name,
                                root,
                                size,
                                file_version,
                                alg: HashAlg::Sha256,
                                digest,
                            };
                            if l == file_map_len(f) {
                                Some((f, r3))
                            } else {
                                None
                            }
                        },
                        Option::None => None,
                    }
                } else {
                    None
                },
                Option::None => None,
            }
        } else {
            None
        },
        Option::None => None,
    }
}

/// Read a file entry's optional fields (after its root) and then its hash.
pub open spec fn take_file_fields(
    fs_name: Seq<char>,
    root: Seq<char>,
    l: nat,
    b: Seq<u8>,
) -> Option<(FileView, Seq<u8>)> {
    match take_uint(b) {
        Option::Some((k, r)) => if k == 20 {
            match take_uint(r) {
                Option::Some((sz, r2)) => if sz <= u64::MAX {
                    match take_uint(r2) {
                        Option::Some((k2, r3)) => if k2 == 21 {
                            match take_tstr(r3) {
                                Option::Some((v, r4)) => match take_uint(r4) {
                                    Option::Some((k3, r5)) => if k3 == 7 {
                                        take_file_hash(fs_name, root, Some(sz as u64), Some(v), l, r5)
                                    } else {
                                        None
                                    },
                                    Option::None => None,
                                },
                                Option::None => None,
                            }
                        } else if k2 == 7 {
                            take_file_hash(fs_name, root, Some(sz as u64), None, l, r3)
                        } else {
                            None
                        },
                        Option::None => None,
                    }
                } else {
                    None
                },
                Option::None => None,
            }
        } else if k == 21 {
            match take_tstr(r) {
                Option::Some((v, r2)) => match take_uint(r2) {
                    Option::Some((k2, r3)) => if k2 == 7 {
                        take_file_hash(fs_name, root, None, Some(v), l, r3)
                    } else {
                        None
                    },
                    Option::None => None,
                },
                Option::None => None,
            }
        } else if k == 7 {
            take_file_hash(fs_name, root, None, None, l, r)
        } else {
            None
        },
        Option::None => None,
    }
}

/// Read one whole file-entry map off the front of `b`.
pub open spec fn take_file(b: Seq<u8>) -> Option<(FileView, Seq<u8>)> {
    match take_header(b) {
        Option::Some((m, l, r0)) => if m == 5 {
            match take_uint(r0) {
                Option::Some((k1, r1)) => if k1 == 24 {
                    match take_tstr(r1) {
                        Option::Some((fs_name, r2)) => match take_uint(r2) {
                            Option::Some((k2, r3)) => if k2 == 25 {
                                match take_tstr(r3) {
                                    Option::Some((root, r4)) => take_file_fields(
                                        fs_name,
                                        root,
                                        l,
                                        r4,
                                    ),
                                    Option::None => None,
                                }
                            } else {
                                None
                            },
                            Option::None => None,
                        },
                        Option::None => None,
                    }
                } else {
                    None
                },
                Option::None => None,
            }
        } else {
            None
        },
        Option::None => None,
    }
}

/// The bounds under which a file entry's encoding headers fit the wire
/// format's count fields. Every entry built from in-memory values obeys
/// them.
pub open spec fn bounded_file(f: FileView) -> bool {
    &&& encode_utf8(f.fs_name).len() <= u64::MAX
    &&& encode_utf8(f.root).len() <= u64::MAX
    &&& f.digest.len() <= u64::MAX
    &&& match f.file_version {
        Option::Some(v) => encode_utf8(v).len() <= u64::MAX,
        Option::None => true,
    }
}

/// Reading a hash item off its own encoding finishes the entry as encoded.
#[verifier::rlimit(50)]
pub proof fn lemma_take_file_hash(f: FileView, rest: Seq<u8>)
    requires
        bounded_file(f),
        f.alg is Sha256,
    ensures
        take_file_hash(
            f.fs_name,
            f.root,
            f.size,
            f.file_version,
            file_map_len(f),
            spec_hash_item(f.alg, f.digest) + rest,
        ) == Some((f, rest)),
{
    let b = spec_hash_item(f.alg, f.digest) + rest;
    assert(b =~= spec_header(4, 2) + (spec_uint(1) + (spec_bstr(f.digest) + rest)));
    lemma_take_header(4, 2, spec_uint(1) + (spec_bstr(f.digest) + rest));
    lemma_take_uint(1, spec_bstr(f.digest) + rest);
    lemma_take_bstr(f.digest, rest);
}

/// Reading a file entry off its own encoding gives back the entry.
#[verifier::rlimit(100)]
pub proof fn lemma_take_file(f: FileView, rest: Seq<u8>)
    requires
        bounded_file(f),
        f.alg is Sha256,
    ensures
        take_file(spec_encode_file(f) + rest) == Some((f, rest)),
{
    let l = file_map_len(f);
    let size_part: Seq<u8> = match f.size {
        Option::Some(n) => spec_uint(20) + spec_uint(n as nat),
        Option::None => Seq::empty(),
    };
    let ver_part: Seq<u8> = match f.file_version {
        Option::Some(v) => spec_uint(21) + spec_tstr(v),
        Option::None => Seq::empty(),
    };
    let tail7 = spec_uint(7) + (spec_hash_item(f.alg, f.digest) + rest);
    let after_root = size_part + (ver_part + tail7);
    assert(spec_file_body(f) + rest =~= spec_uint(24) + (spec_tstr(f.fs_name) + (spec_uint(25) + (
    spec_tstr(f.root) + after_root))));
    assert(spec_encode_file(f) + rest =~= spec_header(5, l) + (spec_file_body(f) + rest));
    lemma_take_header(5, l, spec_uint(24) + (spec_tstr(f.fs_name) + (spec_uint(25) + (spec_tstr(
        f.root,
    ) + after_root))));
    lemma_take_uint(24, spec_tstr(f.fs_name) + (spec_uint(25) + (spec_tstr(f.root) + after_root)));
    lemma_take_tstr(f.fs_name, spec_uint(25) + (spec_tstr(f.root) + after_root));
    lemma_take_uint(25, spec_tstr(f.root) + after_root);
    lemma_take_tstr(f.root, after_root);
    lemma_take_file_hash(f, rest);
    match f.size {
        Option::Some(n) => {
            match f.file_version {
                Option::Some(v) => {
                    assert(after_root =~= spec_uint(20) + (spec_uint(n as nat) + (spec_uint(21) + (
                    spec_tstr(v) + tail7))));
                    lemma_take_uint(20, spec_uint(n as nat) + (spec_uint(21) + (spec_tstr(v)
                        + tail7)));
                    lemma_take_uint(n as nat, spec_uint(21) + (spec_tstr(v) + tail7));
                    lemma_take_uint(21, spec_tstr(v) + tail7);
                    lemma_take_tstr(v, tail7);
                    lemma_take_uint(7, spec_hash_item(f.alg, f.digest) + rest);
                },
                Option::None => {
                    assert(after_root =~= spec_uint(20) + (spec_uint(n as nat) + tail7));
                    lemma_take_uint(20, spec_uint(n as nat) + tail7);
                    lemma_take_uint(n as nat, tail7);
                    lemma_take_uint(7, spec_hash_item(f.alg, f.digest) + rest);
                },
            }
        },
        Option::None => {
            match f.file_version {
                Option::Some(v) => {
                    assert(after_root =~= spec_uint(21) + (spec_tstr(v) + tail7));
                    lemma_take_uint(21, spec_tstr(v) + tail7);
                    lemma_take_tstr(v, tail7);
                    lemma_take_uint(7, spec_hash_item(f.alg, f.digest) + rest);
                },
                Option::None => {
                    assert(after_root =~= spec_uint(7) + (spec_hash_item(f.alg, f.digest) + rest));
                    lemma_take_uint(7, spec_hash_item(f.alg, f.digest) + rest);
                },
            }
        },
    }
}

/// Read `count` consecutive file-entry maps.
pub open spec fn take_files(count: nat, b: Seq<u8>) -> Option<(Seq<FileView>, Seq<u8>)>
    decreases count,
{
    if count == 0 {
        Some((Seq::empty(), b))
    } else {
        match take_file(b) {
            Option::Some((f, r)) => match take_files((count - 1) as nat, r) {
                Option::Some((fs, r2)) => Some((seq![f] + fs, r2)),
                Option::None => None,
            },
            Option::None => None,
        }
    }
}

/// Read a file slot's value: a lone map, or an array of two or more maps.
pub open spec fn take_file_slot(b: Seq<u8>) -> Option<(Seq<FileView>, Seq<u8>)> {
    match take_header(b) {
        Option::Some((m, cnt, r)) => if m == 5 {
            match take_file(b) {
                Option::Some((f, r2)) => Some((seq![f], r2)),
                Option::None => None,
            }
        } else if m == 4 && cnt >= 2 {
            take_files(cnt, r)
        } else {
            None
        },
        Option::None => None,
    }
}

/// Read one whole directory-entry map, its subtree included.
pub open spec fn take_dir(b: Seq<u8>) -> Option<(DirView, Seq<u8>)>
    decreases b.len(), 2int,
{
    match take_header(b) {
        Option::Some((m, l, r0)) => if m == 5 && l == 3 {
            match take_uint(r0) {
                Option::Some((k1, r1)) => if k1 == 26 && r1.len() < b.len() {
                    match take_pe(r1) {
                        Option::Some(((files, dirs), r2)) => match take_uint(r2) {
                            Option::Some((k2, r3)) => if k2 == 24 {
                                match take_tstr(r3) {
                                    Option::Some((fs_name, r4)) => match take_uint(r4) {
                                        Option::Some((k3, r5)) => if k3 == 25 {
                                            match take_tstr(r5) {
                                                Option::Some((root, r6)) => Some(
                                                    (
                                                        DirView { fs_name, root, files, dirs },
                                                        r6,
                                                    ),
                                                ),
                                                Option::None => None,
                                            }
                                        } else {
                                            None
                                        },
                                        Option::None => None,
                                    },
                                    Option::None => None,
                                }
                            } else {
                                None
                            },
                            Option::None => None,
                        },
                        Option::None => None,
                    }
                } else {
                    None
                },
                Option::None => None,
            }
        } else {
            None
        },
        Option::None => None,
    }
}

/// Read a subdirectory slot's value: a lone map, or an array of two or more
/// maps.
pub open spec fn take_dir_slot(b: Seq<u8>) -> Option<(Seq<DirView>, Seq<u8>)>
    decreases b.len(), 3int,
{
    match take_header(b) {
        Option::Some((m, cnt, r)) => if m == 5 {
            match take_dir(b) {
                Option::Some((d, r2)) => Some((seq![d], r2)),
                Option::None => None,
            }
        } else if m == 4 && cnt >= 2 && r.len() < b.len() {
            take_dirs(cnt, r)
        } else {
            None
        },
        Option::None => None,
    }
}

/// Read `count` consecutive directory-entry maps.
pub open spec fn take_dirs(count: nat, b: Seq<u8>) -> Option<(Seq<DirView>, Seq<u8>)>
    decreases b.len(), 4int,
{
    if count == 0 {
        Some((Seq::empty(), b))
    } else {
        match take_dir(b) {
            Option::Some((d, r)) => if r.len() < b.len() {
                match take_dirs((count - 1) as nat, r) {
                    Option::Some((ds, r2)) => Some((seq![d] + ds, r2)),
                    Option::None => None,
                }
            } else {
                None
            },
            Option::None => None,
        }
    }
}

/// Read one path-elements map: the subdirectory slot, then the file slot,
/// each present only when its key is.
pub open spec fn take_pe(b: Seq<u8>) -> Option<((Seq<FileView>, Seq<DirView>), Seq<u8>)>
    decreases b.len(), 5int,
{
    match take_header(b) {
        Option::Some((m, pl, r)) => if m != 5 {
            None
        } else if pl == 0 {
            Some(((Seq::empty(), Seq::empty()), r))
        } else if pl == 1 {
            match take_uint(r) {
                Option::Some((k, r2)) => if k == 16 && r2.len() < b.len() {
                    match take_dir_slot(r2) {
                        Option::Some((dirs, r3)) => Some(((Seq::empty(), dirs), r3)),
                        Option::None => None,
                    }
                } else if k == 17 {
                    match take_file_slot(r2) {
                        Option::Some((files, r3)) => Some(((files, Seq::empty()), r3)),
                        Option::None => None,
                    }
                } else {
                    None
                },
                Option::None => None,
            }
        } else if pl == 2 {
            match take_uint(r) {
                Option::Some((k, r2)) => if k == 16 && r2.len() < b.len() {
                    match take_dir_slot(r2) {
                        Option::Some((dirs, r3)) => match take_uint(r3) {
                            Option::Some((k2, r4)) => if k2 == 17 {
                                match take_file_slot(r4) {
                                    Option::Some((files, r5)) => Some(((files, dirs), r5)),
                                    Option::None => None,
                                }
                            } else {
                                None
                            },
                            Option::None => None,
                        },
                        Option::None => None,
                    }
                } else {
                    None
                },
                Option::None => None,
            }
        } else {
            None
        },
        Option::None => None,
    }
}

/// The bounds under which a directory's whole subtree encodes with count
/// fields that fit the wire format. Every entry built from in-memory values
/// obeys them.
pub open spec fn bounded_dir(d: DirView) -> bool
    decreases d, 1int,
{
    &&& encode_utf8(d.fs_name).len() <= u64::MAX
    &&& encode_utf8(d.root).len() <= u64::MAX
    &&& d.files.len() <= u64::MAX
    &&& bounded_files(d.files)
    &&& d.dirs.len() <= u64::MAX
    &&& bounded_dirs(d.dirs)
}

/// The bounds of `bounded_dir`, over a sequence of subdirectories.
pub open spec fn bounded_dirs(s: Seq<DirView>) -> bool
    decreases s, 0int,
{
    if s.len() == 0 {
        true
    } else {
        bounded_dir(s[0]) && bounded_dirs(s.drop_first())
    }
}

/// Every file of the sequence is bounded and carries the one hash algorithm
/// this system emits.
pub open spec fn bounded_files(s: Seq<FileView>) -> bool {
    forall|i: int| 0 <= i < s.len() ==> bounded_file(#[trigger] s[i]) && s[i].alg is Sha256
}

/// Reading consecutive file entries off their own encodings gives them
/// back.
pub proof fn lemma_take_files(s: Seq<FileView>, rest: Seq<u8>)
    requires
        bounded_files(s),
    ensures
        take_files(s.len(), spec_encode_files(s) + rest) == Some((s, rest)),
    decreases s,
{
    if s.len() == 0 {
        assert(spec_encode_files(s) + rest =~= rest);
    } else {
        assert(spec_encode_files(s) + rest =~= spec_encode_file(s[0]) + (spec_encode_files(
            s.drop_first(),
        ) + rest));
        lemma_take_file(s[0], spec_encode_files(s.drop_first()) + rest);
        assert(bounded_files(s.drop_first())) by {
            assert(forall|i: int|
                0 <= i < s.drop_first().len() ==> s.drop_first()[i] == s[i + 1]);
        }
        lemma_take_files(s.drop_first(), rest);
        assert(seq![s[0]] + s.drop_first() =~= s);
    }
}

/// Reading a file slot's value off its own encoding gives back the files.
pub proof fn lemma_take_file_slot(s: Seq<FileView>, rest: Seq<u8>)
    requires
        bounded_files(s),
        1 <= s.len() <= u64::MAX,
    ensures
        s.len() == 1 ==> take_file_slot(spec_encode_file(s[0]) + rest) == Some((s, rest)),
        s.len() >= 2 ==> take_file_slot(spec_header(4, s.len()) + (spec_encode_files(s) + rest))
            == Some((s, rest)),
{
    if s.len() == 1 {
        lemma_take_file(s[0], rest);
        let b = spec_encode_file(s[0]) + rest;
        assert(b =~= spec_header(5, file_map_len(s[0])) + (spec_file_body(s[0]) + rest));
        lemma_take_header(5, file_map_len(s[0]), spec_file_body(s[0]) + rest);
        assert(seq![s[0]] =~= s);
    } else {
        lemma_take_header(4, s.len(), spec_encode_files(s) + rest);
        lemma_take_files(s, rest);
    }
}

/// Reading consecutive directory entries off their own encodings gives
/// them back.
pub proof fn lemma_take_dirs(s: Seq<DirView>, rest: Seq<u8>)
    requires
        bounded_dirs(s),
    ensures
        take_dirs(s.len(), spec_encode_dirs(s) + rest) == Some((s, rest)),
    decreases s, 1int,
{
    if s.len() == 0 {
        assert(spec_encode_dirs(s) + rest =~= rest);
    } else {
        let tail = spec_encode_dirs(s.drop_first()) + rest;
        assert(spec_encode_dirs(s) + rest =~= spec_encode_dir(s[0]) + tail);
        lemma_take_dir(s[0], tail);
        lemma_header_len(5, 3);
        assert(spec_encode_dir(s[0]).len() >= 1);
        lemma_take_dirs(s.drop_first(), rest);
        assert(seq![s[0]] + s.drop_first() =~= s);
    }
}

/// Reading a subdirectory slot's value off its own encoding gives back the
/// subdirectories.
pub proof fn lemma_take_dir_slot(s: Seq<DirView>, rest: Seq<u8>)
    requires
        bounded_dirs(s),
        1 <= s.len() <= u64::MAX,
    ensures
        s.len() == 1 ==> take_dir_slot(spec_encode_dir(s[0]) + rest) == Some((s, rest)),
        s.len() >= 2 ==> take_dir_slot(spec_header(4, s.len()) + (spec_encode_dirs(s) + rest))
            == Some((s, rest)),
    decreases s, 2int,
{
    if s.len() == 1 {
        assert(spec_encode_dir(s[0]) + rest =~= spec_header(5, 3) + (spec_dir_body(s[0]) + rest));
        lemma_take_header(5, 3, spec_dir_body(s[0]) + rest);
        lemma_take_dir(s[0], rest);
        assert(seq![s[0]] =~= s);
    } else {
        lemma_take_header(4, s.len(), spec_encode_dirs(s) + rest);
        lemma_header_len(4, s.len());
        lemma_take_dirs(s, rest);
    }
}

/// Reading a path-elements map off its own encoding gives back both child
/// sequences.
#[verifier::rlimit(100)]
pub proof fn lemma_take_pe(files: Seq<FileView>, dirs: Seq<DirView>, rest: Seq<u8>)
    requires
        bounded_files(files),
        files.len() <= u64::MAX,
        bounded_dirs(dirs),
        dirs.len() <= u64::MAX,
    ensures
        take_pe(
            spec_header(5, pe_map_len(files, dirs)) + (spec_pe_dirs(dirs) + (spec_pe_files(files)
                + rest)),
        ) == Some(((files, dirs), rest)),
    decreases dirs, 3int,
{
    let pl = pe_map_len(files, dirs);
    let b = spec_header(5, pl) + (spec_pe_dirs(dirs) + (spec_pe_files(files) + rest));
    lemma_take_header(5, pl, spec_pe_dirs(dirs) + (spec_pe_files(files) + rest));
    lemma_header_len(5, pl);
    if dirs.len() == 0 && files.len() == 0 {
        assert(spec_pe_dirs(dirs) + (spec_pe_files(files) + rest) =~= rest);
    } else if dirs.len() == 0 {
        assert(pl == 1);
        if files.len() == 1 {
            let slot = spec_encode_file(files[0]) + rest;
            assert(spec_pe_dirs(dirs) + (spec_pe_files(files) + rest) =~= spec_uint(17) + slot);
            lemma_take_uint(17, slot);
            lemma_take_file_slot(files, rest);
        } else {
            let slot = spec_header(4, files.len()) + (spec_encode_files(files) + rest);
            assert(spec_pe_dirs(dirs) + (spec_pe_files(files) + rest) =~= spec_uint(17) + slot);
            lemma_take_uint(17, slot);
            lemma_take_file_slot(files, rest);
        }
    } else {
        let files_tail: Seq<u8> = spec_pe_files(files) + rest;
        let dir_tail: Seq<u8> = if files.len() == 0 {
            rest
        } else {
            files_tail
        };
        if files.len() == 0 {
            assert(files_tail =~= rest);
        }
        // the subdirectory slot comes first, under its key
        if dirs.len() == 1 {
            let slot = spec_encode_dir(dirs[0]) + dir_tail;
            assert(spec_pe_dirs(dirs) + (spec_pe_files(files) + rest) =~= spec_uint(16) + slot);
            lemma_take_uint(16, slot);
            lemma_header_len(0, 16);
            lemma_take_dir_slot(dirs, dir_tail);
        } else {
            let slot = spec_header(4, dirs.len()) + (spec_encode_dirs(dirs) + dir_tail);
            assert(spec_pe_dirs(dirs) + (spec_pe_files(files) + rest) =~= spec_uint(16) + slot);
            lemma_take_uint(16, slot);
            lemma_header_len(0, 16);
            lemma_take_dir_slot(dirs, dir_tail);
        }
        if files.len() == 0 {
            assert(pl == 1);
        } else {
            assert(pl == 2);
            // after the subdirectory slot, the file slot under its key
            if files.len() == 1 {
                let fslot = spec_encode_file(files[0]) + rest;
                assert(files_tail =~= spec_uint(17) + fslot);
                lemma_take_uint(17, fslot);
                lemma_take_file_slot(files, rest);
            } else {
                let fslot = spec_header(4, files.len()) + (spec_encode_files(files) + rest);
                assert(files_tail =~= spec_uint(17) + fslot);
                lemma_take_uint(17, fslot);
                lemma_take_file_slot(files, rest);
            }
        }
    }
}

/// Reading a directory entry off its own encoding gives back the entry,
/// its whole subtree included: the round trip of the document's recursive
/// core.
#[verifier::rlimit(100)]
pub proof fn lemma_take_dir(d: DirView, rest: Seq<u8>)
    requires
        bounded_dir(d),
    ensures
        take_dir(spec_encode_dir(d) + rest) == Some((d, rest)),
    decreases d, 4int,
{
    let b = spec_encode_dir(d) + rest;
    let tail24 = spec_uint(24) + (spec_tstr(d.fs_name) + (spec_uint(25) + (spec_tstr(d.root)
        + rest)));
    let pe = spec_header(5, pe_map_len(d.files, d.dirs)) + (spec_pe_dirs(d.dirs) + (spec_pe_files(
        d.files,
    ) + tail24));
    assert(b =~= spec_header(5, 3) + (spec_dir_body(d) + rest));
    lemma_take_header(5, 3, spec_dir_body(d) + rest);
    lemma_header_len(5, 3);
    assert(spec_dir_body(d) + rest =~= spec_uint(26) + pe);
    lemma_take_uint(26, pe);
    lemma_header_len(0, 26);
    lemma_take_pe(d.files, d.dirs, tail24);
    lemma_take_uint(24, spec_tstr(d.fs_name) + (spec_uint(25) + (spec_tstr(d.root) + rest)));
    lemma_take_tstr(d.fs_name, spec_uint(25) + (spec_tstr(d.root) + rest));
    lemma_take_uint(25, spec_tstr(d.root) + rest);
    lemma_take_tstr(d.root, rest);
    assert(take_dir(b) == Some((DirView { fs_name: d.fs_name, root: d.root, files: d.files, dirs: d.dirs }, rest)));
    assert(DirView { fs_name: d.fs_name, root: d.root, files: d.files, dirs: d.dirs } == d);
}

/// Read `count` consecutive role identifiers.
pub open spec fn take_roles(count: nat, b: Seq<u8>) -> Option<(Seq<EntityRole>, Seq<u8>)>
    decreases count,
{
    if count == 0 {
        Some((Seq::empty(), b))
    } else {
        match take_uint(b) {
            Option::Some((v, r)) => if v == 1 {
                match take_roles((count - 1) as nat, r) {
                    Option::Some((rs, r2)) => Some((seq![EntityRole::TagCreator] + rs, r2)),
                    Option::None => None,
                }
            } else {
                None
            },
            Option::None => None,
        }
    }
}

/// Read a role field's value: a lone identifier, or an array of two or
/// more.
pub open spec fn take_role_slot(b: Seq<u8>) -> Option<(Seq<EntityRole>, Seq<u8>)> {
    match take_header(b) {
        Option::Some((m, cnt, r)) => if m == 0 {
            if cnt == 1 {
                Some((seq![EntityRole::TagCreator], r))
            } else {
                None
            }
        } else if m == 4 && cnt >= 2 {
            take_roles(cnt, r)
        } else {
            None
        },
        Option::None => None,
    }
}

/// Read an entity's optional thumbprint (after its roles) and finish the
/// entity: the declared map length must match the fields present.
pub open spec fn take_entity_thumb(
    entity_name: Seq<char>,
    reg_id: Option<Seq<char>>,
    roles: Seq<EntityRole>,
    l: nat,
    b: Seq<u8>,
) -> Option<(EntityView, Seq<u8>)> {
    let base: nat = 2 + (if reg_id is Some {
        1nat
    } else {
        0nat
    });
    if l == base {
        Some((EntityView { entity_name, reg_id, roles, thumbprint: None }, b))
    } else if l == base + 1 {
        match take_uint(b) {
            Option::Some((k, r)) => if k == 34 {
                match take_header(r) {
                    Option::Some((m, cnt, r2)) => if m == 4 && cnt == 2 {
                        match take_uint(r2) {
                            Option::Some((alg, r3)) => if alg == 1 {
                                match take_bstr(r3) {
                                    Option::Some((dg, r4)) => Some(
                                        (
                                            EntityView {
                                                entity_name,
                                                reg_id,
                                                roles,
                                                thumbprint: Some((HashAlg::Sha256, dg)),
                                            },
                                            r4,
                                        ),
                                    ),
                                    Option::None => None,
                                }
                            } else {
                                None
                            },
                            Option::None => None,
                        }
                    } else {
                        None
                    },
                    Option::None => None,
                }
            } else {
                None
            },
            Option::None => None,
        }
    } else {
        None
    }
}

/// Read an entity's optional registration id, its roles, and what follows.
pub open spec fn take_entity_fields(
    entity_name: Seq<char>,
    l: nat,
    b: Seq<u8>,
) -> Option<(EntityView, Seq<u8>)> {
    match take_uint(b) {
        Option::Some((k, r)) => if k == 32 {
            match take_tstr(r) {
                Option::Some((reg, r2)) => match take_uint(r2) {
                    Option::Some((k2, r3)) => if k2 == 33 {
                        match take_role_slot(r3) {
                            Option::Some((roles, r4)) => take_entity_thumb(
                                entity_name,
                                Some(reg),
                                roles,
                                l,
                                r4,
                            ),
                            Option::None => None,
                        }
                    } else {
                        None
                    },
                    Option::None => None,
                },
                Option::None => None,
            }
        } else if k == 33 {
            match take_role_slot(r) {
                Option::Some((roles, r2)) => take_entity_thumb(entity_name, None, roles, l, r2),
                Option::None => None,
            }
        } else {
            None
        },
        Option::None => None,
    }
}

/// Read one whole entity map off the front of `b`.
pub open spec fn take_entity(b: Seq<u8>) -> Option<(EntityView, Seq<u8>)> {
    match take_header(b) {
        Option::Some((m, l, r0)) => if m == 5 {
            match take_uint(r0) {
                Option::Some((k1, r1)) => if k1 == 31 {
                    match take_tstr(r1) {
                        Option::Some((entity_name, r2)) => take_entity_fields(entity_name, l, r2),
                        Option::None => None,
                    }
                } else {
                    None
                },
                Option::None => None,
            }
        } else {
            None
        },
        Option::None => None,
    }
}

/// Read `count` consecutive entity maps.
pub open spec fn take_entities(count: nat, b: Seq<u8>) -> Option<(Seq<EntityView>, Seq<u8>)>
    decreases count,
{
    if count == 0 {
        Some((Seq::empty(), b))
    } else {
        match take_entity(b) {
            Option::Some((e, r)) => match take_entities((count - 1) as nat, r) {
                Option::Some((es, r2)) => Some((seq![e] + es, r2)),
                Option::None => None,
            },
            Option::None => None,
        }
    }
}

/// Read the tag's entity field: a lone map, or an array of two or more.
pub open spec fn take_entity_slot(b: Seq<u8>) -> Option<(Seq<EntityView>, Seq<u8>)> {
    match take_header(b) {
        Option::Some((m, cnt, r)) => if m == 5 {
            match take_entity(b) {
                Option::Some((e, r2)) => Some((seq![e], r2)),
                Option::None => None,
            }
        } else if m == 4 && cnt >= 2 {
            take_entities(cnt, r)
        } else {
            None
        },
        Option::None => None,
    }
}

/// Read the tag's optional payload (after its entities) and finish the
/// tag: the declared map length must match the fields present.
pub open spec fn take_tag_payload(
    tag_id: Seq<char>,
    tag_version: u64,
    corpus: bool,
    patch: bool,
    supplemental: bool,
    software_name: Seq<char>,
    software_version: Option<Seq<char>>,
    entities: Seq<EntityView>,
    l: nat,
    b: Seq<u8>,
) -> Option<(TagView, Seq<u8>)> {
    let base: nat = 7 + (if software_version is Some {
        1nat
    } else {
        0nat
    });
    if l == base {
        Some(
            (
                TagView {
                    tag_id,
                    tag_version,
                    corpus,
                    patch,
                    supplemental,
                    software_name,
                    software_version,
                    entities,
                    payload: None,
                },
                b,
            ),
        )
    } else if l == base + 1 {
        match take_uint(b) {
            Option::Some((k, r)) => if k == 6 {
                match take_header(r) {
                    Option::Some((m, cnt, r2)) => if m == 5 && cnt == 1 {
                        match take_uint(r2) {
                            Option::Some((k2, r3)) => if k2 == 16 {
                                match take_dir(r3) {
                                    Option::Some((d, r4)) => Some(
                                        (
                                            TagView {
                                                tag_id,
                                                tag_version,
                                                corpus,
                                                patch,
                                                supplemental,
                                                software_name,
                                                software_version,
                                                entities,
                                                payload: Some(d),
                                            },
                                            r4,
                                        ),
                                    ),
                                    Option::None => None,
                                }
                            } else {
                                None
                            },
                            Option::None => None,
                        }
                    } else {
                        None
                    },
                    Option::None => None,
                }
            } else {
                None
            },
            Option::None => None,
        }
    } else {
        None
    }
}

/// Read the tag's optional software version and its entity field.
pub open spec fn take_tag_fields(
    tag_id: Seq<char>,
    tag_version: u64,
    corpus: bool,
    patch: bool,
    supplemental: bool,
    software_name: Seq<char>,
    l: nat,
    b: Seq<u8>,
) -> Option<(TagView, Seq<u8>)> {
    match take_uint(b) {
        Option::Some((k, r)) => if k == 13 {
            match take_tstr(r) {
                Option::Some((sv, r2)) => match take_uint(r2) {
                    Option::Some((k2, r3)) => if k2 == 2 {
                        match take_entity_slot(r3) {
                            Option::Some((es, r4)) => take_tag_payload(
                                tag_id,
                                tag_version,
                                corpus,
                                patch,
                                supplemental,
                                software_name,
                                Some(sv),
                                es,
                                l,
                                r4,
                            ),
                            Option::None => None,
                        }
                    } else {
                        None
                    },
                    Option::None => None,
                },
                Option::None => None,
            }
        } else if k == 2 {
            match take_entity_slot(r) {
                Option::Some((es, r2)) => take_tag_payload(
                    tag_id,
                    tag_version,
                    corpus,
                    patch,
                    supplemental,
                    software_name,
                    None,
                    es,
                    l,
                    r2,
                ),
                Option::None => None,
            }
        } else {
            None
        },
        Option::None => None,
    }
}

/// Read one whole tag map off the front of `b`.
pub open spec fn take_tag(b: Seq<u8>) -> Option<(TagView, Seq<u8>)> {
    match take_header(b) {
        Option::Some((m, l, r0)) => if m != 5 {
            None
        } else {
            match take_uint(r0) {
                Option::Some((k0, r1)) => if k0 != 0 {
                    None
                } else {
                    match take_tstr(r1) {
                        Option::Some((tag_id, r2)) => match take_uint(r2) {
                            Option::Some((k1, r3)) => if k1 != 12 {
                                None
                            } else {
                                match take_uint(r3) {
                                    Option::Some((ver, r4)) => if ver <= u64::MAX {
                                        take_tag_flags(tag_id, ver as u64, l, r4)
                                    } else {
                                        None
                                    },
                                    Option::None => None,
                                }
                            },
                            Option::None => None,
                        },
                        Option::None => None,
                    }
                },
                Option::None => None,
            }
        },
        Option::None => None,
    }
}

/// Read the tag's three class flags and its software name.
pub open spec fn take_tag_flags(tag_id: Seq<char>, tag_version: u64, l: nat, b: Seq<u8>) -> Option<
    (TagView, Seq<u8>),
> {
    match take_uint(b) {
        Option::Some((k8, r)) => if k8 != 8 {
            None
        } else {
            match take_bool(r) {
                Option::Some((corpus, r2)) => match take_uint(r2) {
                    Option::Some((k9, r3)) => if k9 != 9 {
                        None
                    } else {
                        match take_bool(r3) {
                            Option::Some((patch, r4)) => match take_uint(r4) {
                                Option::Some((k11, r5)) => if k11 != 11 {
                                    None
                                } else {
                                    match take_bool(r5) {
                                        Option::Some((supplemental, r6)) => match take_uint(r6) {
                                            Option::Some((k1, r7)) => if k1 != 1 {
                                                None
                                            } else {
                                                match take_tstr(r7) {
                                                    Option::Some((software_name, r8)) => take_tag_fields(
                                                        tag_id,
                                                        tag_version,
                                                        corpus,
                                                        patch,
                                                        supplemental,
                                                        software_name,
                                                        l,
                                                        r8,
                                                    ),
                                                    Option::None => None,
                                                }
                                            },
                                            Option::None => None,
                                        },
                                        Option::None => None,
                                    }
                                },
                                Option::None => None,
                            },
                            Option::None => None,
                        }
                    },
                    Option::None => None,
                },
                Option::None => None,
            }
        },
        Option::None => None,
    }
}

/// Decode one complete encoded tag: the whole input must be consumed.
pub open spec fn spec_decode_tag(b: Seq<u8>) -> Option<TagView> {
    match take_tag(b) {
        Option::Some((t, r)) => if r.len() == 0 {
            Some(t)
        } else {
            None
        },
        Option::None => None,
    }
}

/// The bounds under which an entity encodes with count fields that fit the
/// wire format, carrying only this system's role and hash algorithm.
pub open spec fn bounded_entity(e: EntityView) -> bool {
    &&& encode_utf8(e.entity_name).len() <= u64::MAX
    &&& match e.reg_id {
        Option::Some(r) => encode_utf8(r).len() <= u64::MAX,
        Option::None => true,
    }
    &&& 1 <= e.roles.len() <= u64::MAX
    &&& forall|i: int| 0 <= i < e.roles.len() ==> #[trigger] e.roles[i] is TagCreator
    &&& match e.thumbprint {
        Option::Some((alg, dg)) => alg is Sha256 && dg.len() <= u64::MAX,
        Option::None => true,
    }
}

/// The bounds under which a whole tag encodes with count fields that fit
/// the wire format.
pub open spec fn bounded_tag(t: TagView) -> bool {
    &&& encode_utf8(t.tag_id).len() <= u64::MAX
    &&& encode_utf8(t.software_name).len() <= u64::MAX
    &&& match t.software_version {
        Option::Some(v) => encode_utf8(v).len() <= u64::MAX,
        Option::None => true,
    }
    &&& 1 <= t.entities.len() <= u64::MAX
    &&& forall|i: int| 0 <= i < t.entities.len() ==> bounded_entity(#[trigger] t.entities[i])
    &&& match t.payload {
        Option::Some(d) => bounded_dir(d),
        Option::None => true,
    }
}

/// Reading consecutive role identifiers off their own encodings gives them
/// back.
pub proof fn lemma_take_roles(s: Seq<EntityRole>, rest: Seq<u8>)
    requires
        forall|i: int| 0 <= i < s.len() ==> #[trigger] s[i] is TagCreator,
    ensures
        take_roles(s.len(), spec_encode_roles(s) + rest) == Some((s, rest)),
    decreases s,
{
    if s.len() == 0 {
        assert(spec_encode_roles(s) + rest =~= rest);
    } else {
        let tail = spec_encode_roles(s.drop_first()) + rest;
        assert(spec_encode_roles(s) + rest =~= spec_uint(s[0].spec_wire_id() as nat) + tail);
        lemma_take_uint(s[0].spec_wire_id() as nat, tail);
        assert(forall|i: int| 0 <= i < s.drop_first().len() ==> s.drop_first()[i] == s[i + 1]);
        lemma_take_roles(s.drop_first(), rest);
        assert(seq![s[0]] + s.drop_first() =~= s);
    }
}

/// Reading a role field's value off its own encoding gives back the roles.
pub proof fn lemma_take_role_slot(s: Seq<EntityRole>, rest: Seq<u8>)
    requires
        1 <= s.len() <= u64::MAX,
        forall|i: int| 0 <= i < s.len() ==> #[trigger] s[i] is TagCreator,
    ensures
        take_role_slot(spec_role_slot(s) + rest) == Some((s, rest)),
{
    if s.len() == 1 {
        lemma_take_header(0, 1, rest);
        assert(spec_role_slot(s) + rest =~= spec_header(0, 1) + rest);
        assert(seq![EntityRole::TagCreator] =~= s);
    } else {
        assert(spec_role_slot(s) + rest =~= spec_header(4, s.len()) + (spec_encode_roles(s)
            + rest));
        lemma_take_header(4, s.len(), spec_encode_roles(s) + rest);
        lemma_take_roles(s, rest);
    }
}

/// Reading an entity off its own encoding gives back the entity.
#[verifier::rlimit(100)]
pub proof fn lemma_take_entity(e: EntityView, rest: Seq<u8>)
    requires
        bounded_entity(e),
    ensures
        take_entity(spec_encode_entity(e) + rest) == Some((e, rest)),
{
    let l = entity_map_len(e);
    let thumb_part: Seq<u8> = match e.thumbprint {
        Option::Some((alg, dg)) => spec_uint(34) + spec_hash_item(alg, dg),
        Option::None => Seq::empty(),
    };
    let reg_part: Seq<u8> = match e.reg_id {
        Option::Some(r) => spec_uint(32) + spec_tstr(r),
        Option::None => Seq::empty(),
    };
    let after_roles = thumb_part + rest;
    let after_name = reg_part + (spec_uint(33) + (spec_role_slot(e.roles) + after_roles));
    assert(spec_entity_body(e) + rest =~= spec_uint(31) + (spec_tstr(e.entity_name)
        + after_name));
    assert(spec_encode_entity(e) + rest =~= spec_header(5, l) + (spec_uint(31) + (spec_tstr(
        e.entity_name,
    ) + after_name)));
    lemma_take_header(5, l, spec_uint(31) + (spec_tstr(e.entity_name) + after_name));
    lemma_take_uint(31, spec_tstr(e.entity_name) + after_name);
    lemma_take_tstr(e.entity_name, after_name);
    match e.reg_id {
        Option::Some(r) => {
            assert(after_name =~= spec_uint(32) + (spec_tstr(r) + (spec_uint(33) + (spec_role_slot(
                e.roles,
            ) + after_roles))));
            lemma_take_uint(32, spec_tstr(r) + (spec_uint(33) + (spec_role_slot(e.roles)
                + after_roles)));
            lemma_take_tstr(r, spec_uint(33) + (spec_role_slot(e.roles) + after_roles));
            lemma_take_uint(33, spec_role_slot(e.roles) + after_roles);
            lemma_take_role_slot(e.roles, after_roles);
        },
        Option::None => {
            assert(after_name =~= spec_uint(33) + (spec_role_slot(e.roles) + after_roles));
            lemma_take_uint(33, spec_role_slot(e.roles) + after_roles);
            lemma_take_role_slot(e.roles, after_roles);
        },
    }
    match e.thumbprint {
        Option::Some((alg, dg)) => {
            assert(after_roles =~= spec_uint(34) + (spec_header(4, 2) + (spec_uint(1) + (spec_bstr(
                dg,
            ) + rest))));
            lemma_take_uint(34, spec_header(4, 2) + (spec_uint(1) + (spec_bstr(dg) + rest)));
            lemma_take_header(4, 2, spec_uint(1) + (spec_bstr(dg) + rest));
            lemma_take_uint(1, spec_bstr(dg) + rest);
            lemma_take_bstr(dg, rest);
            assert(take_entity(spec_encode_entity(e) + rest) == Some((EntityView {
                entity_name: e.entity_name,
                reg_id: e.reg_id,
                roles: e.roles,
                thumbprint: Some((HashAlg::Sha256, dg)),
            }, rest)));
            assert(EntityView {
                entity_name: e.entity_name,
                reg_id: e.reg_id,
                roles: e.roles,
                thumbprint: Some((HashAlg::Sha256, dg)),
            } == e);
        },
        Option::None => {
            assert(after_roles =~= rest);
            assert(EntityView {
                entity_name: e.entity_name,
                reg_id: e.reg_id,
                roles: e.roles,
                thumbprint: None,
            } == e);
        },
    }
}

/// Reading consecutive entities off their own encodings gives them back.
pub proof fn lemma_take_entities(s: Seq<EntityView>, rest: Seq<u8>)
    requires
        forall|i: int| 0 <= i < s.len() ==> bounded_entity(#[trigger] s[i]),
    ensures
        take_entities(s.len(), spec_encode_entities(s) + rest) == Some((s, rest)),
    decreases s,
{
    if s.len() == 0 {
        assert(spec_encode_entities(s) + rest =~= rest);
    } else {
        let tail = spec_encode_entities(s.drop_first()) + rest;
        assert(spec_encode_entities(s) + rest =~= spec_encode_entity(s[0]) + tail);
        lemma_take_entity(s[0], tail);
        assert(forall|i: int| 0 <= i < s.drop_first().len() ==> s.drop_first()[i] == s[i + 1]);
        lemma_take_entities(s.drop_first(), rest);
        assert(seq![s[0]] + s.drop_first() =~= s);
    }
}

/// Reading the entity field's value off its own encoding gives back the
/// entities.
pub proof fn lemma_take_entity_slot(s: Seq<EntityView>, rest: Seq<u8>)
    requires
        1 <= s.len() <= u64::MAX,
        forall|i: int| 0 <= i < s.len() ==> bounded_entity(#[trigger] s[i]),
    ensures
        take_entity_slot(spec_entity_slot(s) + rest) == Some((s, rest)),
{
    if s.len() == 1 {
        lemma_take_entity(s[0], rest);
        assert(spec_entity_slot(s) + rest =~= spec_header(5, entity_map_len(s[0])) + (
        spec_entity_body(s[0]) + rest));
        lemma_take_header(5, entity_map_len(s[0]), spec_entity_body(s[0]) + rest);
        assert(seq![s[0]] =~= s);
    } else {
        assert(spec_entity_slot(s) + rest =~= spec_header(4, s.len()) + (spec_encode_entities(s)
            + rest));
        lemma_take_header(4, s.len(), spec_encode_entities(s) + rest);
        lemma_take_entities(s, rest);
    }
}

/// Reading the flag fields off their own encodings hands over to the
/// optional fields.
#[verifier::rlimit(100)]
proof fn lemma_take_tag_flags_enc(t: TagView, after_name: Seq<u8>)
    requires
        bounded_tag(t),
    ensures
        take_tag_flags(
            t.tag_id,
            t.tag_version,
            tag_map_len(t),
            spec_uint(8) + (spec_bool(t.corpus) + (spec_uint(9) + (spec_bool(t.patch) + (spec_uint(
                11,
            ) + (spec_bool(t.supplemental) + (spec_uint(1) + (spec_tstr(t.software_name)
                + after_name))))))),
        ) == take_tag_fields(
            t.tag_id,
            t.tag_version,
            t.corpus,
            t.patch,
            t.supplemental,
            t.software_name,
            tag_map_len(t),
            after_name,
        ),
{
    lemma_take_uint(8, spec_bool(t.corpus) + (spec_uint(9) + (spec_bool(t.patch) + (spec_uint(11)
        + (spec_bool(t.supplemental) + (spec_uint(1) + (spec_tstr(t.software_name)
        + after_name)))))));
    lemma_take_bool(t.corpus, spec_uint(9) + (spec_bool(t.patch) + (spec_uint(11) + (spec_bool(
        t.supplemental,
    ) + (spec_uint(1) + (spec_tstr(t.software_name) + after_name))))));
    lemma_take_uint(9, spec_bool(t.patch) + (spec_uint(11) + (spec_bool(t.supplemental) + (
    spec_uint(1) + (spec_tstr(t.software_name) + after_name)))));
    lemma_take_bool(t.patch, spec_uint(11) + (spec_bool(t.supplemental) + (spec_uint(1) + (
    spec_tstr(t.software_name) + after_name))));
    lemma_take_uint(11, spec_bool(t.supplemental) + (spec_uint(1) + (spec_tstr(t.software_name)
        + after_name)));
    lemma_take_bool(t.supplemental, spec_uint(1) + (spec_tstr(t.software_name) + after_name));
    lemma_take_uint(1, spec_tstr(t.software_name) + after_name);
    lemma_take_tstr(t.software_name, after_name);
}

/// Reading the optional fields, the entities and the payload off their own
/// encodings finishes the tag.
#[verifier::rlimit(100)]
proof fn lemma_take_tag_fields_enc(t: TagView, rest: Seq<u8>)
    requires
        bounded_tag(t),
    ensures
        take_tag_fields(
            t.tag_id,
            t.tag_version,
            t.corpus,
            t.patch,
            t.supplemental,
            t.software_name,
            tag_map_len(t),
            spec_tag_version_part(t) + (spec_uint(2) + (spec_entity_slot(t.entities) + (
            spec_tag_payload_part(t) + rest))),
        ) == Some((t, rest)),
{
    let pp_rest = spec_tag_payload_part(t) + rest;
    let after_name = spec_tag_version_part(t) + (spec_uint(2) + (spec_entity_slot(t.entities)
        + pp_rest));
    let es_pp = spec_entity_slot(t.entities) + pp_rest;
    match t.software_version {
        Option::Some(v) => {
            assert(after_name =~= spec_uint(13) + (spec_tstr(v) + (spec_uint(2) + es_pp)));
            lemma_take_uint(13, spec_tstr(v) + (spec_uint(2) + es_pp));
            lemma_take_tstr(v, spec_uint(2) + es_pp);
            lemma_take_uint(2, es_pp);
            lemma_take_entity_slot(t.entities, pp_rest);
        },
        Option::None => {
            assert(after_name =~= spec_uint(2) + es_pp);
            lemma_take_uint(2, es_pp);
            lemma_take_entity_slot(t.entities, pp_rest);
        },
    }
    match t.payload {
        Option::Some(d) => {
            assert(pp_rest =~= spec_uint(6) + (spec_header(5, 1) + (spec_uint(16) + (
            spec_encode_dir(d) + rest))));
            lemma_take_uint(6, spec_header(5, 1) + (spec_uint(16) + (spec_encode_dir(d) + rest)));
            lemma_take_header(5, 1, spec_uint(16) + (spec_encode_dir(d) + rest));
            lemma_take_uint(16, spec_encode_dir(d) + rest);
            lemma_take_dir(d, rest);
            assert(TagView {
                tag_id: t.tag_id,
                tag_version: t.tag_version,
                corpus: t.corpus,
                patch: t.patch,
                supplemental: t.supplemental,
                software_name: t.software_name,
                software_version: t.software_version,
                entities: t.entities,
                payload: Some(d),
            } == t);
        },
        Option::None => {
            assert(pp_rest =~= rest);
            assert(TagView {
                tag_id: t.tag_id,
                tag_version: t.tag_version,
                corpus: t.corpus,
                patch: t.patch,
                supplemental: t.supplemental,
                software_name: t.software_name,
                software_version: t.software_version,
                entities: t.entities,
                payload: None,
            } == t);
        },
    }
}

/// The tag's encoding, regrouped so each leading field stands alone.
#[verifier::rlimit(100)]
proof fn lemma_tag_head_shape(t: TagView, after_name: Seq<u8>)
    ensures
        spec_tag_head(t) + after_name == spec_header(5, tag_map_len(t)) + (spec_uint(0) + (
        spec_tstr(t.tag_id) + (spec_uint(12) + (spec_uint(t.tag_version as nat) + (spec_uint(8) + (
        spec_bool(t.corpus) + (spec_uint(9) + (spec_bool(t.patch) + (spec_uint(11) + (spec_bool(
            t.supplemental,
        ) + (spec_uint(1) + (spec_tstr(t.software_name) + after_name)))))))))))),
{
    assert(spec_tag_head(t) + after_name =~= spec_header(5, tag_map_len(t)) + (spec_uint(0) + (
    spec_tstr(t.tag_id) + (spec_uint(12) + (spec_uint(t.tag_version as nat) + (spec_uint(8) + (
    spec_bool(t.corpus) + (spec_uint(9) + (spec_bool(t.patch) + (spec_uint(11) + (spec_bool(
        t.supplemental,
    ) + (spec_uint(1) + (spec_tstr(t.software_name) + after_name)))))))))))));
}

/// Reading a whole tag off its own encoding gives back the tag.
#[verifier::rlimit(100)]
pub proof fn lemma_take_tag(t: TagView, rest: Seq<u8>)
    requires
        bounded_tag(t),
    ensures
        take_tag(spec_encode_tag(t) + rest) == Some((t, rest)),
{
    let l = tag_map_len(t);
    let after_name = spec_tag_version_part(t) + (spec_uint(2) + (spec_entity_slot(t.entities) + (
    spec_tag_payload_part(t) + rest)));
    let flags_on = spec_uint(8) + (spec_bool(t.corpus) + (spec_uint(9) + (spec_bool(t.patch) + (
    spec_uint(11) + (spec_bool(t.supplemental) + (spec_uint(1) + (spec_tstr(t.software_name)
        + after_name)))))));
    lemma_tag_head_shape(t, after_name);
    assert(spec_encode_tag(t) + rest =~= spec_tag_head(t) + after_name);
    lemma_take_header(5, l, spec_uint(0) + (spec_tstr(t.tag_id) + (spec_uint(12) + (spec_uint(
        t.tag_version as nat,
    ) + flags_on))));
    lemma_take_uint(0, spec_tstr(t.tag_id) + (spec_uint(12) + (spec_uint(t.tag_version as nat)
        + flags_on)));
    lemma_take_tstr(t.tag_id, spec_uint(12) + (spec_uint(t.tag_version as nat) + flags_on));
    lemma_take_uint(12, spec_uint(t.tag_version as nat) + flags_on);
    lemma_take_uint(t.tag_version as nat, flags_on);
    lemma_take_tag_flags_enc(t, after_name);
    lemma_take_tag_fields_enc(t, rest);
}

/// Round-trip law: decoding an encoded tag reproduces the tag that was
/// encoded — the same collapsed-cardinality structure, the same field
/// presence and absence, and the same values throughout.
pub proof fn lemma_round_trip(t: TagView)
    requires
        bounded_tag(t),
    ensures
        spec_decode_tag(spec_encode_tag(t)) == Some(t),
{
    lemma_take_tag(t, Seq::empty());
    assert(spec_encode_tag(t) + Seq::<u8>::empty() =~= spec_encode_tag(t));
}

} // verus!
