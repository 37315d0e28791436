use vstd::prelude::*;

use vstd::utf8::encode_utf8;

use crate::model::{
    dirs_view, files_view, lemma_dirs_view_index, lemma_dirs_wf_index, CoswidTag, DirView,
    DirectoryEntry, EntityEntry, EntityRole, EntityView, FileEntry, FileView, HashAlg, TagView,
};
use crate::one_or_many::{slot_seq, OneOrMany};

verus! {

/// The initial bytes of one CBOR data item: major type `major` with
/// argument `n`, in the shortest form the format allows.
#[verifier::opaque]
pub open spec fn spec_header(major: u8, n: nat) -> Seq<u8> {
    if n < 24 {
        seq![(major * 32 + n) as u8]
    } else if n < 0x100 {
        seq![(major * 32 + 24) as u8, n as u8]
    } else if n < 0x10000 {
        seq![(major * 32 + 25) as u8, (n / 0x100) as u8, (n % 0x100) as u8]
    } else if n < 0x100000000 {
        seq![
            (major * 32 + 26) as u8,
            (n / 0x1000000) as u8,
            ((n / 0x10000) % 0x100) as u8,
            ((n / 0x100) % 0x100) as u8,
            (n % 0x100) as u8,
        ]
    } else {
        seq![
            (major * 32 + 27) as u8,
            (n / 0x100000000000000) as u8,
            ((n / 0x1000000000000) % 0x100) as u8,
            ((n / 0x10000000000) % 0x100) as u8,
            ((n / 0x100000000) % 0x100) as u8,
            ((n / 0x1000000) % 0x100) as u8,
            ((n / 0x10000) % 0x100) as u8,
            ((n / 0x100) % 0x100) as u8,
            (n % 0x100) as u8,
        ]
    }
}

/// An unsigned integer item.
pub open spec fn spec_uint(n: nat) -> Seq<u8> {
    spec_header(0, n)
}

/// A boolean item.
pub open spec fn spec_bool(b: bool) -> Seq<u8> {
    if b {
        seq![0xf5u8]
    } else {
        seq![0xf4u8]
    }
}

/// A definite-length byte-string item.
pub open spec fn spec_bstr(b: Seq<u8>) -> Seq<u8> {
    spec_header(2, b.len()) + b
}

/// A definite-length text-string item: the UTF-8 bytes of the text.
pub open spec fn spec_tstr(s: Seq<char>) -> Seq<u8> {
    spec_header(3, encode_utf8(s).len()) + encode_utf8(s)
}

/// Append the header of major type `major` with argument `n`.
pub fn emit_header(out: &mut Vec<u8>, major: u8, n: u64)
    requires
        major < 8,
    ensures
        final(out)@ == old(out)@ + spec_header(major, n as nat),
{
    proof {
        reveal(spec_header);
    }
    if n < 24 {
        out.push(major * 32 + n as u8);
        proof {
            assert(out@ =~= old(out)@ + spec_header(major, n as nat));
        }
    } else if n < 0x100 {
        out.push(major * 32 + 24);
        out.push(n as u8);
        proof {
            assert(out@ =~= old(out)@ + spec_header(major, n as nat));
        }
    } else if n < 0x10000 {
        out.push(major * 32 + 25);
        out.push((n / 0x100) as u8);
        out.push((n % 0x100) as u8);
        proof {
            assert(out@ =~= old(out)@ + spec_header(major, n as nat));
        }
    } else if n < 0x100000000 {
        out.push(major * 32 + 26);
        out.push((n / 0x1000000) as u8);
        out.push(((n / 0x10000) % 0x100) as u8);
        out.push(((n / 0x100) % 0x100) as u8);
        out.push((n % 0x100) as u8);
        proof {
            assert(out@ =~= old(out)@ + spec_header(major, n as nat));
        }
    } else {
        out.push(major * 32 + 27);
        out.push((n / 0x100000000000000) as u8);
        out.push(((n / 0x1000000000000) % 0x100) as u8);
        out.push(((n / 0x10000000000) % 0x100) as u8);
        out.push(((n / 0x100000000) % 0x100) as u8);
        out.push(((n / 0x1000000) % 0x100) as u8);
        out.push(((n / 0x10000) % 0x100) as u8);
        out.push(((n / 0x100) % 0x100) as u8);
        out.push((n % 0x100) as u8);
        proof {
            assert(out@ =~= old(out)@ + spec_header(major, n as nat));
        }
    }
}

/// Append an unsigned integer item.
pub fn emit_uint(out: &mut Vec<u8>, n: u64)
    ensures
        final(out)@ == old(out)@ + spec_uint(n as nat),
{
    emit_header(out, 0, n);
}

/// Append a boolean item.
pub fn emit_bool(out: &mut Vec<u8>, b: bool)
    ensures
        final(out)@ == old(out)@ + spec_bool(b),
{
    if b {
        out.push(0xf5);
    } else {
        out.push(0xf4);
    }
    proof {
        assert(out@ =~= old(out)@ + spec_bool(b));
    }
}

/// Append a byte-string item.
pub fn emit_bstr(out: &mut Vec<u8>, b: &[u8])
    ensures
        final(out)@ == old(out)@ + spec_bstr(b@),
{
    emit_header(out, 2, b.len() as u64);
    out.extend_from_slice(b);
    proof {
        assert(out@ =~= old(out)@ + spec_bstr(b@));
    }
}

/// Append a text-string item.
pub fn emit_tstr(out: &mut Vec<u8>, s: &str)
    ensures
        final(out)@ == old(out)@ + spec_tstr(s@),
{
    let bytes = s.as_bytes();
    emit_header(out, 3, bytes.len() as u64);
    out.extend_from_slice(bytes);
    proof {
        assert(out@ =~= old(out)@ + spec_tstr(s@));
    }
}

/// A content hash item: a two-element array of the algorithm identifier and
/// the digest bytes.
pub open spec fn spec_hash_item(alg: HashAlg, digest: Seq<u8>) -> Seq<u8> {
    spec_header(4, 2) + spec_uint(alg.spec_wire_id() as nat) + spec_bstr(digest)
}

/// The number of keys a file entry's map carries.
pub open spec fn file_map_len(f: FileView) -> nat {
    3 + (if f.size is Some {
        1nat
    } else {
        0nat
    }) + (if f.file_version is Some {
        1nat
    } else {
        0nat
    })
}

/// One file entry as a CBOR map: its basename, root, optional size and
/// version, and content hash, under the schema's integer keys. Absent
/// optional fields are omitted outright.
pub open spec fn spec_encode_file(f: FileView) -> Seq<u8> {
    spec_header(5, file_map_len(f)) + spec_file_body(f)
}

/// The key-value pairs of a file entry's map, in order.
pub open spec fn spec_file_body(f: FileView) -> Seq<u8> {
    spec_uint(24) + spec_tstr(f.fs_name) + spec_uint(25) + spec_tstr(f.root) + (match f.size {
        Option::Some(n) => spec_uint(20) + spec_uint(n as nat),
        Option::None => Seq::empty(),
    }) + (match f.file_version {
        Option::Some(v) => spec_uint(21) + spec_tstr(v),
        Option::None => Seq::empty(),
    }) + spec_uint(7) + spec_hash_item(f.alg, f.digest)
}

/// Append one file entry's map.
#[verifier::rlimit(100)]
pub fn encode_file(out: &mut Vec<u8>, f: &FileEntry)
    ensures
        final(out)@ == old(out)@ + spec_encode_file(f.view()),
{
    let mut len: u64 = 3;
    if f.size.is_some() {
        len = len + 1;
    }
    if f.file_version.is_some() {
        len = len + 1;
    }
    emit_header(out, 5, len);
    emit_uint(out, 24);
    emit_tstr(out, f.fs_name.as_str());
    emit_uint(out, 25);
    emit_tstr(out, f.root.as_str());
    match &f.size {
        Some(n) => {
            emit_uint(out, 20);
            emit_uint(out, *n);
        },
        None => {},
    }
    match &f.file_version {
        Some(v) => {
            emit_uint(out, 21);
            emit_tstr(out, v.as_str());
        },
        None => {},
    }
    emit_uint(out, 7);
    emit_header(out, 4, 2);
    emit_uint(out, f.hash.alg.wire_id());
    emit_bstr(out, f.hash.digest.as_slice());
    proof {
        assert(out@ =~= old(out)@ + spec_encode_file(f.view()));
    }
}

/// The concatenation of a sequence of encoded file entries.
pub open spec fn spec_encode_files(s: Seq<FileView>) -> Seq<u8>
    decreases s,
{
    if s.len() == 0 {
        Seq::empty()
    } else {
        spec_encode_file(s[0]) + spec_encode_files(s.drop_first())
    }
}

/// The value of the file slot of a path-elements group holding one or more
/// files: the lone map itself for one, an array of maps for two or more.
pub open spec fn spec_file_slot(s: Seq<FileView>) -> Seq<u8> {
    if s.len() == 1 {
        spec_encode_file(s[0])
    } else {
        spec_header(4, s.len()) + spec_encode_files(s)
    }
}

/// The number of keys a path-elements map carries: one per non-empty slot.
pub open spec fn pe_map_len(files: Seq<FileView>, dirs: Seq<DirView>) -> nat {
    (if dirs.len() > 0 {
        1nat
    } else {
        0nat
    }) + (if files.len() > 0 {
        1nat
    } else {
        0nat
    })
}

/// One directory entry as a CBOR map: its path-elements group (the
/// subdirectory slot, then the file slot, each omitted when empty and
/// un-wrapped when it holds exactly one value), then its basename and root.
pub open spec fn spec_encode_dir(d: DirView) -> Seq<u8>
    decreases d, 3int,
{
    spec_header(5, 3) + spec_dir_body(d)
}

/// The key-value pairs of a directory entry's map, in order.
pub open spec fn spec_dir_body(d: DirView) -> Seq<u8>
    decreases d, 2int,
{
    spec_uint(26) + spec_header(5, pe_map_len(d.files, d.dirs)) + spec_pe_dirs(d.dirs)
        + spec_pe_files(d.files) + spec_uint(24) + spec_tstr(d.fs_name) + spec_uint(25) + spec_tstr(
        d.root,
    )
}

/// The subdirectory part of a path-elements map: nothing when there are no
/// subdirectories, otherwise the key and the collapsed slot value.
pub open spec fn spec_pe_dirs(s: Seq<DirView>) -> Seq<u8>
    decreases s, 1int,
{
    if s.len() == 0 {
        Seq::empty()
    } else if s.len() == 1 {
        spec_uint(16) + spec_encode_dir(s[0])
    } else {
        spec_uint(16) + spec_header(4, s.len()) + spec_encode_dirs(s)
    }
}

/// The file part of a path-elements map: nothing when there are no files,
/// otherwise the key and the collapsed slot value.
pub open spec fn spec_pe_files(s: Seq<FileView>) -> Seq<u8> {
    if s.len() == 0 {
        Seq::empty()
    } else {
        spec_uint(17) + spec_file_slot(s)
    }
}

/// The concatenation of a sequence of encoded directory entries.
pub open spec fn spec_encode_dirs(s: Seq<DirView>) -> Seq<u8>
    decreases s, 0int,
{
    if s.len() == 0 {
        Seq::empty()
    } else {
        spec_encode_dir(s[0]) + spec_encode_dirs(s.drop_first())
    }
}

/// Appending a file appends its encoding.
pub proof fn lemma_spec_encode_files_push(s: Seq<FileView>, f: FileView)
    ensures
        spec_encode_files(s.push(f)) =~= spec_encode_files(s) + spec_encode_file(f),
    decreases s,
{
    reveal_with_fuel(spec_encode_files, 2);
    if s.len() == 0 {
        assert(s.push(f)[0] == f);
        assert(s.push(f).drop_first() =~= Seq::<FileView>::empty());
    } else {
        assert(s.push(f)[0] == s[0]);
        assert(s.push(f).drop_first() =~= s.drop_first().push(f));
        lemma_spec_encode_files_push(s.drop_first(), f);
    }
}

/// Appending a directory appends its encoding.
pub proof fn lemma_spec_encode_dirs_push(s: Seq<DirView>, d: DirView)
    ensures
        spec_encode_dirs(s.push(d)) =~= spec_encode_dirs(s) + spec_encode_dir(d),
    decreases s,
{
    reveal_with_fuel(spec_encode_dirs, 2);
    if s.len() == 0 {
        assert(s.push(d)[0] == d);
        assert(s.push(d).drop_first() =~= Seq::<DirView>::empty());
    } else {
        assert(s.push(d)[0] == s[0]);
        assert(s.push(d).drop_first() =~= s.drop_first().push(d));
        lemma_spec_encode_dirs_push(s.drop_first(), d);
    }
}

/// Append the encodings of a list of file entries, in order.
pub fn encode_file_list(out: &mut Vec<u8>, v: &Vec<FileEntry>)
    ensures
        final(out)@ == old(out)@ + spec_encode_files(files_view(v@)),
{
    let ghost fv = files_view(v@);
    let mut j: usize = 0;
    while j < v.len()
        invariant
            j <= v.len(),
            fv == files_view(v@),
            out@ == old(out)@ + spec_encode_files(fv.subrange(0, j as int)),
        decreases v.len() - j,
    {
        encode_file(out, &v[j]);
        proof {
            lemma_spec_encode_files_push(fv.subrange(0, j as int), fv[j as int]);
            assert(fv.subrange(0, j as int).push(fv[j as int]) =~= fv.subrange(0, j + 1 as int));
        }
        j += 1;
    }
    proof {
        assert(fv.subrange(0, fv.len() as int) =~= fv);
    }
}

/// Append the encodings of a list of directory entries, in order, each with
/// its whole subtree.
pub fn encode_dir_list(out: &mut Vec<u8>, v: &Vec<DirectoryEntry>)
    requires
        crate::model::dirs_wf(v@),
    ensures
        final(out)@ == old(out)@ + spec_encode_dirs(dirs_view(v@)),
    decreases v@, 0int,
{
    proof {
        lemma_dirs_view_index(v@);
        lemma_dirs_wf_index(v@);
    }
    let ghost dv = dirs_view(v@);
    let mut j: usize = 0;
    while j < v.len()
        invariant
            j <= v.len(),
            dv == dirs_view(v@),
            dv.len() == v@.len(),
            forall|k: int| 0 <= k < v@.len() ==> dv[k] == v@[k].view(),
            forall|k: int| 0 <= k < v@.len() ==> v@[k].wf(),
            out@ == old(out)@ + spec_encode_dirs(dv.subrange(0, j as int)),
        decreases v.len() - j,
    {
        proof {
            assert(decreases_to!(v@ => v@[j as int]));
        }
        encode_dir(out, &v[j]);
        proof {
            lemma_spec_encode_dirs_push(dv.subrange(0, j as int), dv[j as int]);
            assert(dv.subrange(0, j as int).push(dv[j as int]) =~= dv.subrange(0, j + 1 as int));
        }
        j += 1;
    }
    proof {
        assert(dv.subrange(0, dv.len() as int) =~= dv);
    }
}

/// Append one directory entry's path-elements map: the subdirectory slot,
/// then the file slot, each omitted when empty and un-wrapped when it holds
/// exactly one value.
#[verifier::rlimit(100)]
pub fn encode_path_elements(out: &mut Vec<u8>, d: &DirectoryEntry)
    requires
        d.wf(),
    ensures
        final(out)@ == old(out)@ + spec_header(5, pe_map_len(d.view().files, d.view().dirs))
            + spec_pe_dirs(d.view().dirs) + spec_pe_files(d.view().files),
    decreases *d, 0int,
{
    proof {
        d.lemma_view_slots();
        lemma_dirs_view_index(slot_seq(d.path_elements.directory));
    }
    let has_dirs = d.path_elements.directory.is_some();
    let has_files = d.path_elements.file.is_some();
    let pe_len: u64 = (if has_dirs {
        1
    } else {
        0
    }) + (if has_files {
        1
    } else {
        0
    });
    let ghost dv_all = d.view().dirs;
    let ghost fv_all = d.view().files;
    proof {
        crate::one_or_many::lemma_slot_cardinality(d.path_elements.directory);
        crate::one_or_many::lemma_slot_cardinality(d.path_elements.file);
        assert(pe_len as nat == pe_map_len(fv_all, dv_all));
    }
    emit_header(out, 5, pe_len);
    let ghost after_pe_header = out@;
    match &d.path_elements.directory {
        None => {},
        Some(OneOrMany::One(c)) => {
            emit_uint(out, 16);
            proof {
                assert(decreases_to!(*d => *d.path_elements));
                assert(decreases_to!(*d.path_elements => d.path_elements.directory));
                assert(decreases_to!(d.path_elements.directory => *c));
            }
            encode_dir(out, c);
            proof {
                assert(dv_all == seq![c.view()]);
                assert(dv_all[0] == c.view());
                assert(out@ =~= after_pe_header + spec_pe_dirs(dv_all));
            }
        },
        Some(OneOrMany::Many(v)) => {
            emit_uint(out, 16);
            emit_header(out, 4, v.len() as u64);
            proof {
                let slot = d.path_elements.directory;
                assert(decreases_to!(*d => *d.path_elements));
                assert(decreases_to!(*d.path_elements => slot));
                assert(decreases_to!(slot => *v));
                assert(decreases_to!(*v => v@));
                assert(dv_all == dirs_view(v@));
            }
            encode_dir_list(out, v);
            proof {
                assert(out@ =~= after_pe_header + spec_pe_dirs(dv_all));
            }
        },
    }
    proof {
        assert(out@ =~= after_pe_header + spec_pe_dirs(dv_all));
    }
    let ghost after_dirs = out@;
    match &d.path_elements.file {
        None => {},
        Some(OneOrMany::One(f)) => {
            emit_uint(out, 17);
            encode_file(out, f);
            proof {
                assert(fv_all =~= seq![f.view()]);
                assert(out@ =~= after_dirs + spec_pe_files(fv_all));
            }
        },
        Some(OneOrMany::Many(v)) => {
            emit_uint(out, 17);
            emit_header(out, 4, v.len() as u64);
            encode_file_list(out, v);
            proof {
                assert(fv_all == files_view(v@));
                assert(out@ =~= after_dirs + spec_pe_files(fv_all));
            }
        },
    }
    proof {
        assert(out@ =~= after_dirs + spec_pe_files(fv_all));
    }
}

/// Append one directory entry's map, the whole subtree below it included.
#[verifier::rlimit(100)]
pub fn encode_dir(out: &mut Vec<u8>, d: &DirectoryEntry)
    requires
        d.wf(),
    ensures
        final(out)@ == old(out)@ + spec_encode_dir(d.view()),
    decreases *d, 1int,
{
    emit_header(out, 5, 3);
    emit_uint(out, 26);
    encode_path_elements(out, d);
    emit_uint(out, 24);
    emit_tstr(out, d.fs_name.as_str());
    emit_uint(out, 25);
    emit_tstr(out, d.root.as_str());
    proof {
        assert(out@ =~= old(out)@ + spec_header(5, 3) + spec_dir_body(d.view()));
        assert(out@ =~= old(out)@ + spec_encode_dir(d.view()));
    }
}

/// The number of keys an entity's map carries.
pub open spec fn entity_map_len(e: EntityView) -> nat {
    2 + (if e.reg_id is Some {
        1nat
    } else {
        0nat
    }) + (if e.thumbprint is Some {
        1nat
    } else {
        0nat
    })
}

/// The concatenation of a sequence of encoded roles.
pub open spec fn spec_encode_roles(s: Seq<EntityRole>) -> Seq<u8>
    decreases s,
{
    if s.len() == 0 {
        Seq::empty()
    } else {
        spec_uint(s[0].spec_wire_id() as nat) + spec_encode_roles(s.drop_first())
    }
}

/// The value of an entity's role field: the lone role identifier for one
/// role, an array of identifiers for two or more.
pub open spec fn spec_role_slot(s: Seq<EntityRole>) -> Seq<u8> {
    if s.len() == 1 {
        spec_uint(s[0].spec_wire_id() as nat)
    } else {
        spec_header(4, s.len()) + spec_encode_roles(s)
    }
}

/// One entity as a CBOR map: its name, optional registration id, roles, and
/// optional thumbprint, under the schema's integer keys.
pub open spec fn spec_encode_entity(e: EntityView) -> Seq<u8> {
    spec_header(5, entity_map_len(e)) + spec_entity_body(e)
}

/// The key-value pairs of an entity's map, in order.
pub open spec fn spec_entity_body(e: EntityView) -> Seq<u8> {
    spec_uint(31) + spec_tstr(e.entity_name) + (match e.reg_id {
        Option::Some(r) => spec_uint(32) + spec_tstr(r),
        Option::None => Seq::empty(),
    }) + spec_uint(33) + spec_role_slot(e.roles) + (match e.thumbprint {
        Option::Some((alg, digest)) => spec_uint(34) + spec_hash_item(alg, digest),
        Option::None => Seq::empty(),
    })
}

/// The concatenation of a sequence of encoded entities.
pub open spec fn spec_encode_entities(s: Seq<EntityView>) -> Seq<u8>
    decreases s,
{
    if s.len() == 0 {
        Seq::empty()
    } else {
        spec_encode_entity(s[0]) + spec_encode_entities(s.drop_first())
    }
}

/// The value of the tag's entity field: the lone entity map for one, an
/// array of maps for two or more.
pub open spec fn spec_entity_slot(s: Seq<EntityView>) -> Seq<u8> {
    if s.len() == 1 {
        spec_encode_entity(s[0])
    } else {
        spec_header(4, s.len()) + spec_encode_entities(s)
    }
}

/// The number of keys the tag's top-level map carries.
pub open spec fn tag_map_len(t: TagView) -> nat {
    7 + (if t.software_version is Some {
        1nat
    } else {
        0nat
    }) + (if t.payload is Some {
        1nat
    } else {
        0nat
    })
}

/// The whole tag as a CBOR map: identification, the three document-class
/// flags, the software name and optional version, the entity field, and the
/// payload map wrapping the root directory when one is present. Absent
/// optional fields are omitted outright.
pub open spec fn spec_encode_tag(t: TagView) -> Seq<u8> {
    spec_tag_head(t) + spec_tag_version_part(t) + spec_uint(2) + spec_entity_slot(t.entities)
        + spec_tag_payload_part(t)
}

/// The tag map's header and its always-present leading fields.
pub open spec fn spec_tag_head(t: TagView) -> Seq<u8> {
    spec_header(5, tag_map_len(t)) + spec_uint(0) + spec_tstr(t.tag_id) + spec_uint(12) + spec_uint(
        t.tag_version as nat,
    ) + spec_uint(8) + spec_bool(t.corpus) + spec_uint(9) + spec_bool(t.patch) + spec_uint(11)
        + spec_bool(t.supplemental) + spec_uint(1) + spec_tstr(t.software_name)
}

/// The software-version field, when present.
pub open spec fn spec_tag_version_part(t: TagView) -> Seq<u8> {
    match t.software_version {
        Option::Some(v) => spec_uint(13) + spec_tstr(v),
        Option::None => Seq::empty(),
    }
}

/// The payload field, when present: a map whose one key wraps the root
/// directory.
pub open spec fn spec_tag_payload_part(t: TagView) -> Seq<u8> {
    match t.payload {
        Option::Some(d) => spec_uint(6) + spec_header(5, 1) + spec_uint(16) + spec_encode_dir(d),
        Option::None => Seq::empty(),
    }
}

/// Appending a role appends its identifier.
pub proof fn lemma_spec_encode_roles_push(s: Seq<EntityRole>, r: EntityRole)
    ensures
        spec_encode_roles(s.push(r)) =~= spec_encode_roles(s) + spec_uint(r.spec_wire_id() as nat),
    decreases s,
{
    reveal_with_fuel(spec_encode_roles, 2);
    if s.len() == 0 {
        assert(s.push(r)[0] == r);
        assert(s.push(r).drop_first() =~= Seq::<EntityRole>::empty());
    } else {
        assert(s.push(r)[0] == s[0]);
        assert(s.push(r).drop_first() =~= s.drop_first().push(r));
        lemma_spec_encode_roles_push(s.drop_first(), r);
    }
}

/// Appending an entity appends its encoding.
pub proof fn lemma_spec_encode_entities_push(s: Seq<EntityView>, e: EntityView)
    ensures
        spec_encode_entities(s.push(e)) =~= spec_encode_entities(s) + spec_encode_entity(e),
    decreases s,
{
    reveal_with_fuel(spec_encode_entities, 2);
    if s.len() == 0 {
        assert(s.push(e)[0] == e);
        assert(s.push(e).drop_first() =~= Seq::<EntityView>::empty());
    } else {
        assert(s.push(e)[0] == s[0]);
        assert(s.push(e).drop_first() =~= s.drop_first().push(e));
        lemma_spec_encode_entities_push(s.drop_first(), e);
    }
}

/// Append one entity's map.
#[verifier::rlimit(100)]
pub fn encode_entity(out: &mut Vec<u8>, e: &EntityEntry)
    requires
        e.wf(),
    ensures
        final(out)@ == old(out)@ + spec_encode_entity(e.view()),
{
    let mut len: u64 = 2;
    if e.reg_id.is_some() {
        len = len + 1;
    }
    if e.thumbprint.is_some() {
        len = len + 1;
    }
    emit_header(out, 5, len);
    emit_uint(out, 31);
    emit_tstr(out, e.entity_name.as_str());
    match &e.reg_id {
        Some(r) => {
            emit_uint(out, 32);
            emit_tstr(out, r.as_str());
        },
        None => {},
    }
    emit_uint(out, 33);
    let ghost roles = e.view().roles;
    match &e.role {
        OneOrMany::One(r) => {
            emit_uint(out, r.wire_id());
            proof {
                assert(roles == seq![*r]);
                assert(roles[0] == *r);
            }
        },
        OneOrMany::Many(v) => {
            emit_header(out, 4, v.len() as u64);
            let ghost before_list = out@;
            let mut j: usize = 0;
            while j < v.len()
                invariant
                    j <= v.len(),
                    roles == v@,
                    out@ == before_list + spec_encode_roles(roles.subrange(0, j as int)),
                decreases v.len() - j,
            {
                emit_uint(out, v[j].wire_id());
                proof {
                    lemma_spec_encode_roles_push(roles.subrange(0, j as int), roles[j as int]);
                    assert(roles.subrange(0, j as int).push(roles[j as int]) =~= roles.subrange(
                        0,
                        j + 1 as int,
                    ));
                }
                j += 1;
            }
            proof {
                assert(roles.subrange(0, roles.len() as int) =~= roles);
            }
        },
    }
    match &e.thumbprint {
        Some(h) => {
            emit_uint(out, 34);
            emit_header(out, 4, 2);
            emit_uint(out, h.alg.wire_id());
            emit_bstr(out, h.digest.as_slice());
        },
        None => {},
    }
    proof {
        assert(out@ =~= old(out)@ + spec_header(5, entity_map_len(e.view())) + spec_entity_body(
            e.view(),
        ));
        assert(out@ =~= old(out)@ + spec_encode_entity(e.view()));
    }
}

/// Encode the whole tag into the binary wire form, ready for a byte sink.
#[verifier::rlimit(100)]
pub fn encode_tag(t: &CoswidTag) -> (r: Vec<u8>)
    requires
        t.wf(),
    ensures
        r@ == spec_encode_tag(t.view()),
{
    let mut out: Vec<u8> = Vec::new();
    let mut len: u64 = 7;
    if t.software_version.is_some() {
        len = len + 1;
    }
    if t.payload.is_some() {
        len = len + 1;
    }
    emit_header(&mut out, 5, len);
    emit_uint(&mut out, 0);
    emit_tstr(&mut out, t.tag_id.as_str());
    emit_uint(&mut out, 12);
    emit_uint(&mut out, t.tag_version);
    emit_uint(&mut out, 8);
    emit_bool(&mut out, t.corpus);
    emit_uint(&mut out, 9);
    emit_bool(&mut out, t.patch);
    emit_uint(&mut out, 11);
    emit_bool(&mut out, t.supplemental);
    emit_uint(&mut out, 1);
    emit_tstr(&mut out, t.software_name.as_str());
    proof {
        assert(out@ =~= spec_tag_head(t.view()));
    }
    let ghost after_head = out@;
    match &t.software_version {
        Some(v) => {
            emit_uint(&mut out, 13);
            emit_tstr(&mut out, v.as_str());
        },
        None => {},
    }
    proof {
        assert(out@ =~= after_head + spec_tag_version_part(t.view()));
    }
    let ghost after_version = out@;
    emit_uint(&mut out, 2);
    let ghost ents = t.view().entities;
    match &t.entity {
        OneOrMany::One(e) => {
            proof {
                assert(ents == crate::model::entities_view(seq![*e]));
                assert(ents[0] == e.view());
                assert(ents.len() == 1);
            }
            encode_entity(&mut out, e);
        },
        OneOrMany::Many(v) => {
            emit_header(&mut out, 4, v.len() as u64);
            let ghost before_list = out@;
            let mut j: usize = 0;
            while j < v.len()
                invariant
                    j <= v.len(),
                    ents == crate::model::entities_view(v@),
                    ents.len() == v@.len(),
                    forall|k: int| 0 <= k < v@.len() ==> ents[k] == v@[k].view(),
                    forall|k: int| 0 <= k < v@.len() ==> v@[k].wf(),
                    out@ == before_list + spec_encode_entities(ents.subrange(0, j as int)),
                decreases v.len() - j,
            {
                encode_entity(&mut out, &v[j]);
                proof {
                    lemma_spec_encode_entities_push(ents.subrange(0, j as int), ents[j as int]);
                    assert(ents.subrange(0, j as int).push(ents[j as int]) =~= ents.subrange(
                        0,
                        j + 1 as int,
                    ));
                }
                j += 1;
            }
            proof {
                assert(ents.subrange(0, ents.len() as int) =~= ents);
            }
        },
    }
    proof {
        assert(out@ =~= after_version + spec_uint(2) + spec_entity_slot(t.view().entities));
    }
    let ghost after_entities = out@;
    match &t.payload {
        Some(d) => {
            emit_uint(&mut out, 6);
            emit_header(&mut out, 5, 1);
            emit_uint(&mut out, 16);
            encode_dir(&mut out, d);
        },
        None => {},
    }
    proof {
        assert(out@ =~= after_entities + spec_tag_payload_part(t.view()));
        assert(out@ =~= spec_encode_tag(t.view()));
    }
    out
}

} // verus!
