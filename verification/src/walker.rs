use vstd::prelude::*;

use crate::hashing::{hash_stream, sha256_of};
use crate::model::{
    dirs_view, dirs_wf, files_view, ContentHash, DirView, DirectoryEntry, FileEntry, FileView,
    HashAlg, PathElements,
};
use crate::one_or_many::collapse;
use crate::store::{ByteStream, ChildEntry, DirNode, ErrorKind};

verus! {

/// The declared root path every entry of this system attests to.
pub fn root_path() -> (r: String)
    ensures
        r@ == "/"@,
{
    "/".to_owned()
}

/// A walk failure: the kind of the underlying fault and the names leading
/// from the walked directory down to the entry that failed (empty when the
/// walked directory's own enumeration failed).
#[derive(Debug)]
pub struct WalkError {
    pub kind: ErrorKind,
    pub path: Vec<String>,
}

/// The mathematical value of a walk failure.
pub struct Fault {
    pub kind: ErrorKind,
    pub path: Seq<Seq<char>>,
}

/// The value of a `WalkError`.
pub open spec fn fault_of(e: WalkError) -> Fault {
    Fault { kind: e.kind, path: e.path@.map(|i: int, s: String| s@) }
}

/// The file-entry value a regular-file child contributes, assuming its
/// stream succeeded.
pub open spec fn file_view_of(name: Seq<char>, bs: ByteStream) -> FileView {
    FileView {
        fs_name: name,
        root: "/"@,
        size: None,
        file_version: None,
        alg: HashAlg::Sha256,
        digest: sha256_of(bs.content()),
    }
}

/// The hash recorded for a regular file is the SHA-256 digest of its full
/// byte content alone: two files with equal content carry equal digests,
/// whatever their names and wherever they stand in the tree.
pub proof fn lemma_hash_depends_on_content_alone(
    n1: Seq<char>,
    b1: ByteStream,
    n2: Seq<char>,
    b2: ByteStream,
)
    requires
        b1.content() == b2.content(),
    ensures
        file_view_of(n1, b1).digest == file_view_of(n2, b2).digest,
{
}

/// The file-entry values one child contributes: one for a regular file,
/// none for anything else.
pub open spec fn entry_files(e: ChildEntry) -> Seq<FileView> {
    match e {
        ChildEntry::File(name, Result::Ok(bs)) => seq![file_view_of(name@, bs)],
        _ => Seq::empty(),
    }
}

/// The fault one child contributes on its own: a file whose stream could
/// not be opened or failed partway. Subdirectory faults are handled by the
/// recursion.
pub open spec fn entry_fault(e: ChildEntry) -> Option<Fault>
    decreases e,
{
    match e {
        ChildEntry::Subdir(name, node) => match first_fault(node) {
            Option::Some(f) => Some(Fault { kind: f.kind, path: seq![name@] + f.path }),
            Option::None => None,
        },
        ChildEntry::File(name, Result::Err(k)) => Some(Fault { kind: k, path: seq![name@] }),
        ChildEntry::File(name, Result::Ok(bs)) => match bs.end {
            Option::Some(k) => Some(Fault { kind: k, path: seq![name@] }),
            Option::None => None,
        },
        _ => None,
    }
}

/// The first fault a walk of this node meets, in traversal order: each
/// delivered child is handled (and a subdirectory fully walked) before the
/// next, and the enumeration's own failure comes after every delivered
/// child. `None` means the whole subtree walks cleanly.
pub open spec fn first_fault(n: DirNode) -> Option<Fault>
    decreases n,
{
    match entries_fault(n.entries@) {
        Option::Some(f) => Some(f),
        Option::None => match n.end {
            Option::Some(k) => Some(Fault { kind: k, path: Seq::empty() }),
            Option::None => None,
        },
    }
}

/// The first fault among a sequence of children, in order.
pub open spec fn entries_fault(s: Seq<ChildEntry>) -> Option<Fault>
    decreases s,
{
    if s.len() == 0 {
        None
    } else {
        match entry_fault(s[0]) {
            Option::Some(f) => Some(f),
            Option::None => entries_fault(s.drop_first()),
        }
    }
}

/// The file-entry values of a sequence of children, in discovery order.
pub open spec fn entries_files(s: Seq<ChildEntry>) -> Seq<FileView>
    decreases s,
{
    if s.len() == 0 {
        Seq::empty()
    } else {
        entry_files(s[0]) + entries_files(s.drop_first())
    }
}

/// The directory-entry values of a sequence of children, in discovery
/// order: one per subdirectory, fully walked.
pub open spec fn entries_dirs(s: Seq<ChildEntry>) -> Seq<DirView>
    decreases s,
{
    if s.len() == 0 {
        Seq::empty()
    } else {
        let head = match s[0] {
            ChildEntry::Subdir(name, node) => seq![spec_walk(name@, node)],
            _ => Seq::empty(),
        };
        head + entries_dirs(s.drop_first())
    }
}

/// The directory value a clean walk of `n` produces under basename `name`:
/// its regular-file children hashed in discovery order and its
/// subdirectories walked recursively, symbolic links and unrecognized
/// children contributing nothing.
pub open spec fn spec_walk(name: Seq<char>, n: DirNode) -> DirView
    decreases n,
{
    DirView {
        fs_name: name,
        root: "/"@,
        files: entries_files(n.entries@),
        dirs: entries_dirs(n.entries@),
    }
}

/// Appending a child appends its file contributions.
pub proof fn lemma_entries_files_push(s: Seq<ChildEntry>, e: ChildEntry)
    ensures
        entries_files(s.push(e)) =~= entries_files(s) + entry_files(e),
    decreases s,
{
    reveal_with_fuel(entries_files, 2);
    if s.len() == 0 {
        assert(s.push(e)[0] == e);
        assert(s.push(e).drop_first() =~= Seq::<ChildEntry>::empty());
    } else {
        assert(s.push(e)[0] == s[0]);
        assert(s.push(e).drop_first() =~= s.drop_first().push(e));
        lemma_entries_files_push(s.drop_first(), e);
    }
}

/// Appending a child appends its directory contribution.
pub proof fn lemma_entries_dirs_push(s: Seq<ChildEntry>, e: ChildEntry)
    ensures
        entries_dirs(s.push(e)) =~= entries_dirs(s) + (match e {
            ChildEntry::Subdir(name, node) => seq![spec_walk(name@, node)],
            _ => Seq::empty(),
        }),
    decreases s,
{
    reveal_with_fuel(entries_dirs, 2);
    if s.len() == 0 {
        assert(s.push(e)[0] == e);
        assert(s.push(e).drop_first() =~= Seq::<ChildEntry>::empty());
    } else {
        assert(s.push(e)[0] == s[0]);
        assert(s.push(e).drop_first() =~= s.drop_first().push(e));
        lemma_entries_dirs_push(s.drop_first(), e);
    }
}

/// Appending a fault-free child to a fault-free sequence keeps it fault
/// free.
pub proof fn lemma_entries_fault_push(s: Seq<ChildEntry>, e: ChildEntry)
    requires
        entries_fault(s) is None,
        entry_fault(e) is None,
    ensures
        entries_fault(s.push(e)) is None,
    decreases s,
{
    reveal_with_fuel(entries_fault, 2);
    if s.len() == 0 {
        assert(s.push(e)[0] == e);
        assert(s.push(e).drop_first() =~= Seq::<ChildEntry>::empty());
    } else {
        assert(s.push(e)[0] == s[0]);
        assert(s.push(e).drop_first() =~= s.drop_first().push(e));
        lemma_entries_fault_push(s.drop_first(), e);
    }
}

/// A fault-free prefix extended by a faulty child makes that child's fault
/// the first of the whole sequence.
pub proof fn lemma_entries_fault_split(s: Seq<ChildEntry>, i: int)
    requires
        0 <= i < s.len(),
        entries_fault(s.subrange(0, i)) is None,
    ensures
        entry_fault(s[i]) is Some ==> entries_fault(s) == entry_fault(s[i]),
    decreases i,
{
    if i == 0 {
    } else {
        assert(s.subrange(0, i)[0] == s[0]);
        assert(entry_fault(s[0]) is None);
        assert(s.subrange(0, i).drop_first() =~= s.drop_first().subrange(0, i - 1));
        assert(s.drop_first()[i - 1] == s[i]);
        lemma_entries_fault_split(s.drop_first(), i - 1);
    }
}

/// A whole sequence of fault-free children has no fault.
pub proof fn lemma_entries_fault_none(s: Seq<ChildEntry>)
    requires
        forall|i: int| 0 <= i < s.len() ==> entry_fault(s[i]) is None,
    ensures
        entries_fault(s) is None,
    decreases s,
{
    if s.len() > 0 {
        assert(forall|i: int|
            0 <= i < s.drop_first().len() ==> s.drop_first()[i] == s[i + 1]);
        lemma_entries_fault_none(s.drop_first());
    }
}

/// A sequence of children holding only symbolic links and unrecognized
/// entries contributes no file and no subdirectory.
pub proof fn lemma_ignored_entries_contribute_nothing(s: Seq<ChildEntry>)
    requires
        forall|i: int| 0 <= i < s.len() ==> (s[i] is Symlink || s[i] is Other),
    ensures
        entries_files(s) =~= Seq::<FileView>::empty(),
        entries_dirs(s) =~= Seq::<DirView>::empty(),
    decreases s,
{
    if s.len() > 0 {
        assert(forall|i: int| 0 <= i < s.drop_first().len() ==> s.drop_first()[i] == s[i + 1]);
        lemma_ignored_entries_contribute_nothing(s.drop_first());
    }
}

/// Symbolic links and unrecognized entry types never appear in the output
/// and never cause a fault: a directory whose enumeration delivers only such
/// children and ends cleanly walks to a value with no files and no
/// subdirectories.
pub proof fn lemma_ignored_entries(name: Seq<char>, n: DirNode)
    requires
        n.end is None,
        forall|i: int| 0 <= i < n.entries@.len() ==> (n.entries@[i] is Symlink || n.entries@[i]
            is Other),
    ensures
        first_fault(n) is None,
        spec_walk(name, n).files =~= Seq::<FileView>::empty(),
        spec_walk(name, n).dirs =~= Seq::<DirView>::empty(),
{
    assert(forall|i: int| 0 <= i < n.entries@.len() ==> entry_fault(n.entries@[i]) is None);
    lemma_entries_fault_none(n.entries@);
    lemma_ignored_entries_contribute_nothing(n.entries@);
}

/// Walk one directory of the snapshot depth-first: hash every regular file,
/// recurse into every subdirectory, drop symbolic links and unrecognized
/// children, and collapse the two result lists into the entry's slots. The
/// walk succeeds exactly when no store fault lies anywhere in the subtree;
/// the first fault met, with the names leading to it, aborts the whole walk.
pub fn walk_dir(fs_name: String, node: &DirNode) -> (r: Result<DirectoryEntry, WalkError>)
    ensures
        (r is Ok) <==> first_fault(*node) is None,
        r matches Ok(d) ==> d.wf() && d.view() == spec_walk(fs_name@, *node),
        r matches Err(e) ==> Some(fault_of(e)) == first_fault(*node),
    decreases *node,
{
    let mut files: Vec<FileEntry> = Vec::new();
    let mut dirs: Vec<DirectoryEntry> = Vec::new();
    let mut i: usize = 0;
    while i < node.entries.len()
        invariant
            i <= node.entries.len(),
            entries_fault(node.entries@.subrange(0, i as int)) is None,
            files_view(files@) == entries_files(node.entries@.subrange(0, i as int)),
            dirs_view(dirs@) == entries_dirs(node.entries@.subrange(0, i as int)),
            dirs_wf(dirs@),
        decreases node.entries.len() - i,
    {
        let ghost prefix = node.entries@.subrange(0, i as int);
        let ghost entry = node.entries@[i as int];
        proof {
            assert(prefix.push(entry) =~= node.entries@.subrange(0, i + 1 as int));
            lemma_entries_files_push(prefix, entry);
            lemma_entries_dirs_push(prefix, entry);
        }
        match &node.entries[i] {
            ChildEntry::Subdir(name, sub) => {
                proof {
                    assert(decreases_to!(*node => node.entries@));
                    assert(decreases_to!(node.entries@ => node.entries@[i as int]));
                    assert(decreases_to!(node.entries@[i as int] => *sub));
                }
                match walk_dir(name.clone(), sub) {
                    Ok(d) => {
                        proof {
                            crate::model::lemma_dirs_view_push(dirs@, d);
                            crate::model::lemma_dirs_wf_push(dirs@, d);
                        }
                        dirs.push(d);
                    },
                    Err(mut e) => {
                        let ghost inner_path = e.path@;
                        e.path.insert(0, name.clone());
                        proof {
                            lemma_entries_fault_split(node.entries@, i as int);
                            assert(e.path@.map(|j: int, s: String| s@)
                                =~= seq![name@] + inner_path.map(|j: int, s: String| s@));
                        }
                        return Err(e);
                    },
                }
            },
            ChildEntry::File(name, data) => {
                match data {
                    Ok(bs) => {
                        match hash_stream(bs) {
                            Ok(digest) => {
                                let f = FileEntry {
                                    fs_name: name.clone(),
                                    root: root_path(),
                                    size: None,
                                    file_version: None,
                                    hash: ContentHash { alg: HashAlg::Sha256, digest },
                                };
                                proof {
                                    crate::model::lemma_files_view_push(files@, f);
                                    assert(f.view() == file_view_of(name@, *bs));
                                }
                                files.push(f);
                            },
                            Err(k) => {
                                proof {
                                    lemma_entries_fault_split(node.entries@, i as int);
                                }
                                let mut path: Vec<String> = Vec::new();
                                path.push(name.clone());
                                let e = WalkError { kind: k, path };
                                proof {
                                    assert(fault_of(e).path =~= seq![name@]);
                                }
                                return Err(e);
                            },
                        }
                    },
                    Err(k) => {
                        proof {
                            lemma_entries_fault_split(node.entries@, i as int);
                        }
                        let mut path: Vec<String> = Vec::new();
                        path.push(name.clone());
                        let e = WalkError { kind: *k, path };
                        proof {
                            assert(fault_of(e).path =~= seq![name@]);
                        }
                        return Err(e);
                    },
                }
            },
            ChildEntry::Symlink(_) => {},
            ChildEntry::Other(_) => {},
        }
        proof {
            lemma_entries_fault_push(prefix, entry);
            assert(entries_files(prefix) + Seq::<FileView>::empty() =~= entries_files(prefix));
            assert(entries_dirs(prefix) + Seq::<DirView>::empty() =~= entries_dirs(prefix));
        }
        i += 1;
    }
    proof {
        assert(node.entries@.subrange(0, node.entries@.len() as int) =~= node.entries@);
    }
    match node.end {
        Some(k) => {
            let e = WalkError { kind: k, path: Vec::new() };
            proof {
                assert(fault_of(e).path =~= Seq::<Seq<char>>::empty());
            }
            Err(e)
        },
        None => {
            let file_slot = collapse(files);
            let dir_slot = collapse(dirs);
            let d = DirectoryEntry {
                fs_name,
                root: root_path(),
                path_elements: Box::new(PathElements { file: file_slot, directory: dir_slot }),
            };
            proof {
                d.lemma_view_slots();
            }
            Ok(d)
        },
    }
}

} // verus!
