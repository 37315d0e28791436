use vstd::prelude::*;

use crate::one_or_many::{slot_seq, slot_wf, OneOrMany};

verus! {

/// The hash algorithm of a content hash. Only SHA-256 is produced here; the
/// wire identifier of each algorithm follows the IANA named-information
/// registry.
#[derive(Debug)]
pub enum HashAlg {
    Sha256,
}

impl HashAlg {
    /// The registry identifier this algorithm is encoded as.
    pub open spec fn spec_wire_id(self) -> u64 {
        match self {
            HashAlg::Sha256 => 1,
        }
    }

    /// The registry identifier this algorithm is encoded as.
    pub fn wire_id(&self) -> (r: u64)
        ensures
            r == self.spec_wire_id(),
    {
        match self {
            HashAlg::Sha256 => 1,
        }
    }
}

/// A content hash: the algorithm and the digest bytes it produced.
#[derive(Debug)]
pub struct ContentHash {
    pub alg: HashAlg,
    pub digest: Vec<u8>,
}

/// One regular file of the tree: its basename, the declared root path the
/// hash attests to, an optional size and version (unset here), and the hash
/// of its full content.
#[derive(Debug)]
pub struct FileEntry {
    pub fs_name: String,
    pub root: String,
    pub size: Option<u64>,
    pub file_version: Option<String>,
    pub hash: ContentHash,
}

/// One directory of the tree: its basename (empty for the tree root), the
/// declared root path, and its direct children grouped into the two
/// cardinality-collapsed slots.
#[derive(Debug)]
pub struct DirectoryEntry {
    pub fs_name: String,
    pub root: String,
    pub path_elements: Box<PathElements>,
}

/// The children of one directory: a slot for its regular files and a slot for
/// its subdirectories, each absent / single / list by the collapsing rule.
#[derive(Debug)]
pub struct PathElements {
    pub file: Option<OneOrMany<FileEntry>>,
    pub directory: Option<OneOrMany<DirectoryEntry>>,
}

/// The role an authoring entity declares. Only the tag creator appears here.
pub enum EntityRole {
    TagCreator,
}

impl EntityRole {
    /// The wire identifier of this role.
    pub open spec fn spec_wire_id(self) -> u64 {
        match self {
            EntityRole::TagCreator => 1,
        }
    }

    /// The wire identifier of this role.
    pub fn wire_id(&self) -> (r: u64)
        ensures
            r == self.spec_wire_id(),
    {
        match self {
            EntityRole::TagCreator => 1,
        }
    }
}

/// One authoring entity of the tag: a display name, an optional registration
/// id, its declared roles, and an optional thumbprint.
pub struct EntityEntry {
    pub entity_name: String,
    pub reg_id: Option<String>,
    pub role: OneOrMany<EntityRole>,
    pub thumbprint: Option<ContentHash>,
}

/// The top-level software-identity document: identification, the three
/// document-class flags, the authoring entities, and a payload wrapping the
/// root directory of the walked tree when one was produced.
pub struct CoswidTag {
    pub tag_id: String,
    pub tag_version: u64,
    pub corpus: bool,
    pub patch: bool,
    pub supplemental: bool,
    pub software_name: String,
    pub software_version: Option<String>,
    pub entity: OneOrMany<EntityEntry>,
    pub payload: Option<DirectoryEntry>,
}

/// The mathematical value of one file entry.
pub struct FileView {
    pub fs_name: Seq<char>,
    pub root: Seq<char>,
    pub size: Option<u64>,
    pub file_version: Option<Seq<char>>,
    pub alg: HashAlg,
    pub digest: Seq<u8>,
}

/// The mathematical value of one directory entry: its children are plain
/// sequences; the collapsed slot shape is recovered from their lengths.
pub struct DirView {
    pub fs_name: Seq<char>,
    pub root: Seq<char>,
    pub files: Seq<FileView>,
    pub dirs: Seq<DirView>,
}

/// The mathematical value of one authoring entity.
pub struct EntityView {
    pub entity_name: Seq<char>,
    pub reg_id: Option<Seq<char>>,
    pub roles: Seq<EntityRole>,
    pub thumbprint: Option<(HashAlg, Seq<u8>)>,
}

/// The mathematical value of the whole tag.
pub struct TagView {
    pub tag_id: Seq<char>,
    pub tag_version: u64,
    pub corpus: bool,
    pub patch: bool,
    pub supplemental: bool,
    pub software_name: Seq<char>,
    pub software_version: Option<Seq<char>>,
    pub entities: Seq<EntityView>,
    pub payload: Option<DirView>,
}

impl EntityEntry {
    /// The value of this entity.
    pub open spec fn view(self) -> EntityView {
        EntityView {
            entity_name: self.entity_name@,
            reg_id: match self.reg_id {
                Some(r) => Some(r@),
                None => None,
            },
            roles: crate::one_or_many::oom_seq(self.role),
            thumbprint: match self.thumbprint {
                Some(h) => Some((h.alg, h.digest@)),
                None => None,
            },
        }
    }

    /// Well-formedness: the role list obeys the collapsing rule and holds at
    /// least one role.
    pub open spec fn wf(self) -> bool {
        crate::one_or_many::oom_wf(self.role) && crate::one_or_many::oom_seq(self.role).len() >= 1
    }
}

/// The values of a sequence of entities.
pub open spec fn entities_view(s: Seq<EntityEntry>) -> Seq<EntityView> {
    s.map(|i: int, e: EntityEntry| e.view())
}

impl CoswidTag {
    /// The value of this tag.
    pub open spec fn view(self) -> TagView {
        TagView {
            tag_id: self.tag_id@,
            tag_version: self.tag_version,
            corpus: self.corpus,
            patch: self.patch,
            supplemental: self.supplemental,
            software_name: self.software_name@,
            software_version: match self.software_version {
                Some(v) => Some(v@),
                None => None,
            },
            entities: entities_view(crate::one_or_many::oom_seq(self.entity)),
            payload: match self.payload {
                Some(d) => Some(d.view()),
                None => None,
            },
        }
    }

    /// Well-formedness: the entity list obeys the collapsing rule and holds
    /// at least one entity, every entity is well formed, and the payload
    /// directory, when present, is well formed throughout.
    pub open spec fn wf(self) -> bool {
        &&& crate::one_or_many::oom_wf(self.entity)
        &&& crate::one_or_many::oom_seq(self.entity).len() >= 1
        &&& forall|i: int|
            0 <= i < crate::one_or_many::oom_seq(self.entity).len()
                ==> crate::one_or_many::oom_seq(self.entity)[i].wf()
        &&& match self.payload {
            Some(d) => d.wf(),
            None => true,
        }
    }
}

impl FileEntry {
    /// The value of this file entry.
    pub open spec fn view(self) -> FileView {
        FileView {
            fs_name: self.fs_name@,
            root: self.root@,
            size: self.size,
            file_version: match self.file_version {
                Some(v) => Some(v@),
                None => None,
            },
            alg: self.hash.alg,
            digest: self.hash.digest@,
        }
    }
}

/// The values of a sequence of file entries.
pub open spec fn files_view(s: Seq<FileEntry>) -> Seq<FileView> {
    s.map(|i: int, f: FileEntry| f.view())
}

impl DirectoryEntry {
    /// The value of this directory entry, children included.
    pub open spec fn view(self) -> DirView
        decreases self,
    {
        DirView {
            fs_name: self.fs_name@,
            root: self.root@,
            files: files_view(slot_seq(self.path_elements.file)),
            dirs: match self.path_elements.directory {
                Option::None => Seq::empty(),
                Option::Some(OneOrMany::One(d)) => seq![d.view()],
                Option::Some(OneOrMany::Many(v)) => dirs_view(v@),
            },
        }
    }

    /// Well-formedness: both child slots obey the collapsing rule, and so
    /// does every directory below this one.
    pub open spec fn wf(self) -> bool
        decreases self,
    {
        &&& slot_wf(self.path_elements.file)
        &&& slot_wf(self.path_elements.directory)
        &&& match self.path_elements.directory {
            Option::None => true,
            Option::Some(OneOrMany::One(d)) => d.wf(),
            Option::Some(OneOrMany::Many(v)) => dirs_wf(v@),
        }
    }

    /// The children sequences of the value agree with `dirs_view` and
    /// `dirs_wf` applied to the directory slot's sequence.
    pub proof fn lemma_view_slots(self)
        ensures
            self.view().dirs =~= dirs_view(slot_seq(self.path_elements.directory)),
            self.wf() <==> (slot_wf(self.path_elements.file) && slot_wf(self.path_elements.directory)
                && dirs_wf(slot_seq(self.path_elements.directory))),
    {
        reveal_with_fuel(dirs_view, 2);
        reveal_with_fuel(dirs_wf, 2);
        match self.path_elements.directory {
            Option::None => {
            },
            Option::Some(OneOrMany::One(d)) => {
                assert(seq![d].drop_first() =~= Seq::<DirectoryEntry>::empty());
                assert(seq![d][0] == d);
                assert(dirs_view(seq![d]) =~= seq![d.view()]);
                assert(dirs_wf(seq![d]) <==> d.wf());
            },
            Option::Some(OneOrMany::Many(v)) => {},
        }
    }
}

/// The values of a sequence of directory entries.
pub open spec fn dirs_view(s: Seq<DirectoryEntry>) -> Seq<DirView>
    decreases s,
{
    if s.len() == 0 {
        Seq::empty()
    } else {
        seq![s[0].view()] + dirs_view(s.drop_first())
    }
}

/// Well-formedness of every directory entry in a sequence.
pub open spec fn dirs_wf(s: Seq<DirectoryEntry>) -> bool
    decreases s,
{
    if s.len() == 0 {
        true
    } else {
        s[0].wf() && dirs_wf(s.drop_first())
    }
}

/// `dirs_view` maps the sequence element by element.
pub proof fn lemma_dirs_view_index(s: Seq<DirectoryEntry>)
    ensures
        dirs_view(s).len() == s.len(),
        forall|i: int| 0 <= i < s.len() ==> dirs_view(s)[i] == s[i].view(),
    decreases s,
{
    if s.len() > 0 {
        lemma_dirs_view_index(s.drop_first());
    }
}

/// Appending a directory appends its value to `dirs_view`.
pub proof fn lemma_dirs_view_push(s: Seq<DirectoryEntry>, d: DirectoryEntry)
    ensures
        dirs_view(s.push(d)) =~= dirs_view(s) + seq![d.view()],
    decreases s,
{
    reveal_with_fuel(dirs_view, 2);
    if s.len() == 0 {
        assert(s.push(d)[0] == d);
        assert(s.push(d).drop_first() =~= Seq::<DirectoryEntry>::empty());
    } else {
        assert(s.push(d)[0] == s[0]);
        assert(s.push(d).drop_first() =~= s.drop_first().push(d));
        lemma_dirs_view_push(s.drop_first(), d);
    }
}

/// Appending a well-formed directory keeps the sequence well formed.
pub proof fn lemma_dirs_wf_push(s: Seq<DirectoryEntry>, d: DirectoryEntry)
    requires
        dirs_wf(s),
        d.wf(),
    ensures
        dirs_wf(s.push(d)),
    decreases s,
{
    reveal_with_fuel(dirs_wf, 2);
    if s.len() == 0 {
        assert(s.push(d)[0] == d);
        assert(s.push(d).drop_first() =~= Seq::<DirectoryEntry>::empty());
    } else {
        assert(s.push(d)[0] == s[0]);
        assert(s.push(d).drop_first() =~= s.drop_first().push(d));
        lemma_dirs_wf_push(s.drop_first(), d);
    }
}

/// Appending a file appends its value to `files_view`.
pub proof fn lemma_files_view_push(s: Seq<FileEntry>, f: FileEntry)
    ensures
        files_view(s.push(f)) =~= files_view(s) + seq![f.view()],
{
}

/// Cardinality law for a directory's children: under well-formedness the
/// file slot is absent exactly when the directory holds no regular-file
/// children, holds the lone entry directly exactly when it holds one, and
/// holds an ordered list exactly when it holds two or more — and the same
/// law holds independently for the subdirectory slot.
pub proof fn lemma_path_elements_cardinality(d: DirectoryEntry)
    requires
        d.wf(),
    ensures
        (d.path_elements.file is None) <==> d.view().files.len() == 0,
        (d.path_elements.file matches Some(OneOrMany::One(f)) <==> d.view().files.len() == 1),
        (d.path_elements.file matches Some(OneOrMany::Many(v)) <==> d.view().files.len() >= 2),
        (d.path_elements.directory is None) <==> d.view().dirs.len() == 0,
        (d.path_elements.directory matches Some(OneOrMany::One(c)) <==> d.view().dirs.len() == 1),
        (d.path_elements.directory matches Some(OneOrMany::Many(v)) <==> d.view().dirs.len() >= 2),
{
    d.lemma_view_slots();
    lemma_dirs_view_index(slot_seq(d.path_elements.directory));
    crate::one_or_many::lemma_slot_cardinality(d.path_elements.file);
    crate::one_or_many::lemma_slot_cardinality(d.path_elements.directory);
}

/// A well-formed directory entry with no file children and no subdirectory
/// children has both slots absent.
pub proof fn lemma_empty_children_absent_slots(d: DirectoryEntry)
    requires
        d.wf(),
        d.view().files.len() == 0,
        d.view().dirs.len() == 0,
    ensures
        d.path_elements.file is None,
        d.path_elements.directory is None,
{
    lemma_path_elements_cardinality(d);
}

/// `dirs_wf` holds exactly when each element is well formed.
pub proof fn lemma_dirs_wf_index(s: Seq<DirectoryEntry>)
    ensures
        dirs_wf(s) <==> (forall|i: int| 0 <= i < s.len() ==> s[i].wf()),
    decreases s,
{
    if s.len() > 0 {
        lemma_dirs_wf_index(s.drop_first());
        if forall|i: int| 0 <= i < s.len() ==> s[i].wf() {
            assert(s[0].wf());
            assert(forall|i: int| 0 <= i < s.drop_first().len() ==> s.drop_first()[i] == s[i + 1]);
        }
        if dirs_wf(s) {
            assert forall|i: int| 0 <= i < s.len() implies s[i].wf() by {
                if i > 0 {
                    assert(s.drop_first()[i - 1] == s[i]);
                }
            }
        }
    }
}

} // verus!
