use vstd::prelude::*;

use crate::codec::{encode_tag, spec_encode_tag};
use crate::model::{CoswidTag, DirView, DirectoryEntry, EntityEntry, EntityRole, EntityView, TagView};
use crate::one_or_many::OneOrMany;
use crate::store::DirNode;
use crate::walker::{fault_of, first_fault, spec_walk, walk_dir, WalkError};

verus! {

/// The static run metadata the assembled tag carries.
pub struct TagMetadata {
    pub tag_id: String,
    pub tag_version: u64,
    pub software_name: String,
    pub software_version: Option<String>,
    pub entity_name: String,
}

/// The tag value assembly produces from run metadata and a walked root.
pub open spec fn spec_assembled(meta: TagMetadata, root: DirView) -> TagView {
    TagView {
        tag_id: meta.tag_id@,
        tag_version: meta.tag_version,
        corpus: true,
        patch: false,
        supplemental: false,
        software_name: meta.software_name@,
        software_version: match meta.software_version {
            Option::Some(v) => Some(v@),
            Option::None => None,
        },
        entities: seq![
            EntityView {
                entity_name: meta.entity_name@,
                reg_id: None,
                roles: seq![EntityRole::TagCreator],
                thumbprint: None,
            },
        ],
        payload: Some(root),
    }
}

/// Wrap the walked root directory into the top-level identity tag: the run
/// metadata is copied into place, the document-class flags are fixed to a
/// corpus tag, the one authoring entity is declared as the tag creator, and
/// the payload wraps the root directory. Nothing is computed.
pub fn assemble_tag(root: DirectoryEntry, meta: TagMetadata) -> (t: CoswidTag)
    ensures
        t.tag_id == meta.tag_id,
        t.tag_version == meta.tag_version,
        t.corpus,
        !t.patch,
        !t.supplemental,
        t.software_name == meta.software_name,
        t.software_version == meta.software_version,
        t.entity matches OneOrMany::One(e) && (e.entity_name == meta.entity_name
            && e.reg_id is None && e.thumbprint is None
            && (e.role matches OneOrMany::One(r) && r is TagCreator)),
        t.payload == Some(root),
        root.wf() ==> t.wf(),
        t.view() == spec_assembled(meta, root.view()),
{
    let t = CoswidTag {
        tag_id: meta.tag_id,
        tag_version: meta.tag_version,
        corpus: true,
        patch: false,
        supplemental: false,
        software_name: meta.software_name,
        software_version: meta.software_version,
        entity: OneOrMany::One(EntityEntry {
            entity_name: meta.entity_name,
            reg_id: None,
            role: OneOrMany::One(EntityRole::TagCreator),
            thumbprint: None,
        }),
        payload: Some(root),
    };
    proof {
        assert(t.view().entities =~= spec_assembled(meta, root.view()).entities);
        assert(crate::one_or_many::oom_seq(t.entity) =~= seq![t.entity->One_0]);
    }
    t
}

/// Build the whole document for one snapshot: walk the tree from its root,
/// assemble the tag around the walked root, and encode it to its binary
/// form. The bytes are produced exactly when no store fault lies anywhere in
/// the snapshot; otherwise the first fault met, with the names leading to
/// it, is reported and nothing is produced.
pub fn build_tag_bytes(root_name: String, node: &DirNode, meta: TagMetadata) -> (r: Result<
    Vec<u8>,
    WalkError,
>)
    ensures
        (r is Ok) <==> first_fault(*node) is None,
        r matches Ok(b) ==> b@ == spec_encode_tag(
            spec_assembled(meta, spec_walk(root_name@, *node)),
        ),
        r matches Err(e) ==> Some(fault_of(e)) == first_fault(*node),
{
    let root = match walk_dir(root_name, node) {
        Ok(d) => d,
        Err(e) => {
            return Err(e);
        },
    };
    let tag = assemble_tag(root, meta);
    Ok(encode_tag(&tag))
}

/// Determinism: two runs of the builder over equal snapshots, with equal
/// root names and equal metadata, produce byte-identical encoded output.
pub proof fn lemma_builder_deterministic(
    meta1: TagMetadata,
    meta2: TagMetadata,
    name1: String,
    name2: String,
    n1: DirNode,
    n2: DirNode,
)
    requires
        meta1 == meta2,
        name1@ == name2@,
        n1 == n2,
    ensures
        spec_encode_tag(spec_assembled(meta1, spec_walk(name1@, n1))) == spec_encode_tag(
            spec_assembled(meta2, spec_walk(name2@, n2)),
        ),
{
}

} // verus!
