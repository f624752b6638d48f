//! Where each artifact lives under the configured root directory:
//! `<root>/<kind directory>/<identifier text>.rgb`.

use vstd::prelude::*;
use crate::hex::id_hex;
use crate::ids::{
    anchor_id_text, contract_id_bech32, contract_id_text,
    node_id_text, schema_id_bech32, schema_id_text, AnchorId, ContractId, NodeId, SchemaId,
};

verus! {

/// The five kinds of artifacts that the stash keeps.
#[derive(Clone, Copy, Debug, PartialEq, Eq, Structural)]
pub enum ArtifactKind {
    Schema,
    Genesis,
    Transition,
    Extension,
    Anchor,
}

/// Name of the sub-directory that holds the artifacts of one kind.
pub open spec fn kind_dir_name(k: ArtifactKind) -> Seq<char> {
    match k {
        ArtifactKind::Schema => "schemata"@,
        ArtifactKind::Genesis => "geneses"@,
        ArtifactKind::Transition => "transitions"@,
        ArtifactKind::Extension => "extensions"@,
        ArtifactKind::Anchor => "anchors"@,
    }
}

/// Joins a relative name onto a base path with one `/` between them.
pub open spec fn join_spec(base: Seq<char>, name: Seq<char>) -> Seq<char> {
    if base.len() == 0 {
        name
    } else if base.last() == '/' {
        base + name
    } else {
        base + seq!['/'] + name
    }
}

/// The file extension of every stored artifact, with its dot.
pub open spec fn rgb_suffix() -> Seq<char> {
    seq!['.', 'r', 'g', 'b']
}

/// Directory of one kind under the root.
pub open spec fn kind_dir_spec(root: Seq<char>, k: ArtifactKind) -> Seq<char> {
    join_spec(root, kind_dir_name(k))
}

/// Path of the artifact of kind `k` whose identifier reads `id_text`.
pub open spec fn artifact_path(root: Seq<char>, k: ArtifactKind, id_text: Seq<char>) -> Seq<char> {
    join_spec(kind_dir_spec(root, k), id_text + rgb_suffix())
}

/// Joins `name` onto `base` as a path component.
pub fn join_path(base: &str, name: &str) -> (r: String)
    ensures
        r@ == join_spec(base@, name@),
{
    let n = base.unicode_len();
    if n == 0 {
        return String::from_str(name);
    }
    let last = base.get_char(n - 1);
    let mut r = String::from_str(base);
    if last != '/' {
        proof {
            reveal_strlit("/");
        }
        r.append("/");
    }
    r.append(name);
    r
}

/// Name of the sub-directory of one kind.
pub fn kind_dir_str(k: ArtifactKind) -> (r: &'static str)
    ensures
        r@ == kind_dir_name(k),
{
    proof {
        reveal_strlit("schemata");
        reveal_strlit("geneses");
        reveal_strlit("transitions");
        reveal_strlit("extensions");
        reveal_strlit("anchors");
    }
    match k {
        ArtifactKind::Schema => "schemata",
        ArtifactKind::Genesis => "geneses",
        ArtifactKind::Transition => "transitions",
        ArtifactKind::Extension => "extensions",
        ArtifactKind::Anchor => "anchors",
    }
}

/// Configuration of the on-disk store: the root directory of all its files.
#[derive(Clone, Debug)]
pub struct DiskStorageConfig {
    pub data_dir: String,
}

impl DiskStorageConfig {
    /// Directory that holds the artifacts of kind `k`.
    pub fn kind_dir(&self, k: ArtifactKind) -> (r: String)
        ensures
            r@ == kind_dir_spec(self.data_dir@, k),
    {
        join_path(self.data_dir.as_str(), kind_dir_str(k))
    }

    pub fn schemata_dir(&self) -> (r: String)
        ensures
            r@ == kind_dir_spec(self.data_dir@, ArtifactKind::Schema),
    {
        self.kind_dir(ArtifactKind::Schema)
    }

    pub fn geneses_dir(&self) -> (r: String)
        ensures
            r@ == kind_dir_spec(self.data_dir@, ArtifactKind::Genesis),
    {
        self.kind_dir(ArtifactKind::Genesis)
    }

    pub fn anchors_dir(&self) -> (r: String)
        ensures
            r@ == kind_dir_spec(self.data_dir@, ArtifactKind::Anchor),
    {
        self.kind_dir(ArtifactKind::Anchor)
    }

    pub fn transitions_dir(&self) -> (r: String)
        ensures
            r@ == kind_dir_spec(self.data_dir@, ArtifactKind::Transition),
    {
        self.kind_dir(ArtifactKind::Transition)
    }

    pub fn extensions_dir(&self) -> (r: String)
        ensures
            r@ == kind_dir_spec(self.data_dir@, ArtifactKind::Extension),
    {
        self.kind_dir(ArtifactKind::Extension)
    }

    /// Path of the artifact of kind `k` whose identifier reads `id_text`.
    pub fn artifact_filename(&self, k: ArtifactKind, id_text: &str) -> (r: String)
        ensures
            r@ == artifact_path(self.data_dir@, k, id_text@),
    {
        let dir = self.kind_dir(k);
        let mut name = String::from_str(id_text);
        proof {
            reveal_strlit(".rgb");
        }
        name.append(".rgb");
        join_path(dir.as_str(), name.as_str())
    }

    pub fn schema_filename(&self, schema_id: &SchemaId) -> (r: String)
        ensures
            r@ == artifact_path(self.data_dir@, ArtifactKind::Schema, schema_id_bech32(schema_id@)),
    {
        let text = schema_id_text(schema_id);
        self.artifact_filename(ArtifactKind::Schema, text.as_str())
    }

    pub fn genesis_filename(&self, contract_id: &ContractId) -> (r: String)
        ensures
            r@ == artifact_path(
                self.data_dir@,
                ArtifactKind::Genesis,
                contract_id_bech32(contract_id@),
            ),
    {
        let text = contract_id_text(contract_id);
        self.artifact_filename(ArtifactKind::Genesis, text.as_str())
    }

    pub fn anchor_filename(&self, anchor_id: &AnchorId) -> (r: String)
        ensures
            r@ == artifact_path(self.data_dir@, ArtifactKind::Anchor, id_hex(anchor_id@)),
    {
        let text = anchor_id_text(anchor_id);
        self.artifact_filename(ArtifactKind::Anchor, text.as_str())
    }

    pub fn transition_filename(&self, node_id: &NodeId) -> (r: String)
        ensures
            r@ == artifact_path(self.data_dir@, ArtifactKind::Transition, id_hex(node_id@)),
    {
        let text = node_id_text(node_id);
        self.artifact_filename(ArtifactKind::Transition, text.as_str())
    }

    pub fn extension_filename(&self, node_id: &NodeId) -> (r: String)
        ensures
            r@ == artifact_path(self.data_dir@, ArtifactKind::Extension, id_hex(node_id@)),
    {
        let text = node_id_text(node_id);
        self.artifact_filename(ArtifactKind::Extension, text.as_str())
    }
}

} // verus!
