//! The codec boundary: identifiers and strict encodings of the artifacts, as
//! rgb and strict_encoding compute them.

use vstd::prelude::*;
use crate::ids::{ContractId, NodeId, SchemaId};

verus! {

#[verifier::external_type_specification]
#[verifier::external_body]
pub struct ExSchema(rgb::Schema);

#[verifier::external_type_specification]
#[verifier::external_body]
pub struct ExGenesis(rgb::Genesis);

#[verifier::external_type_specification]
#[verifier::external_body]
pub struct ExTransition(rgb::Transition);

#[verifier::external_type_specification]
#[verifier::external_body]
pub struct ExExtension(rgb::Extension);

/// The strict encoding of a schema, or `None` where encoding fails (a
/// collection too large for its length prefix).
pub uninterp spec fn schema_encoding(s: rgb::Schema) -> Option<Seq<u8>>;

/// The strict encoding of a genesis, or `None` where encoding fails.
pub uninterp spec fn genesis_encoding(g: rgb::Genesis) -> Option<Seq<u8>>;

/// The strict encoding of a state transition, or `None` where encoding fails.
pub uninterp spec fn transition_encoding(t: rgb::Transition) -> Option<Seq<u8>>;

/// The strict encoding of a state extension, or `None` where encoding fails.
pub uninterp spec fn extension_encoding(e: rgb::Extension) -> Option<Seq<u8>>;

/// The schema identifier committed to by bytes: their tagged hash.
pub uninterp spec fn schema_id_of_encoding(b: Seq<u8>) -> Seq<u8>;

/// The contract identifier of a genesis.
pub uninterp spec fn genesis_contract_id(g: rgb::Genesis) -> Seq<u8>;

/// The node identifier of a state transition.
pub uninterp spec fn transition_node_id(t: rgb::Transition) -> Seq<u8>;

/// The node identifier of a state extension.
pub uninterp spec fn extension_node_id(e: rgb::Extension) -> Seq<u8>;

/// Whether bytes are, entirely, the strict encoding of a schema.
pub uninterp spec fn schema_decodes(b: Seq<u8>) -> bool;

/// Whether bytes are, entirely, the strict encoding of a genesis.
pub uninterp spec fn genesis_decodes(b: Seq<u8>) -> bool;

/// Whether bytes are, entirely, the strict encoding of a state transition.
pub uninterp spec fn transition_decodes(b: Seq<u8>) -> bool;

/// Whether bytes are, entirely, the strict encoding of a state extension.
pub uninterp spec fn extension_decodes(b: Seq<u8>) -> bool;

/// Relies on rgb's `CommitVerify<_, PrehashedProtocol> for SchemaId`: the
/// tagged hash of the bytes. `Schema::schema_id` commits to the schema's
/// strict encoding this way, so on those bytes it gives the schema identifier.
#[verifier::external_body]
pub(crate) fn schema_id_from_encoding(b: &Vec<u8>) -> (r: SchemaId)
    ensures
        r@ == schema_id_of_encoding(b@),
{
    let id = <rgb::SchemaId as commit_verify::CommitVerify<&[u8], commit_verify::PrehashedProtocol>>::commit(&b.as_slice());
    SchemaId { bytes: bitcoin::hashes::Hash::into_inner(*id) }
}

/// Relies on rgb's `Node::node_id` on a genesis, whose node identifier is
/// the contract identifier. Called only on a genesis that strict-encodes,
/// since the commitment strict-encodes its parts and panics where that fails.
#[verifier::external_body]
pub(crate) fn contract_id_of(g: &rgb::Genesis) -> (r: ContractId)
    requires
        genesis_encoding(*g) is Some,
    ensures
        r@ == genesis_contract_id(*g),
{
    ContractId { bytes: bitcoin::hashes::Hash::into_inner(*rgb::Node::node_id(g)) }
}

/// Relies on rgb's `Node::node_id` on a state transition. Called only on a
/// transition that strict-encodes, as for a genesis.
#[verifier::external_body]
pub(crate) fn transition_id_of(t: &rgb::Transition) -> (r: NodeId)
    requires
        transition_encoding(*t) is Some,
    ensures
        r@ == transition_node_id(*t),
{
    NodeId { bytes: bitcoin::hashes::Hash::into_inner(*rgb::Node::node_id(t)) }
}

/// Relies on rgb's `Node::node_id` on a state extension. Called only on an
/// extension that strict-encodes, as for a genesis.
#[verifier::external_body]
pub(crate) fn extension_id_of(e: &rgb::Extension) -> (r: NodeId)
    requires
        extension_encoding(*e) is Some,
    ensures
        r@ == extension_node_id(*e),
{
    NodeId { bytes: bitcoin::hashes::Hash::into_inner(*rgb::Node::node_id(e)) }
}

/// Relies on `strict_encoding::strict_serialize` for a schema; `None` where it
/// reports an error.
#[verifier::external_body]
pub(crate) fn encode_schema(s: &rgb::Schema) -> (r: Option<Vec<u8>>)
    ensures
        r is None <==> schema_encoding(*s) is None,
        r matches Some(b) ==> schema_encoding(*s) == Some(b@),
{
    strict_encoding::strict_serialize(s).ok()
}

/// Relies on `strict_encoding::strict_serialize` for a genesis.
#[verifier::external_body]
pub(crate) fn encode_genesis(g: &rgb::Genesis) -> (r: Option<Vec<u8>>)
    ensures
        r is None <==> genesis_encoding(*g) is None,
        r matches Some(b) ==> genesis_encoding(*g) == Some(b@),
{
    strict_encoding::strict_serialize(g).ok()
}

/// Relies on `strict_encoding::strict_serialize` for a state transition.
#[verifier::external_body]
pub(crate) fn encode_transition(t: &rgb::Transition) -> (r: Option<Vec<u8>>)
    ensures
        r is None <==> transition_encoding(*t) is None,
        r matches Some(b) ==> transition_encoding(*t) == Some(b@),
{
    strict_encoding::strict_serialize(t).ok()
}

/// Relies on `strict_encoding::strict_serialize` for a state extension.
#[verifier::external_body]
pub(crate) fn encode_extension(e: &rgb::Extension) -> (r: Option<Vec<u8>>)
    ensures
        r is None <==> extension_encoding(*e) is None,
        r matches Some(b) ==> extension_encoding(*e) == Some(b@),
{
    strict_encoding::strict_serialize(e).ok()
}

/// Relies on `strict_encoding::strict_deserialize` for a schema, which
/// succeeds or fails by the bytes alone, and fails where bytes are left over.
#[verifier::external_body]
pub(crate) fn decode_schema(b: &Vec<u8>) -> (r: Option<rgb::Schema>)
    ensures
        r is Some == schema_decodes(b@),
{
    strict_encoding::strict_deserialize(b).ok()
}

/// Relies on `strict_encoding::strict_deserialize` for a genesis.
#[verifier::external_body]
pub(crate) fn decode_genesis(b: &Vec<u8>) -> (r: Option<rgb::Genesis>)
    ensures
        r is Some == genesis_decodes(b@),
{
    strict_encoding::strict_deserialize(b).ok()
}

/// Relies on `strict_encoding::strict_deserialize` for a state transition.
#[verifier::external_body]
pub(crate) fn decode_transition(b: &Vec<u8>) -> (r: Option<rgb::Transition>)
    ensures
        r is Some == transition_decodes(b@),
{
    strict_encoding::strict_deserialize(b).ok()
}

/// Relies on `strict_encoding::strict_deserialize` for a state extension.
#[verifier::external_body]
pub(crate) fn decode_extension(b: &Vec<u8>) -> (r: Option<rgb::Extension>)
    ensures
        r is Some == extension_decodes(b@),
{
    strict_encoding::strict_deserialize(b).ok()
}

} // verus!
