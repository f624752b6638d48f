//! Identifiers of the five artifact kinds, held as their 32 hash bytes, and
//! their textual forms (bech32 for schemata and contracts, hexadecimal for
//! nodes and anchors).

use vstd::prelude::*;
use crate::hex::{id_hex, id_to_hex};

verus! {

/// Identifier of a schema: the tagged hash of its canonical encoding.
#[derive(Clone, Copy, Debug)]
pub struct SchemaId {
    pub bytes: [u8; 32],
}

/// Identifier of a contract: the node identifier of its genesis.
#[derive(Clone, Copy, Debug)]
pub struct ContractId {
    pub bytes: [u8; 32],
}

/// Identifier of a state transition or a state extension.
#[derive(Clone, Copy, Debug)]
pub struct NodeId {
    pub bytes: [u8; 32],
}

/// Identifier of an anchor.
#[derive(Clone, Copy, Debug)]
pub struct AnchorId {
    pub bytes: [u8; 32],
}

impl View for SchemaId {
    type V = Seq<u8>;

    open spec fn view(&self) -> Seq<u8> {
        self.bytes@
    }
}

impl View for ContractId {
    type V = Seq<u8>;

    open spec fn view(&self) -> Seq<u8> {
        self.bytes@
    }
}

impl View for NodeId {
    type V = Seq<u8>;

    open spec fn view(&self) -> Seq<u8> {
        self.bytes@
    }
}

impl View for AnchorId {
    type V = Seq<u8>;

    open spec fn view(&self) -> Seq<u8> {
        self.bytes@
    }
}

/// Whether two 32-byte arrays hold the same bytes.
pub fn bytes32_eq(a: &[u8; 32], b: &[u8; 32]) -> (r: bool)
    ensures
        r == (a@ == b@),
{
    let mut i: usize = 0;
    while i < 32
        invariant
            i <= 32,
            a@.len() == 32,
            b@.len() == 32,
            forall|j: int| 0 <= j < i ==> a@[j] == b@[j],
        decreases 32 - i,
    {
        if a[i] != b[i] {
            assert(a@[i as int] != b@[i as int]);
            return false;
        }
        i = i + 1;
    }
    assert(a@ =~= b@);
    true
}

impl NodeId {
    /// Whether both identifiers name the same node.
    pub fn same_as(&self, other: &NodeId) -> (r: bool)
        ensures
            r == (self@ == other@),
    {
        bytes32_eq(&self.bytes, &other.bytes)
    }
}

impl AnchorId {
    /// Whether both identifiers name the same anchor.
    pub fn same_as(&self, other: &AnchorId) -> (r: bool)
        ensures
            r == (self@ == other@),
    {
        bytes32_eq(&self.bytes, &other.bytes)
    }
}

/// The bech32 text (human-readable part `rgbsh`) of a schema identifier.
pub uninterp spec fn schema_id_bech32(b: Seq<u8>) -> Seq<char>;

/// The bech32 text (human-readable part `rgb`) of a contract identifier.
pub uninterp spec fn contract_id_bech32(b: Seq<u8>) -> Seq<char>;

/// The schema identifier that a text decodes to as bech32, if any.
pub uninterp spec fn schema_id_from_bech32(s: Seq<char>) -> Option<Seq<u8>>;

/// The contract identifier that a text decodes to as bech32, if any.
pub uninterp spec fn contract_id_from_bech32(s: Seq<char>) -> Option<Seq<u8>>;

/// Relies on rgb's `Display for SchemaId`, which writes the bech32 form of the
/// identifier; the text depends on the identifier's bytes alone.
#[verifier::external_body]
pub(crate) fn schema_id_text(id: &SchemaId) -> (r: String)
    ensures
        r@ == schema_id_bech32(id@),
{
    let hash = <bitcoin::hashes::sha256t::Hash<_> as bitcoin::hashes::Hash>::from_inner(id.bytes);
    rgb::SchemaId::from(hash).to_string()
}

/// Relies on rgb's `Display for ContractId`, which writes the bech32 form of
/// the identifier; the text depends on the identifier's bytes alone.
#[verifier::external_body]
pub(crate) fn contract_id_text(id: &ContractId) -> (r: String)
    ensures
        r@ == contract_id_bech32(id@),
{
    let hash = <bitcoin::hashes::sha256t::Hash<_> as bitcoin::hashes::Hash>::from_inner(id.bytes);
    rgb::ContractId::from(hash).to_string()
}

/// The hexadecimal text of a node identifier.
pub fn node_id_text(id: &NodeId) -> (r: String)
    ensures
        r@ == id_hex(id@),
{
    id_to_hex(&id.bytes)
}

/// The hexadecimal text of an anchor identifier.
pub fn anchor_id_text(id: &AnchorId) -> (r: String)
    ensures
        r@ == id_hex(id@),
{
    id_to_hex(&id.bytes)
}

/// Relies on rgb's `FromStr for SchemaId`, which decodes bech32 text and
/// fails on anything else; the outcome depends on the text alone.
#[verifier::external_body]
pub(crate) fn parse_schema_id(s: &str) -> (r: Option<SchemaId>)
    ensures
        r matches Some(id) ==> schema_id_from_bech32(s@) == Some(id@),
        r is None ==> schema_id_from_bech32(s@) is None,
{
    let id: rgb::SchemaId = s.parse().ok()?;
    Some(SchemaId { bytes: bitcoin::hashes::Hash::into_inner(*id) })
}

/// Relies on rgb's `FromStr for ContractId`, which decodes bech32 text and
/// fails on anything else; the outcome depends on the text alone.
#[verifier::external_body]
pub(crate) fn parse_contract_id(s: &str) -> (r: Option<ContractId>)
    ensures
        r matches Some(id) ==> contract_id_from_bech32(s@) == Some(id@),
        r is None ==> contract_id_from_bech32(s@) is None,
{
    let id: rgb::ContractId = s.parse().ok()?;
    Some(ContractId { bytes: bitcoin::hashes::Hash::into_inner(*id) })
}

} // verus!
