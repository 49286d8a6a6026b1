//! Requests to the identity-bound key-derivation service, and the hex form of
//! what it returns.
use vstd::prelude::*;

verus! {

/// Lower-case hexadecimal digit of a nibble.
pub open spec fn hex_digit(n: int) -> char {
    seq!['0', '1', '2', '3', '4', '5', '6', '7', '8', '9', 'a', 'b', 'c', 'd', 'e', 'f'][n]
}

/// Two lower-case hex digits per byte, high nibble first.
pub open spec fn hex_of(b: Seq<u8>) -> Seq<char>
    decreases b.len(),
{
    if b.len() == 0 {
        Seq::empty()
    } else {
        hex_of(b.drop_last()) + seq![hex_digit(b.last() as int / 16), hex_digit(b.last() as int % 16)]
    }
}

/// Relies on hex::encode: each byte becomes two lower-case hex digits, high
/// nibble first, in order.
#[verifier::external_body]
fn encode_hex(bytes: &Vec<u8>) -> (r: String)
    ensures
        r@ == hex_of(bytes@),
{
    hex::encode(bytes)
}

/// Hex form of key material handed back to a client.
pub fn key_material_hex(material: &Vec<u8>) -> (r: String)
    ensures
        r@ == hex_of(material@),
{
    encode_hex(material)
}

/// The label under which the aggregator derives a client's update key:
/// the ASCII bytes of `model_update_encryption`.
pub open spec fn update_key_label() -> Seq<u8> {
    seq![
        109u8, 111, 100, 101, 108, 95, 117, 112, 100, 97, 116, 101, 95,
        101, 110, 99, 114, 121, 112, 116, 105, 111, 110,
    ]
}

/// The label of [`update_key_label`] as bytes.
pub fn update_key_label_bytes() -> (r: Vec<u8>)
    ensures
        r@ == update_key_label(),
{
    let r: Vec<u8> = vec![
        109u8, 111, 100, 101, 108, 95, 117, 112, 100, 97, 116, 101, 95,
        101, 110, 99, 114, 121, 112, 116, 105, 111, 110,
    ];
    assert(r@ =~= update_key_label());
    r
}

/// A derivation path: a label followed by the identity the key is bound to.
pub open spec fn path_of(label: Seq<u8>, identity: Seq<u8>) -> Seq<Seq<u8>> {
    seq![label, identity]
}

/// The views of the segments of a derivation path.
pub open spec fn segments(p: Seq<Vec<u8>>) -> Seq<Seq<u8>> {
    p.map_values(|s: Vec<u8>| s@)
}

/// Path under which a client derives a key for itself: its chosen label,
/// then its own identity.
pub fn client_derivation_path(label: Vec<u8>, identity: Vec<u8>) -> (r: Vec<Vec<u8>>)
    ensures
        segments(r@) == path_of(label@, identity@),
{
    let ghost l = label@;
    let ghost i = identity@;
    let r = vec![label, identity];
    assert(segments(r@) =~= path_of(l, i));
    r
}

/// Path under which the aggregator re-derives the update key of `identity`.
pub fn aggregator_derivation_path(identity: &Vec<u8>) -> (r: Vec<Vec<u8>>)
    ensures
        segments(r@) == path_of(update_key_label(), identity@),
{
    client_derivation_path(update_key_label_bytes(), identity.clone())
}

/// Elliptic curve of the master key.
#[derive(Clone, Copy, Debug, PartialEq, Eq, Structural)]
pub enum KeyCurve {
    Bls12_381,
}

/// Identifier of the master key inside the derivation service.
pub struct KeyId {
    pub curve: KeyCurve,
    pub name: String,
}

/// The fixed master key: the BLS12-381 test key `test_key_1`.
pub fn bls12_381_g2_test_key_1() -> (r: KeyId)
    ensures
        r.curve == KeyCurve::Bls12_381,
        r.name@ == seq!['t', 'e', 's', 't', '_', 'k', 'e', 'y', '_', '1'],
{
    broadcast use vstd::string::group_string_axioms;
    let s = "test_key_1";
    proof { reveal_strlit("test_key_1"); }
    assert(s@ =~= seq!['t', 'e', 's', 't', '_', 'k', 'e', 'y', '_', '1']);
    KeyId { curve: KeyCurve::Bls12_381, name: s.to_string() }
}

/// A request to the derivation service.
pub struct DeriveKeyRequest {
    pub key_id: KeyId,
    pub derivation_path: Vec<Vec<u8>>,
}

/// The request under which the aggregator derives the update key of `identity`.
pub fn update_key_request(identity: &Vec<u8>) -> (r: DeriveKeyRequest)
    ensures
        r.key_id.curve == KeyCurve::Bls12_381,
        r.key_id.name@ == seq!['t', 'e', 's', 't', '_', 'k', 'e', 'y', '_', '1'],
        segments(r.derivation_path@) == path_of(update_key_label(), identity@),
{
    DeriveKeyRequest { key_id: bls12_381_g2_test_key_1(), derivation_path: aggregator_derivation_path(identity) }
}

/// The request under which a client derives a key for itself under `label`.
pub fn client_key_request(label: Vec<u8>, identity: Vec<u8>) -> (r: DeriveKeyRequest)
    ensures
        r.key_id.curve == KeyCurve::Bls12_381,
        r.key_id.name@ == seq!['t', 'e', 's', 't', '_', 'k', 'e', 'y', '_', '1'],
        segments(r.derivation_path@) == path_of(label@, identity@),
{
    DeriveKeyRequest { key_id: bls12_381_g2_test_key_1(), derivation_path: client_derivation_path(label, identity) }
}

/// The request the aggregator builds to derive a client's update key is the
/// request that client builds for itself when it derives under the update
/// label: same master key, same path. The service is deterministic in both,
/// so client and aggregator obtain the same key without any key exchange.
pub proof fn lemma_derivation_requests_agree(
    identity: &Vec<u8>,
    aggregator: DeriveKeyRequest,
    label: Vec<u8>,
    own_identity: Vec<u8>,
    client: DeriveKeyRequest,
)
    requires
        call_ensures(update_key_request, (identity,), aggregator),
        call_ensures(client_key_request, (label, own_identity), client),
        label@ == update_key_label(),
        own_identity@ == identity@,
    ensures
        aggregator.key_id.curve == client.key_id.curve,
        aggregator.key_id.name@ == client.key_id.name@,
        segments(aggregator.derivation_path@) == segments(client.derivation_path@),
{
}

} // verus!
