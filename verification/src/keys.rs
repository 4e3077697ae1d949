//! Endpoint keys.

use vstd::prelude::*;

use crate::peer::{lemma_prefix_ext, EndpointId, KeyPrefix};

verus! {

/// The public key that belongs to a secret key.
pub uninterp spec fn public_key(secret: Seq<u8>) -> Seq<u8>;

/// Derives the public key of a secret key with `iroh_base::SecretKey::public`
/// (after `SecretKey::from_bytes`, which takes any 32 bytes). The derivation
/// is Ed25519 key expansion: a function of the secret bytes alone, named
/// [`public_key`].
#[verifier::external_body]
fn derive_public_key(secret: &[u8; 32]) -> (bytes: [u8; 32])
    ensures
        bytes@ == public_key(secret@),
{
    *iroh_base::SecretKey::from_bytes(secret).public().as_bytes()
}

/// The endpoint whose secret key is given.
pub fn endpoint_of_secret(secret: &[u8; 32]) -> (id: EndpointId)
    ensures
        id@ == public_key(secret@),
{
    EndpointId { bytes: derive_public_key(secret) }
}

/// Whether bytes are the encoding of a curve point, as a public key must be.
pub uninterp spec fn valid_public_key(bytes: Seq<u8>) -> bool;

/// Reads a public key with `iroh_base::PublicKey::from_bytes`, which takes the
/// encoding of a curve point and refuses other bytes. Which bytes those are is
/// a function of the bytes alone, named [`valid_public_key`]; a key that is
/// taken keeps its bytes.
#[verifier::external_body]
pub(crate) fn parse_public_key(bytes: &[u8; 32]) -> (key: Option<[u8; 32]>)
    ensures
        match key {
            Some(k) => valid_public_key(bytes@) && k@ == bytes@,
            None => !valid_public_key(bytes@),
        },
{
    iroh_base::PublicKey::from_bytes(bytes).ok().map(|key| *key.as_bytes())
}

/// The leading bytes of a key.
pub open spec fn prefix_of(key: Seq<u8>) -> Seq<u8> {
    key.take(12)
}

/// The prefix under which an endpoint advertises.
pub open spec fn endpoint_prefix(key: EndpointId) -> KeyPrefix {
    choose|prefix: KeyPrefix| prefix@ == prefix_of(key@)
}

/// The prefix under which an endpoint advertises: the first twelve bytes of
/// its key.
pub fn prefix_from_endpoint(endpoint_id: &EndpointId) -> (prefix: KeyPrefix)
    ensures
        prefix@ == prefix_of(endpoint_id@),
        prefix == endpoint_prefix(*endpoint_id),
{
    let b = &endpoint_id.bytes;
    let prefix: KeyPrefix = [
        b[0],
        b[1],
        b[2],
        b[3],
        b[4],
        b[5],
        b[6],
        b[7],
        b[8],
        b[9],
        b[10],
        b[11],
    ];
    proof {
        assert(prefix@ =~= prefix_of(endpoint_id@));
        lemma_prefix_ext(prefix, endpoint_prefix(*endpoint_id));
    }
    prefix
}

} // verus!
