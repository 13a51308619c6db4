//! Node identity: a fresh cryptographic keypair and the stable peer
//! identifier derived from it, created once at startup and immutable for
//! the process lifetime. The transport built around the keypair lives with
//! the runtime; the identifier's text form is what the rest of the library
//! works with.

use vstd::prelude::*;

verus! {

#[verifier::external_type_specification]
#[verifier::external_body]
pub struct ExKeypair(libp2p::identity::Keypair);

/// Relies on libp2p's `identity::Keypair::generate_ed25519`: a fresh
/// Ed25519 keypair. The result is random, so nothing is assumed of it.
#[verifier::external_body]
fn generate_keypair() -> libp2p::identity::Keypair {
    libp2p::identity::Keypair::generate_ed25519()
}

/// Relies on libp2p's `PeerId::from_public_key` and `PeerId::to_base58`:
/// the peer identifier derived from the keypair's public half, rendered as
/// a base58 multihash, which is never empty.
#[verifier::external_body]
fn derive_peer_id_text(keypair: &libp2p::identity::Keypair) -> (r: String)
    ensures
        r@.len() > 0,
{
    libp2p::identity::PeerId::from_public_key(&keypair.public()).to_base58()
}

/// The local node's identity: keypair and derived peer identifier.
pub struct NodeIdentity {
    keypair: libp2p::identity::Keypair,
    peer_id_text: String,
}

impl NodeIdentity {
    /// The peer identifier in its standard text form.
    pub closed spec fn id(self) -> Seq<char> {
        self.peer_id_text@
    }

    /// Generate a fresh identity.
    pub fn generate() -> (r: NodeIdentity)
        ensures
            r.id().len() > 0,
    {
        let keypair = generate_keypair();
        let peer_id_text = derive_peer_id_text(&keypair);
        NodeIdentity { keypair, peer_id_text }
    }

    /// The peer identifier's text form.
    pub fn peer_id_string(&self) -> (r: &String)
        ensures
            r@ == self.id(),
    {
        &self.peer_id_text
    }

    /// The keypair, for the runtime to build its transport around.
    pub fn keypair(&self) -> &libp2p::identity::Keypair {
        &self.keypair
    }
}

} // verus!
