//! Accounts: an identity (public key), its secret (signing key), and
//! keypair generation.

use vstd::prelude::*;

use crate::bytes::{bytes_eq, copy_bytes};
use crate::crypto::{identity_decodes, secret_decodes};

verus! {

/// A P-256 public key, held as the bytes of its canonical textual form.
/// Two identities are equal exactly when those bytes are.
#[derive(Debug)]
pub struct Identity {
    pub public_key: Vec<u8>,
}

impl View for Identity {
    type V = Seq<u8>;

    open spec fn view(&self) -> Seq<u8> {
        self.public_key@
    }
}

impl Identity {
    /// Wraps the textual form of a public key.
    pub fn new(public_key: Vec<u8>) -> (r: Self)
        ensures
            r@ == public_key@,
    {
        Identity { public_key }
    }

    /// An identity from its canonical textual form.
    pub fn from_text(text: Vec<u8>) -> (r: Self)
        ensures
            r@ == text@,
    {
        Identity { public_key: text }
    }

    /// The canonical textual form, as bytes.
    pub fn to_text(&self) -> (r: Vec<u8>)
        ensures
            r@ == self@,
    {
        copy_bytes(&self.public_key)
    }

    /// Fresh copy.
    pub fn duplicate(&self) -> (r: Self)
        ensures
            r@ == self@,
    {
        Identity { public_key: copy_bytes(&self.public_key) }
    }
}

impl PartialEq for Identity {
    fn eq(&self, other: &Self) -> (r: bool) {
        bytes_eq(&self.public_key, &other.public_key)
    }
}

impl vstd::std_specs::cmp::PartialEqSpecImpl for Identity {
    open spec fn obeys_eq_spec() -> bool {
        true
    }

    open spec fn eq_spec(&self, other: &Identity) -> bool {
        self@ == other@
    }
}

/// A P-256 signing key paired with one identity, held as the bytes of its
/// textual form.  It leaves the library only as that text.
pub struct Secret {
    pub(crate) private_key: Vec<u8>,
}

impl View for Secret {
    type V = Seq<u8>;

    closed spec fn view(&self) -> Seq<u8> {
        self.private_key@
    }
}

impl Secret {
    /// Wraps the textual form of a signing key.
    pub(crate) fn new(private_key: Vec<u8>) -> (r: Self)
        ensures
            r@ == private_key@,
    {
        Secret { private_key }
    }

    /// The textual export, as bytes.
    pub fn to_text(&self) -> (r: Vec<u8>)
        ensures
            r@ == self@,
    {
        copy_bytes(&self.private_key)
    }

    /// Fresh copy.
    pub fn duplicate(&self) -> (r: Self)
        ensures
            r@ == self@,
    {
        Secret { private_key: copy_bytes(&self.private_key) }
    }
}

/// Keypair generation over P-256.
pub struct GenKeysAlgorithm;

impl GenKeysAlgorithm {
    /// Relies on schnorr_rs::SignatureScheme::generate_key over P-256 with
    /// rand::thread_rng: the keys are random, so nothing is said of their
    /// bytes beyond being a matching pair and decoding back.  Relies on
    /// serde_json::to_vec for the textual forms, which on these key types
    /// (JSON arrays of numbers) cannot fail, so the fallback arm is never
    /// taken; and on serde_json::from_slice accepting the texts it wrote,
    /// as the key serializers of schnorr_rs round-trip.  The public key's
    /// text is the canonical compact JSON of a 64-byte point whose
    /// coordinates the scheme computes reduced below the field prime.
    #[verifier::external_body]
    pub fn generate_keys() -> (r: (Secret, Identity))
        ensures
            secret_decodes(r.0@),
            identity_decodes(r.1@),
            crate::crypto::keypair_of(r.0@, r.1@),
            crate::crypto::accepted_point_text(r.1@),
    {
        let scheme = schnorr_rs::signature_scheme_p256::<sha2::Sha256>();
        let (private_key, public_key) = scheme.generate_key(&mut rand::thread_rng());
        match (serde_json::to_vec(&private_key), serde_json::to_vec(&public_key)) {
            (Ok(sk), Ok(pk)) => (Secret { private_key: sk }, Identity { public_key: pk }),
            _ => (Secret { private_key: Vec::new() }, Identity { public_key: Vec::new() }),
        }
    }
}

} // verus!
