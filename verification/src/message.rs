//! The chain model: messages, signed messages, the two canonical hashes,
//! and the parent relation.

use vstd::prelude::*;

use crate::account::{Identity, Secret};
use crate::bytes::{bytes_eq, copy_bytes, le32, push_le32};
use crate::crypto::{
    accepted_point_text, check_point_text, identity_decodes, keypair_of, schnorr_sign,
    schnorr_verifies, schnorr_verify, secret_decodes, sha256, sha256_of,
};
use crate::hash::{zero_hash, MessageHash};

verus! {

/// Mathematical form of a message.
pub ghost struct MessageView {
    pub previous_hash: Seq<u8>,
    pub data: Seq<u8>,
}

/// Mathematical form of a signed message.
pub ghost struct SignedMessageView {
    pub message: MessageView,
    pub id: Seq<u8>,
    pub seq: u32,
    pub signature: Seq<u8>,
}

/// The hash the signature covers: SHA-256 over previous hash, then data.
pub open spec fn h_msg(m: MessageView) -> Seq<u8> {
    sha256_of(m.previous_hash + m.data)
}

/// The hash a child's `previous_hash` must equal: SHA-256 over data, the
/// signer's bytes, the little-endian sequence number, and the signature.
pub open spec fn h_sig(sm: SignedMessageView) -> Seq<u8> {
    sha256_of(sm.message.data + sm.id + le32(sm.seq) + sm.signature)
}

/// The signature of `sm` checks out under its own signer.  A signer text
/// outside the set the verifier accepts — not the canonical form of a
/// point with reduced coordinates — never verifies.
pub open spec fn sm_verifies(sm: SignedMessageView) -> bool {
    accepted_point_text(sm.id) && schnorr_verifies(sm.id, h_msg(sm.message), sm.signature)
}

/// A root opens a chain: sequence zero and the all-zero previous hash.
pub open spec fn is_root_v(sm: SignedMessageView) -> bool {
    sm.seq == 0 && sm.message.previous_hash == zero_hash()
}

/// `p` may stand directly above `c` in a chain: the child commits to
/// `h_sig(p)`, the sequence steps by one, and the child's signature checks
/// out.  Nothing is asked of `p`'s own signature.
pub open spec fn is_valid_parent_v(p: SignedMessageView, c: SignedMessageView) -> bool {
    h_sig(p) == c.message.previous_hash && p.seq + 1 == c.seq && sm_verifies(c)
}

impl MessageView {
    /// A well-formed message carries a 32-byte previous hash.
    pub open spec fn wf(self) -> bool {
        self.previous_hash.len() == 32
    }
}

impl SignedMessageView {
    pub open spec fn wf(self) -> bool {
        self.message.wf()
    }
}

/// A message: the hash of its predecessor, and an opaque payload.
#[derive(Debug)]
pub struct Message {
    pub previous_hash: MessageHash,
    pub data: Vec<u8>,
}

impl View for Message {
    type V = MessageView;

    open spec fn view(&self) -> MessageView {
        MessageView { previous_hash: self.previous_hash@, data: self.data@ }
    }
}

impl Message {
    /// A message with no predecessor.
    pub fn root(data: Vec<u8>) -> (r: Self)
        ensures
            r@.previous_hash == zero_hash(),
            r@.data == data@,
            r@.wf(),
    {
        Message { previous_hash: MessageHash::zero(), data }
    }

    /// The hash the signature covers.
    pub fn to_hash(&self) -> (r: MessageHash)
        ensures
            r@ == h_msg(self@),
            r.wf(),
    {
        let mut buf = copy_bytes(&self.previous_hash.bytes);
        buf = crate::json::append_bytes(buf, &self.data);
        MessageHash::new(sha256(&buf))
    }

    /// Fresh copy.
    pub fn duplicate(&self) -> (r: Self)
        ensures
            r@ == self@,
    {
        Message { previous_hash: self.previous_hash.duplicate(), data: copy_bytes(&self.data) }
    }
}

/// An opaque signature, held as the bytes of its textual form.
#[derive(Debug)]
pub struct Signature {
    pub signature: Vec<u8>,
}

impl View for Signature {
    type V = Seq<u8>;

    open spec fn view(&self) -> Seq<u8> {
        self.signature@
    }
}

impl Signature {
    /// Wraps the textual form of a signature.
    pub fn new(signature: Vec<u8>) -> (r: Self)
        ensures
            r@ == signature@,
    {
        Signature { signature }
    }

    /// Fresh copy.
    pub fn duplicate(&self) -> (r: Self)
        ensures
            r@ == self@,
    {
        Signature { signature: copy_bytes(&self.signature) }
    }
}

/// Produces Schnorr signatures over the message hash.
pub struct MessageSigner;

impl MessageSigner {
    /// Signs `h_msg(message)` under the given keypair.  Fails exactly when
    /// one of the key texts does not decode; under a matching keypair the
    /// signature it draws verifies.
    pub fn sign(id: &Identity, secret: &Secret, message: &Message) -> (r: Option<Signature>)
        ensures
            r is Some <==> identity_decodes(id@) && secret_decodes(secret@),
            keypair_of(secret@, id@) ==> (r matches Some(sig) ==> accepted_point_text(id@)
                && schnorr_verifies(id@, h_msg(message@), sig@)),
    {
        let mh = message.to_hash();
        match schnorr_sign(&id.public_key, &secret.to_text(), &mh.bytes) {
            Option::Some(bytes) => Some(Signature { signature: bytes }),
            Option::None => None,
        }
    }
}

/// A message together with its position, signer and signature.
#[derive(Debug)]
pub struct SignedMessage {
    pub message: Message,
    pub id: Identity,
    pub seq: u32,
    pub signature: Signature,
}

impl View for SignedMessage {
    type V = SignedMessageView;

    open spec fn view(&self) -> SignedMessageView {
        SignedMessageView {
            message: self.message@,
            id: self.id@,
            seq: self.seq,
            signature: self.signature@,
        }
    }
}

impl SignedMessage {
    /// Builds and signs a root message.  Fails exactly when one of the key
    /// texts does not decode; under a matching keypair the result verifies.
    pub fn new_first_message(id: Identity, secret: &Secret, data: Vec<u8>) -> (r: Option<Self>)
        ensures
            r is Some <==> identity_decodes(id@) && secret_decodes(secret@),
            r matches Some(sm) ==> sm@.message.previous_hash == zero_hash() && sm@.message.data
                == data@ && sm@.id == id@ && sm@.seq == 0 && sm@.wf(),
            keypair_of(secret@, id@) ==> (r matches Some(sm) ==> sm_verifies(sm@)),
    {
        let message = Message::root(data);
        match MessageSigner::sign(&id, secret, &message) {
            Option::Some(signature) => Some(SignedMessage { message, id, seq: 0, signature }),
            Option::None => None,
        }
    }

    /// Builds and signs the next message after `signed_message`, whose hash
    /// the caller passes in.  Fails exactly when one of the key texts does
    /// not decode; under a matching keypair the result verifies, and when
    /// the passed hash is the predecessor's own, the predecessor stands
    /// validly above it — whoever signed the predecessor.
    pub fn new_from_previous_message(
        id: Identity,
        secret: &Secret,
        data: Vec<u8>,
        hash: MessageHash,
        signed_message: &SignedMessage,
    ) -> (r: Option<Self>)
        requires
            signed_message.seq < u32::MAX,
            hash.wf(),
        ensures
            r is Some <==> identity_decodes(id@) && secret_decodes(secret@),
            r matches Some(sm) ==> sm@.message.previous_hash == hash@ && sm@.message.data == data@
                && sm@.id == id@ && sm@.seq == signed_message@.seq + 1 && sm@.wf(),
            keypair_of(secret@, id@) ==> (r matches Some(sm) ==> sm_verifies(sm@)),
            keypair_of(secret@, id@) && hash@ == h_sig(signed_message@) ==> (r matches Some(sm)
                ==> is_valid_parent_v(signed_message@, sm@)),
    {
        let seq = signed_message.seq + 1;
        let message = Message { previous_hash: hash, data };
        match MessageSigner::sign(&id, secret, &message) {
            Option::Some(signature) => Some(SignedMessage { message, id, seq, signature }),
            Option::None => None,
        }
    }

    /// Recomputes `h_msg` and checks the signature under the signer.  A
    /// malformed signer text counts as a failed verification.
    pub fn verify(&self) -> (r: bool)
        ensures
            r == sm_verifies(self@),
    {
        if !check_point_text(&self.id.public_key) {
            return false;
        }
        let mh = self.message.to_hash();
        schnorr_verify(&self.id.public_key, &mh.bytes, &self.signature.signature)
    }

    /// The hash a child must commit to.
    pub fn hash(&self) -> (r: MessageHash)
        ensures
            r@ == h_sig(self@),
            r.wf(),
    {
        let mut buf = copy_bytes(&self.message.data);
        buf = crate::json::append_bytes(buf, &self.id.public_key);
        push_le32(&mut buf, self.seq);
        buf = crate::json::append_bytes(buf, &self.signature.signature);
        assert(buf@ =~= self@.message.data + self@.id + le32(self@.seq) + self@.signature);
        MessageHash::new(sha256(&buf))
    }

    /// Whether this message may stand directly above `other` in a chain.
    pub fn is_valid_parent_of(&self, other: &Self) -> (r: bool)
        ensures
            r == is_valid_parent_v(self@, other@),
    {
        let h = self.hash();
        h.eq_hash(&other.message.previous_hash) && other.seq > 0 && self.seq == other.seq - 1
            && other.verify()
    }

    /// Whether this message opens a chain.
    pub fn is_first_message(&self) -> (r: bool)
        ensures
            r == is_root_v(self@),
    {
        self.seq == 0 && self.message.previous_hash.is_zero()
    }

    /// Fresh copy.
    pub fn duplicate(&self) -> (r: Self)
        ensures
            r@ == self@,
    {
        SignedMessage {
            message: self.message.duplicate(),
            id: self.id.duplicate(),
            seq: self.seq,
            signature: self.signature.duplicate(),
        }
    }
}

} // verus!
