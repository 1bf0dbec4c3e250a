//! Admission of signed messages into a group: the trusted path used by the
//! local signer, and the validated path used for foreign messages.

use vstd::prelude::*;

use crate::group::Group;
use crate::group_store::{registered_map, GroupStore};
use crate::bytes::copy_bytes;
use crate::codec::ser_signed_message;
use crate::hash::{zero_hash, MessageHash};
use crate::message::{h_sig, sm_verifies, SignedMessage};
use crate::message_store::{stored_latest, SignedMessageStore};
use crate::storage::{latest_key, msg_key, Storage};

verus! {

/// Why a foreign message was turned away.
#[derive(Debug, PartialEq, Eq)]
pub enum AdmissionError {
    /// The signature does not check out under the message's own signer.
    InvalidSignature,
    /// The sequence number is not the one the chain expects next.
    WrongSequence,
    /// The previous hash does not name the current tip.
    WrongPreviousHash,
}

/// The map after the two message writes of a save: the message under its
/// hash, then the tip pointer.
pub open spec fn saved_map(m: Map<Seq<u8>, Seq<u8>>, g: Seq<u8>, sm: crate::message::SignedMessageView) -> Map<
    Seq<u8>,
    Seq<u8>,
> {
    m.insert(msg_key(g, h_sig(sm)), ser_signed_message(sm)).insert(
        latest_key(g),
        crate::codec::ser_hash(h_sig(sm)),
    )
}

/// The map after a full write: the save, then the group registration at
/// some time `ts`.
pub open spec fn write_effect(
    m: Map<Seq<u8>, Seq<u8>>,
    g: Seq<u8>,
    sm: crate::message::SignedMessageView,
    ts: u64,
) -> Map<Seq<u8>, Seq<u8>> {
    registered_map(saved_map(m, g, sm), g, ts)
}

/// The previous hash the chain expects of the next message: the stored tip
/// hash, or the all-zero sentinel for an empty chain.
pub open spec fn expected_prev_hash(m: Map<Seq<u8>, Seq<u8>>, g: Seq<u8>) -> Seq<u8> {
    match stored_latest(m, g) {
        Option::Some((h, tip)) => h,
        Option::None => zero_hash(),
    }
}

/// The sequence number the chain expects of the next message.
pub open spec fn expected_seq(m: Map<Seq<u8>, Seq<u8>>, g: Seq<u8>) -> int {
    match stored_latest(m, g) {
        Option::Some((h, tip)) => tip.seq + 1,
        Option::None => 0,
    }
}

/// Writes messages into groups.
pub struct Writer {}

impl Writer {
    /// The trusted path: saves the message unconditionally and registers
    /// the group.  Returns the message hash and the message.
    pub fn write(&self, store: &mut Storage, group_id: &Vec<u8>, signed_msg: SignedMessage) -> (r:
        (MessageHash, SignedMessage))
        requires
            old(store).inv(),
        ensures
            final(store).inv(),
            r.0@ == h_sig(signed_msg@),
            r.0.wf(),
            r.1@ == signed_msg@,
            exists|ts: u64| final(store)@ == write_effect(old(store)@, group_id@, signed_msg@, ts),
    {
        let message_store = SignedMessageStore {};
        let hash = message_store.save_message(store, group_id, &signed_msg);
        let group = Group::new(copy_bytes(group_id));
        let ghost ts = group@.timestamp;
        let group_store = GroupStore {};
        group_store.add_group(store, group);
        proof {
            assert(store@ == write_effect(old(store)@, group_id@, signed_msg@, ts));
        }
        (hash, signed_msg)
    }

    /// The validated path for foreign messages.  The message must verify
    /// under its own signer, carry the expected sequence number, and name
    /// the current tip; only then is anything written.  Any well-formed
    /// child of the tip is admissible whoever signed it.
    pub fn write_with_validation(
        &self,
        store: &mut Storage,
        group_id: &Vec<u8>,
        message: SignedMessage,
    ) -> (r: Result<(MessageHash, SignedMessage), AdmissionError>)
        requires
            old(store).inv(),
        ensures
            final(store).inv(),
            r is Ok ==> sm_verifies(message@),
            !sm_verifies(message@) ==> r == Err::<(MessageHash, SignedMessage), AdmissionError>(
                AdmissionError::InvalidSignature,
            ) && final(store)@ == old(store)@,
            sm_verifies(message@) && message@.seq != expected_seq(old(store)@, group_id@) ==> r
                == Err::<(MessageHash, SignedMessage), AdmissionError>(
                AdmissionError::WrongSequence,
            ) && final(store)@ == old(store)@,
            sm_verifies(message@) && message@.seq == expected_seq(old(store)@, group_id@)
                && message@.message.previous_hash != expected_prev_hash(old(store)@, group_id@)
                ==> r == Err::<(MessageHash, SignedMessage), AdmissionError>(
                AdmissionError::WrongPreviousHash,
            ) && final(store)@ == old(store)@,
            sm_verifies(message@) && message@.seq == expected_seq(old(store)@, group_id@)
                && message@.message.previous_hash == expected_prev_hash(old(store)@, group_id@)
                ==> (r matches Ok(p) && p.0@ == h_sig(message@) && p.0.wf() && p.1@ == message@
                && exists|ts: u64| final(store)@ == write_effect(
                old(store)@,
                group_id@,
                message@,
                ts,
            )),
    {
        if !message.verify() {
            return Err(AdmissionError::InvalidSignature);
        }
        let message_store = SignedMessageStore {};
        let (expect_prev_hash, expect_seq) = match message_store.latest_message(store, group_id) {
            Option::Some((hash, tip)) => {
                let next: u64 = tip.seq as u64 + 1;
                (hash, next)
            },
            Option::None => (MessageHash::zero(), 0u64),
        };
        if message.seq as u64 != expect_seq {
            return Err(AdmissionError::WrongSequence);
        }
        if !message.message.previous_hash.eq_hash(&expect_prev_hash) {
            return Err(AdmissionError::WrongPreviousHash);
        }
        Ok(self.write(store, group_id, message))
    }
}


/// An empty group — one without a stored, readable tip — always checks
/// out as valid.
pub proof fn lemma_empty_chain_ok(m: Map<Seq<u8>, Seq<u8>>, g: Seq<u8>)
    requires
        stored_latest(m, g) is None,
    ensures
        crate::message_store::chain_ok(m, g),
{
}

/// Writing the same signed message into the same group twice leaves
/// storage exactly as after the first write, whatever the clock said each
/// time.
pub proof fn lemma_write_idempotent(
    m: Map<Seq<u8>, Seq<u8>>,
    g: Seq<u8>,
    sm: crate::message::SignedMessageView,
    ts1: u64,
    ts2: u64,
)
    ensures
        write_effect(write_effect(m, g, sm, ts1), g, sm, ts2) == write_effect(m, g, sm, ts1),
{
    let m1 = write_effect(m, g, sm, ts1);
    let mk = msg_key(g, h_sig(sm));
    let lk = latest_key(g);
    crate::storage::lemma_groups_key_distinct(g, h_sig(sm));
    crate::storage::lemma_latest_key_not_msg_key(g, g, h_sig(sm));
    // the second save rewrites the two message keys with the very bytes
    // they already hold
    assert(m1.contains_key(mk) && m1[mk] == ser_signed_message(sm));
    assert(m1.contains_key(lk) && m1[lk] == crate::codec::ser_hash(h_sig(sm)));
    assert(saved_map(m1, g, sm) =~= m1);
    // after the first write the group is listed, so the second
    // registration writes nothing
    let gs0 = crate::group_store::stored_groups(m);
    if crate::group_store::groups_has_id(gs0, g) {
        assert(crate::group_store::stored_groups(m1) == gs0);
        assert(crate::group_store::groups_has_id(crate::group_store::stored_groups(m1), g));
    } else {
        let gs1 = gs0.push(crate::group::GroupView { id: g, timestamp: ts1 });
        crate::codec::lemma_decode_encode_groups(gs1);
        assert(crate::group_store::stored_groups(m1) == gs1);
        assert(gs1[gs1.len() - 1].id == g);
        assert(crate::group_store::groups_has_id(gs1, g));
    }
    assert(crate::group_store::stored_groups(saved_map(m1, g, sm)) == crate::group_store::stored_groups(m1));
    assert(write_effect(m1, g, sm, ts2) =~= m1);
}

/// The stored tip pointer names the tip message's own hash.  The store's
/// own writes keep this; the chain check alone does not imply it.
pub open spec fn tip_consistent(m: Map<Seq<u8>, Seq<u8>>, g: Seq<u8>) -> bool {
    match stored_latest(m, g) {
        Option::None => true,
        Option::Some((h, tip)) => h == h_sig(tip),
    }
}

/// Admitting a message that passes validation keeps the group's chain
/// valid: after the write the new message is the tip, it points at the old
/// tip, and the old walk is untouched.  The hash of the new message must
/// be fresh — equal to no key the old walk uses — which is what collision
/// resistance of the hash provides and this model cannot.
#[verifier::rlimit(100)]
#[verifier::spinoff_prover]
pub proof fn lemma_admission_preserves_chain(
    m: Map<Seq<u8>, Seq<u8>>,
    g: Seq<u8>,
    sm: crate::message::SignedMessageView,
    ts: u64,
)
    requires
        crate::message_store::chain_ok(m, g),
        tip_consistent(m, g),
        sm.wf(),
        h_sig(sm).len() == 32,
        sm_verifies(sm),
        sm.seq == expected_seq(m, g),
        sm.message.previous_hash == expected_prev_hash(m, g),
        match stored_latest(m, g) {
            Option::Some((h, tip)) => h_sig(sm) != h && forall|x: Seq<u8>|
                crate::message_store::walk_uses(m, g, tip, x) ==> h_sig(sm) != x,
            Option::None => crate::message_store::stored_message(m, g, zero_hash()) is None
                && h_sig(sm) != zero_hash(),
        },
    ensures
        crate::message_store::chain_ok(write_effect(m, g, sm, ts), g),
        tip_consistent(write_effect(m, g, sm, ts), g),
        stored_latest(write_effect(m, g, sm, ts), g) == Some((h_sig(sm), sm)),
{
    let m2 = write_effect(m, g, sm, ts);
    let hk = h_sig(sm);
    let mk = msg_key(g, hk);
    let lk = latest_key(g);
    crate::storage::lemma_groups_key_distinct(g, hk);
    crate::storage::lemma_latest_key_not_msg_key(g, g, hk);
    // the new tip pointer and the new message read back as written
    assert(m2.contains_key(lk) && m2[lk] == crate::codec::ser_hash(hk));
    crate::codec::lemma_decode_encode_hash(hk);
    assert(m2.contains_key(mk) && m2[mk] == ser_signed_message(sm));
    crate::codec::lemma_decode_encode_signed_message(sm);
    assert(crate::message_store::stored_latest_hash(m2, g) == Some(hk));
    assert(crate::message_store::stored_message(m2, g, hk) == Some(sm));
    assert(stored_latest(m2, g) == Some((hk, sm)));
    // all other message keys of this group read as before
    assert forall|x: Seq<u8>| x.len() == 32 && x != hk implies crate::message_store::stored_message(
        m2,
        g,
        x,
    ) == crate::message_store::stored_message(m, g, x) by {
        if msg_key(g, x) == msg_key(g, hk) {
            crate::storage::lemma_msg_key_injective(g, x, hk);
        }
        crate::storage::lemma_latest_key_not_msg_key(g, g, x);
        crate::storage::lemma_groups_key_distinct(g, x);
    }
    match stored_latest(m, g) {
        Option::Some((h, tip)) => {
            // the old tip hash is 32 bytes, so its key is untouched
            assert(h.len() == 32);
            assert(crate::message_store::stored_message(m2, g, h)
                == crate::message_store::stored_message(m, g, h));
            assert(crate::message_store::stored_message(m, g, h) == Some(tip));
            assert(crate::message::is_valid_parent_v(tip, sm));
            crate::message_store::lemma_stored_message_wf(m, g, h);
            crate::message_store::lemma_walk_uses_wf(m, g, tip);
            assert forall|x: Seq<u8>| crate::message_store::walk_uses(m, g, tip, x) implies
                crate::message_store::stored_message(m2, g, x)
                == crate::message_store::stored_message(m, g, x) by {
                assert(x.len() == 32 && x != hk);
            }
            crate::message_store::lemma_walk_preserved(m, m2, g, tip);
            assert(crate::message_store::walk_ok(m2, g, sm));
        },
        Option::None => {
            assert(sm.seq == 0 && sm.message.previous_hash == zero_hash());
            assert(crate::message_store::stored_message(m2, g, zero_hash())
                == crate::message_store::stored_message(m, g, zero_hash()));
            assert(crate::message_store::walk_ok(m2, g, sm));
        },
    }
}

} // verus!
