//! The local signer: builds the next signed message of a group under the
//! current account.

use vstd::prelude::*;

use crate::account_store::{current_account_of, AccountStore};
use crate::crypto::{identity_decodes, keypair_of, secret_decodes};
use crate::hash::zero_hash;
use crate::message::{h_sig, is_valid_parent_v, sm_verifies, SignedMessage};
use crate::message_store::{stored_latest, SignedMessageStore};
use crate::storage::Storage;

verus! {

/// Builds signed messages from the stores.
pub struct Signer {}

impl Signer {
    /// Signs `data` into the group's chain under the current account: a
    /// root when the group has no tip, else the next child of the tip.
    /// Nothing is persisted.  Fails exactly when one of the stored key
    /// texts does not decode.  When the current account is a matching
    /// keypair, the built message verifies; and when the stored tip hash
    /// is the tip's own, the tip stands validly above the built child.
    pub fn sign(&self, store: &Storage, group_id: &Vec<u8>, data: Vec<u8>) -> (r: Option<
        SignedMessage,
    >)
        requires
            store.inv(),
            current_account_of(store@) is Some,
            stored_latest(store@, group_id@) matches Some(p) ==> p.1.seq < u32::MAX,
        ensures
            ({
                let account = current_account_of(store@)->0;
                &&& (r is Some) == (identity_decodes(account.0) && secret_decodes(account.1))
                &&& r matches Some(sm) ==> sm@.id == account.0 && sm@.message.data == data@
                    && sm@.wf() && (match stored_latest(store@, group_id@) {
                    Option::Some(p) => sm@.message.previous_hash == p.0 && sm@.seq == p.1.seq + 1,
                    Option::None => sm@.message.previous_hash == zero_hash() && sm@.seq == 0,
                })
                &&& keypair_of(account.1, account.0) ==> (r matches Some(sm) ==> sm_verifies(sm@))
                &&& keypair_of(account.1, account.0) ==> (match stored_latest(store@, group_id@) {
                    Option::Some(p) => p.0 == h_sig(p.1) ==> (r matches Some(sm)
                        ==> is_valid_parent_v(p.1, sm@)),
                    Option::None => true,
                })
            }),
    {
        let account_store = AccountStore {};
        let (identity, secret) = match account_store.current_account(store) {
            Option::Some(p) => p,
            Option::None => {
                proof {
                    assert(false);
                }
                unreached()
            },
        };
        let message_store = SignedMessageStore {};
        match message_store.latest_message(store, group_id) {
            Option::Some((previous_hash, prev_message)) => SignedMessage::new_from_previous_message(
                identity,
                &secret,
                data,
                previous_hash,
                &prev_message,
            ),
            Option::None => SignedMessage::new_first_message(identity, &secret, data),
        }
    }
}

} // verus!
