//! The account registry: an ordered list of keypairs and the cursor that
//! names the current one.

use vstd::prelude::*;

use crate::account::{GenKeysAlgorithm, Identity, Secret};
use crate::codec::{
    accounts_view, decode_accounts, decode_accounts_spec, decode_u64_spec, encode_accounts,
    encode_u64, ser_accounts,
};
use crate::json::ser_u64;
use crate::crypto::{identity_decodes, keypair_of, secret_decodes};
use crate::storage::{accounts_key, build_accounts_key, build_index_key, index_key, Storage};

verus! {

/// The account list as the map holds it: decodable, or empty.
pub open spec fn stored_accounts(m: Map<Seq<u8>, Seq<u8>>) -> Seq<(Seq<u8>, Seq<u8>)> {
    if m.contains_key(accounts_key()) {
        match decode_accounts_spec(m[accounts_key()]) {
            Option::Some(l) => l,
            Option::None => Seq::empty(),
        }
    } else {
        Seq::empty()
    }
}

/// The current-account cursor as the map holds it: a decodable number that
/// fits the machine, or zero.
pub open spec fn stored_index(m: Map<Seq<u8>, Seq<u8>>) -> int {
    if m.contains_key(index_key()) {
        match decode_u64_spec(m[index_key()]) {
            Option::Some(n) => if n <= usize::MAX {
                n as int
            } else {
                0
            },
            Option::None => 0,
        }
    } else {
        0
    }
}

/// The current account: the one under the cursor, when in range.
pub open spec fn current_account_of(m: Map<Seq<u8>, Seq<u8>>) -> Option<(Seq<u8>, Seq<u8>)> {
    let l = stored_accounts(m);
    let i = stored_index(m);
    if 0 <= i < l.len() {
        Some(l[i])
    } else {
        None
    }
}

/// The first position whose identity is `id`.
pub open spec fn find_account(l: Seq<(Seq<u8>, Seq<u8>)>, id: Seq<u8>) -> Option<int>
    decreases l.len(),
{
    if l.len() == 0 {
        None
    } else if l[0].0 == id {
        Some(0)
    } else {
        match find_account(l.skip(1), id) {
            Option::None => None,
            Option::Some(i) => Some(i + 1),
        }
    }
}

/// What `find_account` finds is the first match; `None` means no match.
pub proof fn lemma_find_account(l: Seq<(Seq<u8>, Seq<u8>)>, id: Seq<u8>)
    ensures
        match find_account(l, id) {
            Option::None => forall|j: int| 0 <= j < l.len() ==> l[j].0 != id,
            Option::Some(k) => 0 <= k < l.len() && l[k].0 == id && forall|j: int|
                0 <= j < k ==> l[j].0 != id,
        },
    decreases l.len(),
{
    if l.len() > 0 && l[0].0 != id {
        lemma_find_account(l.skip(1), id);
        match find_account(l, id) {
            Option::None => {
                assert forall|j: int| 0 <= j < l.len() implies l[j].0 != id by {
                    if j > 0 {
                        assert(l.skip(1)[j - 1].0 != id);
                    }
                }
            },
            Option::Some(k) => {
                assert(l[k] == l.skip(1)[k - 1]);
                assert forall|j: int| 0 <= j < k implies l[j].0 != id by {
                    if j > 0 {
                        assert(l.skip(1)[j - 1].0 != id);
                    }
                }
            },
        }
    }
}

/// Storage of accounts and the current-account cursor.
pub struct AccountStore {}

impl AccountStore {
    /// The stored accounts, in insertion order.
    pub fn accounts(&self, store: &Storage) -> (r: Vec<(Identity, Secret)>)
        requires
            store.inv(),
        ensures
            accounts_view(r@) == stored_accounts(store@),
    {
        let key = build_accounts_key();
        match store.read(&key) {
            Option::None => {
                let r: Vec<(Identity, Secret)> = Vec::new();
                assert(accounts_view(r@) =~= stored_accounts(store@));
                r
            },
            Option::Some(v) => match decode_accounts(&v) {
                Option::Some(l) => l,
                Option::None => {
                    let r: Vec<(Identity, Secret)> = Vec::new();
                    assert(accounts_view(r@) =~= stored_accounts(store@));
                    r
                },
            },
        }
    }

    /// Overwrites the stored account list.
    pub fn set_accounts(&self, store: &mut Storage, value: Vec<(Identity, Secret)>)
        requires
            old(store).inv(),
        ensures
            final(store).inv(),
            final(store)@ == old(store)@.insert(accounts_key(), ser_accounts(accounts_view(value@))),
    {
        let encoded = encode_accounts(&value);
        let key = build_accounts_key();
        store.write(key, encoded);
    }

    /// The current-account cursor; missing or unreadable reads as zero.
    pub fn current_index(&self, store: &Storage) -> (r: usize)
        requires
            store.inv(),
        ensures
            r == stored_index(store@),
    {
        let key = build_index_key();
        match store.read(&key) {
            Option::None => 0,
            Option::Some(v) => match crate::codec::decode_u64(&v) {
                Option::Some(n) => {
                    if n <= usize::MAX as u64 {
                        n as usize
                    } else {
                        0
                    }
                },
                Option::None => 0,
            },
        }
    }

    /// Overwrites the current-account cursor.
    pub fn set_current_index(&self, store: &mut Storage, value: usize)
        requires
            old(store).inv(),
        ensures
            final(store).inv(),
            final(store)@ == old(store)@.insert(index_key(), ser_u64(value as u64)),
    {
        let encoded = encode_u64(value as u64);
        let key = build_index_key();
        store.write(key, encoded);
    }

    /// The account under the cursor, when in range.
    pub fn current_account(&self, store: &Storage) -> (r: Option<(Identity, Secret)>)
        requires
            store.inv(),
        ensures
            r is None ==> current_account_of(store@) is None,
            r matches Some(p) ==> current_account_of(store@) == Some((p.0@, p.1@)),
    {
        let accounts = self.accounts(store);
        let idx = self.current_index(store);
        if idx < accounts.len() {
            let (id, sk) = (&accounts[idx].0, &accounts[idx].1);
            assert(accounts_view(accounts@)[idx as int] == (id@, sk@));
            Some((id.duplicate(), sk.duplicate()))
        } else {
            None
        }
    }

    /// Generates a fresh keypair, makes it the current account — the new
    /// cursor equals the list length before the append — and persists both.
    #[verifier::rlimit(100)]
    #[verifier::spinoff_prover]
    pub fn new_account(&self, store: &mut Storage) -> (r: (Identity, Secret))
        requires
            old(store).inv(),
            stored_accounts(old(store)@).len() < usize::MAX,
        ensures
            final(store).inv(),
            identity_decodes(r.0@),
            secret_decodes(r.1@),
            keypair_of(r.1@, r.0@),
            final(store)@ == old(store)@.insert(
                index_key(),
                ser_u64(stored_accounts(old(store)@).len() as u64),
            ).insert(
                accounts_key(),
                ser_accounts(stored_accounts(old(store)@).push((r.0@, r.1@))),
            ),
            current_account_of(final(store)@) == Some((r.0@, r.1@)),
    {
        let (private_key, public_key) = GenKeysAlgorithm::generate_keys();
        let mut accounts = self.accounts(store);
        let idx = accounts.len();
        self.set_current_index(store, idx);
        let ghost stored = stored_accounts(old(store)@);
        let ghost pv = (public_key@, private_key@);
        accounts.push((public_key.duplicate(), private_key.duplicate()));
        proof {
            assert(accounts_view(accounts@) =~= stored.push(pv)) by {
                assert forall|x: int| 0 <= x < accounts@.len() implies accounts_view(accounts@)[x]
                    == stored.push(pv)[x] by {
                    if x < accounts@.len() - 1 {
                        assert(accounts_view(accounts@)[x] == (accounts@[x].0@, accounts@[x].1@));
                    }
                }
            }
        }
        self.set_accounts(store, accounts);
        proof {
            // the two writes read back as written, so the fresh pair is
            // the current account
            assert(accounts_key() != index_key());
            crate::codec::lemma_decode_encode_accounts(stored.push(pv));
            crate::codec::lemma_decode_encode_u64(idx as u64);
            assert(stored_accounts(store@) == stored.push(pv));
            assert(stored_index(store@) == idx);
            assert(current_account_of(store@) == Some(pv));
        }
        (public_key, private_key)
    }

    /// The current account, or a freshly generated one when none exists.
    pub fn initialize(&self, store: &mut Storage) -> (r: (Identity, Secret))
        requires
            old(store).inv(),
            stored_accounts(old(store)@).len() < usize::MAX,
        ensures
            final(store).inv(),
            current_account_of(final(store)@) == Some((r.0@, r.1@)),
            current_account_of(old(store)@) matches Some(a) ==> final(store)@ == old(store)@ && a
                == (r.0@, r.1@),
            current_account_of(old(store)@) is None ==> identity_decodes(r.0@) && secret_decodes(
                r.1@,
            ) && keypair_of(r.1@, r.0@) && final(store)@ == old(store)@.insert(
                index_key(),
                ser_u64(stored_accounts(old(store)@).len() as u64),
            ).insert(
                accounts_key(),
                ser_accounts(stored_accounts(old(store)@).push((r.0@, r.1@))),
            ),
    {
        match self.current_account(store) {
            Option::Some(p) => p,
            Option::None => self.new_account(store),
        }
    }

    /// The position of the first account with this identity.
    fn find_index(&self, accounts: &Vec<(Identity, Secret)>, identity: &Identity) -> (r: Option<
        usize,
    >)
        ensures
            match find_account(accounts_view(accounts@), identity@) {
                Option::None => r is None,
                Option::Some(k) => r == Some(k as usize),
            },
    {
        let ghost stored = accounts_view(accounts@);
        proof {
            lemma_find_account(stored, identity@);
        }
        let mut i: usize = 0;
        while i < accounts.len()
            invariant
                i <= accounts.len(),
                stored == accounts_view(accounts@),
                forall|j: int| 0 <= j < i ==> stored[j].0 != identity@,
                match find_account(stored, identity@) {
                    Option::None => forall|j: int| 0 <= j < stored.len() ==> stored[j].0
                        != identity@,
                    Option::Some(k) => 0 <= k < stored.len() && stored[k].0 == identity@ && forall|
                        j: int,
                    | 0 <= j < k ==> stored[j].0 != identity@,
                },
            decreases accounts.len() - i,
        {
            proof {
                assert(stored[i as int] == (accounts@[i as int].0@, accounts@[i as int].1@));
            }
            if accounts[i].0 == *identity {
                proof {
                    assert(stored[i as int].0 == identity@);
                    assert(find_account(stored, identity@) == Some(i as int));
                }
                return Some(i);
            }
            i = i + 1;
        }
        proof {
            assert(find_account(stored, identity@) is None);
        }
        None
    }

    /// Moves the cursor to the first account with this identity; a no-op
    /// when none matches.
    pub fn set_current_account(&self, store: &mut Storage, identity: Identity)
        requires
            old(store).inv(),
        ensures
            final(store).inv(),
            final(store)@ == match find_account(stored_accounts(old(store)@), identity@) {
                Option::None => old(store)@,
                Option::Some(k) => old(store)@.insert(index_key(), ser_u64(k as u64)),
            },
    {
        let accounts = self.accounts(store);
        proof {
            lemma_find_account(stored_accounts(store@), identity@);
        }
        match self.find_index(&accounts, &identity) {
            Option::Some(i) => {
                self.set_current_index(store, i);
            },
            Option::None => {},
        }
    }

    /// Removes the first account with this identity, then pulls the cursor
    /// back: one step when it stood on or above the removed entry, not
    /// below zero.  A no-op when none matches.
    pub fn delete_account(&self, store: &mut Storage, identity: &Identity)
        requires
            old(store).inv(),
        ensures
            final(store).inv(),
            final(store)@ == match find_account(stored_accounts(old(store)@), identity@) {
                Option::None => old(store)@,
                Option::Some(k) => {
                    let after = old(store)@.insert(
                        accounts_key(),
                        ser_accounts(stored_accounts(old(store)@).remove(k)),
                    );
                    let ci = stored_index(old(store)@);
                    if ci == k {
                        after.insert(index_key(), ser_u64(if ci == 0 { 0u64 } else { (ci - 1) as u64 }))
                    } else if ci > k {
                        after.insert(index_key(), ser_u64((ci - 1) as u64))
                    } else {
                        after
                    }
                },
            },
    {
        let accounts = self.accounts(store);
        let ghost stored = stored_accounts(store@);
        let list_len = accounts.len();
        proof {
            lemma_find_account(stored, identity@);
        }
        let target = self.find_index(&accounts, identity);
        proof {
            assert(accounts_view(accounts@) == stored);
            assert(stored.len() == list_len);
            assert(match find_account(stored, identity@) {
                Option::None => target is None,
                Option::Some(k) => target == Some(k as usize),
            });
        }
        let idx = match target {
            Option::Some(k) => k,
            Option::None => {
                proof {
                    assert(find_account(stored, identity@) is None);
                }
                return;
            },
        };
        let mut accounts = accounts;
        accounts.remove(idx);
        proof {
            assert(accounts_view(accounts@) =~= stored.remove(idx as int)) by {
                assert forall|x: int| 0 <= x < accounts@.len() implies accounts_view(accounts@)[x]
                    == stored.remove(idx as int)[x] by {
                    assert(accounts_view(accounts@)[x] == (accounts@[x].0@, accounts@[x].1@));
                }
            }
        }
        proof {
            assert(ser_accounts(accounts_view(accounts@)) == ser_accounts(
                stored.remove(idx as int),
            ));
            assert(target == Some(idx));
            match find_account(stored, identity@) {
                Option::None => {
                    assert(false);
                },
                Option::Some(k) => {
                    assert(target == Some(k as usize));
                    assert(0 <= k < stored.len() && stored.len() == list_len);
                    assert(k as usize == idx);
                    assert(k == idx as int);
                },
            }
            assert(find_account(stored, identity@) == Some(idx as int));
        }
        self.set_accounts(store, accounts);
        let ghost after = old(store)@.insert(
            accounts_key(),
            ser_accounts(stored.remove(idx as int)),
        );
        let current_idx = self.current_index(store);
        proof {
            // the list rewrite lives under another key, so the cursor is
            // unmoved
            assert(accounts_key() != index_key());
            assert(store@ == after);
            assert(current_idx == stored_index(old(store)@));
        }
        if current_idx == idx {
            let new_idx = if current_idx == 0 {
                0
            } else {
                current_idx - 1
            };
            self.set_current_index(store, new_idx);
            assert(store@ == after.insert(
                index_key(),
                ser_u64(
                    if stored_index(old(store)@) == 0 {
                        0u64
                    } else {
                        (stored_index(old(store)@) - 1) as u64
                    },
                ),
            ));
        } else if current_idx > idx {
            self.set_current_index(store, current_idx - 1);
        }
    }

}

} // verus!
