//! Per-group persistence of signed messages, keyed by their hash, plus the
//! tip pointer, the tip-to-root listing and the whole-chain check.

use vstd::prelude::*;

use crate::codec::{
    decode_hash, decode_hash_spec, decode_signed_message, decode_signed_message_spec, encode_hash,
    encode_signed_message, ser_hash, ser_signed_message,
};
use crate::hash::MessageHash;
use crate::message::{
    h_sig, is_root_v, is_valid_parent_v, sm_verifies, SignedMessage, SignedMessageView,
};
use crate::storage::{
    build_latest_key, build_msg_key, latest_key, msg_key, Storage,
};

verus! {

/// The signed message stored under hash `h` in group `g`, as the map holds
/// it: present and decodable, or nothing.
pub open spec fn stored_message(
    m: Map<Seq<u8>, Seq<u8>>,
    g: Seq<u8>,
    h: Seq<u8>,
) -> Option<SignedMessageView> {
    if m.contains_key(msg_key(g, h)) {
        decode_signed_message_spec(m[msg_key(g, h)])
    } else {
        None
    }
}

/// The tip hash of group `g`, as the map holds it.
pub open spec fn stored_latest_hash(m: Map<Seq<u8>, Seq<u8>>, g: Seq<u8>) -> Option<Seq<u8>> {
    if m.contains_key(latest_key(g)) {
        decode_hash_spec(m[latest_key(g)])
    } else {
        None
    }
}

/// The tip of group `g`: its hash joined with the message stored under it.
pub open spec fn stored_latest(m: Map<Seq<u8>, Seq<u8>>, g: Seq<u8>) -> Option<
    (Seq<u8>, SignedMessageView),
> {
    match stored_latest_hash(m, g) {
        Option::None => None,
        Option::Some(h) => match stored_message(m, g, h) {
            Option::None => None,
            Option::Some(sm) => Some((h, sm)),
        },
    }
}

/// The walk from `cur` towards the root checks out: either no parent is
/// stored and `cur` is a root, or the stored parent stands validly above
/// `cur` and the walk goes on from it.  Each valid step decrements the
/// sequence number, which bounds the walk.
pub open spec fn walk_ok(m: Map<Seq<u8>, Seq<u8>>, g: Seq<u8>, cur: SignedMessageView) -> bool
    decreases cur.seq,
{
    match stored_message(m, g, cur.message.previous_hash) {
        Option::None => is_root_v(cur),
        Option::Some(p) => is_valid_parent_v(p, cur) && (if p.seq < cur.seq {
            walk_ok(m, g, p)
        } else {
            false
        }),
    }
}

/// The whole chain of group `g` is consistent, signed and rooted.  An
/// empty group — no tip stored, or nothing stored under it — is valid.
pub open spec fn chain_ok(m: Map<Seq<u8>, Seq<u8>>, g: Seq<u8>) -> bool {
    match stored_latest(m, g) {
        Option::None => true,
        Option::Some((h, tip)) => sm_verifies(tip) && walk_ok(m, g, tip),
    }
}

/// The stored messages from hash `h` towards the root, stopping at the
/// first miss or when the fuel runs out.
pub open spec fn chain_seq(m: Map<Seq<u8>, Seq<u8>>, g: Seq<u8>, h: Seq<u8>, fuel: nat) -> Seq<
    SignedMessageView,
>
    decreases fuel,
{
    if fuel == 0 {
        Seq::empty()
    } else {
        match stored_message(m, g, h) {
            Option::None => Seq::empty(),
            Option::Some(sm) => seq![sm] + chain_seq(
                m,
                g,
                sm.message.previous_hash,
                (fuel - 1) as nat,
            ),
        }
    }
}

/// What listing group `g` yields: the walk from its tip hash, or nothing.
pub open spec fn listed_messages(m: Map<Seq<u8>, Seq<u8>>, g: Seq<u8>, fuel: nat) -> Seq<
    SignedMessageView,
> {
    match stored_latest_hash(m, g) {
        Option::None => Seq::empty(),
        Option::Some(h) => chain_seq(m, g, h, fuel),
    }
}

/// The mathematical form of a vector of signed messages.
pub open spec fn sm_views(v: Seq<SignedMessage>) -> Seq<SignedMessageView> {
    Seq::new(v.len(), |i: int| v[i]@)
}

/// Per-group storage of signed messages and the tip pointer.
pub struct SignedMessageStore {}

impl SignedMessageStore {
    /// The message stored under `hash` in the group.
    pub fn message(&self, store: &Storage, group_id: &Vec<u8>, hash: &MessageHash) -> (r: Option<
        SignedMessage,
    >)
        requires
            store.inv(),
        ensures
            r is None ==> stored_message(store@, group_id@, hash@) is None,
            r matches Some(sm) ==> stored_message(store@, group_id@, hash@) == Some(sm@)
                && sm@.wf(),
    {
        let key = build_msg_key(group_id, hash);
        match store.read(&key) {
            Option::None => None,
            Option::Some(v) => decode_signed_message(&v),
        }
    }

    /// The tip hash of the group.
    pub fn latest_message_hash(&self, store: &Storage, group_id: &Vec<u8>) -> (r: Option<
        MessageHash,
    >)
        requires
            store.inv(),
        ensures
            r is None ==> stored_latest_hash(store@, group_id@) is None,
            r matches Some(h) ==> stored_latest_hash(store@, group_id@) == Some(h@) && h.wf(),
    {
        let key = build_latest_key(group_id);
        match store.read(&key) {
            Option::None => None,
            Option::Some(v) => decode_hash(&v),
        }
    }

    /// The tip of the group: its hash and the message stored under it.
    pub fn latest_message(&self, store: &Storage, group_id: &Vec<u8>) -> (r: Option<
        (MessageHash, SignedMessage),
    >)
        requires
            store.inv(),
        ensures
            r is None ==> stored_latest(store@, group_id@) is None,
            r matches Some(p) ==> stored_latest(store@, group_id@) == Some((p.0@, p.1@)) && p.0.wf()
                && p.1@.wf(),
    {
        match self.latest_message_hash(store, group_id) {
            Option::None => None,
            Option::Some(h) => match self.message(store, group_id, &h) {
                Option::None => None,
                Option::Some(sm) => Some((h, sm)),
            },
        }
    }

    /// Binds the message key for `hash` to the serialized message.
    pub fn set_message(
        &self,
        store: &mut Storage,
        group_id: &Vec<u8>,
        hash: &MessageHash,
        message: &SignedMessage,
    )
        requires
            old(store).inv(),
        ensures
            final(store).inv(),
            final(store)@ == old(store)@.insert(
                msg_key(group_id@, hash@),
                ser_signed_message(message@),
            ),
    {
        let key = build_msg_key(group_id, hash);
        let value = encode_signed_message(message);
        store.write(key, value);
    }

    /// Overwrites the tip pointer of the group.
    pub fn set_latest_message_hash(&self, store: &mut Storage, group_id: &Vec<u8>, hash: &MessageHash)
        requires
            old(store).inv(),
        ensures
            final(store).inv(),
            final(store)@ == old(store)@.insert(latest_key(group_id@), ser_hash(hash@)),
    {
        let key = build_latest_key(group_id);
        let value = encode_hash(hash);
        store.write(key, value);
    }

    /// Saves a message unconditionally: the message under its own hash
    /// first, then the tip pointer, so that a crash between the two leaves
    /// the old tip intact.  Returns the hash.
    pub fn save_message(&self, store: &mut Storage, group_id: &Vec<u8>, message: &SignedMessage)
        -> (r: MessageHash)
        requires
            old(store).inv(),
        ensures
            final(store).inv(),
            r@ == h_sig(message@),
            r.wf(),
            final(store)@ == old(store)@.insert(
                msg_key(group_id@, h_sig(message@)),
                ser_signed_message(message@),
            ).insert(latest_key(group_id@), ser_hash(h_sig(message@))),
    {
        let hash = message.hash();
        self.set_message(store, group_id, &hash, message);
        self.set_latest_message_hash(store, group_id, &hash);
        hash
    }

    /// The stored messages of the group, tip to root.  The walk follows
    /// `previous_hash` while a message is found, and stops silently at the
    /// first miss.
    pub fn messages(&self, store: &Storage, group_id: &Vec<u8>) -> (r: Vec<SignedMessage>)
        requires
            store.inv(),
        ensures
            sm_views(r@) == listed_messages(store@, group_id@, usize::MAX as nat),
    {
        let mut out: Vec<SignedMessage> = Vec::new();
        let mut hash = match self.latest_message_hash(store, group_id) {
            Option::Some(h) => h,
            Option::None => {
                assert(sm_views(Seq::empty()) =~= Seq::<SignedMessageView>::empty());
                return out;
            },
        };
        let mut fuel: usize = usize::MAX;
        loop
            invariant
                store.inv(),
                sm_views(out@) + chain_seq(store@, group_id@, hash@, fuel as nat)
                    =~= listed_messages(store@, group_id@, usize::MAX as nat),
            ensures
                sm_views(out@) =~= listed_messages(store@, group_id@, usize::MAX as nat),
            decreases fuel,
        {
            if fuel == 0 {
                assert(chain_seq(store@, group_id@, hash@, 0nat) =~= Seq::<
                    SignedMessageView,
                >::empty());
                assert(sm_views(out@) + Seq::<SignedMessageView>::empty() =~= sm_views(out@));
                break;
            }
            match self.message(store, group_id, &hash) {
                Option::None => {
                    assert(chain_seq(store@, group_id@, hash@, fuel as nat) =~= Seq::<
                        SignedMessageView,
                    >::empty());
                    assert(sm_views(out@) + Seq::<SignedMessageView>::empty() =~= sm_views(out@));
                    break;
                },
                Option::Some(sm) => {
                    let ghost prev_out = out@;
                    let ghost prev_hash = hash@;
                    let ghost prev_fuel = fuel as nat;
                    hash = sm.message.previous_hash.duplicate();
                    out.push(sm);
                    fuel = fuel - 1;
                    proof {
                        let smv = out@.last()@;
                        assert(chain_seq(store@, group_id@, prev_hash, prev_fuel) == seq![smv]
                            + chain_seq(store@, group_id@, hash@, fuel as nat));
                        assert(sm_views(out@) =~= sm_views(prev_out) + seq![smv]);
                        assert(sm_views(out@) + chain_seq(store@, group_id@, hash@, fuel as nat)
                            =~= sm_views(prev_out) + chain_seq(store@, group_id@, prev_hash, prev_fuel));
                    }
                },
            }
        }
        out
    }

    /// Checks the whole chain of the group: the tip's signature, each edge
    /// of the walk, and that the walk ends at a root.  An empty group is
    /// valid.
    pub fn validate_messages(&self, store: &Storage, group_id: &Vec<u8>) -> (r: bool)
        requires
            store.inv(),
        ensures
            r == chain_ok(store@, group_id@),
    {
        let tip = match self.latest_message(store, group_id) {
            Option::Some((_h, tip)) => tip,
            Option::None => {
                return true;
            },
        };
        if !tip.verify() {
            return false;
        }
        let mut cur = tip;
        loop
            invariant
                store.inv(),
                chain_ok(store@, group_id@) == walk_ok(store@, group_id@, cur@),
            ensures
                chain_ok(store@, group_id@) == walk_ok(store@, group_id@, cur@),
                stored_message(store@, group_id@, cur@.message.previous_hash) is None,
            decreases cur@.seq,
        {
            match self.message(store, group_id, &cur.message.previous_hash) {
                Option::None => {
                    break;
                },
                Option::Some(parent) => {
                    if !parent.is_valid_parent_of(&cur) {
                        return false;
                    }
                    cur = parent;
                },
            }
        }
        cur.is_first_message()
    }
}


/// A message the store decodes is well-formed: its previous hash holds
/// exactly 32 bytes.
pub proof fn lemma_stored_message_wf(m: Map<Seq<u8>, Seq<u8>>, g: Seq<u8>, h: Seq<u8>)
    ensures
        stored_message(m, g, h) matches Some(sm) ==> sm.wf(),
{
}

/// The keys the walk from `cur` looks up: the message's own previous
/// hash, and those of the walk above its stored parent.
pub open spec fn walk_uses(
    m: Map<Seq<u8>, Seq<u8>>,
    g: Seq<u8>,
    cur: SignedMessageView,
    x: Seq<u8>,
) -> bool
    decreases cur.seq,
{
    x == cur.message.previous_hash || (match stored_message(m, g, cur.message.previous_hash) {
        Option::None => false,
        Option::Some(p) => is_valid_parent_v(p, cur) && (if p.seq < cur.seq {
            walk_uses(m, g, p, x)
        } else {
            false
        }),
    })
}

/// Every key a valid walk looks up holds exactly 32 bytes.
pub proof fn lemma_walk_uses_wf(m: Map<Seq<u8>, Seq<u8>>, g: Seq<u8>, cur: SignedMessageView)
    requires
        cur.wf(),
    ensures
        forall|x: Seq<u8>| walk_uses(m, g, cur, x) ==> x.len() == 32,
    decreases cur.seq,
{
    assert forall|x: Seq<u8>| walk_uses(m, g, cur, x) implies x.len() == 32 by {
        if x != cur.message.previous_hash {
            match stored_message(m, g, cur.message.previous_hash) {
                Option::None => {},
                Option::Some(p) => {
                    lemma_stored_message_wf(m, g, cur.message.previous_hash);
                    if p.seq < cur.seq {
                        lemma_walk_uses_wf(m, g, p);
                    }
                },
            }
        }
    }
}

/// A walk that checks out in one store checks out in another that answers
/// every lookup of the walk the same way.
pub proof fn lemma_walk_preserved(
    m: Map<Seq<u8>, Seq<u8>>,
    m2: Map<Seq<u8>, Seq<u8>>,
    g: Seq<u8>,
    cur: SignedMessageView,
)
    requires
        walk_ok(m, g, cur),
        forall|x: Seq<u8>| walk_uses(m, g, cur, x) ==> stored_message(m2, g, x) == stored_message(
            m,
            g,
            x,
        ),
    ensures
        walk_ok(m2, g, cur),
    decreases cur.seq,
{
    assert(walk_uses(m, g, cur, cur.message.previous_hash));
    match stored_message(m, g, cur.message.previous_hash) {
        Option::None => {},
        Option::Some(p) => {
            assert forall|x: Seq<u8>| walk_uses(m, g, p, x) implies stored_message(m2, g, x)
                == stored_message(m, g, x) by {
                assert(walk_uses(m, g, cur, x));
            }
            lemma_walk_preserved(m, m2, g, p);
        },
    }
}

/// The listing of a valid walk from the message stored under `h`: exactly
/// `seq + 1` messages, the stored one first, a root last, and every
/// adjacent pair a valid parent and child.
#[verifier::rlimit(100)]
#[verifier::spinoff_prover]
pub proof fn lemma_walk_chain(m: Map<Seq<u8>, Seq<u8>>, g: Seq<u8>, h: Seq<u8>, cur: SignedMessageView)
    requires
        stored_message(m, g, h) == Some(cur),
        walk_ok(m, g, cur),
    ensures
        ({
            let c = chain_seq(m, g, h, (cur.seq + 1) as nat);
            &&& c.len() == cur.seq + 1
            &&& c[0] == cur
            &&& is_root_v(c.last())
            &&& forall|i: int| 0 <= i < c.len() - 1 ==> is_valid_parent_v(
                #[trigger] c[i + 1],
                c[i],
            )
        }),
    decreases cur.seq,
{
    let c = chain_seq(m, g, h, (cur.seq + 1) as nat);
    let rest = chain_seq(m, g, cur.message.previous_hash, cur.seq as nat);
    assert(c == seq![cur] + rest);
    match stored_message(m, g, cur.message.previous_hash) {
        Option::None => {
            assert(is_root_v(cur));
            assert(cur.seq == 0);
            assert(rest =~= Seq::<SignedMessageView>::empty());
            assert(c =~= seq![cur]);
        },
        Option::Some(p) => {
            assert(is_valid_parent_v(p, cur) && p.seq < cur.seq);
            assert(p.seq + 1 == cur.seq);
            lemma_walk_chain(m, g, cur.message.previous_hash, p);
            let c2 = chain_seq(m, g, cur.message.previous_hash, (p.seq + 1) as nat);
            assert(rest == c2);
            assert(c.last() == c2.last());
            assert forall|i: int| 0 <= i < c.len() - 1 implies is_valid_parent_v(
                #[trigger] c[i + 1],
                c[i],
            ) by {
                if i == 0 {
                    assert(c[0] == cur && c[1] == c2[0]);
                } else {
                    assert(c[i] == c2[i - 1] && c[i + 1] == c2[i]);
                    assert(0 <= i - 1 < c2.len() - 1);
                    assert(is_valid_parent_v(c2[i - 1 + 1], c2[i - 1]));
                }
            }
        },
    }
}

/// Of a group whose chain checks out and is not empty: the walk from its
/// tip hash lists exactly `tip.seq + 1` messages, each adjacent pair is a
/// valid parent and child, and the walk ends at a root, whose previous
/// hash is the all-zero sentinel.
pub proof fn lemma_chain_reaches_root(m: Map<Seq<u8>, Seq<u8>>, g: Seq<u8>)
    requires
        chain_ok(m, g),
        stored_latest(m, g) is Some,
    ensures
        ({
            let (h, tip) = stored_latest(m, g)->0;
            let c = chain_seq(m, g, h, (tip.seq + 1) as nat);
            &&& c.len() == tip.seq + 1
            &&& c[0] == tip
            &&& is_root_v(c.last())
            &&& c.last().message.previous_hash == crate::hash::zero_hash()
            &&& forall|i: int| 0 <= i < c.len() - 1 ==> is_valid_parent_v(
                #[trigger] c[i + 1],
                c[i],
            )
        }),
{
    let (h, tip) = stored_latest(m, g)->0;
    lemma_walk_chain(m, g, h, tip);
}


/// Beyond the walk's own length, fuel does not matter: a valid walk stops
/// by itself at the root.
pub proof fn lemma_chain_seq_fuel_stable(
    m: Map<Seq<u8>, Seq<u8>>,
    g: Seq<u8>,
    h: Seq<u8>,
    cur: SignedMessageView,
    fuel: nat,
)
    requires
        stored_message(m, g, h) == Some(cur),
        walk_ok(m, g, cur),
        fuel >= cur.seq + 1,
    ensures
        chain_seq(m, g, h, fuel) == chain_seq(m, g, h, (cur.seq + 1) as nat),
    decreases cur.seq,
{
    match stored_message(m, g, cur.message.previous_hash) {
        Option::None => {
            assert(cur.seq == 0);
            assert(chain_seq(m, g, cur.message.previous_hash, (fuel - 1) as nat) =~= Seq::<
                SignedMessageView,
            >::empty());
            assert(chain_seq(m, g, cur.message.previous_hash, (cur.seq + 1 - 1) as nat) =~= Seq::<
                SignedMessageView,
            >::empty());
        },
        Option::Some(p) => {
            assert(is_valid_parent_v(p, cur) && p.seq < cur.seq);
            lemma_chain_seq_fuel_stable(m, g, cur.message.previous_hash, p, (fuel - 1) as nat);
            lemma_chain_seq_fuel_stable(m, g, cur.message.previous_hash, p, cur.seq as nat);
        },
    }
}

/// Of a group whose chain checks out and is not empty, the tip-to-root
/// listing holds exactly `tip.seq + 1` messages and ends at a root.
pub proof fn lemma_listing_of_valid_chain(m: Map<Seq<u8>, Seq<u8>>, g: Seq<u8>)
    requires
        chain_ok(m, g),
        stored_latest(m, g) is Some,
        // the chain fits the machine's walk
        (stored_latest(m, g)->0).1.seq < usize::MAX,
    ensures
        ({
            let (h, tip) = stored_latest(m, g)->0;
            let c = listed_messages(m, g, usize::MAX as nat);
            &&& c.len() == tip.seq + 1
            &&& c[0] == tip
            &&& is_root_v(c.last())
        }),
{
    let (h, tip) = stored_latest(m, g)->0;
    lemma_chain_seq_fuel_stable(m, g, h, tip, usize::MAX as nat);
    lemma_walk_chain(m, g, h, tip);
}

} // verus!
