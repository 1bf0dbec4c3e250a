use webmessage::account::GenKeysAlgorithm;
use webmessage::account_store::AccountStore;
use webmessage::group_store::GroupStore;
use webmessage::hash::MessageHash;
use webmessage::message::SignedMessage;
use webmessage::message_store::SignedMessageStore;
use webmessage::signer::Signer;
use webmessage::storage::Storage;
use webmessage::writer::{AdmissionError, Writer};

fn group1() -> Vec<u8> {
    b"group1".to_vec()
}

#[test]
fn root_then_child_locally_signed() {
    let mut store = Storage::new();
    let (id, _secret) = AccountStore {}.initialize(&mut store);
    let g = group1();

    assert!(SignedMessageStore {}.messages(&store, &g).is_empty());
    assert!(GroupStore {}.groups(&store).is_empty());

    let msg = Signer {}
        .sign(&store, &g, b"some data".to_vec())
        .expect("signing under a fresh account succeeds");
    let (_, wrote) = Writer {}.write(&mut store, &g, msg);
    assert_eq!(wrote.seq, 0);

    let msgs = SignedMessageStore {}.messages(&store, &g);
    assert_eq!(msgs.len(), 1);
    assert_eq!(msgs[0].seq, 0);
    assert_eq!(msgs[0].message.data, b"some data".to_vec());
    assert_eq!(msgs[0].message.previous_hash.bytes, vec![0u8; 32]);
    assert!(msgs[0].id == id);
    assert_eq!(GroupStore {}.groups(&store).len(), 1);

    let first_hash = msgs[0].hash();

    let msg2 = Signer {}
        .sign(&store, &g, b"some data again".to_vec())
        .expect("signing the child succeeds");
    Writer {}.write(&mut store, &g, msg2);

    let msgs = SignedMessageStore {}.messages(&store, &g);
    assert_eq!(msgs.len(), 2);
    assert_eq!(msgs[0].seq, 1);
    assert!(msgs[0].message.previous_hash.eq_hash(&first_hash));
    assert_eq!(GroupStore {}.groups(&store).len(), 1);

    assert!(SignedMessageStore {}.validate_messages(&store, &g));
}

#[test]
fn foreign_chain_admission() {
    let mut store = Storage::new();
    AccountStore {}.initialize(&mut store);
    let g = group1();

    let (secret, id) = GenKeysAlgorithm::generate_keys();
    let m1 = SignedMessage::new_first_message(id.duplicate(), &secret, b"other data".to_vec())
        .expect("fresh keys sign");
    let m2 = SignedMessage::new_from_previous_message(
        id.duplicate(),
        &secret,
        b"other data 2".to_vec(),
        m1.hash(),
        &m1,
    )
    .expect("fresh keys sign");

    Writer {}
        .write_with_validation(&mut store, &g, m1)
        .expect("the root is admissible");
    assert_eq!(SignedMessageStore {}.messages(&store, &g).len(), 1);
    assert_eq!(GroupStore {}.groups(&store).len(), 1);

    Writer {}
        .write_with_validation(&mut store, &g, m2)
        .expect("the child is admissible");
    assert_eq!(SignedMessageStore {}.messages(&store, &g).len(), 2);
    assert_eq!(GroupStore {}.groups(&store).len(), 1);

    assert!(SignedMessageStore {}.validate_messages(&store, &g));
}

#[test]
fn mixed_authorship() {
    let mut store = Storage::new();
    AccountStore {}.initialize(&mut store);
    let g = group1();

    let local_root = Signer {}
        .sign(&store, &g, b"some data".to_vec())
        .expect("signing under a fresh account succeeds");
    assert!(local_root.verify());
    let (_, local_root) = Writer {}.write(&mut store, &g, local_root);

    let (secret, id) = GenKeysAlgorithm::generate_keys();
    let other = SignedMessage::new_from_previous_message(
        id,
        &secret,
        b"other data".to_vec(),
        local_root.hash(),
        &local_root,
    )
    .expect("fresh keys sign");
    assert!(other.verify());
    assert!(local_root.is_valid_parent_of(&other));

    Writer {}
        .write_with_validation(&mut store, &g, other)
        .expect("a foreign child of the local tip is admissible");

    assert_eq!(SignedMessageStore {}.messages(&store, &g).len(), 2);
    assert_eq!(GroupStore {}.groups(&store).len(), 1);
    assert!(SignedMessageStore {}.validate_messages(&store, &g));
}

#[test]
fn tampered_message_is_rejected() {
    let mut store = Storage::new();
    AccountStore {}.initialize(&mut store);
    let g = group1();

    let (secret, id) = GenKeysAlgorithm::generate_keys();
    let mut m1 = SignedMessage::new_first_message(id, &secret, b"other data".to_vec())
        .expect("fresh keys sign");
    m1.message.data = b"other data 3".to_vec();

    let err = Writer {}
        .write_with_validation(&mut store, &g, m1)
        .expect_err("a tampered message is turned away");
    assert_eq!(err, AdmissionError::InvalidSignature);

    assert!(SignedMessageStore {}.messages(&store, &g).is_empty());
    assert!(GroupStore {}.groups(&store).is_empty());
    assert!(SignedMessageStore {}.validate_messages(&store, &g));
}

#[test]
fn sequence_gap_is_rejected() {
    let mut store = Storage::new();
    AccountStore {}.initialize(&mut store);
    let g = group1();

    let (secret, id) = GenKeysAlgorithm::generate_keys();
    let m1 = SignedMessage::new_first_message(id.duplicate(), &secret, b"other data".to_vec())
        .expect("fresh keys sign");
    let m1_hash = m1.hash();
    Writer {}
        .write_with_validation(&mut store, &g, m1)
        .expect("the root is admissible");

    let m3 = SignedMessage::new_from_previous_message(
        id.duplicate(),
        &secret,
        b"x".to_vec(),
        m1_hash,
        &SignedMessage {
            message: webmessage::message::Message::root(b"other data".to_vec()),
            id: id.duplicate(),
            seq: 0,
            signature: webmessage::message::Signature::new(vec![]),
        },
    )
    .expect("fresh keys sign");
    let m4 = SignedMessage::new_from_previous_message(
        id.duplicate(),
        &secret,
        b"y".to_vec(),
        m3.hash(),
        &m3,
    )
    .expect("fresh keys sign");

    let err = Writer {}
        .write_with_validation(&mut store, &g, m4)
        .expect_err("a message skipping a link is turned away");
    assert_eq!(err, AdmissionError::WrongSequence);
}

#[test]
fn wrong_previous_hash_is_rejected() {
    let mut store = Storage::new();
    AccountStore {}.initialize(&mut store);
    let g = group1();

    let (secret, id) = GenKeysAlgorithm::generate_keys();
    let m1 = SignedMessage::new_first_message(id.duplicate(), &secret, b"other data".to_vec())
        .expect("fresh keys sign");
    let m1_for_seq = m1.duplicate();
    Writer {}
        .write_with_validation(&mut store, &g, m1)
        .expect("the root is admissible");

    // right sequence number, but committing to a made-up parent hash
    let bogus = MessageHash::new(vec![7u8; 32]);
    let m2 = SignedMessage::new_from_previous_message(
        id,
        &secret,
        b"other data 2".to_vec(),
        bogus,
        &m1_for_seq,
    )
    .expect("fresh keys sign");

    let err = Writer {}
        .write_with_validation(&mut store, &g, m2)
        .expect_err("a message naming the wrong tip is turned away");
    assert_eq!(err, AdmissionError::WrongPreviousHash);
}

#[test]
fn write_is_idempotent() {
    let mut store = Storage::new();
    AccountStore {}.initialize(&mut store);
    let g = group1();

    let msg = Signer {}
        .sign(&store, &g, b"some data".to_vec())
        .expect("signing under a fresh account succeeds");
    let (_, wrote) = Writer {}.write(&mut store, &g, msg);

    let mut snapshot: Vec<(Vec<u8>, Vec<u8>)> = store.entries().clone();
    snapshot.sort();

    Writer {}.write(&mut store, &g, wrote);
    let mut again: Vec<(Vec<u8>, Vec<u8>)> = store.entries().clone();
    again.sort();

    assert_eq!(snapshot, again);
    assert!(SignedMessageStore {}.validate_messages(&store, &g));
}

#[test]
fn unvalidated_gap_fails_the_chain_check() {
    let mut store = Storage::new();
    AccountStore {}.initialize(&mut store);
    let g = group1();

    let (secret, id) = GenKeysAlgorithm::generate_keys();
    let m1 = SignedMessage::new_first_message(id.duplicate(), &secret, b"a".to_vec())
        .expect("fresh keys sign");
    let m2 = SignedMessage::new_from_previous_message(
        id.duplicate(),
        &secret,
        b"b".to_vec(),
        m1.hash(),
        &m1,
    )
    .expect("fresh keys sign");
    let m3 = SignedMessage::new_from_previous_message(
        id.duplicate(),
        &secret,
        b"c".to_vec(),
        m2.hash(),
        &m2,
    )
    .expect("fresh keys sign");

    // the trusted path persists without validation: skip m2
    Writer {}.write(&mut store, &g, m1);
    Writer {}.write(&mut store, &g, m3);

    // the listing truncates silently at the missing link
    assert_eq!(SignedMessageStore {}.messages(&store, &g).len(), 1);
    // the chain check does not accept the gap
    assert!(!SignedMessageStore {}.validate_messages(&store, &g));
}

#[test]
fn groups_are_registered_once_per_id() {
    let mut store = Storage::new();
    AccountStore {}.initialize(&mut store);
    let g1 = group1();
    let g2 = b"group2".to_vec();

    let m = Signer {}.sign(&store, &g1, b"some data".to_vec()).unwrap();
    Writer {}.write(&mut store, &g1, m);
    let m = Signer {}.sign(&store, &g2, b"some data".to_vec()).unwrap();
    Writer {}.write(&mut store, &g2, m);

    assert_eq!(SignedMessageStore {}.messages(&store, &g1).len(), 1);
    assert_eq!(SignedMessageStore {}.messages(&store, &g2).len(), 1);
    assert!(SignedMessageStore {}.validate_messages(&store, &g1));
    assert!(SignedMessageStore {}.validate_messages(&store, &g2));

    let groups = GroupStore {}.groups(&store);
    assert_eq!(groups.len(), 2);
    assert_eq!(groups[0].id, g1);
    assert_eq!(groups[1].id, g2);
}

#[test]
fn verify_rejects_undecodable_identity() {
    let (secret, _) = GenKeysAlgorithm::generate_keys();
    let id = webmessage::account::Identity::from_text(b"not a key".to_vec());
    // signing itself fails: the identity text does not decode
    assert!(SignedMessage::new_first_message(id.duplicate(), &secret, b"d".to_vec()).is_none());
    // and a message carrying such a signer never verifies
    let sm = SignedMessage {
        message: webmessage::message::Message::root(b"d".to_vec()),
        id,
        seq: 0,
        signature: webmessage::message::Signature::new(b"junk".to_vec()),
    };
    assert!(!sm.verify());
}

#[test]
fn empty_group_is_valid() {
    let store = Storage::new();
    assert!(SignedMessageStore {}.validate_messages(&store, &b"nothing".to_vec()));
    assert!(SignedMessageStore {}
        .messages(&store, &b"nothing".to_vec())
        .is_empty());
}

#[test]
fn group_timestamp_is_first_seen() {
    let mut store = Storage::new();
    AccountStore {}.initialize(&mut store);
    let g = group1();

    let m = Signer {}.sign(&store, &g, b"a".to_vec()).unwrap();
    Writer {}.write(&mut store, &g, m);
    let first = GroupStore {}.groups(&store);
    assert_eq!(first.len(), 1);

    let m = Signer {}.sign(&store, &g, b"b".to_vec()).unwrap();
    Writer {}.write(&mut store, &g, m);
    let second = GroupStore {}.groups(&store);
    assert_eq!(second.len(), 1);
    // the record is add-only: the first-seen time stays
    assert_eq!(first[0].timestamp, second[0].timestamp);
}

#[test]
fn clear_forgets_everything() {
    let mut store = Storage::new();
    AccountStore {}.initialize(&mut store);
    let g = group1();
    let m = Signer {}.sign(&store, &g, b"a".to_vec()).unwrap();
    Writer {}.write(&mut store, &g, m);
    assert!(!store.entries().is_empty());

    store.clear();
    assert!(store.entries().is_empty());
    assert!(SignedMessageStore {}.messages(&store, &g).is_empty());
    assert!(GroupStore {}.groups(&store).is_empty());
    assert!(AccountStore {}.accounts(&store).is_empty());
}

#[test]
fn non_canonical_identity_text_never_verifies() {
    let (secret, id) = GenKeysAlgorithm::generate_keys();
    let sm = SignedMessage::new_first_message(id.duplicate(), &secret, b"d".to_vec())
        .expect("fresh keys sign");
    assert!(sm.verify());

    // the same key bytes under a reformatted text: an identity is its
    // canonical text alone, so verification refuses it
    let mut spaced = id.to_text();
    let comma = spaced.iter().position(|b| *b == b',').unwrap();
    spaced.insert(comma + 1, b' ');
    let mut forged = sm.duplicate();
    forged.id = webmessage::account::Identity::from_text(spaced);
    assert!(!forged.verify());
}
