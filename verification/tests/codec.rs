use webmessage::account::Identity;
use webmessage::codec::{
    decode_accounts, decode_groups, decode_hash, decode_signed_message, decode_u64,
    encode_accounts, encode_groups, encode_hash, encode_signed_message, encode_u64,
};
use webmessage::group::Group;
use webmessage::hash::MessageHash;
use webmessage::message::{Message, Signature, SignedMessage};

fn sample_message() -> SignedMessage {
    SignedMessage {
        message: Message {
            previous_hash: MessageHash::zero(),
            data: vec![1, 2],
        },
        id: Identity::from_text(b"k".to_vec()),
        seq: 0,
        signature: Signature::new(b"a".to_vec()),
    }
}

#[test]
fn signed_message_wire_shape() {
    let bytes = encode_signed_message(&sample_message());
    let text = String::from_utf8(bytes).expect("the wire form is ASCII");
    let zeros = vec!["0"; 32].join(",");
    let expected = format!(
        "{{\"message\":{{\"previous_hash\":[{}],\"data\":[1,2]}},\"id\":{{\"public_key\":\"k\"}},\"seq\":0,\"signature\":{{\"signature\":\"a\"}}}}",
        zeros
    );
    assert_eq!(text, expected);
}

#[test]
fn signed_message_wire_form_reads_back_with_serde() {
    let bytes = encode_signed_message(&sample_message());
    let value: serde_json::Value =
        serde_json::from_slice(&bytes).expect("the wire form is plain JSON");
    assert_eq!(value["seq"], serde_json::Value::from(0u32));
    assert_eq!(value["id"]["public_key"], serde_json::Value::from("k"));
    assert_eq!(value["message"]["data"][0], serde_json::Value::from(1u8));
    assert_eq!(value["message"]["previous_hash"][31], serde_json::Value::from(0u8));
}

#[test]
fn signed_message_round_trip() {
    let sm = sample_message();
    let bytes = encode_signed_message(&sm);
    let back = decode_signed_message(&bytes).expect("own output decodes");
    assert_eq!(back.message.previous_hash.bytes, sm.message.previous_hash.bytes);
    assert_eq!(back.message.data, sm.message.data);
    assert!(back.id == sm.id);
    assert_eq!(back.seq, sm.seq);
    assert_eq!(back.signature.signature, sm.signature.signature);
}

#[test]
fn escaped_texts_round_trip() {
    let mut nasty: Vec<u8> = Vec::new();
    nasty.extend_from_slice(b"a\"b\\c");
    nasty.push(0x07);
    nasty.push(0x1f);
    let mut sm = sample_message();
    sm.id = Identity::from_text(nasty.clone());
    sm.signature = Signature::new(nasty.clone());
    let bytes = encode_signed_message(&sm);
    let back = decode_signed_message(&bytes).expect("escaped texts decode");
    assert_eq!(back.id.public_key, nasty);
    assert_eq!(back.signature.signature, nasty);
}

#[test]
fn real_identity_text_round_trips_in_wire_form() {
    let (secret, id) = webmessage::account::GenKeysAlgorithm::generate_keys();
    let sm = SignedMessage::new_first_message(id.duplicate(), &secret, b"payload".to_vec())
        .expect("fresh keys sign");
    let bytes = encode_signed_message(&sm);
    let back = decode_signed_message(&bytes).expect("own output decodes");
    assert!(back.id == id);
    assert!(back.verify());
}

#[test]
fn hash_round_trip_and_shape() {
    let h = MessageHash::new((0u8..32).collect());
    let bytes = encode_hash(&h);
    let text = String::from_utf8(bytes.clone()).unwrap();
    assert!(text.starts_with("[0,1,2,"));
    assert!(text.ends_with(",31]"));
    let back = decode_hash(&bytes).expect("own output decodes");
    assert_eq!(back.bytes, h.bytes);
}

#[test]
fn wrong_length_hash_does_not_decode() {
    let bytes = b"[1,2,3]".to_vec();
    assert!(decode_hash(&bytes).is_none());
}

#[test]
fn groups_round_trip() {
    let gs = vec![
        Group { id: b"group1".to_vec(), timestamp: 7 },
        Group { id: b"group2".to_vec(), timestamp: 1700000000 },
    ];
    let bytes = encode_groups(&gs);
    let text = String::from_utf8(bytes.clone()).unwrap();
    assert_eq!(
        text,
        "[{\"id\":\"group1\",\"timestamp\":7},{\"id\":\"group2\",\"timestamp\":1700000000}]"
    );
    let back = decode_groups(&bytes).expect("own output decodes");
    assert_eq!(back.len(), 2);
    assert_eq!(back[0].id, b"group1".to_vec());
    assert_eq!(back[0].timestamp, 7);
    assert_eq!(back[1].id, b"group2".to_vec());
    assert_eq!(back[1].timestamp, 1700000000);
}

#[test]
fn empty_groups_round_trip() {
    let gs: Vec<Group> = Vec::new();
    let bytes = encode_groups(&gs);
    assert_eq!(bytes, b"[]".to_vec());
    let back = decode_groups(&bytes).expect("an empty list decodes");
    assert!(back.is_empty());
}

#[test]
fn accounts_round_trip() {
    let mut store = webmessage::storage::Storage::new();
    let reg = webmessage::account_store::AccountStore {};
    let (id1, _) = reg.initialize(&mut store);
    let (id2, _) = reg.new_account(&mut store);
    let accounts = reg.accounts(&store);
    let bytes = encode_accounts(&accounts);
    let back = decode_accounts(&bytes).expect("own output decodes");
    assert_eq!(back.len(), 2);
    assert!(back[0].0 == id1);
    assert!(back[1].0 == id2);
}

#[test]
fn numbers_round_trip() {
    for n in [0u64, 1, 9, 10, 41, 255, 4294967295, u64::MAX] {
        let bytes = encode_u64(n);
        assert_eq!(String::from_utf8(bytes.clone()).unwrap(), format!("{}", n));
        assert_eq!(decode_u64(&bytes), Some(n));
    }
}

#[test]
fn overflowing_number_does_not_decode() {
    let bytes = b"18446744073709551616".to_vec();
    assert_eq!(decode_u64(&bytes), None);
}

#[test]
fn garbage_does_not_decode() {
    assert!(decode_signed_message(&b"not json".to_vec()).is_none());
    assert!(decode_signed_message(&b"{}".to_vec()).is_none());
    assert!(decode_signed_message(&Vec::new()).is_none());
    // trailing bytes are refused
    let mut bytes = encode_signed_message(&sample_message());
    bytes.push(b' ');
    assert!(decode_signed_message(&bytes).is_none());
}

#[test]
fn message_hash_matches_direct_digest() {
    let m = Message {
        previous_hash: MessageHash::zero(),
        data: b"abc".to_vec(),
    };
    let got = m.to_hash();

    let mut input = vec![0u8; 32];
    input.extend_from_slice(b"abc");
    let expected = <sha2::Sha256 as sha2::Digest>::digest(&input);
    assert_eq!(got.bytes, expected.to_vec());
}

#[test]
fn signed_message_hash_covers_all_fields() {
    let sm = sample_message();
    let got = sm.hash();

    let mut input: Vec<u8> = Vec::new();
    input.extend_from_slice(&sm.message.data);
    input.extend_from_slice(&sm.id.public_key);
    input.extend_from_slice(&sm.seq.to_le_bytes());
    input.extend_from_slice(&sm.signature.signature);
    let expected = <sha2::Sha256 as sha2::Digest>::digest(&input);
    assert_eq!(got.bytes, expected.to_vec());

    let mut other = sample_message();
    other.seq = 1;
    assert!(!other.hash().eq_hash(&got));
}
