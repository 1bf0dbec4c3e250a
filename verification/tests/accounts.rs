use webmessage::account::Identity;
use webmessage::account_store::AccountStore;
use webmessage::storage::Storage;

#[test]
fn account_management() {
    let mut store = Storage::new();
    let reg = AccountStore {};

    assert!(reg.accounts(&store).is_empty());

    let (id1, _) = reg.initialize(&mut store);
    let accounts = reg.accounts(&store);
    assert_eq!(accounts.len(), 1);
    assert!(accounts[0].0 == id1);

    let (id2, _) = reg.new_account(&mut store);
    let accounts = reg.accounts(&store);
    assert_eq!(accounts.len(), 2);
    assert!(accounts[0].0 == id1);
    assert!(accounts[1].0 == id2);

    // the newest account is current
    let (check, _) = reg.initialize(&mut store);
    assert!(check == id2);

    // move the cursor back to the first
    reg.set_current_account(&mut store, id1.duplicate());
    let (check, _) = reg.initialize(&mut store);
    assert!(check == id1);

    // delete the first; the second remains and becomes current
    reg.delete_account(&mut store, &id1);
    let accounts = reg.accounts(&store);
    assert_eq!(accounts.len(), 1);
    assert!(accounts[0].0 == id2);
    let (check, _) = reg.initialize(&mut store);
    assert!(check == id2);
}

#[test]
fn initialize_is_stable() {
    let mut store = Storage::new();
    let reg = AccountStore {};
    let (id1, s1) = reg.initialize(&mut store);
    let (id2, s2) = reg.initialize(&mut store);
    assert!(id1 == id2);
    assert_eq!(s1.to_text(), s2.to_text());
    assert_eq!(reg.accounts(&store).len(), 1);
}

#[test]
fn set_current_unknown_is_a_no_op() {
    let mut store = Storage::new();
    let reg = AccountStore {};
    let (id1, _) = reg.initialize(&mut store);
    reg.set_current_account(&mut store, Identity::from_text(b"stranger".to_vec()));
    let (check, _) = reg.initialize(&mut store);
    assert!(check == id1);
    assert_eq!(reg.current_index(&store), 0);
}

#[test]
fn delete_unknown_is_a_no_op() {
    let mut store = Storage::new();
    let reg = AccountStore {};
    reg.initialize(&mut store);
    let before = store.entries().clone();
    reg.delete_account(&mut store, &Identity::from_text(b"stranger".to_vec()));
    assert_eq!(&before, store.entries());
}

#[test]
fn delete_below_cursor_pulls_it_back() {
    let mut store = Storage::new();
    let reg = AccountStore {};
    let (id1, _) = reg.initialize(&mut store);
    let (_id2, _) = reg.new_account(&mut store);
    let (id3, _) = reg.new_account(&mut store);
    assert_eq!(reg.current_index(&store), 2);

    reg.delete_account(&mut store, &id1);
    assert_eq!(reg.current_index(&store), 1);
    let (check, _) = reg.initialize(&mut store);
    assert!(check == id3);
}

#[test]
fn delete_current_steps_down() {
    let mut store = Storage::new();
    let reg = AccountStore {};
    let (id1, _) = reg.initialize(&mut store);
    let (id2, _) = reg.new_account(&mut store);
    assert_eq!(reg.current_index(&store), 1);

    reg.delete_account(&mut store, &id2);
    assert_eq!(reg.current_index(&store), 0);
    let (check, _) = reg.initialize(&mut store);
    assert!(check == id1);
}

#[test]
fn identity_text_round_trip() {
    let id = Identity::from_text(b"some canonical text".to_vec());
    let back = Identity::from_text(id.to_text());
    assert!(back == id);

    let mut store = Storage::new();
    let (generated, _) = AccountStore {}.initialize(&mut store);
    let back = Identity::from_text(generated.to_text());
    assert!(back == generated);
}
