use wallet_core::error::WalletError;
use wallet_core::keys::{AddressDeriver, KeyPair, PrivateKey};
use wallet_core::mnemonic::MnemonicPhrase;
use wallet_core::store::WalletStore;
use wallet_core::wallet::{Wallet, WalletDraft};

const ONE: &str = "0000000000000000000000000000000000000000000000000000000000000001";

fn pair(last_byte: u8) -> KeyPair {
    let mut bytes = [0u8; 32];
    bytes[31] = last_byte;
    KeyPair::from_private_key(PrivateKey::from_bytes(&bytes).expect("a scalar"))
}

#[test]
fn a_created_wallet_has_the_address_derived_from_its_key() {
    let mut store = WalletStore::new();
    let wallet = Wallet::new("alice", &mut store).ok().expect("created");
    assert_eq!(wallet.id, Some(1));
    assert_eq!(wallet.name, "alice");
    let (public_key, address) = AddressDeriver::derive(&wallet.private_key);
    assert_eq!(wallet.public_key, public_key);
    assert_eq!(wallet.address, address);
    assert_eq!(store.wallet_count(), 1);
    assert_eq!(store.mnemonic_count(), 1);
}

#[test]
fn a_created_wallet_has_a_phrase_of_twenty_four_words_on_record() {
    let mut store = WalletStore::new();
    let wallet = Wallet::new("alice", &mut store).ok().expect("created");
    let id = wallet.id.expect("an identifier");
    let phrase = store.find_mnemonic_by_wallet_id(id).expect("a phrase");
    assert_eq!(phrase.split(' ').count(), 24);
    assert_ne!(phrase, wallet.private_key.to_hex());
}

#[test]
fn an_empty_name_is_refused() {
    let mut store = WalletStore::new();
    assert_eq!(Wallet::new("", &mut store).err(), Some(WalletError::InvalidName));
    assert_eq!(store.wallet_count(), 0);
    assert_eq!(store.mnemonic_count(), 0);
    let created = Wallet::new("alice", &mut store).ok().expect("created");
    assert_eq!(created.id, Some(1));
}

#[test]
fn the_second_wallet_of_a_name_is_a_duplicate() {
    let mut store = WalletStore::new();
    let first = Wallet::new("alice", &mut store).ok().expect("created");
    assert_eq!(Wallet::new("alice", &mut store).err(), Some(WalletError::DuplicateIdentity));
    assert_eq!(store.wallet_count(), 1);
    assert_eq!(store.mnemonic_count(), 1);
    let again = Wallet::import("alice", &first.private_key.to_hex(), &store).ok();
    let again = again.expect("still stored");
    assert_eq!(again.id, first.id);
    assert_eq!(again.name, first.name);
    assert_eq!(again.public_key, first.public_key);
    assert_eq!(again.address, first.address);
    assert!(again.private_key.same_as(&first.private_key));
}

#[test]
fn other_names_get_their_own_wallets() {
    let mut store = WalletStore::new();
    let alice = Wallet::new("alice", &mut store).ok().expect("created");
    let bob = Wallet::new("bob", &mut store).ok().expect("created");
    assert_eq!(alice.id, Some(1));
    assert_eq!(bob.id, Some(2));
    assert_ne!(alice.address, bob.address);
    assert_ne!(alice.public_key, bob.public_key);
    assert!(!alice.private_key.same_as(&bob.private_key));
    let first = store.find_mnemonic_by_wallet_id(1).expect("a phrase");
    let second = store.find_mnemonic_by_wallet_id(2).expect("a phrase");
    assert_ne!(first, second);
}

#[test]
fn import_after_create_returns_the_created_wallet() {
    let mut store = WalletStore::new();
    Wallet::new("someone else", &mut store).ok().expect("created");
    let created = Wallet::new("alice", &mut store).ok().expect("created");
    let imported = Wallet::import("alice", &created.private_key.to_hex(), &store).ok();
    let imported = imported.expect("found");
    assert_eq!(imported.id, created.id);
    assert_eq!(imported.id, Some(2));
    assert_eq!(imported.address, created.address);
    assert_eq!(imported.public_key, created.public_key);
    assert_eq!(imported.name, "alice");
}

#[test]
fn import_accepts_the_key_in_upper_case() {
    let mut store = WalletStore::new();
    let created = Wallet::new("alice", &mut store).ok().expect("created");
    let upper = created.private_key.to_hex().to_uppercase();
    let imported = Wallet::import("alice", &upper, &store).ok().expect("found");
    assert_eq!(imported.id, created.id);
    assert_eq!(imported.address, created.address);
}

#[test]
fn import_refuses_text_that_is_no_key() {
    let mut store = WalletStore::new();
    let empty = WalletStore::new();
    Wallet::new("alice", &mut store).ok().expect("created");
    let zero = "0".repeat(64);
    let order = "fffffffffffffffffffffffffffffffebaaedce6af48a03bbfd25e8cd0364141";
    for text in ["garbage-hex", "", "zz", "abc", &ONE[2..], zero.as_str(), order] {
        assert_eq!(
            Wallet::import("alice", text, &store).err(),
            Some(WalletError::InvalidPrivateKey)
        );
        assert_eq!(
            Wallet::import("alice", text, &empty).err(),
            Some(WalletError::InvalidPrivateKey)
        );
    }
}

#[test]
fn import_of_an_unknown_wallet_is_not_found() {
    let mut store = WalletStore::new();
    let created = Wallet::new("alice", &mut store).ok().expect("created");
    let key = created.private_key.to_hex();
    assert_eq!(Wallet::import("bob", &key, &store).err(), Some(WalletError::WalletNotFound));
    assert_eq!(Wallet::import("alice", ONE, &store).err(), Some(WalletError::WalletNotFound));
    assert_eq!(Wallet::import("Alice", &key, &store).err(), Some(WalletError::WalletNotFound));
    let empty = WalletStore::new();
    assert_eq!(Wallet::import("alice", &key, &empty).err(), Some(WalletError::WalletNotFound));
}

#[test]
fn saving_writes_the_wallet_and_its_phrase() {
    let mut store = WalletStore::new();
    let saved = Wallet::save_to_db("alice", &pair(1), "one two three", &mut store).ok();
    let saved = saved.expect("saved");
    assert_eq!(saved.id, Some(1));
    assert_eq!(saved.name, "alice");
    assert_eq!(saved.private_key.to_hex(), ONE);
    assert_eq!(saved.address, "1BgGZ9tcN4rm9KBzDn7KprQz87SZ26SAMH");
    assert_eq!(store.find_mnemonic_by_wallet_id(1), Some("one two three".to_string()));
    assert_eq!(store.open_transactions(), 0);
    let imported = Wallet::import("alice", ONE, &store).ok().expect("found");
    assert_eq!(imported.id, Some(1));
    assert_eq!(imported.address, saved.address);
}

#[test]
fn a_refused_wallet_row_leaves_nothing() {
    let mut store = WalletStore::new();
    Wallet::save_to_db("alice", &pair(1), "first", &mut store).ok().expect("saved");
    let again = Wallet::save_to_db("alice", &pair(2), "second", &mut store);
    assert_eq!(again.err(), Some(WalletError::DuplicateIdentity));
    let same_key = Wallet::save_to_db("bob", &pair(1), "third", &mut store);
    assert_eq!(same_key.err(), Some(WalletError::DuplicateIdentity));
    assert_eq!(store.wallet_count(), 1);
    assert_eq!(store.mnemonic_count(), 1);
    assert_eq!(store.open_transactions(), 0);
    assert_eq!(store.find_mnemonic_by_wallet_id(1), Some("first".to_string()));
}

#[test]
fn a_refused_phrase_row_takes_the_wallet_row_with_it() {
    let mut store = WalletStore::with_first_ids(1, i32::MAX);
    Wallet::save_to_db("alice", &pair(1), "first", &mut store).ok().expect("saved");
    assert_eq!(store.wallet_count(), 1);
    assert_eq!(store.mnemonic_count(), 1);
    let failed = Wallet::save_to_db("bob", &pair(2), "second", &mut store);
    assert_eq!(failed.err(), Some(WalletError::StoreUnavailable));
    assert_eq!(store.wallet_count(), 1);
    assert_eq!(store.mnemonic_count(), 1);
    assert_eq!(store.open_transactions(), 0);
    assert!(!store.contains_wallet(2));
    assert!(store.find_wallet_by_name_and_key("bob", pair(2).private_key()).is_none());
    assert_eq!(store.find_mnemonic_by_wallet_id(2), None);
    let two = "0000000000000000000000000000000000000000000000000000000000000002";
    assert_eq!(Wallet::import("bob", two, &store).err(), Some(WalletError::WalletNotFound));
    assert!(Wallet::import("alice", ONE, &store).is_ok());
}

#[test]
fn a_failed_create_leaves_no_orphan() {
    let mut store = WalletStore::with_first_ids(1, i32::MAX);
    Wallet::new("alice", &mut store).ok().expect("created");
    assert_eq!(Wallet::new("bob", &mut store).err(), Some(WalletError::StoreUnavailable));
    assert_eq!(store.wallet_count(), 1);
    assert_eq!(store.mnemonic_count(), 1);
    assert!(!store.contains_wallet(2));
    assert_eq!(store.open_transactions(), 0);
}

#[test]
fn saving_inside_a_transaction_leaves_it_open() {
    let mut store = WalletStore::with_first_ids(1, i32::MAX);
    store.begin();
    assert_eq!(store.insert_wallet("outer", &pair(3)), Ok(1));
    Wallet::save_to_db("alice", &pair(1), "first", &mut store).ok().expect("saved");
    let failed = Wallet::save_to_db("bob", &pair(2), "second", &mut store);
    assert_eq!(failed.err(), Some(WalletError::StoreUnavailable));
    assert_eq!(store.open_transactions(), 1);
    assert_eq!(store.wallet_count(), 2);
    store.rollback();
    assert_eq!(store.wallet_count(), 0);
    assert_eq!(store.mnemonic_count(), 0);
}

#[test]
fn the_phrase_on_record_is_confirmed() {
    let mut store = WalletStore::new();
    let wallet = Wallet::new("alice", &mut store).ok().expect("created");
    let id = wallet.id.expect("an identifier");
    let phrase = MnemonicPhrase::get_wallet_mnemonic(id, &store).ok().expect("a phrase").phrase;
    assert_eq!(MnemonicPhrase::confirm_phrase(id, &phrase, &store), Ok(true));
    let spaced = format!("  {}\n", phrase.replace(' ', "   "));
    assert_eq!(MnemonicPhrase::confirm_phrase(id, &spaced, &store), Ok(true));
}

#[test]
fn a_phrase_with_one_word_changed_is_not_confirmed() {
    let mut store = WalletStore::new();
    let wallet = Wallet::new("alice", &mut store).ok().expect("created");
    let id = wallet.id.expect("an identifier");
    let phrase = store.find_mnemonic_by_wallet_id(id).expect("a phrase");
    let words: Vec<&str> = phrase.split(' ').collect();
    for k in 0..words.len() {
        let mut changed = words.clone();
        changed[k] = if words[k] == "zoo" { "abandon" } else { "zoo" };
        let candidate = changed.join(" ");
        assert_eq!(MnemonicPhrase::confirm_phrase(id, &candidate, &store), Ok(false));
    }
    let shorter = words[1..].join(" ");
    assert_eq!(MnemonicPhrase::confirm_phrase(id, &shorter, &store), Ok(false));
    assert_eq!(MnemonicPhrase::confirm_phrase(id, "", &store), Ok(false));
}

#[test]
fn confirming_tells_a_missing_wallet_from_a_missing_phrase() {
    let mut store = WalletStore::new();
    assert_eq!(store.insert_wallet("bare", &pair(1)), Ok(1));
    assert_eq!(
        MnemonicPhrase::confirm_phrase(1, "any words", &store),
        Err(WalletError::MnemonicNotFound)
    );
    assert_eq!(
        MnemonicPhrase::confirm_phrase(2, "any words", &store),
        Err(WalletError::WalletNotFound)
    );
    assert_eq!(
        MnemonicPhrase::get_wallet_mnemonic(1, &store).err(),
        Some(WalletError::MnemonicNotFound)
    );
    assert_eq!(
        MnemonicPhrase::get_wallet_mnemonic(-3, &store).err(),
        Some(WalletError::WalletNotFound)
    );
}

#[test]
fn a_phrase_is_stored_for_its_wallet() {
    let mut store = WalletStore::new();
    assert_eq!(store.insert_wallet("alice", &pair(1)), Ok(1));
    let phrase = MnemonicPhrase { phrase: "one two three".to_string(), wallet_id: 1 };
    assert_eq!(phrase.save_to_db(&mut store), Ok(()));
    let found = MnemonicPhrase::get_wallet_mnemonic(1, &store).ok().expect("a phrase");
    assert_eq!(found.phrase, "one two three");
    assert_eq!(found.wallet_id, 1);
    let orphan = MnemonicPhrase { phrase: "four five".to_string(), wallet_id: 9 };
    assert_eq!(orphan.save_to_db(&mut store), Err(WalletError::WalletNotFound));
    assert_eq!(store.mnemonic_count(), 1);
}

#[test]
fn a_new_phrase_is_generated_and_stored() {
    let mut store = WalletStore::new();
    assert_eq!(store.insert_wallet("alice", &pair(1)), Ok(1));
    let created = MnemonicPhrase::new(1, &mut store).ok().expect("created");
    assert_eq!(created.wallet_id, 1);
    assert_eq!(created.phrase.split(' ').count(), 24);
    assert_eq!(store.find_mnemonic_by_wallet_id(1), Some(created.phrase.clone()));
    assert_eq!(MnemonicPhrase::new(2, &mut store).err(), Some(WalletError::WalletNotFound));
    assert_eq!(store.mnemonic_count(), 1);
}

#[test]
fn a_draft_holds_fresh_keys_and_a_fresh_phrase() {
    let draft = Wallet::draft("alice").ok().expect("drawn");
    assert_eq!(draft.name, "alice");
    let (public_key, address) = AddressDeriver::derive(draft.keys.private_key());
    assert_eq!(draft.keys.public_key(), &public_key);
    assert_eq!(draft.keys.address(), &address);
    assert_eq!(draft.phrase.split(' ').count(), 24);
    let other = Wallet::draft("alice").ok().expect("drawn");
    assert!(!other.keys.private_key().same_as(draft.keys.private_key()));
    assert_ne!(other.phrase, draft.phrase);
    assert_eq!(Wallet::draft("").err(), Some(WalletError::InvalidName));
}

#[test]
fn a_stored_draft_is_the_wallet_that_import_finds() {
    let mut store = WalletStore::new();
    let draft = Wallet::draft("alice").ok().expect("drawn");
    let saved = Wallet::save_to_db(&draft.name, &draft.keys, &draft.phrase, &mut store);
    let saved = saved.ok().expect("saved");
    let key = draft.keys.private_key().to_hex();
    let imported = Wallet::import("alice", &key, &store).ok().expect("found");
    assert_eq!(imported.id, saved.id);
    assert_eq!(imported.address, saved.address);
    assert_eq!(MnemonicPhrase::confirm_phrase(1, &draft.phrase, &store), Ok(true));
}

#[test]
fn a_record_becomes_a_wallet_with_its_identifier() {
    let mut store = WalletStore::new();
    assert_eq!(store.insert_wallet("alice", &pair(1)), Ok(1));
    let row = store
        .find_wallet_by_name_and_key("alice", pair(1).private_key())
        .expect("stored");
    let wallet = Wallet::from_record(&row);
    assert_eq!(wallet.id, Some(1));
    assert_eq!(wallet.name, "alice");
    assert_eq!(wallet.private_key.to_hex(), ONE);
    assert_eq!(wallet.public_key, *pair(1).public_key());
    assert_eq!(wallet.address, *pair(1).address());
}

#[test]
fn a_draft_is_made_of_its_two_draws() {
    let key = PrivateKey::from_hex(ONE).expect("a scalar");
    let draft = WalletDraft::from_draws("alice", key, &[0u8; 32]).ok().expect("drawn");
    assert_eq!(draft.name, "alice");
    assert_eq!(draft.keys.private_key().to_hex(), ONE);
    assert_eq!(draft.keys.address(), "1BgGZ9tcN4rm9KBzDn7KprQz87SZ26SAMH");
    let mut words = vec!["abandon"; 23];
    words.push("art");
    assert_eq!(draft.phrase, words.join(" "));
    let key = PrivateKey::from_hex(ONE).expect("a scalar");
    let other = WalletDraft::from_draws("alice", key, &[0xffu8; 32]).ok().expect("drawn");
    assert_eq!(other.keys.address(), draft.keys.address());
    assert_ne!(other.phrase, draft.phrase);
}

#[test]
fn a_draft_needs_a_name_and_thirty_two_bytes_of_entropy() {
    let key = PrivateKey::from_hex(ONE).expect("a scalar");
    let refused = WalletDraft::from_draws("", key.clone(), &[0u8; 32]);
    assert_eq!(refused.err(), Some(WalletError::InvalidName));
    let refused = WalletDraft::from_draws("", key.clone(), &[0u8; 5]);
    assert_eq!(refused.err(), Some(WalletError::InvalidName));
    for length in [0usize, 16, 24, 31, 33] {
        let refused = WalletDraft::from_draws("alice", key.clone(), &vec![0u8; length]);
        assert_eq!(refused.err(), Some(WalletError::EntropySourceUnavailable));
    }
}

#[test]
fn a_sound_row_becomes_a_wallet() {
    let keys = pair(1);
    let wallet = Wallet::from_row(7, "alice", ONE, keys.public_key(), keys.address());
    let wallet = wallet.ok().expect("a sound row");
    assert_eq!(wallet.id, Some(7));
    assert_eq!(wallet.name, "alice");
    assert_eq!(wallet.private_key.to_hex(), ONE);
    assert_eq!(wallet.public_key, *keys.public_key());
    assert_eq!(wallet.address, *keys.address());
    let upper = ONE.to_uppercase();
    assert!(Wallet::from_row(7, "alice", &upper, keys.public_key(), keys.address()).is_ok());
}

#[test]
fn a_row_that_does_not_fit_together_is_a_fault_of_the_store() {
    let keys = pair(1);
    let other = pair(2);
    let wrong_address = Wallet::from_row(7, "alice", ONE, keys.public_key(), other.address());
    assert_eq!(wrong_address.err(), Some(WalletError::StoreUnavailable));
    let wrong_public_key = Wallet::from_row(7, "alice", ONE, other.public_key(), keys.address());
    assert_eq!(wrong_public_key.err(), Some(WalletError::StoreUnavailable));
    let no_key = Wallet::from_row(7, "alice", "not a key", keys.public_key(), keys.address());
    assert_eq!(no_key.err(), Some(WalletError::StoreUnavailable));
    let zero = "0".repeat(64);
    let zero_key = Wallet::from_row(7, "alice", &zero, keys.public_key(), keys.address());
    assert_eq!(zero_key.err(), Some(WalletError::StoreUnavailable));
}

#[test]
fn a_lookup_that_found_nothing_is_not_found() {
    assert_eq!(Wallet::from_lookup(None).err(), Some(WalletError::WalletNotFound));
    let found = Wallet::from_lookup(Some(Wallet::of_keys(3, "alice", &pair(1))));
    let found = found.ok().expect("found");
    assert_eq!(found.id, Some(3));
    assert_eq!(found.name, "alice");
    assert_eq!(found.address, *pair(1).address());
}
