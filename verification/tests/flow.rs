use wallet_core::error::WalletError;
use wallet_core::flow::CreateState;
use wallet_core::mnemonic::MnemonicPhrase;

#[test]
fn creation_starts_with_the_wallet_row() {
    let state = CreateState::start();
    assert_eq!(state, CreateState::WriteWallet);
    assert!(!state.is_finished());
    assert_eq!(state.outcome(), None);
}

#[test]
fn three_good_answers_create_the_wallet() {
    let state = CreateState::start().advance(Ok(7));
    assert_eq!(state, CreateState::WritePhrase { wallet_id: 7 });
    let state = state.advance(Ok(3));
    assert_eq!(state, CreateState::Commit { wallet_id: 7 });
    assert_eq!(state.outcome(), None);
    let state = state.advance(Ok(0));
    assert_eq!(state, CreateState::Created { wallet_id: 7 });
    assert!(state.is_finished());
    assert_eq!(state.outcome(), Some(Ok(7)));
}

#[test]
fn a_refused_wallet_row_is_rolled_back() {
    let state = CreateState::start().advance(Err(WalletError::DuplicateIdentity));
    assert_eq!(state, CreateState::Rollback { error: WalletError::DuplicateIdentity });
    assert!(!state.is_finished());
    let state = state.advance(Ok(0));
    assert_eq!(state, CreateState::Failed { error: WalletError::DuplicateIdentity });
    assert_eq!(state.outcome(), Some(Err(WalletError::DuplicateIdentity)));
}

#[test]
fn a_refused_phrase_row_is_rolled_back() {
    let state = CreateState::start().advance(Ok(7));
    let state = state.advance(Err(WalletError::StoreUnavailable));
    assert_eq!(state, CreateState::Rollback { error: WalletError::StoreUnavailable });
    let state = state.advance(Err(WalletError::WalletNotFound));
    assert_eq!(state, CreateState::Failed { error: WalletError::StoreUnavailable });
    assert!(state.is_finished());
}

#[test]
fn a_failed_commit_fails_the_creation() {
    let state = CreateState::start().advance(Ok(7)).advance(Ok(1));
    let state = state.advance(Err(WalletError::StoreUnavailable));
    assert_eq!(state, CreateState::Failed { error: WalletError::StoreUnavailable });
}

#[test]
fn a_final_state_stays_as_it_is() {
    let created = CreateState::Created { wallet_id: 4 };
    assert_eq!(created.advance(Err(WalletError::StoreUnavailable)), created);
    assert_eq!(created.advance(Ok(9)), created);
    let failed = CreateState::Failed { error: WalletError::DuplicateIdentity };
    assert_eq!(failed.advance(Ok(9)), failed);
    assert_eq!(failed.advance(Err(WalletError::StoreUnavailable)), failed);
}

#[test]
fn a_lookup_without_phrase_tells_what_is_missing() {
    let found = MnemonicPhrase::from_lookup(3, Some("one two".to_string()), true);
    let found = found.ok().expect("a phrase");
    assert_eq!(found.phrase, "one two");
    assert_eq!(found.wallet_id, 3);
    let found = MnemonicPhrase::from_lookup(3, Some("one two".to_string()), false);
    assert!(found.is_ok());
    assert_eq!(
        MnemonicPhrase::from_lookup(3, None, true).err(),
        Some(WalletError::MnemonicNotFound)
    );
    assert_eq!(
        MnemonicPhrase::from_lookup(3, None, false).err(),
        Some(WalletError::WalletNotFound)
    );
}

#[test]
fn confirming_a_lookup_compares_normal_forms() {
    let stored = Some("one two three".to_string());
    assert_eq!(MnemonicPhrase::confirm_lookup(3, " one  two three\n", stored.clone(), true), Ok(true));
    assert_eq!(MnemonicPhrase::confirm_lookup(3, "one two four", stored.clone(), true), Ok(false));
    assert_eq!(MnemonicPhrase::confirm_lookup(3, "one\ttwo three", stored, true), Ok(false));
    assert_eq!(
        MnemonicPhrase::confirm_lookup(3, "one two three", None, true),
        Err(WalletError::MnemonicNotFound)
    );
    assert_eq!(
        MnemonicPhrase::confirm_lookup(3, "one two three", None, false),
        Err(WalletError::WalletNotFound)
    );
}
