use wallet_core::error::WalletError;

#[test]
fn every_kind_names_itself() {
    assert_eq!(WalletError::InvalidName.kind(), "InvalidName");
    assert_eq!(WalletError::EntropySourceUnavailable.kind(), "EntropySourceUnavailable");
    assert_eq!(WalletError::InvalidPrivateKey.kind(), "InvalidPrivateKey");
    assert_eq!(WalletError::DuplicateIdentity.kind(), "DuplicateIdentity");
    assert_eq!(WalletError::WalletNotFound.kind(), "WalletNotFound");
    assert_eq!(WalletError::MnemonicNotFound.kind(), "MnemonicNotFound");
    assert_eq!(WalletError::StoreUnavailable.kind(), "StoreUnavailable");
}

#[test]
fn status_codes_by_kind() {
    assert_eq!(WalletError::InvalidName.status(), 400);
    assert_eq!(WalletError::InvalidPrivateKey.status(), 400);
    assert_eq!(WalletError::DuplicateIdentity.status(), 409);
    assert_eq!(WalletError::WalletNotFound.status(), 404);
    assert_eq!(WalletError::MnemonicNotFound.status(), 404);
    assert_eq!(WalletError::EntropySourceUnavailable.status(), 503);
    assert_eq!(WalletError::StoreUnavailable.status(), 503);
}

#[test]
fn messages_are_fixed_text() {
    assert_eq!(WalletError::WalletNotFound.message(), "wallet not found");
    assert_eq!(WalletError::MnemonicNotFound.message(), "mnemonic not found for the wallet");
    assert_eq!(WalletError::InvalidName.message(), "wallet name must not be empty");
    assert_eq!(
        WalletError::DuplicateIdentity.message(),
        "a wallet with this name or key already exists"
    );
    assert_eq!(WalletError::InvalidPrivateKey.message(), "private key is not a valid key");
    assert_eq!(
        WalletError::EntropySourceUnavailable.message(),
        "secure random source is unavailable"
    );
    assert_eq!(WalletError::StoreUnavailable.message(), "wallet store is unavailable");
}

#[test]
fn only_an_unavailable_store_is_transient() {
    assert!(WalletError::StoreUnavailable.is_transient());
    assert!(!WalletError::EntropySourceUnavailable.is_transient());
    assert!(!WalletError::InvalidName.is_transient());
    assert!(!WalletError::InvalidPrivateKey.is_transient());
    assert!(!WalletError::DuplicateIdentity.is_transient());
    assert!(!WalletError::WalletNotFound.is_transient());
    assert!(!WalletError::MnemonicNotFound.is_transient());
}

#[test]
fn store_failures_are_classified_by_number() {
    assert_eq!(WalletError::from_store_failure(Some(1062)), WalletError::DuplicateIdentity);
    assert_eq!(WalletError::from_store_failure(Some(1216)), WalletError::WalletNotFound);
    assert_eq!(WalletError::from_store_failure(Some(1452)), WalletError::WalletNotFound);
    assert_eq!(WalletError::from_store_failure(Some(0)), WalletError::StoreUnavailable);
    assert_eq!(WalletError::from_store_failure(Some(1045)), WalletError::StoreUnavailable);
    assert_eq!(WalletError::from_store_failure(Some(2002)), WalletError::StoreUnavailable);
    assert_eq!(WalletError::from_store_failure(None), WalletError::StoreUnavailable);
}
