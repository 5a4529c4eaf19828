//! The request and response boundary.
//!
//! Each operation takes the body of a request and gives back what the
//! response carries: on success the public part of a wallet, never its
//! private key or its recovery phrase; on failure the kind of the error, a
//! fixed message and a status code, and nothing else.

use vstd::prelude::*;
use crate::error::WalletError;
use crate::hex::{hex_encoding, lemma_decode_inverts_encode};
use crate::keys::{is_valid_scalar, key_material, KeyMaterial, KeyPair};
use crate::mnemonic::is_generated_phrase;
use crate::model::StoreState;
use crate::store::WalletStore;
use crate::wallet::{create_refused, ImportWalletInfo, Wallet, WalletInfo};

verus! {

/// What a successful create or import answers with.
pub struct WalletResponse {
    pub id: i32,
    pub name: String,
    pub public_key: String,
    pub address: String,
}

/// What generating a key pair answers with.
pub struct KeypairResponse {
    pub private_key: String,
    pub public_key: String,
    pub address: String,
}

/// What a failed request answers with.
pub struct ErrorResponse {
    pub kind: String,
    pub message: String,
    pub status: u16,
}

impl WalletResponse {
    /// Whether this is the public part of the wallet with this identifier,
    /// name and key material.
    pub open spec fn shows(self, id: int, name: Seq<char>, keys: KeyMaterial) -> bool {
        &&& self.id == id
        &&& self.name@ == name
        &&& self.public_key@ == keys.public_key
        &&& self.address@ == keys.address
    }

    /// The public part of a wallet that has an identifier.
    pub fn of_wallet(wallet: &Wallet) -> (response: Option<WalletResponse>)
        ensures
            match response {
                Some(r) => wallet@.id matches Some(id) && r.shows(id, wallet@.name, wallet@.keys),
                None => wallet@.id is None,
            },
    {
        match wallet.id {
            Some(id) => Some(
                WalletResponse {
                    id,
                    name: wallet.name.clone(),
                    public_key: wallet.public_key.clone(),
                    address: wallet.address.clone(),
                },
            ),
            None => None,
        }
    }
}

impl KeypairResponse {
    /// Whether this is the key material of the given private key, with the
    /// key written as hexadecimal text.
    pub open spec fn shows(self, keys: KeyMaterial) -> bool {
        &&& self.private_key@ == hex_encoding(keys.private_key)
        &&& self.public_key@ == keys.public_key
        &&& self.address@ == keys.address
    }
}

impl KeypairResponse {
    /// The answer that shows a key pair whole, the private key as
    /// sixty-four hexadecimal digits.
    pub fn of_pair(pair: &KeyPair) -> (response: KeypairResponse)
        ensures
            response.shows(pair@),
            is_valid_scalar(pair@.private_key),
            pair@ == key_material(pair@.private_key),
    {
        KeypairResponse {
            private_key: pair.private_key().to_hex(),
            public_key: pair.public_key().clone(),
            address: pair.address().clone(),
        }
    }
}

impl ErrorResponse {
    /// Whether this is the payload for the given kind of error.
    pub open spec fn describes(self, error: WalletError) -> bool {
        &&& self.kind@ == error.kind_text()
        &&& self.message@ == error.message_text()
        &&& self.status == error.status_code()
    }

    /// The payload for an error: its kind, its fixed message and its status.
    pub fn from_error(error: WalletError) -> (payload: ErrorResponse)
        ensures
            payload.describes(error),
    {
        ErrorResponse {
            kind: error.kind().to_owned(),
            message: error.message().to_owned(),
            status: error.status(),
        }
    }
}

/// What a finished operation is answered with: the public part of the
/// wallet, or the payload of the error.
///
/// A wallet without an identifier was never stored and cannot be shown; it
/// is answered as `StoreUnavailable`.
pub fn wallet_answer(outcome: Result<Wallet, WalletError>) -> (answer: Result<
    WalletResponse,
    ErrorResponse,
>)
    ensures
        match outcome {
            Ok(wallet) => match wallet@.id {
                Some(id) => answer matches Ok(response) && response.shows(
                    id,
                    wallet@.name,
                    wallet@.keys,
                ),
                None => answer matches Err(payload) && payload.describes(
                    WalletError::StoreUnavailable,
                ),
            },
            Err(e) => answer matches Err(payload) && payload.describes(e),
        },
{
    match outcome {
        Ok(wallet) => match WalletResponse::of_wallet(&wallet) {
            Some(response) => Ok(response),
            None => Err(ErrorResponse::from_error(WalletError::StoreUnavailable)),
        },
        Err(e) => Err(ErrorResponse::from_error(e)),
    }
}

/// Whether `after` is `before` with a new wallet of this name, created with
/// this private key and this recovery phrase, and `response` shows that
/// wallet.
pub open spec fn created_with(
    before: StoreState,
    after: StoreState,
    name: Seq<char>,
    response: WalletResponse,
    secret: Seq<u8>,
    phrase: Seq<char>,
) -> bool {
    &&& is_valid_scalar(secret)
    &&& is_generated_phrase(phrase)
    &&& response.shows(response.id as int, name, key_material(secret))
    &&& before.create_outcome(name, key_material(secret)) == Ok::<int, WalletError>(
        response.id as int,
    )
    &&& after == before.after_create(name, key_material(secret), phrase)
}

/// Creates a wallet for the requested name.
///
/// Succeeds and fails as `Wallet::new` does. An empty name is always
/// refused, and so is a name that is taken; neither changes the store. The
/// answer shows the new wallet's identifier, name, public key and address.
pub fn create_wallet(info: &WalletInfo, db: &mut WalletStore) -> (answer: Result<
    WalletResponse,
    ErrorResponse,
>)
    requires
        old(db).wf(),
    ensures
        final(db).wf(),
        info.name@.len() == 0 ==> answer is Err && final(db)@ == old(db)@,
        old(db)@.tables.name_taken(info.name@) ==> answer is Err,
        match answer {
            Ok(response) => exists|secret: Seq<u8>, phrase: Seq<char>|
                #[trigger] created_with(old(db)@, final(db)@, info.name@, response, secret, phrase),
            Err(payload) => exists|error: WalletError|
                #[trigger] payload.describes(error) && create_refused(
                    old(db)@,
                    final(db)@,
                    info.name@,
                    error,
                ),
        },
{
    let created = Wallet::new(info.name.as_str(), db);
    let ghost made = created;
    let answer = wallet_answer(created);
    proof {
        match made {
            Ok(wallet) => {
                let phrase = choose|phrase: Seq<char>|
                    is_generated_phrase(phrase) && db@ == #[trigger] old(db)@.after_create(
                        info.name@,
                        wallet@.keys,
                        phrase,
                    );
                assert(answer matches Ok(response) && created_with(
                    old(db)@,
                    db@,
                    info.name@,
                    response,
                    wallet@.keys.private_key,
                    phrase,
                ));
            },
            Err(e) => {
                assert(answer matches Err(payload) && payload.describes(e));
            },
        }
    }
    answer
}

/// Returns the stored wallet that has the requested name and private key.
///
/// The key of the request is a valid one by its type, so the only failure
/// is `WalletNotFound`.
pub fn import_wallet(info: &ImportWalletInfo, db: &WalletStore) -> (answer: Result<
    WalletResponse,
    ErrorResponse,
>)
    ensures
        match answer {
            Ok(response) => db@.tables.wallet_named(info.name@, info.private_key@) matches Some(
                row,
            ) && response.shows(row.id, row.name, row.keys) && row.keys == key_material(
                info.private_key@,
            ),
            Err(payload) => db@.tables.wallet_named(info.name@, info.private_key@) is None
                && payload.describes(WalletError::WalletNotFound),
        },
{
    proof {
        lemma_decode_inverts_encode(info.private_key@);
        use_type_invariant(&info.private_key);
    }
    let key_text = info.private_key.to_hex();
    wallet_answer(Wallet::import(info.name.as_str(), key_text.as_str(), db))
}

/// Draws a fresh key pair and shows it. Nothing is stored.
pub fn generate_keypair() -> (answer: Result<KeypairResponse, ErrorResponse>)
    ensures
        match answer {
            Ok(response) => exists|secret: Seq<u8>|
                is_valid_scalar(secret) && response.shows(#[trigger] key_material(secret)),
            Err(payload) => payload.describes(WalletError::EntropySourceUnavailable),
        },
{
    match KeyPair::generate() {
        Ok(pair) => Ok(KeypairResponse::of_pair(&pair)),
        Err(e) => Err(ErrorResponse::from_error(e)),
    }
}

} // verus!
