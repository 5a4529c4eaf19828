//! Wallets: creating one, and importing one that exists.
//!
//! A wallet is created together with its recovery phrase, in one
//! transaction: either both rows are written or neither is. Importing never
//! derives anything; it returns the stored wallet that has the given name
//! and private key.

use vstd::prelude::*;
use crate::error::WalletError;
use crate::flow::CreateState;
use crate::hex::{hex_decoding, is_hex};
use crate::keys::{
    address_text, is_valid_scalar, key_material, os_entropy, public_key_text, KeyGenerator,
    KeyMaterial, KeyPair, PrivateKey,
};
use crate::mnemonic::{bip39_phrase, is_generated_phrase, MnemonicPhrase, ENTROPY_LENGTH};
use crate::model::{
    clashes, lemma_committed_create, lemma_undone_begin, lemma_undone_wallet, StoreState, Tables,
    WalletEntry, MAX_ID,
};
use crate::store::{WalletRecord, WalletStore};

verus! {

/// What a wallet says.
pub ghost struct WalletData {
    pub id: Option<int>,
    pub name: Seq<char>,
    pub keys: KeyMaterial,
}

impl WalletData {
    /// The wallet that a row of the store describes.
    pub open spec fn of_row(row: WalletEntry) -> WalletData {
        WalletData { id: Some(row.id), name: row.name, keys: row.keys }
    }
}

/// What importing returns: the stored wallet, or why there is none. The key
/// is judged before the store is looked at.
pub open spec fn import_outcome(tables: Tables, name: Seq<char>, key_text: Seq<char>) -> Result<
    WalletEntry,
    WalletError,
> {
    if !is_hex(key_text) || !is_valid_scalar(hex_decoding(key_text)) {
        Err(WalletError::InvalidPrivateKey)
    } else {
        match tables.wallet_named(name, hex_decoding(key_text)) {
            Some(row) => Ok(row),
            None => Err(WalletError::WalletNotFound),
        }
    }
}

/// What holds when creating a wallet of this name failed with `error` on a
/// store that was `before` and is `after`: no row was written, an empty
/// name and nothing else gives `InvalidName`, and a full store or a clash
/// is reported only where there is one.
pub open spec fn create_refused(
    before: StoreState,
    after: StoreState,
    name: Seq<char>,
    error: WalletError,
) -> bool {
    &&& after.tables == before.tables
    &&& after.savepoints == before.savepoints
    &&& error == WalletError::InvalidName <==> name.len() == 0
    &&& error == WalletError::InvalidName || error == WalletError::EntropySourceUnavailable || error
        == WalletError::DuplicateIdentity || error == WalletError::StoreUnavailable
    &&& error == WalletError::StoreUnavailable ==> before.next_wallet_id > MAX_ID
        || before.next_mnemonic_id > MAX_ID
    &&& error == WalletError::DuplicateIdentity ==> exists|secret: Seq<u8>|
        is_valid_scalar(secret) && before.tables.collides(name, #[trigger] key_material(secret))
}

/// A wallet: a name and the key material that goes with it.
pub struct Wallet {
    pub id: Option<i32>,
    pub name: String,
    pub private_key: PrivateKey,
    pub public_key: String,
    pub address: String,
}

impl View for Wallet {
    type V = WalletData;

    open spec fn view(&self) -> WalletData {
        WalletData {
            id: match self.id {
                Some(id) => Some(id as int),
                None => None,
            },
            name: self.name@,
            keys: KeyMaterial {
                private_key: self.private_key@,
                public_key: self.public_key@,
                address: self.address@,
            },
        }
    }
}

/// What is drawn for a new wallet before anything is written: its name,
/// its key material and its recovery phrase.
pub struct WalletDraft {
    pub name: String,
    pub keys: KeyPair,
    pub phrase: String,
}

impl WalletDraft {
    /// The draft of a wallet of this name made of two draws: the key that
    /// was drawn for it, and the entropy that was drawn for its phrase.
    ///
    /// The key material is the one derived from the key, and the phrase is
    /// the one of the entropy: the phrase takes nothing from the key. An
    /// empty name is refused with `InvalidName`; entropy that is not
    /// thirty-two bytes long counts as a failed draw.
    pub fn from_draws(name: &str, key: PrivateKey, entropy: &[u8]) -> (draft: Result<
        WalletDraft,
        WalletError,
    >)
        ensures
            match draft {
                Ok(d) => {
                    &&& name@.len() > 0
                    &&& entropy@.len() == ENTROPY_LENGTH
                    &&& d.name@ == name@
                    &&& is_valid_scalar(key@)
                    &&& d.keys@ == key_material(key@)
                    &&& d.phrase@ == bip39_phrase(entropy@)
                },
                Err(e) => if name@.len() == 0 {
                    e == WalletError::InvalidName
                } else {
                    e == WalletError::EntropySourceUnavailable && entropy@.len() != ENTROPY_LENGTH
                },
            },
    {
        if name.is_empty() {
            return Err(WalletError::InvalidName);
        }
        if entropy.len() != ENTROPY_LENGTH {
            return Err(WalletError::EntropySourceUnavailable);
        }
        match MnemonicPhrase::from_entropy(entropy) {
            Some(phrase) => Ok(
                WalletDraft { name: name.to_owned(), keys: KeyPair::from_private_key(key), phrase },
            ),
            None => Err(WalletError::EntropySourceUnavailable),
        }
    }
}

/// The body of a request to create a wallet.
pub struct WalletInfo {
    pub name: String,
}

/// The body of a request to import a wallet.
pub struct ImportWalletInfo {
    pub name: String,
    pub private_key: PrivateKey,
}

impl Wallet {
    /// Creates a wallet with a fresh key and a fresh recovery phrase, and
    /// stores both.
    ///
    /// An empty name is refused before anything is drawn or written. The key
    /// and the phrase come from two independent draws of the random source.
    /// Whatever fails, no row is left behind. The phrase is not part of what
    /// is returned.
    pub fn new(name: &str, db: &mut WalletStore) -> (created: Result<Wallet, WalletError>)
        requires
            old(db).wf(),
        ensures
            final(db).wf(),
            name@.len() == 0 ==> final(db)@ == old(db)@,
            match created {
                Ok(wallet) => {
                    &&& name@.len() > 0
                    &&& wallet@.name == name@
                    &&& is_valid_scalar(wallet@.keys.private_key)
                    &&& wallet@.keys == key_material(wallet@.keys.private_key)
                    &&& wallet.id matches Some(id) && old(db)@.create_outcome(name@, wallet@.keys)
                        == Ok::<int, WalletError>(id as int)
                    &&& exists|phrase: Seq<char>|
                        is_generated_phrase(phrase) && final(db)@ == #[trigger] old(
                            db,
                        )@.after_create(name@, wallet@.keys, phrase)
                },
                Err(e) => create_refused(old(db)@, final(db)@, name@, e),
            },
            old(db)@.tables.name_taken(name@) ==> (created matches Err(e) && (e
                == WalletError::DuplicateIdentity || e == WalletError::EntropySourceUnavailable
                || e == WalletError::InvalidName)),
    {
        let draft = match Wallet::draft(name) {
            Ok(draft) => draft,
            Err(e) => {
                return Err(e);
            },
        };
        proof {
            if old(db)@.tables.name_taken(name@) {
                lemma_taken_name_collides(old(db)@.tables, name@, draft.keys@);
            }
        }
        Wallet::save_to_db(name, &draft.keys, draft.phrase.as_str(), db)
    }

    /// Draws what a new wallet of this name consists of, without writing
    /// anything.
    ///
    /// An empty name is refused with `InvalidName` before anything is
    /// drawn. The key and the phrase come from two separate draws of the
    /// random source, which `from_draws` puts together; the only other
    /// failure is a source that cannot be read.
    pub fn draft(name: &str) -> (drawn: Result<WalletDraft, WalletError>)
        ensures
            match drawn {
                Ok(draft) => {
                    &&& name@.len() > 0
                    &&& draft.name@ == name@
                    &&& is_valid_scalar(draft.keys@.private_key)
                    &&& draft.keys@ == key_material(draft.keys@.private_key)
                    &&& is_generated_phrase(draft.phrase@)
                },
                Err(e) => {
                    &&& e == WalletError::InvalidName <==> name@.len() == 0
                    &&& e == WalletError::InvalidName || e == WalletError::EntropySourceUnavailable
                },
            },
    {
        if name.is_empty() {
            return Err(WalletError::InvalidName);
        }
        let key = match KeyGenerator::generate() {
            Ok(key) => key,
            Err(e) => {
                return Err(e);
            },
        };
        let entropy = match os_entropy(ENTROPY_LENGTH) {
            Ok(entropy) => entropy,
            Err(_) => {
                return Err(WalletError::EntropySourceUnavailable);
            },
        };
        WalletDraft::from_draws(name, key, entropy.as_slice())
    }

    /// Stores a wallet and its recovery phrase as one unit.
    ///
    /// Both rows are written inside one transaction, step by step as
    /// `CreateState` directs. If the wallet row is refused, or the phrase
    /// row is refused after the wallet row was written, the transaction is
    /// rolled back and the tables are as they were.
    pub fn save_to_db(name: &str, keys: &KeyPair, phrase: &str, db: &mut WalletStore) -> (saved:
        Result<Wallet, WalletError>)
        requires
            old(db).wf(),
        ensures
            final(db).wf(),
            final(db)@ == old(db)@.after_create(name@, keys@, phrase@),
            match saved {
                Ok(wallet) => {
                    &&& wallet.id matches Some(id) && old(db)@.create_outcome(name@, keys@) == Ok::<
                        int,
                        WalletError,
                    >(id as int)
                    &&& wallet@.name == name@
                    &&& wallet@.keys == keys@
                },
                Err(e) => {
                    &&& old(db)@.create_outcome(name@, keys@) == Err::<int, WalletError>(e)
                    &&& final(db)@.tables == old(db)@.tables
                },
            },
            is_valid_scalar(keys@.private_key),
            keys@ == key_material(keys@.private_key),
    {
        proof {
            use_type_invariant(keys);
        }
        db.begin();
        let mut state = CreateState::start();
        while !state.is_finished()
            invariant
                old(db).wf(),
                db.wf(),
                is_valid_scalar(keys@.private_key),
                keys@ == key_material(keys@.private_key),
                on_course(old(db)@, db@, state, name@, keys@, phrase@),
            decreases state.steps_left(),
        {
            proof {
                lemma_undone_begin(old(db)@);
                if old(db)@.wallet_insert_outcome(name@, keys@) is Ok {
                    lemma_undone_wallet(old(db)@, name@, keys@);
                    if old(db)@.create_outcome(name@, keys@) is Ok {
                        lemma_committed_create(old(db)@, name@, keys@, phrase@);
                    }
                }
            }
            let reply = match state {
                CreateState::WriteWallet => db.insert_wallet(name, keys),
                CreateState::WritePhrase { wallet_id } => db.insert_mnemonic(phrase, wallet_id),
                CreateState::Commit { .. } => {
                    db.commit();
                    Ok(0)
                },
                _ => {
                    db.rollback();
                    Ok(0)
                },
            };
            state = state.advance(reply);
        }
        match state.outcome() {
            Some(Ok(id)) => Ok(Wallet::of_keys(id, name, keys)),
            Some(Err(e)) => Err(e),
            None => Err(WalletError::StoreUnavailable),
        }
    }

    /// Returns the stored wallet that has this name and this private key.
    ///
    /// The key is given as sixty-four hexadecimal digits. Text that is no
    /// valid key is refused with `InvalidPrivateKey` whatever the store
    /// holds; a valid key without a matching wallet gives `WalletNotFound`.
    /// Nothing is derived: the public key and the address are the stored
    /// ones, which are the ones that belong to the key.
    pub fn import(name: &str, private_key_str: &str, db: &WalletStore) -> (imported: Result<
        Wallet,
        WalletError,
    >)
        ensures
            match imported {
                Ok(wallet) => {
                    &&& import_outcome(db@.tables, name@, private_key_str@) matches Ok(row)
                        && wallet@ == WalletData::of_row(row)
                    &&& wallet@.name == name@
                    &&& is_valid_scalar(hex_decoding(private_key_str@))
                    &&& wallet@.keys == key_material(hex_decoding(private_key_str@))
                },
                Err(e) => import_outcome(db@.tables, name@, private_key_str@) == Err::<
                    WalletEntry,
                    WalletError,
                >(e),
            },
    {
        let private_key = match PrivateKey::from_hex(private_key_str) {
            Ok(key) => key,
            Err(e) => {
                return Err(e);
            },
        };
        match db.find_wallet_by_name_and_key(name, &private_key) {
            Some(row) => Wallet::from_lookup(Some(Wallet::from_record(&row))),
            None => Wallet::from_lookup(None),
        }
    }

    /// What a lookup of a wallet amounts to: the wallet that was found, or
    /// `WalletNotFound`.
    pub fn from_lookup(found: Option<Wallet>) -> (wallet: Result<Wallet, WalletError>)
        ensures
            match found {
                Some(stored) => wallet matches Ok(w) && w == stored,
                None => wallet matches Err(e) && e == WalletError::WalletNotFound,
            },
    {
        match found {
            Some(stored) => Ok(stored),
            None => Err(WalletError::WalletNotFound),
        }
    }

    /// The wallet that a row of the store describes.
    pub fn from_record(row: &WalletRecord) -> (wallet: Wallet)
        ensures
            wallet@ == WalletData::of_row(row@),
    {
        Wallet::of_keys(row.id, row.name.as_str(), &row.keys)
    }

    /// The wallet of this identifier and name that has this key material.
    pub fn of_keys(id: i32, name: &str, keys: &KeyPair) -> (wallet: Wallet)
        ensures
            wallet@ == (WalletData { id: Some(id as int), name: name@, keys: keys@ }),
            is_valid_scalar(keys@.private_key),
            keys@ == key_material(keys@.private_key),
    {
        Wallet {
            id: Some(id),
            name: name.to_owned(),
            private_key: keys.private_key().clone(),
            public_key: keys.public_key().clone(),
            address: keys.address().clone(),
        }
    }

    /// The wallet that a row of text columns describes, as a database hands
    /// it out: the private key as hexadecimal text beside the public key and
    /// the address.
    ///
    /// A row is taken only if its key is a valid one and its public key and
    /// address are the ones that belong to that key. Any other row is a
    /// fault of the store and gives `StoreUnavailable`.
    pub fn from_row(id: i32, name: &str, key_text: &str, public_key: &str, address: &str) -> (wallet:
        Result<Wallet, WalletError>)
        ensures
            match wallet {
                Ok(w) => {
                    &&& row_is_sound(key_text@, public_key@, address@)
                    &&& w@ == (WalletData {
                        id: Some(id as int),
                        name: name@,
                        keys: key_material(hex_decoding(key_text@)),
                    })
                },
                Err(e) => e == WalletError::StoreUnavailable && !row_is_sound(
                    key_text@,
                    public_key@,
                    address@,
                ),
            },
    {
        let key = match PrivateKey::from_hex(key_text) {
            Ok(key) => key,
            Err(_) => {
                return Err(WalletError::StoreUnavailable);
            },
        };
        let keys = KeyPair::from_private_key(key);
        let same_public_key = *keys.public_key() == public_key.to_owned();
        let same_address = *keys.address() == address.to_owned();
        if same_public_key && same_address {
            Ok(Wallet::of_keys(id, name, &keys))
        } else {
            Err(WalletError::StoreUnavailable)
        }
    }
}

/// Whether the text columns of a wallet row fit together: the key is the
/// hexadecimal text of a valid scalar, and the public key and the address
/// are the ones derived from it.
pub open spec fn row_is_sound(key_text: Seq<char>, public_key: Seq<char>, address: Seq<char>)
    -> bool {
    &&& is_hex(key_text)
    &&& is_valid_scalar(hex_decoding(key_text))
    &&& public_key == public_key_text(hex_decoding(key_text))
    &&& address == address_text(hex_decoding(key_text))
}

/// Whether a store that was `before` when the creation of a wallet began
/// and is `now` is where the state of the creation says it is.
pub open spec fn on_course(
    before: StoreState,
    now: StoreState,
    state: CreateState,
    name: Seq<char>,
    keys: KeyMaterial,
    phrase: Seq<char>,
) -> bool {
    match state {
        CreateState::WriteWallet => now == before.after_begin(),
        CreateState::WritePhrase { wallet_id } => {
            &&& before.wallet_insert_outcome(name, keys) == Ok::<int, WalletError>(wallet_id as int)
            &&& now == before.after_begin().after_wallet_insert(name, keys)
        },
        CreateState::Commit { wallet_id } => {
            &&& before.create_outcome(name, keys) == Ok::<int, WalletError>(wallet_id as int)
            &&& now.after_commit() == before.after_create(name, keys, phrase)
        },
        CreateState::Rollback { error } => {
            &&& before.create_outcome(name, keys) == Err::<int, WalletError>(error)
            &&& now.after_rollback() == before.after_create(name, keys, phrase)
        },
        CreateState::Created { wallet_id } => {
            &&& before.create_outcome(name, keys) == Ok::<int, WalletError>(wallet_id as int)
            &&& now == before.after_create(name, keys, phrase)
        },
        CreateState::Failed { error } => {
            &&& before.create_outcome(name, keys) == Err::<int, WalletError>(error)
            &&& now == before.after_create(name, keys, phrase)
        },
    }
}

/// A name that is taken makes every new wallet of that name collide.
pub proof fn lemma_taken_name_collides(tables: Tables, name: Seq<char>, keys: KeyMaterial)
    requires
        tables.name_taken(name),
    ensures
        tables.collides(name, keys),
{
    let i = choose|i: int| 0 <= i < tables.wallets.len() && (#[trigger] tables.wallets[i]).name == name;
    assert(clashes(tables.wallets[i], name, keys));
}

} // verus!
