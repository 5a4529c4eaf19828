//! The wallet store.
//!
//! `WalletStore` keeps the rows of both tables in memory, oldest first. Each
//! method is proved to make exactly the step that the model in
//! `crate::model` describes for it, and to keep the store well formed.

use vstd::prelude::*;
use crate::error::WalletError;
use crate::keys::{is_valid_scalar, key_material, KeyPair, PrivateKey};
use crate::model::{
    clashes, first_phrase, first_wallet, lemma_begin_keeps_wf, lemma_commit_keeps_wf,
    lemma_mnemonic_insert_keeps_wf, lemma_rollback_keeps_wf, lemma_wallet_insert_keeps_wf,
    MnemonicEntry, StoreState, Tables, WalletEntry, MAX_ID,
};

verus! {

/// A wallet row.
pub struct WalletRecord {
    pub id: i32,
    pub name: String,
    pub keys: KeyPair,
    pub created_at: u64,
}

impl View for WalletRecord {
    type V = WalletEntry;

    open spec fn view(&self) -> WalletEntry {
        WalletEntry {
            id: self.id as int,
            name: self.name@,
            keys: self.keys@,
            created_at: self.created_at as int,
        }
    }
}

impl Clone for WalletRecord {
    fn clone(&self) -> (copy: Self)
        ensures
            copy@ == self@,
    {
        WalletRecord {
            id: self.id,
            name: self.name.clone(),
            keys: self.keys.clone(),
            created_at: self.created_at,
        }
    }
}

/// A recovery-phrase row.
pub struct MnemonicRecord {
    pub id: i32,
    pub phrase: String,
    pub wallet_id: i32,
    pub created_at: u64,
}

impl View for MnemonicRecord {
    type V = MnemonicEntry;

    open spec fn view(&self) -> MnemonicEntry {
        MnemonicEntry {
            id: self.id as int,
            phrase: self.phrase@,
            wallet_id: self.wallet_id as int,
            created_at: self.created_at as int,
        }
    }
}

/// The store of wallets and their recovery phrases.
pub struct WalletStore {
    wallets: Vec<WalletRecord>,
    mnemonics: Vec<MnemonicRecord>,
    next_wallet_id: i64,
    next_mnemonic_id: i64,
    clock: u64,
    savepoints: Vec<(usize, usize)>,
}

impl View for WalletStore {
    type V = StoreState;

    closed spec fn view(&self) -> StoreState {
        StoreState {
            tables: Tables {
                wallets: self.wallets@.map_values(|row: WalletRecord| row@),
                mnemonics: self.mnemonics@.map_values(|row: MnemonicRecord| row@),
            },
            next_wallet_id: self.next_wallet_id as int,
            next_mnemonic_id: self.next_mnemonic_id as int,
            clock: self.clock as int,
            savepoints: self.savepoints@.map_values(
                |mark: (usize, usize)| (mark.0 as int, mark.1 as int),
            ),
        }
    }
}

impl WalletStore {
    /// The invariant that every method expects and keeps: the state is well
    /// formed, and every wallet carries the public key and the address
    /// derived from its private key.
    pub open spec fn wf(&self) -> bool {
        &&& self@.wf()
        &&& self@.tables.keys_derived()
    }

    /// A store with the schema in place and no rows.
    pub fn new() -> (store: WalletStore)
        ensures
            store.wf(),
            store@ == StoreState::initial(1, 1),
    {
        let store = WalletStore {
            wallets: Vec::new(),
            mnemonics: Vec::new(),
            next_wallet_id: 1,
            next_mnemonic_id: 1,
            clock: 0,
            savepoints: Vec::new(),
        };
        assert(store@.tables.wallets =~= Seq::empty());
        assert(store@.tables.mnemonics =~= Seq::empty());
        assert(store@.savepoints =~= Seq::empty());
        store
    }

    /// An empty store whose identifiers start at the given values; a value
    /// below one counts as one.
    pub fn with_first_ids(first_wallet_id: i32, first_mnemonic_id: i32) -> (store: WalletStore)
        ensures
            store.wf(),
            store@ == StoreState::initial(
                if first_wallet_id < 1 { 1 } else { first_wallet_id as int },
                if first_mnemonic_id < 1 { 1 } else { first_mnemonic_id as int },
            ),
    {
        let store = WalletStore {
            wallets: Vec::new(),
            mnemonics: Vec::new(),
            next_wallet_id: if first_wallet_id < 1 { 1 } else { first_wallet_id as i64 },
            next_mnemonic_id: if first_mnemonic_id < 1 { 1 } else { first_mnemonic_id as i64 },
            clock: 0,
            savepoints: Vec::new(),
        };
        assert(store@.tables.wallets =~= Seq::empty());
        assert(store@.tables.mnemonics =~= Seq::empty());
        assert(store@.savepoints =~= Seq::empty());
        store
    }

    /// Sets the time that rows inserted from now on are stamped with.
    pub fn set_clock(&mut self, now: u64)
        requires
            old(self).wf(),
        ensures
            final(self).wf(),
            final(self)@ == (StoreState { clock: now as int, ..old(self)@ }),
    {
        self.clock = now;
        proof {
            assert forall|k: int| 0 <= k < self@.savepoints.len() implies #[trigger] self@.savepoint_ok(
                k,
            ) by {
                assert(old(self)@.savepoint_ok(k));
            }
        }
    }

    /// How many wallets the store holds.
    pub fn wallet_count(&self) -> (count: usize)
        ensures
            count == self@.tables.wallets.len(),
    {
        self.wallets.len()
    }

    /// How many recovery phrases the store holds.
    pub fn mnemonic_count(&self) -> (count: usize)
        ensures
            count == self@.tables.mnemonics.len(),
    {
        self.mnemonics.len()
    }

    /// How many transactions are open.
    pub fn open_transactions(&self) -> (count: usize)
        ensures
            count == self@.savepoints.len(),
    {
        self.savepoints.len()
    }

    /// Whether a wallet with this identifier exists.
    pub fn contains_wallet(&self, id: i32) -> (found: bool)
        ensures
            found == self@.tables.has_wallet(id as int),
    {
        let mut i: usize = 0;
        while i < self.wallets.len()
            invariant
                i <= self.wallets.len(),
                forall|k: int| 0 <= k < i ==> (#[trigger] self@.tables.wallets[k]).id != id,
            decreases self.wallets.len() - i,
        {
            if self.wallets[i].id == id {
                assert(self@.tables.wallets[i as int].id == id);
                return true;
            }
            i += 1;
        }
        false
    }

    /// Adds a wallet row and returns its identifier.
    ///
    /// The row is refused with `DuplicateIdentity` when its name, private
    /// key, public key or address is already taken, and with
    /// `StoreUnavailable` when no identifier is left. A refused row changes
    /// nothing. The key material of an accepted row is always the one
    /// derived from its private key, since a `KeyPair` holds no other; that
    /// is how the store stays free of rows whose address is not their
    /// key's.
    pub fn insert_wallet(&mut self, name: &str, keys: &KeyPair) -> (inserted: Result<
        i32,
        WalletError,
    >)
        requires
            old(self).wf(),
        ensures
            final(self).wf(),
            final(self)@ == old(self)@.after_wallet_insert(name@, keys@),
            match inserted {
                Ok(id) => old(self)@.wallet_insert_outcome(name@, keys@) == Ok::<int, WalletError>(
                    id as int,
                ),
                Err(e) => old(self)@.wallet_insert_outcome(name@, keys@) == Err::<int, WalletError>(
                    e,
                ),
            },
            is_valid_scalar(keys@.private_key),
            keys@ == key_material(keys@.private_key),
    {
        proof {
            use_type_invariant(keys);
        }
        let owned_name = name.to_owned();
        let mut i: usize = 0;
        while i < self.wallets.len()
            invariant
                *self == *old(self),
                self.wf(),
                i <= self.wallets.len(),
                owned_name@ == name@,
                is_valid_scalar(keys@.private_key),
                keys@ == key_material(keys@.private_key),
                forall|k: int|
                    0 <= k < i ==> !clashes(#[trigger] self@.tables.wallets[k], name@, keys@),
            decreases self.wallets.len() - i,
        {
            let row = &self.wallets[i];
            if row.name == owned_name || row.keys.private_key().same_as(keys.private_key())
                || *row.keys.public_key() == *keys.public_key() || *row.keys.address()
                == *keys.address() {
                assert(clashes(self@.tables.wallets[i as int], name@, keys@));
                return Err(WalletError::DuplicateIdentity);
            }
            i += 1;
        }
        if self.next_wallet_id > MAX_ID as i64 {
            return Err(WalletError::StoreUnavailable);
        }
        let id: i32 = self.next_wallet_id as i32;
        let row = WalletRecord { id, name: owned_name, keys: keys.clone(), created_at: self.clock };
        self.wallets.push(row);
        self.next_wallet_id = self.next_wallet_id + 1;
        proof {
            let before = old(self)@;
            let after = before.after_wallet_insert(name@, keys@);
            assert(self@.tables.wallets =~= after.tables.wallets);
            assert(self@.tables.mnemonics =~= after.tables.mnemonics);
            lemma_wallet_insert_keeps_wf(before, name@, keys@);
        }
        Ok(id)
    }

    /// Adds a recovery phrase for a wallet.
    ///
    /// The row is refused with `WalletNotFound` when no wallet has the given
    /// identifier, and with `StoreUnavailable` when no identifier is left. A
    /// refused row changes nothing.
    pub fn insert_mnemonic(&mut self, phrase: &str, wallet_id: i32) -> (inserted: Result<
        i32,
        WalletError,
    >)
        requires
            old(self).wf(),
        ensures
            final(self).wf(),
            final(self)@ == old(self)@.after_mnemonic_insert(phrase@, wallet_id as int),
            match inserted {
                Ok(id) => old(self)@.mnemonic_insert_outcome(wallet_id as int) == Ok::<
                    int,
                    WalletError,
                >(id as int),
                Err(e) => old(self)@.mnemonic_insert_outcome(wallet_id as int) == Err::<
                    int,
                    WalletError,
                >(e),
            },
    {
        if !self.contains_wallet(wallet_id) {
            return Err(WalletError::WalletNotFound);
        }
        if self.next_mnemonic_id > MAX_ID as i64 {
            return Err(WalletError::StoreUnavailable);
        }
        let id: i32 = self.next_mnemonic_id as i32;
        let row = MnemonicRecord {
            id,
            phrase: phrase.to_owned(),
            wallet_id,
            created_at: self.clock,
        };
        self.mnemonics.push(row);
        self.next_mnemonic_id = self.next_mnemonic_id + 1;
        proof {
            let before = old(self)@;
            let after = before.after_mnemonic_insert(phrase@, wallet_id as int);
            assert(self@.tables.wallets =~= after.tables.wallets);
            assert(self@.tables.mnemonics =~= after.tables.mnemonics);
            lemma_mnemonic_insert_keeps_wf(before, phrase@, wallet_id as int);
        }
        Ok(id)
    }

    /// The oldest wallet with this name and this private key, if there is
    /// one.
    ///
    /// The record that comes back carries the key material derived from
    /// its private key.
    pub fn find_wallet_by_name_and_key(&self, name: &str, private_key: &PrivateKey) -> (found:
        Option<WalletRecord>)
        ensures
            match found {
                Some(row) => {
                    &&& self@.tables.wallet_named(name@, private_key@) == Some(row@)
                    &&& row@.name == name@
                    &&& is_valid_scalar(private_key@)
                    &&& row@.keys == key_material(private_key@)
                },
                None => self@.tables.wallet_named(name@, private_key@) is None,
            },
    {
        let owned_name = name.to_owned();
        let ghost rows = self@.tables.wallets;
        let mut i: usize = 0;
        assert(rows.skip(0) =~= rows);
        while i < self.wallets.len()
            invariant
                rows == self@.tables.wallets,
                i <= self.wallets.len(),
                owned_name@ == name@,
                first_wallet(rows, name@, private_key@) == first_wallet(
                    rows.skip(i as int),
                    name@,
                    private_key@,
                ),
            decreases self.wallets.len() - i,
        {
            let row = &self.wallets[i];
            assert(rows.skip(i as int)[0] == row@);
            if row.name == owned_name && row.keys.private_key().same_as(private_key) {
                proof {
                    use_type_invariant(&row.keys);
                }
                return Some(row.clone());
            }
            assert(rows.skip(i as int).drop_first() =~= rows.skip(i + 1));
            i += 1;
        }
        None
    }

    /// The oldest recovery phrase on record for a wallet, if there is one.
    pub fn find_mnemonic_by_wallet_id(&self, wallet_id: i32) -> (found: Option<String>)
        ensures
            match found {
                Some(phrase) => self@.tables.phrase_of(wallet_id as int) == Some(phrase@),
                None => self@.tables.phrase_of(wallet_id as int) is None,
            },
    {
        let ghost rows = self@.tables.mnemonics;
        let mut j: usize = 0;
        assert(rows.skip(0) =~= rows);
        while j < self.mnemonics.len()
            invariant
                rows == self@.tables.mnemonics,
                j <= self.mnemonics.len(),
                first_phrase(rows, wallet_id as int) == first_phrase(
                    rows.skip(j as int),
                    wallet_id as int,
                ),
            decreases self.mnemonics.len() - j,
        {
            assert(rows.skip(j as int)[0] == self.mnemonics[j as int]@);
            if self.mnemonics[j].wallet_id == wallet_id {
                return Some(self.mnemonics[j].phrase.clone());
            }
            assert(rows.skip(j as int).drop_first() =~= rows.skip(j + 1));
            j += 1;
        }
        None
    }

    /// Opens a transaction. Transactions nest: each `commit` or `rollback`
    /// ends the one opened last.
    pub fn begin(&mut self)
        requires
            old(self).wf(),
        ensures
            final(self).wf(),
            final(self)@ == old(self)@.after_begin(),
    {
        self.savepoints.push((self.wallets.len(), self.mnemonics.len()));
        proof {
            assert(self@.savepoints =~= old(self)@.after_begin().savepoints);
            lemma_begin_keeps_wf(old(self)@);
        }
    }

    /// Ends the innermost open transaction and keeps what it wrote.
    pub fn commit(&mut self)
        requires
            old(self).wf(),
        ensures
            final(self).wf(),
            final(self)@ == old(self)@.after_commit(),
    {
        if self.savepoints.len() > 0 {
            self.savepoints.pop();
            proof {
                assert(self@.savepoints =~= old(self)@.after_commit().savepoints);
                lemma_commit_keeps_wf(old(self)@);
            }
        }
    }

    /// Ends the innermost open transaction and removes every row written
    /// since it began.
    pub fn rollback(&mut self)
        requires
            old(self).wf(),
        ensures
            final(self).wf(),
            final(self)@ == old(self)@.after_rollback(),
    {
        match self.savepoints.pop() {
            Some((wallets, mnemonics)) => {
                self.wallets.truncate(wallets);
                self.mnemonics.truncate(mnemonics);
                proof {
                    let after = old(self)@.after_rollback();
                    assert(old(self)@.savepoint_ok(old(self)@.savepoints.len() - 1));
                    assert(self@.tables.wallets =~= after.tables.wallets);
                    assert(self@.tables.mnemonics =~= after.tables.mnemonics);
                    assert(self@.savepoints =~= after.savepoints);
                    lemma_rollback_keeps_wf(old(self)@);
                }
            },
            None => {},
        }
    }
}

} // verus!
