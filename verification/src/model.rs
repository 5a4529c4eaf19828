//! The mathematical model of the wallet store.
//!
//! The store holds two tables, wallets and recovery phrases, oldest row
//! first. `Tables::consistent` states what the schema enforces: every
//! wallet's name, private key, public key and address is unique,
//! identifiers grow with each row, and a phrase always refers to a wallet
//! that exists. `StoreState` adds what decides the next step, the
//! identifiers to hand out, the clock and the open transactions, and has one
//! function per operation of the store.

use vstd::prelude::*;
use crate::error::WalletError;
use crate::keys::{is_valid_scalar, key_material, KeyMaterial};

verus! {

/// The largest identifier that a row can have.
pub const MAX_ID: i32 = 0x7fff_ffff;

/// What a wallet row says.
pub ghost struct WalletEntry {
    pub id: int,
    pub name: Seq<char>,
    pub keys: KeyMaterial,
    pub created_at: int,
}

/// What a recovery-phrase row says.
pub ghost struct MnemonicEntry {
    pub id: int,
    pub phrase: Seq<char>,
    pub wallet_id: int,
    pub created_at: int,
}

/// The rows of both tables, oldest first.
pub ghost struct Tables {
    pub wallets: Seq<WalletEntry>,
    pub mnemonics: Seq<MnemonicEntry>,
}

/// Whether a wallet row would clash with a new row of this name and key
/// material on one of the four unique columns.
pub open spec fn clashes(row: WalletEntry, name: Seq<char>, keys: KeyMaterial) -> bool {
    ||| row.name == name
    ||| row.keys.private_key == keys.private_key
    ||| row.keys.public_key == keys.public_key
    ||| row.keys.address == keys.address
}

/// The first of `rows` that has this name and this private key.
pub open spec fn first_wallet(rows: Seq<WalletEntry>, name: Seq<char>, private_key: Seq<u8>)
    -> Option<WalletEntry>
    decreases rows.len(),
{
    if rows.len() == 0 {
        None
    } else if rows[0].name == name && rows[0].keys.private_key == private_key {
        Some(rows[0])
    } else {
        first_wallet(rows.drop_first(), name, private_key)
    }
}

/// The phrase of the first of `rows` that belongs to this wallet.
pub open spec fn first_phrase(rows: Seq<MnemonicEntry>, wallet_id: int) -> Option<Seq<char>>
    decreases rows.len(),
{
    if rows.len() == 0 {
        None
    } else if rows[0].wallet_id == wallet_id {
        Some(rows[0].phrase)
    } else {
        first_phrase(rows.drop_first(), wallet_id)
    }
}

impl Tables {
    /// Two tables without rows.
    pub open spec fn empty() -> Tables {
        Tables { wallets: Seq::empty(), mnemonics: Seq::empty() }
    }

    /// Whether some wallet has this identifier.
    pub open spec fn has_wallet(self, id: int) -> bool {
        exists|i: int| 0 <= i < self.wallets.len() && (#[trigger] self.wallets[i]).id == id
    }

    /// Whether a new wallet of this name and key material would violate a
    /// unique column.
    pub open spec fn collides(self, name: Seq<char>, keys: KeyMaterial) -> bool {
        exists|i: int|
            0 <= i < self.wallets.len() && clashes(#[trigger] self.wallets[i], name, keys)
    }

    /// The oldest wallet with this name and this private key.
    pub open spec fn wallet_named(self, name: Seq<char>, private_key: Seq<u8>) -> Option<
        WalletEntry,
    > {
        first_wallet(self.wallets, name, private_key)
    }

    /// The oldest phrase on record for this wallet.
    pub open spec fn phrase_of(self, wallet_id: int) -> Option<Seq<char>> {
        first_phrase(self.mnemonics, wallet_id)
    }

    /// Whether some wallet has this name.
    pub open spec fn name_taken(self, name: Seq<char>) -> bool {
        exists|i: int| 0 <= i < self.wallets.len() && (#[trigger] self.wallets[i]).name == name
    }

    /// The first rows of each table.
    pub open spec fn prefix(self, wallets: int, mnemonics: int) -> Tables {
        Tables { wallets: self.wallets.take(wallets), mnemonics: self.mnemonics.take(mnemonics) }
    }

    /// The rules of the schema: unique columns, increasing identifiers, and
    /// no phrase without its wallet.
    pub open spec fn consistent(self) -> bool {
        &&& forall|i: int, j: int|
            #![trigger self.wallets[i], self.wallets[j]]
            0 <= i < j < self.wallets.len() ==> {
                &&& !clashes(self.wallets[i], self.wallets[j].name, self.wallets[j].keys)
                &&& self.wallets[i].id < self.wallets[j].id
            }
        &&& forall|i: int| 0 <= i < self.wallets.len() ==> (#[trigger] self.wallets[i]).id >= 1
        &&& forall|i: int, j: int|
            #![trigger self.mnemonics[i], self.mnemonics[j]]
            0 <= i < j < self.mnemonics.len() ==> self.mnemonics[i].id < self.mnemonics[j].id
        &&& forall|j: int|
            0 <= j < self.mnemonics.len() ==> {
                &&& (#[trigger] self.mnemonics[j]).id >= 1
                &&& self.has_wallet(self.mnemonics[j].wallet_id)
            }
    }

    /// Whether every wallet's public key and address are the ones derived
    /// from its private key, and that key is a valid scalar.
    pub open spec fn keys_derived(self) -> bool {
        forall|i: int|
            0 <= i < self.wallets.len() ==> {
                &&& is_valid_scalar((#[trigger] self.wallets[i]).keys.private_key)
                &&& self.wallets[i].keys == key_material(self.wallets[i].keys.private_key)
            }
    }
}

/// Everything that determines what the store does next.
pub ghost struct StoreState {
    /// The rows as a reader sees them now.
    pub tables: Tables,
    /// The identifier that the next wallet gets.
    pub next_wallet_id: int,
    /// The identifier that the next phrase gets.
    pub next_mnemonic_id: int,
    /// The time that new rows are stamped with.
    pub clock: int,
    /// One entry for each open transaction, outermost first: how many rows
    /// each table had when it began.
    pub savepoints: Seq<(int, int)>,
}

impl StoreState {
    /// A store with empty tables whose identifiers start at the given values.
    pub open spec fn initial(first_wallet_id: int, first_mnemonic_id: int) -> StoreState {
        StoreState {
            tables: Tables::empty(),
            next_wallet_id: first_wallet_id,
            next_mnemonic_id: first_mnemonic_id,
            clock: 0,
            savepoints: Seq::empty(),
        }
    }

    /// The rows that remain if transaction `k` is undone.
    pub open spec fn rows_before(self, k: int) -> Tables {
        self.tables.prefix(self.savepoints[k].0, self.savepoints[k].1)
    }

    /// Whether savepoint `k` lies within the tables and marks rows that obey
    /// the schema by themselves.
    pub open spec fn savepoint_ok(self, k: int) -> bool {
        &&& 0 <= self.savepoints[k].0 <= self.tables.wallets.len()
        &&& 0 <= self.savepoints[k].1 <= self.tables.mnemonics.len()
        &&& self.rows_before(k).consistent()
    }

    /// What holds of a store at all times: the rows obey the schema, so do
    /// the rows that each open transaction started from, later transactions
    /// started from no fewer rows than earlier ones, and every identifier in
    /// use is below the next one to hand out.
    pub open spec fn wf(self) -> bool {
        &&& self.tables.consistent()
        &&& forall|k: int| 0 <= k < self.savepoints.len() ==> #[trigger] self.savepoint_ok(k)
        &&& forall|j: int, k: int|
            #![trigger self.savepoints[j], self.savepoints[k]]
            0 <= j < k < self.savepoints.len() ==> {
                &&& self.savepoints[j].0 <= self.savepoints[k].0
                &&& self.savepoints[j].1 <= self.savepoints[k].1
            }
        &&& 1 <= self.next_wallet_id <= MAX_ID + 1
        &&& 1 <= self.next_mnemonic_id <= MAX_ID + 1
        &&& forall|i: int|
            0 <= i < self.tables.wallets.len() ==> (#[trigger] self.tables.wallets[i]).id
                < self.next_wallet_id
        &&& forall|j: int|
            0 <= j < self.tables.mnemonics.len() ==> (#[trigger] self.tables.mnemonics[j]).id
                < self.next_mnemonic_id
    }

    /// The row that a new wallet of this name and key material gets.
    pub open spec fn new_wallet_row(self, name: Seq<char>, keys: KeyMaterial) -> WalletEntry {
        WalletEntry { id: self.next_wallet_id, name: name, keys: keys, created_at: self.clock }
    }

    /// The row that a new phrase for this wallet gets.
    pub open spec fn new_phrase_row(self, phrase: Seq<char>, wallet_id: int) -> MnemonicEntry {
        MnemonicEntry {
            id: self.next_mnemonic_id,
            phrase: phrase,
            wallet_id: wallet_id,
            created_at: self.clock,
        }
    }

    /// What inserting a wallet returns: the new identifier, or why the row
    /// was refused. A clash on a unique column is reported before a lack of
    /// identifiers.
    pub open spec fn wallet_insert_outcome(self, name: Seq<char>, keys: KeyMaterial) -> Result<
        int,
        WalletError,
    > {
        if self.tables.collides(name, keys) {
            Err(WalletError::DuplicateIdentity)
        } else if self.next_wallet_id > MAX_ID {
            Err(WalletError::StoreUnavailable)
        } else {
            Ok(self.next_wallet_id)
        }
    }

    /// The store after an attempt to insert a wallet.
    pub open spec fn after_wallet_insert(self, name: Seq<char>, keys: KeyMaterial) -> StoreState {
        if self.wallet_insert_outcome(name, keys) is Ok {
            StoreState {
                tables: Tables {
                    wallets: self.tables.wallets.push(self.new_wallet_row(name, keys)),
                    mnemonics: self.tables.mnemonics,
                },
                next_wallet_id: self.next_wallet_id + 1,
                ..self
            }
        } else {
            self
        }
    }

    /// What inserting a phrase returns: the new row's identifier, or why the
    /// row was refused. A missing wallet is reported before a lack of
    /// identifiers.
    pub open spec fn mnemonic_insert_outcome(self, wallet_id: int) -> Result<int, WalletError> {
        if !self.tables.has_wallet(wallet_id) {
            Err(WalletError::WalletNotFound)
        } else if self.next_mnemonic_id > MAX_ID {
            Err(WalletError::StoreUnavailable)
        } else {
            Ok(self.next_mnemonic_id)
        }
    }

    /// The store after an attempt to insert a phrase.
    pub open spec fn after_mnemonic_insert(self, phrase: Seq<char>, wallet_id: int) -> StoreState {
        if self.mnemonic_insert_outcome(wallet_id) is Ok {
            StoreState {
                tables: Tables {
                    wallets: self.tables.wallets,
                    mnemonics: self.tables.mnemonics.push(self.new_phrase_row(phrase, wallet_id)),
                },
                next_mnemonic_id: self.next_mnemonic_id + 1,
                ..self
            }
        } else {
            self
        }
    }

    /// What creating a wallet returns: the new wallet's identifier, or why
    /// nothing was created. A wallet is created together with its recovery
    /// phrase or not at all, so the wallet row is refused as well when no
    /// identifier is left for the phrase.
    pub open spec fn create_outcome(self, name: Seq<char>, keys: KeyMaterial) -> Result<
        int,
        WalletError,
    > {
        match self.wallet_insert_outcome(name, keys) {
            Ok(id) => if self.next_mnemonic_id > MAX_ID {
                Err(WalletError::StoreUnavailable)
            } else {
                Ok(id)
            },
            Err(e) => Err(e),
        }
    }

    /// The store after an attempt to create a wallet with this recovery
    /// phrase: one more row in each table, or no more row in either. A
    /// failed attempt may have used up a wallet identifier.
    pub open spec fn after_create(self, name: Seq<char>, keys: KeyMaterial, phrase: Seq<char>)
        -> StoreState {
        if self.wallet_insert_outcome(name, keys) is Err {
            self
        } else if self.next_mnemonic_id > MAX_ID {
            StoreState { next_wallet_id: self.next_wallet_id + 1, ..self }
        } else {
            StoreState {
                tables: Tables {
                    wallets: self.tables.wallets.push(self.new_wallet_row(name, keys)),
                    mnemonics: self.tables.mnemonics.push(
                        self.new_phrase_row(phrase, self.next_wallet_id),
                    ),
                },
                next_wallet_id: self.next_wallet_id + 1,
                next_mnemonic_id: self.next_mnemonic_id + 1,
                ..self
            }
        }
    }

    /// The store after `begin`: one more transaction is open.
    pub open spec fn after_begin(self) -> StoreState {
        StoreState {
            savepoints: self.savepoints.push(
                (self.tables.wallets.len() as int, self.tables.mnemonics.len() as int),
            ),
            ..self
        }
    }

    /// The store after `commit`: the rows stay and the innermost transaction
    /// is over. Without an open transaction nothing changes.
    pub open spec fn after_commit(self) -> StoreState {
        if self.savepoints.len() == 0 {
            self
        } else {
            StoreState { savepoints: self.savepoints.drop_last(), ..self }
        }
    }

    /// The store after `rollback`: the rows written since the innermost
    /// transaction began are gone and that transaction is over. Identifiers
    /// that were handed out are not handed out again. Without an open
    /// transaction nothing changes.
    pub open spec fn after_rollback(self) -> StoreState {
        if self.savepoints.len() == 0 {
            self
        } else {
            StoreState {
                tables: self.rows_before(self.savepoints.len() - 1),
                savepoints: self.savepoints.drop_last(),
                ..self
            }
        }
    }
}

/// What `first_wallet` finds is one of the rows and has the name and key
/// asked for; it finds nothing only if no row has them.
pub proof fn lemma_first_wallet(rows: Seq<WalletEntry>, name: Seq<char>, private_key: Seq<u8>)
    ensures
        match first_wallet(rows, name, private_key) {
            Some(row) => rows.contains(row) && row.name == name && row.keys.private_key
                == private_key,
            None => forall|i: int|
                0 <= i < rows.len() ==> !((#[trigger] rows[i]).name == name
                    && rows[i].keys.private_key == private_key),
        },
    decreases rows.len(),
{
    if rows.len() > 0 {
        if rows[0].name == name && rows[0].keys.private_key == private_key {
            assert(rows.contains(rows[0]));
        } else {
            let rest = rows.drop_first();
            lemma_first_wallet(rest, name, private_key);
            match first_wallet(rest, name, private_key) {
                Some(row) => {
                    let i = choose|i: int| 0 <= i < rest.len() && rest[i] == row;
                    assert(rows[i + 1] == row);
                },
                None => {
                    assert forall|i: int| 0 <= i < rows.len() implies !((#[trigger] rows[i]).name
                        == name && rows[i].keys.private_key == private_key) by {
                        if i > 0 {
                            assert(rows[i] == rest[i - 1]);
                        }
                    }
                },
            }
        }
    }
}

/// What `first_phrase` finds is the phrase of a row of the wallet asked
/// for; it finds nothing only if the wallet has no row.
pub proof fn lemma_first_phrase(rows: Seq<MnemonicEntry>, wallet_id: int)
    ensures
        match first_phrase(rows, wallet_id) {
            Some(phrase) => exists|j: int|
                0 <= j < rows.len() && (#[trigger] rows[j]).wallet_id == wallet_id
                    && rows[j].phrase == phrase,
            None => forall|j: int|
                0 <= j < rows.len() ==> (#[trigger] rows[j]).wallet_id != wallet_id,
        },
    decreases rows.len(),
{
    if rows.len() > 0 {
        if rows[0].wallet_id != wallet_id {
            let rest = rows.drop_first();
            lemma_first_phrase(rest, wallet_id);
            match first_phrase(rest, wallet_id) {
                Some(phrase) => {
                    let j = choose|j: int|
                        0 <= j < rest.len() && (#[trigger] rest[j]).wallet_id == wallet_id
                            && rest[j].phrase == phrase;
                    assert(rows[j + 1] == rest[j]);
                },
                None => {
                    assert forall|j: int| 0 <= j < rows.len() implies (#[trigger] rows[j]).wallet_id
                        != wallet_id by {
                        if j > 0 {
                            assert(rows[j] == rest[j - 1]);
                        }
                    }
                },
            }
        }
    }
}

/// Looking for a wallet among rows with one more at the end finds what was
/// found before, or else the new row if it is the one looked for.
pub proof fn lemma_first_wallet_push(
    rows: Seq<WalletEntry>,
    row: WalletEntry,
    name: Seq<char>,
    private_key: Seq<u8>,
)
    ensures
        first_wallet(rows.push(row), name, private_key) == match first_wallet(
            rows,
            name,
            private_key,
        ) {
            Some(found) => Some(found),
            None => if row.name == name && row.keys.private_key == private_key {
                Some(row)
            } else {
                None
            },
        },
    decreases rows.len(),
{
    if rows.len() == 0 {
        assert(rows.push(row).drop_first() =~= rows);
    } else {
        assert(rows.push(row)[0] == rows[0]);
        assert(rows.push(row).drop_first() =~= rows.drop_first().push(row));
        lemma_first_wallet_push(rows.drop_first(), row, name, private_key);
    }
}

/// Looking for a phrase among rows with one more at the end finds what was
/// found before, or else the new row's phrase if it is of the wallet looked
/// for.
pub proof fn lemma_first_phrase_push(rows: Seq<MnemonicEntry>, row: MnemonicEntry, wallet_id: int)
    ensures
        first_phrase(rows.push(row), wallet_id) == match first_phrase(rows, wallet_id) {
            Some(found) => Some(found),
            None => if row.wallet_id == wallet_id {
                Some(row.phrase)
            } else {
                None
            },
        },
    decreases rows.len(),
{
    if rows.len() == 0 {
        assert(rows.push(row).drop_first() =~= rows);
    } else {
        assert(rows.push(row)[0] == rows[0]);
        assert(rows.push(row).drop_first() =~= rows.drop_first().push(row));
        lemma_first_phrase_push(rows.drop_first(), row, wallet_id);
    }
}

/// Rows appended to the tables leave every earlier savepoint as it was.
proof fn lemma_savepoints_survive_growth(before: StoreState, after: StoreState)
    requires
        before.wf(),
        after.savepoints == before.savepoints,
        before.tables.wallets.len() <= after.tables.wallets.len(),
        before.tables.mnemonics.len() <= after.tables.mnemonics.len(),
        after.tables.wallets.take(before.tables.wallets.len() as int) == before.tables.wallets,
        after.tables.mnemonics.take(before.tables.mnemonics.len() as int)
            == before.tables.mnemonics,
    ensures
        forall|k: int| 0 <= k < after.savepoints.len() ==> #[trigger] after.savepoint_ok(k),
{
    assert forall|k: int| 0 <= k < after.savepoints.len() implies #[trigger] after.savepoint_ok(
        k,
    ) by {
        assert(before.savepoint_ok(k));
        let w = before.savepoints[k].0;
        let m = before.savepoints[k].1;
        assert(after.tables.wallets.take(w) =~= before.tables.wallets.take(w)) by {
            assert forall|i: int| 0 <= i < w implies after.tables.wallets[i]
                == before.tables.wallets[i] by {
                assert(after.tables.wallets.take(before.tables.wallets.len() as int)[i]
                    == after.tables.wallets[i]);
            }
        }
        assert(after.tables.mnemonics.take(m) =~= before.tables.mnemonics.take(m)) by {
            assert forall|i: int| 0 <= i < m implies after.tables.mnemonics[i]
                == before.tables.mnemonics[i] by {
                assert(after.tables.mnemonics.take(before.tables.mnemonics.len() as int)[i]
                    == after.tables.mnemonics[i]);
            }
        }
        assert(after.rows_before(k) == before.rows_before(k));
    }
}

/// Inserting a wallet keeps the store well formed.
pub proof fn lemma_wallet_insert_keeps_wf(state: StoreState, name: Seq<char>, keys: KeyMaterial)
    requires
        state.wf(),
    ensures
        state.after_wallet_insert(name, keys).wf(),
{
    let after = state.after_wallet_insert(name, keys);
    if state.wallet_insert_outcome(name, keys) is Ok {
        let old_rows = state.tables.wallets;
        let new_rows = after.tables.wallets;
        assert forall|i: int, j: int| 0 <= i < j < new_rows.len() implies {
            &&& !clashes(new_rows[i], new_rows[j].name, new_rows[j].keys)
            &&& new_rows[i].id < new_rows[j].id
        } by {
            if j < old_rows.len() {
                assert(new_rows[i] == old_rows[i]);
                assert(new_rows[j] == old_rows[j]);
            } else {
                assert(new_rows[i] == old_rows[i]);
                assert(!clashes(old_rows[i], name, keys));
            }
        }
        assert forall|j: int| 0 <= j < after.tables.mnemonics.len() implies after.tables.has_wallet(
            (#[trigger] after.tables.mnemonics[j]).wallet_id,
        ) by {
            let wallet_id = state.tables.mnemonics[j].wallet_id;
            assert(state.tables.has_wallet(wallet_id));
            let i = choose|i: int|
                0 <= i < old_rows.len() && (#[trigger] old_rows[i]).id == wallet_id;
            assert(new_rows[i] == old_rows[i]);
        }
        assert(after.tables.consistent());
        assert(new_rows.take(old_rows.len() as int) =~= old_rows);
        assert(after.tables.mnemonics.take(state.tables.mnemonics.len() as int)
            =~= state.tables.mnemonics);
        lemma_savepoints_survive_growth(state, after);
    }
}

/// Inserting a recovery phrase keeps the store well formed.
pub proof fn lemma_mnemonic_insert_keeps_wf(state: StoreState, phrase: Seq<char>, wallet_id: int)
    requires
        state.wf(),
    ensures
        state.after_mnemonic_insert(phrase, wallet_id).wf(),
{
    let after = state.after_mnemonic_insert(phrase, wallet_id);
    if state.mnemonic_insert_outcome(wallet_id) is Ok {
        let old_rows = state.tables.mnemonics;
        let new_rows = after.tables.mnemonics;
        assert forall|i: int, j: int| 0 <= i < j < new_rows.len() implies new_rows[i].id
            < new_rows[j].id by {
            assert(new_rows[i] == old_rows[i]);
            if j < old_rows.len() {
                assert(new_rows[j] == old_rows[j]);
            }
        }
        assert forall|j: int| 0 <= j < new_rows.len() implies {
            &&& (#[trigger] new_rows[j]).id >= 1
            &&& after.tables.has_wallet(new_rows[j].wallet_id)
        } by {
            if j < old_rows.len() {
                assert(new_rows[j] == old_rows[j]);
                assert(state.tables.has_wallet(old_rows[j].wallet_id));
            } else {
                assert(new_rows[j].wallet_id == wallet_id);
                assert(state.tables.has_wallet(wallet_id));
            }
            assert(after.tables.wallets == state.tables.wallets);
        }
        assert(after.tables.consistent());
        assert(new_rows.take(old_rows.len() as int) =~= old_rows);
        assert(after.tables.wallets.take(state.tables.wallets.len() as int)
            =~= state.tables.wallets);
        lemma_savepoints_survive_growth(state, after);
    }
}

/// Opening a transaction keeps the store well formed.
pub proof fn lemma_begin_keeps_wf(state: StoreState)
    requires
        state.wf(),
    ensures
        state.after_begin().wf(),
{
    let after = state.after_begin();
    let last = state.savepoints.len() as int;
    assert(after.rows_before(last).wallets =~= state.tables.wallets);
    assert(after.rows_before(last).mnemonics =~= state.tables.mnemonics);
    assert forall|k: int| 0 <= k < after.savepoints.len() implies #[trigger] after.savepoint_ok(
        k,
    ) by {
        if k < last {
            assert(state.savepoint_ok(k));
            assert(after.rows_before(k) == state.rows_before(k));
        }
    }
    assert forall|j: int, k: int| 0 <= j < k < after.savepoints.len() implies {
        &&& after.savepoints[j].0 <= after.savepoints[k].0
        &&& after.savepoints[j].1 <= after.savepoints[k].1
    } by {
        assert(state.savepoint_ok(j));
        if k < last {
            assert(after.savepoints[k] == state.savepoints[k]);
        }
    }
}

/// Committing keeps the store well formed.
pub proof fn lemma_commit_keeps_wf(state: StoreState)
    requires
        state.wf(),
    ensures
        state.after_commit().wf(),
{
    let after = state.after_commit();
    if state.savepoints.len() > 0 {
        assert forall|k: int| 0 <= k < after.savepoints.len() implies #[trigger] after.savepoint_ok(
            k,
        ) by {
            assert(state.savepoint_ok(k));
            assert(after.rows_before(k) == state.rows_before(k));
        }
    }
}

/// Rolling back keeps the store well formed.
pub proof fn lemma_rollback_keeps_wf(state: StoreState)
    requires
        state.wf(),
    ensures
        state.after_rollback().wf(),
{
    let after = state.after_rollback();
    if state.savepoints.len() > 0 {
        let last = state.savepoints.len() - 1;
        assert(state.savepoint_ok(last));
        assert forall|k: int| 0 <= k < after.savepoints.len() implies #[trigger] after.savepoint_ok(
            k,
        ) by {
            assert(state.savepoint_ok(k));
            assert(after.savepoints[k] == state.savepoints[k]);
            assert(state.savepoints[k].0 <= state.savepoints[last].0);
            assert(state.savepoints[k].1 <= state.savepoints[last].1);
            assert(after.rows_before(k).wallets =~= state.rows_before(k).wallets);
            assert(after.rows_before(k).mnemonics =~= state.rows_before(k).mnemonics);
        }
        assert forall|j: int, k: int| 0 <= j < k < after.savepoints.len() implies {
            &&& after.savepoints[j].0 <= after.savepoints[k].0
            &&& after.savepoints[j].1 <= after.savepoints[k].1
        } by {
            assert(after.savepoints[j] == state.savepoints[j]);
            assert(after.savepoints[k] == state.savepoints[k]);
        }
    }
}

/// A transaction that is opened and rolled back at once changes nothing.
pub proof fn lemma_undone_begin(state: StoreState)
    requires
        state.wf(),
    ensures
        state.after_begin().after_rollback() == state,
{
    let after = state.after_begin().after_rollback();
    assert(after.tables.wallets =~= state.tables.wallets);
    assert(after.tables.mnemonics =~= state.tables.mnemonics);
    assert(after.savepoints =~= state.savepoints);
}

/// Rolling back after the wallet row was written removes that row again.
pub proof fn lemma_undone_wallet(state: StoreState, name: Seq<char>, keys: KeyMaterial)
    requires
        state.wf(),
        state.wallet_insert_outcome(name, keys) is Ok,
    ensures
        state.after_begin().after_wallet_insert(name, keys).after_rollback() == (StoreState {
            next_wallet_id: state.next_wallet_id + 1,
            ..state
        }),
        state.after_begin().after_wallet_insert(name, keys).tables.has_wallet(state.next_wallet_id),
{
    let written = state.after_begin().after_wallet_insert(name, keys);
    assert(written.tables.wallets[state.tables.wallets.len() as int].id == state.next_wallet_id);
    let after = state.after_begin().after_wallet_insert(name, keys).after_rollback();
    assert(after.tables.wallets =~= state.tables.wallets);
    assert(after.tables.mnemonics =~= state.tables.mnemonics);
    assert(after.savepoints =~= state.savepoints);
}

/// Committing after both rows were written leaves exactly the two rows.
pub proof fn lemma_committed_create(
    state: StoreState,
    name: Seq<char>,
    keys: KeyMaterial,
    phrase: Seq<char>,
)
    requires
        state.wf(),
        state.create_outcome(name, keys) is Ok,
    ensures
        state.after_begin().after_wallet_insert(name, keys).after_mnemonic_insert(
            phrase,
            state.next_wallet_id,
        ).after_commit() == state.after_create(name, keys, phrase),
        state.after_wallet_insert(name, keys).mnemonic_insert_outcome(state.next_wallet_id) is Ok,
{
    let id = state.next_wallet_id;
    let with_wallet = state.after_wallet_insert(name, keys);
    assert(with_wallet.tables.wallets[state.tables.wallets.len() as int].id == id);
    assert(with_wallet.tables.has_wallet(id));
    let left = state.after_begin().after_wallet_insert(name, keys);
    assert(left.tables.wallets[state.tables.wallets.len() as int].id == id);
    assert(left.tables.has_wallet(id));
    let done = left.after_mnemonic_insert(phrase, id).after_commit();
    assert(done.savepoints =~= state.savepoints);
}

} // verus!
