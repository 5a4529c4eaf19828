//! What holds of the wallet operations taken together.
//!
//! Each statement here is about the model of the store, which the
//! executable operations are proved to follow step by step.

use vstd::prelude::*;
use crate::error::WalletError;
use crate::flow::CreateState;
use crate::hex::{hex_decoding, hex_encoding, is_hex, lemma_decode_inverts_encode};
use crate::keys::{
    is_valid_scalar, judged, key_material, key_of_draws, DrawVerdict, KeyMaterial,
};
use crate::mnemonic::{
    confirmation, lemma_normalized_decides_words, phrase_words, stored_phrase,
};
use crate::model::{
    clashes, lemma_begin_keeps_wf, lemma_commit_keeps_wf, lemma_committed_create,
    lemma_first_phrase, lemma_first_phrase_push, lemma_first_wallet, lemma_first_wallet_push,
    lemma_mnemonic_insert_keeps_wf, lemma_rollback_keeps_wf, lemma_undone_wallet,
    lemma_wallet_insert_keeps_wf, StoreState, Tables, WalletEntry,
};
use crate::wallet::import_outcome;

verus! {

/// A wallet that can be created is not in the store yet, and no phrase is
/// on record for the identifier it will get.
pub proof fn lemma_nothing_there_before_create(state: StoreState, name: Seq<char>, keys: KeyMaterial)
    requires
        state.wf(),
        state.wallet_insert_outcome(name, keys) is Ok,
    ensures
        state.tables.wallet_named(name, keys.private_key) is None,
        state.tables.phrase_of(state.next_wallet_id) is None,
        !state.tables.has_wallet(state.next_wallet_id),
{
    let tables = state.tables;
    lemma_first_wallet(tables.wallets, name, keys.private_key);
    if tables.wallet_named(name, keys.private_key) is Some {
        let row = tables.wallet_named(name, keys.private_key).unwrap();
        let i = choose|i: int| 0 <= i < tables.wallets.len() && tables.wallets[i] == row;
        assert(clashes(tables.wallets[i], name, keys));
    }
    lemma_first_phrase(tables.mnemonics, state.next_wallet_id);
    if tables.phrase_of(state.next_wallet_id) is Some {
        let j = choose|j: int|
            0 <= j < tables.mnemonics.len() && (#[trigger] tables.mnemonics[j]).wallet_id
                == state.next_wallet_id;
        assert(tables.has_wallet(tables.mnemonics[j].wallet_id));
    }
}

/// Draws that are no valid scalar are passed over: when the random source
/// could be read each time, the first valid draw came within the draws
/// allowed, and every draw before it was refused, the key is that draw.
pub proof fn law_first_valid_draw_is_the_key(
    draws: Seq<Option<Seq<u8>>>,
    j: int,
    draws_left: int,
)
    requires
        0 <= j < draws.len(),
        j < draws_left,
        forall|i: int|
            0 <= i < j ==> (#[trigger] draws[i]) is Some && !is_valid_scalar(draws[i].unwrap()),
        draws[j] is Some,
        is_valid_scalar(draws[j].unwrap()),
    ensures
        key_of_draws(draws, draws_left) == Some(draws[j].unwrap()),
    decreases j,
{
    if j > 0 {
        let rest = draws.drop_first();
        assert(draws[0] is Some && !is_valid_scalar(draws[0].unwrap()));
        assert forall|i: int| 0 <= i < j - 1 implies (#[trigger] rest[i]) is Some
            && !is_valid_scalar(rest[i].unwrap()) by {
            assert(rest[i] == draws[i + 1]);
        }
        assert(rest[j - 1] == draws[j]);
        law_first_valid_draw_is_the_key(rest, j - 1, draws_left - 1);
    }
}

/// A run of draws in which the source cannot be read or yields no valid
/// scalar ends without a key.
pub proof fn law_failed_draws_give_no_key(draws: Seq<Option<Seq<u8>>>, draws_left: int)
    requires
        forall|i: int|
            0 <= i < draws.len() ==> (#[trigger] draws[i]) is None || !is_valid_scalar(
                draws[i].unwrap(),
            ),
    ensures
        key_of_draws(draws, draws_left) is None,
    decreases draws.len(),
{
    if draws.len() > 0 {
        let rest = draws.drop_first();
        assert(draws[0] is None || !is_valid_scalar(draws[0].unwrap()));
        assert forall|i: int| 0 <= i < rest.len() implies (#[trigger] rest[i]) is None
            || !is_valid_scalar(rest[i].unwrap()) by {
            assert(rest[i] == draws[i + 1]);
        }
        law_failed_draws_give_no_key(rest, draws_left - 1);
    }
}

/// Each key is the draw it was accepted from, so two different accepted
/// draws give two different keys, and two different key texts.
pub proof fn law_distinct_draws_give_distinct_keys(
    first: Seq<u8>,
    second: Seq<u8>,
    first_left: int,
    second_left: int,
)
    requires
        is_valid_scalar(first),
        is_valid_scalar(second),
        first != second,
    ensures
        judged(Some(first), first_left) == DrawVerdict::Accept(first),
        judged(Some(second), second_left) == DrawVerdict::Accept(second),
        key_material(first).private_key != key_material(second).private_key,
        hex_encoding(first) != hex_encoding(second),
{
    lemma_decode_inverts_encode(first);
    lemma_decode_inverts_encode(second);
}

/// Creating a wallet stores the key material it was created with: the
/// address on record is the one derived from the private key on record,
/// provided the key material handed in was derived, as that of every
/// `KeyPair` is.
pub proof fn law_created_wallet_keeps_derived_keys(
    state: StoreState,
    name: Seq<char>,
    keys: KeyMaterial,
    phrase: Seq<char>,
)
    requires
        state.wf(),
        state.tables.keys_derived(),
        is_valid_scalar(keys.private_key),
        keys == key_material(keys.private_key),
    ensures
        state.after_create(name, keys, phrase).tables.keys_derived(),
        state.after_wallet_insert(name, keys).tables.keys_derived(),
{
    let inserted = state.after_wallet_insert(name, keys).tables;
    assert forall|i: int| 0 <= i < inserted.wallets.len() implies {
        &&& is_valid_scalar((#[trigger] inserted.wallets[i]).keys.private_key)
        &&& inserted.wallets[i].keys == key_material(inserted.wallets[i].keys.private_key)
    } by {
        if i < state.tables.wallets.len() {
            assert(inserted.wallets[i] == state.tables.wallets[i]);
        }
    }
}

/// Creating a second wallet under a name that was just used is refused as
/// a duplicate, whatever key it would have had, and leaves the store as the
/// first creation left it: the first wallet is still found, unchanged.
pub proof fn law_second_create_is_a_duplicate(
    state: StoreState,
    name: Seq<char>,
    first_keys: KeyMaterial,
    first_phrase: Seq<char>,
    second_keys: KeyMaterial,
    second_phrase: Seq<char>,
)
    requires
        state.wf(),
        state.create_outcome(name, first_keys) is Ok,
    ensures
        ({
            let once = state.after_create(name, first_keys, first_phrase);
            &&& once.create_outcome(name, second_keys) == Err::<int, WalletError>(
                WalletError::DuplicateIdentity,
            )
            &&& once.after_create(name, second_keys, second_phrase) == once
            &&& once.tables.wallet_named(name, first_keys.private_key) == Some(
                state.new_wallet_row(name, first_keys),
            )
        }),
{
    let once = state.after_create(name, first_keys, first_phrase);
    let row = state.new_wallet_row(name, first_keys);
    let at = state.tables.wallets.len() as int;
    assert(once.tables.wallets[at] == row);
    assert(clashes(once.tables.wallets[at], name, second_keys));
    assert(once.tables.collides(name, second_keys));
    law_import_finds_created_wallet(state, name, first_keys, first_phrase);
}

/// Importing right after creating, with the created wallet's name and its
/// own private key written as hexadecimal text, returns the wallet that was
/// created: the same identifier, the same address.
pub proof fn law_import_finds_created_wallet(
    state: StoreState,
    name: Seq<char>,
    keys: KeyMaterial,
    phrase: Seq<char>,
)
    requires
        state.wf(),
        state.create_outcome(name, keys) is Ok,
    ensures
        state.after_create(name, keys, phrase).tables.wallet_named(name, keys.private_key) == Some(
            state.new_wallet_row(name, keys),
        ),
        is_valid_scalar(keys.private_key) ==> import_outcome(
            state.after_create(name, keys, phrase).tables,
            name,
            hex_encoding(keys.private_key),
        ) == Ok::<WalletEntry, WalletError>(state.new_wallet_row(name, keys)),
{
    lemma_nothing_there_before_create(state, name, keys);
    lemma_first_wallet_push(
        state.tables.wallets,
        state.new_wallet_row(name, keys),
        name,
        keys.private_key,
    );
    lemma_decode_inverts_encode(keys.private_key);
}

/// Text that is not the hexadecimal form of a valid key is refused with
/// `InvalidPrivateKey` whatever the store holds: the answer is the same for
/// any two stores, so the store has no part in it.
pub proof fn law_invalid_key_is_refused_without_the_store(
    tables: Tables,
    other: Tables,
    name: Seq<char>,
    key_text: Seq<char>,
)
    requires
        !is_hex(key_text) || !is_valid_scalar(hex_decoding(key_text)),
    ensures
        import_outcome(tables, name, key_text) == Err::<WalletEntry, WalletError>(
            WalletError::InvalidPrivateKey,
        ),
        import_outcome(tables, name, key_text) == import_outcome(other, name, key_text),
{
}

/// The phrase that a wallet was created with is the phrase on record for
/// it, and confirming that very phrase succeeds.
pub proof fn law_created_phrase_is_confirmed(
    state: StoreState,
    name: Seq<char>,
    keys: KeyMaterial,
    phrase: Seq<char>,
)
    requires
        state.wf(),
        state.create_outcome(name, keys) is Ok,
    ensures
        stored_phrase(state.after_create(name, keys, phrase).tables, state.next_wallet_id) == Ok::<
            Seq<char>,
            WalletError,
        >(phrase),
        confirmation(state.after_create(name, keys, phrase).tables, state.next_wallet_id, phrase)
            == Ok::<bool, WalletError>(true),
{
    lemma_nothing_there_before_create(state, name, keys);
    lemma_first_phrase_push(
        state.tables.mnemonics,
        state.new_phrase_row(phrase, state.next_wallet_id),
        state.next_wallet_id,
    );
}

/// A candidate that differs from the phrase a wallet was created with in
/// one of its words is not confirmed, however either text is spaced.
pub proof fn law_changed_word_is_not_confirmed(
    state: StoreState,
    name: Seq<char>,
    keys: KeyMaterial,
    phrase: Seq<char>,
    candidate: Seq<char>,
    k: int,
)
    requires
        state.wf(),
        state.create_outcome(name, keys) is Ok,
        phrase_words(candidate).len() == phrase_words(phrase).len(),
        0 <= k < phrase_words(phrase).len(),
        phrase_words(candidate)[k] != phrase_words(phrase)[k],
    ensures
        confirmation(state.after_create(name, keys, phrase).tables, state.next_wallet_id, candidate)
            == Ok::<bool, WalletError>(false),
{
    law_created_phrase_is_confirmed(state, name, keys, phrase);
    lemma_normalized_decides_words(candidate, phrase);
}

/// A wallet is created whole or not at all. If the phrase row is refused
/// after the wallet row was written, the tables are as they were before:
/// a later look finds neither the wallet nor a phrase for the identifier it
/// had been given.
pub proof fn law_failed_create_leaves_nothing(
    state: StoreState,
    name: Seq<char>,
    keys: KeyMaterial,
    phrase: Seq<char>,
)
    requires
        state.wf(),
        state.wallet_insert_outcome(name, keys) is Ok,
        state.after_wallet_insert(name, keys).mnemonic_insert_outcome(state.next_wallet_id) is Err,
    ensures
        state.create_outcome(name, keys) is Err,
        state.after_create(name, keys, phrase).tables == state.tables,
        state.after_create(name, keys, phrase).tables.wallet_named(name, keys.private_key) is None,
        state.after_create(name, keys, phrase).tables.phrase_of(state.next_wallet_id) is None,
        !state.after_create(name, keys, phrase).tables.has_wallet(state.next_wallet_id),
{
    let written = state.after_wallet_insert(name, keys);
    assert(written.tables.wallets[state.tables.wallets.len() as int].id == state.next_wallet_id);
    assert(written.tables.has_wallet(state.next_wallet_id));
    lemma_nothing_there_before_create(state, name, keys);
}

/// Whatever a store answers, the creation of a wallet ends within three
/// steps. It ends with the wallet created exactly when the wallet row, the
/// phrase row and the commit all went through, and then under the
/// identifier that the wallet row was given. A refused write is followed by
/// a rollback, never by a commit, and ends the creation with the error of
/// that write.
pub proof fn law_commit_needs_both_rows(
    first: Result<i32, WalletError>,
    second: Result<i32, WalletError>,
    third: Result<i32, WalletError>,
)
    ensures
        ({
            let written = CreateState::WriteWallet.next(first);
            let completed = written.next(second);
            let ended = completed.next(third);
            &&& ended.is_final()
            &&& ended is Created <==> first is Ok && second is Ok && third is Ok
            &&& ended matches CreateState::Created { wallet_id } ==> first == Ok::<
                i32,
                WalletError,
            >(wallet_id)
            &&& completed is Commit <==> first is Ok && second is Ok
            &&& first matches Err(e) ==> written == (CreateState::Rollback { error: e })
                && completed == (CreateState::Failed { error: e })
            &&& first is Ok ==> (second matches Err(e) ==> completed == (CreateState::Rollback {
                error: e,
            }) && ended == (CreateState::Failed { error: e }))
        }),
{
}

/// Creating a wallet, whether it succeeds or fails, leaves a well-formed
/// store well formed.
pub proof fn law_create_keeps_the_store_well_formed(
    state: StoreState,
    name: Seq<char>,
    keys: KeyMaterial,
    phrase: Seq<char>,
)
    requires
        state.wf(),
    ensures
        state.after_create(name, keys, phrase).wf(),
{
    let begun = state.after_begin();
    lemma_begin_keeps_wf(state);
    lemma_wallet_insert_keeps_wf(begun, name, keys);
    let written = begun.after_wallet_insert(name, keys);
    if state.wallet_insert_outcome(name, keys) is Ok {
        lemma_undone_wallet(state, name, keys);
        if state.create_outcome(name, keys) is Ok {
            lemma_mnemonic_insert_keeps_wf(written, phrase, state.next_wallet_id);
            lemma_commit_keeps_wf(written.after_mnemonic_insert(phrase, state.next_wallet_id));
            lemma_committed_create(state, name, keys, phrase);
        } else {
            lemma_rollback_keeps_wf(written);
        }
    }
}

/// Rows are written once and never changed: after any insertion, and after
/// the creation of a wallet, the rows that were there are still there, in
/// their places and as they were. A rollback removes rows from the end and
/// changes none of those that stay.
pub proof fn law_rows_are_never_changed(
    state: StoreState,
    name: Seq<char>,
    keys: KeyMaterial,
    phrase: Seq<char>,
    wallet_id: int,
)
    requires
        state.wf(),
    ensures
        state.tables.wallets.is_prefix_of(state.after_wallet_insert(name, keys).tables.wallets),
        state.tables.mnemonics == state.after_wallet_insert(name, keys).tables.mnemonics,
        state.tables.wallets == state.after_mnemonic_insert(phrase, wallet_id).tables.wallets,
        state.tables.mnemonics.is_prefix_of(
            state.after_mnemonic_insert(phrase, wallet_id).tables.mnemonics,
        ),
        state.tables.wallets.is_prefix_of(state.after_create(name, keys, phrase).tables.wallets),
        state.tables.mnemonics.is_prefix_of(
            state.after_create(name, keys, phrase).tables.mnemonics,
        ),
        state.after_rollback().tables.wallets.is_prefix_of(state.tables.wallets),
        state.after_rollback().tables.mnemonics.is_prefix_of(state.tables.mnemonics),
        state.after_begin().tables == state.tables,
        state.after_commit().tables == state.tables,
{
    if state.savepoints.len() > 0 {
        assert(state.savepoint_ok(state.savepoints.len() - 1));
    }
}

/// Every failed creation leaves the tables as they were, whatever the
/// reason for the failure.
pub proof fn law_create_is_all_or_nothing(
    state: StoreState,
    name: Seq<char>,
    keys: KeyMaterial,
    phrase: Seq<char>,
)
    requires
        state.wf(),
    ensures
        state.create_outcome(name, keys) is Err ==> state.after_create(name, keys, phrase).tables
            == state.tables,
        state.create_outcome(name, keys) is Ok ==> {
            &&& state.after_create(name, keys, phrase).tables.wallets == state.tables.wallets.push(
                state.new_wallet_row(name, keys),
            )
            &&& state.after_create(name, keys, phrase).tables.mnemonics
                == state.tables.mnemonics.push(state.new_phrase_row(phrase, state.next_wallet_id))
        },
        state.after_create(name, keys, phrase).savepoints == state.savepoints,
{
    if state.create_outcome(name, keys) is Ok {
        let written = state.after_wallet_insert(name, keys);
        assert(written.tables.wallets[state.tables.wallets.len() as int].id
            == state.next_wallet_id);
        assert(written.tables.has_wallet(state.next_wallet_id));
    }
}

} // verus!
