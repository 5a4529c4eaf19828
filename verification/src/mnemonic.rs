//! Recovery phrases: generating one and checking what a user recalls.
//!
//! A phrase is generated from thirty-two fresh random bytes by the `bip39`
//! crate and carries a checksum over them. It is a secret of its own and
//! says nothing about the wallet's private key. Confirming a phrase compares
//! what a user typed with the phrase on record, both with the blanks at
//! their ends removed and every run of spaces made one space.

use vstd::prelude::*;
use crate::error::WalletError;
use crate::keys::os_entropy;
use crate::model::Tables;
use crate::store::WalletStore;
use crate::text::{chars_of, push_char};

verus! {

/// The number of random bytes behind a generated phrase.
pub const ENTROPY_LENGTH: usize = 32;

/// The characters that are removed at both ends of a text: space, tab, line
/// feed and carriage return.
pub open spec fn is_blank(c: char) -> bool {
    c == ' ' || c == '\t' || c == '\n' || c == '\r'
}

/// The text without the blanks at its start.
pub open spec fn trimmed_start(text: Seq<char>) -> Seq<char>
    decreases text.len(),
{
    if text.len() > 0 && is_blank(text[0]) {
        trimmed_start(text.drop_first())
    } else {
        text
    }
}

/// The text without the blanks at its end.
pub open spec fn trimmed_end(text: Seq<char>) -> Seq<char>
    decreases text.len(),
{
    if text.len() > 0 && is_blank(text.last()) {
        trimmed_end(text.drop_last())
    } else {
        text
    }
}

/// The text without the blanks at either end.
pub open spec fn trimmed(text: Seq<char>) -> Seq<char> {
    trimmed_end(trimmed_start(text))
}

/// The words of a text: its maximal runs of characters other than the
/// space. A tab or a line break is a character like any other here.
pub open spec fn words(text: Seq<char>) -> Seq<Seq<char>>
    decreases text.len(),
{
    if text.len() == 0 {
        Seq::empty()
    } else if text.last() == ' ' {
        words(text.drop_last())
    } else if text.len() > 1 && text[text.len() - 2] != ' ' {
        let before = words(text.drop_last());
        before.drop_last().push(before.last().push(text.last()))
    } else {
        words(text.drop_last()).push(seq![text.last()])
    }
}

/// The words joined by single spaces.
pub open spec fn joined(words: Seq<Seq<char>>) -> Seq<char>
    decreases words.len(),
{
    if words.len() == 0 {
        Seq::empty()
    } else if words.len() == 1 {
        words[0]
    } else {
        joined(words.drop_last()) + seq![' '] + words.last()
    }
}

/// The words of a text once the blanks at its ends are removed.
pub open spec fn phrase_words(text: Seq<char>) -> Seq<Seq<char>> {
    words(trimmed(text))
}

/// The normal form of a text: the blanks at both ends removed and every run
/// of spaces made one space. Nothing else changes; a tab or a line break
/// inside the text stays where it is.
pub open spec fn normalized(text: Seq<char>) -> Seq<char> {
    joined(phrase_words(text))
}

/// Whether a word is not empty and holds no space.
pub open spec fn is_word(word: Seq<char>) -> bool {
    &&& word.len() > 0
    &&& forall|i: int| 0 <= i < word.len() ==> (#[trigger] word[i]) != ' '
}

/// Whether every member of a list is a word.
pub open spec fn all_words(list: Seq<Seq<char>>) -> bool {
    forall|k: int| 0 <= k < list.len() ==> is_word(#[trigger] list[k])
}

/// The recovery phrase that the `bip39` crate makes of `entropy`: what
/// `Mnemonic::from_entropy` displays as, in English words.
pub uninterp spec fn bip39_phrase(entropy: Seq<u8>) -> Seq<char>;

/// The numbers of bytes that a phrase can be generated from: a multiple of
/// four between sixteen and thirty-two.
pub open spec fn is_entropy_length(len: nat) -> bool {
    len % 4 == 0 && 16 <= len <= 32
}

/// Whether a phrase is one that generation can produce: the phrase of some
/// thirty-two bytes of entropy.
pub open spec fn is_generated_phrase(phrase: Seq<char>) -> bool {
    exists|entropy: Seq<u8>|
        entropy.len() == ENTROPY_LENGTH && phrase == #[trigger] bip39_phrase(entropy)
}

/// What looking up a wallet's phrase returns: the oldest phrase on record,
/// or which of the two is missing, the wallet or its phrase.
pub open spec fn stored_phrase(tables: Tables, wallet_id: int) -> Result<Seq<char>, WalletError> {
    match tables.phrase_of(wallet_id) {
        Some(phrase) => Ok(phrase),
        None => if tables.has_wallet(wallet_id) {
            Err(WalletError::MnemonicNotFound)
        } else {
            Err(WalletError::WalletNotFound)
        },
    }
}

/// What confirming a phrase for a wallet returns: whether the candidate and
/// the phrase on record have the same normal form, or why there is nothing
/// to compare with.
pub open spec fn confirmation(tables: Tables, wallet_id: int, candidate: Seq<char>) -> Result<
    bool,
    WalletError,
> {
    match stored_phrase(tables, wallet_id) {
        Ok(stored) => Ok(normalized(candidate) == normalized(stored)),
        Err(e) => Err(e),
    }
}

/// `bip39::Mnemonic::from_entropy`, shown as text. It accepts entropy of 128
/// to 256 bits in multiples of 32 bits.
#[verifier::external_body]
fn bip39_from_entropy(entropy: &[u8]) -> (phrase: String)
    requires
        is_entropy_length(entropy@.len()),
    ensures
        phrase@ == bip39_phrase(entropy@),
{
    bip39::Mnemonic::from_entropy(entropy).expect("entropy of a supported length").to_string()
}

/// Every word of a text is a word: not empty, and free of spaces.
pub proof fn lemma_words_are_words(text: Seq<char>)
    ensures
        all_words(words(text)),
        text.len() > 0 && text.last() != ' ' ==> words(text).len() > 0,
    decreases text.len(),
{
    if text.len() > 0 {
        lemma_words_are_words(text.drop_last());
        if text.last() != ' ' && text.len() > 1 && text[text.len() - 2] != ' ' {
            let before = words(text.drop_last());
            assert(text.drop_last().last() == text[text.len() - 2]);
            assert(is_word(before.last()));
            let grown = before.last().push(text.last());
            assert(is_word(grown));
            let after = before.drop_last().push(grown);
            assert forall|k: int| 0 <= k < after.len() implies is_word(#[trigger] after[k]) by {
                if k < after.len() - 1 {
                    assert(after[k] == before[k]);
                }
            }
        } else if text.last() != ' ' {
            let before = words(text.drop_last());
            let after = before.push(seq![text.last()]);
            assert(is_word(seq![text.last()]));
            assert forall|k: int| 0 <= k < after.len() implies is_word(#[trigger] after[k]) by {
                if k < after.len() - 1 {
                    assert(after[k] == before[k]);
                }
            }
        }
    }
}

/// Growing the last word by one character grows the joined text by it.
proof fn lemma_joined_grow_last(list: Seq<Seq<char>>, c: char)
    requires
        list.len() > 0,
    ensures
        joined(list.drop_last().push(list.last().push(c))) == joined(list).push(c),
{
    let grown = list.drop_last().push(list.last().push(c));
    if list.len() == 1 {
        assert(grown[0] == list[0].push(c));
    } else {
        assert(grown.drop_last() =~= list.drop_last());
        assert(grown.last() == list.last().push(c));
        assert(joined(list.drop_last()) + seq![' '] + list.last().push(c) =~= (joined(
            list.drop_last(),
        ) + seq![' '] + list.last()).push(c));
    }
}

/// Adding a word after a space, or at the start, adds it to the words.
proof fn lemma_words_append_word(text: Seq<char>, word: Seq<char>)
    requires
        text.len() == 0 || text.last() == ' ',
        is_word(word),
    ensures
        words(text + word) == words(text).push(word),
    decreases word.len(),
{
    let whole = text + word;
    assert(whole.last() == word.last());
    assert(whole.drop_last() =~= text + word.drop_last());
    if word.len() == 1 {
        assert(word.drop_last() =~= Seq::<char>::empty());
        assert(text + word.drop_last() =~= text);
        assert(whole.len() > 1 ==> whole[whole.len() - 2] == text.last());
        assert(seq![word.last()] =~= word);
    } else {
        let shorter = word.drop_last();
        assert(is_word(shorter)) by {
            assert forall|i: int| 0 <= i < shorter.len() implies (#[trigger] shorter[i])
                != ' ' by {
                assert(shorter[i] == word[i]);
            }
        }
        lemma_words_append_word(text, shorter);
        assert(whole[whole.len() - 2] == word[word.len() - 2]);
        let before = words(text + shorter);
        assert(before.drop_last() =~= words(text));
        assert(before.last() == shorter);
        assert(shorter.push(word.last()) =~= word);
    }
}

/// Splitting what was joined gives back the words that were joined.
pub proof fn lemma_words_of_joined(list: Seq<Seq<char>>)
    requires
        all_words(list),
    ensures
        words(joined(list)) == list,
    decreases list.len(),
{
    if list.len() == 0 {
    } else if list.len() == 1 {
        lemma_words_append_word(Seq::empty(), list[0]);
        assert(Seq::<char>::empty() + list[0] =~= list[0]);
        assert(Seq::<Seq<char>>::empty().push(list[0]) =~= list);
    } else {
        let front = list.drop_last();
        assert(all_words(front)) by {
            assert forall|k: int| 0 <= k < front.len() implies is_word(#[trigger] front[k]) by {
                assert(front[k] == list[k]);
            }
        }
        lemma_words_of_joined(front);
        let head = joined(front) + seq![' '];
        assert(head.last() == ' ');
        assert(head.drop_last() =~= joined(front));
        assert(words(head) == front);
        assert(is_word(list.last()));
        lemma_words_append_word(head, list.last());
        assert(front.push(list.last()) =~= list);
    }
}

/// Two texts have the same normal form exactly when, with the blanks at
/// their ends removed, they have the same words.
pub proof fn lemma_normalized_decides_words(a: Seq<char>, b: Seq<char>)
    ensures
        (normalized(a) == normalized(b)) <==> (phrase_words(a) == phrase_words(b)),
{
    lemma_words_are_words(trimmed(a));
    lemma_words_are_words(trimmed(b));
    lemma_words_of_joined(phrase_words(a));
    lemma_words_of_joined(phrase_words(b));
}

fn is_blank_char(c: char) -> (blank: bool)
    ensures
        blank == is_blank(c),
{
    c == ' ' || c == '\t' || c == '\n' || c == '\r'
}

/// Where the text begins once the blanks at its start are left out.
fn start_of_text(chars: &Vec<char>) -> (start: usize)
    ensures
        start <= chars.len(),
        chars@.skip(start as int) == trimmed_start(chars@),
{
    let mut start: usize = 0;
    assert(chars@.skip(0) =~= chars@);
    while start < chars.len()
        invariant
            start <= chars.len(),
            trimmed_start(chars@) == trimmed_start(chars@.skip(start as int)),
        decreases chars.len() - start,
    {
        assert(chars@.skip(start as int)[0] == chars@[start as int]);
        if !is_blank_char(chars[start]) {
            return start;
        }
        assert(chars@.skip(start as int).drop_first() =~= chars@.skip(start + 1));
        start += 1;
    }
    start
}

/// Where the text that begins at `start` ends once the blanks at its end
/// are left out.
fn end_of_text(chars: &Vec<char>, start: usize) -> (end: usize)
    requires
        start <= chars.len(),
    ensures
        start <= end <= chars.len(),
        chars@.subrange(start as int, end as int) == trimmed_end(chars@.skip(start as int)),
{
    let mut end: usize = chars.len();
    assert(chars@.subrange(start as int, end as int) =~= chars@.skip(start as int));
    while end > start
        invariant
            start <= end <= chars.len(),
            trimmed_end(chars@.skip(start as int)) == trimmed_end(
                chars@.subrange(start as int, end as int),
            ),
        decreases end,
    {
        assert(chars@.subrange(start as int, end as int).last() == chars@[end - 1]);
        if !is_blank_char(chars[end - 1]) {
            return end;
        }
        assert(chars@.subrange(start as int, end as int).drop_last() =~= chars@.subrange(
            start as int,
            end - 1,
        ));
        end -= 1;
    }
    end
}

/// The normal form of a text: the blanks at both ends removed and every run
/// of spaces made one space.
pub fn normalize(text: &str) -> (normal: String)
    ensures
        normal@ == normalized(text@),
{
    let chars = chars_of(text);
    let start = start_of_text(&chars);
    let end = end_of_text(&chars, start);
    let ghost inner = chars@.subrange(start as int, end as int);
    let mut normal = String::new();
    let mut after_space: bool = true;
    let mut any_word: bool = false;
    let mut i: usize = start;
    while i < end
        invariant
            start <= i <= end <= chars.len(),
            inner == chars@.subrange(start as int, end as int),
            normal@ == joined(words(inner.take(i - start))),
            any_word == (words(inner.take(i - start)).len() > 0),
            after_space == (i == start || chars@[i - 1] == ' '),
        decreases end - i,
    {
        let c = chars[i];
        proof {
            let seen = inner.take(i - start);
            let next = inner.take(i - start + 1);
            assert(next.drop_last() =~= seen);
            assert(next.last() == c);
            assert(i > start ==> next[next.len() - 2] == chars@[i - 1]);
            lemma_words_are_words(seen);
            if c != ' ' {
                if after_space {
                    let list = words(seen).push(seq![c]);
                    assert(list.drop_last() =~= words(seen));
                    if words(seen).len() > 0 {
                        assert(joined(list) =~= joined(words(seen)).push(' ').push(c));
                    } else {
                        assert(joined(list) =~= seq![c]);
                        assert(joined(words(seen)) =~= Seq::<char>::empty());
                        assert(Seq::<char>::empty().push(c) =~= seq![c]);
                    }
                } else {
                    assert(seen.last() == chars@[i - 1]);
                    lemma_joined_grow_last(words(seen), c);
                }
            }
        }
        if c == ' ' {
            after_space = true;
        } else {
            if after_space && any_word {
                push_char(&mut normal, ' ');
            }
            push_char(&mut normal, c);
            after_space = false;
            any_word = true;
        }
        i += 1;
    }
    assert(inner.take(end - start) =~= inner);
    normal
}

/// A recovery phrase and the wallet that it belongs to.
#[derive(Debug)]
pub struct MnemonicPhrase {
    pub phrase: String,
    pub wallet_id: i32,
}

impl MnemonicPhrase {
    /// Whether a recalled phrase matches the stored one.
    ///
    /// The two match when they are the same text once the blanks at their
    /// ends are removed and every run of spaces is made one space: that is,
    /// when they consist of the same words in the same order. Nothing is
    /// decoded and no checksum is recomputed: the question is whether the
    /// user recalled the phrase, not whether it is a phrase at all.
    pub fn verify(candidate: &str, stored: &str) -> (matches: bool)
        ensures
            matches == (normalized(candidate@) == normalized(stored@)),
            matches == (phrase_words(candidate@) == phrase_words(stored@)),
    {
        proof {
            lemma_normalized_decides_words(candidate@, stored@);
        }
        normalize(candidate) == normalize(stored)
    }

    /// The phrase for the given entropy, or `None` when its length is not a
    /// multiple of four bytes between sixteen and thirty-two.
    pub fn from_entropy(entropy: &[u8]) -> (phrase: Option<String>)
        ensures
            phrase is Some <==> is_entropy_length(entropy@.len()),
            phrase matches Some(p) ==> p@ == bip39_phrase(entropy@),
    {
        let len = entropy.len();
        if len % 4 == 0 && 16 <= len && len <= 32 {
            Some(bip39_from_entropy(entropy))
        } else {
            None
        }
    }

    /// A fresh phrase from thirty-two bytes of the operating system's
    /// random source. The only failure is a source that cannot be read.
    pub fn generate_mnemonic() -> (phrase: Result<String, WalletError>)
        ensures
            phrase matches Ok(p) ==> is_generated_phrase(p@),
            phrase matches Err(e) ==> e == WalletError::EntropySourceUnavailable,
    {
        match os_entropy(ENTROPY_LENGTH) {
            Ok(entropy) => Ok(bip39_from_entropy(entropy.as_slice())),
            Err(_) => Err(WalletError::EntropySourceUnavailable),
        }
    }

    /// Generates a fresh phrase for a wallet and stores it.
    ///
    /// The phrase is drawn first; a store that refuses the row is left as it
    /// was.
    pub fn new(wallet_id: i32, db: &mut WalletStore) -> (created: Result<
        MnemonicPhrase,
        WalletError,
    >)
        requires
            old(db).wf(),
        ensures
            final(db).wf(),
            match created {
                Ok(mnemonic) => {
                    &&& mnemonic.wallet_id == wallet_id
                    &&& is_generated_phrase(mnemonic.phrase@)
                    &&& old(db)@.mnemonic_insert_outcome(wallet_id as int) is Ok
                    &&& final(db)@ == old(db)@.after_mnemonic_insert(
                        mnemonic.phrase@,
                        wallet_id as int,
                    )
                },
                Err(e) => {
                    &&& final(db)@ == old(db)@
                    &&& e == WalletError::EntropySourceUnavailable || old(
                        db,
                    )@.mnemonic_insert_outcome(wallet_id as int) == Err::<int, WalletError>(e)
                },
            },
    {
        let phrase = match MnemonicPhrase::generate_mnemonic() {
            Ok(phrase) => phrase,
            Err(e) => {
                return Err(e);
            },
        };
        let mnemonic = MnemonicPhrase { phrase, wallet_id };
        match mnemonic.save_to_db(db) {
            Ok(()) => Ok(mnemonic),
            Err(e) => Err(e),
        }
    }

    /// Stores the phrase for its wallet.
    ///
    /// The row is refused with `WalletNotFound` when the wallet does not
    /// exist and with `StoreUnavailable` when no identifier is left; a
    /// refused row changes nothing.
    pub fn save_to_db(&self, db: &mut WalletStore) -> (saved: Result<(), WalletError>)
        requires
            old(db).wf(),
        ensures
            final(db).wf(),
            final(db)@ == old(db)@.after_mnemonic_insert(self.phrase@, self.wallet_id as int),
            match saved {
                Ok(()) => old(db)@.mnemonic_insert_outcome(self.wallet_id as int) is Ok,
                Err(e) => old(db)@.mnemonic_insert_outcome(self.wallet_id as int) == Err::<
                    int,
                    WalletError,
                >(e),
            },
    {
        match db.insert_mnemonic(self.phrase.as_str(), self.wallet_id) {
            Ok(_) => Ok(()),
            Err(e) => Err(e),
        }
    }

    /// The oldest phrase on record for a wallet.
    ///
    /// Fails with `WalletNotFound` when there is neither a phrase nor a
    /// wallet of this identifier, and with `MnemonicNotFound` when the
    /// wallet exists without a phrase.
    pub fn get_wallet_mnemonic(wallet_id: i32, db: &WalletStore) -> (found: Result<
        MnemonicPhrase,
        WalletError,
    >)
        ensures
            match found {
                Ok(mnemonic) => {
                    &&& mnemonic.wallet_id == wallet_id
                    &&& stored_phrase(db@.tables, wallet_id as int) == Ok::<
                        Seq<char>,
                        WalletError,
                    >(mnemonic.phrase@)
                },
                Err(e) => stored_phrase(db@.tables, wallet_id as int) == Err::<
                    Seq<char>,
                    WalletError,
                >(e),
            },
    {
        let phrase = db.find_mnemonic_by_wallet_id(wallet_id);
        let wallet_exists = phrase.is_some() || db.contains_wallet(wallet_id);
        MnemonicPhrase::from_lookup(wallet_id, phrase, wallet_exists)
    }

    /// What looking up a wallet's phrase amounts to, given the oldest phrase
    /// that was found for it, if any, and whether the wallet exists.
    ///
    /// Without a phrase the error tells which of the two is missing:
    /// `MnemonicNotFound` when the wallet exists, `WalletNotFound` when it
    /// does not.
    pub fn from_lookup(wallet_id: i32, phrase: Option<String>, wallet_exists: bool) -> (found:
        Result<MnemonicPhrase, WalletError>)
        ensures
            match found {
                Ok(mnemonic) => phrase matches Some(p) && mnemonic.phrase@ == p@
                    && mnemonic.wallet_id == wallet_id,
                Err(e) => phrase is None && e == if wallet_exists {
                    WalletError::MnemonicNotFound
                } else {
                    WalletError::WalletNotFound
                },
            },
    {
        match phrase {
            Some(phrase) => Ok(MnemonicPhrase { phrase, wallet_id }),
            None => {
                if wallet_exists {
                    Err(WalletError::MnemonicNotFound)
                } else {
                    Err(WalletError::WalletNotFound)
                }
            },
        }
    }

    /// Whether `phrase` and the phrase on record for a wallet have the same
    /// normal form.
    ///
    /// Fails as `get_wallet_mnemonic` does when there is no phrase to
    /// compare with.
    pub fn confirm_phrase(wallet_id: i32, phrase_text: &str, db: &WalletStore) -> (confirmed: Result<
        bool,
        WalletError,
    >)
        ensures
            confirmed == confirmation(db@.tables, wallet_id as int, phrase_text@),
    {
        let phrase = db.find_mnemonic_by_wallet_id(wallet_id);
        let wallet_exists = phrase.is_some() || db.contains_wallet(wallet_id);
        MnemonicPhrase::confirm_lookup(wallet_id, phrase_text, phrase, wallet_exists)
    }

    /// What confirming a candidate for a wallet amounts to, given the oldest
    /// phrase that was found for the wallet, if any, and whether the wallet
    /// exists.
    ///
    /// With a phrase, the answer is whether the candidate and the phrase
    /// have the same normal form. Without one, the error tells which of the
    /// two is missing, as `from_lookup` does.
    pub fn confirm_lookup(
        wallet_id: i32,
        candidate: &str,
        phrase: Option<String>,
        wallet_exists: bool,
    ) -> (confirmed: Result<bool, WalletError>)
        ensures
            confirmed == match phrase {
                Some(stored) => Ok::<bool, WalletError>(
                    normalized(candidate@) == normalized(stored@),
                ),
                None => if wallet_exists {
                    Err::<bool, WalletError>(WalletError::MnemonicNotFound)
                } else {
                    Err::<bool, WalletError>(WalletError::WalletNotFound)
                },
            },
    {
        match MnemonicPhrase::from_lookup(wallet_id, phrase, wallet_exists) {
            Ok(mnemonic) => Ok(MnemonicPhrase::verify(candidate, mnemonic.phrase.as_str())),
            Err(e) => Err(e),
        }
    }
}

} // verus!
