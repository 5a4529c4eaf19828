//! Private keys, and the public key and address that follow from one.
//!
//! A private key is a scalar of secp256k1: thirty-two bytes that, read as a
//! big-endian integer, are above zero and below the order of the curve. The
//! curve arithmetic and the address encoding are done by the `bitcoin`
//! crate; what this module proves is stated over names for their results.

use vstd::prelude::*;
use vstd::slice::slice_to_vec;
use crate::error::WalletError;
use crate::hex::{decode_hex, encode_hex, hex_decoding, hex_encoding, is_hex};

verus! {

/// The number of bytes in a private key.
pub const KEY_LENGTH: usize = 32;

/// The number of bytes in the compressed encoding of a public key.
pub const PUBLIC_KEY_LENGTH: usize = 33;

/// How many times `KeyGenerator::generate` draws before it gives up.
///
/// A uniformly drawn candidate is rejected with probability below 2^-127, so
/// a working random source never comes near this bound.
pub const MAX_DRAWS: u32 = 64;

/// The integer that `bytes` spell, most significant byte first.
pub open spec fn be_value(bytes: Seq<u8>) -> nat
    decreases bytes.len(),
{
    if bytes.len() == 0 {
        0
    } else {
        be_value(bytes.drop_last()) * 256 + bytes.last() as nat
    }
}

/// The number of points in the group that secp256k1 generates.
pub open spec fn curve_order() -> nat {
    0xFFFFFFFFFFFFFFFFFFFFFFFFFFFFFFFEBAAEDCE6AF48A03BBFD25E8CD0364141nat
}

/// Whether `bytes` are a usable private key: the right length, not zero and
/// below the curve order.
pub open spec fn is_valid_scalar(bytes: Seq<u8>) -> bool {
    &&& bytes.len() == KEY_LENGTH
    &&& 0 < be_value(bytes) < curve_order()
}

/// The compressed encoding of the curve point that a private key generates:
/// what `secp256k1::PublicKey::from_secret_key` followed by `serialize`
/// returns for the key with these bytes.
pub uninterp spec fn secp_public_key(secret: Seq<u8>) -> Seq<u8>;

/// The text of the main-network pay-to-public-key-hash address of an encoded
/// public key: what `bitcoin::Address::p2pkh` displays as.
pub uninterp spec fn p2pkh_address(public_key: Seq<u8>) -> Seq<char>;

/// Whether `public_key` is the encoding of the public key of some private key.
pub open spec fn is_public_key_encoding(public_key: Seq<u8>) -> bool {
    exists|secret: Seq<u8>| is_valid_scalar(secret) && public_key == #[trigger] secp_public_key(secret)
}

/// The three values that make up the key material of a wallet.
pub ghost struct KeyMaterial {
    pub private_key: Seq<u8>,
    pub public_key: Seq<char>,
    pub address: Seq<char>,
}

/// The public key, as hexadecimal text, that belongs to a private key.
pub open spec fn public_key_text(secret: Seq<u8>) -> Seq<char> {
    hex_encoding(secp_public_key(secret))
}

/// The address that belongs to a private key.
pub open spec fn address_text(secret: Seq<u8>) -> Seq<char> {
    p2pkh_address(secp_public_key(secret))
}

/// The key material that follows from a private key.
pub open spec fn key_material(secret: Seq<u8>) -> KeyMaterial {
    KeyMaterial {
        private_key: secret,
        public_key: public_key_text(secret),
        address: address_text(secret),
    }
}

/// The error of rand's random sources. It is passed through unread.
#[verifier::external_type_specification]
#[verifier::external_body]
pub struct ExEntropyError(rand::Error);

/// `RngCore::try_fill_bytes` on rand's `OsRng`, applied to a fresh buffer of
/// `len` bytes. Nothing is claimed of the bytes but how many they are.
#[verifier::external_body]
pub(crate) fn os_entropy(len: usize) -> (drawn: Result<Vec<u8>, rand::Error>)
    ensures
        drawn matches Ok(bytes) ==> bytes@.len() == len,
{
    let mut buffer = vec![0u8; len];
    match rand::RngCore::try_fill_bytes(&mut rand::rngs::OsRng, &mut buffer) {
        Ok(()) => Ok(buffer),
        Err(e) => Err(e),
    }
}

/// `secp256k1::SecretKey::from_slice` succeeds exactly on thirty-two bytes
/// that are neither zero nor at or above the curve order.
#[verifier::external_body]
fn secp_accepts(bytes: &[u8]) -> (accepted: bool)
    ensures
        accepted == is_valid_scalar(bytes@),
{
    bitcoin::secp256k1::SecretKey::from_slice(bytes).is_ok()
}

/// `secp256k1::PublicKey::from_secret_key` and `serialize`: the compressed
/// encoding, thirty-three bytes, of the public key of the given private key.
#[verifier::external_body]
fn secp_derive_public_key(secret: &[u8]) -> (encoded: Vec<u8>)
    requires
        is_valid_scalar(secret@),
    ensures
        encoded@ == secp_public_key(secret@),
        encoded@.len() == PUBLIC_KEY_LENGTH,
{
    let context = bitcoin::secp256k1::Secp256k1::new();
    let key = bitcoin::secp256k1::SecretKey::from_slice(secret).expect("a valid scalar");
    bitcoin::secp256k1::PublicKey::from_secret_key(&context, &key).serialize().to_vec()
}

/// `bitcoin::Address::p2pkh` for the main network, shown as text, of the
/// public key that `public_key` encodes.
#[verifier::external_body]
fn bitcoin_p2pkh(public_key: &[u8]) -> (address: String)
    requires
        is_public_key_encoding(public_key@),
    ensures
        address@ == p2pkh_address(public_key@),
{
    let key = bitcoin::PublicKey::from_slice(public_key).expect("an encoded public key");
    bitcoin::Address::p2pkh(&key, bitcoin::Network::Bitcoin).to_string()
}

/// A private key. Every value of this type is a valid scalar.
pub struct PrivateKey {
    bytes: Vec<u8>,
}

impl View for PrivateKey {
    type V = Seq<u8>;

    closed spec fn view(&self) -> Seq<u8> {
        self.bytes@
    }
}

impl PrivateKey {
    /// What holds of every key: it is a valid scalar.
    #[verifier::type_invariant]
    pub open spec fn well_formed(self) -> bool {
        is_valid_scalar(self@)
    }

    /// Accepts exactly the byte strings that are valid scalars.
    pub fn from_bytes(bytes: &[u8]) -> (key: Result<PrivateKey, WalletError>)
        ensures
            key is Ok <==> is_valid_scalar(bytes@),
            key matches Ok(k) ==> k@ == bytes@,
            key matches Err(e) ==> e == WalletError::InvalidPrivateKey,
    {
        if secp_accepts(bytes) {
            Ok(PrivateKey { bytes: slice_to_vec(bytes) })
        } else {
            Err(WalletError::InvalidPrivateKey)
        }
    }

    /// Reads a key from hexadecimal text of sixty-four digits.
    pub fn from_hex(text: &str) -> (key: Result<PrivateKey, WalletError>)
        ensures
            key is Ok <==> is_hex(text@) && is_valid_scalar(hex_decoding(text@)),
            key matches Ok(k) ==> k@ == hex_decoding(text@),
            key matches Err(e) ==> e == WalletError::InvalidPrivateKey,
    {
        match decode_hex(text) {
            Some(bytes) => PrivateKey::from_bytes(bytes.as_slice()),
            None => Err(WalletError::InvalidPrivateKey),
        }
    }

    /// The key as sixty-four lower-case hexadecimal digits.
    pub fn to_hex(&self) -> (text: String)
        ensures
            text@ == hex_encoding(self@),
    {
        encode_hex(&self.bytes)
    }

    /// A copy of the key's bytes.
    pub fn to_bytes(&self) -> (bytes: Vec<u8>)
        ensures
            bytes@ == self@,
            is_valid_scalar(bytes@),
    {
        proof {
            use_type_invariant(self);
        }
        self.bytes.clone()
    }

    /// Whether two keys hold the same scalar.
    pub fn same_as(&self, other: &PrivateKey) -> (same: bool)
        ensures
            same == (self@ == other@),
    {
        proof {
            use_type_invariant(self);
            use_type_invariant(other);
        }
        let mut i: usize = 0;
        while i < KEY_LENGTH
            invariant
                i <= KEY_LENGTH,
                self.bytes@.len() == KEY_LENGTH,
                other.bytes@.len() == KEY_LENGTH,
                self.bytes@.take(i as int) == other.bytes@.take(i as int),
            decreases KEY_LENGTH - i,
        {
            if self.bytes[i] != other.bytes[i] {
                return false;
            }
            i += 1;
            assert(self.bytes@.take(i as int) == self.bytes@.take(i - 1).push(self.bytes@[i - 1]));
            assert(other.bytes@.take(i as int) == other.bytes@.take(i - 1).push(
                other.bytes@[i - 1],
            ));
        }
        assert(self.bytes@.take(KEY_LENGTH as int) == self.bytes@);
        assert(other.bytes@.take(KEY_LENGTH as int) == other.bytes@);
        true
    }
}

impl Clone for PrivateKey {
    fn clone(&self) -> (copy: Self)
        ensures
            copy@ == self@,
    {
        proof {
            use_type_invariant(self);
        }
        PrivateKey { bytes: self.bytes.clone() }
    }
}

/// What to do with one draw of the random source.
pub enum DrawStep {
    /// The draw is a valid scalar and is the key.
    Accept(PrivateKey),
    /// The draw is no valid scalar; another one is to be drawn.
    DrawAgain,
    /// The source could not be read, or the last draw allowed was no valid
    /// scalar either.
    GiveUp,
}

/// What a `DrawStep` says.
pub ghost enum DrawVerdict {
    Accept(Seq<u8>),
    DrawAgain,
    GiveUp,
}

impl View for DrawStep {
    type V = DrawVerdict;

    open spec fn view(&self) -> DrawVerdict {
        match *self {
            DrawStep::Accept(key) => DrawVerdict::Accept(key@),
            DrawStep::DrawAgain => DrawVerdict::DrawAgain,
            DrawStep::GiveUp => DrawVerdict::GiveUp,
        }
    }
}

/// The verdict on one draw, `None` standing for a source that could not be
/// read, when `draws_left` draws are allowed, this one included.
///
/// A valid scalar is accepted as it is. Anything else is drawn again while
/// draws are left. A source that cannot be read is given up on at once.
pub open spec fn judged(drawn: Option<Seq<u8>>, draws_left: int) -> DrawVerdict {
    match drawn {
        None => DrawVerdict::GiveUp,
        Some(bytes) => if is_valid_scalar(bytes) {
            DrawVerdict::Accept(bytes)
        } else if draws_left > 1 {
            DrawVerdict::DrawAgain
        } else {
            DrawVerdict::GiveUp
        },
    }
}

/// The key that a run of draws ends with, if it ends with one: the first
/// draw that is a valid scalar, provided the source could be read for every
/// draw before it and no more than `draws_left` draws were needed.
pub open spec fn key_of_draws(draws: Seq<Option<Seq<u8>>>, draws_left: int) -> Option<Seq<u8>>
    decreases draws.len(),
{
    if draws.len() == 0 {
        None
    } else {
        match judged(draws[0], draws_left) {
            DrawVerdict::Accept(key) => Some(key),
            DrawVerdict::DrawAgain => key_of_draws(draws.drop_first(), draws_left - 1),
            DrawVerdict::GiveUp => None,
        }
    }
}

/// Produces private keys from the operating system's random source.
pub struct KeyGenerator;

impl KeyGenerator {
    /// Decides what to do with one draw: `None` for a source that could not
    /// be read, else the bytes drawn. `draws_left` counts the draws that are
    /// allowed, this one included.
    pub fn judge_draw(drawn: Option<Vec<u8>>, draws_left: u32) -> (step: DrawStep)
        ensures
            match drawn {
                Some(bytes) => step@ == judged(Some(bytes@), draws_left as int),
                None => step@ == judged(None, draws_left as int),
            },
    {
        match drawn {
            None => DrawStep::GiveUp,
            Some(bytes) => match PrivateKey::from_bytes(bytes.as_slice()) {
                Ok(key) => DrawStep::Accept(key),
                Err(_) => {
                    if draws_left > 1 {
                        DrawStep::DrawAgain
                    } else {
                        DrawStep::GiveUp
                    }
                },
            },
        }
    }

    /// Draws a fresh private key.
    ///
    /// Candidates of thirty-two bytes are drawn and judged by `judge_draw`
    /// until one is accepted, at most `MAX_DRAWS` times. The only failure is
    /// a random source that cannot be read or that yields no valid scalar
    /// within the bound.
    pub fn generate() -> (key: Result<PrivateKey, WalletError>)
        ensures
            key matches Ok(k) ==> is_valid_scalar(k@),
            key matches Err(e) ==> e == WalletError::EntropySourceUnavailable,
    {
        let mut left: u32 = MAX_DRAWS;
        loop
            invariant
                1 <= left <= MAX_DRAWS,
            decreases left,
        {
            let drawn = match os_entropy(KEY_LENGTH) {
                Ok(bytes) => Some(bytes),
                Err(_) => None,
            };
            match KeyGenerator::judge_draw(drawn, left) {
                DrawStep::Accept(key) => {
                    proof {
                        use_type_invariant(&key);
                    }
                    return Ok(key);
                },
                DrawStep::DrawAgain => {
                    left -= 1;
                },
                DrawStep::GiveUp => {
                    return Err(WalletError::EntropySourceUnavailable);
                },
            }
        }
    }
}

/// Derives what is public of a wallet from its private key.
pub struct AddressDeriver;

impl AddressDeriver {
    /// The public key, as lower-case hexadecimal text of its compressed
    /// encoding, and the address of a private key.
    ///
    /// Both are functions of the key alone: the same key always gives the
    /// same pair.
    pub fn derive(private_key: &PrivateKey) -> (derived: (String, String))
        ensures
            derived.0@ == public_key_text(private_key@),
            derived.0@.len() == 2 * PUBLIC_KEY_LENGTH,
            derived.1@ == address_text(private_key@),
    {
        proof {
            use_type_invariant(private_key);
        }
        let encoded = secp_derive_public_key(private_key.bytes.as_slice());
        let address = bitcoin_p2pkh(encoded.as_slice());
        (encode_hex(&encoded), address)
    }
}

/// A private key together with the public key and address derived from it.
///
/// The three can only be obtained together, so a value of this type never
/// pairs a key with a public key or an address that is not its own.
pub struct KeyPair {
    private_key: PrivateKey,
    public_key: String,
    address: String,
}

impl View for KeyPair {
    type V = KeyMaterial;

    closed spec fn view(&self) -> KeyMaterial {
        KeyMaterial {
            private_key: self.private_key@,
            public_key: self.public_key@,
            address: self.address@,
        }
    }
}

impl KeyPair {
    /// What holds of every pair: the key is a valid scalar, and the public
    /// key and the address are the ones derived from it.
    #[verifier::type_invariant]
    pub open spec fn well_formed(self) -> bool {
        &&& is_valid_scalar(self@.private_key)
        &&& self@ == key_material(self@.private_key)
    }

    /// Completes a private key with its public key and address.
    pub fn from_private_key(private_key: PrivateKey) -> (pair: KeyPair)
        ensures
            pair@ == key_material(private_key@),
            is_valid_scalar(private_key@),
    {
        proof {
            use_type_invariant(&private_key);
        }
        let (public_key, address) = AddressDeriver::derive(&private_key);
        KeyPair { private_key, public_key, address }
    }

    /// Draws a fresh private key and derives its public key and address.
    ///
    /// Nothing is stored; the result depends on the random source alone.
    pub fn generate() -> (pair: Result<KeyPair, WalletError>)
        ensures
            pair matches Ok(p) ==> is_valid_scalar(p@.private_key) && p@ == key_material(
                p@.private_key,
            ),
            pair matches Err(e) ==> e == WalletError::EntropySourceUnavailable,
    {
        match KeyGenerator::generate() {
            Ok(private_key) => Ok(KeyPair::from_private_key(private_key)),
            Err(e) => Err(e),
        }
    }

    /// The private key.
    pub fn private_key(&self) -> (key: &PrivateKey)
        ensures
            key@ == self@.private_key,
            is_valid_scalar(key@),
    {
        proof {
            use_type_invariant(self);
        }
        &self.private_key
    }

    /// The public key that belongs to the private key, as hexadecimal text.
    pub fn public_key(&self) -> (text: &String)
        ensures
            text@ == self@.public_key,
            text@ == public_key_text(self@.private_key),
    {
        proof {
            use_type_invariant(self);
        }
        &self.public_key
    }

    /// The address that belongs to the private key.
    pub fn address(&self) -> (text: &String)
        ensures
            text@ == self@.address,
            text@ == address_text(self@.private_key),
    {
        proof {
            use_type_invariant(self);
        }
        &self.address
    }
}

impl Clone for KeyPair {
    fn clone(&self) -> (copy: Self)
        ensures
            copy@ == self@,
    {
        proof {
            use_type_invariant(self);
        }
        KeyPair {
            private_key: self.private_key.clone(),
            public_key: self.public_key.clone(),
            address: self.address.clone(),
        }
    }
}

} // verus!
