//! Wallet identities: key material, addresses, recovery phrases and the
//! relational rules that bind them together.
//!
//! - `keys`: private keys, and the public key and address derived from one.
//! - `mnemonic`: recovery phrases, generated and confirmed.
//! - `model`: the mathematical model of the store and its operations.
//! - `store`: the store itself, proved to follow the model.
//! - `flow`: the steps of creating a wallet against a store that answers.
//! - `wallet`: creating and importing wallets.
//! - `routes`: what requests are answered with.
//! - `laws`: what holds of the operations taken together.
//! - `error`, `hex`, `schema`, `text`: the kinds of failure, hexadecimal
//!   text, the schema as SQL, and characters of strings.

pub mod error;
pub mod flow;
pub mod hex;
pub mod keys;
pub mod laws;
pub mod mnemonic;
pub mod model;
pub mod routes;
pub mod schema;
pub mod store;
pub mod text;
pub mod wallet;
