//! The relational schema behind the store, as MySQL statements.
//!
//! The three tables are what `crate::model` describes in mathematical
//! terms: the unique columns of `wallets`, and the foreign keys by which
//! `mnemonics` and `transactions` refer to a wallet. No operation of this
//! library writes a transaction; the table is provided for.

use vstd::prelude::*;

verus! {

/// Creates the table of wallets.
pub const CREATE_WALLETS: &'static str = "CREATE TABLE IF NOT EXISTS wallets (
    id INT AUTO_INCREMENT PRIMARY KEY,
    name VARCHAR(50) NOT NULL UNIQUE,
    private_key VARCHAR(255) NOT NULL UNIQUE,
    public_key VARCHAR(255) NOT NULL UNIQUE,
    address VARCHAR(255) NOT NULL UNIQUE,
    created_at TIMESTAMP DEFAULT CURRENT_TIMESTAMP
)";

/// Creates the table of transactions.
pub const CREATE_TRANSACTIONS: &'static str = "CREATE TABLE IF NOT EXISTS transactions (
    id INT AUTO_INCREMENT PRIMARY KEY,
    wallet_id INT NOT NULL,
    amount DECIMAL(16, 8) NOT NULL,
    created_at TIMESTAMP DEFAULT CURRENT_TIMESTAMP,
    FOREIGN KEY (wallet_id) REFERENCES wallets(id)
)";

/// Creates the table of recovery phrases.
pub const CREATE_MNEMONICS: &'static str = "CREATE TABLE IF NOT EXISTS mnemonics (
    id INT AUTO_INCREMENT PRIMARY KEY,
    phrase TEXT NOT NULL,
    wallet_id INT NOT NULL,
    created_at TIMESTAMP DEFAULT CURRENT_TIMESTAMP,
    FOREIGN KEY (wallet_id) REFERENCES wallets(id)
)";

/// The statements that put the schema in place, in the order in which they
/// must run: the table of wallets first, since the other two refer to it.
pub fn create_statements() -> (statements: Vec<&'static str>)
    ensures
        statements@.len() == 3,
        statements@[0]@ == CREATE_WALLETS@,
        statements@[1]@ == CREATE_TRANSACTIONS@,
        statements@[2]@ == CREATE_MNEMONICS@,
{
    let mut statements: Vec<&'static str> = Vec::new();
    statements.push(CREATE_WALLETS);
    statements.push(CREATE_TRANSACTIONS);
    statements.push(CREATE_MNEMONICS);
    statements
}

} // verus!
