//! The closed set of failures that the wallet operations report.

use vstd::prelude::*;

verus! {

/// Why a wallet operation failed.
///
/// Only the kind and a fixed, safe message ever leave the library: no text
/// produced by a database driver or a random source is carried along.
#[derive(Clone, Copy, Debug, PartialEq, Eq, Structural)]
pub enum WalletError {
    /// The wallet name was empty.
    InvalidName,
    /// The operating system's random source could not be read.
    EntropySourceUnavailable,
    /// The supplied private key is not a well-formed scalar of the curve.
    InvalidPrivateKey,
    /// The name, key or address is already taken by another wallet.
    DuplicateIdentity,
    /// No wallet matches the request.
    WalletNotFound,
    /// The wallet exists but has no recovery phrase on record.
    MnemonicNotFound,
    /// The store could not serve the request.
    StoreUnavailable,
}

/// The number by which a MySQL server reports a duplicate value in a unique
/// column.
pub const DUPLICATE_ENTRY: u16 = 1062;

/// The number by which a MySQL server reports a row that refers to a
/// parent row that does not exist.
pub const MISSING_PARENT_ROW: u16 = 1216;

/// The number by which newer MySQL servers report the same, naming the
/// constraint.
pub const MISSING_PARENT_ROW_2: u16 = 1452;

impl WalletError {
    /// The kind of error that a failed write stands for, by the number that
    /// the database server reported.
    pub open spec fn of_server_code(code: u16) -> WalletError {
        if code == DUPLICATE_ENTRY {
            WalletError::DuplicateIdentity
        } else if code == MISSING_PARENT_ROW || code == MISSING_PARENT_ROW_2 {
            WalletError::WalletNotFound
        } else {
            WalletError::StoreUnavailable
        }
    }

    /// Classifies a failure that a database reported for a write.
    ///
    /// `code` is the server's error number, or `None` when the failure never
    /// reached the server, as when no connection could be had. A duplicate
    /// value is a `DuplicateIdentity`, a missing parent row a
    /// `WalletNotFound`, and everything else a `StoreUnavailable`. The
    /// server's message is not looked at and goes nowhere.
    pub fn from_store_failure(code: Option<u16>) -> (error: WalletError)
        ensures
            error == match code {
                Some(number) => WalletError::of_server_code(number),
                None => WalletError::StoreUnavailable,
            },
    {
        match code {
            Some(number) => {
                if number == DUPLICATE_ENTRY {
                    WalletError::DuplicateIdentity
                } else if number == MISSING_PARENT_ROW || number == MISSING_PARENT_ROW_2 {
                    WalletError::WalletNotFound
                } else {
                    WalletError::StoreUnavailable
                }
            },
            None => WalletError::StoreUnavailable,
        }
    }

    /// The discriminator that a structured error payload carries.
    pub open spec fn kind_text(self) -> Seq<char> {
        match self {
            WalletError::InvalidName => "InvalidName"@,
            WalletError::EntropySourceUnavailable => "EntropySourceUnavailable"@,
            WalletError::InvalidPrivateKey => "InvalidPrivateKey"@,
            WalletError::DuplicateIdentity => "DuplicateIdentity"@,
            WalletError::WalletNotFound => "WalletNotFound"@,
            WalletError::MnemonicNotFound => "MnemonicNotFound"@,
            WalletError::StoreUnavailable => "StoreUnavailable"@,
        }
    }

    /// The fixed message shown to an outside caller for each kind.
    pub open spec fn message_text(self) -> Seq<char> {
        match self {
            WalletError::InvalidName => "wallet name must not be empty"@,
            WalletError::EntropySourceUnavailable => "secure random source is unavailable"@,
            WalletError::InvalidPrivateKey => "private key is not a valid key"@,
            WalletError::DuplicateIdentity => "a wallet with this name or key already exists"@,
            WalletError::WalletNotFound => "wallet not found"@,
            WalletError::MnemonicNotFound => "mnemonic not found for the wallet"@,
            WalletError::StoreUnavailable => "wallet store is unavailable"@,
        }
    }

    /// The HTTP status that each kind maps to at the request boundary.
    pub open spec fn status_code(self) -> u16 {
        match self {
            WalletError::InvalidName => 400,
            WalletError::InvalidPrivateKey => 400,
            WalletError::DuplicateIdentity => 409,
            WalletError::WalletNotFound => 404,
            WalletError::MnemonicNotFound => 404,
            WalletError::EntropySourceUnavailable => 503,
            WalletError::StoreUnavailable => 503,
        }
    }

    /// The discriminator of this kind.
    pub fn kind(&self) -> (text: &'static str)
        ensures
            text@ == self.kind_text(),
    {
        match self {
            WalletError::InvalidName => "InvalidName",
            WalletError::EntropySourceUnavailable => "EntropySourceUnavailable",
            WalletError::InvalidPrivateKey => "InvalidPrivateKey",
            WalletError::DuplicateIdentity => "DuplicateIdentity",
            WalletError::WalletNotFound => "WalletNotFound",
            WalletError::MnemonicNotFound => "MnemonicNotFound",
            WalletError::StoreUnavailable => "StoreUnavailable",
        }
    }

    /// The fixed message of this kind.
    pub fn message(&self) -> (text: &'static str)
        ensures
            text@ == self.message_text(),
    {
        match self {
            WalletError::InvalidName => "wallet name must not be empty",
            WalletError::EntropySourceUnavailable => "secure random source is unavailable",
            WalletError::InvalidPrivateKey => "private key is not a valid key",
            WalletError::DuplicateIdentity => "a wallet with this name or key already exists",
            WalletError::WalletNotFound => "wallet not found",
            WalletError::MnemonicNotFound => "mnemonic not found for the wallet",
            WalletError::StoreUnavailable => "wallet store is unavailable",
        }
    }

    /// The HTTP status of this kind.
    pub fn status(&self) -> (code: u16)
        ensures
            code == self.status_code(),
    {
        match self {
            WalletError::InvalidName | WalletError::InvalidPrivateKey => 400,
            WalletError::DuplicateIdentity => 409,
            WalletError::WalletNotFound | WalletError::MnemonicNotFound => 404,
            WalletError::EntropySourceUnavailable | WalletError::StoreUnavailable => 503,
        }
    }

    /// True for the kinds that a caller may retry unchanged: only a store
    /// that was unavailable. A failed random source is fatal to the request.
    pub fn is_transient(&self) -> (transient: bool)
        ensures
            transient == (*self == WalletError::StoreUnavailable),
    {
        match self {
            WalletError::StoreUnavailable => true,
            _ => false,
        }
    }
}

} // verus!
