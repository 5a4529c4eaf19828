//! Creating a wallet, one answer of the store at a time.
//!
//! Storing a new wallet takes several steps against a store: the wallet row
//! is written, then the row of its recovery phrase, then the transaction is
//! ended. What to do after each answer is decided here. Whoever talks to the
//! store opens a transaction, performs the step that the state names,
//! reports the answer, and goes on until the state is final.

use vstd::prelude::*;
use crate::error::WalletError;

verus! {

/// Where the creation of a wallet stands: the step to perform next, or how
/// it ended.
#[derive(Clone, Copy, Debug, PartialEq, Eq, Structural)]
pub enum CreateState {
    /// Write the wallet row and report its identifier.
    WriteWallet,
    /// Write the phrase row for the wallet with this identifier.
    WritePhrase { wallet_id: i32 },
    /// Commit the transaction.
    Commit { wallet_id: i32 },
    /// Roll the transaction back.
    Rollback { error: WalletError },
    /// The wallet and its phrase are stored.
    Created { wallet_id: i32 },
    /// Nothing is stored.
    Failed { error: WalletError },
}

impl CreateState {
    /// Whether nothing is left to do.
    pub open spec fn is_final(self) -> bool {
        self is Created || self is Failed
    }

    /// How many steps are left at most.
    pub open spec fn steps_left(self) -> nat {
        match self {
            CreateState::WriteWallet => 3,
            CreateState::WritePhrase { .. } => 2,
            CreateState::Commit { .. } => 1,
            CreateState::Rollback { .. } => 1,
            CreateState::Created { .. } => 0,
            CreateState::Failed { .. } => 0,
        }
    }

    /// The state after the store answered the pending step.
    ///
    /// A refused write leads to a rollback and then to failure with the
    /// error of that write, however the rollback itself went. A commit is
    /// reached only after both rows were written.
    pub open spec fn next(self, reply: Result<i32, WalletError>) -> CreateState {
        match self {
            CreateState::WriteWallet => match reply {
                Ok(id) => CreateState::WritePhrase { wallet_id: id },
                Err(error) => CreateState::Rollback { error },
            },
            CreateState::WritePhrase { wallet_id } => match reply {
                Ok(_) => CreateState::Commit { wallet_id },
                Err(error) => CreateState::Rollback { error },
            },
            CreateState::Commit { wallet_id } => match reply {
                Ok(_) => CreateState::Created { wallet_id },
                Err(error) => CreateState::Failed { error },
            },
            CreateState::Rollback { error } => CreateState::Failed { error },
            CreateState::Created { wallet_id } => CreateState::Created { wallet_id },
            CreateState::Failed { error } => CreateState::Failed { error },
        }
    }

    /// The state before anything was written.
    pub fn start() -> (state: CreateState)
        ensures
            state == CreateState::WriteWallet,
    {
        CreateState::WriteWallet
    }

    /// Takes the store's answer to the pending step: the identifier of the
    /// row that was written, any number for a step that writes no row, or
    /// the error.
    pub fn advance(self, reply: Result<i32, WalletError>) -> (next: CreateState)
        ensures
            next == self.next(reply),
            !self.is_final() ==> next.steps_left() < self.steps_left(),
    {
        match self {
            CreateState::WriteWallet => match reply {
                Ok(id) => CreateState::WritePhrase { wallet_id: id },
                Err(error) => CreateState::Rollback { error },
            },
            CreateState::WritePhrase { wallet_id } => match reply {
                Ok(_) => CreateState::Commit { wallet_id },
                Err(error) => CreateState::Rollback { error },
            },
            CreateState::Commit { wallet_id } => match reply {
                Ok(_) => CreateState::Created { wallet_id },
                Err(error) => CreateState::Failed { error },
            },
            CreateState::Rollback { error } => CreateState::Failed { error },
            CreateState::Created { wallet_id } => CreateState::Created { wallet_id },
            CreateState::Failed { error } => CreateState::Failed { error },
        }
    }

    /// Whether nothing is left to do.
    pub fn is_finished(&self) -> (finished: bool)
        ensures
            finished == self.is_final(),
    {
        match self {
            CreateState::Created { .. } | CreateState::Failed { .. } => true,
            _ => false,
        }
    }

    /// How the creation ended, once it has: the new wallet's identifier, or
    /// the error.
    pub fn outcome(&self) -> (ended: Option<Result<i32, WalletError>>)
        ensures
            ended == match *self {
                CreateState::Created { wallet_id } => Some(Ok::<i32, WalletError>(wallet_id)),
                CreateState::Failed { error } => Some(Err::<i32, WalletError>(error)),
                _ => None,
            },
    {
        match self {
            CreateState::Created { wallet_id } => Some(Ok(*wallet_id)),
            CreateState::Failed { error } => Some(Err(*error)),
            _ => None,
        }
    }
}

} // verus!
