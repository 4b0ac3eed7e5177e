//! Read-only checks of a transaction against an account and a token.
use vstd::prelude::*;

use crate::account::{balance_of, nonce_of, send_outcome, Account, LedgerError, Transaction};
use crate::address::Address;
use crate::amount::U256;
use crate::token::{amount_of, entries_view, find_key, Token};

verus! {

/// Why a transaction failed validation.
#[derive(Clone, Copy, Debug, PartialEq, Eq, Structural, Hash)]
pub enum ValidationError {
    /// The signature does not recover to the sender.
    BadSignature,
    /// The nonce is not the successor of the account's nonce.
    BadNonce,
    /// The sender holds less than the value of the program.
    InsufficientBalance,
    /// The amount exceeds what the allowance records.
    InsufficientAllowance,
}

/// What `validate` answers: the first check, in order, that fails.
pub open spec fn validation_outcome(tx: Transaction, account: Account, signer: Address) -> Result<
    (),
    ValidationError,
> {
    if signer != tx.from {
        Err(ValidationError::BadSignature)
    } else if nonce_of(tx.transaction_type) != account.nonce + 1 {
        Err(ValidationError::BadNonce)
    } else if tx.value@ > balance_of(account.tokens@, tx.program_id) {
        Err(ValidationError::InsufficientBalance)
    } else {
        Ok(())
    }
}

/// Checks `tx` against the snapshot `account`: that `signer`, the address its signature
/// recovers to, is its sender; that its nonce follows the account's; that the account holds its
/// value.
pub fn validate(tx: &Transaction, account: &Account, signer: &Address) -> (r: Result<(), ValidationError>)
    requires
        account.wf(),
    ensures
        r == validation_outcome(*tx, *account, *signer),
{
    if *signer != tx.from {
        return Err(ValidationError::BadSignature);
    }
    if account.nonce == u64::MAX || tx.nonce() != account.nonce + 1 {
        return Err(ValidationError::BadNonce);
    }
    match account.validate_balance(&tx.program_id, tx.value) {
        Ok(()) => Ok(()),
        Err(_) => Err(ValidationError::InsufficientBalance),
    }
}

/// `Ok` exactly where `spender` may still take `amount` from the allowance of `token`.
pub fn validate_allowance(token: &Token, spender: &Address, amount: &U256) -> (r: Result<(), ValidationError>)
    requires
        token.wf(),
    ensures
        r is Ok <==> amount@ <= amount_of(token@.allowance, *spender),
        r is Err ==> r == Err::<(), ValidationError>(ValidationError::InsufficientAllowance),
{
    match find_key(&token.allowance, *spender) {
        Some(i) => if amount.le(&token.allowance[i].1) {
            Ok(())
        } else {
            Err(ValidationError::InsufficientAllowance)
        },
        None => if amount.is_zero() {
            Ok(())
        } else {
            Err(ValidationError::InsufficientAllowance)
        },
    }
}

/// A transaction whose nonce is not above the sender's nonce is refused.
pub proof fn lemma_stale_nonce_refused(s: Account, r: Account, tx: Transaction)
    requires
        tx.from == s.address,
        tx.to == r.address,
        nonce_of(tx.transaction_type) <= s.nonce,
    ensures
        send_outcome(s, r, tx) == Err::<(), LedgerError>(LedgerError::BadNonce),
        validation_outcome(tx, s, tx.from) == Err::<(), ValidationError>(ValidationError::BadNonce),
{
}

/// Once a transaction has been applied and the sender's nonce advanced, the same transaction is
/// refused: it executes once.
pub proof fn lemma_applied_once(s: Account, r: Account, tx: Transaction, s2: Account, r2: Account)
    requires
        send_outcome(s, r, tx) is Ok,
        s2.address == s.address,
        s2.nonce == s.nonce + 1,
        r2.address == r.address,
    ensures
        send_outcome(s2, r2, tx) == Err::<(), LedgerError>(LedgerError::BadNonce),
{
}

} // verus!
