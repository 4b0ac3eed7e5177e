//! One transaction's pass through the checks and the transfer, isolated from its siblings.
use vstd::prelude::*;

use crate::account::{apply_send, balance_of, send_outcome, Account, LedgerError, Transaction};
use crate::address::Address;
use crate::token::TokenFieldValue;
use crate::validator::{validate, validation_outcome, ValidationError};

verus! {

/// Why a transaction was dropped from its batch.
#[derive(Clone, Copy, Debug, PartialEq, Eq, Structural, Hash)]
pub enum EngineError {
    /// It failed validation before execution.
    Rejected(ValidationError),
    /// Its execution was refused.
    Failed(LedgerError),
}

/// Validates `tx` against `sender` (with `signer`, the address its signature recovers to), then
/// executes it. A transaction that fails either step changes neither account, so the rest of
/// the batch goes on unaffected.
pub fn process_send(sender: &mut Account, recipient: &mut Account, tx: &Transaction, signer: &Address) -> (r: Result<
    (TokenFieldValue, TokenFieldValue),
    EngineError,
>)
    requires
        old(sender).wf(),
        old(recipient).wf(),
    ensures
        final(sender).wf(),
        final(recipient).wf(),
        validation_outcome(*tx, *old(sender), *signer) is Err ==> r == Err::<
            (TokenFieldValue, TokenFieldValue),
            EngineError,
        >(EngineError::Rejected(validation_outcome(*tx, *old(sender), *signer)->Err_0))
            && *final(sender) == *old(sender) && *final(recipient) == *old(recipient),
        validation_outcome(*tx, *old(sender), *signer) is Ok && send_outcome(
            *old(sender),
            *old(recipient),
            *tx,
        ) is Err ==> r == Err::<(TokenFieldValue, TokenFieldValue), EngineError>(
            EngineError::Failed(send_outcome(*old(sender), *old(recipient), *tx)->Err_0),
        ) && *final(sender) == *old(sender) && *final(recipient) == *old(recipient),
        validation_outcome(*tx, *old(sender), *signer) is Ok && send_outcome(
            *old(sender),
            *old(recipient),
            *tx,
        ) is Ok ==> {
            &&& r is Ok
            &&& final(sender).nonce == old(sender).nonce + 1
            &&& balance_of(final(sender).tokens@, tx.program_id) + tx.value@ == balance_of(
                old(sender).tokens@,
                tx.program_id,
            )
            &&& balance_of(final(recipient).tokens@, tx.program_id) == balance_of(
                old(recipient).tokens@,
                tx.program_id,
            ) + tx.value@
        },
{
    match validate(tx, sender, signer) {
        Ok(()) => {},
        Err(e) => {
            return Err(EngineError::Rejected(e));
        },
    }
    match apply_send(sender, recipient, tx) {
        Ok(diffs) => Ok(diffs),
        Err(e) => Err(EngineError::Failed(e)),
    }
}

} // verus!
