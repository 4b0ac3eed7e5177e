//! Signed transactions, accounts, and the transfer that moves value between two accounts.
use vstd::prelude::*;

use crate::address::{Address, Digest};
use crate::amount::{u256_max, U256};
use crate::graph::{copy_token, replay_spec};
use crate::token::{BalanceValue, DiffError, Status, Token, TokenFieldValue, TokenState, apply_spec};

verus! {

/// A recoverable signature over a payload hash, as bytes.
#[derive(Clone, Debug, PartialEq, Eq, Hash)]
pub struct RecoverableSignature(pub Vec<u8>);

/// What a transaction does, with the sender's nonce.
#[derive(Clone, Copy, Debug, PartialEq, Eq, Structural, Hash)]
pub enum TransactionType {
    Send(u64),
    Call(u64),
}

/// An immutable signed transaction; `digest` is its identity.
#[derive(Clone, Debug, PartialEq, Eq, Hash)]
pub struct Transaction {
    pub transaction_type: TransactionType,
    pub from: Address,
    pub to: Address,
    pub program_id: Address,
    pub inputs: Vec<u8>,
    pub value: U256,
    pub digest: Digest,
    pub sig: RecoverableSignature,
}

pub open spec fn nonce_of(t: TransactionType) -> u64 {
    match t {
        TransactionType::Send(n) => n,
        TransactionType::Call(n) => n,
    }
}

impl Transaction {
    pub fn nonce(&self) -> (r: u64)
        ensures
            r == nonce_of(self.transaction_type),
    {
        match self.transaction_type {
            TransactionType::Send(n) => n,
            TransactionType::Call(n) => n,
        }
    }
}

/// An account: its address, the nonce of the last applied transaction, and one token per
/// program.
#[derive(Clone, Debug, PartialEq, Eq, Hash)]
pub struct Account {
    pub address: Address,
    pub nonce: u64,
    pub tokens: Vec<Token>,
}

pub open spec fn has_program(ts: Seq<Token>, p: Address) -> bool {
    exists|i: int| 0 <= i < ts.len() && ts[i].program_id == p
}

pub open spec fn program_index(ts: Seq<Token>, p: Address) -> int {
    choose|i: int| 0 <= i < ts.len() && ts[i].program_id == p
}

/// The balance of program `p`; zero where the account holds no token of it.
pub open spec fn balance_of(ts: Seq<Token>, p: Address) -> nat {
    if has_program(ts, p) {
        ts[program_index(ts, p)].balance@
    } else {
        0
    }
}

/// The state of the token of `p`, where there is one.
pub open spec fn token_state_of(ts: Seq<Token>, p: Address) -> TokenState {
    ts[program_index(ts, p)]@
}

/// Why a transaction was refused.
#[derive(Clone, Copy, Debug, PartialEq, Eq, Structural, Hash)]
pub enum LedgerError {
    /// The transaction's sender is not this account.
    WrongSender,
    /// The transaction's recipient is not this account.
    WrongRecipient,
    /// The nonce is not the successor of the account's nonce.
    BadNonce,
    /// The diff on a token was refused.
    Diff(DiffError),
    /// A token handed back belongs to another owner or program.
    WrongToken,
}

impl Account {
    /// A fresh account: nonce zero, no tokens.
    pub fn new(address: Address) -> (r: Account)
        ensures
            r.address == address,
            r.nonce == 0,
            r.tokens@.len() == 0,
            r.wf(),
    {
        Account { address, nonce: 0, tokens: Vec::new() }
    }

    /// Each token is well formed and owned by this account, and no program has two tokens.
    pub open spec fn wf(&self) -> bool {
        &&& forall|i: int| 0 <= i < self.tokens@.len() ==> #[trigger] self.tokens@[i].wf()
        &&& forall|i: int|
            0 <= i < self.tokens@.len() ==> #[trigger] self.tokens@[i].owner_id == self.address
        &&& forall|i: int, j: int|
            0 <= i < j < self.tokens@.len() ==> self.tokens@[i].program_id
                != self.tokens@[j].program_id
    }

    pub fn nonce(&self) -> (r: u64)
        ensures
            r == self.nonce,
    {
        self.nonce
    }

    /// Where the token of `p` stands.
    pub fn find_token(&self, p: Address) -> (r: Option<usize>)
        requires
            self.wf(),
        ensures
            match r {
                Some(i) => i < self.tokens@.len() && has_program(self.tokens@, p) && program_index(
                    self.tokens@,
                    p,
                ) == i,
                None => !has_program(self.tokens@, p),
            },
    {
        let mut i: usize = 0;
        while i < self.tokens.len()
            invariant
                self.wf(),
                i <= self.tokens@.len(),
                forall|j: int| 0 <= j < i ==> self.tokens@[j].program_id != p,
            decreases self.tokens@.len() - i,
        {
            if self.tokens[i].program_id == p {
                proof {
                    assert(has_program(self.tokens@, p));
                    let k = program_index(self.tokens@, p);
                    if k < i as int {
                        assert(self.tokens@[k].program_id != p);
                    } else if k > i as int {
                        assert(self.tokens@[i as int].program_id != self.tokens@[k].program_id);
                    }
                }
                return Some(i);
            }
            i = i + 1;
        }
        None
    }

    /// `Ok` exactly where the account holds at least `value` of program `p`.
    pub fn validate_balance(&self, p: &Address, value: U256) -> (r: Result<(), LedgerError>)
        requires
            self.wf(),
        ensures
            r is Ok <==> value@ <= balance_of(self.tokens@, *p),
            r is Err ==> r == Err::<(), LedgerError>(LedgerError::Diff(DiffError::InsufficientBalance)),
    {
        match self.find_token(*p) {
            Some(i) => if value.le(&self.tokens[i].balance) {
                Ok(())
            } else {
                Err(LedgerError::Diff(DiffError::InsufficientBalance))
            },
            None => if value.is_zero() {
                Ok(())
            } else {
                Err(LedgerError::Diff(DiffError::InsufficientBalance))
            },
        }
    }
}

/// What sending `tx` from `s` to `r` comes to: `Ok`, or the first reason it is refused.
pub open spec fn send_outcome(s: Account, r: Account, tx: Transaction) -> Result<(), LedgerError> {
    let p = tx.program_id;
    let debit = TokenFieldValue::Balance(BalanceValue::Debit(tx.value));
    let credit = TokenFieldValue::Balance(BalanceValue::Credit(tx.value));
    if tx.from != s.address {
        Err(LedgerError::WrongSender)
    } else if tx.to != r.address {
        Err(LedgerError::WrongRecipient)
    } else if nonce_of(tx.transaction_type) != s.nonce + 1 {
        Err(LedgerError::BadNonce)
    } else if !has_program(s.tokens@, p) {
        Err(LedgerError::Diff(DiffError::NotFound))
    } else if apply_spec(token_state_of(s.tokens@, p), debit) is Err {
        Err(LedgerError::Diff(apply_spec(token_state_of(s.tokens@, p), debit)->Err_0))
    } else if has_program(r.tokens@, p) && apply_spec(token_state_of(r.tokens@, p), credit) is Err {
        Err(LedgerError::Diff(apply_spec(token_state_of(r.tokens@, p), credit)->Err_0))
    } else {
        Ok(())
    }
}


/// Programs are unique in `ts`.
pub open spec fn programs_unique(ts: Seq<Token>) -> bool {
    forall|i: int, j: int| 0 <= i < j < ts.len() ==> ts[i].program_id != ts[j].program_id
}

/// Replacing a token by one of the same program keeps where each program stands.
proof fn lemma_update_same_program(ts: Seq<Token>, i: int, t: Token, q: Address)
    requires
        programs_unique(ts),
        0 <= i < ts.len(),
        t.program_id == ts[i].program_id,
    ensures
        programs_unique(ts.update(i, t)),
        has_program(ts.update(i, t), q) == has_program(ts, q),
        has_program(ts, q) ==> program_index(ts.update(i, t), q) == program_index(ts, q),
{
    let us = ts.update(i, t);
    if has_program(ts, q) {
        let k = program_index(ts, q);
        assert(us[k].program_id == q);
        assert(has_program(us, q));
        let k2 = program_index(us, q);
        if k2 != k {
            if k2 < k {
                assert(us[k2].program_id != us[k].program_id);
            } else {
                assert(us[k].program_id != us[k2].program_id);
            }
        }
    }
    if has_program(us, q) {
        let k2 = program_index(us, q);
        assert(ts[k2].program_id == q);
    }
}

/// Appending a token of a new program keeps where each other program stands.
proof fn lemma_push_new_program(ts: Seq<Token>, t: Token, q: Address)
    requires
        programs_unique(ts),
        !has_program(ts, t.program_id),
    ensures
        programs_unique(ts.push(t)),
        has_program(ts.push(t), t.program_id),
        program_index(ts.push(t), t.program_id) == ts.len(),
        q != t.program_id ==> has_program(ts.push(t), q) == has_program(ts, q),
        q != t.program_id && has_program(ts, q) ==> program_index(ts.push(t), q) == program_index(
            ts,
            q,
        ),
{
    let us = ts.push(t);
    assert forall|i: int, j: int| 0 <= i < j < us.len() implies us[i].program_id
        != us[j].program_id by {
        if j == ts.len() {
            assert(ts[i].program_id != t.program_id);
        }
    }
    assert(us[ts.len() as int].program_id == t.program_id);
    assert(has_program(us, t.program_id));
    let k = program_index(us, t.program_id);
    if k < ts.len() {
        assert(ts[k].program_id == t.program_id);
    }
    if q != t.program_id {
        if has_program(ts, q) {
            let a = program_index(ts, q);
            assert(us[a].program_id == q);
            let b = program_index(us, q);
            if b != a {
                if b < a {
                    assert(us[b].program_id != us[a].program_id);
                } else {
                    assert(us[a].program_id != us[b].program_id);
                }
            }
        }
        if has_program(us, q) {
            let b = program_index(us, q);
            assert(b < ts.len());
            assert(ts[b].program_id == q);
        }
    }
}

impl Account {
    /// Records a send this account made: `token`, its token of the program as the node
    /// returned it, takes the place of the account's own, and the nonce advances.
    pub fn apply_send_transaction(&mut self, tx: &Transaction, token: Token) -> (r: Result<
        (),
        LedgerError,
    >)
        requires
            old(self).wf(),
            token.wf(),
        ensures
            final(self).wf(),
            tx.from != old(self).address ==> r == Err::<(), LedgerError>(LedgerError::WrongSender)
                && *final(self) == *old(self),
            tx.from == old(self).address && nonce_of(tx.transaction_type) != old(self).nonce + 1
                ==> r == Err::<(), LedgerError>(LedgerError::BadNonce) && *final(self) == *old(self),
            tx.from == old(self).address && nonce_of(tx.transaction_type) == old(self).nonce + 1 && (
            token.owner_id != old(self).address || token.program_id != tx.program_id) ==> r
                == Err::<(), LedgerError>(LedgerError::WrongToken) && *final(self) == *old(self),
            tx.from == old(self).address && nonce_of(tx.transaction_type) == old(self).nonce + 1
                && token.owner_id == old(self).address && token.program_id == tx.program_id ==> {
                &&& r is Ok
                &&& final(self).address == old(self).address
                &&& final(self).nonce == old(self).nonce + 1
                &&& has_program(final(self).tokens@, tx.program_id)
                &&& token_state_of(final(self).tokens@, tx.program_id) == token@
                &&& forall|q: Address|
                    q != tx.program_id ==> balance_of(final(self).tokens@, q) == balance_of(
                        old(self).tokens@,
                        q,
                    )
            },
    {
        if tx.from != self.address {
            return Err(LedgerError::WrongSender);
        }
        if self.nonce == u64::MAX || tx.nonce() != self.nonce + 1 {
            return Err(LedgerError::BadNonce);
        }
        if token.owner_id != self.address || token.program_id != tx.program_id {
            return Err(LedgerError::WrongToken);
        }
        let p = tx.program_id;
        let ghost t0 = self.tokens@;
        let ghost tk = token;
        match self.find_token(p) {
            Some(i) => {
                self.tokens.set(i, token);
                proof {
                    assert forall|q: Address| true implies has_program(self.tokens@, q)
                        == has_program(t0, q) && (has_program(t0, q) ==> program_index(
                        self.tokens@,
                        q,
                    ) == program_index(t0, q)) by {
                        lemma_update_same_program(t0, i as int, tk, q);
                    }
                }
            },
            None => {
                self.tokens.push(token);
                proof {
                    assert forall|q: Address| true implies (q != p ==> has_program(self.tokens@, q)
                        == has_program(t0, q)) && (q != p && has_program(t0, q) ==> program_index(
                        self.tokens@,
                        q,
                    ) == program_index(t0, q)) by {
                        lemma_push_new_program(t0, tk, q);
                    }
                    lemma_push_new_program(t0, tk, p);
                }
            },
        }
        self.nonce = self.nonce + 1;
        Ok(())
    }
}

/// A diff keeps the program and the owner of a token.
proof fn lemma_apply_keeps_ids(t: TokenState, d: TokenFieldValue)
    ensures
        apply_spec(t, d) is Ok ==> apply_spec(t, d)->Ok_0.program_id == t.program_id && apply_spec(
            t,
            d,
        )->Ok_0.owner_id == t.owner_id,
{
    reveal(apply_spec);
}

/// Applies `ds` in order to `t`; where one is refused, `t` is left as it was.
fn apply_deltas(t: &mut Token, ds: &Vec<TokenFieldValue>) -> (r: Result<(), DiffError>)
    requires
        old(t).wf(),
    ensures
        final(t).wf(),
        final(t).program_id == old(t).program_id,
        final(t).owner_id == old(t).owner_id,
        match replay_spec(old(t)@, ds@) {
            Ok(s) => r is Ok && final(t)@ == s,
            Err(e) => r == Err::<(), DiffError>(e),
        },
{
    let mut c = copy_token(t);
    let ghost start = t@;
    let mut k: usize = 0;
    assert(ds@.subrange(0, 0) =~= Seq::<TokenFieldValue>::empty());
    while k < ds.len()
        invariant
            k <= ds@.len(),
            *t == *old(t),
            t.wf(),
            start == old(t)@,
            c.wf(),
            c.program_id == start.program_id,
            c.owner_id == start.owner_id,
            replay_spec(start, ds@.subrange(0, k as int)) == Ok::<TokenState, DiffError>(c@),
        decreases ds@.len() - k,
    {
        assert(ds@.subrange(0, k + 1).drop_last() =~= ds@.subrange(0, k as int));
        assert(ds@.subrange(0, k + 1).last() == ds@[k as int]);
        let ghost before = c@;
        proof {
            lemma_apply_keeps_ids(before, ds@[k as int]);
        }
        match c.apply(&ds[k]) {
            Ok(()) => {},
            Err(e) => {
                proof {
                    crate::graph::lemma_replay_chain(
                        start,
                        ds@.subrange(0, k + 1),
                        ds@.subrange(k + 1, ds@.len() as int),
                    );
                    assert(ds@.subrange(0, k + 1) + ds@.subrange(k + 1, ds@.len() as int) =~= ds@);
                }
                return Err(e);
            },
        }
        k = k + 1;
    }
    assert(ds@.subrange(0, ds@.len() as int) =~= ds@);
    *t = c;
    Ok(())
}

/// The state of the token of `p` before a call: the account's own, or an empty one.
pub open spec fn start_state(acct: Account, p: Address) -> TokenState {
    if has_program(acct.tokens@, p) {
        token_state_of(acct.tokens@, p)
    } else {
        TokenState {
            program_id: p,
            owner_id: acct.address,
            balance: 0,
            metadata: Seq::empty(),
            token_ids: Seq::empty(),
            allowance: Seq::empty(),
            approvals: Seq::empty(),
            data: Seq::empty(),
            status: Status::Free,
        }
    }
}

impl Account {
    /// Records a call this account made: `deltas`, as the node returned them, are applied in
    /// order to its token of `tx.program_id` (an empty one where it has none), and the nonce
    /// advances. Where one delta is refused, nothing changes.
    pub fn apply_call_transaction(&mut self, tx: &Transaction, deltas: &Vec<TokenFieldValue>) -> (r:
        Result<(), LedgerError>)
        requires
            old(self).wf(),
        ensures
            final(self).wf(),
            tx.from != old(self).address ==> r == Err::<(), LedgerError>(LedgerError::WrongSender)
                && *final(self) == *old(self),
            tx.from == old(self).address && nonce_of(tx.transaction_type) != old(self).nonce + 1
                ==> r == Err::<(), LedgerError>(LedgerError::BadNonce) && *final(self) == *old(self),
            tx.from == old(self).address && nonce_of(tx.transaction_type) == old(self).nonce + 1
                ==> match replay_spec(start_state(*old(self), tx.program_id), deltas@) {
                Err(e) => r == Err::<(), LedgerError>(LedgerError::Diff(e)) && *final(self) == *old(self),
                Ok(s) => {
                    &&& r is Ok
                    &&& final(self).address == old(self).address
                    &&& final(self).nonce == old(self).nonce + 1
                    &&& has_program(final(self).tokens@, tx.program_id)
                    &&& token_state_of(final(self).tokens@, tx.program_id) == s
                },
            },
    {
        if tx.from != self.address {
            return Err(LedgerError::WrongSender);
        }
        if self.nonce == u64::MAX || tx.nonce() != self.nonce + 1 {
            return Err(LedgerError::BadNonce);
        }
        let p = tx.program_id;
        let found = self.find_token(p);
        let mut t = match found {
            Some(i) => copy_token(&self.tokens[i]),
            None => Token::new(p, self.address),
        };
        let ghost start = t@;
        assert(start == start_state(*self, p));
        match apply_deltas(&mut t, deltas) {
            Ok(()) => {},
            Err(e) => {
                return Err(LedgerError::Diff(e));
            },
        }
        let ghost t0 = self.tokens@;
        let ghost tk = t;
        match found {
            Some(i) => {
                self.tokens.set(i, t);
                proof {
                    lemma_update_same_program(t0, i as int, tk, p);
                }
            },
            None => {
                self.tokens.push(t);
                proof {
                    lemma_push_new_program(t0, tk, p);
                }
            },
        }
        self.nonce = self.nonce + 1;
        Ok(())
    }
}

/// The unsigned part of a transaction, ready to be hashed and signed.
#[derive(Clone, Debug, PartialEq, Eq, Hash)]
pub struct Payload {
    pub transaction_type: TransactionType,
    pub from: Address,
    pub to: Address,
    pub program_id: Address,
    pub inputs: Vec<u8>,
    pub value: U256,
}

/// The `k` low bytes of `n`, most significant first.
pub open spec fn be_bytes(n: nat, k: nat) -> Seq<u8>
    decreases k,
{
    if k == 0 {
        Seq::empty()
    } else {
        be_bytes(n / 256, (k - 1) as nat).push((n % 256) as u8)
    }
}

/// The bytes that are hashed and signed: a tag (0 for a send, 1 for a call), the nonce in eight
/// bytes, the three addresses, the value in thirty-two bytes, then the inputs.
pub open spec fn payload_bytes(p: Payload) -> Seq<u8> {
    let (tag, nonce) = match p.transaction_type {
        TransactionType::Send(n) => (0u8, n),
        TransactionType::Call(n) => (1u8, n),
    };
    seq![tag] + be_bytes(nonce as nat, 8) + p.from.0@ + p.to.0@ + p.program_id.0@ + be_bytes(
        p.value.hi as nat,
        16,
    ) + be_bytes(p.value.lo as nat, 16) + p.inputs@
}

fn push_be(out: &mut Vec<u8>, n: u128, k: usize)
    ensures
        final(out)@ == old(out)@ + be_bytes(n as nat, k as nat),
    decreases k,
{
    if k > 0 {
        push_be(out, n / 256, k - 1);
        out.push((n % 256) as u8);
        assert(final(out)@ =~= old(out)@ + be_bytes(n as nat, k as nat)) by {
            assert((n / 256) as nat == (n as nat) / 256);
        }
    } else {
        assert(out@ =~= old(out)@ + be_bytes(n as nat, 0));
    }
}

fn push_all(out: &mut Vec<u8>, b: &[u8])
    ensures
        final(out)@ == old(out)@ + b@,
{
    let ghost o0 = out@;
    let mut i: usize = 0;
    while i < b.len()
        invariant
            i <= b@.len(),
            out@ == o0 + b@.subrange(0, i as int),
        decreases b@.len() - i,
    {
        out.push(b[i]);
        i = i + 1;
        assert(out@ =~= o0 + b@.subrange(0, i as int));
    }
    assert(b@.subrange(0, b@.len() as int) =~= b@);
}

impl Payload {
    /// The bytes that are hashed and signed.
    pub fn encode(&self) -> (r: Vec<u8>)
        ensures
            r@ == payload_bytes(*self),
    {
        let mut out: Vec<u8> = Vec::new();
        let (tag, nonce) = match self.transaction_type {
            TransactionType::Send(n) => (0u8, n),
            TransactionType::Call(n) => (1u8, n),
        };
        out.push(tag);
        push_be(&mut out, nonce as u128, 8);
        push_all(&mut out, self.from.0.as_slice());
        push_all(&mut out, self.to.0.as_slice());
        push_all(&mut out, self.program_id.0.as_slice());
        push_be(&mut out, self.value.hi, 16);
        push_be(&mut out, self.value.lo, 16);
        push_all(&mut out, self.inputs.as_slice());
        assert(out@ =~= payload_bytes(*self));
        out
    }
}

/// The inputs of a call: the operation's name, a zero byte, then its arguments.
pub open spec fn call_inputs(op: Seq<u8>, args: Seq<u8>) -> Seq<u8> {
    op + seq![0u8] + args
}

/// What a payload from `account` must satisfy before it is built: the account holds `value`
/// of the program, and its nonce can still advance.
pub open spec fn prepare_outcome(account: Account, program_id: Address, value: U256) -> Result<(), LedgerError> {
    if value@ > balance_of(account.tokens@, program_id) {
        Err(LedgerError::Diff(DiffError::InsufficientBalance))
    } else if account.nonce == u64::MAX {
        Err(LedgerError::BadNonce)
    } else {
        Ok(())
    }
}

/// The payload of a transfer of `value` of `program_id` from `account` to `to`, carrying the
/// successor of the account's nonce.
pub fn prepare_send(account: &Account, to: Address, program_id: Address, value: U256) -> (r: Result<
    Payload,
    LedgerError,
>)
    requires
        account.wf(),
    ensures
        match prepare_outcome(*account, program_id, value) {
            Err(e) => r == Err::<Payload, LedgerError>(e),
            Ok(()) => r is Ok && {
                let p = r->Ok_0;
                &&& p.transaction_type == TransactionType::Send((account.nonce + 1) as u64)
                &&& p.from == account.address
                &&& p.to == to
                &&& p.program_id == program_id
                &&& p.inputs@ == Seq::<u8>::empty()
                &&& p.value == value
            },
        },
{
    if account.validate_balance(&program_id, value).is_err() {
        return Err(LedgerError::Diff(DiffError::InsufficientBalance));
    }
    if account.nonce == u64::MAX {
        return Err(LedgerError::BadNonce);
    }
    Ok(Payload {
        transaction_type: TransactionType::Send(account.nonce + 1),
        from: account.address,
        to,
        program_id,
        inputs: Vec::new(),
        value,
    })
}

/// The payload of a call of operation `op` with arguments `args` on `program_id`, from
/// `account` to `to`, carrying the successor of the account's nonce.
pub fn prepare_call(
    account: &Account,
    program_id: Address,
    to: Address,
    value: U256,
    op: &Vec<u8>,
    args: &Vec<u8>,
) -> (r: Result<Payload, LedgerError>)
    requires
        account.wf(),
    ensures
        match prepare_outcome(*account, program_id, value) {
            Err(e) => r == Err::<Payload, LedgerError>(e),
            Ok(()) => r is Ok && {
                let p = r->Ok_0;
                &&& p.transaction_type == TransactionType::Call((account.nonce + 1) as u64)
                &&& p.from == account.address
                &&& p.to == to
                &&& p.program_id == program_id
                &&& p.inputs@ == call_inputs(op@, args@)
                &&& p.value == value
            },
        },
{
    if account.validate_balance(&program_id, value).is_err() {
        return Err(LedgerError::Diff(DiffError::InsufficientBalance));
    }
    if account.nonce == u64::MAX {
        return Err(LedgerError::BadNonce);
    }
    let mut inputs: Vec<u8> = Vec::new();
    crate::token::extend_bytes(&mut inputs, op);
    inputs.push(0u8);
    crate::token::extend_bytes(&mut inputs, args);
    assert(inputs@ =~= call_inputs(op@, args@));
    Ok(Payload {
        transaction_type: TransactionType::Call(account.nonce + 1),
        from: account.address,
        to,
        program_id,
        inputs,
        value,
    })
}

/// How many steps of a run applied a transaction.
pub open spec fn count_applied(applied: Seq<bool>) -> nat
    decreases applied.len(),
{
    if applied.len() == 0 {
        0
    } else {
        count_applied(applied.drop_last()) + if applied.last() {
            1nat
        } else {
            0nat
        }
    }
}

/// One step of an account's history as `apply_send`, `apply_send_transaction` and
/// `apply_call_transaction` make it: the nonce advances by one where the transaction was applied
/// and stays where it was refused.
pub open spec fn nonce_step(before: Account, after: Account, applied: bool) -> bool {
    after.nonce == before.nonce + if applied {
        1int
    } else {
        0int
    }
}

/// Over any run of steps, the nonce grows by the number of transactions applied: an account
/// that starts at nonce zero has as its nonce the count of transactions applied to it.
pub proof fn lemma_nonce_counts_applied(states: Seq<Account>, applied: Seq<bool>)
    requires
        states.len() == applied.len() + 1,
        forall|i: int| 0 <= i < applied.len() ==> nonce_step(states[i], states[i + 1], #[trigger] applied[i]),
    ensures
        states.last().nonce == states[0].nonce + count_applied(applied),
    decreases applied.len(),
{
    if applied.len() > 0 {
        let n = applied.len() - 1;
        lemma_nonce_counts_applied(states.drop_last(), applied.drop_last());
        assert(nonce_step(states[n], states[n + 1], applied[n]));
    }
}

/// Moves `tx.value` of `tx.program_id` from `sender` to `recipient` and advances the sender's
/// nonce. Nothing changes unless every check passes; on success the two balance diffs applied
/// are returned, the sender's first.
pub fn apply_send(sender: &mut Account, recipient: &mut Account, tx: &Transaction) -> (r: Result<
    (TokenFieldValue, TokenFieldValue),
    LedgerError,
>)
    requires
        old(sender).wf(),
        old(recipient).wf(),
    ensures
        final(sender).wf(),
        final(recipient).wf(),
        match send_outcome(*old(sender), *old(recipient), *tx) {
            Err(e) => r == Err::<(TokenFieldValue, TokenFieldValue), LedgerError>(e) && *final(sender)
                == *old(sender) && *final(recipient) == *old(recipient),
            Ok(_) => {
                &&& r == Ok::<(TokenFieldValue, TokenFieldValue), LedgerError>(
                    (
                        TokenFieldValue::Balance(BalanceValue::Debit(tx.value)),
                        TokenFieldValue::Balance(BalanceValue::Credit(tx.value)),
                    ),
                )
                &&& final(sender).address == old(sender).address
                &&& final(recipient).address == old(recipient).address
                &&& final(sender).nonce == old(sender).nonce + 1
                &&& final(recipient).nonce == old(recipient).nonce
                &&& balance_of(final(sender).tokens@, tx.program_id) + tx.value@ == balance_of(
                    old(sender).tokens@,
                    tx.program_id,
                )
                &&& balance_of(final(recipient).tokens@, tx.program_id) == balance_of(
                    old(recipient).tokens@,
                    tx.program_id,
                ) + tx.value@
                &&& balance_of(final(sender).tokens@, tx.program_id) + balance_of(
                    final(recipient).tokens@,
                    tx.program_id,
                ) == balance_of(old(sender).tokens@, tx.program_id) + balance_of(
                    old(recipient).tokens@,
                    tx.program_id,
                )
                &&& forall|q: Address|
                    q != tx.program_id ==> balance_of(final(sender).tokens@, q) == balance_of(
                        old(sender).tokens@,
                        q,
                    ) && balance_of(final(recipient).tokens@, q) == balance_of(
                        old(recipient).tokens@,
                        q,
                    )
            },
        },
{
    proof {
        reveal(apply_spec);
    }
    let p = tx.program_id;
    if tx.from != sender.address {
        return Err(LedgerError::WrongSender);
    }
    if tx.to != recipient.address {
        return Err(LedgerError::WrongRecipient);
    }
    if sender.nonce == u64::MAX || tx.nonce() != sender.nonce + 1 {
        return Err(LedgerError::BadNonce);
    }
    let debit = TokenFieldValue::Balance(BalanceValue::Debit(tx.value));
    let credit = TokenFieldValue::Balance(BalanceValue::Credit(tx.value));
    let i = match sender.find_token(p) {
        Some(i) => i,
        None => {
            return Err(LedgerError::Diff(DiffError::NotFound));
        },
    };
    if sender.tokens[i].status == Status::Locked {
        return Err(LedgerError::Diff(DiffError::Locked));
    }
    if !tx.value.le(&sender.tokens[i].balance) {
        return Err(LedgerError::Diff(DiffError::InsufficientBalance));
    }
    let j = recipient.find_token(p);
    if let Some(j) = j {
        if recipient.tokens[j].status == Status::Locked {
            return Err(LedgerError::Diff(DiffError::Locked));
        }
        if recipient.tokens[j].balance.checked_add(&tx.value).is_none() {
            return Err(LedgerError::Diff(DiffError::Overflow));
        }
    }
    let ghost s0 = sender.tokens@;
    let ghost r0 = recipient.tokens@;
    let res = sender.tokens[i].apply(&debit);
    assert(res is Ok);
    proof {
        assert forall|q: Address| true implies has_program(sender.tokens@, q) == has_program(s0, q)
            && (has_program(s0, q) ==> program_index(sender.tokens@, q) == program_index(s0, q)) by {
            lemma_update_same_program(s0, i as int, sender.tokens@[i as int], q);
        }
        assert(sender.tokens@ == s0.update(i as int, sender.tokens@[i as int]));
    }
    sender.nonce = sender.nonce + 1;
    match j {
        Some(j) => {
            let res2 = recipient.tokens[j].apply(&credit);
            assert(res2 is Ok);
            proof {
                assert forall|q: Address| true implies has_program(recipient.tokens@, q)
                    == has_program(r0, q) && (has_program(r0, q) ==> program_index(
                    recipient.tokens@,
                    q,
                ) == program_index(r0, q)) by {
                    lemma_update_same_program(r0, j as int, recipient.tokens@[j as int], q);
                }
            }
        },
        None => {
            let mut t = Token::new(p, recipient.address);
            let res2 = t.apply(&credit);
            assert(res2 is Ok);
            recipient.tokens.push(t);
            proof {
                assert forall|q: Address| true implies (q != p ==> has_program(recipient.tokens@, q)
                    == has_program(r0, q)) && (q != p && has_program(r0, q) ==> program_index(
                    recipient.tokens@,
                    q,
                ) == program_index(r0, q)) by {
                    lemma_push_new_program(r0, t, q);
                }
                lemma_push_new_program(r0, t, p);
            }
        },
    }
    Ok((debit, credit))
}

} // verus!
