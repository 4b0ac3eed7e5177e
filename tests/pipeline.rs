use lasr::account::{apply_send, prepare_call, prepare_send, Account, LedgerError, RecoverableSignature, Transaction, TransactionType};
use lasr::account_cache::{AccountCache, AccountCacheError};
use lasr::address::{addr_cmp, eth_program_id, verse_program_id, Address, Digest};
use lasr::amount::U256;
use lasr::batcher::{BatchError, Batcher, MAX_BATCH_SIZE};
use lasr::blob_cache::{BlobCache, CacheError};
use lasr::da_client::{step, DaAction, DaOutcome, DaRetry};
use lasr::engine::{process_send, EngineError};
use lasr::graph::{replay, TOKEN_WITNESS_VERSION, GraphEntry, GraphError, TokenWitness, TransactionGraph};
use lasr::mempool::{MempoolError, PendingTransactions};
use lasr::scheduler::{next_batch, Candidate};
use lasr::token::{
    AllowanceValue, ApprovalsValue, ArbitraryData, BalanceValue, DataValue, DiffError, Metadata, MetadataValue, Status,
    StatusValue, Token, TokenFieldValue, TokenIdValue,
};
use lasr::validator::{validate, validate_allowance, ValidationError};

fn addr(b: u8) -> Address {
    let mut a = [0u8; 20];
    a[19] = b;
    a[0] = 0xaa;
    Address(a)
}

fn digest(b: u8) -> Digest {
    Digest([b; 32])
}

fn send_tx(from: Address, to: Address, program: Address, nonce: u64, value: u128, d: u8) -> Transaction {
    Transaction {
        transaction_type: TransactionType::Send(nonce),
        from,
        to,
        program_id: program,
        inputs: vec![],
        value: U256::from_u128(value),
        digest: digest(d),
        sig: RecoverableSignature(vec![0u8; 65]),
    }
}

fn funded(owner: Address, program: Address, amount: u128) -> Account {
    let mut acct = Account::new(owner);
    let mut t = Token::new(program, owner);
    t.apply(&TokenFieldValue::Balance(BalanceValue::Credit(U256::from_u128(amount)))).unwrap();
    acct.tokens.push(t);
    acct
}

fn balance(acct: &Account, program: Address) -> U256 {
    match acct.find_token(program) {
        Some(i) => acct.tokens[i].balance(),
        None => U256::zero(),
    }
}

#[test]
fn send_moves_value_and_advances_nonce() {
    let p = addr(9);
    let mut a = funded(addr(1), p, 100);
    let mut b = Account::new(addr(2));
    let tx = send_tx(addr(1), addr(2), p, 1, 40, 1);
    let (da, db) = apply_send(&mut a, &mut b, &tx).unwrap();
    assert_eq!(a.nonce(), 1);
    assert_eq!(balance(&a, p), U256::from_u128(60));
    assert_eq!(balance(&b, p), U256::from_u128(40));
    assert_eq!(b.nonce(), 0);
    assert_eq!(da, TokenFieldValue::Balance(BalanceValue::Debit(U256::from_u128(40))));
    assert_eq!(db, TokenFieldValue::Balance(BalanceValue::Credit(U256::from_u128(40))));
}

#[test]
fn send_credits_existing_recipient_token() {
    let p = addr(9);
    let mut a = funded(addr(1), p, 100);
    let mut b = funded(addr(2), p, 7);
    apply_send(&mut a, &mut b, &send_tx(addr(1), addr(2), p, 1, 100, 1)).unwrap();
    assert_eq!(balance(&a, p), U256::zero());
    assert_eq!(balance(&b, p), U256::from_u128(107));
}

#[test]
fn resubmitted_send_is_refused() {
    let p = addr(9);
    let mut a = funded(addr(1), p, 100);
    let mut b = Account::new(addr(2));
    let tx = send_tx(addr(1), addr(2), p, 1, 40, 1);
    apply_send(&mut a, &mut b, &tx).unwrap();
    assert_eq!(apply_send(&mut a, &mut b, &tx), Err(LedgerError::BadNonce));
    assert_eq!(a.nonce(), 1);
    assert_eq!(balance(&a, p), U256::from_u128(60));
    assert_eq!(balance(&b, p), U256::from_u128(40));
}

#[test]
fn send_refusals_change_nothing() {
    let p = addr(9);
    let mut a = funded(addr(1), p, 10);
    let mut b = Account::new(addr(2));
    assert_eq!(
        apply_send(&mut a, &mut b, &send_tx(addr(1), addr(2), p, 1, 11, 1)),
        Err(LedgerError::Diff(DiffError::InsufficientBalance))
    );
    assert_eq!(
        apply_send(&mut a, &mut b, &send_tx(addr(1), addr(2), p, 2, 1, 1)),
        Err(LedgerError::BadNonce)
    );
    assert_eq!(
        apply_send(&mut a, &mut b, &send_tx(addr(3), addr(2), p, 1, 1, 1)),
        Err(LedgerError::WrongSender)
    );
    assert_eq!(
        apply_send(&mut a, &mut b, &send_tx(addr(1), addr(3), p, 1, 1, 1)),
        Err(LedgerError::WrongRecipient)
    );
    assert_eq!(
        apply_send(&mut a, &mut b, &send_tx(addr(1), addr(2), addr(8), 1, 1, 1)),
        Err(LedgerError::Diff(DiffError::NotFound))
    );
    a.tokens[0].apply(&TokenFieldValue::Status(StatusValue::Lock)).unwrap();
    assert_eq!(
        apply_send(&mut a, &mut b, &send_tx(addr(1), addr(2), p, 1, 1, 1)),
        Err(LedgerError::Diff(DiffError::Locked))
    );
    assert_eq!(a.nonce(), 0);
    assert_eq!(balance(&a, p), U256::from_u128(10));
    assert!(b.tokens.is_empty());
}

#[test]
fn mempool_drains_lower_nonce_first() {
    let mut pool = PendingTransactions::new();
    let p = addr(9);
    pool.submit(send_tx(addr(1), addr(2), p, 2, 1, 2)).unwrap();
    pool.submit(send_tx(addr(1), addr(2), p, 1, 1, 1)).unwrap();
    let batch = pool.drain(10);
    assert_eq!(batch.len(), 2);
    assert_eq!(batch[0].nonce(), 1);
    assert_eq!(batch[1].nonce(), 2);
    assert_eq!(pool.len(), 0);
}

#[test]
fn mempool_ties_keep_arrival_order_and_respect_count() {
    let mut pool = PendingTransactions::new();
    let p = addr(9);
    pool.submit(send_tx(addr(1), addr(2), p, 1, 1, 1)).unwrap();
    pool.submit(send_tx(addr(3), addr(2), p, 1, 1, 2)).unwrap();
    pool.submit(send_tx(addr(4), addr(2), p, 3, 1, 3)).unwrap();
    let first = pool.drain(2);
    assert_eq!(first.len(), 2);
    assert_eq!(first[0].digest, digest(1));
    assert_eq!(first[1].digest, digest(2));
    let rest = pool.drain(2);
    assert_eq!(rest.len(), 1);
    assert_eq!(rest[0].digest, digest(3));
    assert!(pool.drain(2).is_empty());
}

#[test]
fn mempool_duplicate_is_a_no_op() {
    let mut pool = PendingTransactions::new();
    let tx = send_tx(addr(1), addr(2), addr(9), 1, 1, 1);
    assert_eq!(pool.submit(tx.clone()), Ok(()));
    assert_eq!(pool.submit(tx), Ok(()));
    assert_eq!(pool.len(), 1);
}

#[test]
fn mempool_refuses_stale_nonce() {
    let mut pool = PendingTransactions::new();
    pool.record_applied(addr(1), 3);
    assert_eq!(pool.last_applied(&addr(1)), 3);
    assert_eq!(pool.last_applied(&addr(2)), 0);
    assert_eq!(
        pool.submit(send_tx(addr(1), addr(2), addr(9), 3, 1, 1)),
        Err(MempoolError::StaleNonce)
    );
    assert_eq!(pool.submit(send_tx(addr(1), addr(2), addr(9), 4, 1, 2)), Ok(()));
    pool.record_applied(addr(1), 5);
    assert_eq!(pool.last_applied(&addr(1)), 5);
}

#[test]
fn allowance_shortfall_is_refused() {
    let p = addr(9);
    let spender = addr(5);
    let mut t = Token::new(p, addr(1));
    t.apply(&TokenFieldValue::Allowance(AllowanceValue::Insert(spender, U256::from_u128(10)))).unwrap();
    t.apply(&TokenFieldValue::Allowance(AllowanceValue::Remove(spender, U256::from_u128(5)))).unwrap();
    assert_eq!(
        validate_allowance(&t, &spender, &U256::from_u128(10)),
        Err(ValidationError::InsufficientAllowance)
    );
    assert_eq!(validate_allowance(&t, &spender, &U256::from_u128(5)), Ok(()));
    let before = t.clone();
    assert_eq!(
        t.apply(&TokenFieldValue::Allowance(AllowanceValue::Remove(spender, U256::from_u128(10)))),
        Err(DiffError::InsufficientAllowance)
    );
    assert_eq!(t, before);
    let acct = funded(addr(1), p, 0);
    assert_eq!(acct.nonce(), 0);
}

#[test]
fn validate_checks_in_order() {
    let p = addr(9);
    let a = funded(addr(1), p, 50);
    let ok = send_tx(addr(1), addr(2), p, 1, 50, 1);
    assert_eq!(validate(&ok, &a, &addr(1)), Ok(()));
    assert_eq!(validate(&ok, &a, &addr(7)), Err(ValidationError::BadSignature));
    let gap = send_tx(addr(1), addr(2), p, 2, 1, 1);
    assert_eq!(validate(&gap, &a, &addr(1)), Err(ValidationError::BadNonce));
    let big = send_tx(addr(1), addr(2), p, 1, 51, 1);
    assert_eq!(validate(&big, &a, &addr(1)), Err(ValidationError::InsufficientBalance));
}

#[test]
fn batcher_seals_before_overflow() {
    let mut b = Batcher::new();
    let chunk = vec![7u8; 200000];
    assert_eq!(b.push(chunk.clone()), Ok(None));
    assert_eq!(b.push(chunk.clone()), Ok(None));
    assert_eq!(b.size(), 400000);
    let sealed = b.push(chunk.clone()).unwrap().unwrap();
    assert_eq!(sealed.transactions.len(), 2);
    assert_eq!(sealed.size, 400000);
    assert!(sealed.size <= MAX_BATCH_SIZE);
    assert_eq!(b.size(), 200000);
    assert_eq!(b.add(vec![0u8; MAX_BATCH_SIZE - 200000 + 1]), Err(BatchError::BatchFull));
    assert_eq!(b.add(vec![0u8; MAX_BATCH_SIZE - 200000]), Ok(()));
    assert_eq!(b.size(), MAX_BATCH_SIZE);
    assert_eq!(b.push(vec![0u8; MAX_BATCH_SIZE + 1]), Err(BatchError::TooLarge));
    let last = b.seal();
    assert_eq!(last.size, MAX_BATCH_SIZE);
    assert_eq!(b.size(), 0);
}

#[test]
fn da_retries_then_commits_once() {
    let mut s = DaRetry::new(5, 100, 1000);
    assert_eq!(step(&mut s, DaOutcome::Failed), DaAction::Retry(100));
    assert_eq!(step(&mut s, DaOutcome::Failed), DaAction::Retry(200));
    assert_eq!(step(&mut s, DaOutcome::Posted(digest(3))), DaAction::Done(digest(3)));
    assert_eq!(step(&mut s, DaOutcome::Posted(digest(3))), DaAction::Idle);
    assert_eq!(s.attempts, 3);
}

#[test]
fn da_gives_up_at_ceiling() {
    let mut s = DaRetry::new(3, 600, 1000);
    assert_eq!(step(&mut s, DaOutcome::Failed), DaAction::Retry(600));
    assert_eq!(step(&mut s, DaOutcome::Failed), DaAction::Retry(1000));
    assert_eq!(step(&mut s, DaOutcome::Failed), DaAction::Exhausted);
    assert_eq!(step(&mut s, DaOutcome::Failed), DaAction::Idle);
}

#[test]
fn metadata_and_data_edits() {
    let mut t = Token::new(addr(9), addr(1));
    t.apply(&TokenFieldValue::Metadata(MetadataValue::Extend(Metadata(vec![1, 2, 3, 4])))).unwrap();
    t.apply(&TokenFieldValue::Metadata(MetadataValue::ReplaceSlice(1, 3, vec![9, 9, 9]))).unwrap();
    assert_eq!(t.metadata().as_ref(), &[1u8, 9, 9, 9, 4][..]);
    t.apply(&TokenFieldValue::Metadata(MetadataValue::ReplaceByte(0, 5))).unwrap();
    t.apply(&TokenFieldValue::Metadata(MetadataValue::Pop)).unwrap();
    t.apply(&TokenFieldValue::Metadata(MetadataValue::Push(8))).unwrap();
    assert_eq!(t.metadata().as_ref(), &[5u8, 9, 9, 9, 8][..]);
    assert_eq!(
        t.apply(&TokenFieldValue::Metadata(MetadataValue::ReplaceSlice(4, 9, vec![]))),
        Err(DiffError::OutOfRange)
    );
    assert_eq!(
        t.apply(&TokenFieldValue::Metadata(MetadataValue::ReplaceByte(5, 0))),
        Err(DiffError::OutOfRange)
    );
    assert_eq!(t.apply(&TokenFieldValue::Data(DataValue::Pop)), Err(DiffError::OutOfRange));
    t.apply(&TokenFieldValue::Data(DataValue::ReplaceAll(ArbitraryData(vec![4, 4])))).unwrap();
    t.apply(&TokenFieldValue::Data(DataValue::Extend(Metadata(vec![6])))).unwrap();
    assert_eq!(t.data().as_ref(), &[4u8, 4, 6][..]);
    assert!(ArbitraryData::new().as_ref().is_empty());
    assert!(Metadata::new().as_ref().is_empty());
}

#[test]
fn token_id_edits() {
    let mut t = Token::new(addr(9), addr(1));
    let id = |v: u128| U256::from_u128(v);
    t.apply(&TokenFieldValue::TokenIds(TokenIdValue::Extend(vec![id(1), id(2), id(1)]))).unwrap();
    t.apply(&TokenFieldValue::TokenIds(TokenIdValue::Insert(0, id(7)))).unwrap();
    t.apply(&TokenFieldValue::TokenIds(TokenIdValue::Remove(id(1)))).unwrap();
    assert_eq!(t.token_ids(), vec![id(7), id(2), id(1)]);
    assert_eq!(t.apply(&TokenFieldValue::TokenIds(TokenIdValue::Remove(id(5)))), Err(DiffError::NotFound));
    assert_eq!(
        t.apply(&TokenFieldValue::TokenIds(TokenIdValue::Insert(4, id(5)))),
        Err(DiffError::OutOfRange)
    );
    t.apply(&TokenFieldValue::TokenIds(TokenIdValue::Pop)).unwrap();
    t.apply(&TokenFieldValue::TokenIds(TokenIdValue::Push(id(3)))).unwrap();
    assert_eq!(t.token_ids(), vec![id(7), id(2), id(3)]);
}

#[test]
fn balance_and_status_edits() {
    let mut t = Token::new(addr(9), addr(1));
    assert_eq!(
        t.apply(&TokenFieldValue::Balance(BalanceValue::Debit(U256::from_u128(1)))),
        Err(DiffError::InsufficientBalance)
    );
    let max = U256 { hi: u128::MAX, lo: u128::MAX };
    t.apply(&TokenFieldValue::Balance(BalanceValue::Credit(max))).unwrap();
    assert_eq!(
        t.apply(&TokenFieldValue::Balance(BalanceValue::Credit(U256::from_u128(1)))),
        Err(DiffError::Overflow)
    );
    t.apply(&TokenFieldValue::Status(StatusValue::Reverse)).unwrap();
    assert_eq!(t.status(), Status::Locked);
    assert_eq!(
        t.apply(&TokenFieldValue::Balance(BalanceValue::Debit(U256::from_u128(1)))),
        Err(DiffError::Locked)
    );
    t.apply(&TokenFieldValue::Status(StatusValue::Unlock)).unwrap();
    t.apply(&TokenFieldValue::Balance(BalanceValue::Debit(U256 { hi: 1, lo: 0 }))).unwrap();
    assert_eq!(t.balance(), U256 { hi: u128::MAX - 1, lo: u128::MAX });
    t.update_balance(U256::from_u128(5), U256::from_u128(2)).unwrap();
    assert_eq!(t.balance(), U256 { hi: u128::MAX, lo: 2 });
}

#[test]
fn allowance_entries_stay_unique() {
    let mut t = Token::new(addr(9), addr(1));
    let v = |x: u128| U256::from_u128(x);
    t.apply(&TokenFieldValue::Allowance(AllowanceValue::Extend(vec![(addr(2), v(3)), (addr(3), v(4)), (addr(2), v(8))])))
        .unwrap();
    assert_eq!(t.allowance(), vec![(addr(2), v(8)), (addr(3), v(4))]);
    t.apply(&TokenFieldValue::Allowance(AllowanceValue::Remove(addr(3), v(4)))).unwrap();
    assert_eq!(t.allowance(), vec![(addr(2), v(8))]);
    assert_eq!(
        t.apply(&TokenFieldValue::Allowance(AllowanceValue::Remove(addr(3), v(1)))),
        Err(DiffError::NotFound)
    );
    assert!(t.approvals().is_empty());
}

fn entry(d: u8, deps: Vec<Digest>, diff: TokenFieldValue) -> GraphEntry {
    GraphEntry { transaction: send_tx(addr(1), addr(2), addr(9), d as u64, 1, d), diff, dependencies: deps }
}

#[test]
fn graph_needs_dependencies_first() {
    let mut g = TransactionGraph::new();
    let credit = TokenFieldValue::Balance(BalanceValue::Credit(U256::from_u128(10)));
    let debit = TokenFieldValue::Balance(BalanceValue::Debit(U256::from_u128(4)));
    assert_eq!(g.insert(entry(2, vec![digest(1)], debit.clone())), Err(GraphError::MissingDependency));
    assert_eq!(g.insert(entry(1, vec![], credit.clone())), Ok(()));
    assert_eq!(g.insert(entry(1, vec![], credit.clone())), Err(GraphError::Duplicate));
    assert_eq!(g.insert(entry(2, vec![digest(1)], debit)), Ok(()));
    assert_eq!(g.len(), 2);
    assert!(g.contains(&digest(2)));
}

#[test]
fn witness_final_state_is_the_replay() {
    let mut g = TransactionGraph::new();
    g.insert(entry(1, vec![], TokenFieldValue::Balance(BalanceValue::Credit(U256::from_u128(10))))).unwrap();
    g.insert(entry(2, vec![digest(1)], TokenFieldValue::Balance(BalanceValue::Debit(U256::from_u128(4)))))
        .unwrap();
    let init = Token::new(addr(9), addr(1));
    let once = replay(&init, &g).unwrap();
    let twice = replay(&init, &g).unwrap();
    assert_eq!(once, twice);
    assert_eq!(once.balance(), U256::from_u128(6));
    let w = TokenWitness::new(addr(1), addr(9), init, g, RecoverableSignature(vec![7]), TOKEN_WITNESS_VERSION.to_string()).unwrap();
    assert_eq!(w.finalized().balance(), U256::from_u128(6));
    assert_eq!(w.init().balance(), U256::zero());
    assert_eq!(w.user(), addr(1));
    assert_eq!(w.token(), addr(9));
    assert_eq!(w.version(), "0.1.0");
    assert_eq!(w.sig(), &RecoverableSignature(vec![7]));
}

#[test]
fn witness_refuses_a_failing_window() {
    let mut g = TransactionGraph::new();
    g.insert(entry(1, vec![], TokenFieldValue::Balance(BalanceValue::Debit(U256::from_u128(1))))).unwrap();
    let init = Token::new(addr(9), addr(1));
    assert_eq!(replay(&init, &g), Err(DiffError::InsufficientBalance));
    assert!(TokenWitness::new(addr(1), addr(9), init, g, RecoverableSignature(vec![]), String::new()).is_err());
}

#[test]
fn amount_arithmetic_carries() {
    let a = U256 { hi: 0, lo: u128::MAX };
    let one = U256::from_u128(1);
    assert_eq!(a.checked_add(&one), Some(U256 { hi: 1, lo: 0 }));
    assert_eq!(U256 { hi: 1, lo: 0 }.checked_sub(&one), Some(a));
    assert_eq!(U256::zero().checked_sub(&one), None);
    assert!(one.le(&a));
    assert!(!a.le(&one));
    assert!(U256::zero().is_zero());
}

#[test]
fn reserved_program_ids() {
    assert_eq!(eth_program_id(), Address([0u8; 20]));
    let mut v = [0u8; 20];
    v[19] = 1;
    assert_eq!(verse_program_id(), Address(v));
}

#[test]
fn wallet_mirror_takes_returned_token() {
    let p = addr(9);
    let mut a = funded(addr(1), p, 100);
    let tx = send_tx(addr(1), addr(2), p, 1, 40, 1);
    let mut returned = Token::new(p, addr(1));
    returned.update_balance(U256::from_u128(60), U256::zero()).unwrap();
    assert_eq!(a.apply_send_transaction(&send_tx(addr(1), addr(2), p, 2, 40, 1), returned.clone()), Err(LedgerError::BadNonce));
    assert_eq!(a.apply_send_transaction(&send_tx(addr(3), addr(2), p, 1, 40, 1), returned.clone()), Err(LedgerError::WrongSender));
    assert_eq!(
        a.apply_send_transaction(&tx, Token::new(addr(8), addr(1))),
        Err(LedgerError::WrongToken)
    );
    assert_eq!(a.apply_send_transaction(&tx, returned), Ok(()));
    assert_eq!(a.nonce(), 1);
    assert_eq!(balance(&a, p), U256::from_u128(60));
    assert_eq!(a.tokens.len(), 1);
}

#[test]
fn blob_cache_holds_each_digest_once() {
    let mut cache = BlobCache::new(2);
    let mut b = Batcher::new();
    b.add(vec![1, 2, 3]).unwrap();
    let blob = b.seal();
    assert_eq!(cache.insert(digest(1), blob.clone()), Ok(true));
    assert_eq!(cache.insert(digest(1), blob.clone()), Ok(false));
    assert!(cache.contains(&digest(1)));
    assert!(!cache.contains(&digest(2)));
    assert_eq!(cache.insert(digest(2), blob.clone()), Ok(true));
    assert_eq!(cache.insert(digest(3), blob.clone()), Err(CacheError::Full));
    assert_eq!(cache.get(&digest(1)), Some(&blob));
    assert_eq!(cache.get(&digest(1)).unwrap().transactions, vec![vec![1u8, 2, 3]]);
    assert_eq!(cache.get(&digest(3)), None);
    assert_eq!(cache.len(), 2);
}

#[test]
fn call_deltas_apply_all_or_nothing() {
    let p = addr(9);
    let mut a = funded(addr(1), p, 10);
    let call = |n: u64| Transaction { transaction_type: TransactionType::Call(n), ..send_tx(addr(1), addr(2), p, n, 0, 4) };
    let bad = vec![
        TokenFieldValue::Balance(BalanceValue::Debit(U256::from_u128(3))),
        TokenFieldValue::Metadata(MetadataValue::Pop),
    ];
    assert_eq!(a.apply_call_transaction(&call(1), &bad), Err(LedgerError::Diff(DiffError::OutOfRange)));
    assert_eq!(a.nonce(), 0);
    assert_eq!(balance(&a, p), U256::from_u128(10));
    let good = vec![
        TokenFieldValue::Balance(BalanceValue::Debit(U256::from_u128(3))),
        TokenFieldValue::Metadata(MetadataValue::Push(1)),
    ];
    assert_eq!(a.apply_call_transaction(&call(2), &good), Err(LedgerError::BadNonce));
    assert_eq!(a.apply_call_transaction(&call(1), &good), Ok(()));
    assert_eq!(a.nonce(), 1);
    assert_eq!(balance(&a, p), U256::from_u128(7));
    assert_eq!(a.tokens[0].metadata().as_ref(), &[1u8][..]);
    let other = addr(8);
    let c = Transaction { program_id: other, ..call(2) };
    assert_eq!(a.apply_call_transaction(&c, &vec![TokenFieldValue::Status(StatusValue::Lock)]), Ok(()));
    assert_eq!(a.tokens.len(), 2);
    assert_eq!(a.tokens[1].status(), Status::Locked);
}

fn cand(d: u8, size: usize, deps: Vec<Digest>) -> Candidate {
    Candidate { digest: digest(d), size, dependencies: deps }
}

#[test]
fn scheduler_defers_missing_dependencies_and_oversize() {
    let cands = vec![
        cand(1, 100, vec![]),
        cand(2, 100, vec![digest(1)]),
        cand(3, 100, vec![digest(9)]),
        cand(4, 400000, vec![]),
        cand(5, 100, vec![digest(7)]),
    ];
    let applied = vec![digest(7)];
    assert_eq!(next_batch(&cands, &applied, 1000), vec![0, 1, 4]);
    assert_eq!(next_batch(&cands, &applied, 1_000_000_000), vec![0, 1, 3, 4]);
    let reversed = vec![cand(2, 100, vec![digest(1)]), cand(1, 100, vec![])];
    assert_eq!(next_batch(&reversed, &vec![], 1000), vec![1]);
    assert_eq!(next_batch(&vec![cand(6, MAX_BATCH_SIZE + 1, vec![])], &vec![], usize::MAX), Vec::<usize>::new());
}

#[test]
fn account_cache_applies_and_evicts_only_clean() {
    let mut cache = AccountCache::new(2);
    assert_eq!(cache.insert(Account::new(addr(1))), Ok(()));
    assert_eq!(cache.insert(Account::new(addr(1))), Err(AccountCacheError::AlreadyCached));
    assert_eq!(cache.insert(Account::new(addr(2))), Ok(()));
    let bump = |a: &Account| -> Result<Account, LedgerError> {
        let mut n = a.clone();
        n.nonce += 1;
        Ok(n)
    };
    assert_eq!(cache.apply(&addr(1), bump), Some(Ok(())));
    assert_eq!(cache.get(&addr(1)).unwrap().nonce(), 1);
    let refuse = |_: &Account| -> Result<Account, LedgerError> { Err(LedgerError::BadNonce) };
    assert_eq!(cache.apply(&addr(1), refuse), Some(Err(LedgerError::BadNonce)));
    assert_eq!(cache.get(&addr(1)).unwrap().nonce(), 1);
    assert!(cache.apply(&addr(7), bump).is_none());
    // addr(2) is clean and least recently used: it makes room.
    assert_eq!(cache.insert(Account::new(addr(3))), Ok(()));
    assert!(cache.get(&addr(2)).is_none());
    assert_eq!(cache.apply(&addr(3), bump), Some(Ok(())));
    // Both entries are dirty now.
    assert_eq!(cache.insert(Account::new(addr(4))), Err(AccountCacheError::AllDirty));
    assert!(cache.mark_flushed(&addr(1)));
    assert!(!cache.mark_flushed(&addr(9)));
    assert_eq!(cache.insert(Account::new(addr(4))), Ok(()));
    assert!(cache.get(&addr(1)).is_none());
    assert_eq!(cache.get(&addr(3)).unwrap().nonce(), 1);
    assert_eq!(cache.len(), 2);
    cache.mark_flushed(&addr(3));
    cache.mark_flushed(&addr(4));
    // Reading addr(3) makes addr(4) the least recently used.
    assert!(cache.touch(&addr(3)));
    assert!(!cache.touch(&addr(8)));
    assert_eq!(cache.insert(Account::new(addr(5))), Ok(()));
    assert!(cache.get(&addr(4)).is_none());
    assert!(cache.get(&addr(3)).is_some());
}

#[test]
fn engine_isolates_each_transaction() {
    let p = addr(9);
    let mut a = funded(addr(1), p, 100);
    let mut b = Account::new(addr(2));
    let forged = send_tx(addr(1), addr(2), p, 1, 10, 1);
    assert_eq!(
        process_send(&mut a, &mut b, &forged, &addr(6)),
        Err(EngineError::Rejected(ValidationError::BadSignature))
    );
    let mut locked = funded(addr(2), p, 0);
    locked.tokens[0].apply(&TokenFieldValue::Status(StatusValue::Lock)).unwrap();
    assert_eq!(
        process_send(&mut a, &mut locked, &send_tx(addr(1), addr(2), p, 1, 10, 2), &addr(1)),
        Err(EngineError::Failed(LedgerError::Diff(DiffError::Locked)))
    );
    assert_eq!(a.nonce(), 0);
    assert!(process_send(&mut a, &mut b, &send_tx(addr(1), addr(2), p, 1, 10, 3), &addr(1)).is_ok());
    assert_eq!(a.nonce(), 1);
    assert_eq!(balance(&a, p), U256::from_u128(90));
    assert_eq!(balance(&b, p), U256::from_u128(10));
}

#[test]
fn locked_token_refuses_direct_balance_changes() {
    let p = addr(9);
    let mut t = Token::new(p, addr(1));
    t.update_balance(U256::from_u128(10), U256::zero()).unwrap();
    t.apply(&TokenFieldValue::Status(StatusValue::Lock)).unwrap();
    assert_eq!(t.update_balance(U256::from_u128(1), U256::zero()), Err(DiffError::Locked));
    let mut other = Token::new(p, addr(2));
    other.update_balance(U256::from_u128(3), U256::zero()).unwrap();
    assert_eq!(t.add_assign(other.clone()), Err(DiffError::Locked));
    assert_eq!(t.sub_assign(other.clone()), Err(DiffError::Locked));
    assert_eq!(t.balance(), U256::from_u128(10));
    t.apply(&TokenFieldValue::Status(StatusValue::Unlock)).unwrap();
    assert_eq!(t.add_assign(other.clone()), Ok(()));
    assert_eq!(t.balance(), U256::from_u128(13));
    assert_eq!(t.sub_assign(other), Ok(()));
    assert_eq!(t.balance(), U256::from_u128(10));
}

#[test]
fn allowance_kept_in_ascending_address_order() {
    let mut t = Token::new(addr(9), addr(1));
    let v = |x: u128| U256::from_u128(x);
    let mut high = [0u8; 20];
    high[0] = 0xff;
    let mut low = [0u8; 20];
    low[19] = 0xff;
    t.apply(&TokenFieldValue::Allowance(AllowanceValue::Insert(addr(5), v(1)))).unwrap();
    t.apply(&TokenFieldValue::Allowance(AllowanceValue::Insert(Address(high), v(2)))).unwrap();
    t.apply(&TokenFieldValue::Allowance(AllowanceValue::Insert(addr(3), v(3)))).unwrap();
    t.apply(&TokenFieldValue::Allowance(AllowanceValue::Insert(Address(low), v(4)))).unwrap();
    assert_eq!(t.allowance(), vec![(Address(low), v(4)), (addr(3), v(3)), (addr(5), v(1)), (Address(high), v(2))]);
    t.apply(&TokenFieldValue::Approvals(ApprovalsValue::Extend(vec![(addr(7), v(1)), (addr(2), v(1))]))).unwrap();
    assert_eq!(t.approvals(), vec![(addr(2), v(1)), (addr(7), v(1))]);
    assert!(addr_cmp(&addr(2), &addr(7)) < 0);
    assert!(addr_cmp(&addr(7), &addr(2)) > 0);
    assert_eq!(addr_cmp(&addr(7), &addr(7)), 0);
}

#[test]
fn payloads_carry_the_next_nonce() {
    let p = addr(9);
    let a = funded(addr(1), p, 50);
    let s = prepare_send(&a, addr(2), p, U256::from_u128(50)).unwrap();
    assert_eq!(s.transaction_type, TransactionType::Send(1));
    assert_eq!(s.from, addr(1));
    assert_eq!(s.to, addr(2));
    assert!(s.inputs.is_empty());
    assert_eq!(
        prepare_send(&a, addr(2), p, U256::from_u128(51)),
        Err(LedgerError::Diff(DiffError::InsufficientBalance))
    );
    let c = prepare_call(&a, p, addr(2), U256::zero(), &b"mint".to_vec(), &b"x".to_vec()).unwrap();
    assert_eq!(c.transaction_type, TransactionType::Call(1));
    assert_eq!(c.inputs, b"mint\0x".to_vec());
    let bytes = c.encode();
    assert_eq!(bytes.len(), 1 + 8 + 60 + 32 + 6);
    assert_eq!(bytes[0], 1);
    assert_eq!(&bytes[1..9], &1u64.to_be_bytes()[..]);
    assert_eq!(&bytes[9..29], &addr(1).0[..]);
    assert_eq!(&bytes[69..101], &[0u8; 32][..]);
    assert_eq!(&bytes[101..], &b"mint\0x"[..]);
    let mut big = s.clone();
    big.value = U256 { hi: 0x0102, lo: 0x0304 };
    let e = big.encode();
    assert_eq!(e[0], 0);
    assert_eq!(&e[69..85], &0x0102u128.to_be_bytes()[..]);
    assert_eq!(&e[85..101], &0x0304u128.to_be_bytes()[..]);
}

#[test]
fn account_cache_of_no_capacity_holds_nothing() {
    let mut cache = AccountCache::new(0);
    assert_eq!(cache.insert(Account::new(addr(1))), Err(AccountCacheError::AllDirty));
    assert_eq!(cache.len(), 0);
}

#[test]
fn well_formedness_is_checked() {
    let mut t = Token::new(addr(9), addr(1));
    assert!(t.is_well_formed());
    t.apply(&TokenFieldValue::Allowance(AllowanceValue::Insert(addr(5), U256::from_u128(1)))).unwrap();
    assert!(t.is_well_formed());
    t.allowance.push((addr(2), U256::from_u128(1)));
    assert!(!t.is_well_formed());
    t.allowance.pop();
    t.approvals.push((addr(2), U256::zero()));
    t.approvals.push((addr(2), U256::zero()));
    assert!(!t.is_well_formed());
}
