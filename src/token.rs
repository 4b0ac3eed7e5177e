//! Per-(program, owner) token state and the field-level diff algebra applied to it.
use vstd::prelude::*;

use crate::address::{addr_cmp, addr_lt, lemma_addr_lt_irreflexive, lemma_addr_lt_total, lemma_addr_lt_transitive, Address};
use crate::amount::{u256_max, U256};

verus! {

/// Arbitrary bytes carried by a token.
#[derive(Clone, Debug, Default, PartialEq, Eq, Hash)]
pub struct ArbitraryData(pub Vec<u8>);

impl ArbitraryData {
    /// Empty data.
    pub fn new() -> (r: Self)
        ensures
            r.0@ == Seq::<u8>::empty(),
    {
        ArbitraryData(Vec::new())
    }

    /// The bytes held.
    pub fn as_ref(&self) -> (r: &[u8])
        ensures
            r@ == self.0@,
    {
        self.0.as_slice()
    }
}

/// Token metadata, as bytes.
#[derive(Clone, Debug, PartialEq, Eq, Hash)]
pub struct Metadata(pub Vec<u8>);

impl Metadata {
    /// Empty metadata.
    pub fn new() -> (r: Self)
        ensures
            r.0@ == Seq::<u8>::empty(),
    {
        Metadata(Vec::new())
    }

    /// The bytes held.
    pub fn as_ref(&self) -> (r: &[u8])
        ensures
            r@ == self.0@,
    {
        self.0.as_slice()
    }
}

#[derive(Clone, Copy, Debug, PartialEq, Eq, Structural, Hash)]
pub enum TokenType {
    Fungible,
    NonFungible,
    Data,
}

/// Whether a token accepts balance changes.
#[derive(Clone, Copy, Debug, PartialEq, Eq, Structural, Hash)]
pub enum Status {
    Locked,
    Free,
}

#[derive(Clone, Copy, Debug, PartialEq, Eq, Structural, Hash)]
pub enum TokenField {
    ProgramId,
    OwnerId,
    Balance,
    Metadata,
    TokenIds,
    Allowance,
    Approvals,
    Data,
    Status,
}

#[derive(Clone, Debug, PartialEq, Eq, Hash)]
pub enum BalanceValue {
    Credit(U256),
    Debit(U256),
}

#[derive(Clone, Debug, PartialEq, Eq, Hash)]
pub enum MetadataValue {
    ReplaceAll(Metadata),
    ReplaceSlice(usize, usize, Vec<u8>),
    ReplaceByte(usize, u8),
    Extend(Metadata),
    Push(u8),
    Pop,
}

#[derive(Clone, Debug, PartialEq, Eq, Hash)]
pub enum TokenIdValue {
    Push(U256),
    Extend(Vec<U256>),
    Insert(usize, U256),
    Pop,
    Remove(U256),
}

#[derive(Clone, Debug, PartialEq, Eq, Hash)]
pub enum AllowanceValue {
    Insert(Address, U256),
    Extend(Vec<(Address, U256)>),
    Remove(Address, U256),
}

#[derive(Clone, Debug, PartialEq, Eq, Hash)]
pub enum ApprovalsValue {
    Insert(Address, U256),
    Extend(Vec<(Address, U256)>),
    Remove(Address, U256),
}

#[derive(Clone, Debug, PartialEq, Eq, Hash)]
pub enum DataValue {
    ReplaceAll(ArbitraryData),
    ReplaceSlice(usize, usize, Vec<u8>),
    ReplaceByte(usize, u8),
    Extend(Metadata),
    Push(u8),
    Pop,
}

#[derive(Clone, Copy, Debug, PartialEq, Eq, Structural, Hash)]
pub enum StatusValue {
    Reverse,
    Lock,
    Unlock,
}

/// One change to one field of a token.
#[derive(Clone, Debug, PartialEq, Eq, Hash)]
pub enum TokenFieldValue {
    Balance(BalanceValue),
    Metadata(MetadataValue),
    TokenIds(TokenIdValue),
    Allowance(AllowanceValue),
    Approvals(ApprovalsValue),
    Data(DataValue),
    Status(StatusValue),
}

/// Why a diff could not be applied.
#[derive(Clone, Copy, Debug, PartialEq, Eq, Structural, Hash)]
pub enum DiffError {
    /// A balance change on a locked token.
    Locked,
    /// A debit larger than the balance.
    InsufficientBalance,
    /// A credit that would take the balance past 2^256 - 1.
    Overflow,
    /// A slice, index or pop outside the sequence.
    OutOfRange,
    /// A removal of an id or an address that is not there.
    NotFound,
    /// A removal larger than the recorded amount.
    InsufficientAllowance,
}

/// The state of a token in mathematical terms.
pub struct TokenState {
    pub program_id: Address,
    pub owner_id: Address,
    pub balance: nat,
    pub metadata: Seq<u8>,
    pub token_ids: Seq<nat>,
    pub allowance: Seq<(Address, nat)>,
    pub approvals: Seq<(Address, nat)>,
    pub data: Seq<u8>,
    pub status: Status,
}

/// State of one (program, owner) pair.
#[derive(Clone, Debug, PartialEq, Eq, Hash)]
pub struct Token {
    pub program_id: Address,
    pub owner_id: Address,
    pub balance: U256,
    pub metadata: Metadata,
    pub token_ids: Vec<U256>,
    pub allowance: Vec<(Address, U256)>,
    pub approvals: Vec<(Address, U256)>,
    pub data: ArbitraryData,
    pub status: Status,
}

pub open spec fn ids_view(v: Seq<U256>) -> Seq<nat> {
    v.map_values(|x: U256| x@)
}

pub open spec fn entries_view(v: Seq<(Address, U256)>) -> Seq<(Address, nat)> {
    v.map_values(|p: (Address, U256)| (p.0, p.1@))
}

impl View for Token {
    type V = TokenState;

    open spec fn view(&self) -> TokenState {
        TokenState {
            program_id: self.program_id,
            owner_id: self.owner_id,
            balance: self.balance@,
            metadata: self.metadata.0@,
            token_ids: ids_view(self.token_ids@),
            allowance: entries_view(self.allowance@),
            approvals: entries_view(self.approvals@),
            data: self.data.0@,
            status: self.status,
        }
    }
}

/// No address occurs twice among the entries.
pub open spec fn keys_unique(m: Seq<(Address, nat)>) -> bool {
    forall|i: int, j: int| 0 <= i < j < m.len() ==> m[i].0 != m[j].0
}

/// The entries stand in ascending order of address.
pub open spec fn keys_sorted(m: Seq<(Address, nat)>) -> bool {
    forall|i: int, j: int| 0 <= i < j < m.len() ==> addr_lt(m[i].0, m[j].0)
}

/// Ascending order of address, each address once.
pub open spec fn entries_ok(m: Seq<(Address, nat)>) -> bool {
    keys_sorted(m) && keys_unique(m)
}

proof fn lemma_sorted_unique(m: Seq<(Address, nat)>)
    requires
        keys_sorted(m),
    ensures
        entries_ok(m),
{
    assert forall|i: int, j: int| 0 <= i < j < m.len() implies m[i].0 != m[j].0 by {
        lemma_addr_lt_irreflexive(m[i].0);
    }
}

/// `p` is where `a` belongs among the entries: after each smaller address, before the others.
pub open spec fn insert_pos_ok(m: Seq<(Address, nat)>, a: Address, p: int) -> bool {
    &&& 0 <= p <= m.len()
    &&& forall|j: int| 0 <= j < p ==> addr_lt(#[trigger] m[j].0, a)
    &&& forall|j: int| p <= j < m.len() ==> !addr_lt(#[trigger] m[j].0, a)
}

/// Where a new entry of `a` goes.
pub open spec fn insert_pos(m: Seq<(Address, nat)>, a: Address) -> int {
    choose|p: int| insert_pos_ok(m, a, p)
}

pub open spec fn has_key(m: Seq<(Address, nat)>, a: Address) -> bool {
    exists|i: int| 0 <= i < m.len() && m[i].0 == a
}

/// Where the entry of `a` stands (meaningful where `has_key(m, a)`).
pub open spec fn key_index(m: Seq<(Address, nat)>, a: Address) -> int {
    choose|i: int| 0 <= i < m.len() && m[i].0 == a
}

/// The amount recorded for `a`, zero where there is none.
pub open spec fn amount_of(m: Seq<(Address, nat)>, a: Address) -> nat {
    if has_key(m, a) {
        m[key_index(m, a)].1
    } else {
        0
    }
}

/// Records `n` for `a`: replaces the entry of `a`, or inserts one where `a` belongs.
pub open spec fn put_entry(m: Seq<(Address, nat)>, a: Address, n: nat) -> Seq<(Address, nat)> {
    if has_key(m, a) {
        m.update(key_index(m, a), (a, n))
    } else {
        m.insert(insert_pos(m, a), (a, n))
    }
}

/// Records each pair of `s` in turn.
pub open spec fn put_entries(m: Seq<(Address, nat)>, s: Seq<(Address, nat)>) -> Seq<(Address, nat)>
    decreases s.len(),
{
    if s.len() == 0 {
        m
    } else {
        put_entry(put_entries(m, s.drop_last()), s.last().0, s.last().1)
    }
}

/// Takes `n` from the amount of `a`; an entry that reaches zero goes.
pub open spec fn take_entry(m: Seq<(Address, nat)>, a: Address, n: nat) -> Result<
    Seq<(Address, nat)>,
    DiffError,
> {
    if !has_key(m, a) {
        Err(DiffError::NotFound)
    } else if n > m[key_index(m, a)].1 {
        Err(DiffError::InsufficientAllowance)
    } else if n == m[key_index(m, a)].1 {
        Ok(m.remove(key_index(m, a)))
    } else {
        Ok(m.update(key_index(m, a), (a, (m[key_index(m, a)].1 - n) as nat)))
    }
}

/// `b` with `b[s..e]` replaced by `n`.
pub open spec fn splice(b: Seq<u8>, s: int, e: int, n: Seq<u8>) -> Seq<u8> {
    b.subrange(0, s) + n + b.subrange(e, b.len() as int)
}

pub open spec fn metadata_after(b: Seq<u8>, v: MetadataValue) -> Option<Seq<u8>> {
    match v {
        MetadataValue::ReplaceAll(m) => Some(m.0@),
        MetadataValue::ReplaceSlice(s, e, n) => if s <= e <= b.len() {
            Some(splice(b, s as int, e as int, n@))
        } else {
            None
        },
        MetadataValue::ReplaceByte(i, x) => if i < b.len() {
            Some(b.update(i as int, x))
        } else {
            None
        },
        MetadataValue::Extend(m) => Some(b + m.0@),
        MetadataValue::Push(x) => Some(b.push(x)),
        MetadataValue::Pop => if b.len() > 0 {
            Some(b.drop_last())
        } else {
            None
        },
    }
}

/// A data edit as the metadata edit of the same shape.
pub open spec fn as_metadata_value(v: DataValue) -> MetadataValue {
    match v {
        DataValue::ReplaceAll(m) => MetadataValue::ReplaceAll(Metadata(m.0)),
        DataValue::ReplaceSlice(s, e, n) => MetadataValue::ReplaceSlice(s, e, n),
        DataValue::ReplaceByte(i, x) => MetadataValue::ReplaceByte(i, x),
        DataValue::Extend(m) => MetadataValue::Extend(m),
        DataValue::Push(x) => MetadataValue::Push(x),
        DataValue::Pop => MetadataValue::Pop,
    }
}

/// Data edits behave as metadata edits do.
pub open spec fn data_after(b: Seq<u8>, v: DataValue) -> Option<Seq<u8>> {
    metadata_after(b, as_metadata_value(v))
}

/// Where `x` first occurs in `ids` (meaningful where it occurs).
pub open spec fn first_index(ids: Seq<nat>, x: nat) -> int {
    choose|i: int| 0 <= i < ids.len() && ids[i] == x && forall|j: int| 0 <= j < i ==> ids[j] != x
}

pub open spec fn token_ids_after(ids: Seq<nat>, v: TokenIdValue) -> Result<Seq<nat>, DiffError> {
    match v {
        TokenIdValue::Push(x) => Ok(ids.push(x@)),
        TokenIdValue::Extend(xs) => Ok(ids + ids_view(xs@)),
        TokenIdValue::Insert(i, x) => if i <= ids.len() {
            Ok(ids.insert(i as int, x@))
        } else {
            Err(DiffError::OutOfRange)
        },
        TokenIdValue::Pop => if ids.len() > 0 {
            Ok(ids.drop_last())
        } else {
            Err(DiffError::OutOfRange)
        },
        TokenIdValue::Remove(x) => if ids.contains(x@) {
            Ok(ids.remove(first_index(ids, x@)))
        } else {
            Err(DiffError::NotFound)
        },
    }
}

pub open spec fn entries_after_allowance(m: Seq<(Address, nat)>, v: AllowanceValue) -> Result<
    Seq<(Address, nat)>,
    DiffError,
> {
    match v {
        AllowanceValue::Insert(a, n) => Ok(put_entry(m, a, n@)),
        AllowanceValue::Extend(s) => Ok(put_entries(m, entries_view(s@))),
        AllowanceValue::Remove(a, n) => take_entry(m, a, n@),
    }
}

pub open spec fn entries_after_approvals(m: Seq<(Address, nat)>, v: ApprovalsValue) -> Result<
    Seq<(Address, nat)>,
    DiffError,
> {
    match v {
        ApprovalsValue::Insert(a, n) => Ok(put_entry(m, a, n@)),
        ApprovalsValue::Extend(s) => Ok(put_entries(m, entries_view(s@))),
        ApprovalsValue::Remove(a, n) => take_entry(m, a, n@),
    }
}

pub open spec fn status_after(s: Status, v: StatusValue) -> Status {
    match v {
        StatusValue::Reverse => match s {
            Status::Locked => Status::Free,
            Status::Free => Status::Locked,
        },
        StatusValue::Lock => Status::Locked,
        StatusValue::Unlock => Status::Free,
    }
}

pub open spec fn balance_after(t: TokenState, v: BalanceValue) -> Result<nat, DiffError> {
    if t.status == Status::Locked {
        Err(DiffError::Locked)
    } else {
        match v {
            BalanceValue::Credit(x) => if t.balance + x@ > u256_max() {
                Err(DiffError::Overflow)
            } else {
                Ok(t.balance + x@)
            },
            BalanceValue::Debit(x) => if x@ > t.balance {
                Err(DiffError::InsufficientBalance)
            } else {
                Ok((t.balance - x@) as nat)
            },
        }
    }
}

/// The state after applying `d` to `t`, or why it cannot be applied.
#[verifier::opaque]
pub open spec fn apply_spec(t: TokenState, d: TokenFieldValue) -> Result<TokenState, DiffError> {
    match d {
        TokenFieldValue::Balance(v) => match balance_after(t, v) {
            Ok(b) => Ok(TokenState { balance: b, ..t }),
            Err(e) => Err(e),
        },
        TokenFieldValue::Metadata(v) => match metadata_after(t.metadata, v) {
            Some(m) => Ok(TokenState { metadata: m, ..t }),
            None => Err(DiffError::OutOfRange),
        },
        TokenFieldValue::TokenIds(v) => match token_ids_after(t.token_ids, v) {
            Ok(ids) => Ok(TokenState { token_ids: ids, ..t }),
            Err(e) => Err(e),
        },
        TokenFieldValue::Allowance(v) => match entries_after_allowance(t.allowance, v) {
            Ok(m) => Ok(TokenState { allowance: m, ..t }),
            Err(e) => Err(e),
        },
        TokenFieldValue::Approvals(v) => match entries_after_approvals(t.approvals, v) {
            Ok(m) => Ok(TokenState { approvals: m, ..t }),
            Err(e) => Err(e),
        },
        TokenFieldValue::Data(v) => match data_after(t.data, v) {
            Some(b) => Ok(TokenState { data: b, ..t }),
            None => Err(DiffError::OutOfRange),
        },
        TokenFieldValue::Status(v) => Ok(TokenState { status: status_after(t.status, v), ..t }),
    }
}


/// `update_balance(receive, send)` on a free token is the diff `Credit(receive)` followed by
/// `Debit(send)`: a run of such calls is the replay of those diffs, so it reproduces what a
/// witness of them states, and two runs from one state end in one state.
pub proof fn lemma_update_balance_as_diffs(t: TokenState, receive: U256, send: U256)
    requires
        t.status == Status::Free,
        t.balance + receive@ <= u256_max(),
        send@ <= t.balance + receive@,
    ensures
        apply_spec(t, TokenFieldValue::Balance(BalanceValue::Credit(receive))) is Ok,
        apply_spec(
            apply_spec(t, TokenFieldValue::Balance(BalanceValue::Credit(receive)))->Ok_0,
            TokenFieldValue::Balance(BalanceValue::Debit(send)),
        ) == Ok::<TokenState, DiffError>(
            TokenState { balance: (t.balance + receive@ - send@) as nat, ..t },
        ),
{
    reveal(apply_spec);
}

/// Where the entry of `a` stands in `m`, if anywhere.
pub fn find_key(m: &Vec<(Address, U256)>, a: Address) -> (r: Option<usize>)
    requires
        keys_unique(entries_view(m@)),
    ensures
        match r {
            Some(i) => i < m.len() && has_key(entries_view(m@), a) && key_index(entries_view(m@), a)
                == i && m@[i as int].0 == a && amount_of(entries_view(m@), a) == m@[i as int].1@,
            None => !has_key(entries_view(m@), a) && amount_of(entries_view(m@), a) == 0,
        },
{
    let ghost ev = entries_view(m@);
    let mut i: usize = 0;
    while i < m.len()
        invariant
            i <= m.len(),
            ev == entries_view(m@),
            keys_unique(ev),
            forall|j: int| 0 <= j < i ==> m@[j].0 != a,
        decreases m.len() - i,
    {
        if m[i].0 == a {
            proof {
                assert(ev[i as int].0 == a);
                assert(has_key(ev, a));
                let k = key_index(ev, a);
                assert(0 <= k < ev.len());
                assert(ev[k].0 == a);
                if k != i as int {
                    if k < i as int {
                        assert(ev[k].0 != ev[i as int].0);
                    } else {
                        assert(ev[i as int].0 != ev[k].0);
                    }
                }
            }
            return Some(i);
        }
        i = i + 1;
    }
    proof {
        assert forall|j: int| 0 <= j < ev.len() implies ev[j].0 != a by {
            assert(m@[j].0 != a);
        }
    }
    None
}

fn entries_ok_exec(m: &Vec<(Address, U256)>) -> (r: bool)
    ensures
        r == entries_ok(entries_view(m@)),
{
    let ghost e = entries_view(m@);
    if m.len() == 0 {
        proof {
            lemma_sorted_unique(e);
        }
        return true;
    }
    let mut i: usize = 1;
    while i < m.len()
        invariant
            1 <= i <= m@.len(),
            e == entries_view(m@),
            forall|x: int, y: int| 0 <= x < y < i ==> addr_lt(e[x].0, e[y].0),
        decreases m@.len() - i,
    {
        if addr_cmp(&m[i - 1].0, &m[i].0) >= 0 {
            assert(!addr_lt(e[i - 1].0, e[i as int].0));
            return false;
        }
        proof {
            assert forall|x: int, y: int| 0 <= x < y < i + 1 implies addr_lt(e[x].0, e[y].0) by {
                if y == i as int && x < i - 1 {
                    lemma_addr_lt_transitive(e[x].0, e[i - 1].0, e[y].0);
                }
            }
        }
        i = i + 1;
    }
    proof {
        lemma_sorted_unique(e);
    }
    true
}

fn put_entry_exec(m: &mut Vec<(Address, U256)>, a: Address, n: U256)
    requires
        entries_ok(entries_view(old(m)@)),
    ensures
        entries_view(final(m)@) == put_entry(entries_view(old(m)@), a, n@),
        entries_ok(entries_view(final(m)@)),
{
    let ghost before = entries_view(m@);
    match find_key(m, a) {
        Some(i) => {
            m.set(i, (a, n));
            assert(entries_view(m@) =~= before.update(i as int, (a, n@)));
            assert(keys_sorted(entries_view(m@)));
            proof {
                lemma_sorted_unique(entries_view(m@));
            }
        },
        None => {
            let mut i: usize = 0;
            while i < m.len() && addr_cmp(&m[i].0, &a) < 0
                invariant
                    i <= m@.len(),
                    before == entries_view(m@),
                    forall|j: int| 0 <= j < i ==> addr_lt(#[trigger] before[j].0, a),
                decreases m@.len() - i,
            {
                i = i + 1;
            }
            proof {
                assert(!has_key(before, a));
                if i < m@.len() {
                    assert(!addr_lt(before[i as int].0, a));
                    assert(before[i as int].0 != a);
                    lemma_addr_lt_total(before[i as int].0, a);
                    assert(addr_lt(a, before[i as int].0));
                }
                assert forall|j: int| i <= j < before.len() implies addr_lt(a, #[trigger] before[j].0)
                    && !addr_lt(before[j].0, a) by {
                    if j > i {
                        lemma_addr_lt_transitive(a, before[i as int].0, before[j].0);
                    }
                    if addr_lt(before[j].0, a) {
                        lemma_addr_lt_transitive(a, before[j].0, a);
                        lemma_addr_lt_irreflexive(a);
                    }
                }
                assert(insert_pos_ok(before, a, i as int));
                let p = insert_pos(before, a);
                if p < i as int {
                    assert(addr_lt(before[p].0, a));
                } else if p > i as int {
                    assert(addr_lt(before[i as int].0, a));
                }
            }
            m.insert(i, (a, n));
            assert(entries_view(m@) =~= before.insert(i as int, (a, n@)));
            proof {
                let e = entries_view(m@);
                assert forall|x: int, y: int| 0 <= x < y < e.len() implies addr_lt(e[x].0, e[y].0) by {
                    if y < i as int {
                        assert(e[x] == before[x] && e[y] == before[y]);
                    } else if y == i as int {
                        assert(e[x] == before[x]);
                    } else if x == i as int {
                        assert(e[y] == before[y - 1]);
                    } else if x < i as int {
                        assert(e[x] == before[x] && e[y] == before[y - 1]);
                    } else {
                        assert(e[x] == before[x - 1] && e[y] == before[y - 1]);
                    }
                }
                lemma_sorted_unique(e);
            }
        },
    }
}

fn put_entries_exec(m: &mut Vec<(Address, U256)>, s: &Vec<(Address, U256)>)
    requires
        entries_ok(entries_view(old(m)@)),
    ensures
        entries_view(final(m)@) == put_entries(entries_view(old(m)@), entries_view(s@)),
        entries_ok(entries_view(final(m)@)),
{
    let ghost m0 = entries_view(m@);
    let ghost es = entries_view(s@);
    let mut i: usize = 0;
    assert(es.subrange(0, 0).len() == 0);
    while i < s.len()
        invariant
            i <= s.len(),
            es == entries_view(s@),
            entries_view(m@) == put_entries(m0, es.subrange(0, i as int)),
            entries_ok(entries_view(m@)),
        decreases s.len() - i,
    {
        let (a, n) = s[i];
        put_entry_exec(m, a, n);
        assert(es.subrange(0, i + 1).drop_last() =~= es.subrange(0, i as int));
        i = i + 1;
    }
    assert(es.subrange(0, s.len() as int) =~= es);
}

fn take_entry_exec(m: &mut Vec<(Address, U256)>, a: Address, n: U256) -> (r: Result<(), DiffError>)
    requires
        entries_ok(entries_view(old(m)@)),
    ensures
        match take_entry(entries_view(old(m)@), a, n@) {
            Ok(s) => r is Ok && entries_view(final(m)@) == s,
            Err(e) => r == Err::<(), DiffError>(e) && *final(m) == *old(m),
        },
        entries_ok(entries_view(final(m)@)),
{
    let ghost before = entries_view(m@);
    match find_key(m, a) {
        None => Err(DiffError::NotFound),
        Some(i) => {
            let cur = m[i].1;
            if !n.le(&cur) {
                Err(DiffError::InsufficientAllowance)
            } else if n.same(&cur) {
                m.remove(i);
                assert(entries_view(m@) =~= before.remove(i as int));
                Ok(())
            } else {
                match cur.checked_sub(&n) {
                    Some(rest) => {
                        m.set(i, (a, rest));
                        assert(entries_view(m@) =~= before.update(
                            i as int,
                            (a, (before[i as int].1 - n@) as nat),
                        ));
                        Ok(())
                    },
                    None => Err(DiffError::InsufficientAllowance),
                }
            }
        },
    }
}

fn splice_exec(b: &Vec<u8>, s: usize, e: usize, n: &Vec<u8>) -> (r: Vec<u8>)
    requires
        s <= e <= b.len(),
    ensures
        r@ == splice(b@, s as int, e as int, n@),
{
    let mut r: Vec<u8> = Vec::new();
    let mut i: usize = 0;
    while i < s
        invariant
            i <= s <= e <= b.len(),
            r@ == b@.subrange(0, i as int),
        decreases s - i,
    {
        r.push(b[i]);
        i = i + 1;
        assert(r@ =~= b@.subrange(0, i as int));
    }
    let mut j: usize = 0;
    while j < n.len()
        invariant
            j <= n.len(),
            s <= e <= b.len(),
            r@ == b@.subrange(0, s as int) + n@.subrange(0, j as int),
        decreases n.len() - j,
    {
        r.push(n[j]);
        j = j + 1;
        assert(r@ =~= b@.subrange(0, s as int) + n@.subrange(0, j as int));
    }
    assert(n@.subrange(0, n.len() as int) =~= n@);
    let mut k: usize = e;
    assert(r@ =~= b@.subrange(0, s as int) + n@ + b@.subrange(e as int, k as int));
    while k < b.len()
        invariant
            s <= e <= k <= b.len(),
            r@ == b@.subrange(0, s as int) + n@ + b@.subrange(e as int, k as int),
        decreases b.len() - k,
    {
        r.push(b[k]);
        k = k + 1;
        assert(r@ =~= b@.subrange(0, s as int) + n@ + b@.subrange(e as int, k as int));
    }
    r
}

pub(crate) fn extend_bytes(b: &mut Vec<u8>, x: &Vec<u8>)
    ensures
        final(b)@ == old(b)@ + x@,
{
    let ghost b0 = b@;
    let mut i: usize = 0;
    while i < x.len()
        invariant
            i <= x.len(),
            b@ == b0 + x@.subrange(0, i as int),
        decreases x.len() - i,
    {
        b.push(x[i]);
        i = i + 1;
        assert(b@ =~= b0 + x@.subrange(0, i as int));
    }
    assert(x@.subrange(0, x.len() as int) =~= x@);
}

fn extend_ids(b: &mut Vec<U256>, x: &Vec<U256>)
    ensures
        final(b)@ == old(b)@ + x@,
        ids_view(final(b)@) == ids_view(old(b)@) + ids_view(x@),
{
    let ghost b0 = b@;
    let mut i: usize = 0;
    while i < x.len()
        invariant
            i <= x.len(),
            b@ == b0 + x@.subrange(0, i as int),
        decreases x.len() - i,
    {
        b.push(x[i]);
        i = i + 1;
        assert(b@ =~= b0 + x@.subrange(0, i as int));
    }
    assert(x@.subrange(0, x.len() as int) =~= x@);
    assert(ids_view(b@) =~= ids_view(b0) + ids_view(x@));
}

/// Applies one byte-sequence edit; `None` leaves `b` as it was.
fn edit_bytes(
    b: &mut Vec<u8>,
    all: Option<&Vec<u8>>,
    slice: Option<(usize, usize, &Vec<u8>)>,
    byte: Option<(usize, u8)>,
    ext: Option<&Vec<u8>>,
    push: Option<u8>,
) -> (r: bool)
    ensures
        all is Some ==> r && final(b)@ == all.unwrap()@,
        all is None && slice is Some ==> {
            let (s, e, n) = slice.unwrap();
            if s <= e <= old(b)@.len() {
                r && final(b)@ == splice(old(b)@, s as int, e as int, n@)
            } else {
                !r && *final(b) == *old(b)
            }
        },
        all is None && slice is None && byte is Some ==> {
            let (i, x) = byte.unwrap();
            if i < old(b)@.len() {
                r && final(b)@ == old(b)@.update(i as int, x)
            } else {
                !r && *final(b) == *old(b)
            }
        },
        all is None && slice is None && byte is None && ext is Some ==> r && final(b)@ == old(b)@
            + ext.unwrap()@,
        all is None && slice is None && byte is None && ext is None && push is Some ==> r
            && final(b)@ == old(b)@.push(push.unwrap()),
        all is None && slice is None && byte is None && ext is None && push is None ==> if old(b)@.len() > 0 {
            r && final(b)@ == old(b)@.drop_last()
        } else {
            !r && *final(b) == *old(b)
        },
{
    if let Some(x) = all {
        let mut fresh: Vec<u8> = Vec::new();
        extend_bytes(&mut fresh, x);
        assert(fresh@ =~= x@);
        *b = fresh;
        true
    } else if let Some((s, e, n)) = slice {
        if s <= e && e <= b.len() {
            *b = splice_exec(b, s, e, n);
            true
        } else {
            false
        }
    } else if let Some((i, x)) = byte {
        if i < b.len() {
            b.set(i, x);
            true
        } else {
            false
        }
    } else if let Some(x) = ext {
        extend_bytes(b, x);
        true
    } else if let Some(x) = push {
        b.push(x);
        true
    } else if b.len() > 0 {
        b.pop();
        true
    } else {
        false
    }
}


fn remove_id(ids: &mut Vec<U256>, x: U256) -> (r: bool)
    ensures
        ids_view(old(ids)@).contains(x@) ==> r && ids_view(final(ids)@) == ids_view(old(ids)@).remove(
            first_index(ids_view(old(ids)@), x@),
        ),
        !ids_view(old(ids)@).contains(x@) ==> !r && *final(ids) == *old(ids),
{
    let ghost v = ids_view(ids@);
    let mut i: usize = 0;
    while i < ids.len()
        invariant
            i <= ids.len(),
            v == ids_view(ids@),
            *ids == *old(ids),
            forall|j: int| 0 <= j < i ==> v[j] != x@,
        decreases ids.len() - i,
    {
        if ids[i].same(&x) {
            proof {
                assert(v[i as int] == x@);
                assert(v.contains(x@));
                assert(exists|k: int|
                    0 <= k < v.len() && v[k] == x@ && forall|j: int| 0 <= j < k ==> v[j] != x@);
                let k = first_index(v, x@);
                assert(0 <= k < v.len() && v[k] == x@ && forall|j: int| 0 <= j < k ==> v[j] != x@);
                if k < i as int {
                    assert(v[k] != x@);
                } else if k > i as int {
                    assert(v[i as int] != x@);
                }
            }
            ids.remove(i);
            assert(ids_view(ids@) =~= v.remove(i as int));
            return true;
        }
        i = i + 1;
    }
    assert(!v.contains(x@));
    false
}

impl Token {
    /// A free token of `program_id` owned by `owner_id`, with nothing in it.
    pub fn new(program_id: Address, owner_id: Address) -> (r: Token)
        ensures
            r@ == (TokenState {
                program_id,
                owner_id,
                balance: 0,
                metadata: Seq::empty(),
                token_ids: Seq::empty(),
                allowance: Seq::empty(),
                approvals: Seq::empty(),
                data: Seq::empty(),
                status: Status::Free,
            }),
            r.wf(),
    {
        let r = Token {
            program_id,
            owner_id,
            balance: U256::zero(),
            metadata: Metadata::new(),
            token_ids: Vec::new(),
            allowance: Vec::new(),
            approvals: Vec::new(),
            data: ArbitraryData::new(),
            status: Status::Free,
        };
        assert(r@.token_ids =~= Seq::empty());
        assert(r@.allowance =~= Seq::empty());
        assert(r@.approvals =~= Seq::empty());
        r
    }

    /// No address has two allowance entries, nor two approval entries.
    pub open spec fn wf(&self) -> bool {
        entries_ok(entries_view(self.allowance@)) && entries_ok(entries_view(self.approvals@))
    }

    /// Whether the allowance and approval entries stand in ascending order of address, each
    /// address once.
    pub fn is_well_formed(&self) -> (r: bool)
        ensures
            r == self.wf(),
    {
        entries_ok_exec(&self.allowance) && entries_ok_exec(&self.approvals)
    }

    pub fn program_id(&self) -> (r: Address)
        ensures
            r == self.program_id,
    {
        self.program_id
    }

    pub fn owner_id(&self) -> (r: Address)
        ensures
            r == self.owner_id,
    {
        self.owner_id
    }

    pub fn balance(&self) -> (r: U256)
        ensures
            r == self.balance,
    {
        self.balance
    }

    pub fn metadata(&self) -> (r: Metadata)
        ensures
            r.0@ == self.metadata.0@,
    {
        let mut v: Vec<u8> = Vec::new();
        extend_bytes(&mut v, &self.metadata.0);
        assert(v@ =~= self.metadata.0@);
        Metadata(v)
    }

    pub fn token_ids(&self) -> (r: Vec<U256>)
        ensures
            r@ == self.token_ids@,
    {
        let mut v: Vec<U256> = Vec::new();
        extend_ids(&mut v, &self.token_ids);
        assert(v@ =~= self.token_ids@);
        v
    }

    /// The allowance entries, in ascending order of address, each address once.
    pub fn allowance(&self) -> (r: Vec<(Address, U256)>)
        requires
            self.wf(),
        ensures
            r@ == self.allowance@,
            keys_sorted(entries_view(r@)),
            keys_unique(entries_view(r@)),
    {
        copy_entries(&self.allowance)
    }

    /// The approvals entries, in ascending order of address, each address once.
    pub fn approvals(&self) -> (r: Vec<(Address, U256)>)
        requires
            self.wf(),
        ensures
            r@ == self.approvals@,
            keys_sorted(entries_view(r@)),
            keys_unique(entries_view(r@)),
    {
        copy_entries(&self.approvals)
    }

    pub fn data(&self) -> (r: ArbitraryData)
        ensures
            r.0@ == self.data.0@,
    {
        let mut v: Vec<u8> = Vec::new();
        extend_bytes(&mut v, &self.data.0);
        assert(v@ =~= self.data.0@);
        ArbitraryData(v)
    }

    pub fn status(&self) -> (r: Status)
        ensures
            r == self.status,
    {
        self.status
    }

    /// Adds `receive` to the balance, then takes `send` from it. A locked token refuses the
    /// change and stays as it was.
    pub fn update_balance(&mut self, receive: U256, send: U256) -> (r: Result<(), DiffError>)
        requires
            old(self).balance@ + receive@ <= u256_max(),
            send@ <= old(self).balance@ + receive@,
        ensures
            old(self).status == Status::Locked ==> r == Err::<(), DiffError>(DiffError::Locked)
                && *final(self) == *old(self),
            old(self).status == Status::Free ==> r is Ok && final(self).balance@ == old(self).balance@
                + receive@ - send@ && final(self)@ == (TokenState {
                balance: final(self).balance@,
                ..old(self)@
            }),
            final(self).wf() == old(self).wf(),
    {
        if self.status == Status::Locked {
            return Err(DiffError::Locked);
        }
        match self.balance.checked_add(&receive) {
            Some(b) => match b.checked_sub(&send) {
                Some(c) => {
                    self.balance = c;
                },
                None => {},
            },
            None => {},
        }
        Ok(())
    }

    /// Adds the balance of `rhs`, a token of the same program, to this one. A locked token
    /// refuses the change and stays as it was.
    pub fn add_assign(&mut self, rhs: Token) -> (r: Result<(), DiffError>)
        requires
            rhs.program_id == old(self).program_id,
            old(self).balance@ + rhs.balance@ <= u256_max(),
        ensures
            old(self).status == Status::Locked ==> r == Err::<(), DiffError>(DiffError::Locked)
                && *final(self) == *old(self),
            old(self).status == Status::Free ==> r is Ok && final(self)@ == (TokenState {
                balance: old(self).balance@ + rhs.balance@,
                ..old(self)@
            }),
            final(self).wf() == old(self).wf(),
    {
        self.update_balance(rhs.balance(), U256::zero())
    }

    /// Takes the balance of `rhs`, a token of the same program, from this one. A locked token
    /// refuses the change and stays as it was.
    pub fn sub_assign(&mut self, rhs: Token) -> (r: Result<(), DiffError>)
        requires
            rhs.program_id == old(self).program_id,
            rhs.balance@ <= old(self).balance@,
        ensures
            old(self).status == Status::Locked ==> r == Err::<(), DiffError>(DiffError::Locked)
                && *final(self) == *old(self),
            old(self).status == Status::Free ==> r is Ok && final(self)@ == (TokenState {
                balance: (old(self).balance@ - rhs.balance@) as nat,
                ..old(self)@
            }),
            final(self).wf() == old(self).wf(),
    {
        proof {
            crate::amount::lemma_view_bounds(self.balance);
        }
        self.update_balance(U256::zero(), rhs.balance())
    }

    /// Applies one diff. On success the token is `apply_spec` of its old state; on failure it
    /// is left exactly as it was.
    pub fn apply(&mut self, d: &TokenFieldValue) -> (r: Result<(), DiffError>)
        requires
            old(self).wf(),
        ensures
            match apply_spec(old(self)@, *d) {
                Ok(t) => r is Ok && final(self)@ == t,
                Err(e) => r == Err::<(), DiffError>(e) && *final(self) == *old(self),
            },
            final(self).wf(),
    {
        proof {
            reveal(apply_spec);
        }
        match d {
            TokenFieldValue::Balance(v) => {
                if self.status == Status::Locked {
                    return Err(DiffError::Locked);
                }
                match v {
                    BalanceValue::Credit(x) => match self.balance.checked_add(x) {
                        Some(b) => {
                            self.balance = b;
                            Ok(())
                        },
                        None => Err(DiffError::Overflow),
                    },
                    BalanceValue::Debit(x) => match self.balance.checked_sub(x) {
                        Some(b) => {
                            self.balance = b;
                            Ok(())
                        },
                        None => Err(DiffError::InsufficientBalance),
                    },
                }
            },
            TokenFieldValue::Metadata(v) => {
                let ok = match v {
                    MetadataValue::ReplaceAll(m) => edit_bytes(
                        &mut self.metadata.0,
                        Some(&m.0),
                        None,
                        None,
                        None,
                        None,
                    ),
                    MetadataValue::ReplaceSlice(s, e, n) => edit_bytes(
                        &mut self.metadata.0,
                        None,
                        Some((*s, *e, n)),
                        None,
                        None,
                        None,
                    ),
                    MetadataValue::ReplaceByte(i, x) => edit_bytes(
                        &mut self.metadata.0,
                        None,
                        None,
                        Some((*i, *x)),
                        None,
                        None,
                    ),
                    MetadataValue::Extend(m) => edit_bytes(
                        &mut self.metadata.0,
                        None,
                        None,
                        None,
                        Some(&m.0),
                        None,
                    ),
                    MetadataValue::Push(x) => edit_bytes(
                        &mut self.metadata.0,
                        None,
                        None,
                        None,
                        None,
                        Some(*x),
                    ),
                    MetadataValue::Pop => edit_bytes(
                        &mut self.metadata.0,
                        None,
                        None,
                        None,
                        None,
                        None,
                    ),
                };
                if ok {
                    Ok(())
                } else {
                    Err(DiffError::OutOfRange)
                }
            },
            TokenFieldValue::Data(v) => {
                let ok = match v {
                    DataValue::ReplaceAll(m) => edit_bytes(
                        &mut self.data.0,
                        Some(&m.0),
                        None,
                        None,
                        None,
                        None,
                    ),
                    DataValue::ReplaceSlice(s, e, n) => edit_bytes(
                        &mut self.data.0,
                        None,
                        Some((*s, *e, n)),
                        None,
                        None,
                        None,
                    ),
                    DataValue::ReplaceByte(i, x) => edit_bytes(
                        &mut self.data.0,
                        None,
                        None,
                        Some((*i, *x)),
                        None,
                        None,
                    ),
                    DataValue::Extend(m) => edit_bytes(
                        &mut self.data.0,
                        None,
                        None,
                        None,
                        Some(&m.0),
                        None,
                    ),
                    DataValue::Push(x) => edit_bytes(
                        &mut self.data.0,
                        None,
                        None,
                        None,
                        None,
                        Some(*x),
                    ),
                    DataValue::Pop => edit_bytes(&mut self.data.0, None, None, None, None, None),
                };
                if ok {
                    Ok(())
                } else {
                    Err(DiffError::OutOfRange)
                }
            },
            TokenFieldValue::TokenIds(v) => match v {
                TokenIdValue::Push(x) => {
                    let ghost before = ids_view(self.token_ids@);
                    self.token_ids.push(*x);
                    assert(ids_view(self.token_ids@) =~= before.push(x@));
                    Ok(())
                },
                TokenIdValue::Extend(xs) => {
                    extend_ids(&mut self.token_ids, xs);
                    Ok(())
                },
                TokenIdValue::Insert(i, x) => {
                    if *i <= self.token_ids.len() {
                        let ghost before = ids_view(self.token_ids@);
                        self.token_ids.insert(*i, *x);
                        assert(ids_view(self.token_ids@) =~= before.insert(*i as int, x@));
                        Ok(())
                    } else {
                        Err(DiffError::OutOfRange)
                    }
                },
                TokenIdValue::Pop => {
                    if self.token_ids.len() > 0 {
                        let ghost before = ids_view(self.token_ids@);
                        self.token_ids.pop();
                        assert(ids_view(self.token_ids@) =~= before.drop_last());
                        Ok(())
                    } else {
                        Err(DiffError::OutOfRange)
                    }
                },
                TokenIdValue::Remove(x) => {
                    if remove_id(&mut self.token_ids, *x) {
                        Ok(())
                    } else {
                        Err(DiffError::NotFound)
                    }
                },
            },
            TokenFieldValue::Allowance(v) => match v {
                AllowanceValue::Insert(a, n) => {
                    put_entry_exec(&mut self.allowance, *a, *n);
                    Ok(())
                },
                AllowanceValue::Extend(s) => {
                    put_entries_exec(&mut self.allowance, s);
                    Ok(())
                },
                AllowanceValue::Remove(a, n) => take_entry_exec(&mut self.allowance, *a, *n),
            },
            TokenFieldValue::Approvals(v) => match v {
                ApprovalsValue::Insert(a, n) => {
                    put_entry_exec(&mut self.approvals, *a, *n);
                    Ok(())
                },
                ApprovalsValue::Extend(s) => {
                    put_entries_exec(&mut self.approvals, s);
                    Ok(())
                },
                ApprovalsValue::Remove(a, n) => take_entry_exec(&mut self.approvals, *a, *n),
            },
            TokenFieldValue::Status(v) => {
                self.status = match v {
                    StatusValue::Reverse => match self.status {
                        Status::Locked => Status::Free,
                        Status::Free => Status::Locked,
                    },
                    StatusValue::Lock => Status::Locked,
                    StatusValue::Unlock => Status::Free,
                };
                Ok(())
            },
        }
    }
}

fn copy_entries(m: &Vec<(Address, U256)>) -> (r: Vec<(Address, U256)>)
    ensures
        r@ == m@,
{
    let mut r: Vec<(Address, U256)> = Vec::new();
    let mut i: usize = 0;
    while i < m.len()
        invariant
            i <= m.len(),
            r@ == m@.subrange(0, i as int),
        decreases m.len() - i,
    {
        r.push(m[i]);
        i = i + 1;
        assert(r@ =~= m@.subrange(0, i as int));
    }
    assert(m@.subrange(0, m.len() as int) =~= m@);
    r
}

} // verus!
