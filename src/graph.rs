//! Per-token dependency graphs of transactions, their replay, and token witnesses.
use vstd::prelude::*;

use crate::account::{RecoverableSignature, Transaction};
use crate::address::{Address, Digest};
use crate::token::{apply_spec, DiffError, Token, TokenFieldValue, TokenState};

verus! {

/// A transaction, the diff it applied to the token, and the digests it depends on.
#[derive(Clone, Debug, PartialEq, Eq, Hash)]
pub struct GraphEntry {
    pub transaction: Transaction,
    pub diff: TokenFieldValue,
    pub dependencies: Vec<Digest>,
}

/// Why an entry was not added to a graph.
#[derive(Clone, Copy, Debug, PartialEq, Eq, Structural, Hash)]
pub enum GraphError {
    /// An entry of that digest is already there.
    Duplicate,
    /// A dependency is not in the graph yet.
    MissingDependency,
}

pub open spec fn digest_of(e: GraphEntry) -> Digest {
    e.transaction.digest
}

pub open spec fn holds(es: Seq<GraphEntry>, d: Digest) -> bool {
    exists|j: int| 0 <= j < es.len() && digest_of(es[j]) == d
}

/// Every dependency of every entry stands before it, and no digest occurs twice: the graph is
/// acyclic, and its order is a topological order.
pub open spec fn graph_wf(es: Seq<GraphEntry>) -> bool {
    &&& forall|i: int, j: int| 0 <= i < j < es.len() ==> digest_of(es[i]) != digest_of(es[j])
    &&& forall|i: int, k: int|
        0 <= i < es.len() && 0 <= k < es[i].dependencies@.len() ==> holds(
            es.subrange(0, i),
            #[trigger] es[i].dependencies@[k],
        )
}

pub open spec fn diffs_of(es: Seq<GraphEntry>) -> Seq<TokenFieldValue> {
    es.map_values(|e: GraphEntry| e.diff)
}

/// The state after applying `ds` in order, or the first refusal.
pub open spec fn replay_spec(t: TokenState, ds: Seq<TokenFieldValue>) -> Result<TokenState, DiffError>
    decreases ds.len(),
{
    if ds.len() == 0 {
        Ok(t)
    } else {
        match replay_spec(t, ds.drop_last()) {
            Ok(s) => apply_spec(s, ds.last()),
            Err(e) => Err(e),
        }
    }
}

/// Replaying two windows one after the other is replaying them joined.
pub proof fn lemma_replay_chain(t: TokenState, a: Seq<TokenFieldValue>, b: Seq<TokenFieldValue>)
    ensures
        replay_spec(t, a + b) == match replay_spec(t, a) {
            Ok(s) => replay_spec(s, b),
            Err(e) => Err(e),
        },
    decreases b.len(),
{
    if b.len() == 0 {
        assert(a + b =~= a);
    } else {
        lemma_replay_chain(t, a, b.drop_last());
        assert((a + b).drop_last() =~= a + b.drop_last());
        assert((a + b).last() == b.last());
    }
}

/// The transactions of one token's window, in an order where dependencies come first.
pub struct TransactionGraph {
    entries: Vec<GraphEntry>,
}

impl TransactionGraph {
    pub closed spec fn entries(&self) -> Seq<GraphEntry> {
        self.entries@
    }

    pub open spec fn wf(&self) -> bool {
        graph_wf(self.entries())
    }

    /// An empty graph.
    pub fn new() -> (r: TransactionGraph)
        ensures
            r.entries().len() == 0,
            r.wf(),
    {
        TransactionGraph { entries: Vec::new() }
    }

    pub fn len(&self) -> (r: usize)
        ensures
            r == self.entries().len(),
    {
        self.entries.len()
    }

    /// Whether an entry of digest `d` is there.
    pub fn contains(&self, d: &Digest) -> (r: bool)
        ensures
            r == holds(self.entries(), *d),
    {
        let mut i: usize = 0;
        while i < self.entries.len()
            invariant
                i <= self.entries@.len(),
                forall|j: int| 0 <= j < i ==> digest_of(self.entries@[j]) != *d,
            decreases self.entries@.len() - i,
        {
            if self.entries[i].transaction.digest == *d {
                return true;
            }
            i = i + 1;
        }
        false
    }

    /// Adds `e` after the entries there, where its digest is new and each of its dependencies is
    /// already there; otherwise changes nothing.
    pub fn insert(&mut self, e: GraphEntry) -> (r: Result<(), GraphError>)
        requires
            old(self).wf(),
        ensures
            final(self).wf(),
            holds(old(self).entries(), digest_of(e)) ==> r == Err::<(), GraphError>(
                GraphError::Duplicate,
            ) && final(self).entries() == old(self).entries(),
            !holds(old(self).entries(), digest_of(e)) && !(forall|k: int|
                0 <= k < e.dependencies@.len() ==> holds(
                    old(self).entries(),
                    #[trigger] e.dependencies@[k],
                )) ==> r == Err::<(), GraphError>(GraphError::MissingDependency) && final(self).entries() == old(self).entries(),
            !holds(old(self).entries(), digest_of(e)) && (forall|k: int|
                0 <= k < e.dependencies@.len() ==> holds(
                    old(self).entries(),
                    #[trigger] e.dependencies@[k],
                )) ==> r is Ok && final(self).entries() == old(self).entries().push(e),
    {
        if self.contains(&e.transaction.digest) {
            return Err(GraphError::Duplicate);
        }
        let mut k: usize = 0;
        while k < e.dependencies.len()
            invariant
                k <= e.dependencies@.len(),
                self.entries@ == old(self).entries@,
                !holds(self.entries@, digest_of(e)),
                graph_wf(self.entries@),
                forall|m: int| 0 <= m < k ==> holds(self.entries@, #[trigger] e.dependencies@[m]),
            decreases e.dependencies@.len() - k,
        {
            if !self.contains(&e.dependencies[k]) {
                return Err(GraphError::MissingDependency);
            }
            k = k + 1;
        }
        let ghost es0 = self.entries@;
        self.entries.push(e);
        proof {
            let es = self.entries@;
            assert(es.subrange(0, es0.len() as int) =~= es0);
            assert forall|i: int, m: int|
                0 <= i < es.len() && 0 <= m < es[i].dependencies@.len() implies holds(
                es.subrange(0, i),
                #[trigger] es[i].dependencies@[m],
            ) by {
                if i < es0.len() {
                    assert(es.subrange(0, i) =~= es0.subrange(0, i));
                }
            }
            assert forall|i: int, j: int| 0 <= i < j < es.len() implies digest_of(es[i])
                != digest_of(es[j]) by {
                if j == es0.len() {
                    assert(es[i] == es0[i]);
                }
            }
        }
        Ok(())
    }
}

pub fn copy_token(t: &Token) -> (r: Token)
    requires
        t.wf(),
    ensures
        r@ == t@,
        r.wf(),
{
    Token {
        program_id: t.program_id(),
        owner_id: t.owner_id(),
        balance: t.balance(),
        metadata: t.metadata(),
        token_ids: t.token_ids(),
        allowance: t.allowance(),
        approvals: t.approvals(),
        data: t.data(),
        status: t.status(),
    }
}

/// Applies the diffs of `g`, in its order, to a copy of `init`.
pub fn replay(init: &Token, g: &TransactionGraph) -> (r: Result<Token, DiffError>)
    requires
        init.wf(),
    ensures
        match replay_spec(init@, diffs_of(g.entries())) {
            Ok(s) => r is Ok && r->Ok_0@ == s && r->Ok_0.wf(),
            Err(e) => r == Err::<Token, DiffError>(e),
        },
{
    let mut t = copy_token(init);
    let ghost ds = diffs_of(g.entries@);
    let mut i: usize = 0;
    assert(ds.subrange(0, 0) =~= Seq::<TokenFieldValue>::empty());
    while i < g.entries.len()
        invariant
            i <= g.entries@.len(),
            ds == diffs_of(g.entries@),
            t.wf(),
            replay_spec(init@, ds.subrange(0, i as int)) == Ok::<TokenState, DiffError>(t@),
        decreases g.entries@.len() - i,
    {
        assert(ds.subrange(0, i + 1).drop_last() =~= ds.subrange(0, i as int));
        match t.apply(&g.entries[i].diff) {
            Ok(()) => {},
            Err(e) => {
                proof {
                    lemma_replay_chain(init@, ds.subrange(0, i + 1), ds.subrange(i + 1, ds.len() as int));
                    assert(ds.subrange(0, i + 1) + ds.subrange(i + 1, ds.len() as int) =~= ds);
                }
                return Err(e);
            },
        }
        i = i + 1;
    }
    assert(ds.subrange(0, g.entries@.len() as int) =~= ds);
    Ok(t)
}

/// The format version of token witnesses.
pub const TOKEN_WITNESS_VERSION: &'static str = "0.1.0";

/// The durable proof of one window of a token's history: its state before, the transactions,
/// and its state after.
pub struct TokenWitness {
    user: Address,
    token: Address,
    init: Token,
    transactions: TransactionGraph,
    finalized: Box<Token>,
    sig: RecoverableSignature,
    version: String,
}

impl TokenWitness {
    /// Every witness holds: replaying its transactions on its initial state gives its final
    /// state.
    #[verifier::type_invariant]
    spec fn replays(&self) -> bool {
        replay_spec(self.init@, diffs_of(self.transactions.entries())) == Ok::<TokenState, DiffError>(
            self.finalized@,
        )
    }

    pub closed spec fn user_id(&self) -> Address {
        self.user
    }

    pub closed spec fn token_id(&self) -> Address {
        self.token
    }

    pub closed spec fn signature(&self) -> Seq<u8> {
        self.sig.0@
    }

    pub closed spec fn version_text(&self) -> Seq<char> {
        self.version@
    }

    pub closed spec fn init_state(&self) -> TokenState {
        self.init@
    }

    pub closed spec fn final_state(&self) -> TokenState {
        self.finalized@
    }

    pub closed spec fn graph(&self) -> Seq<GraphEntry> {
        self.transactions.entries()
    }

    /// Witnesses `transactions` applied to `init`: the final state is their replay, and a
    /// window whose replay is refused gets no witness.
    pub fn new(
        user: Address,
        token: Address,
        init: Token,
        transactions: TransactionGraph,
        sig: RecoverableSignature,
        version: String,
    ) -> (r: Result<TokenWitness, DiffError>)
        requires
            init.wf(),
        ensures
            match replay_spec(init@, diffs_of(transactions.entries())) {
                Ok(s) => r is Ok && r->Ok_0.init_state() == init@ && r->Ok_0.final_state() == s
                    && r->Ok_0.graph() == transactions.entries() && r->Ok_0.user_id() == user
                    && r->Ok_0.token_id() == token && r->Ok_0.signature() == sig.0@
                    && r->Ok_0.version_text() == version@,
                Err(e) => r == Err::<TokenWitness, DiffError>(e),
            },
    {
        match replay(&init, &transactions) {
            Ok(fin) => Ok(
                TokenWitness {
                    user,
                    token,
                    init,
                    transactions,
                    finalized: Box::new(fin),
                    sig,
                    version,
                },
            ),
            Err(e) => Err(e),
        }
    }

    pub fn user(&self) -> (r: Address)
        ensures
            r == self.user_id(),
    {
        self.user
    }

    pub fn token(&self) -> (r: Address)
        ensures
            r == self.token_id(),
    {
        self.token
    }

    /// The signature over the witness.
    pub fn sig(&self) -> (r: &RecoverableSignature)
        ensures
            r.0@ == self.signature(),
    {
        &self.sig
    }

    /// The format version the witness was written in.
    pub fn version(&self) -> (r: &String)
        ensures
            r@ == self.version_text(),
    {
        &self.version
    }

    pub fn init(&self) -> (r: &Token)
        ensures
            r@ == self.init_state(),
            replay_spec(r@, diffs_of(self.graph())) == Ok::<TokenState, DiffError>(
                self.final_state(),
            ),
    {
        proof {
            use_type_invariant(self);
        }
        &self.init
    }

    /// The final state, which is the replay of the transactions on the initial state.
    pub fn finalized(&self) -> (r: &Token)
        ensures
            r@ == self.final_state(),
            replay_spec(self.init_state(), diffs_of(self.graph())) == Ok::<TokenState, DiffError>(r@),
    {
        proof {
            use_type_invariant(self);
        }
        &self.finalized
    }
}

} // verus!
