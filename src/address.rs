//! Fixed-width account and program identifiers.
use vstd::prelude::*;

verus! {

/// A 20-byte identifier of an account or a program.
#[derive(Clone, Copy, Debug, Eq, Hash)]
pub struct Address(pub [u8; 20]);

/// A 32-byte transaction digest.
#[derive(Clone, Copy, Debug, Eq, Hash)]
pub struct Digest(pub [u8; 32]);

/// The program that carries native value: twenty zero bytes.
pub fn eth_program_id() -> (r: Address)
    ensures
        r.0@ == Seq::new(20, |i: int| 0u8),
{
    let r = Address([0u8; 20]);
    assert(r.0@ =~= Seq::new(20, |i: int| 0u8));
    r
}

/// The second reserved program: nineteen zero bytes, then a one.
pub fn verse_program_id() -> (r: Address)
    ensures
        r.0@ == Seq::new(19, |i: int| 0u8).push(1u8),
{
    let mut b = [0u8; 20];
    b[19] = 1;
    let r = Address(b);
    assert(r.0@ =~= Seq::new(19, |i: int| 0u8).push(1u8));
    r
}

/// `a` and `b` agree before byte `i`, and at byte `i` the byte of `a` is smaller.
pub open spec fn first_smaller_at(a: Address, b: Address, i: int) -> bool {
    0 <= i < 20 && a.0@[i] < b.0@[i] && forall|j: int| 0 <= j < i ==> a.0@[j] == b.0@[j]
}

/// `a` comes before `b` when their bytes are compared in order.
pub open spec fn addr_lt(a: Address, b: Address) -> bool {
    exists|i: int| #[trigger] first_smaller_at(a, b, i)
}

/// No address comes before itself.
pub proof fn lemma_addr_lt_irreflexive(a: Address)
    ensures
        !addr_lt(a, a),
{
}

/// The order is transitive.
pub proof fn lemma_addr_lt_transitive(a: Address, b: Address, c: Address)
    requires
        addr_lt(a, b),
        addr_lt(b, c),
    ensures
        addr_lt(a, c),
{
    let i = choose|i: int| first_smaller_at(a, b, i);
    let k = choose|k: int| first_smaller_at(b, c, k);
    if i <= k {
        assert(first_smaller_at(a, c, i));
    } else {
        assert(first_smaller_at(a, c, k));
    }
}

proof fn lemma_first_difference(a: Address, b: Address, n: int)
    requires
        0 <= n <= 20,
        exists|k: int| 0 <= k < n && a.0@[k] != b.0@[k],
    ensures
        exists|i: int| first_smaller_at(a, b, i) || first_smaller_at(b, a, i),
    decreases n,
{
    if exists|k: int| 0 <= k < n - 1 && a.0@[k] != b.0@[k] {
        lemma_first_difference(a, b, n - 1);
    } else {
        let i = n - 1;
        if a.0@[i] < b.0@[i] {
            assert(first_smaller_at(a, b, i));
        } else {
            assert(first_smaller_at(b, a, i));
        }
    }
}

/// Of two different addresses, one comes before the other.
pub proof fn lemma_addr_lt_total(a: Address, b: Address)
    requires
        a != b,
    ensures
        addr_lt(a, b) || addr_lt(b, a),
{
    if forall|k: int| 0 <= k < 20 ==> a.0@[k] == b.0@[k] {
        assert(a.0 =~= b.0);
    }
    lemma_first_difference(a, b, 20);
}

/// Compares `a` with `b`: negative where `a` comes first, zero where they are equal, positive
/// where `b` comes first.
pub fn addr_cmp(a: &Address, b: &Address) -> (r: i8)
    ensures
        (r < 0) == addr_lt(*a, *b),
        (r == 0) == (*a == *b),
        (r > 0) == addr_lt(*b, *a),
{
    let mut i: usize = 0;
    while i < 20
        invariant
            i <= 20,
            forall|j: int| 0 <= j < i ==> a.0@[j] == b.0@[j],
        decreases 20 - i,
    {
        if a.0[i] < b.0[i] {
            assert(first_smaller_at(*a, *b, i as int));
            proof {
                if addr_lt(*b, *a) {
                    let k = choose|k: int| first_smaller_at(*b, *a, k);
                    if k > i as int {
                        assert(b.0@[i as int] == a.0@[i as int]);
                    }
                }
            }
            return -1;
        }
        if b.0[i] < a.0[i] {
            assert(first_smaller_at(*b, *a, i as int));
            proof {
                if addr_lt(*a, *b) {
                    let k = choose|k: int| first_smaller_at(*a, *b, k);
                    if k > i as int {
                        assert(a.0@[i as int] == b.0@[i as int]);
                    }
                }
            }
            return 1;
        }
        i = i + 1;
    }
    assert(a.0 =~= b.0);
    0
}

impl PartialEq for Address {
    fn eq(&self, o: &Address) -> (r: bool) {
        let mut i: usize = 0;
        while i < 20
            invariant
                i <= 20,
                forall|j: int| 0 <= j < i ==> self.0[j] == o.0[j],
            decreases 20 - i,
        {
            if self.0[i] != o.0[i] {
                return false;
            }
            i = i + 1;
        }
        assert(self.0 =~= o.0);
        true
    }
}

impl vstd::std_specs::cmp::PartialEqSpecImpl for Address {
    open spec fn obeys_eq_spec() -> bool {
        true
    }

    open spec fn eq_spec(&self, o: &Address) -> bool {
        self.0 == o.0
    }
}

impl PartialEq for Digest {
    fn eq(&self, o: &Digest) -> (r: bool) {
        let mut i: usize = 0;
        while i < 32
            invariant
                i <= 32,
                forall|j: int| 0 <= j < i ==> self.0[j] == o.0[j],
            decreases 32 - i,
        {
            if self.0[i] != o.0[i] {
                return false;
            }
            i = i + 1;
        }
        assert(self.0 =~= o.0);
        true
    }
}

impl vstd::std_specs::cmp::PartialEqSpecImpl for Digest {
    open spec fn obeys_eq_spec() -> bool {
        true
    }

    open spec fn eq_spec(&self, o: &Digest) -> bool {
        self.0 == o.0
    }
}

} // verus!
