//! Unsigned 256-bit amounts, held as two 128-bit halves.
use vstd::prelude::*;

verus! {

/// 2^128.
pub open spec fn half_base() -> nat {
    0x1_0000_0000_0000_0000_0000_0000_0000_0000nat
}

/// The largest value a `U256` can hold: 2^256 - 1.
pub open spec fn u256_max() -> nat {
    (half_base() * half_base() - 1) as nat
}

/// An unsigned 256-bit integer: `hi * 2^128 + lo`.
#[derive(Clone, Copy, Debug, PartialEq, Eq, Structural, PartialOrd, Ord, Hash)]
pub struct U256 {
    pub hi: u128,
    pub lo: u128,
}

impl View for U256 {
    type V = nat;

    open spec fn view(&self) -> nat {
        (self.hi as nat) * half_base() + (self.lo as nat)
    }
}

pub proof fn lemma_view_bounds(a: U256)
    ensures
        a@ <= u256_max(),
{
    assert((a.hi as nat) * half_base() <= (half_base() - 1) * half_base()) by (nonlinear_arith)
        requires a.hi < half_base();
}

proof fn lemma_view_unique(a: U256, b: U256)
    requires
        a@ == b@,
    ensures
        a == b,
{
    if a.hi < b.hi {
        assert((a.hi as nat) * half_base() + half_base() <= (b.hi as nat) * half_base())
            by (nonlinear_arith)
            requires a.hi < b.hi;
    } else if b.hi < a.hi {
        assert((b.hi as nat) * half_base() + half_base() <= (a.hi as nat) * half_base())
            by (nonlinear_arith)
            requires b.hi < a.hi;
    }
}

impl U256 {
    /// The value zero.
    pub fn zero() -> (r: U256)
        ensures
            r@ == 0,
    {
        U256 { hi: 0, lo: 0 }
    }

    /// A value that fits in 128 bits.
    pub fn from_u128(v: u128) -> (r: U256)
        ensures
            r@ == v as nat,
    {
        U256 { hi: 0, lo: v }
    }

    /// Whether the value is zero.
    pub fn is_zero(&self) -> (r: bool)
        ensures
            r == (self@ == 0),
    {
        self.hi == 0 && self.lo == 0
    }

    /// Equality of values.
    pub fn same(&self, other: &U256) -> (r: bool)
        ensures
            r == (self@ == other@),
    {
        proof {
            if self@ == other@ {
                lemma_view_unique(*self, *other);
            }
        }
        self.hi == other.hi && self.lo == other.lo
    }

    /// `self <= other` on values.
    pub fn le(&self, other: &U256) -> (r: bool)
        ensures
            r == (self@ <= other@),
    {
        if self.hi < other.hi {
            assert((self.hi as nat) * half_base() + half_base() <= (other.hi as nat) * half_base())
                by (nonlinear_arith)
                requires self.hi < other.hi;
            true
        } else if other.hi < self.hi {
            assert((other.hi as nat) * half_base() + half_base() <= (self.hi as nat) * half_base())
                by (nonlinear_arith)
                requires other.hi < self.hi;
            false
        } else {
            self.lo <= other.lo
        }
    }

    /// The sum, or `None` where it exceeds 2^256 - 1.
    pub fn checked_add(&self, other: &U256) -> (r: Option<U256>)
        ensures
            self@ + other@ <= u256_max() ==> r.is_some() && r.unwrap()@ == self@ + other@,
            self@ + other@ > u256_max() ==> r.is_none(),
    {
        proof {
            lemma_view_bounds(*self);
            lemma_view_bounds(*other);
        }
        let (lo, carry) = if self.lo <= u128::MAX - other.lo {
            (self.lo + other.lo, 0u128)
        } else {
            (self.lo - (u128::MAX - other.lo) - 1, 1u128)
        };
        assert((self.lo as nat) + (other.lo as nat) == (lo as nat) + (carry as nat) * half_base());
        if self.hi > u128::MAX - other.hi || self.hi + other.hi > u128::MAX - carry {
            assert((self.hi as nat) + (other.hi as nat) + (carry as nat) >= half_base());
            assert(self@ + other@ == ((self.hi as nat) + (other.hi as nat) + (carry as nat)) * half_base() + (lo as nat))
                by (nonlinear_arith)
                requires
                    (self.lo as nat) + (other.lo as nat) == (lo as nat) + (carry as nat) * half_base(),
                    self@ == (self.hi as nat) * half_base() + (self.lo as nat),
                    other@ == (other.hi as nat) * half_base() + (other.lo as nat);
            assert(((self.hi as nat) + (other.hi as nat) + (carry as nat)) * half_base() >= half_base() * half_base())
                by (nonlinear_arith)
                requires (self.hi as nat) + (other.hi as nat) + (carry as nat) >= half_base();
            None
        } else {
            let r = U256 { hi: self.hi + other.hi + carry, lo };
            assert(r@ == self@ + other@) by (nonlinear_arith)
                requires
                    (self.lo as nat) + (other.lo as nat) == (lo as nat) + (carry as nat) * half_base(),
                    self@ == (self.hi as nat) * half_base() + (self.lo as nat),
                    other@ == (other.hi as nat) * half_base() + (other.lo as nat),
                    r@ == ((self.hi + other.hi + carry) as nat) * half_base() + (lo as nat),
                    (self.hi + other.hi + carry) as nat == (self.hi as nat) + (other.hi as nat) + (carry as nat);
            Some(r)
        }
    }

    /// The difference, or `None` where `other` exceeds `self`.
    pub fn checked_sub(&self, other: &U256) -> (r: Option<U256>)
        ensures
            other@ <= self@ ==> r.is_some() && r.unwrap()@ == self@ - other@,
            other@ > self@ ==> r.is_none(),
    {
        if !other.le(self) {
            return None;
        }
        let (lo, borrow) = if other.lo <= self.lo {
            (self.lo - other.lo, 0u128)
        } else {
            (u128::MAX - (other.lo - self.lo) + 1, 1u128)
        };
        assert((self.lo as nat) + (borrow as nat) * half_base() == (lo as nat) + (other.lo as nat));
        if self.hi < other.hi + borrow {
            assert(false) by (nonlinear_arith)
                requires
                    (self.lo as nat) + (borrow as nat) * half_base() == (lo as nat) + (other.lo as nat),
                    other@ <= self@,
                    self@ == (self.hi as nat) * half_base() + (self.lo as nat),
                    other@ == (other.hi as nat) * half_base() + (other.lo as nat),
                    (self.hi as int) < (other.hi as int) + (borrow as int),
                    (lo as nat) < half_base(),
                    (other.lo as nat) < half_base(),
                    (self.lo as nat) < half_base(),
                    half_base() > 0;
        }
        let r = U256 { hi: self.hi - other.hi - borrow, lo };
        assert(r@ == self@ - other@) by (nonlinear_arith)
            requires
                (self.lo as nat) + (borrow as nat) * half_base() == (lo as nat) + (other.lo as nat),
                self@ == (self.hi as nat) * half_base() + (self.lo as nat),
                other@ == (other.hi as nat) * half_base() + (other.lo as nat),
                r@ == ((self.hi - other.hi - borrow) as nat) * half_base() + (lo as nat),
                ((self.hi - other.hi - borrow) as int) == (self.hi as int) - (other.hi as int) - (borrow as int),
                other@ <= self@;
        Some(r)
    }
}

} // verus!
