//! Unsigned 256-bit amounts in base units, as four little-endian 64-bit limbs.
use vstd::prelude::*;

verus! {

/// The number of distinct amounts: 2^256.
pub open spec fn amount_bound() -> nat {
    0x1_0000_0000_0000_0000 * (0x1_0000_0000_0000_0000 * (0x1_0000_0000_0000_0000
        * 0x1_0000_0000_0000_0000))
}

/// The value of four little-endian 64-bit limbs.
pub open spec fn limbs_value(l0: int, l1: int, l2: int, l3: int) -> int {
    l0 + 0x1_0000_0000_0000_0000 * (l1 + 0x1_0000_0000_0000_0000 * (l2 + 0x1_0000_0000_0000_0000
        * l3))
}

/// A non-negative integer below 2^256, in the chain's smallest unit.
#[derive(Clone, Copy, Debug, PartialEq, Eq, Structural)]
pub struct Amount {
    pub l0: u64,
    pub l1: u64,
    pub l2: u64,
    pub l3: u64,
}

impl View for Amount {
    type V = nat;

    open spec fn view(&self) -> nat {
        limbs_value(self.l0 as int, self.l1 as int, self.l2 as int, self.l3 as int) as nat
    }
}

impl Amount {
    pub fn zero() -> (r: Amount)
        ensures
            r@ == 0,
    {
        Amount { l0: 0, l1: 0, l2: 0, l3: 0 }
    }

    pub fn from_u64(v: u64) -> (r: Amount)
        ensures
            r@ == v,
    {
        Amount { l0: v, l1: 0, l2: 0, l3: 0 }
    }

    pub fn from_u128(v: u128) -> (r: Amount)
        ensures
            r@ == v,
    {
        let lo = (v % 0x1_0000_0000_0000_0000) as u64;
        let hi = (v / 0x1_0000_0000_0000_0000) as u64;
        Amount { l0: lo, l1: hi, l2: 0, l3: 0 }
    }

    pub fn is_zero(&self) -> (r: bool)
        ensures
            r == (self@ == 0),
    {
        self.l0 == 0 && self.l1 == 0 && self.l2 == 0 && self.l3 == 0
    }

    /// Whether `self` is strictly below `other`.
    pub fn lt(&self, other: &Amount) -> (r: bool)
        ensures
            r == (self@ < other@),
    {
        if self.l3 != other.l3 {
            self.l3 < other.l3
        } else if self.l2 != other.l2 {
            self.l2 < other.l2
        } else if self.l1 != other.l1 {
            self.l1 < other.l1
        } else {
            self.l0 < other.l0
        }
    }

    /// The sum, or `None` when it does not fit in 256 bits.
    pub fn checked_add(&self, other: &Amount) -> (r: Option<Amount>)
        ensures
            match r {
                Some(s) => s@ == self@ + other@,
                None => self@ + other@ >= amount_bound(),
            },
    {
        let s0 = self.l0 as u128 + other.l0 as u128;
        let o0 = (s0 % 0x1_0000_0000_0000_0000) as u64;
        let c0 = s0 / 0x1_0000_0000_0000_0000;
        let s1 = self.l1 as u128 + other.l1 as u128 + c0;
        let o1 = (s1 % 0x1_0000_0000_0000_0000) as u64;
        let c1 = s1 / 0x1_0000_0000_0000_0000;
        let s2 = self.l2 as u128 + other.l2 as u128 + c1;
        let o2 = (s2 % 0x1_0000_0000_0000_0000) as u64;
        let c2 = s2 / 0x1_0000_0000_0000_0000;
        let s3 = self.l3 as u128 + other.l3 as u128 + c2;
        let o3 = (s3 % 0x1_0000_0000_0000_0000) as u64;
        let c3 = s3 / 0x1_0000_0000_0000_0000;
        proof {
            lemma_carry_chain(self.l0 + other.l0, self.l1 + other.l1, self.l2 + other.l2,
                self.l3 + other.l3, o0 as int, o1 as int, o2 as int, o3 as int, c0 as int,
                c1 as int, c2 as int, c3 as int);
        }
        if c3 != 0 {
            None
        } else {
            Some(Amount { l0: o0, l1: o1, l2: o2, l3: o3 })
        }
    }

    /// `self * k + d`, or `None` when it does not fit in 256 bits.
    pub fn checked_mul_add(&self, k: u64, d: u64) -> (r: Option<Amount>)
        ensures
            match r {
                Some(s) => s@ == self@ * k + d,
                None => self@ * k + d >= amount_bound(),
            },
    {
        let (o0, c0) = mul_limb(self.l0, k, d);
        let (o1, c1) = mul_limb(self.l1, k, c0);
        let (o2, c2) = mul_limb(self.l2, k, c1);
        let (o3, c3) = mul_limb(self.l3, k, c2);
        proof {
            lemma_mul_limbs(self.l0 as int, self.l1 as int, self.l2 as int, self.l3 as int,
                k as int, d as int);
            lemma_carry_chain(self.l0 * k + d, self.l1 * k, self.l2 * k, self.l3 * k, o0 as int,
                o1 as int, o2 as int, o3 as int, c0 as int, c1 as int, c2 as int, c3 as int);
        }
        if c3 != 0 {
            None
        } else {
            Some(Amount { l0: o0, l1: o1, l2: o2, l3: o3 })
        }
    }

    /// The product, or `None` when it does not fit in 256 bits.
    pub fn checked_mul_u64(&self, k: u64) -> (r: Option<Amount>)
        ensures
            match r {
                Some(s) => s@ == self@ * k,
                None => self@ * k >= amount_bound(),
            },
    {
        self.checked_mul_add(k, 0)
    }

    /// Quotient and remainder of a division by ten.
    pub fn div_rem_10(&self) -> (r: (Amount, u64))
        ensures
            self@ == r.0@ * 10 + r.1,
            r.1 < 10,
    {
        let (q3, r3) = div_limb_10(0, self.l3);
        let (q2, r2) = div_limb_10(r3, self.l2);
        let (q1, r1) = div_limb_10(r2, self.l1);
        let (q0, r0) = div_limb_10(r1, self.l0);
        proof {
            lemma_borrow_chain(self.l0 as int, self.l1 as int, self.l2 as int, self.l3 as int,
                q0 as int, q1 as int, q2 as int, q3 as int, r0 as int, r1 as int, r2 as int,
                r3 as int);
        }
        (Amount { l0: q0, l1: q1, l2: q2, l3: q3 }, r0)
    }
}

/// One limb of a long multiplication: `l * k + c` as a low limb and a carry.
fn mul_limb(l: u64, k: u64, c: u64) -> (r: (u64, u64))
    ensures
        r.0 + 0x1_0000_0000_0000_0000 * r.1 == l * k + c,
{
    proof {
        lemma_limb_product(l as nat, k as nat, c as nat);
    }
    let p = l as u128 * k as u128 + c as u128;
    ((p % 0x1_0000_0000_0000_0000) as u64, (p / 0x1_0000_0000_0000_0000) as u64)
}

/// One limb of a long division by ten, with the remainder carried in.
fn div_limb_10(rem: u64, l: u64) -> (r: (u64, u64))
    requires
        rem < 10,
    ensures
        rem * 0x1_0000_0000_0000_0000 + l == r.0 * 10 + r.1,
        r.1 < 10,
{
    let c = rem as u128 * 0x1_0000_0000_0000_0000 + l as u128;
    ((c / 10) as u64, (c % 10) as u64)
}

proof fn lemma_carry_chain(
    x0: int,
    x1: int,
    x2: int,
    x3: int,
    o0: int,
    o1: int,
    o2: int,
    o3: int,
    c0: int,
    c1: int,
    c2: int,
    c3: int,
)
    requires
        o0 + 0x1_0000_0000_0000_0000 * c0 == x0,
        o1 + 0x1_0000_0000_0000_0000 * c1 == x1 + c0,
        o2 + 0x1_0000_0000_0000_0000 * c2 == x2 + c1,
        o3 + 0x1_0000_0000_0000_0000 * c3 == x3 + c2,
    ensures
        limbs_value(o0, o1, o2, o3) + amount_bound() * c3 == limbs_value(x0, x1, x2, x3),
{
    assert(limbs_value(o0, o1, o2, o3 + 0x1_0000_0000_0000_0000 * c3) == limbs_value(
        x0,
        x1,
        x2,
        x3,
    ));
    assert(limbs_value(o0, o1, o2, o3 + 0x1_0000_0000_0000_0000 * c3) == limbs_value(
        o0,
        o1,
        o2,
        o3,
    ) + amount_bound() * c3) by (nonlinear_arith);
}

proof fn lemma_borrow_chain(
    l0: int,
    l1: int,
    l2: int,
    l3: int,
    q0: int,
    q1: int,
    q2: int,
    q3: int,
    r0: int,
    r1: int,
    r2: int,
    r3: int,
)
    requires
        l3 == q3 * 10 + r3,
        r3 * 0x1_0000_0000_0000_0000 + l2 == q2 * 10 + r2,
        r2 * 0x1_0000_0000_0000_0000 + l1 == q1 * 10 + r1,
        r1 * 0x1_0000_0000_0000_0000 + l0 == q0 * 10 + r0,
    ensures
        limbs_value(l0, l1, l2, l3) == limbs_value(q0, q1, q2, q3) * 10 + r0,
{
}

proof fn lemma_limb_product(l: nat, k: nat, c: nat)
    requires
        l < 0x1_0000_0000_0000_0000,
        k < 0x1_0000_0000_0000_0000,
        c < 0x1_0000_0000_0000_0000,
    ensures
        l * k + c < 0x1_0000_0000_0000_0000 * 0x1_0000_0000_0000_0000,
        (l * k + c) / 0x1_0000_0000_0000_0000 < 0x1_0000_0000_0000_0000,
{
    assert(l * k + c < 0x1_0000_0000_0000_0000 * 0x1_0000_0000_0000_0000) by (nonlinear_arith)
        requires
            l < 0x1_0000_0000_0000_0000,
            k < 0x1_0000_0000_0000_0000,
            c < 0x1_0000_0000_0000_0000,
    ;
}

proof fn lemma_mul_limbs(l0: int, l1: int, l2: int, l3: int, k: int, d: int)
    ensures
        limbs_value(l0, l1, l2, l3) * k + d == limbs_value(l0 * k + d, l1 * k, l2 * k, l3 * k),
{
    assert(limbs_value(l0, l1, l2, l3) * k + d == limbs_value(l0 * k + d, l1 * k, l2 * k, l3 * k))
        by (nonlinear_arith);
}

} // verus!
