//! Natural numbers of any size.

use vstd::arithmetic::power2::{lemma2_to64, lemma_pow2_adds, lemma_pow2_pos, pow2};
use vstd::prelude::*;

verus! {

/// A natural number as digits to the base two to the 32nd, the lowest first.
pub struct BigNat {
    limbs: Vec<u32>,
}

/// The digit at `i`, which is zero past the end.
spec fn limb(s: Seq<u32>, i: int) -> int {
    if 0 <= i < s.len() {
        s[i] as int
    } else {
        0
    }
}

/// The weight of the digit at `i`.
spec fn weight(i: int) -> int {
    pow2((32 * i) as nat) as int
}

/// The sum of the lowest `n` digits, each by its weight.
spec fn sum(s: Seq<u32>, n: int) -> int
    decreases n,
{
    if n <= 0 {
        0
    } else {
        sum(s, n - 1) + limb(s, n - 1) * weight(n - 1)
    }
}

proof fn lemma_weight(i: int)
    requires
        0 <= i,
    ensures
        weight(0) == 1,
        weight(i) > 0,
        weight(i + 1) == 0x1_0000_0000 * weight(i),
{
    lemma_pow2_pos((32 * i) as nat);
    lemma2_to64();
    lemma_pow2_adds(32, (32 * i) as nat);
}

proof fn lemma_sum_past(s: Seq<u32>, n: int)
    requires
        n >= s.len(),
    ensures
        sum(s, n) == sum(s, s.len() as int),
    decreases n - s.len(),
{
    if n > s.len() {
        lemma_sum_past(s, n - 1);
        assert(limb(s, n - 1) * weight(n - 1) == 0) by (nonlinear_arith)
            requires
                limb(s, n - 1) == 0,
        ;
    }
}

proof fn lemma_sum_prefix(s: Seq<u32>, t: Seq<u32>, n: int)
    requires
        forall|i: int| 0 <= i < n ==> limb(s, i) == limb(t, i),
    ensures
        sum(s, n) == sum(t, n),
    decreases n,
{
    if n > 0 {
        lemma_sum_prefix(s, t, n - 1);
    }
}

proof fn lemma_sum_bound(s: Seq<u32>, n: int)
    requires
        0 <= n,
    ensures
        0 <= sum(s, n) < weight(n),
    decreases n,
{
    if n > 0 {
        lemma_sum_bound(s, n - 1);
        lemma_weight(n - 1);
        let w = weight(n - 1);
        let l = limb(s, n - 1);
        assert(0 <= l * w && l * w + w <= 0x1_0000_0000 * w) by (nonlinear_arith)
            requires
                0 <= l < 0x1_0000_0000,
                w > 0,
        ;
    } else {
        lemma_weight(0);
    }
}

proof fn lemma_sum_push(s: Seq<u32>, x: u32)
    ensures
        sum(s.push(x), s.len() as int + 1) == sum(s, s.len() as int) + x * weight(s.len() as int),
{
    lemma_sum_prefix(s, s.push(x), s.len() as int);
}

impl BigNat {
    /// The number.
    pub closed spec fn value(&self) -> nat {
        sum(self.limbs@, self.limbs@.len() as int) as nat
    }

    /// The number as a sum, which is never negative.
    proof fn lemma_value(&self)
        ensures
            self.value() == sum(self.limbs@, self.limbs@.len() as int),
    {
        lemma_sum_bound(self.limbs@, self.limbs@.len() as int);
    }

    /// The number `x`.
    pub fn from_u32(x: u32) -> (r: BigNat)
        ensures
            r.value() == x,
    {
        let mut limbs: Vec<u32> = Vec::new();
        limbs.push(x);
        proof {
            lemma_weight(0);
            assert(sum(limbs@, 0) == 0);
            assert(limb(limbs@, 0) * weight(0) == x) by (nonlinear_arith)
                requires
                    limb(limbs@, 0) == x,
                    weight(0) == 1,
            ;
            assert(sum(limbs@, 1) == x);
        }
        BigNat { limbs }
    }

    /// The same number again.
    pub fn copy(&self) -> (r: BigNat)
        ensures
            r.value() == self.value(),
    {
        let mut limbs: Vec<u32> = Vec::new();
        let mut i: usize = 0;
        while i < self.limbs.len()
            invariant
                i <= self.limbs@.len(),
                limbs@ == self.limbs@.take(i as int),
            decreases self.limbs@.len() - i,
        {
            limbs.push(self.limbs[i]);
            i += 1;
        }
        proof {
            assert(limbs@ =~= self.limbs@);
        }
        BigNat { limbs }
    }

    /// The number times `k`, plus `c`.
    pub fn times_plus(&self, k: u32, c: u32) -> (r: BigNat)
        ensures
            r.value() == self.value() * k + c,
    {
        let mut out: Vec<u32> = Vec::new();
        let mut carry: u64 = c as u64;
        let mut i: usize = 0;
        proof {
            lemma_weight(0);
        }
        while i < self.limbs.len()
            invariant
                i <= self.limbs@.len(),
                out@.len() == i,
                carry <= 0xffff_ffff,
                sum(out@, i as int) + carry * weight(i as int) == sum(self.limbs@, i as int) * k + c,
            decreases self.limbs@.len() - i,
        {
            let l: u32 = self.limbs[i];
            assert(l as u64 * k as u64 + carry <= 0xffff_ffff_ffff_ffff) by (nonlinear_arith)
                requires
                    l <= 0xffff_ffff,
                    k <= 0xffff_ffff,
                    carry <= 0xffff_ffff,
            ;
            assert(l as u64 * k as u64 <= 0xffff_ffff_ffff_ffff) by (nonlinear_arith)
                requires
                    l <= 0xffff_ffff,
                    k <= 0xffff_ffff,
            ;
            let t: u64 = l as u64 * k as u64 + carry;
            let low: u32 = (t % 0x1_0000_0000) as u32;
            let ghost before = out@;
            out.push(low);
            proof {
                lemma_weight(i as int);
                lemma_sum_push(before, low);
                let w = weight(i as int);
                let high = t / 0x1_0000_0000;
                assert(low * w + high * weight(i as int + 1) == l * w * k + carry * w)
                    by (nonlinear_arith)
                    requires
                        low + high * 0x1_0000_0000 == l * k + carry,
                        weight(i as int + 1) == 0x1_0000_0000 * w,
                ;
                assert((sum(self.limbs@, i as int) + l * w) * k == sum(self.limbs@, i as int) * k + l
                    * w * k) by (nonlinear_arith);
            }
            carry = t / 0x1_0000_0000;
            i += 1;
        }
        let ghost before = out@;
        out.push(carry as u32);
        let r = BigNat { limbs: out };
        proof {
            lemma_sum_push(before, carry as u32);
            r.lemma_value();
            self.lemma_value();
        }
        r
    }

    /// The sum of two numbers.
    pub fn plus(&self, other: &BigNat) -> (r: BigNat)
        ensures
            r.value() == self.value() + other.value(),
    {
        let n: usize = if self.limbs.len() > other.limbs.len() {
            self.limbs.len()
        } else {
            other.limbs.len()
        };
        let mut out: Vec<u32> = Vec::new();
        let mut carry: u64 = 0;
        let mut i: usize = 0;
        proof {
            lemma_weight(0);
        }
        while i < n
            invariant
                i <= n,
                out@.len() == i,
                carry <= 1,
                sum(out@, i as int) + carry * weight(i as int) == sum(self.limbs@, i as int) + sum(
                    other.limbs@,
                    i as int,
                ),
            decreases n - i,
        {
            let x: u64 = if i < self.limbs.len() {
                self.limbs[i] as u64
            } else {
                0
            };
            let y: u64 = if i < other.limbs.len() {
                other.limbs[i] as u64
            } else {
                0
            };
            let t: u64 = x + y + carry;
            let low: u32 = (t % 0x1_0000_0000) as u32;
            let ghost before = out@;
            out.push(low);
            proof {
                lemma_weight(i as int);
                lemma_sum_push(before, low);
                let w = weight(i as int);
                let high = t / 0x1_0000_0000;
                assert(low * w + high * weight(i as int + 1) == x * w + y * w + carry * w)
                    by (nonlinear_arith)
                    requires
                        low + high * 0x1_0000_0000 == x + y + carry,
                        weight(i as int + 1) == 0x1_0000_0000 * w,
                ;
            }
            carry = t / 0x1_0000_0000;
            i += 1;
        }
        let ghost before = out@;
        out.push(carry as u32);
        let r = BigNat { limbs: out };
        proof {
            lemma_sum_push(before, carry as u32);
            lemma_sum_past(self.limbs@, n as int);
            lemma_sum_past(other.limbs@, n as int);
            r.lemma_value();
            self.lemma_value();
            other.lemma_value();
        }
        r
    }

    /// The difference of two numbers, where the second is not greater.
    pub fn minus(&self, other: &BigNat) -> (r: Option<BigNat>)
        ensures
            r is Some == (self.value() >= other.value()),
            r is Some ==> r->0.value() == self.value() - other.value(),
    {
        let n: usize = if self.limbs.len() > other.limbs.len() {
            self.limbs.len()
        } else {
            other.limbs.len()
        };
        let mut out: Vec<u32> = Vec::new();
        let mut borrow: u64 = 0;
        let mut i: usize = 0;
        proof {
            lemma_weight(0);
        }
        while i < n
            invariant
                i <= n,
                out@.len() == i,
                borrow <= 1,
                sum(out@, i as int) + sum(other.limbs@, i as int) == sum(self.limbs@, i as int)
                    + borrow * weight(i as int),
            decreases n - i,
        {
            let x: u64 = if i < self.limbs.len() {
                self.limbs[i] as u64
            } else {
                0
            };
            let y: u64 = if i < other.limbs.len() {
                other.limbs[i] as u64
            } else {
                0
            };
            let t: u64 = x + 0x1_0000_0000 - y - borrow;
            let low: u32 = (t % 0x1_0000_0000) as u32;
            let next: u64 = 1 - t / 0x1_0000_0000;
            let ghost before = out@;
            out.push(low);
            proof {
                lemma_weight(i as int);
                lemma_sum_push(before, low);
                let w = weight(i as int);
                assert(low * w + y * w + borrow * w == x * w + next * weight(i as int + 1))
                    by (nonlinear_arith)
                    requires
                        low + y + borrow == x + next * 0x1_0000_0000,
                        weight(i as int + 1) == 0x1_0000_0000 * w,
                ;
            }
            borrow = next;
            i += 1;
        }
        let r = BigNat { limbs: out };
        proof {
            lemma_sum_past(self.limbs@, n as int);
            lemma_sum_past(other.limbs@, n as int);
            lemma_sum_bound(r.limbs@, n as int);
            r.lemma_value();
            self.lemma_value();
            other.lemma_value();
        }
        if borrow == 0 {
            Some(r)
        } else {
            None
        }
    }

    /// Whether the number is zero.
    pub fn is_zero(&self) -> (r: bool)
        ensures
            r == (self.value() == 0),
    {
        match BigNat::from_u32(0).minus(self) {
            Some(_) => true,
            None => false,
        }
    }

    /// Whether the number is less than `other`.
    pub fn less(&self, other: &BigNat) -> (r: bool)
        ensures
            r == (self.value() < other.value()),
    {
        match self.minus(other) {
            Some(_) => false,
            None => true,
        }
    }

    /// The number times two to the `k`.
    pub fn times_pow2(&self, k: u32) -> (r: BigNat)
        ensures
            r.value() == self.value() * pow2(k as nat),
    {
        let mut out = self.copy();
        let mut left: u32 = k;
        proof {
            lemma2_to64();
            assert(out.value() * pow2(0) == out.value());
        }
        let ghost mut done: nat = 0;
        while left > 0
            invariant
                done + left == k,
                out.value() == self.value() * pow2(done),
            decreases left,
        {
            if left >= 16 {
                proof {
                    lemma2_to64();
                    lemma_pow2_adds(done, 16);
                    assert(self.value() * pow2(done) * 65536 == self.value() * (pow2(done) * 65536))
                        by (nonlinear_arith);
                    done = done + 16;
                }
                out = out.times_plus(65536, 0);
                left -= 16;
            } else {
                proof {
                    lemma2_to64();
                    lemma_pow2_adds(done, 1);
                    assert(self.value() * pow2(done) * 2 == self.value() * (pow2(done) * 2))
                        by (nonlinear_arith);
                    done = done + 1;
                }
                out = out.times_plus(2, 0);
                left -= 1;
            }
        }
        out
    }

    /// The number times ten to the `k`.
    pub fn times_pow10(&self, k: u64) -> (r: BigNat)
        ensures
            r.value() == self.value() * pow10(k as nat),
    {
        let mut out = self.copy();
        let mut i: u64 = 0;
        proof {
            assert(pow10(0) == 1);
            assert(out.value() * 1 == out.value());
        }
        while i < k
            invariant
                i <= k,
                out.value() == self.value() * pow10(i as nat),
            decreases k - i,
        {
            proof {
                assert(self.value() * pow10(i as nat) * 10 == self.value() * (10 * pow10(i as nat)))
                    by (nonlinear_arith);
            }
            out = out.times_plus(10, 0);
            i += 1;
        }
        out
    }

    /// The product of two numbers.
    pub fn times(&self, other: &BigNat) -> (r: BigNat)
        ensures
            r.value() == self.value() * other.value(),
    {
        let mut out = BigNat::from_u32(0);
        let n: usize = other.limbs.len();
        let mut i: usize = n;
        let ghost all = sum(other.limbs@, n as int);
        proof {
            lemma_sum_bound(other.limbs@, n as int);
            other.lemma_value();
            self.lemma_value();
            assert(0 * weight(n as int) == 0);
            assert(self.value() * (all - all) == 0);
        }
        while i > 0
            invariant
                i <= n,
                n == other.limbs@.len(),
                all == sum(other.limbs@, n as int),
                out.value() * weight(i as int) == self.value() * (all - sum(other.limbs@, i as int)),
            decreases i,
        {
            i -= 1;
            let l: u32 = other.limbs[i];
            let shifted = out.times_plus(65536, 0).times_plus(65536, 0);
            let part = self.times_plus(l, 0);
            proof {
                lemma_weight(i as int);
                let w = weight(i as int);
                let v = self.value() as int;
                let s0 = sum(other.limbs@, i as int);
                assert((out.value() * 0x1_0000_0000 + v * l) * w == v * (all - s0))
                    by (nonlinear_arith)
                    requires
                        out.value() * weight(i as int + 1) == v * (all - (s0 + l * w)),
                        weight(i as int + 1) == 0x1_0000_0000 * w,
                ;
            }
            out = shifted.plus(&part);
        }
        proof {
            lemma_weight(0);
            assert(out.value() * 1 == out.value());
        }
        out
    }
}

/// Ten to the `n`.
pub open spec fn pow10(n: nat) -> nat
    decreases n,
{
    if n == 0 {
        1
    } else {
        10 * pow10((n - 1) as nat)
    }
}

/// The number `x`.
pub fn from_u64(x: u64) -> (r: BigNat)
    ensures
        r.value() == x,
{
    let high = BigNat::from_u32((x / 0x1_0000_0000) as u32);
    let low: u32 = (x % 0x1_0000_0000) as u32;
    let shifted = high.times_plus(65536, 0).times_plus(65536, 0);
    shifted.plus(&BigNat::from_u32(low))
}

} // verus!
