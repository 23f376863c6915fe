//! Natural numbers of any size, for ratios that must not be rounded on the way.

use crate::decimal::{is_floor_root, nearest};
use vstd::arithmetic::div_mod::{
    lemma_fundamental_div_mod, lemma_fundamental_div_mod_converse, lemma_mod_bound,
};
use vstd::prelude::*;

verus! {

/// `base` to the power of `k`.
pub open spec fn power(base: nat, k: nat) -> nat
    decreases k,
{
    if k == 0 {
        1
    } else {
        base * power(base, (k - 1) as nat)
    }
}

/// A power of a positive base is positive.
pub proof fn power_positive(base: nat, k: nat)
    requires
        base > 0,
    ensures
        power(base, k) > 0,
    decreases k,
{
    if k > 0 {
        power_positive(base, (k - 1) as nat);
        let p = power(base, (k - 1) as nat);
        assert(base * p > 0) by (nonlinear_arith)
            requires
                base > 0,
                p > 0,
        ;
    }
}

/// The base of the limbs.
pub const BASE: u128 = 0x1_0000_0000_0000_0000;

/// The weight of the limb at `i`.
pub open spec fn place(i: nat) -> nat {
    power(BASE as nat, i)
}

/// The limb at `i`, zero beyond the last.
pub open spec fn limb(limbs: Seq<u64>, i: int) -> nat {
    if 0 <= i < limbs.len() {
        limbs[i] as nat
    } else {
        0
    }
}

/// The number that the lowest `i` limbs write.
pub open spec fn low(limbs: Seq<u64>, i: nat) -> nat
    decreases i,
{
    if i == 0 {
        0
    } else {
        low(limbs, (i - 1) as nat) + limb(limbs, i - 1) * place((i - 1) as nat)
    }
}

/// A natural number.
#[derive(Debug)]
pub struct Natural {
    /// The digits in base 2^64, lowest first.
    limbs: Vec<u64>,
}

impl View for Natural {
    type V = nat;

    closed spec fn view(&self) -> nat {
        low(self.limbs@, self.limbs@.len())
    }
}

/// Limbs that agree write the same number.
proof fn low_same(a: Seq<u64>, b: Seq<u64>, i: nat)
    requires
        forall|j: int| 0 <= j < i ==> limb(a, j) == #[trigger] limb(b, j),
    ensures
        low(a, i) == low(b, i),
    decreases i,
{
    if i > 0 {
        low_same(a, b, (i - 1) as nat);
        assert(limb(a, i - 1) == limb(b, i - 1));
    }
}

/// One more limb adds its weight.
proof fn low_push(limbs: Seq<u64>, x: u64)
    ensures
        low(limbs.push(x), limbs.len() + 1) == low(limbs, limbs.len()) + x * place(limbs.len()),
{
    let more = limbs.push(x);
    assert forall|j: int| 0 <= j < limbs.len() implies limb(more, j) == #[trigger] limb(
        limbs,
        j,
    ) by {}
    low_same(more, limbs, limbs.len());
    assert(limb(more, limbs.len() as int) == x);
}

/// Limbs beyond the last add nothing.
proof fn low_beyond(limbs: Seq<u64>, i: nat)
    requires
        i >= limbs.len(),
    ensures
        low(limbs, i) == low(limbs, limbs.len()),
    decreases i,
{
    if i > limbs.len() {
        low_beyond(limbs, (i - 1) as nat);
        let p = place((i - 1) as nat);
        assert(0 * p == 0) by (nonlinear_arith);
    }
}

/// The lowest `i` limbs write less than the next weight.
proof fn low_bound(limbs: Seq<u64>, i: nat)
    ensures
        low(limbs, i) < place(i),
    decreases i,
{
    if i > 0 {
        low_bound(limbs, (i - 1) as nat);
        let p = place((i - 1) as nat);
        let x = limb(limbs, i - 1);
        assert(x * p + p <= 0x1_0000_0000_0000_0000 * p) by (nonlinear_arith)
            requires
                x + 1 <= 0x1_0000_0000_0000_0000,
                p >= 0,
        ;
    }
}

/// A root held against multiples of the divisor is the root of the quotient.
proof fn floor_root_of_quotient(n: int, d: int, r: int)
    requires
        d > 0,
        r >= 0,
        (r * r) * d <= n < ((r + 1) * (r + 1)) * d,
    ensures
        is_floor_root(n / d, r),
{
    let q = n / d;
    let low = r * r;
    let high = (r + 1) * (r + 1);
    lemma_fundamental_div_mod(n, d);
    lemma_mod_bound(n, d);
    let rest = n % d;
    assert(low <= q) by (nonlinear_arith)
        requires
            low * d <= n,
            n == d * q + rest,
            0 <= rest < d,
    ;
    assert(q < high) by (nonlinear_arith)
        requires
            n < high * d,
            n == d * q + rest,
            0 <= rest,
            d > 0,
    ;
}

impl Natural {
    /// The number of a machine integer.
    pub fn from_u128(x: u128) -> (n: Natural)
        ensures
            n@ == x,
    {
        let mut limbs: Vec<u64> = Vec::new();
        let lowest: u64 = (x % BASE) as u64;
        let highest: u64 = (x / BASE) as u64;
        proof {
            low_push(limbs@, lowest);
            low_push(limbs@.push(lowest), highest);
            let unit = place(0);
            let next = place(1);
            assert(unit == 1);
            assert(next == BASE * unit);
            assert(lowest * unit + highest * next == x) by (nonlinear_arith)
                requires
                    unit == 1,
                    next == 0x1_0000_0000_0000_0000 * unit,
                    x == lowest + 0x1_0000_0000_0000_0000 * highest,
            ;
        }
        limbs.push(lowest);
        limbs.push(highest);
        Natural { limbs }
    }

    /// The limb at `i`, zero beyond the last.
    fn limb_at(&self, i: usize) -> (x: u64)
        ensures
            x == limb(self.limbs@, i as int),
    {
        if i < self.limbs.len() {
            self.limbs[i]
        } else {
            0
        }
    }

    /// Whether the number is zero.
    pub fn is_zero(&self) -> (r: bool)
        ensures
            r == (self@ == 0),
    {
        let zero: Natural = Natural { limbs: Vec::new() };
        self.at_most(&zero)
    }

    /// `self * m`.
    pub fn times(&self, m: u64) -> (r: Natural)
        ensures
            r@ == self@ * m,
    {
        let mut out: Vec<u64> = Vec::new();
        let mut carry: u64 = 0;
        let mut i: usize = 0;
        assert(0 * m == 0) by (nonlinear_arith);
        while i < self.limbs.len()
            invariant
                i <= self.limbs@.len(),
                out@.len() == i,
                low(out@, i as nat) + carry * place(i as nat) == low(self.limbs@, i as nat) * m,
            decreases self.limbs@.len() - i,
        {
            let x: u64 = self.limbs[i];
            assert(0 <= x * m <= 0xffff_ffff_ffff_ffff * 0xffff_ffff_ffff_ffff)
                by (nonlinear_arith)
                requires
                    0 <= x <= 0xffff_ffff_ffff_ffff,
                    0 <= m <= 0xffff_ffff_ffff_ffff,
            ;
            let t: u128 = x as u128 * m as u128 + carry as u128;
            let digit: u64 = (t % BASE) as u64;
            let next: u64 = (t / BASE) as u64;
            proof {
                let p = place(i as nat);
                let below = low(self.limbs@, i as nat);
                low_push(out@, digit);
                assert(t == digit + 0x1_0000_0000_0000_0000 * next);
                assert(digit * p + next * (0x1_0000_0000_0000_0000 * p) == t * p)
                    by (nonlinear_arith)
                    requires
                        t == digit + 0x1_0000_0000_0000_0000 * next,
                ;
                assert(t * p == (x * m) * p + carry * p) by (nonlinear_arith)
                    requires
                        t == x * m + carry,
                ;
                assert((below + x * p) * m == below * m + (x * m) * p) by (nonlinear_arith);
            }
            out.push(digit);
            carry = next;
            i += 1;
        }
        proof {
            low_push(out@, carry);
        }
        out.push(carry);
        Natural { limbs: out }
    }

    /// `self + other`.
    pub fn plus(&self, other: &Natural) -> (r: Natural)
        ensures
            r@ == self@ + other@,
    {
        let n: usize = if self.limbs.len() > other.limbs.len() {
            self.limbs.len()
        } else {
            other.limbs.len()
        };
        let mut out: Vec<u64> = Vec::new();
        let mut carry: u64 = 0;
        let mut i: usize = 0;
        while i < n
            invariant
                i <= n,
                carry <= 1,
                out@.len() == i,
                low(out@, i as nat) + carry * place(i as nat) == low(self.limbs@, i as nat) + low(
                    other.limbs@,
                    i as nat,
                ),
            decreases n - i,
        {
            let x: u64 = self.limb_at(i);
            let y: u64 = other.limb_at(i);
            let t: u128 = x as u128 + y as u128 + carry as u128;
            let digit: u64 = (t % BASE) as u64;
            let next: u64 = (t / BASE) as u64;
            proof {
                let p = place(i as nat);
                low_push(out@, digit);
                assert(t == digit + 0x1_0000_0000_0000_0000 * next);
                assert(digit * p + next * (0x1_0000_0000_0000_0000 * p) == x * p + y * p + carry
                    * p) by (nonlinear_arith)
                    requires
                        digit + 0x1_0000_0000_0000_0000 * next == x + y + carry,
                ;
            }
            out.push(digit);
            carry = next;
            i += 1;
        }
        proof {
            low_push(out@, carry);
            low_beyond(self.limbs@, n as nat);
            low_beyond(other.limbs@, n as nat);
        }
        out.push(carry);
        Natural { limbs: out }
    }

    /// `self - other`, when that is not negative.
    pub fn minus(&self, other: &Natural) -> (r: Natural)
        requires
            other@ <= self@,
        ensures
            r@ == self@ - other@,
    {
        let n: usize = if self.limbs.len() > other.limbs.len() {
            self.limbs.len()
        } else {
            other.limbs.len()
        };
        let mut out: Vec<u64> = Vec::new();
        let mut borrow: u64 = 0;
        let mut i: usize = 0;
        while i < n
            invariant
                i <= n,
                borrow <= 1,
                out@.len() == i,
                low(out@, i as nat) + low(other.limbs@, i as nat) == low(self.limbs@, i as nat)
                    + borrow * place(i as nat),
            decreases n - i,
        {
            let x: u64 = self.limb_at(i);
            let y: u64 = other.limb_at(i);
            let t: u128 = BASE + x as u128 - y as u128 - borrow as u128;
            let digit: u64 = (t % BASE) as u64;
            let next: u64 = 1 - (t / BASE) as u64;
            proof {
                let p = place(i as nat);
                low_push(out@, digit);
                assert(digit + y + borrow == x + 0x1_0000_0000_0000_0000 * next);
                assert(digit * p + y * p + borrow * p == x * p + next * (0x1_0000_0000_0000_0000
                    * p)) by (nonlinear_arith)
                    requires
                        digit + y + borrow == x + 0x1_0000_0000_0000_0000 * next,
                ;
            }
            out.push(digit);
            borrow = next;
            i += 1;
        }
        proof {
            low_beyond(self.limbs@, n as nat);
            low_beyond(other.limbs@, n as nat);
            low_bound(out@, n as nat);
            let p = place(n as nat);
            assert(borrow == 0 || borrow * p == p) by (nonlinear_arith)
                requires
                    borrow <= 1,
            ;
            assert(0 * p == 0) by (nonlinear_arith);
        }
        Natural { limbs: out }
    }

    /// The number with one limb of zeros below it.
    fn shifted(&self) -> (r: Natural)
        ensures
            r@ == BASE * self@,
    {
        let mut out: Vec<u64> = Vec::new();
        proof {
            low_push(out@, 0);
            reveal_with_fuel(low, 2);
        }
        out.push(0);
        let mut i: usize = 0;
        while i < self.limbs.len()
            invariant
                i <= self.limbs@.len(),
                out@.len() == i + 1,
                low(out@, (i + 1) as nat) == BASE * low(self.limbs@, i as nat),
            decreases self.limbs@.len() - i,
        {
            proof {
                let x = self.limbs@[i as int];
                let p = place(i as nat);
                let below = low(self.limbs@, i as nat);
                low_push(out@, x);
                assert(x * (0x1_0000_0000_0000_0000 * p) == 0x1_0000_0000_0000_0000 * (x * p))
                    by (nonlinear_arith);
            }
            out.push(self.limbs[i]);
            i += 1;
        }
        Natural { limbs: out }
    }

    /// `self * other`.
    pub fn multiplied(&self, other: &Natural) -> (r: Natural)
        ensures
            r@ == self@ * other@,
    {
        let mut r: Natural = Natural { limbs: Vec::new() };
        let mut i: usize = self.limbs.len();
        proof {
            let p = place(i as nat);
            assert(0 * p == 0) by (nonlinear_arith);
        }
        while i > 0
            invariant
                i <= self.limbs@.len(),
                r@ * place(i as nat) + low(self.limbs@, i as nat) * other@ == self@ * other@,
            decreases i,
        {
            let x: u64 = self.limbs[i - 1];
            let ghost before = r@;
            r = r.shifted().plus(&other.times(x));
            proof {
                let p = place((i - 1) as nat);
                let b = other@;
                let below = low(self.limbs@, (i - 1) as nat);
                assert((0x1_0000_0000_0000_0000 * before + b * x) * p == before * (
                0x1_0000_0000_0000_0000 * p) + (x * p) * b) by (nonlinear_arith);
                assert((below + x * p) * b == below * b + (x * p) * b) by (nonlinear_arith);
            }
            i -= 1;
        }
        proof {
            let b = other@;
            let v = r@;
            assert(v * 1 + 0 * b == v) by (nonlinear_arith);
        }
        r
    }

    /// Whether `self <= other`.
    pub fn at_most(&self, other: &Natural) -> (r: bool)
        ensures
            r == (self@ <= other@),
    {
        let mut i: usize = if self.limbs.len() > other.limbs.len() {
            self.limbs.len()
        } else {
            other.limbs.len()
        };
        proof {
            low_beyond(self.limbs@, i as nat);
            low_beyond(other.limbs@, i as nat);
        }
        while i > 0
            invariant
                self@ - low(self.limbs@, i as nat) == other@ - low(other.limbs@, i as nat),
            decreases i,
        {
            let x: u64 = self.limb_at(i - 1);
            let y: u64 = other.limb_at(i - 1);
            proof {
                let p = place((i - 1) as nat);
                low_bound(self.limbs@, (i - 1) as nat);
                low_bound(other.limbs@, (i - 1) as nat);
                if x < y {
                    assert(x * p + p <= y * p) by (nonlinear_arith)
                        requires
                            x + 1 <= y,
                            p >= 0,
                    ;
                }
                if y < x {
                    assert(y * p + p <= x * p) by (nonlinear_arith)
                        requires
                            y + 1 <= x,
                            p >= 0,
                    ;
                }
            }
            if x < y {
                return true;
            }
            if y < x {
                return false;
            }
            i -= 1;
        }
        true
    }

    /// The root of `self / divisor`, rounded down, when it lies below `limit`.
    pub fn root_below(&self, divisor: &Natural, limit: u128) -> (r: u128)
        requires
            divisor@ > 0,
            self@ < (limit * limit) * divisor@,
        ensures
            r < limit,
            is_floor_root((self@ / divisor@) as int, r as int),
    {
        let ghost n = self@ as int;
        let ghost d = divisor@ as int;
        let mut lo: u128 = 0;
        let mut hi: u128 = limit;
        assert(limit > 0 && (0 * 0) * d == 0) by (nonlinear_arith)
            requires
                n < (limit * limit) * d,
                n >= 0,
        ;
        while hi - lo > 1
            invariant
                lo < hi <= limit,
                n == self@,
                d == divisor@,
                (lo * lo) * d <= n < (hi * hi) * d,
            decreases hi - lo,
        {
            let mid: u128 = lo + (hi - lo) / 2;
            let m: Natural = Natural::from_u128(mid);
            if m.multiplied(&m).multiplied(divisor).at_most(self) {
                lo = mid;
            } else {
                hi = mid;
            }
        }
        proof {
            floor_root_of_quotient(n, d, lo as int);
        }
        lo
    }

    /// `self / divisor`, rounded down, when it lies below `limit`.
    fn quotient_below(&self, divisor: &Natural, limit: u128) -> (q: u128)
        requires
            divisor@ > 0,
            self@ < limit * divisor@,
        ensures
            q < limit,
            q == self@ / divisor@,
    {
        let mut lo: u128 = 0;
        let mut hi: u128 = limit;
        let ghost d = divisor@;
        assert(0 * d == 0) by (nonlinear_arith);
        assert(limit > 0) by (nonlinear_arith)
            requires
                self@ < limit * d,
                d > 0,
        ;
        while hi - lo > 1
            invariant
                lo < hi <= limit,
                d == divisor@,
                lo * d <= self@ < hi * d,
            decreases hi - lo,
        {
            let mid: u128 = lo + (hi - lo) / 2;
            if Natural::from_u128(mid).multiplied(divisor).at_most(self) {
                lo = mid;
            } else {
                hi = mid;
            }
        }
        proof {
            let rest = self@ - lo * d;
            assert(hi * d == lo * d + d) by (nonlinear_arith)
                requires
                    hi == lo + 1,
            ;
            lemma_fundamental_div_mod_converse(self@ as int, d as int, lo as int, rest);
        }
        lo
    }

    /// `self / divisor` to the nearest integer, halves up, when it is at most
    /// `limit`.
    pub fn nearest_up_to(&self, divisor: &Natural, limit: u128) -> (q: u128)
        requires
            divisor@ > 0,
            self@ <= limit * divisor@,
            limit < u128::MAX,
        ensures
            q <= limit,
            q == nearest(self@ as int, divisor@ as int),
    {
        let top: Natural = self.times(2).plus(divisor);
        let bottom: Natural = divisor.times(2);
        proof {
            let a = self@;
            let d = divisor@;
            assert(a * 2 + d < (limit + 1) * (d * 2)) by (nonlinear_arith)
                requires
                    a <= limit * d,
                    d > 0,
            ;
            assert(a * 2 + d == 2 * a + d && d * 2 == 2 * d);
        }
        top.quotient_below(&bottom, limit + 1)
    }
}

} // verus!
