//! Natural numbers of any size, as little-endian limbs of 32 bits.
use vstd::prelude::*;

verus! {

/// The weight of limb `i`: two to the power `32 * i`.
pub open spec fn weight(i: nat) -> nat
    decreases i,
{
    if i == 0 {
        1
    } else {
        0x1_0000_0000 * weight((i - 1) as nat)
    }
}

/// Limb `i` of `s`, zero beyond its end.
pub open spec fn limb_at(s: Seq<u32>, i: nat) -> nat {
    if i < s.len() {
        s[i as int] as nat
    } else {
        0
    }
}

/// What the `n` lowest limbs of `s` add up to.
pub open spec fn low(s: Seq<u32>, n: nat) -> nat
    decreases n,
{
    if n == 0 {
        0
    } else {
        low(s, (n - 1) as nat) + limb_at(s, (n - 1) as nat) * weight((n - 1) as nat)
    }
}

/// Two to the power `n`.
pub open spec fn two_to(n: nat) -> nat
    decreases n,
{
    if n == 0 {
        1
    } else {
        2 * two_to((n - 1) as nat)
    }
}

/// Ten to the power `n`.
pub open spec fn ten_to(n: nat) -> nat
    decreases n,
{
    if n == 0 {
        1
    } else {
        10 * ten_to((n - 1) as nat)
    }
}

pub proof fn lemma_two_to_positive(n: nat)
    ensures
        two_to(n) >= 1,
    decreases n,
{
    if n > 0 {
        lemma_two_to_positive((n - 1) as nat);
    }
}

pub proof fn lemma_ten_to_positive(n: nat)
    ensures
        ten_to(n) >= 1,
    decreases n,
{
    if n > 0 {
        lemma_ten_to_positive((n - 1) as nat);
    }
}

pub proof fn lemma_two_to_adds(a: nat, b: nat)
    ensures
        two_to(a + b) == two_to(a) * two_to(b),
    decreases a,
{
    if a == 0 {
        assert(1 * two_to(b) == two_to(b));
    } else {
        lemma_two_to_adds((a - 1) as nat, b);
        assert((a - 1) as nat + b == (a + b - 1) as nat);
        let x = two_to((a - 1) as nat);
        let y = two_to(b);
        assert(2 * (x * y) == (2 * x) * y) by (nonlinear_arith);
    }
}

pub proof fn lemma_two_to_monotone(a: nat, b: nat)
    requires
        a <= b,
    ensures
        two_to(a) <= two_to(b),
    decreases b - a,
{
    if a < b {
        lemma_two_to_monotone(a, (b - 1) as nat);
        lemma_two_to_positive((b - 1) as nat);
    }
}

proof fn lemma_weight_positive(i: nat)
    ensures
        weight(i) >= 1,
    decreases i,
{
    if i > 0 {
        lemma_weight_positive((i - 1) as nat);
    }
}

proof fn lemma_weight_is_power(i: nat)
    ensures
        weight(i) == two_to(32 * i),
    decreases i,
{
    if i > 0 {
        lemma_weight_is_power((i - 1) as nat);
        lemma_two_to_adds(32, (32 * (i - 1)) as nat);
        assert(32 + 32 * (i - 1) == 32 * i);
        assert(two_to(32) == 0x1_0000_0000) by {
            reveal_with_fuel(two_to, 33);
        }
    } else {
        assert(two_to(0) == 1);
    }
}

proof fn lemma_low_agrees(s: Seq<u32>, t: Seq<u32>, n: nat)
    requires
        forall|j: nat| j < n ==> #[trigger] limb_at(s, j) == limb_at(t, j),
    ensures
        low(s, n) == low(t, n),
    decreases n,
{
    if n > 0 {
        lemma_low_agrees(s, t, (n - 1) as nat);
        assert(limb_at(s, (n - 1) as nat) == limb_at(t, (n - 1) as nat));
    }
}

proof fn lemma_low_beyond(s: Seq<u32>, n: nat)
    requires
        n >= s.len(),
    ensures
        low(s, n) == low(s, s.len()),
    decreases n,
{
    if n > s.len() {
        lemma_low_beyond(s, (n - 1) as nat);
        assert(0 * weight((n - 1) as nat) == 0);
    }
}

proof fn lemma_low_bound(s: Seq<u32>, n: nat)
    ensures
        low(s, n) < weight(n),
    decreases n,
{
    if n > 0 {
        let w = weight((n - 1) as nat);
        let l = limb_at(s, (n - 1) as nat);
        lemma_low_bound(s, (n - 1) as nat);
        assert(l * w <= 0xffff_ffff * w) by (nonlinear_arith)
            requires
                l <= 0xffff_ffff,
        ;
    }
}

/// A natural number.
#[derive(Debug)]
pub struct Natural {
    limbs: Vec<u32>,
}

impl View for Natural {
    type V = nat;

    closed spec fn view(&self) -> nat {
        low(self.limbs@, self.limbs@.len())
    }
}

impl Natural {
    fn limb(&self, i: usize) -> (l: u32)
        ensures
            l as nat == limb_at(self.limbs@, i as nat),
    {
        if i < self.limbs.len() {
            self.limbs[i]
        } else {
            0
        }
    }

    /// The number `n`.
    pub fn from_u64(n: u64) -> (r: Natural)
        ensures
            r@ == n,
    {
        let lo: u32 = (n % 0x1_0000_0000) as u32;
        let hi: u32 = (n / 0x1_0000_0000) as u32;
        let mut limbs: Vec<u32> = Vec::new();
        limbs.push(lo);
        limbs.push(hi);
        proof {
            assert(weight(0) == 1);
            assert(weight(1) == 0x1_0000_0000);
            assert(low(limbs@, 0) == 0);
            assert(low(limbs@, 1) == lo * weight(0));
            assert(low(limbs@, 2) == low(limbs@, 1) + hi * weight(1));
        }
        Natural { limbs }
    }

    /// The same number again.
    pub fn copy(&self) -> (r: Natural)
        ensures
            r@ == self@,
    {
        let mut limbs: Vec<u32> = Vec::new();
        let mut i: usize = 0;
        while i < self.limbs.len()
            invariant
                i <= self.limbs@.len(),
                limbs@ =~= self.limbs@.take(i as int),
            decreases self.limbs@.len() - i,
        {
            limbs.push(self.limbs[i]);
            i = i + 1;
        }
        assert(limbs@ =~= self.limbs@);
        Natural { limbs }
    }

    /// `self * m + c`.
    pub fn mul_small(&self, m: u32, c: u32) -> (r: Natural)
        ensures
            r@ == self@ * m + c,
    {
        let mut limbs: Vec<u32> = Vec::new();
        let mut carry: u64 = c as u64;
        let mut i: usize = 0;
        proof {
            assert(0 * m == 0) by (nonlinear_arith);
            assert(carry * weight(0) == carry) by {
                assert(weight(0) == 1);
                assert(carry * 1 == carry);
            }
        }
        while i < self.limbs.len()
            invariant
                i <= self.limbs@.len(),
                limbs@.len() == i,
                carry <= 0xffff_ffff,
                low(limbs@, i as nat) + carry * weight(i as nat) == low(self.limbs@, i as nat) * m
                    + c,
            decreases self.limbs@.len() - i,
        {
            let l: u64 = self.limbs[i] as u64;
            assert(l * m <= 0xffff_ffff * 0xffff_ffff) by (nonlinear_arith)
                requires
                    l <= 0xffff_ffff,
                    m <= 0xffff_ffff,
            ;
            let t: u64 = l * (m as u64) + carry;
            let ghost before = limbs@;
            limbs.push((t % 0x1_0000_0000) as u32);
            proof {
                let w = weight(i as nat);
                let d = t % 0x1_0000_0000;
                let e = t / 0x1_0000_0000;
                lemma_low_agrees(before, limbs@, i as nat);
                assert(t == e * 0x1_0000_0000 + d);
                assert(weight((i + 1) as nat) == 0x1_0000_0000 * w);
                let a = low(self.limbs@, i as nat);
                assert((a + l * w) * m + c == (a * m + c) + l * w * m) by (nonlinear_arith);
                assert(d * w + e * (0x1_0000_0000 * w) == l * w * m + carry * w)
                    by (nonlinear_arith)
                    requires
                        e * 0x1_0000_0000 + d == l * m + carry,
                ;
            }
            carry = t / 0x1_0000_0000;
            i = i + 1;
        }
        let ghost before = limbs@;
        limbs.push(carry as u32);
        proof {
            lemma_low_agrees(before, limbs@, i as nat);
        }
        Natural { limbs }
    }

    /// `self + other`.
    pub fn plus(&self, other: &Natural) -> (r: Natural)
        ensures
            r@ == self@ + other@,
    {
        let n: usize = if self.limbs.len() < other.limbs.len() {
            other.limbs.len()
        } else {
            self.limbs.len()
        };
        let mut limbs: Vec<u32> = Vec::new();
        let mut carry: u64 = 0;
        let mut i: usize = 0;
        assert(carry * weight(0) == 0) by (nonlinear_arith)
            requires
                carry == 0,
        ;
        while i < n
            invariant
                i <= n,
                limbs@.len() == i,
                carry <= 1,
                low(limbs@, i as nat) + carry * weight(i as nat) == low(self.limbs@, i as nat)
                    + low(other.limbs@, i as nat),
            decreases n - i,
        {
            let x: u64 = self.limb(i) as u64;
            let y: u64 = other.limb(i) as u64;
            let t: u64 = x + y + carry;
            let ghost before = limbs@;
            limbs.push((t % 0x1_0000_0000) as u32);
            proof {
                let w = weight(i as nat);
                let d = t % 0x1_0000_0000;
                let e = t / 0x1_0000_0000;
                lemma_low_agrees(before, limbs@, i as nat);
                assert(weight((i + 1) as nat) == 0x1_0000_0000 * w);
                assert(d * w + e * (0x1_0000_0000 * w) == x * w + y * w + carry * w)
                    by (nonlinear_arith)
                    requires
                        e * 0x1_0000_0000 + d == x + y + carry,
                ;
            }
            carry = t / 0x1_0000_0000;
            i = i + 1;
        }
        let ghost before = limbs@;
        limbs.push(carry as u32);
        proof {
            lemma_low_agrees(before, limbs@, i as nat);
            lemma_low_beyond(self.limbs@, n as nat);
            lemma_low_beyond(other.limbs@, n as nat);
        }
        Natural { limbs }
    }

    /// `self - other`.
    pub fn minus(&self, other: &Natural) -> (r: Natural)
        requires
            other@ <= self@,
        ensures
            r@ == self@ - other@,
    {
        let n: usize = if self.limbs.len() < other.limbs.len() {
            other.limbs.len()
        } else {
            self.limbs.len()
        };
        let mut limbs: Vec<u32> = Vec::new();
        let mut borrow: u64 = 0;
        let mut i: usize = 0;
        assert(borrow * weight(0) == 0) by (nonlinear_arith)
            requires
                borrow == 0,
        ;
        while i < n
            invariant
                i <= n,
                limbs@.len() == i,
                borrow <= 1,
                low(limbs@, i as nat) + low(other.limbs@, i as nat) == low(self.limbs@, i as nat)
                    + borrow * weight(i as nat),
            decreases n - i,
        {
            let x: u64 = self.limb(i) as u64;
            let y: u64 = other.limb(i) as u64;
            let t: u64 = 0x1_0000_0000 + x - y - borrow;
            let ghost before = limbs@;
            limbs.push((t % 0x1_0000_0000) as u32);
            let next: u64 = if t < 0x1_0000_0000 {
                1
            } else {
                0
            };
            proof {
                let w = weight(i as nat);
                let d = t % 0x1_0000_0000;
                lemma_low_agrees(before, limbs@, i as nat);
                assert(weight((i + 1) as nat) == 0x1_0000_0000 * w);
                assert(d * w + y * w + borrow * w == x * w + next * (0x1_0000_0000 * w))
                    by (nonlinear_arith)
                    requires
                        d + y + borrow == x + next * 0x1_0000_0000,
                ;
            }
            borrow = next;
            i = i + 1;
        }
        proof {
            lemma_low_beyond(self.limbs@, n as nat);
            lemma_low_beyond(other.limbs@, n as nat);
            lemma_low_bound(limbs@, n as nat);
            let w = weight(n as nat);
            assert(borrow == 0) by {
                if borrow == 1 {
                    assert(borrow * w == w) by (nonlinear_arith)
                        requires
                            borrow == 1,
                    ;
                }
            }
            assert(borrow * w == 0) by (nonlinear_arith)
                requires
                    borrow == 0,
            ;
        }
        Natural { limbs }
    }

    /// Whether `self < other`.
    pub fn less(&self, other: &Natural) -> (r: bool)
        ensures
            r == (self@ < other@),
    {
        let n: usize = if self.limbs.len() < other.limbs.len() {
            other.limbs.len()
        } else {
            self.limbs.len()
        };
        let mut less: bool = false;
        let mut i: usize = 0;
        while i < n
            invariant
                i <= n,
                less == (low(self.limbs@, i as nat) < low(other.limbs@, i as nat)),
            decreases n - i,
        {
            let x: u32 = self.limb(i);
            let y: u32 = other.limb(i);
            proof {
                let w = weight(i as nat);
                lemma_low_bound(self.limbs@, i as nat);
                lemma_low_bound(other.limbs@, i as nat);
                if x < y {
                    assert(x * w + w <= y * w) by (nonlinear_arith)
                        requires
                            x < y,
                    ;
                }
                if y < x {
                    assert(y * w + w <= x * w) by (nonlinear_arith)
                        requires
                            y < x,
                    ;
                }
            }
            if x < y {
                less = true;
            } else if y < x {
                less = false;
            }
            i = i + 1;
        }
        proof {
            lemma_low_beyond(self.limbs@, n as nat);
            lemma_low_beyond(other.limbs@, n as nat);
        }
        less
    }

    /// Whether `self == 0`.
    pub fn is_zero(&self) -> (r: bool)
        ensures
            r == (self@ == 0),
    {
        !Natural::from_u64(0).less(self)
    }

    fn shl_limbs(&self, k: usize) -> (r: Natural)
        ensures
            r@ == self@ * weight(k as nat),
    {
        let mut limbs: Vec<u32> = Vec::new();
        let mut i: usize = 0;
        while i < k
            invariant
                i <= k,
                limbs@.len() == i,
                low(limbs@, i as nat) == 0,
            decreases k - i,
        {
            let ghost before = limbs@;
            limbs.push(0);
            proof {
                lemma_low_agrees(before, limbs@, i as nat);
                assert(0 * weight(i as nat) == 0);
            }
            i = i + 1;
        }
        let mut j: usize = 0;
        assert(0 * weight(k as nat) == 0);
        while j < self.limbs.len()
            invariant
                j <= self.limbs@.len(),
                limbs@.len() == k + j,
                low(limbs@, (k + j) as nat) == low(self.limbs@, j as nat) * weight(k as nat),
            decreases self.limbs@.len() - j,
        {
            let ghost before = limbs@;
            limbs.push(self.limbs[j]);
            proof {
                lemma_low_agrees(before, limbs@, (k + j) as nat);
                lemma_weight_is_power(k as nat);
                lemma_weight_is_power(j as nat);
                lemma_weight_is_power((k + j) as nat);
                lemma_two_to_adds((32 * k) as nat, (32 * j) as nat);
                assert(32 * k + 32 * j == 32 * (k + j));
                let l = self.limbs@[j as int];
                let a = low(self.limbs@, j as nat);
                let wk = weight(k as nat);
                let wj = weight(j as nat);
                assert((a + l * wj) * wk == a * wk + l * (wk * wj)) by (nonlinear_arith);
            }
            j = j + 1;
        }
        Natural { limbs }
    }

    /// `self * 2^bits`.
    pub fn shl(&self, bits: u32) -> (r: Natural)
        ensures
            r@ == self@ * two_to(bits as nat),
    {
        let mut factor: u32 = 1;
        let rest: u32 = bits % 32;
        let mut i: u32 = 0;
        while i < rest
            invariant
                i <= rest,
                rest < 32,
                factor == two_to(i as nat),
            decreases rest - i,
        {
            proof {
                lemma_two_to_monotone((i + 1) as nat, 31);
                assert(two_to(31) == 0x8000_0000) by {
                    reveal_with_fuel(two_to, 32);
                }
            }
            factor = factor * 2;
            i = i + 1;
        }
        let shifted: Natural = self.mul_small(factor, 0);
        let r: Natural = shifted.shl_limbs((bits / 32) as usize);
        proof {
            let k = (bits / 32) as nat;
            lemma_weight_is_power(k);
            lemma_two_to_adds(rest as nat, 32 * k);
            let f = two_to(rest as nat);
            let w = two_to(32 * k);
            let a = self@;
            assert(a * f * w == a * (f * w)) by (nonlinear_arith);
        }
        r
    }

    /// `self * other`.
    pub fn times(&self, other: &Natural) -> (r: Natural)
        ensures
            r@ == self@ * other@,
    {
        let mut r: Natural = Natural::from_u64(0);
        let mut i: usize = 0;
        let n: usize = other.limbs.len();
        assert(self@ * 0 == 0) by (nonlinear_arith);
        while i < n
            invariant
                i <= n,
                n == other.limbs@.len(),
                r@ == self@ * low(other.limbs@, i as nat),
            decreases n - i,
        {
            let part: Natural = self.mul_small(other.limbs[i], 0).shl_limbs(i);
            r = r.plus(&part);
            proof {
                let a = self@;
                let b = low(other.limbs@, i as nat);
                let l = other.limbs@[i as int];
                let w = weight(i as nat);
                assert(a * b + a * l * w == a * (b + l * w)) by (nonlinear_arith);
            }
            i = i + 1;
        }
        r
    }

    /// `self / 2^bits`, rounded down.
    pub fn shr(&self, bits: u32) -> (r: Natural)
        ensures
            r@ == self@ / two_to(bits as nat),
    {
        let mut r: Natural = self.copy();
        let mut done: u32 = 0;
        assert(self@ / two_to(0) == self@) by {
            assert(two_to(0) == 1);
        }
        while done < bits
            invariant
                done <= bits,
                r@ == self@ / two_to(done as nat),
            decreases bits - done,
        {
            let step: u32 = if bits - done >= 16 {
                16
            } else {
                1
            };
            let divisor: u32 = if bits - done >= 16 {
                65536
            } else {
                2
            };
            assert(divisor == two_to(step as nat)) by {
                reveal_with_fuel(two_to, 17);
            }
            r = r.div_small(divisor).0;
            proof {
                lemma_two_to_adds(done as nat, step as nat);
                lemma_two_to_positive(done as nat);
                vstd::arithmetic::div_mod::lemma_div_denominator(
                    self@ as int,
                    two_to(done as nat) as int,
                    divisor as int,
                );
            }
            done = done + step;
        }
        r
    }

    /// Quotient and remainder of `self` by `d`.
    pub fn div_small(&self, d: u32) -> (r: (Natural, u32))
        requires
            d > 0,
        ensures
            r.0@ == self@ / d as nat,
            r.1 as nat == self@ % d as nat,
    {
        let n: usize = self.limbs.len();
        let mut limbs: Vec<u32> = Vec::new();
        let mut z: usize = 0;
        while z < n
            invariant
                z <= n,
                limbs@.len() == z,
            decreases n - z,
        {
            limbs.push(0);
            z = z + 1;
        }
        let mut rem: u64 = 0;
        let mut i: usize = n;
        let ghost whole = low(self.limbs@, n as nat);
        proof {
            assert(low(limbs@, n as nat) - low(limbs@, n as nat) == 0);
            assert(0 * d == 0 && 0 * weight(n as nat) == 0);
        }
        while i > 0
            invariant
                i <= n,
                n == self.limbs@.len(),
                limbs@.len() == n,
                d > 0,
                rem < d,
                whole == low(self.limbs@, n as nat),
                whole == (low(limbs@, n as nat) - low(limbs@, i as nat)) * d + rem * weight(
                    i as nat,
                ) + low(self.limbs@, i as nat),
            decreases i,
        {
            let l: u64 = self.limbs[i - 1] as u64;
            assert(rem * 0x1_0000_0000 + l < d * 0x1_0000_0000) by (nonlinear_arith)
                requires
                    rem + 1 <= d,
                    l < 0x1_0000_0000,
            ;
            assert(d * 0x1_0000_0000 <= 0xffff_ffff * 0x1_0000_0000);
            let t: u64 = rem * 0x1_0000_0000 + l;
            let q: u64 = t / (d as u64);
            assert(q < 0x1_0000_0000) by (nonlinear_arith)
                requires
                    t < d * 0x1_0000_0000,
                    d > 0,
                    q == t / (d as u64),
            ;
            assert(q * d + t % (d as u64) == t) by (nonlinear_arith)
                requires
                    d > 0,
                    q == t / (d as u64),
            ;
            let ghost before = limbs@;
            let ghost old_rem = rem;
            limbs.set(i - 1, q as u32);
            rem = t % (d as u64);
            proof {
                let k = (i - 1) as nat;
                let w = weight(k);
                lemma_low_agrees(before, limbs@, k);
                lemma_low_tail(before, limbs@, i as nat, n as nat);
                assert(weight(i as nat) == 0x1_0000_0000 * w);
                let tail = low(limbs@, n as nat) - low(limbs@, i as nat);
                assert(low(limbs@, i as nat) == low(limbs@, k) + q * w);
                assert(low(self.limbs@, i as nat) == low(self.limbs@, k) + l * w);
                assert((tail + q * w) * d + rem * w == tail * d + (q * d + rem) * w)
                    by (nonlinear_arith);
                assert((q * d + rem) * w == old_rem * (0x1_0000_0000 * w) + l * w)
                    by (nonlinear_arith)
                    requires
                        q * d + rem == old_rem * 0x1_0000_0000 + l,
                ;
            }
            i = i - 1;
        }
        proof {
            let v = low(limbs@, n as nat);
            assert(rem * weight(0) == rem) by (nonlinear_arith)
                requires
                    weight(0) == 1,
            ;
            assert(whole == v * d + rem);
            vstd::arithmetic::div_mod::lemma_fundamental_div_mod_converse(
                whole as int,
                d as int,
                v as int,
                rem as int,
            );
        }
        (Natural { limbs }, rem as u32)
    }
}

proof fn lemma_low_tail(s: Seq<u32>, t: Seq<u32>, i: nat, n: nat)
    requires
        i <= n,
        forall|j: nat| i <= j < n ==> #[trigger] limb_at(s, j) == limb_at(t, j),
    ensures
        low(s, n) - low(s, i) == low(t, n) - low(t, i),
    decreases n,
{
    if i < n {
        lemma_low_tail(s, t, i, (n - 1) as nat);
        assert(limb_at(s, (n - 1) as nat) == limb_at(t, (n - 1) as nat));
    }
}

} // verus!
