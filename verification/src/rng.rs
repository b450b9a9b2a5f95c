//! A linear congruential random number generator.

use vstd::prelude::*;

verus! {

/// The generator, by its current state.
pub struct Rng(u32);

/// The state that follows `s`.
pub open spec fn step(s: u32) -> u32 {
    ((s * 1_664_525 + 1_013_904_223) % 0x1_0000_0000) as u32
}

/// The state after `n` steps from `s`.
pub open spec fn steps(s: u32, n: nat) -> u32
    decreases n,
{
    if n == 0 {
        s
    } else {
        step(steps(s, (n - 1) as nat))
    }
}

/// The number in `lo..hi` that a state stands for.
pub open spec fn scaled(s: u32, lo: u32, hi: u32) -> u32 {
    (lo + s as int % (hi - lo)) as u32
}

/// The number in `lo..hi` that is drawn in the state `s`, and the state after
/// that.
pub open spec fn ranged(s: u32, lo: u32, hi: u32) -> (u32, u32) {
    (scaled(step(s), lo, hi), step(s))
}

impl View for Rng {
    type V = u32;

    /// The state.
    closed spec fn view(&self) -> u32 {
        self.0
    }
}

impl Rng {
    /// A generator that starts from `seed`.
    pub fn new(seed: u32) -> (r: Rng)
        ensures
            r@ == seed,
    {
        Rng(seed)
    }

    /// The next random number, which is the next state.
    pub fn next(&mut self) -> (n: u32)
        ensures
            n == step(old(self)@),
            final(self)@ == n,
    {
        self.0 = self.0.wrapping_mul(1_664_525).wrapping_add(1_013_904_223);
        self.0
    }

    /// A random number in `lo..hi`.
    pub fn range(&mut self, lo: u32, hi: u32) -> (n: u32)
        requires
            lo < hi,
        ensures
            lo <= n < hi,
            n == scaled(step(old(self)@), lo, hi),
            final(self)@ == step(old(self)@),
            (n, final(self)@) == ranged(old(self)@, lo, hi),
    {
        let r: u32 = self.next() % (hi - lo);
        lo + r
    }
}

/// Two different states never lead to the same state, so no two sequences of
/// random numbers ever merge.
pub proof fn step_is_injective(a: u32, b: u32)
    requires
        step(a) == step(b),
    ensures
        a == b,
{
    let m: int = 0x1_0000_0000;
    let x = a * 1_664_525 + 1_013_904_223;
    let y = b * 1_664_525 + 1_013_904_223;
    let d = a - b;
    let q = x / m - y / m;
    assert(x == m * (x / m) + x % m);
    assert(y == m * (y / m) + y % m);
    assert(d * 1_664_525 == q * m);
    // 4276115653 inverts the multiplier: their product is 1657219 * m + 1.
    let t = 4276115653 * q - 1657219 * d;
    assert(d == m * t);
    assert(t == 0);
}

/// Two states that are `a - b` apart lead to states that are the multiplier
/// times as far apart, modulo 2 to the 32; and 0 leads to the increment.
pub proof fn step_is_linear(a: u32, b: u32)
    ensures
        (step(a) - step(b) - 1_664_525 * (a - b)) % 0x1_0000_0000 == 0,
        step(0) == 1_013_904_223,
{
    let m: int = 0x1_0000_0000;
    let x = a * 1_664_525 + 1_013_904_223;
    let y = b * 1_664_525 + 1_013_904_223;
    assert(x == m * (x / m) + x % m);
    assert(y == m * (y / m) + y % m);
    assert(step(a) - step(b) - 1_664_525 * (a - b) == m * (y / m - x / m));
}

/// A number drawn from a range lies in it, and differs from the state by a
/// multiple of the width of the range, counted from its start.
pub proof fn a_drawn_number_is_the_remainder(s: u32, lo: u32, hi: u32)
    requires
        lo < hi,
    ensures
        lo <= scaled(s, lo, hi) < hi,
        (s - (scaled(s, lo, hi) - lo)) % (hi - lo) == 0,
{
    let w = hi - lo;
    vstd::arithmetic::div_mod::lemma_fundamental_div_mod(s as int, w);
    vstd::arithmetic::div_mod::lemma_mod_bound(s as int, w);
    assert(s - (scaled(s, lo, hi) - lo) == w * (s as int / w));
    vstd::arithmetic::div_mod::lemma_mod_multiples_basic(s as int / w, w);
    assert(w * (s as int / w) == (s as int / w) * w) by (nonlinear_arith);
}

/// Steps add up: `m` of them and then `n` are `m + n`, one is the next state and
/// none changes nothing.
pub proof fn steps_add_up(s: u32, m: nat, n: nat)
    ensures
        steps(s, m + n) == steps(steps(s, m), n),
        steps(s, 0) == s,
        steps(s, 1) == step(s),
    decreases n,
{
    reveal_with_fuel(steps, 2);
    if n > 0 {
        steps_add_up(s, m, (n - 1) as nat);
        assert((m + n - 1) as nat == m + (n - 1) as nat);
    }
}

/// A number from a range takes one step, whatever the range, and is the remainder
/// of the new state.
pub proof fn a_range_takes_one_step(s: u32, lo: u32, hi: u32)
    requires
        lo < hi,
    ensures
        ({
            let (n, t) = ranged(s, lo, hi);
            &&& t == step(s)
            &&& lo <= n < hi
            &&& (t - (n - lo)) % (hi - lo) == 0
        }),
{
    a_drawn_number_is_the_remainder(step(s), lo, hi);
}

} // verus!
