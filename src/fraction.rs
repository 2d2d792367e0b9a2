use vstd::prelude::*;

use vstd::arithmetic::div_mod::{lemma_div_multiples_vanish, lemma_fundamental_div_mod};

verus! {

/// Greatest common divisor, by Euclid's algorithm.
pub open spec fn gcd(a: nat, b: nat) -> nat
    decreases b,
{
    if b == 0 {
        a
    } else {
        gcd(b, a % b)
    }
}

/// `g` divides `x`.
pub open spec fn divides(g: int, x: int) -> bool {
    exists|k: int| x == #[trigger] (k * g)
}

/// Magnitude of an integer.
pub open spec fn abs(x: int) -> nat {
    if x >= 0 {
        x as nat
    } else {
        (-x) as nat
    }
}

/// `n / g` taken on the magnitude, so that it is exact for any sign when `g`
/// divides `n`.
pub open spec fn reduce(n: int, g: int) -> int {
    if n >= 0 {
        n / g
    } else {
        -((-n) / g)
    }
}

/// The gcd of `g0` and the magnitudes of the first `n` entries of `s`.
pub open spec fn fold_gcd(g0: nat, s: Seq<int>, n: nat) -> nat
    decreases n,
{
    if n == 0 {
        g0
    } else {
        gcd(fold_gcd(g0, s, (n - 1) as nat), abs(s[n - 1]))
    }
}

/// The gcd divides both arguments, and is positive unless both are zero.
pub proof fn lemma_gcd_divides(a: nat, b: nat)
    ensures
        divides(gcd(a, b) as int, a as int),
        divides(gcd(a, b) as int, b as int),
        (a > 0 || b > 0) ==> gcd(a, b) > 0,
    decreases b,
{
    let g = gcd(a, b) as int;
    if b == 0 {
        assert(a as int == 1 * g);
        assert(b as int == 0 * g);
    } else {
        lemma_gcd_divides(b, a % b);
        let k1 = choose|k: int| b as int == #[trigger] (k * g);
        let k2 = choose|k: int| (a % b) as int == #[trigger] (k * g);
        lemma_fundamental_div_mod(a as int, b as int);
        let q = (a as int) / (b as int);
        assert(a as int == (q * k1 + k2) * g) by (nonlinear_arith)
            requires
                a as int == b as int * q + (a % b) as int,
                b as int == k1 * g,
                (a % b) as int == k2 * g,
        ;
    }
}

proof fn lemma_divides_trans(g: int, h: int, x: int)
    requires
        divides(g, h),
        divides(h, x),
    ensures
        divides(g, x),
{
    let k1 = choose|k: int| h == #[trigger] (k * g);
    let k2 = choose|k: int| x == #[trigger] (k * h);
    assert(x == (k2 * k1) * g) by (nonlinear_arith)
        requires
            h == k1 * g,
            x == k2 * h,
    ;
}

/// The folded gcd divides `g0` and every entry folded in, and is positive
/// when `g0` is.
pub proof fn lemma_fold_gcd_divides(g0: nat, s: Seq<int>, n: nat)
    requires
        n <= s.len(),
    ensures
        divides(fold_gcd(g0, s, n) as int, g0 as int),
        forall|j: int| 0 <= j < n ==> divides(fold_gcd(g0, s, n) as int, #[trigger] s[j]),
        g0 > 0 ==> fold_gcd(g0, s, n) > 0,
    decreases n,
{
    let g = fold_gcd(g0, s, n) as int;
    if n == 0 {
        assert(g0 as int == 1 * g);
    } else {
        let h = fold_gcd(g0, s, (n - 1) as nat);
        lemma_fold_gcd_divides(g0, s, (n - 1) as nat);
        lemma_gcd_divides(h, abs(s[n - 1]));
        lemma_divides_trans(g, h as int, g0 as int);
        assert forall|j: int| 0 <= j < n implies divides(g, #[trigger] s[j]) by {
            if j < n - 1 {
                lemma_divides_trans(g, h as int, s[j]);
            } else {
                let k = choose|k: int| abs(s[j]) as int == #[trigger] (k * g);
                if s[j] >= 0 {
                    assert(s[j] == k * g);
                } else {
                    assert(s[j] == (-k) * g) by (nonlinear_arith)
                        requires
                            -s[j] == k * g,
                    ;
                }
            }
        }
    }
}

/// Dividing exactly: `reduce(n, g) * g == n` when `g` divides `n`.
pub proof fn lemma_reduce_exact(n: int, g: int)
    requires
        g > 0,
        divides(g, n),
    ensures
        reduce(n, g) * g == n,
{
    let k = choose|k: int| n == #[trigger] (k * g);
    if n >= 0 {
        lemma_div_multiples_vanish(k, g);
        assert(g * k == n) by (nonlinear_arith)
            requires
                n == k * g,
        ;
    } else {
        lemma_div_multiples_vanish(-k, g);
        assert(g * (-k) == -n) by (nonlinear_arith)
            requires
                n == k * g,
        ;
    }
}

/// Greatest common divisor of two non-negative integers.
pub fn gcd_of(a: i128, b: i128) -> (r: i128)
    requires
        a >= 0,
        b >= 0,
    ensures
        r as int == gcd(a as nat, b as nat),
{
    let mut x = a;
    let mut y = b;
    while y != 0
        invariant
            x >= 0,
            y >= 0,
            gcd(x as nat, y as nat) == gcd(a as nat, b as nat),
        decreases y,
    {
        let t = x % y;
        x = y;
        y = t;
    }
    x
}

} // verus!
