//! Primes, Euclid's lemma and Fermat's little theorem.
use vstd::arithmetic::div_mod::{
    lemma_add_mod_noop, lemma_fundamental_div_mod, lemma_mod_equivalence,
    lemma_mod_multiples_basic, lemma_mod_multiples_vanish, lemma_small_mod,
};
use vstd::arithmetic::power::pow;
use vstd::prelude::*;

verus! {

/// `p` has no divisor strictly between 1 and itself.
pub open spec fn is_prime(p: nat) -> bool {
    p > 1 && forall|d: nat| 1 < d < p ==> #[trigger] (p % d) != 0
}

proof fn lemma_euclid_below(p: nat, a: nat, b: nat)
    requires
        is_prime(p),
        0 < a < p,
        (a * b) % p == 0,
    ensures
        b % p == 0,
    decreases a,
{
    if a > 1 {
        let r = p % a;
        let q = p / a;
        assert(p % a != 0);
        lemma_fundamental_div_mod(p as int, a as int);
        lemma_fundamental_div_mod((a * b) as int, p as int);
        let m = (a * b) / p;
        assert(r * b == p * (b - q * m)) by (nonlinear_arith)
            requires
                p == a * q + r,
                a * b == p * m,
        ;
        assert(b - q * m >= 0) by (nonlinear_arith)
            requires
                r * b == p * (b - q * m),
                r * b >= 0,
                p > 0,
        ;
        lemma_mod_multiples_basic(b - q * m, p as int);
        assert((r * b) % p == 0) by (nonlinear_arith)
            requires
                r * b == p * (b - q * m),
                ((b - q * m) * p) % (p as int) == 0,
        ;
        lemma_euclid_below(p, r, b);
    } else {
        assert(a * b == b) by (nonlinear_arith)
            requires
                a == 1,
        ;
    }
}

/// Euclid's lemma: a prime that divides a product divides one of its factors.
pub proof fn lemma_euclid(p: nat, a: nat, b: nat)
    requires
        is_prime(p),
        (a * b) % p == 0,
    ensures
        a % p == 0 || b % p == 0,
{
    let a0 = a % p;
    if a0 != 0 {
        vstd::arithmetic::div_mod::lemma_mul_mod_noop_left(a as int, b as int, p as int);
        lemma_euclid_below(p, a0, b);
    }
}

/// The binomial coefficient `n choose k`, by Pascal's rule.
pub open spec fn binom(n: nat, k: nat) -> nat
    decreases n,
{
    if k == 0 {
        1
    } else if n == 0 {
        0
    } else {
        binom((n - 1) as nat, (k - 1) as nat) + binom((n - 1) as nat, k)
    }
}

proof fn lemma_binom_above(n: nat, k: nat)
    requires
        k > n,
    ensures
        binom(n, k) == 0,
    decreases n,
{
    if n > 0 {
        lemma_binom_above((n - 1) as nat, (k - 1) as nat);
        lemma_binom_above((n - 1) as nat, k);
    }
}

proof fn lemma_binom_diag(n: nat)
    ensures
        binom(n, n) == 1,
    decreases n,
{
    if n > 0 {
        lemma_binom_diag((n - 1) as nat);
        lemma_binom_above((n - 1) as nat, n);
    }
}

proof fn lemma_binom_one(n: nat)
    ensures
        binom(n, 1) == n,
    decreases n,
{
    if n > 0 {
        lemma_binom_one((n - 1) as nat);
        assert(binom((n - 1) as nat, 0) == 1);
    }
}

/// `k * C(n, k) == n * C(n-1, k-1)`.
proof fn lemma_binom_absorb(n: nat, k: nat)
    requires
        1 <= k <= n,
    ensures
        k * binom(n, k) == n * binom((n - 1) as nat, (k - 1) as nat),
    decreases n,
{
    if k == 1 {
        lemma_binom_one(n);
        assert(binom((n - 1) as nat, 0) == 1);
    } else if k == n {
        lemma_binom_diag(n);
        lemma_binom_diag((n - 1) as nat);
        assert(k * binom(n, k) == n);
    } else {
        let (n1, n2, k1, k2) = ((n - 1) as nat, (n - 2) as nat, (k - 1) as nat, (k - 2) as nat);
        lemma_binom_absorb(n1, k1);
        lemma_binom_absorb(n1, k);
        assert(binom(n, k) == binom(n1, k1) + binom(n1, k));
        assert(binom(n1, k1) == binom(n2, k2) + binom(n2, k1));
        assert(k * binom(n, k) == n * binom(n1, k1)) by (nonlinear_arith)
            requires
                binom(n, k) == binom(n1, k1) + binom(n1, k),
                binom(n1, k1) == binom(n2, k2) + binom(n2, k1),
                k1 * binom(n1, k1) == n1 * binom(n2, k2),
                k * binom(n1, k) == n1 * binom(n2, k1),
                n1 == n - 1,
                k1 == k - 1,
        ;
    }
}

/// A prime divides `C(p, k)` for `0 < k < p`.
proof fn lemma_prime_divides_binom(p: nat, k: nat)
    requires
        is_prime(p),
        0 < k < p,
    ensures
        binom(p, k) % p == 0,
{
    lemma_binom_absorb(p, k);
    let c = binom((p - 1) as nat, (k - 1) as nat);
    lemma_mod_multiples_basic(c as int, p as int);
    assert((k * binom(p, k)) % p == 0) by (nonlinear_arith)
        requires
            k * binom(p, k) == p * c,
            (c * p) % p == 0,
    ;
    lemma_small_mod(k, p);
    lemma_euclid(p, k, binom(p, k));
}

/// `C(n,0) + C(n,1)*x + ... + C(n,m)*x^m`.
pub open spec fn binom_sum(n: nat, m: nat, x: int) -> int
    decreases m,
{
    if m == 0 {
        1
    } else {
        binom_sum(n, (m - 1) as nat, x) + binom(n, m) * pow(x, m)
    }
}

proof fn lemma_binom_sum_pascal(n: nat, m: nat, x: int)
    requires
        m >= 1,
    ensures
        binom_sum(n + 1, m, x) == binom_sum(n, m, x) + x * binom_sum(n, (m - 1) as nat, x),
    decreases m,
{
    reveal(pow);
    let m1 = (m - 1) as nat;
    assert(pow(x, m) == x * pow(x, m1));
    if m == 1 {
        vstd::arithmetic::power::lemma_pow1(x);
        assert(binom(n + 1, 1) == binom(n, 0) + binom(n, 1));
        assert(binom(n, 0) == 1);
        assert(binom_sum(n + 1, 0, x) == 1);
        assert(binom_sum(n, 0, x) == 1);
        assert(binom_sum(n + 1, 1, x) == 1 + binom(n + 1, 1) * pow(x, 1));
        assert(binom_sum(n, 1, x) == 1 + binom(n, 1) * pow(x, 1));
        assert(binom_sum(n + 1, 1, x) == (1 + binom(n, 1) * x) + x * 1) by (nonlinear_arith)
            requires
                binom_sum(n + 1, 1, x) == 1 + binom(n + 1, 1) * pow(x, 1),
                binom(n + 1, 1) == 1 + binom(n, 1),
                pow(x, 1) == x,
        ;
    } else {
        let m2 = (m - 2) as nat;
        lemma_binom_sum_pascal(n, m1, x);
        assert(binom(n + 1, m) == binom(n, m1) + binom(n, m));
        let (a, b, c, d, e) = (
            binom_sum(n, m1, x),
            binom_sum(n, m2, x),
            binom(n, m1),
            binom(n, m),
            pow(x, m1),
        );
        assert(binom_sum(n + 1, m, x) == (a + d * (x * e)) + x * (b + c * e)) by (nonlinear_arith)
            requires
                binom_sum(n + 1, m, x) == binom_sum(n + 1, m1, x) + binom(n + 1, m) * pow(x, m),
                binom_sum(n + 1, m1, x) == a + x * b,
                binom(n + 1, m) == c + d,
                pow(x, m) == x * e,
        ;
    }
}

/// The binomial theorem for `(x + 1)^n`.
proof fn lemma_binomial(n: nat, x: int)
    ensures
        pow(x + 1, n) == binom_sum(n, n, x),
    decreases n,
{
    reveal(pow);
    if n > 0 {
        let n1 = (n - 1) as nat;
        lemma_binomial(n1, x);
        lemma_binom_sum_pascal(n1, n, x);
        lemma_binom_above(n1, n);
        let s = binom_sum(n1, n1, x);
        assert(binom_sum(n1, n, x) == s);
        assert(pow(x + 1, n) == (x + 1) * s);
        assert((x + 1) * s == s + x * s) by (nonlinear_arith);
    }
}

proof fn lemma_binom_sum_mod(p: nat, m: nat, x: int)
    requires
        is_prime(p),
        m < p,
    ensures
        binom_sum(p, m, x) % (p as int) == 1,
    decreases m,
{
    if m == 0 {
        lemma_small_mod(1, p);
    } else {
        let m1 = (m - 1) as nat;
        lemma_binom_sum_mod(p, m1, x);
        lemma_prime_divides_binom(p, m);
        lemma_fundamental_div_mod(binom(p, m) as int, p as int);
        let c = binom(p, m) / p;
        let t = c * pow(x, m);
        assert(binom(p, m) * pow(x, m) == p * t) by (nonlinear_arith)
            requires
                binom(p, m) == p * c,
                t == c * pow(x, m),
        ;
        lemma_mod_multiples_vanish(t, binom_sum(p, m1, x), p as int);
    }
}

/// `x^p = x (mod p)` for a prime `p`.
pub proof fn lemma_pow_prime(p: nat, x: nat)
    requires
        is_prime(p),
    ensures
        pow(x as int, p) % (p as int) == x % p,
    decreases x,
{
    if x == 0 {
        vstd::arithmetic::power::lemma0_pow(p);
    } else {
        let y = (x - 1) as nat;
        lemma_pow_prime(p, y);
        lemma_binomial(p, y as int);
        lemma_binom_diag(p);
        let p1 = (p - 1) as nat;
        assert(binom_sum(p, p, y as int) == binom_sum(p, p1, y as int) + pow(y as int, p));
        lemma_binom_sum_mod(p, p1, y as int);
        lemma_add_mod_noop(binom_sum(p, p1, y as int), pow(y as int, p), p as int);
        lemma_add_mod_noop(1, y as int, p as int);
        lemma_small_mod(1, p);
    }
}

/// Fermat's little theorem: `x^(p-1) = 1 (mod p)` for a prime `p` that does
/// not divide `x`.
pub proof fn lemma_fermat(p: nat, x: nat)
    requires
        is_prime(p),
        x % p != 0,
    ensures
        pow(x as int, (p - 1) as nat) % (p as int) == 1,
{
    reveal(pow);
    let q = pow(x as int, (p - 1) as nat);
    assert(pow(x as int, p) == x * q);
    lemma_pow_prime(p, x);
    assert(x > 0) by {
        if x == 0 {
            lemma_small_mod(0, p);
        }
    }
    vstd::arithmetic::power::lemma_pow_positive(x as int, (p - 1) as nat);
    lemma_mod_equivalence(x * q, x as int, p as int);
    assert(x * q - x == x * (q - 1)) by (nonlinear_arith);
    lemma_euclid(p, x, (q - 1) as nat);
    lemma_mod_equivalence(q, 1, p as int);
    lemma_small_mod(1, p);
}

/// In the field of a prime, `v` cancels from `s * v == t * v`.
pub proof fn lemma_cancel(s: nat, t: nat, v: int, p: nat)
    requires
        is_prime(p),
        s < p,
        t < p,
        v % (p as int) != 0,
        (s * v) % (p as int) == (t * v) % (p as int),
    ensures
        s == t,
{
    let m = p as int;
    let w = v % m;
    vstd::arithmetic::div_mod::lemma_mul_mod_noop_right(s as int, v, m);
    vstd::arithmetic::div_mod::lemma_mul_mod_noop_right(t as int, v, m);
    if s >= t {
        lemma_mod_equivalence(s * w, t * w, m);
        assert(s * w - t * w == (s - t) * w) by (nonlinear_arith);
        lemma_euclid(p, (s - t) as nat, w as nat);
        lemma_small_mod((s - t) as nat, p);
        lemma_small_mod(w as nat, p);
    } else {
        lemma_mod_equivalence(t * w, s * w, m);
        assert(t * w - s * w == (t - s) * w) by (nonlinear_arith);
        lemma_euclid(p, (t - s) as nat, w as nat);
        lemma_small_mod((t - s) as nat, p);
        lemma_small_mod(w as nat, p);
    }
}

/// `(u * v^(p-2) mod p) * v == u (mod p)` for a prime `p` and `v != 0`.
pub proof fn lemma_inverse_times(u: nat, v: nat, p: nat)
    requires
        is_prime(p),
        u < p,
        0 < v < p,
    ensures
        (((u * (pow(v as int, (p - 2) as nat) % (p as int))) % (p as int)) * v) % (p as int) == u,
{
    reveal(pow);
    let m = p as int;
    let e = pow(v as int, (p - 2) as nat);
    lemma_small_mod(v, p);
    lemma_fermat(p, v);
    assert(pow(v as int, (p - 1) as nat) == v * e);
    let a = (u * (e % m)) % m;
    vstd::arithmetic::div_mod::lemma_mul_mod_noop_left(u * (e % m), v as int, m);
    vstd::arithmetic::div_mod::lemma_mul_mod_noop_right(u as int, e, m);
    assert((u * (e % m)) * v == u * ((e % m) * v)) by (nonlinear_arith);
    vstd::arithmetic::div_mod::lemma_mul_mod_noop_right(u as int, (e % m) * v, m);
    vstd::arithmetic::div_mod::lemma_mul_mod_noop_left(e, v as int, m);
    assert(e * v == v * e) by (nonlinear_arith);
    vstd::arithmetic::div_mod::lemma_mul_mod_noop_right(u as int, e * v, m);
    vstd::arithmetic::div_mod::lemma_mul_mod_noop_right(u as int, (e % m) * v, m);
    assert((u as int * 1) % m == u) by {
        lemma_small_mod(u, p);
    }
    assert(u * ((e * v) % m) == u * 1);
}

} // verus!
