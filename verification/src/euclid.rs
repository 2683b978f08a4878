use vstd::prelude::*;

verus! {

use vstd::arithmetic::div_mod::{lemma_fundamental_div_mod, lemma_mod_multiples_basic};

/// Greatest common divisor by Euclid's algorithm.
pub open spec fn gcd_nat(a: nat, b: nat) -> nat
    decreases b,
{
    if b == 0 {
        a
    } else {
        gcd_nat(b, a % b)
    }
}

/// The gcd divides both arguments and is positive unless both are zero.
pub proof fn lemma_gcd_divides(a: nat, b: nat)
    ensures
        a > 0 || b > 0 ==> gcd_nat(a, b) >= 1,
        gcd_nat(a, b) > 0 ==> a % gcd_nat(a, b) == 0,
        gcd_nat(a, b) > 0 ==> b % gcd_nat(a, b) == 0,
    decreases b,
{
    if b == 0 {
        if a > 0 {
            vstd::arithmetic::div_mod::lemma_mod_self_0(a as int);
            vstd::arithmetic::div_mod::lemma_small_mod(0, a);
        }
    } else {
        lemma_gcd_divides(b, a % b);
        let g = gcd_nat(a, b);
        assert(g == gcd_nat(b, a % b));
        assert(g >= 1);
        lemma_fundamental_div_mod(a as int, b as int);
        lemma_fundamental_div_mod(b as int, g as int);
        lemma_fundamental_div_mod((a % b) as int, g as int);
        let q = a as int / b as int;
        let kb = b as int / g as int;
        let kr = (a % b) as int / g as int;
        assert(a as int == (kb * g) * q + kr * g) by (nonlinear_arith)
            requires
                a as int == b as int * q + (a % b) as int,
                b as int == g as int * kb,
                (a % b) as int == g as int * kr,
                g as int == g,
        ;
        assert(a as int == (kb * q + kr) * (g as int)) by (nonlinear_arith)
            requires a as int == (kb * (g as int)) * q + kr * (g as int);
        lemma_mod_multiples_basic(kb * q + kr, g as int);
    }
}

/// Exact division preserves the quotient relation.
pub proof fn lemma_div_exact(a: nat, g: nat)
    requires
        g > 0,
        a % g == 0,
    ensures
        (a / g) * g == a,
{
    lemma_fundamental_div_mod(a as int, g as int);
    assert(a as int == (g as int) * ((a as int) / (g as int)) + (a as int) % (g as int));
    assert((a as int) % (g as int) == 0);
    assert((a / g) as int == (a as int) / (g as int));
    assert(((a / g) * g) as int == ((a as int) / (g as int)) * (g as int)) by (nonlinear_arith);
    assert((a / g) * g == a) by (nonlinear_arith)
        requires
            ((a / g) * g) as int == ((a as int) / (g as int)) * (g as int),
            a as int == (g as int) * ((a as int) / (g as int)),
    ;
}

/// The gcd is symmetric in its arguments.
pub proof fn lemma_gcd_symmetric(a: nat, b: nat)
    ensures
        gcd_nat(a, b) == gcd_nat(b, a),
{
    if a == b {
    } else if a < b {
        vstd::arithmetic::div_mod::lemma_small_mod(a, b);
        assert(gcd_nat(a, b) == gcd_nat(b, a % b));
    } else {
        vstd::arithmetic::div_mod::lemma_small_mod(b, a);
        assert(gcd_nat(b, a) == gcd_nat(a, b % a));
    }
}

/// The gcd of equal arguments is that argument.
pub proof fn lemma_gcd_self(a: nat)
    ensures
        gcd_nat(a, a) == a,
{
    if a > 0 {
        vstd::arithmetic::div_mod::lemma_mod_self_0(a as int);
        assert(gcd_nat(a, a) == gcd_nat(a, a % a));
    }
}

/// One is coprime to everything, on either side.
pub proof fn lemma_gcd_one(a: nat)
    ensures
        gcd_nat(a, 1) == 1,
        a >= 1 ==> gcd_nat(1, a) == 1,
{
    lemma_fundamental_div_mod(a as int, 1);
    assert(a % 1 == 0);
    assert(gcd_nat(a, 1) == gcd_nat(1, a % 1));
    if a == 1 {
    } else if a > 1 {
        vstd::arithmetic::div_mod::lemma_small_mod(1, a);
        assert(gcd_nat(1, a) == gcd_nat(a, (1 as nat) % a));
        assert(gcd_nat(a, 1) == 1);
    }
}

/// Scaling both arguments scales the gcd.
pub proof fn lemma_gcd_scale(k: nat, a: nat, b: nat)
    ensures
        gcd_nat(k * a, k * b) == k * gcd_nat(a, b),
    decreases b,
{
    if k == 0 {
        assert(k * a == 0 && k * b == 0 && k * gcd_nat(a, b) == 0) by (nonlinear_arith)
            requires k == 0;
    } else if b == 0 {
        assert(k * b == 0) by (nonlinear_arith)
            requires b == 0;
    } else {
        lemma_fundamental_div_mod(a as int, b as int);
        let q = a as int / b as int;
        let m2 = a % b;
        let m = m2 as int;
        assert((k * a) as int == q * ((k * b) as int) + (k as int) * m) by (nonlinear_arith)
            requires
                a as int == (b as int) * q + m,
                (k * a) as int == k as int * a as int,
                (k * b) as int == k as int * b as int,
        ;
        assert(0 <= (k as int) * m < (k * b) as int) by (nonlinear_arith)
            requires
                k >= 1,
                0 <= m < b as int,
                (k * b) as int == k as int * b as int,
        ;
        vstd::arithmetic::div_mod::lemma_fundamental_div_mod_converse_mod((k * a) as int, (k
            * b) as int, q, (k as int) * m);
        assert(((k * a) % (k * b)) as int == (k as int) * m);
        assert((k * m2) as int == (k as int) * (m2 as int)) by (nonlinear_arith);
        assert((k * a) % (k * b) == k * m2);
        assert(m2 == a % b);
        lemma_gcd_scale(k, b, a % b);
        assert(gcd_nat(k * a, k * b) == gcd_nat(k * b, (k * a) % (k * b)));
    }
}

/// Dividing both arguments by their gcd leaves them coprime.
pub proof fn lemma_gcd_div_coprime(a: nat, b: nat)
    requires
        a > 0 || b > 0,
    ensures
        gcd_nat(a / gcd_nat(a, b), b / gcd_nat(a, b)) == 1,
{
    let g = gcd_nat(a, b);
    lemma_gcd_divides(a, b);
    lemma_div_exact(a, g);
    lemma_div_exact(b, g);
    lemma_gcd_scale(g, a / g, b / g);
    assert(g * (a / g) == a && g * (b / g) == b) by (nonlinear_arith)
        requires
            (a / g) * g == a,
            (b / g) * g == b,
    ;
    assert(g * gcd_nat(a / g, b / g) == g);
    assert(gcd_nat(a / g, b / g) == 1) by (nonlinear_arith)
        requires
            g * gcd_nat(a / g, b / g) == g,
            g >= 1,
    ;
}

/// Executable Euclid on 128-bit operands, mirroring `gcd_nat`.
pub fn gcd_u128(a: u128, b: u128) -> (r: u128)
    ensures
        r as nat == gcd_nat(a as nat, b as nat),
    decreases b,
{
    if b == 0 {
        a
    } else {
        gcd_u128(b, a % b)
    }
}

} // verus!
