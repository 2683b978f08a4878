use vstd::prelude::*;

verus! {

use crate::digits::{
    digits_val,
    canonical_digits,
    signed_val,
    u128_to_digits,
    digits_to_u128,
    lemma_digits_val_bound,
    lemma_canonical_digits_lower,
    lemma_pow256_8,
};
use crate::bigrat::{big_rat_add, big_rat_mul, big_rat_cmp, big_int_pow, returned_digits};
use crate::euclid::{
    gcd_nat,
    gcd_u128,
    lemma_gcd_divides,
    lemma_div_exact,
    lemma_gcd_div_coprime,
    lemma_gcd_one,
    lemma_gcd_self,
    lemma_gcd_symmetric,
};
use vstd::arithmetic::power::pow;

/// Raising a negated base flips the sign of the power exactly on odd exponents.
pub proof fn lemma_pow_neg_base(m: int, e: nat)
    ensures
        e % 2 == 0 ==> pow(-m, e) == pow(m, e),
        e % 2 == 1 ==> pow(-m, e) == -pow(m, e),
    decreases e,
{
    vstd::arithmetic::power::lemma_pow0(m);
    vstd::arithmetic::power::lemma_pow0(-m);
    if e > 0 {
        lemma_pow_neg_base(m, (e - 1) as nat);
        assert(pow(-m, e) == (-m) * pow(-m, (e - 1) as nat)) by {
            vstd::arithmetic::power::lemma_pow1(-m);
            vstd::arithmetic::power::lemma_pow_adds(-m, 1, (e - 1) as nat);
        }
        assert(pow(m, e) == m * pow(m, (e - 1) as nat)) by {
            vstd::arithmetic::power::lemma_pow1(m);
            vstd::arithmetic::power::lemma_pow_adds(m, 1, (e - 1) as nat);
        }
        if e % 2 == 0 {
            assert(((e - 1) as nat) % 2 == 1);
            assert((-m) * (-pow(m, (e - 1) as nat)) == m * pow(m, (e - 1) as nat))
                by (nonlinear_arith);
        } else {
            assert(((e - 1) as nat) % 2 == 0);
            assert((-m) * pow(m, (e - 1) as nat) == -(m * pow(m, (e - 1) as nat)))
                by (nonlinear_arith);
        }
    }
}

/// Magnitude of a mathematical integer.
pub open spec fn abs_int(x: int) -> nat {
    if x < 0 {
        (-x) as nat
    } else {
        x as nat
    }
}

/// Value of a sign-and-magnitude machine integer.
pub open spec fn sm_val(neg: bool, mag: nat) -> int {
    if neg {
        -(mag as int)
    } else {
        mag as int
    }
}

/// Mathematical mirror of `Rational`.
pub enum RationalV {
    Natural(i64, i64),
    Large(bool, Seq<u8>, Seq<u8>),
}

impl RationalV {
    /// Numerator of the represented fraction.
    pub open spec fn num(self) -> int {
        match self {
            RationalV::Natural(n, _) => n as int,
            RationalV::Large(neg, num, _) => signed_val(neg, num),
        }
    }

    /// Denominator of the represented fraction.
    pub open spec fn den(self) -> int {
        match self {
            RationalV::Natural(_, d) => d as int,
            RationalV::Large(_, _, den) => digits_val(den) as int,
        }
    }

    /// Minimal well-formedness: a fraction has a nonzero denominator, and a
    /// large fraction is always kept in canonical digit form.
    pub open spec fn wf(self) -> bool {
        match self {
            RationalV::Natural(_, d) => d != 0,
            RationalV::Large(neg, num, den) => {
                &&& canonical_digits(num)
                &&& canonical_digits(den)
                &&& digits_val(num) > 0
                &&& digits_val(den) > 0
                &&& gcd_nat(digits_val(num), digits_val(den)) == 1
                &&& (digits_val(num) > 0x7fff_ffff_ffff_ffff || digits_val(den)
                    > 0x7fff_ffff_ffff_ffff)
            },
        }
    }

    /// Canonical form: well-formed, in lowest terms, with a positive
    /// denominator.
    pub open spec fn canon(self) -> bool {
        self.wf() && self.den() >= 1 && gcd_nat(abs_int(self.num()), self.den() as nat) == 1
    }

}

/// Any machine integer over one is in lowest terms.
pub proof fn lemma_int_canon(n: i64)
    ensures
        RationalV::Natural(n, 1).canon(),
{
    lemma_gcd_one(abs_int(n as int));
}

/// One over any positive denominator is in lowest terms.
pub proof fn lemma_unit_fraction_canon(d: i64)
    requires
        d >= 1,
    ensures
        RationalV::Natural(1, d).canon(),
{
    lemma_gcd_one(d as nat);
}

/// A canonical fraction whose numerator equals its denominator is the
/// literal one.
pub proof fn lemma_canon_value_one(q: RationalV)
    requires
        q.canon(),
        q.num() == q.den(),
    ensures
        q == RationalV::Natural(1, 1),
{
    assert(q.num() >= 1);
    assert(abs_int(q.num()) == q.den() as nat);
    lemma_gcd_self(q.den() as nat);
    assert(q.den() == 1);
    match q {
        RationalV::Natural(n, d) => {
            assert(n == 1 && d == 1);
        },
        RationalV::Large(_, num, den) => {
            assert(digits_val(num) > 0x7fff_ffff_ffff_ffff || digits_val(den)
                > 0x7fff_ffff_ffff_ffff);
            assert(false);
        },
    }
}

/// An arbitrarily large fraction held as sign plus little-endian digit arrays.
pub struct LargeRational {
    pub is_negative: bool,
    pub num_digits: Vec<u8>,
    pub den_digits: Vec<u8>,
}

/// An exact rational number: a machine-word fraction, or an arbitrary-precision
/// one once the numerator or denominator no longer fits a machine word.
pub enum Rational {
    Natural(i64, i64),
    Large(LargeRational),
}

impl View for Rational {
    type V = RationalV;

    open spec fn view(&self) -> RationalV {
        match self {
            Rational::Natural(n, d) => RationalV::Natural(*n, *d),
            Rational::Large(l) => RationalV::Large(l.is_negative, l.num_digits@, l.den_digits@),
        }
    }
}

/// Splits a machine integer into sign and magnitude.
fn split_i64(n: i64) -> (r: (bool, u64))
    ensures
        sm_val(r.0, r.1 as nat) == n as int,
        r.1 <= 0x8000_0000_0000_0000,
{
    if n < 0 {
        (true, (-(n as i128)) as u64)
    } else {
        (false, n as u64)
    }
}

/// Adds two sign-and-magnitude values.
fn sm_add(n1: bool, m1: u128, n2: bool, m2: u128) -> (r: (bool, u128))
    requires
        m1 as nat + m2 as nat <= u128::MAX as nat,
    ensures
        sm_val(r.0, r.1 as nat) == sm_val(n1, m1 as nat) + sm_val(n2, m2 as nat),
{
    if n1 == n2 {
        (n1, m1 + m2)
    } else if m1 >= m2 {
        (n1, m1 - m2)
    } else {
        (n2, m2 - m1)
    }
}

/// Magnitude exponentiation in machine words, giving up above the word bound.
fn pow_mag_capped(b: u64, e: u32) -> (r: Option<u128>)
    ensures
        match r {
            Some(v) => v as int == pow(b as int, e as nat) && v <= 0x7fff_ffff_ffff_ffff,
            None => pow(b as int, e as nat) > 0x7fff_ffff_ffff_ffff,
        },
{
    if b == 0 {
        if e == 0 {
            proof {
                vstd::arithmetic::power::lemma_pow0(0);
            }
            Some(1)
        } else {
            proof {
                vstd::arithmetic::power::lemma0_pow(e as nat);
            }
            Some(0)
        }
    } else if b == 1 {
        proof {
            vstd::arithmetic::power::lemma1_pow(e as nat);
        }
        Some(1)
    } else {
        let mut acc: u128 = 1;
        let mut i: u32 = 0;
        proof {
            vstd::arithmetic::power::lemma_pow0(b as int);
        }
        while i < e
            invariant
                i <= e,
                b >= 2,
                acc as int == pow(b as int, i as nat),
                acc <= 0x7fff_ffff_ffff_ffff,
            decreases e - i,
        {
            proof {
                assert((acc as int) * (b as int) <= 0x7fff_ffff_ffff_ffff * 0xffff_ffff_ffff_ffff)
                    by (nonlinear_arith)
                    requires
                        acc <= 0x7fff_ffff_ffff_ffff,
                        b <= 0xffff_ffff_ffff_ffff,
                ;
                assert((acc as int) * (b as int) >= 0) by (nonlinear_arith);
                assert(pow(b as int, (i + 1) as nat) == pow(b as int, i as nat) * (b as int)) by {
                    vstd::arithmetic::power::lemma_pow1(b as int);
                    vstd::arithmetic::power::lemma_pow_adds(b as int, i as nat, 1);
                }
            }
            acc = acc * (b as u128);
            i = i + 1;
            if acc > 0x7fff_ffff_ffff_ffff {
                proof {
                    vstd::arithmetic::power::lemma_pow_increases(b as nat, i as nat, e as nat);
                }
                return None;
            }
        }
        Some(acc)
    }
}

/// Compares two byte vectors for equality.
pub(crate) fn bytes_equal(a: &Vec<u8>, b: &Vec<u8>) -> (r: bool)
    ensures
        r <==> a@ == b@,
{
    if a.len() != b.len() {
        return false;
    }
    let n = a.len();
    let mut i: usize = 0;
    while i < n
        invariant
            i <= n,
            n == a@.len(),
            n == b@.len(),
            forall|j: int| 0 <= j < i ==> a@[j] == b@[j],
        decreases n - i,
    {
        if a[i] != b[i] {
            return false;
        }
        i = i + 1;
    }
    proof {
        assert(a@ =~= b@);
    }
    true
}

/// Copies a byte vector.
pub(crate) fn copy_bytes(v: &Vec<u8>) -> (r: Vec<u8>)
    ensures
        r@ == v@,
{
    let mut r: Vec<u8> = Vec::new();
    let n = v.len();
    let mut i: usize = 0;
    while i < n
        invariant
            i <= n,
            n == v@.len(),
            r@ =~= v@.subrange(0, i as int),
        decreases n - i,
    {
        r.push(v[i]);
        i = i + 1;
    }
    proof {
        assert(r@ =~= v@);
    }
    r
}

/// Builds a canonical rational from a sign and 128-bit magnitudes, reducing to
/// lowest terms and demoting to the machine-word form when it fits.
pub(crate) fn rat_from_sm(neg: bool, num_mag: u128, den_mag: u128) -> (r: Rational)
    requires
        den_mag > 0,
    ensures
        r@.canon(),
        r@.num() * (den_mag as int) == sm_val(neg, num_mag as nat) * r@.den(),
{
    if num_mag == 0 {
        let r = Rational::Natural(0, 1);
        proof {
            lemma_gcd_one(0);
            assert(r@.num() == 0 && r@.den() == 1);
            assert(r@.num() * (den_mag as int) == 0) by (nonlinear_arith)
                requires r@.num() == 0;
            assert(sm_val(neg, num_mag as nat) == 0);
            assert(sm_val(neg, num_mag as nat) * r@.den() == 0) by (nonlinear_arith)
                requires sm_val(neg, num_mag as nat) == 0;
        }
        return r;
    }
    let g = gcd_u128(num_mag, den_mag);
    proof {
        lemma_gcd_divides(num_mag as nat, den_mag as nat);
    }
    let n2 = num_mag / g;
    let d2 = den_mag / g;
    proof {
        lemma_div_exact(num_mag as nat, g as nat);
        lemma_div_exact(den_mag as nat, g as nat);
        lemma_gcd_div_coprime(num_mag as nat, den_mag as nat);
        assert(gcd_nat(n2 as nat, d2 as nat) == 1);
        assert(d2 >= 1 && n2 >= 1) by (nonlinear_arith)
            requires
                n2 == num_mag / g,
                d2 == den_mag / g,
                (num_mag / g) as nat * g as nat == num_mag as nat,
                (den_mag / g) as nat * g as nat == den_mag as nat,
                num_mag > 0,
                den_mag > 0,
        ;
    }
    if n2 <= 0x7fff_ffff_ffff_ffff && d2 <= 0x7fff_ffff_ffff_ffff {
        let n_i: i64 = if neg {
            -(n2 as i64)
        } else {
            n2 as i64
        };
        let r = Rational::Natural(n_i, d2 as i64);
        proof {
            assert(abs_int(n_i as int) == n2 as nat);
            assert((n_i as int) * (den_mag as int) == sm_val(neg, num_mag as nat) * (d2 as int))
                by (nonlinear_arith)
                requires
                    n_i as int == sm_val(neg, n2 as nat),
                    num_mag as nat == n2 as nat * g as nat,
                    den_mag as nat == d2 as nat * g as nat,
                    sm_val(neg, num_mag as nat) == if neg { -(num_mag as int) } else { num_mag as int },
                    sm_val(neg, n2 as nat) == if neg { -(n2 as int) } else { n2 as int },
            ;
        }
        r
    } else {
        let nd = u128_to_digits(n2);
        let dd = u128_to_digits(d2);
        let r = Rational::Large(LargeRational { is_negative: neg, num_digits: nd, den_digits: dd });
        proof {
            assert(abs_int(signed_val(neg, nd@)) == n2 as nat);
            assert((signed_val(neg, nd@)) * (den_mag as int) == sm_val(neg, num_mag as nat) * (
            d2 as int)) by (nonlinear_arith)
                requires
                    signed_val(neg, nd@) == sm_val(neg, n2 as nat),
                    num_mag as nat == n2 as nat * g as nat,
                    den_mag as nat == d2 as nat * g as nat,
                    sm_val(neg, num_mag as nat) == if neg { -(num_mag as int) } else { num_mag as int },
                    sm_val(neg, n2 as nat) == if neg { -(n2 as int) } else { n2 as int },
            ;
        }
        r
    }
}

/// Builds a canonical rational from digit arrays handed back by an
/// arbitrary-precision operation, demoting to the machine-word form when it fits.
pub(crate) fn rat_from_digit_parts(neg: bool, num: Vec<u8>, den: Vec<u8>) -> (r: Rational)
    requires
        returned_digits(num@),
        returned_digits(den@),
        digits_val(den@) > 0,
        gcd_nat(digits_val(num@), digits_val(den@)) == 1,
        digits_val(num@) == 0 ==> !neg && digits_val(den@) == 1,
    ensures
        r@.canon(),
        r@.num() == signed_val(neg, num@),
        r@.den() == digits_val(den@) as int,
{
    proof {
        lemma_pow256_8();
    }
    if num.len() <= 8 && den.len() <= 8 {
        let nv = digits_to_u128(num.as_slice());
        let dv = digits_to_u128(den.as_slice());
        if nv <= 0x7fff_ffff_ffff_ffff && dv <= 0x7fff_ffff_ffff_ffff {
            let n_i: i64 = if neg {
                -(nv as i64)
            } else {
                nv as i64
            };
            return Rational::Natural(n_i, dv as i64);
        }
        Rational::Large(LargeRational { is_negative: neg, num_digits: num, den_digits: den })
    } else {
        proof {
            if num@.len() > 8 {
                assert(canonical_digits(num@));
                lemma_canonical_digits_lower(num@);
                vstd::arithmetic::power::lemma_pow_increases(256, 8, (num@.len() - 1) as nat);
            } else {
                lemma_digits_val_bound(num@);
                vstd::arithmetic::power::lemma_pow_increases(256, num@.len() as nat, 8);
                assert(den@.len() > 8);
                assert(canonical_digits(den@));
                lemma_canonical_digits_lower(den@);
                vstd::arithmetic::power::lemma_pow_increases(256, 8, (den@.len() - 1) as nat);
            }
        }
        Rational::Large(LargeRational { is_negative: neg, num_digits: num, den_digits: den })
    }
}

/// Serializes a canonical rational as sign plus digit arrays, exactly.
pub(crate) fn to_digit_triple(r: &Rational) -> (t: (bool, Vec<u8>, Vec<u8>))
    requires
        r@.canon(),
    ensures
        signed_val(t.0, t.1@) == r@.num(),
        digits_val(t.2@) == r@.den(),
        digits_val(t.2@) > 0,
{
    match r {
        Rational::Natural(n, d) => {
            let (sn, mn) = split_i64(*n);
            let nd = u128_to_digits(mn as u128);
            let dd = u128_to_digits(*d as u128);
            (sn, nd, dd)
        },
        Rational::Large(l) => (l.is_negative, copy_bytes(&l.num_digits), copy_bytes(&l.den_digits)),
    }
}

impl Rational {
    /// The rational zero.
    pub fn zero() -> (r: Rational)
        ensures
            r@.canon(),
            r@.num() == 0,
            r@.den() == 1,
            r@ == RationalV::Natural(0, 1),
    {
        proof {
            lemma_gcd_one(0);
        }
        Rational::Natural(0, 1)
    }

    /// The rational one.
    pub fn one() -> (r: Rational)
        ensures
            r@.canon(),
            r@.num() == 1,
            r@.den() == 1,
            r@ == RationalV::Natural(1, 1),
    {
        proof {
            lemma_gcd_one(1);
        }
        Rational::Natural(1, 1)
    }

    /// Builds the reduced canonical fraction `n / d`.
    pub fn new(n: i64, d: i64) -> (r: Rational)
        requires
            d != 0,
        ensures
            r@.canon(),
            r@.num() * (d as int) == (n as int) * r@.den(),
    {
        let (sn, mn) = split_i64(n);
        let (sd, md) = split_i64(d);
        let r = rat_from_sm(sn != sd, mn as u128, md as u128);
        proof {
            assert(r@.num() * (d as int) == (n as int) * r@.den()) by (nonlinear_arith)
                requires
                    r@.num() * (md as int) == sm_val(sn != sd, mn as nat) * r@.den(),
                    sm_val(sn, mn as nat) == n as int,
                    sm_val(sd, md as nat) == d as int,
                    sm_val(sn, mn as nat) == if sn { -(mn as int) } else { mn as int },
                    sm_val(sd, md as nat) == if sd { -(md as int) } else { md as int },
                    sm_val(sn != sd, mn as nat) == if sn != sd { -(mn as int) } else { mn as int },
            ;
        }
        r
    }

    /// Exact sum of two canonical rationals.
    pub fn add(&self, other: &Rational) -> (r: Rational)
        requires
            self@.canon(),
            other@.canon(),
        ensures
            r@.canon(),
            r@.num() * (self@.den() * other@.den()) == (self@.num() * other@.den() + other@.num()
                * self@.den()) * r@.den(),
    {
        match (self, other) {
            (Rational::Natural(n1, d1), Rational::Natural(n2, d2)) => {
                let (s1, m1) = split_i64(*n1);
                let (s2, m2) = split_i64(*n2);
                let e1: u64 = *d1 as u64;
                let e2: u64 = *d2 as u64;
                proof {
                    assert((m1 as int) * (e2 as int) <= 0x4000_0000_0000_0000_0000_0000_0000_0000
                        && (m2 as int) * (e1 as int) <= 0x4000_0000_0000_0000_0000_0000_0000_0000)
                        by (nonlinear_arith)
                        requires
                            m1 <= 0x8000_0000_0000_0000,
                            m2 <= 0x8000_0000_0000_0000,
                            e1 <= 0x8000_0000_0000_0000,
                            e2 <= 0x8000_0000_0000_0000,
                    ;
                }
                let p1m: u128 = (m1 as u128) * (e2 as u128);
                let p2m: u128 = (m2 as u128) * (e1 as u128);
                proof {
                    assert(p1m as nat + p2m as nat <= u128::MAX as nat) by (nonlinear_arith)
                        requires
                            p1m == (m1 as u128) * (e2 as u128),
                            p2m == (m2 as u128) * (e1 as u128),
                            m1 <= 0x8000_0000_0000_0000,
                            m2 <= 0x8000_0000_0000_0000,
                            e1 <= 0x7fff_ffff_ffff_ffff,
                            e2 <= 0x7fff_ffff_ffff_ffff,
                    ;
                    assert(sm_val(s1, p1m as nat) == (n1 as int) * (e2 as int) && sm_val(s2,
                        p2m as nat) == (n2 as int) * (e1 as int)) by (nonlinear_arith)
                        requires
                            p1m == (m1 as u128) * (e2 as u128),
                            p2m == (m2 as u128) * (e1 as u128),
                            sm_val(s1, m1 as nat) == n1 as int,
                            sm_val(s2, m2 as nat) == n2 as int,
                            sm_val(s1, m1 as nat) == if s1 { -(m1 as int) } else { m1 as int },
                            sm_val(s2, m2 as nat) == if s2 { -(m2 as int) } else { m2 as int },
                            sm_val(s1, p1m as nat) == if s1 { -(p1m as int) } else { p1m as int },
                            sm_val(s2, p2m as nat) == if s2 { -(p2m as int) } else { p2m as int },
                    ;
                }
                let (ps, pm) = sm_add(s1, p1m, s2, p2m);
                proof {
                    assert((e1 as int) * (e2 as int) <= 0x4000_0000_0000_0000_0000_0000_0000_0000
                        && (e1 as int) * (e2 as int) >= 1) by (nonlinear_arith)
                        requires
                            1 <= e1 <= 0x8000_0000_0000_0000,
                            1 <= e2 <= 0x8000_0000_0000_0000,
                    ;
                }
                let dm: u128 = (e1 as u128) * (e2 as u128);
                let r = rat_from_sm(ps, pm, dm);
                proof {
                    assert(r@.num() * ((d1 as int) * (d2 as int)) == ((n1 as int) * (d2 as int) + (
                    n2 as int) * (d1 as int)) * r@.den()) by (nonlinear_arith)
                        requires
                            r@.num() * (dm as int) == sm_val(ps, pm as nat) * r@.den(),
                            dm as int == (e1 as int) * (e2 as int),
                            e1 as int == d1 as int,
                            e2 as int == d2 as int,
                            sm_val(ps, pm as nat) == (n1 as int) * (e2 as int) + (n2 as int) * (
                            e1 as int),
                    ;
                }
                r
            },
            _ => {
                let ta = to_digit_triple(self);
                let tb = to_digit_triple(other);
                let out = big_rat_add(ta.0, ta.1.as_slice(), ta.2.as_slice(), tb.0,
                    tb.1.as_slice(), tb.2.as_slice());
                let r = rat_from_digit_parts(out.0, out.1, out.2);
                r
            },
        }
    }

    /// Exact product of two canonical rationals.
    pub fn mul(&self, other: &Rational) -> (r: Rational)
        requires
            self@.canon(),
            other@.canon(),
        ensures
            r@.canon(),
            r@.num() * (self@.den() * other@.den()) == (self@.num() * other@.num()) * r@.den(),
    {
        match (self, other) {
            (Rational::Natural(n1, d1), Rational::Natural(n2, d2)) => {
                let (s1, m1) = split_i64(*n1);
                let (s2, m2) = split_i64(*n2);
                let e1: u64 = *d1 as u64;
                let e2: u64 = *d2 as u64;
                proof {
                    assert((m1 as int) * (m2 as int) <= 0x4000_0000_0000_0000_0000_0000_0000_0000
                        && (e1 as int) * (e2 as int) <= 0x4000_0000_0000_0000_0000_0000_0000_0000
                        && (e1 as int) * (e2 as int) >= 1) by (nonlinear_arith)
                        requires
                            m1 <= 0x8000_0000_0000_0000,
                            m2 <= 0x8000_0000_0000_0000,
                            1 <= e1 <= 0x8000_0000_0000_0000,
                            1 <= e2 <= 0x8000_0000_0000_0000,
                    ;
                }
                let pm: u128 = (m1 as u128) * (m2 as u128);
                let dm: u128 = (e1 as u128) * (e2 as u128);
                proof {
                    assert(sm_val(s1 != s2, pm as nat) == (n1 as int) * (n2 as int))
                        by (nonlinear_arith)
                        requires
                            pm == (m1 as u128) * (m2 as u128),
                            sm_val(s1, m1 as nat) == n1 as int,
                            sm_val(s2, m2 as nat) == n2 as int,
                            sm_val(s1, m1 as nat) == if s1 { -(m1 as int) } else { m1 as int },
                            sm_val(s2, m2 as nat) == if s2 { -(m2 as int) } else { m2 as int },
                            sm_val(s1 != s2, pm as nat) == if s1 != s2 { -(pm as int) } else { pm as int },
                    ;
                }
                let r = rat_from_sm(s1 != s2, pm, dm);
                proof {
                    assert(r@.num() * ((d1 as int) * (d2 as int)) == ((n1 as int) * (n2 as int))
                        * r@.den()) by (nonlinear_arith)
                        requires
                            r@.num() * (dm as int) == sm_val(s1 != s2, pm as nat) * r@.den(),
                            dm as int == (e1 as int) * (e2 as int),
                            e1 as int == d1 as int,
                            e2 as int == d2 as int,
                            sm_val(s1 != s2, pm as nat) == (n1 as int) * (n2 as int),
                    ;
                }
                r
            },
            _ => {
                let ta = to_digit_triple(self);
                let tb = to_digit_triple(other);
                let out = big_rat_mul(ta.0, ta.1.as_slice(), ta.2.as_slice(), tb.0,
                    tb.1.as_slice(), tb.2.as_slice());
                let r = rat_from_digit_parts(out.0, out.1, out.2);
                r
            },
        }
    }

    /// Orders two canonical rationals by value.
    pub fn cmp(&self, other: &Rational) -> (r: core::cmp::Ordering)
        requires
            self@.canon(),
            other@.canon(),
        ensures
            r == core::cmp::Ordering::Less <==> self@.num() * other@.den() < other@.num()
                * self@.den(),
            r == core::cmp::Ordering::Equal <==> self@.num() * other@.den() == other@.num()
                * self@.den(),
            r == core::cmp::Ordering::Greater <==> self@.num() * other@.den() > other@.num()
                * self@.den(),
    {
        match (self, other) {
            (Rational::Natural(n1, d1), Rational::Natural(n2, d2)) => {
                proof {
                    assert(-0x4000_0000_0000_0000_0000_0000_0000_0000 <= (n1 as int) * (d2 as int)
                        <= 0x4000_0000_0000_0000_0000_0000_0000_0000
                        && -0x4000_0000_0000_0000_0000_0000_0000_0000 <= (n2 as int) * (d1 as int)
                        <= 0x4000_0000_0000_0000_0000_0000_0000_0000) by (nonlinear_arith)
                        requires
                            -0x8000_0000_0000_0000 <= n1 as int <= 0x7fff_ffff_ffff_ffff,
                            -0x8000_0000_0000_0000 <= n2 as int <= 0x7fff_ffff_ffff_ffff,
                            1 <= d1 as int <= 0x7fff_ffff_ffff_ffff,
                            1 <= d2 as int <= 0x7fff_ffff_ffff_ffff,
                    ;
                }
                let a: i128 = (*n1 as i128) * (*d2 as i128);
                let b: i128 = (*n2 as i128) * (*d1 as i128);
                if a < b {
                    core::cmp::Ordering::Less
                } else if a == b {
                    core::cmp::Ordering::Equal
                } else {
                    core::cmp::Ordering::Greater
                }
            },
            _ => {
                let ta = to_digit_triple(self);
                let tb = to_digit_triple(other);
                big_rat_cmp(ta.0, ta.1.as_slice(), ta.2.as_slice(), tb.0, tb.1.as_slice(),
                    tb.2.as_slice())
            },
        }
    }

    /// Whether the value is zero.
    pub fn is_zero(&self) -> (r: bool)
        requires
            self@.wf(),
        ensures
            r <==> self@.num() == 0,
    {
        match self {
            Rational::Natural(n, _) => *n == 0,
            Rational::Large(_) => false,
        }
    }

    /// Whether this is the canonical representation of one.
    pub fn is_one(&self) -> (r: bool)
        ensures
            r <==> self@ == RationalV::Natural(1, 1),
    {
        match self {
            Rational::Natural(n, d) => *n == 1 && *d == 1,
            Rational::Large(_) => false,
        }
    }

    /// Whether the value is negative.
    pub fn is_negative(&self) -> (r: bool)
        requires
            self@.canon(),
        ensures
            r <==> self@.num() < 0,
    {
        match self {
            Rational::Natural(n, _) => *n < 0,
            Rational::Large(l) => l.is_negative,
        }
    }

    /// Whether the canonical fraction has denominator one.
    pub fn is_integer(&self) -> (r: bool)
        requires
            self@.canon(),
        ensures
            r <==> self@.den() == 1,
    {
        match self {
            Rational::Natural(_, d) => *d == 1,
            Rational::Large(l) => {
                let r = l.den_digits.len() == 1 && l.den_digits[0] == 1;
                proof {
                    if l.den_digits@.len() != 1 && digits_val(l.den_digits@) == 1 {
                        lemma_canonical_digits_lower(l.den_digits@);
                        vstd::arithmetic::power::lemma_pow_increases(256, 1, (l.den_digits@.len()
                            - 1) as nat);
                        vstd::arithmetic::power::lemma_pow1(256);
                    }
                    if l.den_digits@.len() == 1 {
                        assert(digits_val(l.den_digits@) == l.den_digits@[0] as nat + 256
                            * digits_val(l.den_digits@.skip(1)));
                    }
                }
                r
            },
        }
    }

    /// Exact power with a machine-word exponent.
    pub fn pow_u32(&self, e: u32) -> (r: Rational)
        requires
            self@.canon(),
        ensures
            r@.canon(),
            r@.num() * pow(self@.den(), e as nat) == pow(self@.num(), e as nat) * r@.den(),
    {
        if e == 0 {
            let r = Rational::one();
            proof {
                vstd::arithmetic::power::lemma_pow0(self@.den());
                vstd::arithmetic::power::lemma_pow0(self@.num());
            }
            return r;
        }
        match self {
            Rational::Natural(n, d) => {
                let (sn, mn) = split_i64(*n);
                if mn == 0 {
                    let r = Rational::zero();
                    proof {
                        vstd::arithmetic::power::lemma0_pow(e as nat);
                        assert(self@.num() == 0);
                        assert(r@.num() * pow(self@.den(), e as nat) == 0) by (nonlinear_arith)
                            requires r@.num() == 0;
                        assert(pow(0, e as nat) * r@.den() == 0) by (nonlinear_arith)
                            requires pow(0, e as nat) == 0;
                    }
                    return r;
                }
                let rneg = sn && e % 2 == 1;
                proof {
                    lemma_pow_neg_base(mn as int, e as nat);
                    vstd::arithmetic::power::lemma_pow_positive(mn as int, e as nat);
                    assert(pow(self@.num(), e as nat) == sm_val(rneg, pow(mn as int,
                        e as nat) as nat));
                }
                let pn = pow_mag_capped(mn, e);
                let pd = pow_mag_capped(*d as u64, e);
                match (pn, pd) {
                    (Some(pnv), Some(pdv)) => {
                        proof {
                            vstd::arithmetic::power::lemma_pow_positive(*d as int, e as nat);
                        }
                        let r = rat_from_sm(rneg, pnv, pdv);
                        r
                    },
                    _ => {
                        let nd = u128_to_digits(mn as u128);
                        let dd = u128_to_digits(*d as u128);
                        let qn = big_int_pow(sn, nd.as_slice(), e);
                        let qd = big_int_pow(false, dd.as_slice(), e);
                        proof {
                            lemma_pow_neg_base(mn as int, e as nat);
                            vstd::arithmetic::power::lemma_pow_positive(mn as int, e as nat);
                            vstd::arithmetic::power::lemma_pow_positive(*d as int, e as nat);
                            assert(signed_val(qn.0, qn.1@) == pow(*n as int, e as nat));
                            assert(digits_val(qn.1@) > 0);
                            assert(digits_val(qd.1@) == pow(*d as int, e as nat));
                        }
                        let rr = crate::bigrat::big_rat_reduce(qn.0, qn.1.as_slice(),
                            qd.1.as_slice());
                        proof {
                            assert(signed_val(rr.0, rr.1@) != 0) by (nonlinear_arith)
                                requires
                                    signed_val(rr.0, rr.1@) * digits_val(qd.1@) == signed_val(
                                        qn.0, qn.1@) * digits_val(rr.2@),
                                    signed_val(qn.0, qn.1@) != 0,
                                    digits_val(rr.2@) > 0,
                                    digits_val(qd.1@) > 0,
                            ;
                        }
                        let r = rat_from_digit_parts(rr.0, rr.1, rr.2);
                        proof {
                            assert(r@.num() * pow(self@.den(), e as nat) == pow(self@.num(),
                                e as nat) * r@.den()) by (nonlinear_arith)
                                requires
                                    r@.num() == signed_val(rr.0, rr.1@),
                                    r@.den() == digits_val(rr.2@) as int,
                                    signed_val(rr.0, rr.1@) * digits_val(qd.1@) == signed_val(
                                        qn.0, qn.1@) * digits_val(rr.2@),
                                    signed_val(qn.0, qn.1@) == pow(self@.num(), e as nat),
                                    digits_val(qd.1@) == pow(self@.den(), e as nat),
                            ;
                        }
                        r
                    },
                }
            },
            Rational::Large(l) => {
                let qn = big_int_pow(l.is_negative, l.num_digits.as_slice(), e);
                let qd = big_int_pow(false, l.den_digits.as_slice(), e);
                proof {
                    lemma_pow_neg_base(digits_val(l.num_digits@) as int, e as nat);
                    vstd::arithmetic::power::lemma_pow_positive(digits_val(l.num_digits@) as int,
                        e as nat);
                    vstd::arithmetic::power::lemma_pow_positive(digits_val(l.den_digits@) as int,
                        e as nat);
                    assert(digits_val(qn.1@) > 0);
                    assert(digits_val(qd.1@) == pow(self@.den(), e as nat));
                }
                let rr = crate::bigrat::big_rat_reduce(qn.0, qn.1.as_slice(), qd.1.as_slice());
                proof {
                    assert(signed_val(rr.0, rr.1@) != 0) by (nonlinear_arith)
                        requires
                            signed_val(rr.0, rr.1@) * digits_val(qd.1@) == signed_val(qn.0,
                                qn.1@) * digits_val(rr.2@),
                            signed_val(qn.0, qn.1@) != 0,
                            digits_val(rr.2@) > 0,
                            digits_val(qd.1@) > 0,
                    ;
                }
                let r = rat_from_digit_parts(rr.0, rr.1, rr.2);
                proof {
                    assert(r@.num() * pow(self@.den(), e as nat) == pow(self@.num(), e as nat)
                        * r@.den()) by (nonlinear_arith)
                        requires
                            r@.num() == signed_val(rr.0, rr.1@),
                            r@.den() == digits_val(rr.2@) as int,
                            signed_val(rr.0, rr.1@) * digits_val(qd.1@) == signed_val(qn.0,
                                qn.1@) * digits_val(rr.2@),
                            signed_val(qn.0, qn.1@) == pow(self@.num(), e as nat),
                            digits_val(qd.1@) == pow(self@.den(), e as nat),
                    ;
                }
                r
            },
        }
    }

    /// Exact reciprocal of a nonzero canonical rational.
    pub fn recip(&self) -> (r: Rational)
        requires
            self@.canon(),
            self@.num() != 0,
        ensures
            r@.canon(),
            r@.num() * self@.num() == self@.den() * r@.den(),
    {
        match self {
            Rational::Natural(n, d) => {
                let (sn, mn) = split_i64(*n);
                let r = rat_from_sm(sn, *d as u128, mn as u128);
                proof {
                    assert(r@.num() * (n as int) == (d as int) * r@.den()) by (nonlinear_arith)
                        requires
                            r@.num() * (mn as int) == sm_val(sn, d as nat) * r@.den(),
                            sm_val(sn, mn as nat) == n as int,
                            sm_val(sn, mn as nat) == if sn { -(mn as int) } else { mn as int },
                            sm_val(sn, d as nat) == if sn { -(d as int) } else { d as int },
                            d >= 1,
                    ;
                }
                r
            },
            Rational::Large(l) => {
                let r = Rational::Large(
                    LargeRational {
                        is_negative: l.is_negative,
                        num_digits: copy_bytes(&l.den_digits),
                        den_digits: copy_bytes(&l.num_digits),
                    },
                );
                proof {
                    lemma_gcd_symmetric(digits_val(l.num_digits@), digits_val(l.den_digits@));
                    assert(abs_int(self@.num()) == digits_val(l.num_digits@));
                    assert(abs_int(r@.num()) == digits_val(l.den_digits@));
                    assert(r@.num() * self@.num() == self@.den() * r@.den()) by (nonlinear_arith)
                        requires
                            r@.num() == sm_val(l.is_negative, digits_val(l.den_digits@)),
                            self@.num() == sm_val(l.is_negative, digits_val(l.num_digits@)),
                            r@.den() == digits_val(l.num_digits@) as int,
                            self@.den() == digits_val(l.den_digits@) as int,
                            sm_val(l.is_negative, digits_val(l.den_digits@)) == if l.is_negative { -(digits_val(l.den_digits@) as int) } else { digits_val(l.den_digits@) as int },
                            sm_val(l.is_negative, digits_val(l.num_digits@)) == if l.is_negative { -(digits_val(l.num_digits@) as int) } else { digits_val(l.num_digits@) as int },
                    ;
                }
                r
            },
        }
    }

    /// Structural equality of two rationals.
    pub fn eq_structural(&self, other: &Rational) -> (r: bool)
        ensures
            r <==> self@ == other@,
    {
        match (self, other) {
            (Rational::Natural(n1, d1), Rational::Natural(n2, d2)) => *n1 == *n2 && *d1 == *d2,
            (Rational::Large(l1), Rational::Large(l2)) => {
                l1.is_negative == l2.is_negative && bytes_equal(&l1.num_digits, &l2.num_digits)
                    && bytes_equal(&l1.den_digits, &l2.den_digits)
            },
            _ => false,
        }
    }

    /// A structurally equal copy.
    pub fn duplicate(&self) -> (r: Rational)
        ensures
            r@ == self@,
    {
        match self {
            Rational::Natural(n, d) => Rational::Natural(*n, *d),
            Rational::Large(l) => Rational::Large(
                LargeRational {
                    is_negative: l.is_negative,
                    num_digits: copy_bytes(&l.num_digits),
                    den_digits: copy_bytes(&l.den_digits),
                },
            ),
        }
    }
}

} // verus!
