use vstd::prelude::*;

verus! {

use vstd::arithmetic::power::pow;
use vstd::arithmetic::div_mod::lemma_fundamental_div_mod;

/// Value of a little-endian, base-256 digit array.
pub open spec fn digits_val(s: Seq<u8>) -> nat
    decreases s.len(),
{
    if s.len() == 0 {
        0
    } else {
        (s[0] as nat) + 256 * digits_val(s.skip(1))
    }
}

/// A digit array is canonical when its most significant byte is not zero.
pub open spec fn canonical_digits(s: Seq<u8>) -> bool {
    s.len() == 0 || s[s.len() - 1] != 0
}

/// Value of a sign-and-magnitude pair.
pub open spec fn signed_val(neg: bool, mag: Seq<u8>) -> int {
    if neg {
        -(digits_val(mag) as int)
    } else {
        digits_val(mag) as int
    }
}

pub proof fn lemma_digits_val_push(s: Seq<u8>, d: u8)
    ensures
        digits_val(s.push(d)) == digits_val(s) + (d as nat) * pow(256, s.len() as nat),
    decreases s.len(),
{
    if s.len() == 0 {
        assert(s.push(d).skip(1) =~= Seq::<u8>::empty());
        assert(s.push(d)[0] == d);
        assert(digits_val(s.push(d).skip(1)) == 0);
        assert(digits_val(s.push(d)) == d as nat);
        assert(pow(256, 0) == 1) by {
            vstd::arithmetic::power::lemma_pow0(256);
        }
    } else {
        assert(s.push(d).skip(1) =~= s.skip(1).push(d));
        lemma_digits_val_push(s.skip(1), d);
        assert(pow(256, s.len() as nat) == 256 * pow(256, (s.len() - 1) as nat)) by {
            vstd::arithmetic::power::lemma_pow1(256);
            vstd::arithmetic::power::lemma_pow_adds(256, 1, (s.len() - 1) as nat);
        }
        assert(digits_val(s.push(d)) == (s[0] as nat) + 256 * digits_val(s.skip(1).push(d)));
        assert(256 * (digits_val(s.skip(1)) + (d as nat) * pow(256, (s.len() - 1) as nat))
            == 256 * digits_val(s.skip(1)) + (d as nat) * (256 * pow(256, (s.len() - 1) as nat)))
            by (nonlinear_arith);
    }
}

pub proof fn lemma_digits_val_bound(s: Seq<u8>)
    ensures
        digits_val(s) < pow(256, s.len() as nat),
    decreases s.len(),
{
    if s.len() == 0 {
        vstd::arithmetic::power::lemma_pow0(256);
    } else {
        lemma_digits_val_bound(s.skip(1));
        assert(pow(256, s.len() as nat) == 256 * pow(256, (s.len() - 1) as nat)) by {
            vstd::arithmetic::power::lemma_pow1(256);
            vstd::arithmetic::power::lemma_pow_adds(256, 1, (s.len() - 1) as nat);
        }
        assert(256 * digits_val(s.skip(1)) <= 256 * (pow(256, (s.len() - 1) as nat) - 1))
            by (nonlinear_arith)
            requires digits_val(s.skip(1)) <= pow(256, (s.len() - 1) as nat) - 1;
    }
}

pub proof fn lemma_pow256_8()
    ensures
        pow(256, 8) == 0x1_0000_0000_0000_0000,
{
    vstd::arithmetic::power::lemma_pow1(256);
    vstd::arithmetic::power::lemma_pow_adds(256, 1, 1);
    assert(pow(256, 1) == 256);
    assert(pow(256, 2) == 0x10000);
    vstd::arithmetic::power::lemma_pow_adds(256, 2, 2);
    assert(pow(256, 4) == 0x100000000);
    vstd::arithmetic::power::lemma_pow_adds(256, 4, 4);
}

pub proof fn lemma_canonical_digits_lower(s: Seq<u8>)
    requires
        canonical_digits(s),
        s.len() > 0,
    ensures
        digits_val(s) >= pow(256, (s.len() - 1) as nat),
    decreases s.len(),
{
    if s.len() == 1 {
        vstd::arithmetic::power::lemma_pow0(256);
        assert(digits_val(s) == s[0] as nat + 256 * digits_val(s.skip(1)));
    } else {
        assert(canonical_digits(s.skip(1)));
        lemma_canonical_digits_lower(s.skip(1));
        assert(pow(256, (s.len() - 1) as nat) == 256 * pow(256, (s.len() - 2) as nat)) by {
            vstd::arithmetic::power::lemma_pow1(256);
            vstd::arithmetic::power::lemma_pow_adds(256, 1, (s.len() - 2) as nat);
        }
        assert(256 * digits_val(s.skip(1)) >= 256 * pow(256, (s.len() - 2) as nat))
            by (nonlinear_arith)
            requires digits_val(s.skip(1)) >= pow(256, (s.len() - 2) as nat);
    }
}

/// Writes a machine integer as a canonical little-endian digit array.
pub fn u128_to_digits(v: u128) -> (r: Vec<u8>)
    ensures
        digits_val(r@) == v,
        canonical_digits(r@),
{
    let mut digits: Vec<u8> = Vec::new();
    let mut rest: u128 = v;
    proof {
        vstd::arithmetic::power::lemma_pow0(256);
    }
    while rest > 0
        invariant
            digits_val(digits@) + (rest as nat) * pow(256, digits@.len() as nat) == v,
            pow(256, digits@.len() as nat) >= 1,
            rest == 0 ==> canonical_digits(digits@),
        decreases rest,
    {
        let d: u8 = (rest % 256) as u8;
        proof {
            lemma_digits_val_push(digits@, d);
            lemma_fundamental_div_mod(rest as int, 256);
            assert(pow(256, (digits@.len() + 1) as nat) == 256 * pow(256, digits@.len() as nat))
                by {
                vstd::arithmetic::power::lemma_pow1(256);
                vstd::arithmetic::power::lemma_pow_adds(256, 1, digits@.len() as nat);
            }
            assert(((d as nat) + 256 * ((rest / 256) as nat)) * pow(256, digits@.len() as nat)
                == (d as nat) * pow(256, digits@.len() as nat) + ((rest / 256) as nat) * (256
                * pow(256, digits@.len() as nat))) by (nonlinear_arith);
            vstd::arithmetic::power::lemma_pow_positive(256, (digits@.len() + 1) as nat);
        }
        digits.push(d);
        rest = rest / 256;
    }
    digits
}

/// Reads a digit array of at most 16 bytes back into a machine integer.
pub fn digits_to_u128(s: &[u8]) -> (r: u128)
    requires
        s@.len() <= 16,
    ensures
        r as nat == digits_val(s@),
{
    let n = s.len();
    let mut i = n;
    let mut acc: u128 = 0;
    proof {
        assert(s@.skip(n as int) =~= Seq::<u8>::empty());
        vstd::arithmetic::power::lemma_pow0(256);
    }
    while i > 0
        invariant
            i <= n,
            n == s@.len(),
            n <= 16,
            acc as nat == digits_val(s@.skip(i as int)),
            (acc as nat) < pow(256, (n - i) as nat),
        decreases i,
    {
        i = i - 1;
        proof {
            assert(s@.skip(i as int).skip(1) =~= s@.skip(i + 1));
            assert(digits_val(s@.skip(i as int)) == (s@[i as int] as nat) + 256 * digits_val(
                s@.skip(i + 1)));
            assert(pow(256, (n - i) as nat) == 256 * pow(256, (n - i - 1) as nat)) by {
                vstd::arithmetic::power::lemma_pow1(256);
                vstd::arithmetic::power::lemma_pow_adds(256, 1, (n - i - 1) as nat);
            }
            assert(256 * (acc as nat) + 255 < 256 * pow(256, (n - i - 1) as nat))
                by (nonlinear_arith)
                requires (acc as nat) < pow(256, (n - i - 1) as nat);
            assert(pow(256, (n - i) as nat) <= pow(256, 16)) by {
                vstd::arithmetic::power::lemma_pow_increases(256, (n - i) as nat, 16);
            }
            assert(pow(256, 16) == 0x100000000000000000000000000000000) by {
                vstd::arithmetic::power::lemma_pow1(256);
                vstd::arithmetic::power::lemma_pow_adds(256, 1, 1);
                assert(pow(256, 1) == 256);
                assert(pow(256, 2) == 0x10000);
                vstd::arithmetic::power::lemma_pow_adds(256, 2, 2);
                assert(pow(256, 4) == 0x100000000);
                vstd::arithmetic::power::lemma_pow_adds(256, 4, 4);
                assert(pow(256, 8) == 0x10000000000000000);
                vstd::arithmetic::power::lemma_pow_adds(256, 8, 8);
            }
        }
        acc = acc * 256 + (s[i] as u128);
    }
    proof {
        assert(s@.skip(0) =~= s@);
    }
    acc
}

} // verus!
