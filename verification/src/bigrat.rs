use vstd::prelude::*;
use num_bigint::{BigInt, Sign};
use num_rational::BigRational;

verus! {

use crate::digits::{digits_val, canonical_digits, signed_val};
use crate::euclid::gcd_nat;

/// Shape of a digit array handed back by `num_bigint`'s `to_bytes_le`: minimal
/// for a nonzero value, the single byte 0 for zero.
pub open spec fn returned_digits(s: Seq<u8>) -> bool {
    if digits_val(s) == 0 {
        s.len() == 1
    } else {
        canonical_digits(s)
    }
}

/// Relies on addition of num_rational::BigRational and on Ratio::new: the sum is
/// exact and is reduced to lowest terms with a positive denominator.
#[verifier::external_body]
pub(crate) fn big_rat_add(an: bool, anum: &[u8], aden: &[u8], bn: bool, bnum: &[u8], bden: &[u8]) -> (r: (
    bool,
    Vec<u8>,
    Vec<u8>,
))
    requires
        digits_val(aden@) > 0,
        digits_val(bden@) > 0,
    ensures
        digits_val(r.2@) > 0,
        signed_val(r.0, r.1@) * (digits_val(aden@) * digits_val(bden@)) == (signed_val(an, anum@)
            * digits_val(bden@) + signed_val(bn, bnum@) * digits_val(aden@)) * digits_val(r.2@),
        gcd_nat(digits_val(r.1@), digits_val(r.2@)) == 1,
        digits_val(r.1@) == 0 ==> !r.0 && digits_val(r.2@) == 1,
        returned_digits(r.1@),
        returned_digits(r.2@),
{
    let x = BigRational::new(
        BigInt::from_bytes_le(if an { Sign::Minus } else { Sign::Plus }, anum),
        BigInt::from_bytes_le(Sign::Plus, aden),
    );
    let y = BigRational::new(
        BigInt::from_bytes_le(if bn { Sign::Minus } else { Sign::Plus }, bnum),
        BigInt::from_bytes_le(Sign::Plus, bden),
    );
    let s = x + y;
    let (sg, num) = s.numer().to_bytes_le();
    let (_, den) = s.denom().to_bytes_le();
    (matches!(sg, Sign::Minus), num, den)
}

/// Relies on multiplication of num_rational::BigRational and on Ratio::new: the
/// product is exact and is reduced to lowest terms with a positive denominator.
#[verifier::external_body]
pub(crate) fn big_rat_mul(an: bool, anum: &[u8], aden: &[u8], bn: bool, bnum: &[u8], bden: &[u8]) -> (r: (
    bool,
    Vec<u8>,
    Vec<u8>,
))
    requires
        digits_val(aden@) > 0,
        digits_val(bden@) > 0,
    ensures
        digits_val(r.2@) > 0,
        signed_val(r.0, r.1@) * (digits_val(aden@) * digits_val(bden@)) == (signed_val(an, anum@)
            * signed_val(bn, bnum@)) * digits_val(r.2@),
        gcd_nat(digits_val(r.1@), digits_val(r.2@)) == 1,
        digits_val(r.1@) == 0 ==> !r.0 && digits_val(r.2@) == 1,
        returned_digits(r.1@),
        returned_digits(r.2@),
{
    let x = BigRational::new(
        BigInt::from_bytes_le(if an { Sign::Minus } else { Sign::Plus }, anum),
        BigInt::from_bytes_le(Sign::Plus, aden),
    );
    let y = BigRational::new(
        BigInt::from_bytes_le(if bn { Sign::Minus } else { Sign::Plus }, bnum),
        BigInt::from_bytes_le(Sign::Plus, bden),
    );
    let s = x * y;
    let (sg, num) = s.numer().to_bytes_le();
    let (_, den) = s.denom().to_bytes_le();
    (matches!(sg, Sign::Minus), num, den)
}

/// Relies on num_rational::Ratio::new: the fraction is reduced to lowest
/// terms with a positive denominator, preserving its value.
#[verifier::external_body]
pub(crate) fn big_rat_reduce(neg: bool, num: &[u8], den: &[u8]) -> (r: (bool, Vec<u8>, Vec<u8>))
    requires
        digits_val(den@) > 0,
    ensures
        digits_val(r.2@) > 0,
        signed_val(r.0, r.1@) * digits_val(den@) == signed_val(neg, num@) * digits_val(r.2@),
        gcd_nat(digits_val(r.1@), digits_val(r.2@)) == 1,
        digits_val(r.1@) == 0 ==> !r.0 && digits_val(r.2@) == 1,
        returned_digits(r.1@),
        returned_digits(r.2@),
{
    let x = BigRational::new(
        BigInt::from_bytes_le(if neg { Sign::Minus } else { Sign::Plus }, num),
        BigInt::from_bytes_le(Sign::Plus, den),
    );
    let (sg, out_num) = x.numer().to_bytes_le();
    let (_, out_den) = x.denom().to_bytes_le();
    (matches!(sg, Sign::Minus), out_num, out_den)
}

/// Relies on Ord for num_rational::BigRational: the ordering of the numerical
/// values of the two fractions.
#[verifier::external_body]
pub(crate) fn big_rat_cmp(an: bool, anum: &[u8], aden: &[u8], bn: bool, bnum: &[u8], bden: &[u8]) -> (r:
    core::cmp::Ordering)
    requires
        digits_val(aden@) > 0,
        digits_val(bden@) > 0,
    ensures
        r == core::cmp::Ordering::Less <==> signed_val(an, anum@) * digits_val(bden@) < signed_val(
            bn, bnum@) * digits_val(aden@),
        r == core::cmp::Ordering::Equal <==> signed_val(an, anum@) * digits_val(bden@)
            == signed_val(bn, bnum@) * digits_val(aden@),
        r == core::cmp::Ordering::Greater <==> signed_val(an, anum@) * digits_val(bden@)
            > signed_val(bn, bnum@) * digits_val(aden@),
{
    let x = BigRational::new(
        BigInt::from_bytes_le(if an { Sign::Minus } else { Sign::Plus }, anum),
        BigInt::from_bytes_le(Sign::Plus, aden),
    );
    let y = BigRational::new(
        BigInt::from_bytes_le(if bn { Sign::Minus } else { Sign::Plus }, bnum),
        BigInt::from_bytes_le(Sign::Plus, bden),
    );
    x.cmp(&y)
}

/// Relies on num_bigint::BigInt::pow: exact magnitude exponentiation.
#[verifier::external_body]
pub(crate) fn big_int_pow(neg: bool, mag: &[u8], e: u32) -> (r: (bool, Vec<u8>))
    ensures
        signed_val(r.0, r.1@) == vstd::arithmetic::power::pow(signed_val(neg, mag@), e as nat),
        digits_val(r.1@) == 0 ==> !r.0,
        returned_digits(r.1@),
{
    let x = BigInt::from_bytes_le(if neg { Sign::Minus } else { Sign::Plus }, mag);
    let p = x.pow(e);
    let (sg, out) = p.to_bytes_le();
    (matches!(sg, Sign::Minus), out)
}

} // verus!
