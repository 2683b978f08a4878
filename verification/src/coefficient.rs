use vstd::prelude::*;

verus! {

use crate::rational::{Rational, RationalV};
use crate::poly::{RationalPolynomial, dup_rat_poly, rat_poly_equal, poly_constant};
use crate::state::{State, StateV, ff_add, ff_mul};
use vstd::arithmetic::power::pow;
use crate::error::NormalizeError;

/// Mathematical mirror of a coefficient.
pub enum CoefficientV {
    Rational(RationalV),
    FiniteField(u64, usize),
    RationalPolynomial(crate::poly::RatPolyV),
}

impl CoefficientV {
    /// Canonical form: reduced rationals, non-constant polynomial ratios.
    pub open spec fn canon(self) -> bool {
        match self {
            CoefficientV::Rational(r) => r.canon(),
            CoefficientV::FiniteField(_, _) => true,
            CoefficientV::RationalPolynomial(p) => p.wf() && !p.is_constant(),
        }
    }

    /// The registry knows every finite field the coefficient names.
    pub open spec fn valid_for(self, st: StateV) -> bool {
        match self {
            CoefficientV::FiniteField(_, idx) => idx < st.primes.len(),
            _ => true,
        }
    }

    /// Whether the coefficient denotes zero.
    pub open spec fn is_zero_spec(self) -> bool {
        match self {
            CoefficientV::Rational(r) => r.num() == 0,
            CoefficientV::FiniteField(el, _) => el == 0,
            CoefficientV::RationalPolynomial(p) => p.numerator.terms.len() == 0,
        }
    }

    /// Whether the coefficient is the canonical one.
    pub open spec fn is_one_spec(self) -> bool {
        self == CoefficientV::Rational(RationalV::Natural(1, 1))
    }
}

/// Two finite-field coefficients from different fields.
pub open spec fn incompatible_ff(a: CoefficientV, b: CoefficientV) -> bool {
    match (a, b) {
        (CoefficientV::FiniteField(_, i), CoefficientV::FiniteField(_, j)) => i != j,
        _ => false,
    }
}

/// A finite-field coefficient beside one from another domain.
pub open spec fn mixed_domain(a: CoefficientV, b: CoefficientV) -> bool {
    (a is FiniteField) != (b is FiniteField)
}

/// The result is a rational holding exactly the sum of two rationals.
pub open spec fn is_rational_sum(c: CoefficientV, a: CoefficientV, b: CoefficientV) -> bool {
    match (c, a, b) {
        (
            CoefficientV::Rational(rc),
            CoefficientV::Rational(ra),
            CoefficientV::Rational(rb),
        ) => rc.num() * (ra.den() * rb.den()) == (ra.num() * rb.den() + rb.num() * ra.den())
            * rc.den(),
        _ => false,
    }
}

/// The result is a rational holding exactly the product of two rationals.
pub open spec fn is_rational_product(c: CoefficientV, a: CoefficientV, b: CoefficientV) -> bool {
    match (c, a, b) {
        (
            CoefficientV::Rational(rc),
            CoefficientV::Rational(ra),
            CoefficientV::Rational(rb),
        ) => rc.num() * (ra.den() * rb.den()) == (ra.num() * rb.num()) * rc.den(),
        _ => false,
    }
}

/// A coefficient of a symbolic expression: an exact rational, an element of a
/// registered finite field, or a ratio of multivariate polynomials.
pub enum Coefficient {
    Rational(Rational),
    FiniteField(u64, usize),
    RationalPolynomial(RationalPolynomial),
}

impl View for Coefficient {
    type V = CoefficientV;

    open spec fn view(&self) -> CoefficientV {
        match self {
            Coefficient::Rational(r) => CoefficientV::Rational(r@),
            Coefficient::FiniteField(el, idx) => CoefficientV::FiniteField(*el, *idx),
            Coefficient::RationalPolynomial(p) => CoefficientV::RationalPolynomial(p@),
        }
    }
}

/// A read-only view of a large rational kept in serialized digit form.
pub struct SerializedRational<'a> {
    pub is_negative: bool,
    pub num_digits: &'a [u8],
    pub den_digits: &'a [u8],
}

impl<'a> View for SerializedRational<'a> {
    type V = RationalV;

    open spec fn view(&self) -> RationalV {
        RationalV::Large(self.is_negative, self.num_digits@, self.den_digits@)
    }
}

/// Copies a byte slice into an owned vector.
pub(crate) fn copy_slice(s: &[u8]) -> (r: Vec<u8>)
    ensures
        r@ == s@,
{
    let mut r: Vec<u8> = Vec::new();
    let n = s.len();
    let mut i: usize = 0;
    while i < n
        invariant
            i <= n,
            n == s@.len(),
            r@ =~= s@.subrange(0, i as int),
        decreases n - i,
    {
        r.push(s[i]);
        i = i + 1;
    }
    proof {
        assert(r@ =~= s@);
    }
    r
}

impl<'a> SerializedRational<'a> {
    /// Whether the serialized value is negative.
    pub fn is_negative(&self) -> (r: bool)
        ensures
            r == self.is_negative,
    {
        self.is_negative
    }

    /// Materializes the serialized rational as an owned value.
    pub fn to_rat(&self) -> (r: Rational)
        requires
            self@.canon(),
        ensures
            r@ == self@,
    {
        Rational::Large(
            crate::rational::LargeRational {
                is_negative: self.is_negative,
                num_digits: copy_slice(self.num_digits),
                den_digits: copy_slice(self.den_digits),
            },
        )
    }
}

/// A read-only view of a coefficient, used during comparison and traversal;
/// large rationals stay in serialized digit form.
pub enum CoefficientView<'a> {
    Natural(i64, i64),
    Large(SerializedRational<'a>),
    FiniteField(u64, usize),
    RationalPolynomial(&'a RationalPolynomial),
}

impl<'a> View for CoefficientView<'a> {
    type V = CoefficientV;

    open spec fn view(&self) -> CoefficientV {
        match self {
            CoefficientView::Natural(n, d) => CoefficientV::Rational(RationalV::Natural(*n, *d)),
            CoefficientView::Large(sr) => CoefficientV::Rational(sr@),
            CoefficientView::FiniteField(el, idx) => CoefficientV::FiniteField(*el, *idx),
            CoefficientView::RationalPolynomial(p) => CoefficientV::RationalPolynomial((*p)@),
        }
    }
}

/// Downgrades a polynomial ratio that turned constant to its rational value.
pub(crate) fn downgrade(p: RationalPolynomial) -> (r: Coefficient)
    requires
        p@.wf(),
    ensures
        r@.canon(),
        !(r@ is FiniteField),
{
    if p.is_constant() {
        Coefficient::Rational(p.to_rational())
    } else {
        Coefficient::RationalPolynomial(p)
    }
}

impl Default for Coefficient {
    /// The default coefficient is zero.
    fn default() -> (r: Coefficient)
        ensures
            r@ == CoefficientV::Rational(RationalV::Natural(0, 1)),
            r@.canon(),
    {
        Coefficient::zero()
    }
}

impl Coefficient {
    /// A fresh coefficient: zero.
    pub fn new() -> (r: Coefficient)
        ensures
            r@ == CoefficientV::Rational(RationalV::Natural(0, 1)),
            r@.canon(),
    {
        Coefficient::zero()
    }

    /// The coefficient zero.
    pub fn zero() -> (r: Coefficient)
        ensures
            r@ == CoefficientV::Rational(RationalV::Natural(0, 1)),
            r@.canon(),
    {
        Coefficient::Rational(Rational::zero())
    }

    /// The coefficient one.
    pub fn one() -> (r: Coefficient)
        ensures
            r@ == CoefficientV::Rational(RationalV::Natural(1, 1)),
            r@.canon(),
    {
        Coefficient::Rational(Rational::one())
    }

    /// Whether the coefficient denotes zero.
    pub fn is_zero(&self) -> (r: bool)
        requires
            self@.canon(),
        ensures
            r == self@.is_zero_spec(),
    {
        match self {
            Coefficient::Rational(q) => q.is_zero(),
            Coefficient::FiniteField(el, _) => *el == 0,
            Coefficient::RationalPolynomial(p) => p.numerator.terms.len() == 0,
        }
    }

    /// Whether the coefficient is the canonical one.
    pub fn is_one(&self) -> (r: bool)
        ensures
            r == self@.is_one_spec(),
    {
        match self {
            Coefficient::Rational(q) => q.is_one(),
            _ => false,
        }
    }

    /// A read-only view of this coefficient.
    pub fn coeff_view<'a>(&'a self) -> (r: CoefficientView<'a>)
        ensures
            r@ == self@,
    {
        match self {
            Coefficient::Rational(q) => match q {
                Rational::Natural(n, d) => CoefficientView::Natural(*n, *d),
                Rational::Large(l) => CoefficientView::Large(
                    SerializedRational {
                        is_negative: l.is_negative,
                        num_digits: l.num_digits.as_slice(),
                        den_digits: l.den_digits.as_slice(),
                    },
                ),
            },
            Coefficient::FiniteField(el, idx) => CoefficientView::FiniteField(*el, *idx),
            Coefficient::RationalPolynomial(p) => CoefficientView::RationalPolynomial(p),
        }
    }

    /// A structurally equal copy.
    pub fn duplicate(&self) -> (r: Coefficient)
        ensures
            r@ == self@,
    {
        match self {
            Coefficient::Rational(q) => Coefficient::Rational(q.duplicate()),
            Coefficient::FiniteField(el, idx) => Coefficient::FiniteField(*el, *idx),
            Coefficient::RationalPolynomial(p) => Coefficient::RationalPolynomial(dup_rat_poly(p)),
        }
    }

    /// Structural equality of two coefficients.
    pub fn eq_structural(&self, other: &Coefficient) -> (r: bool)
        ensures
            r <==> self@ == other@,
    {
        match (self, other) {
            (Coefficient::Rational(a), Coefficient::Rational(b)) => a.eq_structural(b),
            (Coefficient::FiniteField(e1, i1), Coefficient::FiniteField(e2, i2)) => *e1 == *e2
                && *i1 == *i2,
            (Coefficient::RationalPolynomial(a), Coefficient::RationalPolynomial(b)) =>
                rat_poly_equal(a, b),
            _ => false,
        }
    }

    /// Sum of two coefficients across domains.
    pub fn add(&self, other: &Coefficient, state: &State) -> (r: Result<
        Coefficient,
        NormalizeError,
    >)
        requires
            self@.canon(),
            other@.canon(),
            self@.valid_for(state@),
            other@.valid_for(state@),
            state@.wf(),
        ensures
            r == Err::<Coefficient, NormalizeError>(NormalizeError::IncompatibleFiniteFields)
                <==> incompatible_ff(self@, other@),
            r == Err::<Coefficient, NormalizeError>(NormalizeError::InvalidDomainMix)
                <==> mixed_domain(self@, other@),
            self@ is Rational && other@ is Rational ==> (r matches Ok(c) && is_rational_sum(c@,
                self@, other@)),
            self@ matches CoefficientV::FiniteField(e1, i1) ==> (other@ matches
                CoefficientV::FiniteField(e2, i2) ==> (i1 == i2 ==> (r matches Ok(c) && (
            c@ matches CoefficientV::FiniteField(el, i3) && i3 == i1 && el as nat == ((e1 as nat)
                + (e2 as nat)) % (state@.primes[i1 as int] as nat))))),
            r matches Ok(c) ==> c@.canon() && c@.valid_for(state@),
    {
        let va = self.coeff_view();
        let vb = other.coeff_view();
        va.add(&vb, state)
    }

    /// Product of two coefficients across domains.
    pub fn mul(&self, other: &Coefficient, state: &State) -> (r: Result<
        Coefficient,
        NormalizeError,
    >)
        requires
            self@.canon(),
            other@.canon(),
            self@.valid_for(state@),
            other@.valid_for(state@),
            state@.wf(),
        ensures
            r == Err::<Coefficient, NormalizeError>(NormalizeError::IncompatibleFiniteFields)
                <==> incompatible_ff(self@, other@),
            r == Err::<Coefficient, NormalizeError>(NormalizeError::InvalidDomainMix)
                <==> mixed_domain(self@, other@),
            self@ is Rational && other@ is Rational ==> (r matches Ok(c) && is_rational_product(
                c@, self@, other@)),
            self@ matches CoefficientV::FiniteField(e1, i1) ==> (other@ matches
                CoefficientV::FiniteField(e2, i2) ==> (i1 == i2 ==> (r matches Ok(c) && (
            c@ matches CoefficientV::FiniteField(el, i3) && i3 == i1 && el as nat == ((e1 as nat)
                * (e2 as nat)) % (state@.primes[i1 as int] as nat))))),
            r matches Ok(c) ==> c@.canon() && c@.valid_for(state@),
    {
        let va = self.coeff_view();
        let vb = other.coeff_view();
        va.mul(&vb, state)
    }
}

impl<'a> CoefficientView<'a> {
    /// The owned rational a rational-domain view denotes.
    fn rational_of(&self) -> (r: Rational)
        requires
            self@.canon(),
            self@ is Rational,
        ensures
            self@ == CoefficientV::Rational(r@),
            r@.canon(),
    {
        match self {
            CoefficientView::Natural(n, d) => Rational::Natural(*n, *d),
            CoefficientView::Large(sr) => sr.to_rat(),
            _ => {
                proof {
                    assert(false);
                }
                Rational::zero()
            },
        }
    }

    /// An owned copy of the viewed coefficient.
    pub fn to_owned(&self) -> (r: Coefficient)
        ensures
            r@ == self@,
    {
        match self {
            CoefficientView::Natural(n, d) => Coefficient::Rational(Rational::Natural(*n, *d)),
            CoefficientView::Large(sr) => Coefficient::Rational(
                Rational::Large(
                    crate::rational::LargeRational {
                        is_negative: sr.is_negative,
                        num_digits: copy_slice(sr.num_digits),
                        den_digits: copy_slice(sr.den_digits),
                    },
                ),
            ),
            CoefficientView::FiniteField(el, idx) => Coefficient::FiniteField(*el, *idx),
            CoefficientView::RationalPolynomial(p) => Coefficient::RationalPolynomial(
                dup_rat_poly(p),
            ),
        }
    }

    /// Re-normalizes the viewed value: a machine-word fraction is reduced, a
    /// polynomial ratio that turned constant is downgraded, the rest is copied.
    pub fn normalize(&self) -> (r: Coefficient)
        requires
            match self@ {
                CoefficientV::Rational(q) => q.wf(),
                CoefficientV::FiniteField(_, _) => true,
                CoefficientV::RationalPolynomial(p) => p.wf(),
            },
        ensures
            r@.canon(),
            self@ matches CoefficientV::Rational(q) ==> (r@ matches CoefficientV::Rational(q2)
                && q2.num() * q.den() == q.num() * q2.den()),
            self@ is FiniteField ==> r@ == self@,
            !(self@ is FiniteField) ==> !(r@ is FiniteField),
    {
        match self {
            CoefficientView::Natural(n, d) => Coefficient::Rational(Rational::new(*n, *d)),
            CoefficientView::Large(sr) => {
                let q = sr.to_rat();
                proof {
                    assert(q@.num() * sr@.den() == sr@.num() * q@.den());
                }
                Coefficient::Rational(q)
            },
            CoefficientView::FiniteField(el, idx) => Coefficient::FiniteField(*el, *idx),
            CoefficientView::RationalPolynomial(p) => downgrade(dup_rat_poly(p)),
        }
    }

    /// Whether the viewed coefficient is integral: an integer rational, any
    /// finite-field element, never a polynomial ratio.
    pub fn is_integer(&self) -> (r: bool)
        requires
            self@.canon(),
        ensures
            r == match self@ {
                CoefficientV::Rational(q) => q.den() == 1,
                CoefficientV::FiniteField(_, _) => true,
                CoefficientV::RationalPolynomial(_) => false,
            },
    {
        match self {
            CoefficientView::Natural(_, d) => *d == 1,
            CoefficientView::Large(sr) => {
                let q = sr.to_rat();
                q.is_integer()
            },
            CoefficientView::FiniteField(_, _) => true,
            CoefficientView::RationalPolynomial(_) => false,
        }
    }

    /// Sum of two viewed coefficients across domains.
    pub fn add(&self, other: &CoefficientView<'_>, state: &State) -> (r: Result<
        Coefficient,
        NormalizeError,
    >)
        requires
            self@.canon(),
            other@.canon(),
            self@.valid_for(state@),
            other@.valid_for(state@),
            state@.wf(),
        ensures
            r == Err::<Coefficient, NormalizeError>(NormalizeError::IncompatibleFiniteFields)
                <==> incompatible_ff(self@, other@),
            r == Err::<Coefficient, NormalizeError>(NormalizeError::InvalidDomainMix)
                <==> mixed_domain(self@, other@),
            self@ is Rational && other@ is Rational ==> (r matches Ok(c) && is_rational_sum(c@,
                self@, other@)),
            self@ matches CoefficientV::FiniteField(e1, i1) ==> (other@ matches
                CoefficientV::FiniteField(e2, i2) ==> (i1 == i2 ==> (r matches Ok(c) && (
            c@ matches CoefficientV::FiniteField(el, i3) && i3 == i1 && el as nat == ((e1 as nat)
                + (e2 as nat)) % (state@.primes[i1 as int] as nat))))),
            r matches Ok(c) ==> c@.canon() && c@.valid_for(state@),
    {
        match (self, other) {
            (CoefficientView::FiniteField(e1, i1), CoefficientView::FiniteField(e2, i2)) => {
                if *i1 != *i2 {
                    return Err(NormalizeError::IncompatibleFiniteFields);
                }
                let p = state.get_prime(*i1);
                Ok(Coefficient::FiniteField(ff_add(*e1, *e2, p), *i1))
            },
            (CoefficientView::FiniteField(_, _), _) => Err(NormalizeError::InvalidDomainMix),
            (_, CoefficientView::FiniteField(_, _)) => Err(NormalizeError::InvalidDomainMix),
            (CoefficientView::RationalPolynomial(p1), CoefficientView::RationalPolynomial(p2)) => {
                match p1.add(p2) {
                    Ok(s) => Ok(downgrade(s)),
                    Err(e) => Err(e),
                }
            },
            (CoefficientView::RationalPolynomial(p1), _) => {
                let q = other.rational_of();
                let lifted = lift_rational(&q, p1);
                match p1.add(&lifted) {
                    Ok(s) => Ok(downgrade(s)),
                    Err(e) => Err(e),
                }
            },
            (_, CoefficientView::RationalPolynomial(p2)) => {
                let q = self.rational_of();
                let lifted = lift_rational(&q, p2);
                match lifted.add(p2) {
                    Ok(s) => Ok(downgrade(s)),
                    Err(e) => Err(e),
                }
            },
            _ => {
                let a = self.rational_of();
                let b = other.rational_of();
                Ok(Coefficient::Rational(a.add(&b)))
            },
        }
    }

    /// Product of two viewed coefficients across domains.
    pub fn mul(&self, other: &CoefficientView<'_>, state: &State) -> (r: Result<
        Coefficient,
        NormalizeError,
    >)
        requires
            self@.canon(),
            other@.canon(),
            self@.valid_for(state@),
            other@.valid_for(state@),
            state@.wf(),
        ensures
            r == Err::<Coefficient, NormalizeError>(NormalizeError::IncompatibleFiniteFields)
                <==> incompatible_ff(self@, other@),
            r == Err::<Coefficient, NormalizeError>(NormalizeError::InvalidDomainMix)
                <==> mixed_domain(self@, other@),
            self@ is Rational && other@ is Rational ==> (r matches Ok(c) && is_rational_product(
                c@, self@, other@)),
            self@ matches CoefficientV::FiniteField(e1, i1) ==> (other@ matches
                CoefficientV::FiniteField(e2, i2) ==> (i1 == i2 ==> (r matches Ok(c) && (
            c@ matches CoefficientV::FiniteField(el, i3) && i3 == i1 && el as nat == ((e1 as nat)
                * (e2 as nat)) % (state@.primes[i1 as int] as nat))))),
            r matches Ok(c) ==> c@.canon() && c@.valid_for(state@),
    {
        match (self, other) {
            (CoefficientView::FiniteField(e1, i1), CoefficientView::FiniteField(e2, i2)) => {
                if *i1 != *i2 {
                    return Err(NormalizeError::IncompatibleFiniteFields);
                }
                let p = state.get_prime(*i1);
                Ok(Coefficient::FiniteField(ff_mul(*e1, *e2, p), *i1))
            },
            (CoefficientView::FiniteField(_, _), _) => Err(NormalizeError::InvalidDomainMix),
            (_, CoefficientView::FiniteField(_, _)) => Err(NormalizeError::InvalidDomainMix),
            (CoefficientView::RationalPolynomial(p1), CoefficientView::RationalPolynomial(p2)) => {
                match p1.mul(p2) {
                    Ok(s) => Ok(downgrade(s)),
                    Err(e) => Err(e),
                }
            },
            (CoefficientView::RationalPolynomial(p1), _) => {
                let q = other.rational_of();
                let lifted = lift_rational(&q, p1);
                match p1.mul(&lifted) {
                    Ok(s) => Ok(downgrade(s)),
                    Err(e) => Err(e),
                }
            },
            (_, CoefficientView::RationalPolynomial(p2)) => {
                let q = self.rational_of();
                let lifted = lift_rational(&q, p2);
                match lifted.mul(p2) {
                    Ok(s) => Ok(downgrade(s)),
                    Err(e) => Err(e),
                }
            },
            _ => {
                let a = self.rational_of();
                let b = other.rational_of();
                Ok(Coefficient::Rational(a.mul(&b)))
            },
        }
    }
}

/// The domains of the two coefficients admit a comparison: two rationals, or
/// two finite-field elements.
pub open spec fn cmp_defined(a: CoefficientV, b: CoefficientV) -> bool {
    (a is Rational && b is Rational) || (a is FiniteField && b is FiniteField)
}

/// The comparison the domains define: rationals by value, finite-field
/// elements by representative.
pub open spec fn coeff_cmp_spec(a: CoefficientV, b: CoefficientV) -> core::cmp::Ordering {
    match (a, b) {
        (CoefficientV::Rational(x), CoefficientV::Rational(y)) => if x.num() * y.den() < y.num()
            * x.den() {
            core::cmp::Ordering::Less
        } else if x.num() * y.den() == y.num() * x.den() {
            core::cmp::Ordering::Equal
        } else {
            core::cmp::Ordering::Greater
        },
        (CoefficientV::FiniteField(e1, _), CoefficientV::FiniteField(e2, _)) => if e1 < e2 {
            core::cmp::Ordering::Less
        } else if e1 == e2 {
            core::cmp::Ordering::Equal
        } else {
            core::cmp::Ordering::Greater
        },
        _ => core::cmp::Ordering::Equal,
    }
}

/// A power is defined for a non-finite-field base and a machine-word rational
/// exponent.
pub open spec fn pow_defined(b: CoefficientV, e: CoefficientV) -> bool {
    !(b is FiniteField) && (e matches CoefficientV::Rational(RationalV::Natural(_, _)))
}

impl<'a> CoefficientView<'a> {
    /// Total order on coefficients of one domain; comparing across domains is
    /// an invariant violation reported as a logic error.
    pub fn cmp(&self, other: &CoefficientView<'_>) -> (r: Result<
        core::cmp::Ordering,
        NormalizeError,
    >)
        requires
            self@.canon(),
            other@.canon(),
        ensures
            r is Err <==> !cmp_defined(self@, other@),
            r matches Err(e) ==> e == NormalizeError::LogicError,
            cmp_defined(self@, other@) ==> r == Ok::<core::cmp::Ordering, NormalizeError>(
                coeff_cmp_spec(self@, other@)),
    {
        match (self, other) {
            (CoefficientView::FiniteField(e1, _), CoefficientView::FiniteField(e2, _)) => {
                if *e1 < *e2 {
                    Ok(core::cmp::Ordering::Less)
                } else if *e1 == *e2 {
                    Ok(core::cmp::Ordering::Equal)
                } else {
                    Ok(core::cmp::Ordering::Greater)
                }
            },
            (CoefficientView::FiniteField(_, _), _) => Err(NormalizeError::LogicError),
            (_, CoefficientView::FiniteField(_, _)) => Err(NormalizeError::LogicError),
            (CoefficientView::RationalPolynomial(_), _) => Err(NormalizeError::LogicError),
            (_, CoefficientView::RationalPolynomial(_)) => Err(NormalizeError::LogicError),
            _ => {
                let a = self.rational_of();
                let b = other.rational_of();
                Ok(a.cmp(&b))
            },
        }
    }

    /// Whether the viewed coefficient denotes zero.
    pub fn is_zero(&self) -> (r: bool)
        requires
            self@.canon(),
        ensures
            r == self@.is_zero_spec(),
    {
        match self {
            CoefficientView::Natural(n, _) => *n == 0,
            CoefficientView::Large(_) => false,
            CoefficientView::FiniteField(el, _) => *el == 0,
            CoefficientView::RationalPolynomial(p) => p.numerator.terms.len() == 0,
        }
    }

    /// Raises the base to a rational power. Hands back the new coefficient
    /// and the leftover fractional part of the exponent, `1 / d`.
    pub fn pow(&self, other: &CoefficientView<'_>, state: &State) -> (r: Result<
        (Coefficient, Coefficient),
        NormalizeError,
    >)
        requires
            self@.canon(),
            other@.canon(),
            self@.valid_for(state@),
            other@.valid_for(state@),
            state@.wf(),
        ensures
            r == Err::<(Coefficient, Coefficient), NormalizeError>(NormalizeError::UnsupportedPower)
                <==> !pow_defined(self@, other@),
            pow_defined(self@, other@) ==> (r == Err::<(Coefficient, Coefficient),
            NormalizeError>(NormalizeError::DivisionByZero) <==> (other@ matches
                CoefficientV::Rational(RationalV::Natural(n2, _)) && n2 < 0
                && self@.is_zero_spec())),
            pow_defined(self@, other@) && self@ is Rational ==> (r == Err::<(
                Coefficient,
                Coefficient,
            ), NormalizeError>(NormalizeError::ExponentTooLarge) <==> (other@ matches
                CoefficientV::Rational(RationalV::Natural(n2, _)) && !(n2 < 0
                && self@.is_zero_spec()) && (if n2 < 0 {
                -(n2 as int)
            } else {
                n2 as int
            }) > 0xffff_ffff)),
            r matches Ok(p) ==> p.0@.canon() && p.0@.valid_for(state@) && p.1@.canon() && (
            other@ matches CoefficientV::Rational(RationalV::Natural(_, d2)) && p.1@
                == CoefficientV::Rational(RationalV::Natural(1, d2))),
            r matches Err(e) ==> (e == NormalizeError::UnsupportedPower
                || e == NormalizeError::DivisionByZero || e == NormalizeError::ExponentTooLarge || (
            self@ is RationalPolynomial && e == NormalizeError::LogicError)),
            self@ matches CoefficientV::Rational(bq) ==> (other@ matches CoefficientV::Rational(
                RationalV::Natural(n2, _)) ==> (r matches Ok(p) ==> (n2 >= 0 ==> (p.0@ matches
                CoefficientV::Rational(rc) && rc.num() * pow(bq.den(), n2 as nat) == pow(bq.num(),
                n2 as nat) * rc.den())))),
            self@ matches CoefficientV::Rational(bq) ==> (other@ matches CoefficientV::Rational(
                RationalV::Natural(n2, _)) ==> (r matches Ok(p) ==> (n2 < 0 ==> (p.0@ matches
                CoefficientV::Rational(rc) && rc.num() * pow(bq.num(), (-(n2 as int)) as nat)
                == pow(bq.den(), (-(n2 as int)) as nat) * rc.den())))),
    {
        let (n2, d2): (i64, i64) = match other {
            CoefficientView::Natural(a, b) => (*a, *b),
            _ => {
                return Err(NormalizeError::UnsupportedPower);
            },
        };
        match self {
            CoefficientView::FiniteField(_, _) => {
                return Err(NormalizeError::UnsupportedPower);
            },
            _ => {},
        }
        let neg_exp = n2 < 0;
        if neg_exp && self.is_zero() {
            return Err(NormalizeError::DivisionByZero);
        }
        let mag: u64 = if n2 < 0 {
            (-(n2 as i128)) as u64
        } else {
            n2 as u64
        };
        if mag > 0xffff_ffff {
            return Err(NormalizeError::ExponentTooLarge);
        }
        let e = mag as u32;
        proof {
            crate::rational::lemma_unit_fraction_canon(d2);
        }
        let leftover = Coefficient::Rational(Rational::Natural(1, d2));
        match self {
            CoefficientView::RationalPolynomial(p) => {
                let base = if neg_exp {
                    match p.inv() {
                        Ok(q) => q,
                        Err(err) => {
                            proof {
                                assert(false);
                            }
                            return Err(err);
                        },
                    }
                } else {
                    dup_rat_poly(p)
                };
                match base.pow(e) {
                    Ok(q) => Ok((downgrade(q), leftover)),
                    Err(err) => Err(err),
                }
            },
            _ => {
                let bq = self.rational_of();
                if neg_exp {
                    let rr = bq.recip();
                    let c = rr.pow_u32(e);
                    proof {
                        lemma_pow_cross(rr@.num(), rr@.den(), bq@.num(), bq@.den(), c@.num(),
                            c@.den(), e as nat);
                    }
                    Ok((Coefficient::Rational(c), leftover))
                } else {
                    let c = bq.pow_u32(e);
                    Ok((Coefficient::Rational(c), leftover))
                }
            },
        }
    }
}

/// From `rn * bn == bd * rd` (the reciprocal relation) and the power relation
/// of `c` against `rn / rd`, the power relation of `c` against `bd / bn`.
proof fn lemma_pow_cross(rn: int, rd: int, bn: int, bd: int, cn: int, cd: int, e: nat)
    requires
        rn * bn == bd * rd,
        cn * pow(rd, e) == pow(rn, e) * cd,
        rd >= 1,
    ensures
        cn * pow(bn, e) == pow(bd, e) * cd,
{
    vstd::arithmetic::power::lemma_pow_positive(rd, e);
    assert(pow(rn * bn, e) == pow(bd * rd, e));
    vstd::arithmetic::power::lemma_pow_distributes(rn, bn, e);
    vstd::arithmetic::power::lemma_pow_distributes(bd, rd, e);
    assert(pow(rn, e) * pow(bn, e) == pow(bd, e) * pow(rd, e));
    assert((cn * pow(bn, e)) * pow(rd, e) == (pow(bd, e) * cd) * pow(rd, e)) by (nonlinear_arith)
        requires
            cn * pow(rd, e) == pow(rn, e) * cd,
            pow(rn, e) * pow(bn, e) == pow(bd, e) * pow(rd, e),
    ;
    assert(cn * pow(bn, e) == pow(bd, e) * cd) by (nonlinear_arith)
        requires
            (cn * pow(bn, e)) * pow(rd, e) == (pow(bd, e) * cd) * pow(rd, e),
            pow(rd, e) > 0,
    ;
}

/// Lifts a rational to a constant polynomial ratio over the variables of the
/// given ratio.
fn lift_rational(q: &Rational, p: &RationalPolynomial) -> (r: RationalPolynomial)
    requires
        q@.canon(),
        p@.wf(),
    ensures
        r@.wf(),
{
    let one = Rational::one();
    let vm = p.get_var_map();
    RationalPolynomial { numerator: poly_constant(q, vm), denominator: poly_constant(&one, vm) }
}

/// Conversion from coefficients into the element type of a ring.
pub trait ConvertToRing {
    type Element;

    /// Converts an owned coefficient into a ring element.
    fn element_from_coefficient(&self, number: Coefficient) -> Result<Self::Element,
        NormalizeError,
    >;

    /// Converts a coefficient view into a ring element.
    fn element_from_coefficient_view(&self, number: &CoefficientView<'_>) -> Result<Self::Element,
        NormalizeError,
    >;
}

/// The field of exact rationals.
pub struct RationalField;

/// The ring of integers, held as rationals with denominator one.
pub struct IntegerRing;

impl ConvertToRing for RationalField {
    type Element = Rational;

    fn element_from_coefficient(&self, number: Coefficient) -> Result<Rational, NormalizeError> {
        match number {
            Coefficient::Rational(q) => Ok(q),
            _ => Err(NormalizeError::InvalidDomainMix),
        }
    }

    fn element_from_coefficient_view(&self, number: &CoefficientView<'_>) -> Result<
        Rational,
        NormalizeError,
    > {
        match number {
            CoefficientView::Natural(n, d) => Ok(Rational::Natural(*n, *d)),
            CoefficientView::Large(sr) => Ok(Rational::Large(
                crate::rational::LargeRational {
                    is_negative: sr.is_negative,
                    num_digits: copy_slice(sr.num_digits),
                    den_digits: copy_slice(sr.den_digits),
                },
            )),
            _ => Err(NormalizeError::InvalidDomainMix),
        }
    }
}

impl ConvertToRing for IntegerRing {
    type Element = Rational;

    fn element_from_coefficient(&self, number: Coefficient) -> Result<Rational, NormalizeError> {
        match number {
            Coefficient::Rational(q) => match &q {
                Rational::Natural(_, d) => {
                    if *d == 1 {
                        Ok(q)
                    } else {
                        Err(NormalizeError::LogicError)
                    }
                },
                Rational::Large(l) => {
                    if l.den_digits.len() == 1 && l.den_digits[0] == 1 {
                        Ok(q)
                    } else {
                        Err(NormalizeError::LogicError)
                    }
                },
            },
            _ => Err(NormalizeError::InvalidDomainMix),
        }
    }

    fn element_from_coefficient_view(&self, number: &CoefficientView<'_>) -> Result<
        Rational,
        NormalizeError,
    > {
        match number {
            CoefficientView::Natural(n, d) => {
                if *d == 1 {
                    Ok(Rational::Natural(*n, 1))
                } else {
                    Err(NormalizeError::LogicError)
                }
            },
            CoefficientView::Large(sr) => {
                if sr.den_digits.len() == 1 && sr.den_digits[0] == 1 {
                    Ok(Rational::Large(
                        crate::rational::LargeRational {
                            is_negative: sr.is_negative,
                            num_digits: copy_slice(sr.num_digits),
                            den_digits: copy_slice(sr.den_digits),
                        },
                    ))
                } else {
                    Err(NormalizeError::LogicError)
                }
            },
            _ => Err(NormalizeError::InvalidDomainMix),
        }
    }
}

} // verus!
