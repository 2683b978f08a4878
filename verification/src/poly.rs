use vstd::prelude::*;

verus! {

use crate::rational::{Rational, RationalV};
use crate::error::NormalizeError;

/// One monomial: a coefficient times a power product of the variables.
pub struct Monomial {
    pub coefficient: Rational,
    pub exponents: Vec<u16>,
}

/// Mathematical mirror of `Monomial`.
pub struct MonomialV {
    pub coefficient: RationalV,
    pub exponents: Seq<u16>,
}

impl View for Monomial {
    type V = MonomialV;

    open spec fn view(&self) -> MonomialV {
        MonomialV { coefficient: self.coefficient@, exponents: self.exponents@ }
    }
}

/// A monomial fits a polynomial over `n` variables: its exponent row has
/// length `n` and its coefficient is canonical and nonzero.
pub open spec fn mono_wf(m: MonomialV, n: nat) -> bool {
    m.exponents.len() == n && m.coefficient.canon() && m.coefficient.num() != 0
}

pub open spec fn terms_wf(ts: Seq<MonomialV>, n: nat) -> bool {
    forall|i: int| 0 <= i < ts.len() ==> mono_wf(#[trigger] ts[i], n)
}

/// The spec projection of an executable monomial list.
pub open spec fn mview(ts: Seq<Monomial>) -> Seq<MonomialV> {
    ts.map_values(|m: Monomial| m@)
}

pub proof fn lemma_mview_push(ts: Seq<Monomial>, m: Monomial)
    ensures
        mview(ts.push(m)) =~= mview(ts).push(m@),
{
}

/// A multivariate polynomial over the listed variables.
pub struct MultivariatePolynomial {
    pub var_map: Vec<u64>,
    pub terms: Vec<Monomial>,
}

/// Mathematical mirror of `MultivariatePolynomial`.
pub struct PolyV {
    pub var_map: Seq<u64>,
    pub terms: Seq<MonomialV>,
}

impl PolyV {
    pub open spec fn wf(self) -> bool {
        terms_wf(self.terms, self.var_map.len())
    }

    /// A polynomial is constant when it has no monomial, or one monomial in
    /// which every variable has exponent zero.
    pub open spec fn is_constant(self) -> bool {
        self.terms.len() == 0 || (self.terms.len() == 1 && forall|k: int|
            0 <= k < self.terms[0].exponents.len() ==> self.terms[0].exponents[k] == 0)
    }
}

impl View for MultivariatePolynomial {
    type V = PolyV;

    open spec fn view(&self) -> PolyV {
        PolyV { var_map: self.var_map@, terms: mview(self.terms@) }
    }
}

/// A ratio of two polynomials over the same variable list.
pub struct RationalPolynomial {
    pub numerator: MultivariatePolynomial,
    pub denominator: MultivariatePolynomial,
}

/// Mathematical mirror of `RationalPolynomial`.
pub struct RatPolyV {
    pub numerator: PolyV,
    pub denominator: PolyV,
}

impl RatPolyV {
    pub open spec fn wf(self) -> bool {
        &&& self.numerator.wf()
        &&& self.denominator.wf()
        &&& self.numerator.var_map == self.denominator.var_map
        &&& self.denominator.terms.len() > 0
    }

    /// Constant ratio: both sides are constant polynomials.
    pub open spec fn is_constant(self) -> bool {
        self.numerator.is_constant() && self.denominator.is_constant()
    }
}

impl View for RationalPolynomial {
    type V = RatPolyV;

    open spec fn view(&self) -> RatPolyV {
        RatPolyV { numerator: self.numerator@, denominator: self.denominator@ }
    }
}

/// Copies a machine-word vector.
pub(crate) fn copy_u16s(v: &Vec<u16>) -> (r: Vec<u16>)
    ensures
        r@ == v@,
{
    let mut r: Vec<u16> = Vec::new();
    let n = v.len();
    let mut i: usize = 0;
    while i < n
        invariant
            i <= n,
            n == v@.len(),
            r@ =~= v@.subrange(0, i as int),
        decreases n - i,
    {
        r.push(v[i]);
        i = i + 1;
    }
    proof {
        assert(r@ =~= v@);
    }
    r
}

/// Copies an identifier vector.
pub(crate) fn copy_u64s(v: &Vec<u64>) -> (r: Vec<u64>)
    ensures
        r@ == v@,
{
    let mut r: Vec<u64> = Vec::new();
    let n = v.len();
    let mut i: usize = 0;
    while i < n
        invariant
            i <= n,
            n == v@.len(),
            r@ =~= v@.subrange(0, i as int),
        decreases n - i,
    {
        r.push(v[i]);
        i = i + 1;
    }
    proof {
        assert(r@ =~= v@);
    }
    r
}

/// Compares two identifier vectors.
pub(crate) fn u64s_equal(a: &Vec<u64>, b: &Vec<u64>) -> (r: bool)
    ensures
        r <==> a@ == b@,
{
    if a.len() != b.len() {
        return false;
    }
    let n = a.len();
    let mut i: usize = 0;
    while i < n
        invariant
            i <= n,
            n == a@.len(),
            n == b@.len(),
            forall|j: int| 0 <= j < i ==> a@[j] == b@[j],
        decreases n - i,
    {
        if a[i] != b[i] {
            return false;
        }
        i = i + 1;
    }
    proof {
        assert(a@ =~= b@);
    }
    true
}

/// Compares two exponent rows.
pub(crate) fn exps_equal(a: &Vec<u16>, b: &Vec<u16>) -> (r: bool)
    ensures
        r <==> a@ == b@,
{
    if a.len() != b.len() {
        return false;
    }
    let n = a.len();
    let mut i: usize = 0;
    while i < n
        invariant
            i <= n,
            n == a@.len(),
            n == b@.len(),
            forall|j: int| 0 <= j < i ==> a@[j] == b@[j],
        decreases n - i,
    {
        if a[i] != b[i] {
            return false;
        }
        i = i + 1;
    }
    proof {
        assert(a@ =~= b@);
    }
    true
}

/// Whether every exponent of the row is zero.
pub(crate) fn exps_all_zero(a: &Vec<u16>) -> (r: bool)
    ensures
        r <==> forall|k: int| 0 <= k < a@.len() ==> a@[k] == 0,
{
    let n = a.len();
    let mut i: usize = 0;
    while i < n
        invariant
            i <= n,
            n == a@.len(),
            forall|j: int| 0 <= j < i ==> a@[j] == 0,
        decreases n - i,
    {
        if a[i] != 0 {
            return false;
        }
        i = i + 1;
    }
    true
}

/// Adds two exponent rows; fails when an exponent leaves the machine word.
pub(crate) fn exps_add(a: &Vec<u16>, b: &Vec<u16>) -> (r: Result<Vec<u16>, NormalizeError>)
    requires
        a@.len() == b@.len(),
    ensures
        r matches Ok(v) ==> v@.len() == a@.len(),
        r matches Err(e) ==> e == NormalizeError::ExponentTooLarge,
{
    let n = a.len();
    let mut out: Vec<u16> = Vec::new();
    let mut i: usize = 0;
    while i < n
        invariant
            i <= n,
            n == a@.len(),
            n == b@.len(),
            out@.len() == i,
        decreases n - i,
    {
        let s: u32 = a[i] as u32 + b[i] as u32;
        if s > 0xffff {
            return Err(NormalizeError::ExponentTooLarge);
        }
        out.push(s as u16);
        i = i + 1;
    }
    Ok(out)
}

/// A structurally equal copy of a monomial.
pub(crate) fn dup_monomial(m: &Monomial) -> (r: Monomial)
    ensures
        r@ == m@,
{
    Monomial { coefficient: m.coefficient.duplicate(), exponents: copy_u16s(&m.exponents) }
}

/// A structurally equal copy of a polynomial.
pub fn dup_poly(p: &MultivariatePolynomial) -> (r: MultivariatePolynomial)
    ensures
        r@ == p@,
{
    let mut terms: Vec<Monomial> = Vec::new();
    let n = p.terms.len();
    let mut i: usize = 0;
    while i < n
        invariant
            i <= n,
            n == p.terms@.len(),
            mview(terms@) =~= mview(p.terms@).subrange(0, i as int),
        decreases n - i,
    {
        let m = dup_monomial(&p.terms[i]);
        proof {
            lemma_mview_push(terms@, m);
        }
        terms.push(m);
        i = i + 1;
    }
    proof {
        assert(mview(terms@) =~= mview(p.terms@));
    }
    MultivariatePolynomial { var_map: copy_u64s(&p.var_map), terms }
}

/// Structural equality of two polynomials.
pub fn poly_equal(a: &MultivariatePolynomial, b: &MultivariatePolynomial) -> (r: bool)
    ensures
        r <==> a@ == b@,
{
    if !u64s_equal(&a.var_map, &b.var_map) {
        proof {
            assert(a@.var_map != b@.var_map);
        }
        return false;
    }
    if a.terms.len() != b.terms.len() {
        proof {
            assert(mview(a.terms@).len() != mview(b.terms@).len());
        }
        return false;
    }
    let n = a.terms.len();
    let mut i: usize = 0;
    while i < n
        invariant
            i <= n,
            n == a.terms@.len(),
            n == b.terms@.len(),
            forall|j: int| 0 <= j < i ==> mview(a.terms@)[j] == mview(b.terms@)[j],
        decreases n - i,
    {
        let ca = &a.terms[i];
        let cb = &b.terms[i];
        if !ca.coefficient.eq_structural(&cb.coefficient) {
            proof {
                assert(mview(a.terms@)[i as int] == a.terms@[i as int]@);
                assert(mview(b.terms@)[i as int] == b.terms@[i as int]@);
            }
            return false;
        }
        if !exps_equal(&ca.exponents, &cb.exponents) {
            proof {
                assert(mview(a.terms@)[i as int] == a.terms@[i as int]@);
                assert(mview(b.terms@)[i as int] == b.terms@[i as int]@);
            }
            return false;
        }
        proof {
            assert(mview(a.terms@)[i as int] == a.terms@[i as int]@);
            assert(mview(b.terms@)[i as int] == b.terms@[i as int]@);
            assert(mview(a.terms@)[i as int] == mview(b.terms@)[i as int]);
        }
        i = i + 1;
    }
    proof {
        assert(mview(a.terms@) =~= mview(b.terms@));
        assert(a@ =~= b@);
    }
    true
}

/// Structural equality of two polynomial ratios.
pub fn rat_poly_equal(a: &RationalPolynomial, b: &RationalPolynomial) -> (r: bool)
    ensures
        r <==> a@ == b@,
{
    let r = poly_equal(&a.numerator, &b.numerator) && poly_equal(&a.denominator, &b.denominator);
    proof {
        if a@.numerator == b@.numerator && a@.denominator == b@.denominator {
            assert(a@ =~= b@);
        }
    }
    r
}

/// A structurally equal copy of a polynomial ratio.
pub fn dup_rat_poly(p: &RationalPolynomial) -> (r: RationalPolynomial)
    ensures
        r@ == p@,
{
    let r = RationalPolynomial {
        numerator: dup_poly(&p.numerator),
        denominator: dup_poly(&p.denominator),
    };
    proof {
        assert(r@ =~= p@);
    }
    r
}

/// The constant polynomial with the given value over the given variables.
pub fn poly_constant(c: &Rational, var_map: &Vec<u64>) -> (r: MultivariatePolynomial)
    requires
        c@.canon(),
    ensures
        r@.wf(),
        r@.var_map == var_map@,
        c@.num() != 0 ==> r@.terms.len() == 1,
        c@.num() == 0 ==> r@.terms.len() == 0,
        r@.is_constant(),
{
    let mut terms: Vec<Monomial> = Vec::new();
    if !c.is_zero() {
        let mut exps: Vec<u16> = Vec::new();
        let n = var_map.len();
        let mut i: usize = 0;
        while i < n
            invariant
                i <= n,
                exps@.len() == i,
                forall|k: int| 0 <= k < i ==> exps@[k] == 0,
            decreases n - i,
        {
            exps.push(0);
            i = i + 1;
        }
        let m = Monomial { coefficient: c.duplicate(), exponents: exps };
        proof {
            lemma_mview_push(terms@, m);
        }
        terms.push(m);
    }
    let r = MultivariatePolynomial { var_map: copy_u64s(var_map), terms };
    r
}

/// Sum of two polynomials over the same variables: equal power products are
/// combined and vanishing monomials are dropped.
pub fn poly_add(a: &MultivariatePolynomial, b: &MultivariatePolynomial) -> (r:
    MultivariatePolynomial)
    requires
        a@.wf(),
        b@.wf(),
        a@.var_map == b@.var_map,
    ensures
        r@.wf(),
        r@.var_map == a@.var_map,
{
    let ghost n = a@.var_map.len();
    let mut out: Vec<Monomial> = Vec::new();
    let na = a.terms.len();
    let nb = b.terms.len();
    let mut i: usize = 0;
    while i < na
        invariant
            i <= na,
            na == a.terms@.len(),
            nb == b.terms@.len(),
            a@.wf(),
            b@.wf(),
            n == a@.var_map.len(),
            n == b@.var_map.len(),
            terms_wf(mview(out@), n),
        decreases na - i,
    {
        proof {
            assert(mono_wf(mview(a.terms@)[i as int], n));
            assert(mview(a.terms@)[i as int] == a.terms@[i as int]@);
        }
        let mut c = a.terms[i].coefficient.duplicate();
        let mut j: usize = 0;
        while j < nb
            invariant
                j <= nb,
                i < na,
                na == a.terms@.len(),
                nb == b.terms@.len(),
                a@.wf(),
                b@.wf(),
                n == a@.var_map.len(),
                n == b@.var_map.len(),
                c@.canon(),
            decreases nb - j,
        {
            proof {
                assert(mono_wf(mview(b.terms@)[j as int], n));
                assert(mview(b.terms@)[j as int] == b.terms@[j as int]@);
            }
            if exps_equal(&a.terms[i].exponents, &b.terms[j].exponents) {
                c = c.add(&b.terms[j].coefficient);
            }
            j = j + 1;
        }
        if !c.is_zero() {
            let m = Monomial { coefficient: c, exponents: copy_u16s(&a.terms[i].exponents) };
            proof {
                lemma_mview_push(out@, m);
                assert(mono_wf(m@, n));
            }
            out.push(m);
        }
        i = i + 1;
    }
    let mut j: usize = 0;
    while j < nb
        invariant
            j <= nb,
            na == a.terms@.len(),
            nb == b.terms@.len(),
            a@.wf(),
            b@.wf(),
            n == a@.var_map.len(),
            n == b@.var_map.len(),
            terms_wf(mview(out@), n),
        decreases nb - j,
    {
        proof {
            assert(mono_wf(mview(b.terms@)[j as int], n));
            assert(mview(b.terms@)[j as int] == b.terms@[j as int]@);
        }
        let mut seen = false;
        let mut i2: usize = 0;
        while i2 < na
            invariant
                i2 <= na,
                j < nb,
                na == a.terms@.len(),
                nb == b.terms@.len(),
            decreases na - i2,
        {
            if exps_equal(&a.terms[i2].exponents, &b.terms[j].exponents) {
                seen = true;
            }
            i2 = i2 + 1;
        }
        if !seen {
            let m = dup_monomial(&b.terms[j]);
            proof {
                lemma_mview_push(out@, m);
                assert(mono_wf(m@, n));
            }
            out.push(m);
        }
        j = j + 1;
    }
    MultivariatePolynomial { var_map: copy_u64s(&a.var_map), terms: out }
}

/// Product of two polynomials over the same variables.
pub fn poly_mul(a: &MultivariatePolynomial, b: &MultivariatePolynomial) -> (r: Result<
    MultivariatePolynomial,
    NormalizeError,
>)
    requires
        a@.wf(),
        b@.wf(),
        a@.var_map == b@.var_map,
    ensures
        r matches Ok(p) ==> p@.wf() && p@.var_map == a@.var_map,
        r matches Err(e) ==> e == NormalizeError::ExponentTooLarge,
{
    let ghost n = a@.var_map.len();
    let mut acc = MultivariatePolynomial { var_map: copy_u64s(&a.var_map), terms: Vec::new() };
    proof {
        assert(terms_wf(mview(acc.terms@), n));
    }
    let na = a.terms.len();
    let nb = b.terms.len();
    let mut i: usize = 0;
    while i < na
        invariant
            i <= na,
            na == a.terms@.len(),
            nb == b.terms@.len(),
            a@.wf(),
            b@.wf(),
            n == a@.var_map.len(),
            n == b@.var_map.len(),
            acc@.wf(),
            acc@.var_map == a@.var_map,
        decreases na - i,
    {
        let mut row: Vec<Monomial> = Vec::new();
        let mut j: usize = 0;
        while j < nb
            invariant
                j <= nb,
                i < na,
                na == a.terms@.len(),
                nb == b.terms@.len(),
                a@.wf(),
                b@.wf(),
                n == a@.var_map.len(),
                n == b@.var_map.len(),
                terms_wf(mview(row@), n),
            decreases nb - j,
        {
            proof {
                assert(mono_wf(mview(a.terms@)[i as int], n));
                assert(mview(a.terms@)[i as int] == a.terms@[i as int]@);
                assert(mono_wf(mview(b.terms@)[j as int], n));
                assert(mview(b.terms@)[j as int] == b.terms@[j as int]@);
            }
            let c = a.terms[i].coefficient.mul(&b.terms[j].coefficient);
            if !c.is_zero() {
                let e = match exps_add(&a.terms[i].exponents, &b.terms[j].exponents) {
                    Ok(e) => e,
                    Err(err) => {
                        return Err(err);
                    },
                };
                let m = Monomial { coefficient: c, exponents: e };
                proof {
                    lemma_mview_push(row@, m);
                    assert(mono_wf(m@, n));
                }
                row.push(m);
            }
            j = j + 1;
        }
        let rowp = MultivariatePolynomial { var_map: copy_u64s(&a.var_map), terms: row };
        acc = poly_add(&acc, &rowp);
        i = i + 1;
    }
    Ok(acc)
}

/// Position of a variable in a variable list.
pub(crate) fn find_var(map: &Vec<u64>, v: u64) -> (r: Option<usize>)
    ensures
        r matches Some(i) ==> i < map@.len() && map@[i as int] == v,
        r is None ==> !map@.contains(v),
{
    let n = map.len();
    let mut i: usize = 0;
    while i < n
        invariant
            i <= n,
            n == map@.len(),
            forall|j: int| 0 <= j < i ==> map@[j] != v,
        decreases n - i,
    {
        if map[i] == v {
            return Some(i);
        }
        i = i + 1;
    }
    None
}

/// Rewrites a polynomial over a new variable list; a variable absent from the
/// old list gets exponent zero.
pub(crate) fn remap_poly(p: &MultivariatePolynomial, new_map: &Vec<u64>) -> (r:
    MultivariatePolynomial)
    requires
        p@.wf(),
    ensures
        r@.wf(),
        r@.var_map == new_map@,
        r@.terms.len() == p@.terms.len(),
{
    let ghost n = new_map@.len();
    let mut out: Vec<Monomial> = Vec::new();
    let nt = p.terms.len();
    let mut i: usize = 0;
    while i < nt
        invariant
            i <= nt,
            nt == p.terms@.len(),
            p@.wf(),
            n == new_map@.len(),
            terms_wf(mview(out@), n),
            mview(out@).len() == i,
        decreases nt - i,
    {
        proof {
            assert(mono_wf(mview(p.terms@)[i as int], p@.var_map.len()));
            assert(mview(p.terms@)[i as int] == p.terms@[i as int]@);
        }
        let mut exps: Vec<u16> = Vec::new();
        let nv = new_map.len();
        let mut k: usize = 0;
        while k < nv
            invariant
                k <= nv,
                i < nt,
                nt == p.terms@.len(),
                nv == new_map@.len(),
                p@.wf(),
                exps@.len() == k,
                p.terms@[i as int]@.exponents.len() == p@.var_map.len(),
            decreases nv - k,
        {
            let e: u16 = match find_var(&p.var_map, new_map[k]) {
                Some(jj) => p.terms[i].exponents[jj],
                None => 0,
            };
            exps.push(e);
            k = k + 1;
        }
        let m = Monomial { coefficient: p.terms[i].coefficient.duplicate(), exponents: exps };
        proof {
            lemma_mview_push(out@, m);
            assert(mono_wf(m@, n));
        }
        out.push(m);
        i = i + 1;
    }
    MultivariatePolynomial { var_map: copy_u64s(new_map), terms: out }
}

impl RationalPolynomial {
    /// The variable list shared by numerator and denominator.
    pub fn get_var_map(&self) -> (r: &Vec<u64>)
        ensures
            r@ == self@.numerator.var_map,
    {
        &self.numerator.var_map
    }

    /// Brings two ratios over the union of their variable lists.
    pub fn unify_var_map(&self, other: &RationalPolynomial) -> (r: (
        RationalPolynomial,
        RationalPolynomial,
    ))
        requires
            self@.wf(),
            other@.wf(),
        ensures
            r.0@.wf(),
            r.1@.wf(),
            r.0@.numerator.var_map == r.1@.numerator.var_map,
    {
        if u64s_equal(&self.numerator.var_map, &other.numerator.var_map) {
            return (dup_rat_poly(self), dup_rat_poly(other));
        }
        let mut new_map = copy_u64s(&self.numerator.var_map);
        let n = other.numerator.var_map.len();
        let mut i: usize = 0;
        while i < n
            invariant
                i <= n,
                n == other.numerator.var_map@.len(),
            decreases n - i,
        {
            let v = other.numerator.var_map[i];
            if find_var(&new_map, v).is_none() {
                new_map.push(v);
            }
            i = i + 1;
        }
        let a = RationalPolynomial {
            numerator: remap_poly(&self.numerator, &new_map),
            denominator: remap_poly(&self.denominator, &new_map),
        };
        let b = RationalPolynomial {
            numerator: remap_poly(&other.numerator, &new_map),
            denominator: remap_poly(&other.denominator, &new_map),
        };
        (a, b)
    }

    /// Sum of two ratios, brought over a common variable list first.
    pub fn add(&self, other: &RationalPolynomial) -> (r: Result<
        RationalPolynomial,
        NormalizeError,
    >)
        requires
            self@.wf(),
            other@.wf(),
        ensures
            r matches Ok(p) ==> p@.wf(),
            r matches Err(e) ==> e == NormalizeError::ExponentTooLarge
                || e == NormalizeError::LogicError,
    {
        let (a, b) = self.unify_var_map(other);
        let n1 = match poly_mul(&a.numerator, &b.denominator) {
            Ok(p) => p,
            Err(e) => {
                return Err(e);
            },
        };
        let n2 = match poly_mul(&b.numerator, &a.denominator) {
            Ok(p) => p,
            Err(e) => {
                return Err(e);
            },
        };
        let num = poly_add(&n1, &n2);
        let den = match poly_mul(&a.denominator, &b.denominator) {
            Ok(p) => p,
            Err(e) => {
                return Err(e);
            },
        };
        if den.terms.len() == 0 {
            return Err(NormalizeError::LogicError);
        }
        Ok(RationalPolynomial { numerator: num, denominator: den })
    }

    /// Product of two ratios, brought over a common variable list first.
    pub fn mul(&self, other: &RationalPolynomial) -> (r: Result<
        RationalPolynomial,
        NormalizeError,
    >)
        requires
            self@.wf(),
            other@.wf(),
        ensures
            r matches Ok(p) ==> p@.wf(),
            r matches Err(e) ==> e == NormalizeError::ExponentTooLarge
                || e == NormalizeError::LogicError,
    {
        let (a, b) = self.unify_var_map(other);
        let num = match poly_mul(&a.numerator, &b.numerator) {
            Ok(p) => p,
            Err(e) => {
                return Err(e);
            },
        };
        let den = match poly_mul(&a.denominator, &b.denominator) {
            Ok(p) => p,
            Err(e) => {
                return Err(e);
            },
        };
        if den.terms.len() == 0 {
            return Err(NormalizeError::LogicError);
        }
        Ok(RationalPolynomial { numerator: num, denominator: den })
    }

    /// Reciprocal; fails on a zero numerator.
    pub fn inv(&self) -> (r: Result<RationalPolynomial, NormalizeError>)
        requires
            self@.wf(),
        ensures
            r matches Ok(p) ==> p@.wf(),
            r matches Err(e) ==> e == NormalizeError::DivisionByZero,
            r is Err <==> self@.numerator.terms.len() == 0,
    {
        if self.numerator.terms.len() == 0 {
            return Err(NormalizeError::DivisionByZero);
        }
        Ok(RationalPolynomial {
            numerator: dup_poly(&self.denominator),
            denominator: dup_poly(&self.numerator),
        })
    }

    /// Power with a machine-word exponent, by repeated multiplication.
    pub fn pow(&self, e: u32) -> (r: Result<RationalPolynomial, NormalizeError>)
        requires
            self@.wf(),
        ensures
            r matches Ok(p) ==> p@.wf(),
            r matches Err(er) ==> er == NormalizeError::ExponentTooLarge
                || er == NormalizeError::LogicError,
    {
        let one = Rational::one();
        let mut acc = RationalPolynomial {
            numerator: poly_constant(&one, &self.numerator.var_map),
            denominator: poly_constant(&one, &self.numerator.var_map),
        };
        let mut i: u32 = 0;
        while i < e
            invariant
                acc@.wf(),
                self@.wf(),
            decreases e - i,
        {
            acc = match acc.mul(self) {
                Ok(p) => p,
                Err(er) => {
                    return Err(er);
                },
            };
            i = i + 1;
        }
        Ok(acc)
    }

    /// Whether the ratio denotes a constant.
    pub fn is_constant(&self) -> (r: bool)
        ensures
            r <==> self@.is_constant(),
    {
        let num_const = self.numerator.terms.len() == 0 || (self.numerator.terms.len() == 1
            && exps_all_zero(&self.numerator.terms[0].exponents));
        let den_const = self.denominator.terms.len() == 0 || (self.denominator.terms.len() == 1
            && exps_all_zero(&self.denominator.terms[0].exponents));
        proof {
            assert(mview(self.numerator.terms@).len() == self.numerator.terms@.len());
            assert(mview(self.denominator.terms@).len() == self.denominator.terms@.len());
            if self.numerator.terms@.len() >= 1 {
                assert(mview(self.numerator.terms@)[0] == self.numerator.terms@[0]@);
                assert(mview(self.numerator.terms@)[0].exponents
                    == self.numerator.terms@[0].exponents@);
            }
            if self.denominator.terms@.len() >= 1 {
                assert(mview(self.denominator.terms@)[0] == self.denominator.terms@[0]@);
                assert(mview(self.denominator.terms@)[0].exponents
                    == self.denominator.terms@[0].exponents@);
            }
        }
        num_const && den_const
    }

    /// The rational value of a constant ratio.
    pub fn to_rational(&self) -> (r: Rational)
        requires
            self@.wf(),
            self@.is_constant(),
        ensures
            r@.canon(),
    {
        proof {
            assert(mview(self.denominator.terms@)[0] == self.denominator.terms@[0]@);
            assert(mono_wf(mview(self.denominator.terms@)[0], self@.denominator.var_map.len()));
        }
        let d = &self.denominator.terms[0].coefficient;
        if self.numerator.terms.len() == 0 {
            return Rational::zero();
        }
        proof {
            assert(mview(self.numerator.terms@)[0] == self.numerator.terms@[0]@);
            assert(mono_wf(mview(self.numerator.terms@)[0], self@.numerator.var_map.len()));
        }
        let n = &self.numerator.terms[0].coefficient;
        n.mul(&d.recip())
    }
}

} // verus!
