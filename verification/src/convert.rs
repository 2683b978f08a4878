use vstd::prelude::*;

verus! {

use crate::atom::{
    Atom,
    AtomV,
    view_seq,
    lemma_view_seq_len,
    lemma_view_seq_index,
    all_norm,
    lemma_all_norm_index,
    lemma_all_norm_via_parts,
};
use crate::poly::{
    Monomial,
    MultivariatePolynomial,
    RationalPolynomial,
    poly_constant,
    copy_u64s,
    find_var,
    mono_wf,
    lemma_mview_push,
    mview,
};
use crate::rational::Rational;
use crate::state::{State, StateV};
use crate::error::NormalizeError;

/// Records each variable identifier of the tree, in order of first appearance.
pub fn collect_variables(a: &Atom, acc: &mut Vec<u64>)
    decreases a, 0int,
{
    match a {
        Atom::Num(_, _) => {},
        Atom::Var(v) => {
            if find_var(acc, *v).is_none() {
                acc.push(*v);
            }
        },
        Atom::Pow(_, b, e) => {
            collect_variables(b, acc);
            collect_variables(e, acc);
        },
        Atom::Mul(_, ts) => {
            collect_variables_list(ts, acc);
        },
        Atom::Add(_, ts) => {
            collect_variables_list(ts, acc);
        },
        Atom::Fun(_, _, ts) => {
            collect_variables_list(ts, acc);
        },
    }
}

fn collect_variables_list(ts: &Vec<Atom>, acc: &mut Vec<u64>)
    decreases ts, 1int,
{
    let n = ts.len();
    let mut i: usize = 0;
    while i < n
        invariant
            i <= n,
            n == ts@.len(),
        decreases n - i,
    {
        collect_variables(&ts[i], acc);
        i = i + 1;
    }
}

/// The polynomial ratio that is the single variable at the given position.
fn ratpoly_variable(vars: &Vec<u64>, pos: usize) -> (r: RationalPolynomial)
    requires
        pos < vars@.len(),
    ensures
        r@.wf(),
        r@.numerator.var_map == vars@,
{
    let nv = vars.len();
    let mut exps: Vec<u16> = Vec::new();
    let mut k: usize = 0;
    while k < nv
        invariant
            k <= nv,
            exps@.len() == k,
        decreases nv - k,
    {
        if k == pos {
            exps.push(1);
        } else {
            exps.push(0);
        }
        k = k + 1;
    }
    let m = Monomial { coefficient: Rational::one(), exponents: exps };
    let mut terms: Vec<Monomial> = Vec::new();
    proof {
        lemma_mview_push(terms@, m);
        assert(mono_wf(m@, vars@.len()));
    }
    terms.push(m);
    let one = Rational::one();
    let num = MultivariatePolynomial { var_map: copy_u64s(vars), terms };
    let den = poly_constant(&one, vars);
    proof {
        assert(mview(num.terms@).len() == 1);
        assert(mview(num.terms@)[0] == m@);
    }
    RationalPolynomial { numerator: num, denominator: den }
}

/// The constant one as a polynomial ratio over the given variables.
fn ratpoly_one(vars: &Vec<u64>) -> (r: RationalPolynomial)
    ensures
        r@.wf(),
        r@.numerator.var_map == vars@,
{
    let one = Rational::one();
    RationalPolynomial { numerator: poly_constant(&one, vars), denominator: poly_constant(&one,
        vars) }
}

impl Atom {
    /// Converts a normalized polynomial-shaped expression — variables,
    /// rational numbers, integer powers, products and sums of these — into a
    /// ratio of polynomials over the given variable list. Any other shape is
    /// refused.
    pub fn to_rational_polynomial(&self, vars: &Vec<u64>, state: &State) -> (r: Result<
        RationalPolynomial,
        NormalizeError,
    >)
        requires
            self@.norm_elem(state@),
            state@.wf(),
        ensures
            r matches Ok(p) ==> p@.wf() && p@.numerator.var_map == vars@,
            self@ matches AtomV::Num(_, c) ==> (c is Rational ==> r is Ok),
            self@ matches AtomV::Var(v) ==> (vars@.contains(v) ==> r is Ok),
        decreases self, 0int,
    {
        match self {
            Atom::Num(_, c) => match c {
                crate::coefficient::Coefficient::Rational(q) => {
                    proof {
                        assert(self@.coeffs_canon() == c@.canon());
                    }
                    Ok(ratpoly_constant(q, vars))
                },
                _ => Err(NormalizeError::UnsupportedPower),
            },
            Atom::Var(v) => match find_var(vars, *v) {
                Some(pos) => Ok(ratpoly_variable(vars, pos)),
                None => Err(NormalizeError::LogicError),
            },
            Atom::Pow(_, b, e) => {
                proof {
                    assert(self@.clean() == (!self@.dirty() && b@.clean() && e@.clean()));
                    assert(self@.coeffs_canon() == (b@.coeffs_canon() && e@.coeffs_canon()));
                    assert(self@.valid_for(state@) == (b@.valid_for(state@) && e@.valid_for(
                        state@)));
                }
                let (n, d): (i64, i64) = match &**e {
                    Atom::Num(_, ec) => match ec {
                        crate::coefficient::Coefficient::Rational(q) => match q {
                            Rational::Natural(n, d) => (*n, *d),
                            _ => {
                                return Err(NormalizeError::UnsupportedPower);
                            },
                        },
                        _ => {
                            return Err(NormalizeError::UnsupportedPower);
                        },
                    },
                    _ => {
                        return Err(NormalizeError::UnsupportedPower);
                    },
                };
                if d != 1 || n < 0 || n > 0xffff {
                    return Err(NormalizeError::UnsupportedPower);
                }
                let base = match b.to_rational_polynomial(vars, state) {
                    Ok(p) => p,
                    Err(er) => {
                        return Err(er);
                    },
                };
                match base.pow(n as u32) {
                    Ok(p) => {
                        if !var_map_matches(&p, vars) {
                            return Err(NormalizeError::LogicError);
                        }
                        Ok(p)
                    },
                    Err(er) => Err(er),
                }
            },
            Atom::Mul(_, ts) => {
                proof {
                    lemma_view_seq_len(ts@);
                    lemma_all_norm_via_parts(view_seq(ts@), state@, self@);
                }
                fold_ratpoly(ts, vars, state, true)
            },
            Atom::Add(_, ts) => {
                proof {
                    lemma_view_seq_len(ts@);
                    lemma_all_norm_via_parts(view_seq(ts@), state@, self@);
                }
                fold_ratpoly(ts, vars, state, false)
            },
            Atom::Fun(_, _, _) => Err(NormalizeError::UnsupportedPower),
        }
    }
}

/// A rational constant as a polynomial ratio over the given variables.
fn ratpoly_constant(q: &Rational, vars: &Vec<u64>) -> (r: RationalPolynomial)
    requires
        q@.canon(),
    ensures
        r@.wf(),
        r@.numerator.var_map == vars@,
{
    let one = Rational::one();
    RationalPolynomial { numerator: poly_constant(q, vars), denominator: poly_constant(&one,
        vars) }
}

/// Whether the ratio is expressed over exactly the given variables.
fn var_map_matches(p: &RationalPolynomial, vars: &Vec<u64>) -> (r: bool)
    ensures
        r <==> p@.numerator.var_map == vars@,
{
    crate::poly::u64s_equal(&p.numerator.var_map, vars)
}

/// Folds a child list into one ratio: a product of the conversions, or a sum.
fn fold_ratpoly(ts: &Vec<Atom>, vars: &Vec<u64>, state: &State, multiply: bool) -> (r: Result<
    RationalPolynomial,
    NormalizeError,
>)
    requires
        all_norm(view_seq(ts@), state@),
        state@.wf(),
    ensures
        r matches Ok(p) ==> p@.wf() && p@.numerator.var_map == vars@,
    decreases ts, 1int,
{
    proof {
        lemma_view_seq_len(ts@);
    }
    let n = ts.len();
    let mut acc = if multiply {
        ratpoly_one(vars)
    } else {
        let zero = Rational::zero();
        RationalPolynomial {
            numerator: poly_constant(&zero, vars),
            denominator: poly_constant(&Rational::one(), vars),
        }
    };
    let mut i: usize = 0;
    while i < n
        invariant
            i <= n,
            n == ts@.len(),
            view_seq(ts@).len() == n,
            all_norm(view_seq(ts@), state@),
            acc@.wf(),
            acc@.numerator.var_map == vars@,
            state@.wf(),
        decreases n - i,
    {
        proof {
            lemma_view_seq_index(ts@, i as int);
            lemma_all_norm_index(view_seq(ts@), state@, i as int);
        }
        let c = match ts[i].to_rational_polynomial(vars, state) {
            Ok(p) => p,
            Err(er) => {
                return Err(er);
            },
        };
        let next = if multiply {
            acc.mul(&c)
        } else {
            acc.add(&c)
        };
        acc = match next {
            Ok(p) => p,
            Err(er) => {
                return Err(er);
            },
        };
        if !var_map_matches(&acc, vars) {
            return Err(NormalizeError::LogicError);
        }
        i = i + 1;
    }
    Ok(acc)
}

/// Pushes a ready element, keeping the list all-ready.
fn push_ready(v: &mut Vec<Atom>, a: Atom, Ghost(st): Ghost<StateV>)
    requires
        crate::atom::all_ready(view_seq(old(v)@), st),
        a@.ready(st),
    ensures
        view_seq(final(v)@) == view_seq(old(v)@).push(a@),
        crate::atom::all_ready(view_seq(final(v)@), st),
        final(v)@.len() == old(v)@.len() + 1,
{
    let ghost before = view_seq(v@);
    proof {
        crate::atom::lemma_view_seq_push(v@, a);
        crate::atom::lemma_all_ready_push(before, st, a@);
        lemma_view_seq_len(v@);
        lemma_view_seq_len(v@.push(a));
    }
    v.push(a);
    proof {
        assert(view_seq(v@) =~= before.push(a@));
    }
}

/// Rebuilds a polynomial as an expression over the given ring: each listed
/// variable reappears as a polynomial-ratio coefficient, every other variable
/// as a plain symbol; the tree comes out dirty, awaiting normalization.
fn poly_to_ring_expression(p: &MultivariatePolynomial, vars: &Vec<u64>, Ghost(st): Ghost<StateV>) -> (r: Atom)
    requires
        p@.wf(),
    ensures
        r@.ready(st),
{
    let mut term_atoms: Vec<Atom> = Vec::new();
    let nt = p.terms.len();
    let mut i: usize = 0;
    while i < nt
        invariant
            i <= nt,
            nt == p.terms@.len(),
            p@.wf(),
            crate::atom::all_ready(view_seq(term_atoms@), st),
        decreases nt - i,
    {
        proof {
            assert(mview(p.terms@)[i as int] == p.terms@[i as int]@);
            assert(mono_wf(mview(p.terms@)[i as int], p@.var_map.len()));
        }
        let mut factors: Vec<Atom> = Vec::new();
        let nv = p.var_map.len();
        let mut j: usize = 0;
        while j < nv
            invariant
                j <= nv,
                i < nt,
                nt == p.terms@.len(),
                nv == p.var_map@.len(),
                p@.wf(),
                p.terms@[i as int]@.exponents.len() == nv,
                crate::atom::all_ready(view_seq(factors@), st),
            decreases nv - j,
        {
            let e = p.terms[i].exponents[j];
            if e > 0 {
                let base: Atom = match find_var(vars, p.var_map[j]) {
                    Some(pos) => {
                        let rp = ratpoly_variable(vars, pos);
                        let c = crate::coefficient::Coefficient::RationalPolynomial(rp);
                        let b = Atom::new_num(c);
                        proof {
                            crate::atom::lemma_dirty_node_ready(b@, st);
                        }
                        b
                    },
                    None => Atom::new_var(p.var_map[j]),
                };
                let factor: Atom = if e == 1 {
                    base
                } else {
                    let exp = Atom::new_num(crate::coefficient::Coefficient::Rational(
                        Rational::Natural(e as i64, 1)));
                    proof {
                        crate::atom::lemma_dirty_node_ready(exp@, st);
                    }
                    let f = Atom::new_pow(base, exp);
                    proof {
                        crate::atom::lemma_dirty_node_ready(f@, st);
                    }
                    f
                };
                push_ready(&mut factors, factor, Ghost(st));
            }
            j = j + 1;
        }
        let coeff_atom = Atom::new_num(crate::coefficient::Coefficient::Rational(
            p.terms[i].coefficient.duplicate()));
        proof {
            crate::atom::lemma_dirty_node_ready(coeff_atom@, st);
        }
        push_ready(&mut factors, coeff_atom, Ghost(st));
        let term = Atom::new_mul(factors);
        proof {
            crate::atom::lemma_dirty_node_ready(term@, st);
        }
        push_ready(&mut term_atoms, term, Ghost(st));
        i = i + 1;
    }
    let out = Atom::new_add(term_atoms);
    proof {
        crate::atom::lemma_dirty_node_ready(out@, st);
    }
    out
}


impl Atom {
    /// Re-expresses a normalized tree over the given coefficient ring: each
    /// listed variable moves into polynomial-ratio coefficients, and a
    /// polynomial coefficient whose ring loses a variable is unfolded back
    /// into an expression and renormalized. Hands back the converted tree and
    /// whether anything changed; an unchanged tree is handed back as it was.
    pub fn set_coefficient_ring(&self, vars: &Vec<u64>, state: &State) -> (r: Result<
        (Atom, bool),
        NormalizeError,
    >)
        requires
            self@.norm_elem(state@),
            state@.wf(),
        ensures
            r matches Ok(p) ==> p.0@.norm_elem(state@),
            r matches Ok(p) ==> (!p.1 ==> p.0@ == self@),
            self@ is Var ==> r is Ok,
            self@ matches AtomV::Var(v) ==> (r matches Ok(p) && (p.1 <==> vars@.contains(v))),
            self@ matches AtomV::Num(_, c) ==> (!(c is RationalPolynomial) ==> (r matches Ok(p)
                && !p.1 && p.0@ == self@)),
            self@ is Fun ==> (r matches Ok(p) && !p.1 && p.0@ == self@),
        decreases self, 0int,
    {
        match self {
            Atom::Num(_, c) => match c {
                crate::coefficient::Coefficient::RationalPolynomial(rp) => {
                    proof {
                        assert(self@.coeffs_canon() == c@.canon());
                    }
                    if crate::poly::u64s_equal(rp.get_var_map(), vars) {
                        return Ok((self.duplicate(), false));
                    }
                    let mut all_in = true;
                    let om = rp.numerator.var_map.len();
                    let mut k: usize = 0;
                    while k < om
                        invariant
                            k <= om,
                            om == rp.numerator.var_map@.len(),
                        decreases om - k,
                    {
                        if find_var(vars, rp.numerator.var_map[k]).is_none() {
                            all_in = false;
                        }
                        k = k + 1;
                    }
                    if all_in {
                        // the ring only grew: rewrite the polynomial in place
                        let rn = crate::poly::remap_poly(&rp.numerator, vars);
                        let rd = crate::poly::remap_poly(&rp.denominator, vars);
                        let c2 = crate::coefficient::downgrade(
                            crate::poly::RationalPolynomial { numerator: rn, denominator: rd },
                        );
                        return Ok((Atom::Num(false, c2), true));
                    }
                    // a variable left the ring: unfold into an expression
                    let ne = poly_to_ring_expression(&rp.numerator, vars, Ghost(state@));
                    let de = poly_to_ring_expression(&rp.denominator, vars, Ghost(state@));
                    let minus_one = Atom::new_num(crate::coefficient::Coefficient::Rational(
                        Rational::Natural(-1i64, 1)));
                    proof {
                        crate::atom::lemma_dirty_node_ready(minus_one@, state@);
                    }
                    let inv = Atom::new_pow(de, minus_one);
                    proof {
                        crate::atom::lemma_dirty_node_ready(inv@, state@);
                    }
                    let mut parts: Vec<Atom> = Vec::new();
                    push_ready(&mut parts, ne, Ghost(state@));
                    push_ready(&mut parts, inv, Ghost(state@));
                    let prod = Atom::new_mul(parts);
                    proof {
                        crate::atom::lemma_dirty_node_ready(prod@, state@);
                    }
                    let out = match prod.normalize(state) {
                        Ok(a) => a,
                        Err(er) => {
                            return Err(er);
                        },
                    };
                    Ok((out, true))
                },
                _ => Ok((self.duplicate(), false)),
            },
            Atom::Var(v) => match find_var(vars, *v) {
                Some(pos) => {
                    let rp = ratpoly_variable(vars, pos);
                    let c2 = crate::coefficient::downgrade(rp);
                    Ok((Atom::Num(false, c2), true))
                },
                None => Ok((self.duplicate(), false)),
            },
            Atom::Pow(_, b, e) => {
                proof {
                    assert(self@.clean() == (!self@.dirty() && b@.clean() && e@.clean()));
                    assert(self@.coeffs_canon() == (b@.coeffs_canon() && e@.coeffs_canon()));
                    assert(self@.valid_for(state@) == (b@.valid_for(state@) && e@.valid_for(
                        state@)));
                }
                let (cb, ch) = match b.set_coefficient_ring(vars, state) {
                    Ok(p) => p,
                    Err(er) => {
                        return Err(er);
                    },
                };
                if ch {
                    let out = match crate::normalize::normalize_pow_parts(cb, e.duplicate(),
                        state) {
                        Ok(a) => a,
                        Err(er) => {
                            return Err(er);
                        },
                    };
                    Ok((out, true))
                } else {
                    Ok((self.duplicate(), false))
                }
            },
            Atom::Mul(_, ts) => {
                proof {
                    lemma_view_seq_len(ts@);
                    lemma_all_norm_via_parts(view_seq(ts@), state@, self@);
                }
                let (children, ch) = match set_ring_children(ts, vars, state) {
                    Ok(p) => p,
                    Err(er) => {
                        return Err(er);
                    },
                };
                if ch {
                    let out = match crate::normalize::normalize_mul_parts(children, state) {
                        Ok(a) => a,
                        Err(er) => {
                            return Err(er);
                        },
                    };
                    Ok((out, true))
                } else {
                    Ok((self.duplicate(), false))
                }
            },
            Atom::Add(_, ts) => {
                proof {
                    lemma_view_seq_len(ts@);
                    lemma_all_norm_via_parts(view_seq(ts@), state@, self@);
                }
                let (children, ch) = match set_ring_children(ts, vars, state) {
                    Ok(p) => p,
                    Err(er) => {
                        return Err(er);
                    },
                };
                if ch {
                    let out = match crate::normalize::normalize_add_parts(children, state) {
                        Ok(a) => a,
                        Err(er) => {
                            return Err(er);
                        },
                    };
                    Ok((out, true))
                } else {
                    Ok((self.duplicate(), false))
                }
            },
            Atom::Fun(_, _, _) => Ok((self.duplicate(), false)),
        }
    }
}

/// Converts each child of a list node, reporting whether any changed.
fn set_ring_children(ts: &Vec<Atom>, vars: &Vec<u64>, state: &State) -> (r: Result<
    (Vec<Atom>, bool),
    NormalizeError,
>)
    requires
        all_norm(view_seq(ts@), state@),
        state@.wf(),
    ensures
        r matches Ok(p) ==> all_norm(view_seq(p.0@), state@),
    decreases ts, 1int,
{
    proof {
        lemma_view_seq_len(ts@);
    }
    let n = ts.len();
    let mut out: Vec<Atom> = Vec::new();
    let mut changed = false;
    let mut i: usize = 0;
    while i < n
        invariant
            i <= n,
            n == ts@.len(),
            view_seq(ts@).len() == n,
            all_norm(view_seq(ts@), state@),
            all_norm(view_seq(out@), state@),
            state@.wf(),
        decreases n - i,
    {
        proof {
            lemma_view_seq_index(ts@, i as int);
            lemma_all_norm_index(view_seq(ts@), state@, i as int);
        }
        let (c, ch) = match ts[i].set_coefficient_ring(vars, state) {
            Ok(p) => p,
            Err(er) => {
                return Err(er);
            },
        };
        if ch {
            changed = true;
        }
        crate::normalize::push_norm(&mut out, c, Ghost(state@));
        i = i + 1;
    }
    Ok((out, changed))
}

} // verus!
