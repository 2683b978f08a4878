use vstd::prelude::*;

verus! {

use crate::atom::{
    Atom,
    AtomV,
    view_seq,
    lemma_view_seq_len,
    lemma_view_seq_index,
    lemma_view_seq_push,
    eq_atoms,
    all_norm,
    lemma_all_norm_index,
    lemma_all_norm_push,
    lemma_mul_norm_from_parts,
    lemma_all_norm_via_parts,
};
use crate::coefficient::{Coefficient, CoefficientV, is_rational_sum, is_rational_product};
use crate::rational::{Rational, RationalV};
use crate::state::{State, SYMBOL_I};
use crate::ordering::has_coefficient;
use crate::error::NormalizeError;

/// The canonical two.
fn coeff_two() -> (r: Coefficient)
    ensures
        r@ == CoefficientV::Rational(RationalV::Natural(2, 1)),
        r@.canon(),
{
    proof {
        crate::rational::lemma_int_canon(2);
    }
    Coefficient::Rational(Rational::Natural(2, 1))
}

/// A canonical power node over normalized parts.
pub(crate) fn make_pow(base: Atom, exp: Atom, Ghost(st): Ghost<crate::state::StateV>) -> (r: Atom)
    requires
        base@.norm_elem(st),
        exp@.norm_elem(st),
    ensures
        r@ == AtomV::Pow(false, Box::new(base@), Box::new(exp@)),
        r@.norm_elem(st),
{
    let ghost bv = base@;
    let ghost ev = exp@;
    let r = Atom::Pow(false, Box::new(base), Box::new(exp));
    proof {
        assert(r@ == AtomV::Pow(false, Box::new(bv), Box::new(ev)));
        assert(r@.clean() == (!r@.dirty() && bv.clean() && ev.clean()));
        assert(r@.coeffs_canon() == (bv.coeffs_canon() && ev.coeffs_canon()));
        assert(r@.valid_for(st) == (bv.valid_for(st) && ev.valid_for(st)));
    }
    r
}

/// A canonical numeric node over a canonical coefficient.
pub(crate) fn make_num(c: Coefficient, Ghost(st): Ghost<crate::state::StateV>) -> (r: Atom)
    requires
        c@.canon(),
        c@.valid_for(st),
    ensures
        r@ == AtomV::Num(false, c@),
        r@.norm_elem(st),
{
    Atom::Num(false, c)
}

/// The canonical product of the imaginary unit and minus one.
pub(crate) fn make_minus_i(Ghost(st): Ghost<crate::state::StateV>) -> (r: Atom)
    ensures
        r@.norm_elem(st),
        r@ == AtomV::Mul(false, seq![AtomV::Var(SYMBOL_I), AtomV::Num(false,
            CoefficientV::Rational(RationalV::Natural(-1i64, 1)))]),
{
    proof {
        crate::rational::lemma_int_canon(-1i64);
    }
    scaled_term(Atom::Var(SYMBOL_I), Coefficient::Rational(Rational::Natural(-1i64, 1)), Ghost(st))
}

/// Compares the leading `alen` factors of `a` with the leading `blen` of `b`.
fn eq_atom_prefix(a: &Vec<Atom>, alen: usize, b: &Vec<Atom>, blen: usize) -> (r: bool)
    requires
        alen <= a@.len(),
        blen <= b@.len(),
    ensures
        r <==> view_seq(a@).subrange(0, alen as int) == view_seq(b@).subrange(0, blen as int),
{
    proof {
        lemma_view_seq_len(a@);
        lemma_view_seq_len(b@);
    }
    if alen != blen {
        proof {
            assert(view_seq(a@).subrange(0, alen as int).len() != view_seq(b@).subrange(0,
                blen as int).len());
        }
        return false;
    }
    let mut i: usize = 0;
    while i < alen
        invariant
            i <= alen,
            alen == blen,
            alen <= a@.len(),
            blen <= b@.len(),
            view_seq(a@).len() == a@.len(),
            view_seq(b@).len() == b@.len(),
            forall|j: int| 0 <= j < i ==> view_seq(a@)[j] == view_seq(b@)[j],
        decreases alen - i,
    {
        proof {
            lemma_view_seq_index(a@, i as int);
            lemma_view_seq_index(b@, i as int);
        }
        if !eq_atoms(&a[i], &b[i]) {
            proof {
                assert(view_seq(a@).subrange(0, alen as int)[i as int] == view_seq(a@)[i as int]);
                assert(view_seq(b@).subrange(0, blen as int)[i as int] == view_seq(b@)[i as int]);
            }
            return false;
        }
        i = i + 1;
    }
    proof {
        assert(view_seq(a@).subrange(0, alen as int) =~= view_seq(b@).subrange(0, blen as int));
    }
    true
}

/// Builds a canonical scaled term: the bare part times a numeric coefficient.
fn scaled_term(part: Atom, c: Coefficient, Ghost(st): Ghost<crate::state::StateV>) -> (r: Atom)
    requires
        part@.norm_elem(st),
        c@.canon(),
        c@.valid_for(st),
    ensures
        r@ == AtomV::Mul(false, seq![part@, AtomV::Num(false, c@)]),
        r@.norm_elem(st),
{
    let ghost pv = part@;
    let ghost cv = c@;
    let num = Atom::Num(false, c);
    let mut parts: Vec<Atom> = Vec::new();
    parts.push(part);
    parts.push(num);
    proof {
        assert(view_seq(parts@) =~= seq![pv, AtomV::Num(false, cv)]) by {
            lemma_view_seq_len(parts@);
            lemma_view_seq_index(parts@, 0);
            lemma_view_seq_index(parts@, 1);
        }
        let ts = view_seq(parts@);
        let r0 = AtomV::Mul(false, ts);
        assert(AtomV::Num(false, cv).norm_elem(st));
        assert(ts.skip(1) =~= seq![AtomV::Num(false, cv)]);
        assert(seq![AtomV::Num(false, cv)].skip(1) =~= Seq::<AtomV>::empty());
        assert(crate::atom::all_clean(ts) == (ts[0].clean() && crate::atom::all_clean(ts.skip(1))));
        assert(crate::atom::all_clean(ts.skip(1)) == (ts.skip(1)[0].clean()
            && crate::atom::all_clean(ts.skip(1).skip(1))));
        assert(ts.skip(1).skip(1) =~= Seq::<AtomV>::empty());
        assert(r0.clean());
        assert(crate::atom::all_coeffs_canon(ts) == (ts[0].coeffs_canon()
            && crate::atom::all_coeffs_canon(ts.skip(1))));
        assert(crate::atom::all_coeffs_canon(ts.skip(1)) == (ts.skip(1)[0].coeffs_canon()
            && crate::atom::all_coeffs_canon(ts.skip(1).skip(1))));
        assert(r0.coeffs_canon());
        assert(crate::atom::all_valid_for(ts, st) == (ts[0].valid_for(st)
            && crate::atom::all_valid_for(ts.skip(1), st)));
        assert(crate::atom::all_valid_for(ts.skip(1), st) == (ts.skip(1)[0].valid_for(st)
            && crate::atom::all_valid_for(ts.skip(1).skip(1), st)));
        assert(r0.valid_for(st));
    }
    Atom::Mul(false, parts)
}

/// The trailing numeric coefficient of a product's factor list, one when the
/// list carries none.
pub open spec fn term_coeff(ts: Seq<AtomV>) -> CoefficientV {
    if has_coefficient(ts) {
        match ts.last() {
            AtomV::Num(_, c) => c,
            _ => CoefficientV::Rational(RationalV::Natural(1, 1)),
        }
    } else {
        CoefficientV::Rational(RationalV::Natural(1, 1))
    }
}

/// The factor list without its trailing numeric coefficient.
pub open spec fn term_bare(ts: Seq<AtomV>) -> Seq<AtomV> {
    if has_coefficient(ts) {
        ts.drop_last()
    } else {
        ts
    }
}

/// The outcome of merging two terms that share one bare part and carry
/// rational coefficients: the coefficients add exactly; a vanishing sum
/// collapses the term to zero and a sum of one sheds the coefficient.
pub open spec fn is_merged_scaled(
    res: AtomV,
    bare: Seq<AtomV>,
    c1: CoefficientV,
    c2: CoefficientV,
) -> bool {
    match (c1, c2) {
        (CoefficientV::Rational(x), CoefficientV::Rational(y)) => {
            let snum = x.num() * y.den() + y.num() * x.den();
            let sden = x.den() * y.den();
            ||| (snum == 0 && (res matches AtomV::Num(rd, cc) && !rd && (cc matches
                CoefficientV::Rational(z) && z.num() == 0)))
            ||| (snum == sden && (if bare.len() == 1 {
                res == bare[0]
            } else {
                res == AtomV::Mul(false, bare)
            }))
            ||| (snum != 0 && snum != sden && (res matches AtomV::Mul(rd, rts) && !rd
                && rts.len() == bare.len() + 1 && rts.subrange(0, bare.len() as int) == bare && (
            rts.last() matches AtomV::Num(nd, cc) && !nd && (cc matches CoefficientV::Rational(q)
                && q.num() * sden == snum * q.den()))))
        },
        _ => false,
    }
}

impl Atom {
    /// Folds `other` into `self` when the two terms of a sum combine: equal
    /// numbers add, terms equal up to their numeric coefficient add their
    /// coefficients, equal bare terms double. Hands back false, leaving
    /// `self` untouched, when the two terms do not combine.
    #[verifier::rlimit(60)]
    pub fn merge_terms(&mut self, other: &Atom, state: &State) -> (r: Result<
        bool,
        NormalizeError,
    >)
        requires
            old(self)@.norm_elem(state@),
            other@.norm_elem(state@),
            state@.wf(),
        ensures
            final(self)@.norm_elem(state@),
            r == Ok::<bool, NormalizeError>(false) ==> final(self)@ == old(self)@,
            r is Err ==> final(self)@ == old(self)@,
            old(self)@ == other@ && !(old(self)@ is Num) && !(old(self)@ is Mul) ==> (r == Ok::<
                bool,
                NormalizeError,
            >(true) && final(self)@ == AtomV::Mul(false, seq![old(self)@, AtomV::Num(false,
                CoefficientV::Rational(RationalV::Natural(2, 1)))])),
            old(self)@ matches AtomV::Num(_, c1) ==> (other@ matches AtomV::Num(_, c2) ==> (
            c1 is Rational && c2 is Rational ==> (r == Ok::<bool, NormalizeError>(true) && (final(
                self)@ matches AtomV::Num(dd, c) && !dd && is_rational_sum(c, c1, c2))))),
            old(self)@ matches AtomV::Mul(_, ts1) ==> (other@ matches AtomV::Mul(_, ts2) ==> (
            term_bare(ts1) == term_bare(ts2) && term_coeff(ts1) is Rational && term_coeff(
                ts2) is Rational ==> (r == Ok::<bool, NormalizeError>(true) && is_merged_scaled(
                final(self)@, term_bare(ts2), term_coeff(ts1), term_coeff(ts2))))),
            old(self)@ is Num && !(other@ is Num) ==> r == Ok::<bool, NormalizeError>(false),
            old(self)@ matches AtomV::Mul(_, ts1) ==> (!(other@ is Mul) && !(other@ is Num) ==> (
            has_coefficient(ts1) && term_bare(ts1) == seq![other@] && term_coeff(
                ts1) is Rational ==> (r == Ok::<bool, NormalizeError>(true) && is_merged_scaled(
                final(self)@, seq![other@], term_coeff(ts1), CoefficientV::Rational(
                RationalV::Natural(1, 1)))))),
            !(old(self)@ is Mul) && !(old(self)@ is Num) ==> (other@ matches AtomV::Mul(_, ts2)
                ==> (ts2.len() == 2 && has_coefficient(ts2) && term_bare(ts2) == seq![
                old(self)@,
            ] && term_coeff(ts2) is Rational ==> (r == Ok::<bool, NormalizeError>(true)
                && is_merged_scaled(final(self)@, seq![old(self)@], CoefficientV::Rational(
                RationalV::Natural(1, 1)), term_coeff(ts2))))),
    {
        match (&*self, other) {
            (Atom::Num(_, c1), Atom::Num(_, c2)) => {
                let s = match c1.add(c2, state) {
                    Ok(s) => s,
                    Err(e) => {
                        return Err(e);
                    },
                };
                *self = Atom::Num(false, s);
                Ok(true)
            },
            (Atom::Num(_, _), _) => Ok(false),
            (Atom::Mul(_, t1), Atom::Mul(_, t2)) => {
                proof {
                    lemma_view_seq_len(t1@);
                    lemma_view_seq_len(t2@);
                }
                let h1 = Atom::vec_has_coefficient(t1);
                let h2 = Atom::vec_has_coefficient(t2);
                let n1 = if h1 {
                    t1.len() - 1
                } else {
                    t1.len()
                };
                let n2 = if h2 {
                    t2.len() - 1
                } else {
                    t2.len()
                };
                proof {
                    if has_coefficient(view_seq(t1@)) {
                        assert(term_bare(view_seq(t1@)) =~= view_seq(t1@).subrange(0, n1 as int));
                    } else {
                        assert(term_bare(view_seq(t1@)) =~= view_seq(t1@).subrange(0, n1 as int));
                    }
                    if has_coefficient(view_seq(t2@)) {
                        assert(term_bare(view_seq(t2@)) =~= view_seq(t2@).subrange(0, n2 as int));
                    } else {
                        assert(term_bare(view_seq(t2@)) =~= view_seq(t2@).subrange(0, n2 as int));
                    }
                    assert(self@ matches AtomV::Mul(_, ws1) && ws1 == view_seq(t1@));
                    assert(other@ matches AtomV::Mul(_, ws2) && ws2 == view_seq(t2@));
                }
                if !eq_atom_prefix(t1, n1, t2, n2) {
                    return Ok(false);
                }
                proof {
                    assert(self@.coeffs_canon() == crate::atom::all_coeffs_canon(view_seq(t1@)));
                    assert(self@.clean() == (!self@.dirty() && crate::atom::all_clean(view_seq(
                        t1@))));
                    assert(self@.valid_for(state@) == crate::atom::all_valid_for(view_seq(t1@),
                        state@));
                    assert(other@.coeffs_canon() == crate::atom::all_coeffs_canon(view_seq(t2@)));
                    assert(other@.clean() == (!other@.dirty() && crate::atom::all_clean(view_seq(
                        t2@))));
                    assert(other@.valid_for(state@) == crate::atom::all_valid_for(view_seq(t2@),
                        state@));
                }
                let c1 = if h1 {
                    proof {
                        lemma_view_seq_index(t1@, t1@.len() - 1);
                        crate::atom::lemma_all_coeffs_canon_index(view_seq(t1@), t1@.len() - 1);
                        crate::atom::lemma_all_valid_for_index(view_seq(t1@), state@, t1@.len()
                            - 1);
                    }
                    match &t1[t1.len() - 1] {
                        Atom::Num(_, c) => c.duplicate(),
                        _ => {
                            proof {
                                assert(false);
                            }
                            Coefficient::one()
                        },
                    }
                } else {
                    Coefficient::one()
                };
                let c2 = if h2 {
                    proof {
                        lemma_view_seq_index(t2@, t2@.len() - 1);
                        crate::atom::lemma_all_coeffs_canon_index(view_seq(t2@), t2@.len() - 1);
                        crate::atom::lemma_all_valid_for_index(view_seq(t2@), state@, t2@.len()
                            - 1);
                    }
                    match &t2[t2.len() - 1] {
                        Atom::Num(_, c) => c.duplicate(),
                        _ => {
                            proof {
                                assert(false);
                            }
                            Coefficient::one()
                        },
                    }
                } else {
                    Coefficient::one()
                };
                proof {
                    assert(c1@ == term_coeff(view_seq(t1@)));
                    assert(c2@ == term_coeff(view_seq(t2@)));
                }
                let new_coeff = match c1.add(&c2, state) {
                    Ok(s) => s,
                    Err(e) => {
                        return Err(e);
                    },
                };
                let ghost cv1 = c1@;
                let ghost cv2 = c2@;
                let ghost sv = new_coeff@;
                proof {
                    lemma_all_norm_via_parts(view_seq(t2@), state@, other@);
                }
                let bare = prefix_atoms(t2, n2, Ghost(state@));
                proof {
                    if cv1 is Rational && cv2 is Rational {
                        let x = cv1->Rational_0;
                        let y = cv2->Rational_0;
                        let sq = sv->Rational_0;
                        assert(sq.num() * (x.den() * y.den()) == (x.num() * y.den() + y.num()
                            * x.den()) * sq.den());
                    }
                }
                if new_coeff.is_one() {
                    proof {
                        if cv1 is Rational && cv2 is Rational {
                            let x = cv1->Rational_0;
                            let y = cv2->Rational_0;
                            assert(x.num() * y.den() + y.num() * x.den() == x.den() * y.den())
                                by (nonlinear_arith)
                                requires
                                    1int * (x.den() * y.den()) == (x.num() * y.den() + y.num()
                                        * x.den()) * 1int,
                            ;
                        }
                    }
                    if n2 == 1 {
                        proof {
                            lemma_view_seq_index(t2@, 0);
                            lemma_all_norm_via_parts(view_seq(t2@), state@, other@);
                            lemma_all_norm_index(view_seq(t2@), state@, 0);
                            assert(term_bare(view_seq(t2@))[0] == view_seq(t2@)[0]);
                        }
                        *self = t2[0].duplicate();
                    } else {
                        proof {
                            lemma_mul_norm_from_parts(view_seq(bare@), state@);
                        }
                        *self = Atom::Mul(false, bare);
                    }
                    return Ok(true);
                }
                if new_coeff.is_zero() {
                    proof {
                        if cv1 is Rational && cv2 is Rational {
                            let x = cv1->Rational_0;
                            let y = cv2->Rational_0;
                            let sq = sv->Rational_0;
                            assert(x.num() * y.den() + y.num() * x.den() == 0)
                                by (nonlinear_arith)
                                requires
                                    sq.num() * (x.den() * y.den()) == (x.num() * y.den() + y.num()
                                        * x.den()) * sq.den(),
                                    sq.num() == 0,
                                    sq.den() >= 1,
                                    x.den() >= 1,
                                    y.den() >= 1,
                            ;
                        }
                    }
                    *self = Atom::Num(false, new_coeff);
                    return Ok(true);
                }
                proof {
                    if cv1 is Rational && cv2 is Rational {
                        lemma_sum_not_collapsed(sv, cv1, cv2);
                    }
                }
                let mut parts = bare;
                let num = Atom::Num(false, new_coeff);
                proof {
                    lemma_view_seq_push(parts@, num);
                }
                let ghost before = view_seq(parts@);
                parts.push(num);
                proof {
                    assert(view_seq(parts@) =~= before.push(num@));
                    lemma_all_norm_push(before, state@, num@);
                    lemma_mul_norm_from_parts(view_seq(parts@), state@);
                    assert(view_seq(parts@).subrange(0, before.len() as int) =~= before);
                    assert(view_seq(parts@).last() == num@);
                }
                *self = Atom::Mul(false, parts);
                Ok(true)
            },
            (Atom::Mul(_, t1), _) => {
                proof {
                    lemma_view_seq_len(t1@);
                    assert(self@ matches AtomV::Mul(_, ws1) && ws1 == view_seq(t1@));
                    if has_coefficient(view_seq(t1@)) {
                        assert(term_bare(view_seq(t1@)) =~= view_seq(t1@).subrange(0, (
                        view_seq(t1@).len() - 1) as int));
                    }
                }
                let h1 = Atom::vec_has_coefficient(t1);
                if !h1 {
                    return Ok(false);
                }
                let n1 = t1.len() - 1;
                if n1 != 1 {
                    proof {
                        assert(term_bare(view_seq(t1@)).len() != 1);
                    }
                    return Ok(false);
                }
                proof {
                    lemma_view_seq_index(t1@, 0);
                    lemma_view_seq_index(t1@, 1);
                    assert(self@.coeffs_canon() == crate::atom::all_coeffs_canon(view_seq(t1@)));
                    assert(self@.clean() == (!self@.dirty() && crate::atom::all_clean(view_seq(
                        t1@))));
                    assert(self@.valid_for(state@) == crate::atom::all_valid_for(view_seq(t1@),
                        state@));
                    crate::atom::lemma_all_coeffs_canon_index(view_seq(t1@), 1);
                    crate::atom::lemma_all_valid_for_index(view_seq(t1@), state@, 1);
                    crate::atom::lemma_all_clean_index(view_seq(t1@), 1);
                    crate::atom::lemma_all_coeffs_canon_index(view_seq(t1@), 0);
                    crate::atom::lemma_all_valid_for_index(view_seq(t1@), state@, 0);
                    crate::atom::lemma_all_clean_index(view_seq(t1@), 0);
                }
                if !eq_atoms(other, &t1[0]) {
                    proof {
                        assert(term_bare(view_seq(t1@))[0] == view_seq(t1@)[0]);
                    }
                    return Ok(false);
                }
                proof {
                    assert(term_bare(view_seq(t1@))[0] == view_seq(t1@)[0]);
                    assert(view_seq(t1@).last() == view_seq(t1@)[1]);
                    crate::rational::lemma_int_canon(1);
                }
                let c1 = match &t1[1] {
                    Atom::Num(_, c) => c.duplicate(),
                    _ => {
                        proof {
                            assert(false);
                        }
                        Coefficient::one()
                    },
                };
                let ghost cv1 = c1@;
                let ghost cv2 = CoefficientV::Rational(RationalV::Natural(1, 1));
                proof {
                    assert(term_coeff(view_seq(t1@)) == cv1);
                }
                let one = Coefficient::one();
                let new_coeff = match c1.add(&one, state) {
                    Ok(s) => s,
                    Err(e) => {
                        return Err(e);
                    },
                };
                let ghost sv = new_coeff@;
                if new_coeff.is_zero() {
                    proof {
                        if cv1 is Rational {
                            let x = cv1->Rational_0;
                            let sq = sv->Rational_0;
                            assert(x.num() * 1 + 1 * x.den() == 0) by (nonlinear_arith)
                                requires
                                    sq.num() * (x.den() * 1) == (x.num() * 1 + 1 * x.den())
                                        * sq.den(),
                                    sq.num() == 0,
                                    sq.den() >= 1,
                                    x.den() >= 1,
                            ;
                        }
                    }
                    *self = Atom::Num(false, new_coeff);
                    return Ok(true);
                }
                if new_coeff.is_one() {
                    proof {
                        if cv1 is Rational {
                            let x = cv1->Rational_0;
                            let sq = sv->Rational_0;
                            assert(x.num() * 1 + 1 * x.den() == x.den() * 1) by (nonlinear_arith)
                                requires
                                    sq.num() * (x.den() * 1) == (x.num() * 1 + 1 * x.den())
                                        * sq.den(),
                                    sq.num() == 1,
                                    sq.den() == 1,
                            ;
                        }
                    }
                    *self = t1[0].duplicate();
                    return Ok(true);
                }
                proof {
                    if cv1 is Rational {
                        lemma_sum_not_collapsed(sv, cv1, cv2);
                    }
                }
                let part = t1[0].duplicate();
                *self = scaled_term(part, new_coeff, Ghost(state@));
                proof {
                    assert(self@ matches AtomV::Mul(rd, rts) && !rd && rts =~= seq![
                        view_seq(t1@)[0],
                        AtomV::Num(false, sv),
                    ]);
                    assert(self@ matches AtomV::Mul(_, rts2) && rts2.subrange(0, 1) =~= seq![
                        other@,
                    ] && rts2.last() == AtomV::Num(false, sv));
                }
                Ok(true)
            },
            (_, Atom::Mul(_, t2)) => {
                proof {
                    lemma_view_seq_len(t2@);
                    assert(other@ matches AtomV::Mul(_, ws2) && ws2 == view_seq(t2@));
                    if has_coefficient(view_seq(t2@)) {
                        assert(term_bare(view_seq(t2@)) =~= view_seq(t2@).subrange(0, (
                        view_seq(t2@).len() - 1) as int));
                    }
                }
                if t2.len() != 2 {
                    return Ok(false);
                }
                if !Atom::vec_has_coefficient(t2) {
                    return Ok(false);
                }
                proof {
                    lemma_view_seq_index(t2@, 0);
                    lemma_view_seq_index(t2@, 1);
                    assert(other@.coeffs_canon() == crate::atom::all_coeffs_canon(view_seq(t2@)));
                    assert(other@.clean() == (!other@.dirty() && crate::atom::all_clean(view_seq(
                        t2@))));
                    assert(other@.valid_for(state@) == crate::atom::all_valid_for(view_seq(t2@),
                        state@));
                    crate::atom::lemma_all_coeffs_canon_index(view_seq(t2@), 1);
                    crate::atom::lemma_all_valid_for_index(view_seq(t2@), state@, 1);
                    crate::atom::lemma_all_clean_index(view_seq(t2@), 1);
                    crate::atom::lemma_all_coeffs_canon_index(view_seq(t2@), 0);
                    crate::atom::lemma_all_valid_for_index(view_seq(t2@), state@, 0);
                    crate::atom::lemma_all_clean_index(view_seq(t2@), 0);
                }
                if !eq_atoms(&*self, &t2[0]) {
                    proof {
                        assert(term_bare(view_seq(t2@))[0] == view_seq(t2@)[0]);
                    }
                    return Ok(false);
                }
                proof {
                    assert(term_bare(view_seq(t2@))[0] == view_seq(t2@)[0]);
                    assert(view_seq(t2@).last() == view_seq(t2@)[1]);
                    crate::rational::lemma_int_canon(1);
                }
                let c2 = match &t2[1] {
                    Atom::Num(_, c) => c.duplicate(),
                    _ => {
                        proof {
                            assert(false);
                        }
                        Coefficient::one()
                    },
                };
                let ghost cv1 = CoefficientV::Rational(RationalV::Natural(1, 1));
                let ghost cv2 = c2@;
                proof {
                    assert(term_coeff(view_seq(t2@)) == cv2);
                }
                let one = Coefficient::one();
                let new_coeff = match c2.add(&one, state) {
                    Ok(s) => s,
                    Err(e) => {
                        return Err(e);
                    },
                };
                let ghost sv = new_coeff@;
                proof {
                    if cv2 is Rational {
                        let y = cv2->Rational_0;
                        let sq = sv->Rational_0;
                        assert(sq.num() * (y.den() * 1) == (y.num() * 1 + 1 * y.den())
                            * sq.den());
                        assert(sq.num() * (1int * y.den()) == (1int * y.den() + y.num() * 1)
                            * sq.den()) by (nonlinear_arith)
                            requires sq.num() * (y.den() * 1) == (y.num() * 1 + 1 * y.den())
                                * sq.den();
                    }
                }
                if new_coeff.is_zero() {
                    proof {
                        if cv2 is Rational {
                            let y = cv2->Rational_0;
                            let sq = sv->Rational_0;
                            assert(1int * y.den() + y.num() * 1 == 0) by (nonlinear_arith)
                                requires
                                    sq.num() * (1int * y.den()) == (1int * y.den() + y.num() * 1)
                                        * sq.den(),
                                    sq.num() == 0,
                                    sq.den() >= 1,
                                    y.den() >= 1,
                            ;
                        }
                    }
                    *self = Atom::Num(false, new_coeff);
                    return Ok(true);
                }
                if new_coeff.is_one() {
                    proof {
                        if cv2 is Rational {
                            let y = cv2->Rational_0;
                            let sq = sv->Rational_0;
                            assert(1int * y.den() + y.num() * 1 == 1int * y.den())
                                by (nonlinear_arith)
                                requires
                                    sq.num() * (1int * y.den()) == (1int * y.den() + y.num() * 1)
                                        * sq.den(),
                                    sq.num() == 1,
                                    sq.den() == 1,
                            ;
                        }
                    }
                    *self = t2[0].duplicate();
                    return Ok(true);
                }
                proof {
                    if cv2 is Rational {
                        lemma_sum_not_collapsed(sv, cv1, cv2);
                    }
                }
                let part = t2[0].duplicate();
                *self = scaled_term(part, new_coeff, Ghost(state@));
                proof {
                    assert(self@ matches AtomV::Mul(rd, rts) && !rd && rts =~= seq![
                        view_seq(t2@)[0],
                        AtomV::Num(false, sv),
                    ]);
                    assert(self@ matches AtomV::Mul(_, rts2) && rts2.subrange(0, 1) =~= seq![
                        old(self)@,
                    ] && rts2.last() == AtomV::Num(false, sv));
                }
                Ok(true)
            },
            _ => {
                if eq_atoms(&*self, other) {
                    let part = self.duplicate();
                    *self = scaled_term(part, coeff_two(), Ghost(state@));
                    Ok(true)
                } else {
                    Ok(false)
                }
            },
        }
    }
}

/// The outcome of merging two powers of one base with rational numeric
/// exponents: the exponents add exactly; a vanishing sum collapses to one and
/// a sum of one sheds the power wrapper.
pub open spec fn is_merged_power(res: AtomV, base: AtomV, c1: CoefficientV, c2: CoefficientV) -> bool {
    match (c1, c2) {
        (CoefficientV::Rational(x), CoefficientV::Rational(y)) => {
            let snum = x.num() * y.den() + y.num() * x.den();
            let sden = x.den() * y.den();
            ||| (snum == 0 && res == AtomV::Num(false, CoefficientV::Rational(RationalV::Natural(1,
                1))))
            ||| (snum == sden && res == base)
            ||| (snum != 0 && snum != sden && (res matches AtomV::Pow(rd, bb, ee) && !rd && *bb
                == base && ((*ee) matches AtomV::Num(ed, cc) && !ed && (cc matches
                CoefficientV::Rational(q) && q.num() * sden == snum * q.den()))))
        },
        _ => false,
    }
}

/// A canonical rational sum that is neither zero nor one has a cross-sum
/// numerator that vanishes nowhere and differs from the denominator product.
proof fn lemma_sum_not_collapsed(sv: CoefficientV, cv1: CoefficientV, cv2: CoefficientV)
    requires
        is_rational_sum(sv, cv1, cv2),
        sv.canon(),
        !sv.is_zero_spec(),
        !sv.is_one_spec(),
        cv1 is Rational,
        cv2 is Rational,
        cv1->Rational_0.canon(),
        cv2->Rational_0.canon(),
    ensures
        cv1->Rational_0.num() * cv2->Rational_0.den() + cv2->Rational_0.num()
            * cv1->Rational_0.den() != 0,
        cv1->Rational_0.num() * cv2->Rational_0.den() + cv2->Rational_0.num()
            * cv1->Rational_0.den() != cv1->Rational_0.den() * cv2->Rational_0.den(),
{
    let x = cv1->Rational_0;
    let y = cv2->Rational_0;
    let sq = sv->Rational_0;
    let snum = x.num() * y.den() + y.num() * x.den();
    let sden = x.den() * y.den();
    assert(x.canon());
    assert(x.den() >= 1);
    assert(y.den() >= 1);
    assert(sq.canon());
    assert(sq.den() >= 1);
    assert(sq.num() != 0);
    assert(sq.num() * sden == snum * sq.den());
    assert(x.den() * y.den() >= 1) by (nonlinear_arith)
        requires
            x.den() >= 1,
            y.den() >= 1,
    ;
    assert(snum != 0) by (nonlinear_arith)
        requires
            sq.num() * (x.den() * y.den()) == snum * sq.den(),
            snum == x.num() * y.den() + y.num() * x.den(),
            sq.num() != 0,
            sq.den() >= 1,
            x.den() * y.den() >= 1,
    ;
    if snum == sden {
        assert(sq.num() * sden == sden * sq.den());
        assert(sq.num() == sq.den()) by (nonlinear_arith)
            requires
                sq.num() * (x.den() * y.den()) == (x.den() * y.den()) * sq.den(),
                x.den() * y.den() >= 1,
        ;
        crate::rational::lemma_canon_value_one(sq);
        assert(false);
    }
}

impl Atom {
    /// Folds `other` into `self` when the two factors of a product combine:
    /// numbers multiply, powers over one base add their exponents, equal
    /// atoms square — except the imaginary unit, whose square is the literal
    /// coefficient minus one. Hands back false, leaving `self` untouched,
    /// when the two factors do not combine.
    pub fn merge_factors(&mut self, other: &Atom, state: &State) -> (r: Result<
        bool,
        NormalizeError,
    >)
        requires
            old(self)@.norm_elem(state@),
            other@.norm_elem(state@),
            state@.wf(),
        ensures
            final(self)@.norm_elem(state@),
            r == Ok::<bool, NormalizeError>(false) ==> final(self)@ == old(self)@,
            old(self)@ == AtomV::Var(SYMBOL_I) && other@ == AtomV::Var(SYMBOL_I) ==> (r == Ok::<
                bool,
                NormalizeError,
            >(true) && final(self)@ == AtomV::Num(false, CoefficientV::Rational(
                RationalV::Natural(-1i64, 1)))),
            old(self)@ == other@ && !(old(self)@ is Num) && !(old(self)@ is Pow) && old(self)@
                != AtomV::Var(SYMBOL_I) ==> (r == Ok::<bool, NormalizeError>(true) && final(self)@
                == AtomV::Pow(false, Box::new(old(self)@), Box::new(AtomV::Num(false,
                CoefficientV::Rational(RationalV::Natural(2, 1)))))),
            old(self)@ matches AtomV::Num(_, c1) ==> (other@ matches AtomV::Num(_, c2) ==> (
            c1 is Rational && c2 is Rational ==> (r == Ok::<bool, NormalizeError>(true) && (final(
                self)@ matches AtomV::Num(dd, c) && !dd && is_rational_product(c, c1, c2))))),
            old(self)@ matches AtomV::Pow(_, b1, e1) ==> ((*e1) matches AtomV::Num(_, c1) ==> (
            other@ matches AtomV::Pow(_, b2, e2) ==> ((*e2) matches AtomV::Num(_, c2) ==> (*b1
                == *b2 && c1 is Rational && c2 is Rational ==> (r == Ok::<bool, NormalizeError>(
                true) && is_merged_power(final(self)@, *b1, c1, c2)))))),
            !(old(self)@ is Pow) ==> (other@ matches AtomV::Pow(_, b2, e2) ==> (old(self)@ == *b2
                ==> ((*e2) matches AtomV::Num(_, c2) ==> (c2 is Rational ==> (r == Ok::<
                bool,
                NormalizeError,
            >(true) && is_merged_power(final(self)@, *b2, CoefficientV::Rational(
                RationalV::Natural(1, 1)), c2)))))),
            old(self)@ is Num && !(other@ is Num) && !(other@ is Pow) ==> r == Ok::<
                bool,
                NormalizeError,
            >(false),
            old(self)@ matches AtomV::Pow(_, b1, _) ==> (other@ matches AtomV::Pow(_, b2, _)
                ==> (*b1 != *b2 ==> r == Ok::<bool, NormalizeError>(false))),
            !(old(self)@ is Num) && !(old(self)@ is Pow) && !(other@ is Num) && !(
            other@ is Pow) && old(self)@ != other@ ==> r == Ok::<bool, NormalizeError>(false),
    {
        match (&*self, other) {
            (Atom::Pow(_, b1, e1), Atom::Pow(_, b2, e2)) => {
                proof {
                    assert(self@.clean() == (!self@.dirty() && b1@.clean() && e1@.clean()));
                    assert(self@.coeffs_canon() == (b1@.coeffs_canon() && e1@.coeffs_canon()));
                    assert(self@.valid_for(state@) == (b1@.valid_for(state@) && e1@.valid_for(
                        state@)));
                    assert(other@.clean() == (!other@.dirty() && b2@.clean() && e2@.clean()));
                    assert(other@.coeffs_canon() == (b2@.coeffs_canon() && e2@.coeffs_canon()));
                    assert(other@.valid_for(state@) == (b2@.valid_for(state@) && e2@.valid_for(
                        state@)));
                }
                if !eq_atoms(b1, b2) {
                    return Ok(false);
                }
                match (&**e1, &**e2) {
                    (Atom::Num(_, n1), Atom::Num(_, n2)) => {
                        proof {
                            assert(e1@.coeffs_canon() == n1@.canon());
                            assert(e2@.coeffs_canon() == n2@.canon());
                            assert(e1@.valid_for(state@) == n1@.valid_for(state@));
                            assert(e2@.valid_for(state@) == n2@.valid_for(state@));
                            assert(self@ matches AtomV::Pow(_, sb, se) && *sb == b1@ && *se
                                == e1@);
                            assert(other@ matches AtomV::Pow(_, ob, oe) && *ob == b2@ && *oe
                                == e2@);
                            assert(e1@ matches AtomV::Num(_, cc1) && cc1 == n1@);
                            assert(e2@ matches AtomV::Num(_, cc2) && cc2 == n2@);
                        }
                        let ghost bv = b1@;
                        let ghost cv1 = n1@;
                        let ghost cv2 = n2@;
                        let s = match n1.add(n2, state) {
                            Ok(s) => s,
                            Err(e) => {
                                return Err(e);
                            },
                        };
                        let ghost sv = s@;
                        if s.is_zero() {
                            *self = make_num(Coefficient::one(), Ghost(state@));
                            proof {
                                if cv1 is Rational && cv2 is Rational {
                                    let x = cv1->Rational_0;
                                    let y = cv2->Rational_0;
                                    let sq = sv->Rational_0;
                                    assert(x.num() * y.den() + y.num() * x.den() == 0)
                                        by (nonlinear_arith)
                                        requires
                                            sq.num() * (x.den() * y.den()) == (x.num() * y.den()
                                                + y.num() * x.den()) * sq.den(),
                                            sq.num() == 0,
                                            sq.den() >= 1,
                                            x.den() >= 1,
                                            y.den() >= 1,
                                    ;
                                }
                            }
                        } else if s.is_one() {
                            *self = b2.duplicate();
                            proof {
                                if cv1 is Rational && cv2 is Rational {
                                    let x = cv1->Rational_0;
                                    let y = cv2->Rational_0;
                                    let sq = sv->Rational_0;
                                    assert(x.num() * y.den() + y.num() * x.den() == x.den()
                                        * y.den()) by (nonlinear_arith)
                                        requires
                                            sq.num() * (x.den() * y.den()) == (x.num() * y.den()
                                                + y.num() * x.den()) * sq.den(),
                                            sq.num() == 1,
                                            sq.den() == 1,
                                    ;
                                }
                            }
                        } else {
                            proof {
                                if cv1 is Rational && cv2 is Rational {
                                    lemma_sum_not_collapsed(sv, cv1, cv2);
                                }
                            }
                            let exp = make_num(s, Ghost(state@));
                            *self = make_pow(b2.duplicate(), exp, Ghost(state@));
                        }
                        Ok(true)
                    },
                    _ => {
                        let sum = match crate::normalize::add_two_normalized(e1.duplicate(),
                            e2.duplicate(), state) {
                            Ok(s) => s,
                            Err(e) => {
                                return Err(e);
                            },
                        };
                        *self = make_pow(b2.duplicate(), sum, Ghost(state@));
                        Ok(true)
                    },
                }
            },
            (_, Atom::Pow(_, b2, e2)) => {
                proof {
                    assert(other@.clean() == (!other@.dirty() && b2@.clean() && e2@.clean()));
                    assert(other@.coeffs_canon() == (b2@.coeffs_canon() && e2@.coeffs_canon()));
                    assert(other@.valid_for(state@) == (b2@.valid_for(state@) && e2@.valid_for(
                        state@)));
                }
                if !eq_atoms(&*self, b2) {
                    return Ok(false);
                }
                match &**e2 {
                    Atom::Num(_, ne) => {
                        proof {
                            assert(e2@.coeffs_canon() == ne@.canon());
                            assert(e2@.valid_for(state@) == ne@.valid_for(state@));
                            assert(other@ matches AtomV::Pow(_, ob, oe) && *ob == b2@ && *oe
                                == e2@);
                            assert(e2@ matches AtomV::Num(_, cc2) && cc2 == ne@);
                            crate::rational::lemma_int_canon(1);
                        }
                        let ghost cv1 = CoefficientV::Rational(RationalV::Natural(1, 1));
                        let ghost cv2 = ne@;
                        let one = Coefficient::one();
                        let s = match ne.add(&one, state) {
                            Ok(s) => s,
                            Err(e) => {
                                return Err(e);
                            },
                        };
                        let ghost sv = s@;
                        proof {
                            if cv2 is Rational {
                                let y = cv2->Rational_0;
                                let sq = sv->Rational_0;
                                assert(sq.num() * (y.den() * 1) == (y.num() * 1 + 1 * y.den())
                                    * sq.den());
                                assert(sq.num() * (1int * y.den()) == (1int * y.den() + y.num()
                                    * 1) * sq.den()) by (nonlinear_arith)
                                    requires sq.num() * (y.den() * 1) == (y.num() * 1 + 1
                                        * y.den()) * sq.den();
                            }
                        }
                        if s.is_zero() {
                            *self = make_num(Coefficient::one(), Ghost(state@));
                            proof {
                                if cv2 is Rational {
                                    let y = cv2->Rational_0;
                                    let sq = sv->Rational_0;
                                    assert(1int * y.den() + y.num() * 1 == 0) by (nonlinear_arith)
                                        requires
                                            sq.num() * (1int * y.den()) == (1int * y.den()
                                                + y.num() * 1) * sq.den(),
                                            sq.num() == 0,
                                            sq.den() >= 1,
                                            y.den() >= 1,
                                    ;
                                }
                            }
                        } else if s.is_one() {
                            let base = b2.duplicate();
                            *self = base;
                            proof {
                                if cv2 is Rational {
                                    let y = cv2->Rational_0;
                                    let sq = sv->Rational_0;
                                    assert(1int * y.den() + y.num() * 1 == 1int * y.den())
                                        by (nonlinear_arith)
                                        requires
                                            sq.num() * (1int * y.den()) == (1int * y.den()
                                                + y.num() * 1) * sq.den(),
                                            sq.num() == 1,
                                            sq.den() == 1,
                                    ;
                                }
                            }
                        } else {
                            proof {
                                if cv2 is Rational {
                                    lemma_sum_not_collapsed(sv, cv1, cv2);
                                }
                            }
                            let exp = make_num(s, Ghost(state@));
                            *self = make_pow(b2.duplicate(), exp, Ghost(state@));
                        }
                        Ok(true)
                    },
                    _ => {
                        let one_atom = make_num(Coefficient::one(), Ghost(state@));
                        let sum = match crate::normalize::add_two_normalized(one_atom,
                            e2.duplicate(), state) {
                            Ok(s) => s,
                            Err(e) => {
                                return Err(e);
                            },
                        };
                        *self = make_pow(b2.duplicate(), sum, Ghost(state@));
                        Ok(true)
                    },
                }
            },
            (Atom::Num(_, c1), Atom::Num(_, c2)) => {
                let p = match c1.mul(c2, state) {
                    Ok(p) => p,
                    Err(e) => {
                        return Err(e);
                    },
                };
                *self = Atom::Num(false, p);
                Ok(true)
            },
            (Atom::Num(_, _), _) => Ok(false),
            (_, Atom::Num(_, _)) => Ok(false),
            _ => {
                if eq_atoms(&*self, other) {
                    let ghost ov = self@;
                    let is_imaginary = match &*self {
                        Atom::Var(v) => *v == SYMBOL_I,
                        _ => false,
                    };
                    if is_imaginary {
                        *self = Atom::Num(false, Coefficient::Rational(Rational::Natural(-1i64,
                            1)));
                        proof {
                            crate::rational::lemma_int_canon(-1i64);
                            assert(self@ == AtomV::Num(false, CoefficientV::Rational(
                                RationalV::Natural(-1i64, 1))));
                            assert(self@.norm_elem(state@));
                        }
                    } else {
                        let part = self.duplicate();
                        let two = Atom::Num(false, coeff_two());
                        let ghost tv = two@;
                        *self = Atom::Pow(false, Box::new(part), Box::new(two));
                        proof {
                            assert(self@ == AtomV::Pow(false, Box::new(ov), Box::new(tv)));
                            assert(tv.norm_elem(state@));
                            assert(self@.clean() == (!self@.dirty() && ov.clean() && tv.clean()));
                            assert(self@.coeffs_canon() == (ov.coeffs_canon()
                                && tv.coeffs_canon()));
                            assert(self@.valid_for(state@) == (ov.valid_for(state@)
                                && tv.valid_for(state@)));
                        }
                    }
                    Ok(true)
                } else {
                    Ok(false)
                }
            },
        }
    }
}

/// Copies the leading `n` elements of a normalized factor list.
fn prefix_atoms(ts: &Vec<Atom>, n: usize, Ghost(st): Ghost<crate::state::StateV>) -> (r: Vec<Atom>)
    requires
        n <= ts@.len(),
        all_norm(view_seq(ts@), st),
    ensures
        view_seq(r@) == view_seq(ts@).subrange(0, n as int),
        all_norm(view_seq(r@), st),
        r@.len() == n,
{
    proof {
        lemma_view_seq_len(ts@);
    }
    let mut r: Vec<Atom> = Vec::new();
    let mut i: usize = 0;
    while i < n
        invariant
            i <= n,
            n <= ts@.len(),
            view_seq(ts@).len() == ts@.len(),
            all_norm(view_seq(ts@), st),
            r@.len() == i,
            view_seq(r@) =~= view_seq(ts@).subrange(0, i as int),
            all_norm(view_seq(r@), st),
        decreases n - i,
    {
        proof {
            lemma_view_seq_index(ts@, i as int);
            lemma_all_norm_index(view_seq(ts@), st, i as int);
        }
        let a = ts[i].duplicate();
        proof {
            lemma_view_seq_push(r@, a);
            lemma_all_norm_push(view_seq(r@), st, a@);
        }
        r.push(a);
        proof {
            assert(view_seq(r@) =~= view_seq(ts@).subrange(0, i + 1));
        }
        i = i + 1;
    }
    r
}

} // verus!
