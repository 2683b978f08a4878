use vstd::prelude::*;

verus! {

use crate::atom::AtomV;
use crate::state::StateV;

/// What the normalizer's contract grants about a result `r` for an input
/// `e`: the result is fully normalized, and an input that was already clean
/// passes through unchanged.
pub open spec fn is_normal_result(e: AtomV, r: AtomV, st: StateV) -> bool {
    r.norm_elem(st) && (!e.dirty() ==> r == e)
}

/// A clean tree's own dirty flag is clear.
pub proof fn lemma_clean_not_dirty(a: AtomV)
    requires
        a.clean(),
    ensures
        !a.dirty(),
{
    match a {
        AtomV::Num(d, c) => {
            assert(a.clean() == !d);
        },
        AtomV::Var(_) => {},
        AtomV::Pow(d, b, e) => {
            assert(a.clean() == (!d && b.clean() && e.clean()));
        },
        AtomV::Mul(d, ts) => {
            assert(a.clean() == (!d && crate::atom::all_clean(ts)));
        },
        AtomV::Add(d, ts) => {
            assert(a.clean() == (!d && crate::atom::all_clean(ts)));
        },
        AtomV::Fun(d, f, ts) => {
            assert(a.clean() == (!d && crate::atom::all_clean(ts)));
        },
    }
}

/// Idempotence of normalization: a result that meets the normalizer's
/// contract is clean, so handing it back to the normalizer reproduces it
/// exactly — normalizing twice equals normalizing once, structurally.
pub proof fn lemma_normalize_idempotent(e: AtomV, r1: AtomV, r2: AtomV, st: StateV)
    requires
        is_normal_result(e, r1, st),
        is_normal_result(r1, r2, st),
    ensures
        r2 == r1,
{
    lemma_clean_not_dirty(r1);
}

/// A normalized result is itself ready to be handed back to the normalizer.
pub proof fn lemma_norm_elem_ready(a: AtomV, st: StateV)
    requires
        a.norm_elem(st),
    ensures
        a.ready(st),
    decreases a, 0int,
{
    lemma_clean_not_dirty(a);
    match a {
        AtomV::Num(d, c) => {
            assert(a.coeffs_canon() == c.canon());
            assert(a.valid_for(st) == c.valid_for(st));
            assert(a.ready(st) == ((!a.dirty() ==> a.norm_elem(st)) && match c {
                crate::coefficient::CoefficientV::Rational(q) => q.wf(),
                crate::coefficient::CoefficientV::FiniteField(_, idx) => idx < st.primes.len(),
                crate::coefficient::CoefficientV::RationalPolynomial(p) => p.wf(),
            }));
        },
        AtomV::Var(_) => {
            assert(a.ready(st) == ((!a.dirty() ==> a.norm_elem(st)) && true));
        },
        AtomV::Pow(d, b, e) => {
            assert(a.clean() == (!d && b.clean() && e.clean()));
            assert(a.coeffs_canon() == (b.coeffs_canon() && e.coeffs_canon()));
            assert(a.valid_for(st) == (b.valid_for(st) && e.valid_for(st)));
            lemma_norm_elem_ready(*b, st);
            lemma_norm_elem_ready(*e, st);
            assert(a.ready(st) == ((!a.dirty() ==> a.norm_elem(st)) && ((*b).ready(st)
                && (*e).ready(st))));
        },
        AtomV::Mul(d, ts) => {
            assert(a.clean() == (!d && crate::atom::all_clean(ts)));
            assert(a.coeffs_canon() == crate::atom::all_coeffs_canon(ts));
            assert(a.valid_for(st) == crate::atom::all_valid_for(ts, st));
            lemma_all_norm_parts_ready(ts, st);
            assert(a.ready(st) == ((!a.dirty() ==> a.norm_elem(st)) && crate::atom::all_ready(ts,
                st)));
        },
        AtomV::Add(d, ts) => {
            assert(a.clean() == (!d && crate::atom::all_clean(ts)));
            assert(a.coeffs_canon() == crate::atom::all_coeffs_canon(ts));
            assert(a.valid_for(st) == crate::atom::all_valid_for(ts, st));
            lemma_all_norm_parts_ready(ts, st);
            assert(a.ready(st) == ((!a.dirty() ==> a.norm_elem(st)) && crate::atom::all_ready(ts,
                st)));
        },
        AtomV::Fun(d, f, ts) => {
            assert(a.clean() == (!d && crate::atom::all_clean(ts)));
            assert(a.coeffs_canon() == crate::atom::all_coeffs_canon(ts));
            assert(a.valid_for(st) == crate::atom::all_valid_for(ts, st));
            lemma_all_norm_parts_ready(ts, st);
            assert(a.ready(st) == ((!a.dirty() ==> a.norm_elem(st)) && crate::atom::all_ready(ts,
                st)));
        },
    }
}

/// List form of the readiness of normalized trees.
pub proof fn lemma_all_norm_parts_ready(ts: Seq<AtomV>, st: StateV)
    requires
        crate::atom::all_clean(ts),
        crate::atom::all_coeffs_canon(ts),
        crate::atom::all_valid_for(ts, st),
    ensures
        crate::atom::all_ready(ts, st),
    decreases ts, 1int,
{
    assert(crate::atom::all_clean(ts) == if ts.len() == 0 {
        true
    } else {
        ts[0].clean() && crate::atom::all_clean(ts.skip(1))
    });
    assert(crate::atom::all_coeffs_canon(ts) == if ts.len() == 0 {
        true
    } else {
        ts[0].coeffs_canon() && crate::atom::all_coeffs_canon(ts.skip(1))
    });
    assert(crate::atom::all_valid_for(ts, st) == if ts.len() == 0 {
        true
    } else {
        ts[0].valid_for(st) && crate::atom::all_valid_for(ts.skip(1), st)
    });
    if ts.len() > 0 {
        lemma_norm_elem_ready(ts[0], st);
        lemma_all_norm_parts_ready(ts.skip(1), st);
    }
    assert(crate::atom::all_ready(ts, st) == if ts.len() == 0 {
        true
    } else {
        ts[0].ready(st) && crate::atom::all_ready(ts.skip(1), st)
    });
}

} // verus!
