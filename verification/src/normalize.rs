use vstd::prelude::*;

verus! {

use crate::atom::{
    Atom,
    AtomV,
    view_seq,
    lemma_view_seq_len,
    lemma_view_seq_index,
    lemma_view_seq_push,
    all_norm,
    lemma_all_norm_index,
    lemma_all_norm_push,
    lemma_all_norm_via_parts,
    lemma_mul_norm_from_parts,
    lemma_add_norm_from_parts,
};
use crate::coefficient::{Coefficient, CoefficientV};
use crate::rational::{Rational, RationalV};
use crate::state::{State, StateV};
use crate::error::NormalizeError;

/// Pushes a normalized element, keeping the list all-normalized.
pub(crate) fn push_norm(v: &mut Vec<Atom>, a: Atom, Ghost(st): Ghost<StateV>)
    requires
        all_norm(view_seq(old(v)@), st),
        a@.norm_elem(st),
    ensures
        view_seq(final(v)@) == view_seq(old(v)@).push(a@),
        all_norm(view_seq(final(v)@), st),
        final(v)@.len() == old(v)@.len() + 1,
{
    let ghost before = view_seq(v@);
    proof {
        lemma_view_seq_push(v@, a);
        lemma_all_norm_push(before, st, a@);
        lemma_view_seq_len(v@);
        lemma_view_seq_len(v@.push(a));
    }
    v.push(a);
    proof {
        assert(view_seq(v@) =~= before.push(a@));
    }
}

/// Stable insertion sort of a factor list by the factor order.
fn sort_by_factor_order(v: &Vec<Atom>, state: &State) -> (r: Result<Vec<Atom>, NormalizeError>)
    requires
        all_norm(view_seq(v@), state@),
    ensures
        r matches Ok(s) ==> all_norm(view_seq(s@), state@),
{
    proof {
        lemma_view_seq_len(v@);
    }
    let n = v.len();
    let mut out: Vec<Atom> = Vec::new();
    let mut i: usize = 0;
    while i < n
        invariant
            i <= n,
            n == v@.len(),
            view_seq(v@).len() == n,
            all_norm(view_seq(v@), state@),
            all_norm(view_seq(out@), state@),
        decreases n - i,
    {
        proof {
            lemma_view_seq_index(v@, i as int);
            lemma_all_norm_index(view_seq(v@), state@, i as int);
            lemma_view_seq_len(out@);
        }
        let a = v[i].duplicate();
        let m = out.len();
        let mut j: usize = 0;
        while j < m
            invariant
                j <= m,
                m == out@.len(),
                view_seq(out@).len() == m,
                all_norm(view_seq(out@), state@),
                a@.norm_elem(state@),
            decreases m - j,
        {
            proof {
                lemma_view_seq_index(out@, j as int);
                lemma_all_norm_index(view_seq(out@), state@, j as int);
            }
            let c = match a.cmp_factors(&out[j]) {
                Ok(c) => c,
                Err(e) => {
                    return Err(e);
                },
            };
            match c {
                core::cmp::Ordering::Less => {
                    break ;
                },
                _ => {
                    j = j + 1;
                },
            }
        }
        let mut res: Vec<Atom> = Vec::new();
        let mut k: usize = 0;
        while k < j
            invariant
                k <= j,
                j <= m,
                m == out@.len(),
                view_seq(out@).len() == m,
                all_norm(view_seq(out@), state@),
                all_norm(view_seq(res@), state@),
                a@.norm_elem(state@),
            decreases j - k,
        {
            proof {
                lemma_view_seq_index(out@, k as int);
                lemma_all_norm_index(view_seq(out@), state@, k as int);
            }
            push_norm(&mut res, out[k].duplicate(), Ghost(state@));
            k = k + 1;
        }
        push_norm(&mut res, a, Ghost(state@));
        let mut k2: usize = j;
        while k2 < m
            invariant
                j <= k2 <= m,
                m == out@.len(),
                view_seq(out@).len() == m,
                all_norm(view_seq(out@), state@),
                all_norm(view_seq(res@), state@),
            decreases m - k2,
        {
            proof {
                lemma_view_seq_index(out@, k2 as int);
                lemma_all_norm_index(view_seq(out@), state@, k2 as int);
            }
            push_norm(&mut res, out[k2].duplicate(), Ghost(state@));
            k2 = k2 + 1;
        }
        out = res;
        i = i + 1;
    }
    Ok(out)
}

/// Stable insertion sort of a term list by the term order.
fn sort_by_term_order(v: &Vec<Atom>, state: &State) -> (r: Result<Vec<Atom>, NormalizeError>)
    requires
        all_norm(view_seq(v@), state@),
    ensures
        r matches Ok(s) ==> all_norm(view_seq(s@), state@),
{
    proof {
        lemma_view_seq_len(v@);
    }
    let n = v.len();
    let mut out: Vec<Atom> = Vec::new();
    let mut i: usize = 0;
    while i < n
        invariant
            i <= n,
            n == v@.len(),
            view_seq(v@).len() == n,
            all_norm(view_seq(v@), state@),
            all_norm(view_seq(out@), state@),
        decreases n - i,
    {
        proof {
            lemma_view_seq_index(v@, i as int);
            lemma_all_norm_index(view_seq(v@), state@, i as int);
            lemma_view_seq_len(out@);
        }
        let a = v[i].duplicate();
        let m = out.len();
        let mut j: usize = 0;
        while j < m
            invariant
                j <= m,
                m == out@.len(),
                view_seq(out@).len() == m,
                all_norm(view_seq(out@), state@),
                a@.norm_elem(state@),
            decreases m - j,
        {
            proof {
                lemma_view_seq_index(out@, j as int);
                lemma_all_norm_index(view_seq(out@), state@, j as int);
            }
            let c = match a.cmp_terms(&out[j]) {
                Ok(c) => c,
                Err(e) => {
                    return Err(e);
                },
            };
            match c {
                core::cmp::Ordering::Less => {
                    break ;
                },
                _ => {
                    j = j + 1;
                },
            }
        }
        let mut res: Vec<Atom> = Vec::new();
        let mut k: usize = 0;
        while k < j
            invariant
                k <= j,
                j <= m,
                m == out@.len(),
                view_seq(out@).len() == m,
                all_norm(view_seq(out@), state@),
                all_norm(view_seq(res@), state@),
                a@.norm_elem(state@),
            decreases j - k,
        {
            proof {
                lemma_view_seq_index(out@, k as int);
                lemma_all_norm_index(view_seq(out@), state@, k as int);
            }
            push_norm(&mut res, out[k].duplicate(), Ghost(state@));
            k = k + 1;
        }
        push_norm(&mut res, a, Ghost(state@));
        let mut k2: usize = j;
        while k2 < m
            invariant
                j <= k2 <= m,
                m == out@.len(),
                view_seq(out@).len() == m,
                all_norm(view_seq(out@), state@),
                all_norm(view_seq(res@), state@),
            decreases m - k2,
        {
            proof {
                lemma_view_seq_index(out@, k2 as int);
                lemma_all_norm_index(view_seq(out@), state@, k2 as int);
            }
            push_norm(&mut res, out[k2].duplicate(), Ghost(state@));
            k2 = k2 + 1;
        }
        out = res;
        i = i + 1;
    }
    Ok(out)
}

/// Whether a normalized atom is a number equal to zero.
fn is_zero_num(a: &Atom, Ghost(st): Ghost<StateV>) -> (r: bool)
    requires
        a@.norm_elem(st),
    ensures
        r == (a@ matches AtomV::Num(_, c) && c.is_zero_spec()),
{
    match a {
        Atom::Num(_, c) => {
            proof {
                assert(a@.coeffs_canon() == c@.canon());
            }
            c.is_zero()
        },
        _ => false,
    }
}

/// Whether a normalized atom is the number one.
fn is_one_num(a: &Atom) -> (r: bool)
    ensures
        r == (a@ matches AtomV::Num(_, c) && c.is_one_spec()),
{
    match a {
        Atom::Num(_, c) => c.is_one(),
        _ => false,
    }
}

/// Merges a sorted term list left to right, dropping vanished terms, and
/// assembles the canonical sum: empty becomes zero, a single term sheds the
/// sum wrapper.
fn scan_and_build_sum(sorted: Vec<Atom>, state: &State) -> (r: Result<Atom, NormalizeError>)
    requires
        all_norm(view_seq(sorted@), state@),
        state@.wf(),
    ensures
        r matches Ok(a) ==> a@.norm_elem(state@),
{
    proof {
        lemma_view_seq_len(sorted@);
    }
    let n = sorted.len();
    if n == 0 {
        return Ok(Atom::Num(false, Coefficient::zero()));
    }
    proof {
        lemma_view_seq_index(sorted@, 0);
        lemma_all_norm_index(view_seq(sorted@), state@, 0);
    }
    let mut out: Vec<Atom> = Vec::new();
    let mut last = sorted[0].duplicate();
    let mut i: usize = 1;
    while i < n
        invariant
            1 <= i <= n,
            n == sorted@.len(),
            view_seq(sorted@).len() == n,
            all_norm(view_seq(sorted@), state@),
            all_norm(view_seq(out@), state@),
            last@.norm_elem(state@),
            state@.wf(),
        decreases n - i,
    {
        proof {
            lemma_view_seq_index(sorted@, i as int);
            lemma_all_norm_index(view_seq(sorted@), state@, i as int);
        }
        let cur = sorted[i].duplicate();
        let merged = match last.merge_terms(&cur, state) {
            Ok(m) => m,
            Err(e) => {
                return Err(e);
            },
        };
        if !merged {
            if !is_zero_num(&last, Ghost(state@)) {
                push_norm(&mut out, last, Ghost(state@));
            }
            last = cur;
        }
        i = i + 1;
    }
    if out.len() == 0 {
        return Ok(last);
    }
    if !is_zero_num(&last, Ghost(state@)) {
        push_norm(&mut out, last, Ghost(state@));
    }
    proof {
        lemma_view_seq_len(out@);
    }
    if out.len() == 1 {
        proof {
            lemma_view_seq_index(out@, 0);
            lemma_all_norm_index(view_seq(out@), state@, 0);
        }
        let single = out[0].duplicate();
        return Ok(single);
    }
    proof {
        lemma_add_norm_from_parts(view_seq(out@), state@);
    }
    Ok(Atom::Add(false, out))
}

/// Merges a sorted factor list left to right; a number surfacing mid-scan is
/// folded into the trailing coefficient. Assembles the canonical product:
/// empty becomes one, a single factor sheds the product wrapper, a
/// coefficient other than one comes last.
fn scan_and_build_product(sorted: Vec<Atom>, state: &State) -> (r: Result<Atom, NormalizeError>)
    requires
        all_norm(view_seq(sorted@), state@),
        state@.wf(),
    ensures
        r matches Ok(a) ==> a@.norm_elem(state@),
{
    proof {
        lemma_view_seq_len(sorted@);
    }
    let n = sorted.len();
    if n == 0 {
        return Ok(Atom::Num(false, Coefficient::one()));
    }
    proof {
        lemma_view_seq_index(sorted@, 0);
        lemma_all_norm_index(view_seq(sorted@), state@, 0);
    }
    let mut out: Vec<Atom> = Vec::new();
    let mut last = sorted[0].duplicate();
    let mut extra: Option<Coefficient> = None;
    let mut i: usize = 1;
    while i < n
        invariant
            1 <= i <= n,
            n == sorted@.len(),
            view_seq(sorted@).len() == n,
            all_norm(view_seq(sorted@), state@),
            all_norm(view_seq(out@), state@),
            last@.norm_elem(state@),
            extra matches Some(c) ==> c@.canon() && c@.valid_for(state@),
            state@.wf(),
        decreases n - i,
    {
        proof {
            lemma_view_seq_index(sorted@, i as int);
            lemma_all_norm_index(view_seq(sorted@), state@, i as int);
        }
        let cur = sorted[i].duplicate();
        let merged = match last.merge_factors(&cur, state) {
            Ok(m) => m,
            Err(e) => {
                return Err(e);
            },
        };
        if !merged {
            let mut surfaced: Option<Coefficient> = None;
            match &last {
                Atom::Num(_, c) => {
                    proof {
                        assert(last@.coeffs_canon() == c@.canon());
                    }
                    if !c.is_one() {
                        surfaced = Some(c.duplicate());
                    }
                },
                _ => {},
            }
            match &last {
                Atom::Num(_, _) => {
                    match surfaced {
                        Some(c) => {
                            match extra {
                                Some(e0) => {
                                    let prod = match e0.mul(&c, state) {
                                        Ok(p) => p,
                                        Err(er) => {
                                            return Err(er);
                                        },
                                    };
                                    extra = Some(prod);
                                },
                                None => {
                                    extra = Some(c);
                                },
                            }
                        },
                        None => {},
                    }
                },
                _ => {
                    push_norm(&mut out, last, Ghost(state@));
                },
            }
            last = cur;
        }
        i = i + 1;
    }
    // fold the last element and the surfaced coefficient together
    let mut total: Option<Coefficient> = extra;
    match &last {
        Atom::Num(_, c) => {
            proof {
                assert(last@.coeffs_canon() == c@.canon());
            }
            match total {
                Some(e0) => {
                    let prod = match e0.mul(c, state) {
                        Ok(p) => p,
                        Err(er) => {
                            return Err(er);
                        },
                    };
                    total = Some(prod);
                },
                None => {
                    total = Some(c.duplicate());
                },
            }
        },
        _ => {
            push_norm(&mut out, last, Ghost(state@));
        },
    }
    match total {
        Some(t) => {
            if !t.is_one() {
                push_norm(&mut out, Atom::Num(false, t), Ghost(state@));
            }
        },
        None => {},
    }
    proof {
        lemma_view_seq_len(out@);
    }
    if out.len() == 0 {
        return Ok(Atom::Num(false, Coefficient::one()));
    }
    if out.len() == 1 {
        proof {
            lemma_view_seq_index(out@, 0);
            lemma_all_norm_index(view_seq(out@), state@, 0);
        }
        let single = out[0].duplicate();
        return Ok(single);
    }
    proof {
        lemma_mul_norm_from_parts(view_seq(out@), state@);
    }
    Ok(Atom::Mul(false, out))
}

/// Canonicalizes a sum given its normalized terms: flattens nested sums,
/// drops zeros, sorts by the term order and merges equal shapes.
pub(crate) fn normalize_add_parts(terms: Vec<Atom>, state: &State) -> (r: Result<
    Atom,
    NormalizeError,
>)
    requires
        all_norm(view_seq(terms@), state@),
        state@.wf(),
    ensures
        r matches Ok(a) ==> a@.norm_elem(state@),
        terms@.len() == 0 ==> (r matches Ok(a) && a@ == AtomV::Num(false,
            CoefficientV::Rational(RationalV::Natural(0, 1)))),
        view_seq(terms@).len() == 1 && !(view_seq(terms@)[0] is Add) && !(view_seq(
            terms@)[0] is Num) ==> (r matches Ok(a) && a@ == view_seq(terms@)[0]),
{
    proof {
        lemma_view_seq_len(terms@);
    }
    if terms.len() == 0 {
        return Ok(Atom::Num(false, Coefficient::zero()));
    }
    if terms.len() == 1 {
        proof {
            lemma_view_seq_index(terms@, 0);
            lemma_all_norm_index(view_seq(terms@), state@, 0);
        }
        let bare_single = match &terms[0] {
            Atom::Add(_, _) => false,
            Atom::Num(_, _) => false,
            _ => true,
        };
        if bare_single {
            let single = terms[0].duplicate();
            return Ok(single);
        }
    }
    let n = terms.len();
    let mut flat: Vec<Atom> = Vec::new();
    let mut i: usize = 0;
    while i < n
        invariant
            i <= n,
            n == terms@.len(),
            view_seq(terms@).len() == n,
            all_norm(view_seq(terms@), state@),
            all_norm(view_seq(flat@), state@),
            state@.wf(),
        decreases n - i,
    {
        proof {
            lemma_view_seq_index(terms@, i as int);
            lemma_all_norm_index(view_seq(terms@), state@, i as int);
        }
        match &terms[i] {
            Atom::Add(_, inner) => {
                proof {
                    lemma_view_seq_len(inner@);
                    lemma_all_norm_via_parts(view_seq(inner@), state@, terms@[i as int]@);
                }
                let m = inner.len();
                let mut k: usize = 0;
                while k < m
                    invariant
                        k <= m,
                        m == inner@.len(),
                        view_seq(inner@).len() == m,
                        all_norm(view_seq(inner@), state@),
                        all_norm(view_seq(flat@), state@),
                        state@.wf(),
                        terms@.len() >= 1,
                        view_seq(terms@).len() == 1 ==> (view_seq(terms@)[0] is Add || view_seq(
                            terms@)[0] is Num),
                    decreases m - k,
                {
                    proof {
                        lemma_view_seq_index(inner@, k as int);
                        lemma_all_norm_index(view_seq(inner@), state@, k as int);
                    }
                    if !is_zero_num(&inner[k], Ghost(state@)) {
                        push_norm(&mut flat, inner[k].duplicate(), Ghost(state@));
                    }
                    k = k + 1;
                }
            },
            _ => {
                if !is_zero_num(&terms[i], Ghost(state@)) {
                    push_norm(&mut flat, terms[i].duplicate(), Ghost(state@));
                }
            },
        }
        i = i + 1;
    }
    let sorted = match sort_by_term_order(&flat, state) {
        Ok(s) => s,
        Err(e) => {
            return Err(e);
        },
    };
    scan_and_build_sum(sorted, state)
}

/// Canonicalizes a product given its normalized factors: flattens nested
/// products, short-circuits on zero, drops ones, sorts by the factor order
/// and merges equal bases.
pub(crate) fn normalize_mul_parts(factors: Vec<Atom>, state: &State) -> (r: Result<
    Atom,
    NormalizeError,
>)
    requires
        all_norm(view_seq(factors@), state@),
        state@.wf(),
    ensures
        r matches Ok(a) ==> a@.norm_elem(state@),
        factors@.len() == 0 ==> (r matches Ok(a) && a@ == AtomV::Num(false,
            CoefficientV::Rational(RationalV::Natural(1, 1)))),
        view_seq(factors@).len() == 1 && !(view_seq(factors@)[0] is Mul) && !(view_seq(
            factors@)[0] is Num) ==> (r matches Ok(a) && a@ == view_seq(factors@)[0]),
{
    proof {
        lemma_view_seq_len(factors@);
    }
    if factors.len() == 0 {
        return Ok(Atom::Num(false, Coefficient::one()));
    }
    if factors.len() == 1 {
        proof {
            lemma_view_seq_index(factors@, 0);
            lemma_all_norm_index(view_seq(factors@), state@, 0);
        }
        let bare_single = match &factors[0] {
            Atom::Mul(_, _) => false,
            Atom::Num(_, _) => false,
            _ => true,
        };
        if bare_single {
            let single = factors[0].duplicate();
            return Ok(single);
        }
    }
    let n = factors.len();
    let mut flat: Vec<Atom> = Vec::new();
    let mut i: usize = 0;
    while i < n
        invariant
            i <= n,
            n == factors@.len(),
            view_seq(factors@).len() == n,
            all_norm(view_seq(factors@), state@),
            all_norm(view_seq(flat@), state@),
            state@.wf(),
        decreases n - i,
    {
        proof {
            lemma_view_seq_index(factors@, i as int);
            lemma_all_norm_index(view_seq(factors@), state@, i as int);
        }
        match &factors[i] {
            Atom::Mul(_, inner) => {
                proof {
                    lemma_view_seq_len(inner@);
                    lemma_all_norm_via_parts(view_seq(inner@), state@, factors@[i as int]@);
                }
                let m = inner.len();
                let mut k: usize = 0;
                while k < m
                    invariant
                        k <= m,
                        m == inner@.len(),
                        view_seq(inner@).len() == m,
                        all_norm(view_seq(inner@), state@),
                        all_norm(view_seq(flat@), state@),
                        state@.wf(),
                        factors@.len() >= 1,
                        view_seq(factors@).len() == 1 ==> (view_seq(factors@)[0] is Mul
                            || view_seq(factors@)[0] is Num),
                    decreases m - k,
                {
                    proof {
                        lemma_view_seq_index(inner@, k as int);
                        lemma_all_norm_index(view_seq(inner@), state@, k as int);
                    }
                    if is_zero_num(&inner[k], Ghost(state@)) {
                        return Ok(Atom::Num(false, Coefficient::zero()));
                    }
                    if !is_one_num(&inner[k]) {
                        push_norm(&mut flat, inner[k].duplicate(), Ghost(state@));
                    }
                    k = k + 1;
                }
            },
            _ => {
                if is_zero_num(&factors[i], Ghost(state@)) {
                    return Ok(Atom::Num(false, Coefficient::zero()));
                }
                if !is_one_num(&factors[i]) {
                    push_norm(&mut flat, factors[i].duplicate(), Ghost(state@));
                }
            },
        }
        i = i + 1;
    }
    let sorted = match sort_by_factor_order(&flat, state) {
        Ok(s) => s,
        Err(e) => {
            return Err(e);
        },
    };
    scan_and_build_product(sorted, state)
}

/// The canonical sum of two normalized expressions.
pub(crate) fn add_two_normalized(a: Atom, b: Atom, state: &State) -> (r: Result<
    Atom,
    NormalizeError,
>)
    requires
        a@.norm_elem(state@),
        b@.norm_elem(state@),
        state@.wf(),
    ensures
        r matches Ok(x) ==> x@.norm_elem(state@),
{
    let ghost av = a@;
    let ghost bv = b@;
    let mut terms: Vec<Atom> = Vec::new();
    proof {
        assert(all_norm(view_seq(terms@), state@));
    }
    push_norm(&mut terms, a, Ghost(state@));
    push_norm(&mut terms, b, Ghost(state@));
    normalize_add_parts(terms, state)
}

/// A canonical function node over normalized arguments.
fn make_fun(name: u64, args: Vec<Atom>, Ghost(st): Ghost<StateV>) -> (r: Atom)
    requires
        all_norm(view_seq(args@), st),
    ensures
        r@ == AtomV::Fun(false, name, view_seq(args@)),
        r@.norm_elem(st),
{
    proof {
        crate::atom::lemma_fun_norm_from_parts(name, view_seq(args@), st);
    }
    Atom::Fun(false, name, args)
}

/// Sorts arguments by the structural order, counting whether the permutation
/// used an odd number of transpositions.
fn bubble_sort_args(v: Vec<Atom>, state: &State) -> (r: Result<(Vec<Atom>, bool), NormalizeError>)
    requires
        all_norm(view_seq(v@), state@),
    ensures
        r matches Ok(p) ==> all_norm(view_seq(p.0@), state@),
{
    let mut v = v;
    let n = v.len();
    let mut odd = false;
    let mut pass: usize = 0;
    while pass < n
        invariant
            v@.len() == n,
            all_norm(view_seq(v@), state@),
        decreases n - pass,
    {
        let mut j: usize = 0;
        while n - j > 1
            invariant
                j <= n,
                v@.len() == n,
                all_norm(view_seq(v@), state@),
            decreases n - j,
        {
            proof {
                lemma_view_seq_len(v@);
                lemma_view_seq_index(v@, j as int);
                lemma_view_seq_index(v@, j as int + 1);
                lemma_all_norm_index(view_seq(v@), state@, j as int);
                lemma_all_norm_index(view_seq(v@), state@, j as int + 1);
            }
            let c = match v[j].cmp(&v[j + 1]) {
                Ok(c) => c,
                Err(e) => {
                    return Err(e);
                },
            };
            match c {
                core::cmp::Ordering::Greater => {
                    let a = v[j].duplicate();
                    let b = v[j + 1].duplicate();
                    // rebuild with the two neighbours exchanged
                    let mut res: Vec<Atom> = Vec::new();
                    let mut k: usize = 0;
                    while k < n
                        invariant
                            k <= n,
                            v@.len() == n,
                            view_seq(v@).len() == n,
                            all_norm(view_seq(v@), state@),
                            all_norm(view_seq(res@), state@),
                            res@.len() == k,
                            j + 1 < n,
                            a@.norm_elem(state@),
                            b@.norm_elem(state@),
                        decreases n - k,
                    {
                        proof {
                            lemma_view_seq_index(v@, k as int);
                            lemma_all_norm_index(view_seq(v@), state@, k as int);
                        }
                        if k == j {
                            push_norm(&mut res, b.duplicate(), Ghost(state@));
                        } else if k == j + 1 {
                            push_norm(&mut res, a.duplicate(), Ghost(state@));
                        } else {
                            push_norm(&mut res, v[k].duplicate(), Ghost(state@));
                        }
                        k = k + 1;
                    }
                    v = res;
                    odd = !odd;
                },
                _ => {},
            }
            j = j + 1;
        }
        pass = pass + 1;
    }
    Ok((v, odd))
}

/// Canonicalizes one function application whose arguments hold no sums:
/// under Linear, numeric coefficients are stripped out of product arguments
/// and collected; under Symmetric or Antisymmetric the arguments are sorted,
/// an Antisymmetric application with two equal arguments collapses to zero
/// and an odd sorting permutation negates the result.
fn normalize_fun_no_sums(name: u64, args: Vec<Atom>, state: &State) -> (r: Result<
    Atom,
    NormalizeError,
>)
    requires
        all_norm(view_seq(args@), state@),
        state@.wf(),
    ensures
        r matches Ok(a) ==> a@.norm_elem(state@),
        args@.len() == 0 && !state@.props_of(name).is_linear && !state@.props_of(
            name).is_symmetric && !state@.props_of(name).is_antisymmetric ==> (r matches Ok(a)
            && a@ == AtomV::Fun(false, name, Seq::empty())),
{
    proof {
        lemma_view_seq_len(args@);
        assert(view_seq(args@).len() == args@.len());
    }
    let props = state.get_function_properties(name);
    if args.len() == 0 && !props.is_linear && !props.is_symmetric && !props.is_antisymmetric {
        let empty_args: Vec<Atom> = Vec::new();
        proof {
            assert(view_seq(empty_args@) =~= Seq::<AtomV>::empty());
            assert(all_norm(view_seq(empty_args@), state@));
        }
        let out = make_fun(name, empty_args, Ghost(state@));
        return Ok(out);
    }
    let mut coeff = Coefficient::one();
    let mut fargs: Vec<Atom> = Vec::new();
    let n = args.len();
    let mut i: usize = 0;
    while i < n
        invariant
            i <= n,
            n == args@.len(),
            view_seq(args@).len() == n,
            all_norm(view_seq(args@), state@),
            all_norm(view_seq(fargs@), state@),
            coeff@.canon(),
            coeff@.valid_for(state@),
            state@.wf(),
            props.is_linear == state@.props_of(name).is_linear,
        decreases n - i,
    {
        proof {
            lemma_view_seq_index(args@, i as int);
            lemma_all_norm_index(view_seq(args@), state@, i as int);
        }
        let mut stripped = false;
        if props.is_linear {
            match &args[i] {
                Atom::Mul(_, fs) => {
                    if Atom::vec_has_coefficient(fs) {
                        proof {
                            lemma_view_seq_len(fs@);
                            crate::atom::lemma_all_norm_via_parts(view_seq(fs@), state@,
                                args@[i as int]@);
                        }
                        let m = fs.len();
                        let mut sub: Vec<Atom> = Vec::new();
                        let mut k: usize = 0;
                        while k < m
                            invariant
                                k <= m,
                                m == fs@.len(),
                                view_seq(fs@).len() == m,
                                all_norm(view_seq(fs@), state@),
                                all_norm(view_seq(sub@), state@),
                                coeff@.canon(),
                                coeff@.valid_for(state@),
                                state@.wf(),
                                args@.len() >= 1,
                            decreases m - k,
                        {
                            proof {
                                lemma_view_seq_index(fs@, k as int);
                                lemma_all_norm_index(view_seq(fs@), state@, k as int);
                            }
                            match &fs[k] {
                                Atom::Num(_, c) => {
                                    proof {
                                        assert(fs@[k as int]@.coeffs_canon() == c@.canon());
                                        assert(fs@[k as int]@.valid_for(state@) == c@.valid_for(
                                            state@));
                                    }
                                    let nc = match coeff.mul(c, state) {
                                        Ok(p) => p,
                                        Err(e) => {
                                            return Err(e);
                                        },
                                    };
                                    coeff = nc;
                                },
                                _ => {
                                    push_norm(&mut sub, fs[k].duplicate(), Ghost(state@));
                                },
                            }
                            k = k + 1;
                        }
                        proof {
                            lemma_view_seq_len(sub@);
                        }
                        if sub.len() == 1 {
                            proof {
                                lemma_view_seq_index(sub@, 0);
                                lemma_all_norm_index(view_seq(sub@), state@, 0);
                            }
                            let single = sub[0].duplicate();
                            push_norm(&mut fargs, single, Ghost(state@));
                        } else {
                            proof {
                                lemma_mul_norm_from_parts(view_seq(sub@), state@);
                            }
                            push_norm(&mut fargs, Atom::Mul(false, sub), Ghost(state@));
                        }
                        stripped = true;
                    }
                },
                _ => {},
            }
        }
        if !stripped {
            push_norm(&mut fargs, args[i].duplicate(), Ghost(state@));
        }
        i = i + 1;
    }
    let mut negate = false;
    let mut sorted_args = fargs;
    if props.is_symmetric || props.is_antisymmetric {
        let (sorted, odd) = match bubble_sort_args(sorted_args, state) {
            Ok(p) => p,
            Err(e) => {
                return Err(e);
            },
        };
        sorted_args = sorted;
        if props.is_antisymmetric {
            proof {
                lemma_view_seq_len(sorted_args@);
            }
            let sn = sorted_args.len();
            let mut w: usize = 0;
            while sn - w > 1
                invariant
                    w <= sn,
                    sn == sorted_args@.len(),
                    view_seq(sorted_args@).len() == sn,
                    state@.props_of(name).is_antisymmetric,
                decreases sn - w,
            {
                proof {
                    lemma_view_seq_index(sorted_args@, w as int);
                    lemma_view_seq_index(sorted_args@, w as int + 1);
                }
                if crate::atom::eq_atoms(&sorted_args[w], &sorted_args[w + 1]) {
                    return Ok(Atom::Num(false, Coefficient::zero()));
                }
                w = w + 1;
            }
            if odd {
                negate = true;
            }
        }
    }
    let fun_atom = make_fun(name, sorted_args, Ghost(state@));
    if negate {
        proof {
            crate::rational::lemma_int_canon(-1i64);
        }
        let minus_one = Coefficient::Rational(Rational::Natural(-1i64, 1));
        let nc = match coeff.mul(&minus_one, state) {
            Ok(p) => p,
            Err(e) => {
                return Err(e);
            },
        };
        coeff = nc;
    }
    if coeff.is_one() {
        return Ok(fun_atom);
    }
    let mut parts: Vec<Atom> = Vec::new();
    push_norm(&mut parts, fun_atom, Ghost(state@));
    push_norm(&mut parts, Atom::Num(false, coeff), Ghost(state@));
    normalize_mul_parts(parts, state)
}

/// Canonicalizes one function application over normalized arguments:
/// argument-list wrappers are spliced in, the coefficient wrapper over a
/// number unwraps to it, and a Linear function distributes over sums by the
/// Cartesian product of their terms.
pub(crate) fn normalize_fun_parts(name: u64, args: Vec<Atom>, state: &State) -> (r: Result<
    Atom,
    NormalizeError,
>)
    requires
        all_norm(view_seq(args@), state@),
        state@.wf(),
    ensures
        r matches Ok(a) ==> a@.norm_elem(state@),
        args@.len() == 0 && !state@.props_of(name).is_linear && !state@.props_of(
            name).is_symmetric && !state@.props_of(name).is_antisymmetric ==> (r matches Ok(a)
            && a@ == AtomV::Fun(false, name, Seq::empty())),
{
    proof {
        lemma_view_seq_len(args@);
    }
    // splice in argument-list wrappers
    let mut flat: Vec<Atom> = Vec::new();
    let n = args.len();
    let mut i: usize = 0;
    while i < n
        invariant
            i <= n,
            n == args@.len(),
            view_seq(args@).len() == n,
            all_norm(view_seq(args@), state@),
            all_norm(view_seq(flat@), state@),
            state@.wf(),
            n == 0 ==> view_seq(flat@).len() == 0,
        decreases n - i,
    {
        proof {
            lemma_view_seq_index(args@, i as int);
            lemma_all_norm_index(view_seq(args@), state@, i as int);
        }
        let mut spliced = false;
        match &args[i] {
            Atom::Fun(_, f2, inner) => {
                if *f2 == crate::state::SYMBOL_ARG {
                    proof {
                        lemma_view_seq_len(inner@);
                        crate::atom::lemma_all_norm_via_parts(view_seq(inner@), state@,
                            args@[i as int]@);
                    }
                    let m = inner.len();
                    let mut k: usize = 0;
                    while k < m
                        invariant
                            k <= m,
                            m == inner@.len(),
                            view_seq(inner@).len() == m,
                            all_norm(view_seq(inner@), state@),
                            all_norm(view_seq(flat@), state@),
                            state@.wf(),
                        decreases m - k,
                    {
                        proof {
                            lemma_view_seq_index(inner@, k as int);
                            lemma_all_norm_index(view_seq(inner@), state@, k as int);
                        }
                        push_norm(&mut flat, inner[k].duplicate(), Ghost(state@));
                        k = k + 1;
                    }
                    spliced = true;
                }
            },
            _ => {},
        }
        if !spliced {
            push_norm(&mut flat, args[i].duplicate(), Ghost(state@));
        }
        i = i + 1;
    }
    proof {
        lemma_view_seq_len(flat@);
    }
    // the coefficient wrapper over a single number unwraps to the number; any
    // other argument is converted into a polynomial-ratio coefficient when
    // its variables carry no wildcard marking
    if name == crate::state::SYMBOL_COEFF && flat.len() == 1 {
        proof {
            lemma_view_seq_index(flat@, 0);
            lemma_all_norm_index(view_seq(flat@), state@, 0);
        }
        let arg_is_num = match &flat[0] {
            Atom::Num(_, _) => true,
            _ => false,
        };
        if arg_is_num {
            let unwrapped = flat[0].duplicate();
            return Ok(unwrapped);
        }
        let mut vars: Vec<u64> = Vec::new();
        crate::convert::collect_variables(&flat[0], &mut vars);
        let mut all_plain = true;
        let vn = vars.len();
        let mut vi: usize = 0;
        while vi < vn
            invariant
                vi <= vn,
                vn == vars@.len(),
            decreases vn - vi,
        {
            if state.is_wildcard(vars[vi]) {
                all_plain = false;
            }
            vi = vi + 1;
        }
        if all_plain {
            match flat[0].to_rational_polynomial(&vars, state) {
                Ok(rp) => {
                    let c = crate::coefficient::downgrade(rp);
                    return Ok(Atom::Num(false, c));
                },
                Err(_) => {},
            }
        }
    }
    // a Linear function distributes over sums
    let props = state.get_function_properties(name);
    if props.is_linear {
        let mut any_sum = false;
        let fl = flat.len();
        let mut i2: usize = 0;
        while i2 < fl
            invariant
                i2 <= fl,
                fl == flat@.len(),
                any_sum ==> fl >= 1,
            decreases fl - i2,
        {
            match &flat[i2] {
                Atom::Add(_, _) => {
                    any_sum = true;
                },
                _ => {},
            }
            i2 = i2 + 1;
        }
        if any_sum {
            let mut combos: Vec<Vec<Atom>> = Vec::new();
            combos.push(Vec::new());
            proof {
                assert(combos@.len() == 1);
                assert(view_seq(combos@[0]@) =~= Seq::<AtomV>::empty());
                assert(forall|q: int|
                    0 <= q < combos@.len() ==> all_norm(view_seq(#[trigger] combos@[q]@),
                        state@));
            }
            let mut i3: usize = 0;
            while i3 < fl
                invariant
                    i3 <= fl,
                    fl == flat@.len(),
                    view_seq(flat@).len() == fl,
                    all_norm(view_seq(flat@), state@),
                    forall|q: int|
                        0 <= q < combos@.len() ==> all_norm(view_seq(#[trigger] combos@[q]@),
                            state@),
                    state@.wf(),
                    args@.len() >= 1,
                decreases fl - i3,
            {
                proof {
                    lemma_view_seq_index(flat@, i3 as int);
                    lemma_all_norm_index(view_seq(flat@), state@, i3 as int);
                }
                let mut next: Vec<Vec<Atom>> = Vec::new();
                let cn = combos.len();
                let mut q: usize = 0;
                while q < cn
                    invariant
                        q <= cn,
                        cn == combos@.len(),
                        i3 < fl,
                        fl == flat@.len(),
                        view_seq(flat@).len() == fl,
                        all_norm(view_seq(flat@), state@),
                        args@.len() >= 1,
                        flat@[i3 as int]@.norm_elem(state@),
                        view_seq(flat@)[i3 as int] == flat@[i3 as int]@,
                        forall|p2: int|
                            0 <= p2 < combos@.len() ==> all_norm(view_seq(
                                #[trigger] combos@[p2]@), state@),
                        forall|p2: int|
                            0 <= p2 < next@.len() ==> all_norm(view_seq(#[trigger] next@[p2]@),
                                state@),
                        state@.wf(),
                    decreases cn - q,
                {
                    match &flat[i3] {
                        Atom::Add(_, ts) => {
                            proof {
                                lemma_view_seq_len(ts@);
                                assert(flat@[i3 as int]@ matches AtomV::Add(_, ws) && ws
                                    == view_seq(ts@));
                                crate::atom::lemma_all_norm_via_parts(view_seq(ts@), state@,
                                    flat@[i3 as int]@);
                            }
                            let tn = ts.len();
                            let mut t: usize = 0;
                            while t < tn
                                invariant
                                    t <= tn,
                                    q < cn,
                                    cn == combos@.len(),
                                    tn == ts@.len(),
                                    view_seq(ts@).len() == tn,
                                    all_norm(view_seq(ts@), state@),
                                    args@.len() >= 1,
                                    forall|p2: int|
                                        0 <= p2 < combos@.len() ==> all_norm(view_seq(
                                            #[trigger] combos@[p2]@), state@),
                                    forall|p2: int|
                                        0 <= p2 < combos@.len() ==> all_norm(view_seq(
                                            #[trigger] combos@[p2]@), state@),
                                    forall|p2: int|
                                        0 <= p2 < next@.len() ==> all_norm(view_seq(
                                            #[trigger] next@[p2]@), state@),
                                    state@.wf(),
                                decreases tn - t,
                            {
                                proof {
                                    lemma_view_seq_index(ts@, t as int);
                                    lemma_all_norm_index(view_seq(ts@), state@, t as int);
                                }
                                proof {
                                    assert(all_norm(view_seq(combos@[q as int]@), state@));
                                }
                                let mut combo = dup_norm_atoms(&combos[q], Ghost(state@));
                                push_norm(&mut combo, ts[t].duplicate(), Ghost(state@));
                                let ghost before = next@;
                                next.push(combo);
                                proof {
                                    assert(forall|p2: int|
                                        0 <= p2 < before.len() ==> next@[p2] == before[p2]);
                                    assert(forall|p2: int|
                                        0 <= p2 < next@.len() ==> all_norm(view_seq(
                                            #[trigger] next@[p2]@), state@));
                                }
                                t = t + 1;
                            }
                        },
                        _ => {
                            proof {
                                assert(all_norm(view_seq(combos@[q as int]@), state@));
                            }
                            let mut combo = dup_norm_atoms(&combos[q], Ghost(state@));
                            push_norm(&mut combo, flat[i3].duplicate(), Ghost(state@));
                            let ghost before = next@;
                            next.push(combo);
                            proof {
                                assert(forall|p2: int|
                                    0 <= p2 < before.len() ==> next@[p2] == before[p2]);
                                assert(forall|p2: int|
                                    0 <= p2 < next@.len() ==> all_norm(view_seq(
                                        #[trigger] next@[p2]@), state@));
                            }
                        },
                    }
                    q = q + 1;
                }
                combos = next;
                i3 = i3 + 1;
            }
            // one application per combination, summed
            let mut terms: Vec<Atom> = Vec::new();
            let cn2 = combos.len();
            let mut q2: usize = 0;
            while q2 < cn2
                invariant
                    q2 <= cn2,
                    cn2 == combos@.len(),
                    forall|p2: int|
                        0 <= p2 < combos@.len() ==> all_norm(view_seq(#[trigger] combos@[p2]@),
                            state@),
                    all_norm(view_seq(terms@), state@),
                    state@.wf(),
                    args@.len() >= 1,
                decreases cn2 - q2,
            {
                proof {
                    assert(all_norm(view_seq(combos@[q2 as int]@), state@));
                }
                let combo = dup_norm_atoms(&combos[q2], Ghost(state@));
                let term = match normalize_fun_no_sums(name, combo, state) {
                    Ok(a) => a,
                    Err(e) => {
                        return Err(e);
                    },
                };
                push_norm(&mut terms, term, Ghost(state@));
                q2 = q2 + 1;
            }
            return normalize_add_parts(terms, state);
        }
    }
    normalize_fun_no_sums(name, flat, state)
}

impl Atom {
    /// Rewrites an expression into canonical form. A node whose dirty flag is
    /// clear is already canonical and is copied unchanged; a dirty node is
    /// rebuilt bottom-up: coefficients are re-normalized, products and sums
    /// are flattened, sorted and merged, powers apply the power laws and the
    /// imaginary-unit rule, and function applications apply the declared
    /// attributes of their identifier.
    pub fn normalize(&self, state: &State) -> (r: Result<Atom, NormalizeError>)
        requires
            self@.ready(state@),
            state@.wf(),
        ensures
            r matches Ok(a) ==> a@.norm_elem(state@),
            !self@.dirty() ==> (r matches Ok(a) && a@ == self@),
            self@ matches AtomV::Num(dd, c) ==> (dd ==> (r matches Ok(a) && (a@ matches
                AtomV::Num(f2, c2) && !f2 && (c matches CoefficientV::Rational(q) ==> (c2 matches
                CoefficientV::Rational(q2) && q2.num() * q.den() == q.num() * q2.den()))))),
            self@ matches AtomV::Mul(dd, ts) ==> (dd && ts.len() == 0 ==> (r matches Ok(a) && a@
                == AtomV::Num(false, CoefficientV::Rational(RationalV::Natural(1, 1))))),
            self@ matches AtomV::Add(dd, ts) ==> (dd && ts.len() == 0 ==> (r matches Ok(a) && a@
                == AtomV::Num(false, CoefficientV::Rational(RationalV::Natural(0, 1))))),
            self@ matches AtomV::Mul(dd, ts) ==> (dd && ts.len() == 1 && ts[0].clean() && !(
            ts[0] is Mul) && !(ts[0] is Num) ==> (r matches Ok(a) && a@ == ts[0])),
            self@ matches AtomV::Add(dd, ts) ==> (dd && ts.len() == 1 && ts[0].clean() && !(
            ts[0] is Add) && !(ts[0] is Num) ==> (r matches Ok(a) && a@ == ts[0])),
            self@ matches AtomV::Pow(dd, b, e) ==> (dd && (*b).clean() && (*e) == AtomV::Num(
                false, CoefficientV::Rational(RationalV::Natural(0, 1))) ==> (r matches Ok(a)
                && a@ == AtomV::Num(false, CoefficientV::Rational(RationalV::Natural(1, 1))))),
            self@ matches AtomV::Pow(dd, b, e) ==> (dd && (*b).clean() && (*e) == AtomV::Num(
                false, CoefficientV::Rational(RationalV::Natural(1, 1))) ==> (r matches Ok(a)
                && a@ == *b)),
            self@ matches AtomV::Pow(dd, b, e) ==> (dd && *b == AtomV::Var(
                crate::state::SYMBOL_I) ==> ((*e) matches AtomV::Num(ed, ec) ==> (!ed ==> (
            ec matches CoefficientV::Rational(q) ==> (q matches RationalV::Natural(n2, d2) ==> (
            d2 >= 1 ==> (r matches Ok(a) && a@ == imaginary_power(n2, d2)))))))),
            self@ matches AtomV::Fun(dd, f, ts) ==> (dd && ts.len() == 0 && !state@.props_of(
                f).is_linear && !state@.props_of(f).is_symmetric && !state@.props_of(
                f).is_antisymmetric ==> (r matches Ok(a) && a@ == AtomV::Fun(false, f,
                Seq::empty()))),
            self@ matches AtomV::Pow(dd, b, e) ==> (dd && (*b).clean() ==> ((*b) matches
                AtomV::Pow(bd, b2, e2) ==> ((*e2) matches AtomV::Num(ie, ic) ==> (!ie ==> (
            ic matches CoefficientV::Rational(q1) ==> ((*e) matches AtomV::Num(oe, oc) ==> (!oe
                ==> (oc matches CoefficientV::Rational(q2) ==> ((*e) != AtomV::Num(false,
                CoefficientV::Rational(RationalV::Natural(0, 1))) && (*e) != AtomV::Num(false,
                CoefficientV::Rational(RationalV::Natural(1, 1))) ==> (r matches Ok(a)
                && is_multiplied_power(a@, *b2, ic, oc))))))))))),
        decreases self, 0int,
    {
        proof {
            crate::atom::lemma_ready_parts(self@, state@);
        }
        if !self.is_dirty() {
            return Ok(self.duplicate());
        }
        match self {
            Atom::Num(_, c) => {
                let v = c.coeff_view();
                let nc = v.normalize();
                Ok(Atom::Num(false, nc))
            },
            Atom::Var(v) => Ok(Atom::Var(*v)),
            Atom::Mul(_, ts) => {
                let children = match normalize_children(ts, state) {
                    Ok(v) => v,
                    Err(e) => {
                        return Err(e);
                    },
                };
                normalize_mul_parts(children, state)
            },
            Atom::Add(_, ts) => {
                let children = match normalize_children(ts, state) {
                    Ok(v) => v,
                    Err(e) => {
                        return Err(e);
                    },
                };
                normalize_add_parts(children, state)
            },
            Atom::Fun(_, f, ts) => {
                proof {
                    lemma_view_seq_len(ts@);
                    assert(self@ matches AtomV::Fun(_, ff, ws) && ff == *f && ws == view_seq(
                        ts@));
                }
                let children = match normalize_children(ts, state) {
                    Ok(v) => v,
                    Err(e) => {
                        return Err(e);
                    },
                };
                normalize_fun_parts(*f, children, state)
            },
            Atom::Pow(_, b, e) => {
                proof {
                    assert(self@ matches AtomV::Pow(_, bb, ee) && *bb == b@ && *ee == e@);
                    if b@.clean() {
                        crate::laws::lemma_clean_not_dirty(b@);
                    }
                    if e@ matches AtomV::Num(ed, _) && !ed {
                        assert(!e@.dirty());
                    }
                }
                let nb = match b.normalize(state) {
                    Ok(a) => a,
                    Err(er) => {
                        return Err(er);
                    },
                };
                let ne = match e.normalize(state) {
                    Ok(a) => a,
                    Err(er) => {
                        return Err(er);
                    },
                };
                proof {
                    assert(self@ matches AtomV::Pow(_, bb, ee) && *bb == b@ && *ee == e@);
                    assert(AtomV::Num(false, CoefficientV::Rational(RationalV::Natural(0,
                        1))).dirty() == false);
                    assert(AtomV::Num(false, CoefficientV::Rational(RationalV::Natural(1,
                        1))).dirty() == false);
                    assert(AtomV::Num(false, CoefficientV::Rational(RationalV::Natural(0,
                        1))).clean());
                    assert(AtomV::Num(false, CoefficientV::Rational(RationalV::Natural(1,
                        1))).clean());
                    if e@ matches AtomV::Num(ed, _) && !ed {
                        assert(!e@.dirty());
                    }
                }
                normalize_pow_parts(nb, ne, state)
            },
        }
    }
}

/// Normalizes each child of a dirty list node.
fn normalize_children(ts: &Vec<Atom>, state: &State) -> (r: Result<Vec<Atom>, NormalizeError>)
    requires
        crate::atom::all_ready(view_seq(ts@), state@),
        state@.wf(),
    ensures
        r matches Ok(v) ==> all_norm(view_seq(v@), state@),
        ts@.len() == 0 ==> (r matches Ok(v) && view_seq(v@).len() == 0),
        view_seq(ts@).len() == 1 && view_seq(ts@)[0].clean() ==> (r matches Ok(v) && view_seq(v@)
            == view_seq(ts@)),
    decreases ts, 1int,
{
    proof {
        lemma_view_seq_len(ts@);
    }
    let n = ts.len();
    let mut children: Vec<Atom> = Vec::new();
    let mut i: usize = 0;
    proof {
        assert(view_seq(children@).len() == 0);
    }
    while i < n
        invariant
            i <= n,
            n == ts@.len(),
            view_seq(ts@).len() == n,
            crate::atom::all_ready(view_seq(ts@), state@),
            all_norm(view_seq(children@), state@),
            view_seq(children@).len() == i,
            state@.wf(),
            n == 1 && view_seq(ts@)[0].clean() && i == 1 ==> view_seq(children@) == view_seq(
                ts@),
        decreases n - i,
    {
        proof {
            lemma_view_seq_index(ts@, i as int);
            crate::atom::lemma_all_ready_index(view_seq(ts@), state@, i as int);
            if view_seq(ts@)[i as int].clean() {
                crate::laws::lemma_clean_not_dirty(view_seq(ts@)[i as int]);
            }
        }
        let ghost before = view_seq(children@);
        let child = match ts[i].normalize(state) {
            Ok(a) => a,
            Err(e) => {
                return Err(e);
            },
        };
        let ghost cv = child@;
        push_norm(&mut children, child, Ghost(state@));
        proof {
            if n == 1 && view_seq(ts@)[0].clean() {
                assert(cv == view_seq(ts@)[0]);
                assert(view_seq(children@) =~= view_seq(ts@));
            }
        }
        i = i + 1;
    }
    proof {
        if ts@.len() == 0 {
            assert(view_seq(children@).len() == 0);
        }
    }
    Ok(children)
}

/// The outcome of collapsing a power of a power with rational numeric
/// exponents: the exponents multiply exactly, and a product of one sheds the
/// power wrapper.
pub open spec fn is_multiplied_power(res: AtomV, inner: AtomV, c1: CoefficientV, c2: CoefficientV) -> bool {
    match (c1, c2) {
        (CoefficientV::Rational(x), CoefficientV::Rational(y)) => {
            let pnum = x.num() * y.num();
            let pden = x.den() * y.den();
            ||| (pnum == pden && res == inner)
            ||| (pnum != pden && (res matches AtomV::Pow(rd, bb, ee) && !rd && *bb == inner && ((
            *ee) matches AtomV::Num(ed, cc) && !ed && (cc matches CoefficientV::Rational(q)
                && q.num() * pden == pnum * q.den()))))
        },
        _ => false,
    }
}

/// A canonical rational product that is not one has a cross numerator that
/// differs from its denominator product.
proof fn lemma_product_not_one(pv: CoefficientV, cv1: CoefficientV, cv2: CoefficientV)
    requires
        crate::coefficient::is_rational_product(pv, cv1, cv2),
        pv.canon(),
        !pv.is_one_spec(),
        cv1 is Rational,
        cv2 is Rational,
        cv1->Rational_0.canon(),
        cv2->Rational_0.canon(),
    ensures
        cv1->Rational_0.num() * cv2->Rational_0.num() != cv1->Rational_0.den()
            * cv2->Rational_0.den(),
{
    let x = cv1->Rational_0;
    let y = cv2->Rational_0;
    let pq = pv->Rational_0;
    assert(x.den() >= 1);
    assert(y.den() >= 1);
    assert(pq.den() >= 1);
    assert(pq.num() * (x.den() * y.den()) == (x.num() * y.num()) * pq.den());
    assert(x.den() * y.den() >= 1) by (nonlinear_arith)
        requires
            x.den() >= 1,
            y.den() >= 1,
    ;
    if x.num() * y.num() == x.den() * y.den() {
        assert(pq.num() * (x.den() * y.den()) == (x.den() * y.den()) * pq.den());
        assert(pq.num() == pq.den()) by (nonlinear_arith)
            requires
                pq.num() * (x.den() * y.den()) == (x.den() * y.den()) * pq.den(),
                x.den() * y.den() >= 1,
        ;
        crate::rational::lemma_canon_value_one(pq);
        assert(false);
    }
}

/// The canonical value of the imaginary unit raised to `n / d`: the integer
/// part of the exponent reduces modulo four to one of one, the unit itself,
/// minus one or the negated unit, and a fractional part keeps a residual
/// power with exponent `1 / d`.
pub open spec fn imaginary_power(n: i64, d: i64) -> AtomV {
    let r4 = (n as int) % 4;
    let base = if r4 == 0 {
        AtomV::Num(false, CoefficientV::Rational(RationalV::Natural(1, 1)))
    } else if r4 == 1 {
        AtomV::Var(crate::state::SYMBOL_I)
    } else if r4 == 2 {
        AtomV::Num(false, CoefficientV::Rational(RationalV::Natural(-1i64, 1)))
    } else {
        AtomV::Mul(false, seq![AtomV::Var(crate::state::SYMBOL_I), AtomV::Num(false,
            CoefficientV::Rational(RationalV::Natural(-1i64, 1)))])
    };
    if d == 1 {
        base
    } else {
        AtomV::Pow(false, Box::new(base), Box::new(AtomV::Num(false, CoefficientV::Rational(
            RationalV::Natural(1, d)))))
    }
}

/// The residue modulo four of a negated magnitude.
proof fn lemma_neg_residue4(m: nat)
    ensures
        m % 4 == 0 ==> (-(m as int)) % 4 == 0,
        m % 4 != 0 ==> (-(m as int)) % 4 == 4 - (m % 4),
{
    vstd::arithmetic::div_mod::lemma_fundamental_div_mod(m as int, 4);
    let k = m as int / 4;
    let q = (m % 4) as int;
    if m % 4 == 0 {
        assert(-(m as int) == (-k) * 4 + 0) by (nonlinear_arith)
            requires m as int == 4 * k + q, q == 0;
        vstd::arithmetic::div_mod::lemma_fundamental_div_mod_converse_mod(-(m as int), 4, -k, 0);
    } else {
        assert(-(m as int) == (-k - 1) * 4 + (4 - q)) by (nonlinear_arith)
            requires m as int == 4 * k + q;
        vstd::arithmetic::div_mod::lemma_fundamental_div_mod_converse_mod(-(m as int), 4, -k - 1,
            4 - q);
    }
}

/// Computes the residue modulo four of a signed machine integer.
fn residue4(n: i64) -> (r: u64)
    ensures
        r as int == (n as int) % 4,
        r < 4,
{
    if n >= 0 {
        let q = (n as u64) % 4;
        q
    } else {
        let mag: u64 = (-(n as i128)) as u64;
        let q = mag % 4;
        proof {
            lemma_neg_residue4(mag as nat);
        }
        if q == 0 {
            0
        } else {
            4 - q
        }
    }
}

/// Canonicalizes a power over a normalized base and exponent: exponent zero
/// gives one, exponent one gives the base, a numeric power of a number is
/// computed in the coefficient domain, integer powers of the imaginary unit
/// reduce modulo four, and a power of a power with a numeric inner exponent
/// multiplies the exponents.
pub(crate) fn normalize_pow_parts(nb: Atom, ne: Atom, state: &State) -> (r: Result<Atom, NormalizeError>)
    requires
        nb@.norm_elem(state@),
        ne@.norm_elem(state@),
        state@.wf(),
    ensures
        r matches Ok(a) ==> a@.norm_elem(state@),
        ne@ == AtomV::Num(false, CoefficientV::Rational(RationalV::Natural(0, 1))) ==> (r matches
            Ok(a) && a@ == AtomV::Num(false, CoefficientV::Rational(RationalV::Natural(1, 1)))),
        ne@ == AtomV::Num(false, CoefficientV::Rational(RationalV::Natural(1, 1))) ==> (r matches
            Ok(a) && a@ == nb@),
        nb@ == AtomV::Var(crate::state::SYMBOL_I) ==> (ne@ matches AtomV::Num(ed, ec2) ==> (!ed
            ==> (ec2 matches CoefficientV::Rational(q2) ==> (q2 matches RationalV::Natural(n2,
            d2) ==> (d2 >= 1 ==> (r matches Ok(a) && a@ == imaginary_power(n2, d2))))))),
        nb@ matches AtomV::Pow(bd, b2, e2) ==> (!bd ==> ((*e2) matches AtomV::Num(ie, ic) ==> (
        !ie ==> (ic matches CoefficientV::Rational(q1) ==> (ne@ matches AtomV::Num(oe, oc) ==> (
        !oe ==> (oc matches CoefficientV::Rational(q2) ==> (ne@ != AtomV::Num(false,
            CoefficientV::Rational(RationalV::Natural(0, 1))) && ne@ != AtomV::Num(false,
            CoefficientV::Rational(RationalV::Natural(1, 1))) ==> (r matches Ok(a)
            && is_multiplied_power(a@, *b2, ic, oc)))))))))),
{
    let exp_is_num = match &ne {
        Atom::Num(_, _) => true,
        _ => false,
    };
    if exp_is_num {
        let ec = match &ne {
            Atom::Num(_, c) => {
                proof {
                    assert(ne@.coeffs_canon() == c@.canon());
                    assert(ne@.valid_for(state@) == c@.valid_for(state@));
                }
                c.duplicate()
            },
            _ => {
                proof {
                    assert(false);
                }
                Coefficient::one()
            },
        };
        let (zero_exp, one_exp) = match &ec {
            Coefficient::Rational(q) => match q {
                Rational::Natural(n2, d2) => (*n2 == 0 && *d2 == 1, *n2 == 1 && *d2 == 1),
                _ => (false, false),
            },
            _ => (false, false),
        };
        if zero_exp {
            proof {
                assert(imaginary_power(0, 1) == AtomV::Num(false, CoefficientV::Rational(
                    RationalV::Natural(1, 1))));
            }
            return Ok(Atom::Num(false, Coefficient::one()));
        }
        if one_exp {
            proof {
                assert(imaginary_power(1, 1) == AtomV::Var(crate::state::SYMBOL_I));
            }
            return Ok(nb);
        }
        match &nb {
            Atom::Num(_, bc) => {
                proof {
                    assert(nb@.coeffs_canon() == bc@.canon());
                    assert(nb@.valid_for(state@) == bc@.valid_for(state@));
                }
                let bv = bc.coeff_view();
                let ev = ec.coeff_view();
                let (new_base, new_exp) = match bv.pow(&ev, state) {
                    Ok(p) => p,
                    Err(er) => {
                        return Err(er);
                    },
                };
                if new_exp.is_one() {
                    return Ok(Atom::Num(false, new_base));
                }
                let base_atom = Atom::Num(false, new_base);
                let exp_atom = Atom::Num(false, new_exp);
                return Ok(crate::merge::make_pow(base_atom, exp_atom, Ghost(state@)));
            },
            Atom::Var(v) => {
                if *v == crate::state::SYMBOL_I {
                    match &ec {
                        Coefficient::Rational(q) => match q {
                            Rational::Natural(n2, d2) => {
                                proof {
                                    crate::rational::lemma_int_canon(-1i64);
                                    crate::rational::lemma_unit_fraction_canon(*d2);
                                }
                                let r4 = residue4(*n2);
                                let new_base: Atom = if r4 == 0 {
                                    Atom::Num(false, Coefficient::one())
                                } else if r4 == 1 {
                                    Atom::Var(crate::state::SYMBOL_I)
                                } else if r4 == 2 {
                                    Atom::Num(false, Coefficient::Rational(Rational::Natural(
                                        -1i64, 1)))
                                } else {
                                    crate::merge::make_minus_i(Ghost(state@))
                                };
                                if *d2 == 1 {
                                    proof {
                                        assert(imaginary_power(*n2, *d2) == new_base@);
                                    }
                                    return Ok(new_base);
                                }
                                let new_exp = Atom::Num(false, Coefficient::Rational(
                                    Rational::Natural(1, *d2)));
                                let out = crate::merge::make_pow(new_base, new_exp, Ghost(
                                    state@));
                                proof {
                                    assert(imaginary_power(*n2, *d2) == out@);
                                }
                                return Ok(out);
                            },
                            _ => {},
                        },
                        _ => {},
                    }
                }
            },
            Atom::Pow(_, b2, e2) => {
                proof {
                    assert(nb@.clean() == (!nb@.dirty() && b2@.clean() && e2@.clean()));
                    assert(nb@.coeffs_canon() == (b2@.coeffs_canon() && e2@.coeffs_canon()));
                    assert(nb@.valid_for(state@) == (b2@.valid_for(state@) && e2@.valid_for(
                        state@)));
                    assert(nb@ matches AtomV::Pow(_, pb, pe) && *pb == b2@ && *pe == e2@);
                }
                match &**e2 {
                    Atom::Num(_, ic) => {
                        proof {
                            assert(e2@.coeffs_canon() == ic@.canon());
                            assert(e2@.valid_for(state@) == ic@.valid_for(state@));
                            assert(e2@ matches AtomV::Num(_, icc) && icc == ic@);
                        }
                        let ghost cv1 = ic@;
                        let ghost cv2 = ec@;
                        let new_exp = match ic.mul(&ec, state) {
                            Ok(p) => p,
                            Err(er) => {
                                return Err(er);
                            },
                        };
                        let ghost pv = new_exp@;
                        if new_exp.is_one() {
                            proof {
                                if cv1 is Rational && cv2 is Rational {
                                    let x = cv1->Rational_0;
                                    let y = cv2->Rational_0;
                                    let pq = pv->Rational_0;
                                    assert(x.num() * y.num() == x.den() * y.den())
                                        by (nonlinear_arith)
                                        requires
                                            pq.num() * (x.den() * y.den()) == (x.num() * y.num())
                                                * pq.den(),
                                            pq.num() == 1,
                                            pq.den() == 1,
                                    ;
                                }
                            }
                            return Ok(b2.duplicate());
                        }
                        proof {
                            if cv1 is Rational && cv2 is Rational {
                                lemma_product_not_one(pv, cv1, cv2);
                            }
                        }
                        let exp_atom = Atom::Num(false, new_exp);
                        return Ok(crate::merge::make_pow(b2.duplicate(), exp_atom, Ghost(
                            state@)));
                    },
                    _ => {},
                }
            },
            _ => {},
        }
        return Ok(crate::merge::make_pow(nb, ne, Ghost(state@)));
    }
    Ok(crate::merge::make_pow(nb, ne, Ghost(state@)))
}

/// Copies an all-normalized list.
fn dup_norm_atoms(ts: &Vec<Atom>, Ghost(st): Ghost<StateV>) -> (r: Vec<Atom>)
    requires
        all_norm(view_seq(ts@), st),
    ensures
        view_seq(r@) == view_seq(ts@),
        all_norm(view_seq(r@), st),
{
    proof {
        lemma_view_seq_len(ts@);
    }
    let n = ts.len();
    let mut r: Vec<Atom> = Vec::new();
    let mut i: usize = 0;
    while i < n
        invariant
            i <= n,
            n == ts@.len(),
            view_seq(ts@).len() == n,
            all_norm(view_seq(ts@), st),
            all_norm(view_seq(r@), st),
            view_seq(r@) =~= view_seq(ts@).subrange(0, i as int),
        decreases n - i,
    {
        proof {
            lemma_view_seq_index(ts@, i as int);
            lemma_all_norm_index(view_seq(ts@), st, i as int);
        }
        push_norm(&mut r, ts[i].duplicate(), Ghost(st));
        proof {
            assert(view_seq(r@) =~= view_seq(ts@).subrange(0, i + 1));
        }
        i = i + 1;
    }
    proof {
        assert(view_seq(r@) =~= view_seq(ts@));
    }
    r
}

} // verus!
