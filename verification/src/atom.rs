use vstd::prelude::*;

verus! {

use crate::coefficient::{Coefficient, CoefficientV};
use crate::state::StateV;

/// Mathematical mirror of an expression node.
pub enum AtomV {
    Num(bool, CoefficientV),
    Var(u64),
    Pow(bool, Box<AtomV>, Box<AtomV>),
    Mul(bool, Seq<AtomV>),
    Add(bool, Seq<AtomV>),
    Fun(bool, u64, Seq<AtomV>),
}

/// One node of a symbolic expression tree. The boolean on each non-leaf
/// variant is the transient dirty flag: true until the normalizer has
/// established canonical form.
pub enum Atom {
    Num(bool, Coefficient),
    Var(u64),
    Pow(bool, Box<Atom>, Box<Atom>),
    Mul(bool, Vec<Atom>),
    Add(bool, Vec<Atom>),
    Fun(bool, u64, Vec<Atom>),
}

impl Atom {
    pub open spec fn view_rec(self) -> AtomV
        decreases self,
    {
        match self {
            Atom::Num(d, c) => AtomV::Num(d, c@),
            Atom::Var(v) => AtomV::Var(v),
            Atom::Pow(d, b, e) => AtomV::Pow(d, Box::new(b.view_rec()), Box::new(e.view_rec())),
            Atom::Mul(d, ts) => AtomV::Mul(d, view_seq(ts@)),
            Atom::Add(d, ts) => AtomV::Add(d, view_seq(ts@)),
            Atom::Fun(d, f, ts) => AtomV::Fun(d, f, view_seq(ts@)),
        }
    }
}

/// The spec projection of a child list.
pub open spec fn view_seq(ts: Seq<Atom>) -> Seq<AtomV>
    decreases ts,
{
    if ts.len() == 0 {
        Seq::empty()
    } else {
        seq![ts[0].view_rec()] + view_seq(ts.skip(1))
    }
}

impl View for Atom {
    type V = AtomV;

    open spec fn view(&self) -> AtomV {
        self.view_rec()
    }
}

pub proof fn lemma_view_seq_len(ts: Seq<Atom>)
    ensures
        view_seq(ts).len() == ts.len(),
    decreases ts,
{
    if ts.len() > 0 {
        lemma_view_seq_len(ts.skip(1));
    }
}

pub proof fn lemma_view_seq_index(ts: Seq<Atom>, i: int)
    requires
        0 <= i < ts.len(),
    ensures
        view_seq(ts).len() == ts.len(),
        view_seq(ts)[i] == ts[i]@,
    decreases ts,
{
    lemma_view_seq_len(ts);
    if i > 0 {
        lemma_view_seq_index(ts.skip(1), i - 1);
    }
}

pub proof fn lemma_view_seq_push(ts: Seq<Atom>, a: Atom)
    ensures
        view_seq(ts.push(a)) =~= view_seq(ts).push(a@),
    decreases ts,
{
    lemma_view_seq_len(ts.push(a));
    lemma_view_seq_len(ts);
    assert forall|i: int| 0 <= i < ts.len() + 1 implies view_seq(ts.push(a))[i] == view_seq(
        ts).push(a@)[i] by {
        lemma_view_seq_index(ts.push(a), i);
        if i < ts.len() {
            lemma_view_seq_index(ts, i);
            assert(ts.push(a)[i] == ts[i]);
        } else {
            assert(ts.push(a)[i] == a);
        }
    }
}

impl AtomV {
    /// The transient dirty flag of the node itself.
    pub open spec fn dirty(self) -> bool {
        match self {
            AtomV::Num(d, _) => d,
            AtomV::Var(_) => false,
            AtomV::Pow(d, _, _) => d,
            AtomV::Mul(d, _) => d,
            AtomV::Add(d, _) => d,
            AtomV::Fun(d, _, _) => d,
        }
    }

    /// Clean through and through: no dirty flag anywhere in the tree.
    pub open spec fn clean(self) -> bool
        decreases self, 0int,
    {
        match self {
            AtomV::Num(d, _) => !d,
            AtomV::Var(_) => true,
            AtomV::Pow(d, b, e) => !d && b.clean() && e.clean(),
            AtomV::Mul(d, ts) => !d && all_clean(ts),
            AtomV::Add(d, ts) => !d && all_clean(ts),
            AtomV::Fun(d, _, ts) => !d && all_clean(ts),
        }
    }

    /// Every coefficient in the tree is canonical.
    pub open spec fn coeffs_canon(self) -> bool
        decreases self, 0int,
    {
        match self {
            AtomV::Num(_, c) => c.canon(),
            AtomV::Var(_) => true,
            AtomV::Pow(_, b, e) => b.coeffs_canon() && e.coeffs_canon(),
            AtomV::Mul(_, ts) => all_coeffs_canon(ts),
            AtomV::Add(_, ts) => all_coeffs_canon(ts),
            AtomV::Fun(_, _, ts) => all_coeffs_canon(ts),
        }
    }

    /// Every coefficient in the tree is well-formed: denominators are nonzero
    /// and polynomial ratios are structurally sound.
    pub open spec fn coeffs_wf(self) -> bool
        decreases self, 0int,
    {
        match self {
            AtomV::Num(_, c) => match c {
                CoefficientV::Rational(q) => q.wf(),
                CoefficientV::FiniteField(_, _) => true,
                CoefficientV::RationalPolynomial(p) => p.wf(),
            },
            AtomV::Var(_) => true,
            AtomV::Pow(_, b, e) => b.coeffs_wf() && e.coeffs_wf(),
            AtomV::Mul(_, ts) => all_coeffs_wf(ts),
            AtomV::Add(_, ts) => all_coeffs_wf(ts),
            AtomV::Fun(_, _, ts) => all_coeffs_wf(ts),
        }
    }

    /// Every finite field the tree names is registered in the given registry.
    pub open spec fn valid_for(self, st: StateV) -> bool
        decreases self, 0int,
    {
        match self {
            AtomV::Num(_, c) => c.valid_for(st),
            AtomV::Var(_) => true,
            AtomV::Pow(_, b, e) => b.valid_for(st) && e.valid_for(st),
            AtomV::Mul(_, ts) => all_valid_for(ts, st),
            AtomV::Add(_, ts) => all_valid_for(ts, st),
            AtomV::Fun(_, _, ts) => all_valid_for(ts, st),
        }
    }
}

pub open spec fn all_clean(ts: Seq<AtomV>) -> bool
    decreases ts, 1int,
{
    if ts.len() == 0 {
        true
    } else {
        ts[0].clean() && all_clean(ts.skip(1))
    }
}

pub open spec fn all_coeffs_canon(ts: Seq<AtomV>) -> bool
    decreases ts, 1int,
{
    if ts.len() == 0 {
        true
    } else {
        ts[0].coeffs_canon() && all_coeffs_canon(ts.skip(1))
    }
}

pub open spec fn all_coeffs_wf(ts: Seq<AtomV>) -> bool
    decreases ts, 1int,
{
    if ts.len() == 0 {
        true
    } else {
        ts[0].coeffs_wf() && all_coeffs_wf(ts.skip(1))
    }
}

pub open spec fn all_valid_for(ts: Seq<AtomV>, st: StateV) -> bool
    decreases ts, 1int,
{
    if ts.len() == 0 {
        true
    } else {
        ts[0].valid_for(st) && all_valid_for(ts.skip(1), st)
    }
}

/// Each element of a list with all coefficients canonical has them canonical.
pub proof fn lemma_all_coeffs_canon_index(ts: Seq<AtomV>, i: int)
    requires
        all_coeffs_canon(ts),
        0 <= i < ts.len(),
    ensures
        ts[i].coeffs_canon(),
    decreases ts,
{
    assert(all_coeffs_canon(ts) == (ts[0].coeffs_canon() && all_coeffs_canon(ts.skip(1))));
    if i > 0 {
        lemma_all_coeffs_canon_index(ts.skip(1), i - 1);
    }
}

/// Each element of an all-clean list is clean.
pub proof fn lemma_all_clean_index(ts: Seq<AtomV>, i: int)
    requires
        all_clean(ts),
        0 <= i < ts.len(),
    ensures
        ts[i].clean(),
    decreases ts,
{
    assert(all_clean(ts) == (ts[0].clean() && all_clean(ts.skip(1))));
    if i > 0 {
        lemma_all_clean_index(ts.skip(1), i - 1);
    }
}


/// Each element of an everywhere-registered list is registered.
pub proof fn lemma_all_valid_for_index(ts: Seq<AtomV>, st: StateV, i: int)
    requires
        all_valid_for(ts, st),
        0 <= i < ts.len(),
    ensures
        ts[i].valid_for(st),
    decreases ts,
{
    assert(all_valid_for(ts, st) == (ts[0].valid_for(st) && all_valid_for(ts.skip(1), st)));
    if i > 0 {
        lemma_all_valid_for_index(ts.skip(1), st, i - 1);
    }
}



impl Atom {
    /// Whether this node still awaits normalization.
    pub fn is_dirty(&self) -> (r: bool)
        ensures
            r == self@.dirty(),
    {
        match self {
            Atom::Num(d, _) => *d,
            Atom::Var(_) => false,
            Atom::Pow(d, _, _) => *d,
            Atom::Mul(d, _) => *d,
            Atom::Add(d, _) => *d,
            Atom::Fun(d, _, _) => *d,
        }
    }

    /// A structurally equal copy.
    pub fn duplicate(&self) -> (r: Atom)
        ensures
            r@ == self@,
        decreases self,
    {
        match self {
            Atom::Num(d, c) => Atom::Num(*d, c.duplicate()),
            Atom::Var(v) => Atom::Var(*v),
            Atom::Pow(d, b, e) => Atom::Pow(*d, Box::new(b.duplicate()), Box::new(e.duplicate())),
            Atom::Mul(d, ts) => Atom::Mul(*d, dup_atoms(ts)),
            Atom::Add(d, ts) => Atom::Add(*d, dup_atoms(ts)),
            Atom::Fun(d, f, ts) => Atom::Fun(*d, *f, dup_atoms(ts)),
        }
    }

    /// A producer-facing constructor: a numeric node, marked dirty.
    pub fn new_num(c: Coefficient) -> (r: Atom)
        ensures
            r@ == AtomV::Num(true, c@),
    {
        Atom::Num(true, c)
    }

    /// A variable node; a childless leaf is born canonical.
    pub fn new_var(id: u64) -> (r: Atom)
        ensures
            r@ == AtomV::Var(id),
    {
        Atom::Var(id)
    }

    /// A power node, marked dirty.
    pub fn new_pow(base: Atom, exp: Atom) -> (r: Atom)
        ensures
            r@ == AtomV::Pow(true, Box::new(base@), Box::new(exp@)),
    {
        Atom::Pow(true, Box::new(base), Box::new(exp))
    }

    /// A product node, marked dirty.
    pub fn new_mul(factors: Vec<Atom>) -> (r: Atom)
        ensures
            r@ == AtomV::Mul(true, view_seq(factors@)),
    {
        Atom::Mul(true, factors)
    }

    /// A sum node, marked dirty.
    pub fn new_add(terms: Vec<Atom>) -> (r: Atom)
        ensures
            r@ == AtomV::Add(true, view_seq(terms@)),
    {
        Atom::Add(true, terms)
    }

    /// A function node, marked dirty.
    pub fn new_fun(id: u64, args: Vec<Atom>) -> (r: Atom)
        ensures
            r@ == AtomV::Fun(true, id, view_seq(args@)),
    {
        Atom::Fun(true, id, args)
    }
}

/// Copies a child list.
pub(crate) fn dup_atoms(ts: &Vec<Atom>) -> (r: Vec<Atom>)
    ensures
        view_seq(r@) == view_seq(ts@),
        r@.len() == ts@.len(),
    decreases ts,
{
    let mut r: Vec<Atom> = Vec::new();
    let n = ts.len();
    let mut i: usize = 0;
    while i < n
        invariant
            i <= n,
            n == ts@.len(),
            r@.len() == i,
            view_seq(r@) =~= view_seq(ts@).subrange(0, i as int),
        decreases n - i,
    {
        proof {
            lemma_view_seq_index(ts@, i as int);
        }
        let a = ts[i].duplicate();
        proof {
            lemma_view_seq_push(r@, a);
        }
        r.push(a);
        proof {
            lemma_view_seq_len(ts@);
            assert forall|k: int| 0 <= k < i + 1 implies view_seq(r@)[k] == view_seq(
                ts@).subrange(0, i + 1)[k] by {
                lemma_view_seq_index(ts@, k);
            }
            assert(view_seq(r@) =~= view_seq(ts@).subrange(0, i + 1));
        }
        i = i + 1;
    }
    proof {
        lemma_view_seq_len(ts@);
        assert(view_seq(ts@).subrange(0, n as int) =~= view_seq(ts@));
    }
    r
}

/// Structural equality of two expression trees.
pub fn eq_atoms(a: &Atom, b: &Atom) -> (r: bool)
    ensures
        r <==> a@ == b@,
    decreases a,
{
    match (a, b) {
        (Atom::Num(d1, c1), Atom::Num(d2, c2)) => *d1 == *d2 && c1.eq_structural(c2),
        (Atom::Var(v1), Atom::Var(v2)) => *v1 == *v2,
        (Atom::Pow(d1, b1, e1), Atom::Pow(d2, b2, e2)) => *d1 == *d2 && eq_atoms(b1, b2)
            && eq_atoms(e1, e2),
        (Atom::Mul(d1, t1), Atom::Mul(d2, t2)) => *d1 == *d2 && eq_atom_vecs(t1, t2),
        (Atom::Add(d1, t1), Atom::Add(d2, t2)) => *d1 == *d2 && eq_atom_vecs(t1, t2),
        (Atom::Fun(d1, f1, t1), Atom::Fun(d2, f2, t2)) => *d1 == *d2 && *f1 == *f2 && eq_atom_vecs(
            t1, t2),
        _ => false,
    }
}

/// Structural equality of two child lists.
pub(crate) fn eq_atom_vecs(a: &Vec<Atom>, b: &Vec<Atom>) -> (r: bool)
    ensures
        r <==> view_seq(a@) == view_seq(b@),
    decreases a,
{
    proof {
        lemma_view_seq_len(a@);
        lemma_view_seq_len(b@);
    }
    if a.len() != b.len() {
        return false;
    }
    let n = a.len();
    let mut i: usize = 0;
    while i < n
        invariant
            i <= n,
            n == a@.len(),
            n == b@.len(),
            view_seq(a@).len() == n,
            view_seq(b@).len() == n,
            forall|j: int| 0 <= j < i ==> view_seq(a@)[j] == view_seq(b@)[j],
        decreases n - i,
    {
        proof {
            lemma_view_seq_index(a@, i as int);
            lemma_view_seq_index(b@, i as int);
        }
        if !eq_atoms(&a[i], &b[i]) {
            proof {
                assert(view_seq(a@)[i as int] != view_seq(b@)[i as int]);
            }
            return false;
        }
        i = i + 1;
    }
    proof {
        assert(view_seq(a@) =~= view_seq(b@));
    }
    true
}

impl AtomV {
    /// A fully normalized element as handed out by the normalizer: clean,
    /// with canonical coefficients, every named finite field registered.
    pub open spec fn norm_elem(self, st: StateV) -> bool {
        self.clean() && self.coeffs_canon() && self.valid_for(st)
    }
}

impl AtomV {
    /// A tree as producers hand it in: wherever a node's dirty flag is clear
    /// the whole subtree below it is already normalized, and every
    /// coefficient is at least well-formed.
    pub open spec fn ready(self, st: StateV) -> bool
        decreases self, 0int,
    {
        &&& (!self.dirty() ==> self.norm_elem(st))
        &&& match self {
            AtomV::Num(_, c) => match c {
                crate::coefficient::CoefficientV::Rational(q) => q.wf(),
                crate::coefficient::CoefficientV::FiniteField(_, idx) => idx < st.primes.len(),
                crate::coefficient::CoefficientV::RationalPolynomial(p) => p.wf(),
            },
            AtomV::Var(_) => true,
            AtomV::Pow(_, b, e) => b.ready(st) && e.ready(st),
            AtomV::Mul(_, ts) => all_ready(ts, st),
            AtomV::Add(_, ts) => all_ready(ts, st),
            AtomV::Fun(_, _, ts) => all_ready(ts, st),
        }
    }
}

/// Every element of the list is ready.
pub open spec fn all_ready(ts: Seq<AtomV>, st: StateV) -> bool
    decreases ts, 1int,
{
    if ts.len() == 0 {
        true
    } else {
        ts[0].ready(st) && all_ready(ts.skip(1), st)
    }
}

pub proof fn lemma_all_ready_index(ts: Seq<AtomV>, st: StateV, i: int)
    requires
        all_ready(ts, st),
        0 <= i < ts.len(),
    ensures
        ts[i].ready(st),
    decreases ts,
{
    assert(all_ready(ts, st) == (ts[0].ready(st) && all_ready(ts.skip(1), st)));
    if i > 0 {
        lemma_all_ready_index(ts.skip(1), st, i - 1);
    }
}

/// What readiness gives at one node: a clean node is fully normalized, the
/// node's own coefficient is well-formed, and every child is ready in turn.
pub proof fn lemma_ready_parts(a: AtomV, st: StateV)
    requires
        a.ready(st),
    ensures
        !a.dirty() ==> a.norm_elem(st),
        a matches AtomV::Pow(_, b, e) ==> (*b).ready(st) && (*e).ready(st),
        a matches AtomV::Mul(_, ts) ==> all_ready(ts, st),
        a matches AtomV::Add(_, ts) ==> all_ready(ts, st),
        a matches AtomV::Fun(_, _, ts) ==> all_ready(ts, st),
        a matches AtomV::Num(_, c) ==> match c {
            crate::coefficient::CoefficientV::Rational(q) => q.wf(),
            crate::coefficient::CoefficientV::FiniteField(_, idx) => idx < st.primes.len(),
            crate::coefficient::CoefficientV::RationalPolynomial(p) => p.wf(),
        },
{
    match a {
        AtomV::Num(d, c) => {
            assert(a.ready(st) == ((!a.dirty() ==> a.norm_elem(st)) && match c {
                crate::coefficient::CoefficientV::Rational(q) => q.wf(),
                crate::coefficient::CoefficientV::FiniteField(_, idx) => idx < st.primes.len(),
                crate::coefficient::CoefficientV::RationalPolynomial(p) => p.wf(),
            }));
        },
        AtomV::Var(_) => {
            assert(a.ready(st) == ((!a.dirty() ==> a.norm_elem(st)) && true));
        },
        AtomV::Pow(d, b, e) => {
            assert(a.ready(st) == ((!a.dirty() ==> a.norm_elem(st)) && ((*b).ready(st)
                && (*e).ready(st))));
        },
        AtomV::Mul(d, ts) => {
            assert(a.ready(st) == ((!a.dirty() ==> a.norm_elem(st)) && all_ready(ts, st)));
        },
        AtomV::Add(d, ts) => {
            assert(a.ready(st) == ((!a.dirty() ==> a.norm_elem(st)) && all_ready(ts, st)));
        },
        AtomV::Fun(d, f, ts) => {
            assert(a.ready(st) == ((!a.dirty() ==> a.norm_elem(st)) && all_ready(ts, st)));
        },
    }
}

pub proof fn lemma_all_ready_push(ts: Seq<AtomV>, st: StateV, a: AtomV)
    requires
        all_ready(ts, st),
        a.ready(st),
    ensures
        all_ready(ts.push(a), st),
    decreases ts,
{
    if ts.len() == 0 {
        assert(ts.push(a)[0] == a);
        assert(ts.push(a).skip(1) =~= Seq::<AtomV>::empty());
        assert(all_ready(ts.push(a), st) == (ts.push(a)[0].ready(st) && all_ready(
            ts.push(a).skip(1), st)));
    } else {
        assert(all_ready(ts, st) == (ts[0].ready(st) && all_ready(ts.skip(1), st)));
        assert(ts.push(a).skip(1) =~= ts.skip(1).push(a));
        lemma_all_ready_push(ts.skip(1), st, a);
        assert(ts.push(a)[0] == ts[0]);
        assert(all_ready(ts.push(a), st) == (ts.push(a)[0].ready(st) && all_ready(
            ts.push(a).skip(1), st)));
    }
}

/// A dirty list node over ready children is itself ready.
pub proof fn lemma_dirty_node_ready(a: AtomV, st: StateV)
    requires
        a matches AtomV::Mul(d, ts) ==> d && all_ready(ts, st),
        a matches AtomV::Add(d, ts) ==> d && all_ready(ts, st),
        a matches AtomV::Fun(d, _, ts) ==> d && all_ready(ts, st),
        a matches AtomV::Pow(d, b, e) ==> d && (*b).ready(st) && (*e).ready(st),
        a matches AtomV::Num(d, c) ==> d && (match c {
            crate::coefficient::CoefficientV::Rational(q) => q.wf(),
            crate::coefficient::CoefficientV::FiniteField(_, idx) => idx < st.primes.len(),
            crate::coefficient::CoefficientV::RationalPolynomial(p) => p.wf(),
        }),
    ensures
        a.ready(st),
{
    match a {
        AtomV::Num(d, c) => {
            assert(a.ready(st) == ((!a.dirty() ==> a.norm_elem(st)) && match c {
                crate::coefficient::CoefficientV::Rational(q) => q.wf(),
                crate::coefficient::CoefficientV::FiniteField(_, idx) => idx < st.primes.len(),
                crate::coefficient::CoefficientV::RationalPolynomial(p) => p.wf(),
            }));
        },
        AtomV::Var(_) => {
            assert(a.ready(st) == ((!a.dirty() ==> a.norm_elem(st)) && true));
        },
        AtomV::Pow(d, b, e) => {
            assert(a.ready(st) == ((!a.dirty() ==> a.norm_elem(st)) && ((*b).ready(st)
                && (*e).ready(st))));
        },
        AtomV::Mul(d, ts) => {
            assert(a.ready(st) == ((!a.dirty() ==> a.norm_elem(st)) && all_ready(ts, st)));
        },
        AtomV::Add(d, ts) => {
            assert(a.ready(st) == ((!a.dirty() ==> a.norm_elem(st)) && all_ready(ts, st)));
        },
        AtomV::Fun(d, f, ts) => {
            assert(a.ready(st) == ((!a.dirty() ==> a.norm_elem(st)) && all_ready(ts, st)));
        },
    }
}

/// Every element of the list is fully normalized.
pub open spec fn all_norm(ts: Seq<AtomV>, st: StateV) -> bool
    decreases ts,
{
    if ts.len() == 0 {
        true
    } else {
        ts[0].norm_elem(st) && all_norm(ts.skip(1), st)
    }
}

pub proof fn lemma_all_norm_index(ts: Seq<AtomV>, st: StateV, i: int)
    requires
        all_norm(ts, st),
        0 <= i < ts.len(),
    ensures
        ts[i].norm_elem(st),
    decreases ts,
{
    assert(all_norm(ts, st) == (ts[0].norm_elem(st) && all_norm(ts.skip(1), st)));
    if i > 0 {
        lemma_all_norm_index(ts.skip(1), st, i - 1);
    }
}

pub proof fn lemma_all_norm_push(ts: Seq<AtomV>, st: StateV, a: AtomV)
    requires
        all_norm(ts, st),
        a.norm_elem(st),
    ensures
        all_norm(ts.push(a), st),
    decreases ts,
{
    if ts.len() == 0 {
        assert(ts.push(a)[0] == a);
        assert(ts.push(a).skip(1) =~= Seq::<AtomV>::empty());
        assert(all_norm(ts.push(a), st) == (ts.push(a)[0].norm_elem(st) && all_norm(
            ts.push(a).skip(1), st)));
    } else {
        assert(all_norm(ts, st) == (ts[0].norm_elem(st) && all_norm(ts.skip(1), st)));
        assert(ts.push(a).skip(1) =~= ts.skip(1).push(a));
        lemma_all_norm_push(ts.skip(1), st, a);
        assert(ts.push(a)[0] == ts[0]);
        assert(all_norm(ts.push(a), st) == (ts.push(a)[0].norm_elem(st) && all_norm(
            ts.push(a).skip(1), st)));
    }
}

pub proof fn lemma_all_norm_empty(st: StateV)
    ensures
        all_norm(Seq::<AtomV>::empty(), st),
{
}


pub proof fn lemma_all_norm_clean(ts: Seq<AtomV>, st: StateV)
    requires
        all_norm(ts, st),
    ensures
        all_clean(ts),
    decreases ts,
{
    assert(all_norm(ts, st) == if ts.len() == 0 {
        true
    } else {
        ts[0].norm_elem(st) && all_norm(ts.skip(1), st)
    });
    if ts.len() > 0 {
        lemma_all_norm_clean(ts.skip(1), st);
    }
    assert(all_clean(ts) == if ts.len() == 0 {
        true
    } else {
        ts[0].clean() && all_clean(ts.skip(1))
    });
}

pub proof fn lemma_all_norm_canon(ts: Seq<AtomV>, st: StateV)
    requires
        all_norm(ts, st),
    ensures
        all_coeffs_canon(ts),
    decreases ts,
{
    assert(all_norm(ts, st) == if ts.len() == 0 {
        true
    } else {
        ts[0].norm_elem(st) && all_norm(ts.skip(1), st)
    });
    if ts.len() > 0 {
        lemma_all_norm_canon(ts.skip(1), st);
    }
    assert(all_coeffs_canon(ts) == if ts.len() == 0 {
        true
    } else {
        ts[0].coeffs_canon() && all_coeffs_canon(ts.skip(1))
    });
}

pub proof fn lemma_all_norm_valid(ts: Seq<AtomV>, st: StateV)
    requires
        all_norm(ts, st),
    ensures
        all_valid_for(ts, st),
    decreases ts,
{
    assert(all_norm(ts, st) == if ts.len() == 0 {
        true
    } else {
        ts[0].norm_elem(st) && all_norm(ts.skip(1), st)
    });
    if ts.len() > 0 {
        lemma_all_norm_valid(ts.skip(1), st);
    }
    assert(all_valid_for(ts, st) == if ts.len() == 0 {
        true
    } else {
        ts[0].valid_for(st) && all_valid_for(ts.skip(1), st)
    });
}

/// A product node over normalized parts is itself normalized.
pub proof fn lemma_mul_norm_from_parts(ts: Seq<AtomV>, st: StateV)
    requires
        all_norm(ts, st),
    ensures
        AtomV::Mul(false, ts).norm_elem(st),
{
    lemma_all_norm_clean(ts, st);
    lemma_all_norm_canon(ts, st);
    lemma_all_norm_valid(ts, st);
}

/// A sum node over normalized parts is itself normalized.
pub proof fn lemma_add_norm_from_parts(ts: Seq<AtomV>, st: StateV)
    requires
        all_norm(ts, st),
    ensures
        AtomV::Add(false, ts).norm_elem(st),
{
    lemma_all_norm_clean(ts, st);
    lemma_all_norm_canon(ts, st);
    lemma_all_norm_valid(ts, st);
}

/// A function node over normalized arguments is itself normalized.
pub proof fn lemma_fun_norm_from_parts(f: u64, ts: Seq<AtomV>, st: StateV)
    requires
        all_norm(ts, st),
    ensures
        AtomV::Fun(false, f, ts).norm_elem(st),
{
    lemma_all_norm_clean(ts, st);
    lemma_all_norm_canon(ts, st);
    lemma_all_norm_valid(ts, st);
}

/// Lists whose elements are clean, canonical and registered are all-normalized.
pub proof fn lemma_all_norm_intro(ts: Seq<AtomV>, st: StateV)
    requires
        all_clean(ts),
        all_coeffs_canon(ts),
        all_valid_for(ts, st),
    ensures
        all_norm(ts, st),
    decreases ts,
{
    assert(all_clean(ts) == if ts.len() == 0 {
        true
    } else {
        ts[0].clean() && all_clean(ts.skip(1))
    });
    assert(all_coeffs_canon(ts) == if ts.len() == 0 {
        true
    } else {
        ts[0].coeffs_canon() && all_coeffs_canon(ts.skip(1))
    });
    assert(all_valid_for(ts, st) == if ts.len() == 0 {
        true
    } else {
        ts[0].valid_for(st) && all_valid_for(ts.skip(1), st)
    });
    if ts.len() > 0 {
        lemma_all_norm_intro(ts.skip(1), st);
    }
    assert(all_norm(ts, st) == if ts.len() == 0 {
        true
    } else {
        ts[0].norm_elem(st) && all_norm(ts.skip(1), st)
    });
}

/// The child list of any normalized list node is all-normalized.
pub proof fn lemma_all_norm_via_parts(ts: Seq<AtomV>, st: StateV, whole: AtomV)
    requires
        whole.norm_elem(st),
        (whole matches AtomV::Mul(_, ws) && ws == ts) || (whole matches AtomV::Add(_, ws) && ws
            == ts) || (whole matches AtomV::Fun(_, _, ws) && ws == ts),
    ensures
        all_norm(ts, st),
{
    lemma_all_norm_intro(ts, st);
}

} // verus!
