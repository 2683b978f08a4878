use vstd::prelude::*;

verus! {

use crate::atom::{Atom, AtomV, view_seq, lemma_view_seq_len, lemma_view_seq_index, eq_atoms, all_coeffs_canon, lemma_all_coeffs_canon_index};
use crate::coefficient::{cmp_defined, coeff_cmp_spec};
use crate::error::NormalizeError;

/// The order of two machine words.
pub open spec fn ord_of_u64(a: u64, b: u64) -> core::cmp::Ordering {
    if a < b {
        core::cmp::Ordering::Less
    } else if a == b {
        core::cmp::Ordering::Equal
    } else {
        core::cmp::Ordering::Greater
    }
}

/// The order of two lengths.
pub open spec fn ord_of_len(a: nat, b: nat) -> core::cmp::Ordering {
    if a < b {
        core::cmp::Ordering::Less
    } else if a == b {
        core::cmp::Ordering::Equal
    } else {
        core::cmp::Ordering::Greater
    }
}

/// Structural comparison of two expressions; undefined (an invariant
/// violation) when it reaches coefficients of incomparable domains. When the
/// node kinds differ the fixed ranking decides: Number greatest, then
/// Variable, Power, Product, Sum, and Function least.
pub open spec fn spec_cmp(a: AtomV, b: AtomV) -> Option<core::cmp::Ordering>
    decreases a, 0int,
{
    if a == b {
        Some(core::cmp::Ordering::Equal)
    } else {
        match (a, b) {
            (AtomV::Num(_, c1), AtomV::Num(_, c2)) => if cmp_defined(c1, c2) {
                Some(coeff_cmp_spec(c1, c2))
            } else {
                None
            },
            (AtomV::Num(_, _), _) => Some(core::cmp::Ordering::Greater),
            (_, AtomV::Num(_, _)) => Some(core::cmp::Ordering::Less),
            (AtomV::Var(v1), AtomV::Var(v2)) => Some(ord_of_u64(v1, v2)),
            (AtomV::Var(_), _) => Some(core::cmp::Ordering::Greater),
            (_, AtomV::Var(_)) => Some(core::cmp::Ordering::Less),
            (AtomV::Pow(_, b1, e1), AtomV::Pow(_, b2, e2)) => match spec_cmp(*b1, *b2) {
                None => None,
                Some(core::cmp::Ordering::Equal) => spec_cmp(*e1, *e2),
                Some(o) => Some(o),
            },
            (AtomV::Pow(_, _, _), _) => Some(core::cmp::Ordering::Greater),
            (_, AtomV::Pow(_, _, _)) => Some(core::cmp::Ordering::Less),
            (AtomV::Mul(_, t1), AtomV::Mul(_, t2)) => if t1.len() != t2.len() {
                Some(ord_of_len(t1.len(), t2.len()))
            } else {
                spec_cmp_seq(t1, t2)
            },
            (AtomV::Mul(_, _), _) => Some(core::cmp::Ordering::Greater),
            (_, AtomV::Mul(_, _)) => Some(core::cmp::Ordering::Less),
            (AtomV::Add(_, t1), AtomV::Add(_, t2)) => if t1.len() != t2.len() {
                Some(ord_of_len(t1.len(), t2.len()))
            } else {
                spec_cmp_seq(t1, t2)
            },
            (AtomV::Add(_, _), _) => Some(core::cmp::Ordering::Greater),
            (_, AtomV::Add(_, _)) => Some(core::cmp::Ordering::Less),
            (AtomV::Fun(_, f1, t1), AtomV::Fun(_, f2, t2)) => if f1 != f2 {
                Some(ord_of_u64(f1, f2))
            } else if t1.len() != t2.len() {
                Some(ord_of_len(t1.len(), t2.len()))
            } else {
                spec_cmp_seq(t1, t2)
            },
        }
    }
}

/// Element-wise comparison of two child lists: the first unequal pair decides.
pub open spec fn spec_cmp_seq(s1: Seq<AtomV>, s2: Seq<AtomV>) -> Option<core::cmp::Ordering>
    decreases s1, 1int,
{
    if s1.len() == 0 || s2.len() == 0 {
        Some(core::cmp::Ordering::Equal)
    } else {
        match spec_cmp(s1[0], s2[0]) {
            None => None,
            Some(core::cmp::Ordering::Equal) => spec_cmp_seq(s1.skip(1), s2.skip(1)),
            Some(o) => Some(o),
        }
    }
}

/// Whether the last factor of a product is a number: its numeric coefficient.
pub open spec fn has_coefficient(ts: Seq<AtomV>) -> bool {
    ts.len() > 0 && ts.last() is Num
}

/// Order among the factors of one product: numbers sort last, and a power
/// sorts by its base alone, so that a base and its powers become adjacent.
pub open spec fn spec_cmp_factors(a: AtomV, b: AtomV) -> Option<core::cmp::Ordering> {
    match (a, b) {
        (AtomV::Num(_, _), AtomV::Num(_, _)) => Some(core::cmp::Ordering::Equal),
        (AtomV::Num(_, _), _) => Some(core::cmp::Ordering::Greater),
        (_, AtomV::Num(_, _)) => Some(core::cmp::Ordering::Less),
        (AtomV::Var(v1), AtomV::Var(v2)) => Some(ord_of_u64(v1, v2)),
        (AtomV::Pow(_, b1, _), AtomV::Pow(_, b2, _)) => spec_cmp(*b1, *b2),
        (_, AtomV::Pow(_, b2, _)) => match spec_cmp(a, *b2) {
            None => None,
            Some(core::cmp::Ordering::Equal) => Some(core::cmp::Ordering::Less),
            Some(o) => Some(o),
        },
        (AtomV::Pow(_, b1, _), _) => match spec_cmp(*b1, b) {
            None => None,
            Some(core::cmp::Ordering::Equal) => Some(core::cmp::Ordering::Greater),
            Some(o) => Some(o),
        },
        (AtomV::Var(_), _) => Some(core::cmp::Ordering::Less),
        (_, AtomV::Var(_)) => Some(core::cmp::Ordering::Greater),
        (AtomV::Mul(_, _), _) => None,
        (_, AtomV::Mul(_, _)) => None,
        (AtomV::Add(_, t1), AtomV::Add(_, t2)) => if t1.len() != t2.len() {
            Some(ord_of_len(t1.len(), t2.len()))
        } else {
            spec_cmp_seq(t1, t2)
        },
        (AtomV::Add(_, _), _) => Some(core::cmp::Ordering::Less),
        (_, AtomV::Add(_, _)) => Some(core::cmp::Ordering::Greater),
        (AtomV::Fun(_, f1, t1), AtomV::Fun(_, f2, t2)) => if f1 != f2 {
            Some(ord_of_u64(f1, f2))
        } else if t1.len() != t2.len() {
            Some(ord_of_len(t1.len(), t2.len()))
        } else {
            spec_cmp_seq(t1, t2)
        },
    }
}

/// Element-wise comparison of product argument lists that stops at the first
/// numeric coefficient on either side.
pub open spec fn spec_cmp_terms_args(s1: Seq<AtomV>, s2: Seq<AtomV>) -> Option<
    core::cmp::Ordering,
>
    decreases s1,
{
    if s1.len() == 0 || s2.len() == 0 {
        Some(core::cmp::Ordering::Equal)
    } else if s1[0] is Num || s2[0] is Num {
        Some(core::cmp::Ordering::Equal)
    } else {
        match spec_cmp(s1[0], s2[0]) {
            None => None,
            Some(core::cmp::Ordering::Equal) => spec_cmp_terms_args(s1.skip(1), s2.skip(1)),
            Some(o) => Some(o),
        }
    }
}

/// Order among the terms of one sum: numbers sort last, and a product is
/// compared by its non-coefficient part alone, so that a term and its scaled
/// copies become adjacent.
pub open spec fn spec_cmp_terms(a: AtomV, b: AtomV) -> Option<core::cmp::Ordering> {
    match (a, b) {
        (AtomV::Num(_, _), AtomV::Num(_, _)) => Some(core::cmp::Ordering::Equal),
        (AtomV::Num(_, _), _) => Some(core::cmp::Ordering::Greater),
        (_, AtomV::Num(_, _)) => Some(core::cmp::Ordering::Less),
        (AtomV::Var(v1), AtomV::Var(v2)) => Some(ord_of_u64(v1, v2)),
        (AtomV::Pow(_, b1, e1), AtomV::Pow(_, b2, e2)) => match spec_cmp(*b1, *b2) {
            None => None,
            Some(core::cmp::Ordering::Equal) => spec_cmp(*e1, *e2),
            Some(o) => Some(o),
        },
        (AtomV::Mul(_, t1), AtomV::Mul(_, t2)) => {
            let n1 = if has_coefficient(t1) {
                (t1.len() - 1) as nat
            } else {
                t1.len()
            };
            let n2 = if has_coefficient(t2) {
                (t2.len() - 1) as nat
            } else {
                t2.len()
            };
            if n1 != n2 {
                Some(ord_of_len(n1, n2))
            } else {
                spec_cmp_terms_args(t1, t2)
            }
        },
        (AtomV::Mul(_, t1), _) => if !has_coefficient(t1) || t1.len() != 2 {
            Some(core::cmp::Ordering::Greater)
        } else {
            spec_cmp(t1[0], b)
        },
        (_, AtomV::Mul(_, t2)) => if !has_coefficient(t2) || t2.len() != 2 {
            Some(core::cmp::Ordering::Less)
        } else {
            spec_cmp(a, t2[0])
        },
        (AtomV::Var(_), _) => Some(core::cmp::Ordering::Greater),
        (_, AtomV::Var(_)) => Some(core::cmp::Ordering::Less),
        (AtomV::Pow(_, _, _), _) => Some(core::cmp::Ordering::Greater),
        (_, AtomV::Pow(_, _, _)) => Some(core::cmp::Ordering::Less),
        (AtomV::Fun(_, f1, t1), AtomV::Fun(_, f2, t2)) => if f1 != f2 {
            Some(ord_of_u64(f1, f2))
        } else if t1.len() != t2.len() {
            Some(ord_of_len(t1.len(), t2.len()))
        } else {
            spec_cmp_seq(t1, t2)
        },
        (AtomV::Add(_, _), _) => None,
        (_, AtomV::Add(_, _)) => None,
    }
}

/// Compares two machine words.
fn cmp_u64(a: u64, b: u64) -> (r: core::cmp::Ordering)
    ensures
        r == ord_of_u64(a, b),
{
    if a < b {
        core::cmp::Ordering::Less
    } else if a == b {
        core::cmp::Ordering::Equal
    } else {
        core::cmp::Ordering::Greater
    }
}

/// Compares two lengths.
fn cmp_len(a: usize, b: usize) -> (r: core::cmp::Ordering)
    ensures
        r == ord_of_len(a as nat, b as nat),
{
    if a < b {
        core::cmp::Ordering::Less
    } else if a == b {
        core::cmp::Ordering::Equal
    } else {
        core::cmp::Ordering::Greater
    }
}

impl Atom {
    /// Structural comparison of two expressions; a comparison across
    /// incomparable coefficient domains is reported as a logic error.
    pub fn cmp(&self, other: &Atom) -> (r: Result<core::cmp::Ordering, NormalizeError>)
        requires
            self@.coeffs_canon(),
            other@.coeffs_canon(),
        ensures
            spec_cmp(self@, other@) matches Some(o) ==> r == Ok::<
                core::cmp::Ordering,
                NormalizeError,
            >(o),
            spec_cmp(self@, other@) is None ==> r == Err::<core::cmp::Ordering, NormalizeError>(
                NormalizeError::LogicError),
        decreases self, 0int,
    {
        if eq_atoms(self, other) {
            return Ok(core::cmp::Ordering::Equal);
        }
        match (self, other) {
            (Atom::Num(_, c1), Atom::Num(_, c2)) => {
                proof {
                    assert(self@.coeffs_canon() == c1@.canon());
                    assert(other@.coeffs_canon() == c2@.canon());
                    assert(spec_cmp(self@, other@) == if cmp_defined(c1@, c2@) {
                        Some(coeff_cmp_spec(c1@, c2@))
                    } else {
                        None::<core::cmp::Ordering>
                    });
                }
                let v1 = c1.coeff_view();
                let v2 = c2.coeff_view();
                v1.cmp(&v2)
            },
            (Atom::Num(_, _), _) => {
                proof {
                    assert(spec_cmp(self@, other@) == Some(core::cmp::Ordering::Greater));
                }
                Ok(core::cmp::Ordering::Greater)
            },
            (_, Atom::Num(_, _)) => {
                proof {
                    assert(spec_cmp(self@, other@) == Some(core::cmp::Ordering::Less));
                }
                Ok(core::cmp::Ordering::Less)
            },
            (Atom::Var(v1), Atom::Var(v2)) => {
                proof {
                    assert(spec_cmp(self@, other@) == Some(ord_of_u64(*v1, *v2)));
                }
                Ok(cmp_u64(*v1, *v2))
            },
            (Atom::Var(_), _) => {
                proof {
                    assert(spec_cmp(self@, other@) == Some(core::cmp::Ordering::Greater));
                }
                Ok(core::cmp::Ordering::Greater)
            },
            (_, Atom::Var(_)) => {
                proof {
                    assert(spec_cmp(self@, other@) == Some(core::cmp::Ordering::Less));
                }
                Ok(core::cmp::Ordering::Less)
            },
            (Atom::Pow(_, b1, e1), Atom::Pow(_, b2, e2)) => {
                proof {
                    assert(self@.coeffs_canon() == (b1@.coeffs_canon() && e1@.coeffs_canon()));
                    assert(other@.coeffs_canon() == (b2@.coeffs_canon() && e2@.coeffs_canon()));
                    assert(self@ matches AtomV::Pow(_, pb, pe) && *pb == b1@ && *pe == e1@);
                }
                let rb = b1.cmp(b2);
                match rb {
                    Ok(core::cmp::Ordering::Equal) => {
                        proof {
                            assert(spec_cmp(b1@, b2@) == Some(core::cmp::Ordering::Equal));
                            assert(spec_cmp(self@, other@) == spec_cmp(e1@, e2@));
                        }
                        e1.cmp(e2)
                    },
                    _ => {
                        proof {
                            if spec_cmp(b1@, b2@) is Some {
                                assert(spec_cmp(self@, other@) == spec_cmp(b1@, b2@));
                            } else {
                                assert(spec_cmp(self@, other@) is None);
                            }
                        }
                        rb
                    },
                }
            },
            (Atom::Pow(_, _, _), _) => {
                proof {
                    assert(spec_cmp(self@, other@) == Some(core::cmp::Ordering::Greater));
                }
                Ok(core::cmp::Ordering::Greater)
            },
            (_, Atom::Pow(_, _, _)) => {
                proof {
                    assert(spec_cmp(self@, other@) == Some(core::cmp::Ordering::Less));
                }
                Ok(core::cmp::Ordering::Less)
            },
            (Atom::Mul(_, t1), Atom::Mul(_, t2)) => {
                proof {
                    lemma_view_seq_len(t1@);
                    lemma_view_seq_len(t2@);
                    assert(self@.coeffs_canon() == all_coeffs_canon(view_seq(t1@)));
                    assert(other@.coeffs_canon() == all_coeffs_canon(view_seq(t2@)));
                    assert(spec_cmp(self@, other@) == if view_seq(t1@).len() != view_seq(
                        t2@).len() {
                        Some(ord_of_len(view_seq(t1@).len(), view_seq(t2@).len()))
                    } else {
                        spec_cmp_seq(view_seq(t1@), view_seq(t2@))
                    });
                }
                if t1.len() != t2.len() {
                    Ok(cmp_len(t1.len(), t2.len()))
                } else {
                    proof {
                        assert(view_seq(t1@).skip(0) =~= view_seq(t1@));
                        assert(view_seq(t2@).skip(0) =~= view_seq(t2@));
                    }
                    cmp_seqs_from(t1, t2, 0)
                }
            },
            (Atom::Mul(_, _), _) => {
                proof {
                    assert(spec_cmp(self@, other@) == Some(core::cmp::Ordering::Greater));
                }
                Ok(core::cmp::Ordering::Greater)
            },
            (_, Atom::Mul(_, _)) => {
                proof {
                    assert(spec_cmp(self@, other@) == Some(core::cmp::Ordering::Less));
                }
                Ok(core::cmp::Ordering::Less)
            },
            (Atom::Add(_, t1), Atom::Add(_, t2)) => {
                proof {
                    lemma_view_seq_len(t1@);
                    lemma_view_seq_len(t2@);
                    assert(self@.coeffs_canon() == all_coeffs_canon(view_seq(t1@)));
                    assert(other@.coeffs_canon() == all_coeffs_canon(view_seq(t2@)));
                    assert(spec_cmp(self@, other@) == if view_seq(t1@).len() != view_seq(
                        t2@).len() {
                        Some(ord_of_len(view_seq(t1@).len(), view_seq(t2@).len()))
                    } else {
                        spec_cmp_seq(view_seq(t1@), view_seq(t2@))
                    });
                }
                if t1.len() != t2.len() {
                    Ok(cmp_len(t1.len(), t2.len()))
                } else {
                    proof {
                        assert(view_seq(t1@).skip(0) =~= view_seq(t1@));
                        assert(view_seq(t2@).skip(0) =~= view_seq(t2@));
                    }
                    cmp_seqs_from(t1, t2, 0)
                }
            },
            (Atom::Add(_, _), _) => {
                proof {
                    assert(spec_cmp(self@, other@) == Some(core::cmp::Ordering::Greater));
                }
                Ok(core::cmp::Ordering::Greater)
            },
            (_, Atom::Add(_, _)) => {
                proof {
                    assert(spec_cmp(self@, other@) == Some(core::cmp::Ordering::Less));
                }
                Ok(core::cmp::Ordering::Less)
            },
            (Atom::Fun(_, f1, t1), Atom::Fun(_, f2, t2)) => {
                proof {
                    lemma_view_seq_len(t1@);
                    lemma_view_seq_len(t2@);
                    assert(self@.coeffs_canon() == all_coeffs_canon(view_seq(t1@)));
                    assert(other@.coeffs_canon() == all_coeffs_canon(view_seq(t2@)));
                    assert(spec_cmp(self@, other@) == if *f1 != *f2 {
                        Some(ord_of_u64(*f1, *f2))
                    } else if view_seq(t1@).len() != view_seq(t2@).len() {
                        Some(ord_of_len(view_seq(t1@).len(), view_seq(t2@).len()))
                    } else {
                        spec_cmp_seq(view_seq(t1@), view_seq(t2@))
                    });
                }
                if *f1 != *f2 {
                    Ok(cmp_u64(*f1, *f2))
                } else if t1.len() != t2.len() {
                    Ok(cmp_len(t1.len(), t2.len()))
                } else {
                    proof {
                        assert(view_seq(t1@).skip(0) =~= view_seq(t1@));
                        assert(view_seq(t2@).skip(0) =~= view_seq(t2@));
                    }
                    cmp_seqs_from(t1, t2, 0)
                }
            },
        }
    }
}

/// Element-wise comparison of two equally long child lists, from position `i`.
fn cmp_seqs_from(t1: &Vec<Atom>, t2: &Vec<Atom>, i: usize) -> (r: Result<
    core::cmp::Ordering,
    NormalizeError,
>)
    requires
        t1@.len() == t2@.len(),
        i <= t1@.len(),
        all_coeffs_canon(view_seq(t1@)),
        all_coeffs_canon(view_seq(t2@)),
    ensures
        spec_cmp_seq(view_seq(t1@).skip(i as int), view_seq(t2@).skip(i as int)) matches Some(o)
            ==> r == Ok::<core::cmp::Ordering, NormalizeError>(o),
        spec_cmp_seq(view_seq(t1@).skip(i as int), view_seq(t2@).skip(i as int)) is None ==> r
            == Err::<core::cmp::Ordering, NormalizeError>(NormalizeError::LogicError),
    decreases t1, t1@.len() - i,
{
    proof {
        lemma_view_seq_len(t1@);
        lemma_view_seq_len(t2@);
    }
    if i == t1.len() {
        proof {
            assert(view_seq(t1@).skip(i as int).len() == 0);
        }
        return Ok(core::cmp::Ordering::Equal);
    }
    proof {
        lemma_view_seq_index(t1@, i as int);
        lemma_view_seq_index(t2@, i as int);
        lemma_all_coeffs_canon_index(view_seq(t1@), i as int);
        lemma_all_coeffs_canon_index(view_seq(t2@), i as int);
        assert(view_seq(t1@).skip(i as int)[0] == view_seq(t1@)[i as int]);
        assert(view_seq(t2@).skip(i as int)[0] == view_seq(t2@)[i as int]);
        assert(view_seq(t1@).skip(i as int).skip(1) =~= view_seq(t1@).skip(i as int + 1));
        assert(view_seq(t2@).skip(i as int).skip(1) =~= view_seq(t2@).skip(i as int + 1));
    }
    let rc = t1[i].cmp(&t2[i]);
    match rc {
        Ok(core::cmp::Ordering::Equal) => cmp_seqs_from(t1, t2, i + 1),
        _ => rc,
    }
}

impl Atom {
    /// Order among the factors of one product.
    pub fn cmp_factors(&self, other: &Atom) -> (r: Result<core::cmp::Ordering, NormalizeError>)
        requires
            self@.coeffs_canon(),
            other@.coeffs_canon(),
        ensures
            spec_cmp_factors(self@, other@) matches Some(o) ==> r == Ok::<
                core::cmp::Ordering,
                NormalizeError,
            >(o),
            spec_cmp_factors(self@, other@) is None ==> r == Err::<
                core::cmp::Ordering,
                NormalizeError,
            >(NormalizeError::LogicError),
    {
        match (self, other) {
            (Atom::Num(_, _), Atom::Num(_, _)) => {
                proof {
                    assert(spec_cmp_factors(self@, other@) == Some(core::cmp::Ordering::Equal));
                }
                Ok(core::cmp::Ordering::Equal)
            },
            (Atom::Num(_, _), _) => {
                proof {
                    assert(spec_cmp_factors(self@, other@) == Some(core::cmp::Ordering::Greater));
                }
                Ok(core::cmp::Ordering::Greater)
            },
            (_, Atom::Num(_, _)) => {
                proof {
                    assert(spec_cmp_factors(self@, other@) == Some(core::cmp::Ordering::Less));
                }
                Ok(core::cmp::Ordering::Less)
            },
            (Atom::Var(v1), Atom::Var(v2)) => {
                proof {
                    assert(spec_cmp_factors(self@, other@) == Some(ord_of_u64(*v1, *v2)));
                }
                Ok(cmp_u64(*v1, *v2))
            },
            (Atom::Pow(_, b1, _), Atom::Pow(_, b2, _)) => {
                proof {
                    assert(self@.coeffs_canon() ==> b1@.coeffs_canon());
                    assert(other@.coeffs_canon() ==> b2@.coeffs_canon());
                    assert(spec_cmp_factors(self@, other@) == spec_cmp(b1@, b2@));
                }
                b1.cmp(b2)
            },
            (_, Atom::Pow(_, b2, _)) => {
                proof {
                    assert(other@.coeffs_canon() ==> b2@.coeffs_canon());
                    assert(spec_cmp_factors(self@, other@) == (match spec_cmp(self@, b2@) {
                        None => None::<core::cmp::Ordering>,
                        Some(core::cmp::Ordering::Equal) => Some(core::cmp::Ordering::Less),
                        Some(o) => Some(o),
                    }));
                }
                let rc = self.cmp(b2);
                match rc {
                    Ok(core::cmp::Ordering::Equal) => Ok(core::cmp::Ordering::Less),
                    _ => rc,
                }
            },
            (Atom::Pow(_, b1, _), _) => {
                proof {
                    assert(self@.coeffs_canon() ==> b1@.coeffs_canon());
                    assert(spec_cmp_factors(self@, other@) == (match spec_cmp(b1@, other@) {
                        None => None::<core::cmp::Ordering>,
                        Some(core::cmp::Ordering::Equal) => Some(core::cmp::Ordering::Greater),
                        Some(o) => Some(o),
                    }));
                }
                let rc = b1.cmp(other);
                match rc {
                    Ok(core::cmp::Ordering::Equal) => Ok(core::cmp::Ordering::Greater),
                    _ => rc,
                }
            },
            (Atom::Var(_), _) => {
                proof {
                    assert(spec_cmp_factors(self@, other@) == Some(core::cmp::Ordering::Less));
                }
                Ok(core::cmp::Ordering::Less)
            },
            (_, Atom::Var(_)) => {
                proof {
                    assert(spec_cmp_factors(self@, other@) == Some(core::cmp::Ordering::Greater));
                }
                Ok(core::cmp::Ordering::Greater)
            },
            (Atom::Mul(_, _), _) => {
                proof {
                    assert(spec_cmp_factors(self@, other@) is None);
                }
                Err(NormalizeError::LogicError)
            },
            (_, Atom::Mul(_, _)) => {
                proof {
                    assert(spec_cmp_factors(self@, other@) is None);
                }
                Err(NormalizeError::LogicError)
            },
            (Atom::Add(_, t1), Atom::Add(_, t2)) => {
                proof {
                    lemma_view_seq_len(t1@);
                    lemma_view_seq_len(t2@);
                    assert(self@.coeffs_canon() == all_coeffs_canon(view_seq(t1@)));
                    assert(other@.coeffs_canon() == all_coeffs_canon(view_seq(t2@)));
                    assert(spec_cmp_factors(self@, other@) == if view_seq(t1@).len() != view_seq(
                        t2@).len() {
                        Some(ord_of_len(view_seq(t1@).len(), view_seq(t2@).len()))
                    } else {
                        spec_cmp_seq(view_seq(t1@), view_seq(t2@))
                    });
                }
                if t1.len() != t2.len() {
                    Ok(cmp_len(t1.len(), t2.len()))
                } else {
                    proof {
                        assert(view_seq(t1@).skip(0) =~= view_seq(t1@));
                        assert(view_seq(t2@).skip(0) =~= view_seq(t2@));
                    }
                    cmp_seqs_from(t1, t2, 0)
                }
            },
            (Atom::Add(_, _), _) => {
                proof {
                    assert(spec_cmp_factors(self@, other@) == Some(core::cmp::Ordering::Less));
                }
                Ok(core::cmp::Ordering::Less)
            },
            (_, Atom::Add(_, _)) => {
                proof {
                    assert(spec_cmp_factors(self@, other@) == Some(core::cmp::Ordering::Greater));
                }
                Ok(core::cmp::Ordering::Greater)
            },
            (Atom::Fun(_, f1, t1), Atom::Fun(_, f2, t2)) => {
                proof {
                    lemma_view_seq_len(t1@);
                    lemma_view_seq_len(t2@);
                    assert(self@.coeffs_canon() == all_coeffs_canon(view_seq(t1@)));
                    assert(other@.coeffs_canon() == all_coeffs_canon(view_seq(t2@)));
                    assert(spec_cmp_factors(self@, other@) == if *f1 != *f2 {
                        Some(ord_of_u64(*f1, *f2))
                    } else if view_seq(t1@).len() != view_seq(t2@).len() {
                        Some(ord_of_len(view_seq(t1@).len(), view_seq(t2@).len()))
                    } else {
                        spec_cmp_seq(view_seq(t1@), view_seq(t2@))
                    });
                }
                if *f1 != *f2 {
                    Ok(cmp_u64(*f1, *f2))
                } else if t1.len() != t2.len() {
                    Ok(cmp_len(t1.len(), t2.len()))
                } else {
                    proof {
                        assert(view_seq(t1@).skip(0) =~= view_seq(t1@));
                        assert(view_seq(t2@).skip(0) =~= view_seq(t2@));
                    }
                    cmp_seqs_from(t1, t2, 0)
                }
            },
        }
    }

    /// Whether the last factor of this product is its numeric coefficient.
    pub(crate) fn vec_has_coefficient(ts: &Vec<Atom>) -> (r: bool)
        ensures
            r == has_coefficient(view_seq(ts@)),
    {
        proof {
            lemma_view_seq_len(ts@);
        }
        if ts.len() == 0 {
            return false;
        }
        proof {
            lemma_view_seq_index(ts@, ts@.len() - 1);
        }
        match &ts[ts.len() - 1] {
            Atom::Num(_, _) => true,
            _ => false,
        }
    }

    /// Order among the terms of one sum.
    pub fn cmp_terms(&self, other: &Atom) -> (r: Result<core::cmp::Ordering, NormalizeError>)
        requires
            self@.coeffs_canon(),
            other@.coeffs_canon(),
        ensures
            spec_cmp_terms(self@, other@) matches Some(o) ==> r == Ok::<
                core::cmp::Ordering,
                NormalizeError,
            >(o),
            spec_cmp_terms(self@, other@) is None ==> r == Err::<
                core::cmp::Ordering,
                NormalizeError,
            >(NormalizeError::LogicError),
    {
        match (self, other) {
            (Atom::Num(_, _), Atom::Num(_, _)) => {
                proof {
                    assert(spec_cmp_terms(self@, other@) == Some(core::cmp::Ordering::Equal));
                }
                Ok(core::cmp::Ordering::Equal)
            },
            (Atom::Num(_, _), _) => {
                proof {
                    assert(spec_cmp_terms(self@, other@) == Some(core::cmp::Ordering::Greater));
                }
                Ok(core::cmp::Ordering::Greater)
            },
            (_, Atom::Num(_, _)) => {
                proof {
                    assert(spec_cmp_terms(self@, other@) == Some(core::cmp::Ordering::Less));
                }
                Ok(core::cmp::Ordering::Less)
            },
            (Atom::Var(v1), Atom::Var(v2)) => {
                proof {
                    assert(spec_cmp_terms(self@, other@) == Some(ord_of_u64(*v1, *v2)));
                }
                Ok(cmp_u64(*v1, *v2))
            },
            (Atom::Pow(_, b1, e1), Atom::Pow(_, b2, e2)) => {
                proof {
                    assert(self@.coeffs_canon() == (b1@.coeffs_canon() && e1@.coeffs_canon()));
                    assert(other@.coeffs_canon() == (b2@.coeffs_canon() && e2@.coeffs_canon()));
                    assert(spec_cmp_terms(self@, other@) == (match spec_cmp(b1@, b2@) {
                        None => None::<core::cmp::Ordering>,
                        Some(core::cmp::Ordering::Equal) => spec_cmp(e1@, e2@),
                        Some(o) => Some(o),
                    }));
                }
                let rb = b1.cmp(b2);
                match rb {
                    Ok(core::cmp::Ordering::Equal) => e1.cmp(e2),
                    _ => rb,
                }
            },
            (Atom::Mul(_, t1), Atom::Mul(_, t2)) => {
                proof {
                    lemma_view_seq_len(t1@);
                    lemma_view_seq_len(t2@);
                    assert(self@.coeffs_canon() == all_coeffs_canon(view_seq(t1@)));
                    assert(other@.coeffs_canon() == all_coeffs_canon(view_seq(t2@)));
                }
                let h1 = Atom::vec_has_coefficient(t1);
                let h2 = Atom::vec_has_coefficient(t2);
                let n1 = if h1 {
                    t1.len() - 1
                } else {
                    t1.len()
                };
                let n2 = if h2 {
                    t2.len() - 1
                } else {
                    t2.len()
                };
                proof {
                    assert(spec_cmp_terms(self@, other@) == if n1 as nat != n2 as nat {
                        Some(ord_of_len(n1 as nat, n2 as nat))
                    } else {
                        spec_cmp_terms_args(view_seq(t1@), view_seq(t2@))
                    });
                }
                if n1 != n2 {
                    Ok(cmp_len(n1, n2))
                } else {
                    proof {
                        assert(view_seq(t1@).skip(0) =~= view_seq(t1@));
                        assert(view_seq(t2@).skip(0) =~= view_seq(t2@));
                    }
                    cmp_terms_args_from(t1, t2, 0)
                }
            },
            (Atom::Mul(_, t1), _) => {
                proof {
                    lemma_view_seq_len(t1@);
                    assert(self@.coeffs_canon() == all_coeffs_canon(view_seq(t1@)));
                }
                if !Atom::vec_has_coefficient(t1) || t1.len() != 2 {
                    proof {
                        assert(spec_cmp_terms(self@, other@) == Some(
                            core::cmp::Ordering::Greater));
                    }
                    Ok(core::cmp::Ordering::Greater)
                } else {
                    proof {
                        lemma_view_seq_index(t1@, 0);
                        lemma_all_coeffs_canon_index(view_seq(t1@), 0);
                        assert(spec_cmp_terms(self@, other@) == spec_cmp(view_seq(t1@)[0],
                            other@));
                    }
                    t1[0].cmp(other)
                }
            },
            (_, Atom::Mul(_, t2)) => {
                proof {
                    lemma_view_seq_len(t2@);
                    assert(other@.coeffs_canon() == all_coeffs_canon(view_seq(t2@)));
                }
                if !Atom::vec_has_coefficient(t2) || t2.len() != 2 {
                    proof {
                        assert(spec_cmp_terms(self@, other@) == Some(core::cmp::Ordering::Less));
                    }
                    Ok(core::cmp::Ordering::Less)
                } else {
                    proof {
                        lemma_view_seq_index(t2@, 0);
                        lemma_all_coeffs_canon_index(view_seq(t2@), 0);
                        assert(spec_cmp_terms(self@, other@) == spec_cmp(self@, view_seq(
                            t2@)[0]));
                    }
                    self.cmp(&t2[0])
                }
            },
            (Atom::Var(_), _) => {
                proof {
                    assert(spec_cmp_terms(self@, other@) == Some(core::cmp::Ordering::Greater));
                }
                Ok(core::cmp::Ordering::Greater)
            },
            (_, Atom::Var(_)) => {
                proof {
                    assert(spec_cmp_terms(self@, other@) == Some(core::cmp::Ordering::Less));
                }
                Ok(core::cmp::Ordering::Less)
            },
            (Atom::Pow(_, _, _), _) => {
                proof {
                    assert(spec_cmp_terms(self@, other@) == Some(core::cmp::Ordering::Greater));
                }
                Ok(core::cmp::Ordering::Greater)
            },
            (_, Atom::Pow(_, _, _)) => {
                proof {
                    assert(spec_cmp_terms(self@, other@) == Some(core::cmp::Ordering::Less));
                }
                Ok(core::cmp::Ordering::Less)
            },
            (Atom::Fun(_, f1, t1), Atom::Fun(_, f2, t2)) => {
                proof {
                    lemma_view_seq_len(t1@);
                    lemma_view_seq_len(t2@);
                    assert(self@.coeffs_canon() == all_coeffs_canon(view_seq(t1@)));
                    assert(other@.coeffs_canon() == all_coeffs_canon(view_seq(t2@)));
                    assert(spec_cmp_terms(self@, other@) == if *f1 != *f2 {
                        Some(ord_of_u64(*f1, *f2))
                    } else if view_seq(t1@).len() != view_seq(t2@).len() {
                        Some(ord_of_len(view_seq(t1@).len(), view_seq(t2@).len()))
                    } else {
                        spec_cmp_seq(view_seq(t1@), view_seq(t2@))
                    });
                }
                if *f1 != *f2 {
                    Ok(cmp_u64(*f1, *f2))
                } else if t1.len() != t2.len() {
                    Ok(cmp_len(t1.len(), t2.len()))
                } else {
                    proof {
                        assert(view_seq(t1@).skip(0) =~= view_seq(t1@));
                        assert(view_seq(t2@).skip(0) =~= view_seq(t2@));
                    }
                    cmp_seqs_from(t1, t2, 0)
                }
            },
            (Atom::Add(_, _), _) => {
                proof {
                    assert(spec_cmp_terms(self@, other@) is None);
                }
                Err(NormalizeError::LogicError)
            },
            (_, Atom::Add(_, _)) => {
                proof {
                    assert(spec_cmp_terms(self@, other@) is None);
                }
                Err(NormalizeError::LogicError)
            },
        }
    }
}

/// Element-wise comparison of product argument lists from position `i`,
/// stopping at the first numeric coefficient on either side.
fn cmp_terms_args_from(t1: &Vec<Atom>, t2: &Vec<Atom>, i: usize) -> (r: Result<
    core::cmp::Ordering,
    NormalizeError,
>)
    requires
        i <= t1@.len(),
        i <= t2@.len(),
        all_coeffs_canon(view_seq(t1@)),
        all_coeffs_canon(view_seq(t2@)),
    ensures
        spec_cmp_terms_args(view_seq(t1@).skip(i as int), view_seq(t2@).skip(i as int)) matches
            Some(o) ==> r == Ok::<core::cmp::Ordering, NormalizeError>(o),
        spec_cmp_terms_args(view_seq(t1@).skip(i as int), view_seq(t2@).skip(i as int)) is None
            ==> r == Err::<core::cmp::Ordering, NormalizeError>(NormalizeError::LogicError),
    decreases t1@.len() - i,
{
    proof {
        lemma_view_seq_len(t1@);
        lemma_view_seq_len(t2@);
    }
    if i == t1.len() || i == t2.len() {
        proof {
            assert(view_seq(t1@).skip(i as int).len() == 0 || view_seq(t2@).skip(
                i as int).len() == 0);
        }
        return Ok(core::cmp::Ordering::Equal);
    }
    proof {
        lemma_view_seq_index(t1@, i as int);
        lemma_view_seq_index(t2@, i as int);
        lemma_all_coeffs_canon_index(view_seq(t1@), i as int);
        lemma_all_coeffs_canon_index(view_seq(t2@), i as int);
        assert(view_seq(t1@).skip(i as int)[0] == view_seq(t1@)[i as int]);
        assert(view_seq(t2@).skip(i as int)[0] == view_seq(t2@)[i as int]);
        assert(view_seq(t1@).skip(i as int).skip(1) =~= view_seq(t1@).skip(i as int + 1));
        assert(view_seq(t2@).skip(i as int).skip(1) =~= view_seq(t2@).skip(i as int + 1));
    }
    let num1 = match &t1[i] {
        Atom::Num(_, _) => true,
        _ => false,
    };
    let num2 = match &t2[i] {
        Atom::Num(_, _) => true,
        _ => false,
    };
    if num1 || num2 {
        return Ok(core::cmp::Ordering::Equal);
    }
    let rc = t1[i].cmp(&t2[i]);
    match rc {
        Ok(core::cmp::Ordering::Equal) => cmp_terms_args_from(t1, t2, i + 1),
        _ => rc,
    }
}

} // verus!
