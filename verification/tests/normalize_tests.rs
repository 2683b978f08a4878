use canonize::atom::{eq_atoms, Atom};
use canonize::coefficient::{Coefficient, CoefficientView, ConvertToRing, IntegerRing, RationalField};
use canonize::error::NormalizeError;
use canonize::poly::{Monomial, MultivariatePolynomial, RationalPolynomial};
use canonize::rational::{LargeRational, Rational};
use canonize::state::{State, SYMBOL_I};

const X: u64 = 10;
const Y: u64 = 11;
const F: u64 = 20;
const G: u64 = 21;

fn num(n: i64, d: i64) -> Atom {
    Atom::new_num(Coefficient::Rational(Rational::Natural(n, d)))
}

fn clean_num(n: i64, d: i64) -> Atom {
    Atom::Num(false, Coefficient::Rational(Rational::Natural(n, d)))
}

fn clean_pow(base: Atom, exp: Atom) -> Atom {
    Atom::Pow(false, Box::new(base), Box::new(exp))
}

fn norm(a: &Atom, st: &State) -> Atom {
    a.normalize(st).expect("normalization should succeed")
}

#[test]
fn p1_idempotence_scenario() {
    let st = State::new();
    let e = Atom::new_mul(vec![
        Atom::new_add(vec![Atom::new_var(X), Atom::new_var(X)]),
        Atom::new_var(Y),
    ]);
    let n1 = norm(&e, &st);
    let n2 = norm(&n1, &st);
    assert!(eq_atoms(&n1, &n2));
}

#[test]
fn p2_x_times_x() {
    let st = State::new();
    let e = Atom::new_mul(vec![Atom::new_var(X), Atom::new_var(X)]);
    let expected = clean_pow(Atom::Var(X), clean_num(2, 1));
    assert!(eq_atoms(&norm(&e, &st), &expected));
}

#[test]
fn p2_x2_times_x3() {
    let st = State::new();
    let e = Atom::new_mul(vec![
        Atom::new_pow(Atom::new_var(X), num(2, 1)),
        Atom::new_pow(Atom::new_var(X), num(3, 1)),
    ]);
    let expected = clean_pow(Atom::Var(X), clean_num(5, 1));
    assert!(eq_atoms(&norm(&e, &st), &expected));
}

#[test]
fn p2_x_plus_x() {
    let st = State::new();
    let e = Atom::new_add(vec![Atom::new_var(X), Atom::new_var(X)]);
    let expected = Atom::Mul(false, vec![Atom::Var(X), clean_num(2, 1)]);
    assert!(eq_atoms(&norm(&e, &st), &expected));
}

#[test]
fn p2_three_x_plus_two_x() {
    let st = State::new();
    let e = Atom::new_add(vec![
        Atom::new_mul(vec![Atom::new_var(X), num(3, 1)]),
        Atom::new_mul(vec![Atom::new_var(X), num(2, 1)]),
    ]);
    let expected = Atom::Mul(false, vec![Atom::Var(X), clean_num(5, 1)]);
    assert!(eq_atoms(&norm(&e, &st), &expected));
}

#[test]
fn p2_x_minus_x() {
    let st = State::new();
    let e = Atom::new_add(vec![
        Atom::new_var(X),
        Atom::new_mul(vec![Atom::new_var(X), num(-1, 1)]),
    ]);
    let expected = clean_num(0, 1);
    assert!(eq_atoms(&norm(&e, &st), &expected));
}

#[test]
fn p3_nested_power() {
    let st = State::new();
    let e = Atom::new_pow(Atom::new_pow(Atom::new_var(X), num(2, 1)), num(3, 1));
    let expected = clean_pow(Atom::Var(X), clean_num(6, 1));
    assert!(eq_atoms(&norm(&e, &st), &expected));
}

#[test]
fn p3_power_zero() {
    let st = State::new();
    let e = Atom::new_pow(Atom::new_var(X), num(0, 1));
    let expected = clean_num(1, 1);
    assert!(eq_atoms(&norm(&e, &st), &expected));
}

#[test]
fn p3_power_one() {
    let st = State::new();
    let e = Atom::new_pow(Atom::new_var(X), num(1, 1));
    let expected = Atom::Var(X);
    assert!(eq_atoms(&norm(&e, &st), &expected));
}

#[test]
fn p3_two_cubed_is_exact_eight() {
    let st = State::new();
    let e = Atom::new_pow(num(2, 1), num(3, 1));
    let expected = clean_num(8, 1);
    assert!(eq_atoms(&norm(&e, &st), &expected));
}

#[test]
fn p4_i_times_i() {
    let st = State::new();
    let e = Atom::new_mul(vec![Atom::new_var(SYMBOL_I), Atom::new_var(SYMBOL_I)]);
    let expected = clean_num(-1, 1);
    assert!(eq_atoms(&norm(&e, &st), &expected));
}

#[test]
fn p4_i_fourth_power() {
    let st = State::new();
    let e = Atom::new_pow(Atom::new_var(SYMBOL_I), num(4, 1));
    let expected = clean_num(1, 1);
    assert!(eq_atoms(&norm(&e, &st), &expected));
}

#[test]
fn p4_i_squared() {
    let st = State::new();
    let e = Atom::new_pow(Atom::new_var(SYMBOL_I), num(2, 1));
    let expected = clean_num(-1, 1);
    assert!(eq_atoms(&norm(&e, &st), &expected));
}

#[test]
fn p5_sum_order_is_deterministic() {
    let st = State::new();
    let a = Atom::new_add(vec![
        Atom::new_var(X),
        Atom::new_pow(Atom::new_var(Y), num(2, 1)),
        num(7, 1),
    ]);
    let b = Atom::new_add(vec![
        num(7, 1),
        Atom::new_pow(Atom::new_var(Y), num(2, 1)),
        Atom::new_var(X),
    ]);
    assert!(eq_atoms(&norm(&a, &st), &norm(&b, &st)));
}

#[test]
fn p5_product_order_is_deterministic() {
    let st = State::new();
    let a = Atom::new_mul(vec![num(3, 1), Atom::new_var(Y), Atom::new_var(X)]);
    let b = Atom::new_mul(vec![Atom::new_var(X), num(3, 1), Atom::new_var(Y)]);
    assert!(eq_atoms(&norm(&a, &st), &norm(&b, &st)));
}

#[test]
fn p5_number_sorts_last_in_product() {
    let st = State::new();
    let e = Atom::new_mul(vec![num(3, 1), Atom::new_var(X)]);
    let expected = Atom::Mul(false, vec![Atom::Var(X), clean_num(3, 1)]);
    assert!(eq_atoms(&norm(&e, &st), &expected));
}

#[test]
fn p6_incompatible_finite_fields() {
    let mut st = State::new();
    let f5 = st.register_finite_field(5);
    let f7 = st.register_finite_field(7);
    let a = Coefficient::FiniteField(1, f5);
    let b = Coefficient::FiniteField(1, f7);
    assert!(matches!(
        a.add(&b, &st),
        Err(NormalizeError::IncompatibleFiniteFields)
    ));
    assert!(matches!(
        a.mul(&b, &st),
        Err(NormalizeError::IncompatibleFiniteFields)
    ));
}

#[test]
fn p6_mixed_domain_is_rejected() {
    let mut st = State::new();
    let f5 = st.register_finite_field(5);
    let a = Coefficient::FiniteField(2, f5);
    let b = Coefficient::Rational(Rational::Natural(1, 2));
    assert!(matches!(a.add(&b, &st), Err(NormalizeError::InvalidDomainMix)));
    assert!(matches!(b.mul(&a, &st), Err(NormalizeError::InvalidDomainMix)));
}

#[test]
fn p6_same_field_adds_modulo_prime() {
    let mut st = State::new();
    let f5 = st.register_finite_field(5);
    let a = Coefficient::FiniteField(3, f5);
    let b = Coefficient::FiniteField(4, f5);
    match a.add(&b, &st) {
        Ok(Coefficient::FiniteField(el, idx)) => {
            assert_eq!(el, 2);
            assert_eq!(idx, f5);
        }
        _ => panic!("expected a finite-field sum"),
    }
    match a.mul(&b, &st) {
        Ok(Coefficient::FiniteField(el, idx)) => {
            assert_eq!(el, 2);
            assert_eq!(idx, f5);
        }
        _ => panic!("expected a finite-field product"),
    }
}

#[test]
fn p7_antisymmetric_collapse() {
    let mut st = State::new();
    st.register_function(G, false, false, true);
    let e = Atom::new_fun(G, vec![Atom::new_var(X), Atom::new_var(X)]);
    let expected = clean_num(0, 1);
    assert!(eq_atoms(&norm(&e, &st), &expected));
}

#[test]
fn p7_antisymmetric_odd_swap_negates() {
    let mut st = State::new();
    st.register_function(G, false, false, true);
    let e = Atom::new_fun(G, vec![Atom::new_var(Y), Atom::new_var(X)]);
    let expected = Atom::Mul(
        false,
        vec![
            Atom::Fun(false, G, vec![Atom::Var(X), Atom::Var(Y)]),
            clean_num(-1, 1),
        ],
    );
    assert!(eq_atoms(&norm(&e, &st), &expected));
}

#[test]
fn p8_linear_distribution() {
    let mut st = State::new();
    st.register_function(F, true, false, false);
    let e = Atom::new_fun(
        F,
        vec![Atom::new_add(vec![Atom::new_var(X), Atom::new_var(Y)])],
    );
    let expected = Atom::Add(
        false,
        vec![
            Atom::Fun(false, F, vec![Atom::Var(X)]),
            Atom::Fun(false, F, vec![Atom::Var(Y)]),
        ],
    );
    assert!(eq_atoms(&norm(&e, &st), &expected));
}

#[test]
fn p8_linear_coefficient_stripping() {
    let mut st = State::new();
    st.register_function(F, true, false, false);
    let e = Atom::new_fun(F, vec![Atom::new_mul(vec![Atom::new_var(X), num(3, 1)])]);
    let expected = Atom::Mul(
        false,
        vec![Atom::Fun(false, F, vec![Atom::Var(X)]), clean_num(3, 1)],
    );
    assert!(eq_atoms(&norm(&e, &st), &expected));
}

#[test]
fn p9_rational_exactness() {
    let st = State::new();
    let e = Atom::new_add(vec![num(1, 3), num(1, 6)]);
    let expected = clean_num(1, 2);
    assert!(eq_atoms(&norm(&e, &st), &expected));
}

#[test]
fn dirty_fraction_is_reduced() {
    let st = State::new();
    let e = num(2, 4);
    let expected = clean_num(1, 2);
    assert!(eq_atoms(&norm(&e, &st), &expected));
}

#[test]
fn negative_denominator_is_normalized() {
    let st = State::new();
    let e = num(3, -6);
    let expected = clean_num(-1, 2);
    assert!(eq_atoms(&norm(&e, &st), &expected));
}

#[test]
fn large_power_has_exact_digits() {
    let st = State::new();
    let e = Atom::new_pow(num(2, 1), num(100, 1));
    // 2^100 = 16 * 256^12, little-endian base-256 digits
    let mut digits = vec![0u8; 12];
    digits.push(16);
    let expected = Atom::Num(
        false,
        Coefficient::Rational(Rational::Large(LargeRational {
            is_negative: false,
            num_digits: digits,
            den_digits: vec![1],
        })),
    );
    assert!(eq_atoms(&norm(&e, &st), &expected));
}

#[test]
fn large_values_still_merge_exactly() {
    let st = State::new();
    // 2^100 + 2^100 = 2^101
    let e = Atom::new_add(vec![
        Atom::new_pow(num(2, 1), num(100, 1)),
        Atom::new_pow(num(2, 1), num(100, 1)),
    ]);
    let mut digits = vec![0u8; 12];
    digits.push(32);
    let expected = Atom::Num(
        false,
        Coefficient::Rational(Rational::Large(LargeRational {
            is_negative: false,
            num_digits: digits,
            den_digits: vec![1],
        })),
    );
    assert!(eq_atoms(&norm(&e, &st), &expected));
}

#[test]
fn zero_factor_collapses_product() {
    let st = State::new();
    let e = Atom::new_mul(vec![Atom::new_var(X), num(0, 1), Atom::new_var(Y)]);
    let expected = clean_num(0, 1);
    assert!(eq_atoms(&norm(&e, &st), &expected));
}

#[test]
fn zero_to_negative_power_is_division_by_zero() {
    let st = State::new();
    let e = Atom::new_pow(num(0, 1), num(-2, 1));
    assert!(matches!(
        e.normalize(&st),
        Err(NormalizeError::DivisionByZero)
    ));
}

#[test]
fn huge_exponent_is_rejected() {
    let st = State::new();
    let e = Atom::new_pow(num(2, 1), num(5_000_000_000, 1));
    assert!(matches!(
        e.normalize(&st),
        Err(NormalizeError::ExponentTooLarge)
    ));
}

#[test]
fn comparing_across_domains_is_a_logic_error() {
    let mut st = State::new();
    let f5 = st.register_finite_field(5);
    let a = Atom::Num(false, Coefficient::Rational(Rational::Natural(1, 2)));
    let b = Atom::Num(false, Coefficient::FiniteField(1, f5));
    assert!(matches!(a.cmp(&b), Err(NormalizeError::LogicError)));
}

#[test]
fn fractional_exponent_keeps_leftover() {
    let st = State::new();
    // 4^(3/2): the numerator of the exponent is absorbed, the denominator stays
    let e = Atom::new_pow(num(4, 1), num(3, 2));
    let expected = clean_pow(clean_num(64, 1), clean_num(1, 2));
    assert!(eq_atoms(&norm(&e, &st), &expected));
}

#[test]
fn argument_list_wrapper_is_flattened() {
    let st = State::new();
    let arg_list = Atom::new_fun(
        canonize::state::SYMBOL_ARG,
        vec![Atom::new_var(X), Atom::new_var(Y)],
    );
    let e = Atom::new_fun(F, vec![arg_list]);
    let expected = Atom::Fun(false, F, vec![Atom::Var(X), Atom::Var(Y)]);
    assert!(eq_atoms(&norm(&e, &st), &expected));
}

#[test]
fn coefficient_wrapper_unwraps_a_number() {
    let st = State::new();
    let e = Atom::new_fun(canonize::state::SYMBOL_COEFF, vec![num(5, 1)]);
    let expected = clean_num(5, 1);
    assert!(eq_atoms(&norm(&e, &st), &expected));
}

#[test]
fn serialized_rational_view_roundtrip() {
    let mut digits = vec![0u8; 12];
    digits.push(16);
    let large = Coefficient::Rational(Rational::Large(LargeRational {
        is_negative: true,
        num_digits: digits,
        den_digits: vec![1],
    }));
    match large.coeff_view() {
        CoefficientView::Large(sr) => {
            assert!(sr.is_negative());
            let owned = sr.to_rat();
            assert!(owned.eq_structural(match &large {
                Coefficient::Rational(q) => q,
                _ => unreachable!(),
            }));
        }
        _ => panic!("expected the serialized view"),
    }
}

#[test]
fn convert_to_ring_rational_and_integer() {
    let rf = RationalField;
    let ir = IntegerRing;
    let half = Coefficient::Rational(Rational::Natural(1, 2));
    let three = Coefficient::Rational(Rational::Natural(3, 1));
    assert!(rf.element_from_coefficient(half).is_ok());
    let r = ir.element_from_coefficient(three);
    match r {
        Ok(q) => assert!(q.eq_structural(&Rational::Natural(3, 1))),
        Err(_) => panic!("an integer coefficient converts into the integer ring"),
    }
    let half2 = Coefficient::Rational(Rational::Natural(1, 2));
    assert!(matches!(
        ir.element_from_coefficient(half2),
        Err(NormalizeError::LogicError)
    ));
}

#[test]
fn merge_terms_combines_equal_bare_terms() {
    let st = State::new();
    let mut a = Atom::Var(X);
    let b = Atom::Var(X);
    let merged = a.merge_terms(&b, &st).expect("merging should succeed");
    assert!(merged);
    let expected = Atom::Mul(false, vec![Atom::Var(X), clean_num(2, 1)]);
    assert!(eq_atoms(&a, &expected));
}

#[test]
fn merge_factors_leaves_unrelated_factors() {
    let st = State::new();
    let mut a = Atom::Var(X);
    let b = Atom::Var(Y);
    let before = a.duplicate();
    let merged = a.merge_factors(&b, &st).expect("merging should succeed");
    assert!(!merged);
    assert!(eq_atoms(&a, &before));
}

#[test]
fn is_dirty_reflects_construction() {
    let fresh = Atom::new_mul(vec![Atom::new_var(X)]);
    assert!(fresh.is_dirty());
    assert!(!Atom::new_var(X).is_dirty());
    let st = State::new();
    assert!(!norm(&fresh, &st).is_dirty());
}

#[test]
fn coefficient_wrapper_converts_to_polynomial() {
    let st = State::new();
    let e = Atom::new_fun(
        canonize::state::SYMBOL_COEFF,
        vec![Atom::new_add(vec![Atom::new_var(X), num(1, 1)])],
    );
    let expected_poly = RationalPolynomial {
        numerator: MultivariatePolynomial {
            var_map: vec![X],
            terms: vec![
                Monomial {
                    coefficient: Rational::Natural(1, 1),
                    exponents: vec![1],
                },
                Monomial {
                    coefficient: Rational::Natural(1, 1),
                    exponents: vec![0],
                },
            ],
        },
        denominator: MultivariatePolynomial {
            var_map: vec![X],
            terms: vec![Monomial {
                coefficient: Rational::Natural(1, 1),
                exponents: vec![0],
            }],
        },
    };
    let expected = Atom::Num(false, Coefficient::RationalPolynomial(expected_poly));
    assert!(eq_atoms(&norm(&e, &st), &expected));
}

#[test]
fn coefficient_wrapper_keeps_wildcard_arguments() {
    let mut st = State::new();
    st.register_wildcard(X);
    let e = Atom::new_fun(
        canonize::state::SYMBOL_COEFF,
        vec![Atom::new_add(vec![Atom::new_var(X), num(1, 1)])],
    );
    let expected = Atom::Fun(
        false,
        canonize::state::SYMBOL_COEFF,
        vec![Atom::Add(false, vec![Atom::Var(X), clean_num(1, 1)])],
    );
    assert!(eq_atoms(&norm(&e, &st), &expected));
}

#[test]
fn set_coefficient_ring_moves_a_variable_into_the_ring() {
    let st = State::new();
    let x = Atom::Var(X);
    let (converted, changed) = x
        .set_coefficient_ring(&vec![X], &st)
        .expect("conversion should succeed");
    assert!(changed);
    let expected_poly = RationalPolynomial {
        numerator: MultivariatePolynomial {
            var_map: vec![X],
            terms: vec![Monomial {
                coefficient: Rational::Natural(1, 1),
                exponents: vec![1],
            }],
        },
        denominator: MultivariatePolynomial {
            var_map: vec![X],
            terms: vec![Monomial {
                coefficient: Rational::Natural(1, 1),
                exponents: vec![0],
            }],
        },
    };
    let expected = Atom::Num(false, Coefficient::RationalPolynomial(expected_poly));
    assert!(eq_atoms(&converted, &expected));
}

#[test]
fn set_coefficient_ring_leaves_other_variables() {
    let st = State::new();
    let y = Atom::Var(Y);
    let (converted, changed) = y
        .set_coefficient_ring(&vec![X], &st)
        .expect("conversion should succeed");
    assert!(!changed);
    assert!(eq_atoms(&converted, &Atom::Var(Y)));
}

#[test]
fn set_coefficient_ring_unfolds_a_shrinking_ring() {
    let st = State::new();
    // bring x into the ring, then take it back out: x must reappear as a symbol
    let x = Atom::Var(X);
    let (as_poly, _) = x
        .set_coefficient_ring(&vec![X], &st)
        .expect("conversion should succeed");
    let (back, changed) = as_poly
        .set_coefficient_ring(&vec![Y], &st)
        .expect("conversion should succeed");
    assert!(changed);
    assert!(eq_atoms(&back, &Atom::Var(X)));
}

#[test]
fn power_of_a_finite_field_element_is_unsupported() {
    let mut st = State::new();
    let f5 = st.register_finite_field(5);
    let base = Atom::new_num(Coefficient::FiniteField(2, f5));
    let e = Atom::new_pow(base, num(2, 1));
    assert!(matches!(
        e.normalize(&st),
        Err(NormalizeError::UnsupportedPower)
    ));
}

#[test]
fn merge_factors_adds_power_exponents() {
    let st = State::new();
    let mut a = clean_pow(Atom::Var(X), clean_num(2, 1));
    let b = clean_pow(Atom::Var(X), clean_num(3, 1));
    let merged = a.merge_factors(&b, &st).expect("merging should succeed");
    assert!(merged);
    let expected = clean_pow(Atom::Var(X), clean_num(5, 1));
    assert!(eq_atoms(&a, &expected));
}

#[test]
fn merge_factors_cancels_opposite_exponents() {
    let st = State::new();
    let mut a = clean_pow(Atom::Var(X), clean_num(-2, 1));
    let b = clean_pow(Atom::Var(X), clean_num(2, 1));
    let merged = a.merge_factors(&b, &st).expect("merging should succeed");
    assert!(merged);
    assert!(eq_atoms(&a, &clean_num(1, 1)));
}

#[test]
fn symmetric_function_sorts_arguments() {
    let mut st = State::new();
    st.register_function(F, false, true, false);
    let e = Atom::new_fun(F, vec![Atom::new_var(Y), Atom::new_var(X)]);
    let expected = Atom::Fun(false, F, vec![Atom::Var(X), Atom::Var(Y)]);
    assert!(eq_atoms(&norm(&e, &st), &expected));
}

#[test]
fn p4_i_cubed_is_negated_i() {
    let st = State::new();
    let e = Atom::new_pow(Atom::new_var(SYMBOL_I), num(3, 1));
    let expected = Atom::Mul(false, vec![Atom::Var(SYMBOL_I), clean_num(-1, 1)]);
    assert!(eq_atoms(&norm(&e, &st), &expected));
}

#[test]
fn p4_i_reciprocal_is_negated_i() {
    let st = State::new();
    let e = Atom::new_pow(Atom::new_var(SYMBOL_I), num(-1, 1));
    let expected = Atom::Mul(false, vec![Atom::Var(SYMBOL_I), clean_num(-1, 1)]);
    assert!(eq_atoms(&norm(&e, &st), &expected));
}

#[test]
fn default_coefficient_is_zero() {
    let d = Coefficient::default();
    match d {
        Coefficient::Rational(q) => assert!(q.eq_structural(&Rational::Natural(0, 1))),
        _ => panic!("the default coefficient is the rational zero"),
    }
}

#[test]
fn empty_product_and_sum_collapse() {
    let st = State::new();
    let p = Atom::new_mul(vec![]);
    let s = Atom::new_add(vec![]);
    assert!(eq_atoms(&norm(&p, &st), &clean_num(1, 1)));
    assert!(eq_atoms(&norm(&s, &st), &clean_num(0, 1)));
}
