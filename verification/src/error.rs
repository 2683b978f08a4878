use vstd::prelude::*;

verus! {

/// The closed set of fatal conditions normalization can report.
#[derive(PartialEq, Eq, Structural, Clone, Copy, Debug)]
pub enum NormalizeError {
    /// Two finite-field coefficients from different fields were combined.
    IncompatibleFiniteFields,
    /// A finite-field coefficient was combined with one from another domain.
    InvalidDomainMix,
    /// Zero was raised to a negative power, or a zero denominator was inverted.
    DivisionByZero,
    /// An integer exponent exceeded the supported magnitude bound.
    ExponentTooLarge,
    /// A base-domain and exponent-domain pair with no defined power rule.
    UnsupportedPower,
    /// A comparison between coefficient shapes that cannot co-occur in a
    /// well-formed tree: an invariant violation, not an input problem.
    LogicError,
}

} // verus!
