use vstd::prelude::*;

verus! {

use vstd::arithmetic::div_mod::lemma_mod_bound;

/// Identifier of the imaginary-unit symbol.
pub const SYMBOL_I: u64 = 0;

/// Identifier of the argument-list wrapper function.
pub const SYMBOL_ARG: u64 = 1;

/// Identifier of the coefficient wrapper function.
pub const SYMBOL_COEFF: u64 = 2;

/// Declared algebraic properties of one function identifier.
#[derive(PartialEq, Eq, Structural, Clone, Copy, Debug)]
pub struct FunctionProperties {
    pub id: u64,
    pub is_linear: bool,
    pub is_symmetric: bool,
    pub is_antisymmetric: bool,
}

/// Mathematical mirror of the registry.
pub struct StateV {
    pub primes: Seq<u64>,
    pub functions: Seq<FunctionProperties>,
    pub wildcards: Seq<u64>,
}

/// First registered properties for an identifier; all attributes are absent
/// for an identifier that was never registered.
pub open spec fn props_lookup(fns: Seq<FunctionProperties>, id: u64) -> FunctionProperties
    decreases fns.len(),
{
    if fns.len() == 0 {
        FunctionProperties { id: id, is_linear: false, is_symmetric: false, is_antisymmetric: false }
    } else if fns[0].id == id {
        fns[0]
    } else {
        props_lookup(fns.skip(1), id)
    }
}

impl StateV {
    /// Every finite field is described by a prime of at least two.
    pub open spec fn wf(self) -> bool {
        forall|i: int| 0 <= i < self.primes.len() ==> self.primes[i] >= 2
    }

    pub open spec fn props_of(self, id: u64) -> FunctionProperties {
        props_lookup(self.functions, id)
    }

    pub open spec fn is_wildcard(self, id: u64) -> bool {
        self.wildcards.contains(id)
    }
}

/// The symbol registry: finite-field descriptors, per-identifier function
/// attributes and wildcard markings, passed explicitly into every call.
pub struct State {
    pub finite_field_primes: Vec<u64>,
    pub functions: Vec<FunctionProperties>,
    pub wildcards: Vec<u64>,
}

impl View for State {
    type V = StateV;

    open spec fn view(&self) -> StateV {
        StateV {
            primes: self.finite_field_primes@,
            functions: self.functions@,
            wildcards: self.wildcards@,
        }
    }
}

impl State {
    /// An empty registry.
    pub fn new() -> (r: State)
        ensures
            r@.wf(),
            r@.primes.len() == 0,
            r@.functions.len() == 0,
            r@.wildcards.len() == 0,
    {
        State { finite_field_primes: Vec::new(), functions: Vec::new(), wildcards: Vec::new() }
    }

    /// Registers a finite field by its prime; hands back its index.
    pub fn register_finite_field(&mut self, prime: u64) -> (idx: usize)
        requires
            old(self)@.wf(),
            prime >= 2,
        ensures
            final(self)@.wf(),
            final(self)@.primes == old(self)@.primes.push(prime),
            final(self)@.functions == old(self)@.functions,
            final(self)@.wildcards == old(self)@.wildcards,
            idx == old(self)@.primes.len(),
    {
        let idx = self.finite_field_primes.len();
        self.finite_field_primes.push(prime);
        proof {
            assert forall|i: int| 0 <= i < self@.primes.len() implies self@.primes[i] >= 2 by {
                if i < old(self)@.primes.len() {
                    assert(self@.primes[i] == old(self)@.primes[i]);
                }
            }
        }
        idx
    }

    /// The prime of the finite field at the given index.
    pub fn get_prime(&self, idx: usize) -> (p: u64)
        requires
            self@.wf(),
            idx < self@.primes.len(),
        ensures
            p == self@.primes[idx as int],
            p >= 2,
    {
        self.finite_field_primes[idx]
    }

    /// Registers the attributes of a function identifier.
    pub fn register_function(&mut self, id: u64, linear: bool, symmetric: bool, antisymmetric: bool)
        ensures
            final(self)@.primes == old(self)@.primes,
            final(self)@.wildcards == old(self)@.wildcards,
            final(self)@.functions == old(self)@.functions.push(
                FunctionProperties {
                    id: id,
                    is_linear: linear,
                    is_symmetric: symmetric,
                    is_antisymmetric: antisymmetric,
                },
            ),
    {
        self.functions.push(
            FunctionProperties {
                id: id,
                is_linear: linear,
                is_symmetric: symmetric,
                is_antisymmetric: antisymmetric,
            },
        );
    }

    /// Marks an identifier as a wildcard.
    pub fn register_wildcard(&mut self, id: u64)
        ensures
            final(self)@.primes == old(self)@.primes,
            final(self)@.functions == old(self)@.functions,
            final(self)@.wildcards == old(self)@.wildcards.push(id),
    {
        self.wildcards.push(id);
    }

    /// Looks up the attributes of a function identifier.
    pub fn get_function_properties(&self, id: u64) -> (r: FunctionProperties)
        ensures
            r == self@.props_of(id),
    {
        let n = self.functions.len();
        let mut i: usize = 0;
        proof {
            assert(self.functions@.skip(0) =~= self.functions@);
        }
        while i < n
            invariant
                i <= n,
                n == self.functions@.len(),
                props_lookup(self.functions@, id) == props_lookup(self.functions@.skip(i as int),
                    id),
            decreases n - i,
        {
            proof {
                assert(self.functions@.skip(i as int)[0] == self.functions@[i as int]);
                assert(self.functions@.skip(i as int).skip(1) =~= self.functions@.skip(i + 1));
            }
            if self.functions[i].id == id {
                return self.functions[i];
            }
            i = i + 1;
        }
        proof {
            assert(self.functions@.skip(i as int).len() == 0);
        }
        FunctionProperties { id: id, is_linear: false, is_symmetric: false, is_antisymmetric: false }
    }

    /// Whether an identifier carries a wildcard marking.
    pub fn is_wildcard(&self, id: u64) -> (r: bool)
        ensures
            r == self@.is_wildcard(id),
    {
        let n = self.wildcards.len();
        let mut i: usize = 0;
        while i < n
            invariant
                i <= n,
                n == self.wildcards@.len(),
                forall|j: int| 0 <= j < i ==> self.wildcards@[j] != id,
            decreases n - i,
        {
            if self.wildcards[i] == id {
                return true;
            }
            i = i + 1;
        }
        false
    }
}

/// Addition in the finite field with the given prime.
pub fn ff_add(a: u64, b: u64, p: u64) -> (r: u64)
    requires
        p >= 1,
    ensures
        r as nat == ((a as nat) + (b as nat)) % (p as nat),
        r < p,
{
    let s: u128 = a as u128 + b as u128;
    proof {
        lemma_mod_bound(s as int, p as int);
    }
    (s % (p as u128)) as u64
}

/// Multiplication in the finite field with the given prime.
pub fn ff_mul(a: u64, b: u64, p: u64) -> (r: u64)
    requires
        p >= 1,
    ensures
        r as nat == ((a as nat) * (b as nat)) % (p as nat),
        r < p,
{
    proof {
        assert((a as int) * (b as int) <= 0xffff_ffff_ffff_ffff * 0xffff_ffff_ffff_ffff
            && (a as int) * (b as int) >= 0) by (nonlinear_arith)
            requires
                a <= 0xffff_ffff_ffff_ffff,
                b <= 0xffff_ffff_ffff_ffff,
        ;
    }
    let s: u128 = (a as u128) * (b as u128);
    proof {
        lemma_mod_bound(s as int, p as int);
    }
    (s % (p as u128)) as u64
}

} // verus!
