//! The host side: variable handles, linear combinations over them, and the
//! constraint system that a statement is built into.

use vstd::prelude::*;
use crate::field::{le_value, modulus, FieldElement};

verus! {

/// A variable of the host constraint system: the index of a public input or
/// of an auxiliary (private) variable.
#[derive(Clone, Copy, Debug, PartialEq, Eq, Hash, Structural)]
pub enum VariableHandle {
    Input(usize),
    Aux(usize),
}

/// Whether a variable is exposed as a proof input.
#[derive(Clone, Copy, Debug, PartialEq, Eq, Structural)]
pub enum Role {
    /// A public instance variable: an input of the proof.
    Public,
    /// A private auxiliary variable: never exposed.
    Private,
}

/// The integer of an optional field element.
pub open spec fn value_view(value: Option<FieldElement>) -> Option<nat> {
    match value {
        Some(fe) => Some(fe@),
        None => None,
    }
}

/// A linear combination as a sequence of terms: a handle and the integer of
/// its coefficient. The order is the order of insertion.
pub type Terms = Seq<(VariableHandle, nat)>;

/// A weighted sum of host variables, held as the linear combination of the
/// proving engine. Terms keep the order in which they were added; nothing
/// is merged or sorted.
#[verifier::external_body]
pub struct Combination {
    terms: bellman::LinearCombination<bls12_381::Scalar>,
}

/// The terms that a combination holds, in the order in which they were
/// added: the variable of each, and the integer of its coefficient.
pub uninterp spec fn engine_terms(lc: Combination) -> Terms;

/// The empty combination.
///
/// Calls `bellman::LinearCombination::zero`, which makes a combination
/// without terms.
#[verifier::external_body]
fn engine_zero() -> (lc: Combination)
    ensures
        engine_terms(lc) == Terms::empty(),
{
    Combination { terms: bellman::LinearCombination::zero() }
}

/// Adds the term `coeff * var` at the end of a combination.
///
/// Calls the `+` of `bellman::LinearCombination` with a coefficient and a
/// variable, which pushes that term behind the others and leaves them as
/// they are. The coefficient is read from its canonical bytes by
/// `bls12_381::Scalar::from_bytes`, which yields the scalar of that integer
/// for every integer below the modulus.
#[verifier::external_body]
fn engine_add(lc: Combination, coeff: &[u8; 32], var: VariableHandle) -> (sum: Combination)
    requires
        le_value(coeff@) < modulus(),
    ensures
        engine_terms(sum) == engine_terms(lc).push((var, le_value(coeff@))),
{
    let index = match var {
        VariableHandle::Input(i) => bellman::Index::Input(i),
        VariableHandle::Aux(i) => bellman::Index::Aux(i),
    };
    let coeff = bls12_381::Scalar::from_bytes(coeff).unwrap();
    Combination { terms: lc.terms + (coeff, bellman::Variable::new_unchecked(index)) }
}

/// The number of terms of a combination.
///
/// Calls `as_ref` of `bellman::LinearCombination`, which gives the terms as
/// a slice, and takes its length.
#[verifier::external_body]
fn engine_len(lc: &Combination) -> (n: usize)
    ensures
        n == engine_terms(*lc).len(),
{
    lc.terms.as_ref().len()
}

/// The term at `index`: its variable, and the canonical bytes of its
/// coefficient.
///
/// Calls `as_ref` of `bellman::LinearCombination` for the terms,
/// `bellman::Variable::get_unchecked` for the index behind the variable, and
/// `bls12_381::Scalar::to_bytes`, which writes the integer of a scalar, always
/// below the modulus, as 32 little-endian bytes.
#[verifier::external_body]
fn engine_term(lc: &Combination, index: usize) -> (t: (VariableHandle, [u8; 32]))
    requires
        index < engine_terms(*lc).len(),
    ensures
        (t.0, le_value(t.1@)) == engine_terms(*lc)[index as int],
        le_value(t.1@) < modulus(),
{
    let (var, coeff) = lc.terms.as_ref()[index];
    let handle = match var.get_unchecked() {
        bellman::Index::Input(i) => VariableHandle::Input(i),
        bellman::Index::Aux(i) => VariableHandle::Aux(i),
    };
    (handle, coeff.to_bytes())
}

/// A copy of a combination.
///
/// Calls `clone` of `bellman::LinearCombination`, which copies the terms.
#[verifier::external_body]
fn engine_clone(lc: &Combination) -> (copy: Combination)
    ensures
        engine_terms(copy) == engine_terms(*lc),
{
    Combination { terms: lc.terms.clone() }
}

impl View for Combination {
    type V = Terms;

    open spec fn view(&self) -> Terms {
        engine_terms(*self)
    }
}

impl Clone for Combination {
    fn clone(&self) -> (copy: Combination)
        ensures
            copy@ == self@,
    {
        engine_clone(self)
    }
}

impl Combination {
    /// The empty combination.
    pub fn zero() -> (lc: Combination)
        ensures
            lc@ == Terms::empty(),
    {
        engine_zero()
    }

    /// This combination with `coeff * var` added as its last term.
    pub fn add_term(self, coeff: FieldElement, var: VariableHandle) -> (lc: Combination)
        ensures
            lc@ == self@.push((var, coeff@)),
    {
        let repr = coeff.to_bytes();
        proof {
            crate::field::law_decode_inverts_encode(coeff@);
        }
        engine_add(self, &repr, var)
    }

    /// The number of terms.
    pub fn len(&self) -> (n: usize)
        ensures
            n == self@.len(),
    {
        engine_len(self)
    }

    /// The term at `index`.
    pub fn term(&self, index: usize) -> (t: (VariableHandle, FieldElement))
        requires
            index < self@.len(),
        ensures
            (t.0, t.1@) == self@[index as int],
    {
        let (var, repr) = engine_term(self, index);
        (var, FieldElement::from_canonical(repr))
    }
}

/// The view of a host constraint: the three combinations of `A * B = C`.
pub struct ConstraintView {
    pub a: Terms,
    pub b: Terms,
    pub c: Terms,
}

/// One row of the host constraint system: for every satisfying assignment,
/// the value of `a` times the value of `b` is the value of `c`.
pub struct HostConstraint {
    pub a: Combination,
    pub b: Combination,
    pub c: Combination,
}

impl View for HostConstraint {
    type V = ConstraintView;

    open spec fn view(&self) -> ConstraintView {
        ConstraintView { a: self.a@, b: self.b@, c: self.c@ }
    }
}

/// A host variable together with its value, where one is known.
#[derive(Clone, Copy, Debug, PartialEq, Eq)]
pub struct AllocatedNum {
    value: Option<FieldElement>,
    variable: VariableHandle,
}

impl AllocatedNum {
    pub closed spec fn spec_value(&self) -> Option<nat> {
        value_view(self.value)
    }

    pub closed spec fn spec_variable(&self) -> VariableHandle {
        self.variable
    }

    /// Pairs a variable of the host with its value.
    pub fn new(variable: VariableHandle, value: Option<FieldElement>) -> (num: AllocatedNum)
        ensures
            num.spec_variable() == variable,
            num.spec_value() == value_view(value),
    {
        AllocatedNum { value, variable }
    }

    /// The value, in proving mode.
    pub fn get_value(&self) -> (value: Option<FieldElement>)
        ensures
            value_view(value) == self.spec_value(),
    {
        self.value
    }

    /// The handle of the variable.
    pub fn get_variable(&self) -> (variable: VariableHandle)
        ensures
            variable == self.spec_variable(),
    {
        self.variable
    }
}

/// The view of a host circuit.
pub struct HostCircuitView {
    /// The values of the public inputs, by index. Input 0 is the constant one.
    pub inputs: Seq<Option<nat>>,
    /// The values of the auxiliary variables, by index.
    pub aux: Seq<Option<nat>>,
    /// The constraints, in the order in which they were enforced.
    pub constraints: Seq<ConstraintView>,
}

impl HostCircuitView {
    /// What holds of every host circuit: its first input is the constant
    /// one.
    pub open spec fn wf(self) -> bool {
        self.inputs.len() >= 1 && self.inputs[0] == Some(1nat)
    }

    /// Whether this circuit is `earlier` with more variables and constraints
    /// declared after it.
    pub open spec fn extends(self, earlier: HostCircuitView) -> bool {
        &&& earlier.inputs.len() <= self.inputs.len()
        &&& earlier.aux.len() <= self.aux.len()
        &&& earlier.constraints.len() <= self.constraints.len()
        &&& self.inputs.take(earlier.inputs.len() as int) == earlier.inputs
        &&& self.aux.take(earlier.aux.len() as int) == earlier.aux
        &&& self.constraints.take(earlier.constraints.len() as int) == earlier.constraints
    }

    /// Whether `handle` is a variable of this circuit.
    pub open spec fn has_variable(self, handle: VariableHandle) -> bool {
        match handle {
            VariableHandle::Input(i) => i < self.inputs.len(),
            VariableHandle::Aux(i) => i < self.aux.len(),
        }
    }

    /// The handle that the next allocation with `role` returns.
    pub open spec fn next_handle(self, role: Role) -> VariableHandle {
        match role {
            Role::Public => VariableHandle::Input(self.inputs.len() as usize),
            Role::Private => VariableHandle::Aux(self.aux.len() as usize),
        }
    }

    /// This circuit after one allocation with `role` and `value`.
    pub open spec fn allocate(self, role: Role, value: Option<nat>) -> HostCircuitView {
        match role {
            Role::Public => HostCircuitView { inputs: self.inputs.push(value), ..self },
            Role::Private => HostCircuitView { aux: self.aux.push(value), ..self },
        }
    }

    /// This circuit with one more constraint.
    pub open spec fn enforce(self, constraint: ConstraintView) -> HostCircuitView {
        HostCircuitView { constraints: self.constraints.push(constraint), ..self }
    }
}

/// The host constraint system of one statement-build pass. It hands out
/// variable handles and records values and constraints in order.
pub struct HostCircuit {
    inputs: Vec<Option<FieldElement>>,
    aux: Vec<Option<FieldElement>>,
    constraints: Vec<HostConstraint>,
}

impl View for HostCircuit {
    type V = HostCircuitView;

    closed spec fn view(&self) -> HostCircuitView {
        HostCircuitView {
            inputs: self.inputs@.map_values(|v: Option<FieldElement>| value_view(v)),
            aux: self.aux@.map_values(|v: Option<FieldElement>| value_view(v)),
            constraints: self.constraints@.map_values(|c: HostConstraint| c@),
        }
    }
}

impl HostCircuit {
    /// A circuit with the constant one as its only variable.
    pub fn new() -> (host: HostCircuit)
        ensures
            host@.wf(),
            host@.inputs == seq![Some(1nat)],
            host@.aux == Seq::<Option<nat>>::empty(),
            host@.constraints == Seq::<ConstraintView>::empty(),
    {
        let mut inputs = Vec::new();
        inputs.push(Some(FieldElement::one()));
        let host = HostCircuit { inputs, aux: Vec::new(), constraints: Vec::new() };
        assert(host@.inputs =~= seq![Some(1nat)]);
        assert(host@.aux =~= Seq::<Option<nat>>::empty());
        assert(host@.constraints =~= Seq::<ConstraintView>::empty());
        host
    }

    /// The handle of the constant one.
    pub fn one() -> (handle: VariableHandle)
        ensures
            handle == VariableHandle::Input(0),
    {
        VariableHandle::Input(0)
    }

    /// Declares a fresh variable with the given role and value.
    pub fn allocate(&mut self, role: Role, value: Option<FieldElement>) -> (handle: VariableHandle)
        ensures
            handle == old(self)@.next_handle(role),
            final(self)@ == old(self)@.allocate(role, value_view(value)),
            !old(self)@.has_variable(handle),
            final(self)@.has_variable(handle),
    {
        match role {
            Role::Public => {
                let handle = VariableHandle::Input(self.inputs.len());
                self.inputs.push(value);
                assert(self@.inputs =~= old(self)@.inputs.push(value_view(value)));
                handle
            },
            Role::Private => {
                let handle = VariableHandle::Aux(self.aux.len());
                self.aux.push(value);
                assert(self@.aux =~= old(self)@.aux.push(value_view(value)));
                handle
            },
        }
    }

    /// Asserts `a * b = c` as the next row.
    pub fn enforce(&mut self, a: Combination, b: Combination, c: Combination)
        ensures
            final(self)@ == old(self)@.enforce(ConstraintView { a: a@, b: b@, c: c@ }),
    {
        self.constraints.push(HostConstraint { a, b, c });
        assert(self@.constraints =~= old(self)@.constraints.push(
            ConstraintView { a: a@, b: b@, c: c@ },
        ));
    }

    /// Drops the variables and the constraints beyond the given counts:
    /// undoes what was declared and enforced since the counts were taken.
    pub(crate) fn rollback(&mut self, num_inputs: usize, num_aux: usize, num_constraints: usize)
        requires
            num_inputs <= old(self)@.inputs.len(),
            num_aux <= old(self)@.aux.len(),
            num_constraints <= old(self)@.constraints.len(),
        ensures
            final(self)@.inputs == old(self)@.inputs.take(num_inputs as int),
            final(self)@.aux == old(self)@.aux.take(num_aux as int),
            final(self)@.constraints == old(self)@.constraints.take(num_constraints as int),
    {
        self.inputs.truncate(num_inputs);
        assert(self@.inputs =~= old(self)@.inputs.take(num_inputs as int));
        self.aux.truncate(num_aux);
        self.constraints.truncate(num_constraints);
        assert(self@.aux =~= old(self)@.aux.take(num_aux as int));
        assert(self@.constraints =~= old(self)@.constraints.take(num_constraints as int));
    }

    /// The number of public inputs, the constant one included.
    pub fn num_inputs(&self) -> (n: usize)
        ensures
            n == self@.inputs.len(),
    {
        self.inputs.len()
    }

    /// The number of auxiliary variables.
    pub fn num_aux(&self) -> (n: usize)
        ensures
            n == self@.aux.len(),
    {
        self.aux.len()
    }

    /// The number of constraints.
    pub fn num_constraints(&self) -> (n: usize)
        ensures
            n == self@.constraints.len(),
    {
        self.constraints.len()
    }

    /// The value of a variable of this circuit, where one was given.
    pub fn value(&self, handle: VariableHandle) -> (value: Option<FieldElement>)
        requires
            self@.has_variable(handle),
        ensures
            value_view(value) == match handle {
                VariableHandle::Input(i) => self@.inputs[i as int],
                VariableHandle::Aux(i) => self@.aux[i as int],
            },
    {
        match handle {
            VariableHandle::Input(i) => self.inputs[i],
            VariableHandle::Aux(i) => self.aux[i],
        }
    }

    /// The constraint at `index`, in the order of enforcement.
    pub fn constraint(&self, index: usize) -> (constraint: &HostConstraint)
        requires
            index < self@.constraints.len(),
        ensures
            constraint@ == self@.constraints[index as int],
    {
        &self.constraints[index]
    }
}

} // verus!
