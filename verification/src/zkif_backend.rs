//! Consuming a statement: building the circuit that its messages describe
//! into the host constraint system.

use vstd::prelude::*;
use crate::error::Error;
use crate::field::{modulus, spec_decode, FieldElement};
use crate::gadget::{enforce_all, spec_constraints};
use crate::host::{HostCircuit, HostCircuitView, Role, VariableHandle};
use crate::import::decode_scalar;
use crate::registry::{Registry, RegistryView};
use crate::wire::{Messages, Variable};

verus! {

/// The registry and the host circuit of a statement that is being built.
pub struct StatementView {
    pub registry: RegistryView,
    pub host: HostCircuitView,
}

/// The value of a variable of a statement: none where the message carries
/// none, else what its bytes decode to.
pub open spec fn spec_statement_value(var: Variable) -> Result<Option<nat>, Error> {
    match var.value {
        None => Ok(None),
        Some(bytes) => match spec_decode(bytes@) {
            Ok(value) => Ok(Some(value)),
            Err(e) => Err(e),
        },
    }
}

/// Declares the variables of a statement in order, each with the given role
/// and under the id that the statement gives it. An id that cannot be bound
/// is an `IdMismatch`; the first variable that fails decides.
pub open spec fn spec_declare_variables(state: StatementView, vars: Seq<Variable>, role: Role) -> Result<
    StatementView,
    Error,
>
    decreases vars.len(),
{
    if vars.len() == 0 {
        Ok(state)
    } else {
        match spec_declare_variables(state, vars.drop_last(), role) {
            Err(e) => Err(e),
            Ok(s) => {
                let var = vars.last();
                if !s.registry.can_bind(var.id) {
                    Err(Error::IdMismatch)
                } else {
                    match spec_statement_value(var) {
                        Err(e) => Err(e),
                        Ok(value) => Ok(
                            StatementView {
                                registry: s.registry.bind(var.id, s.host.next_handle(role)),
                                host: s.host.allocate(role, value),
                            },
                        ),
                    }
                }
            },
        }
    }
}

/// Whether the statement names a field other than the one of this
/// library: its header holds a field maximum that decodes, but not to the
/// modulus less one.
pub open spec fn names_other_field(messages: Messages) -> bool {
    &&& messages.field_maximum matches Some(bytes)
    &&& spec_decode(bytes@) matches Ok(value)
    &&& value != modulus() - 1
}

/// What building a statement into `host` gives.
///
/// A field maximum that does not decode is an `EncodingError`. The constant
/// one is bound to id 0. The public inputs are declared, then the private
/// variables, each under its own id. The constraints are translated over
/// all of them and appended in order.
pub open spec fn spec_synthesize(messages: Messages, host: HostCircuitView) -> Result<
    StatementView,
    Error,
> {
    if messages.field_maximum matches Some(bytes) && spec_decode(bytes@) is Err {
        Err(Error::EncodingError)
    } else {
        let start = StatementView {
            registry: RegistryView::fresh().bind_constant(VariableHandle::Input(0)),
            host,
        };
        match spec_declare_variables(start, messages.connection_variables@, Role::Public) {
            Err(e) => Err(e),
            Ok(with_public) => match spec_declare_variables(
                with_public,
                messages.private_variables@,
                Role::Private,
            ) {
                Err(e) => Err(e),
                Ok(with_private) => match spec_constraints(
                    with_private.registry.forward,
                    messages.constraints@,
                ) {
                    Err(e) => Err(e),
                    Ok(rows) => Ok(
                        StatementView {
                            registry: with_private.registry,
                            host: HostCircuitView {
                                constraints: with_private.host.constraints + rows,
                                ..with_private.host
                            },
                        },
                    ),
                },
            },
        }
    }
}

/// The public inputs of a statement as field elements, in order. A public
/// input without a value is an `IncompleteWitness`.
pub open spec fn spec_public_inputs(vars: Seq<Variable>) -> Result<Seq<nat>, Error>
    decreases vars.len(),
{
    if vars.len() == 0 {
        Ok(Seq::empty())
    } else {
        match spec_public_inputs(vars.drop_last()) {
            Err(e) => Err(e),
            Ok(prefix) => match vars.last().value {
                None => Err(Error::IncompleteWitness),
                Some(bytes) => match spec_decode(bytes@) {
                    Ok(value) => Ok(prefix.push(value)),
                    Err(e) => Err(e),
                },
            },
        }
    }
}

proof fn lemma_declare_variables_error_is_kept(
    state: StatementView,
    vars: Seq<Variable>,
    role: Role,
    n: int,
)
    requires
        0 <= n <= vars.len(),
        spec_declare_variables(state, vars.take(n), role) is Err,
    ensures
        spec_declare_variables(state, vars, role) == spec_declare_variables(
            state,
            vars.take(n),
            role,
        ),
    decreases vars.len() - n,
{
    if n < vars.len() {
        assert(vars.take(n + 1).drop_last() =~= vars.take(n));
        lemma_declare_variables_error_is_kept(state, vars, role, n + 1);
    } else {
        assert(vars.take(n) =~= vars);
    }
}

proof fn lemma_public_inputs_error_is_kept(vars: Seq<Variable>, n: int)
    requires
        0 <= n <= vars.len(),
        spec_public_inputs(vars.take(n)) is Err,
    ensures
        spec_public_inputs(vars) == spec_public_inputs(vars.take(n)),
    decreases vars.len() - n,
{
    if n < vars.len() {
        assert(vars.take(n + 1).drop_last() =~= vars.take(n));
        lemma_public_inputs_error_is_kept(vars, n + 1);
    } else {
        assert(vars.take(n) =~= vars);
    }
}

/// Declares the variables of a statement in the host circuit and binds
/// their ids. It stops at the first that fails; what was declared before
/// it stays.
fn declare_variables(cs: &mut HostCircuit, registry: &mut Registry, vars: &Vec<Variable>, role: Role) -> (r:
    Result<(), Error>)
    requires
        old(registry)@.wf(),
    ensures
        final(registry)@.wf(),
        final(cs)@.extends(old(cs)@),
        match spec_declare_variables(
            StatementView { registry: old(registry)@, host: old(cs)@ },
            vars@,
            role,
        ) {
            Ok(s) => r is Ok && final(registry)@ == s.registry && final(cs)@ == s.host,
            Err(e) => r == Err::<(), Error>(e),
        },
{
    let ghost start = StatementView { registry: registry@, host: cs@ };
    let mut i: usize = 0;
    proof {
        assert(vars@.take(0) =~= Seq::<Variable>::empty());
        assert(cs@.inputs.take(cs@.inputs.len() as int) =~= cs@.inputs);
        assert(cs@.aux.take(cs@.aux.len() as int) =~= cs@.aux);
        assert(cs@.constraints.take(cs@.constraints.len() as int) =~= cs@.constraints);
    }
    while i < vars.len()
        invariant
            i <= vars.len(),
            registry@.wf(),
            start == (StatementView { registry: old(registry)@, host: old(cs)@ }),
            cs@.extends(start.host),
            spec_declare_variables(start, vars@.take(i as int), role) == Ok::<
                StatementView,
                Error,
            >(StatementView { registry: registry@, host: cs@ }),
        decreases vars.len() - i,
    {
        let var = &vars[i];
        proof {
            assert(vars@.take(i + 1).drop_last() =~= vars@.take(i as int));
            assert(vars@.take(i + 1).last() == vars@[i as int]);
            if spec_declare_variables(start, vars@.take(i + 1), role) is Err {
                lemma_declare_variables_error_is_kept(start, vars@, role, i + 1);
            }
        }
        if var.id == 0 || var.id == u64::MAX || registry.contains(var.id) {
            return Err(Error::IdMismatch);
        }
        let value = match &var.value {
            None => None,
            Some(bytes) => match decode_scalar(bytes.as_slice()) {
                Ok(value) => Some(value),
                Err(e) => {
                    return Err(e);
                },
            },
        };
        let ghost before = cs@;
        let handle = cs.allocate(role, value);
        registry.bind_fresh(var.id, handle);
        proof {
            assert(cs@.inputs.take(start.host.inputs.len() as int) =~= before.inputs.take(
                start.host.inputs.len() as int,
            ));
            assert(cs@.aux.take(start.host.aux.len() as int) =~= before.aux.take(
                start.host.aux.len() as int,
            ));
        }
        i += 1;
    }
    assert(vars@.take(i as int) =~= vars@);
    Ok(())
}

/// A circuit that is given by the messages of a statement.
#[derive(Clone, Copy, Debug)]
pub struct ZKIFCircuit<'a> {
    pub messages: &'a Messages,
}

impl<'a> ZKIFCircuit<'a> {
    /// Whether the statement names a field that this library does not work
    /// on.
    pub fn names_other_field(&self) -> (other: bool)
        ensures
            other == names_other_field(*self.messages),
    {
        match &self.messages.field_maximum {
            None => false,
            Some(bytes) => match decode_scalar(bytes.as_slice()) {
                Ok(requested) => !requested.same(&FieldElement::maximum()),
                Err(_) => false,
            },
        }
    }

    /// Builds the circuit into the host constraint system and returns the
    /// registry of its variables: the constant one under id 0, then the
    /// public inputs, then the private variables, each with its value where
    /// the statement carries one; then the constraints in order. After a
    /// failure the host circuit is as it was.
    pub fn synthesize(self, cs: &mut HostCircuit) -> (r: Result<Registry, Error>)
        requires
            !names_other_field(*self.messages),
        ensures
            match spec_synthesize(*self.messages, old(cs)@) {
                Ok(s) => {
                    &&& r matches Ok(registry)
                    &&& registry@ == s.registry
                    &&& registry@.wf()
                    &&& final(cs)@ == s.host
                },
                Err(e) => r matches Err(failure) && failure == e && final(cs)@ == old(cs)@,
            },
    {
        if let Some(bytes) = &self.messages.field_maximum {
            if let Err(e) = decode_scalar(bytes.as_slice()) {
                return Err(e);
            }
        }
        let num_inputs = cs.num_inputs();
        let num_aux = cs.num_aux();
        let num_constraints = cs.num_constraints();
        let mut registry = Registry::new();
        registry.bind_constant(HostCircuit::one());
        if let Err(e) = declare_variables(
            cs,
            &mut registry,
            &self.messages.connection_variables,
            Role::Public,
        ) {
            cs.rollback(num_inputs, num_aux, num_constraints);
            return Err(e);
        }
        let ghost with_public = cs@;
        if let Err(e) = declare_variables(
            cs,
            &mut registry,
            &self.messages.private_variables,
            Role::Private,
        ) {
            proof {
                lemma_extends_twice(cs@, with_public, old(cs)@);
            }
            cs.rollback(num_inputs, num_aux, num_constraints);
            return Err(e);
        }
        proof {
            lemma_extends_twice(cs@, with_public, old(cs)@);
        }
        let ghost with_private = cs@;
        if let Err(e) = enforce_all(cs, registry.variables(), &self.messages.constraints) {
            proof {
                assert(cs@.constraints.take(old(cs)@.constraints.len() as int)
                    =~= with_private.constraints.take(old(cs)@.constraints.len() as int));
            }
            cs.rollback(num_inputs, num_aux, num_constraints);
            return Err(e);
        }
        Ok(registry)
    }

    /// The public inputs of the statement, decoded, in the order of the
    /// header: what a verifier checks a proof against.
    pub fn public_inputs(&self) -> (r: Result<Vec<FieldElement>, Error>)
        ensures
            match spec_public_inputs(self.messages.connection_variables@) {
                Ok(values) => r matches Ok(inputs) && inputs@.map_values(|fe: FieldElement| fe@)
                    == values,
                Err(e) => r matches Err(failure) && failure == e,
            },
    {
        let vars = &self.messages.connection_variables;
        let mut inputs: Vec<FieldElement> = Vec::new();
        let mut i: usize = 0;
        assert(vars@.take(0) =~= Seq::<Variable>::empty());
        assert(inputs@.map_values(|fe: FieldElement| fe@) =~= Seq::<nat>::empty());
        while i < vars.len()
            invariant
                i <= vars.len(),
                vars@ == self.messages.connection_variables@,
                spec_public_inputs(vars@.take(i as int)) == Ok::<Seq<nat>, Error>(
                    inputs@.map_values(|fe: FieldElement| fe@),
                ),
            decreases vars.len() - i,
        {
            proof {
                assert(vars@.take(i + 1).drop_last() =~= vars@.take(i as int));
                assert(vars@.take(i + 1).last() == vars@[i as int]);
                if spec_public_inputs(vars@.take(i + 1)) is Err {
                    lemma_public_inputs_error_is_kept(vars@, i + 1);
                }
            }
            let ghost before = inputs@;
            match &vars[i].value {
                None => {
                    return Err(Error::IncompleteWitness);
                },
                Some(bytes) => match decode_scalar(bytes.as_slice()) {
                    Ok(value) => {
                        inputs.push(value);
                        assert(inputs@.map_values(|fe: FieldElement| fe@) =~= before.map_values(
                            |fe: FieldElement| fe@,
                        ).push(value@));
                    },
                    Err(e) => {
                        return Err(e);
                    },
                },
            }
            i += 1;
        }
        assert(vars@.take(i as int) =~= vars@);
        Ok(inputs)
    }
}

/// A circuit that extends one that extends a third extends the third.
proof fn lemma_extends_twice(last: HostCircuitView, middle: HostCircuitView, first: HostCircuitView)
    requires
        last.extends(middle),
        middle.extends(first),
    ensures
        last.extends(first),
{
    assert(last.inputs.take(first.inputs.len() as int) =~= middle.inputs.take(
        first.inputs.len() as int,
    ));
    assert(last.aux.take(first.aux.len() as int) =~= middle.aux.take(first.aux.len() as int));
    assert(last.constraints.take(first.constraints.len() as int) =~= middle.constraints.take(
        first.constraints.len() as int,
    ));
}

} // verus!
