//! The gadget call bridge: what a call tells the gadget, and how the
//! gadget's answer is merged into the host statement.

use std::collections::HashMap;
use vstd::prelude::*;
use crate::error::Error;
use crate::export::encode_scalar;
use crate::field::{spec_decode, spec_encode};
use crate::host::{AllocatedNum, ConstraintView, HostCircuit, HostCircuitView, Role,
    VariableHandle};
use crate::import::{decode_scalar, enforce, spec_constraint};
use crate::registry::{lemma_bind_keeps_wf, Registry, RegistryView};
use crate::wire::{bytes_view, CircuitHeader, Constraint, GadgetResponse, Variable, Variables};

verus! {

broadcast use vstd::std_specs::hash::group_hash_axioms;

/// A variable id together with the host handle that it is bound to.
pub type Binding = (u64, VariableHandle);

/// A variable that a gadget declared: its id and, in proving mode, its value.
pub type Declared = (u64, Option<nat>);

/// Whether a call runs in proving mode: there are inputs, and the first one
/// carries a value. Otherwise only the shape of the circuit is exchanged.
pub open spec fn spec_proving(inputs: Seq<AllocatedNum>) -> bool {
    inputs.len() > 0 && inputs[0].spec_value() is Some
}

/// The ids that a call assigns to its inputs: a contiguous run from `first`.
pub open spec fn input_ids(first: u64, count: nat) -> Seq<u64> {
    Seq::new(count, |i: int| (first + i) as u64)
}

/// The encoded values of the inputs, one after the other; an input without
/// a value is an `IncompleteWitness`.
pub open spec fn spec_input_values(inputs: Seq<AllocatedNum>) -> Result<Seq<u8>, Error>
    decreases inputs.len(),
{
    if inputs.len() == 0 {
        Ok(Seq::empty())
    } else {
        match spec_input_values(inputs.drop_last()) {
            Err(e) => Err(e),
            Ok(prefix) => match inputs.last().spec_value() {
                None => Err(Error::IncompleteWitness),
                Some(value) => Ok(prefix + spec_encode(value)),
            },
        }
    }
}

/// The values that the call message carries: none in setup mode, those of
/// all inputs in proving mode.
pub open spec fn spec_call_values(inputs: Seq<AllocatedNum>) -> Result<Option<Seq<u8>>, Error> {
    if spec_proving(inputs) {
        match spec_input_values(inputs) {
            Ok(values) => Ok(Some(values)),
            Err(e) => Err(e),
        }
    } else {
        Ok(None)
    }
}

/// The value of a declared variable. In setup mode there is none. In
/// proving mode it must be present and must decode.
pub open spec fn spec_declared_value(var: Variable, proving: bool) -> Result<Option<nat>, Error> {
    if !proving {
        Ok(None)
    } else {
        match var.value {
            None => Err(Error::IncompleteWitness),
            Some(bytes) => match spec_decode(bytes@) {
                Ok(value) => Ok(Some(value)),
                Err(e) => Err(e),
            },
        }
    }
}

/// Whether one of `declared` has the id `id`.
pub open spec fn holds_id(declared: Seq<Declared>, id: u64) -> bool {
    exists|j: int| 0 <= j < declared.len() && (#[trigger] declared[j]).0 == id
}

/// The ids that a gadget may not declare: the reserved id 0, the last id
/// (the counter could not move past it), every id that is bound already,
/// and the ids of the call's `count` inputs.
pub open spec fn taken_ids(registry: RegistryView, count: nat) -> Set<u64> {
    Set::new(
        |id: u64|
            id == 0 || id == u64::MAX || registry.forward.contains_key(id) || (
            registry.free_variable_id <= id < registry.free_variable_id + count),
    )
}

/// Checks the variables that a gadget declares, in order. Each needs an id
/// that is neither taken nor declared before it (else `IdMismatch`), and a
/// value as the mode asks. The first variable that fails decides.
pub open spec fn spec_declare(taken: Set<u64>, vars: Seq<Variable>, proving: bool) -> Result<
    Seq<Declared>,
    Error,
>
    decreases vars.len(),
{
    if vars.len() == 0 {
        Ok(Seq::empty())
    } else {
        match spec_declare(taken, vars.drop_last(), proving) {
            Err(e) => Err(e),
            Ok(prefix) => {
                let var = vars.last();
                if taken.contains(var.id) || holds_id(prefix, var.id) {
                    Err(Error::IdMismatch)
                } else {
                    match spec_declared_value(var, proving) {
                        Err(e) => Err(e),
                        Ok(value) => Ok(prefix.push((var.id, value))),
                    }
                }
            },
        }
    }
}

/// The bindings of the inputs: the i-th input gets the id `first + i`.
pub open spec fn input_bindings(first: u64, inputs: Seq<AllocatedNum>) -> Seq<Binding> {
    Seq::new(inputs.len(), |i: int| ((first + i) as u64, inputs[i].spec_variable()))
}

/// The bindings of the declared variables: each gets a fresh auxiliary
/// variable of the host, in order, after the `base_aux` that exist.
pub open spec fn declared_bindings(base_aux: nat, declared: Seq<Declared>) -> Seq<Binding> {
    Seq::new(
        declared.len(),
        |k: int| (declared[k].0, VariableHandle::Aux((base_aux + k) as usize)),
    )
}

/// `vars` with the bindings added, in order.
pub open spec fn insert_all(vars: Map<u64, VariableHandle>, bindings: Seq<Binding>) -> Map<
    u64,
    VariableHandle,
>
    decreases bindings.len(),
{
    if bindings.len() == 0 {
        vars
    } else {
        insert_all(vars, bindings.drop_last()).insert(bindings.last().0, bindings.last().1)
    }
}

/// `registry` with the bindings made, in order.
pub open spec fn bind_all(registry: RegistryView, bindings: Seq<Binding>) -> RegistryView
    decreases bindings.len(),
{
    if bindings.len() == 0 {
        registry
    } else {
        bind_all(registry, bindings.drop_last()).bind(bindings.last().0, bindings.last().1)
    }
}

/// The variables that the constraints of a call may name: the constant one
/// under id 0, and the variables of the call itself.
pub open spec fn call_variables(bindings: Seq<Binding>) -> Map<u64, VariableHandle> {
    insert_all(Map::empty().insert(0u64, VariableHandle::Input(0)), bindings)
}

/// The rows that a list of wire constraints becomes, in order, or the
/// failure of the first constraint that does not translate.
pub open spec fn spec_constraints(vars: Map<u64, VariableHandle>, constraints: Seq<Constraint>) -> Result<
    Seq<ConstraintView>,
    Error,
>
    decreases constraints.len(),
{
    if constraints.len() == 0 {
        Ok(Seq::empty())
    } else {
        match spec_constraints(vars, constraints.drop_last()) {
            Err(e) => Err(e),
            Ok(prefix) => match spec_constraint(vars, constraints.last()) {
                Err(e) => Err(e),
                Ok(row) => Ok(prefix.push(row)),
            },
        }
    }
}

/// A host variable and its value, as the view of an `AllocatedNum`.
pub open spec fn nums_view(nums: Seq<AllocatedNum>) -> Seq<(VariableHandle, Option<nat>)> {
    Seq::new(nums.len(), |i: int| (nums[i].spec_variable(), nums[i].spec_value()))
}

/// The state after a gadget's answer was merged.
pub struct MergeView {
    pub registry: RegistryView,
    pub host: HostCircuitView,
    /// The outputs of the gadget: their handles and values.
    pub outputs: Seq<(VariableHandle, Option<nat>)>,
}

/// What merging a gadget's answer gives.
///
/// The answer must repeat the ids of the inputs exactly (else
/// `IdMismatch`). Its outputs and then its private variables are declared
/// as fresh auxiliary variables of the host. Its constraints are translated
/// over the variables of the call and appended in order. The registry binds
/// the ids of the inputs and of the declared variables, and its counter
/// moves past them.
pub open spec fn spec_merge(
    registry: RegistryView,
    host: HostCircuitView,
    inputs: Seq<AllocatedNum>,
    response: GadgetResponse,
) -> Result<MergeView, Error> {
    let first = registry.free_variable_id;
    if response.input_ids@ != input_ids(first, inputs.len()) {
        Err(Error::IdMismatch)
    } else {
        match spec_declare(
            taken_ids(registry, inputs.len()),
            response.outputs@ + response.privates@,
            spec_proving(inputs),
        ) {
            Err(e) => Err(e),
            Ok(declared) => {
                let bindings = input_bindings(first, inputs) + declared_bindings(
                    host.aux.len(),
                    declared,
                );
                match spec_constraints(call_variables(bindings), response.constraints@) {
                    Err(e) => Err(e),
                    Ok(rows) => Ok(
                        MergeView {
                            registry: bind_all(registry, bindings),
                            host: HostCircuitView {
                                inputs: host.inputs,
                                aux: host.aux + declared.map_values(|d: Declared| d.1),
                                constraints: host.constraints + rows,
                            },
                            outputs: Seq::new(
                                response.outputs@.len(),
                                |k: int|
                                    (
                                        VariableHandle::Aux((host.aux.len() + k) as usize),
                                        declared[k].1,
                                    ),
                            ),
                        },
                    ),
                }
            },
        }
    }
}

/// A failure among the first `n` inputs is the failure of all.
proof fn lemma_input_values_error_is_kept(inputs: Seq<AllocatedNum>, n: int)
    requires
        0 <= n <= inputs.len(),
        spec_input_values(inputs.take(n)) is Err,
    ensures
        spec_input_values(inputs) == spec_input_values(inputs.take(n)),
    decreases inputs.len() - n,
{
    if n < inputs.len() {
        assert(inputs.take(n + 1).drop_last() =~= inputs.take(n));
        lemma_input_values_error_is_kept(inputs, n + 1);
    } else {
        assert(inputs.take(n) =~= inputs);
    }
}

/// A failure among the first `n` declared variables is the failure of all.
proof fn lemma_declare_error_is_kept(taken: Set<u64>, vars: Seq<Variable>, proving: bool, n: int)
    requires
        0 <= n <= vars.len(),
        spec_declare(taken, vars.take(n), proving) is Err,
    ensures
        spec_declare(taken, vars, proving) == spec_declare(taken, vars.take(n), proving),
    decreases vars.len() - n,
{
    if n < vars.len() {
        assert(vars.take(n + 1).drop_last() =~= vars.take(n));
        lemma_declare_error_is_kept(taken, vars, proving, n + 1);
    } else {
        assert(vars.take(n) =~= vars);
    }
}

/// A failure among the first `n` constraints is the failure of all.
proof fn lemma_constraints_error_is_kept(
    vars: Map<u64, VariableHandle>,
    constraints: Seq<Constraint>,
    n: int,
)
    requires
        0 <= n <= constraints.len(),
        spec_constraints(vars, constraints.take(n)) is Err,
    ensures
        spec_constraints(vars, constraints) == spec_constraints(vars, constraints.take(n)),
    decreases constraints.len() - n,
{
    if n < constraints.len() {
        assert(constraints.take(n + 1).drop_last() =~= constraints.take(n));
        lemma_constraints_error_is_kept(vars, constraints, n + 1);
    } else {
        assert(constraints.take(n) =~= constraints);
    }
}

/// Describes a call: the ids of the inputs, a contiguous run from the
/// registry's free id; their values, in proving mode; and the first id that
/// the gadget may use. Nothing is bound yet.
pub fn prepare_call(registry: &Registry, inputs: &[AllocatedNum]) -> (r: Result<
    CircuitHeader,
    Error,
>)
    requires
        registry@.free_variable_id + inputs.len() <= u64::MAX,
    ensures
        match spec_call_values(inputs@) {
            Err(e) => r == Err::<CircuitHeader, Error>(e),
            Ok(values) => {
                &&& r matches Ok(call)
                &&& call.instance_variables.variable_ids@ == input_ids(
                    registry@.free_variable_id,
                    inputs@.len(),
                )
                &&& bytes_view(call.instance_variables.values) == values
                &&& call.free_variable_id == registry@.free_variable_id + inputs@.len()
                &&& call.field_maximum is None
                &&& call.configuration is None
                &&& values matches Some(v) ==> v.len() == 32 * inputs@.len()
            },
        },
{
    let first = registry.free_variable_id();
    let proving = inputs.len() > 0 && inputs[0].get_value().is_some();
    let values = if proving {
        let mut values: Vec<u8> = Vec::new();
        let mut i: usize = 0;
        assert(inputs@.take(0) =~= Seq::<AllocatedNum>::empty());
        while i < inputs.len()
            invariant
                i <= inputs.len(),
                spec_proving(inputs@),
                spec_input_values(inputs@.take(i as int)) == Ok::<Seq<u8>, Error>(values@),
                values@.len() == 32 * i,
            decreases inputs.len() - i,
        {
            proof {
                assert(inputs@.take(i + 1).drop_last() =~= inputs@.take(i as int));
                assert(inputs@.take(i + 1).last() == inputs@[i as int]);
                if spec_input_values(inputs@.take(i + 1)) is Err {
                    lemma_input_values_error_is_kept(inputs@, i + 1);
                }
            }
            match inputs[i].get_value() {
                None => {
                    return Err(Error::IncompleteWitness);
                },
                Some(value) => {
                    proof {
                        crate::field::lemma_le_bytes_len(value@, 32);
                    }
                    encode_scalar(&value, &mut values);
                },
            }
            i += 1;
        }
        assert(inputs@.take(i as int) =~= inputs@);
        Some(values)
    } else {
        None
    };
    let mut variable_ids: Vec<u64> = Vec::new();
    let mut i: usize = 0;
    while i < inputs.len()
        invariant
            i <= inputs.len(),
            first + inputs.len() <= u64::MAX,
            variable_ids@ == input_ids(first, i as nat),
        decreases inputs.len() - i,
    {
        variable_ids.push(first + i as u64);
        assert(variable_ids@ =~= input_ids(first, (i + 1) as nat));
        i += 1;
    }
    Ok(
        CircuitHeader {
            instance_variables: Variables { variable_ids, values },
            free_variable_id: first + inputs.len() as u64,
            field_maximum: None,
            configuration: None,
        },
    )
}

/// Whether every binding can be made in `registry`, one after the other:
/// each id can be bound there, and no id occurs twice.
pub open spec fn fresh_bindings(registry: RegistryView, bindings: Seq<Binding>) -> bool {
    &&& forall|k: int| 0 <= k < bindings.len() ==> registry.can_bind((#[trigger] bindings[k]).0)
    &&& forall|j: int, k: int|
        0 <= j < k < bindings.len() ==> (#[trigger] bindings[j]).0 != (#[trigger] bindings[k]).0
}

/// Binding fresh ids keeps the registry's invariant, and binds those ids
/// and no others.
pub proof fn lemma_bind_all(registry: RegistryView, bindings: Seq<Binding>)
    requires
        registry.wf(),
        fresh_bindings(registry, bindings),
    ensures
        bind_all(registry, bindings).wf(),
        forall|id: u64|
            bind_all(registry, bindings).forward.contains_key(id) <==> (
            registry.forward.contains_key(id) || exists|k: int|
                0 <= k < bindings.len() && (#[trigger] bindings[k]).0 == id),
    decreases bindings.len(),
{
    if bindings.len() > 0 {
        let rest = bindings.drop_last();
        let last = bindings.last();
        assert(fresh_bindings(registry, rest)) by {
            assert forall|k: int| 0 <= k < rest.len() implies registry.can_bind(
                (#[trigger] rest[k]).0,
            ) by {
                assert(rest[k] == bindings[k]);
            }
            assert forall|j: int, k: int| 0 <= j < k < rest.len() implies (#[trigger] rest[j]).0
                != (#[trigger] rest[k]).0 by {
                assert(rest[j] == bindings[j]);
                assert(rest[k] == bindings[k]);
            }
        }
        lemma_bind_all(registry, rest);
        let before = bind_all(registry, rest);
        assert(!before.forward.contains_key(last.0)) by {
            if before.forward.contains_key(last.0) {
                assert(bindings[bindings.len() - 1] == last);
                if !registry.forward.contains_key(last.0) {
                    let k = choose|k: int| 0 <= k < rest.len() && (#[trigger] rest[k]).0 == last.0;
                    assert(rest[k] == bindings[k]);
                }
            }
        }
        assert(bindings[bindings.len() - 1] == last);
        lemma_bind_keeps_wf(before, last.0, last.1);
        let after = bind_all(registry, bindings);
        assert forall|id: u64| after.forward.contains_key(id) <==> (registry.forward.contains_key(
            id,
        ) || exists|k: int| 0 <= k < bindings.len() && (#[trigger] bindings[k]).0 == id) by {
            if after.forward.contains_key(id) {
                if id != last.0 {
                    assert(before.forward.contains_key(id));
                    if !registry.forward.contains_key(id) {
                        let k = choose|k: int| 0 <= k < rest.len() && (#[trigger] rest[k]).0 == id;
                        assert(bindings[k] == rest[k]);
                    }
                }
            }
            if exists|k: int| 0 <= k < bindings.len() && (#[trigger] bindings[k]).0 == id {
                let k = choose|k: int| 0 <= k < bindings.len() && (#[trigger] bindings[k]).0 == id;
                if k < rest.len() {
                    assert(rest[k] == bindings[k]);
                }
            }
        }
    }
}

/// Adding one binding at the end adds it to the variables of the call.
proof fn lemma_call_variables_push(bindings: Seq<Binding>, binding: Binding)
    ensures
        call_variables(bindings.push(binding)) == call_variables(bindings).insert(
            binding.0,
            binding.1,
        ),
{
    assert(bindings.push(binding).drop_last() =~= bindings);
}

/// Whether the answer repeats the ids of the call's inputs.
fn check_echo(first: u64, count: usize, echoed: &Vec<u64>) -> (same: bool)
    requires
        first + count <= u64::MAX,
    ensures
        same == (echoed@ == input_ids(first, count as nat)),
{
    if echoed.len() != count {
        return false;
    }
    let mut i: usize = 0;
    while i < count
        invariant
            i <= count,
            echoed@.len() == count,
            first + count <= u64::MAX,
            forall|j: int| 0 <= j < i ==> echoed@[j] == first + j,
        decreases count - i,
    {
        if echoed[i] != first + i as u64 {
            assert(input_ids(first, count as nat)[i as int] != echoed@[i as int]);
            return false;
        }
        i += 1;
    }
    assert(echoed@ =~= input_ids(first, count as nat));
    true
}

/// The variables of a call before the gadget has answered: the constant
/// one and the inputs under their new ids.
fn bind_inputs(first: u64, inputs: &[AllocatedNum]) -> (r: (
    HashMap<u64, VariableHandle>,
    Vec<Binding>,
))
    requires
        first >= 1,
        first + inputs.len() <= u64::MAX,
    ensures
        r.1@ == input_bindings(first, inputs@),
        r.0@ == call_variables(r.1@),
        forall|id: u64|
            r.0@.contains_key(id) <==> (id == 0 || first <= id < first + inputs.len()),
{
    let mut local: HashMap<u64, VariableHandle> = HashMap::new();
    local.insert(0, HostCircuit::one());
    let mut bindings: Vec<Binding> = Vec::new();
    let mut i: usize = 0;
    while i < inputs.len()
        invariant
            i <= inputs.len(),
            first >= 1,
            first + inputs.len() <= u64::MAX,
            bindings@ == input_bindings(first, inputs@.take(i as int)),
            local@ == call_variables(bindings@),
            forall|id: u64| local@.contains_key(id) <==> (id == 0 || first <= id < first + i),
        decreases inputs.len() - i,
    {
        let id = first + i as u64;
        let handle = inputs[i].get_variable();
        proof {
            lemma_call_variables_push(bindings@, (id, handle));
        }
        local.insert(id, handle);
        bindings.push((id, handle));
        assert(bindings@ =~= input_bindings(first, inputs@.take(i + 1)));
        i += 1;
    }
    assert(inputs@.take(i as int) =~= inputs@);
    (local, bindings)
}

/// Declares one variable of a gadget's answer as a fresh auxiliary variable
/// of the host. Its id must be free; in proving mode its value must be
/// present and decode.
fn declare_one(
    cs: &mut HostCircuit,
    registry: &Registry,
    local: &mut HashMap<u64, VariableHandle>,
    bindings: &mut Vec<Binding>,
    var: &Variable,
    proving: bool,
) -> (r: Result<AllocatedNum, Error>)
    ensures
        ({
            let taken = var.id == u64::MAX || registry@.forward.contains_key(var.id) || old(local)@.contains_key(var.id);
            let unchanged = final(cs)@ == old(cs)@ && final(local)@ == old(local)@ && final(bindings)@ == old(bindings)@;
            if taken {
                r == Err::<AllocatedNum, Error>(Error::IdMismatch) && unchanged
            } else {
                match spec_declared_value(*var, proving) {
                    Err(e) => r == Err::<AllocatedNum, Error>(e) && unchanged,
                    Ok(value) => {
                        &&& r matches Ok(num)
                        &&& num.spec_variable() == old(cs)@.next_handle(Role::Private)
                        &&& num.spec_value() == value
                        &&& final(cs)@ == old(cs)@.allocate(Role::Private, value)
                        &&& final(local)@ == old(local)@.insert(var.id, num.spec_variable())
                        &&& final(bindings)@ == old(bindings)@.push((var.id, num.spec_variable()))
                    },
                }
            }
        }),
{
    if var.id == u64::MAX || registry.contains(var.id) || local.contains_key(&var.id) {
        return Err(Error::IdMismatch);
    }
    let value = if proving {
        match &var.value {
            None => {
                return Err(Error::IncompleteWitness);
            },
            Some(bytes) => match decode_scalar(bytes.as_slice()) {
                Ok(value) => Some(value),
                Err(e) => {
                    return Err(e);
                },
            },
        }
    } else {
        None
    };
    let handle = cs.allocate(Role::Private, value);
    local.insert(var.id, handle);
    bindings.push((var.id, handle));
    Ok(AllocatedNum::new(handle, value))
}

/// Translates the constraints in order and appends them to the host
/// circuit. It stops at the first that fails; rows appended before it stay.
pub(crate) fn enforce_all(
    cs: &mut HostCircuit,
    vars: &HashMap<u64, VariableHandle>,
    constraints: &Vec<Constraint>,
) -> (r: Result<(), Error>)
    ensures
        final(cs)@.inputs == old(cs)@.inputs,
        final(cs)@.aux == old(cs)@.aux,
        old(cs)@.constraints.len() <= final(cs)@.constraints.len(),
        final(cs)@.constraints.take(old(cs)@.constraints.len() as int) == old(cs)@.constraints,
        match spec_constraints(vars@, constraints@) {
            Ok(rows) => r is Ok && final(cs)@.constraints == old(cs)@.constraints + rows,
            Err(e) => r == Err::<(), Error>(e),
        },
{
    let ghost mut rows: Seq<ConstraintView> = Seq::empty();
    let mut j: usize = 0;
    assert(constraints@.take(0) =~= Seq::<Constraint>::empty());
    assert(cs@.constraints =~= old(cs)@.constraints + rows);
    while j < constraints.len()
        invariant
            j <= constraints.len(),
            cs@.inputs == old(cs)@.inputs,
            cs@.aux == old(cs)@.aux,
            spec_constraints(vars@, constraints@.take(j as int)) == Ok::<
                Seq<ConstraintView>,
                Error,
            >(rows),
            cs@.constraints == old(cs)@.constraints + rows,
        decreases constraints.len() - j,
    {
        proof {
            assert(constraints@.take(j + 1).drop_last() =~= constraints@.take(j as int));
            assert(constraints@.take(j + 1).last() == constraints@[j as int]);
            if spec_constraints(vars@, constraints@.take(j + 1)) is Err {
                lemma_constraints_error_is_kept(vars@, constraints@, j + 1);
            }
        }
        let ghost before = cs@;
        match enforce(cs, vars, &constraints[j]) {
            Ok(()) => {},
            Err(e) => {
                assert(cs@.constraints.take(old(cs)@.constraints.len() as int) =~= old(cs)@.constraints);
                return Err(e);
            },
        }
        proof {
            let row = spec_constraint(vars@, constraints@[j as int])->Ok_0;
            assert(cs@.constraints =~= old(cs)@.constraints + rows.push(row));
            rows = rows.push(row);
        }
        j += 1;
    }
    assert(constraints@.take(j as int) =~= constraints@);
    assert(cs@.constraints.take(old(cs)@.constraints.len() as int) =~= old(cs)@.constraints);
    Ok(())
}

/// Makes the bindings of a call in the registry.
fn commit(registry: &mut Registry, bindings: &Vec<Binding>)
    requires
        old(registry)@.wf(),
        fresh_bindings(old(registry)@, bindings@),
    ensures
        final(registry)@ == bind_all(old(registry)@, bindings@),
        final(registry)@.wf(),
{
    let mut k: usize = 0;
    while k < bindings.len()
        invariant
            k <= bindings.len(),
            old(registry)@.wf(),
            fresh_bindings(old(registry)@, bindings@),
            registry@ == bind_all(old(registry)@, bindings@.take(k as int)),
            registry@.wf(),
        decreases bindings.len() - k,
    {
        let binding = bindings[k];
        proof {
            let done = bindings@.take(k as int);
            assert(fresh_bindings(old(registry)@, done));
            lemma_bind_all(old(registry)@, done);
            if registry@.forward.contains_key(binding.0) {
                assert(!old(registry)@.forward.contains_key(bindings@[k as int].0));
                let j = choose|j: int| 0 <= j < done.len() && (#[trigger] done[j]).0 == binding.0;
                assert(done[j] == bindings@[j]);
                assert(false);
            }
            assert(old(registry)@.can_bind(bindings@[k as int].0));
            assert(bindings@.take(k + 1).drop_last() =~= done);
        }
        registry.bind_fresh(binding.0, binding.1);
        k += 1;
    }
    assert(bindings@.take(k as int) =~= bindings@);
}

/// What holds while the variables of an answer are declared: `bindings`,
/// `local` and `host` are what the inputs and the variables `declared` so
/// far make of the registry `registry` and the circuit `before`.
spec fn merging(
    registry: RegistryView,
    before: HostCircuitView,
    inputs: Seq<AllocatedNum>,
    declared: Seq<Declared>,
    bindings: Seq<Binding>,
    local: Map<u64, VariableHandle>,
    host: HostCircuitView,
) -> bool {
    let first = registry.free_variable_id;
    &&& bindings == input_bindings(first, inputs) + declared_bindings(before.aux.len(), declared)
    &&& local == call_variables(bindings)
    &&& host.inputs == before.inputs
    &&& host.aux == before.aux + declared.map_values(|d: Declared| d.1)
    &&& host.constraints == before.constraints
    &&& forall|id: u64|
        #![trigger local.contains_key(id)]
        local.contains_key(id) <==> (id == 0 || first <= id < first + inputs.len() || holds_id(
            declared,
            id,
        ))
    &&& forall|j: int|
        0 <= j < declared.len() ==> !taken_ids(registry, inputs.len()).contains(
            (#[trigger] declared[j]).0,
        )
    &&& forall|i: int, j: int|
        0 <= i < j < declared.len() ==> (#[trigger] declared[i]).0 != (#[trigger] declared[j]).0
}

/// Declaring one more variable with a free id keeps `merging`.
proof fn lemma_declare_step(
    registry: RegistryView,
    before: HostCircuitView,
    inputs: Seq<AllocatedNum>,
    declared: Seq<Declared>,
    bindings: Seq<Binding>,
    local: Map<u64, VariableHandle>,
    host: HostCircuitView,
    id: u64,
    value: Option<nat>,
)
    requires
        merging(registry, before, inputs, declared, bindings, local, host),
        !taken_ids(registry, inputs.len()).contains(id),
        !holds_id(declared, id),
    ensures
        merging(
            registry,
            before,
            inputs,
            declared.push((id, value)),
            bindings.push((id, host.next_handle(Role::Private))),
            local.insert(id, host.next_handle(Role::Private)),
            host.allocate(Role::Private, value),
        ),
{
    let handle = host.next_handle(Role::Private);
    let first = registry.free_variable_id;
    let declared2 = declared.push((id, value));
    let bindings2 = bindings.push((id, handle));
    let local2 = local.insert(id, handle);
    let host2 = host.allocate(Role::Private, value);
    assert(host.aux.len() == before.aux.len() + declared.len());
    assert(bindings2 =~= input_bindings(first, inputs) + declared_bindings(
        before.aux.len(),
        declared2,
    ));
    lemma_call_variables_push(bindings, (id, handle));
    assert(host2.aux =~= before.aux + declared2.map_values(|d: Declared| d.1));
    assert forall|other: u64|
        #![trigger local2.contains_key(other)]
        local2.contains_key(other) <==> (other == 0 || first <= other < first + inputs.len()
            || holds_id(declared2, other)) by {
        if holds_id(declared2, other) {
            let j = choose|j: int| 0 <= j < declared2.len() && (#[trigger] declared2[j]).0 == other;
            if j < declared.len() {
                assert(declared[j] == declared2[j]);
                assert(holds_id(declared, other));
            }
        }
        if holds_id(declared, other) {
            let j = choose|j: int| 0 <= j < declared.len() && (#[trigger] declared[j]).0 == other;
            assert(declared2[j] == declared[j]);
        }
        if other == id {
            assert(declared2[declared.len() as int].0 == id);
        }
        assert(local.contains_key(other) <==> (other == 0 || first <= other < first
            + inputs.len() || holds_id(declared, other)));
    }
    assert forall|j: int| 0 <= j < declared2.len() implies !taken_ids(
        registry,
        inputs.len(),
    ).contains((#[trigger] declared2[j]).0) by {
        if j < declared.len() {
            assert(declared[j] == declared2[j]);
        }
    }
    assert forall|i: int, j: int| 0 <= i < j < declared2.len() implies (#[trigger] declared2[i]).0
        != (#[trigger] declared2[j]).0 by {
        assert(declared2[i] == declared[i]);
        if j < declared.len() {
            assert(declared[j] == declared2[j]);
        }
    }
}

/// The bindings of a call are fresh in the registry that it started from.
proof fn lemma_merging_fresh(
    registry: RegistryView,
    before: HostCircuitView,
    inputs: Seq<AllocatedNum>,
    declared: Seq<Declared>,
    bindings: Seq<Binding>,
    local: Map<u64, VariableHandle>,
    host: HostCircuitView,
)
    requires
        registry.wf(),
        registry.free_variable_id + inputs.len() <= u64::MAX,
        merging(registry, before, inputs, declared, bindings, local, host),
    ensures
        fresh_bindings(registry, bindings),
{
    let n = inputs.len() as int;
    let first = registry.free_variable_id;
    assert forall|k: int| 0 <= k < bindings.len() implies registry.can_bind(
        (#[trigger] bindings[k]).0,
    ) by {
        if k < n {
            assert(bindings[k].0 == first + k);
            if registry.forward.contains_key(bindings[k].0) {
            }
        } else {
            assert(bindings[k].0 == declared[k - n].0);
        }
    }
    assert forall|j: int, k: int| 0 <= j < k < bindings.len() implies (#[trigger] bindings[j]).0
        != (#[trigger] bindings[k]).0 by {
        if k < n {
            assert(bindings[j].0 == first + j);
            assert(bindings[k].0 == first + k);
        } else if j < n {
            assert(bindings[j].0 == first + j);
            assert(bindings[k].0 == declared[k - n].0);
        } else {
            assert(bindings[j].0 == declared[j - n].0);
            assert(bindings[k].0 == declared[k - n].0);
        }
    }
}

/// Merges a gadget's answer into the registry and the host circuit, or
/// leaves both exactly as they were.
///
/// The answer must repeat the ids that the call gave to the inputs. Its
/// outputs and private variables become fresh auxiliary variables of the
/// host, with their decoded values in proving mode. Its constraints may name
/// id 0 and the variables of the call, and are appended in order. On
/// success the outputs are returned, the ids of the inputs and of the
/// declared variables are bound, and the free id has moved past them.
pub fn merge_response(
    cs: &mut HostCircuit,
    registry: &mut Registry,
    inputs: &[AllocatedNum],
    response: &GadgetResponse,
) -> (r: Result<Vec<AllocatedNum>, Error>)
    requires
        old(registry)@.wf(),
        old(registry)@.free_variable_id + inputs.len() <= u64::MAX,
    ensures
        final(registry)@.wf(),
        match spec_merge(old(registry)@, old(cs)@, inputs@, *response) {
            Ok(merged) => {
                &&& r matches Ok(outputs)
                &&& nums_view(outputs@) == merged.outputs
                &&& final(registry)@ == merged.registry
                &&& final(cs)@ == merged.host
            },
            Err(e) => {
                &&& r == Err::<Vec<AllocatedNum>, Error>(e)
                &&& final(registry)@ == old(registry)@
                &&& final(cs)@ == old(cs)@
            },
        },
{
    let first = registry.free_variable_id();
    if !check_echo(first, inputs.len(), &response.input_ids) {
        return Err(Error::IdMismatch);
    }
    let proving = inputs.len() > 0 && inputs[0].get_value().is_some();
    let num_inputs = cs.num_inputs();
    let num_aux = cs.num_aux();
    let num_constraints = cs.num_constraints();
    let (mut local, mut bindings) = bind_inputs(first, inputs);
    let ghost all = response.outputs@ + response.privates@;
    let ghost taken = taken_ids(registry@, inputs@.len());
    let ghost mut declared: Seq<Declared> = Seq::empty();
    let mut outputs: Vec<AllocatedNum> = Vec::new();
    proof {
        assert(all.take(0) =~= Seq::<Variable>::empty());
        assert(bindings@ =~= input_bindings(first, inputs@) + declared_bindings(
            old(cs)@.aux.len(),
            declared,
        ));
        assert(cs@.aux =~= old(cs)@.aux + declared.map_values(|d: Declared| d.1));
        assert(nums_view(outputs@) =~= Seq::new(
            0,
            |i: int| (VariableHandle::Aux((old(cs)@.aux.len() + i) as usize), declared[i].1),
        ));
    }
    let mut k: usize = 0;
    while k < response.outputs.len()
        invariant
            k <= response.outputs.len(),
            registry@ == old(registry)@,
            registry@.wf(),
            response.input_ids@ == input_ids(registry@.free_variable_id, inputs@.len()),
            all == response.outputs@ + response.privates@,
            taken == taken_ids(registry@, inputs@.len()),
            proving == spec_proving(inputs@),
            num_inputs == old(cs)@.inputs.len(),
            num_aux == old(cs)@.aux.len(),
            num_constraints == old(cs)@.constraints.len(),
            declared.len() == k,
            outputs@.len() == k,
            spec_declare(taken, all.take(k as int), proving) == Ok::<Seq<Declared>, Error>(
                declared,
            ),
            merging(registry@, old(cs)@, inputs@, declared, bindings@, local@, cs@),
            nums_view(outputs@) == Seq::new(
                k as nat,
                |i: int| (VariableHandle::Aux((old(cs)@.aux.len() + i) as usize), declared[i].1),
            ),
        decreases response.outputs.len() - k,
    {
        let var = &response.outputs[k];
        proof {
            assert(all.take(k + 1).drop_last() =~= all.take(k as int));
            assert(all.take(k + 1).last() == response.outputs@[k as int]);
            assert((var.id == u64::MAX || registry@.forward.contains_key(var.id)
                || local@.contains_key(var.id)) <==> (taken.contains(var.id) || holds_id(
                declared,
                var.id,
            )));
            if spec_declare(taken, all.take(k + 1), proving) is Err {
                lemma_declare_error_is_kept(taken, all, proving, k + 1);
            }
        }
        let ghost host_before = cs@;
        let ghost local_before = local@;
        let ghost bindings_before = bindings@;
        let ghost outputs_before = outputs@;
        let ghost declared_before = declared;
        match declare_one(cs, registry, &mut local, &mut bindings, var, proving) {
            Err(e) => {
                cs.rollback(num_inputs, num_aux, num_constraints);
                proof {
                    assert(cs@.inputs =~= old(cs)@.inputs);
                    assert(cs@.aux =~= old(cs)@.aux);
                    assert(cs@.constraints =~= old(cs)@.constraints);
                }
                return Err(e);
            },
            Ok(num) => {
                proof {
                    let value = num.spec_value();
                    lemma_declare_step(
                        registry@,
                        old(cs)@,
                        inputs@,
                        declared,
                        bindings_before,
                        local_before,
                        host_before,
                        var.id,
                        value,
                    );
                    declared = declared.push((var.id, value));
                }
                outputs.push(num);
                proof {
                    let base = old(cs)@.aux.len();
                    let target = Seq::new(
                        (k + 1) as nat,
                        |i: int| (VariableHandle::Aux((base + i) as usize), declared[i].1),
                    );
                    let earlier = Seq::new(
                        k as nat,
                        |i: int| (VariableHandle::Aux((base + i) as usize), declared_before[i].1),
                    );
                    assert(host_before.aux.len() == base + k);
                    assert forall|i: int| 0 <= i < k + 1 implies nums_view(outputs@)[i]
                        == target[i] by {
                        if i < k {
                            assert(outputs@[i] == outputs_before[i]);
                            assert(nums_view(outputs_before)[i] == earlier[i]);
                            assert(declared[i] == declared_before[i]);
                        }
                    }
                    assert(nums_view(outputs@) =~= target);
                }
            },
        }
        k += 1;
    }
    let ghost count = response.outputs@.len() as int;
    let mut p: usize = 0;
    while p < response.privates.len()
        invariant
            p <= response.privates.len(),
            count == response.outputs@.len(),
            registry@ == old(registry)@,
            registry@.wf(),
            response.input_ids@ == input_ids(registry@.free_variable_id, inputs@.len()),
            all == response.outputs@ + response.privates@,
            taken == taken_ids(registry@, inputs@.len()),
            proving == spec_proving(inputs@),
            num_inputs == old(cs)@.inputs.len(),
            num_aux == old(cs)@.aux.len(),
            num_constraints == old(cs)@.constraints.len(),
            declared.len() == count + p,
            spec_declare(taken, all.take(count + p), proving) == Ok::<Seq<Declared>, Error>(
                declared,
            ),
            merging(registry@, old(cs)@, inputs@, declared, bindings@, local@, cs@),
            nums_view(outputs@) == Seq::new(
                count as nat,
                |i: int| (VariableHandle::Aux((old(cs)@.aux.len() + i) as usize), declared[i].1),
            ),
        decreases response.privates.len() - p,
    {
        let var = &response.privates[p];
        proof {
            assert(all.take(count + p + 1).drop_last() =~= all.take(count + p));
            assert(all.take(count + p + 1).last() == response.privates@[p as int]);
            assert((var.id == u64::MAX || registry@.forward.contains_key(var.id)
                || local@.contains_key(var.id)) <==> (taken.contains(var.id) || holds_id(
                declared,
                var.id,
            )));
            if spec_declare(taken, all.take(count + p + 1), proving) is Err {
                lemma_declare_error_is_kept(taken, all, proving, count + p + 1);
            }
        }
        let ghost host_before = cs@;
        let ghost local_before = local@;
        let ghost bindings_before = bindings@;
        match declare_one(cs, registry, &mut local, &mut bindings, var, proving) {
            Err(e) => {
                cs.rollback(num_inputs, num_aux, num_constraints);
                proof {
                    assert(cs@.inputs =~= old(cs)@.inputs);
                    assert(cs@.aux =~= old(cs)@.aux);
                    assert(cs@.constraints =~= old(cs)@.constraints);
                }
                return Err(e);
            },
            Ok(num) => {
                proof {
                    let value = num.spec_value();
                    lemma_declare_step(
                        registry@,
                        old(cs)@,
                        inputs@,
                        declared,
                        bindings_before,
                        local_before,
                        host_before,
                        var.id,
                        value,
                    );
                    let ghost longer = declared.push((var.id, value));
                    assert(Seq::new(
                        count as nat,
                        |i: int|
                            (VariableHandle::Aux((old(cs)@.aux.len() + i) as usize), declared[i].1),
                    ) =~= Seq::new(
                        count as nat,
                        |i: int|
                            (VariableHandle::Aux((old(cs)@.aux.len() + i) as usize), longer[i].1),
                    ));
                    declared = longer;
                }
            },
        }
        p += 1;
    }
    proof {
        assert(all.take(count + p) =~= all);
    }
    match enforce_all(cs, &local, &response.constraints) {
        Err(e) => {
            cs.rollback(num_inputs, num_aux, num_constraints);
            proof {
                assert(cs@.inputs =~= old(cs)@.inputs);
                assert(cs@.aux =~= old(cs)@.aux);
                assert(cs@.constraints =~= old(cs)@.constraints);
            }
            return Err(e);
        },
        Ok(()) => {},
    }
    proof {
        lemma_merging_fresh(
            registry@,
            old(cs)@,
            inputs@,
            declared,
            bindings@,
            local@,
            HostCircuitView {
                inputs: old(cs)@.inputs,
                aux: old(cs)@.aux + declared.map_values(|d: Declared| d.1),
                constraints: old(cs)@.constraints,
            },
        );
    }
    commit(registry, &bindings);
    Ok(outputs)
}

/// Fresh bindings only add to a registry: what was bound stays bound to the
/// same handle, and the counter does not go back.
pub proof fn lemma_bind_all_appends(registry: RegistryView, bindings: Seq<Binding>)
    requires
        registry.wf(),
        fresh_bindings(registry, bindings),
    ensures
        bind_all(registry, bindings).free_variable_id >= registry.free_variable_id,
        forall|id: u64| #[trigger]
            registry.forward.contains_key(id) ==> bind_all(registry, bindings).forward.contains_key(
                id,
            ) && bind_all(registry, bindings).forward[id] == registry.forward[id],
        forall|k: int|
            0 <= k < bindings.len() ==> bind_all(registry, bindings).forward.contains_key(
                (#[trigger] bindings[k]).0,
            ) && bind_all(registry, bindings).forward[bindings[k].0] == bindings[k].1,
    decreases bindings.len(),
{
    if bindings.len() > 0 {
        let rest = bindings.drop_last();
        let last = bindings.last();
        assert(fresh_bindings(registry, rest)) by {
            assert forall|k: int| 0 <= k < rest.len() implies registry.can_bind(
                (#[trigger] rest[k]).0,
            ) by {
                assert(rest[k] == bindings[k]);
            }
            assert forall|j: int, k: int| 0 <= j < k < rest.len() implies (#[trigger] rest[j]).0
                != (#[trigger] rest[k]).0 by {
                assert(rest[j] == bindings[j]);
                assert(rest[k] == bindings[k]);
            }
        }
        lemma_bind_all_appends(registry, rest);
        let before = bind_all(registry, rest);
        let after = bind_all(registry, bindings);
        assert(bindings[bindings.len() - 1] == last);
        assert forall|id: u64| #[trigger] registry.forward.contains_key(id) implies
            after.forward.contains_key(id) && after.forward[id] == registry.forward[id] by {
            assert(registry.can_bind(bindings[bindings.len() - 1].0));
        }
        assert forall|k: int| 0 <= k < bindings.len() implies after.forward.contains_key(
            (#[trigger] bindings[k]).0,
        ) && after.forward[bindings[k].0] == bindings[k].1 by {
            if k < rest.len() {
                assert(rest[k] == bindings[k]);
                assert(bindings[k].0 != bindings[bindings.len() - 1].0);
            }
        }
    }
}

/// The variables that pass `spec_declare` keep their ids and their order,
/// none of their ids is taken, and no id occurs twice.
pub proof fn lemma_declared_ids(taken: Set<u64>, vars: Seq<Variable>, proving: bool)
    requires
        spec_declare(taken, vars, proving) is Ok,
    ensures
        spec_declare(taken, vars, proving)->Ok_0.len() == vars.len(),
        forall|j: int|
            0 <= j < vars.len() ==> (#[trigger] spec_declare(taken, vars, proving)->Ok_0[j]).0
                == vars[j].id && !taken.contains(vars[j].id),
        forall|i: int, j: int|
            0 <= i < j < vars.len() ==> (#[trigger] vars[i]).id != (#[trigger] vars[j]).id,
    decreases vars.len(),
{
    if vars.len() > 0 {
        let rest = vars.drop_last();
        lemma_declared_ids(taken, rest, proving);
        let prefix = spec_declare(taken, rest, proving)->Ok_0;
        let all = spec_declare(taken, vars, proving)->Ok_0;
        assert forall|j: int| 0 <= j < vars.len() implies (#[trigger] all[j]).0 == vars[j].id
            && !taken.contains(vars[j].id) by {
            if j < rest.len() {
                assert(all[j] == prefix[j]);
                assert(rest[j] == vars[j]);
            }
        }
        assert forall|i: int, j: int| 0 <= i < j < vars.len() implies (#[trigger] vars[i]).id != (
        #[trigger] vars[j]).id by {
            assert(rest[i] == vars[i]);
            if j < rest.len() {
                assert(rest[j] == vars[j]);
            } else {
                assert(prefix[i].0 == vars[i].id);
                assert(!holds_id(prefix, vars[j].id));
            }
        }
    }
}

/// A gadget call only appends. After a call that succeeds, every id that
/// was bound before is still bound to the same handle, the ids of the
/// inputs are bound to the handles of the inputs, the free id has moved
/// past the inputs at least, and the host circuit is what it was with more
/// auxiliary variables and constraints behind it. Nothing that existed is
/// renumbered or changed.
pub proof fn law_merge_only_appends(
    registry: RegistryView,
    host: HostCircuitView,
    inputs: Seq<AllocatedNum>,
    response: GadgetResponse,
)
    requires
        registry.wf(),
        registry.free_variable_id + inputs.len() <= u64::MAX,
        spec_merge(registry, host, inputs, response) is Ok,
    ensures
        ({
            let merged = spec_merge(registry, host, inputs, response)->Ok_0;
            &&& merged.registry.wf()
            &&& merged.registry.free_variable_id >= registry.free_variable_id + inputs.len()
            &&& forall|id: u64| #[trigger]
                registry.forward.contains_key(id) ==> merged.registry.forward.contains_key(id)
                    && merged.registry.forward[id] == registry.forward[id]
            &&& forall|i: int|
                0 <= i < inputs.len() ==> merged.registry.resolve(
                    (registry.free_variable_id + i) as u64,
                ) == Ok::<VariableHandle, Error>((#[trigger] inputs[i]).spec_variable())
            &&& merged.host.extends(host)
            &&& merged.host.inputs == host.inputs
        }),
{
    let first = registry.free_variable_id;
    let n = inputs.len() as int;
    let taken = taken_ids(registry, inputs.len());
    let vars = response.outputs@ + response.privates@;
    let declared = spec_declare(taken, vars, spec_proving(inputs))->Ok_0;
    let bindings = input_bindings(first, inputs) + declared_bindings(host.aux.len(), declared);
    let merged = spec_merge(registry, host, inputs, response)->Ok_0;
    lemma_declared_ids(taken, vars, spec_proving(inputs));
    assert(fresh_bindings(registry, bindings)) by {
        assert forall|k: int| 0 <= k < bindings.len() implies registry.can_bind(
            (#[trigger] bindings[k]).0,
        ) by {
            if k < n {
                assert(bindings[k].0 == first + k);
                if registry.forward.contains_key(bindings[k].0) {
                }
            } else {
                assert(bindings[k].0 == declared[k - n].0);
                assert(declared[k - n].0 == vars[k - n].id);
            }
        }
        assert forall|j: int, k: int| 0 <= j < k < bindings.len() implies (#[trigger] bindings[j]).0
            != (#[trigger] bindings[k]).0 by {
            if k < n {
                assert(bindings[j].0 == first + j);
                assert(bindings[k].0 == first + k);
            } else if j < n {
                assert(bindings[j].0 == first + j);
                assert(declared[k - n].0 == vars[k - n].id);
            } else {
                assert(declared[j - n].0 == vars[j - n].id);
                assert(declared[k - n].0 == vars[k - n].id);
            }
        }
    }
    lemma_bind_all(registry, bindings);
    lemma_bind_all_appends(registry, bindings);
    assert forall|i: int| 0 <= i < inputs.len() implies merged.registry.resolve(
        (first + i) as u64,
    ) == Ok::<VariableHandle, Error>((#[trigger] inputs[i]).spec_variable()) by {
        assert(bindings[i] == ((first + i) as u64, inputs[i].spec_variable()));
    }
    if n > 0 {
        assert(bindings[n - 1].0 == first + n - 1);
        assert(merged.registry.forward.contains_key(bindings[n - 1].0));
    }
    assert(merged.host.aux.take(host.aux.len() as int) =~= host.aux);
    assert(merged.host.constraints.take(host.constraints.len() as int) =~= host.constraints);
    assert(merged.host.inputs.take(host.inputs.len() as int) =~= host.inputs);
}

} // verus!
