//! From the wire into the host: decoding field elements, translating
//! constraints, and calling gadgets.

use std::collections::HashMap;
use vstd::prelude::*;
use crate::error::Error;
use crate::field::{is_canonical, lemma_le_value_zero_padded, spec_decode, FieldElement,
    SCALAR_BYTES};
use crate::gadget::{input_ids, merge_response, nums_view, prepare_call, spec_call_values,
    spec_merge};
use crate::host::{AllocatedNum, ConstraintView, HostCircuit, HostCircuitView, Combination,
    Terms, VariableHandle};
use crate::registry::{Registry, RegistryView};
use crate::wire::{call_message, write_call, Constraint, GadgetResponse, Term, MAX_CONNECTIONS};

verus! {

/// Decodes little-endian field bytes of any length up to `SCALAR_BYTES`.
///
/// Missing high-order bytes count as zero, so the empty string is zero. Bytes
/// beyond the canonical width, or an integer that is not below the modulus,
/// are an `EncodingError`.
pub fn decode_scalar(bytes_le: &[u8]) -> (r: Result<FieldElement, Error>)
    ensures
        match spec_decode(bytes_le@) {
            Ok(value) => r is Ok && r->Ok_0@ == value,
            Err(e) => r == Err::<FieldElement, Error>(e),
        },
{
    if bytes_le.len() > SCALAR_BYTES {
        return Err(Error::EncodingError);
    }
    let mut repr = [0u8; 32];
    let mut i: usize = 0;
    while i < bytes_le.len()
        invariant
            i <= bytes_le.len() <= 32,
            forall|j: int| 0 <= j < i ==> repr@[j] == bytes_le@[j],
            forall|j: int| i <= j < 32 ==> repr@[j] == 0,
        decreases bytes_le.len() - i,
    {
        repr[i] = bytes_le[i];
        i += 1;
    }
    proof {
        lemma_le_value_zero_padded(bytes_le@, repr@);
    }
    if !is_canonical(&repr) {
        return Err(Error::EncodingError);
    }
    Ok(FieldElement::from_canonical(repr))
}

/// What one wire term becomes in the host: the handle behind its id, and
/// the integer of its coefficient. The id is looked up first.
pub open spec fn spec_term(vars: Map<u64, VariableHandle>, term: Term) -> Result<
    (VariableHandle, nat),
    Error,
> {
    if !vars.contains_key(term.id) {
        Err(Error::UnknownVariable)
    } else {
        match spec_decode(term.value@) {
            Ok(value) => Ok((vars[term.id], value)),
            Err(e) => Err(e),
        }
    }
}

/// What a list of wire terms becomes in the host: the terms in the same
/// order, or the failure of the first term that does not translate.
pub open spec fn spec_terms_to_lc(vars: Map<u64, VariableHandle>, terms: Seq<Term>) -> Result<
    Terms,
    Error,
>
    decreases terms.len(),
{
    if terms.len() == 0 {
        Ok(Terms::empty())
    } else {
        match spec_terms_to_lc(vars, terms.drop_last()) {
            Err(e) => Err(e),
            Ok(prefix) => match spec_term(vars, terms.last()) {
                Err(e) => Err(e),
                Ok(t) => Ok(prefix.push(t)),
            },
        }
    }
}

/// What a wire constraint becomes in the host. `A` is translated first,
/// then `B`, then `C`.
pub open spec fn spec_constraint(vars: Map<u64, VariableHandle>, constraint: Constraint) -> Result<
    ConstraintView,
    Error,
> {
    match spec_terms_to_lc(vars, constraint.a@) {
        Err(e) => Err(e),
        Ok(a) => match spec_terms_to_lc(vars, constraint.b@) {
            Err(e) => Err(e),
            Ok(b) => match spec_terms_to_lc(vars, constraint.c@) {
                Err(e) => Err(e),
                Ok(c) => Ok(ConstraintView { a, b, c }),
            },
        },
    }
}

/// Translates wire terms into a linear combination of the host, in the
/// same order. An id that `vars` does not hold is an `UnknownVariable`; a
/// coefficient that does not decode is an `EncodingError`.
pub fn terms_to_lc(vars: &HashMap<u64, VariableHandle>, terms: &[Term]) -> (r: Result<
    Combination,
    Error,
>)
    ensures
        match spec_terms_to_lc(vars@, terms@) {
            Ok(t) => r is Ok && r->Ok_0@ == t,
            Err(e) => r == Err::<Combination, Error>(e),
        },
{
    broadcast use vstd::std_specs::hash::group_hash_axioms;

    let mut lc = Combination::zero();
    let mut i: usize = 0;
    assert(terms@.take(0) =~= Seq::<Term>::empty());
    while i < terms.len()
        invariant
            i <= terms.len(),
            spec_terms_to_lc(vars@, terms@.take(i as int)) == Ok::<Terms, Error>(lc@),
        decreases terms.len() - i,
    {
        let term = &terms[i];
        proof {
            assert(terms@.take(i + 1).drop_last() =~= terms@.take(i as int));
            assert(terms@.take(i + 1).last() == terms@[i as int]);
            if spec_terms_to_lc(vars@, terms@.take(i + 1)) is Err {
                lemma_terms_error_is_kept(vars@, terms@, i + 1);
            }
        }
        let var = match vars.get(&term.id) {
            Some(var) => *var,
            None => {
                return Err(Error::UnknownVariable);
            },
        };
        let coeff = match decode_scalar(term.value.as_slice()) {
            Ok(coeff) => coeff,
            Err(e) => {
                return Err(e);
            },
        };
        lc = lc.add_term(coeff, var);
        i += 1;
    }
    assert(terms@.take(i as int) =~= terms@);
    Ok(lc)
}

/// A failure among the first `n` terms is the failure of the whole list.
pub proof fn lemma_terms_error_is_kept(vars: Map<u64, VariableHandle>, terms: Seq<Term>, n: int)
    requires
        0 <= n <= terms.len(),
        spec_terms_to_lc(vars, terms.take(n)) is Err,
    ensures
        spec_terms_to_lc(vars, terms) == spec_terms_to_lc(vars, terms.take(n)),
    decreases terms.len() - n,
{
    if n < terms.len() {
        assert(terms.take(n + 1).drop_last() =~= terms.take(n));
        lemma_terms_error_is_kept(vars, terms, n + 1);
    } else {
        assert(terms.take(n) =~= terms);
    }
}

/// Translates a wire constraint and asserts it as the next row of the host
/// circuit. On a failure the circuit is left as it was.
pub fn enforce(cs: &mut HostCircuit, vars: &HashMap<u64, VariableHandle>, constraint: &Constraint) -> (r:
    Result<(), Error>)
    ensures
        match spec_constraint(vars@, *constraint) {
            Ok(row) => r is Ok && final(cs)@ == old(cs)@.enforce(row),
            Err(e) => r == Err::<(), Error>(e) && final(cs)@ == old(cs)@,
        },
{
    let a = match terms_to_lc(vars, constraint.a.as_slice()) {
        Ok(a) => a,
        Err(e) => {
            return Err(e);
        },
    };
    let b = match terms_to_lc(vars, constraint.b.as_slice()) {
        Ok(b) => b,
        Err(e) => {
            return Err(e);
        },
    };
    let c = match terms_to_lc(vars, constraint.c.as_slice()) {
        Ok(c) => c,
        Err(e) => {
            return Err(e);
        },
    };
    cs.enforce(a, b, c);
    Ok(())
}

/// Whether a call that got `answer` from the gadget may return `r` and
/// leave the registry and the host circuit as `registry` and `host`.
///
/// A failure of the gadget is a `GadgetFailure`. An answer is merged as
/// `spec_merge` says. On every failure the registry and the host circuit are
/// what they were before the call.
pub open spec fn call_result<E>(
    registry_before: RegistryView,
    host_before: HostCircuitView,
    inputs: Seq<AllocatedNum>,
    answer: Result<GadgetResponse, E>,
    r: Result<Vec<AllocatedNum>, Error>,
    registry: RegistryView,
    host: HostCircuitView,
) -> bool {
    let merged = match answer {
        Err(_) => Err(Error::GadgetFailure),
        Ok(response) => spec_merge(registry_before, host_before, inputs, response),
    };
    match merged {
        Ok(m) => {
            &&& r matches Ok(outputs)
            &&& nums_view(outputs@) == m.outputs
            &&& registry == m.registry
            &&& host == m.host
        },
        Err(e) => {
            &&& r == Err::<Vec<AllocatedNum>, Error>(e)
            &&& registry == registry_before
            &&& host == host_before
        },
    }
}

/// Finishes a gadget call with what the gadget answered: a failure of the
/// gadget becomes a `GadgetFailure`, an answer is merged into the registry
/// and the host circuit. Either all of the answer is merged or nothing is.
pub fn finish_call<E>(
    cs: &mut HostCircuit,
    registry: &mut Registry,
    inputs: &[AllocatedNum],
    answer: Result<GadgetResponse, E>,
) -> (r: Result<Vec<AllocatedNum>, Error>)
    requires
        old(registry)@.wf(),
        old(registry)@.free_variable_id + inputs.len() <= u64::MAX,
    ensures
        final(registry)@.wf(),
        call_result(
            old(registry)@,
            old(cs)@,
            inputs@,
            answer,
            r,
            final(registry)@,
            final(cs)@,
        ),
{
    match answer {
        Err(_) => Err(Error::GadgetFailure),
        Ok(response) => merge_response(cs, registry, inputs, &response),
    }
}

/// Calls a gadget: a sub-circuit that is given as a function from a
/// serialized call to an answer or a failure.
///
/// The inputs get a contiguous run of fresh ids from the registry's free id.
/// The call is in proving mode if the first input carries a value; then
/// every input must carry one, or the call ends with `IncompleteWitness`
/// before the gadget is asked. The gadget gets the serialized description
/// of the call and is asked once. Its answer is merged as `finish_call`
/// says; the outputs are returned. After any failure the registry and the
/// host circuit are what they were before the call.
pub fn call_gadget<E, F: Fn(&[u8]) -> Result<GadgetResponse, E>>(
    cs: &mut HostCircuit,
    registry: &mut Registry,
    inputs: &[AllocatedNum],
    exec_fn: &F,
) -> (r: Result<Vec<AllocatedNum>, Error>)
    requires
        old(registry)@.wf(),
        old(registry)@.free_variable_id + inputs.len() <= u64::MAX,
        inputs.len() <= MAX_CONNECTIONS,
        forall|message: &[u8]| call_requires(exec_fn, (message,)),
    ensures
        final(registry)@.wf(),
        match spec_call_values(inputs@) {
            Err(e) => {
                &&& r == Err::<Vec<AllocatedNum>, Error>(e)
                &&& final(registry)@ == old(registry)@
                &&& final(cs)@ == old(cs)@
            },
            Ok(values) => exists|message: &[u8], answer: Result<GadgetResponse, E>|
                {
                    &&& message@ == call_message(
                        input_ids(old(registry)@.free_variable_id, inputs@.len()),
                        values,
                        (old(registry)@.free_variable_id + inputs@.len()) as u64,
                    )
                    &&& call_ensures(exec_fn, (message,), answer)
                    &&& call_result(
                        old(registry)@,
                        old(cs)@,
                        inputs@,
                        answer,
                        r,
                        final(registry)@,
                        final(cs)@,
                    )
                },
        },
{
    let call = match prepare_call(registry, inputs) {
        Ok(call) => call,
        Err(e) => {
            return Err(e);
        },
    };
    let call_buf = write_call(
        &call.instance_variables.variable_ids,
        &call.instance_variables.values,
        call.free_variable_id,
    );
    let message = call_buf.as_slice();
    let answer = exec_fn(message);
    let ghost given = answer;
    let r = finish_call(cs, registry, inputs, answer);
    assert(call_ensures(exec_fn, (message,), given));
    r
}

} // verus!
