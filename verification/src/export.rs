//! From the host onto the wire: encoding field elements and translating
//! constraints.

use vstd::prelude::*;
use crate::error::Error;
use crate::field::{lemma_le_bytes_len, spec_encode, FieldElement};
use crate::host::{Combination, Terms, VariableHandle};
use crate::registry::Registry;
use crate::wire::{bytes_view, BilinearConstraint, Variables};

verus! {

/// Appends the canonical encoding of `fr` to `writer`: always
/// `SCALAR_BYTES` bytes, however small the value.
pub fn encode_scalar(fr: &FieldElement, writer: &mut Vec<u8>)
    ensures
        final(writer)@ == old(writer)@ + spec_encode(fr@),
{
    let repr = fr.to_bytes();
    writer.extend_from_slice(repr.as_slice());
}

/// The ids and the coefficient bytes of a wire-level linear combination.
pub struct WireTerms {
    pub variable_ids: Seq<u64>,
    pub values: Seq<u8>,
}

/// What a linear combination of the host becomes on the wire: the id of each
/// handle and the canonical encoding of each coefficient, in the order of
/// the terms; or `UnknownVariable` for the first handle without an id.
pub open spec fn spec_to_zkif_lc(reverse: Map<VariableHandle, u64>, terms: Terms) -> Result<
    WireTerms,
    Error,
>
    decreases terms.len(),
{
    if terms.len() == 0 {
        Ok(WireTerms { variable_ids: Seq::empty(), values: Seq::empty() })
    } else {
        match spec_to_zkif_lc(reverse, terms.drop_last()) {
            Err(e) => Err(e),
            Ok(prefix) => {
                let (handle, coeff) = terms.last();
                if reverse.contains_key(handle) {
                    Ok(
                        WireTerms {
                            variable_ids: prefix.variable_ids.push(reverse[handle]),
                            values: prefix.values + spec_encode(coeff),
                        },
                    )
                } else {
                    Err(Error::UnknownVariable)
                }
            },
        }
    }
}

/// Whether `variables` holds exactly `terms`.
pub open spec fn holds_terms(variables: Variables, terms: WireTerms) -> bool {
    variables.variable_ids@ == terms.variable_ids && bytes_view(variables.values) == Some(
        terms.values,
    )
}

/// A failure among the first `n` terms is the failure of all.
pub proof fn lemma_to_zkif_lc_error_is_kept(reverse: Map<VariableHandle, u64>, terms: Terms, n: int)
    requires
        0 <= n <= terms.len(),
        spec_to_zkif_lc(reverse, terms.take(n)) is Err,
    ensures
        spec_to_zkif_lc(reverse, terms) == spec_to_zkif_lc(reverse, terms.take(n)),
    decreases terms.len() - n,
{
    if n < terms.len() {
        assert(terms.take(n + 1).drop_last() =~= terms.take(n));
        lemma_to_zkif_lc_error_is_kept(reverse, terms, n + 1);
    } else {
        assert(terms.take(n) =~= terms);
    }
}

/// On the wire a combination has one id for each term, and each
/// coefficient at the full canonical width, however small it is.
pub proof fn law_wire_terms_have_full_width(reverse: Map<VariableHandle, u64>, terms: Terms)
    requires
        spec_to_zkif_lc(reverse, terms) is Ok,
    ensures
        spec_to_zkif_lc(reverse, terms)->Ok_0.variable_ids.len() == terms.len(),
        spec_to_zkif_lc(reverse, terms)->Ok_0.values.len() == 32 * terms.len(),
    decreases terms.len(),
{
    if terms.len() > 0 {
        law_wire_terms_have_full_width(reverse, terms.drop_last());
        lemma_le_bytes_len(terms.last().1, 32);
    }
}

/// Translates a linear combination of the host to the wire: the id of each
/// variable, and the coefficients at their full width, in the order of the
/// terms. A handle that the registry does not know is an `UnknownVariable`.
pub fn to_zkif_lc(lc: Combination, registry: &Registry) -> (r: Result<Variables, Error>)
    ensures
        match spec_to_zkif_lc(registry@.reverse, lc@) {
            Ok(terms) => r is Ok && holds_terms(r->Ok_0, terms),
            Err(e) => r == Err::<Variables, Error>(e),
        },
{
    let mut variable_ids: Vec<u64> = Vec::new();
    let mut coeffs: Vec<u8> = Vec::new();
    let mut i: usize = 0;
    assert(lc@.take(0) =~= Terms::empty());
    while i < lc.len()
        invariant
            i <= lc@.len(),
            spec_to_zkif_lc(registry@.reverse, lc@.take(i as int)) == Ok::<WireTerms, Error>(
                WireTerms { variable_ids: variable_ids@, values: coeffs@ },
            ),
        decreases lc@.len() - i,
    {
        proof {
            assert(lc@.take(i + 1).drop_last() =~= lc@.take(i as int));
            assert(lc@.take(i + 1).last() == lc@[i as int]);
            if spec_to_zkif_lc(registry@.reverse, lc@.take(i + 1)) is Err {
                lemma_to_zkif_lc_error_is_kept(registry@.reverse, lc@, i + 1);
            }
        }
        let (var, coeff) = lc.term(i);
        let id = match registry.reverse(var) {
            Ok(id) => id,
            Err(e) => {
                return Err(e);
            },
        };
        variable_ids.push(id);
        encode_scalar(&coeff, &mut coeffs);
        i += 1;
    }
    assert(lc@.take(i as int) =~= lc@);
    Ok(Variables { variable_ids, values: Some(coeffs) })
}

/// What a host constraint becomes on the wire. `A` is translated first,
/// then `B`, then `C`.
pub open spec fn spec_to_zkif_constraint(
    reverse: Map<VariableHandle, u64>,
    a: Terms,
    b: Terms,
    c: Terms,
) -> Result<(WireTerms, WireTerms, WireTerms), Error> {
    match spec_to_zkif_lc(reverse, a) {
        Err(e) => Err(e),
        Ok(wire_a) => match spec_to_zkif_lc(reverse, b) {
            Err(e) => Err(e),
            Ok(wire_b) => match spec_to_zkif_lc(reverse, c) {
                Err(e) => Err(e),
                Ok(wire_c) => Ok((wire_a, wire_b, wire_c)),
            },
        },
    }
}

/// Whether `constraint` holds exactly the three combinations of `terms`.
pub open spec fn holds_constraint(
    constraint: BilinearConstraint,
    terms: (WireTerms, WireTerms, WireTerms),
) -> bool {
    &&& holds_terms(constraint.linear_combination_a, terms.0)
    &&& holds_terms(constraint.linear_combination_b, terms.1)
    &&& holds_terms(constraint.linear_combination_c, terms.2)
}

/// Translates the row `a * b = c` of the host to the wire.
pub fn to_zkif_constraint(
    a: Combination,
    b: Combination,
    c: Combination,
    registry: &Registry,
) -> (r: Result<BilinearConstraint, Error>)
    ensures
        match spec_to_zkif_constraint(registry@.reverse, a@, b@, c@) {
            Ok(terms) => r is Ok && holds_constraint(r->Ok_0, terms),
            Err(e) => r == Err::<BilinearConstraint, Error>(e),
        },
{
    let linear_combination_a = match to_zkif_lc(a, registry) {
        Ok(lc) => lc,
        Err(e) => {
            return Err(e);
        },
    };
    let linear_combination_b = match to_zkif_lc(b, registry) {
        Ok(lc) => lc,
        Err(e) => {
            return Err(e);
        },
    };
    let linear_combination_c = match to_zkif_lc(c, registry) {
        Ok(lc) => lc,
        Err(e) => {
            return Err(e);
        },
    };
    Ok(BilinearConstraint { linear_combination_a, linear_combination_b, linear_combination_c })
}

} // verus!
