//! The statement format as plain values: what is read from the wire and what
//! is written to it.

use vstd::prelude::*;

verus! {

/// One term of a wire-level linear combination: a variable id and the
/// little-endian bytes of its coefficient, of any length up to the canonical
/// width.
#[derive(Clone, Debug, PartialEq, Eq)]
pub struct Term {
    pub id: u64,
    pub value: Vec<u8>,
}

/// A variable as a message declares it: its id and, where the message
/// carries one, its encoded value.
#[derive(Clone, Debug, PartialEq, Eq)]
pub struct Variable {
    pub id: u64,
    pub value: Option<Vec<u8>>,
}

/// A bilinear constraint as it is read: three ordered lists of terms.
#[derive(Clone, Debug, PartialEq, Eq)]
pub struct Constraint {
    pub a: Vec<Term>,
    pub b: Vec<Term>,
    pub c: Vec<Term>,
}

/// Variable ids with their values as one blob: the values have the same
/// width each and stand in the order of the ids.
#[derive(Clone, Debug, PartialEq, Eq)]
pub struct Variables {
    pub variable_ids: Vec<u64>,
    pub values: Option<Vec<u8>>,
}

/// A bilinear constraint as it is written.
#[derive(Clone, Debug, PartialEq, Eq)]
pub struct BilinearConstraint {
    pub linear_combination_a: Variables,
    pub linear_combination_b: Variables,
    pub linear_combination_c: Variables,
}

/// One batch of constraints: the content of one constraints message.
#[derive(Clone, Debug, PartialEq, Eq)]
pub struct ConstraintSystem {
    pub constraints: Vec<BilinearConstraint>,
}

/// The content of a witness message.
#[derive(Clone, Debug, PartialEq, Eq)]
pub struct Witness {
    pub assigned_variables: Variables,
}

/// A named configuration entry of a header.
#[derive(Clone, Debug, PartialEq, Eq)]
pub struct KeyValue {
    pub key: String,
    pub text: Option<String>,
    pub data: Option<Vec<u8>>,
    pub number: i64,
}

/// The header of a statement, and the description of a gadget call.
#[derive(Clone, Debug, PartialEq, Eq)]
pub struct CircuitHeader {
    pub instance_variables: Variables,
    pub free_variable_id: u64,
    pub field_maximum: Option<Vec<u8>>,
    pub configuration: Option<Vec<KeyValue>>,
}

/// A message of the statement format.
#[derive(Clone, Debug, PartialEq, Eq)]
pub enum Message {
    Header(CircuitHeader),
    Constraints(ConstraintSystem),
    Witness(Witness),
}

/// A statement as it was read: the content of its messages.
#[derive(Clone, Debug, PartialEq, Eq)]
pub struct Messages {
    /// The largest element of the field that the statement is over, where
    /// the header names it.
    pub field_maximum: Option<Vec<u8>>,
    /// The public inputs, in the order of the header.
    pub connection_variables: Vec<Variable>,
    /// The private variables.
    pub private_variables: Vec<Variable>,
    /// The constraints of all constraints messages, in order.
    pub constraints: Vec<Constraint>,
}

/// What a gadget answers to a call.
#[derive(Clone, Debug, PartialEq, Eq)]
pub struct GadgetResponse {
    /// The ids of the call's inputs, as the gadget understood them.
    pub input_ids: Vec<u64>,
    /// The outputs that the gadget declares.
    pub outputs: Vec<Variable>,
    /// The private variables that the gadget declares.
    pub privates: Vec<Variable>,
    /// The constraints of the gadget, in order.
    pub constraints: Vec<Constraint>,
}

/// The most inputs that one gadget call can have: the call message, with
/// one value of the canonical width for each, stays far below the two
/// gigabytes that a message can hold.
pub const MAX_CONNECTIONS: usize = 0x100_0000;

/// The bytes of the message that describes a gadget call: a header with
/// these connection ids, these values and this first free id, and neither a
/// field maximum nor a configuration.
pub uninterp spec fn call_message(
    variable_ids: Seq<u64>,
    values: Option<Seq<u8>>,
    free_variable_id: u64,
) -> Seq<u8>;

/// Serializes the description of a gadget call.
///
/// Calls `zkinterface::CircuitHeader::write_into` on a header that holds the
/// given ids, values and first free id, with no field maximum and no
/// configuration. It builds one size-prefixed message from the header's
/// fields alone, and writing it into a vector cannot fail. The message
/// builder gives up beyond two gigabytes, so the lengths are bounded.
#[verifier::external_body]
pub(crate) fn write_call(variable_ids: &Vec<u64>, values: &Option<Vec<u8>>, free_variable_id: u64) -> (bytes:
    Vec<u8>)
    requires
        variable_ids.len() <= MAX_CONNECTIONS,
        values matches Some(v) ==> v.len() <= 32 * MAX_CONNECTIONS,
    ensures
        bytes@ == call_message(variable_ids@, bytes_view(*values), free_variable_id),
{
    let header = zkinterface::CircuitHeader {
        instance_variables: zkinterface::Variables {
            variable_ids: variable_ids.clone(),
            values: values.clone(),
        },
        free_variable_id,
        field_maximum: None,
        configuration: None,
    };
    let mut bytes = Vec::new();
    header.write_into(&mut bytes).unwrap();
    bytes
}

/// The bytes of an optional byte string.
pub open spec fn bytes_view(bytes: Option<Vec<u8>>) -> Option<Seq<u8>> {
    match bytes {
        Some(b) => Some(b@),
        None => None,
    }
}

} // verus!
