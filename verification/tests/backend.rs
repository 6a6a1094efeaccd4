use zkinterface_bellman::error::Error;
use zkinterface_bellman::field::FieldElement;
use zkinterface_bellman::host::{HostCircuit, Combination, VariableHandle};
use zkinterface_bellman::import::decode_scalar;
use zkinterface_bellman::wire::{Constraint, Messages, Term, Variable};
use zkinterface_bellman::zkif_backend::ZKIFCircuit;

fn fe(n: u8) -> FieldElement {
    decode_scalar(&[n]).unwrap()
}

fn term(id: u64, n: u8) -> Term {
    Term { id, value: vec![n] }
}

fn var(id: u64, n: u8) -> Variable {
    Variable { id, value: Some(vec![n]) }
}

fn terms_of(lc: &Combination) -> Vec<(VariableHandle, FieldElement)> {
    (0..lc.len()).map(|i| lc.term(i)).collect()
}

type Row = Vec<Vec<(VariableHandle, FieldElement)>>;

/// Everything that a host circuit holds, for comparing two states.
fn snapshot(host: &HostCircuit) -> (Vec<Option<FieldElement>>, Vec<Option<FieldElement>>, Vec<Row>) {
    let inputs = (0..host.num_inputs()).map(|i| host.value(VariableHandle::Input(i))).collect();
    let aux = (0..host.num_aux()).map(|i| host.value(VariableHandle::Aux(i))).collect();
    let rows = (0..host.num_constraints())
        .map(|i| {
            let row = host.constraint(i);
            vec![terms_of(&row.a), terms_of(&row.b), terms_of(&row.c)]
        })
        .collect();
    (inputs, aux, rows)
}

/// x * x = y with x = 3 public under id 1 and y = 9 private under id 2.
fn square() -> Messages {
    Messages {
        field_maximum: Some(FieldElement::maximum().to_bytes().to_vec()),
        connection_variables: vec![var(1, 3)],
        private_variables: vec![var(2, 9)],
        constraints: vec![Constraint {
            a: vec![term(1, 1)],
            b: vec![term(1, 1)],
            c: vec![term(2, 1)],
        }],
    }
}

#[test]
fn a_statement_is_built_into_the_host() {
    let messages = square();
    let circuit = ZKIFCircuit { messages: &messages };
    assert!(!circuit.names_other_field());
    let mut host = HostCircuit::new();
    let registry = circuit.synthesize(&mut host).unwrap();
    assert_eq!(registry.resolve(0), Ok(VariableHandle::Input(0)));
    assert_eq!(registry.resolve(1), Ok(VariableHandle::Input(1)));
    assert_eq!(registry.resolve(2), Ok(VariableHandle::Aux(0)));
    assert_eq!(registry.free_variable_id(), 3);
    assert_eq!(host.value(VariableHandle::Input(1)), Some(fe(3)));
    assert_eq!(host.value(VariableHandle::Aux(0)), Some(fe(9)));
    assert_eq!(host.num_constraints(), 1);
    assert_eq!(terms_of(&host.constraint(0).a), vec![(VariableHandle::Input(1), fe(1))]);
    assert_eq!(terms_of(&host.constraint(0).c), vec![(VariableHandle::Aux(0), fe(1))]);
}

#[test]
fn ids_may_come_in_any_order() {
    let mut messages = square();
    messages.connection_variables = vec![var(4, 3), var(2, 1)];
    messages.private_variables = vec![Variable { id: 1, value: None }, var(3, 9)];
    messages.constraints =
        vec![Constraint { a: vec![term(4, 1)], b: vec![term(2, 1)], c: vec![term(1, 1), term(3, 1)] }];
    let mut host = HostCircuit::new();
    let registry = ZKIFCircuit { messages: &messages }.synthesize(&mut host).unwrap();
    assert_eq!(registry.free_variable_id(), 5);
    assert_eq!(registry.resolve(4), Ok(VariableHandle::Input(1)));
    assert_eq!(registry.resolve(2), Ok(VariableHandle::Input(2)));
    assert_eq!(registry.resolve(1), Ok(VariableHandle::Aux(0)));
    assert_eq!(registry.resolve(3), Ok(VariableHandle::Aux(1)));
    assert_eq!(host.value(VariableHandle::Aux(0)), None);
}

#[test]
fn a_statement_without_a_field_mark_is_accepted() {
    let mut messages = square();
    messages.field_maximum = None;
    let circuit = ZKIFCircuit { messages: &messages };
    assert!(!circuit.names_other_field());
    assert!(circuit.synthesize(&mut HostCircuit::new()).is_ok());
}

#[test]
fn another_field_is_recognised() {
    let mut messages = square();
    messages.field_maximum = Some(vec![100]);
    assert!(ZKIFCircuit { messages: &messages }.names_other_field());
    messages.field_maximum = Some(vec![]);
    assert!(ZKIFCircuit { messages: &messages }.names_other_field());
}

#[test]
fn a_field_mark_that_does_not_decode_is_an_encoding_error() {
    let mut messages = square();
    messages.field_maximum = Some(vec![0xff; 32]);
    let circuit = ZKIFCircuit { messages: &messages };
    assert!(!circuit.names_other_field());
    let mut host = HostCircuit::new();
    assert_eq!(circuit.synthesize(&mut host).err(), Some(Error::EncodingError));
    assert_eq!(snapshot(&host), snapshot(&HostCircuit::new()));
}

#[test]
fn a_failed_statement_leaves_the_host_as_it_was() {
    let mut host = HostCircuit::new();
    host.allocate(zkinterface_bellman::host::Role::Private, Some(fe(1)));
    let before = snapshot(&host);

    let mut messages = square();
    messages.private_variables.push(var(1, 5));
    assert_eq!(ZKIFCircuit { messages: &messages }.synthesize(&mut host).err(), Some(Error::IdMismatch));
    assert_eq!(snapshot(&host), before);

    let mut messages = square();
    messages.connection_variables.push(var(0, 5));
    assert_eq!(ZKIFCircuit { messages: &messages }.synthesize(&mut host).err(), Some(Error::IdMismatch));
    assert_eq!(snapshot(&host), before);

    let mut messages = square();
    messages.private_variables[0].value = Some(vec![1; 33]);
    assert_eq!(ZKIFCircuit { messages: &messages }.synthesize(&mut host).err(), Some(Error::EncodingError));
    assert_eq!(snapshot(&host), before);

    let mut messages = square();
    messages.constraints.push(Constraint { a: vec![term(3, 1)], b: vec![], c: vec![] });
    assert_eq!(ZKIFCircuit { messages: &messages }.synthesize(&mut host).err(), Some(Error::UnknownVariable));
    assert_eq!(snapshot(&host), before);
}

#[test]
fn public_inputs_are_decoded_in_order() {
    let mut messages = square();
    messages.connection_variables = vec![var(1, 3), var(2, 0), Variable { id: 5, value: Some(vec![]) }];
    let circuit = ZKIFCircuit { messages: &messages };
    assert_eq!(circuit.public_inputs(), Ok(vec![fe(3), fe(0), FieldElement::zero()]));
    messages.connection_variables.clear();
    assert_eq!(ZKIFCircuit { messages: &messages }.public_inputs(), Ok(vec![]));
}

#[test]
fn public_inputs_need_their_values() {
    let mut messages = square();
    messages.connection_variables = vec![var(1, 3), Variable { id: 2, value: None }];
    assert_eq!(
        ZKIFCircuit { messages: &messages }.public_inputs(),
        Err(Error::IncompleteWitness)
    );
    messages.connection_variables = vec![Variable { id: 1, value: Some(vec![0xff; 32]) }];
    assert_eq!(ZKIFCircuit { messages: &messages }.public_inputs(), Err(Error::EncodingError));
}
