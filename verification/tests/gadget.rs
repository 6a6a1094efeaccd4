use std::cell::RefCell;
use zkinterface_bellman::error::Error;
use zkinterface_bellman::field::FieldElement;
use zkinterface_bellman::gadget::{merge_response, prepare_call};
use zkinterface_bellman::host::{AllocatedNum, HostCircuit, Combination, Role, VariableHandle};
use zkinterface_bellman::import::{call_gadget, decode_scalar, finish_call};
use zkinterface_bellman::registry::Registry;
use zkinterface_bellman::wire::{Constraint, GadgetResponse, Term, Variable};

fn fe(n: u8) -> FieldElement {
    decode_scalar(&[n]).unwrap()
}

fn wide(n: u8) -> Vec<u8> {
    let mut bytes = vec![0u8; 32];
    bytes[0] = n;
    bytes
}

fn term(id: u64, n: u8) -> Term {
    Term { id, value: vec![n] }
}

fn terms_of(lc: &Combination) -> Vec<(VariableHandle, FieldElement)> {
    (0..lc.len()).map(|i| lc.term(i)).collect()
}

type Row = Vec<Vec<(VariableHandle, FieldElement)>>;

/// Everything that a host circuit holds, for comparing two states.
fn snapshot(host: &HostCircuit) -> (Vec<Option<FieldElement>>, Vec<Option<FieldElement>>, Vec<Row>) {
    let inputs = (0..host.num_inputs()).map(|i| host.value(VariableHandle::Input(i))).collect();
    let aux = (0..host.num_aux()).map(|i| host.value(VariableHandle::Aux(i))).collect();
    let rows = (0..host.num_constraints())
        .map(|i| {
            let row = host.constraint(i);
            vec![terms_of(&row.a), terms_of(&row.b), terms_of(&row.c)]
        })
        .collect();
    (inputs, aux, rows)
}

fn start() -> (HostCircuit, Registry) {
    let mut registry = Registry::new();
    registry.bind_constant(HostCircuit::one());
    (HostCircuit::new(), registry)
}

fn two_inputs(host: &mut HostCircuit, a: Option<u8>, b: Option<u8>) -> Vec<AllocatedNum> {
    let a = a.map(fe);
    let b = b.map(fe);
    let ha = host.allocate(Role::Private, a);
    let hb = host.allocate(Role::Private, b);
    vec![AllocatedNum::new(ha, a), AllocatedNum::new(hb, b)]
}

/// The gadget `a * b = c` for inputs at ids `first` and `first + 1`.
fn product_gadget(first: u64, c: Option<Vec<u8>>) -> GadgetResponse {
    GadgetResponse {
        input_ids: vec![first, first + 1],
        outputs: vec![Variable { id: first + 2, value: c }],
        privates: vec![],
        constraints: vec![Constraint {
            a: vec![term(first, 1)],
            b: vec![term(first + 1, 1)],
            c: vec![term(first + 2, 1)],
        }],
    }
}

#[test]
fn a_product_gadget_in_proving_mode() {
    let (mut host, mut registry) = start();
    let inputs = two_inputs(&mut host, Some(2), Some(5));
    let calls = RefCell::new(0);
    let gadget = |_call: &[u8]| -> Result<GadgetResponse, String> {
        *calls.borrow_mut() += 1;
        Ok(product_gadget(1, Some(vec![10])))
    };
    let before = registry.free_variable_id();
    let outputs = call_gadget(&mut host, &mut registry, &inputs, &gadget).unwrap();
    assert_eq!(*calls.borrow(), 1);

    assert_eq!(registry.free_variable_id(), before + 3);
    assert_eq!(registry.resolve(1), Ok(inputs[0].get_variable()));
    assert_eq!(registry.resolve(2), Ok(inputs[1].get_variable()));
    assert_eq!(outputs.len(), 1);
    let c = outputs[0];
    assert_eq!(registry.resolve(3), Ok(c.get_variable()));
    assert_eq!(c.get_variable(), VariableHandle::Aux(2));
    assert_eq!(c.get_value(), Some(fe(10)));
    assert_eq!(host.value(c.get_variable()), Some(fe(10)));
    assert_eq!(c.get_value().unwrap().to_bytes().to_vec(), wide(10));

    assert_eq!(host.num_constraints(), 1);
    let row = host.constraint(0);
    assert_eq!(terms_of(&row.a), vec![(VariableHandle::Aux(0), fe(1))]);
    assert_eq!(terms_of(&row.b), vec![(VariableHandle::Aux(1), fe(1))]);
    assert_eq!(terms_of(&row.c), vec![(VariableHandle::Aux(2), fe(1))]);
    assert_eq!(host.num_inputs(), 1);
    assert_eq!(host.num_aux(), 3);
}

#[test]
fn the_call_message_describes_the_inputs() {
    let (mut host, mut registry) = start();
    registry.register(VariableHandle::Aux(7));
    let inputs = two_inputs(&mut host, Some(2), Some(5));
    let seen = RefCell::new(Vec::new());
    let gadget = |call: &[u8]| -> Result<GadgetResponse, String> {
        seen.borrow_mut().push(call.to_vec());
        Err("stop here".to_string())
    };
    assert_eq!(
        call_gadget(&mut host, &mut registry, &inputs, &gadget),
        Err(Error::GadgetFailure)
    );
    let seen = seen.into_inner();
    assert_eq!(seen.len(), 1);
    let mut reader = zkinterface::Reader::new();
    reader.push_message(seen[0].clone()).unwrap();
    let header = zkinterface::CircuitHeader::from(reader.first_header().unwrap());
    assert_eq!(header.instance_variables.variable_ids, vec![2, 3]);
    let mut values = wide(2);
    values.extend(wide(5));
    assert_eq!(header.instance_variables.values, Some(values));
    assert_eq!(header.free_variable_id, 4);
    assert_eq!(header.field_maximum, None);
    assert_eq!(header.configuration, None);
}

#[test]
fn the_call_message_has_no_values_in_setup_mode() {
    let (mut host, mut registry) = start();
    let inputs = two_inputs(&mut host, None, None);
    let seen = RefCell::new(Vec::new());
    let gadget = |call: &[u8]| -> Result<GadgetResponse, String> {
        seen.borrow_mut().push(call.to_vec());
        Ok(product_gadget(1, None))
    };
    let outputs = call_gadget(&mut host, &mut registry, &inputs, &gadget).unwrap();
    assert_eq!(outputs.len(), 1);
    assert_eq!(outputs[0].get_value(), None);
    assert_eq!(host.value(outputs[0].get_variable()), None);
    assert_eq!(host.num_constraints(), 1);
    assert_eq!(registry.free_variable_id(), 4);
    let mut reader = zkinterface::Reader::new();
    reader.push_message(seen.into_inner().remove(0)).unwrap();
    let header = zkinterface::CircuitHeader::from(reader.first_header().unwrap());
    assert_eq!(header.instance_variables.variable_ids, vec![1, 2]);
    assert_eq!(header.instance_variables.values, None);
    assert_eq!(header.free_variable_id, 3);
}

#[test]
fn prepare_call_numbers_the_inputs_from_the_free_id() {
    let (mut host, mut registry) = start();
    registry.bind(4, VariableHandle::Aux(9)).unwrap();
    let inputs = two_inputs(&mut host, Some(2), Some(5));
    let call = prepare_call(&registry, &inputs).unwrap();
    assert_eq!(call.instance_variables.variable_ids, vec![5, 6]);
    assert_eq!(call.free_variable_id, 7);
    assert_eq!(call.instance_variables.values.unwrap().len(), 64);
    assert_eq!(call.field_maximum, None);
    assert_eq!(call.configuration, None);
    assert_eq!(registry.free_variable_id(), 5);
    let call = prepare_call(&registry, &[]).unwrap();
    assert_eq!(call.instance_variables.variable_ids, Vec::<u64>::new());
    assert_eq!(call.instance_variables.values, None);
    assert_eq!(call.free_variable_id, 5);
}

#[test]
fn an_input_without_a_value_stops_a_proving_call() {
    let (mut host, mut registry) = start();
    let inputs = two_inputs(&mut host, Some(2), None);
    let (host_before, registry_before) = (snapshot(&host), registry.clone());
    let gadget = |_call: &[u8]| -> Result<GadgetResponse, String> {
        panic!("the gadget must not be asked")
    };
    assert_eq!(
        call_gadget(&mut host, &mut registry, &inputs, &gadget),
        Err(Error::IncompleteWitness)
    );
    assert_eq!(prepare_call(&registry, &inputs), Err(Error::IncompleteWitness));
    assert_eq!(snapshot(&host), host_before);
    assert_eq!(registry, registry_before);
}

#[test]
fn a_failing_gadget_changes_nothing() {
    let (mut host, mut registry) = start();
    let inputs = two_inputs(&mut host, Some(2), Some(5));
    let (host_before, registry_before) = (snapshot(&host), registry.clone());
    let gadget = |_call: &[u8]| -> Result<GadgetResponse, u32> { Err(17) };
    assert_eq!(
        call_gadget(&mut host, &mut registry, &inputs, &gadget),
        Err(Error::GadgetFailure)
    );
    assert_eq!(registry.free_variable_id(), 1);
    assert_eq!(host.num_constraints(), 0);
    assert_eq!(snapshot(&host), host_before);
    assert_eq!(registry, registry_before);
    assert_eq!(
        finish_call(&mut host, &mut registry, &inputs, Err::<GadgetResponse, ()>(())),
        Err(Error::GadgetFailure)
    );
    assert_eq!(registry, registry_before);
}

#[test]
fn an_answer_for_other_inputs_is_an_id_mismatch() {
    let (mut host, mut registry) = start();
    let inputs = two_inputs(&mut host, Some(2), Some(5));
    let (host_before, registry_before) = (snapshot(&host), registry.clone());
    for echoed in [vec![2, 1], vec![1], vec![1, 2, 3], vec![], vec![1, 3]] {
        let mut response = product_gadget(1, Some(vec![10]));
        response.input_ids = echoed;
        let gadget = |_call: &[u8]| -> Result<GadgetResponse, String> { Ok(response.clone()) };
        assert_eq!(
            call_gadget(&mut host, &mut registry, &inputs, &gadget),
            Err(Error::IdMismatch)
        );
        assert_eq!(registry.free_variable_id(), 1);
        assert_eq!(host.num_constraints(), 0);
        assert_eq!(snapshot(&host), host_before);
        assert_eq!(registry, registry_before);
    }
}

#[test]
fn a_declared_id_must_be_free() {
    let (mut host, mut registry) = start();
    registry.bind(7, VariableHandle::Aux(40)).unwrap();
    let inputs = two_inputs(&mut host, Some(2), Some(5));
    let (host_before, registry_before) = (snapshot(&host), registry.clone());
    // 0 is reserved, 7 is bound, 8 and 9 are the inputs, the last id cannot be passed,
    // and 20 is declared twice.
    for (output, private) in [(0, 30), (7, 30), (8, 30), (30, 9), (u64::MAX, 30), (20, 20)] {
        let response = GadgetResponse {
            input_ids: vec![8, 9],
            outputs: vec![Variable { id: output, value: Some(vec![1]) }],
            privates: vec![Variable { id: private, value: Some(vec![1]) }],
            constraints: vec![],
        };
        assert_eq!(
            merge_response(&mut host, &mut registry, &inputs, &response),
            Err(Error::IdMismatch)
        );
        assert_eq!(snapshot(&host), host_before);
        assert_eq!(registry, registry_before);
    }
}

#[test]
fn declared_ids_may_leave_gaps() {
    let (mut host, mut registry) = start();
    let inputs = two_inputs(&mut host, Some(2), Some(5));
    let response = GadgetResponse {
        input_ids: vec![1, 2],
        outputs: vec![Variable { id: 10, value: Some(vec![10]) }],
        privates: vec![
            Variable { id: 4, value: Some(vec![]) },
            Variable { id: 12, value: Some(vec![3]) },
        ],
        constraints: vec![Constraint {
            a: vec![term(0, 1), term(4, 2)],
            b: vec![term(12, 1)],
            c: vec![term(10, 1)],
        }],
    };
    let outputs = merge_response(&mut host, &mut registry, &inputs, &response).unwrap();
    assert_eq!(outputs.len(), 1);
    assert_eq!(outputs[0].get_variable(), VariableHandle::Aux(2));
    assert_eq!(registry.free_variable_id(), 13);
    assert_eq!(registry.resolve(10), Ok(VariableHandle::Aux(2)));
    assert_eq!(registry.resolve(4), Ok(VariableHandle::Aux(3)));
    assert_eq!(registry.resolve(12), Ok(VariableHandle::Aux(4)));
    assert_eq!(registry.resolve(3), Err(Error::UnknownVariable));
    assert_eq!(host.value(VariableHandle::Aux(3)), Some(FieldElement::zero()));
    assert_eq!(host.value(VariableHandle::Aux(4)), Some(fe(3)));
    let row = host.constraint(0);
    assert_eq!(
        terms_of(&row.a),
        vec![(VariableHandle::Input(0), fe(1)), (VariableHandle::Aux(3), fe(2))]
    );
    assert_eq!(registry.reverse(VariableHandle::Aux(4)), Ok(12));
}

#[test]
fn a_missing_or_bad_value_stops_a_proving_merge() {
    let (mut host, mut registry) = start();
    let inputs = two_inputs(&mut host, Some(2), Some(5));
    let (host_before, registry_before) = (snapshot(&host), registry.clone());
    let gadget = |_call: &[u8]| -> Result<GadgetResponse, String> { Ok(product_gadget(1, None)) };
    assert_eq!(
        call_gadget(&mut host, &mut registry, &inputs, &gadget),
        Err(Error::IncompleteWitness)
    );
    assert_eq!(snapshot(&host), host_before);
    assert_eq!(registry, registry_before);
    for bad in [vec![0xff; 32], vec![0; 33]] {
        let mut response = product_gadget(1, Some(vec![10]));
        response.privates = vec![Variable { id: 4, value: Some(bad) }];
        assert_eq!(
            merge_response(&mut host, &mut registry, &inputs, &response),
            Err(Error::EncodingError)
        );
        assert_eq!(snapshot(&host), host_before);
        assert_eq!(registry, registry_before);
    }
}

#[test]
fn values_are_ignored_in_setup_mode() {
    let (mut host, mut registry) = start();
    let inputs = two_inputs(&mut host, None, Some(5));
    let response = product_gadget(1, Some(vec![0xff; 40]));
    let outputs = merge_response(&mut host, &mut registry, &inputs, &response).unwrap();
    assert_eq!(outputs[0].get_value(), None);
    assert_eq!(registry.free_variable_id(), 4);
}

#[test]
fn a_constraint_on_an_undeclared_variable_rolls_the_call_back() {
    let (mut host, mut registry) = start();
    registry.register(VariableHandle::Aux(50));
    let inputs = two_inputs(&mut host, Some(2), Some(5));
    let (host_before, registry_before) = (snapshot(&host), registry.clone());
    let mut response = product_gadget(2, Some(vec![10]));
    response.constraints.push(Constraint {
        a: vec![term(2, 1)],
        b: vec![term(3, 1)],
        c: vec![term(9, 1)],
    });
    let gadget = |_call: &[u8]| -> Result<GadgetResponse, String> { Ok(response.clone()) };
    assert_eq!(
        call_gadget(&mut host, &mut registry, &inputs, &gadget),
        Err(Error::UnknownVariable)
    );
    assert_eq!(registry.free_variable_id(), 2);
    assert_eq!(host.num_constraints(), 0);
    assert_eq!(host.num_aux(), 2);
    assert_eq!(snapshot(&host), host_before);
    assert_eq!(registry, registry_before);
    assert_eq!(registry.resolve(2), Err(Error::UnknownVariable));
}

#[test]
fn a_gadget_sees_only_the_variables_of_its_call() {
    let (mut host, mut registry) = start();
    let earlier = registry.allocate(Role::Private, &mut host, Some(fe(1)));
    assert_eq!(earlier, 1);
    let inputs = two_inputs(&mut host, Some(2), Some(5));
    let (host_before, registry_before) = (snapshot(&host), registry.clone());
    let mut response = product_gadget(2, Some(vec![10]));
    response.constraints[0].a = vec![term(earlier, 1)];
    assert_eq!(
        merge_response(&mut host, &mut registry, &inputs, &response),
        Err(Error::UnknownVariable)
    );
    assert_eq!(snapshot(&host), host_before);
    assert_eq!(registry, registry_before);
}

#[test]
fn two_calls_share_one_namespace() {
    let (mut host, mut registry) = start();
    let inputs = two_inputs(&mut host, Some(2), Some(5));
    let first = |_call: &[u8]| -> Result<GadgetResponse, String> {
        Ok(product_gadget(1, Some(vec![10])))
    };
    let out = call_gadget(&mut host, &mut registry, &inputs, &first).unwrap();
    let next = vec![out[0], inputs[0]];
    let second = |_call: &[u8]| -> Result<GadgetResponse, String> {
        Ok(product_gadget(4, Some(vec![20])))
    };
    let out = call_gadget(&mut host, &mut registry, &next, &second).unwrap();
    assert_eq!(registry.free_variable_id(), 7);
    assert_eq!(registry.resolve(4), Ok(VariableHandle::Aux(2)));
    assert_eq!(registry.resolve(5), Ok(VariableHandle::Aux(0)));
    assert_eq!(registry.resolve(6), Ok(out[0].get_variable()));
    assert_eq!(registry.resolve(1), Ok(VariableHandle::Aux(0)));
    assert_eq!(registry.reverse(VariableHandle::Aux(0)), Ok(5));
    assert_eq!(host.num_constraints(), 2);
    assert_eq!(terms_of(&host.constraint(1).a), vec![(VariableHandle::Aux(2), fe(1))]);
}

#[test]
fn a_call_without_inputs_is_in_setup_mode() {
    let (mut host, mut registry) = start();
    let response = GadgetResponse {
        input_ids: vec![],
        outputs: vec![Variable { id: 1, value: None }],
        privates: vec![],
        constraints: vec![Constraint { a: vec![term(1, 1)], b: vec![term(0, 1)], c: vec![] }],
    };
    let gadget = |_call: &[u8]| -> Result<GadgetResponse, String> { Ok(response.clone()) };
    let outputs = call_gadget(&mut host, &mut registry, &[], &gadget).unwrap();
    assert_eq!(outputs.len(), 1);
    assert_eq!(registry.free_variable_id(), 2);
    assert_eq!(host.constraint(0).c.len(), 0);
}
