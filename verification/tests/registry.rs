use zkinterface_bellman::error::Error;
use zkinterface_bellman::field::FieldElement;
use zkinterface_bellman::host::{HostCircuit, Role, VariableHandle};
use zkinterface_bellman::registry::Registry;

#[test]
fn a_new_registry_starts_at_id_one() {
    let registry = Registry::new();
    assert_eq!(registry.free_variable_id(), 1);
    assert!(!registry.contains(0));
    assert_eq!(registry.resolve(0), Err(Error::UnknownVariable));
    assert_eq!(registry.reverse(VariableHandle::Input(0)), Err(Error::UnknownVariable));
}

#[test]
fn the_constant_resolves_before_any_allocation() {
    let mut registry = Registry::new();
    registry.bind_constant(HostCircuit::one());
    assert_eq!(registry.free_variable_id(), 1);
    assert_eq!(registry.resolve(0), Ok(VariableHandle::Input(0)));
    assert_eq!(registry.reverse(VariableHandle::Input(0)), Ok(0));
}

#[test]
fn allocated_ids_resolve_to_distinct_handles() {
    let mut host = HostCircuit::new();
    let mut registry = Registry::new();
    registry.bind_constant(HostCircuit::one());
    let k = 10u64;
    let mut handles = Vec::new();
    for i in 1..=k {
        let role = if i % 3 == 0 { Role::Public } else { Role::Private };
        let id = registry.allocate(role, &mut host, None);
        assert_eq!(id, i);
        handles.push(registry.resolve(id).unwrap());
    }
    assert_eq!(registry.free_variable_id(), k + 1);
    for i in 0..handles.len() {
        assert_ne!(handles[i], VariableHandle::Input(0));
        assert_eq!(registry.reverse(handles[i]), Ok(i as u64 + 1));
        for j in 0..i {
            assert_ne!(handles[i], handles[j]);
        }
    }
    assert_eq!(registry.resolve(0), Ok(VariableHandle::Input(0)));
    assert_eq!(host.num_inputs(), 1 + 3);
    assert_eq!(host.num_aux(), 7);
}

#[test]
fn allocation_follows_the_role() {
    let mut host = HostCircuit::new();
    let mut registry = Registry::new();
    let three = zkinterface_bellman::import::decode_scalar(&[3]).unwrap();
    let x = registry.allocate(Role::Public, &mut host, Some(three));
    let y = registry.allocate(Role::Private, &mut host, None);
    assert_eq!((x, y), (1, 2));
    assert_eq!(registry.resolve(x), Ok(VariableHandle::Input(1)));
    assert_eq!(registry.resolve(y), Ok(VariableHandle::Aux(0)));
    assert_eq!(host.value(VariableHandle::Input(1)), Some(three));
    assert_eq!(host.value(VariableHandle::Aux(0)), None);
    assert_eq!(host.value(VariableHandle::Input(0)), Some(FieldElement::one()));
}

#[test]
fn an_unknown_id_does_not_resolve() {
    let mut host = HostCircuit::new();
    let mut registry = Registry::new();
    registry.allocate(Role::Private, &mut host, None);
    assert_eq!(registry.resolve(2), Err(Error::UnknownVariable));
    assert_eq!(registry.resolve(u64::MAX), Err(Error::UnknownVariable));
    assert_eq!(registry.reverse(VariableHandle::Aux(1)), Err(Error::UnknownVariable));
    assert_eq!(registry.reverse(VariableHandle::Input(0)), Err(Error::UnknownVariable));
}

#[test]
fn bind_takes_a_free_id_and_moves_the_counter_past_it() {
    let mut registry = Registry::new();
    assert_eq!(registry.bind(5, VariableHandle::Aux(0)), Ok(()));
    assert_eq!(registry.free_variable_id(), 6);
    assert_eq!(registry.bind(2, VariableHandle::Aux(1)), Ok(()));
    assert_eq!(registry.free_variable_id(), 6);
    assert_eq!(registry.resolve(5), Ok(VariableHandle::Aux(0)));
    assert_eq!(registry.resolve(2), Ok(VariableHandle::Aux(1)));
    assert_eq!(registry.register(VariableHandle::Aux(2)), 6);
    assert_eq!(registry.free_variable_id(), 7);
}

#[test]
fn bind_refuses_reserved_and_bound_ids() {
    let mut registry = Registry::new();
    registry.bind(5, VariableHandle::Aux(0)).unwrap();
    let before = registry.clone();
    assert_eq!(registry.bind(0, VariableHandle::Aux(1)), Err(Error::IdMismatch));
    assert_eq!(registry.bind(5, VariableHandle::Aux(1)), Err(Error::IdMismatch));
    assert_eq!(registry.bind(u64::MAX, VariableHandle::Aux(1)), Err(Error::IdMismatch));
    assert_eq!(registry, before);
}

#[test]
fn a_handle_leads_back_to_its_latest_id() {
    let mut registry = Registry::new();
    registry.bind(1, VariableHandle::Aux(0)).unwrap();
    registry.bind(2, VariableHandle::Aux(0)).unwrap();
    assert_eq!(registry.reverse(VariableHandle::Aux(0)), Ok(2));
    assert_eq!(registry.resolve(1), Ok(VariableHandle::Aux(0)));
    assert_eq!(registry.resolve(2), Ok(VariableHandle::Aux(0)));
    assert_eq!(registry.variables().len(), 2);
}

#[test]
fn every_error_has_a_message() {
    for e in [
        Error::EncodingError,
        Error::UnknownVariable,
        Error::IdMismatch,
        Error::GadgetFailure,
        Error::IncompleteWitness,
    ] {
        assert!(!e.message().is_empty());
    }
    assert_ne!(Error::IdMismatch.message(), Error::GadgetFailure.message());
}
