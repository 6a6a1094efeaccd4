//! The variable registry: which host handle stands behind each wire-level
//! variable id, and which id is handed out next.

use std::collections::HashMap;
use vstd::prelude::*;
use crate::error::Error;
use crate::field::FieldElement;
use crate::host::{value_view, HostCircuit, HostCircuitView, Role, VariableHandle};

verus! {

broadcast use vstd::std_specs::hash::group_hash_axioms;

/// The view of a registry.
pub struct RegistryView {
    /// The handle bound to each registered id.
    pub forward: Map<u64, VariableHandle>,
    /// For each registered handle, the id that it was bound to last.
    pub reverse: Map<VariableHandle, u64>,
    /// The next unused id.
    pub free_variable_id: u64,
}

impl RegistryView {
    /// The registry at the start of a pass: nothing bound, id 1 is next.
    pub open spec fn fresh() -> RegistryView {
        RegistryView { forward: Map::empty(), reverse: Map::empty(), free_variable_id: 1 }
    }

    /// The invariant of a registry: ids below the counter only, and the two
    /// maps agree with each other.
    pub open spec fn wf(self) -> bool {
        &&& self.free_variable_id >= 1
        &&& forall|id: u64| #[trigger]
            self.forward.contains_key(id) ==> id < self.free_variable_id
        &&& forall|id: u64| #[trigger]
            self.forward.contains_key(id) ==> self.reverse.contains_key(self.forward[id])
        &&& forall|h: VariableHandle| #[trigger]
            self.reverse.contains_key(h) ==> self.forward.contains_key(self.reverse[h])
                && self.forward[self.reverse[h]] == h
    }

    /// Whether `id` may be bound now: it is not the reserved id 0, it is not
    /// bound yet, and the counter can move past it.
    pub open spec fn can_bind(self, id: u64) -> bool {
        id != 0 && id < u64::MAX && !self.forward.contains_key(id)
    }

    /// This registry with `id` bound to `handle`, and the counter past `id`.
    pub open spec fn bind(self, id: u64, handle: VariableHandle) -> RegistryView {
        RegistryView {
            forward: self.forward.insert(id, handle),
            reverse: self.reverse.insert(handle, id),
            free_variable_id: if id >= self.free_variable_id {
                (id + 1) as u64
            } else {
                self.free_variable_id
            },
        }
    }

    /// This registry with the reserved id 0 bound to the constant one. The
    /// counter does not move.
    pub open spec fn bind_constant(self, one: VariableHandle) -> RegistryView {
        RegistryView {
            forward: self.forward.insert(0, one),
            reverse: self.reverse.insert(one, 0),
            free_variable_id: self.free_variable_id,
        }
    }

    /// The handle behind `id`.
    pub open spec fn resolve(self, id: u64) -> Result<VariableHandle, Error> {
        if self.forward.contains_key(id) {
            Ok(self.forward[id])
        } else {
            Err(Error::UnknownVariable)
        }
    }

    /// The id of `handle`.
    pub open spec fn reverse_lookup(self, handle: VariableHandle) -> Result<u64, Error> {
        if self.reverse.contains_key(handle) {
            Ok(self.reverse[handle])
        } else {
            Err(Error::UnknownVariable)
        }
    }
}

/// Binding an unbound id keeps the invariant.
pub proof fn lemma_bind_keeps_wf(registry: RegistryView, id: u64, handle: VariableHandle)
    requires
        registry.wf(),
        !registry.forward.contains_key(id),
        id < u64::MAX,
    ensures
        registry.bind(id, handle).wf(),
{
    let after = registry.bind(id, handle);
    assert forall|k: u64| #[trigger] after.forward.contains_key(k) implies k
        < after.free_variable_id && after.reverse.contains_key(after.forward[k]) by {
        if k != id {
            assert(registry.forward.contains_key(k));
        }
    }
    assert forall|h: VariableHandle| #[trigger] after.reverse.contains_key(h) implies
        after.forward.contains_key(after.reverse[h]) && after.forward[after.reverse[h]] == h by {
        if h != handle {
            assert(registry.reverse.contains_key(h));
            assert(registry.forward.contains_key(registry.reverse[h]));
        }
    }
}

/// Binding the constant one, where id 0 is unbound, keeps the invariant.
pub proof fn lemma_bind_constant_keeps_wf(registry: RegistryView, one: VariableHandle)
    requires
        registry.wf(),
        !registry.forward.contains_key(0),
    ensures
        registry.bind_constant(one).wf(),
{
    let after = registry.bind_constant(one);
    assert forall|k: u64| #[trigger] after.forward.contains_key(k) implies k
        < after.free_variable_id && after.reverse.contains_key(after.forward[k]) by {
        if k != 0 {
            assert(registry.forward.contains_key(k));
        }
    }
    assert forall|h: VariableHandle| #[trigger] after.reverse.contains_key(h) implies
        after.forward.contains_key(after.reverse[h]) && after.forward[after.reverse[h]] == h by {
        if h != one {
            assert(registry.reverse.contains_key(h));
            assert(registry.forward.contains_key(registry.reverse[h]));
        }
    }
}

/// Maps wire-level variable ids to host handles and back, and owns the
/// counter of the next free id. Id 0 is reserved for the constant one.
#[derive(Clone, Debug, PartialEq, Eq)]
pub struct Registry {
    forward: HashMap<u64, VariableHandle>,
    reverse_inputs: HashMap<usize, u64>,
    reverse_aux: HashMap<usize, u64>,
    free_variable_id: u64,
}

impl View for Registry {
    type V = RegistryView;

    closed spec fn view(&self) -> RegistryView {
        RegistryView {
            forward: self.forward@,
            reverse: Map::new(
                |h: VariableHandle|
                    match h {
                        VariableHandle::Input(i) => self.reverse_inputs@.contains_key(i),
                        VariableHandle::Aux(i) => self.reverse_aux@.contains_key(i),
                    },
                |h: VariableHandle|
                    match h {
                        VariableHandle::Input(i) => self.reverse_inputs@[i],
                        VariableHandle::Aux(i) => self.reverse_aux@[i],
                    },
            ),
            free_variable_id: self.free_variable_id,
        }
    }
}

impl Registry {
    /// A registry for a new pass.
    pub fn new() -> (registry: Registry)
        ensures
            registry@ == RegistryView::fresh(),
            registry@.wf(),
    {
        let registry = Registry {
            forward: HashMap::new(),
            reverse_inputs: HashMap::new(),
            reverse_aux: HashMap::new(),
            free_variable_id: 1,
        };
        assert(registry@.reverse =~= Map::empty());
        registry
    }

    /// The next unused id.
    pub fn free_variable_id(&self) -> (id: u64)
        ensures
            id == self@.free_variable_id,
    {
        self.free_variable_id
    }

    /// Whether `id` is bound.
    pub fn contains(&self, id: u64) -> (bound: bool)
        ensures
            bound == self@.forward.contains_key(id),
    {
        self.forward.contains_key(&id)
    }

    /// The map from ids to handles, for translating constraints.
    pub fn variables(&self) -> (vars: &HashMap<u64, VariableHandle>)
        ensures
            vars@ == self@.forward,
    {
        &self.forward
    }

    fn set_reverse(&mut self, handle: VariableHandle, id: u64)
        ensures
            final(self)@.forward == old(self)@.forward,
            final(self)@.free_variable_id == old(self)@.free_variable_id,
            final(self)@.reverse == old(self)@.reverse.insert(handle, id),
    {
        match handle {
            VariableHandle::Input(i) => {
                self.reverse_inputs.insert(i, id);
            },
            VariableHandle::Aux(i) => {
                self.reverse_aux.insert(i, id);
            },
        }
        assert(self@.reverse =~= old(self)@.reverse.insert(handle, id));
    }

    /// Binds the reserved id 0 to the host's constant one. Called once, when
    /// the pass starts.
    pub fn bind_constant(&mut self, one: VariableHandle)
        requires
            old(self)@.wf(),
            !old(self)@.forward.contains_key(0),
        ensures
            final(self)@ == old(self)@.bind_constant(one),
            final(self)@.wf(),
    {
        self.forward.insert(0, one);
        self.set_reverse(one, 0);
        proof {
            lemma_bind_constant_keeps_wf(old(self)@, one);
        }
    }

    /// Binds `id`, which the other side chose, to `handle`. An id that is
    /// reserved or already bound is an `IdMismatch`, and nothing changes.
    pub fn bind(&mut self, id: u64, handle: VariableHandle) -> (r: Result<(), Error>)
        requires
            old(self)@.wf(),
        ensures
            final(self)@.wf(),
            old(self)@.can_bind(id) ==> r is Ok && final(self)@ == old(self)@.bind(id, handle),
            !old(self)@.can_bind(id) ==> r == Err::<(), Error>(Error::IdMismatch) && final(self)@
                == old(self)@,
    {
        if id == 0 || id == u64::MAX || self.forward.contains_key(&id) {
            return Err(Error::IdMismatch);
        }
        self.bind_fresh(id, handle);
        Ok(())
    }

    /// Binds an id that is known to be free.
    pub(crate) fn bind_fresh(&mut self, id: u64, handle: VariableHandle)
        requires
            old(self)@.wf(),
            old(self)@.can_bind(id),
        ensures
            final(self)@ == old(self)@.bind(id, handle),
            final(self)@.wf(),
    {
        self.forward.insert(id, handle);
        self.set_reverse(handle, id);
        if id >= self.free_variable_id {
            self.free_variable_id = id + 1;
        }
        proof {
            lemma_bind_keeps_wf(old(self)@, id, handle);
        }
    }

    /// Binds the next free id to `handle` and returns it.
    pub fn register(&mut self, handle: VariableHandle) -> (id: u64)
        requires
            old(self)@.wf(),
            old(self)@.free_variable_id < u64::MAX,
        ensures
            id == old(self)@.free_variable_id,
            old(self)@.can_bind(id),
            final(self)@ == old(self)@.bind(id, handle),
            final(self)@.wf(),
    {
        let id = self.free_variable_id;
        self.forward.insert(id, handle);
        self.set_reverse(handle, id);
        self.free_variable_id = id + 1;
        proof {
            lemma_bind_keeps_wf(old(self)@, id, handle);
        }
        id
    }

    /// Declares a fresh variable in the host circuit and gives it the next
    /// free id. A public variable becomes an input of the proof; a private
    /// one never does.
    pub fn allocate(&mut self, role: Role, host: &mut HostCircuit, value: Option<FieldElement>) -> (id:
        u64)
        requires
            old(self)@.wf(),
            old(self)@.free_variable_id < u64::MAX,
        ensures
            id == old(self)@.free_variable_id,
            final(host)@ == old(host)@.allocate(role, value_view(value)),
            final(self)@ == old(self)@.bind(id, old(host)@.next_handle(role)),
            final(self)@.wf(),
    {
        let handle = host.allocate(role, value);
        self.register(handle)
    }

    /// The handle behind `id`; `UnknownVariable` if `id` was never bound.
    pub fn resolve(&self, id: u64) -> (r: Result<VariableHandle, Error>)
        ensures
            r == self@.resolve(id),
    {
        match self.forward.get(&id) {
            Some(handle) => Ok(*handle),
            None => Err(Error::UnknownVariable),
        }
    }

    /// The id of `handle`; `UnknownVariable` if it was never registered.
    pub fn reverse(&self, handle: VariableHandle) -> (r: Result<u64, Error>)
        ensures
            r == self@.reverse_lookup(handle),
    {
        let found = match handle {
            VariableHandle::Input(i) => self.reverse_inputs.get(&i),
            VariableHandle::Aux(i) => self.reverse_aux.get(&i),
        };
        match found {
            Some(id) => Ok(*id),
            None => Err(Error::UnknownVariable),
        }
    }
}

/// A registry and its host circuit after the given variables were
/// allocated one after the other, each with its role and value.
pub open spec fn allocate_all(
    registry: RegistryView,
    host: HostCircuitView,
    requests: Seq<(Role, Option<nat>)>,
) -> (RegistryView, HostCircuitView)
    decreases requests.len(),
{
    if requests.len() == 0 {
        (registry, host)
    } else {
        let (r, h) = allocate_all(registry, host, requests.drop_last());
        let (role, value) = requests.last();
        (r.bind(r.free_variable_id, h.next_handle(role)), h.allocate(role, value))
    }
}

/// The registry at the start of a pass, with the constant one bound.
pub open spec fn started() -> RegistryView {
    RegistryView::fresh().bind_constant(VariableHandle::Input(0))
}

/// What holds after `count` allocations from the start of a pass.
spec fn allocated(
    before: HostCircuitView,
    count: nat,
    registry: RegistryView,
    host: HostCircuitView,
) -> bool {
    &&& registry.wf()
    &&& registry.free_variable_id == count + 1
    &&& host.inputs.len() + host.aux.len() == before.inputs.len() + before.aux.len() + count
    &&& host.inputs.len() >= before.inputs.len()
    &&& host.aux.len() >= before.aux.len()
    &&& registry.forward.contains_key(0) && registry.forward[0] == VariableHandle::Input(0)
    &&& forall|id: u64| #[trigger]
        registry.forward.contains_key(id) <==> id <= count
    &&& forall|id: u64|
        1 <= id <= count ==> host.has_variable(#[trigger] registry.forward[id])
            && registry.reverse_lookup(registry.forward[id]) == Ok::<u64, Error>(id)
    &&& forall|i: u64, j: u64|
        0 <= i < j <= count ==> #[trigger] registry.forward[i] != #[trigger] registry.forward[j]
}

proof fn lemma_allocated(before: HostCircuitView, requests: Seq<(Role, Option<nat>)>)
    requires
        before.inputs.len() >= 1,
        before.inputs.len() + requests.len() <= usize::MAX,
        before.aux.len() + requests.len() <= usize::MAX,
        requests.len() < u64::MAX,
    ensures
        allocated(
            before,
            requests.len(),
            allocate_all(started(), before, requests).0,
            allocate_all(started(), before, requests).1,
        ),
    decreases requests.len(),
{
    if requests.len() == 0 {
        lemma_bind_constant_keeps_wf(RegistryView::fresh(), VariableHandle::Input(0));
    } else {
        let rest = requests.drop_last();
        lemma_allocated(before, rest);
        let (r, h) = allocate_all(started(), before, rest);
        let (role, value) = requests.last();
        let id = r.free_variable_id;
        let handle = h.next_handle(role);
        let r2 = r.bind(id, handle);
        let h2 = h.allocate(role, value);
        let count = requests.len();
        assert(!r.forward.contains_key(id));
        lemma_bind_keeps_wf(r, id, handle);
        assert(!h.has_variable(handle));
        assert(h2.has_variable(handle));
        assert forall|k: u64| 1 <= k <= count implies h2.has_variable(#[trigger] r2.forward[k])
            && r2.reverse_lookup(r2.forward[k]) == Ok::<u64, Error>(k) by {
            if k != id {
                assert(r.forward.contains_key(k));
                assert(h.has_variable(r.forward[k]));
            }
        }
        assert forall|i: u64, j: u64| 0 <= i < j <= count implies #[trigger] r2.forward[i]
            != #[trigger] r2.forward[j] by {
            if j == id {
                assert(r.forward.contains_key(i));
                if i >= 1 {
                    assert(h.has_variable(r.forward[i]));
                }
            }
        }
    }
}

/// Allocations hand out distinct handles. In a pass that starts with the
/// constant one bound, id 0 resolves to the constant one, before any
/// allocation and after. After `k` allocations the ids `1..=k` are bound,
/// each to a handle of its own that is not the constant one and that leads
/// back to its id, and `k + 1` is the next free id.
pub proof fn law_allocations_are_distinct(host: HostCircuitView, requests: Seq<(Role, Option<nat>)>)
    requires
        host.wf(),
        host.inputs.len() + requests.len() <= usize::MAX,
        host.aux.len() + requests.len() <= usize::MAX,
        requests.len() < u64::MAX,
    ensures
        started().resolve(0) == Ok::<VariableHandle, Error>(VariableHandle::Input(0)),
        ({
            let registry = allocate_all(started(), host, requests).0;
            &&& registry.wf()
            &&& registry.free_variable_id == requests.len() + 1
            &&& registry.resolve(0) == Ok::<VariableHandle, Error>(VariableHandle::Input(0))
            &&& forall|id: u64| 1 <= id <= requests.len() ==> #[trigger] registry.resolve(id) is Ok
            &&& forall|id: u64|
                1 <= id <= requests.len() ==> registry.reverse_lookup(
                    #[trigger] registry.forward[id],
                ) == Ok::<u64, Error>(id)
            &&& forall|i: u64, j: u64|
                0 <= i < j <= requests.len() ==> #[trigger] registry.resolve(i)
                    != #[trigger] registry.resolve(j)
        }),
{
    lemma_allocated(host, requests);
    let registry = allocate_all(started(), host, requests).0;
    assert forall|i: u64, j: u64| 0 <= i < j <= requests.len() implies #[trigger] registry.resolve(
        i,
    ) != #[trigger] registry.resolve(j) by {
        assert(registry.forward.contains_key(i));
        assert(registry.forward.contains_key(j));
        assert(registry.forward[i] != registry.forward[j]);
    }
}

} // verus!
