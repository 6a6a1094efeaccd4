//! Producing a statement: a constraint system that hands out variable ids,
//! collects the witness, and cuts the constraints into messages of bounded
//! size.

use vstd::prelude::*;
use crate::error::Error;
use crate::export::{encode_scalar, holds_constraint, spec_to_zkif_constraint, to_zkif_constraint};
use crate::field::{modulus, spec_encode, FieldElement};
use crate::host::{value_view, Combination, Role, VariableHandle};
use crate::registry::{Registry, RegistryView};
use crate::wire::{bytes_view, BilinearConstraint, CircuitHeader, ConstraintSystem, KeyValue,
    Message, Variables, Witness};

verus! {

/// The number of constraints per message, unless another is set.
pub const DEFAULT_CONSTRAINTS_PER_MESSAGE: usize = 100000;

/// What one more item does to a buffer that is flushed at `threshold`
/// items: the buffer afterwards, and the batch that was flushed, if any.
pub open spec fn chunk_step<T>(buffer: Seq<T>, item: T, threshold: nat) -> (Seq<T>, Option<Seq<T>>) {
    let grown = buffer.push(item);
    if grown.len() >= threshold {
        (Seq::empty(), Some(grown))
    } else {
        (grown, None)
    }
}

/// The batches that are flushed while `items` are pushed one by one into
/// an empty buffer, and the buffer that is left.
pub open spec fn chunked<T>(items: Seq<T>, threshold: nat) -> (Seq<Seq<T>>, Seq<T>)
    decreases items.len(),
{
    if items.len() == 0 {
        (Seq::empty(), Seq::empty())
    } else {
        let (batches, buffer) = chunked(items.drop_last(), threshold);
        let (left, flushed) = chunk_step(buffer, items.last(), threshold);
        match flushed {
            Some(batch) => (batches.push(batch), left),
            None => (batches, left),
        }
    }
}

/// All batches of `items`: those flushed while pushing, and at the end
/// what was left in the buffer, unless that is empty.
pub open spec fn all_batches<T>(items: Seq<T>, threshold: nat) -> Seq<Seq<T>> {
    let (batches, buffer) = chunked(items, threshold);
    if buffer.len() > 0 {
        batches.push(buffer)
    } else {
        batches
    }
}

/// The batches one after the other, as one sequence.
pub open spec fn concat<T>(batches: Seq<Seq<T>>) -> Seq<T>
    decreases batches.len(),
{
    if batches.len() == 0 {
        Seq::empty()
    } else {
        concat(batches.drop_last()) + batches.last()
    }
}

/// While items are pushed, the flushed batches followed by the buffer are
/// the items pushed so far. With a threshold above zero every flushed batch
/// has exactly that size, and the buffer stays below it.
pub proof fn lemma_chunked<T>(items: Seq<T>, threshold: nat)
    ensures
        concat(chunked(items, threshold).0) + chunked(items, threshold).1 == items,
        threshold > 0 ==> chunked(items, threshold).1.len() < threshold,
        threshold > 0 ==> forall|k: int|
            0 <= k < chunked(items, threshold).0.len() ==> (#[trigger] chunked(
                items,
                threshold,
            ).0[k]).len() == threshold,
    decreases items.len(),
{
    if items.len() == 0 {
        assert(concat(chunked(items, threshold).0) + chunked(items, threshold).1 =~= items);
    } else {
        let rest = items.drop_last();
        lemma_chunked(rest, threshold);
        let (batches, buffer) = chunked(rest, threshold);
        let (left, flushed) = chunk_step(buffer, items.last(), threshold);
        assert(rest.push(items.last()) =~= items);
        match flushed {
            Some(batch) => {
                let after = batches.push(batch);
                assert(after.drop_last() =~= batches);
                assert(concat(after) + left =~= items);
                if threshold > 0 {
                    assert forall|k: int| 0 <= k < after.len() implies (#[trigger] after[k]).len()
                        == threshold by {
                        if k < batches.len() {
                            assert(after[k] == batches[k]);
                        }
                    }
                }
            },
            None => {
                assert(concat(batches) + left =~= items);
            },
        }
    }
}

/// Cutting a list of constraints into batches keeps it: the batches that
/// are flushed while the constraints are pushed, followed by what is
/// flushed at the end, give the same list in the same order when they are
/// put one after the other. This holds for every list and every threshold.
/// With a threshold above zero no batch is empty and none is larger than
/// the threshold.
pub proof fn law_chunking_keeps_order<T>(items: Seq<T>, threshold: nat)
    ensures
        concat(all_batches(items, threshold)) == items,
        threshold > 0 ==> forall|k: int|
            0 <= k < all_batches(items, threshold).len() ==> 0 < (#[trigger] all_batches(
                items,
                threshold,
            )[k]).len() <= threshold,
{
    lemma_chunked(items, threshold);
    let (batches, buffer) = chunked(items, threshold);
    let all = all_batches(items, threshold);
    if buffer.len() > 0 {
        assert(all.drop_last() =~= batches);
        if threshold > 0 {
            assert forall|k: int| 0 <= k < all.len() implies 0 < (#[trigger] all[k]).len()
                <= threshold by {
                if k < batches.len() {
                    assert(all[k] == batches[k]);
                }
            }
        }
    } else {
        assert(concat(batches) + buffer =~= concat(batches));
    }
}

/// The view of a `ZkifCS`.
pub struct ZkifCSView {
    /// The threshold at which the buffer is flushed.
    pub constraints_per_message: usize,
    pub registry: RegistryView,
    /// The public inputs that exist; the constant one is the first.
    pub num_inputs: nat,
    /// The auxiliary variables that exist.
    pub num_aux: nat,
    /// The ids of the public inputs, in the order of allocation.
    pub instance_ids: Seq<u64>,
    /// Their values, each at the canonical width.
    pub instance_values: Seq<u8>,
    /// The ids of the private variables whose values were recorded.
    pub witness_ids: Seq<u64>,
    /// Their values, each at the canonical width.
    pub witness: Seq<u8>,
    /// The constraints that wait in the buffer.
    pub constraints: Seq<BilinearConstraint>,
    /// Whether values of private variables are recorded.
    pub proving: bool,
}

impl ZkifCSView {
    pub open spec fn wf(self) -> bool {
        &&& self.registry.wf()
        &&& self.num_inputs >= 1
    }

    /// Whether one more variable can be declared: an id and a handle are
    /// left for it.
    pub open spec fn has_room(self) -> bool {
        &&& self.registry.free_variable_id < u64::MAX
        &&& self.num_inputs < usize::MAX
        &&& self.num_aux < usize::MAX
    }

    /// Whether a variable with `role` needs a value: a public input always
    /// does, a private variable in proving mode.
    pub open spec fn needs_value(self, role: Role) -> bool {
        role == Role::Public || self.proving
    }

    /// The handle of the next variable with `role`.
    pub open spec fn next_handle(self, role: Role) -> VariableHandle {
        match role {
            Role::Public => VariableHandle::Input(self.num_inputs as usize),
            Role::Private => VariableHandle::Aux(self.num_aux as usize),
        }
    }

    /// This system after a variable with `role` was declared with the next
    /// free id. The value of a public input goes into the header; that of a
    /// private variable into the witness, in proving mode.
    pub open spec fn allocate(self, role: Role, value: Option<nat>) -> ZkifCSView {
        let id = self.registry.free_variable_id;
        let registry = self.registry.bind(id, self.next_handle(role));
        match role {
            Role::Public => ZkifCSView {
                registry,
                num_inputs: self.num_inputs + 1,
                instance_ids: self.instance_ids.push(id),
                instance_values: self.instance_values + spec_encode(value->Some_0),
                ..self
            },
            Role::Private => if self.proving {
                ZkifCSView {
                    registry,
                    num_aux: self.num_aux + 1,
                    witness_ids: self.witness_ids.push(id),
                    witness: self.witness + spec_encode(value->Some_0),
                    ..self
                }
            } else {
                ZkifCSView { registry, num_aux: self.num_aux + 1, ..self }
            },
        }
    }
}

/// Whether `message` is a constraints message with exactly these
/// constraints.
pub open spec fn is_constraints(message: Message, constraints: Seq<BilinearConstraint>) -> bool {
    message matches Message::Constraints(batch) && batch.constraints@ == constraints
}

/// Whether `message` is the witness message of `cs`: the ids and values of
/// its private variables.
pub open spec fn is_witness(message: Message, cs: ZkifCSView) -> bool {
    &&& message matches Message::Witness(witness)
    &&& witness.assigned_variables.variable_ids@ == cs.witness_ids
    &&& bytes_view(witness.assigned_variables.values) == Some(cs.witness)
}

/// Whether `message` is the closing header of `cs` under the name `name`:
/// the public inputs with their values, the free id, the largest element
/// of the field as the field's mark, and the name as the one configuration
/// entry.
pub open spec fn is_header(message: Message, cs: ZkifCSView, name: Seq<char>) -> bool {
    &&& message matches Message::Header(header)
    &&& header.instance_variables.variable_ids@ == cs.instance_ids
    &&& bytes_view(header.instance_variables.values) == Some(cs.instance_values)
    &&& header.free_variable_id == cs.registry.free_variable_id
    &&& bytes_view(header.field_maximum) == Some(spec_encode((modulus() - 1) as nat))
    &&& header.configuration matches Some(entries)
    &&& entries@.len() == 1
    &&& entries@[0].key@ == "name"@
    &&& entries@[0].text matches Some(text)
    &&& text@ == name
    &&& entries@[0].data is None
    &&& entries@[0].number == 0
}

/// Whether `messages` are what finishing `cs` under `name` emits: the
/// constraints left in the buffer, unless it is empty; then the witness, in
/// proving mode; then the header, last and once.
pub open spec fn is_closing(messages: Seq<Message>, cs: ZkifCSView, name: Seq<char>) -> bool {
    let flush: int = if cs.constraints.len() > 0 { 1 } else { 0 };
    let witness: int = if cs.proving { 1 } else { 0 };
    &&& messages.len() == flush + witness + 1
    &&& flush == 1 ==> is_constraints(messages[0], cs.constraints)
    &&& witness == 1 ==> is_witness(messages[flush], cs)
    &&& is_header(messages[flush + witness], cs, name)
}

/// A constraint system that writes a statement. Variables get their ids
/// from its registry. Constraints are buffered and handed back in batches of
/// `constraints_per_message`; `finish` hands back the rest, the witness and
/// the header.
#[derive(Debug)]
pub struct ZkifCS {
    pub constraints_per_message: usize,
    registry: Registry,
    num_inputs: usize,
    num_aux: usize,
    instance_ids: Vec<u64>,
    instance_values: Vec<u8>,
    witness_ids: Vec<u64>,
    witness: Vec<u8>,
    constraints: Vec<BilinearConstraint>,
    proving: bool,
}

impl View for ZkifCS {
    type V = ZkifCSView;

    closed spec fn view(&self) -> ZkifCSView {
        ZkifCSView {
            constraints_per_message: self.constraints_per_message,
            registry: self.registry@,
            num_inputs: self.num_inputs as nat,
            num_aux: self.num_aux as nat,
            instance_ids: self.instance_ids@,
            instance_values: self.instance_values@,
            witness_ids: self.witness_ids@,
            witness: self.witness@,
            constraints: self.constraints@,
            proving: self.proving,
        }
    }
}

impl ZkifCS {
    /// A system for a new statement. The constant one is bound to id 0; the
    /// first variable gets id 1. Call `finish` to get the closing messages.
    pub fn new(proving: bool) -> (cs: ZkifCS)
        ensures
            cs@.wf(),
            cs@ == (ZkifCSView {
                constraints_per_message: DEFAULT_CONSTRAINTS_PER_MESSAGE,
                registry: RegistryView::fresh().bind_constant(VariableHandle::Input(0)),
                num_inputs: 1,
                num_aux: 0,
                instance_ids: Seq::empty(),
                instance_values: Seq::empty(),
                witness_ids: Seq::empty(),
                witness: Seq::empty(),
                constraints: Seq::empty(),
                proving,
            }),
    {
        let mut registry = Registry::new();
        registry.bind_constant(VariableHandle::Input(0));
        ZkifCS {
            constraints_per_message: DEFAULT_CONSTRAINTS_PER_MESSAGE,
            registry,
            num_inputs: 1,
            num_aux: 0,
            instance_ids: Vec::new(),
            instance_values: Vec::new(),
            witness_ids: Vec::new(),
            witness: Vec::new(),
            constraints: Vec::new(),
            proving,
        }
    }

    /// The registry of this statement.
    pub fn registry(&self) -> (registry: &Registry)
        ensures
            registry@ == self@.registry,
    {
        &self.registry
    }

    /// Whether the values of private variables are recorded.
    pub fn proving(&self) -> (proving: bool)
        ensures
            proving == self@.proving,
    {
        self.proving
    }

    /// Whether one more variable can be declared.
    pub fn has_room(&self) -> (room: bool)
        ensures
            room == self@.has_room(),
    {
        self.registry.free_variable_id() < u64::MAX && self.num_inputs < usize::MAX && self.num_aux
            < usize::MAX
    }

    /// Declares a variable and gives it the next free id. A public input
    /// needs a value, and so does a private variable in proving mode:
    /// without it, this is an `IncompleteWitness` and nothing changes.
    pub fn allocate(&mut self, role: Role, value: Option<FieldElement>) -> (r: Result<
        VariableHandle,
        Error,
    >)
        requires
            old(self)@.wf(),
            old(self)@.has_room(),
        ensures
            final(self)@.wf(),
            if old(self)@.needs_value(role) && value is None {
                r == Err::<VariableHandle, Error>(Error::IncompleteWitness) && final(self)@ == old(self)@
            } else {
                r == Ok::<VariableHandle, Error>(old(self)@.next_handle(role)) && final(self)@
                    == old(self)@.allocate(role, value_view(value))
            },
    {
        match role {
            Role::Public => {
                let value = match value {
                    Some(value) => value,
                    None => {
                        return Err(Error::IncompleteWitness);
                    },
                };
                let handle = VariableHandle::Input(self.num_inputs);
                let id = self.registry.register(handle);
                self.num_inputs = self.num_inputs + 1;
                self.instance_ids.push(id);
                encode_scalar(&value, &mut self.instance_values);
                Ok(handle)
            },
            Role::Private => {
                let handle = VariableHandle::Aux(self.num_aux);
                if self.proving {
                    let value = match value {
                        Some(value) => value,
                        None => {
                            return Err(Error::IncompleteWitness);
                        },
                    };
                    let id = self.registry.register(handle);
                    self.witness_ids.push(id);
                    encode_scalar(&value, &mut self.witness);
                } else {
                    self.registry.register(handle);
                }
                self.num_aux = self.num_aux + 1;
                Ok(handle)
            },
        }
    }

    /// Buffers a constraint. Once the buffer holds `constraints_per_message`
    /// constraints, it is handed back as one batch and emptied.
    pub fn push_constraint(&mut self, co: BilinearConstraint) -> (flushed: Option<ConstraintSystem>)
        ensures
            final(self)@ == (ZkifCSView {
                constraints: chunk_step(
                    old(self)@.constraints,
                    co,
                    old(self)@.constraints_per_message as nat,
                ).0,
                ..old(self)@
            }),
            match chunk_step(old(self)@.constraints, co, old(self)@.constraints_per_message as nat).1 {
                Some(batch) => flushed matches Some(cs) && cs.constraints@ == batch,
                None => flushed is None,
            },
    {
        self.constraints.push(co);
        if self.constraints.len() >= self.constraints_per_message {
            let mut constraints: Vec<BilinearConstraint> = Vec::new();
            constraints.append(&mut self.constraints);
            Some(ConstraintSystem { constraints })
        } else {
            None
        }
    }

    /// Translates the row `a * b = c` to the wire and buffers it. A handle
    /// that this statement did not hand out is an `UnknownVariable`, and
    /// nothing changes.
    pub fn enforce(&mut self, a: Combination, b: Combination, c: Combination) -> (r:
        Result<Option<ConstraintSystem>, Error>)
        ensures
            match spec_to_zkif_constraint(old(self)@.registry.reverse, a@, b@, c@) {
                Err(e) => r == Err::<Option<ConstraintSystem>, Error>(e) && final(self)@ == old(self)@,
                Ok(terms) => exists|co: BilinearConstraint|
                    {
                        &&& #[trigger] holds_constraint(co, terms)
                        &&& final(self)@ == (ZkifCSView {
                            constraints: chunk_step(
                                old(self)@.constraints,
                                co,
                                old(self)@.constraints_per_message as nat,
                            ).0,
                            ..old(self)@
                        })
                        &&& r matches Ok(flushed)
                        &&& match chunk_step(
                            old(self)@.constraints,
                            co,
                            old(self)@.constraints_per_message as nat,
                        ).1 {
                            Some(batch) => flushed matches Some(cs) && cs.constraints@ == batch,
                            None => flushed is None,
                        }
                    },
            },
    {
        let co = match to_zkif_constraint(a, b, c, &self.registry) {
            Ok(co) => co,
            Err(e) => {
                return Err(e);
            },
        };
        let ghost pushed = co;
        let flushed = self.push_constraint(co);
        assert(holds_constraint(pushed, spec_to_zkif_constraint(
            old(self)@.registry.reverse,
            a@,
            b@,
            c@,
        )->Ok_0));
        Ok(flushed)
    }

    /// Ends the statement. Hands back, in this order: the constraints left
    /// in the buffer, unless it is empty; the witness, in proving mode; and
    /// the header with the final free id, the mark of the field and the
    /// name.
    pub fn finish(self, name: &str) -> (messages: Vec<Message>)
        ensures
            is_closing(messages@, self@, name@),
    {
        let mut messages: Vec<Message> = Vec::new();
        if self.constraints.len() > 0 {
            messages.push(Message::Constraints(ConstraintSystem { constraints: self.constraints }));
        }
        if self.proving {
            messages.push(
                Message::Witness(
                    Witness {
                        assigned_variables: Variables {
                            variable_ids: self.witness_ids,
                            values: Some(self.witness),
                        },
                    },
                ),
            );
        }
        let mut field_maximum: Vec<u8> = Vec::new();
        encode_scalar(&FieldElement::maximum(), &mut field_maximum);
        let mut configuration: Vec<KeyValue> = Vec::new();
        configuration.push(
            KeyValue { key: "name".to_owned(), text: Some(name.to_owned()), data: None, number: 0 },
        );
        messages.push(
            Message::Header(
                CircuitHeader {
                    instance_variables: Variables {
                        variable_ids: self.instance_ids,
                        values: Some(self.instance_values),
                    },
                    free_variable_id: self.registry.free_variable_id(),
                    field_maximum: Some(field_maximum),
                    configuration: Some(configuration),
                },
            ),
        );
        messages
    }
}

} // verus!
