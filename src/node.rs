use vstd::prelude::*;
use std::sync::Arc;
use std::sync::atomic::{AtomicBool, Ordering};
use crate::error::{Error, ValueError};
use crate::ops::{ArithOp, OpPath, Operation, can_execute, configure_shape, executed, setup_shape};
use crate::signature::SignatureRegistery;
use crate::slot::{SlotDef, is_slot_default, slot_wf};
use crate::value::{Value, ValueType, castable, checkpoint_of, differs_from, settled, type_of};

verus! {

/// Engine-issued unique id of a node.
#[derive(Debug, Clone, Copy, PartialEq, Eq, Hash, Structural)]
pub struct NodeId(pub u64);

/// The persistent state of a node: identity, operator path, label, position
/// (two IEEE-754 bit patterns) and the stored input and config values.
#[derive(Debug)]
pub struct NodeRecord {
    pub id: NodeId,
    pub op_path: OpPath,
    pub label: Option<String>,
    pub position: (u32, u32),
    pub input_values: Vec<Value>,
    pub config_values: Vec<Value>,
}

/// An exact copy of a list of values.
pub fn copy_values(v: &Vec<Value>) -> (r: Vec<Value>)
    ensures
        r@ == v@,
{
    let mut r: Vec<Value> = Vec::new();
    let mut i: usize = 0;
    while i < v.len()
        invariant
            i <= v@.len(),
            r@ == v@.subrange(0, i as int),
        decreases v@.len() - i,
    {
        r.push(v[i].duplicate());
        i = i + 1;
    }
    assert(r@ =~= v@);
    r
}

impl NodeRecord {
    /// Equal as records: same fields, value lists equal element by element.
    pub open spec fn same_as(&self, o: NodeRecord) -> bool {
        &&& self.id == o.id
        &&& self.op_path == o.op_path
        &&& self.label == o.label
        &&& self.position == o.position
        &&& self.input_values@ == o.input_values@
        &&& self.config_values@ == o.config_values@
    }

    /// An exact copy of this record.
    pub fn duplicate(&self) -> (r: NodeRecord)
        ensures
            r.same_as(*self),
    {
        NodeRecord {
            id: self.id,
            op_path: self.op_path.duplicate(),
            label: match &self.label {
                Some(l) => Some(l.clone()),
                None => None,
            },
            position: self.position,
            input_values: copy_values(&self.input_values),
            config_values: copy_values(&self.config_values),
        }
    }

    pub fn new(id: NodeId, op_path: OpPath) -> (r: NodeRecord)
        ensures
            r.id == id,
            r.op_path == op_path,
            r.label is None,
            r.position == (0u32, 0u32),
            r.input_values@.len() == 0,
            r.config_values@.len() == 0,
    {
        NodeRecord {
            id,
            op_path,
            label: None,
            position: (0, 0),
            input_values: Vec::new(),
            config_values: Vec::new(),
        }
    }
}

/// A dirty flag that can be shared with background producers, which may only
/// raise it.
#[derive(Clone)]
pub struct DirtyFlag(Arc<AtomicBool>);

impl DirtyFlag {
    pub fn new() -> (r: DirtyFlag) {
        DirtyFlag(Arc::new(AtomicBool::new(false)))
    }

    pub fn set(&self) {
        self.0.store(true, Ordering::Release);
    }

    /// Whether the flag is raised; another thread may change it at any time.
    pub fn get(&self) -> (r: bool) {
        self.0.load(Ordering::Acquire)
    }

    pub fn clear(&self) {
        self.0.store(false, Ordering::Release);
    }
}

/// Outcome of checking whether an output may feed an input.
#[derive(Debug, Clone, Copy, PartialEq, Eq, Structural)]
pub enum ConnectionProbe {
    Valid,
    NoSourceSlot,
    NoSinkSlot,
    Incompatible,
    CreatesLoop,
}

/// What `probe_connect` answers for output `from` of `a` into input `to` of `b`.
pub open spec fn probe_of(
    a: SignatureRegistery,
    b: SignatureRegistery,
    from: usize,
    to: usize,
) -> ConnectionProbe {
    if from >= a.outputs@.len() {
        ConnectionProbe::NoSourceSlot
    } else if to >= b.inputs@.len() {
        ConnectionProbe::NoSinkSlot
    } else if !castable(a.outputs@[from as int].value_type, b.inputs@[to as int].value_type) {
        ConnectionProbe::Incompatible
    } else {
        ConnectionProbe::Valid
    }
}

/// The runtime state of a node.
pub struct Node {
    pub record: NodeRecord,
    pub signature: SignatureRegistery,
    pub output_values: Vec<Value>,
    /// One entry per input: the value last pushed by an upstream node, if
    /// the input is connected and upstream has run.
    pub incoming: Vec<Option<Value>>,
    pub operation: Operation,
    /// Set by every edit that changes a value, cleared by a successful
    /// execution.
    pub dirty: bool,
    /// Shared with background producers.
    pub flag: DirtyFlag,
}

/// The values of `defs`' defaults, in order.
pub open spec fn are_defaults(vals: Seq<Value>, defs: Seq<SlotDef>) -> bool {
    &&& vals.len() == defs.len()
    &&& forall|i: int| 0 <= i < vals.len() ==> #[trigger] is_slot_default(vals[i], defs[i])
}

/// The value input `i` of a node presents: the incoming one if present, else
/// the stored one.
pub open spec fn effective_input(n: Node, i: int) -> Value {
    match n.incoming@[i] {
        Some(v) => v,
        None => n.record.input_values@[i],
    }
}

/// The values all inputs of a node present, in order.
pub open spec fn effective_inputs(n: Node) -> Seq<Value> {
    Seq::new(n.incoming@.len(), |i: int| effective_input(n, i))
}

/// The result of replacing slot `idx` of `before` by `v`, by the rule of
/// `edit_slot`.
pub open spec fn slot_edited(
    before: Seq<Value>,
    after: Seq<Value>,
    idx: usize,
    v: Value,
    r: Result<bool, Error>,
) -> bool {
    &&& idx >= before.len() ==> (r matches Err(Error::NoPort(p)) && p == idx)
    &&& idx < before.len() && type_of(v) != type_of(before[idx as int]) ==> (r matches Err(
        Error::Value(ValueError::TypeMismatch { wanted, found }),
    ) && wanted == type_of(before[idx as int]) && found == type_of(v))
    &&& idx < before.len() && type_of(v) == type_of(before[idx as int]) ==> r is Ok
    &&& r is Err ==> after == before
    &&& r matches Ok(changed) ==> {
        &&& idx < before.len()
        &&& type_of(v) == type_of(before[idx as int])
        &&& changed == differs_from(v, checkpoint_of(before[idx as int]))
        &&& after.len() == before.len()
        &&& settled(after[idx as int], v)
        &&& forall|k: int| 0 <= k < before.len() && k != idx ==> after[k] == before[k]
    }
}

/// The default of each slot, in order.
fn defaults(defs: &Vec<SlotDef>) -> (r: Vec<Value>)
    ensures
        are_defaults(r@, defs@),
{
    let mut r: Vec<Value> = Vec::new();
    let mut i: usize = 0;
    while i < defs.len()
        invariant
            i <= defs@.len(),
            r@.len() == i,
            forall|k: int| 0 <= k < i ==> #[trigger] is_slot_default(r@[k], defs@[k]),
        decreases defs@.len() - i,
    {
        r.push(defs[i].default_value());
        i = i + 1;
    }
    r
}

/// Slot `k` of a new list holds `v`: the old value of slot `k` if there was
/// one of the slot's type, else the slot's default.
pub open spec fn kept_or_default(old_vals: Seq<Value>, v: Value, d: SlotDef, k: int) -> bool {
    if k < old_vals.len() && type_of(old_vals[k]) == d.value_type {
        v == old_vals[k]
    } else {
        is_slot_default(v, d)
    }
}

/// `vals` are `old_vals` carried over to the slots `defs`.
pub open spec fn reshaped(old_vals: Seq<Value>, vals: Seq<Value>, defs: Seq<SlotDef>) -> bool {
    &&& vals.len() == defs.len()
    &&& forall|k: int| 0 <= k < defs.len() ==> #[trigger] kept_or_default(old_vals, vals[k], defs[k], k)
}

/// Stored input values carried over to a new input list: an old value stays
/// where its slot still exists with the same type; other slots take their
/// default.
fn reshape_inputs(old_vals: &Vec<Value>, defs: &Vec<SlotDef>) -> (r: Vec<Value>)
    ensures
        reshaped(old_vals@, r@, defs@),
{
    let mut r: Vec<Value> = Vec::new();
    let mut i: usize = 0;
    while i < defs.len()
        invariant
            i <= defs@.len(),
            r@.len() == i,
            forall|k: int| 0 <= k < i ==> #[trigger] kept_or_default(old_vals@, r@[k], defs@[k], k),
        decreases defs@.len() - i,
    {
        if i < old_vals.len() && old_vals[i].discriminant() == defs[i].value_type {
            r.push(old_vals[i].duplicate());
        } else {
            r.push(defs[i].default_value());
        }
        i = i + 1;
    }
    r
}

/// Incoming values carried over to a new input count.
fn reshape_incoming(old_vals: &Vec<Option<Value>>, n: usize) -> (r: Vec<Option<Value>>)
    ensures
        r@.len() == n,
        forall|i: int| 0 <= i < n ==> #[trigger] r@[i] == (if i < old_vals@.len() {
            old_vals@[i]
        } else {
            None
        }),
{
    let mut r: Vec<Option<Value>> = Vec::new();
    let mut i: usize = 0;
    while i < n
        invariant
            i <= n,
            r@.len() == i,
            forall|k: int| 0 <= k < i ==> #[trigger] r@[k] == (if k < old_vals@.len() {
                old_vals@[k]
            } else {
                None
            }),
        decreases n - i,
    {
        if i < old_vals.len() {
            match &old_vals[i] {
                Some(v) => r.push(Some(v.duplicate())),
                None => r.push(None),
            }
        } else {
            r.push(None);
        }
        i = i + 1;
    }
    r
}

/// Replace slot `idx` of `values` by `v`, which must have the slot's type.
/// Returns whether the value changed, by the checkpoint rule.
fn edit_slot(values: &mut Vec<Value>, idx: usize, v: Value) -> (r: Result<bool, Error>)
    ensures
        slot_edited(old(values)@, final(values)@, idx, v, r),
{
    if idx >= values.len() {
        return Err(Error::NoPort(idx));
    }
    let want = values[idx].discriminant();
    let found = v.discriminant();
    if want != found {
        return Err(Error::Value(ValueError::TypeMismatch { wanted: want, found }));
    }
    let cp = values[idx].checkpoint();
    let mut nv = v;
    let changed = nv.changed_since(&cp);
    values.set(idx, nv);
    Ok(changed)
}

impl Node {
    /// Slot lists, value lists and the incoming buffer agree in length, and
    /// slot names are unique.
    pub open spec fn wf(&self) -> bool {
        &&& self.record.input_values@.len() == self.signature.inputs@.len()
        &&& self.incoming@.len() == self.signature.inputs@.len()
        &&& self.record.config_values@.len() == self.signature.config@.len()
        &&& self.output_values@.len() == self.signature.outputs@.len()
        &&& self.signature.unique_names()
    }

    /// A node for `operation` with an empty signature; `setup` declares it.
    pub fn new(operation: Operation, id: NodeId) -> (r: Node)
        ensures
            r.wf(),
            r.operation == operation,
            r.record.id == id,
            r.record.op_path.library@ == crate::ops::op_library(operation),
            r.record.op_path.operator@ == crate::ops::op_operator(operation),
            r.record.label is None,
            r.record.position == (0u32, 0u32),
            r.signature.inputs@.len() == 0,
            r.signature.outputs@.len() == 0,
            r.signature.config@.len() == 0,
            !r.dirty,
    {
        let path = operation.op_path();
        Node {
            record: NodeRecord::new(id, path),
            signature: SignatureRegistery::new(),
            output_values: Vec::new(),
            incoming: Vec::new(),
            operation,
            dirty: false,
            flag: DirtyFlag::new(),
        }
    }

    /// The label if one is set, else the operator name.
    pub fn label(&self) -> (r: &str)
        ensures
            self.record.label matches Some(l) ==> r@ == l@,
            self.record.label is None ==> r@ == self.record.op_path.operator@,
    {
        match &self.record.label {
            Some(l) => l.as_str(),
            None => self.record.op_path.operator.as_str(),
        }
    }

    pub fn position(&self) -> (r: (u32, u32))
        ensures
            r == self.record.position,
    {
        self.record.position
    }

    pub fn op_path(&self) -> (r: &OpPath)
        ensures
            *r == self.record.op_path,
    {
        &self.record.op_path
    }

    pub fn record(&self) -> (r: &NodeRecord)
        ensures
            *r == self.record,
    {
        &self.record
    }

    pub fn operation(&self) -> (r: &Operation)
        ensures
            *r == self.operation,
    {
        &self.operation
    }

    pub fn signature(&self) -> (r: &SignatureRegistery)
        ensures
            *r == self.signature,
    {
        &self.signature
    }

    /// Whether the node needs re-execution: it was edited since it last ran,
    /// or a background producer raised its shared flag.
    pub fn is_dirty(&self) -> (r: bool)
        ensures
            self.dirty ==> r,
    {
        self.dirty || self.flag.get()
    }

    /// A handle on the node's shared dirty flag, for background producers.
    pub fn dirty_flag(&self) -> (r: DirtyFlag) {
        self.flag.clone()
    }

    /// Whether output `from_port` of this node may feed input `to_port` of
    /// `other`; loops are the graph's concern, not checked here.
    pub fn probe_connect(&self, other: &Node, from_port: usize, to_port: usize) -> (r: ConnectionProbe)
        ensures
            r == probe_of(self.signature, other.signature, from_port, to_port),
    {
        let output_def = match self.signature.output(from_port) {
            Some(d) => d,
            None => return ConnectionProbe::NoSourceSlot,
        };
        let input_def = match other.signature.input(to_port) {
            Some(d) => d,
            None => return ConnectionProbe::NoSinkSlot,
        };
        if !output_def.value_type.can_cast_to(&input_def.value_type) {
            return ConnectionProbe::Incompatible;
        }
        ConnectionProbe::Valid
    }

    pub fn input_count(&self) -> (r: usize)
        ensures
            r == self.signature.inputs@.len(),
    {
        self.signature.input_count()
    }

    pub fn output_count(&self) -> (r: usize)
        ensures
            r == self.signature.outputs@.len(),
    {
        self.signature.output_count()
    }

    pub fn config_count(&self) -> (r: usize)
        ensures
            r == self.signature.config@.len(),
    {
        self.signature.config_count()
    }

    /// Input slot `index` and the value it presents (incoming before stored).
    pub fn input(&self, index: usize) -> (r: Option<(&SlotDef, &Value)>)
        requires
            self.wf(),
        ensures
            index < self.signature.inputs@.len() ==> (r matches Some(p) && *p.0
                == self.signature.inputs@[index as int] && *p.1 == effective_input(
                *self,
                index as int,
            )),
            index >= self.signature.inputs@.len() ==> r is None,
    {
        let def = self.signature.input(index)?;
        match &self.incoming[index] {
            Some(v) => Some((def, v)),
            None => Some((def, &self.record.input_values[index])),
        }
    }

    /// The value input `index` presents, if the slot exists.
    pub fn input_value(&self, index: usize) -> (r: Option<&Value>)
        requires
            self.wf(),
        ensures
            index < self.signature.inputs@.len() ==> r == Some(&effective_input(*self, index as int)),
            index >= self.signature.inputs@.len() ==> r is None,
    {
        match self.input(index) {
            Some((_, v)) => Some(v),
            None => None,
        }
    }

    pub fn output(&self, index: usize) -> (r: Option<(&SlotDef, &Value)>)
        requires
            self.wf(),
        ensures
            index < self.signature.outputs@.len() ==> (r matches Some(p) && *p.0
                == self.signature.outputs@[index as int] && *p.1
                == self.output_values@[index as int]),
            index >= self.signature.outputs@.len() ==> r is None,
    {
        let def = self.signature.output(index)?;
        Some((def, &self.output_values[index]))
    }

    pub fn config(&self, index: usize) -> (r: Option<(&SlotDef, &Value)>)
        requires
            self.wf(),
        ensures
            index < self.signature.config@.len() ==> (r matches Some(p) && *p.0
                == self.signature.config@[index as int] && *p.1
                == self.record.config_values@[index as int]),
            index >= self.signature.config@.len() ==> r is None,
    {
        let def = self.signature.config(index)?;
        Some((def, &self.record.config_values[index]))
    }

    /// Whether some config slot is drawn on the node body.
    pub fn has_body_config(&self) -> (r: bool)
        ensures
            r == exists|i: int| 0 <= i < self.signature.config@.len()
                && #[trigger] self.signature.config@[i].common.on_node_body,
    {
        let mut i: usize = 0;
        while i < self.signature.config.len()
            invariant
                i <= self.signature.config@.len(),
                forall|k: int| 0 <= k < i ==> !(#[trigger] self.signature.config@[k]).common.on_node_body,
            decreases self.signature.config@.len() - i,
        {
            if self.signature.config[i].common.on_node_body {
                return true;
            }
            i = i + 1;
        }
        false
    }
}

impl Node {
    /// Declare the signature and fill every value list with slot defaults.
    pub fn setup(&mut self) -> (r: Result<(), Error>)
        requires
            old(self).signature.inputs@.len() == 0,
            old(self).signature.outputs@.len() == 0,
            old(self).signature.config@.len() == 0,
        ensures
            r is Ok,
            final(self).wf(),
            setup_shape(old(self).operation, final(self).signature),
            final(self).operation == old(self).operation,
            final(self).dirty == old(self).dirty,
            final(self).record.id == old(self).record.id,
            final(self).record.op_path == old(self).record.op_path,
            final(self).record.label == old(self).record.label,
            final(self).record.position == old(self).record.position,
            are_defaults(final(self).record.input_values@, final(self).signature.inputs@),
            are_defaults(final(self).record.config_values@, final(self).signature.config@),
            are_defaults(final(self).output_values@, final(self).signature.outputs@),
            forall|i: int| 0 <= i < final(self).incoming@.len() ==> final(self).incoming@[i] is None,
    {
        self.operation.setup(&mut self.signature);
        self.signature.validate_unique_names()?;
        self.record.input_values = defaults(&self.signature.inputs);
        self.record.config_values = defaults(&self.signature.config);
        self.output_values = defaults(&self.signature.outputs);
        self.incoming = reshape_incoming(&Vec::new(), self.signature.inputs.len());
        Ok(())
    }

    /// Re-derive the signature from the stored config values. Outputs are
    /// reset to their defaults; stored inputs keep their value where the slot
    /// survives with the same type; incoming values are kept where the slot
    /// survives. Edges are the engine's concern.
    pub fn configure(&mut self) -> (r: Result<(), Error>)
        requires
            old(self).wf(),
        ensures
            final(self).wf(),
            configure_shape(
                old(self).operation,
                old(self).record.config_values@,
                r is Ok,
                final(self).operation,
                old(self).signature,
                final(self).signature,
            ),
            r is Err ==> final(self).operation == old(self).operation && final(self).signature
                == old(self).signature && final(self).output_values@ == old(self).output_values@
                && final(self).record.input_values@ == old(self).record.input_values@
                && final(self).incoming@ == old(self).incoming@,
            r is Ok ==> are_defaults(final(self).output_values@, final(self).signature.outputs@),
            r is Ok ==> reshaped(
                old(self).record.input_values@,
                final(self).record.input_values@,
                final(self).signature.inputs@,
            ),
            r is Ok ==> forall|i: int| 0 <= i < final(self).incoming@.len() ==> #[trigger] final(self).incoming@[i]
                == (if i < old(self).incoming@.len() { old(self).incoming@[i] } else { None }),
            final(self).record.config_values@ == old(self).record.config_values@,
            final(self).record.id == old(self).record.id,
            final(self).record.op_path == old(self).record.op_path,
            final(self).record.label == old(self).record.label,
            final(self).record.position == old(self).record.position,
            final(self).dirty == old(self).dirty,
    {
        self.operation.configure(&self.record.config_values, &mut self.signature)?;
        self.signature.validate_unique_names()?;
        self.output_values = defaults(&self.signature.outputs);
        let inputs = reshape_inputs(&self.record.input_values, &self.signature.inputs);
        self.record.input_values = inputs;
        let incoming = reshape_incoming(&self.incoming, self.signature.inputs.len());
        self.incoming = incoming;
        Ok(())
    }

    /// Set stored input `idx` to `v` (of the slot's current type). Returns
    /// whether the value changed; a change marks the node dirty. A string
    /// counts as changed when its dirty bit is set.
    pub fn edit_input(&mut self, idx: usize, v: Value) -> (r: Result<bool, Error>)
        requires
            old(self).wf(),
        ensures
            final(self).wf(),
            slot_edited(old(self).record.input_values@, final(self).record.input_values@, idx, v, r),
            final(self).dirty == (old(self).dirty || r == Ok::<bool, Error>(true)),
            final(self).signature == old(self).signature,
            final(self).operation == old(self).operation,
            final(self).output_values@ == old(self).output_values@,
            final(self).incoming@ == old(self).incoming@,
            final(self).record.config_values@ == old(self).record.config_values@,
            final(self).record.id == old(self).record.id,
            final(self).record.op_path == old(self).record.op_path,
            final(self).record.label == old(self).record.label,
            final(self).record.position == old(self).record.position,
    {
        let r = edit_slot(&mut self.record.input_values, idx, v);
        if let Ok(true) = r {
            self.dirty = true;
        }
        r
    }

    /// Set output `idx` to `v` (of the slot's current type); used for graph
    /// inputs. Returns whether the value changed; a change marks the node dirty.
    pub fn edit_output(&mut self, idx: usize, v: Value) -> (r: Result<bool, Error>)
        requires
            old(self).wf(),
        ensures
            final(self).wf(),
            slot_edited(old(self).output_values@, final(self).output_values@, idx, v, r),
            final(self).dirty == (old(self).dirty || r == Ok::<bool, Error>(true)),
            final(self).signature == old(self).signature,
            final(self).operation == old(self).operation,
            final(self).incoming@ == old(self).incoming@,
            final(self).record.input_values@ == old(self).record.input_values@,
            final(self).record.config_values@ == old(self).record.config_values@,
            final(self).record.id == old(self).record.id,
            final(self).record.op_path == old(self).record.op_path,
            final(self).record.label == old(self).record.label,
            final(self).record.position == old(self).record.position,
    {
        let r = edit_slot(&mut self.output_values, idx, v);
        if let Ok(true) = r {
            self.dirty = true;
        }
        r
    }

    /// Set config value `idx` to `v` (of the slot's current type). Returns
    /// whether the value changed; a change marks the node dirty.
    pub fn edit_config(&mut self, idx: usize, v: Value) -> (r: Result<bool, Error>)
        requires
            old(self).wf(),
        ensures
            final(self).wf(),
            slot_edited(old(self).record.config_values@, final(self).record.config_values@, idx, v, r),
            final(self).dirty == (old(self).dirty || r == Ok::<bool, Error>(true)),
            final(self).signature == old(self).signature,
            final(self).operation == old(self).operation,
            final(self).output_values@ == old(self).output_values@,
            final(self).incoming@ == old(self).incoming@,
            final(self).record.input_values@ == old(self).record.input_values@,
            final(self).record.id == old(self).record.id,
            final(self).record.op_path == old(self).record.op_path,
            final(self).record.label == old(self).record.label,
            final(self).record.position == old(self).record.position,
    {
        let r = edit_slot(&mut self.record.config_values, idx, v);
        if let Ok(true) = r {
            self.dirty = true;
        }
        r
    }

    /// Buffer a value from upstream for input `slot` (ignored if no such slot).
    pub fn push_incoming(&mut self, slot: usize, value: Value)
        requires
            old(self).wf(),
        ensures
            final(self).wf(),
            slot < old(self).incoming@.len() ==> final(self).incoming@ == old(self).incoming@.update(
                slot as int,
                Some(value),
            ),
            slot >= old(self).incoming@.len() ==> final(self).incoming@ == old(self).incoming@,
            final(self).signature == old(self).signature,
            final(self).operation == old(self).operation,
            final(self).output_values@ == old(self).output_values@,
            final(self).record.same_as(old(self).record),
            final(self).dirty == old(self).dirty,
    {
        if slot < self.incoming.len() {
            self.incoming.set(slot, Some(value));
        }
    }

    /// Forget the buffered value of input `slot` (when its edge goes away).
    pub fn clear_incoming(&mut self, slot: usize)
        requires
            old(self).wf(),
        ensures
            final(self).wf(),
            slot < old(self).incoming@.len() ==> final(self).incoming@ == old(self).incoming@.update(
                slot as int,
                None,
            ),
            slot >= old(self).incoming@.len() ==> final(self).incoming@ == old(self).incoming@,
            final(self).signature == old(self).signature,
            final(self).operation == old(self).operation,
            final(self).output_values@ == old(self).output_values@,
            final(self).record.same_as(old(self).record),
            final(self).dirty == old(self).dirty,
    {
        if slot < self.incoming.len() {
            self.incoming.set(slot, None);
        }
    }

    /// Copy of the current output values.
    pub fn snapshot_outputs(&self) -> (r: Vec<Value>)
        ensures
            r@ == self.output_values@,
    {
        copy_values(&self.output_values)
    }

    /// The values the inputs present, incoming before stored.
    fn gather_inputs(&self) -> (r: Vec<Value>)
        requires
            self.wf(),
        ensures
            r@ == effective_inputs(*self),
    {
        let mut r: Vec<Value> = Vec::new();
        let mut i: usize = 0;
        while i < self.incoming.len()
            invariant
                self.wf(),
                i <= self.incoming@.len(),
                r@ == effective_inputs(*self).subrange(0, i as int),
            decreases self.incoming@.len() - i,
        {
            let v = match &self.incoming[i] {
                Some(v) => v.duplicate(),
                None => self.record.input_values[i].duplicate(),
            };
            r.push(v);
            i = i + 1;
        }
        assert(r@ =~= effective_inputs(*self));
        r
    }

    /// Run the operation on the inputs' present values. Success clears the
    /// dirty state; failure leaves outputs and dirty state as they were, so
    /// the node is retried.
    pub fn execute<F: Fn(ArithOp, u32, u32) -> u32>(&mut self, eval: &F) -> (r: Result<(), Error>)
        requires
            old(self).wf(),
            forall|o: ArithOp, a: u32, b: u32| eval.requires((o, a, b)),
        ensures
            final(self).wf(),
            r is Ok <==> can_execute(old(self).operation, effective_inputs(*old(self)), old(self).output_values@),
            r is Err ==> final(self).output_values@ == old(self).output_values@ && final(self).dirty
                == old(self).dirty,
            r is Ok ==> !final(self).dirty && executed(
                old(self).operation,
                effective_inputs(*old(self)),
                old(self).output_values@,
                final(self).output_values@,
                *eval,
            ),
            final(self).signature == old(self).signature,
            final(self).operation == old(self).operation,
            final(self).incoming@ == old(self).incoming@,
            final(self).record.same_as(old(self).record),
    {
        let inputs = self.gather_inputs();
        let r = self.operation.execute(&inputs, &mut self.output_values, eval);
        if r.is_ok() {
            self.dirty = false;
            self.flag.clear();
        }
        r
    }

    /// Release what the operation holds; the built-in operations hold nothing
    /// beyond their output textures, which the engine releases.
    pub fn teardown(&mut self)
        ensures
            final(self).wf() == old(self).wf(),
    {
    }
}

} // verus!
