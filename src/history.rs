use vstd::prelude::*;
use crate::node::NodeRecord;
use crate::value::Value;

verus! {

/// A graph validation or execution error, for display.
#[derive(Debug, Clone)]
pub struct GraphError {
    pub node: Option<usize>,
    pub message: String,
}

/// Informational events; they are not recorded for undo.
#[derive(Debug)]
pub enum Event {
    ErrorsChanged { errors: Vec<GraphError> },
    ErrorsCleared,
    ExecutionStarted,
    ExecutionCompleted,
    NodeExecuted { node: usize },
    GraphDirtied,
}

/// An invertible graph edit, recorded for undo and redo. Positions are pairs
/// of IEEE-754 bit patterns.
#[derive(Debug)]
pub enum Mutation {
    CreateNode { idx: usize, record: NodeRecord },
    DeleteNode { idx: usize, record: NodeRecord },
    Connect { from_node: usize, from_slot: usize, to_node: usize, to_slot: usize },
    Disconnect { from_node: usize, from_slot: usize, to_node: usize, to_slot: usize },
    SetConfig { node: usize, slot: usize, old_value: Value, new_value: Value },
    SetInput { node: usize, slot: usize, old_value: Value, new_value: Value },
    MoveNode { node: usize, old_position: (u32, u32), new_position: (u32, u32) },
    SetLabel { node: usize, old_label: Option<String>, new_label: Option<String> },
}

/// What the engine reports to its observer.
#[derive(Debug)]
pub enum Message {
    Mutation(Mutation),
    Event(Event),
}

/// Equal as edits (records compared field by field).
pub open spec fn same_mutation(a: Mutation, b: Mutation) -> bool {
    match (a, b) {
        (Mutation::CreateNode { idx: i, record: r }, Mutation::CreateNode { idx: j, record: s }) => i
            == j && r.same_as(s),
        (Mutation::DeleteNode { idx: i, record: r }, Mutation::DeleteNode { idx: j, record: s }) => i
            == j && r.same_as(s),
        _ => a == b,
    }
}

/// The edit that undoes `m`.
pub open spec fn inverse_of(m: Mutation) -> Mutation {
    match m {
        Mutation::CreateNode { idx, record } => Mutation::DeleteNode { idx, record },
        Mutation::DeleteNode { idx, record } => Mutation::CreateNode { idx, record },
        Mutation::Connect { from_node, from_slot, to_node, to_slot } => Mutation::Disconnect {
            from_node,
            from_slot,
            to_node,
            to_slot,
        },
        Mutation::Disconnect { from_node, from_slot, to_node, to_slot } => Mutation::Connect {
            from_node,
            from_slot,
            to_node,
            to_slot,
        },
        Mutation::SetConfig { node, slot, old_value, new_value } => Mutation::SetConfig {
            node,
            slot,
            old_value: new_value,
            new_value: old_value,
        },
        Mutation::SetInput { node, slot, old_value, new_value } => Mutation::SetInput {
            node,
            slot,
            old_value: new_value,
            new_value: old_value,
        },
        Mutation::MoveNode { node, old_position, new_position } => Mutation::MoveNode {
            node,
            old_position: new_position,
            new_position: old_position,
        },
        Mutation::SetLabel { node, old_label, new_label } => Mutation::SetLabel {
            node,
            old_label: new_label,
            new_label: old_label,
        },
    }
}

/// Whether `m` requires re-execution of the graph.
pub open spec fn dirtying(m: Mutation) -> bool {
    match m {
        Mutation::Connect { .. } | Mutation::Disconnect { .. } | Mutation::DeleteNode { .. }
        | Mutation::SetConfig { .. } | Mutation::SetInput { .. } => true,
        _ => false,
    }
}

/// `m` continues the gesture recorded by `last`: a value edit of the same
/// node, slot and list, or a move of the same node.
pub open spec fn coalesces(last: Mutation, m: Mutation) -> bool {
    match (last, m) {
        (Mutation::SetInput { node: a, slot: s, .. }, Mutation::SetInput { node: b, slot: t, .. }) => a
            == b && s == t,
        (Mutation::SetConfig { node: a, slot: s, .. }, Mutation::SetConfig { node: b, slot: t, .. }) => a
            == b && s == t,
        (Mutation::MoveNode { node: a, .. }, Mutation::MoveNode { node: b, .. }) => a == b,
        _ => false,
    }
}

/// `last` with its "new" side taken from `m`.
pub open spec fn merged(last: Mutation, m: Mutation) -> Mutation {
    match (last, m) {
        (Mutation::SetInput { node, slot, old_value, .. }, Mutation::SetInput { new_value, .. }) =>
            Mutation::SetInput { node, slot, old_value, new_value },
        (Mutation::SetConfig { node, slot, old_value, .. }, Mutation::SetConfig { new_value, .. }) =>
            Mutation::SetConfig { node, slot, old_value, new_value },
        (Mutation::MoveNode { node, old_position, .. }, Mutation::MoveNode { new_position, .. }) =>
            Mutation::MoveNode { node, old_position, new_position },
        _ => last,
    }
}

/// The last `n` entries of `s` (all of it if shorter).
pub open spec fn keep_last(s: Seq<Mutation>, n: nat) -> Seq<Mutation> {
    if s.len() > n {
        s.subrange(s.len() - n, s.len() as int)
    } else {
        s
    }
}

/// The undo stack after recording `m`: merged into the last entry when it
/// coalesces, else appended, the oldest entries dropped beyond `max`.
pub open spec fn pushed(undo: Seq<Mutation>, m: Mutation, max: nat) -> Seq<Mutation> {
    if undo.len() > 0 && coalesces(undo.last(), m) {
        undo.update(undo.len() - 1, merged(undo.last(), m))
    } else {
        keep_last(undo.push(m), max)
    }
}

impl Mutation {
    /// An exact copy of this edit.
    pub fn duplicate(&self) -> (r: Mutation)
        ensures
            same_mutation(r, *self),
    {
        match self {
            Mutation::CreateNode { idx, record } => Mutation::CreateNode {
                idx: *idx,
                record: record.duplicate(),
            },
            Mutation::DeleteNode { idx, record } => Mutation::DeleteNode {
                idx: *idx,
                record: record.duplicate(),
            },
            Mutation::Connect { from_node, from_slot, to_node, to_slot } => Mutation::Connect {
                from_node: *from_node,
                from_slot: *from_slot,
                to_node: *to_node,
                to_slot: *to_slot,
            },
            Mutation::Disconnect { from_node, from_slot, to_node, to_slot } => Mutation::Disconnect {
                from_node: *from_node,
                from_slot: *from_slot,
                to_node: *to_node,
                to_slot: *to_slot,
            },
            Mutation::SetConfig { node, slot, old_value, new_value } => Mutation::SetConfig {
                node: *node,
                slot: *slot,
                old_value: old_value.duplicate(),
                new_value: new_value.duplicate(),
            },
            Mutation::SetInput { node, slot, old_value, new_value } => Mutation::SetInput {
                node: *node,
                slot: *slot,
                old_value: old_value.duplicate(),
                new_value: new_value.duplicate(),
            },
            Mutation::MoveNode { node, old_position, new_position } => Mutation::MoveNode {
                node: *node,
                old_position: *old_position,
                new_position: *new_position,
            },
            Mutation::SetLabel { node, old_label, new_label } => Mutation::SetLabel {
                node: *node,
                old_label: match old_label {
                    Some(l) => Some(l.clone()),
                    None => None,
                },
                new_label: match new_label {
                    Some(l) => Some(l.clone()),
                    None => None,
                },
            },
        }
    }

    /// Whether this edit requires re-execution: connections, deletions and
    /// value edits do; creation, moves and labels do not.
    pub fn dirties_graph(&self) -> (r: bool)
        ensures
            r == dirtying(*self),
    {
        match self {
            Mutation::Connect { .. } | Mutation::Disconnect { .. } | Mutation::DeleteNode { .. }
            | Mutation::SetConfig { .. } | Mutation::SetInput { .. } => true,
            _ => false,
        }
    }

    /// The edit that undoes this one.
    pub fn inverse(&self) -> (r: Mutation)
        ensures
            same_mutation(r, inverse_of(*self)),
    {
        match self.duplicate() {
            Mutation::CreateNode { idx, record } => Mutation::DeleteNode { idx, record },
            Mutation::DeleteNode { idx, record } => Mutation::CreateNode { idx, record },
            Mutation::Connect { from_node, from_slot, to_node, to_slot } => Mutation::Disconnect {
                from_node,
                from_slot,
                to_node,
                to_slot,
            },
            Mutation::Disconnect { from_node, from_slot, to_node, to_slot } => Mutation::Connect {
                from_node,
                from_slot,
                to_node,
                to_slot,
            },
            Mutation::SetConfig { node, slot, old_value, new_value } => Mutation::SetConfig {
                node,
                slot,
                old_value: new_value,
                new_value: old_value,
            },
            Mutation::SetInput { node, slot, old_value, new_value } => Mutation::SetInput {
                node,
                slot,
                old_value: new_value,
                new_value: old_value,
            },
            Mutation::MoveNode { node, old_position, new_position } => Mutation::MoveNode {
                node,
                old_position: new_position,
                new_position: old_position,
            },
            Mutation::SetLabel { node, old_label, new_label } => Mutation::SetLabel {
                node,
                old_label: new_label,
                new_label: old_label,
            },
        }
    }

    /// Whether `m` continues the gesture this edit records.
    fn coalesces_with(&self, m: &Mutation) -> (r: bool)
        ensures
            r == coalesces(*self, *m),
    {
        match (self, m) {
            (Mutation::SetInput { node: a, slot: s, .. }, Mutation::SetInput { node: b, slot: t, .. }) =>
                *a == *b && *s == *t,
            (Mutation::SetConfig { node: a, slot: s, .. }, Mutation::SetConfig { node: b, slot: t, .. }) =>
                *a == *b && *s == *t,
            (Mutation::MoveNode { node: a, .. }, Mutation::MoveNode { node: b, .. }) => *a == *b,
            _ => false,
        }
    }

    /// Take the "new" side of `m`.
    fn absorb(&mut self, m: Mutation)
        ensures
            *final(self) == merged(*old(self), m),
    {
        match (self, m) {
            (Mutation::SetInput { new_value: last, .. }, Mutation::SetInput { new_value, .. }) => {
                *last = new_value;
            },
            (Mutation::SetConfig { new_value: last, .. }, Mutation::SetConfig { new_value, .. }) => {
                *last = new_value;
            },
            (Mutation::MoveNode { new_position: last, .. }, Mutation::MoveNode { new_position, .. }) => {
                *last = new_position;
            },
            _ => {},
        }
    }
}

/// Bounded undo and redo stacks with coalescing of continuous gestures.
#[derive(Debug)]
pub struct History {
    pub undo_stack: Vec<Mutation>,
    pub redo_stack: Vec<Mutation>,
    pub max_size: usize,
}

impl History {
    pub fn new(max_size: usize) -> (r: History)
        ensures
            r.undo_stack@.len() == 0,
            r.redo_stack@.len() == 0,
            r.max_size == max_size,
    {
        History { undo_stack: Vec::new(), redo_stack: Vec::new(), max_size }
    }

    /// Record `m`. A continuation of the last entry's gesture is merged into
    /// it; otherwise `m` is appended, the redo stack is cleared, and the
    /// oldest entries beyond `max_size` are dropped.
    pub fn push(&mut self, m: Mutation)
        ensures
            final(self).undo_stack@ == pushed(old(self).undo_stack@, m, old(self).max_size as nat),
            final(self).max_size == old(self).max_size,
            old(self).undo_stack@.len() > 0 && coalesces(old(self).undo_stack@.last(), m)
                ==> final(self).redo_stack@ == old(self).redo_stack@,
            !(old(self).undo_stack@.len() > 0 && coalesces(old(self).undo_stack@.last(), m))
                ==> final(self).redo_stack@.len() == 0,
    {
        let n = self.undo_stack.len();
        if n > 0 && self.undo_stack[n - 1].coalesces_with(&m) {
            let mut last = self.undo_stack.pop().unwrap();
            last.absorb(m);
            self.undo_stack.push(last);
            assert(self.undo_stack@ =~= pushed(old(self).undo_stack@, m, old(self).max_size as nat));
            return;
        }
        self.undo_stack.push(m);
        self.redo_stack.clear();
        self.trim();
    }

    /// Drop the oldest entries until at most `max_size` remain.
    fn trim(&mut self)
        ensures
            final(self).undo_stack@ == keep_last(old(self).undo_stack@, old(self).max_size as nat),
            final(self).redo_stack@ == old(self).redo_stack@,
            final(self).max_size == old(self).max_size,
    {
        let ghost start = self.undo_stack@;
        while self.undo_stack.len() > self.max_size
            invariant
                self.max_size == old(self).max_size,
                self.redo_stack@ == old(self).redo_stack@,
                start == old(self).undo_stack@,
                self.undo_stack@.len() <= start.len(),
                self.undo_stack@ == start.subrange(
                    start.len() - self.undo_stack@.len(),
                    start.len() as int,
                ),
                start.len() > self.max_size ==> self.undo_stack@.len() >= self.max_size,
                start.len() <= self.max_size ==> self.undo_stack@.len() == start.len(),
            decreases self.undo_stack@.len(),
        {
            let ghost before = self.undo_stack@;
            self.undo_stack.remove(0);
            assert(self.undo_stack@ =~= start.subrange(
                start.len() - self.undo_stack@.len(),
                start.len() as int,
            ));
        }
        assert(start.len() <= self.max_size ==> start.subrange(0, start.len() as int) =~= start);
        assert(self.undo_stack@ =~= keep_last(start, self.max_size as nat));
    }

    /// Take the last edit off the undo stack, keep it for redo, and return its
    /// inverse, which the caller applies.
    pub fn undo(&mut self) -> (r: Option<Mutation>)
        ensures
            old(self).undo_stack@.len() == 0 ==> r is None && final(self).undo_stack@
                == old(self).undo_stack@ && final(self).redo_stack@ == old(self).redo_stack@,
            old(self).undo_stack@.len() > 0 ==> (r matches Some(inv) && same_mutation(
                inv,
                inverse_of(old(self).undo_stack@.last()),
            )) && final(self).undo_stack@ == old(self).undo_stack@.drop_last()
                && final(self).redo_stack@ == old(self).redo_stack@.push(
                old(self).undo_stack@.last(),
            ),
            final(self).max_size == old(self).max_size,
    {
        let m = self.undo_stack.pop()?;
        let inverse = m.inverse();
        self.redo_stack.push(m);
        Some(inverse)
    }

    /// Take the last undone edit off the redo stack, record it again, and
    /// return it for the caller to re-apply.
    pub fn redo(&mut self) -> (r: Option<Mutation>)
        ensures
            old(self).redo_stack@.len() == 0 ==> r is None && final(self).undo_stack@
                == old(self).undo_stack@ && final(self).redo_stack@ == old(self).redo_stack@,
            old(self).redo_stack@.len() > 0 ==> (r matches Some(m) && same_mutation(
                m,
                old(self).redo_stack@.last(),
            )) && final(self).redo_stack@ == old(self).redo_stack@.drop_last()
                && final(self).undo_stack@ == old(self).undo_stack@.push(
                old(self).redo_stack@.last(),
            ),
            final(self).max_size == old(self).max_size,
    {
        let m = self.redo_stack.pop()?;
        let result = m.duplicate();
        self.undo_stack.push(m);
        Some(result)
    }

    pub fn can_undo(&self) -> (r: bool)
        ensures
            r == (self.undo_stack@.len() > 0),
    {
        self.undo_stack.len() > 0
    }

    pub fn can_redo(&self) -> (r: bool)
        ensures
            r == (self.redo_stack@.len() > 0),
    {
        self.redo_stack.len() > 0
    }

    pub fn clear(&mut self)
        ensures
            final(self).undo_stack@.len() == 0,
            final(self).redo_stack@.len() == 0,
            final(self).max_size == old(self).max_size,
    {
        self.undo_stack.clear();
        self.redo_stack.clear();
    }
}

/// A drag of one node recorded as three consecutive moves is a single undo
/// entry, from the position before the first move to the position after the
/// last; its inverse moves the node back to where it started. (The entry
/// before the drag, if any, must not itself be a move of that node, and the
/// history must keep at least one entry.)
pub proof fn lemma_moves_coalesce(
    undo: Seq<Mutation>,
    max: nat,
    node: usize,
    p0: (u32, u32),
    p1: (u32, u32),
    p2: (u32, u32),
    p3: (u32, u32),
)
    requires
        max >= 1,
        undo.len() > 0 ==> !(undo.last() matches Mutation::MoveNode { node: n, .. } && n == node),
    ensures
        ({
            let after = pushed(
                pushed(
                    pushed(undo, Mutation::MoveNode { node, old_position: p0, new_position: p1 }, max),
                    Mutation::MoveNode { node, old_position: p1, new_position: p2 },
                    max,
                ),
                Mutation::MoveNode { node, old_position: p2, new_position: p3 },
                max,
            );
            &&& after == pushed(undo, Mutation::MoveNode { node, old_position: p0, new_position: p3 }, max)
            &&& after.last() == Mutation::MoveNode { node, old_position: p0, new_position: p3 }
            &&& inverse_of(after.last()) == Mutation::MoveNode {
                node,
                old_position: p3,
                new_position: p0,
            }
        }),
{
    let m1 = Mutation::MoveNode { node, old_position: p0, new_position: p1 };
    let s1 = pushed(undo, m1, max);
    assert(!(undo.len() > 0 && coalesces(undo.last(), m1)));
    assert(s1.last() == m1);
    let m13 = Mutation::MoveNode { node, old_position: p0, new_position: p3 };
    let s13 = pushed(undo, m13, max);
    assert(!(undo.len() > 0 && coalesces(undo.last(), m13)));
    let m2 = Mutation::MoveNode { node, old_position: p1, new_position: p2 };
    let s2 = pushed(s1, m2, max);
    assert(s2 == s1.update(s1.len() - 1, Mutation::MoveNode { node, old_position: p0, new_position: p2 }));
    let m3 = Mutation::MoveNode { node, old_position: p2, new_position: p3 };
    let s3 = pushed(s2, m3, max);
    assert(s3 =~= s13);
}

} // verus!
