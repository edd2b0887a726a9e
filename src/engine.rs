//! The engine: owns the graph of nodes, the operator registry, the texture
//! pool, the history and the outbox of messages for the frontend.

use vstd::prelude::*;
use vstd::string::StringExecFns;
use crate::error::Error;
use crate::gpu_pool::{GPUResourcePool, GpuCommand, TextureEntry, TextureOwner, SYSTEM_TEXTURE_COUNT, has_id, id_other_than, index_of, owned_by, owns};
use crate::history::{Event, History, Message, Mutation, dirtying, pushed, same_mutation};
use crate::node::{Node, NodeId, are_defaults};
use crate::slot::is_slot_default;
use crate::ops::{Arithmetic, ArithOp, Comment, Input, InputType, Operation, Output, configure_shape, setup_shape};
use crate::topology::{has_cycle, EdgeEnds, Topology, edges_closed, graph_edges, graph_nodes, has_edge, is_walk, topology_add_node, topology_edge_count, topology_new};
use crate::value::{TextureFormat, TextureHandle, TextureId, Value, type_of};

verus! {

/// The operation kinds the engine can build by name.
#[derive(Debug, Clone, Copy, PartialEq, Eq, Structural)]
pub enum OperatorKind {
    Input,
    Output,
    Arithmetic,
    Comment,
}

/// A registered operator: its `(library, operator)` path, a label for menus,
/// and what to build.
#[derive(Debug)]
pub struct OperatorEntry {
    pub library: String,
    pub operator: String,
    pub label: String,
    pub kind: OperatorKind,
}

impl OperatorKind {
    pub open spec fn library(self) -> Seq<char> {
        match self {
            OperatorKind::Arithmetic => "math"@,
            _ => "core"@,
        }
    }

    pub open spec fn operator(self) -> Seq<char> {
        match self {
            OperatorKind::Input => "input"@,
            OperatorKind::Output => "output"@,
            OperatorKind::Arithmetic => "arithmetic"@,
            OperatorKind::Comment => "comment"@,
        }
    }

    /// A fresh operation of this kind, as the registry builds it.
    pub fn build(self) -> (r: Operation)
        ensures
            self == OperatorKind::Input ==> r == Operation::Input(
                Input { value_type: InputType::Float, value: Value::F32(0) },
            ),
            self == OperatorKind::Output ==> r == Operation::Output(Output),
            self == OperatorKind::Arithmetic ==> r == Operation::Arithmetic(
                Arithmetic { operation: ArithOp::Add },
            ),
            self == OperatorKind::Comment ==> r == Operation::Comment(Comment),
    {
        match self {
            OperatorKind::Input => Operation::Input(Input::new(InputType::Float)),
            OperatorKind::Output => Operation::Output(Output),
            OperatorKind::Arithmetic => Operation::Arithmetic(Arithmetic { operation: ArithOp::Add }),
            OperatorKind::Comment => Operation::Comment(Comment),
        }
    }

    fn entry(self) -> (r: OperatorEntry)
        ensures
            r.kind == self,
            r.library@ == self.library(),
            r.operator@ == self.operator(),
    {
        let (l, o, label) = match self {
            OperatorKind::Input => ("core", "input", "Input"),
            OperatorKind::Output => ("core", "output", "Output"),
            OperatorKind::Arithmetic => ("math", "arithmetic", "Arithmetic"),
            OperatorKind::Comment => ("core", "comment", "Comment"),
        };
        OperatorEntry { library: l.to_owned(), operator: o.to_owned(), label: label.to_owned(), kind: self }
    }
}

/// At most one edge ends at each input slot.
pub open spec fn one_driver(edges: Map<usize, EdgeEnds>) -> bool {
    forall|a: usize, b: usize|
        #![trigger edges.contains_key(a), edges.contains_key(b)]
        edges.contains_key(a) && edges.contains_key(b) && edges[a].1 == edges[b].1 && edges[a].3
            == edges[b].3 ==> a == b
}

/// `msgs` after reporting mutation `m`: the mutation, then `GraphDirtied` if
/// it dirties the graph.
pub open spec fn reported(msgs: Seq<Message>, m: Mutation) -> Seq<Message> {
    if dirtying(m) {
        msgs.push(Message::Mutation(m)).push(Message::Event(Event::GraphDirtied))
    } else {
        msgs.push(Message::Mutation(m))
    }
}

/// The engine.
pub struct Engine {
    pub graph: Topology,
    /// Node payloads, indexed by graph node index; `None` where no node lives.
    pub nodes: Vec<Option<Node>>,
    pub registry: Vec<OperatorEntry>,
    pub textures: GPUResourcePool,
    pub history: History,
    /// Messages not yet taken by the frontend, oldest first.
    pub messages: Vec<Message>,
    pub last_id: u64,
}

impl Engine {
    /// A node lives at index `i`.
    pub open spec fn live(&self, i: usize) -> bool {
        i < self.nodes@.len() && self.nodes@[i as int] is Some
    }

    /// The node at index `i` (meaningful where one lives).
    pub open spec fn node_at(&self, i: usize) -> Node {
        self.nodes@[i as int]->Some_0
    }

    pub open spec fn edges(&self) -> Map<usize, EdgeEnds> {
        graph_edges(self.graph)
    }

    /// The arena and the graph agree, every node is consistent, every edge
    /// joins live nodes, each input has at most one driver, the graph has no
    /// cycle, no node's id is above the last id issued, and each registry
    /// entry carries its kind's path.
    pub open spec fn wf(&self) -> bool {
        &&& forall|i: usize| #[trigger] graph_nodes(self.graph).contains(i) <==> self.live(i)
        &&& forall|i: int| 0 <= i < self.nodes@.len() && (#[trigger] self.nodes@[i]) is Some
            ==> self.nodes@[i]->Some_0.wf() && self.nodes@[i]->Some_0.record.id.0 <= self.last_id
        &&& edges_closed(graph_nodes(self.graph), self.edges())
        &&& one_driver(self.edges())
        &&& !has_cycle(self.edges())
        &&& self.edges().dom().finite()
        &&& graph_nodes(self.graph).finite()
        &&& self.textures.wf()
        &&& forall|k: int| 0 <= k < self.registry@.len() ==> #[trigger] self.registry@[k].library@
            == self.registry@[k].kind.library() && self.registry@[k].operator@ == self.registry@[k].kind.operator()
    }

    /// Everything but the outbox and the history is as in `o`.
    pub open spec fn same_state(&self, o: Engine) -> bool {
        &&& self.graph == o.graph
        &&& self.nodes@ == o.nodes@
        &&& self.registry@ == o.registry@
        &&& self.textures == o.textures
        &&& self.last_id == o.last_id
    }

    /// An engine with the built-in operators registered and the four system
    /// textures (black, white, transparent, checker) at their reserved ids.
    pub fn init() -> (r: Result<Engine, Error>)
        ensures
            r is Ok,
            r matches Ok(e) ==> e.wf() && graph_nodes(e.graph).len() == 0 && e.edges().len() == 0
                && e.messages@.len() == 0 && e.registry@.len() == 4 && e.textures.entries@.len() == 4,
            r matches Ok(e) ==> {
                &&& e.registry@[0].kind == OperatorKind::Input
                &&& e.registry@[1].kind == OperatorKind::Output
                &&& e.registry@[2].kind == OperatorKind::Arithmetic
                &&& e.registry@[3].kind == OperatorKind::Comment
                &&& forall|k: int| 0 <= k < 4 ==> #[trigger] e.registry@[k].library@ == e.registry@[k].kind.library()
                    && e.registry@[k].operator@ == e.registry@[k].kind.operator()
                &&& forall|k: int| 0 <= k < 4 ==> #[trigger] e.textures.entries@[k] == (TextureEntry {
                    id: TextureId(k as u64),
                    width: if k == 3 { 2u32 } else { 1u32 },
                    height: if k == 3 { 2u32 } else { 1u32 },
                    fmt: TextureFormat::RGBAu8,
                    owner: TextureOwner::Engine,
                })
                &&& e.history.undo_stack@.len() == 0 && e.history.redo_stack@.len() == 0
                &&& e.last_id == 0
            },
    {
        let mut textures = GPUResourcePool::new();
        let px_black: Vec<u8> = vec![0, 0, 0, 255];
        let px_white: Vec<u8> = vec![255, 255, 255, 255];
        let px_clear: Vec<u8> = vec![0, 0, 0, 0];
        let px_check: Vec<u8> = vec![0, 0, 0, 255, 255, 0, 255, 255, 255, 0, 255, 255, 0, 0, 0, 255];
        textures.insert_texture(system_texture(0), px_black);
        textures.insert_texture(system_texture(1), px_white);
        textures.insert_texture(system_texture(2), px_clear);
        textures.insert_texture(system_texture(3), px_check);
        let mut out = Engine {
            graph: topology_new(),
            nodes: Vec::new(),
            registry: Vec::new(),
            textures,
            history: History::new(100),
            messages: Vec::new(),
            last_id: 0,
        };
        proof {
            assert(graph_nodes(out.graph) =~= Set::empty());
            assert(out.edges() =~= Map::empty());
            if has_cycle(out.edges()) {
                let p = choose|p: Seq<usize>| #[trigger] is_walk(out.edges(), p) && p.len() >= 2 && p[0] == p.last();
                let k: int = 0;
                assert(has_edge(out.edges(), p[k], p[k + 1]));
            }
        }
        proof {
            reveal_strlit("core");
            reveal_strlit("math");
            reveal_strlit("input");
            reveal_strlit("output");
            reveal_strlit("arithmetic");
            reveal_strlit("comment");
            assert("input"@[0] != "output"@[0]);
            assert("input"@[0] != "comment"@[0]);
            assert("output"@[0] != "comment"@[0]);
            assert("core"@[0] != "math"@[0]);
        }
        out.register_op(OperatorKind::Input)?;
        out.register_op(OperatorKind::Output)?;
        out.register_op(OperatorKind::Arithmetic)?;
        out.register_op(OperatorKind::Comment)?;
        proof {
            assert forall|k: int| 0 <= k < 4 implies #[trigger] out.textures.entries@[k] == (TextureEntry {
                id: TextureId(k as u64),
                width: if k == 3 { 2u32 } else { 1u32 },
                height: if k == 3 { 2u32 } else { 1u32 },
                fmt: TextureFormat::RGBAu8,
                owner: TextureOwner::Engine,
            }) by {}
        }
        Ok(out)
    }

    /// Add an operator to the registry; a second registration of the same
    /// `(library, operator)` path fails.
    pub fn register_op(&mut self, kind: OperatorKind) -> (r: Result<(), Error>)
        requires
            old(self).wf(),
        ensures
            final(self).wf(),
            final(self).graph == old(self).graph,
            final(self).nodes@ == old(self).nodes@,
            final(self).messages@ == old(self).messages@,
            r is Ok <==> !exists|i: int| 0 <= i < old(self).registry@.len()
                && old(self).registry@[i].library@ == kind.library()
                && #[trigger] old(self).registry@[i].operator@ == kind.operator(),
            r is Ok ==> final(self).registry@ == old(self).registry@.push(final(self).registry@.last())
                && final(self).registry@.last().kind == kind && final(self).registry@.last().library@
                == kind.library() && final(self).registry@.last().operator@ == kind.operator(),
            final(self).textures == old(self).textures,
            final(self).history == old(self).history,
            final(self).last_id == old(self).last_id,
            r is Err ==> final(self).registry@ == old(self).registry@,
            r is Err ==> (r matches Err(Error::DuplicateOperationType(l, o)) && l@ == kind.library()
                && o@ == kind.operator()),
    {
        let entry = kind.entry();
        let mut i: usize = 0;
        while i < self.registry.len()
            invariant
                self.wf(),
                i <= self.registry@.len(),
                entry.library@ == kind.library(),
                entry.operator@ == kind.operator(),
                forall|k: int| 0 <= k < i ==> !(self.registry@[k].library@ == kind.library()
                    && #[trigger] self.registry@[k].operator@ == kind.operator()),
            decreases self.registry@.len() - i,
        {
            if self.registry[i].library == entry.library && self.registry[i].operator == entry.operator {
                return Err(Error::DuplicateOperationType(entry.library, entry.operator));
            }
            i = i + 1;
        }
        self.registry.push(entry);
        Ok(())
    }

    /// The registry entry for `(library, name)`.
    fn lookup(&self, library: &str, name: &str) -> (r: Option<OperatorKind>)
        ensures
            r matches Some(k) ==> exists|i: int| 0 <= i < self.registry@.len()
                && self.registry@[i].library@ == library@ && #[trigger] self.registry@[i].operator@
                == name@ && self.registry@[i].kind == k,
            r is None ==> !exists|i: int| 0 <= i < self.registry@.len()
                && self.registry@[i].library@ == library@ && #[trigger] self.registry@[i].operator@
                == name@,
    {
        let l = library.to_owned();
        let n = name.to_owned();
        let mut i: usize = 0;
        while i < self.registry.len()
            invariant
                i <= self.registry@.len(),
                l@ == library@,
                n@ == name@,
                forall|k: int| 0 <= k < i ==> !(self.registry@[k].library@ == library@
                    && #[trigger] self.registry@[k].operator@ == name@),
            decreases self.registry@.len() - i,
        {
            if self.registry[i].library == l && self.registry[i].operator == n {
                return Some(self.registry[i].kind);
            }
            i = i + 1;
        }
        None
    }

    /// Record a mutation in the history and report it.
    pub(crate) fn emit_mutation(&mut self, m: Mutation)
        ensures
            final(self).same_state(*old(self)),
            final(self).messages@ == reported(old(self).messages@, m),
            exists|h: Mutation| same_mutation(h, m) && final(self).history.undo_stack@ == pushed(
                old(self).history.undo_stack@,
                h,
                old(self).history.max_size as nat,
            ),
            final(self).history.max_size == old(self).history.max_size,
    {
        let dirties = m.dirties_graph();
        let h = m.duplicate();
        self.history.push(h);
        self.messages.push(Message::Mutation(m));
        if dirties {
            self.messages.push(Message::Event(Event::GraphDirtied));
        }
    }

    /// Report an informational event.
    pub(crate) fn emit_event(&mut self, e: Event)
        ensures
            final(self).same_state(*old(self)),
            final(self).history == old(self).history,
            final(self).messages@ == old(self).messages@.push(Message::Event(e)),
    {
        self.messages.push(Message::Event(e));
    }

    /// Hand the pending messages to the frontend, oldest first.
    pub fn take_messages(&mut self) -> (r: Vec<Message>)
        ensures
            r@ == old(self).messages@,
            final(self).messages@.len() == 0,
            final(self).same_state(*old(self)),
            final(self).history == old(self).history,
    {
        let mut r: Vec<Message> = Vec::new();
        std::mem::swap(&mut r, &mut self.messages);
        r
    }

    /// Hand the pending device work to the host, in order.
    pub fn take_gpu_commands(&mut self) -> (r: Vec<GpuCommand>)
        requires
            old(self).wf(),
        ensures
            final(self).wf(),
            r@ == old(self).textures.commands@,
            final(self).textures.commands@.len() == 0,
            final(self).textures.entries@ == old(self).textures.entries@,
            final(self).graph == old(self).graph,
            final(self).nodes@ == old(self).nodes@,
            final(self).messages@ == old(self).messages@,
    {
        self.textures.take_commands()
    }
}

/// The handle of system texture `k` (0 black, 1 white, 2 transparent: 1x1;
/// 3 checker: 2x2).
pub fn system_texture(k: u64) -> (r: TextureHandle)
    requires
        k < SYSTEM_TEXTURE_COUNT,
    ensures
        r.id == Some(TextureId(k)),
        r.fmt == TextureFormat::RGBAu8,
        r.width == (if k == 3 { 2u32 } else { 1u32 }),
        r.height == r.width,
{
    let side: u32 = if k == 3 { 2 } else { 1 };
    TextureHandle { id: Some(TextureId(k)), width: side, height: side, fmt: TextureFormat::RGBAu8 }
}

/// Extend the arena with empty slots until index `i` exists.
fn grow_arena(nodes: &mut Vec<Option<Node>>, i: usize)
    ensures
        final(nodes)@.len() > i,
        final(nodes)@.len() >= old(nodes)@.len(),
        forall|j: int| 0 <= j < old(nodes)@.len() ==> final(nodes)@[j] == old(nodes)@[j],
        forall|j: int| old(nodes)@.len() <= j < final(nodes)@.len() ==> final(nodes)@[j] is None,
        final(nodes)@.filter(occupied()).len() == old(nodes)@.filter(occupied()).len(),
{
    while nodes.len() <= i
        invariant
            nodes@.filter(occupied()).len() == old(nodes)@.filter(occupied()).len(),
            old(nodes)@.len() <= nodes@.len(),
            forall|j: int| 0 <= j < old(nodes)@.len() ==> nodes@[j] == old(nodes)@[j],
            forall|j: int| old(nodes)@.len() <= j < nodes@.len() ==> nodes@[j] is None,
        decreases i + 1 - nodes@.len(),
    {
        proof {
            lemma_occupied_push_none(nodes@);
        }
        nodes.push(None);
    }
}

proof fn lemma_occupied_push_none(s: Seq<Option<Node>>)
    ensures
        s.push(None).filter(occupied()) == s.filter(occupied()),
{
    reveal(Seq::filter);
    assert(s.push(None).drop_last() =~= s);
}

/// Replacing an occupied arena slot by an occupied one, or emptying one,
/// changes the number of occupied slots accordingly.
pub(crate) proof fn lemma_occupied_set(s: Seq<Option<Node>>, i: int, v: Option<Node>)
    requires
        0 <= i < s.len(),
        s[i] is Some,
    ensures
        v is Some ==> s.update(i, v).filter(occupied()).len() == s.filter(occupied()).len(),
        v is None ==> s.update(i, v).filter(occupied()).len() + 1 == s.filter(occupied()).len(),
    decreases s.len(),
{
    reveal(Seq::filter);
    let u = s.update(i, v);
    if i == s.len() - 1 {
        assert(u.drop_last() =~= s.drop_last());
    } else {
        assert(u.drop_last() =~= s.drop_last().update(i, v));
        lemma_occupied_set(s.drop_last(), i, v);
    }
}

/// Filling an empty arena slot adds one to the number of occupied slots.
proof fn lemma_occupied_fill(s: Seq<Option<Node>>, i: int, v: Option<Node>)
    requires
        0 <= i < s.len(),
        s[i] is None,
        v is Some,
    ensures
        s.update(i, v).filter(occupied()).len() == s.filter(occupied()).len() + 1,
    decreases s.len(),
{
    reveal(Seq::filter);
    let u = s.update(i, v);
    if i == s.len() - 1 {
        assert(u.drop_last() =~= s.drop_last());
    } else {
        assert(u.drop_last() =~= s.drop_last().update(i, v));
        lemma_occupied_fill(s.drop_last(), i, v);
    }
}

/// Selects the occupied slots of the arena.
pub open spec fn occupied() -> spec_fn(Option<Node>) -> bool {
    |o: Option<Node>| o is Some
}

/// Give every texture output of `node` (at graph index `idx`) its texture:
/// an output that lost its id takes the id of the same slot before the
/// change, then the texture is allocated or resized as needed. Textures the
/// node owns in slots that no longer exist are released.
pub(crate) fn sync_output_textures(node: &mut Node, pool: &mut GPUResourcePool, idx: usize, old_outputs: &Vec<Value>)
    requires
        old(node).wf(),
        old(pool).wf(),
    ensures
        final(node).wf(),
        final(pool).wf(),
        final(node).signature == old(node).signature,
        final(node).operation == old(node).operation,
        final(node).incoming@ == old(node).incoming@,
        final(node).record.same_as(old(node).record),
        final(node).dirty == old(node).dirty,
        final(node).output_values@.len() == old(node).output_values@.len(),
        forall|k: int| 0 <= k < old(node).output_values@.len() ==> crate::value::type_of(
            #[trigger] final(node).output_values@[k],
        ) == crate::value::type_of(old(node).output_values@[k]),
        forall|k: int| 0 <= k < old(node).output_values@.len() && !(old(node).output_values@[k] is Texture)
            ==> #[trigger] final(node).output_values@[k] == old(node).output_values@[k],
        forall|k: int| #![trigger final(node).output_values@[k]] 0 <= k < old(node).output_values@.len()
            && old(node).output_values@[k] is Texture ==> ({
            let h0 = old(node).output_values@[k]->Texture_0;
            let h1 = final(node).output_values@[k]->Texture_0;
            &&& h1.width == h0.width && h1.height == h0.height && h1.fmt == h0.fmt
            &&& h0.id is Some ==> h1.id == h0.id
            &&& h0.id is None && k < old_outputs@.len() && old_outputs@[k] is Texture
                && old_outputs@[k]->Texture_0.id is Some ==> h1.id == old_outputs@[k]->Texture_0.id
            &&& h0.id is None && !(k < old_outputs@.len() && old_outputs@[k] is Texture
                && old_outputs@[k]->Texture_0.id is Some) && old(pool).next_id + old(node).output_values@.len()
                < u64::MAX ==> h1.id is Some
        }),
        forall|q: int| #![trigger old_outputs@[q]] old(node).output_values@.len() <= q < old_outputs@.len()
            && old_outputs@[q] is Texture && old_outputs@[q]->Texture_0.id is Some && owns(
            old(pool).entries@,
            old_outputs@[q]->Texture_0.id->Some_0,
            idx,
        ) ==> !has_id(final(pool).entries@, old_outputs@[q]->Texture_0.id->Some_0),
{
    let n = node.output_values.len();
    let mut slot: usize = 0;
    while slot < n
        invariant
            n == old(node).output_values@.len(),
            slot <= n,
            node.wf(),
            pool.wf(),
            node.signature == old(node).signature,
            node.operation == old(node).operation,
            node.incoming@ == old(node).incoming@,
            node.record.same_as(old(node).record),
            node.dirty == old(node).dirty,
            node.output_values@.len() == n,
            forall|k: int| 0 <= k < n ==> crate::value::type_of(#[trigger] node.output_values@[k])
                == crate::value::type_of(old(node).output_values@[k]),
            forall|k: int| slot <= k < n ==> #[trigger] node.output_values@[k] == old(node).output_values@[k],
            forall|x: TextureId, m: usize| #[trigger] owns(old(pool).entries@, x, m) ==> owns(pool.entries@, x, m),
            forall|k: int| 0 <= k < n && !(old(node).output_values@[k] is Texture)
                ==> #[trigger] node.output_values@[k] == old(node).output_values@[k],
            forall|k: int| #![trigger node.output_values@[k]] 0 <= k < slot
                && old(node).output_values@[k] is Texture ==> ({
                let h0 = old(node).output_values@[k]->Texture_0;
                let h1 = node.output_values@[k]->Texture_0;
                &&& node.output_values@[k] is Texture
                &&& h1.width == h0.width && h1.height == h0.height && h1.fmt == h0.fmt
                &&& h0.id is Some ==> h1.id == h0.id
                &&& h0.id is None && k < old_outputs@.len() && old_outputs@[k] is Texture
                    && old_outputs@[k]->Texture_0.id is Some ==> h1.id == old_outputs@[k]->Texture_0.id
                &&& h0.id is None && !(k < old_outputs@.len() && old_outputs@[k] is Texture
                    && old_outputs@[k]->Texture_0.id is Some) && old(pool).next_id + n < u64::MAX ==> h1.id is Some
            }),
            pool.next_id <= old(pool).next_id + slot,
        decreases n - slot,
    {
        let current = node.output_values[slot].duplicate();
        if let Value::Texture(h) = current {
            let mut handle = h;
            if handle.id.is_none() && slot < old_outputs.len() {
                if let Value::Texture(prev) = &old_outputs[slot] {
                    handle.id = prev.id;
                }
            }
            pool.ensure_texture(&mut handle, TextureOwner::Node(idx));
            node.output_values.set(slot, Value::Texture(handle));
        }
        slot = slot + 1;
    }
    let ghost p1 = pool.entries@;
    let mut k: usize = n;
    while k < old_outputs.len()
        invariant
            pool.wf(),
            n <= k,
            forall|x: TextureId| #[trigger] owns(p1, x, idx) ==> owns(pool.entries@, x, idx) || !has_id(pool.entries@, x),
            forall|q: int| #![trigger old_outputs@[q]] n <= q < k && old_outputs@[q] is Texture && old_outputs@[q]->Texture_0.id is Some
                && owns(p1, old_outputs@[q]->Texture_0.id->Some_0, idx) ==> !has_id(
                pool.entries@,
                old_outputs@[q]->Texture_0.id->Some_0,
            ),
        decreases old_outputs@.len() - k,
    {
        let ghost before = pool.entries@;
        if let Value::Texture(h) = &old_outputs[k] {
            if let Some(id) = h.id {
                if let Some(e) = pool.get_texture(id) {
                    proof {
                        let i = choose|i: int| 0 <= i < before.len() && before[i] == e;
                        if owns(before, id, idx) {
                            let j = choose|j: int| #[trigger] index_of(before, id, j) && owned_by(before[j], idx);
                            if i != j {
                                if i < j {
                                    assert(before[i].id != before[j].id);
                                } else {
                                    assert(before[j].id != before[i].id);
                                }
                            }
                        }
                    }
                    if e.owner == TextureOwner::Node(idx) {
                        pool.release_texture(id);
                        proof {
                            assert forall|x: TextureId| #[trigger] owns(p1, x, idx) implies owns(pool.entries@, x, idx)
                                || !has_id(pool.entries@, x) by {
                                if x != id && owns(before, x, idx) {
                                    assert(owns(pool.entries@, x, idx));
                                }
                            }
                        }
                    }
                }
            }
        }
        k = k + 1;
    }
}

impl Engine {
    /// Take the node at `i` out of the arena (its slot is left empty).
    pub(crate) fn take_node(&mut self, i: usize) -> (r: Node)
        requires
            old(self).live(i),
        ensures
            r == old(self).node_at(i),
            final(self).nodes@ == old(self).nodes@.update(i as int, None),
            final(self).graph == old(self).graph,
            final(self).textures == old(self).textures,
            final(self).registry@ == old(self).registry@,
            final(self).history == old(self).history,
            final(self).messages@ == old(self).messages@,
            final(self).last_id == old(self).last_id,
    {
        let mut slot: Option<Node> = None;
        self.nodes.set_and_swap(i, &mut slot);
        slot.unwrap()
    }

    /// Put `n` into the arena at `i`.
    pub(crate) fn put_node(&mut self, i: usize, n: Node)
        requires
            i < old(self).nodes@.len(),
        ensures
            final(self).nodes@ == old(self).nodes@.update(i as int, Some(n)),
            final(self).graph == old(self).graph,
            final(self).textures == old(self).textures,
            final(self).registry@ == old(self).registry@,
            final(self).history == old(self).history,
            final(self).messages@ == old(self).messages@,
            final(self).last_id == old(self).last_id,
    {
        self.nodes.set(i, Some(n));
    }

    /// Whether a node lives at `i`.
    pub fn contains_node(&self, i: usize) -> (r: bool)
        ensures
            r == self.live(i),
    {
        i < self.nodes.len() && self.nodes[i].is_some()
    }

    /// Create a node from an operation: declare and configure its signature,
    /// allocate its texture outputs, and report `CreateNode`. Fails, changing
    /// nothing, only when the index space is exhausted.
    pub fn add_node(&mut self, operation: Operation) -> (r: Result<usize, Error>)
        requires
            old(self).wf(),
        ensures
            final(self).wf(),
            r is Err ==> (r matches Err(Error::CapacityExceeded)),
            old(self).last_id < u64::MAX && graph_nodes(old(self).graph).len() < u32::MAX ==> r is Ok,
            r is Err ==> final(self).history == old(self).history,
            r is Err ==> graph_nodes(final(self).graph) == graph_nodes(old(self).graph)
                && final(self).edges() == old(self).edges() && final(self).nodes@ == old(
                self,
            ).nodes@ && final(self).messages@ == old(self).messages@,
            r matches Ok(i) ==> {
                &&& !old(self).live(i)
                &&& final(self).live(i)
                &&& forall|j: usize| j != i && #[trigger] final(self).live(j) ==> final(self).node_at(j).record.id.0
                    < final(self).node_at(i).record.id.0
                &&& graph_nodes(final(self).graph) == graph_nodes(old(self).graph).insert(i)
                &&& final(self).edges() == old(self).edges()
                &&& forall|j: usize| j != i && #[trigger] old(self).live(j) ==> final(self).live(j)
                    && final(self).node_at(j) == old(self).node_at(j)
                &&& !final(self).node_at(i).dirty
                &&& final(self).last_id == old(self).last_id + 1
                &&& final(self).node_at(i).record.id == NodeId((old(self).last_id + 1) as u64)
                &&& final(self).node_at(i).record.label is None
                &&& final(self).node_at(i).record.op_path.library@ == crate::ops::op_library(operation)
                &&& final(self).node_at(i).record.op_path.operator@ == crate::ops::op_operator(operation)
                &&& final(self).nodes@.filter(occupied()).len() == old(self).nodes@.filter(occupied()).len() + 1
                &&& final(self).node_at(i).record.position == (0u32, 0u32)
                &&& exists|reg: crate::signature::SignatureRegistery| #[trigger] setup_shape(operation, reg)
                    && are_defaults(final(self).node_at(i).record.config_values@, reg.config@)
                    && configure_shape(
                    operation,
                    final(self).node_at(i).record.config_values@,
                    true,
                    final(self).node_at(i).operation,
                    reg,
                    final(self).node_at(i).signature,
                )
                &&& forall|k: int| 0 <= k < final(self).node_at(i).incoming@.len()
                    ==> (#[trigger] final(self).node_at(i).incoming@[k]) is None
                &&& forall|k: int| 0 <= k < final(self).node_at(i).output_values@.len() && !(
                    final(self).node_at(i).output_values@[k] is Texture) ==> is_slot_default(
                    #[trigger] final(self).node_at(i).output_values@[k],
                    final(self).node_at(i).signature.outputs@[k],
                )
                &&& exists|rec: crate::node::NodeRecord| #[trigger] rec.same_as(final(self).node_at(i).record)
                    && final(self).messages@ == reported(
                    old(self).messages@,
                    Mutation::CreateNode { idx: i, record: rec },
                ) && exists|h: Mutation| same_mutation(h, Mutation::CreateNode { idx: i, record: rec })
                    && #[trigger] final(self).history.undo_stack@ == pushed(
                    old(self).history.undo_stack@,
                    h,
                    old(self).history.max_size as nat,
                )
            },
    {
        if self.last_id == u64::MAX {
            return Err(Error::CapacityExceeded);
        }
        let id = self.last_id + 1;
        let mut node = Node::new(operation, NodeId(id));
        node.setup()?;
        proof {
            assert(crate::slot::is_slot_default(node.record.config_values@[0], node.signature.config@[0])
                || node.signature.config@.len() == 0);
        }
        let ghost setup_node = node;
        node.configure()?;
        let i = match topology_add_node(&mut self.graph) {
            Some(i) => i,
            None => return Err(Error::CapacityExceeded),
        };
        self.last_id = id;
        let ghost nodes0 = self.nodes@;
        grow_arena(&mut self.nodes, i);
        let empty: Vec<Value> = Vec::new();
        sync_output_textures(&mut node, &mut self.textures, i, &empty);
        let record = node.record.duplicate();
        let ghost gnode = node;
        let ghost before_put = self.nodes@;
        self.put_node(i, node);
        proof {
            lemma_occupied_fill(before_put, i as int, Some(gnode));
        }
        proof {
            assert forall|j: usize| #[trigger] graph_nodes(self.graph).contains(j) <==> self.live(j) by {
                if j != i {
                    assert(graph_nodes(old(self).graph).contains(j) <==> old(self).live(j));
                    if (j as int) < nodes0.len() {
                        assert(self.nodes@[j as int] == nodes0[j as int]);
                    }
                }
            }
            assert forall|j: int| 0 <= j < self.nodes@.len() && (#[trigger] self.nodes@[j]) is Some
                implies self.nodes@[j]->Some_0.wf() by {
                if j != i && j < nodes0.len() {
                    assert(self.nodes@[j] == nodes0[j]);
                }
            }
            assert forall|j: usize| j != i && #[trigger] old(self).live(j) implies self.live(j)
                && self.node_at(j) == old(self).node_at(j) by {
                assert(self.nodes@[j as int] == nodes0[j as int]);
            }
        }
        let ghost rec = record;
        self.emit_mutation(Mutation::CreateNode { idx: i, record });
        proof {
            assert(setup_shape(operation, setup_node.signature));
            assert(rec.same_as(self.node_at(i).record));
        }
        Ok(i)
    }

    /// Create a node of the registered operator `library/name`.
    pub fn instance_node(&mut self, library: &str, name: &str) -> (r: Result<usize, Error>)
        requires
            old(self).wf(),
        ensures
            final(self).wf(),
            (!exists|k: int| 0 <= k < old(self).registry@.len() && old(self).registry@[k].library@
                == library@ && #[trigger] old(self).registry@[k].operator@ == name@) ==> (r matches Err(
                Error::UnknownOperationType(p),
            ) && p@ == library@ + "/"@ + name@),
            (exists|k: int| 0 <= k < old(self).registry@.len() && old(self).registry@[k].library@
                == library@ && #[trigger] old(self).registry@[k].operator@ == name@) ==> (r is Ok || r matches Err(
                Error::CapacityExceeded,
            )),
            (exists|k: int| 0 <= k < old(self).registry@.len() && old(self).registry@[k].library@
                == library@ && #[trigger] old(self).registry@[k].operator@ == name@) && old(self).last_id
                < u64::MAX && graph_nodes(old(self).graph).len() < u32::MAX ==> r is Ok,
            r is Err ==> final(self).history == old(self).history,
            r is Err ==> graph_nodes(final(self).graph) == graph_nodes(old(self).graph)
                && final(self).edges() == old(self).edges() && final(self).nodes@ == old(
                self,
            ).nodes@ && final(self).messages@ == old(self).messages@,
            r matches Ok(i) ==> final(self).node_at(i).record.op_path.library@ == library@
                && final(self).node_at(i).record.op_path.operator@ == name@
                && final(self).nodes@.filter(occupied()).len() == old(self).nodes@.filter(occupied()).len() + 1,
            r matches Ok(i) ==> !old(self).live(i) && final(self).live(i) && graph_nodes(
                final(self).graph,
            ) == graph_nodes(old(self).graph).insert(i),
    {
        match self.lookup(library, name) {
            Some(kind) => {
                let op = kind.build();
                proof {
                    let i = choose|i: int| 0 <= i < self.registry@.len() && self.registry@[i].library@ == library@
                        && #[trigger] self.registry@[i].operator@ == name@ && self.registry@[i].kind == kind;
                    assert(self.registry@[i].library@ == kind.library());
                    assert(crate::ops::op_library(op) == kind.library());
                    assert(crate::ops::op_operator(op) == kind.operator());
                }
                self.add_node(op)
            },
            None => {
                let mut p = library.to_owned();
                p.append("/");
                p.append(name);
                Err(Error::UnknownOperationType(p))
            },
        }
    }

    /// Number of live nodes.
    pub fn node_count(&self) -> (r: usize)
        requires
            self.wf(),
        ensures
            r == self.nodes@.filter(occupied()).len(),
    {
        let mut c: usize = 0;
        let mut i: usize = 0;
        while i < self.nodes.len()
            invariant
                i <= self.nodes@.len(),
                c == self.nodes@.subrange(0, i as int).filter(occupied()).len(),
                c <= i,
            decreases self.nodes@.len() - i,
        {
            proof {
                reveal(Seq::filter);
                let next = self.nodes@.subrange(0, i + 1);
                assert(next.drop_last() =~= self.nodes@.subrange(0, i as int));
                assert(next.last() == self.nodes@[i as int]);
                self.nodes@.subrange(0, i as int).lemma_filter_len(occupied());
            }
            if self.nodes[i].is_some() {
                c = c + 1;
            }
            i = i + 1;
        }
        proof {
            assert(self.nodes@.subrange(0, self.nodes@.len() as int) =~= self.nodes@);
        }
        c
    }

    /// Number of edges.
    pub fn edge_count(&self) -> (r: usize)
        ensures
            r == self.edges().len(),
    {
        topology_edge_count(&self.graph)
    }

    /// The node at `index`, if one lives there.
    pub fn get_node(&self, index: usize) -> (r: Option<&Node>)
        ensures
            self.live(index) ==> r == Some(&self.node_at(index)),
            !self.live(index) ==> r is None,
    {
        if index < self.nodes.len() {
            match &self.nodes[index] {
                Some(n) => Some(n),
                None => None,
            }
        } else {
            None
        }
    }

    /// The operation of the node at `index`, if one lives there.
    pub fn operation(&self, index: usize) -> (r: Option<&Operation>)
        ensures
            self.live(index) ==> r == Some(&self.node_at(index).operation),
            !self.live(index) ==> r is None,
    {
        match self.get_node(index) {
            Some(n) => Some(&n.operation),
            None => None,
        }
    }
}

/// Replacing one live node by a consistent one keeps the engine consistent.
pub(crate) proof fn lemma_replace_node(a: Engine, b: Engine, i: usize, n: Node)
    requires
        a.wf(),
        a.live(i),
        n.wf(),
        n.record.id == a.node_at(i).record.id,
        b.last_id == a.last_id,
        b.registry@ == a.registry@,
        b.nodes@ == a.nodes@.update(i as int, Some(n)),
        b.graph == a.graph,
        b.textures.wf(),
    ensures
        b.wf(),
        forall|j: usize| #[trigger] b.live(j) == a.live(j),
{
    assert forall|j: usize| #[trigger] graph_nodes(b.graph).contains(j) <==> b.live(j) by {
        assert(graph_nodes(a.graph).contains(j) <==> a.live(j));
    }
}

impl Engine {
    /// Upload pixels into texture output `slot` of a node: the slot's old
    /// texture is released if the node owns it (shared system textures stay),
    /// the handle takes the new size, and a texture owned by the node is
    /// allocated with the data. Reports `GraphDirtied`.
    pub fn upload_texture(
        &mut self,
        index: usize,
        slot: usize,
        width: u32,
        height: u32,
        data: Vec<u8>,
    ) -> (r: Result<(), Error>)
        requires
            old(self).wf(),
        ensures
            final(self).wf(),
            !old(self).live(index) ==> (r matches Err(Error::NodeNotFound(n)) && n == index),
            old(self).live(index) && slot >= old(self).node_at(index).output_values@.len() ==> (r matches Err(
                Error::NoOutputSlot(s),
            ) && s == slot),
            old(self).live(index) && slot < old(self).node_at(index).output_values@.len() && !(old(
                self,
            ).node_at(index).output_values@[slot as int] is Texture) ==> (r matches Err(Error::Script(_))),
            r is Err ==> *final(self) == *old(self),
            old(self).live(index) && slot < old(self).node_at(index).output_values@.len() && old(
                self,
            ).node_at(index).output_values@[slot as int] is Texture ==> r is Ok,
            r is Ok ==> (final(self).node_at(index).output_values@[slot as int] matches Value::Texture(h)
                && h.width == width && h.height == height),
            r is Ok ==> ({
                let h0 = old(self).node_at(index).output_values@[slot as int]->Texture_0;
                let pool = old(self).textures;
                let owned = h0.id is Some && owns(pool.entries@, h0.id->Some_0, index);
                let kept = if owned { pool.entries@.filter(id_other_than(h0.id->Some_0)) } else { pool.entries@ };
                let cmds = if owned {
                    pool.commands@.push(GpuCommand::Release { id: h0.id->Some_0 })
                } else {
                    pool.commands@
                };
                let id = TextureId(pool.next_id);
                pool.next_id < u64::MAX ==> {
                    &&& final(self).node_at(index).output_values@[slot as int] == Value::Texture(
                        TextureHandle { id: Some(id), width, height, fmt: h0.fmt },
                    )
                    &&& final(self).textures.entries@ == kept.push(
                        TextureEntry { id, width, height, fmt: h0.fmt, owner: TextureOwner::Node(index) },
                    )
                    &&& final(self).textures.commands@ == cmds.push(
                        GpuCommand::Create { id, width, height, fmt: h0.fmt, data: Some(data) },
                    )
                }
            }),
            r is Ok ==> final(self).messages@ == old(self).messages@.push(Message::Event(Event::GraphDirtied)),
            final(self).graph == old(self).graph,
    {
        if !self.contains_node(index) {
            return Err(Error::NodeNotFound(index));
        }
        let handle = match &self.nodes[index] {
            Some(node) => {
                if slot >= node.output_values.len() {
                    return Err(Error::NoOutputSlot(slot));
                }
                match &node.output_values[slot] {
                    Value::Texture(h) => *h,
                    _ => {
                        return Err(Error::Script(crate::error::ScriptError::new("Output is not a texture".to_owned())));
                    },
                }
            },
            None => return Err(Error::NodeNotFound(index)),
        };
        let ghost before = *self;
        if let Some(old_id) = handle.id {
            if let Some(e) = self.textures.get_texture(old_id) {
                proof {
                    let i = choose|i: int| 0 <= i < before.textures.entries@.len() && before.textures.entries@[i] == e;
                    assert(index_of(before.textures.entries@, old_id, i));
                    if owns(before.textures.entries@, old_id, index) {
                        let j = choose|j: int| #[trigger] index_of(before.textures.entries@, old_id, j)
                            && owned_by(before.textures.entries@[j], index);
                        if i != j {
                            if i < j {
                                assert(before.textures.entries@[i].id != before.textures.entries@[j].id);
                            } else {
                                assert(before.textures.entries@[j].id != before.textures.entries@[i].id);
                            }
                        }
                    }
                }
                if e.owner == TextureOwner::Node(index) {
                    self.textures.release_texture(old_id);
                }
            } else {
                proof {
                    if owns(before.textures.entries@, old_id, index) {
                        let j = choose|j: int| #[trigger] index_of(before.textures.entries@, old_id, j)
                            && owned_by(before.textures.entries@[j], index);
                    }
                }
            }
        }
        let mut h = handle;
        h.width = width;
        h.height = height;
        h.id = self.textures.alloc_texture(&h, TextureOwner::Node(index), Some(data));
        let ghost mid = *self;
        proof {
            assert(mid.nodes@[index as int] is Some);
        }
        let mut node = self.take_node(index);
        node.output_values.set(slot, Value::Texture(h));
        let ghost gnode = node;
        self.put_node(index, node);
        proof {
            assert(self.nodes@ =~= mid.nodes@.update(index as int, Some(gnode)));
            assert forall|j: usize| #[trigger] graph_nodes(mid.graph).contains(j) <==> mid.live(j) by {
                assert(graph_nodes(before.graph).contains(j) <==> before.live(j));
            }
            lemma_replace_node(mid, *self, index, gnode);
        }
        self.emit_event(Event::GraphDirtied);
        Ok(())
    }

    /// The pool entry behind a texture handle, if it is allocated and live.
    pub fn get_texture(&self, handle: &TextureHandle) -> (r: Option<crate::gpu_pool::TextureEntry>)
        ensures
            handle.id is None ==> r is None,
            r matches Some(e) ==> handle.id == Some(e.id) && self.textures.entries@.contains(e),
            handle.id is Some && crate::gpu_pool::has_id(self.textures.entries@, handle.id->Some_0) ==> (r matches Some(
                e,
            ) && e.id == handle.id->Some_0),
    {
        match handle.id {
            Some(id) => self.textures.get_texture(id),
            None => None,
        }
    }

    /// Take the last edit off the history and return its inverse, for the
    /// caller to apply; the edit is kept for `redo`.
    pub fn undo(&mut self) -> (r: Option<Mutation>)
        ensures
            old(self).history.undo_stack@.len() == 0 ==> r is None,
            old(self).history.undo_stack@.len() > 0 ==> (r matches Some(m) && same_mutation(
                m,
                crate::history::inverse_of(old(self).history.undo_stack@.last()),
            )),
            final(self).same_state(*old(self)),
            final(self).messages@ == old(self).messages@,
    {
        self.history.undo()
    }

    /// Take the last undone edit off the history and return it, for the
    /// caller to re-apply.
    pub fn redo(&mut self) -> (r: Option<Mutation>)
        ensures
            old(self).history.redo_stack@.len() == 0 ==> r is None,
            old(self).history.redo_stack@.len() > 0 ==> (r matches Some(m) && same_mutation(
                m,
                old(self).history.redo_stack@.last(),
            )),
            final(self).same_state(*old(self)),
            final(self).messages@ == old(self).messages@,
    {
        self.history.redo()
    }

    pub fn can_undo(&self) -> (r: bool)
        ensures
            r == (self.history.undo_stack@.len() > 0),
    {
        self.history.can_undo()
    }

    pub fn can_redo(&self) -> (r: bool)
        ensures
            r == (self.history.redo_stack@.len() > 0),
    {
        self.history.can_redo()
    }

    /// The libraries of the registered operators, each once, in order of
    /// first registration.
    pub fn node_categories(&self) -> (r: Vec<String>)
        ensures
            r@.map_values(|x: String| x@) == libraries_of(self.registry@),
    {
        let mut r: Vec<String> = Vec::new();
        let mut i: usize = 0;
        while i < self.registry.len()
            invariant
                i <= self.registry@.len(),
                r@.map_values(|x: String| x@) == libraries_of(self.registry@.subrange(0, i as int)),
            decreases self.registry@.len() - i,
        {
            proof {
                assert(self.registry@.subrange(0, i + 1).drop_last() =~= self.registry@.subrange(0, i as int));
            }
            let lib = &self.registry[i].library;
            let ghost seen_view = r@.map_values(|x: String| x@);
            let mut seen = false;
            let mut k: usize = 0;
            while k < r.len()
                invariant
                    k <= r@.len(),
                    seen_view == r@.map_values(|x: String| x@),
                    seen == seen_view.subrange(0, k as int).contains(lib@),
                decreases r@.len() - k,
            {
                let ghost pre = seen_view.subrange(0, k as int);
                let ghost next = seen_view.subrange(0, k + 1);
                proof {
                    assert(next =~= pre.push(seen_view[k as int]));
                    assert(seen_view[k as int] == r@[k as int]@);
                    if seen_view[k as int] == lib@ {
                        assert(next[k as int] == lib@);
                    }
                    if next.contains(lib@) && seen_view[k as int] != lib@ {
                        let x = choose|x: int| 0 <= x < next.len() && next[x] == lib@;
                        assert(pre[x] == lib@);
                    }
                    if pre.contains(lib@) {
                        let x = choose|x: int| 0 <= x < pre.len() && pre[x] == lib@;
                        assert(next[x] == lib@);
                    }
                }
                if r[k] == *lib {
                    seen = true;
                }
                k = k + 1;
            }
            proof {
                assert(seen_view.subrange(0, r@.len() as int) =~= seen_view);
            }
            if !seen {
                r.push(lib.clone());
                proof {
                    assert(r@.map_values(|x: String| x@) =~= seen_view.push(lib@));
                }
            }
            i = i + 1;
        }
        proof {
            assert(self.registry@.subrange(0, self.registry@.len() as int) =~= self.registry@);
        }
        r
    }

    /// The operators registered under `category`, in registration order.
    pub fn iter_category(&self, category: &str) -> (r: Vec<String>)
        ensures
            r@.map_values(|x: String| x@) == operators_in(self.registry@, category@),
    {
        let wanted = category.to_owned();
        let mut r: Vec<String> = Vec::new();
        let mut i: usize = 0;
        while i < self.registry.len()
            invariant
                i <= self.registry@.len(),
                wanted@ == category@,
                r@.map_values(|x: String| x@) == operators_in(self.registry@.subrange(0, i as int), category@),
            decreases self.registry@.len() - i,
        {
            proof {
                assert(self.registry@.subrange(0, i + 1).drop_last() =~= self.registry@.subrange(0, i as int));
            }
            if self.registry[i].library == wanted {
                let ghost before = r@;
                r.push(self.registry[i].operator.clone());
                proof {
                    assert(r@.map_values(|x: String| x@) =~= before.map_values(|x: String| x@).push(
                        self.registry@[i as int].operator@,
                    ));
                }
            }
            i = i + 1;
        }
        proof {
            assert(self.registry@.subrange(0, self.registry@.len() as int) =~= self.registry@);
        }
        r
    }
}

/// The libraries of `reg`, each once, in order of first appearance.
pub open spec fn libraries_of(reg: Seq<OperatorEntry>) -> Seq<Seq<char>>
    decreases reg.len(),
{
    if reg.len() == 0 {
        Seq::empty()
    } else {
        let prev = libraries_of(reg.drop_last());
        if prev.contains(reg.last().library@) {
            prev
        } else {
            prev.push(reg.last().library@)
        }
    }
}

/// The operator names of the entries of `reg` in library `cat`, in order.
pub open spec fn operators_in(reg: Seq<OperatorEntry>, cat: Seq<char>) -> Seq<Seq<char>>
    decreases reg.len(),
{
    if reg.len() == 0 {
        Seq::empty()
    } else {
        let prev = operators_in(reg.drop_last(), cat);
        if reg.last().library@ == cat {
            prev.push(reg.last().operator@)
        } else {
            prev
        }
    }
}

} // verus!
