//! Running the graph in dependency order and reading its results.

use vstd::prelude::*;
use crate::history::{Event, Message};
use crate::node::Node;
use crate::ops::{ArithOp, Input, Operation, Output, can_execute, executed};
use crate::topology::{EdgeEnds, graph_nodes, is_topological, topology_edges, topology_sort};
use crate::value::Value;
use crate::engine::{Engine, lemma_replace_node, reported};

verus! {
/// `a` is `b` but for the values buffered at its inputs.
pub open spec fn same_but_incoming(a: Node, b: Node) -> bool {
    &&& a.signature == b.signature
    &&& a.operation == b.operation
    &&& a.output_values@ == b.output_values@
    &&& a.record.same_as(b.record)
    &&& a.dirty == b.dirty
    &&& a.incoming@.len() == b.incoming@.len()
}

/// Where both slots exist, the edge's target input holds a copy of its
/// source's output.
pub open spec fn delivered(e: Engine, ends: EdgeEnds) -> bool {
    ends.2 < e.node_at(ends.0).output_values@.len() && ends.3 < e.node_at(ends.1).incoming@.len()
        ==> e.node_at(ends.1).incoming@[ends.3 as int] == Some(
        e.node_at(ends.0).output_values@[ends.2 as int],
    )
}

/// `after` is node `before` once it has run: where its operation can run on
/// the inputs it presents, the outputs are what the operation computes and
/// the node is clean; otherwise outputs and dirty state are as they were.
pub open spec fn ran<F: Fn(ArithOp, u32, u32) -> u32>(before: Node, after: Node, eval: F) -> bool {
    let ins = crate::node::effective_inputs(after);
    &&& after.operation == before.operation
    &&& after.signature == before.signature
    &&& after.record.same_as(before.record)
    &&& if can_execute(before.operation, ins, before.output_values@) {
        executed(before.operation, ins, before.output_values@, after.output_values@, eval) && !after.dirty
    } else {
        after.output_values@ == before.output_values@ && after.dirty == before.dirty
    }
}

proof fn lemma_effective_inputs_eq(a: Node, b: Node)
    requires
        a.incoming@ == b.incoming@,
        a.record.input_values@ == b.record.input_values@,
    ensures
        crate::node::effective_inputs(a) == crate::node::effective_inputs(b),
{
    assert(crate::node::effective_inputs(a) =~= crate::node::effective_inputs(b));
}

/// In a topological order every edge runs forward.
proof fn lemma_edge_forward(order: Seq<usize>, nodes: Set<usize>, edges: Map<usize, EdgeEnds>, x: usize, i: int, j: int)
    requires
        is_topological(order, nodes, edges),
        edges.contains_key(x),
        0 <= i < order.len(),
        0 <= j < order.len(),
        order[i] == edges[x].0,
        order[j] == edges[x].1,
    ensures
        i < j,
{
    let (a, b) = choose|a: int, b: int| 0 <= a < b < order.len() && order[a] == edges[x].0 && order[b] == edges[x].1;
    assert(a == i);
    assert(b == j);
}

/// One `NodeExecuted` per node of `order`, in order.
pub open spec fn executed_messages(order: Seq<usize>) -> Seq<Message> {
    Seq::new(order.len(), |i: int| Message::Event(Event::NodeExecuted { node: order[i] }))
}

/// The values that the inputs 0 of the nodes at `idx` present, skipping
/// nodes that are missing or have no input.
pub open spec fn recorded(e: Engine, idx: Seq<usize>) -> Seq<Value>
    decreases idx.len(),
{
    if idx.len() == 0 {
        Seq::empty()
    } else {
        let prev = recorded(e, idx.drop_last());
        let n = idx.last();
        if e.live(n) && e.node_at(n).signature.inputs@.len() > 0 {
            prev.push(crate::node::effective_input(e.node_at(n), 0))
        } else {
            prev
        }
    }
}

/// Whether an arena slot holds an `Output` node.
pub open spec fn is_output_slot(o: Option<Node>) -> bool {
    o matches Some(n) && n.operation is Output
}

/// Whether an arena slot holds an `Input` node.
pub open spec fn is_input_slot(o: Option<Node>) -> bool {
    o matches Some(n) && n.operation is Input
}

/// The arena indices whose slots satisfy `p`, in increasing order.
pub open spec fn positions(nodes: Seq<Option<Node>>, p: spec_fn(Option<Node>) -> bool) -> Seq<usize>
    decreases nodes.len(),
{
    if nodes.len() == 0 {
        Seq::empty()
    } else {
        let prev = positions(nodes.drop_last(), p);
        if p(nodes.last()) {
            prev.push((nodes.len() - 1) as usize)
        } else {
            prev
        }
    }
}

/// The positions found in a prefix are the first positions found in the
/// whole.
proof fn lemma_positions_extend(nodes: Seq<Option<Node>>, p: spec_fn(Option<Node>) -> bool, a: int)
    requires
        0 <= a <= nodes.len(),
    ensures
        positions(nodes.subrange(0, a), p).len() <= positions(nodes, p).len(),
        forall|j: int| 0 <= j < positions(nodes.subrange(0, a), p).len() ==> #[trigger] positions(nodes, p)[j]
            == positions(nodes.subrange(0, a), p)[j],
    decreases nodes.len(),
{
    if a == nodes.len() {
        assert(nodes.subrange(0, a) =~= nodes);
    } else {
        assert(nodes.drop_last().subrange(0, a) =~= nodes.subrange(0, a));
        lemma_positions_extend(nodes.drop_last(), p, a);
    }
}

/// Selects the arena slots holding an `Output` node.
pub open spec fn output_sel() -> spec_fn(Option<Node>) -> bool {
    |o: Option<Node>| is_output_slot(o)
}

/// Selects the arena slots holding an `Input` node.
pub open spec fn input_sel() -> spec_fn(Option<Node>) -> bool {
    |o: Option<Node>| is_input_slot(o)
}

impl Engine {
    /// Run the graph in topological order: each node executes, is reported
    /// with `NodeExecuted`, and pushes each output into the inputs its edges
    /// feed. A failing node keeps its previous outputs and stays dirty; the
    /// pass goes on. Every node runs exactly once, after all its upstream
    /// nodes; the pass is bracketed by `ExecutionStarted` and
    /// `ExecutionCompleted`.
    pub fn execute<F: Fn(ArithOp, u32, u32) -> u32>(&mut self, eval: &F)
        requires
            old(self).wf(),
            forall|o: ArithOp, a: u32, b: u32| eval.requires((o, a, b)),
        ensures
            final(self).wf(),
            final(self).graph == old(self).graph,
            forall|j: usize| #[trigger] final(self).live(j) == old(self).live(j),
            exists|order: Seq<usize>| #[trigger] is_topological(
                order,
                graph_nodes(old(self).graph),
                old(self).edges(),
            ) && final(self).messages@ == old(self).messages@.push(
                Message::Event(Event::ExecutionStarted),
            ) + executed_messages(order) + seq![Message::Event(Event::ExecutionCompleted)],
            forall|x: usize| #[trigger] old(self).edges().contains_key(x) ==> delivered(
                *final(self),
                old(self).edges()[x],
            ),
            forall|n: usize| #[trigger] old(self).live(n) ==> ran(old(self).node_at(n), final(self).node_at(n), *eval),
            final(self).history == old(self).history,
    {
        let ghost e0 = *self;
        self.emit_event(Event::ExecutionStarted);
        let ghost m1 = self.messages@;
        let sorted = topology_sort(&self.graph);
        if let Some(order) = sorted {
            let mut k: usize = 0;
            while k < order.len()
                invariant
                    self.wf(),
                    self.graph == e0.graph,
                    forall|j: usize| #[trigger] self.live(j) == e0.live(j),
                    k <= order@.len(),
                    is_topological(order@, graph_nodes(e0.graph), e0.edges()),
                    self.messages@ == m1 + executed_messages(order@.subrange(0, k as int)),
                    self.history == e0.history,
                    forall|o: ArithOp, a: u32, b: u32| eval.requires((o, a, b)),
                    e0.wf(),
                    forall|x: usize| #[trigger] e0.edges().contains_key(x) && (exists|i: int|
                        0 <= i < k && #[trigger] order@[i] == e0.edges()[x].0) ==> delivered(
                        *self,
                        e0.edges()[x],
                    ),
                    forall|i: int| k <= i < order@.len() ==> same_but_incoming(
                        self.node_at(#[trigger] order@[i]),
                        e0.node_at(order@[i]),
                    ),
                    forall|i: int| 0 <= i < k ==> ran(e0.node_at(#[trigger] order@[i]), self.node_at(order@[i]), *eval),
                decreases order@.len() - k,
            {
                let n = order[k];
                proof {
                    assert(order@.to_set().contains(n)) by {
                        assert(order@.contains(n));
                    }
                    assert(graph_nodes(self.graph).contains(n));
                }
                let ghost before = *self;
                let mut node = self.take_node(n);
                proof {
                    assert(before.nodes@[n as int] is Some);
                }
                let _ = node.execute(eval);
                let ghost gnode = node;
                self.put_node(n, node);
                proof {
                    assert(self.nodes@ =~= before.nodes@.update(n as int, Some(gnode)));
                    lemma_replace_node(before, *self, n, gnode);
                }
                let ghost s1 = *self;
                proof {
                    assert(same_but_incoming(before.node_at(n), e0.node_at(n)));
                    lemma_effective_inputs_eq(gnode, before.node_at(n));
                    assert(ran(e0.node_at(n), s1.node_at(n), *eval));
                    assert forall|i: int| k < i < order@.len() implies same_but_incoming(
                        s1.node_at(#[trigger] order@[i]),
                        e0.node_at(order@[i]),
                    ) by {
                        assert(order@[i] != order@[k as int]);
                        assert(order@.contains(order@[i]));
                        assert(graph_nodes(e0.graph).contains(order@[i]));
                        assert(before.live(order@[i]));
                        assert(s1.nodes@[order@[i] as int] == before.nodes@[order@[i] as int]);
                        assert(same_but_incoming(before.node_at(order@[i]), e0.node_at(order@[i])));
                    }
                    assert forall|i: int| 0 <= i < k implies ran(e0.node_at(#[trigger] order@[i]), s1.node_at(order@[i]), *eval) by {
                        assert(order@[i] != order@[k as int]);
                        assert(order@.contains(order@[i]));
                        assert(graph_nodes(e0.graph).contains(order@[i]));
                        assert(before.live(order@[i]));
                        assert(s1.nodes@[order@[i] as int] == before.nodes@[order@[i] as int]);
                        assert(ran(e0.node_at(order@[i]), before.node_at(order@[i]), *eval));
                    }
                    assert forall|x: usize| #[trigger] e0.edges().contains_key(x) && (exists|i: int|
                        0 <= i < k && #[trigger] order@[i] == e0.edges()[x].0) implies delivered(
                        s1,
                        e0.edges()[x],
                    ) by {
                        let i = choose|i: int| 0 <= i < k && #[trigger] order@[i] == e0.edges()[x].0;
                        assert(order@[i] != order@[k as int]);
                        assert(delivered(before, e0.edges()[x]));
                    }
                }
                self.emit_event(Event::NodeExecuted { node: n });
                let ghost s2 = *self;
                self.propagate(n);
                proof {
                    assert forall|x: usize| #[trigger] e0.edges().contains_key(x) && (exists|i: int|
                        0 <= i < k + 1 && #[trigger] order@[i] == e0.edges()[x].0) implies delivered(
                        *self,
                        e0.edges()[x],
                    ) by {
                        let d = e0.edges()[x];
                        assert(s2.edges().contains_key(x));
                        if d.0 != n {
                            let i = choose|i: int| 0 <= i < k + 1 && #[trigger] order@[i] == d.0;
                            assert(i != k);
                            assert(delivered(s1, d));
                            assert(graph_nodes(e0.graph).contains(d.0) && graph_nodes(e0.graph).contains(d.1));
                            assert(s2.live(d.0) && s2.live(d.1));
                            assert(same_but_incoming(self.node_at(d.0), s2.node_at(d.0)));
                            assert(same_but_incoming(self.node_at(d.1), s2.node_at(d.1)));
                            if d.2 < self.node_at(d.0).output_values@.len() && d.3 < self.node_at(d.1).incoming@.len() {
                                if self.node_at(d.1).incoming@[d.3 as int] != s2.node_at(d.1).incoming@[d.3 as int] {
                                    let y = choose|y: usize| #[trigger] s2.edges().contains_key(y)
                                        && s2.edges()[y].0 == n && s2.edges()[y].1 == d.1 && s2.edges()[y].3 == d.3 as int;
                                    assert(s2.edges().contains_key(y) && s2.edges().contains_key(x));
                                }
                            }
                        }
                    }
                    assert forall|i: int| k < i < order@.len() implies same_but_incoming(
                        self.node_at(#[trigger] order@[i]),
                        e0.node_at(order@[i]),
                    ) by {
                        assert(order@.contains(order@[i]));
                        assert(graph_nodes(e0.graph).contains(order@[i]));
                        assert(s2.live(order@[i]));
                        assert(same_but_incoming(self.node_at(order@[i]), s2.node_at(order@[i])));
                        assert(same_but_incoming(s1.node_at(order@[i]), e0.node_at(order@[i])));
                    }
                    assert forall|i: int| 0 <= i < k + 1 implies ran(e0.node_at(#[trigger] order@[i]), self.node_at(order@[i]), *eval) by {
                        let v = order@[i];
                        assert(order@.contains(v));
                        assert(graph_nodes(e0.graph).contains(v));
                        assert(s2.live(v));
                        assert(same_but_incoming(self.node_at(v), s2.node_at(v)));
                        assert forall|t: int| 0 <= t < s2.node_at(v).incoming@.len() implies
                            self.node_at(v).incoming@[t] == s2.node_at(v).incoming@[t] by {
                            if self.node_at(v).incoming@[t] != s2.node_at(v).incoming@[t] {
                                let y = choose|y: usize| #[trigger] s2.edges().contains_key(y)
                                    && s2.edges()[y].0 == n && s2.edges()[y].1 == v && s2.edges()[y].3 == t;
                                lemma_edge_forward(order@, graph_nodes(e0.graph), e0.edges(), y, k as int, i);
                            }
                        }
                        assert(self.node_at(v).incoming@ =~= s2.node_at(v).incoming@);
                        lemma_effective_inputs_eq(self.node_at(v), s2.node_at(v));
                        if i < k {
                            assert(ran(e0.node_at(v), s1.node_at(v), *eval));
                        }
                    }
                    assert forall|j: usize| #[trigger] self.live(j) == e0.live(j) by {
                        assert(before.live(j) == e0.live(j));
                    }
                    assert(executed_messages(order@.subrange(0, k + 1)) =~= executed_messages(
                        order@.subrange(0, k as int),
                    ).push(Message::Event(Event::NodeExecuted { node: n })));
                    assert(self.messages@ =~= m1 + executed_messages(order@.subrange(0, k + 1)));
                }
                k = k + 1;
            }
            let ghost pre = *self;
            self.emit_event(Event::ExecutionCompleted);
            proof {
                assert forall|j: usize| #[trigger] self.live(j) == e0.live(j) by {
                    assert(pre.live(j) == e0.live(j));
                }
                assert(order@.subrange(0, order@.len() as int) =~= order@);
                assert forall|x: usize| #[trigger] e0.edges().contains_key(x) implies delivered(*self, e0.edges()[x]) by {
                    let d = e0.edges()[x];
                    assert(graph_nodes(e0.graph).contains(d.0));
                    assert(order@.to_set().contains(d.0));
                    assert(order@.contains(d.0));
                    let i = choose|i: int| 0 <= i < order@.len() && order@[i] == d.0;
                    assert(order@[i] == e0.edges()[x].0);
                    assert(delivered(pre, d));
                }
                assert forall|v: usize| #[trigger] e0.live(v) implies ran(e0.node_at(v), self.node_at(v), *eval) by {
                    assert(graph_nodes(e0.graph).contains(v));
                    assert(order@.to_set().contains(v));
                    assert(order@.contains(v));
                    let i = choose|i: int| 0 <= i < order@.len() && order@[i] == v;
                    assert(ran(e0.node_at(order@[i]), pre.node_at(order@[i]), *eval));
                }
                assert(self.messages@ =~= m1 + executed_messages(order@) + seq![
                    Message::Event(Event::ExecutionCompleted),
                ]);
            }
        } else {
            self.emit_event(Event::ExecutionCompleted);
            proof {
                assert forall|j: usize| #[trigger] self.live(j) == e0.live(j) by {}
            }
        }
    }

    /// Push each output of node `n` into the input its edges feed.
    fn propagate(&mut self, n: usize)
        requires
            old(self).wf(),
            old(self).live(n),
        ensures
            final(self).wf(),
            final(self).graph == old(self).graph,
            forall|j: usize| #[trigger] final(self).live(j) == old(self).live(j),
            final(self).messages@ == old(self).messages@,
            final(self).history == old(self).history,
            final(self).nodes@.len() == old(self).nodes@.len(),
            forall|j: usize| #[trigger] old(self).live(j) ==> same_but_incoming(
                final(self).node_at(j),
                old(self).node_at(j),
            ),
            forall|x: usize| #[trigger] old(self).edges().contains_key(x) && old(self).edges()[x].0 == n
                ==> delivered(*final(self), old(self).edges()[x]),
            forall|j: usize, t: int| #[trigger] final(self).node_at(j).incoming@[t] != old(self).node_at(j).incoming@[t]
                && old(self).live(j) && 0 <= t < old(self).node_at(j).incoming@.len() ==> exists|x: usize| #[trigger] old(self).edges().contains_key(x)
                && old(self).edges()[x].0 == n && old(self).edges()[x].1 == j && old(self).edges()[x].3 == t,
    {
        let ghost e0 = *self;
        let list = topology_edges(&self.graph);
        let mut k: usize = 0;
        while k < list.len()
            invariant
                self.wf(),
                e0.wf(),
                e0 == *old(self),
                self.graph == e0.graph,
                forall|j: usize| #[trigger] self.live(j) == e0.live(j),
                self.messages@ == e0.messages@,
                self.history == e0.history,
                self.nodes@.len() == e0.nodes@.len(),
                e0.live(n),
                forall|j: int| 0 <= j < list@.len() ==> #[trigger] e0.edges().contains_key(list@[j].0)
                    && e0.edges()[list@[j].0] == list@[j].1,
                forall|x: usize| #[trigger] e0.edges().contains_key(x) ==> exists|j: int|
                    0 <= j < list@.len() && list@[j].0 == x,
                forall|j1: int, j2: int|
                    0 <= j1 < j2 < list@.len() ==> #[trigger] list@[j1].0 != #[trigger] list@[j2].0,
                k <= list@.len(),
                forall|j: usize| #[trigger] e0.live(j) ==> same_but_incoming(self.node_at(j), e0.node_at(j)),
                forall|q: int| 0 <= q < k && (#[trigger] list@[q]).1.0 == n ==> delivered(*self, list@[q].1),
                forall|j: usize, t: int| #[trigger] self.node_at(j).incoming@[t] != e0.node_at(j).incoming@[t]
                    && e0.live(j) && 0 <= t < e0.node_at(j).incoming@.len() ==> exists|q: int| 0 <= q < k && (#[trigger] list@[q]).1.0 == n
                    && list@[q].1.1 == j && list@[q].1.3 == t,
            decreases list@.len() - k,
        {
            let (_, ends) = list[k];
            proof {
                assert(e0.edges().contains_key(list@[k as int].0));
                assert(graph_nodes(e0.graph).contains(ends.1));
                assert(self.live(ends.1));
                assert(self.live(n));
            }
            let ghost before = *self;
            if ends.0 == n {
                let value = match &self.nodes[n] {
                    Some(src) => if ends.2 < src.output_values.len() {
                        Some(src.output_values[ends.2].duplicate())
                    } else {
                        None
                    },
                    None => None,
                };
                if let Some(v) = value {
                    proof {
                        assert(before.nodes@[ends.1 as int] is Some);
                    }
                    let mut target = self.take_node(ends.1);
                    target.push_incoming(ends.3, v);
                    let ghost gnode = target;
                    self.put_node(ends.1, target);
                    proof {
                        assert(self.nodes@ =~= before.nodes@.update(ends.1 as int, Some(gnode)));
                        lemma_replace_node(before, *self, ends.1, gnode);
                    }
                }
            }
            proof {
                assert forall|j: usize| #[trigger] e0.live(j) implies same_but_incoming(self.node_at(j), e0.node_at(j)) by {
                    assert(same_but_incoming(before.node_at(j), e0.node_at(j)));
                    assert(before.live(j));
                }
                assert forall|q: int| 0 <= q < k + 1 && (#[trigger] list@[q]).1.0 == n implies delivered(*self, list@[q].1) by {
                    if q < k {
                        assert(delivered(before, list@[q].1));
                        let d = list@[q].1;
                        assert(e0.edges().contains_key(list@[q].0));
                        assert(e0.edges().contains_key(list@[k as int].0));
                        if ends.0 == n && d.1 == ends.1 && d.3 == ends.3 {
                            assert(list@[q].0 != list@[k as int].0);
                        }
                        assert(same_but_incoming(before.node_at(n), e0.node_at(n)));
                        assert(same_but_incoming(self.node_at(n), e0.node_at(n)));
                    }
                }
                assert forall|j: usize, t: int| #[trigger] self.node_at(j).incoming@[t] != e0.node_at(j).incoming@[t]
                    && e0.live(j) && 0 <= t < e0.node_at(j).incoming@.len() implies exists|q: int| 0 <= q < k + 1 && (#[trigger] list@[q]).1.0 == n
                    && list@[q].1.1 == j && list@[q].1.3 == t by {
                    assert(same_but_incoming(before.node_at(j), e0.node_at(j)));
                    if before.node_at(j).incoming@[t] != e0.node_at(j).incoming@[t] {
                        let q = choose|q: int| 0 <= q < k && (#[trigger] list@[q]).1.0 == n
                            && list@[q].1.1 == j && list@[q].1.3 == t;
                        assert(0 <= q < k + 1);
                    } else {
                        assert(list@[k as int].1.0 == n && list@[k as int].1.1 == j && list@[k as int].1.3 == t);
                    }
                }
            }
            k = k + 1;
        }
        proof {
            assert forall|x: usize| #[trigger] e0.edges().contains_key(x) && e0.edges()[x].0 == n implies delivered(
                *self,
                e0.edges()[x],
            ) by {
                let q = choose|q: int| 0 <= q < list@.len() && list@[q].0 == x;
                assert(list@[q].1.0 == n);
            }
            assert forall|j: usize, t: int| #[trigger] self.node_at(j).incoming@[t] != e0.node_at(j).incoming@[t]
                && e0.live(j) && 0 <= t < e0.node_at(j).incoming@.len() implies exists|x: usize| #[trigger] e0.edges().contains_key(x)
                && e0.edges()[x].0 == n && e0.edges()[x].1 == j && e0.edges()[x].3 == t by {
                let q = choose|q: int| 0 <= q < list@.len() && (#[trigger] list@[q]).1.0 == n
                    && list@[q].1.1 == j && list@[q].1.3 == t;
                assert(e0.edges().contains_key(list@[q].0));
            }
        }
    }

    /// The value recorded by the `i`-th `Output` node, counting in index
    /// order.
    pub fn result(&self, i: usize) -> (r: Option<&Value>)
        requires
            self.wf(),
        ensures
            r matches Some(v) ==> i < positions(self.nodes@, output_sel()).len()
                && ({
                let p = positions(self.nodes@, output_sel())[i as int];
                self.node_at(p).signature.inputs@.len() > 0 && *v == crate::node::effective_input(
                    self.node_at(p),
                    0,
                )
            }),
            i >= positions(self.nodes@, output_sel()).len() ==> r is None,
            i < positions(self.nodes@, output_sel()).len() && self.node_at(
                positions(self.nodes@, output_sel())[i as int],
            ).signature.inputs@.len() > 0 ==> (r matches Some(v) && *v == crate::node::effective_input(
                self.node_at(positions(self.nodes@, output_sel())[i as int]),
                0,
            )),
    {
        let ghost pred = output_sel();
        let mut count: usize = 0;
        let mut k: usize = 0;
        while k < self.nodes.len()
            invariant
                self.wf(),
                k <= self.nodes@.len(),
                count == positions(self.nodes@.subrange(0, k as int), pred).len(),
                count <= i,
                pred == output_sel(),
            decreases self.nodes@.len() - k,
        {
            proof {
                assert(self.nodes@.subrange(0, k + 1).drop_last() =~= self.nodes@.subrange(0, k as int));
            }
            match &self.nodes[k] {
                Some(node) => {
                    if matches!(node.operation, Operation::Output(_)) {
                        if count == i {
                            proof {
                                lemma_positions_prefix(self.nodes@, pred, k as int + 1);
                                assert(positions(self.nodes@.subrange(0, k + 1), pred)[i as int] == k);
                                lemma_positions_extend(self.nodes@, pred, k as int + 1);
                                assert(positions(self.nodes@, pred)[i as int] == k);
                            }
                            return node.input_value(0);
                        }
                        count = count + 1;
                    }
                },
                None => {},
            }
            k = k + 1;
        }
        proof {
            assert(self.nodes@.subrange(0, self.nodes@.len() as int) =~= self.nodes@);
        }
        None
    }

}

proof fn lemma_positions_prefix(nodes: Seq<Option<Node>>, p: spec_fn(Option<Node>) -> bool, k: int)
    requires
        0 < k <= nodes.len(),
        p(nodes[k - 1]),
    ensures
        positions(nodes.subrange(0, k), p) == positions(nodes.subrange(0, k - 1), p).push((k - 1) as usize),
{
    assert(nodes.subrange(0, k).drop_last() =~= nodes.subrange(0, k - 1));
}

impl Engine {
    /// The indices of the nodes selected by `sel`, in increasing order.
    fn positions_of(&self, outputs: bool) -> (r: Vec<usize>)
        ensures
            outputs ==> r@ == positions(self.nodes@, output_sel()),
            !outputs ==> r@ == positions(self.nodes@, input_sel()),
    {
        let ghost pred = if outputs { output_sel() } else { input_sel() };
        let mut r: Vec<usize> = Vec::new();
        let mut k: usize = 0;
        while k < self.nodes.len()
            invariant
                k <= self.nodes@.len(),
                pred == (if outputs { output_sel() } else { input_sel() }),
                r@ == positions(self.nodes@.subrange(0, k as int), pred),
            decreases self.nodes@.len() - k,
        {
            proof {
                assert(self.nodes@.subrange(0, k + 1).drop_last() =~= self.nodes@.subrange(0, k as int));
                assert(self.nodes@.subrange(0, k + 1).last() == self.nodes@[k as int]);
            }
            let hit = match &self.nodes[k] {
                Some(node) => if outputs {
                    matches!(node.operation, Operation::Output(_))
                } else {
                    matches!(node.operation, Operation::Input(_))
                },
                None => false,
            };
            if hit {
                r.push(k);
            }
            k = k + 1;
        }
        proof {
            assert(self.nodes@.subrange(0, self.nodes@.len() as int) =~= self.nodes@);
        }
        r
    }

    /// The indices of the `Input` nodes, in index order.
    pub fn inputs(&self) -> (r: Vec<usize>)
        ensures
            r@ == positions(self.nodes@, input_sel()),
    {
        self.positions_of(false)
    }

    /// The indices of the `Output` nodes, in index order.
    pub fn outputs(&self) -> (r: Vec<usize>)
        ensures
            r@ == positions(self.nodes@, output_sel()),
    {
        self.positions_of(true)
    }

    /// The values recorded by the `Output` nodes, in index order (nodes
    /// without an input slot contribute nothing).
    pub fn results(&self) -> (r: Vec<Value>)
        requires
            self.wf(),
        ensures
            r@ == recorded(*self, positions(self.nodes@, output_sel())),
    {
        let outs = self.outputs();
        let mut r: Vec<Value> = Vec::new();
        let mut k: usize = 0;
        while k < outs.len()
            invariant
                self.wf(),
                k <= outs@.len(),
                r@ == recorded(*self, outs@.subrange(0, k as int)),
            decreases outs@.len() - k,
        {
            proof {
                assert(outs@.subrange(0, k + 1).drop_last() =~= outs@.subrange(0, k as int));
                assert(outs@.subrange(0, k + 1).last() == outs@[k as int]);
            }
            if let Some(node) = self.get_node(outs[k]) {
                if let Some(v) = node.input_value(0) {
                    r.push(v.duplicate());
                }
            }
            k = k + 1;
        }
        proof {
            assert(outs@.subrange(0, outs@.len() as int) =~= outs@);
        }
        r
    }

}

} // verus!
