//! Editing slot values, positions and labels, and reconfiguring nodes.

use vstd::prelude::*;
use crate::error::Error;
use crate::history::{Event, Message, Mutation, pushed};
use crate::node::{ConnectionProbe, Node, probe_of, slot_edited};
use crate::ops::{Input, Operation, configure_shape};
use crate::slot::is_slot_default;
use crate::topology::{lemma_subgraph, EdgeEnds, graph_edges, graph_nodes, topology_edges, topology_remove_edge};
use crate::value::{Value, checkpoint_of, differs_from, settled, type_of};
use crate::engine::{Engine, lemma_replace_node, reported, sync_output_textures};
use crate::wiring::{buffer_cleared, dirtied_at, disconnect_at, disconnect_mutation, incident};
use crate::execution::same_but_incoming;

verus! {
/// The outbox after an edit that did or did not change a value.
pub open spec fn edit_reported(before: Seq<Message>, after: Seq<Message>, changed: bool) -> bool {
    if changed {
        after == before.push(Message::Event(Event::GraphDirtied))
    } else {
        after == before
    }
}

/// The edge joins slots that still exist and whose types still cast.
pub open spec fn edge_valid(e: Engine, ends: EdgeEnds) -> bool {
    e.live(ends.0) && e.live(ends.1) && probe_of(
        e.node_at(ends.0).signature,
        e.node_at(ends.1).signature,
        ends.2,
        ends.3,
    ) == ConnectionProbe::Valid
}

/// `after` is `before` followed by a `Disconnect` and a `GraphDirtied` for
/// each edge of `gone`, in order.
pub open spec fn removals_reported(
    before: Seq<Message>,
    after: Seq<Message>,
    old_edges: Map<usize, EdgeEnds>,
    gone: Seq<usize>,
) -> bool {
    &&& after.len() == before.len() + 2 * gone.len()
    &&& after.subrange(0, before.len() as int) == before
    &&& gone.no_duplicates()
    &&& forall|j: int| 0 <= j < gone.len() ==> #[trigger] disconnect_at(after, before.len() as int, j, old_edges, gone)
    &&& forall|j: int| 0 <= j < gone.len() ==> #[trigger] dirtied_at(after, before.len() as int, j)
}

/// `after` is `before` with node `index` reconfigured from config values
/// `cfg` (successfully when `ok`): the signature `configure` derives, the
/// outputs reset, each edge the new signature refuses dropped and reported
/// after the messages `base`; other nodes keep all but their input buffers.
pub open spec fn reconfigured(before: Engine, after: Engine, index: usize, ok: bool, base: Seq<Message>, cfg: Seq<Value>) -> bool {
    let n0 = before.node_at(index);
    let n1 = after.node_at(index);
    &&& configure_shape(n0.operation, cfg, ok, n1.operation, n0.signature, n1.signature)
    &&& n1.record.config_values@ == cfg
    &&& forall|j: usize| j != index && #[trigger] before.live(j) ==> same_but_incoming(after.node_at(j), before.node_at(j))
    &&& ok ==> forall|k: int| 0 <= k < n1.output_values@.len() && !(n1.output_values@[k] is Texture)
        ==> is_slot_default(#[trigger] n1.output_values@[k], n1.signature.outputs@[k])
    &&& ok ==> forall|x: usize| #[trigger] after.edges().contains_key(x) == (before.edges().contains_key(x)
        && !(incident(before.edges()[x], index) && !edge_valid(after, before.edges()[x])))
    &&& ok ==> exists|gone: Seq<usize>| #[trigger] removals_reported(base, after.messages@, before.edges(), gone)
    &&& !ok ==> after.edges() == before.edges() && after.messages@ == base
}

/// The edges of `e` that a node change at `index` keeps: those not touching
/// it, and those whose slots still exist with castable types.
pub open spec fn kept_after_change(e: Engine, index: usize, x: usize) -> bool {
    e.edges().contains_key(x) && !(incident(e.edges()[x], index) && !edge_valid(e, e.edges()[x]))
}

impl Engine {
    /// Run `f` on the live node at `index` and put it back.
    fn with_node_edit(&mut self, index: usize, slot: usize, v: Value, which: u8) -> (r: Result<bool, Error>)
        requires
            old(self).wf(),
            old(self).live(index),
        ensures
            final(self).wf(),
            final(self).graph == old(self).graph,
            final(self).textures == old(self).textures,
            final(self).messages@ == old(self).messages@,
            final(self).history == old(self).history,
            forall|j: usize| #[trigger] final(self).live(j) == old(self).live(j),
            forall|j: usize| j != index && (j as int) < old(self).nodes@.len() ==> #[trigger] final(self).nodes@[j as int]
                == old(self).nodes@[j as int],
            final(self).nodes@.len() == old(self).nodes@.len(),
            final(self).node_at(index).signature == old(self).node_at(index).signature,
            final(self).node_at(index).operation == old(self).node_at(index).operation,
            final(self).node_at(index).dirty == (old(self).node_at(index).dirty || r == Ok::<bool, Error>(true)),
            which == 0 ==> slot_edited(
                old(self).node_at(index).record.input_values@,
                final(self).node_at(index).record.input_values@,
                slot,
                v,
                r,
            ),
            which == 1 ==> slot_edited(
                old(self).node_at(index).output_values@,
                final(self).node_at(index).output_values@,
                slot,
                v,
                r,
            ),
            which >= 2 ==> slot_edited(
                old(self).node_at(index).record.config_values@,
                final(self).node_at(index).record.config_values@,
                slot,
                v,
                r,
            ),
    {
        let ghost before = *self;
        let mut node = self.take_node(index);
        let r = if which == 0 {
            node.edit_input(slot, v)
        } else if which == 1 {
            node.edit_output(slot, v)
        } else {
            node.edit_config(slot, v)
        };
        let ghost gnode = node;
        self.put_node(index, node);
        proof {
            assert(self.nodes@ =~= before.nodes@.update(index as int, Some(gnode)));
            lemma_replace_node(before, *self, index, gnode);
        }
        r
    }

    /// Set the value of a graph input (an `Input` node's output). Reports
    /// `GraphDirtied` exactly when the value changed.
    pub fn edit_graph_input(&mut self, index: usize, v: Value) -> (r: Result<(), Error>)
        requires
            old(self).wf(),
        ensures
            final(self).wf(),
            !old(self).live(index) ==> (r matches Err(Error::NodeNotFound(n)) && n == index),
            old(self).live(index) && !(old(self).node_at(index).operation is Input) ==> (r matches Err(
                Error::NotInputNode,
            )),
            !old(self).live(index) || !(old(self).node_at(index).operation is Input) ==> *final(self) == *old(
                self,
            ),
            old(self).live(index) && old(self).node_at(index).operation is Input ==> final(self).node_at(
                index,
            ).dirty == (old(self).node_at(index).dirty || exists|c: bool| c && #[trigger] slot_edited(
                old(self).node_at(index).output_values@,
                final(self).node_at(index).output_values@,
                0,
                v,
                Ok(c),
            )),
            r is Err ==> final(self).messages@ == old(self).messages@,
            old(self).live(index) && old(self).node_at(index).operation is Input ==> exists|res: Result<bool, Error>|
                #[trigger] slot_edited(
                old(self).node_at(index).output_values@,
                final(self).node_at(index).output_values@,
                0,
                v,
                res,
            ) && (res is Err <==> r is Err) && (res matches Ok(changed) ==> edit_reported(
                old(self).messages@,
                final(self).messages@,
                changed,
            )),
            final(self).graph == old(self).graph,
    {
        if !self.contains_node(index) {
            return Err(Error::NodeNotFound(index));
        }
        match &self.nodes[index] {
            Some(n) => {
                if !matches!(n.operation, Operation::Input(_)) {
                    return Err(Error::NotInputNode);
                }
            },
            None => {},
        }
        let stored = v.duplicate();
        let ghost before = *self;
        let res = self.with_node_edit(index, 0, v, 1);
        let changed = match res {
            Ok(c) => c,
            Err(e) => return Err(e),
        };
        let ghost mid = *self;
        proof {
            assert(mid.live(index));
            assert(mid.nodes@[index as int] is Some);
        }
        let mut node = self.take_node(index);
        if let Operation::Input(inp) = &mut node.operation {
            inp.set_value(stored);
        }
        let ghost gnode = node;
        self.put_node(index, node);
        proof {
            assert(self.nodes@ =~= mid.nodes@.update(index as int, Some(gnode)));
            lemma_replace_node(mid, *self, index, gnode);
        }
        if changed {
            self.emit_event(Event::GraphDirtied);
        }
        proof {
            assert(edit_reported(before.messages@, self.messages@, changed));
            assert(self.node_at(index).output_values@ == mid.node_at(index).output_values@);
        }
        Ok(())
    }

    /// Set stored input `slot` of a node. Reports `GraphDirtied` exactly when
    /// the value changed.
    pub fn edit_node_input(&mut self, index: usize, slot: usize, v: Value) -> (r: Result<(), Error>)
        requires
            old(self).wf(),
        ensures
            final(self).wf(),
            !old(self).live(index) ==> (r matches Err(Error::NodeNotFound(n)) && n == index),
            r is Err ==> final(self).messages@ == old(self).messages@,
            old(self).live(index) ==> exists|res: Result<bool, Error>| #[trigger] slot_edited(
                old(self).node_at(index).record.input_values@,
                final(self).node_at(index).record.input_values@,
                slot,
                v,
                res,
            ) && (res is Err <==> r is Err) && (res matches Ok(changed) ==> edit_reported(
                old(self).messages@,
                final(self).messages@,
                changed,
            )) && final(self).node_at(index).dirty == (old(self).node_at(index).dirty || res == Ok::<
                bool,
                Error,
            >(true)),
            old(self).live(index) ==> final(self).node_at(index).signature == old(self).node_at(index).signature
                && final(self).node_at(index).operation == old(self).node_at(index).operation,
            final(self).graph == old(self).graph,
    {
        if !self.contains_node(index) {
            return Err(Error::NodeNotFound(index));
        }
        let ghost before = *self;
        let res = self.with_node_edit(index, slot, v, 0);
        let changed = match res {
            Ok(c) => c,
            Err(e) => return Err(e),
        };
        if changed {
            self.emit_event(Event::GraphDirtied);
        }
        proof {
            assert(edit_reported(before.messages@, self.messages@, changed));
        }
        Ok(())
    }

    /// Set config value `slot` of a node. When the value changed, reports
    /// `GraphDirtied` and reconfigures the node.
    pub fn edit_node_config(&mut self, index: usize, slot: usize, v: Value) -> (r: Result<(), Error>)
        requires
            old(self).wf(),
        ensures
            final(self).wf(),
            !old(self).live(index) ==> (r matches Err(Error::NodeNotFound(n)) && n == index),
            old(self).live(index) ==> exists|res: Result<bool, Error>| slot_edited(
                old(self).node_at(index).record.config_values@,
                #[trigger] final(self).node_at(index).record.config_values@,
                slot,
                v,
                res,
            ) && (res is Err ==> r is Err && final(self).messages@ == old(self).messages@)
                && (res == Ok::<bool, Error>(false) ==> r is Ok && final(self).messages@ == old(
                self,
            ).messages@) && (res == Ok::<bool, Error>(true) ==> final(self).messages@.len() > old(
                self,
            ).messages@.len() && final(self).messages@[old(self).messages@.len() as int]
                == Message::Event(Event::GraphDirtied)) && (res == Ok::<bool, Error>(false)
                ==> final(self).node_at(index).signature == old(self).node_at(index).signature
                && final(self).node_at(index).operation == old(self).node_at(index).operation
                && final(self).edges() == old(self).edges())
                && (res == Ok::<bool, Error>(true) ==> reconfigured(
                *old(self),
                *final(self),
                index,
                r is Ok,
                old(self).messages@.push(Message::Event(Event::GraphDirtied)),
                final(self).node_at(index).record.config_values@,
            )),
            graph_nodes(final(self).graph) == graph_nodes(old(self).graph),
    {
        if !self.contains_node(index) {
            return Err(Error::NodeNotFound(index));
        }
        let ghost before = *self;
        let res = self.with_node_edit(index, slot, v, 2);
        let changed = match res {
            Ok(c) => c,
            Err(e) => {
                return Err(e);
            },
        };
        proof {
            assert(self.live(index) == before.live(index));
        }
        if changed {
            self.emit_event(Event::GraphDirtied);
            let ghost m1 = self.messages@;
            let ghost b2 = *self;
            assert(self.live(index));
            let r = self.reconfigure_node(index);
            proof {
                assert(self.messages@.subrange(0, m1.len() as int) == m1);
                assert(self.messages@[before.messages@.len() as int] == m1[before.messages@.len() as int]);
                assert forall|j: usize| j != index && #[trigger] before.live(j) implies same_but_incoming(
                    self.node_at(j),
                    before.node_at(j),
                ) by {
                    assert(b2.live(j));
                    assert(b2.nodes@[j as int] == before.nodes@[j as int]);
                }
                assert(b2.edges() == before.edges());
            }
            return r;
        }
        Ok(())
    }

    /// Re-run `configure` on a node, drop the edges its new signature no
    /// longer accepts (reporting each), and re-sync its texture outputs.
    fn reconfigure_node(&mut self, index: usize) -> (r: Result<(), Error>)
        requires
            old(self).wf(),
            old(self).live(index),
        ensures
            final(self).wf(),
            graph_nodes(final(self).graph) == graph_nodes(old(self).graph),
            final(self).messages@.len() >= old(self).messages@.len(),
            final(self).messages@.subrange(0, old(self).messages@.len() as int) == old(self).messages@,
            final(self).node_at(index).record.config_values@ == old(self).node_at(index).record.config_values@,
            forall|j: usize| #[trigger] final(self).live(j) == old(self).live(j),
            r is Ok ==> forall|e: usize| #[trigger] final(self).edges().contains_key(e) && incident(
                final(self).edges()[e],
                index,
            ) ==> edge_valid(*final(self), final(self).edges()[e]),
            reconfigured(
                *old(self),
                *final(self),
                index,
                r is Ok,
                old(self).messages@,
                old(self).node_at(index).record.config_values@,
            ),
            final(self).history.max_size == old(self).history.max_size,
    {
        let ghost before = *self;
        let mut node = self.take_node(index);
        let old_outputs = node.snapshot_outputs();
        let r = node.configure();
        if r.is_err() {
            let ghost gnode = node;
            self.put_node(index, node);
            proof {
                assert(self.nodes@ =~= before.nodes@.update(index as int, Some(gnode)));
                lemma_replace_node(before, *self, index, gnode);
            }
            return r;
        }
        sync_output_textures(&mut node, &mut self.textures, index, &old_outputs);
        let ghost gnode = node;
        self.put_node(index, node);
        proof {
            assert(self.nodes@ =~= before.nodes@.update(index as int, Some(gnode)));
            lemma_replace_node(before, *self, index, gnode);
        }
        let ghost mid = *self;
        self.disconnect_invalid_edges(index);
        proof {
            assert(mid.node_at(index) == gnode);
            assert(mid.live(index));
            assert(same_but_incoming(self.node_at(index), mid.node_at(index)));
            assert forall|j: usize| j != index && #[trigger] before.live(j) implies same_but_incoming(
                self.node_at(j),
                before.node_at(j),
            ) by {
                assert(mid.live(j));
                assert(mid.nodes@[j as int] == before.nodes@[j as int]);
            }
            assert forall|x: usize| #[trigger] self.edges().contains_key(x) == (before.edges().contains_key(x)
                && !(incident(before.edges()[x], index) && !edge_valid(*self, before.edges()[x]))) by {
                assert(self.edges().contains_key(x) == kept_after_change(mid, index, x));
                if before.edges().contains_key(x) {
                    let d = before.edges()[x];
                    assert(graph_nodes(before.graph).contains(d.0) && graph_nodes(before.graph).contains(d.1));
                    assert(mid.live(d.0) && mid.live(d.1));
                    assert(same_but_incoming(self.node_at(d.0), mid.node_at(d.0)));
                    assert(same_but_incoming(self.node_at(d.1), mid.node_at(d.1)));
                    assert(edge_valid(mid, d) == edge_valid(*self, d));
                }
            }
            let gone = choose|gone: Seq<usize>| #[trigger] removals_reported(mid.messages@, self.messages@, mid.edges(), gone)
                && forall|x: usize| #[trigger] gone.contains(x) <==> mid.edges().contains_key(x)
                    && !self.edges().contains_key(x);
            assert(removals_reported(before.messages@, self.messages@, before.edges(), gone));
        }
        Ok(())
    }

    /// Remove every edge touching `index` that no longer joins existing slots
    /// of castable types, reporting each as `Disconnect`.
    fn disconnect_invalid_edges(&mut self, index: usize)
        requires
            old(self).wf(),
            old(self).live(index),
        ensures
            final(self).wf(),
            graph_nodes(final(self).graph) == graph_nodes(old(self).graph),
            forall|j: usize| #[trigger] final(self).live(j) == old(self).live(j),
            final(self).nodes@.len() == old(self).nodes@.len(),
            forall|j: usize| (j as int) < old(self).nodes@.len() ==> #[trigger] final(self).nodes@[j as int] matches Some(n)
                && n.signature == old(self).nodes@[j as int]->Some_0.signature && n.record.config_values@
                == old(self).nodes@[j as int]->Some_0.record.config_values@ || !old(self).live(j),
            final(self).messages@.len() >= old(self).messages@.len(),
            final(self).messages@.subrange(0, old(self).messages@.len() as int) == old(self).messages@,
            forall|e: usize| #[trigger] final(self).edges().contains_key(e) ==> old(self).edges().contains_key(e)
                && final(self).edges()[e] == old(self).edges()[e],
            forall|e: usize| #[trigger] final(self).edges().contains_key(e) && incident(
                final(self).edges()[e],
                index,
            ) ==> edge_valid(*final(self), final(self).edges()[e]),
            forall|x: usize| #[trigger] final(self).edges().contains_key(x) == kept_after_change(*old(self), index, x),
            forall|j: usize| #[trigger] old(self).live(j) ==> same_but_incoming(final(self).node_at(j), old(self).node_at(j)),
            final(self).history.max_size == old(self).history.max_size,
            forall|x: usize| #[trigger] old(self).edges().contains_key(x) && !final(self).edges().contains_key(x)
                ==> buffer_cleared(*final(self), old(self).edges()[x]),
            exists|gone: Seq<usize>| #[trigger] removals_reported(old(self).messages@, final(self).messages@, old(self).edges(), gone)
                && forall|x: usize| #[trigger] gone.contains(x) <==> old(self).edges().contains_key(x)
                    && !final(self).edges().contains_key(x),
    {
        let ghost e0 = *self;
        let list = topology_edges(&self.graph);
        let mut k: usize = 0;
        let ghost mut gone: Seq<usize> = Seq::empty();
        proof {
            assert(self.messages@.subrange(0, self.messages@.len() as int) =~= self.messages@);
        }
        while k < list.len()
            invariant
                self.wf(),
                e0.wf(),
                e0 == *old(self),
                e0.live(index),
                self.history.max_size == e0.history.max_size,
                forall|j: usize| #[trigger] e0.live(j) ==> same_but_incoming(self.node_at(j), e0.node_at(j)),
                removals_reported(e0.messages@, self.messages@, e0.edges(), gone),
                forall|x: usize| #[trigger] gone.contains(x) <==> e0.edges().contains_key(x) && !self.edges().contains_key(x),
                forall|x: usize| #[trigger] kept_after_change(e0, index, x) ==> self.edges().contains_key(x),
                forall|x: usize| #[trigger] e0.edges().contains_key(x) && !self.edges().contains_key(x)
                    ==> buffer_cleared(*self, e0.edges()[x]),
                forall|j1: int, j2: int|
                    0 <= j1 < j2 < list@.len() ==> #[trigger] list@[j1].0 != #[trigger] list@[j2].0,
                forall|x: usize| #[trigger] self.edges().contains_key(x) && !e0.edges().contains_key(x) ==> false,
                k <= list@.len(),
                graph_nodes(self.graph) == graph_nodes(e0.graph),
                forall|j: usize| #[trigger] self.live(j) == e0.live(j),
                self.nodes@.len() == e0.nodes@.len(),
                forall|j: usize| (j as int) < e0.nodes@.len() ==> #[trigger] self.nodes@[j as int] matches Some(n)
                    && n.signature == e0.nodes@[j as int]->Some_0.signature && n.record.config_values@
                    == e0.nodes@[j as int]->Some_0.record.config_values@ || !e0.live(j),
                self.messages@.len() >= e0.messages@.len(),
                self.messages@.subrange(0, e0.messages@.len() as int) == e0.messages@,
                forall|j: int| 0 <= j < list@.len() ==> #[trigger] e0.edges().contains_key(list@[j].0)
                    && e0.edges()[list@[j].0] == list@[j].1,
                forall|e: usize| #[trigger] e0.edges().contains_key(e) ==> exists|j: int|
                    0 <= j < list@.len() && list@[j].0 == e,
                forall|e: usize| #[trigger] self.edges().contains_key(e) ==> e0.edges().contains_key(e)
                    && self.edges()[e] == e0.edges()[e],
                forall|e: usize| #[trigger] self.edges().contains_key(e) && incident(self.edges()[e], index)
                    && (exists|j: int| 0 <= j < k && list@[j].0 == e) ==> edge_valid(*self, self.edges()[e]),
            decreases list@.len() - k,
        {
            let (e, ends) = list[k];
            proof {
                assert(e0.edges().contains_key(list@[k as int].0));
                assert(graph_nodes(e0.graph).contains(ends.0) && graph_nodes(e0.graph).contains(ends.1));
                assert(self.live(ends.0) && self.live(ends.1));
            }
            if ends.0 == index || ends.1 == index {
                let valid = match (&self.nodes[ends.0], &self.nodes[ends.1]) {
                    (Some(a), Some(b)) => matches!(a.probe_connect(b, ends.2, ends.3), ConnectionProbe::Valid),
                    _ => false,
                };
                proof {
                    assert(same_but_incoming(self.node_at(ends.0), e0.node_at(ends.0)));
                    assert(same_but_incoming(self.node_at(ends.1), e0.node_at(ends.1)));
                    assert(valid == edge_valid(e0, ends));
                    assert(e0.edges()[e] == ends);
                }
                if !valid && self.edges_contains(e) {
                    let ghost before = *self;
                    let ghost gone0 = gone;
                    topology_remove_edge(&mut self.graph, e);
                    let ghost b1 = *self;
                    proof {
                        assert(graph_nodes(e0.graph).contains(ends.1));
                    }
                    let mut target = self.take_node(ends.1);
                    target.clear_incoming(ends.3);
                    let ghost tnew = target;
                    self.put_node(ends.1, target);
                    proof {
                        assert(self.nodes@ =~= b1.nodes@.update(ends.1 as int, Some(tnew)));
                        assert forall|x: usize| #[trigger] e0.edges().contains_key(x) && !self.edges().contains_key(x)
                            implies buffer_cleared(*self, e0.edges()[x]) by {
                            let d = e0.edges()[x];
                            if x != e {
                                assert(!b1.edges().contains_key(x));
                                assert(buffer_cleared(b1, d));
                                assert(graph_nodes(e0.graph).contains(d.1));
                                if d.1 != ends.1 {
                                    assert(self.nodes@[d.1 as int] == b1.nodes@[d.1 as int]);
                                }
                            } else {
                                assert(d == ends);
                            }
                        }
                    }
                    self.emit_mutation(disconnect_mutation(ends));
                    proof {
                        assert(!gone0.contains(e));
                        gone = gone0.push(e);
                        assert forall|x: usize| #[trigger] gone.contains(x) <==> e0.edges().contains_key(x)
                            && !self.edges().contains_key(x) by {
                            if gone.contains(x) && x != e {
                                let q = choose|q: int| 0 <= q < gone.len() && gone[q] == x;
                                assert(gone0[q] == x);
                                assert(gone0.contains(x));
                                assert(!before.edges().contains_key(x));
                            }
                            if x != e && e0.edges().contains_key(x) && !self.edges().contains_key(x) {
                                assert(!before.edges().contains_key(x));
                                assert(gone0.contains(x));
                                let q = choose|q: int| 0 <= q < gone0.len() && gone0[q] == x;
                                assert(gone[q] == x);
                            }
                            if x == e {
                                assert(gone[gone.len() - 1] == e);
                                assert(e0.edges().contains_key(e));
                            }
                        }
                        assert forall|x: usize| #[trigger] kept_after_change(e0, index, x) implies self.edges().contains_key(x) by {
                            assert(before.edges().contains_key(x));
                            if x == e {
                                assert(incident(e0.edges()[x], index));
                            }
                        }
                        assert forall|j: usize| #[trigger] e0.live(j) implies same_but_incoming(self.node_at(j), e0.node_at(j)) by {
                            assert(same_but_incoming(before.node_at(j), e0.node_at(j)));
                            assert(before.live(j));
                        }
                        let m0 = e0.messages@.len();
                        assert(removals_reported(e0.messages@, self.messages@, e0.edges(), gone)) by {
                            assert forall|j: int| 0 <= j < gone.len() implies #[trigger] disconnect_at(self.messages@, m0 as int, j, e0.edges(), gone) by {
                                if j < gone0.len() {
                                    assert(disconnect_at(before.messages@, m0 as int, j, e0.edges(), gone0));
                                    assert(self.messages@[m0 + 2 * j] == before.messages@[m0 + 2 * j]);
                                }
                            }
                            assert forall|j: int| 0 <= j < gone.len() implies #[trigger] dirtied_at(self.messages@, m0 as int, j) by {
                                if j < gone0.len() {
                                    assert(dirtied_at(before.messages@, m0 as int, j));
                                    assert(self.messages@[m0 + 2 * j + 1] == before.messages@[m0 + 2 * j + 1]);
                                }
                            }
                            assert(self.messages@.subrange(0, m0 as int) =~= e0.messages@) by {
                                assert(before.messages@.subrange(0, m0 as int) == e0.messages@);
                            }
                        }
                        assert forall|j: usize| #[trigger] graph_nodes(self.graph).contains(j) <==> self.live(j) by {
                            assert(graph_nodes(before.graph).contains(j) <==> before.live(j));
                            if j < self.nodes@.len() && j == ends.1 {
                                assert(before.live(j) == self.live(j));
                            }
                        }
                        assert forall|j: int| 0 <= j < self.nodes@.len() && (#[trigger] self.nodes@[j]) is Some
                            implies self.nodes@[j]->Some_0.wf() by {
                            if j != ends.1 {
                                assert(self.nodes@[j] == before.nodes@[j]);
                            }
                        }
                        assert forall|a: usize, b: usize|
                            #![trigger self.edges().contains_key(a), self.edges().contains_key(b)]
                            self.edges().contains_key(a) && self.edges().contains_key(b) && self.edges()[a].1
                                == self.edges()[b].1 && self.edges()[a].3 == self.edges()[b].3 implies a == b by {
                            assert(before.edges().contains_key(a) && before.edges().contains_key(b));
                        }
                        lemma_subgraph(self.edges(), before.edges());
                        assert forall|j: usize| #[trigger] self.live(j) == e0.live(j) by {
                            assert(before.live(j) == e0.live(j));
                            if j < self.nodes@.len() && j == ends.1 {
                                assert(before.live(j) == self.live(j));
                            }
                        }
                        assert(self.messages@.subrange(0, e0.messages@.len() as int) =~= e0.messages@) by {
                            assert(before.messages@.subrange(0, e0.messages@.len() as int) == e0.messages@);
                        }
                        assert forall|x: usize| #[trigger] self.edges().contains_key(x) && incident(self.edges()[x], index)
                            && (exists|j: int| 0 <= j < k + 1 && list@[j].0 == x) implies edge_valid(*self, self.edges()[x]) by {
                            assert(before.edges().contains_key(x));
                            let j = choose|j: int| 0 <= j < k + 1 && list@[j].0 == x;
                            assert(j != k);
                            assert(edge_valid(before, before.edges()[x]));
                        }
                    }
                } else {
                    proof {
                        assert forall|x: usize| #[trigger] self.edges().contains_key(x) && incident(self.edges()[x], index)
                            && (exists|j: int| 0 <= j < k + 1 && list@[j].0 == x) implies edge_valid(*self, self.edges()[x]) by {
                            let j = choose|j: int| 0 <= j < k + 1 && list@[j].0 == x;
                            if j == k {
                                assert(e0.edges().contains_key(list@[k as int].0));
                                assert(self.edges()[x] == ends);
                            }
                        }
                    }
                }
            }
            else {
                proof {
                    assert forall|x: usize| #[trigger] self.edges().contains_key(x) && incident(self.edges()[x], index)
                        && (exists|j: int| 0 <= j < k + 1 && list@[j].0 == x) implies edge_valid(*self, self.edges()[x]) by {
                        let j = choose|j: int| 0 <= j < k + 1 && list@[j].0 == x;
                        if j == k {
                            assert(e0.edges().contains_key(list@[k as int].0));
                        }
                    }
                }
            }
            k = k + 1;
        }
        proof {
            assert forall|x: usize| #[trigger] self.edges().contains_key(x) && incident(self.edges()[x], index)
                implies edge_valid(*self, self.edges()[x]) by {
                assert(e0.edges().contains_key(x));
                let j = choose|j: int| 0 <= j < list@.len() && list@[j].0 == x;
            }
            assert forall|x: usize| #[trigger] self.edges().contains_key(x) == kept_after_change(e0, index, x) by {
                if self.edges().contains_key(x) {
                    assert(e0.edges().contains_key(x));
                    if incident(e0.edges()[x], index) {
                        assert(edge_valid(*self, self.edges()[x]));
                        let d = e0.edges()[x];
                        assert(same_but_incoming(self.node_at(d.0), e0.node_at(d.0)));
                        assert(same_but_incoming(self.node_at(d.1), e0.node_at(d.1)));
                    }
                }
            }
        }
    }

    /// Whether edge `e` exists.
    fn edges_contains(&self, e: usize) -> (r: bool)
        ensures
            r == self.edges().contains_key(e),
    {
        let list = topology_edges(&self.graph);
        let mut k: usize = 0;
        while k < list.len()
            invariant
                k <= list@.len(),
                forall|j: int| 0 <= j < list@.len() ==> #[trigger] graph_edges(self.graph).contains_key(list@[j].0),
                forall|x: usize| #[trigger] graph_edges(self.graph).contains_key(x) ==> exists|j: int|
                    0 <= j < list@.len() && list@[j].0 == x,
                forall|j: int| 0 <= j < k ==> (#[trigger] list@[j]).0 != e,
            decreases list@.len() - k,
        {
            if list[k].0 == e {
                return true;
            }
            k = k + 1;
        }
        false
    }
}

impl Engine {
    /// Set a node's position (two IEEE-754 bit patterns) and report
    /// `MoveNode` from the old position.
    pub fn set_node_position(&mut self, index: usize, position: (u32, u32)) -> (r: Result<(), Error>)
        requires
            old(self).wf(),
        ensures
            final(self).wf(),
            !old(self).live(index) ==> (r matches Err(Error::NodeNotFound(n)) && n == index)
                && *final(self) == *old(self),
            old(self).live(index) ==> r is Ok && final(self).node_at(index).record.position == position
                && final(self).messages@ == reported(
                old(self).messages@,
                Mutation::MoveNode {
                    node: index,
                    old_position: old(self).node_at(index).record.position,
                    new_position: position,
                },
            ) && final(self).history.undo_stack@ == pushed(
                old(self).history.undo_stack@,
                Mutation::MoveNode {
                    node: index,
                    old_position: old(self).node_at(index).record.position,
                    new_position: position,
                },
                old(self).history.max_size as nat,
            ),
            final(self).graph == old(self).graph,
            forall|j: usize| #[trigger] final(self).live(j) == old(self).live(j),
    {
        if !self.contains_node(index) {
            return Err(Error::NodeNotFound(index));
        }
        let ghost before = *self;
        proof {
            assert(before.nodes@[index as int] is Some);
        }
        let mut node = self.take_node(index);
        let old_position = node.record.position;
        node.record.position = position;
        let ghost gnode = node;
        self.put_node(index, node);
        proof {
            assert(self.nodes@ =~= before.nodes@.update(index as int, Some(gnode)));
            lemma_replace_node(before, *self, index, gnode);
        }
        self.emit_mutation(Mutation::MoveNode { node: index, old_position, new_position: position });
        Ok(())
    }

    /// Set a node's label (an empty label clears it) and report `SetLabel`;
    /// does nothing if no node lives at `index`.
    pub fn set_label(&mut self, index: usize, label: &str)
        requires
            old(self).wf(),
        ensures
            final(self).wf(),
            !old(self).live(index) ==> *final(self) == *old(self),
            old(self).live(index) && label@.len() == 0 ==> final(self).node_at(index).record.label is None,
            old(self).live(index) && label@.len() > 0 ==> (final(self).node_at(index).record.label matches Some(l) && l@
                == label@),
            old(self).live(index) ==> final(self).messages@ == reported(
                old(self).messages@,
                Mutation::SetLabel {
                    node: index,
                    old_label: old(self).node_at(index).record.label,
                    new_label: final(self).node_at(index).record.label,
                },
            ),
            final(self).graph == old(self).graph,
            forall|j: usize| #[trigger] final(self).live(j) == old(self).live(j),
    {
        if !self.contains_node(index) {
            return;
        }
        let new_label: Option<String> = if label.is_empty() {
            None
        } else {
            Some(label.to_owned())
        };
        let copy: Option<String> = match &new_label {
            Some(l) => Some(l.clone()),
            None => None,
        };
        let ghost before = *self;
        proof {
            assert(before.nodes@[index as int] is Some);
        }
        let mut node = self.take_node(index);
        let old_label = node.record.label.take();
        node.record.label = new_label;
        let ghost gnode = node;
        self.put_node(index, node);
        proof {
            assert(self.nodes@ =~= before.nodes@.update(index as int, Some(gnode)));
            lemma_replace_node(before, *self, index, gnode);
        }
        self.emit_mutation(Mutation::SetLabel { node: index, old_label, new_label: copy });
    }
}

/// The values of a slot list after editing slots `0..m` with `vals`: each
/// edited slot holds its new value (string dirty bits cleared), the others
/// are unchanged.
pub open spec fn edited_prefix(before: Seq<Value>, after: Seq<Value>, vals: Seq<Value>, m: int) -> bool {
    &&& 0 <= m <= vals.len()
    &&& m <= before.len()
    &&& after.len() == before.len()
    &&& forall|j: int| 0 <= j < m ==> type_of(#[trigger] vals[j]) == type_of(before[j]) && settled(after[j], vals[j])
    &&& forall|j: int| m <= j < before.len() ==> #[trigger] after[j] == before[j]
}

/// Slot `m` cannot take `vals[m]`: it does not exist or has another type.
pub open spec fn edit_refused(before: Seq<Value>, vals: Seq<Value>, m: int) -> bool {
    m >= before.len() || type_of(vals[m]) != type_of(before[m])
}

/// Some edit among the first `m` changed its slot.
pub open spec fn some_changed(before: Seq<Value>, vals: Seq<Value>, m: int) -> bool {
    exists|j: int| 0 <= j < m && differs_from(#[trigger] vals[j], checkpoint_of(before[j]))
}

/// The slot list an edit kind works on: stored inputs (0), outputs (1) or
/// config values (2 and up).
pub open spec fn slots_of(n: Node, which: u8) -> Seq<Value> {
    if which == 0 {
        n.record.input_values@
    } else if which == 1 {
        n.output_values@
    } else {
        n.record.config_values@
    }
}

impl Engine {
    /// Edit slots `0..` of one slot list of a node with `values`, in order,
    /// stopping at the first slot that refuses its value. Returns whether
    /// any value changed, and the error if one stopped the edits.
    fn edit_all(&mut self, index: usize, values: &Vec<Value>, which: u8) -> (r: (bool, Result<(), Error>))
        requires
            old(self).wf(),
            old(self).live(index),
        ensures
            final(self).wf(),
            final(self).graph == old(self).graph,
            final(self).messages@ == old(self).messages@,
            forall|j: usize| #[trigger] final(self).live(j) == old(self).live(j),
            exists|m: int| #[trigger] edited_prefix(
                slots_of(old(self).node_at(index), which),
                slots_of(final(self).node_at(index), which),
                values@,
                m,
            ) && (r.1 is Ok <==> m == values@.len()) && (r.1 is Err ==> edit_refused(
                slots_of(old(self).node_at(index), which),
                values@,
                m,
            )) && r.0 == some_changed(slots_of(old(self).node_at(index), which), values@, m),
    {
        let ghost e0 = *self;
        let ghost before = slots_of(e0.node_at(index), which);
        let mut changed = false;
        let mut k: usize = 0;
        while k < values.len()
            invariant
                self.wf(),
                e0.wf(),
                e0 == *old(self),
                e0.live(index),
                self.graph == e0.graph,
                self.messages@ == e0.messages@,
                forall|j: usize| #[trigger] self.live(j) == e0.live(j),
                before == slots_of(e0.node_at(index), which),
                edited_prefix(before, slots_of(self.node_at(index), which), values@, k as int),
                changed == some_changed(before, values@, k as int),
            decreases values@.len() - k,
        {
            let ghost cur = *self;
            let v = values[k].duplicate();
            let res = self.with_node_edit(index, k, v, which);
            proof {
                assert forall|j: usize| #[trigger] self.live(j) == e0.live(j) by {
                    assert(cur.live(j) == e0.live(j));
                }
                assert(cur.live(index));
            }
            match res {
                Ok(c) => {
                    proof {
                        let b = slots_of(cur.node_at(index), which);
                        let a = slots_of(self.node_at(index), which);
                        assert(edited_prefix(before, a, values@, k + 1)) by {
                            assert forall|j: int| 0 <= j < k + 1 implies type_of(#[trigger] values@[j]) == type_of(before[j])
                                && settled(a[j], values@[j]) by {
                                if j < k {
                                    assert(a[j] == b[j]);
                                }
                            }
                        }
                        assert(checkpoint_of(b[k as int]) == checkpoint_of(before[k as int]));
                        assert((changed || c) == some_changed(before, values@, k + 1)) by {
                            if some_changed(before, values@, k + 1) && !c {
                                let j = choose|j: int| 0 <= j < k + 1 && differs_from(#[trigger] values@[j], checkpoint_of(before[j]));
                                assert(j < k);
                            }
                        }
                    }
                    changed = changed || c;
                },
                Err(e) => {
                    return (changed, Err(e));
                },
            }
            k = k + 1;
        }
        (changed, Ok(()))
    }

    /// Set the stored inputs of a node from `values`, one per slot from slot
    /// 0, stopping at the first slot that refuses its value (and returning
    /// its error). Reports `GraphDirtied` once if any value changed.
    pub fn edit_all_node_inputs(&mut self, index: usize, values: Vec<Value>) -> (r: Result<(), Error>)
        requires
            old(self).wf(),
        ensures
            final(self).wf(),
            !old(self).live(index) ==> (r matches Err(Error::NodeNotFound(n)) && n == index),
            old(self).live(index) ==> exists|m: int| #[trigger] edited_prefix(
                old(self).node_at(index).record.input_values@,
                final(self).node_at(index).record.input_values@,
                values@,
                m,
            ) && (r is Ok <==> m == values@.len()) && (r is Err ==> edit_refused(
                old(self).node_at(index).record.input_values@,
                values@,
                m,
            )) && edit_reported(
                old(self).messages@,
                final(self).messages@,
                some_changed(old(self).node_at(index).record.input_values@, values@, m),
            ),
            final(self).graph == old(self).graph,
    {
        if !self.contains_node(index) {
            return Err(Error::NodeNotFound(index));
        }
        let ghost before = *self;
        let (changed, res) = self.edit_all(index, &values, 0);
        let ghost mid = *self;
        if changed {
            self.emit_event(Event::GraphDirtied);
        }
        proof {
            assert(self.node_at(index) == mid.node_at(index));
        }
        res
    }

    /// Set the config values of a node from `values`, one per slot from slot
    /// 0, stopping at the first slot that refuses its value. If any value
    /// changed, reports `GraphDirtied` and reconfigures the node.
    pub fn edit_all_node_configs(&mut self, index: usize, values: Vec<Value>) -> (r: Result<(), Error>)
        requires
            old(self).wf(),
        ensures
            final(self).wf(),
            !old(self).live(index) ==> (r matches Err(Error::NodeNotFound(n)) && n == index),
            old(self).live(index) ==> exists|m: int| #[trigger] edited_prefix(
                old(self).node_at(index).record.config_values@,
                final(self).node_at(index).record.config_values@,
                values@,
                m,
            ) && (m < values@.len() ==> r is Err && edit_refused(
                old(self).node_at(index).record.config_values@,
                values@,
                m,
            )) && (some_changed(old(self).node_at(index).record.config_values@, values@, m)
                <==> final(self).messages@.len() > old(self).messages@.len()) && (some_changed(
                old(self).node_at(index).record.config_values@,
                values@,
                m,
            ) ==> final(self).messages@[old(self).messages@.len() as int] == Message::Event(
                Event::GraphDirtied,
            )),
            graph_nodes(final(self).graph) == graph_nodes(old(self).graph),
    {
        if !self.contains_node(index) {
            return Err(Error::NodeNotFound(index));
        }
        let ghost before = *self;
        let (changed, res) = self.edit_all(index, &values, 2);
        proof {
            assert(self.live(index) == before.live(index));
        }
        if changed {
            self.emit_event(Event::GraphDirtied);
            let ghost m1 = self.messages@;
            let ghost cfg = self.node_at(index).record.config_values@;
            assert(self.live(index));
            let rr = self.reconfigure_node(index);
            proof {
                assert(self.messages@.subrange(0, m1.len() as int) == m1);
                assert(self.messages@[before.messages@.len() as int] == m1[before.messages@.len() as int]);
            }
            if res.is_err() {
                return res;
            }
            return rr;
        }
        res
    }
}

} // verus!
