//! Connecting and disconnecting slots and deleting nodes.

use vstd::prelude::*;
use crate::error::Error;
use crate::gpu_pool::{not_owned_by, owned_by_node, releases_appended};
use crate::history::{Event, Message, Mutation, pushed, same_mutation};
use crate::execution::same_but_incoming;
use crate::node::{ConnectionProbe, Node, probe_of};
use crate::topology::{lemma_add_edge_acyclic, lemma_subgraph, EdgeEnds, edges_closed, graph_edges, graph_nodes, has_edge, is_walk, reaches, topology_add_edge, topology_connecting, topology_edges, topology_has_path, topology_incoming, topology_remove_edge, topology_remove_node};
use crate::engine::{Engine, lemma_occupied_set, occupied, reported};

verus! {
/// The input an edge fed holds no buffered value (where the node and slot
/// exist).
pub open spec fn buffer_cleared(e: Engine, ends: EdgeEnds) -> bool {
    e.live(ends.1) && ends.3 < e.node_at(ends.1).incoming@.len() ==> e.node_at(ends.1).incoming@[ends.3 as int] is None
}

/// Edge `d` ends at input `slot` of node `to`.
pub open spec fn drives(edges: Map<usize, EdgeEnds>, d: usize, to: usize, slot: usize) -> bool {
    edges.contains_key(d) && edges[d].1 == to && edges[d].3 == slot
}

/// Some edge ends at input `slot` of node `to`.
pub open spec fn has_driver(edges: Map<usize, EdgeEnds>, to: usize, slot: usize) -> bool {
    exists|d: usize| #[trigger] drives(edges, d, to, slot)
}

impl Engine {
    /// The edge ending at input `slot` of node `to`, if any.
    fn find_driver(&self, to: usize, slot: usize) -> (r: Option<(usize, EdgeEnds)>)
        requires
            graph_nodes(self.graph).contains(to),
        ensures
            r matches Some(p) ==> drives(self.edges(), p.0, to, slot) && self.edges()[p.0] == p.1,
            r is None ==> !has_driver(self.edges(), to, slot),
    {
        let list = topology_incoming(&self.graph, to);
        let mut k: usize = 0;
        while k < list.len()
            invariant
                k <= list@.len(),
                forall|j: int| 0 <= j < list@.len() ==> #[trigger] graph_edges(self.graph).contains_key(list@[j].0)
                    && graph_edges(self.graph)[list@[j].0] == list@[j].1 && list@[j].1.1 == to,
                forall|e: usize| #[trigger] graph_edges(self.graph).contains_key(e) && graph_edges(self.graph)[e].1 == to
                    ==> exists|j: int| 0 <= j < list@.len() && list@[j].0 == e,
                forall|j: int| 0 <= j < k ==> (#[trigger] list@[j]).1.3 != slot,
            decreases list@.len() - k,
        {
            let (e, ends) = list[k];
            if ends.3 == slot {
                return Some((e, ends));
            }
            k = k + 1;
        }
        proof {
            assert forall|d: usize| !(#[trigger] drives(self.edges(), d, to, slot)) by {
                if drives(self.edges(), d, to, slot) {
                    let j = choose|j: int| 0 <= j < list@.len() && list@[j].0 == d;
                    assert(list@[j].1 == self.edges()[d]);
                }
            }
        }
        None
    }

    /// The edge from output `from_slot` of `from` to input `to_slot` of `to`.
    fn find_edge(&self, from: usize, to: usize, from_slot: usize, to_slot: usize) -> (r: Option<usize>)
        requires
            graph_nodes(self.graph).contains(from),
            graph_nodes(self.graph).contains(to),
        ensures
            r matches Some(e) ==> self.edges().contains_key(e) && self.edges()[e] == (
                from,
                to,
                from_slot,
                to_slot,
            ),
            r is None ==> forall|e: usize| #[trigger] self.edges().contains_key(e) ==> self.edges()[e]
                != (from, to, from_slot, to_slot),
    {
        let list = topology_connecting(&self.graph, from, to);
        let mut k: usize = 0;
        while k < list.len()
            invariant
                k <= list@.len(),
                forall|j: int| 0 <= j < list@.len() ==> #[trigger] graph_edges(self.graph).contains_key(list@[j].0)
                    && graph_edges(self.graph)[list@[j].0] == list@[j].1 && list@[j].1.0 == from && list@[j].1.1 == to,
                forall|e: usize| #[trigger] graph_edges(self.graph).contains_key(e) && graph_edges(self.graph)[e].0 == from
                    && graph_edges(self.graph)[e].1 == to ==> exists|j: int| 0 <= j < list@.len() && list@[j].0 == e,
                forall|j: int| 0 <= j < k ==> !((#[trigger] list@[j]).1.2 == from_slot && list@[j].1.3 == to_slot),
            decreases list@.len() - k,
        {
            let (e, ends) = list[k];
            if ends.2 == from_slot && ends.3 == to_slot {
                return Some(e);
            }
            k = k + 1;
        }
        proof {
            assert forall|e: usize| #[trigger] self.edges().contains_key(e) implies self.edges()[e] != (
                from,
                to,
                from_slot,
                to_slot,
            ) by {
                if self.edges()[e] == (from, to, from_slot, to_slot) {
                    let j = choose|j: int| 0 <= j < list@.len() && list@[j].0 == e;
                    assert(list@[j].1 == self.edges()[e]);
                }
            }
        }
        None
    }

    /// Connect output `from_slot` of `from` to input `to_slot` of `to`.
    ///
    /// Refused, changing nothing, when a node is missing, a slot is missing,
    /// the types cannot be cast, or `from` can already be reached from `to`
    /// (the edge would close a loop), and also when the graph's edge index
    /// space is exhausted. An existing driver of the input is removed and
    /// reported as `Disconnect` before the `Connect`.
    pub fn connect(&mut self, from: usize, to: usize, from_slot: usize, to_slot: usize) -> (r: Result<
        (),
        Error,
    >)
        requires
            old(self).wf(),
        ensures
            final(self).wf(),
            !old(self).live(from) ==> (r matches Err(Error::NodeNotFound(n)) && n == from),
            old(self).live(from) && !old(self).live(to) ==> (r matches Err(Error::NodeNotFound(n))
                && n == to),
            old(self).live(from) && old(self).live(to) ==> {
                let p = probe_of(
                    old(self).node_at(from).signature,
                    old(self).node_at(to).signature,
                    from_slot,
                    to_slot,
                );
                &&& p == ConnectionProbe::NoSourceSlot ==> (r matches Err(Error::NoOutputSlot(s))
                    && s == from_slot)
                &&& p == ConnectionProbe::NoSinkSlot ==> (r matches Err(Error::NoInputSlot(s)) && s
                    == to_slot)
                &&& p == ConnectionProbe::Incompatible ==> (r matches Err(
                    Error::IncompatibleTypes { from_slot: a, to_slot: b },
                ) && a == from_slot && b == to_slot)
                &&& p == ConnectionProbe::Valid && reaches(old(self).edges(), to, from) ==> (r matches Err(
                    Error::CreatesLoop,
                ))
                &&& p == ConnectionProbe::Valid && !reaches(old(self).edges(), to, from) ==> (r is Ok
                    || r matches Err(Error::CapacityExceeded))
                &&& p == ConnectionProbe::Valid && !reaches(old(self).edges(), to, from) && old(
                    self,
                ).edges().len() < u32::MAX ==> r is Ok
            },
            r is Err ==> *final(self) == *old(self),
            r is Ok ==> {
                &&& graph_nodes(final(self).graph) == graph_nodes(old(self).graph)
                &&& final(self).nodes@ == old(self).nodes@
                &&& forall|e: usize| #[trigger] drives(final(self).edges(), e, to, to_slot)
                    ==> final(self).edges()[e] == (from, to, from_slot, to_slot)
                &&& exists|n: usize| #[trigger] final(self).edges().contains_key(n)
                    && !old(self).edges().contains_key(n) && final(self).edges()[n] == (
                    from,
                    to,
                    from_slot,
                    to_slot,
                ) && ({
                    ||| exists|d: usize| #[trigger] drives(old(self).edges(), d, to, to_slot)
                        && final(self).edges() == old(self).edges().remove(d).insert(
                        n,
                        (from, to, from_slot, to_slot),
                    ) && final(self).history.undo_stack@ == pushed(
                        pushed(
                            old(self).history.undo_stack@,
                            Mutation::Disconnect {
                                from_node: old(self).edges()[d].0,
                                from_slot: old(self).edges()[d].2,
                                to_node: to,
                                to_slot,
                            },
                            old(self).history.max_size as nat,
                        ),
                        Mutation::Connect { from_node: from, from_slot, to_node: to, to_slot },
                        old(self).history.max_size as nat,
                    ) && final(self).messages@ == reported(
                        reported(
                            old(self).messages@,
                            Mutation::Disconnect {
                                from_node: old(self).edges()[d].0,
                                from_slot: old(self).edges()[d].2,
                                to_node: to,
                                to_slot,
                            },
                        ),
                        Mutation::Connect { from_node: from, from_slot, to_node: to, to_slot },
                    )
                    ||| !has_driver(old(self).edges(), to, to_slot) && final(self).edges()
                        == old(self).edges().insert(n, (from, to, from_slot, to_slot))
                        && final(self).messages@ == reported(
                        old(self).messages@,
                        Mutation::Connect { from_node: from, from_slot, to_node: to, to_slot },
                    ) && final(self).history.undo_stack@ == pushed(
                        old(self).history.undo_stack@,
                        Mutation::Connect { from_node: from, from_slot, to_node: to, to_slot },
                        old(self).history.max_size as nat,
                    )
                })
                &&& final(self).history.max_size == old(self).history.max_size
            },
    {
        if !self.contains_node(from) {
            return Err(Error::NodeNotFound(from));
        }
        if !self.contains_node(to) {
            return Err(Error::NodeNotFound(to));
        }
        let probe = match (&self.nodes[from], &self.nodes[to]) {
            (Some(a), Some(b)) => a.probe_connect(b, from_slot, to_slot),
            _ => ConnectionProbe::NoSourceSlot,
        };
        match probe {
            ConnectionProbe::Valid => {},
            ConnectionProbe::NoSourceSlot => return Err(Error::NoOutputSlot(from_slot)),
            ConnectionProbe::NoSinkSlot => return Err(Error::NoInputSlot(to_slot)),
            ConnectionProbe::Incompatible => return Err(Error::IncompatibleTypes { from_slot, to_slot }),
            ConnectionProbe::CreatesLoop => return Err(Error::CreatesLoop),
        }
        proof {
            assert(graph_nodes(self.graph).contains(from));
            assert(graph_nodes(self.graph).contains(to));
        }
        if topology_has_path(&self.graph, to, from) {
            return Err(Error::CreatesLoop);
        }
        let ghost edges0 = self.edges();
        let ghost msgs0 = self.messages@;
        let ghost undo0 = self.history.undo_stack@;
        let driver = self.find_driver(to, to_slot);
        let n = match topology_add_edge(&mut self.graph, from, to, (from_slot, to_slot)) {
            Some(n) => n,
            None => {
                return Err(Error::CapacityExceeded);
            },
        };
        proof {
            lemma_add_edge_acyclic(edges0, n, (from, to, from_slot, to_slot));
        }
        let ghost edges1 = self.edges();
        if let Some((d, ends)) = driver {
            proof {
                assert(edges0.contains_key(d));
                assert(edges1.contains_key(d));
            }
            topology_remove_edge(&mut self.graph, d);
            self.emit_mutation(
                Mutation::Disconnect { from_node: ends.0, from_slot: ends.2, to_node: to, to_slot },
            );
        }
        let ghost edges2 = self.edges();
        let ghost msgs2 = self.messages@;
        let ghost undo2 = self.history.undo_stack@;
        proof {
            lemma_subgraph(edges2, edges1);
            assert forall|e: usize| #[trigger] drives(edges2, e, to, to_slot) implies e == n by {
                if e != n {
                    assert(drives(edges0, e, to, to_slot));
                    if let Some((d, ends)) = driver {
                        assert(e != d);
                        assert(edges0.contains_key(d) && edges0.contains_key(e));
                    }
                }
            }
        }
        self.emit_mutation(Mutation::Connect { from_node: from, from_slot, to_node: to, to_slot });
        proof {
            assert forall|a: usize, b: usize|
                #![trigger self.edges().contains_key(a), self.edges().contains_key(b)]
                self.edges().contains_key(a) && self.edges().contains_key(b) && self.edges()[a].1
                    == self.edges()[b].1 && self.edges()[a].3 == self.edges()[b].3 implies a == b by {
                if a != n && b != n {
                    assert(edges0.contains_key(a) && edges0.contains_key(b));
                } else if a == n && b != n {
                    assert(drives(edges2, b, to, to_slot));
                } else if a != n && b == n {
                    assert(drives(edges2, a, to, to_slot));
                }
            }
            assert forall|e: usize| #[trigger] drives(self.edges(), e, to, to_slot) implies self.edges()[e]
                == (from, to, from_slot, to_slot) by {
                assert(drives(edges2, e, to, to_slot));
            }
            let c = Mutation::Connect { from_node: from, from_slot, to_node: to, to_slot };
            assert(self.edges().contains_key(n));
            assert(!edges0.contains_key(n));
            if let Some((d, ends)) = driver {
                assert(drives(edges0, d, to, to_slot));
                assert(self.edges() =~= edges0.remove(d).insert(n, (from, to, from_slot, to_slot)));
                let dm = Mutation::Disconnect { from_node: edges0[d].0, from_slot: edges0[d].2, to_node: to, to_slot };
                assert(msgs2 == reported(msgs0, dm));
                assert(self.messages@ == reported(msgs2, c));
                assert(undo2 == pushed(undo0, dm, self.history.max_size as nat));
                assert(self.history.undo_stack@ == pushed(undo2, c, self.history.max_size as nat));
            } else {
                assert(edges2 == edges1);
                assert(msgs2 == msgs0);
                assert(undo2 == undo0);
                assert(self.edges() == edges0.insert(n, (from, to, from_slot, to_slot)));
            }
        }
        Ok(())
    }

    /// Remove the edge from output `from_slot` of `from` to input `to_slot`
    /// of `to`, forget the value it delivered, and report `Disconnect`.
    pub fn disconnect(&mut self, from: usize, to: usize, from_slot: usize, to_slot: usize) -> (r: Result<
        (),
        Error,
    >)
        requires
            old(self).wf(),
        ensures
            final(self).wf(),
            !old(self).live(from) ==> (r matches Err(Error::NodeNotFound(n)) && n == from),
            old(self).live(from) && !old(self).live(to) ==> (r matches Err(Error::NodeNotFound(n))
                && n == to),
            old(self).live(from) && old(self).live(to) ==> ((r is Ok) <==> exists|e: usize|
                #[trigger] old(self).edges().contains_key(e) && old(self).edges()[e] == (
                    from,
                    to,
                    from_slot,
                    to_slot,
                )),
            old(self).live(from) && old(self).live(to) && r is Err ==> (r matches Err(
                Error::EdgeNotFound { from_slot: a, to_slot: b },
            ) && a == from_slot && b == to_slot),
            r is Err ==> *final(self) == *old(self),
            r is Ok ==> {
                &&& graph_nodes(final(self).graph) == graph_nodes(old(self).graph)
                &&& exists|e: usize| #[trigger] old(self).edges().contains_key(e)
                    && old(self).edges()[e] == (from, to, from_slot, to_slot) && final(self).edges()
                    == old(self).edges().remove(e)
                &&& final(self).messages@ == reported(
                    old(self).messages@,
                    Mutation::Disconnect { from_node: from, from_slot, to_node: to, to_slot },
                )
                &&& final(self).history.undo_stack@ == pushed(
                    old(self).history.undo_stack@,
                    Mutation::Disconnect { from_node: from, from_slot, to_node: to, to_slot },
                    old(self).history.max_size as nat,
                )
                &&& to_slot < old(self).node_at(to).incoming@.len() ==> final(self).node_at(to).incoming@
                    == old(self).node_at(to).incoming@.update(to_slot as int, None)
                &&& final(self).nodes@.len() == old(self).nodes@.len()
                &&& forall|j: usize| j != to && j < old(self).nodes@.len() ==> #[trigger] final(self).nodes@[j as int] == old(
                    self,
                ).nodes@[j as int]
                &&& forall|j: usize| #[trigger] final(self).live(j) == old(self).live(j)
            },
    {
        if !self.contains_node(from) {
            return Err(Error::NodeNotFound(from));
        }
        if !self.contains_node(to) {
            return Err(Error::NodeNotFound(to));
        }
        proof {
            assert(graph_nodes(self.graph).contains(from) && graph_nodes(self.graph).contains(to));
        }
        let e = match self.find_edge(from, to, from_slot, to_slot) {
            Some(e) => e,
            None => return Err(Error::EdgeNotFound { from_slot, to_slot }),
        };
        let ghost before = *self;
        topology_remove_edge(&mut self.graph, e);
        let ghost mid = *self;
        let mut node = self.take_node(to);
        node.clear_incoming(to_slot);
        self.put_node(to, node);
        proof {
            assert(graph_nodes(before.graph).contains(to));
            let b2 = Engine { graph: before.graph, ..*self };
            assert(before.wf());
        }
        self.emit_mutation(Mutation::Disconnect { from_node: from, from_slot, to_node: to, to_slot });
        proof {
            assert forall|j: usize| #[trigger] graph_nodes(self.graph).contains(j) <==> self.live(j) by {
                assert(graph_nodes(before.graph).contains(j) <==> before.live(j));
            }
            assert forall|j: int| 0 <= j < self.nodes@.len() && (#[trigger] self.nodes@[j]) is Some
                implies self.nodes@[j]->Some_0.wf() by {
                if j != to {
                    assert(self.nodes@[j] == before.nodes@[j]);
                }
            }
            assert forall|a: usize, b: usize|
                #![trigger self.edges().contains_key(a), self.edges().contains_key(b)]
                self.edges().contains_key(a) && self.edges().contains_key(b) && self.edges()[a].1
                    == self.edges()[b].1 && self.edges()[a].3 == self.edges()[b].3 implies a == b by {
                assert(before.edges().contains_key(a) && before.edges().contains_key(b));
            }
            lemma_subgraph(self.edges(), before.edges());
            assert(before.edges().contains_key(e));
            assert(self.edges() == before.edges().remove(e));
            assert forall|j: usize| j != to && j < before.nodes@.len() implies #[trigger] self.nodes@[j as int] == before.nodes@[j as int] by {}
            assert forall|j: usize| #[trigger] self.live(j) == before.live(j) by {}
        }
        Ok(())
    }
}

/// The edge touches node `i`.
pub open spec fn incident(ends: EdgeEnds, i: usize) -> bool {
    ends.0 == i || ends.1 == i
}

/// The `Disconnect` that reports removing an edge.
pub open spec fn disconnect_of(ends: EdgeEnds) -> Mutation {
    Mutation::Disconnect { from_node: ends.0, from_slot: ends.2, to_node: ends.1, to_slot: ends.3 }
}

/// Message `base + 2j` of `msgs` reports removing edge `gone[j]`.
pub open spec fn disconnect_at(
    msgs: Seq<Message>,
    base: int,
    j: int,
    old_edges: Map<usize, EdgeEnds>,
    gone: Seq<usize>,
) -> bool {
    msgs[base + 2 * j] == Message::Mutation(disconnect_of(old_edges[gone[j]]))
}

/// Message `base + 2j + 1` of `msgs` is `GraphDirtied`.
pub open spec fn dirtied_at(msgs: Seq<Message>, base: int, j: int) -> bool {
    msgs[base + 2 * j + 1] == Message::Event(Event::GraphDirtied)
}

/// The messages `delete_node(i)` appends: for each edge touching `i`, once
/// and in the order of `gone`, its `Disconnect` and `GraphDirtied`; then
/// `DeleteNode` with the node's record and `GraphDirtied`.
pub open spec fn deletion_reported(
    before: Seq<Message>,
    after: Seq<Message>,
    old_edges: Map<usize, EdgeEnds>,
    i: usize,
    gone: Seq<usize>,
    node: Node,
) -> bool {
    let k = gone.len();
    &&& gone.no_duplicates()
    &&& forall|x: usize| #[trigger] gone.contains(x) <==> old_edges.contains_key(x) && incident(old_edges[x], i)
    &&& after.len() == before.len() + 2 * k + 2
    &&& after.subrange(0, before.len() as int) == before
    &&& forall|j: int| 0 <= j < k ==> #[trigger] disconnect_at(after, before.len() as int, j, old_edges, gone)
    &&& forall|j: int| 0 <= j < k ==> #[trigger] dirtied_at(after, before.len() as int, j)
    &&& after[before.len() + 2 * k as int] matches Message::Mutation(Mutation::DeleteNode { idx, record })
        && idx == i && record.same_as(node.record)
    &&& after[before.len() + 2 * k as int + 1] == Message::Event(Event::GraphDirtied)
}

impl Engine {
    /// Delete a node: disconnect each edge touching it (reporting each),
    /// release the textures it owns, remove it, and report `DeleteNode` with
    /// its record.
    pub fn delete_node(&mut self, index: usize) -> (r: Result<(), Error>)
        requires
            old(self).wf(),
        ensures
            final(self).wf(),
            !old(self).live(index) ==> (r matches Err(Error::NodeNotFound(n)) && n == index)
                && *final(self) == *old(self),
            old(self).live(index) ==> r is Ok,
            r is Ok ==> {
                &&& graph_nodes(final(self).graph) == graph_nodes(old(self).graph).remove(index)
                &&& final(self).nodes@.filter(occupied()).len() + 1 == old(self).nodes@.filter(occupied()).len()
                &&& forall|j: usize| j != index && #[trigger] old(self).live(j) ==> same_but_incoming(
                    final(self).node_at(j),
                    old(self).node_at(j),
                )
                &&& final(self).history.max_size == old(self).history.max_size
                &&& forall|x: usize| #[trigger] old(self).edges().contains_key(x) && incident(old(self).edges()[x], index)
                    && old(self).edges()[x].1 != index ==> buffer_cleared(*final(self), old(self).edges()[x])
                &&& old(self).history.max_size > 0 ==> (final(self).history.undo_stack@.last() matches Mutation::DeleteNode {
                    idx,
                    record,
                } && idx == index && record.same_as(old(self).node_at(index).record))
                &&& !final(self).live(index)
                &&& forall|j: usize| j != index ==> #[trigger] final(self).live(j) == old(self).live(j)
                &&& forall|e: usize| #[trigger] final(self).edges().contains_key(e)
                    == (old(self).edges().contains_key(e) && !incident(old(self).edges()[e], index))
                &&& forall|e: usize| #[trigger] final(self).edges().contains_key(e)
                    ==> final(self).edges()[e] == old(self).edges()[e]
                &&& exists|gone: Seq<usize>| #[trigger] deletion_reported(
                    old(self).messages@,
                    final(self).messages@,
                    old(self).edges(),
                    index,
                    gone,
                    old(self).node_at(index),
                ) && final(self).edges().len() + gone.len() == old(self).edges().len()
                &&& final(self).textures.entries@ == old(self).textures.entries@.filter(
                    not_owned_by(index),
                )
                &&& releases_appended(
                    old(self).textures.commands@,
                    final(self).textures.commands@,
                    old(self).textures.entries@.filter(owned_by_node(index)),
                )
            },
    {
        if !self.contains_node(index) {
            return Err(Error::NodeNotFound(index));
        }
        let ghost e0 = *self;
        let list = topology_edges(&self.graph);
        let mut c: usize = 0;
        let mut k: usize = 0;
        let ghost mut gone: Seq<usize> = Seq::empty();
        while k < list.len()
            invariant
                self.wf(),
                e0.wf(),
                e0 == *old(self),
                self.history.max_size == e0.history.max_size,
                gone.len() == c,
                gone.no_duplicates(),
                forall|x: usize| #[trigger] gone.contains(x) <==> e0.edges().contains_key(x) && !self.edges().contains_key(x),
                forall|j: usize| j != index && #[trigger] e0.live(j) ==> same_but_incoming(self.node_at(j), e0.node_at(j)),
                forall|x: usize| #[trigger] e0.edges().contains_key(x) && !self.edges().contains_key(x)
                    && e0.edges()[x].1 != index ==> buffer_cleared(*self, e0.edges()[x]),
                self.nodes@.filter(occupied()).len() == e0.nodes@.filter(occupied()).len(),
                self.live(index),
                self.nodes@[index as int] == e0.nodes@[index as int],
                self.nodes@.len() == e0.nodes@.len(),
                forall|j: usize| #[trigger] self.live(j) == e0.live(j),
                graph_nodes(self.graph) == graph_nodes(e0.graph),
                self.textures == e0.textures,
                k <= list@.len(),
                forall|j: int| 0 <= j < list@.len() ==> #[trigger] e0.edges().contains_key(list@[j].0)
                    && e0.edges()[list@[j].0] == list@[j].1,
                forall|e: usize| #[trigger] e0.edges().contains_key(e) ==> exists|j: int|
                    0 <= j < list@.len() && list@[j].0 == e,
                forall|j1: int, j2: int|
                    0 <= j1 < j2 < list@.len() ==> #[trigger] list@[j1].0 != #[trigger] list@[j2].0,
                forall|e: usize| #[trigger] self.edges().contains_key(e) <==> e0.edges().contains_key(e)
                    && !(incident(e0.edges()[e], index) && exists|j: int| 0 <= j < k && list@[j].0 == e),
                forall|e: usize| #[trigger] self.edges().contains_key(e) ==> self.edges()[e] == e0.edges()[e],
                self.edges().len() + c == e0.edges().len(),
                c <= k,
                self.messages@.len() == e0.messages@.len() + 2 * c,
                self.messages@.subrange(0, e0.messages@.len() as int) == e0.messages@,
                forall|j: int| 0 <= j < c ==> #[trigger] disconnect_at(self.messages@, e0.messages@.len() as int, j, e0.edges(), gone),
                forall|j: int| 0 <= j < c ==> #[trigger] dirtied_at(self.messages@, e0.messages@.len() as int, j),
            decreases list@.len() - k,
        {
            let (e, ends) = list[k];
            if ends.0 == index || ends.1 == index {
                let ghost before = *self;
                proof {
                    assert(!exists|j: int| 0 <= j < k && list@[j].0 == e);
                    assert(self.edges().contains_key(e));
                    self.edges().lemma_remove_key_len(e);
                }
                topology_remove_edge(&mut self.graph, e);
                if ends.1 != index {
                    proof {
                        assert(e0.edges().contains_key(e));
                        assert(graph_nodes(e0.graph).contains(ends.1));
                    }
                    let ghost b1 = *self;
                    let mut target = self.take_node(ends.1);
                    target.clear_incoming(ends.3);
                    let ghost tnew = target;
                    self.put_node(ends.1, target);
                    proof {
                        assert(self.nodes@ =~= b1.nodes@.update(ends.1 as int, Some(tnew)));
                        assert(b1.live(ends.1));
                        lemma_occupied_set(b1.nodes@, ends.1 as int, Some(tnew));
                        assert forall|x: usize| #[trigger] e0.edges().contains_key(x) && !self.edges().contains_key(x)
                            && e0.edges()[x].1 != index implies buffer_cleared(*self, e0.edges()[x]) by {
                            let d = e0.edges()[x];
                            if x != e {
                                assert(!b1.edges().contains_key(x));
                                assert(buffer_cleared(b1, d));
                                assert(graph_nodes(e0.graph).contains(d.1));
                                if d.1 != ends.1 {
                                    assert(self.nodes@[d.1 as int] == b1.nodes@[d.1 as int]);
                                }
                            } else {
                                assert(d == ends);
                            }
                        }
                    }
                }
                let ghost mid = *self;
                self.emit_mutation(disconnect_mutation(ends));
                c = c + 1;
                let ghost gone0 = gone;
                proof {
                    assert(!gone0.contains(e));
                    gone = gone0.push(e);
                    assert forall|x: usize| #[trigger] gone.contains(x) <==> e0.edges().contains_key(x) && !self.edges().contains_key(x) by {
                        if gone.contains(x) && x != e {
                            let q = choose|q: int| 0 <= q < gone.len() && gone[q] == x;
                            assert(gone0[q] == x);
                            assert(gone0.contains(x));
                        }
                        if x != e && e0.edges().contains_key(x) && !self.edges().contains_key(x) {
                            assert(gone0.contains(x));
                            let q = choose|q: int| 0 <= q < gone0.len() && gone0[q] == x;
                            assert(gone[q] == x);
                        }
                        if x == e {
                            assert(gone[gone.len() - 1] == e);
                        }
                    }
                    assert forall|j: usize| j != index && #[trigger] e0.live(j) implies same_but_incoming(self.node_at(j), e0.node_at(j)) by {
                        assert(same_but_incoming(before.node_at(j), e0.node_at(j)));
                        assert(before.live(j));
                    }
                    assert forall|j: usize| #[trigger] graph_nodes(self.graph).contains(j) <==> self.live(j) by {
                        assert(graph_nodes(before.graph).contains(j) <==> before.live(j));
                        if j == ends.1 && ends.1 != index {
                            assert(self.live(j));
                        }
                    }
                    assert forall|j: int| 0 <= j < self.nodes@.len() && (#[trigger] self.nodes@[j]) is Some
                        implies self.nodes@[j]->Some_0.wf() by {
                        if j != ends.1 {
                            assert(self.nodes@[j] == before.nodes@[j]);
                        }
                    }
                    assert forall|a: usize, b: usize|
                        #![trigger self.edges().contains_key(a), self.edges().contains_key(b)]
                        self.edges().contains_key(a) && self.edges().contains_key(b) && self.edges()[a].1
                            == self.edges()[b].1 && self.edges()[a].3 == self.edges()[b].3 implies a == b by {
                        assert(before.edges().contains_key(a) && before.edges().contains_key(b));
                    }
                    lemma_subgraph(self.edges(), before.edges());
                    assert forall|j: usize| #[trigger] self.live(j) == e0.live(j) by {
                        assert(before.live(j) == e0.live(j));
                    }
                    assert forall|x: usize| #[trigger] self.edges().contains_key(x) <==> e0.edges().contains_key(x)
                        && !(incident(e0.edges()[x], index) && exists|j: int| 0 <= j < k + 1 && list@[j].0 == x) by {
                        if x == e {
                            assert(list@[k as int].0 == x);
                        } else {
                            if exists|j: int| 0 <= j < k + 1 && list@[j].0 == x {
                                let j = choose|j: int| 0 <= j < k + 1 && list@[j].0 == x;
                                assert(j != k);
                            }
                        }
                    }
                    let m0 = e0.messages@.len();
                    assert(self.messages@[m0 + 2 * (c - 1)] == Message::Mutation(disconnect_of(e0.edges()[e])));
                    assert forall|j: int| 0 <= j < c implies #[trigger] disconnect_at(self.messages@, m0 as int, j, e0.edges(), gone) by {
                        if j < c - 1 {
                            assert(disconnect_at(before.messages@, m0 as int, j, e0.edges(), gone0));
                            assert(self.messages@[m0 + 2 * j] == before.messages@[m0 + 2 * j]);
                            assert(gone[j] == gone0[j]);
                        } else {
                            assert(e0.edges().contains_key(e));
                            assert(gone[j] == e);
                        }
                    }
                    assert forall|j: int| 0 <= j < c implies #[trigger] dirtied_at(self.messages@, m0 as int, j) by {
                        if j < c - 1 {
                            assert(dirtied_at(before.messages@, m0 as int, j));
                            assert(self.messages@[m0 + 2 * j + 1] == before.messages@[m0 + 2 * j + 1]);
                        }
                    }
                    assert(self.messages@.subrange(0, m0 as int) =~= e0.messages@) by {
                        assert(before.messages@.subrange(0, m0 as int) == e0.messages@);
                    }
                }
            } else {
                proof {
                    assert forall|x: usize| #[trigger] self.edges().contains_key(x) <==> e0.edges().contains_key(x)
                        && !(incident(e0.edges()[x], index) && exists|j: int| 0 <= j < k + 1 && list@[j].0 == x) by {
                        if exists|j: int| 0 <= j < k + 1 && list@[j].0 == x {
                            let j = choose|j: int| 0 <= j < k + 1 && list@[j].0 == x;
                            if j == k {
                                assert(e0.edges().contains_key(list@[k as int].0));
                                assert(e0.edges()[x] == ends);
                            }
                        }
                    }
                }
            }
            k = k + 1;
        }
        let ghost e1 = *self;
        proof {
            assert forall|x: usize| #[trigger] self.edges().contains_key(x) <==> e0.edges().contains_key(x)
                && !incident(e0.edges()[x], index) by {
                if e0.edges().contains_key(x) {
                    let j = choose|j: int| 0 <= j < list@.len() && list@[j].0 == x;
                }
            }
        }
        self.textures.release_node_textures(index);
        proof {
            assert(graph_nodes(self.graph).contains(index));
        }
        topology_remove_node(&mut self.graph, index);
        proof {
            assert(self.edges() =~= e1.edges());
        }
        let ghost before_take = self.nodes@;
        let node = self.take_node(index);
        proof {
            lemma_occupied_set(before_take, index as int, None);
        }
        let record = node.record.duplicate();
        let ghost rec = record;
        let ghost e2 = *self;
        self.emit_mutation(Mutation::DeleteNode { idx: index, record });
        proof {
            assert forall|j: usize| #[trigger] graph_nodes(self.graph).contains(j) <==> self.live(j) by {
                assert(graph_nodes(e1.graph).contains(j) <==> e1.live(j));
            }
            assert forall|j: int| 0 <= j < self.nodes@.len() && (#[trigger] self.nodes@[j]) is Some
                implies self.nodes@[j]->Some_0.wf() by {
                assert(self.nodes@[j] == e1.nodes@[j]);
            }
            assert forall|a: usize, b: usize|
                #![trigger self.edges().contains_key(a), self.edges().contains_key(b)]
                self.edges().contains_key(a) && self.edges().contains_key(b) && self.edges()[a].1
                    == self.edges()[b].1 && self.edges()[a].3 == self.edges()[b].3 implies a == b by {
                assert(e1.edges().contains_key(a) && e1.edges().contains_key(b));
            }
            assert(edges_closed(graph_nodes(self.graph), self.edges())) by {
                assert forall|x: usize| #[trigger] self.edges().contains_key(x) implies graph_nodes(self.graph).contains(self.edges()[x].0)
                    && graph_nodes(self.graph).contains(self.edges()[x].1) by {
                    assert(e1.edges().contains_key(x));
                    assert(!incident(e0.edges()[x], index));
                }
            }
            let m0 = e0.messages@.len();
            assert(self.messages@.subrange(0, m0 as int) =~= e0.messages@) by {
                assert(e1.messages@.subrange(0, m0 as int) == e0.messages@);
            }
            assert forall|j: int| 0 <= j < c implies #[trigger] disconnect_at(self.messages@, m0 as int, j, e0.edges(), gone) by {
                assert(disconnect_at(e1.messages@, m0 as int, j, e0.edges(), gone));
                assert(self.messages@[m0 + 2 * j] == e1.messages@[m0 + 2 * j]);
            }
            assert forall|x: usize| #[trigger] gone.contains(x) <==> e0.edges().contains_key(x) && incident(e0.edges()[x], index) by {
                assert(e1.edges().contains_key(x) <==> e0.edges().contains_key(x) && !incident(e0.edges()[x], index));
            }
            assert forall|j: usize| j != index && #[trigger] e0.live(j) implies same_but_incoming(self.node_at(j), e0.node_at(j)) by {
                assert(same_but_incoming(e1.node_at(j), e0.node_at(j)));
                assert(self.nodes@[j as int] == e1.nodes@[j as int]);
            }
            if e0.history.max_size > 0 {
                let h = choose|h: Mutation| same_mutation(h, Mutation::DeleteNode { idx: index, record: rec })
                    && self.history.undo_stack@ == pushed(e2.history.undo_stack@, h, e2.history.max_size as nat);
                assert(self.history.undo_stack@.last() == h);
            }
            assert forall|j: int| 0 <= j < c implies #[trigger] dirtied_at(self.messages@, m0 as int, j) by {
                assert(dirtied_at(e1.messages@, m0 as int, j));
                assert(self.messages@[m0 + 2 * j + 1] == e1.messages@[m0 + 2 * j + 1]);
            }
            assert(self.edges().len() + c == e0.edges().len());
            assert(deletion_reported(e0.messages@, self.messages@, e0.edges(), index, gone, e0.node_at(index)));
            assert forall|j: usize| j != index implies #[trigger] self.live(j) == e0.live(j) by {
                assert(e1.live(j) == e0.live(j));
                if j < self.nodes@.len() {
                    assert(self.nodes@[j as int] == e1.nodes@[j as int]);
                }
            }
        }
        Ok(())
    }
}

/// The `Disconnect` reporting the removal of an edge.
pub(crate) fn disconnect_mutation(ends: EdgeEnds) -> (r: Mutation)
    ensures
        r == disconnect_of(ends),
{
    Mutation::Disconnect { from_node: ends.0, from_slot: ends.2, to_node: ends.1, to_slot: ends.3 }
}

/// An edge from `a` to `b` is a walk from `a` to `b`: so once `a` feeds `b`,
/// connecting `b` back into `a` is refused as a loop.
pub proof fn lemma_edge_closes_loop(edges: Map<usize, EdgeEnds>, e: usize)
    requires
        edges.contains_key(e),
    ensures
        reaches(edges, edges[e].0, edges[e].1),
{
    let p = seq![edges[e].0, edges[e].1];
    assert(has_edge(edges, p[0], p[1]));
    assert(is_walk(edges, p));
}

} // verus!
