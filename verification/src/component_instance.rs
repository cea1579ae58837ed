//! A live execution context: a private copy of a component's graph plus the
//! fired, active and staged working sets, stepped one cycle at a time.
//!
//! Each cycle has three phases: propagate the signal bits of the nodes that
//! fired last cycle, stage the cells they signal or sense through
//! associations, then activate the staged batch. Every direct signal effect
//! of a cycle precedes every associative sensing of that cycle.

use vstd::prelude::*;

use crate::component::{
    CellNode, Component, ComponentGraph, Edge, GraphEdge, InstanceComponentIx, Node,
};
use crate::errors::EngineError;

verus! {

/// The contribution of edge `e` to the pending-signal set of node `t`, when
/// the nodes in `srcs` fire: the edge's bit if `e` is a signal edge from
/// `src` to `t`, and zero otherwise.
pub open spec fn signal_bit_of(e: GraphEdge, src: usize, t: usize) -> u32 {
    match e.edge {
        Edge::Signal(s) => if e.source == src && e.target == t && s.signal_bit < 32 {
            1u32 << s.signal_bit
        } else {
            0u32
        },
        _ => 0u32,
    }
}

/// The bits that the edges in `edges` carry from a firing `src` into `t`.
pub open spec fn signal_bits_from_edges(edges: Seq<GraphEdge>, src: usize, t: usize) -> u32
    decreases edges.len(),
{
    if edges.len() == 0 {
        0u32
    } else {
        signal_bits_from_edges(edges.drop_last(), src, t) | signal_bit_of(edges.last(), src, t)
    }
}

/// The bits that the edges in `edges` carry from all firing `srcs` into `t`.
pub open spec fn signal_bits_from_sources(
    edges: Seq<GraphEdge>,
    srcs: Seq<usize>,
    t: usize,
) -> u32
    decreases srcs.len(),
{
    if srcs.len() == 0 {
        0u32
    } else {
        signal_bits_from_sources(edges, srcs.drop_last(), t) | signal_bits_from_edges(
            edges,
            srcs.last(),
            t,
        )
    }
}

/// Edge `j` of `g` is a signal edge from `src` into a cell, carrying a bit
/// outside the cell's 32-bit pending-signal set.
pub open spec fn oversized_signal_into_cell(g: ComponentGraph, src: usize, j: int) -> bool {
    0 <= j < g.edges@.len() && g.edges@[j].source == src && (match g.edges@[j].edge {
        Edge::Signal(s) => s.signal_bit >= 32,
        _ => false,
    }) && g.nodes@[g.edges@[j].target as int] is Cell
}

/// Some firing source in `srcs` signals a cell with an oversized bit.
pub open spec fn has_oversized_signal(g: ComponentGraph, srcs: Seq<usize>) -> bool {
    exists|i: int, j: int|
        0 <= i < srcs.len() && oversized_signal_into_cell(g, srcs[i], j)
}

/// `e` is a signal edge from `src` to `t`.
pub open spec fn sig_edge_from_to(e: GraphEdge, src: usize, t: usize) -> bool {
    e.source == src && e.target == t && e.edge is Signal
}

/// `e` is an association edge from `src` to `t`.
pub open spec fn assoc_edge_from_to(e: GraphEdge, src: usize, t: usize) -> bool {
    e.source == src && e.target == t && e.edge is Association
}

/// Some firing source in `srcs` has a signal edge to `t`.
pub open spec fn is_sig_target(g: ComponentGraph, srcs: Seq<usize>, t: usize) -> bool {
    exists|i: int, j: int|
        0 <= i < srcs.len() && 0 <= j < g.edges@.len() && sig_edge_from_to(
            g.edges@[j],
            srcs[i],
            t,
        )
}

/// Some firing cell in `srcs` has an association edge to `t`.
pub open spec fn is_assoc_target(g: ComponentGraph, srcs: Seq<usize>, t: usize) -> bool {
    exists|i: int, j: int|
        0 <= i < srcs.len() && 0 <= j < g.edges@.len() && srcs[i] < g.nodes@.len()
            && g.nodes@[srcs[i] as int] is Cell && assoc_edge_from_to(g.edges@[j], srcs[i], t)
}

/// Node `t` of `g` is a cell that the staging phase of a cycle with firing
/// sources `srcs` newly schedules: it is not yet staged, and some source
/// signals it or senses it through an association.
pub open spec fn newly_staged(g: ComponentGraph, srcs: Seq<usize>, t: usize) -> bool {
    t < g.nodes@.len() && g.nodes@[t as int] is Cell && !g.nodes@[t as int].staged_flag() && (
    is_sig_target(g, srcs, t) || is_assoc_target(g, srcs, t))
}

/// The staging phase over firing sources `srcs` meets a graph shape the
/// model does not allow: a connection edge out of a firing node, a signal
/// edge into a node that can receive no signal, or a firing node of a kind
/// that cannot fire.
pub open spec fn staging_fault(g: ComponentGraph, srcs: Seq<usize>) -> bool {
    (exists|i: int, j: int| edge_fault_at(g, srcs, i, j)) || (exists|i: int|
        0 <= i < srcs.len() && srcs[i] < g.nodes@.len() && !(g.nodes@[srcs[i] as int] is Cell
            || g.nodes@[srcs[i] as int] is ConnectorIn))
}

/// Firing the sources `srcs` signals a resolved output connector routed to
/// `e`: the event the orchestrator consumes to deliver a cross-instance
/// signal.
pub open spec fn connector_event(g: ComponentGraph, srcs: Seq<usize>, e: InstanceComponentIx) -> bool {
    exists|i: int, j: int|
        0 <= i < srcs.len() && 0 <= j < g.edges@.len() && g.edges@[j].source == srcs[i]
            && g.edges@[j].edge is Signal && (match g.nodes@[g.edges@[j].target as int] {
            Node::ConnectorOut(co) => co.to_instance_connector == Some(e),
            _ => false,
        })
}

/// The graph holds an output connector resolved to this route — the only
/// source a connector event can have.
pub open spec fn routed_event(g: ComponentGraph, e: InstanceComponentIx) -> bool {
    exists|t: usize|
        t < g.nodes@.len() && (match #[trigger] g.nodes@[t as int] {
            Node::ConnectorOut(co) => co.to_instance_connector == Some(e),
            _ => false,
        })
}

/// A cycle never changes output connectors, so the routes a graph can emit
/// to are stable across stepping.
proof fn lemma_step_keeps_routed_events(pre: ComponentInstance, post: ComponentInstance)
    requires
        post.component.graph.nodes@.len() == pre.component.graph.nodes@.len(),
        forall|n: usize|
            n < pre.component.graph.nodes@.len() ==> (
            #[trigger] post.component.graph.nodes@[n as int]).same_but_flags_and_signals(
                pre.component.graph.nodes@[n as int],
            ),
    ensures
        forall|e: InstanceComponentIx|
            routed_event(pre.component.graph, e) == #[trigger] routed_event(
                post.component.graph,
                e,
            ),
{
    assert forall|e: InstanceComponentIx|
        routed_event(pre.component.graph, e) == #[trigger] routed_event(
            post.component.graph,
            e,
        ) by {
        if routed_event(pre.component.graph, e) {
            let t = choose|t: usize|
                t < pre.component.graph.nodes@.len() && (
                match #[trigger] pre.component.graph.nodes@[t as int] {
                    Node::ConnectorOut(co) => co.to_instance_connector == Some(e),
                    _ => false,
                });
            assert(post.component.graph.nodes@[t as int].same_but_flags_and_signals(
                pre.component.graph.nodes@[t as int],
            ));
            assert(routed_event(post.component.graph, e));
        }
        if routed_event(post.component.graph, e) {
            let t = choose|t: usize|
                t < post.component.graph.nodes@.len() && (
                match #[trigger] post.component.graph.nodes@[t as int] {
                    Node::ConnectorOut(co) => co.to_instance_connector == Some(e),
                    _ => false,
                });
            assert(post.component.graph.nodes@[t as int].same_but_flags_and_signals(
                pre.component.graph.nodes@[t as int],
            ));
            assert(routed_event(pre.component.graph, e));
        }
    }
}

/// What one cycle reports back: whether the instance still has work, and the
/// output connectors that fired, for the orchestrator to route.
pub struct StepOutcome {
    pub is_active: bool,
    pub signaled_connectors: Vec<InstanceComponentIx>,
}

/// A live execution context for one component: a private copy of the
/// component's graph, the three working sets, the queue of externally
/// injected signals, and the cycle counter.
#[derive(Debug)]
pub struct ComponentInstance {
    /// A collision-resistant identifier distinguishing this instance.
    pub id: String,
    pub node_name: String,
    pub component: Component,
    pub fired_nodes: Vec<usize>,
    pub active_nodes: Vec<usize>,
    pub staged_nodes: Vec<usize>,
    pub incoming_signals: Vec<usize>,
    pub instance_cycle: usize,
}

impl ComponentInstance {
    /// Every working-set entry names a node of the instance's graph.
    pub open spec fn lists_in_range(self) -> bool {
        let n = self.component.graph.nodes@.len();
        (forall|k: int|
            0 <= k < self.fired_nodes@.len() ==> (#[trigger] self.fired_nodes@[k]) < n) && (forall|
            k: int,
        |
            0 <= k < self.active_nodes@.len() ==> (#[trigger] self.active_nodes@[k]) < n) && (
        forall|k: int|
            0 <= k < self.staged_nodes@.len() ==> (#[trigger] self.staged_nodes@[k]) < n) && (
        forall|k: int|
            0 <= k < self.incoming_signals@.len() ==> (#[trigger] self.incoming_signals@[k]) < n)
    }

    /// The staged list holds each node at most once, and holds exactly the
    /// nodes whose staged flag is set. This is what makes staging
    /// idempotent: a cell reachable from several simultaneously firing
    /// sources is scheduled exactly once.
    pub open spec fn staged_ok(self) -> bool {
        (forall|k1: int, k2: int|
            0 <= k1 < k2 < self.staged_nodes@.len() ==> self.staged_nodes@[k1]
                != self.staged_nodes@[k2]) && (forall|n: usize|
            n < self.component.graph.nodes@.len() ==> ((
            #[trigger] self.component.graph.nodes@[n as int].staged_flag())
                <==> self.staged_nodes@.contains(n)))
    }

    /// The instance's well-formedness: a well-formed graph, in-range working
    /// sets, and a consistent staged list.
    pub open spec fn wf(self) -> bool {
        self.component.graph.wf() && self.lists_in_range() && self.staged_ok()
    }

    /// The instance has pending work: something staged, fired, or injected.
    pub open spec fn is_active_spec(self) -> bool {
        self.staged_nodes@.len() > 0 || self.fired_nodes@.len() > 0
            || self.incoming_signals@.len() > 0
    }

    /// No staged, fired or injected work at all.
    pub open spec fn quiescent(self) -> bool {
        self.staged_nodes@.len() == 0 && self.fired_nodes@.len() == 0
            && self.incoming_signals@.len() == 0
    }

    /// A fresh instance over a private copy of `component`'s graph, with the
    /// nodes of `init_cells` already staged for the first cycle.
    pub fn new(node_name: String, component: &Component, init_cells: &[usize]) -> (r:
        ComponentInstance)
        requires
            component.graph.wf(),
            component.graph.is_inert(),
            forall|k1: int, k2: int|
                0 <= k1 < k2 < init_cells@.len() ==> init_cells@[k1] != init_cells@[k2],
            forall|k: int|
                0 <= k < init_cells@.len() ==> (#[trigger] init_cells@[k])
                    < component.graph.nodes@.len(),
            forall|k: int|
                0 <= k < init_cells@.len() ==> (component.graph.nodes@[init_cells@[k] as int]
                    is Cell || component.graph.nodes@[init_cells@[k] as int] is ConnectorIn),
        ensures
            r.wf(),
            r.node_name == node_name,
            r.component.name == component.name,
            r.component.graph.edges@ == component.graph.edges@,
            r.component.graph.nodes@.len() == component.graph.nodes@.len(),
            forall|n: int|
                0 <= n < component.graph.nodes@.len() ==> (#[trigger] r.component.graph.nodes@[n]).same_but_flags_and_signals(
                    component.graph.nodes@[n],
                ) && r.component.graph.nodes@[n].same_but_flags(component.graph.nodes@[n]),
            forall|n: usize|
                n < component.graph.nodes@.len() ==> ((
                #[trigger] r.component.graph.nodes@[n as int].staged_flag())
                    <==> init_cells@.contains(n)),
            forall|n: int|
                0 <= n < component.graph.nodes@.len() ==> !(
                #[trigger] r.component.graph.nodes@[n].fired_flag()),
            r.staged_nodes@ == init_cells@,
            r.fired_nodes@.len() == 0,
            r.active_nodes@.len() == 0,
            r.incoming_signals@.len() == 0,
            r.instance_cycle == 0,
    {
        let mut graph = component.graph.duplicate();
        let mut staged: Vec<usize> = Vec::new();
        let mut k: usize = 0;
        while k < init_cells.len()
            invariant
                k <= init_cells@.len(),
                staged@ == init_cells@.take(k as int),
                graph.edges@ == component.graph.edges@,
                graph.nodes@.len() == component.graph.nodes@.len(),
                forall|k1: int, k2: int|
                    0 <= k1 < k2 < init_cells@.len() ==> init_cells@[k1] != init_cells@[k2],
                forall|i: int|
                    0 <= i < init_cells@.len() ==> (#[trigger] init_cells@[i])
                        < component.graph.nodes@.len(),
                forall|i: int|
                    0 <= i < init_cells@.len() ==> (component.graph.nodes@[init_cells@[i] as int]
                        is Cell || component.graph.nodes@[init_cells@[i] as int] is ConnectorIn),
                forall|n: int|
                    0 <= n < graph.nodes@.len() ==> (#[trigger] graph.nodes@[n]).same_but_flags(
                        component.graph.nodes@[n],
                    ),
                forall|n: usize|
                    n < graph.nodes@.len() ==> ((
                    #[trigger] graph.nodes@[n as int].staged_flag()) <==> (exists|i: int|
                        0 <= i < k && init_cells@[i] == n)),
                forall|n: int|
                    0 <= n < graph.nodes@.len() ==> !(#[trigger] graph.nodes@[n].fired_flag()),
                component.graph.is_inert(),
                component.graph.wf(),
            decreases init_cells@.len() - k,
        {
            let ix = init_cells[k];
            let ghost gpre = graph.nodes@;
            proof {
                assert(!graph.nodes@[ix as int].fired_flag());
                assert(graph.nodes@[ix as int].same_but_flags(component.graph.nodes@[ix as int]));
            }
            set_staged_flag(&mut graph.nodes[ix]);
            staged.push(ix);
            proof {
                assert(init_cells@.take(k + 1 as int) =~= init_cells@.take(k as int).push(
                    init_cells@[k as int],
                ));
                assert forall|n: usize| n < graph.nodes@.len() implies ((
                #[trigger] graph.nodes@[n as int].staged_flag()) <==> (exists|i: int|
                    0 <= i < k + 1 && init_cells@[i] == n)) by {
                    if n == ix {
                        assert(graph.nodes@[n as int].staged_flag());
                        assert(init_cells@[k as int] == n);
                    } else {
                        assert(graph.nodes@[n as int] == gpre[n as int]);
                        assert(gpre[n as int].staged_flag() <==> (exists|i: int|
                            0 <= i < k && init_cells@[i] == n));
                        if exists|i: int| 0 <= i < k + 1 && init_cells@[i] == n {
                            let i = choose|i: int| 0 <= i < k + 1 && init_cells@[i] == n;
                            assert(i != k);
                        }
                    }
                }
            }
            k += 1;
        }
        proof {
            assert(init_cells@.take(init_cells@.len() as int) =~= init_cells@);
        }
        let r = ComponentInstance {
            id: generate_instance_id(),
            node_name,
            component: Component { name: component.name.clone(), graph },
            fired_nodes: Vec::new(),
            active_nodes: Vec::new(),
            staged_nodes: staged,
            incoming_signals: Vec::new(),
            instance_cycle: 0,
        };
        proof {
            assert(forall|n: int|
                0 <= n < component.graph.nodes@.len() ==> (
                #[trigger] r.component.graph.nodes@[n]).same_but_flags_and_signals(
                    component.graph.nodes@[n],
                ));
        }
        r
    }

    /// Whether the instance still has pending work.
    pub fn is_active(&self) -> (r: bool)
        ensures
            r == self.is_active_spec(),
    {
        self.staged_nodes.len() > 0 || self.fired_nodes.len() > 0
            || self.incoming_signals.len() > 0
    }

    /// Queue an externally injected signal on the connector at `node_index`.
    /// At the start of the next cycle the node joins the fired set, so the
    /// injection is treated exactly like a locally fired node.
    pub fn signal_connector_in(&mut self, node_index: usize)
        requires
            node_index < old(self).component.graph.nodes@.len(),
        ensures
            final(self).incoming_signals@ == old(self).incoming_signals@.push(node_index),
            final(self).fired_nodes@ == old(self).fired_nodes@,
            final(self).active_nodes@ == old(self).active_nodes@,
            final(self).staged_nodes@ == old(self).staged_nodes@,
            final(self).component == old(self).component,
            final(self).instance_cycle == old(self).instance_cycle,
            final(self).id == old(self).id,
            final(self).node_name == old(self).node_name,
            old(self).wf() ==> final(self).wf(),
    {
        self.incoming_signals.push(node_index);
    }

    /// Phase one of a cycle: merge the externally injected signals into the
    /// fired set, then walk the outgoing signal edges of every fired node
    /// and OR each edge's bit into its target cell's pending-signal set.
    ///
    /// Fails exactly when some fired node signals a cell with a bit outside
    /// the 32-bit pending-signal set.
    #[verifier::loop_isolation(false)]
    fn propagate_fired_signals(&mut self) -> (r: Result<(), EngineError>)
        requires
            old(self).wf(),
        ensures
            final(self).wf(),
            final(self).fired_nodes@ == old(self).fired_nodes@ + old(self).incoming_signals@,
            final(self).incoming_signals@.len() == 0,
            final(self).staged_nodes@ == old(self).staged_nodes@,
            final(self).active_nodes@ == old(self).active_nodes@,
            final(self).component.graph.edges@ == old(self).component.graph.edges@,
            final(self).component.graph.nodes@.len() == old(self).component.graph.nodes@.len(),
            final(self).component.name == old(self).component.name,
            final(self).id == old(self).id,
            final(self).node_name == old(self).node_name,
            final(self).instance_cycle == old(self).instance_cycle,
            forall|t: usize|
                t < old(self).component.graph.nodes@.len()
                    && !(old(self).component.graph.nodes@[t as int] is Cell)
                    ==> final(self).component.graph.nodes@[t as int]
                    == old(self).component.graph.nodes@[t as int],
            forall|t: usize|
                t < old(self).component.graph.nodes@.len() ==> (
                #[trigger] final(self).component.graph.nodes@[t as int]).same_but_flags_and_signals(
                    old(self).component.graph.nodes@[t as int],
                ) && final(self).component.graph.nodes@[t as int].staged_flag() == old(
                    self,
                ).component.graph.nodes@[t as int].staged_flag()
                    && final(self).component.graph.nodes@[t as int].fired_flag() == old(
                    self,
                ).component.graph.nodes@[t as int].fired_flag(),
            (r is Ok) <==> !has_oversized_signal(
                old(self).component.graph,
                old(self).fired_nodes@ + old(self).incoming_signals@,
            ),
            r is Ok ==> forall|t: usize|
                t < old(self).component.graph.nodes@.len() ==> (
                #[trigger] final(self).component.graph.nodes@[t as int]) == node_after_bits(
                    old(self).component.graph.nodes@[t as int],
                    signal_bits_from_sources(
                        old(self).component.graph.edges@,
                        old(self).fired_nodes@ + old(self).incoming_signals@,
                        t,
                    ),
                ),
    {
        self.fired_nodes.append(&mut self.incoming_signals);
        let ghost g0 = self.component.graph;
        let ghost merged = self.fired_nodes@;
        let n_edges = self.component.graph.edges.len();
        proof {
            assert forall|t: usize| t < g0.nodes@.len() implies (
            #[trigger] self.component.graph.nodes@[t as int]) == node_after_bits(
                g0.nodes@[t as int],
                signal_bits_from_sources(g0.edges@, merged.take(0int), t),
            ) by {
                match g0.nodes@[t as int] {
                    Node::Cell(c) => {
                        lemma_u32_or_zero(c.signals);
                    },
                    _ => {},
                }
            }
        }
        let mut i: usize = 0;
        while i < self.fired_nodes.len()
            invariant
                i <= merged.len(),
                self.fired_nodes@ == merged,
                self.incoming_signals@.len() == 0,
                self.staged_nodes@ == old(self).staged_nodes@,
                self.active_nodes@ == old(self).active_nodes@,
                self.component.graph.edges@ == g0.edges@,
                self.component.graph.nodes@.len() == g0.nodes@.len(),
                self.component.name == old(self).component.name,
                self.id == old(self).id,
                self.node_name == old(self).node_name,
                self.instance_cycle == old(self).instance_cycle,
                forall|t: usize|
                    t < g0.nodes@.len() ==> (#[trigger] self.component.graph.nodes@[t as int])
                        == node_after_bits(
                        g0.nodes@[t as int],
                        signal_bits_from_sources(g0.edges@, merged.take(i as int), t),
                    ),
                forall|i2: int, j2: int|
                    0 <= i2 < i && 0 <= j2 < g0.edges@.len() ==> !oversized_signal_into_cell(
                        g0,
                        merged[i2],
                        j2,
                    ),
            decreases merged.len() - i,
        {
            let src = self.fired_nodes[i];
            proof {
                assert forall|t: usize| t < g0.nodes@.len() implies (
                #[trigger] self.component.graph.nodes@[t as int]) == node_after_bits(
                    g0.nodes@[t as int],
                    signal_bits_from_sources(g0.edges@, merged.take(i as int), t)
                        | signal_bits_from_edges(g0.edges@.take(0int), src, t),
                ) by {
                    let a = signal_bits_from_sources(g0.edges@, merged.take(i as int), t);
                    lemma_u32_or_zero(a);
                }
            }
            let mut j: usize = 0;
            while j < n_edges
                invariant
                    j <= g0.edges@.len(),
                    i < merged.len(),
                    src == merged[i as int],
                    self.fired_nodes@ == merged,
                    self.incoming_signals@.len() == 0,
                    self.staged_nodes@ == old(self).staged_nodes@,
                    self.active_nodes@ == old(self).active_nodes@,
                    self.component.graph.edges@ == g0.edges@,
                    self.component.graph.nodes@.len() == g0.nodes@.len(),
                    self.component.name == old(self).component.name,
                    self.id == old(self).id,
                    self.node_name == old(self).node_name,
                    self.instance_cycle == old(self).instance_cycle,
                    forall|t: usize|
                        t < g0.nodes@.len() ==> (#[trigger] self.component.graph.nodes@[t as int])
                            == node_after_bits(
                            g0.nodes@[t as int],
                            signal_bits_from_sources(g0.edges@, merged.take(i as int), t)
                                | signal_bits_from_edges(g0.edges@.take(j as int), src, t),
                        ),
                    forall|i2: int, j2: int|
                        0 <= i2 < i && 0 <= j2 < g0.edges@.len() ==> !oversized_signal_into_cell(
                            g0,
                            merged[i2],
                            j2,
                        ),
                    forall|j2: int|
                        0 <= j2 < j ==> !oversized_signal_into_cell(g0, src, j2),
                decreases g0.edges@.len() - j,
            {
                let esrc = self.component.graph.edges[j].source;
                let etgt = self.component.graph.edges[j].target;
                let bit_opt: Option<u8> = match &self.component.graph.edges[j].edge {
                    Edge::Signal(sg) => Some(sg.signal_bit),
                    _ => None,
                };
                let ghost pre_nodes = self.component.graph.nodes@;
                if esrc == src {
                    if let Some(bit) = bit_opt {
                        if bit >= 32 {
                            proof {
                                assert(self.component.graph.nodes@[etgt as int]
                                    == node_after_bits(
                                    g0.nodes@[etgt as int],
                                    signal_bits_from_sources(
                                        g0.edges@,
                                        merged.take(i as int),
                                        etgt,
                                    ) | signal_bits_from_edges(
                                        g0.edges@.take(j as int),
                                        src,
                                        etgt,
                                    ),
                                ));
                            }
                            let target_is_cell = matches!(
                                &self.component.graph.nodes[etgt],
                                Node::Cell(_)
                            );
                            if target_is_cell {
                                proof {
                                    assert(oversized_signal_into_cell(g0, src, j as int));
                                    assert(has_oversized_signal(g0, merged));
                                    assert forall|n: usize| n < g0.nodes@.len() implies (
                                    #[trigger] self.component.graph.nodes@[n as int].staged_flag())
                                        == g0.nodes@[n as int].staged_flag()
                                        && self.component.graph.nodes@[n as int].fired_flag()
                                        == g0.nodes@[n as int].fired_flag()
                                        && self.component.graph.nodes@[n as int].same_but_flags_and_signals(
                                        g0.nodes@[n as int],
                                    ) by {
                                        assert(self.component.graph.nodes@[n as int]
                                            == node_after_bits(
                                            g0.nodes@[n as int],
                                            signal_bits_from_sources(
                                                g0.edges@,
                                                merged.take(i as int),
                                                n,
                                            ) | signal_bits_from_edges(
                                                g0.edges@.take(j as int),
                                                src,
                                                n,
                                            ),
                                        ));
                                    }
                                    assert(self.wf());
                                }
                                return Err(EngineError::SignalBitTooLarge { edge: j });
                            }
                        } else {
                            match &mut self.component.graph.nodes[etgt] {
                                Node::Cell(c) => {
                                    c.set_signal(bit);
                                },
                                _ => {},
                            }
                        }
                    }
                }
                proof {
                    lemma_bits_edges_step(g0.edges@, src, j as int);
                    assert forall|t: usize| t < g0.nodes@.len() implies (
                    #[trigger] self.component.graph.nodes@[t as int]) == node_after_bits(
                        g0.nodes@[t as int],
                        signal_bits_from_sources(g0.edges@, merged.take(i as int), t)
                            | signal_bits_from_edges(g0.edges@.take(j + 1 as int), src, t),
                    ) by {
                        let a = signal_bits_from_sources(g0.edges@, merged.take(i as int), t);
                        let b = signal_bits_from_edges(g0.edges@.take(j as int), src, t);
                        let x = signal_bit_of(g0.edges@[j as int], src, t);
                        assert(signal_bits_from_edges(g0.edges@.take(j + 1 as int), src, t) == b
                            | x);
                        match g0.nodes@[t as int] {
                            Node::Cell(c) => {
                                if t == etgt && esrc == src && bit_opt is Some && bit_opt->0
                                    < 32 {
                                    assert(x == 1u32 << bit_opt->0);
                                    lemma_u32_or_assoc(c.signals, a | b, x);
                                    lemma_u32_or_assoc(a, b, x);
                                    assert(self.component.graph.nodes@[t as int]
                                        == node_after_bits(g0.nodes@[t as int], a | (b | x)));
                                } else {
                                    assert(x == 0u32);
                                    lemma_u32_or_zero(b);
                                    assert(b | x == b);
                                    assert(self.component.graph.nodes@[t as int]
                                        == pre_nodes[t as int]);
                                }
                            },
                            _ => {
                                assert(self.component.graph.nodes@[t as int]
                                    == pre_nodes[t as int]);
                            },
                        }
                    }
                }
                j += 1;
            }
            proof {
                assert(g0.edges@.take(g0.edges@.len() as int) =~= g0.edges@);
                lemma_bits_sources_step(g0.edges@, merged, i as int);
                assert forall|t: usize| t < g0.nodes@.len() implies (
                #[trigger] self.component.graph.nodes@[t as int]) == node_after_bits(
                    g0.nodes@[t as int],
                    signal_bits_from_sources(g0.edges@, merged.take(i + 1 as int), t),
                ) by {
                    let a = signal_bits_from_sources(g0.edges@, merged.take(i as int), t);
                    let b = signal_bits_from_edges(g0.edges@, src, t);
                    assert(signal_bits_from_sources(g0.edges@, merged.take(i + 1 as int), t) == a
                        | b);
                }
            }
            i += 1;
        }
        proof {
            assert(merged.take(merged.len() as int) =~= merged);
            assert forall|t: usize| t < g0.nodes@.len() implies (
            #[trigger] self.component.graph.nodes@[t as int]) == node_after_bits(
                g0.nodes@[t as int],
                signal_bits_from_sources(g0.edges@, merged, t),
            ) by {}
            assert(!has_oversized_signal(g0, merged));
            assert forall|n: usize| n < g0.nodes@.len() implies (
            #[trigger] self.component.graph.nodes@[n as int].staged_flag()) == g0.nodes@[n as int].staged_flag()
                && self.component.graph.nodes@[n as int].fired_flag() == g0.nodes@[n as int].fired_flag()
                && self.component.graph.nodes@[n as int].same_but_flags_and_signals(
                g0.nodes@[n as int],
            ) by {
                assert(self.component.graph.nodes@[n as int] == node_after_bits(
                    g0.nodes@[n as int],
                    signal_bits_from_sources(g0.edges@, merged, n),
                ));
            }
            assert(self.wf()) by {
                assert forall|n: usize| n < self.component.graph.nodes@.len() implies ((
                #[trigger] self.component.graph.nodes@[n as int].staged_flag())
                    <==> self.staged_nodes@.contains(n)) by {
                    assert(g0.nodes@[n as int].staged_flag()
                        <==> old(self).staged_nodes@.contains(n));
                }
            }
        }
        Ok(())
    }

    /// Phase two of a cycle. First every fired node's outgoing signal edges
    /// are walked: unstaged target cells are staged, and each resolved
    /// output connector yields an event for the orchestrator. Then every
    /// fired cell's association edges are walked, staging unstaged target
    /// cells. Last, the fired flags are cleared and the fired list emptied.
    /// Sequencing all signal staging before all associative staging keeps
    /// the ordering guarantee of the engine.
    ///
    /// Fails exactly when the fired set meets a graph shape the model does
    /// not allow, and then leaves the fired list as it was.
    #[verifier::loop_isolation(false)]
    fn stage_signaled_and_associated_nodes(&mut self) -> (r: Result<
        Vec<InstanceComponentIx>,
        EngineError,
    >)
        requires
            old(self).wf(),
        ensures
            final(self).wf(),
            final(self).active_nodes@ == old(self).active_nodes@,
            final(self).incoming_signals@ == old(self).incoming_signals@,
            final(self).component.graph.edges@ == old(self).component.graph.edges@,
            final(self).component.graph.nodes@.len() == old(self).component.graph.nodes@.len(),
            final(self).component.name == old(self).component.name,
            final(self).id == old(self).id,
            final(self).node_name == old(self).node_name,
            final(self).instance_cycle == old(self).instance_cycle,
            forall|n: usize|
                n < old(self).component.graph.nodes@.len() ==> (
                #[trigger] final(self).component.graph.nodes@[n as int]).same_but_flags(
                    old(self).component.graph.nodes@[n as int],
                ),
            final(self).staged_nodes@.take(old(self).staged_nodes@.len() as int) == old(
                self,
            ).staged_nodes@,
            forall|k: int|
                old(self).staged_nodes@.len() <= k < final(self).staged_nodes@.len()
                    ==> newly_staged(
                    old(self).component.graph,
                    old(self).fired_nodes@,
                    #[trigger] final(self).staged_nodes@[k],
                ),
            forall|n: usize|
                n < old(self).component.graph.nodes@.len() && (
                #[trigger] final(self).component.graph.nodes@[n as int]).fired_flag() ==> old(
                    self,
                ).component.graph.nodes@[n as int].fired_flag(),
            (r is Ok) <==> !staging_fault(old(self).component.graph, old(self).fired_nodes@),
            r is Err ==> final(self).fired_nodes@ == old(self).fired_nodes@,
            r is Ok ==> final(self).fired_nodes@.len() == 0,
            r is Ok ==> forall|n: usize|
                n < old(self).component.graph.nodes@.len() ==> (
                #[trigger] final(self).component.graph.nodes@[n as int]).fired_flag() == (old(
                    self,
                ).component.graph.nodes@[n as int].fired_flag() && !old(
                    self,
                ).fired_nodes@.contains(n)),
            r is Ok ==> forall|n: usize|
                n < old(self).component.graph.nodes@.len() ==> ((
                #[trigger] final(self).component.graph.nodes@[n as int]).staged_flag() <==> (old(
                    self,
                ).component.graph.nodes@[n as int].staged_flag() || newly_staged(
                    old(self).component.graph,
                    old(self).fired_nodes@,
                    n,
                ))),
            r is Ok ==> exists|s: int|
                staged_batch_split(
                    old(self).component.graph,
                    old(self).fired_nodes@,
                    old(self).staged_nodes@.len() as int,
                    final(self).staged_nodes@,
                    s,
                ),
            r matches Ok(events) ==> (forall|e: InstanceComponentIx|
                events@.contains(e) <==> connector_event(
                    old(self).component.graph,
                    old(self).fired_nodes@,
                    e,
                )),
    {
        let ghost g0 = self.component.graph;
        let ghost srcs = self.fired_nodes@;
        let ghost s0len = self.staged_nodes@.len() as int;
        let mut events: Vec<InstanceComponentIx> = Vec::new();
        let n_edges = self.component.graph.edges.len();
        let n_fired = self.fired_nodes.len();

        // Signal pass: stage signal targets, collect connector events.
        let mut i: usize = 0;
        while i < n_fired
            invariant
                i <= srcs.len(),
                self.fired_nodes@ == srcs,
                self.incoming_signals@ == old(self).incoming_signals@,
                self.active_nodes@ == old(self).active_nodes@,
                self.component.graph.edges@ == g0.edges@,
                self.component.graph.nodes@.len() == g0.nodes@.len(),
                self.component.name == old(self).component.name,
                self.id == old(self).id,
                self.node_name == old(self).node_name,
                self.instance_cycle == old(self).instance_cycle,
                self.wf(),
                self.staged_nodes@.take(s0len) == old(self).staged_nodes@,
                s0len <= self.staged_nodes@.len(),
                forall|n: usize|
                    n < g0.nodes@.len() ==> (
                    #[trigger] self.component.graph.nodes@[n as int]).same_but_flags(
                        g0.nodes@[n as int],
                    ),
                forall|n: usize|
                    n < g0.nodes@.len() ==> (
                    #[trigger] self.component.graph.nodes@[n as int]).fired_flag()
                        == g0.nodes@[n as int].fired_flag(),
                forall|n: usize|
                    n < g0.nodes@.len() && g0.nodes@[n as int].staged_flag() ==> (
                    #[trigger] self.component.graph.nodes@[n as int]).staged_flag(),
                forall|k: int|
                    s0len <= k < self.staged_nodes@.len() ==> g0.nodes@[(
                    #[trigger] self.staged_nodes@[k]) as int] is Cell && !g0.nodes@[self.staged_nodes@[k] as int].staged_flag()
                        && is_sig_target(g0, srcs, self.staged_nodes@[k]),
                forall|t: usize|
                    t < g0.nodes@.len() && g0.nodes@[t as int] is Cell
                        && !g0.nodes@[t as int].staged_flag() && #[trigger] sig_target_before(
                        g0,
                        srcs,
                        i as int,
                        0,
                        t,
                    ) ==> self.staged_nodes@.contains(t),
                forall|e: InstanceComponentIx|
                    #[trigger] events@.contains(e) ==> connector_event(g0, srcs, e),
                forall|e: InstanceComponentIx|
                    #[trigger] connector_event_before(g0, srcs, i as int, 0, e)
                        ==> events@.contains(e),
                forall|i2: int, j2: int|
                    0 <= i2 && 0 <= j2 && (i2 < i) ==> !(#[trigger] edge_fault_at(
                        g0,
                        srcs,
                        i2,
                        j2,
                    )),
            decreases srcs.len() - i,
        {
            let src = self.fired_nodes[i];
            let mut j: usize = 0;
            while j < n_edges
                invariant
                    j <= g0.edges@.len(),
                    i < srcs.len(),
                    src == srcs[i as int],
                    self.fired_nodes@ == srcs,
                    self.incoming_signals@ == old(self).incoming_signals@,
                    self.active_nodes@ == old(self).active_nodes@,
                    self.component.graph.edges@ == g0.edges@,
                    self.component.graph.nodes@.len() == g0.nodes@.len(),
                    self.component.name == old(self).component.name,
                    self.id == old(self).id,
                    self.node_name == old(self).node_name,
                    self.instance_cycle == old(self).instance_cycle,
                    self.wf(),
                    self.staged_nodes@.take(s0len) == old(self).staged_nodes@,
                    s0len <= self.staged_nodes@.len(),
                    forall|n: usize|
                        n < g0.nodes@.len() ==> (
                        #[trigger] self.component.graph.nodes@[n as int]).same_but_flags(
                            g0.nodes@[n as int],
                        ),
                    forall|n: usize|
                        n < g0.nodes@.len() ==> (
                        #[trigger] self.component.graph.nodes@[n as int]).fired_flag()
                            == g0.nodes@[n as int].fired_flag(),
                    forall|n: usize|
                        n < g0.nodes@.len() && g0.nodes@[n as int].staged_flag() ==> (
                        #[trigger] self.component.graph.nodes@[n as int]).staged_flag(),
                    forall|k: int|
                        s0len <= k < self.staged_nodes@.len() ==> g0.nodes@[(
                        #[trigger] self.staged_nodes@[k]) as int] is Cell
                            && !g0.nodes@[self.staged_nodes@[k] as int].staged_flag()
                            && is_sig_target(g0, srcs, self.staged_nodes@[k]),
                    forall|t: usize|
                        t < g0.nodes@.len() && g0.nodes@[t as int] is Cell
                            && !g0.nodes@[t as int].staged_flag() && #[trigger] sig_target_before(
                            g0,
                            srcs,
                            i as int,
                            j as int,
                            t,
                        ) ==> self.staged_nodes@.contains(t),
                    forall|e: InstanceComponentIx|
                        #[trigger] events@.contains(e) ==> connector_event(g0, srcs, e),
                    forall|e: InstanceComponentIx|
                        #[trigger] connector_event_before(g0, srcs, i as int, j as int, e)
                            ==> events@.contains(e),
                    forall|i2: int, j2: int|
                        0 <= i2 && 0 <= j2 && (i2 < i || (i2 == i && j2 < j)) ==> !(
                        #[trigger] edge_fault_at(g0, srcs, i2, j2)),
                decreases g0.edges@.len() - j,
            {
                let ghost staged_b = self.staged_nodes@;
                let ghost events_b = events@;
                let esrc = self.component.graph.edges[j].source;
                let etgt = self.component.graph.edges[j].target;
                let is_sig = matches!(&self.component.graph.edges[j].edge, Edge::Signal(_));
                let is_conn = matches!(&self.component.graph.edges[j].edge, Edge::Connection(_));
                if esrc == src {
                    if is_conn {
                        proof {
                            assert(edge_fault_at(g0, srcs, i as int, j as int));
                        }
                        return Err(EngineError::InvalidConnectionEdge { edge: j });
                    }
                    if is_sig {
                        let mut t_unstaged_cell = false;
                        let mut t_route: Option<InstanceComponentIx> = None;
                        let mut t_fault = false;
                        match &self.component.graph.nodes[etgt] {
                            Node::Cell(c) => {
                                t_unstaged_cell = !c.flags.staged;
                            },
                            Node::ConnectorOut(co) => {
                                t_route = co.to_instance_connector;
                            },
                            _ => {
                                t_fault = true;
                            },
                        }
                        if t_fault {
                            proof {
                                assert(self.component.graph.nodes@[etgt as int].same_but_flags(
                                    g0.nodes@[etgt as int],
                                ));
                                assert(edge_fault_at(g0, srcs, i as int, j as int));
                            }
                            return Err(EngineError::InvalidSignalTarget { node: etgt });
                        }
                        if t_unstaged_cell {
                            set_staged_flag(&mut self.component.graph.nodes[etgt]);
                            self.staged_nodes.push(etgt);
                            proof {
                                lemma_push_facts(staged_b, etgt);
                                assert(self.staged_nodes@[self.staged_nodes@.len() - 1] == etgt);
                                assert(sig_edge_from_to(g0.edges@[j as int], srcs[i as int], etgt));
                                assert(is_sig_target(g0, srcs, etgt));
                                assert(!staged_b.contains(etgt));
                                assert forall|n: usize|
                                    n < self.component.graph.nodes@.len() implies ((
                                #[trigger] self.component.graph.nodes@[n as int].staged_flag())
                                    <==> self.staged_nodes@.contains(n)) by {
                                    if n != etgt {
                                        assert(self.staged_nodes@.contains(n)
                                            == staged_b.contains(n));
                                    }
                                }
                            }
                        }
                        if let Some(ic) = t_route {
                            events.push(ic);
                            proof {
                                lemma_push_facts(events_b, ic);
                                assert(self.component.graph.nodes@[etgt as int]
                                    == g0.nodes@[etgt as int]);
                                assert(connector_event(g0, srcs, ic));
                            }
                        }
                    }
                }
                proof {
                    // The walk has advanced by the pair `(i, j)`.
                    assert(!edge_fault_at(g0, srcs, i as int, j as int));
                    assert forall|t: usize|
                        t < g0.nodes@.len() && g0.nodes@[t as int] is Cell
                            && !g0.nodes@[t as int].staged_flag() && #[trigger] sig_target_before(
                            g0,
                            srcs,
                            i as int,
                            j + 1 as int,
                            t,
                        ) implies self.staged_nodes@.contains(t) by {
                        if sig_target_before(g0, srcs, i as int, j as int, t) {
                            assert(staged_b.contains(t));
                            lemma_push_facts(staged_b, self.staged_nodes@.last());
                            assert(self.staged_nodes@.contains(t)) by {
                                if self.staged_nodes@ != staged_b {
                                    let idx = choose|idx: int|
                                        0 <= idx < staged_b.len() && staged_b[idx] == t;
                                    assert(self.staged_nodes@[idx] == t);
                                }
                            }
                        } else {
                            let (i2, j2) = choose|i2: int, j2: int|
                                0 <= i2 < srcs.len() && 0 <= j2 < g0.edges@.len() && (i2 < i || (
                                i2 == i && j2 < j + 1)) && sig_edge_from_to(
                                    g0.edges@[j2],
                                    srcs[i2],
                                    t,
                                );
                            assert(i2 == i && j2 == j);
                            assert(t == etgt);
                            assert(self.component.graph.nodes@[t as int].staged_flag());
                        }
                    }
                    assert forall|e: InstanceComponentIx|
                        #[trigger] connector_event_before(
                            g0,
                            srcs,
                            i as int,
                            j + 1 as int,
                            e,
                        ) implies events@.contains(e) by {
                        if connector_event_before(g0, srcs, i as int, j as int, e) {
                            assert(events_b.contains(e));
                            assert(events@.contains(e)) by {
                                if events@ != events_b {
                                    let idx = choose|idx: int|
                                        0 <= idx < events_b.len() && events_b[idx] == e;
                                    assert(events@[idx] == e);
                                }
                            }
                        } else {
                            let (i2, j2) = choose|i2: int, j2: int|
                                0 <= i2 < srcs.len() && 0 <= j2 < g0.edges@.len() && (i2 < i || (
                                i2 == i && j2 < j + 1)) && g0.edges@[j2].source == srcs[i2]
                                    && g0.edges@[j2].edge is Signal && (match g0.nodes@[g0.edges@[j2].target as int] {
                                    Node::ConnectorOut(co) => co.to_instance_connector == Some(e),
                                    _ => false,
                                });
                            assert(i2 == i && j2 == j);
                            assert(events@.last() == e);
                        }
                    }
                }
                j += 1;
            }
            proof {
                lemma_before_next_row(g0, srcs, i as int);
            }
            i += 1;
        }
        let ghost split = self.staged_nodes@.len() as int;
        proof {
            lemma_before_full(g0, srcs);
            assert(self.staged_nodes@.take(split) =~= self.staged_nodes@);
            assert forall|t: usize|
                t < g0.nodes@.len() && g0.nodes@[t as int] is Cell
                    && !g0.nodes@[t as int].staged_flag() && #[trigger] is_sig_target(
                    g0,
                    srcs,
                    t,
                ) implies self.staged_nodes@.take(split).contains(t) by {
                assert(i == srcs.len());
                assert(sig_target_before(g0, srcs, i as int, 0, t));
                assert(self.staged_nodes@.contains(t));
            }
            assert forall|e: InstanceComponentIx| #[trigger]
                events@.contains(e) <==> connector_event(g0, srcs, e) by {
                if connector_event(g0, srcs, e) {
                    assert(connector_event_before(g0, srcs, srcs.len() as int, 0, e));
                }
            }
        }

        // Association pass: fired cells sense through association edges.
        let mut i: usize = 0;
        while i < n_fired
            invariant
                i <= srcs.len(),
                self.fired_nodes@ == srcs,
                self.incoming_signals@ == old(self).incoming_signals@,
                self.active_nodes@ == old(self).active_nodes@,
                self.component.graph.edges@ == g0.edges@,
                self.component.graph.nodes@.len() == g0.nodes@.len(),
                self.component.name == old(self).component.name,
                self.id == old(self).id,
                self.node_name == old(self).node_name,
                self.instance_cycle == old(self).instance_cycle,
                self.wf(),
                self.staged_nodes@.take(s0len) == old(self).staged_nodes@,
                s0len <= split <= self.staged_nodes@.len(),
                forall|n: usize|
                    n < g0.nodes@.len() ==> (
                    #[trigger] self.component.graph.nodes@[n as int]).same_but_flags(
                        g0.nodes@[n as int],
                    ),
                forall|n: usize|
                    n < g0.nodes@.len() ==> (
                    #[trigger] self.component.graph.nodes@[n as int]).fired_flag()
                        == g0.nodes@[n as int].fired_flag(),
                forall|n: usize|
                    n < g0.nodes@.len() && g0.nodes@[n as int].staged_flag() ==> (
                    #[trigger] self.component.graph.nodes@[n as int]).staged_flag(),
                forall|k: int|
                    s0len <= k < self.staged_nodes@.len() ==> g0.nodes@[(
                    #[trigger] self.staged_nodes@[k]) as int] is Cell && !g0.nodes@[self.staged_nodes@[k] as int].staged_flag(),
                forall|k: int|
                    s0len <= k < split ==> is_sig_target(
                        g0,
                        srcs,
                        #[trigger] self.staged_nodes@[k],
                    ),
                forall|k: int|
                    split <= k < self.staged_nodes@.len() ==> !is_sig_target(
                        g0,
                        srcs,
                        #[trigger] self.staged_nodes@[k],
                    ) && is_assoc_target(g0, srcs, self.staged_nodes@[k]),
                forall|t: usize|
                    t < g0.nodes@.len() && g0.nodes@[t as int] is Cell
                        && !g0.nodes@[t as int].staged_flag() && #[trigger] is_sig_target(
                        g0,
                        srcs,
                        t,
                    ) ==> self.staged_nodes@.take(split).contains(t),
                forall|t: usize|
                    t < g0.nodes@.len() && g0.nodes@[t as int] is Cell
                        && !g0.nodes@[t as int].staged_flag() && #[trigger] assoc_target_before(
                        g0,
                        srcs,
                        i as int,
                        0,
                        t,
                    ) ==> self.staged_nodes@.contains(t),
                forall|e: InstanceComponentIx|
                    #[trigger] events@.contains(e) <==> connector_event(g0, srcs, e),
                forall|i2: int, j2: int|
                    0 <= i2 && 0 <= j2 ==> !(#[trigger] edge_fault_at(g0, srcs, i2, j2)),
            decreases srcs.len() - i,
        {
            let src = self.fired_nodes[i];
            let src_is_cell = matches!(&self.component.graph.nodes[src], Node::Cell(_));
            if src_is_cell {
                let mut j: usize = 0;
                while j < n_edges
                    invariant
                        j <= g0.edges@.len(),
                        i < srcs.len(),
                        src == srcs[i as int],
                        g0.nodes@[src as int] is Cell,
                        self.fired_nodes@ == srcs,
                        self.incoming_signals@ == old(self).incoming_signals@,
                        self.active_nodes@ == old(self).active_nodes@,
                        self.component.graph.edges@ == g0.edges@,
                        self.component.graph.nodes@.len() == g0.nodes@.len(),
                        self.component.name == old(self).component.name,
                        self.id == old(self).id,
                        self.node_name == old(self).node_name,
                        self.instance_cycle == old(self).instance_cycle,
                        self.wf(),
                        self.staged_nodes@.take(s0len) == old(self).staged_nodes@,
                        s0len <= split <= self.staged_nodes@.len(),
                        forall|n: usize|
                            n < g0.nodes@.len() ==> (
                            #[trigger] self.component.graph.nodes@[n as int]).same_but_flags(
                                g0.nodes@[n as int],
                            ),
                        forall|n: usize|
                            n < g0.nodes@.len() ==> (
                            #[trigger] self.component.graph.nodes@[n as int]).fired_flag()
                                == g0.nodes@[n as int].fired_flag(),
                        forall|n: usize|
                            n < g0.nodes@.len() && g0.nodes@[n as int].staged_flag() ==> (
                            #[trigger] self.component.graph.nodes@[n as int]).staged_flag(),
                        forall|k: int|
                            s0len <= k < self.staged_nodes@.len() ==> g0.nodes@[(
                            #[trigger] self.staged_nodes@[k]) as int] is Cell
                                && !g0.nodes@[self.staged_nodes@[k] as int].staged_flag(),
                        forall|k: int|
                            s0len <= k < split ==> is_sig_target(
                                g0,
                                srcs,
                                #[trigger] self.staged_nodes@[k],
                            ),
                        forall|k: int|
                            split <= k < self.staged_nodes@.len() ==> !is_sig_target(
                                g0,
                                srcs,
                                #[trigger] self.staged_nodes@[k],
                            ) && is_assoc_target(g0, srcs, self.staged_nodes@[k]),
                        forall|t: usize|
                            t < g0.nodes@.len() && g0.nodes@[t as int] is Cell
                                && !g0.nodes@[t as int].staged_flag() && #[trigger] is_sig_target(
                                g0,
                                srcs,
                                t,
                            ) ==> self.staged_nodes@.take(split).contains(t),
                        forall|t: usize|
                            t < g0.nodes@.len() && g0.nodes@[t as int] is Cell
                                && !g0.nodes@[t as int].staged_flag()
                                && #[trigger] assoc_target_before(g0, srcs, i as int, j as int, t)
                                ==> self.staged_nodes@.contains(t),
                        forall|e: InstanceComponentIx|
                            #[trigger] events@.contains(e) <==> connector_event(g0, srcs, e),
                        forall|i2: int, j2: int|
                            0 <= i2 && 0 <= j2 ==> !(#[trigger] edge_fault_at(g0, srcs, i2, j2)),
                    decreases g0.edges@.len() - j,
                {
                    let ghost staged_b = self.staged_nodes@;
                    let esrc = self.component.graph.edges[j].source;
                    let etgt = self.component.graph.edges[j].target;
                    let is_assoc = matches!(
                        &self.component.graph.edges[j].edge,
                        Edge::Association
                    );
                    if esrc == src && is_assoc {
                        let mut t_unstaged_cell = false;
                        match &self.component.graph.nodes[etgt] {
                            Node::Cell(c) => {
                                t_unstaged_cell = !c.flags.staged;
                            },
                            _ => {},
                        }
                        if t_unstaged_cell {
                            set_staged_flag(&mut self.component.graph.nodes[etgt]);
                            self.staged_nodes.push(etgt);
                            proof {
                                lemma_push_facts(staged_b, etgt);
                                assert(self.staged_nodes@[self.staged_nodes@.len() - 1] == etgt);
                                assert(assoc_edge_from_to(
                                    g0.edges@[j as int],
                                    srcs[i as int],
                                    etgt,
                                ));
                                assert(is_assoc_target(g0, srcs, etgt));
                                assert(!staged_b.contains(etgt));
                                // A signal target would already be staged.
                                assert(!is_sig_target(g0, srcs, etgt)) by {
                                    if is_sig_target(g0, srcs, etgt) {
                                        lemma_take_contains(staged_b, split, etgt);
                                    }
                                }
                                assert forall|n: usize|
                                    n < self.component.graph.nodes@.len() implies ((
                                #[trigger] self.component.graph.nodes@[n as int].staged_flag())
                                    <==> self.staged_nodes@.contains(n)) by {
                                    if n != etgt {
                                        assert(self.staged_nodes@.contains(n)
                                            == staged_b.contains(n));
                                    }
                                }
                            }
                        }
                    }
                    proof {
                        assert forall|t: usize|
                            t < g0.nodes@.len() && g0.nodes@[t as int] is Cell
                                && !g0.nodes@[t as int].staged_flag()
                                && #[trigger] assoc_target_before(
                                g0,
                                srcs,
                                i as int,
                                j + 1 as int,
                                t,
                            ) implies self.staged_nodes@.contains(t) by {
                            if assoc_target_before(g0, srcs, i as int, j as int, t) {
                                assert(staged_b.contains(t));
                                if self.staged_nodes@ != staged_b {
                                    let idx = choose|idx: int|
                                        0 <= idx < staged_b.len() && staged_b[idx] == t;
                                    assert(self.staged_nodes@[idx] == t);
                                }
                            } else {
                                let (i2, j2) = choose|i2: int, j2: int|
                                    0 <= i2 < srcs.len() && 0 <= j2 < g0.edges@.len() && (i2 < i
                                        || (i2 == i && j2 < j + 1)) && g0.nodes@[srcs[i2] as int]
                                        is Cell && assoc_edge_from_to(g0.edges@[j2], srcs[i2], t);
                                assert(i2 == i && j2 == j);
                                assert(t == etgt);
                                assert(self.component.graph.nodes@[t as int].staged_flag());
                            }
                        }
                    }
                    j += 1;
                }
                proof {
                    lemma_before_next_row(g0, srcs, i as int);
                }
            } else {
                proof {
                    assert(!(g0.nodes@[src as int] is Cell));
                    assert forall|t: usize|
                        t < g0.nodes@.len() && g0.nodes@[t as int] is Cell
                            && !g0.nodes@[t as int].staged_flag() && #[trigger] assoc_target_before(
                            g0,
                            srcs,
                            i + 1 as int,
                            0,
                            t,
                        ) implies self.staged_nodes@.contains(t) by {
                        let (i2, j2) = choose|i2: int, j2: int|
                            0 <= i2 < srcs.len() && 0 <= j2 < g0.edges@.len() && (i2 < i + 1)
                                && g0.nodes@[srcs[i2] as int] is Cell && assoc_edge_from_to(
                                g0.edges@[j2],
                                srcs[i2],
                                t,
                            );
                        assert(i2 < i);
                        assert(assoc_target_before(g0, srcs, i as int, 0, t));
                    }
                }
            }
            i += 1;
        }
        let ghost staged_final = self.staged_nodes@;
        proof {
            lemma_before_full(g0, srcs);
            assert(i == srcs.len());
            assert forall|t: usize|
                t < g0.nodes@.len() && g0.nodes@[t as int] is Cell
                    && !g0.nodes@[t as int].staged_flag() && #[trigger] is_assoc_target(
                    g0,
                    srcs,
                    t,
                ) implies staged_final.contains(t) by {
                assert(assoc_target_before(g0, srcs, i as int, 0, t));
            }
            assert forall|t: usize|
                t < g0.nodes@.len() && g0.nodes@[t as int] is Cell
                    && !g0.nodes@[t as int].staged_flag() && #[trigger] is_sig_target(
                    g0,
                    srcs,
                    t,
                ) implies staged_final.take(split).contains(t) by {}
            assert(forall|k: int|
                s0len <= k < staged_final.len() ==> g0.nodes@[(
                #[trigger] staged_final[k]) as int] is Cell && !g0.nodes@[staged_final[k] as int].staged_flag());
            assert(forall|k: int|
                s0len <= k < split ==> is_sig_target(g0, srcs, #[trigger] staged_final[k]));
            assert(forall|k: int|
                split <= k < staged_final.len() ==> !is_sig_target(
                    g0,
                    srcs,
                    #[trigger] staged_final[k],
                ) && is_assoc_target(g0, srcs, staged_final[k]));
            assert(staged_final.take(s0len) == old(self).staged_nodes@);
            assert(s0len <= split <= staged_final.len());
        }

        // Clearing pass: the fired set has propagated and staged; clear it.
        let ghost g_after_assoc = self.component.graph;
        let mut i: usize = 0;
        while i < n_fired
            invariant
                i <= srcs.len(),
                self.fired_nodes@ == srcs,
                self.incoming_signals@ == old(self).incoming_signals@,
                self.active_nodes@ == old(self).active_nodes@,
                self.staged_nodes@ == staged_final,
                self.component.graph.edges@ == g0.edges@,
                self.component.graph.nodes@.len() == g0.nodes@.len(),
                self.component.name == old(self).component.name,
                self.id == old(self).id,
                self.node_name == old(self).node_name,
                self.instance_cycle == old(self).instance_cycle,
                self.wf(),
                forall|n: usize|
                    n < g0.nodes@.len() ==> (
                    #[trigger] self.component.graph.nodes@[n as int]).same_but_flags(
                        g0.nodes@[n as int],
                    ),
                forall|n: usize|
                    n < g0.nodes@.len() ==> (
                    #[trigger] self.component.graph.nodes@[n as int]).staged_flag()
                        == g_after_assoc.nodes@[n as int].staged_flag(),
                forall|n: usize|
                    n < g0.nodes@.len() ==> (
                    #[trigger] self.component.graph.nodes@[n as int]).fired_flag() == (
                    g0.nodes@[n as int].fired_flag() && !srcs.take(i as int).contains(n)),
                forall|i2: int|
                    0 <= i2 < i ==> (g0.nodes@[(#[trigger] srcs[i2]) as int] is Cell
                        || g0.nodes@[srcs[i2] as int] is ConnectorIn),
            decreases srcs.len() - i,
        {
            let src = self.fired_nodes[i];
            let kind_ok = matches!(
                &self.component.graph.nodes[src],
                Node::Cell(_) | Node::ConnectorIn(_)
            );
            if !kind_ok {
                proof {
                    assert(self.component.graph.nodes@[src as int].same_but_flags(
                        g0.nodes@[src as int],
                    ));
                    assert(staging_fault(g0, srcs));
                }
                return Err(EngineError::InvalidFiredNode { node: src });
            }
            let ghost nodes_b = self.component.graph.nodes@;
            clear_fired_flag(&mut self.component.graph.nodes[src]);
            proof {
                assert(srcs.take(i + 1 as int) =~= srcs.take(i as int).push(srcs[i as int]));
                lemma_push_facts(srcs.take(i as int), srcs[i as int]);
                assert forall|n: usize|
                    n < g0.nodes@.len() implies (
                #[trigger] self.component.graph.nodes@[n as int]).fired_flag() == (
                g0.nodes@[n as int].fired_flag() && !srcs.take(i + 1 as int).contains(n)) by {
                    if n != src {
                        assert(self.component.graph.nodes@[n as int] == nodes_b[n as int]);
                        assert(srcs.take(i + 1 as int).contains(n) == srcs.take(
                            i as int,
                        ).contains(n));
                    } else {
                        assert(srcs.take(i + 1 as int).contains(n));
                    }
                }
                assert forall|n: usize|
                    n < self.component.graph.nodes@.len() implies ((
                #[trigger] self.component.graph.nodes@[n as int].staged_flag())
                    <==> self.staged_nodes@.contains(n)) by {
                    assert(nodes_b[n as int].staged_flag() <==> self.staged_nodes@.contains(n));
                }
            }
            i += 1;
        }
        proof {
            assert(srcs.take(srcs.len() as int) =~= srcs);
        }
        self.fired_nodes.clear();
        proof {
            assert(self.staged_nodes@ == staged_final);
            assert(staged_batch_split(g0, srcs, s0len, self.staged_nodes@, split)) by {
                assert forall|t: usize|
                    newly_staged(g0, srcs, t) && is_sig_target(g0, srcs, t) implies exists|k: int|
                    s0len <= k < split && self.staged_nodes@[k] == t by {
                    assert(self.staged_nodes@.take(split).contains(t));
                    let k = choose|k: int|
                        0 <= k < split && self.staged_nodes@.take(split)[k] == t;
                    assert(self.staged_nodes@[k] == t);
                    assert(k >= s0len) by {
                        if k < s0len {
                            lemma_take_contains(old(self).staged_nodes@, s0len, t);
                            assert(old(self).staged_nodes@[k] == t);
                            assert(old(self).staged_nodes@.contains(t));
                            assert(g0.nodes@[t as int].staged_flag());
                        }
                    }
                }
                assert forall|t: usize|
                    newly_staged(g0, srcs, t) && !is_sig_target(g0, srcs, t) implies exists|
                    k: int,
                |
                    split <= k < self.staged_nodes@.len() && self.staged_nodes@[k] == t by {
                    assert(is_assoc_target(g0, srcs, t));
                    assert(self.staged_nodes@.contains(t));
                    let k = choose|k: int|
                        0 <= k < self.staged_nodes@.len() && self.staged_nodes@[k] == t;
                    assert(k >= split) by {
                        if k < s0len {
                            assert(old(self).staged_nodes@[k] == t);
                            assert(old(self).staged_nodes@.contains(t));
                            assert(g0.nodes@[t as int].staged_flag());
                        } else if k < split {
                            assert(is_sig_target(g0, srcs, self.staged_nodes@[k]));
                        }
                    }
                }
            }
            assert(!staging_fault(g0, srcs));
            assert forall|n: usize| n < g0.nodes@.len() implies ((
            #[trigger] self.component.graph.nodes@[n as int]).staged_flag() <==> (
            g0.nodes@[n as int].staged_flag() || newly_staged(g0, srcs, n))) by {
                if self.component.graph.nodes@[n as int].staged_flag() {
                    assert(self.staged_nodes@.contains(n));
                    let k = choose|k: int|
                        0 <= k < self.staged_nodes@.len() && self.staged_nodes@[k] == n;
                    if k < s0len {
                        assert(old(self).staged_nodes@[k] == n);
                        assert(old(self).staged_nodes@.contains(n));
                        assert(g0.nodes@[n as int].staged_flag());
                    } else {
                        if k < split {
                            assert(is_sig_target(g0, srcs, n));
                        } else {
                            assert(is_assoc_target(g0, srcs, n));
                        }
                        assert(newly_staged(g0, srcs, n));
                    }
                } else {
                    assert(!g0.nodes@[n as int].staged_flag());
                    if newly_staged(g0, srcs, n) {
                        if is_sig_target(g0, srcs, n) {
                            lemma_take_contains(self.staged_nodes@, split, n);
                            assert(self.staged_nodes@.contains(n));
                        } else {
                            assert(self.staged_nodes@.contains(n));
                        }
                        assert(self.component.graph.nodes@[n as int].staged_flag());
                        assert(false);
                    }
                }
            }
        }
        Ok(events)
    }

    /// Phase three of a cycle: activate every node of the batch. A cell or
    /// input connector is unstaged, fires unconditionally (relay and
    /// one-shot behave identically), joins the next cycle's fired list, and
    /// a cell's pending-signal set is reset for the next accumulation
    /// window.
    ///
    /// Fails exactly when the batch holds a node of a kind that cannot be
    /// activated.
    #[verifier::loop_isolation(false)]
    fn process_active_nodes(&mut self) -> (r: Result<(), EngineError>)
        requires
            old(self).component.graph.wf(),
            forall|k: int|
                0 <= k < old(self).active_nodes@.len() ==> (#[trigger] old(self).active_nodes@[k])
                    < old(self).component.graph.nodes@.len(),
        ensures
            final(self).active_nodes@ == old(self).active_nodes@,
            final(self).staged_nodes@ == old(self).staged_nodes@,
            final(self).incoming_signals@ == old(self).incoming_signals@,
            final(self).component.graph.edges@ == old(self).component.graph.edges@,
            final(self).component.graph.nodes@.len() == old(self).component.graph.nodes@.len(),
            final(self).component.name == old(self).component.name,
            final(self).id == old(self).id,
            final(self).node_name == old(self).node_name,
            final(self).instance_cycle == old(self).instance_cycle,
            final(self).component.graph.wf(),
            forall|n: usize|
                n < old(self).component.graph.nodes@.len() ==> (
                #[trigger] final(self).component.graph.nodes@[n as int]).same_but_flags_and_signals(
                    old(self).component.graph.nodes@[n as int],
                ),
            (r is Ok) <==> (forall|k: int|
                0 <= k < old(self).active_nodes@.len()
                    ==> old(self).component.graph.nodes@[(#[trigger] old(self).active_nodes@[k]) as int]
                    is Cell || old(self).component.graph.nodes@[old(self).active_nodes@[k] as int]
                    is ConnectorIn),
            r is Ok ==> final(self).fired_nodes@ == old(self).fired_nodes@
                + old(self).active_nodes@,
            r is Ok ==> forall|n: usize|
                n < old(self).component.graph.nodes@.len() ==> (
                #[trigger] final(self).component.graph.nodes@[n as int]) == (if old(
                    self,
                ).active_nodes@.contains(n) {
                    node_after_processing(old(self).component.graph.nodes@[n as int])
                } else {
                    old(self).component.graph.nodes@[n as int]
                }),
    {
        let ghost g0 = self.component.graph;
        let ghost acts = self.active_nodes@;
        let ghost fired0 = self.fired_nodes@;
        let n_active = self.active_nodes.len();
        let mut k: usize = 0;
        while k < n_active
            invariant
                k <= acts.len(),
                self.active_nodes@ == acts,
                self.staged_nodes@ == old(self).staged_nodes@,
                self.incoming_signals@ == old(self).incoming_signals@,
                self.fired_nodes@ == fired0 + acts.take(k as int),
                self.component.graph.edges@ == g0.edges@,
                self.component.graph.nodes@.len() == g0.nodes@.len(),
                self.component.name == old(self).component.name,
                self.id == old(self).id,
                self.node_name == old(self).node_name,
                self.instance_cycle == old(self).instance_cycle,
                forall|k2: int|
                    0 <= k2 < k ==> g0.nodes@[(#[trigger] acts[k2]) as int] is Cell
                        || g0.nodes@[acts[k2] as int] is ConnectorIn,
                forall|n: usize|
                    n < g0.nodes@.len() ==> (#[trigger] self.component.graph.nodes@[n as int])
                        == (if acts.take(k as int).contains(n) {
                        node_after_processing(g0.nodes@[n as int])
                    } else {
                        g0.nodes@[n as int]
                    }),
            decreases acts.len() - k,
        {
            let src = self.active_nodes[k];
            let kind_ok = matches!(
                &self.component.graph.nodes[src],
                Node::Cell(_) | Node::ConnectorIn(_)
            );
            if !kind_ok {
                proof {
                    if acts.take(k as int).contains(src) {
                        assert(self.component.graph.nodes@[src as int] == node_after_processing(
                            g0.nodes@[src as int],
                        ));
                    }
                    assert(!(g0.nodes@[src as int] is Cell || g0.nodes@[src as int]
                        is ConnectorIn));
                }
                return Err(EngineError::InvalidActiveNode { node: src });
            }
            let ghost nodes_b = self.component.graph.nodes@;
            activate_node(&mut self.component.graph.nodes[src]);
            self.fired_nodes.push(src);
            proof {
                assert(acts.take(k + 1 as int) =~= acts.take(k as int).push(acts[k as int]));
                lemma_push_facts(acts.take(k as int), acts[k as int]);
                assert((fired0 + acts.take(k as int)).push(src) =~= fired0 + acts.take(
                    k + 1 as int,
                ));
                if acts.take(k as int).contains(src) {
                    assert(nodes_b[src as int] == node_after_processing(g0.nodes@[src as int]));
                }
                assert forall|n: usize|
                    n < g0.nodes@.len() implies (
                #[trigger] self.component.graph.nodes@[n as int]) == (if acts.take(
                    k + 1 as int,
                ).contains(n) {
                    node_after_processing(g0.nodes@[n as int])
                } else {
                    g0.nodes@[n as int]
                }) by {
                    if n != src {
                        assert(self.component.graph.nodes@[n as int] == nodes_b[n as int]);
                        assert(acts.take(k + 1 as int).contains(n) == acts.take(
                            k as int,
                        ).contains(n));
                    } else {
                        assert(acts.take(k + 1 as int).contains(n));
                    }
                }
            }
            k += 1;
        }
        proof {
            assert(acts.take(acts.len() as int) =~= acts);
            assert(fired0 + acts.take(acts.len() as int) =~= fired0 + acts);
        }
        Ok(())
    }

    /// Advance the instance by one cycle: propagate the pending signal bits
    /// of the fired set (external injections included), stage the cells it
    /// signals and senses, then activate the staged batch, and report
    /// whether the instance still has work along with the output connectors
    /// that fired.
    ///
    /// The cycle counter advances by exactly one on success; a graph shape
    /// the model does not allow aborts the cycle with a diagnostic. The
    /// batch activated in one cycle holds each node at most once, and every
    /// cell staged through a signal edge stands in it before every cell
    /// staged only through an association.
    pub fn step(&mut self) -> (r: Result<StepOutcome, EngineError>)
        requires
            old(self).wf(),
            old(self).instance_cycle < usize::MAX,
        ensures
            r is Ok ==> final(self).wf(),
            r is Ok ==> final(self).instance_cycle == old(self).instance_cycle + 1,
            r is Err ==> final(self).instance_cycle == old(self).instance_cycle,
            r matches Ok(o) ==> o.is_active == final(self).is_active_spec(),
            r is Ok ==> final(self).staged_nodes@.len() == 0,
            r is Ok ==> final(self).incoming_signals@.len() == 0,
            // One successful cycle, as a single relation for composition.
            r is Ok ==> cycle_outcome(*old(self), *final(self)),
            // Success exactly on the graph shapes the model allows.
            (r is Ok) <==> (!has_oversized_signal(
                old(self).component.graph,
                old(self).fired_nodes@ + old(self).incoming_signals@,
            ) && !staging_fault(
                old(self).component.graph,
                old(self).fired_nodes@ + old(self).incoming_signals@,
            )),
            old(self).quiescent() ==> r is Ok,
            old(self).quiescent() ==> (r matches Ok(o) ==> !o.is_active
                && o.signaled_connectors@.len() == 0 && final(self).fired_nodes@.len() == 0
                && final(self).staged_nodes@.len() == 0
                && final(self).active_nodes@ == old(self).active_nodes@
                && final(self).component.graph.nodes@ == old(self).component.graph.nodes@),
            r matches Ok(o) ==> (forall|e: InstanceComponentIx|
                o.signaled_connectors@.contains(e) <==> connector_event(
                    old(self).component.graph,
                    old(self).fired_nodes@ + old(self).incoming_signals@,
                    e,
                )),
            r is Ok ==> final(self).id == old(self).id
                && final(self).node_name == old(self).node_name
                && final(self).component.name == old(self).component.name
                && final(self).component.graph.edges@ == old(self).component.graph.edges@
                && final(self).component.graph.nodes@.len()
                == old(self).component.graph.nodes@.len(),
            r is Ok ==> forall|n: usize|
                n < old(self).component.graph.nodes@.len() ==> (
                #[trigger] final(self).component.graph.nodes@[n as int]).same_but_flags_and_signals(
                    old(self).component.graph.nodes@[n as int],
                ),
            // Nothing to activate: the cycle changes nothing but the counter.
            r is Ok && !has_cycle_batch(
                old(self).component.graph,
                old(self).fired_nodes@ + old(self).incoming_signals@,
                old(self).staged_nodes@,
            ) ==> final(self).active_nodes@ == old(self).active_nodes@
                && final(self).fired_nodes@.len() == 0,
            // The activated batch: the already staged nodes first, then the
            // newly signal-staged cells, then the cells staged only through
            // associations; each node at most once; and the batch is what
            // fires next cycle.
            (r is Ok && has_cycle_batch(
                old(self).component.graph,
                old(self).fired_nodes@ + old(self).incoming_signals@,
                old(self).staged_nodes@,
            )) ==> {
                &&& final(self).fired_nodes@ == final(self).active_nodes@
                &&& final(self).active_nodes@.take(old(self).staged_nodes@.len() as int)
                    == old(self).staged_nodes@
                &&& (forall|k1: int, k2: int|
                    0 <= k1 < k2 < final(self).active_nodes@.len()
                        ==> final(self).active_nodes@[k1] != final(self).active_nodes@[k2])
                &&& (forall|k: int|
                    old(self).staged_nodes@.len() <= k < final(self).active_nodes@.len()
                        ==> newly_staged(
                        old(self).component.graph,
                        old(self).fired_nodes@ + old(self).incoming_signals@,
                        #[trigger] final(self).active_nodes@[k],
                    ))
                &&& (exists|s: int|
                    staged_batch_split(
                        old(self).component.graph,
                        old(self).fired_nodes@ + old(self).incoming_signals@,
                        old(self).staged_nodes@.len() as int,
                        final(self).active_nodes@,
                        s,
                    ))
                &&& (forall|t: usize|
                    cycle_batch_member(
                        old(self).component.graph,
                        old(self).fired_nodes@ + old(self).incoming_signals@,
                        old(self).staged_nodes@,
                        t,
                    ) <==> final(self).active_nodes@.contains(t))
            },
            // The state of every node after the cycle: an activated node
            // fired and was reset; any other node accumulated the bits the
            // fired set propagated to it and lost its fired flag if it was
            // itself among the propagating nodes.
            r is Ok ==> forall|n: usize|
                n < old(self).component.graph.nodes@.len() ==> (
                #[trigger] final(self).component.graph.nodes@[n as int]) == (if cycle_batch_member(
                    old(self).component.graph,
                    old(self).fired_nodes@ + old(self).incoming_signals@,
                    old(self).staged_nodes@,
                    n,
                ) {
                    node_after_processing(old(self).component.graph.nodes@[n as int])
                } else {
                    node_not_activated(
                        old(self).component.graph.nodes@[n as int],
                        signal_bits_from_sources(
                            old(self).component.graph.edges@,
                            old(self).fired_nodes@ + old(self).incoming_signals@,
                            n,
                        ),
                        (old(self).fired_nodes@ + old(self).incoming_signals@).contains(n),
                    )
                }),
    {
        let ghost pre = *self;
        let ghost merged = pre.fired_nodes@ + pre.incoming_signals@;
        match self.propagate_fired_signals() {
            Ok(()) => {},
            Err(e) => {
                return Err(e);
            },
        }
        let ghost after_prop = *self;
        proof {
            lemma_staging_predicates_transfer(
                pre.component.graph,
                after_prop.component.graph,
                merged,
            );
        }
        let events = match self.stage_signaled_and_associated_nodes() {
            Ok(ev) => ev,
            Err(e) => {
                return Err(e);
            },
        };
        let ghost after_stage = *self;
        let graph_len = self.component.graph.nodes.len();
        if self.staged_nodes.len() > 0 {
            core::mem::swap(&mut self.active_nodes, &mut self.staged_nodes);
            self.staged_nodes.clear();
            proof {
                assert(self.active_nodes@ == after_stage.staged_nodes@);
                assert forall|n: usize|
                    n < self.component.graph.nodes@.len()
                        && self.component.graph.nodes@[n as int].staged_flag() implies self.active_nodes@.contains(
                    n,
                ) by {}
                // Everything in the batch can be activated: a staged node
                // carries the staged flag, which only cells and input
                // connectors have.
                assert forall|k: int|
                    0 <= k < self.active_nodes@.len() implies (self.component.graph.nodes@[(
                #[trigger] self.active_nodes@[k]) as int] is Cell
                    || self.component.graph.nodes@[self.active_nodes@[k] as int]
                    is ConnectorIn) by {
                    let n = self.active_nodes@[k];
                    assert(after_stage.staged_nodes@.contains(n));
                    assert(after_stage.component.graph.nodes@[n as int].staged_flag());
                }
            }
            match self.process_active_nodes() {
                Ok(()) => {},
                Err(e) => {
                    proof {
                        assert(false);
                    }
                    return Err(e);
                },
            }
            proof {
                assert forall|n: usize|
                    n < self.component.graph.nodes@.len() implies ((
                #[trigger] self.component.graph.nodes@[n as int].staged_flag())
                    <==> self.staged_nodes@.contains(n)) by {
                    if after_stage.staged_nodes@.contains(n) {
                        assert(self.component.graph.nodes@[n as int] == node_after_processing(
                            after_stage.component.graph.nodes@[n as int],
                        ));
                    } else {
                        assert(self.component.graph.nodes@[n as int]
                            == after_stage.component.graph.nodes@[n as int]);
                        assert(!after_stage.component.graph.nodes@[n as int].staged_flag());
                    }
                }
                assert(self.wf());
                // The batch clauses of the contract, over the entry state.
                assert(self.active_nodes@ == after_stage.staged_nodes@);
                assert(Seq::<usize>::empty() + self.active_nodes@ =~= self.active_nodes@);
                assert(self.fired_nodes@ == self.active_nodes@);
                assert(self.active_nodes@.take(pre.staged_nodes@.len() as int)
                    == pre.staged_nodes@);
                assert forall|k: int|
                    pre.staged_nodes@.len() <= k < self.active_nodes@.len() implies newly_staged(
                    pre.component.graph,
                    merged,
                    #[trigger] self.active_nodes@[k],
                ) by {
                    assert(newly_staged(
                        after_prop.component.graph,
                        merged,
                        self.active_nodes@[k],
                    ));
                }
                let s = choose|s: int|
                    staged_batch_split(
                        after_prop.component.graph,
                        merged,
                        pre.staged_nodes@.len() as int,
                        after_stage.staged_nodes@,
                        s,
                    );
                assert(staged_batch_split(
                    pre.component.graph,
                    merged,
                    pre.staged_nodes@.len() as int,
                    self.active_nodes@,
                    s,
                )) by {
                    assert forall|k: int|
                        pre.staged_nodes@.len() <= k < s implies is_sig_target(
                        pre.component.graph,
                        merged,
                        #[trigger] self.active_nodes@[k],
                    ) by {
                        assert(is_sig_target(
                            after_prop.component.graph,
                            merged,
                            self.active_nodes@[k],
                        ));
                    }
                    assert forall|t: usize|
                        newly_staged(pre.component.graph, merged, t) && is_sig_target(
                            pre.component.graph,
                            merged,
                            t,
                        ) implies exists|k: int|
                        pre.staged_nodes@.len() <= k < s && self.active_nodes@[k] == t by {
                        assert(newly_staged(after_prop.component.graph, merged, t));
                        assert(is_sig_target(after_prop.component.graph, merged, t));
                    }
                    assert forall|k: int|
                        s <= k < self.active_nodes@.len() implies !is_sig_target(
                        pre.component.graph,
                        merged,
                        #[trigger] self.active_nodes@[k],
                    ) && is_assoc_target(pre.component.graph, merged, self.active_nodes@[k]) by {
                        assert(!is_sig_target(
                            after_prop.component.graph,
                            merged,
                            self.active_nodes@[k],
                        ));
                        assert(is_assoc_target(
                            after_prop.component.graph,
                            merged,
                            self.active_nodes@[k],
                        ));
                    }
                    assert forall|t: usize|
                        newly_staged(pre.component.graph, merged, t) && !is_sig_target(
                            pre.component.graph,
                            merged,
                            t,
                        ) implies exists|k: int|
                        s <= k < self.active_nodes@.len() && self.active_nodes@[k] == t by {
                        assert(newly_staged(after_prop.component.graph, merged, t));
                        assert(!is_sig_target(after_prop.component.graph, merged, t));
                    }
                }
            }
        } else {
            proof {
                if pre.quiescent() {
                    assert(merged.len() == 0);
                    assert forall|t: usize|
                        t < pre.component.graph.nodes@.len() implies (
                    #[trigger] self.component.graph.nodes@[t as int]) == pre.component.graph.nodes@[t as int] by {
                        assert(after_prop.component.graph.nodes@[t as int] == node_after_bits(
                            pre.component.graph.nodes@[t as int],
                            signal_bits_from_sources(pre.component.graph.edges@, merged, t),
                        ));
                        match pre.component.graph.nodes@[t as int] {
                            Node::Cell(c) => {
                                lemma_u32_or_zero(c.signals);
                            },
                            _ => {},
                        }
                        assert(after_prop.component.graph.nodes@[t as int]
                            == pre.component.graph.nodes@[t as int]);
                        assert(!newly_staged(after_prop.component.graph, merged, t));
                        assert(!(merged.contains(t)));
                        assert(self.component.graph.nodes@[t as int].same_but_flags(
                            after_prop.component.graph.nodes@[t as int],
                        ));
                        lemma_same_but_flags_to_eq(
                            self.component.graph.nodes@[t as int],
                            after_prop.component.graph.nodes@[t as int],
                        );
                    }
                    assert(pre.component.graph.nodes@.len() <= usize::MAX);
                    assert forall|i: int|
                        0 <= i < pre.component.graph.nodes@.len() implies (
                    #[trigger] self.component.graph.nodes@[i]) == pre.component.graph.nodes@[i] by {
                        let t: usize = i as usize;
                        assert(self.component.graph.nodes@[t as int]
                            == pre.component.graph.nodes@[t as int]);
                    }
                    assert(self.component.graph.nodes@ =~= pre.component.graph.nodes@);
                    assert(events@.len() == 0) by {
                        if events@.len() > 0 {
                            let e = events@[events@.len() - 1];
                            assert(events@.contains(e));
                            assert(connector_event(after_prop.component.graph, merged, e));
                        }
                    }
                }
            }
        }
        self.instance_cycle += 1;
        let active_now = self.is_active();
        proof {
            // The batch is exactly the staged list that the staging phase
            // left, and membership in it is membership in the cycle batch.
            assert forall|t: usize|
                cycle_batch_member(pre.component.graph, merged, pre.staged_nodes@, t)
                    <==> after_stage.staged_nodes@.contains(t) by {
                if cycle_batch_member(pre.component.graph, merged, pre.staged_nodes@, t) {
                    if pre.staged_nodes@.contains(t) {
                        let idx = choose|idx: int|
                            0 <= idx < pre.staged_nodes@.len() && pre.staged_nodes@[idx] == t;
                        assert(after_stage.staged_nodes@.take(pre.staged_nodes@.len() as int)[idx]
                            == t);
                        assert(after_stage.staged_nodes@[idx] == t);
                    } else {
                        assert(newly_staged(after_prop.component.graph, merged, t));
                        assert(after_prop.component.graph.nodes@[t as int].staged_flag()
                            == pre.component.graph.nodes@[t as int].staged_flag());
                        assert(after_stage.component.graph.nodes@[t as int].staged_flag());
                    }
                }
                if after_stage.staged_nodes@.contains(t) {
                    let idx = choose|idx: int|
                        0 <= idx < after_stage.staged_nodes@.len()
                            && after_stage.staged_nodes@[idx] == t;
                    if idx < pre.staged_nodes@.len() {
                        assert(after_stage.staged_nodes@.take(pre.staged_nodes@.len() as int)[idx]
                            == t);
                        assert(pre.staged_nodes@.contains(t));
                    } else {
                        assert(newly_staged(after_prop.component.graph, merged, t));
                    }
                }
            }
            if has_cycle_batch(pre.component.graph, merged, pre.staged_nodes@) {
                assert(after_stage.staged_nodes@.len() > 0) by {
                    if pre.staged_nodes@.len() > 0 {
                        assert(after_stage.staged_nodes@.take(pre.staged_nodes@.len() as int)
                            == pre.staged_nodes@);
                    } else {
                        let t = choose|t: usize|
                            newly_staged(pre.component.graph, merged, t);
                        assert(after_stage.staged_nodes@.contains(t));
                    }
                }
            } else {
                assert(after_stage.staged_nodes@.len() == 0) by {
                    if after_stage.staged_nodes@.len() > 0 {
                        let t = after_stage.staged_nodes@[after_stage.staged_nodes@.len() - 1];
                        assert(after_stage.staged_nodes@.contains(t));
                        assert(cycle_batch_member(
                            pre.component.graph,
                            merged,
                            pre.staged_nodes@,
                            t,
                        ));
                    }
                }
            }
            assert forall|e: InstanceComponentIx| #[trigger]
                events@.contains(e) <==> connector_event(pre.component.graph, merged, e) by {
                assert(connector_event(after_prop.component.graph, merged, e) == connector_event(
                    pre.component.graph,
                    merged,
                    e,
                ));
            }
            assert forall|n: usize|
                n < pre.component.graph.nodes@.len() implies (
            #[trigger] self.component.graph.nodes@[n as int]).same_but_flags_and_signals(
                pre.component.graph.nodes@[n as int],
            ) by {
                lemma_sbf_implies_sbfs(
                    after_prop.component.graph.nodes@[n as int],
                    after_stage.component.graph.nodes@[n as int],
                );
                lemma_sbfs_trans(
                    pre.component.graph.nodes@[n as int],
                    after_prop.component.graph.nodes@[n as int],
                    after_stage.component.graph.nodes@[n as int],
                );
                if after_stage.staged_nodes@.len() > 0 {
                    lemma_sbfs_trans(
                        pre.component.graph.nodes@[n as int],
                        after_stage.component.graph.nodes@[n as int],
                        self.component.graph.nodes@[n as int],
                    );
                } else {
                    assert(self.component.graph.nodes@[n as int]
                        == after_stage.component.graph.nodes@[n as int]);
                }
            }
            reveal(cycle_outcome);
            assert forall|n: usize|
                n < pre.component.graph.nodes@.len() implies (
            #[trigger] self.component.graph.nodes@[n as int]) == (if cycle_batch_member(
                pre.component.graph,
                merged,
                pre.staged_nodes@,
                n,
            ) {
                node_after_processing(pre.component.graph.nodes@[n as int])
            } else {
                node_not_activated(
                    pre.component.graph.nodes@[n as int],
                    signal_bits_from_sources(pre.component.graph.edges@, merged, n),
                    merged.contains(n),
                )
            }) by {
                let bits = signal_bits_from_sources(pre.component.graph.edges@, merged, n);
                assert(after_prop.component.graph.nodes@[n as int] == node_after_bits(
                    pre.component.graph.nodes@[n as int],
                    bits,
                ));
                let member = cycle_batch_member(pre.component.graph, merged, pre.staged_nodes@, n);
                assert(member <==> after_stage.staged_nodes@.contains(n));
                assert(after_stage.component.graph.nodes@[n as int].staged_flag() == (
                after_prop.component.graph.nodes@[n as int].staged_flag() || newly_staged(
                    after_prop.component.graph,
                    merged,
                    n,
                )));
                assert(newly_staged(after_prop.component.graph, merged, n) == newly_staged(
                    pre.component.graph,
                    merged,
                    n,
                ));
                assert(after_stage.component.graph.nodes@[n as int].fired_flag() == (
                after_prop.component.graph.nodes@[n as int].fired_flag() && !merged.contains(n)));
                if member {
                    assert(after_stage.staged_nodes@.len() > 0);
                    assert(self.active_nodes@ == after_stage.staged_nodes@);
                    assert(self.active_nodes@.contains(n));
                    assert(self.component.graph.nodes@[n as int] == node_after_processing(
                        after_stage.component.graph.nodes@[n as int],
                    ));
                    match (
                        pre.component.graph.nodes@[n as int],
                        after_stage.component.graph.nodes@[n as int],
                    ) {
                        (Node::Cell(a), Node::Cell(b)) => {
                            assert(a.cell_type == b.cell_type);
                        },
                        (Node::ConnectorIn(a), Node::ConnectorIn(b)) => {
                            assert(a.node_name == b.node_name);
                        },
                        _ => {
                            assert(after_stage.component.graph.nodes@[n as int]
                                == pre.component.graph.nodes@[n as int]);
                        },
                    }
                } else {
                    assert(!pre.staged_nodes@.contains(n));
                    assert(!newly_staged(pre.component.graph, merged, n));
                    if after_stage.staged_nodes@.len() > 0 {
                        assert(self.active_nodes@ == after_stage.staged_nodes@);
                        assert(!self.active_nodes@.contains(n));
                        assert(self.component.graph.nodes@[n as int]
                            == after_stage.component.graph.nodes@[n as int]);
                    } else {
                        assert(self.component.graph.nodes@[n as int]
                            == after_stage.component.graph.nodes@[n as int]);
                    }
                    match pre.component.graph.nodes@[n as int] {
                        Node::Cell(_) => {
                            lemma_same_but_flags_to_eq(
                                self.component.graph.nodes@[n as int],
                                node_not_activated(
                                    pre.component.graph.nodes@[n as int],
                                    bits,
                                    merged.contains(n),
                                ),
                            );
                        },
                        Node::ConnectorIn(_) => {
                            lemma_same_but_flags_to_eq(
                                self.component.graph.nodes@[n as int],
                                node_not_activated(
                                    pre.component.graph.nodes@[n as int],
                                    bits,
                                    merged.contains(n),
                                ),
                            );
                        },
                        _ => {
                            assert(after_stage.component.graph.nodes@[n as int]
                                == after_prop.component.graph.nodes@[n as int]);
                            assert(self.component.graph.nodes@[n as int]
                                == pre.component.graph.nodes@[n as int]);
                        },
                    }
                }
            }
        }
        Ok(StepOutcome { is_active: active_now, signaled_connectors: events })
    }

    /// Step the instance until it has no more work: a draining loop with no
    /// externally observable intermediate state beyond the side effects the
    /// cycles already applied. The connector events of all cycles are
    /// returned in the order they fired. An instance whose signals never
    /// dissipate ends with `CycleLimit` when the cycle counter reaches the
    /// machine limit.
    pub fn run(&mut self) -> (r: Result<Vec<InstanceComponentIx>, EngineError>)
        requires
            old(self).wf(),
        ensures
            r is Ok ==> final(self).wf(),
            r is Ok ==> !final(self).is_active_spec(),
            r is Ok ==> final(self).instance_cycle > old(self).instance_cycle,
            // An instance with nothing to do drains in exactly one cycle,
            // emitting nothing.
            old(self).quiescent() && old(self).instance_cycle < usize::MAX ==> r is Ok,
            old(self).quiescent() ==> (r matches Ok(events) ==> events@.len() == 0
                && final(self).instance_cycle == old(self).instance_cycle + 1),
            // Every returned event was emitted through a routed output
            // connector of this instance's graph.
            r matches Ok(events) ==> (forall|q: int|
                0 <= q < events@.len() ==> routed_event(
                    final(self).component.graph,
                    #[trigger] events@[q],
                )),
    {
        let mut all_events: Vec<InstanceComponentIx> = Vec::new();
        loop
            invariant
                self.wf(),
                self.instance_cycle >= old(self).instance_cycle,
                old(self).quiescent() ==> *self == *old(self) && all_events@.len() == 0,
                forall|q: int|
                    0 <= q < all_events@.len() ==> routed_event(
                        self.component.graph,
                        #[trigger] all_events@[q],
                    ),
            decreases usize::MAX - self.instance_cycle,
        {
            if self.instance_cycle == usize::MAX {
                return Err(EngineError::CycleLimit);
            }
            let ghost at_entry = *self;
            let outcome = match self.step() {
                Ok(o) => o,
                Err(e) => {
                    return Err(e);
                },
            };
            proof {
                lemma_step_keeps_routed_events(at_entry, *self);
                assert forall|q: int|
                    0 <= q < outcome.signaled_connectors@.len() implies routed_event(
                    self.component.graph,
                    #[trigger] outcome.signaled_connectors@[q],
                ) by {
                    let e = outcome.signaled_connectors@[q];
                    assert(outcome.signaled_connectors@.contains(e));
                    let merged = at_entry.fired_nodes@ + at_entry.incoming_signals@;
                    assert(connector_event(at_entry.component.graph, merged, e));
                    let (i2, j2) = choose|i2: int, j2: int|
                        0 <= i2 < merged.len() && 0 <= j2
                            < at_entry.component.graph.edges@.len()
                            && at_entry.component.graph.edges@[j2].source == merged[i2]
                            && at_entry.component.graph.edges@[j2].edge is Signal && (
                        match at_entry.component.graph.nodes@[at_entry.component.graph.edges@[j2].target as int] {
                            Node::ConnectorOut(co) => co.to_instance_connector == Some(e),
                            _ => false,
                        });
                    let t = at_entry.component.graph.edges@[j2].target;
                    assert(t < at_entry.component.graph.nodes@.len());
                    assert(routed_event(at_entry.component.graph, e));
                }
            }
            let ghost events_b = all_events@;
            let mut events = outcome.signaled_connectors;
            all_events.append(&mut events);
            proof {
                assert forall|q: int|
                    0 <= q < all_events@.len() implies routed_event(
                    self.component.graph,
                    #[trigger] all_events@[q],
                ) by {
                    if q < events_b.len() {
                        assert(all_events@[q] == events_b[q]);
                    } else {
                        assert(all_events@[q] == outcome.signaled_connectors@[q
                            - events_b.len()]);
                    }
                }
            }
            if !outcome.is_active {
                return Ok(all_events);
            }
        }
    }
}

/// Activate a cell or input connector: set its fired flag, clear its staged
/// flag, and reset a cell's pending-signal set; leave other node kinds
/// unchanged.
fn activate_node(node: &mut Node)
    ensures
        *final(node) == node_after_processing(*old(node)),
{
    match node {
        Node::Cell(c) => {
            c.flags.fired = true;
            c.flags.staged = false;
            c.signals = 0;
        },
        Node::ConnectorIn(c) => {
            c.flags.fired = true;
            c.flags.staged = false;
        },
        _ => {},
    }
}

/// Some pair strictly before position `(i, j)` of the walk over sources and
/// edges is a signal edge from a source to `t`.
pub open spec fn sig_target_before(
    g: ComponentGraph,
    srcs: Seq<usize>,
    i: int,
    j: int,
    t: usize,
) -> bool {
    exists|i2: int, j2: int|
        0 <= i2 < srcs.len() && 0 <= j2 < g.edges@.len() && (i2 < i || (i2 == i && j2 < j))
            && sig_edge_from_to(g.edges@[j2], srcs[i2], t)
}

/// Some pair strictly before position `(i, j)` of the walk is an association
/// edge from a firing cell to `t`.
pub open spec fn assoc_target_before(
    g: ComponentGraph,
    srcs: Seq<usize>,
    i: int,
    j: int,
    t: usize,
) -> bool {
    exists|i2: int, j2: int|
        0 <= i2 < srcs.len() && 0 <= j2 < g.edges@.len() && (i2 < i || (i2 == i && j2 < j))
            && srcs[i2] < g.nodes@.len() && g.nodes@[srcs[i2] as int] is Cell
            && assoc_edge_from_to(g.edges@[j2], srcs[i2], t)
}

/// Some pair strictly before position `(i, j)` of the walk signals a
/// resolved output connector routed to `e`.
pub open spec fn connector_event_before(
    g: ComponentGraph,
    srcs: Seq<usize>,
    i: int,
    j: int,
    e: InstanceComponentIx,
) -> bool {
    exists|i2: int, j2: int|
        0 <= i2 < srcs.len() && 0 <= j2 < g.edges@.len() && (i2 < i || (i2 == i && j2 < j))
            && g.edges@[j2].source == srcs[i2] && g.edges@[j2].edge is Signal && (match g.nodes@[g.edges@[j2].target as int] {
            Node::ConnectorOut(co) => co.to_instance_connector == Some(e),
            _ => false,
        })
}

/// The pair `(i, j)` of the walk is one of the shapes that fault the signal
/// pass: a connection edge out of a firing node, or a signal edge into a
/// node that can receive no signal.
pub open spec fn edge_fault_at(g: ComponentGraph, srcs: Seq<usize>, i: int, j: int) -> bool {
    0 <= i < srcs.len() && 0 <= j < g.edges@.len() && g.edges@[j].source == srcs[i] && (
    g.edges@[j].edge is Connection || (g.edges@[j].edge is Signal && !(g.nodes@[g.edges@[j].target as int]
        is Cell || g.nodes@[g.edges@[j].target as int] is ConnectorOut)))
}

/// The node as it stands after OR-ing `extra` into a cell's pending-signal
/// set; nodes of any other kind are unchanged.
pub open spec fn node_after_bits(orig: Node, extra: u32) -> Node {
    match orig {
        Node::Cell(c) => Node::Cell(
            CellNode { cell_type: c.cell_type, flags: c.flags, signals: c.signals | extra },
        ),
        _ => orig,
    }
}

proof fn lemma_u32_or_zero(x: u32)
    ensures
        x | 0u32 == x,
{
    assert(x | 0u32 == x) by (bit_vector);
}

proof fn lemma_u32_or_assoc(a: u32, b: u32, c: u32)
    ensures
        (a | b) | c == a | (b | c),
{
    assert((a | b) | c == a | (b | c)) by (bit_vector);
}

/// Extending the edge prefix by one edge ORs that edge's contribution in,
/// for every target.
proof fn lemma_bits_edges_step(edges: Seq<GraphEdge>, src: usize, j: int)
    requires
        0 <= j < edges.len(),
    ensures
        forall|t: usize|
            #[trigger] signal_bits_from_edges(edges.take(j + 1), src, t)
                == signal_bits_from_edges(edges.take(j), src, t) | signal_bit_of(
                edges[j],
                src,
                t,
            ),
{
    assert(edges.take(j + 1).drop_last() =~= edges.take(j));
    assert(edges.take(j + 1).last() == edges[j]);
}

/// Extending the source prefix by one source ORs that source's whole
/// contribution in, for every target.
proof fn lemma_bits_sources_step(edges: Seq<GraphEdge>, srcs: Seq<usize>, i: int)
    requires
        0 <= i < srcs.len(),
    ensures
        forall|t: usize|
            #[trigger] signal_bits_from_sources(edges, srcs.take(i + 1), t)
                == signal_bits_from_sources(edges, srcs.take(i), t) | signal_bits_from_edges(
                edges,
                srcs[i],
                t,
            ),
{
    assert(srcs.take(i + 1).drop_last() =~= srcs.take(i));
    assert(srcs.take(i + 1).last() == srcs[i]);
}

/// Set the staged flag of a cell or input connector; leave other node kinds
/// and every other field unchanged.
fn set_staged_flag(node: &mut Node)
    ensures
        *old(node) matches Node::Cell(c) ==> *final(node) == Node::Cell(
            CellNode {
                cell_type: c.cell_type,
                flags: crate::component::CellFlags { fired: c.flags.fired, staged: true },
                signals: c.signals,
            },
        ),
        *old(node) matches Node::ConnectorIn(c) ==> *final(node) == Node::ConnectorIn(
            crate::component::ConnectorInNode {
                node_name: c.node_name,
                flags: crate::component::CellFlags { fired: c.flags.fired, staged: true },
            },
        ),
        *old(node) is ConnectorOut ==> *final(node) == *old(node),
        *old(node) is Component ==> *final(node) == *old(node),
{
    match node {
        Node::Cell(c) => {
            c.flags.staged = true;
        },
        Node::ConnectorIn(c) => {
            c.flags.staged = true;
        },
        _ => {},
    }
}

/// The staged list `staged` extends its first `s0len` entries with a signal
/// batch followed by an association batch, split at position `s`: the
/// entries before `s` are targets of signal edges from the firing sources,
/// the entries from `s` on are targets only of association edges, and every
/// newly schedulable cell appears in its batch. This is the ordering law:
/// all direct signal staging of a cycle precedes all associative staging.
pub open spec fn staged_batch_split(
    g: ComponentGraph,
    srcs: Seq<usize>,
    s0len: int,
    staged: Seq<usize>,
    s: int,
) -> bool {
    s0len <= s <= staged.len() && (forall|k: int|
        s0len <= k < s ==> is_sig_target(g, srcs, #[trigger] staged[k])) && (forall|t: usize|
        newly_staged(g, srcs, t) && is_sig_target(g, srcs, t) ==> exists|k: int|
            s0len <= k < s && staged[k] == t) && (forall|k: int|
        s <= k < staged.len() ==> !is_sig_target(g, srcs, #[trigger] staged[k])
            && is_assoc_target(g, srcs, staged[k])) && (forall|t: usize|
        newly_staged(g, srcs, t) && !is_sig_target(g, srcs, t) ==> exists|k: int|
            s <= k < staged.len() && staged[k] == t)
}

/// Node `n` belongs to the activation batch of a cycle that enters with
/// staged list `staged0` and firing sources `srcs`.
pub open spec fn cycle_batch_member(
    g: ComponentGraph,
    srcs: Seq<usize>,
    staged0: Seq<usize>,
    n: usize,
) -> bool {
    staged0.contains(n) || newly_staged(g, srcs, n)
}

/// The cycle has anything at all to activate.
pub open spec fn has_cycle_batch(g: ComponentGraph, srcs: Seq<usize>, staged0: Seq<usize>) -> bool {
    staged0.len() > 0 || exists|t: usize| newly_staged(g, srcs, t)
}

/// The node as it stands after activation: fired, no longer staged, and
/// with its pending-signal set cleared for the next accumulation window.
pub open spec fn node_after_processing(orig: Node) -> Node {
    match orig {
        Node::Cell(c) => Node::Cell(
            CellNode {
                cell_type: c.cell_type,
                flags: crate::component::CellFlags { fired: true, staged: false },
                signals: 0u32,
            },
        ),
        Node::ConnectorIn(c) => Node::ConnectorIn(
            crate::component::ConnectorInNode {
                node_name: c.node_name,
                flags: crate::component::CellFlags { fired: true, staged: false },
            },
        ),
        _ => orig,
    }
}

/// The node as it stands after a cycle in which it was not activated:
/// `extra` is OR-ed into a cell's pending-signal set, and the fired flag is
/// cleared if the node propagated this cycle. The staged flag is unchanged;
/// for a node outside the activation batch it was and stays clear.
pub open spec fn node_not_activated(orig: Node, extra: u32, propagated: bool) -> Node {
    match orig {
        Node::Cell(c) => Node::Cell(
            CellNode {
                cell_type: c.cell_type,
                flags: crate::component::CellFlags {
                    fired: c.flags.fired && !propagated,
                    staged: c.flags.staged,
                },
                signals: c.signals | extra,
            },
        ),
        Node::ConnectorIn(c) => Node::ConnectorIn(
            crate::component::ConnectorInNode {
                node_name: c.node_name,
                flags: crate::component::CellFlags {
                    fired: c.flags.fired && !propagated,
                    staged: c.flags.staged,
                },
            },
        ),
        _ => orig,
    }
}

/// `post` is the state `pre` reaches through exactly one successful cycle,
/// up to signals injected afterwards: the counter advanced by one, every
/// node carries its post-cycle state, and the activation batch is the
/// staged list followed by the newly signal-staged cells and then the cells
/// staged only through associations, each at most once. The incoming queue
/// is not constrained here: the orchestrator may append to it after the
/// cycle.
#[verifier::opaque]
pub open spec fn cycle_outcome(pre: ComponentInstance, post: ComponentInstance) -> bool {
    let merged = pre.fired_nodes@ + pre.incoming_signals@;
    &&& post.instance_cycle == pre.instance_cycle + 1
    &&& post.id == pre.id
    &&& post.node_name == pre.node_name
    &&& post.component.name == pre.component.name
    &&& post.component.graph.edges@ == pre.component.graph.edges@
    &&& post.component.graph.nodes@.len() == pre.component.graph.nodes@.len()
    &&& post.staged_nodes@.len() == 0
    &&& (forall|n: usize|
        n < pre.component.graph.nodes@.len() ==> (
        #[trigger] post.component.graph.nodes@[n as int]) == (if cycle_batch_member(
            pre.component.graph,
            merged,
            pre.staged_nodes@,
            n,
        ) {
            node_after_processing(pre.component.graph.nodes@[n as int])
        } else {
            node_not_activated(
                pre.component.graph.nodes@[n as int],
                signal_bits_from_sources(pre.component.graph.edges@, merged, n),
                merged.contains(n),
            )
        }))
    &&& (!has_cycle_batch(pre.component.graph, merged, pre.staged_nodes@)
        ==> post.active_nodes@ == pre.active_nodes@ && post.fired_nodes@.len() == 0)
    &&& (has_cycle_batch(pre.component.graph, merged, pre.staged_nodes@) ==> {
        &&& post.fired_nodes@ == post.active_nodes@
        &&& post.active_nodes@.take(pre.staged_nodes@.len() as int) == pre.staged_nodes@
        &&& (forall|k1: int, k2: int|
            0 <= k1 < k2 < post.active_nodes@.len() ==> post.active_nodes@[k1]
                != post.active_nodes@[k2])
        &&& (forall|t: usize|
            cycle_batch_member(pre.component.graph, merged, pre.staged_nodes@, t)
                <==> post.active_nodes@.contains(t))
        &&& (exists|s: int|
            staged_batch_split(
                pre.component.graph,
                merged,
                pre.staged_nodes@.len() as int,
                post.active_nodes@,
                s,
            ))
    })
}

/// The outcome of a cycle does not constrain the incoming queue, so
/// signals injected after the cycle do not disturb it.
pub proof fn lemma_cycle_outcome_ignores_incoming(
    pre: ComponentInstance,
    a: ComponentInstance,
    b: ComponentInstance,
)
    requires
        cycle_outcome(pre, a),
        b.id == a.id,
        b.node_name == a.node_name,
        b.component == a.component,
        b.fired_nodes@ == a.fired_nodes@,
        b.active_nodes@ == a.active_nodes@,
        b.staged_nodes@ == a.staged_nodes@,
        b.instance_cycle == a.instance_cycle,
    ensures
        cycle_outcome(pre, b),
{
    reveal(cycle_outcome);
}

/// The staging predicates depend only on the edges, the node kinds, the
/// staged flags and the resolved output connectors, none of which signal
/// propagation changes.
/// Two nodes that agree on everything but their flags, and on their flags,
/// are the same node.
proof fn lemma_same_but_flags_to_eq(a: Node, b: Node)
    requires
        a.same_but_flags(b),
        a.staged_flag() == b.staged_flag(),
        a.fired_flag() == b.fired_flag(),
    ensures
        a == b,
{
    match (a, b) {
        (Node::Cell(x), Node::Cell(y)) => {
            assert(x.flags == y.flags);
        },
        (Node::ConnectorIn(x), Node::ConnectorIn(y)) => {
            assert(x.flags == y.flags);
        },
        _ => {},
    }
}

/// Agreement up to flags implies agreement up to flags and signals.
proof fn lemma_sbf_implies_sbfs(a: Node, b: Node)
    requires
        b.same_but_flags(a),
    ensures
        b.same_but_flags_and_signals(a),
{
}

/// Agreement up to flags and signals is transitive.
proof fn lemma_sbfs_trans(a: Node, b: Node, c: Node)
    requires
        c.same_but_flags_and_signals(b),
        b.same_but_flags_and_signals(a),
    ensures
        c.same_but_flags_and_signals(a),
{
}

proof fn lemma_staging_predicates_transfer(g1: ComponentGraph, g2: ComponentGraph, srcs: Seq<usize>)
    requires
        g1.wf(),
        g1.edges@ == g2.edges@,
        g1.nodes@.len() == g2.nodes@.len(),
        forall|n: usize|
            n < g1.nodes@.len() ==> (#[trigger] g2.nodes@[n as int]).same_but_flags_and_signals(
                g1.nodes@[n as int],
            ),
        forall|n: usize|
            n < g1.nodes@.len() ==> (#[trigger] g2.nodes@[n as int]).staged_flag()
                == g1.nodes@[n as int].staged_flag(),
        forall|n: usize|
            n < g1.nodes@.len() && !(g1.nodes@[n as int] is Cell) ==> (
            #[trigger] g2.nodes@[n as int]) == g1.nodes@[n as int],
    ensures
        forall|t: usize| #[trigger] is_sig_target(g2, srcs, t) == is_sig_target(g1, srcs, t),
        forall|t: usize| #[trigger] is_assoc_target(g2, srcs, t) == is_assoc_target(g1, srcs, t),
        forall|t: usize| #[trigger] newly_staged(g2, srcs, t) == newly_staged(g1, srcs, t),
        forall|e: InstanceComponentIx|
            #[trigger] connector_event(g2, srcs, e) == connector_event(g1, srcs, e),
        staging_fault(g2, srcs) == staging_fault(g1, srcs),
{
    assert forall|n: usize| n < g1.nodes@.len() implies ((#[trigger] g2.nodes@[n as int] is Cell)
        == g1.nodes@[n as int] is Cell) && (g2.nodes@[n as int] is ConnectorIn
        == g1.nodes@[n as int] is ConnectorIn) && (g2.nodes@[n as int] is ConnectorOut
        == g1.nodes@[n as int] is ConnectorOut) by {
        assert(g2.nodes@[n as int].same_but_flags_and_signals(g1.nodes@[n as int]));
    }
    assert forall|t: usize| #[trigger]
        is_assoc_target(g2, srcs, t) == is_assoc_target(g1, srcs, t) by {
        if is_assoc_target(g2, srcs, t) {
            let (i, j) = choose|i: int, j: int|
                0 <= i < srcs.len() && 0 <= j < g2.edges@.len() && srcs[i] < g2.nodes@.len()
                    && g2.nodes@[srcs[i] as int] is Cell && assoc_edge_from_to(
                    g2.edges@[j],
                    srcs[i],
                    t,
                );
            assert(g1.nodes@[srcs[i] as int] is Cell);
            assert(is_assoc_target(g1, srcs, t));
        }
        if is_assoc_target(g1, srcs, t) {
            let (i, j) = choose|i: int, j: int|
                0 <= i < srcs.len() && 0 <= j < g1.edges@.len() && srcs[i] < g1.nodes@.len()
                    && g1.nodes@[srcs[i] as int] is Cell && assoc_edge_from_to(
                    g1.edges@[j],
                    srcs[i],
                    t,
                );
            assert(g2.nodes@[srcs[i] as int] is Cell);
            assert(is_assoc_target(g2, srcs, t));
        }
    }
    assert forall|e: InstanceComponentIx| #[trigger]
        connector_event(g2, srcs, e) == connector_event(g1, srcs, e) by {
        if connector_event(g2, srcs, e) {
            let (i, j) = choose|i: int, j: int|
                0 <= i < srcs.len() && 0 <= j < g2.edges@.len() && g2.edges@[j].source == srcs[i]
                    && g2.edges@[j].edge is Signal && (match g2.nodes@[g2.edges@[j].target as int] {
                    Node::ConnectorOut(co) => co.to_instance_connector == Some(e),
                    _ => false,
                });
            assert(g1.edges@[j].target < g1.nodes@.len());
            assert(g1.nodes@[g1.edges@[j].target as int] == g2.nodes@[g2.edges@[j].target as int]);
            assert(connector_event(g1, srcs, e));
        }
        if connector_event(g1, srcs, e) {
            let (i, j) = choose|i: int, j: int|
                0 <= i < srcs.len() && 0 <= j < g1.edges@.len() && g1.edges@[j].source == srcs[i]
                    && g1.edges@[j].edge is Signal && (match g1.nodes@[g1.edges@[j].target as int] {
                    Node::ConnectorOut(co) => co.to_instance_connector == Some(e),
                    _ => false,
                });
            assert(g1.edges@[j].target < g1.nodes@.len());
            assert(g2.nodes@[g2.edges@[j].target as int] == g1.nodes@[g1.edges@[j].target as int]);
            assert(connector_event(g2, srcs, e));
        }
    }
    assert(staging_fault(g2, srcs) == staging_fault(g1, srcs)) by {
        if staging_fault(g2, srcs) {
            if exists|i: int, j: int| edge_fault_at(g2, srcs, i, j) {
                let (i, j) = choose|i: int, j: int| edge_fault_at(g2, srcs, i, j);
                assert(g1.edges@[j].target < g1.nodes@.len());
                assert(edge_fault_at(g1, srcs, i, j));
            } else {
                let i = choose|i: int|
                    0 <= i < srcs.len() && srcs[i] < g2.nodes@.len() && !(g2.nodes@[srcs[i] as int]
                        is Cell || g2.nodes@[srcs[i] as int] is ConnectorIn);
                assert(!(g1.nodes@[srcs[i] as int] is Cell || g1.nodes@[srcs[i] as int]
                    is ConnectorIn));
            }
        }
        if staging_fault(g1, srcs) {
            if exists|i: int, j: int| edge_fault_at(g1, srcs, i, j) {
                let (i, j) = choose|i: int, j: int| edge_fault_at(g1, srcs, i, j);
                assert(g1.edges@[j].target < g1.nodes@.len());
                assert(edge_fault_at(g2, srcs, i, j));
            } else {
                let i = choose|i: int|
                    0 <= i < srcs.len() && srcs[i] < g1.nodes@.len() && !(g1.nodes@[srcs[i] as int]
                        is Cell || g1.nodes@[srcs[i] as int] is ConnectorIn);
                assert(!(g2.nodes@[srcs[i] as int] is Cell || g2.nodes@[srcs[i] as int]
                    is ConnectorIn));
            }
        }
    }
}

/// How pushing onto a sequence relates to membership and to its prefixes.
pub(crate) proof fn lemma_push_facts<A>(s: Seq<A>, x: A)
    ensures
        forall|y: A| s.contains(y) ==> #[trigger] s.push(x).contains(y),
        s.push(x).contains(x),
        forall|y: A| #[trigger] s.push(x).contains(y) ==> s.contains(y) || y == x,
        forall|p: int| 0 <= p <= s.len() ==> #[trigger] s.push(x).take(p) == s.take(p),
{
    assert forall|y: A| s.contains(y) implies s.push(x).contains(y) by {
        let idx = choose|idx: int| 0 <= idx < s.len() && s[idx] == y;
        assert(s.push(x)[idx] == y);
    }
    assert(s.push(x)[s.len() as int] == x);
    assert forall|y: A| s.push(x).contains(y) implies s.contains(y) || y == x by {
        let idx = choose|idx: int| 0 <= idx < s.push(x).len() && s.push(x)[idx] == y;
        if idx < s.len() {
            assert(s[idx] == y);
        }
    }
    assert forall|p: int| 0 <= p <= s.len() implies s.push(x).take(p) == s.take(p) by {
        assert(s.push(x).take(p) =~= s.take(p));
    }
}

/// Membership in a prefix gives membership in the whole sequence.
proof fn lemma_take_contains<A>(s: Seq<A>, p: int, y: A)
    requires
        0 <= p <= s.len(),
        s.take(p).contains(y),
    ensures
        s.contains(y),
{
    let idx = choose|idx: int| 0 <= idx < p && s.take(p)[idx] == y;
    assert(s[idx] == y);
}

/// The full walk is the walk up to row `srcs.len()`.
proof fn lemma_before_full(g: ComponentGraph, srcs: Seq<usize>)
    ensures
        forall|t: usize|
            #[trigger] sig_target_before(g, srcs, srcs.len() as int, 0, t) == is_sig_target(
                g,
                srcs,
                t,
            ),
        forall|t: usize|
            #[trigger] assoc_target_before(g, srcs, srcs.len() as int, 0, t) == is_assoc_target(
                g,
                srcs,
                t,
            ),
        forall|e: InstanceComponentIx|
            #[trigger] connector_event_before(g, srcs, srcs.len() as int, 0, e)
                == connector_event(g, srcs, e),
{
}

/// Finishing row `i` of the walk is the same as starting row `i + 1`.
proof fn lemma_before_next_row(g: ComponentGraph, srcs: Seq<usize>, i: int)
    requires
        0 <= i,
    ensures
        forall|t: usize|
            #[trigger] sig_target_before(g, srcs, i + 1, 0, t) == sig_target_before(
                g,
                srcs,
                i,
                g.edges@.len() as int,
                t,
            ),
        forall|t: usize|
            #[trigger] assoc_target_before(g, srcs, i + 1, 0, t) == assoc_target_before(
                g,
                srcs,
                i,
                g.edges@.len() as int,
                t,
            ),
        forall|e: InstanceComponentIx|
            #[trigger] connector_event_before(g, srcs, i + 1, 0, e) == connector_event_before(
                g,
                srcs,
                i,
                g.edges@.len() as int,
                e,
            ),
{
}

/// Clear the fired flag of a cell or input connector; leave other node
/// kinds and every other field unchanged.
fn clear_fired_flag(node: &mut Node)
    ensures
        *old(node) matches Node::Cell(c) ==> *final(node) == Node::Cell(
            CellNode {
                cell_type: c.cell_type,
                flags: crate::component::CellFlags { fired: false, staged: c.flags.staged },
                signals: c.signals,
            },
        ),
        *old(node) matches Node::ConnectorIn(c) ==> *final(node) == Node::ConnectorIn(
            crate::component::ConnectorInNode {
                node_name: c.node_name,
                flags: crate::component::CellFlags { fired: false, staged: c.flags.staged },
            },
        ),
        *old(node) is ConnectorOut ==> *final(node) == *old(node),
        *old(node) is Component ==> *final(node) == *old(node),
{
    match node {
        Node::Cell(c) => {
            c.flags.fired = false;
        },
        Node::ConnectorIn(c) => {
            c.flags.fired = false;
        },
        _ => {},
    }
}

/// Relies on `cuid::cuid1`: a fresh collision-resistant identifier built
/// from the time, a counter, the host fingerprint and random blocks. The
/// value depends on the environment, so nothing is stated of it.
#[verifier::external_body]
fn generate_instance_id() -> String {
    cuid::cuid1()
}

} // verus!
