//! The orchestrator: a catalog of component templates, the live instance
//! graph, and the global clock that steps every active instance and routes
//! signals across instance boundaries.
//!
//! Cross-instance signals emitted during one global cycle are always
//! delivered for the next one, so a signal is never sent and received in
//! the same tick and the global cycle count is a reproducible measure of
//! propagation depth.

use vstd::prelude::*;

use crate::component::{
    Component, ComponentGraph, ConnectorOutNode, Edge, InstanceComponentIx, InstanceRefNode, Node,
};
use crate::component_instance::{connector_event, cycle_outcome, ComponentInstance};
use crate::errors::EngineError;

verus! {

/// A resolved route between two live instances: which connector of the
/// parent graph maps to which connector of the child graph.
#[derive(Debug, Clone, Copy, PartialEq, Eq, Structural)]
pub struct InstanceConnection {
    pub from_connector_index: usize,
    pub to_connector_index: usize,
}

/// A node of the live instance graph: the name of the component it stands
/// for, and the instance itself once it has been created.
#[derive(Debug)]
pub struct InstanceGraphNode {
    pub component_name: String,
    pub instance: Option<ComponentInstance>,
}

/// A directed edge of the live instance graph.
#[derive(Debug, Clone, Copy, PartialEq, Eq, Structural)]
pub struct InstanceEdge {
    pub source: usize,
    pub target: usize,
    pub connection: InstanceConnection,
}

/// The orchestrator's runtime map of instantiated components: an
/// index-stable arena of lazily populated nodes and resolved routes.
#[derive(Debug)]
pub struct InstanceGraph {
    pub nodes: Vec<InstanceGraphNode>,
    pub edges: Vec<InstanceEdge>,
}

impl InstanceGraph {
    /// Every edge's endpoints name existing nodes.
    pub open spec fn wf(self) -> bool {
        forall|j: int|
            0 <= j < self.edges@.len() ==> (#[trigger] self.edges@[j]).source < self.nodes@.len()
                && self.edges@[j].target < self.nodes@.len()
    }

    /// An empty instance graph.
    pub fn new() -> (r: InstanceGraph)
        ensures
            r.nodes@.len() == 0,
            r.edges@.len() == 0,
            r.wf(),
    {
        InstanceGraph { nodes: Vec::new(), edges: Vec::new() }
    }

    /// Append a pending node for a component of the given name and return
    /// its index, which stays valid for the graph's lifetime.
    pub fn add_pending_node(&mut self, component_name: String) -> (ix: usize)
        ensures
            ix == old(self).nodes@.len(),
            final(self).nodes@.len() == old(self).nodes@.len() + 1,
            forall|k: int|
                0 <= k < old(self).nodes@.len() ==> final(self).nodes@[k] == old(self).nodes@[k],
            final(self).nodes@[ix as int].component_name == component_name,
            final(self).nodes@[ix as int].instance is None,
            final(self).edges@ == old(self).edges@,
            old(self).wf() ==> final(self).wf(),
    {
        let ix = self.nodes.len();
        self.nodes.push(InstanceGraphNode { component_name, instance: None });
        ix
    }

    /// Record the route between two instance-graph nodes, replacing the
    /// connection of an existing edge between them or adding a new edge.
    #[verifier::loop_isolation(false)]
    pub fn update_edge(&mut self, source: usize, target: usize, connection: InstanceConnection)
        requires
            source < old(self).nodes@.len(),
            target < old(self).nodes@.len(),
        ensures
            final(self).nodes@ == old(self).nodes@,
            final(self).edges@ == old(self).edges@.push(
                InstanceEdge { source, target, connection },
            ) || (exists|k: int|
                0 <= k < old(self).edges@.len() && (#[trigger] old(self).edges@[k]).source
                    == source && old(self).edges@[k].target == target && final(self).edges@ == old(
                    self,
                ).edges@.update(k, InstanceEdge { source, target, connection })),
            old(self).wf() ==> final(self).wf(),
    {
        let rec = InstanceEdge { source, target, connection };
        let n = self.edges.len();
        let mut k: usize = 0;
        while k < n
            invariant
                k <= self.edges@.len(),
                n == self.edges@.len(),
                self.edges@ == old(self).edges@,
                self.nodes@ == old(self).nodes@,
            decreases n - k,
        {
            if self.edges[k].source == source && self.edges[k].target == target {
                proof {
                    assert(old(self).edges@[k as int].source == source);
                    assert(old(self).edges@[k as int].target == target);
                }
                self.edges[k] = rec;
                proof {
                    assert(self.edges@ =~= old(self).edges@.update(
                        k as int,
                        InstanceEdge { source, target, connection },
                    ));
                }
                return ;
            }
            k += 1;
        }
        self.edges.push(rec);
        proof {
            assert(self.edges@ =~= old(self).edges@.push(
                InstanceEdge { source, target, connection },
            ));
        }
    }
}

/// The working sets of the global clock: which instances run this cycle,
/// which are queued for the next, and which connector signals await
/// delivery.
#[derive(Debug)]
pub struct ExecutionContext {
    pub active_instance_ixs: Vec<usize>,
    pub queued_instance_ixs: Vec<usize>,
    pub signaled_connector_ixs: Vec<InstanceComponentIx>,
}

impl ExecutionContext {
    /// An empty context.
    pub fn new() -> (r: ExecutionContext)
        ensures
            r.active_instance_ixs@.len() == 0,
            r.queued_instance_ixs@.len() == 0,
            r.signaled_connector_ixs@.len() == 0,
    {
        ExecutionContext {
            active_instance_ixs: Vec::new(),
            queued_instance_ixs: Vec::new(),
            signaled_connector_ixs: Vec::new(),
        }
    }

    /// Queue an instance to run in the next global cycle.
    pub fn queue_active_instance(&mut self, instance_ix: usize)
        ensures
            final(self).queued_instance_ixs@ == old(self).queued_instance_ixs@.push(instance_ix),
            final(self).active_instance_ixs@ == old(self).active_instance_ixs@,
            final(self).signaled_connector_ixs@ == old(self).signaled_connector_ixs@,
    {
        self.queued_instance_ixs.push(instance_ix);
    }

    /// Begin a global cycle: if nothing is running, promote the queue.
    fn start_cycle(&mut self)
        ensures
            old(self).active_instance_ixs@.len() == 0 ==> final(self).active_instance_ixs@ == old(
                self,
            ).queued_instance_ixs@ && final(self).queued_instance_ixs@.len() == 0,
            old(self).active_instance_ixs@.len() > 0 ==> *final(self) == *old(self),
            final(self).signaled_connector_ixs@ == old(self).signaled_connector_ixs@,
    {
        if self.active_instance_ixs.len() == 0 {
            core::mem::swap(&mut self.active_instance_ixs, &mut self.queued_instance_ixs);
            self.queued_instance_ixs.clear();
        }
    }

    /// End a global cycle: drop the finished work and report whether any
    /// instance is queued for the next one.
    fn end_cycle(&mut self) -> (r: bool)
        ensures
            final(self).active_instance_ixs@.len() == 0,
            final(self).signaled_connector_ixs@.len() == 0,
            final(self).queued_instance_ixs@ == old(self).queued_instance_ixs@,
            r == (old(self).queued_instance_ixs@.len() > 0),
    {
        self.active_instance_ixs.clear();
        self.signaled_connector_ixs.clear();
        self.queued_instance_ixs.len() > 0
    }

    /// Record a cross-boundary signal for delivery in the next global
    /// cycle, and queue its target instance.
    pub(crate) fn signal_connector(&mut self, instance_con_ix: InstanceComponentIx)
        ensures
            final(self).signaled_connector_ixs@ == old(self).signaled_connector_ixs@.push(
                instance_con_ix,
            ),
            final(self).queued_instance_ixs@ == old(self).queued_instance_ixs@.push(
                instance_con_ix.instance_ix,
            ),
            final(self).active_instance_ixs@ == old(self).active_instance_ixs@,
    {
        self.signaled_connector_ixs.push(instance_con_ix);
        self.queued_instance_ixs.push(instance_con_ix.instance_ix);
    }
}

/// How a caller names the instance whose input connector should receive a
/// signal: through a component-reference node (whose resolution is then
/// memoized into it), or directly by a resolved address.
#[derive(Debug)]
pub enum InstanceConnectorRef {
    InstanceRefNode(InstanceRefNode, usize),
    InstanceConnectorIx(InstanceComponentIx),
}

/// How an external caller may address a connector when injecting a signal:
/// by node index into the root instance, or by node index into the instance
/// of a given identity.
#[derive(Debug, Clone)]
pub enum SignalConnectorOptions {
    ConnectorInIndex(usize),
    ConnectorInIndexForInstanceId(usize, String),
    ConnectorOutIndexForInstanceId(usize, String),
}

/// The graph `g` names a connector of this name among its nodes.
pub open spec fn has_connector_in(g: ComponentGraph, name: Seq<char>) -> bool {
    exists|i: int|
        0 <= i < g.nodes@.len() && (match #[trigger] g.nodes@[i] {
            Node::ConnectorIn(c) => c.node_name@ == name,
            _ => false,
        })
}

/// Some component of this name stands in the catalog.
pub open spec fn catalog_has(catalog: Seq<Component>, name: Seq<char>) -> bool {
    exists|i: int| 0 <= i < catalog.len() && catalog[i].name@ == name
}

/// Find the position of the component of this name in the catalog.
fn find_component_index(components: &Vec<Component>, name: &String) -> (r: Option<usize>)
    ensures
        r matches Some(i) ==> i < components@.len() && components@[i as int].name@ == name@,
        r is None ==> !catalog_has(components@, name@),
{
    let n = components.len();
    let mut i: usize = 0;
    while i < n
        invariant
            i <= n,
            n == components@.len(),
            forall|k: int| 0 <= k < i ==> (#[trigger] components@[k].name@) != name@,
        decreases n - i,
    {
        if components[i].name == *name {
            return Some(i);
        }
        i += 1;
    }
    None
}

/// Find the node index of the input connector of this name in a component.
///
/// Fails exactly when the component has no input connector of the name;
/// on success the index is the first such node.
fn get_connector_index_by_name(component: &Component, connector_name: &String) -> (r: Result<
    usize,
    EngineError,
>)
    ensures
        r matches Ok(ix) ==> ix < component.graph.nodes@.len() && (
        match component.graph.nodes@[ix as int] {
            Node::ConnectorIn(c) => c.node_name@ == connector_name@,
            _ => false,
        }),
        r matches Ok(ix) ==> forall|k: int|
            0 <= k < ix ==> !(match #[trigger] component.graph.nodes@[k] {
                Node::ConnectorIn(c) => c.node_name@ == connector_name@,
                _ => false,
            }),
        (r is Ok) <==> has_connector_in(component.graph, connector_name@),
        r is Err ==> r == Err::<usize, EngineError>(
            EngineError::ConnectorNotFound { name: *connector_name },
        ),
{
    let n = component.graph.node_count();
    let mut i: usize = 0;
    while i < n
        invariant
            i <= n,
            n == component.graph.nodes@.len(),
            forall|k: int|
                0 <= k < i ==> !(match #[trigger] component.graph.nodes@[k] {
                    Node::ConnectorIn(c) => c.node_name@ == connector_name@,
                    _ => false,
                }),
        decreases n - i,
    {
        let found = match &component.graph.nodes[i] {
            Node::ConnectorIn(c) => c.node_name == *connector_name,
            _ => false,
        };
        if found {
            return Ok(i);
        }
        i += 1;
    }
    Err(EngineError::ConnectorNotFound { name: connector_name.clone() })
}

} // verus!

verus! {

/// Every resolved component reference of `g` points below `bound`.
pub open spec fn refs_in_range(g: ComponentGraph, bound: int) -> bool {
    forall|r: usize|
        r < g.nodes@.len() ==> (match #[trigger] g.nodes@[r as int] {
            Node::Component(rf) => (match rf.instance_ix {
                Some(ix) => (ix as int) < bound,
                None => true,
            }),
            _ => true,
        })
}

/// Distinct component-reference nodes of one graph never share a resolved
/// instance-graph node: structurally distinct instantiations are never
/// silently collapsed into one instance.
pub open spec fn refs_injective(g: ComponentGraph) -> bool {
    forall|r1: usize, r2: usize|
        r1 < r2 && (r2 as int) < g.nodes@.len() ==> (match (
            #[trigger] g.nodes@[r1 as int],
            #[trigger] g.nodes@[r2 as int],
        ) {
            (Node::Component(a), Node::Component(b)) => a.instance_ix is None || b.instance_ix
                is None || a.instance_ix != b.instance_ix,
            _ => true,
        })
}

/// The catalog holds a component of this name with an input connector of
/// that name.
pub open spec fn catalog_connector_ok(
    catalog: Seq<Component>,
    comp_name: Seq<char>,
    conn_name: Seq<char>,
) -> bool {
    exists|i: int|
        0 <= i < catalog.len() && (#[trigger] catalog[i]).name@ == comp_name && has_connector_in(
            catalog[i].graph,
            conn_name,
        )
}

/// For the connection edge `j` with reference endpoint `ref_ix` and other
/// endpoint `other_ix`: the other endpoint is an output connector whose
/// named child connector can be resolved against the catalog, or an input
/// connector.
pub open spec fn ref_edge_endpoint_ok(
    g: ComponentGraph,
    catalog: Seq<Component>,
    j: int,
    ref_ix: usize,
    other_ix: usize,
) -> bool {
    match g.nodes@[other_ix as int] {
        Node::ConnectorOut(_) => (match (g.nodes@[ref_ix as int], g.edges@[j].edge) {
            (Node::Component(rf), Edge::Connection(c)) => catalog_connector_ok(
                catalog,
                rf.component_name@,
                c.instance_connector_name@,
            ),
            _ => false,
        }),
        Node::ConnectorIn(_) => true,
        _ => false,
    }
}

/// Edge `j` of `g` is consistent with reference resolution: if it touches a
/// component-reference node it is a connection edge joining the reference
/// to a connector, and a connection through an output connector names a
/// connector that the referenced child component has.
pub open spec fn ref_edge_ok(g: ComponentGraph, catalog: Seq<Component>, j: int) -> bool {
    (g.nodes@[g.edges@[j].source as int] is Component || g.nodes@[g.edges@[j].target as int]
        is Component) ==> {
        &&& !(g.nodes@[g.edges@[j].source as int] is Component
            && g.nodes@[g.edges@[j].target as int] is Component)
        &&& g.edges@[j].edge is Connection
        &&& ref_edge_endpoint_ok(
            g,
            catalog,
            j,
            if g.nodes@[g.edges@[j].source as int] is Component {
                g.edges@[j].source
            } else {
                g.edges@[j].target
            },
            if g.nodes@[g.edges@[j].source as int] is Component {
                g.edges@[j].target
            } else {
                g.edges@[j].source
            },
        )
    }
}

/// Every edge of `g` is consistent with reference resolution against the
/// catalog; instantiating such a component cannot fail.
pub open spec fn ref_wiring_ok(g: ComponentGraph, catalog: Seq<Component>) -> bool {
    forall|j: int| 0 <= j < g.edges@.len() ==> #[trigger] ref_edge_ok(g, catalog, j)
}

/// The catalog component of this name has, at node index `ix`, its first
/// input connector of the given connector name.
pub open spec fn named_connector_at(
    catalog: Seq<Component>,
    comp_name: Seq<char>,
    conn_name: Seq<char>,
    ix: usize,
) -> bool {
    exists|ci: int|
        0 <= ci < catalog.len() && (#[trigger] catalog[ci]).name@ == comp_name && ix
            < catalog[ci].graph.nodes@.len() && (match catalog[ci].graph.nodes@[ix as int] {
            Node::ConnectorIn(c) => c.node_name@ == conn_name,
            _ => false,
        }) && (forall|k: int|
            0 <= k < ix ==> !(match #[trigger] catalog[ci].graph.nodes@[k] {
                Node::ConnectorIn(c) => c.node_name@ == conn_name,
                _ => false,
            }))
}

/// Every component reference touched by edge `j` is resolved, and an
/// output connector wired through a reference carries a route.
pub open spec fn edge_refs_resolved_in(
    nodes: Seq<Node>,
    edges: Seq<crate::component::GraphEdge>,
    j: int,
) -> bool {
    &&& (match nodes[edges[j].source as int] {
        Node::Component(rf) => rf.instance_ix is Some,
        _ => true,
    })
    &&& (match nodes[edges[j].target as int] {
        Node::Component(rf) => rf.instance_ix is Some,
        _ => true,
    })
    &&& ((nodes[edges[j].source as int] is Component && nodes[edges[j].target as int]
        is ConnectorOut) ==> (match nodes[edges[j].target as int] {
        Node::ConnectorOut(co) => co.to_instance_connector is Some,
        _ => false,
    }))
    &&& ((nodes[edges[j].target as int] is Component && nodes[edges[j].source as int]
        is ConnectorOut) ==> (match nodes[edges[j].source as int] {
        Node::ConnectorOut(co) => co.to_instance_connector is Some,
        _ => false,
    }))
}

pub open spec fn edge_refs_resolved(g: ComponentGraph, j: int) -> bool {
    edge_refs_resolved_in(g.nodes@, g.edges@, j)
}

/// `b` is `a` with resolution possibly advanced: the same node up to a
/// reference gaining (or keeping) its instance node or an output connector
/// gaining (or keeping) a route.
pub open spec fn resolves_further(a: Node, b: Node) -> bool {
    match (a, b) {
        (Node::Component(x), Node::Component(y)) => x.node_name == y.node_name && x.component_name
            == y.component_name && (x.instance_ix is Some ==> y.instance_ix == x.instance_ix),
        (Node::ConnectorOut(x), Node::ConnectorOut(y)) => x.to_instance_connector is Some
            ==> y.to_instance_connector is Some,
        _ => a == b,
    }
}

/// Advancing resolution keeps an edge's references resolved.
proof fn lemma_edge_resolution_monotone(
    new_nodes: Seq<Node>,
    old_nodes: Seq<Node>,
    edges: Seq<crate::component::GraphEdge>,
    j: int,
)
    requires
        old_nodes.len() == new_nodes.len(),
        0 <= j < edges.len(),
        edges[j].source < old_nodes.len(),
        edges[j].target < old_nodes.len(),
        forall|n: int|
            0 <= n < old_nodes.len() ==> resolves_further(old_nodes[n], #[trigger] new_nodes[n]),
        edge_refs_resolved_in(old_nodes, edges, j),
    ensures
        edge_refs_resolved_in(new_nodes, edges, j),
{
    assert(resolves_further(
        old_nodes[edges[j].source as int],
        new_nodes[edges[j].source as int],
    ));
    assert(resolves_further(
        old_nodes[edges[j].target as int],
        new_nodes[edges[j].target as int],
    ));
}

/// A resolved output connector's route was earned by a connection edge: the
/// edge joins the connector at `o` to a reference resolved to the route's
/// instance, and the route's connector index is the first input connector
/// of that name in the referenced catalog component.
pub open spec fn route_earned_in(
    nodes: Seq<Node>,
    edges: Seq<crate::component::GraphEdge>,
    catalog: Seq<Component>,
    o: usize,
    route: InstanceComponentIx,
) -> bool {
    exists|j: int, r: int|
        0 <= j < edges.len() && 0 <= r < nodes.len() && (((#[trigger] edges[j]).source == o
            && edges[j].target == r as usize) || (edges[j].source == r as usize && edges[j].target
            == o)) && (match (edges[j].edge, #[trigger] nodes[r]) {
            (Edge::Connection(cn), Node::Component(rf)) => rf.instance_ix == Some(
                route.instance_ix,
            ) && named_connector_at(
                catalog,
                rf.component_name@,
                cn.instance_connector_name@,
                route.component_ix,
            ),
            _ => false,
        })
}

pub open spec fn route_earned(
    g: ComponentGraph,
    catalog: Seq<Component>,
    o: usize,
    route: InstanceComponentIx,
) -> bool {
    route_earned_in(g.nodes@, g.edges@, catalog, o, route)
}

/// A routing witness never rests on an unresolved reference, so a node
/// change that only resolves a reference (or touches a non-reference other
/// than `o`) keeps every other node's witness.
proof fn lemma_route_witness_transfer(
    new_nodes: Seq<Node>,
    old_nodes: Seq<Node>,
    edges: Seq<crate::component::GraphEdge>,
    catalog: Seq<Component>,
    o: usize,
    route: InstanceComponentIx,
    changed: usize,
)
    requires
        old_nodes.len() == new_nodes.len(),
        forall|n: int| 0 <= n < old_nodes.len() && n != changed ==> new_nodes[n] == old_nodes[n],
        old_nodes[changed as int] matches Node::Component(a) ==> a.instance_ix is None,
        o != changed,
        route_earned_in(old_nodes, edges, catalog, o, route),
    ensures
        route_earned_in(new_nodes, edges, catalog, o, route),
{
    let (j, r) = choose|j: int, r: int|
        0 <= j < edges.len() && 0 <= r < old_nodes.len() && (((#[trigger] edges[j]).source == o
            && edges[j].target == r as usize) || (edges[j].source == r as usize && edges[j].target
            == o)) && (match (edges[j].edge, #[trigger] old_nodes[r]) {
            (Edge::Connection(cn), Node::Component(rf)) => rf.instance_ix == Some(
                route.instance_ix,
            ) && named_connector_at(
                catalog,
                rf.component_name@,
                cn.instance_connector_name@,
                route.component_ix,
            ),
            _ => false,
        });
    assert(r != changed);
    assert(new_nodes[r] == old_nodes[r]);
}

/// Every resolved output connector of `g` earned its route from one of the
/// graph's connection edges.
pub open spec fn routes_earned(g: ComponentGraph, catalog: Seq<Component>) -> bool {
    forall|o: usize|
        o < g.nodes@.len() ==> (match #[trigger] g.nodes@[o as int] {
            Node::ConnectorOut(co) => (match co.to_instance_connector {
                Some(route) => route_earned(g, catalog, o, route),
                None => true,
            }),
            _ => true,
        })
}

/// Position `k` holds the first occurrence of its value in `s`.
pub open spec fn first_occurrence(s: Seq<usize>, k: int) -> bool {
    forall|q: int| 0 <= q < k ==> s[q] != s[k]
}

/// Some live instance of the cycle's batch emits this connector event when
/// stepped from its current state.
pub open spec fn emitted_event(
    nodes: Seq<InstanceGraphNode>,
    act: Seq<usize>,
    e: InstanceComponentIx,
) -> bool {
    exists|k: int|
        0 <= k < act.len() && (#[trigger] act[k]) < nodes.len() && (
        match nodes[act[k] as int].instance {
            Some(pre) => connector_event(
                pre.component.graph,
                pre.fired_nodes@ + pre.incoming_signals@,
                e,
            ),
            None => false,
        })
}

/// A route can be delivered to: it names an instance-graph node, and the
/// connector index lies inside the live instance's graph — or, for a node
/// still pending, inside the cleanly wirable catalog template it will be
/// created from.
pub open spec fn address_deliverable(
    catalog: Seq<Component>,
    ig: InstanceGraph,
    route: InstanceComponentIx,
) -> bool {
    route.instance_ix < ig.nodes@.len() && (match ig.nodes@[route.instance_ix as int].instance {
        Some(inst) => route.component_ix < inst.component.graph.nodes@.len(),
        None => exists|ci: int|
            0 <= ci < catalog.len() && (#[trigger] catalog[ci]).name@
                == ig.nodes@[route.instance_ix as int].component_name@ && ref_wiring_ok(
                catalog[ci].graph,
                catalog,
            ) && route.component_ix < catalog[ci].graph.nodes@.len(),
    })
}

/// A reference can be signalled on the given connector: its memoized node is
/// deliverable, or a fresh node for its component would be.
pub open spec fn ref_deliverable(
    catalog: Seq<Component>,
    ig: InstanceGraph,
    rf: InstanceRefNode,
    connector_index: usize,
) -> bool {
    match rf.instance_ix {
        Some(ix) => address_deliverable(
            catalog,
            ig,
            InstanceComponentIx { instance_ix: ix, component_ix: connector_index },
        ),
        None => exists|ci: int|
            0 <= ci < catalog.len() && (#[trigger] catalog[ci]).name@ == rf.component_name@
                && ref_wiring_ok(catalog[ci].graph, catalog) && connector_index
                < catalog[ci].graph.nodes@.len(),
    }
}

/// Memoize a resolved instance-graph index into a component-reference node;
/// leave other node kinds unchanged.
fn set_ref_instance(node: &mut Node, ix: usize)
    ensures
        *old(node) matches Node::Component(rf) ==> *final(node) == Node::Component(
            InstanceRefNode {
                node_name: rf.node_name,
                component_name: rf.component_name,
                instance_ix: Some(ix),
            },
        ),
        !(*old(node) is Component) ==> *final(node) == *old(node),
{
    match node {
        Node::Component(rf) => {
            rf.instance_ix = Some(ix);
        },
        _ => {},
    }
}

/// Resolve an output connector to its cross-instance route; leave other
/// node kinds unchanged.
fn set_connector_route(node: &mut Node, route: InstanceComponentIx)
    ensures
        *old(node) is ConnectorOut ==> *final(node) == Node::ConnectorOut(
            ConnectorOutNode { to_instance_connector: Some(route) },
        ),
        !(*old(node) is ConnectorOut) ==> *final(node) == *old(node),
{
    match node {
        Node::ConnectorOut(co) => {
            co.to_instance_connector = Some(route);
        },
        _ => {},
    }
}

/// The orchestrator: the catalog of component templates, the live instance
/// graph, the designated root, and the global clock with its working sets.
#[derive(Debug)]
pub struct Orchestrator {
    pub components: Vec<Component>,
    pub clock_cycle: usize,
    pub instance_graph: InstanceGraph,
    pub root_instance_ref: Option<InstanceRefNode>,
    pub context: ExecutionContext,
}

impl Orchestrator {
    /// Catalog names are unique, and every template is well-formed and
    /// inert.
    pub open spec fn catalog_wf(self) -> bool {
        (forall|a: int, b: int|
            0 <= a < b < self.components@.len() ==> (#[trigger] self.components@[a]).name@ != (
            #[trigger] self.components@[b]).name@) && (forall|i: int|
            0 <= i < self.components@.len() ==> (#[trigger] self.components@[i]).graph.wf()
                && self.components@[i].graph.is_inert())
    }

    /// A live instance is well-formed and its resolved references point
    /// into the instance graph, each reference to its own node.
    pub open spec fn instance_ok(self, inst: ComponentInstance) -> bool {
        inst.wf() && refs_in_range(
            inst.component.graph,
            self.instance_graph.nodes@.len() as int,
        ) && refs_injective(inst.component.graph)
    }

    /// Every live instance of the instance graph is in a good state.
    pub open spec fn instances_wf(self) -> bool {
        forall|k: int|
            0 <= k < self.instance_graph.nodes@.len() ==> (match (
            #[trigger] self.instance_graph.nodes@[k]).instance {
                Some(inst) => self.instance_ok(inst),
                None => true,
            })
    }

    /// A resolved root reference points into the instance graph.
    pub open spec fn root_ok(self) -> bool {
        match self.root_instance_ref {
            Some(rf) => (match rf.instance_ix {
                Some(ix) => ix < self.instance_graph.nodes@.len(),
                None => true,
            }),
            None => true,
        }
    }

    /// The orchestrator's well-formedness.
    pub open spec fn wf(self) -> bool {
        self.catalog_wf() && self.instance_graph.wf() && self.instances_wf() && self.root_ok()
    }

    /// A fresh orchestrator with an empty catalog, no live instances and no
    /// root component.
    pub fn new() -> (r: Orchestrator)
        ensures
            r.wf(),
            r.components@.len() == 0,
            r.clock_cycle == 0,
            r.instance_graph.nodes@.len() == 0,
            r.root_instance_ref is None,
            r.context.active_instance_ixs@.len() == 0,
            r.context.queued_instance_ixs@.len() == 0,
            r.context.signaled_connector_ixs@.len() == 0,
    {
        Orchestrator {
            components: Vec::new(),
            clock_cycle: 0,
            instance_graph: InstanceGraph::new(),
            root_instance_ref: None,
            context: ExecutionContext::new(),
        }
    }

    /// Put a component template into the catalog, replacing a template of
    /// the same name if one is already there.
    #[verifier::loop_isolation(false)]
    pub fn add_component(&mut self, component: Component)
        requires
            old(self).wf(),
            component.graph.wf(),
            component.graph.is_inert(),
        ensures
            final(self).wf(),
            catalog_has(final(self).components@, component.name@),
            // a template of the same name is replaced in place, otherwise
            // the template is appended; nothing else changes
            (exists|i: int|
                0 <= i < old(self).components@.len() && old(self).components@[i].name@
                    == component.name@ && final(self).components@ == old(
                    self,
                ).components@.update(i, component)) || (!catalog_has(
                old(self).components@,
                component.name@,
            ) && final(self).components@ == old(self).components@.push(component)),
            final(self).clock_cycle == old(self).clock_cycle,
            final(self).instance_graph.nodes@ == old(self).instance_graph.nodes@,
            final(self).instance_graph.edges@ == old(self).instance_graph.edges@,
            final(self).root_instance_ref == old(self).root_instance_ref,
            final(self).context.queued_instance_ixs@ == old(self).context.queued_instance_ixs@,
    {
        let found = find_component_index(&self.components, &component.name);
        match found {
            Some(i) => {
                let ghost pre = self.components@;
                let ghost c = component;
                self.components[i] = component;
                proof {
                    assert(self.components@ =~= pre.update(i as int, c));
                    assert(self.components@[i as int] == c);
                }
            },
            None => {
                let ghost pre = self.components@;
                let ghost c = component;
                self.components.push(component);
                proof {
                    assert(self.components@ =~= pre.push(c));
                    assert(self.components@[pre.len() as int] == c);
                }
            },
        }
    }

    /// Put a component template into the catalog and make it the designated
    /// root: the component that an external signal reaches first.
    pub fn add_root_component(&mut self, component: Component)
        requires
            old(self).wf(),
            component.graph.wf(),
            component.graph.is_inert(),
        ensures
            final(self).wf(),
            catalog_has(final(self).components@, component.name@),
            final(self).root_instance_ref matches Some(rf) && rf.component_name@ == component.name@
                && rf.node_name@ == "Root"@ && rf.instance_ix is None,
            final(self).clock_cycle == old(self).clock_cycle,
            final(self).instance_graph.nodes@ == old(self).instance_graph.nodes@,
            final(self).context.queued_instance_ixs@ == old(self).context.queued_instance_ixs@,
    {
        let root_name: String = component.name.clone();
        let node_name = root_node_label();
        self.root_instance_ref = Some(InstanceRefNode::new(node_name, root_name));
        self.add_component(component);
    }

    /// Make the instance-graph node at `ig_ix` live, creating its
    /// instance from the catalog if it has none yet. A fresh instance's
    /// graph is walked for component references: each reference is given
    /// its own (new) instance-graph node, connection edges are recorded as
    /// instance-graph edges, and output connectors wired through a
    /// reference are resolved to their cross-instance route. Resolution is
    /// memoized: a node that is already live is returned untouched, and a
    /// reference keeps the node it was first given.
    ///
    /// Fails when the named component is not in the catalog, when a
    /// connection names a connector the child lacks, or when an edge
    /// touching a reference is not a connection between a reference and a
    /// connector; succeeds whenever the component exists and its reference
    /// wiring is clean.
    #[verifier::loop_isolation(false)]
    #[verifier::rlimit(100)]
    fn resolve_instance(&mut self, ig_ix: usize) -> (r: Result<(), EngineError>)
        requires
            old(self).wf(),
            ig_ix < old(self).instance_graph.nodes@.len(),
        ensures
            final(self).wf(),
            final(self).components@ == old(self).components@,
            final(self).clock_cycle == old(self).clock_cycle,
            final(self).root_instance_ref == old(self).root_instance_ref,
            final(self).context.active_instance_ixs@ == old(self).context.active_instance_ixs@,
            final(self).context.queued_instance_ixs@ == old(self).context.queued_instance_ixs@,
            final(self).context.signaled_connector_ixs@ == old(
                self,
            ).context.signaled_connector_ixs@,
            final(self).instance_graph.nodes@.len() >= old(self).instance_graph.nodes@.len(),
            forall|k: int|
                0 <= k < old(self).instance_graph.nodes@.len() && k != ig_ix
                    ==> final(self).instance_graph.nodes@[k] == old(self).instance_graph.nodes@[k],
            final(self).instance_graph.nodes@[ig_ix as int].component_name == old(
                self,
            ).instance_graph.nodes@[ig_ix as int].component_name,
            old(self).instance_graph.nodes@[ig_ix as int].instance is Some ==> *final(self)
                == *old(self) && r is Ok,
            r is Ok ==> final(self).instance_graph.nodes@[ig_ix as int].instance is Some,
            r is Ok && old(self).instance_graph.nodes@[ig_ix as int].instance is None ==> (
            match final(self).instance_graph.nodes@[ig_ix as int].instance {
                Some(inst) => {
                    &&& inst.component.name@
                        == final(self).instance_graph.nodes@[ig_ix as int].component_name@
                    &&& inst.quiescent() && inst.instance_cycle == 0 && inst.instance_cycle
                        < usize::MAX
                    // the instance is a copy of the catalog template of its
                    // name, up to flags, signals and resolution state
                    &&& (exists|ci: int|
                        0 <= ci < old(self).components@.len() && (#[trigger] old(
                            self,
                        ).components@[ci]).name@ == old(
                            self,
                        ).instance_graph.nodes@[ig_ix as int].component_name@
                            && inst.component.graph.edges@ == old(
                            self,
                        ).components@[ci].graph.edges@ && inst.component.graph.nodes@.len() == old(
                            self,
                        ).components@[ci].graph.nodes@.len() && (forall|n: int|
                            0 <= n < inst.component.graph.nodes@.len() ==> (
                            #[trigger] inst.component.graph.nodes@[n]).same_kind_and_names(
                                old(self).components@[ci].graph.nodes@[n],
                            )))
                    // each resolved reference got its own fresh
                    // instance-graph node of the child's name, still
                    // pending (children stay lazy), and an instance-graph
                    // edge from the child records the connection
                    &&& (forall|n: usize|
                        n < inst.component.graph.nodes@.len() ==> (
                        match #[trigger] inst.component.graph.nodes@[n as int] {
                            Node::Component(rf) => (match rf.instance_ix {
                                Some(cix) => old(self).instance_graph.nodes@.len() <= cix
                                    && cix < final(self).instance_graph.nodes@.len()
                                    && final(self).instance_graph.nodes@[cix as int].component_name@
                                    == rf.component_name@
                                    && final(self).instance_graph.nodes@[cix as int].instance
                                    is None && (exists|k: int|
                                    0 <= k < final(self).instance_graph.edges@.len() && (
                                    #[trigger] final(self).instance_graph.edges@[k]).source == cix
                                        && final(self).instance_graph.edges@[k].target == ig_ix),
                                None => true,
                            }),
                            _ => true,
                        }))
                    // every reference wired by an edge is resolved, and an
                    // output connector wired through a reference is routed
                    &&& (forall|j: int|
                        0 <= j < inst.component.graph.edges@.len()
                            ==> #[trigger] edge_refs_resolved(inst.component.graph, j))
                    // a route points to its reference's node and to the
                    // first input connector of the connection's name in the
                    // referenced child component
                    &&& routes_earned(inst.component.graph, old(self).components@)
                },
                None => false,
            }),
            r matches Err(e) ==> (match e {
                EngineError::ComponentNotFound { name } => !catalog_has(
                    old(self).components@,
                    name@,
                ),
                EngineError::ConnectorNotFound { .. } => true,
                EngineError::UnexpectedRefEdge { .. } => true,
                _ => false,
            }),
            r is Err ==> final(self).instance_graph.nodes@[ig_ix as int].instance is None,
            (old(self).instance_graph.nodes@[ig_ix as int].instance is None && exists|ci: int|
                0 <= ci < old(self).components@.len() && (#[trigger] old(
                    self,
                ).components@[ci]).name@ == old(
                    self,
                ).instance_graph.nodes@[ig_ix as int].component_name@ && ref_wiring_ok(
                    old(self).components@[ci].graph,
                    old(self).components@,
                )) ==> r is Ok,
    {
        let already_live = match &self.instance_graph.nodes[ig_ix].instance {
            Some(_) => true,
            None => false,
        };
        if already_live {
            return Ok(());
        }
        let comp_name = self.instance_graph.nodes[ig_ix].component_name.clone();
        let comp_ix = match find_component_index(&self.components, &comp_name) {
            Some(i) => i,
            None => {
                return Err(EngineError::ComponentNotFound { name: comp_name });
            },
        };
        let ghost template = self.components@[comp_ix as int].graph;
        let ghost cat = self.components@;
        let ghost ig0 = self.instance_graph;
        let mut inst = ComponentInstance::new(comp_name, &self.components[comp_ix], &[]);
        proof {
            // The fresh copy of an inert template has no resolved
            // references and no routed output connectors.
            assert forall|n: usize|
                n < inst.component.graph.nodes@.len() implies (
            match #[trigger] inst.component.graph.nodes@[n as int] {
                Node::Component(rf) => rf.instance_ix is None,
                Node::ConnectorOut(co) => co.to_instance_connector is None,
                _ => true,
            }) by {
                assert(inst.component.graph.nodes@[n as int].same_but_flags(
                    template.nodes@[n as int],
                ));
                assert(template.nodes@[n as int].is_inert());
            }
        }
        let n_edges = inst.component.graph.edges.len();
        let mut j: usize = 0;
        while j < n_edges
            invariant
                j <= n_edges,
                n_edges == template.edges@.len(),
                self.components@ == cat,
                self.clock_cycle == old(self).clock_cycle,
                self.root_instance_ref == old(self).root_instance_ref,
                self.context.active_instance_ixs@ == old(self).context.active_instance_ixs@,
                self.context.queued_instance_ixs@ == old(self).context.queued_instance_ixs@,
                self.context.signaled_connector_ixs@ == old(
                    self,
                ).context.signaled_connector_ixs@,
                self.instance_graph.wf(),
                self.instance_graph.nodes@.len() >= ig0.nodes@.len(),
                forall|k: int|
                    0 <= k < ig0.nodes@.len() ==> (#[trigger] self.instance_graph.nodes@[k])
                        == ig0.nodes@[k],
                forall|k: int|
                    ig0.nodes@.len() <= k < self.instance_graph.nodes@.len() ==> (
                    #[trigger] self.instance_graph.nodes@[k]).instance is None,
                self.instances_wf(),
                inst.component.graph.edges@ == template.edges@,
                inst.component.graph.nodes@.len() == template.nodes@.len(),
                inst.component.graph.wf(),
                inst.component.name@ == ig0.nodes@[ig_ix as int].component_name@,
                forall|n: int|
                    0 <= n < template.nodes@.len() ==> (
                    #[trigger] inst.component.graph.nodes@[n]).same_kind_and_names(
                        template.nodes@[n],
                    ),
                forall|n: usize|
                    n < template.nodes@.len() ==> !(
                    #[trigger] inst.component.graph.nodes@[n as int]).staged_flag(),
                forall|n: int|
                    0 <= n < template.nodes@.len() ==> !(
                    #[trigger] inst.component.graph.nodes@[n]).fired_flag(),
                refs_in_range(
                    inst.component.graph,
                    self.instance_graph.nodes@.len() as int,
                ),
                refs_injective(inst.component.graph),
                forall|n: usize|
                    n < inst.component.graph.nodes@.len() ==> (
                    match #[trigger] inst.component.graph.nodes@[n as int] {
                        Node::Component(rf) => (match rf.instance_ix {
                            Some(ix) => ig0.nodes@.len() <= ix
                                && self.instance_graph.nodes@[ix as int].component_name@
                                == rf.component_name@,
                            None => true,
                        }),
                        _ => true,
                    }),
                forall|n: usize|
                    n < inst.component.graph.nodes@.len() ==> (
                    match #[trigger] inst.component.graph.nodes@[n as int] {
                        Node::Component(rf) => (match rf.instance_ix {
                            Some(ix) => exists|k: int|
                                0 <= k < self.instance_graph.edges@.len() && (
                                #[trigger] self.instance_graph.edges@[k]).source == ix
                                    && self.instance_graph.edges@[k].target == ig_ix,
                            None => true,
                        }),
                        _ => true,
                    }),
                forall|j2: int|
                    0 <= j2 < j ==> #[trigger] edge_refs_resolved(inst.component.graph, j2),
                routes_earned(inst.component.graph, cat),
                inst.staged_nodes@.len() == 0,
                inst.fired_nodes@.len() == 0,
                inst.active_nodes@.len() == 0,
                inst.incoming_signals@.len() == 0,
                inst.instance_cycle == 0,
            decreases n_edges - j,
        {
            let ghost body_graph0 = inst.component.graph;
            let ghost body_nodes0 = inst.component.graph.nodes@;
            let es = inst.component.graph.edges[j].source;
            let et = inst.component.graph.edges[j].target;
            let s_is_ref = matches!(&inst.component.graph.nodes[es], Node::Component(_));
            let t_is_ref = matches!(&inst.component.graph.nodes[et], Node::Component(_));
            if s_is_ref || t_is_ref {
                if s_is_ref && t_is_ref {
                    proof {
                        assert(!ref_edge_ok(template, cat, j as int));
                    }
                    return Err(EngineError::UnexpectedRefEdge { edge: j });
                }
                let ref_ix = if s_is_ref {
                    es
                } else {
                    et
                };
                let other_ix = if s_is_ref {
                    et
                } else {
                    es
                };
                let conn_name_opt: Option<String> = match &inst.component.graph.edges[j].edge {
                    Edge::Connection(c) => Some(c.instance_connector_name.clone()),
                    _ => None,
                };
                let conn_name = match conn_name_opt {
                    Some(c) => c,
                    None => {
                        proof {
                            assert(!ref_edge_ok(template, cat, j as int));
                        }
                        return Err(EngineError::UnexpectedRefEdge { edge: j });
                    },
                };
                let other_is_co = matches!(
                    &inst.component.graph.nodes[other_ix],
                    Node::ConnectorOut(_)
                );
                let other_is_ci = matches!(
                    &inst.component.graph.nodes[other_ix],
                    Node::ConnectorIn(_)
                );
                if !other_is_co && !other_is_ci {
                    proof {
                        assert(!ref_edge_ok(template, cat, j as int));
                    }
                    return Err(EngineError::UnexpectedRefEdge { edge: j });
                }
                let (memo, child_name): (Option<usize>, String) = match &inst.component.graph.nodes[ref_ix] {
                    Node::Component(rf) => (rf.instance_ix, rf.component_name.clone()),
                    _ => (None, String::new()),
                };
                let child_ig_ix: usize;
                match memo {
                    Some(ix) => {
                        proof {
                            assert(ix < self.instance_graph.nodes@.len());
                        }
                        child_ig_ix = ix;
                    },
                    None => {
                        let ghost ig_b = self.instance_graph.nodes@;
                        let fresh = self.instance_graph.add_pending_node(child_name.clone());
                        let ghost nodes_b = inst.component.graph.nodes@;
                        set_ref_instance(&mut inst.component.graph.nodes[ref_ix], fresh);
                        child_ig_ix = fresh;
                        proof {
                            assert forall|n: usize|
                                n < inst.component.graph.nodes@.len() implies (
                            match #[trigger] inst.component.graph.nodes@[n as int] {
                                Node::Component(rf) => (match rf.instance_ix {
                                    Some(ix2) => self.instance_graph.nodes@[ix2 as int].component_name@
                                        == rf.component_name@ && ix2
                                        < self.instance_graph.nodes@.len() && ig0.nodes@.len()
                                        <= ix2,
                                    None => true,
                                }),
                                _ => true,
                            }) by {
                                if n != ref_ix {
                                    assert(inst.component.graph.nodes@[n as int]
                                        == nodes_b[n as int]);
                                    match nodes_b[n as int] {
                                        Node::Component(rf) => {
                                            match rf.instance_ix {
                                                Some(ix2) => {
                                                    assert((ix2 as int) < ig_b.len());
                                                    assert(self.instance_graph.nodes@[ix2 as int]
                                                        == ig_b[ix2 as int]);
                                                },
                                                None => {},
                                            }
                                        },
                                        _ => {},
                                    }
                                } else {
                                    assert(self.instance_graph.nodes@[fresh as int].component_name
                                        == child_name);
                                    assert(match nodes_b[ref_ix as int] {
                                        Node::Component(rf0) => rf0.component_name == child_name,
                                        _ => false,
                                    });
                                }
                            }
                            // routing witnesses never rest on an unresolved
                            // reference, so resolving one keeps them
                            assert forall|o: usize|
                                o < inst.component.graph.nodes@.len() implies (
                            match #[trigger] inst.component.graph.nodes@[o as int] {
                                Node::ConnectorOut(co) => (match co.to_instance_connector {
                                    Some(route) => route_earned(
                                        inst.component.graph,
                                        cat,
                                        o,
                                        route,
                                    ),
                                    None => true,
                                }),
                                _ => true,
                            }) by {
                                match inst.component.graph.nodes@[o as int] {
                                    Node::ConnectorOut(co) => {
                                        match co.to_instance_connector {
                                            Some(route) => {
                                                assert(o != ref_ix);
                                                assert(nodes_b[o as int]
                                                    == inst.component.graph.nodes@[o as int]);
                                                lemma_route_witness_transfer(
                                                    inst.component.graph.nodes@,
                                                    nodes_b,
                                                    inst.component.graph.edges@,
                                                    cat,
                                                    o,
                                                    route,
                                                    ref_ix,
                                                );
                                            },
                                            None => {},
                                        }
                                    },
                                    _ => {},
                                }
                            }
                        }
                    },
                }
                if other_is_co {
                    let child_lookup_name =
                        self.instance_graph.nodes[child_ig_ix].component_name.clone();
                    proof {
                        assert(child_lookup_name@ == child_name@);
                    }
                    let child_comp_ix = match find_component_index(
                        &self.components,
                        &child_lookup_name,
                    ) {
                        Some(i) => i,
                        None => {
                            proof {
                                assert(!catalog_connector_ok(cat, child_name@, conn_name@));
                                assert(!ref_edge_ok(template, cat, j as int));
                            }
                            return Err(
                                EngineError::ComponentNotFound { name: child_lookup_name },
                            );
                        },
                    };
                    let conn_ix = match get_connector_index_by_name(
                        &self.components[child_comp_ix],
                        &conn_name,
                    ) {
                        Ok(ix) => ix,
                        Err(e) => {
                            proof {
                                assert forall|i: int|
                                    0 <= i < cat.len() && (#[trigger] cat[i]).name@ == child_name@
                                        implies !has_connector_in(cat[i].graph, conn_name@) by {
                                    assert(i == child_comp_ix);
                                }
                                assert(!catalog_connector_ok(cat, child_name@, conn_name@));
                                assert(!ref_edge_ok(template, cat, j as int));
                            }
                            return Err(e);
                        },
                    };
                    let ghost nodes_b2 = inst.component.graph.nodes@;
                    set_connector_route(
                        &mut inst.component.graph.nodes[other_ix],
                        InstanceComponentIx { instance_ix: child_ig_ix, component_ix: conn_ix },
                    );
                    proof {
                        assert forall|n: int|
                            0 <= n < inst.component.graph.nodes@.len() && n != other_ix implies
                            inst.component.graph.nodes@[n] == nodes_b2[n] by {}
                        // the stored route is earned by this connection edge
                        assert(named_connector_at(cat, child_name@, conn_name@, conn_ix)) by {
                            assert(cat[child_comp_ix as int].name@ == child_name@);
                        }
                        assert(match inst.component.graph.nodes@[ref_ix as int] {
                            Node::Component(rf) => rf.instance_ix == Some(child_ig_ix)
                                && rf.component_name@ == child_name@,
                            _ => false,
                        });
                        assert(route_earned_in(
                            inst.component.graph.nodes@,
                            inst.component.graph.edges@,
                            cat,
                            other_ix,
                            InstanceComponentIx { instance_ix: child_ig_ix, component_ix: conn_ix },
                        )) by {
                            assert(j < inst.component.graph.edges@.len());
                            assert((ref_ix as int) < inst.component.graph.nodes@.len());
                            assert((inst.component.graph.edges@[j as int].source == other_ix
                                && inst.component.graph.edges@[j as int].target == ref_ix) || (
                            inst.component.graph.edges@[j as int].source == ref_ix
                                && inst.component.graph.edges@[j as int].target == other_ix));
                            assert(match (
                                inst.component.graph.edges@[j as int].edge,
                                inst.component.graph.nodes@[ref_ix as int],
                            ) {
                                (Edge::Connection(cn), Node::Component(rf)) => rf.instance_ix
                                    == Some(child_ig_ix) && named_connector_at(
                                    cat,
                                    rf.component_name@,
                                    cn.instance_connector_name@,
                                    conn_ix,
                                ),
                                _ => false,
                            });
                        }
                        // every other route keeps its witness
                        assert forall|o: usize|
                            o < inst.component.graph.nodes@.len() implies (
                        match #[trigger] inst.component.graph.nodes@[o as int] {
                            Node::ConnectorOut(co) => (match co.to_instance_connector {
                                Some(route) => route_earned(inst.component.graph, cat, o, route),
                                None => true,
                            }),
                            _ => true,
                        }) by {
                            match inst.component.graph.nodes@[o as int] {
                                Node::ConnectorOut(co) => {
                                    match co.to_instance_connector {
                                        Some(route) => {
                                            if o != other_ix {
                                                assert(nodes_b2[o as int]
                                                    == inst.component.graph.nodes@[o as int]);
                                                assert(route_earned_in(
                                                    nodes_b2,
                                                    inst.component.graph.edges@,
                                                    cat,
                                                    o,
                                                    route,
                                                ));
                                                lemma_route_witness_transfer(
                                                    inst.component.graph.nodes@,
                                                    nodes_b2,
                                                    inst.component.graph.edges@,
                                                    cat,
                                                    o,
                                                    route,
                                                    other_ix,
                                                );
                                            }
                                        },
                                        None => {},
                                    }
                                },
                                _ => {},
                            }
                        }
                    }
                }
                let ghost ig_edges_b = self.instance_graph.edges@;
                let ghost rec = InstanceEdge {
                    source: child_ig_ix,
                    target: ig_ix,
                    connection: InstanceConnection {
                        from_connector_index: ref_ix,
                        to_connector_index: other_ix,
                    },
                };
                self.instance_graph.update_edge(
                    child_ig_ix,
                    ig_ix,
                    InstanceConnection {
                        from_connector_index: ref_ix,
                        to_connector_index: other_ix,
                    },
                );
                proof {
                    // the connection just recorded, and every one recorded
                    // before, stands in the instance graph
                    assert forall|n: usize|
                        n < inst.component.graph.nodes@.len() implies (
                    match #[trigger] inst.component.graph.nodes@[n as int] {
                        Node::Component(rf) => (match rf.instance_ix {
                            Some(ix2) => exists|k: int|
                                0 <= k < self.instance_graph.edges@.len() && (
                                #[trigger] self.instance_graph.edges@[k]).source == ix2
                                    && self.instance_graph.edges@[k].target == ig_ix,
                            None => true,
                        }),
                        _ => true,
                    }) by {
                        match inst.component.graph.nodes@[n as int] {
                            Node::Component(rf) => {
                                match rf.instance_ix {
                                    Some(ix2) => {
                                        if self.instance_graph.edges@ == ig_edges_b.push(rec) {
                                            if n == ref_ix {
                                                assert(ix2 == child_ig_ix);
                                                assert(self.instance_graph.edges@[ig_edges_b.len() as int]
                                                    == rec);
                                            } else {
                                                assert(inst.component.graph.nodes@[n as int]
                                                    == body_nodes0[n as int]);
                                                let k1 = choose|k1: int|
                                                    0 <= k1 < ig_edges_b.len()
                                                        && (#[trigger] ig_edges_b[k1]).source
                                                        == ix2 && ig_edges_b[k1].target == ig_ix;
                                                assert(self.instance_graph.edges@[k1]
                                                    == ig_edges_b[k1]);
                                            }
                                        } else {
                                            let k0 = choose|k0: int|
                                                0 <= k0 < ig_edges_b.len() && (
                                                #[trigger] ig_edges_b[k0]).source == child_ig_ix
                                                    && ig_edges_b[k0].target == ig_ix
                                                    && self.instance_graph.edges@
                                                    == ig_edges_b.update(k0, rec);
                                            if n == ref_ix {
                                                assert(ix2 == child_ig_ix);
                                                assert(self.instance_graph.edges@[k0] == rec);
                                            } else {
                                                assert(inst.component.graph.nodes@[n as int]
                                                    == body_nodes0[n as int]);
                                                let k1 = choose|k1: int|
                                                    0 <= k1 < ig_edges_b.len()
                                                        && (#[trigger] ig_edges_b[k1]).source
                                                        == ix2 && ig_edges_b[k1].target == ig_ix;
                                                if k1 == k0 {
                                                    assert(ix2 == child_ig_ix);
                                                    assert(self.instance_graph.edges@[k0] == rec);
                                                } else {
                                                    assert(self.instance_graph.edges@[k1]
                                                        == ig_edges_b[k1]);
                                                }
                                            }
                                        }
                                    },
                                    None => {},
                                }
                            },
                            _ => {},
                        }
                    }
                    // resolution only advanced this iteration
                    assert forall|n: int|
                        0 <= n < body_nodes0.len() implies resolves_further(
                        body_nodes0[n],
                        #[trigger] inst.component.graph.nodes@[n],
                    ) by {
                        if n != ref_ix && n != other_ix {
                            assert(inst.component.graph.nodes@[n] == body_nodes0[n]);
                        }
                    }
                    assert(edge_refs_resolved_in(
                        inst.component.graph.nodes@,
                        inst.component.graph.edges@,
                        j as int,
                    ));
                    assert forall|j2: int|
                        0 <= j2 < j + 1 implies #[trigger] edge_refs_resolved(
                        inst.component.graph,
                        j2,
                    ) by {
                        if j2 < j {
                            assert(edge_refs_resolved(body_graph0, j2));
                            assert(edge_refs_resolved_in(
                                body_nodes0,
                                inst.component.graph.edges@,
                                j2,
                            ));
                            assert(inst.component.graph.edges@[j2].source < body_nodes0.len());
                            assert(inst.component.graph.edges@[j2].target < body_nodes0.len());
                            lemma_edge_resolution_monotone(
                                inst.component.graph.nodes@,
                                body_nodes0,
                                inst.component.graph.edges@,
                                j2,
                            );
                        }
                    }
                }
            } else {
                proof {
                    assert(edge_refs_resolved_in(
                        inst.component.graph.nodes@,
                        inst.component.graph.edges@,
                        j as int,
                    ));
                    assert forall|j2: int|
                        0 <= j2 < j + 1 implies #[trigger] edge_refs_resolved(
                        inst.component.graph,
                        j2,
                    ) by {
                        if j2 < j {
                            assert(edge_refs_resolved(body_graph0, j2));
                        }
                    }
                }
            }
            j += 1;
        }
        let ghost inst_final = inst;
        let ghost graph_exit = inst.component.graph;
        let ghost ig_nodes_exit = self.instance_graph.nodes@;
        let ghost ig_edges_exit = self.instance_graph.edges@;
        self.instance_graph.nodes[ig_ix].instance = Some(inst);
        proof {
            assert(self.instance_graph.nodes@[ig_ix as int].instance == Some(inst_final));
            assert(self.instance_ok(inst_final));
            assert forall|k: int|
                0 <= k < self.instance_graph.nodes@.len() implies (match (
            #[trigger] self.instance_graph.nodes@[k]).instance {
                Some(i2) => self.instance_ok(i2),
                None => true,
            }) by {}
            assert(self.wf());
            // the template correspondence, from the catalog position found
            assert(cat[comp_ix as int].name@
                == old(self).instance_graph.nodes@[ig_ix as int].component_name@);
            // the wiring outcome survives installing the instance
            assert forall|n: usize|
                n < inst_final.component.graph.nodes@.len() implies (
            match #[trigger] inst_final.component.graph.nodes@[n as int] {
                Node::Component(rf) => (match rf.instance_ix {
                    Some(cix) => ig0.nodes@.len() <= cix && cix
                        < self.instance_graph.nodes@.len()
                        && self.instance_graph.nodes@[cix as int].component_name@
                        == rf.component_name@ && self.instance_graph.nodes@[cix as int].instance
                        is None && (exists|k: int|
                        0 <= k < self.instance_graph.edges@.len() && (
                        #[trigger] self.instance_graph.edges@[k]).source == cix
                            && self.instance_graph.edges@[k].target == ig_ix),
                    None => true,
                }),
                _ => true,
            }) by {
                match inst_final.component.graph.nodes@[n as int] {
                    Node::Component(rf) => {
                        match rf.instance_ix {
                            Some(cix) => {
                                assert(match graph_exit.nodes@[n as int] {
                                    Node::Component(rf2) => rf2.instance_ix == Some(cix)
                                        && rf2.component_name == rf.component_name,
                                    _ => false,
                                });
                                assert(ig0.nodes@.len() <= cix);
                                assert((cix as int) < ig_nodes_exit.len());
                                assert(ig_nodes_exit[cix as int].component_name@
                                    == rf.component_name@);
                                assert(ig_nodes_exit[cix as int].instance is None);
                                assert(cix != ig_ix);
                                assert(self.instance_graph.nodes@[cix as int]
                                    == ig_nodes_exit[cix as int]);
                                assert(self.instance_graph.edges@ == ig_edges_exit);
                                let k2 = choose|k2: int|
                                    0 <= k2 < ig_edges_exit.len() && (
                                    #[trigger] ig_edges_exit[k2]).source == cix
                                        && ig_edges_exit[k2].target == ig_ix;
                                assert(self.instance_graph.edges@[k2] == ig_edges_exit[k2]);
                            },
                            None => {},
                        }
                    },
                    _ => {},
                }
            }
            assert forall|j2: int|
                0 <= j2 < inst_final.component.graph.edges@.len()
                implies #[trigger] edge_refs_resolved(inst_final.component.graph, j2) by {
                assert(edge_refs_resolved(graph_exit, j2));
            }
            assert(routes_earned(inst_final.component.graph, cat)) by {
                assert forall|o: usize|
                    o < inst_final.component.graph.nodes@.len() implies (
                match #[trigger] inst_final.component.graph.nodes@[o as int] {
                    Node::ConnectorOut(co) => (match co.to_instance_connector {
                        Some(route) => route_earned(inst_final.component.graph, cat, o, route),
                        None => true,
                    }),
                    _ => true,
                }) by {
                    assert(graph_exit.nodes@[o as int] == inst_final.component.graph.nodes@[o
                        as int]);
                }
            }
        }
        Ok(())
    }

    /// Deliver a signal to the input connector at `route.component_ix` of
    /// the instance at `route.instance_ix`, creating the instance if it is
    /// not live yet, and queue the instance for the next global cycle.
    fn signal_connector_address(&mut self, route: InstanceComponentIx) -> (r: Result<
        (),
        EngineError,
    >)
        requires
            old(self).wf(),
        ensures
            final(self).wf(),
            final(self).components@ == old(self).components@,
            final(self).clock_cycle == old(self).clock_cycle,
            final(self).root_instance_ref == old(self).root_instance_ref,
            final(self).context.active_instance_ixs@ == old(self).context.active_instance_ixs@,
            final(self).context.signaled_connector_ixs@ == old(
                self,
            ).context.signaled_connector_ixs@,
            final(self).instance_graph.nodes@.len() >= old(self).instance_graph.nodes@.len(),
            forall|k: int|
                0 <= k < old(self).instance_graph.nodes@.len() ==> (
                #[trigger] final(self).instance_graph.nodes@[k]).component_name == old(
                    self,
                ).instance_graph.nodes@[k].component_name,
            r is Ok ==> final(self).context.queued_instance_ixs@ == old(
                self,
            ).context.queued_instance_ixs@.push(route.instance_ix),
            r is Err ==> final(self).context.queued_instance_ixs@ == old(
                self,
            ).context.queued_instance_ixs@,
            r is Ok ==> route.instance_ix < final(self).instance_graph.nodes@.len() && (
            match final(self).instance_graph.nodes@[route.instance_ix as int].instance {
                Some(inst) => inst.incoming_signals@.len() > 0 && inst.incoming_signals@.last()
                    == route.component_ix,
                None => false,
            }),
            // Delivery only appends to the target's incoming queue; every
            // other node, and every other part of the target, is unchanged.
            forall|k: int|
                0 <= k < old(self).instance_graph.nodes@.len() && k != route.instance_ix ==> (
                #[trigger] final(self).instance_graph.nodes@[k]) == old(
                    self,
                ).instance_graph.nodes@[k],
            r is Ok ==> (match (
                old(self).instance_graph.nodes@[route.instance_ix as int].instance,
                final(self).instance_graph.nodes@[route.instance_ix as int].instance,
            ) {
                (Some(pre), Some(post)) => post.id == pre.id && post.node_name == pre.node_name
                    && post.component == pre.component && post.fired_nodes@ == pre.fired_nodes@
                    && post.active_nodes@ == pre.active_nodes@ && post.staged_nodes@
                    == pre.staged_nodes@ && post.instance_cycle == pre.instance_cycle
                    && post.incoming_signals@ == pre.incoming_signals@.push(route.component_ix),
                (None, Some(post)) => post.quiescent() || (post.incoming_signals@.len() == 1
                    && post.fired_nodes@.len() == 0 && post.staged_nodes@.len() == 0
                    && post.instance_cycle == 0),
                _ => false,
            }),
            r matches Err(e) ==> (match e {
                EngineError::UnknownInstance { instance } => instance == route.instance_ix
                    && route.instance_ix >= old(self).instance_graph.nodes@.len(),
                EngineError::ConnectorOutOfRange { connector } => connector == route.component_ix,
                EngineError::ComponentNotFound { name } => !catalog_has(
                    old(self).components@,
                    name@,
                ),
                EngineError::ConnectorNotFound { .. } => true,
                EngineError::UnexpectedRefEdge { .. } => true,
                _ => false,
            }),
            // Success is owed whenever the route can be delivered to.
            address_deliverable(old(self).components@, old(self).instance_graph, route)
                ==> r is Ok,
    {
        let ghost cat0 = self.components@;
        let ghost ig_pre = self.instance_graph;
        if route.instance_ix >= self.instance_graph.nodes.len() {
            return Err(EngineError::UnknownInstance { instance: route.instance_ix });
        }
        match self.resolve_instance(route.instance_ix) {
            Ok(()) => {},
            Err(e) => {
                return Err(e);
            },
        }
        let mut out_of_range = false;
        let mut missing = false;
        match &mut self.instance_graph.nodes[route.instance_ix].instance {
            Some(inst) => {
                if route.component_ix < inst.component.graph.nodes.len() {
                    inst.signal_connector_in(route.component_ix);
                } else {
                    out_of_range = true;
                }
            },
            None => {
                missing = true;
            },
        }
        if missing {
            return Err(EngineError::UnknownInstance { instance: route.instance_ix });
        }
        if out_of_range {
            proof {
                if address_deliverable(cat0, ig_pre, route) {
                    match ig_pre.nodes@[route.instance_ix as int].instance {
                        Some(pre_inst) => {},
                        None => {
                            // the created instance has the wirable
                            // template's size, and the catalog names are
                            // unique, so the premise's component is it
                            let ci = choose|ci: int|
                                0 <= ci < cat0.len() && (#[trigger] cat0[ci]).name@
                                    == ig_pre.nodes@[route.instance_ix as int].component_name@
                                    && ref_wiring_ok(cat0[ci].graph, cat0)
                                    && route.component_ix < cat0[ci].graph.nodes@.len();
                            match self.instance_graph.nodes@[route.instance_ix as int].instance {
                                Some(inst2) => {
                                    let ci2 = choose|ci2: int|
                                        0 <= ci2 < cat0.len() && (#[trigger] cat0[ci2]).name@
                                            == ig_pre.nodes@[route.instance_ix as int].component_name@
                                            && inst2.component.graph.edges@
                                            == cat0[ci2].graph.edges@
                                            && inst2.component.graph.nodes@.len()
                                            == cat0[ci2].graph.nodes@.len() && (forall|n: int|
                                            0 <= n < inst2.component.graph.nodes@.len() ==> (
                                            #[trigger] inst2.component.graph.nodes@[n]).same_kind_and_names(
                                                cat0[ci2].graph.nodes@[n],
                                            ));
                                    assert(ci == ci2);
                                },
                                None => {},
                            }
                        },
                    }
                    assert(false);
                }
            }
            return Err(EngineError::ConnectorOutOfRange { connector: route.component_ix });
        }
        self.context.queue_active_instance(route.instance_ix);
        Ok(())
    }

    /// Resolve a component-reference node to a live instance (memoizing the
    /// instance-graph node into it), deliver a signal to its connector at
    /// `connector_index`, and queue the instance.
    fn signal_ref_node(&mut self, instance_ref: &mut InstanceRefNode, connector_index: usize) -> (r:
        Result<(), EngineError>)
        requires
            old(self).wf(),
        ensures
            final(self).wf(),
            final(self).components@ == old(self).components@,
            final(self).clock_cycle == old(self).clock_cycle,
            final(self).root_instance_ref == old(self).root_instance_ref,
            final(self).context.active_instance_ixs@ == old(self).context.active_instance_ixs@,
            final(self).instance_graph.nodes@.len() >= old(self).instance_graph.nodes@.len(),
            final(instance_ref).node_name == old(instance_ref).node_name,
            final(instance_ref).component_name == old(instance_ref).component_name,
            old(instance_ref).instance_ix matches Some(ix)
                ==> final(instance_ref).instance_ix == Some(ix),
            old(instance_ref).instance_ix is None ==> (match final(instance_ref).instance_ix {
                Some(ix) => ix < final(self).instance_graph.nodes@.len(),
                None => false,
            }),
            r matches Err(e) ==> (match e {
                EngineError::NoRootInstance => false,
                EngineError::CycleLimit => false,
                _ => true,
            }),
            r is Ok ==> final(instance_ref).instance_ix is Some,
            r is Ok ==> (match final(instance_ref).instance_ix {
                Some(ix) => ix < final(self).instance_graph.nodes@.len()
                    && final(self).context.queued_instance_ixs@
                    == old(self).context.queued_instance_ixs@.push(ix)
                    && (match final(self).instance_graph.nodes@[ix as int].instance {
                    Some(inst) => inst.incoming_signals@.len() > 0
                        && inst.incoming_signals@.last() == connector_index,
                    None => false,
                }),
                None => false,
            }),
            // Success is owed whenever the reference can be signalled.
            ref_deliverable(
                old(self).components@,
                old(self).instance_graph,
                *old(instance_ref),
                connector_index,
            ) ==> r is Ok,
    {
        let ghost cat0 = self.components@;
        let ghost ig_pre = self.instance_graph;
        let ig_ix: usize;
        match instance_ref.instance_ix {
            Some(ix) => {
                if ix >= self.instance_graph.nodes.len() {
                    return Err(EngineError::UnknownInstance { instance: ix });
                }
                ig_ix = ix;
            },
            None => {
                let name = instance_ref.component_name.clone();
                ig_ix = self.instance_graph.add_pending_node(name);
                instance_ref.instance_ix = Some(ig_ix);
                proof {
                    assert forall|k: int|
                        0 <= k < self.instance_graph.nodes@.len() implies (match (
                    #[trigger] self.instance_graph.nodes@[k]).instance {
                        Some(i2) => self.instance_ok(i2),
                        None => true,
                    }) by {}
                }
            },
        }
        proof {
            if ref_deliverable(cat0, ig_pre, *old(instance_ref), connector_index) {
                assert(address_deliverable(
                    self.components@,
                    self.instance_graph,
                    InstanceComponentIx { instance_ix: ig_ix, component_ix: connector_index },
                ));
            }
        }
        match self.signal_connector_address(
            InstanceComponentIx { instance_ix: ig_ix, component_ix: connector_index },
        ) {
            Ok(()) => Ok(()),
            Err(e) => Err(e),
        }
    }

    /// Send a signal to the given input connector of the root instance,
    /// creating the root instance on first use. This is the external entry
    /// point for injecting an initial event.
    ///
    /// Fails with `NoRootInstance` exactly when no root component was
    /// registered.
    pub fn signal_root_instance_connector_in(&mut self, connector_index: usize) -> (r: Result<
        (),
        EngineError,
    >)
        requires
            old(self).wf(),
        ensures
            final(self).wf(),
            final(self).components@ == old(self).components@,
            final(self).clock_cycle == old(self).clock_cycle,
            (old(self).root_instance_ref is None) <==> r == Err::<(), EngineError>(
                EngineError::NoRootInstance,
            ),
            r is Ok ==> final(self).context.queued_instance_ixs@.len() == old(
                self,
            ).context.queued_instance_ixs@.len() + 1,
            r is Ok ==> (match final(self).root_instance_ref {
                Some(rf) => (match rf.instance_ix {
                    Some(ix) => ix < final(self).instance_graph.nodes@.len() && (
                    match final(self).instance_graph.nodes@[ix as int].instance {
                        Some(inst) => inst.incoming_signals@.len() > 0
                            && inst.incoming_signals@.last() == connector_index,
                        None => false,
                    }),
                    None => false,
                }),
                None => false,
            }),
            // Success is owed whenever the root reference can be signalled.
            (match old(self).root_instance_ref {
                Some(rf) => ref_deliverable(
                    old(self).components@,
                    old(self).instance_graph,
                    rf,
                    connector_index,
                ),
                None => false,
            }) ==> r is Ok,
    {
        let mut root = match self.root_instance_ref.take() {
            Some(rf) => rf,
            None => {
                return Err(EngineError::NoRootInstance);
            },
        };
        let r = self.signal_ref_node(&mut root, connector_index);
        self.root_instance_ref = Some(root);
        match r {
            Ok(()) => Ok(()),
            Err(e) => Err(e),
        }
    }

    /// Send a signal to an input connector of the instance that
    /// `instance_ref` names, creating the instance if needed; a reference
    /// node is updated in place with its resolved instance-graph node.
    pub fn signal_instance_connector_in(&mut self, instance_ref: &mut InstanceConnectorRef) -> (r:
        Result<(), EngineError>)
        requires
            old(self).wf(),
        ensures
            final(self).wf(),
            final(self).components@ == old(self).components@,
            final(self).clock_cycle == old(self).clock_cycle,
            r is Ok ==> final(self).context.queued_instance_ixs@.len() == old(
                self,
            ).context.queued_instance_ixs@.len() + 1,
            r matches Err(e) ==> (match e {
                EngineError::NoRootInstance => false,
                EngineError::CycleLimit => false,
                _ => true,
            }),
            // Addressing by resolved route delivers to exactly that route.
            *old(instance_ref) matches InstanceConnectorRef::InstanceConnectorIx(route) ==> (r
                is Ok ==> route.instance_ix < final(self).instance_graph.nodes@.len() && (
            match final(self).instance_graph.nodes@[route.instance_ix as int].instance {
                Some(inst) => inst.incoming_signals@.len() > 0 && inst.incoming_signals@.last()
                    == route.component_ix,
                None => false,
            }) && final(self).context.queued_instance_ixs@ == old(
                self,
            ).context.queued_instance_ixs@.push(route.instance_ix)),
            // Success is owed whenever the address or reference resolves.
            *old(instance_ref) matches InstanceConnectorRef::InstanceConnectorIx(route)
                ==> (address_deliverable(old(self).components@, old(self).instance_graph, route)
                ==> r is Ok),
            *old(instance_ref) matches InstanceConnectorRef::InstanceRefNode(rf, ci) ==> (
            ref_deliverable(old(self).components@, old(self).instance_graph, rf, ci) ==> r is Ok),
            // Addressing by reference memoizes the resolved instance into
            // the reference node and delivers to its connector.
            *old(instance_ref) matches InstanceConnectorRef::InstanceRefNode(rf, ci) ==> (
            match *final(instance_ref) {
                InstanceConnectorRef::InstanceRefNode(rf2, ci2) => ci2 == ci && rf2.node_name
                    == rf.node_name && rf2.component_name == rf.component_name && (r is Ok
                    ==> (match rf2.instance_ix {
                    Some(ix) => ix < final(self).instance_graph.nodes@.len() && (
                    match final(self).instance_graph.nodes@[ix as int].instance {
                        Some(inst) => inst.incoming_signals@.len() > 0
                            && inst.incoming_signals@.last() == ci,
                        None => false,
                    }),
                    None => false,
                })),
                _ => false,
            }),
    {
        match instance_ref {
            InstanceConnectorRef::InstanceRefNode(rf, connector_index) => {
                let ci = *connector_index;
                self.signal_ref_node(rf, ci)
            },
            InstanceConnectorRef::InstanceConnectorIx(route) => {
                let ic = *route;
                self.signal_connector_address(ic)
            },
        }
    }

    /// Advance the global clock by one cycle: step every instance of the
    /// promoted batch — each at most once, however often it was queued —
    /// re-queue those that stay active, then deliver every cross-boundary
    /// signal emitted during the cycle to its target instance (creating it
    /// if needed) and queue the targets. Reports whether any instance is
    /// queued for the next cycle.
    ///
    /// All stepping of a cycle completes before any delivery: a signal sent
    /// in one global cycle is received in the next one, never the current
    /// one.
    #[verifier::loop_isolation(false)]
    #[verifier::rlimit(100)]
    fn step(&mut self) -> (r: Result<bool, EngineError>)
        requires
            old(self).wf(),
        ensures
            r is Ok ==> final(self).wf(),
            r matches Ok(b) ==> final(self).clock_cycle == old(self).clock_cycle + 1 && b == (
            final(self).context.queued_instance_ixs@.len() > 0),
            old(self).clock_cycle == usize::MAX <==> r == Err::<bool, EngineError>(
                EngineError::CycleLimit,
            ) && final(self).clock_cycle == old(self).clock_cycle,
            r is Ok ==> final(self).context.active_instance_ixs@.len() == 0
                && final(self).context.signaled_connector_ixs@.len() == 0,
            r is Ok ==> final(self).components@ == old(self).components@,
            r is Ok ==> final(self).root_instance_ref == old(self).root_instance_ref,
            // Instance-graph nodes are stable: indices stay valid and keep
            // their component for the orchestrator's whole session.
            r is Ok ==> final(self).instance_graph.nodes@.len() >= old(
                self,
            ).instance_graph.nodes@.len(),
            r is Ok ==> forall|k: int|
                0 <= k < old(self).instance_graph.nodes@.len() ==> (
                #[trigger] final(self).instance_graph.nodes@[k]).component_name == old(
                    self,
                ).instance_graph.nodes@[k].component_name,
            // Global quiescence: with nothing active, queued or pending,
            // a cycle only advances the clock.
            (old(self).clock_cycle < usize::MAX && old(self).context.active_instance_ixs@.len()
                == 0 && old(self).context.queued_instance_ixs@.len() == 0 && old(
                self,
            ).context.signaled_connector_ixs@.len() == 0) ==> r == Ok::<bool, EngineError>(false)
                && final(self).instance_graph.nodes@ == old(self).instance_graph.nodes@,
            // With the batch promoted from the queue: every queued index
            // named a live instance, and each distinct one was stepped
            // through exactly one cycle of its old state.
            r is Ok && old(self).context.active_instance_ixs@.len() == 0 ==> forall|k: int|
                0 <= k < old(self).context.queued_instance_ixs@.len() ==> (
                #[trigger] old(self).context.queued_instance_ixs@[k]) < old(
                    self,
                ).instance_graph.nodes@.len() && old(self).instance_graph.nodes@[old(
                    self,
                ).context.queued_instance_ixs@[k] as int].instance is Some,
            r is Ok && old(self).context.active_instance_ixs@.len() == 0 ==> forall|k: int|
                0 <= k < old(self).context.queued_instance_ixs@.len() && first_occurrence(
                    old(self).context.queued_instance_ixs@,
                    k,
                ) ==> (match (
                old(self).instance_graph.nodes@[(#[trigger] old(
                    self,
                ).context.queued_instance_ixs@[k]) as int].instance,
                final(self).instance_graph.nodes@[old(
                    self,
                ).context.queued_instance_ixs@[k] as int].instance,
            ) {
                (Some(pre), Some(post)) => cycle_outcome(pre, post),
                _ => false,
            }),
            // Every connector event emitted this cycle, or still pending
            // from before, was delivered: its target instance is live, its
            // connector index stands in the target's incoming queue, and
            // the target is queued for the next cycle.
            r is Ok && old(self).context.active_instance_ixs@.len() == 0 ==> forall|
                e: InstanceComponentIx,
            |
                (#[trigger] emitted_event(
                    old(self).instance_graph.nodes@,
                    old(self).context.queued_instance_ixs@,
                    e,
                ) || old(self).context.signaled_connector_ixs@.contains(e))
                    ==> e.instance_ix < final(self).instance_graph.nodes@.len() && (
                match final(self).instance_graph.nodes@[e.instance_ix as int].instance {
                    Some(inst) => inst.incoming_signals@.contains(e.component_ix),
                    None => false,
                }) && final(self).context.queued_instance_ixs@.contains(e.instance_ix),

    {
        if self.clock_cycle == usize::MAX {
            return Err(EngineError::CycleLimit);
        }
        self.clock_cycle = self.clock_cycle + 1;
        let ghost was_quiet = self.context.active_instance_ixs@.len() == 0;
        self.context.start_cycle();
        let ghost active = self.context.active_instance_ixs@;
        let ghost nodes0 = self.instance_graph.nodes@;
        let ghost queued0 = self.context.queued_instance_ixs@;
        let ghost sigs0 = self.context.signaled_connector_ixs@;
        let n_active = self.context.active_instance_ixs.len();
        let mut i: usize = 0;
        while i < n_active
            invariant
                i <= n_active,
                n_active == active.len(),
                self.context.active_instance_ixs@ == active,
                self.wf(),
                self.clock_cycle == old(self).clock_cycle + 1,
                self.components@ == old(self).components@,
                self.root_instance_ref == old(self).root_instance_ref,
                self.instance_graph.nodes@.len() == nodes0.len(),
                nodes0.len() >= old(self).instance_graph.nodes@.len(),
                forall|k: int|
                    0 <= k < old(self).instance_graph.nodes@.len() ==> (
                    #[trigger] self.instance_graph.nodes@[k]).component_name == old(
                        self,
                    ).instance_graph.nodes@[k].component_name,
                active.len() == 0 ==> self.instance_graph.nodes@ == nodes0
                    && self.context.queued_instance_ixs@ == queued0
                    && self.context.signaled_connector_ixs@ == sigs0,
                // every index handled so far named a live instance
                forall|k: int|
                    0 <= k < i ==> (#[trigger] active[k]) < nodes0.len()
                        && nodes0[active[k] as int].instance is Some,
                // each distinct index was stepped exactly one cycle, and
                // its instance has taken no signal yet
                forall|k: int|
                    0 <= k < i && first_occurrence(active, k) ==> (match (
                    nodes0[(#[trigger] active[k]) as int].instance,
                    self.instance_graph.nodes@[active[k] as int].instance,
                ) {
                    (Some(pre), Some(post)) => cycle_outcome(pre, post)
                        && post.incoming_signals@.len() == 0 && (post.fired_nodes@.len() > 0
                        <==> post.is_active_spec()),
                    _ => false,
                }),
                // untouched instances keep their state
                forall|m: int|
                    0 <= m < nodes0.len() && !active.take(i as int).contains(m as usize) ==> (
                    #[trigger] self.instance_graph.nodes@[m]) == nodes0[m],
                forall|m: int|
                    0 <= m < nodes0.len() ==> ((#[trigger] self.instance_graph.nodes@[m]).instance
                        is Some) == (nodes0[m].instance is Some),
                // the pending events grew only by events of stepped
                // instances
                sigs0.len() <= self.context.signaled_connector_ixs@.len(),
                self.context.signaled_connector_ixs@.take(sigs0.len() as int) == sigs0,
                forall|d: int|
                    sigs0.len() <= d < self.context.signaled_connector_ixs@.len()
                        ==> emitted_event(
                        nodes0,
                        active,
                        #[trigger] self.context.signaled_connector_ixs@[d],
                    ),
                forall|e: InstanceComponentIx|
                    #[trigger] emitted_event(nodes0, active.take(i as int), e)
                        ==> self.context.signaled_connector_ixs@.contains(e),

            decreases n_active - i,
        {
            let ix = self.context.active_instance_ixs[i];
            if ix >= self.instance_graph.nodes.len() {
                return Err(EngineError::UnknownInstance { instance: ix });
            }
            // the batch may hold an index twice; an instance is stepped at
            // most once per global cycle
            let mut dup = false;
            let mut p: usize = 0;
            while p < i
                invariant
                    p <= i,
                    i < n_active,
                    n_active == active.len(),
                    self.context.active_instance_ixs@ == active,
                    ix == active[i as int],
                    dup <==> (exists|q: int| 0 <= q < p && active[q] == ix),
                decreases i - p,
            {
                if self.context.active_instance_ixs[p] == ix {
                    dup = true;
                }
                p += 1;
            }
            if dup {
                proof {
                    let q = choose|q: int| 0 <= q < i && active[q] == ix;
                    assert(active[q] < nodes0.len());
                    assert forall|e: InstanceComponentIx|
                        #[trigger] emitted_event(nodes0, active.take(i + 1 as int), e)
                            implies self.context.signaled_connector_ixs@.contains(e) by {
                        let k2 = choose|k2: int|
                            0 <= k2 < active.take(i + 1 as int).len() && active.take(
                                i + 1 as int,
                            )[k2] < nodes0.len() && (match nodes0[(#[trigger] active.take(
                                i + 1 as int,
                            )[k2]) as int].instance {
                                Some(pre) => connector_event(
                                    pre.component.graph,
                                    pre.fired_nodes@ + pre.incoming_signals@,
                                    e,
                                ),
                                None => false,
                            });
                        if k2 == i {
                            assert(active.take(i as int)[q] == ix);
                            assert(emitted_event(nodes0, active.take(i as int), e));
                        } else {
                            assert(active.take(i as int)[k2] == active.take(i + 1 as int)[k2]);
                            assert(emitted_event(nodes0, active.take(i as int), e));
                        }
                    }
                    assert(active.take(i + 1 as int) =~= active.take(i as int).push(
                        active[i as int],
                    ));
                    assert forall|m: int|
                        0 <= m < nodes0.len() && !active.take(i + 1 as int).contains(m as usize)
                            implies (#[trigger] self.instance_graph.nodes@[m]) == nodes0[m] by {
                        crate::component_instance::lemma_push_facts(
                            active.take(i as int),
                            active[i as int],
                        );
                        assert(!active.take(i as int).contains(m as usize));
                    }
                }
                i += 1;
                continue ;
            }
            proof {
                assert(!active.take(i as int).contains(ix));
                assert(self.instance_graph.nodes@[ix as int] == nodes0[ix as int]);
                assert(match self.instance_graph.nodes@[ix as int].instance {
                    Some(inst) => self.instance_ok(inst),
                    None => true,
                });
            }
            let ghost pre_nodes = self.instance_graph.nodes@;
            let step_result: Result<crate::component_instance::StepOutcome, EngineError> = match &mut self.instance_graph.nodes[ix].instance {
                None => {
                    return Err(EngineError::UnknownInstance { instance: ix });
                },
                Some(inst) => {
                    if inst.instance_cycle == usize::MAX {
                        return Err(EngineError::CycleLimit);
                    }
                    inst.step()
                },
            };
            let outcome = match step_result {
                Ok(o) => o,
                Err(e) => {
                    return Err(e);
                },
            };
            proof {
                assert forall|k: int|
                    0 <= k < self.instance_graph.nodes@.len() implies (match (
                #[trigger] self.instance_graph.nodes@[k]).instance {
                    Some(i2) => self.instance_ok(i2),
                    None => true,
                }) by {
                    if k != ix {
                        assert(self.instance_graph.nodes@[k] == pre_nodes[k]);
                    } else {
                        match (pre_nodes[k].instance, self.instance_graph.nodes@[k].instance) {
                            (Some(before), Some(after)) => {
                                assert(after.wf());
                                assert forall|n2: usize|
                                    n2 < after.component.graph.nodes@.len() implies (
                                match #[trigger] after.component.graph.nodes@[n2 as int] {
                                    Node::Component(rf) => (match rf.instance_ix {
                                        Some(ix2) => (ix2 as int)
                                            < self.instance_graph.nodes@.len(),
                                        None => true,
                                    }),
                                    _ => true,
                                }) by {
                                    assert(after.component.graph.nodes@[n2 as int].same_but_flags_and_signals(
                                        before.component.graph.nodes@[n2 as int],
                                    ));
                                }
                                assert forall|r1: usize, r2: usize|
                                    r1 < r2 && (r2 as int) < after.component.graph.nodes@.len()
                                    implies (match (
                                    #[trigger] after.component.graph.nodes@[r1 as int],
                                    #[trigger] after.component.graph.nodes@[r2 as int],
                                ) {
                                    (Node::Component(a), Node::Component(b)) => a.instance_ix
                                        is None || b.instance_ix is None || a.instance_ix
                                        != b.instance_ix,
                                    _ => true,
                                }) by {
                                    assert(after.component.graph.nodes@[r1 as int].same_but_flags_and_signals(
                                        before.component.graph.nodes@[r1 as int],
                                    ));
                                    assert(after.component.graph.nodes@[r2 as int].same_but_flags_and_signals(
                                        before.component.graph.nodes@[r2 as int],
                                    ));
                                }
                            },
                            _ => {},
                        }
                    }
                }
            }
            let ghost sig_before = self.context.signaled_connector_ixs@;
            let ghost queued_before = self.context.queued_instance_ixs@;
            let ghost nodes_after_step = self.instance_graph.nodes@;
            let n_events = outcome.signaled_connectors.len();
            let mut q: usize = 0;
            while q < n_events
                invariant
                    q <= n_events,
                    n_events == outcome.signaled_connectors@.len(),
                    self.instance_graph.nodes@ == nodes_after_step,
                    self.context.active_instance_ixs@ == active,
                    self.wf(),
                    self.clock_cycle == old(self).clock_cycle + 1,
                    self.components@ == old(self).components@,
                    self.root_instance_ref == old(self).root_instance_ref,
                    self.instance_graph.nodes@.len() == nodes0.len(),
                    forall|k: int|
                        0 <= k < old(self).instance_graph.nodes@.len() ==> (
                        #[trigger] self.instance_graph.nodes@[k]).component_name == old(
                            self,
                        ).instance_graph.nodes@[k].component_name,
                    i < active.len(),
                    self.context.signaled_connector_ixs@ == sig_before
                        + outcome.signaled_connectors@.take(q as int),
                    self.context.queued_instance_ixs@.len() == queued_before.len() + q,
                    forall|d: int|
                        0 <= d < queued_before.len()
                            ==> #[trigger] self.context.queued_instance_ixs@[d]
                            == queued_before[d],
                    forall|d: int|
                        0 <= d < q ==> #[trigger] self.context.queued_instance_ixs@[queued_before.len()
                            + d] == outcome.signaled_connectors@[d].instance_ix,
                decreases n_events - q,
            {
                let ic = outcome.signaled_connectors[q];
                self.context.signal_connector(ic);
                proof {
                    assert(self.context.signaled_connector_ixs@ =~= sig_before
                        + outcome.signaled_connectors@.take(q + 1 as int));
                }
                q += 1;
            }
            if outcome.is_active {
                self.context.queue_active_instance(ix);
            }
            proof {
                assert(outcome.signaled_connectors@.take(n_events as int)
                    =~= outcome.signaled_connectors@);
                assert(active.take(i + 1 as int) =~= active.take(i as int).push(
                    active[i as int],
                ));
                crate::component_instance::lemma_push_facts(
                    active.take(i as int),
                    active[i as int],
                );
                assert(pre_nodes[ix as int] == nodes0[ix as int]);
                assert(match (
                    nodes0[ix as int].instance,
                    self.instance_graph.nodes@[ix as int].instance,
                ) {
                    (Some(pre), Some(post)) => cycle_outcome(pre, post)
                        && post.incoming_signals@.len() == 0 && (post.fired_nodes@.len() > 0
                        <==> post.is_active_spec()),
                    _ => false,
                });
                assert forall|k: int|
                    0 <= k < i + 1 && first_occurrence(active, k) implies (match (
                nodes0[(#[trigger] active[k]) as int].instance,
                self.instance_graph.nodes@[active[k] as int].instance,
            ) {
                    (Some(pre), Some(post)) => cycle_outcome(pre, post)
                        && post.incoming_signals@.len() == 0 && (post.fired_nodes@.len() > 0
                        <==> post.is_active_spec()),
                    _ => false,
                }) by {
                    if k < i {
                        assert(active.take(i as int)[k] == active[k]);
                        assert(active.take(i as int).contains(active[k]));
                        assert(active[k] != ix);
                        assert(self.instance_graph.nodes@[active[k] as int]
                            == pre_nodes[active[k] as int]);
                    }
                }

                // the events of this step are exactly this instance's
                // connector events
                assert forall|e: InstanceComponentIx|
                    #[trigger] emitted_event(nodes0, active.take(i + 1 as int), e)
                        implies self.context.signaled_connector_ixs@.contains(e) by {
                    let k2 = choose|k2: int|
                        0 <= k2 < active.take(i + 1 as int).len() && active.take(
                            i + 1 as int,
                        )[k2] < nodes0.len() && (match nodes0[(#[trigger] active.take(
                            i + 1 as int,
                        )[k2]) as int].instance {
                            Some(pre) => connector_event(
                                pre.component.graph,
                                pre.fired_nodes@ + pre.incoming_signals@,
                                e,
                            ),
                            None => false,
                        });
                    if k2 == i {
                        assert(outcome.signaled_connectors@.contains(e));
                        let d0 = choose|d0: int|
                            0 <= d0 < outcome.signaled_connectors@.len()
                                && outcome.signaled_connectors@[d0] == e;
                        assert(self.context.signaled_connector_ixs@[sig_before.len() + d0] == e);
                    } else {
                        assert(active.take(i as int)[k2] == active.take(i + 1 as int)[k2]);
                        assert(emitted_event(nodes0, active.take(i as int), e));
                        let d1 = choose|d1: int|
                            0 <= d1 < sig_before.len() && sig_before[d1] == e;
                        assert(self.context.signaled_connector_ixs@[d1] == e);
                    }
                }
                assert forall|d: int|
                    sigs0.len() <= d < self.context.signaled_connector_ixs@.len()
                        implies emitted_event(
                        nodes0,
                        active,
                        #[trigger] self.context.signaled_connector_ixs@[d],
                    ) by {
                    if d < sig_before.len() {
                        assert(self.context.signaled_connector_ixs@[d] == sig_before[d]);
                    } else {
                        let e = self.context.signaled_connector_ixs@[d];
                        assert(e == outcome.signaled_connectors@[d - sig_before.len()]);
                        assert(outcome.signaled_connectors@.contains(e));
                        assert(match nodes0[ix as int].instance {
                            Some(pre) => connector_event(
                                pre.component.graph,
                                pre.fired_nodes@ + pre.incoming_signals@,
                                e,
                            ),
                            None => false,
                        });
                        assert(active[i as int] < nodes0.len());
                        assert(emitted_event(nodes0, active, e));
                    }
                }
                assert(self.context.signaled_connector_ixs@.take(sigs0.len() as int)
                    =~= sigs0);
            }
            i += 1;
        }
        // Deliver the cross-boundary signals collected during this cycle;
        // their targets run in the next one.
        let ghost nodes1 = self.instance_graph.nodes@;
        let ghost queued1 = self.context.queued_instance_ixs@;
        let ghost sigs1 = self.context.signaled_connector_ixs@;
        let mut d: usize = 0;
        while d < self.context.signaled_connector_ixs.len()
            invariant
                d <= sigs1.len(),
                self.context.signaled_connector_ixs@ == sigs1,
                self.wf(),
                self.clock_cycle == old(self).clock_cycle + 1,
                self.components@ == old(self).components@,
                self.root_instance_ref == old(self).root_instance_ref,
                self.instance_graph.nodes@.len() >= nodes1.len(),
                nodes1.len() == nodes0.len(),
                forall|k: int|
                    0 <= k < old(self).instance_graph.nodes@.len() ==> (
                    #[trigger] self.instance_graph.nodes@[k]).component_name == old(
                        self,
                    ).instance_graph.nodes@[k].component_name,
                sigs1.len() == 0 ==> self.instance_graph.nodes@ == nodes1
                    && self.context.queued_instance_ixs@ == queued1,
                // delivery so far
                forall|d2: int|
                    0 <= d2 < d ==> (#[trigger] sigs1[d2]).instance_ix
                        < self.instance_graph.nodes@.len() && (
                    match self.instance_graph.nodes@[sigs1[d2].instance_ix as int].instance {
                        Some(inst) => inst.incoming_signals@.contains(sigs1[d2].component_ix),
                        None => false,
                    }) && self.context.queued_instance_ixs@.contains(sigs1[d2].instance_ix),
                // the queue grew only by delivered targets
                self.context.queued_instance_ixs@.len() == queued1.len() + d,
                forall|d2: int|
                    0 <= d2 < queued1.len() ==> #[trigger] self.context.queued_instance_ixs@[d2]
                        == queued1[d2],
                forall|d2: int|
                    0 <= d2 < d ==> #[trigger] self.context.queued_instance_ixs@[queued1.len()
                        + d2] == sigs1[d2].instance_ix,
                // stepping results survive delivery: only incoming queues
                // of targets grow
                forall|m: int|
                    0 <= m < nodes1.len() ==> (match (
                    nodes1[m].instance,
                    (#[trigger] self.instance_graph.nodes@[m]).instance,
                ) {
                    (Some(a), Some(b)) => b.id == a.id && b.node_name == a.node_name
                        && b.component == a.component && b.fired_nodes@ == a.fired_nodes@
                        && b.active_nodes@ == a.active_nodes@ && b.staged_nodes@
                        == a.staged_nodes@ && b.instance_cycle == a.instance_cycle,
                    (None, _) => true,
                    _ => false,
                }),
            decreases sigs1.len() - d,
        {
            let ic = self.context.signaled_connector_ixs[d];
            let ghost nodes_pre_del = self.instance_graph.nodes@;
            let ghost queued_pre_del = self.context.queued_instance_ixs@;
            match self.signal_connector_address(ic) {
                Ok(()) => {},
                Err(e) => {
                    return Err(e);
                },
            }
            proof {
                assert forall|d2: int|
                    0 <= d2 < d + 1 implies (#[trigger] sigs1[d2]).instance_ix
                        < self.instance_graph.nodes@.len() && (
                    match self.instance_graph.nodes@[sigs1[d2].instance_ix as int].instance {
                        Some(inst) => inst.incoming_signals@.contains(sigs1[d2].component_ix),
                        None => false,
                    }) && self.context.queued_instance_ixs@.contains(sigs1[d2].instance_ix) by {
                    if d2 < d {
                        if sigs1[d2].instance_ix != ic.instance_ix {
                            assert(self.instance_graph.nodes@[sigs1[d2].instance_ix as int]
                                == nodes_pre_del[sigs1[d2].instance_ix as int]);
                        } else {
                            match (
                                nodes_pre_del[ic.instance_ix as int].instance,
                                self.instance_graph.nodes@[ic.instance_ix as int].instance,
                            ) {
                                (Some(a), Some(b)) => {
                                    crate::component_instance::lemma_push_facts(
                                        a.incoming_signals@,
                                        ic.component_ix,
                                    );
                                },
                                _ => {},
                            }
                        }
                        let w = choose|w: int|
                            0 <= w < queued_pre_del.len() && queued_pre_del[w] == sigs1[d2].instance_ix;
                        assert(self.context.queued_instance_ixs@[w] == queued_pre_del[w]);
                    } else {
                        assert(self.context.queued_instance_ixs@
                            == queued_pre_del.push(ic.instance_ix));
                        assert(self.context.queued_instance_ixs@[queued_pre_del.len() as int]
                            == ic.instance_ix);
                    }
                }
            }
            d += 1;
        }
        let more = self.context.end_cycle();
        proof {
            if was_quiet {
                assert forall|e: InstanceComponentIx|
                    (#[trigger] emitted_event(nodes0, active, e) || sigs0.contains(e))
                        implies e.instance_ix < self.instance_graph.nodes@.len() && (
                    match self.instance_graph.nodes@[e.instance_ix as int].instance {
                        Some(inst) => inst.incoming_signals@.contains(e.component_ix),
                        None => false,
                    }) && self.context.queued_instance_ixs@.contains(e.instance_ix) by {
                    if emitted_event(nodes0, active, e) {
                        assert(active.take(active.len() as int) =~= active);
                        assert(emitted_event(nodes0, active.take(active.len() as int), e));
                        assert(sigs1.contains(e));
                    } else {
                        assert(sigs1.take(sigs0.len() as int) == sigs0);
                        let w = choose|w: int| 0 <= w < sigs0.len() && sigs0[w] == e;
                        assert(sigs1[w] == e);
                        assert(sigs1.contains(e));
                    }
                    let d2 = choose|d2: int| 0 <= d2 < sigs1.len() && sigs1[d2] == e;
                }
                // stepping results stand after delivery
                assert forall|k: int|
                    0 <= k < active.len() && first_occurrence(active, k) implies (match (
                nodes0[(#[trigger] active[k]) as int].instance,
                self.instance_graph.nodes@[active[k] as int].instance,
            ) {
                    (Some(pre), Some(post)) => cycle_outcome(pre, post),
                    _ => false,
                }) by {
                    assert(active[k] < nodes1.len());
                    match (
                        nodes0[active[k] as int].instance,
                        nodes1[active[k] as int].instance,
                        self.instance_graph.nodes@[active[k] as int].instance,
                    ) {
                        (Some(pre), Some(a), Some(b)) => {
                            crate::component_instance::lemma_cycle_outcome_ignores_incoming(
                                pre,
                                a,
                                b,
                            );
                        },
                        _ => {},
                    }
                }
            }
        }
        Ok(more)
    }

    /// Run the global clock until no instance is active and no connector
    /// signal is pending. A component graph whose signals never dissipate
    /// does not terminate of itself; the run then ends with `CycleLimit`
    /// when the clock reaches the machine limit.
    pub fn run(&mut self) -> (r: Result<(), EngineError>)
        requires
            old(self).wf(),
        ensures
            r is Ok ==> final(self).wf(),
            r is Ok ==> final(self).context.queued_instance_ixs@.len() == 0,
            r is Ok ==> final(self).components@ == old(self).components@,
            r is Ok ==> final(self).clock_cycle > old(self).clock_cycle,
            r is Ok ==> final(self).instance_graph.nodes@.len() >= old(
                self,
            ).instance_graph.nodes@.len(),
            r is Ok ==> forall|k: int|
                0 <= k < old(self).instance_graph.nodes@.len() ==> (
                #[trigger] final(self).instance_graph.nodes@[k]).component_name == old(
                    self,
                ).instance_graph.nodes@[k].component_name,
    {
        loop
            invariant
                self.wf(),
                self.components@ == old(self).components@,
                self.clock_cycle >= old(self).clock_cycle,
                self.instance_graph.nodes@.len() >= old(self).instance_graph.nodes@.len(),
                forall|k: int|
                    0 <= k < old(self).instance_graph.nodes@.len() ==> (
                    #[trigger] self.instance_graph.nodes@[k]).component_name == old(
                        self,
                    ).instance_graph.nodes@[k].component_name,
            decreases usize::MAX - self.clock_cycle,
        {
            let more = match self.step() {
                Ok(b) => b,
                Err(e) => {
                    return Err(e);
                },
            };
            if !more {
                return Ok(());
            }
        }
    }
}

/// The label under which the root instance is known.
fn root_node_label() -> (r: String)
    ensures
        r@ == "Root"@,
{
    let label = "Root";
    label.to_string()
}

} // verus!
