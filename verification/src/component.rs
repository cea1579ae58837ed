//! The static component graph: nodes, edges, and the `Component` template.
//!
//! A component is a directed attributed graph held in an index-stable arena:
//! nodes and edges are stored in growing vectors and addressed by their
//! position, so a node's index never changes once assigned.

use vstd::prelude::*;

verus! {

/// Scheduling flags carried by cells and input connectors.
///
/// `fired` marks a node that activated this cycle and has not yet propagated;
/// `staged` marks a node already scheduled for the next activation batch, so
/// that it is not scheduled twice.
#[derive(Debug, Clone, Copy, PartialEq, Eq, Structural)]
pub struct CellFlags {
    pub fired: bool,
    pub staged: bool,
}

impl CellFlags {
    /// Flags with neither `fired` nor `staged` set.
    pub fn empty() -> (r: CellFlags)
        ensures
            !r.fired,
            !r.staged,
    {
        CellFlags { fired: false, staged: false }
    }
}

/// The closed set of cell behaviours. Both currently fire unconditionally
/// when activated; they are kept distinct for future semantic divergence.
#[derive(Debug, Clone, Copy, PartialEq, Eq, Structural)]
pub enum CellType {
    Relay,
    OneShot,
}

/// A cell: a graph node that accumulates signal bits and fires when staged.
#[derive(Debug, Clone)]
pub struct CellNode {
    pub cell_type: CellType,
    pub flags: CellFlags,
    /// A 32-bit set of pending signal-bit inputs, accumulated before
    /// activation and cleared every time the cell is processed.
    pub signals: u32,
}

impl CellNode {
    /// A fresh cell of the given type, with clear flags and no pending signals.
    pub fn new(tp: CellType) -> (r: CellNode)
        ensures
            r.cell_type == tp,
            !r.flags.fired,
            !r.flags.staged,
            r.signals == 0u32,
    {
        CellNode { cell_type: tp, flags: CellFlags::empty(), signals: 0 }
    }

    /// A fresh relay cell.
    pub fn relay() -> (r: CellNode)
        ensures
            r.cell_type == CellType::Relay,
            !r.flags.fired,
            !r.flags.staged,
            r.signals == 0u32,
    {
        CellNode::new(CellType::Relay)
    }

    /// A fresh one-shot cell.
    pub fn one_shot() -> (r: CellNode)
        ensures
            r.cell_type == CellType::OneShot,
            !r.flags.fired,
            !r.flags.staged,
            r.signals == 0u32,
    {
        CellNode::new(CellType::OneShot)
    }

    /// The cell's behaviour kind.
    pub fn get_type(&self) -> (r: CellType)
        ensures
            r == self.cell_type,
    {
        self.cell_type
    }

    /// Set bit `signal_bit` in the pending-signal set.
    pub fn set_signal(&mut self, signal_bit: u8)
        requires
            signal_bit < 32,
        ensures
            final(self).signals == old(self).signals | (1u32 << signal_bit),
            final(self).cell_type == old(self).cell_type,
            final(self).flags == old(self).flags,
    {
        self.signals = self.signals | (1u32 << signal_bit);
    }

    /// Clear bit `signal_bit` in the pending-signal set.
    pub fn clear_signal(&mut self, signal_bit: u8)
        requires
            signal_bit < 32,
        ensures
            final(self).signals == old(self).signals & !(1u32 << signal_bit),
            final(self).cell_type == old(self).cell_type,
            final(self).flags == old(self).flags,
    {
        self.signals = self.signals & !(1u32 << signal_bit);
    }

    /// Whether bit `signal_bit` is pending.
    pub fn get_signal(&self, signal_bit: u8) -> (r: bool)
        requires
            signal_bit < 32,
        ensures
            r == (self.signals & (1u32 << signal_bit) != 0u32),
    {
        self.signals & (1u32 << signal_bit) != 0
    }

    /// The whole pending-signal set.
    pub fn get_signals(&self) -> (r: u32)
        ensures
            r == self.signals,
    {
        self.signals
    }

    /// Clear every pending signal bit.
    pub fn clear_signals(&mut self)
        ensures
            final(self).signals == 0u32,
            final(self).cell_type == old(self).cell_type,
            final(self).flags == old(self).flags,
    {
        self.signals = 0;
    }
}

/// A named boundary node through which the orchestrator signals into an
/// instance. It carries the same flag semantics as a cell but accumulates no
/// signal bits.
#[derive(Debug, Clone)]
pub struct ConnectorInNode {
    pub node_name: String,
    pub flags: CellFlags,
}

impl ConnectorInNode {
    /// A fresh input connector with clear flags.
    pub fn new(node_name: String) -> (r: ConnectorInNode)
        ensures
            r.node_name == node_name,
            !r.flags.fired,
            !r.flags.staged,
    {
        ConnectorInNode { node_name, flags: CellFlags::empty() }
    }
}

/// The address of a connector inside a live instance: the instance-graph node
/// of the instance, and the connector's node index inside that instance's
/// own graph.
#[derive(Debug, Clone, Copy, PartialEq, Eq, Structural)]
pub struct InstanceComponentIx {
    pub instance_ix: usize,
    pub component_ix: usize,
}

/// A named boundary node through which an instance signals outward. The
/// target is unresolved until the owning instance joins the live instance
/// graph.
#[derive(Debug, Clone)]
pub struct ConnectorOutNode {
    pub to_instance_connector: Option<InstanceComponentIx>,
}

impl ConnectorOutNode {
    /// A fresh, unresolved output connector.
    pub fn new() -> (r: ConnectorOutNode)
        ensures
            r.to_instance_connector is None,
    {
        ConnectorOutNode { to_instance_connector: None }
    }
}

/// A placeholder node standing for "instantiate component `component_name`
/// here, named `node_name`". `instance_ix` caches the instance-graph node
/// assigned on resolution.
#[derive(Debug, Clone)]
pub struct InstanceRefNode {
    pub node_name: String,
    pub component_name: String,
    pub instance_ix: Option<usize>,
}

impl InstanceRefNode {
    /// A fresh, unresolved component reference.
    pub fn new(node_name: String, component_name: String) -> (r: InstanceRefNode)
        ensures
            r.node_name == node_name,
            r.component_name == component_name,
            r.instance_ix is None,
    {
        InstanceRefNode { node_name, component_name, instance_ix: None }
    }
}

/// A node of a component graph.
#[derive(Debug, Clone)]
pub enum Node {
    Cell(CellNode),
    ConnectorIn(ConnectorInNode),
    ConnectorOut(ConnectorOutNode),
    Component(InstanceRefNode),
}

impl Node {
    /// The staged flag of a cell or input connector; other nodes carry none.
    pub open spec fn staged_flag(self) -> bool {
        match self {
            Node::Cell(c) => c.flags.staged,
            Node::ConnectorIn(c) => c.flags.staged,
            _ => false,
        }
    }

    /// The fired flag of a cell or input connector; other nodes carry none.
    pub open spec fn fired_flag(self) -> bool {
        match self {
            Node::Cell(c) => c.flags.fired,
            Node::ConnectorIn(c) => c.flags.fired,
            _ => false,
        }
    }

    /// All flags clear, references and output connectors unresolved, and no
    /// pending signal bits: the state of every node of an inert template.
    pub open spec fn is_inert(self) -> bool {
        match self {
            Node::Cell(c) => !c.flags.fired && !c.flags.staged && c.signals == 0u32,
            Node::ConnectorIn(c) => !c.flags.fired && !c.flags.staged,
            Node::ConnectorOut(c) => c.to_instance_connector is None,
            Node::Component(c) => c.instance_ix is None,
        }
    }

    /// The two nodes are the same except possibly for their flags.
    pub open spec fn same_but_flags(self, other: Node) -> bool {
        match (self, other) {
            (Node::Cell(a), Node::Cell(b)) => a.cell_type == b.cell_type && a.signals
                == b.signals,
            (Node::ConnectorIn(a), Node::ConnectorIn(b)) => a.node_name == b.node_name,
            (Node::ConnectorOut(a), Node::ConnectorOut(b)) => a == b,
            (Node::Component(a), Node::Component(b)) => a == b,
            _ => false,
        }
    }

    /// The two nodes are of the same kind and carry the same names and cell
    /// type; flags, pending signals and resolution state are free. This is
    /// what instantiation and wiring preserve of a template's nodes.
    pub open spec fn same_kind_and_names(self, other: Node) -> bool {
        match (self, other) {
            (Node::Cell(a), Node::Cell(b)) => a.cell_type == b.cell_type,
            (Node::ConnectorIn(a), Node::ConnectorIn(b)) => a.node_name == b.node_name,
            (Node::ConnectorOut(_), Node::ConnectorOut(_)) => true,
            (Node::Component(a), Node::Component(b)) => a.node_name == b.node_name
                && a.component_name == b.component_name,
            _ => false,
        }
    }

    /// The two nodes are the same except possibly for flags and, on a cell,
    /// the pending-signal set.
    pub open spec fn same_but_flags_and_signals(self, other: Node) -> bool {
        match (self, other) {
            (Node::Cell(a), Node::Cell(b)) => a.cell_type == b.cell_type,
            (Node::ConnectorIn(a), Node::ConnectorIn(b)) => a.node_name == b.node_name,
            (Node::ConnectorOut(a), Node::ConnectorOut(b)) => a == b,
            (Node::Component(a), Node::Component(b)) => a == b,
            _ => false,
        }
    }
}

/// The payload of a signal edge: which bit to set in the target's
/// pending-signal set.
#[derive(Debug, Clone, Copy, PartialEq, Eq, Structural)]
pub struct Signal {
    pub signal_bit: u8,
}

/// The payload of a connection edge: the name of the connector of the
/// referenced child component that the edge wires to.
#[derive(Debug, Clone)]
pub struct Connection {
    pub instance_connector_name: String,
}

impl Connection {
    /// A connection naming the given child connector.
    pub fn new(to_connector_name: String) -> (r: Connection)
        ensures
            r.instance_connector_name == to_connector_name,
    {
        Connection { instance_connector_name: to_connector_name }
    }
}

/// An edge of a component graph.
///
/// `Signal` carries a bit to the target on propagation; `Association` is a
/// secondary sensing link staged one phase after signal edges; `Connection`
/// is structural wiring between instances and never carries a runtime signal.
#[derive(Debug, Clone)]
pub enum Edge {
    Signal(Signal),
    Association,
    Connection(Connection),
}

impl Edge {
    /// A signal edge carrying the given bit.
    pub fn new_signal(signal_bit: u8) -> (r: Edge)
        ensures
            r == Edge::Signal(Signal { signal_bit }),
    {
        Edge::Signal(Signal { signal_bit })
    }

    /// An association edge.
    pub fn new_association() -> (r: Edge)
        ensures
            r == Edge::Association,
    {
        Edge::Association
    }
}

/// A directed edge record of the arena: endpoints by node index, plus the
/// edge payload.
#[derive(Debug, Clone)]
pub struct GraphEdge {
    pub source: usize,
    pub target: usize,
    pub edge: Edge,
}

/// An index-stable arena of nodes and directed edges. Node and edge indices
/// are assigned monotonically and never change; removal is never needed by
/// the stepping algorithm.
#[derive(Debug, Clone)]
pub struct ComponentGraph {
    pub nodes: Vec<Node>,
    pub edges: Vec<GraphEdge>,
}

impl ComponentGraph {
    /// Every edge's endpoints name existing nodes.
    pub open spec fn wf(self) -> bool {
        forall|j: int|
            0 <= j < self.edges@.len() ==> (#[trigger] self.edges@[j]).source < self.nodes@.len()
                && self.edges@[j].target < self.nodes@.len()
    }

    /// Every node is inert: clear flags, no pending signals, unresolved
    /// references and output connectors.
    pub open spec fn is_inert(self) -> bool {
        forall|n: int| 0 <= n < self.nodes@.len() ==> (#[trigger] self.nodes@[n]).is_inert()
    }

    /// An empty graph.
    pub fn new() -> (r: ComponentGraph)
        ensures
            r.nodes@.len() == 0,
            r.edges@.len() == 0,
            r.wf(),
            r.is_inert(),
    {
        ComponentGraph { nodes: Vec::new(), edges: Vec::new() }
    }

    /// Append a node and return its index, which stays valid for the graph's
    /// lifetime.
    pub fn add_node(&mut self, node: Node) -> (ix: usize)
        ensures
            ix == old(self).nodes@.len(),
            final(self).nodes@ == old(self).nodes@.push(node),
            final(self).edges@ == old(self).edges@,
            old(self).wf() ==> final(self).wf(),
    {
        let ix = self.nodes.len();
        self.nodes.push(node);
        ix
    }

    /// Append a directed edge between two existing nodes and return its
    /// index.
    pub fn add_edge(&mut self, source: usize, target: usize, edge: Edge) -> (ix: usize)
        requires
            source < old(self).nodes@.len(),
            target < old(self).nodes@.len(),
        ensures
            ix == old(self).edges@.len(),
            final(self).edges@ == old(self).edges@.push(GraphEdge { source, target, edge }),
            final(self).nodes@ == old(self).nodes@,
            old(self).wf() ==> final(self).wf(),
    {
        let ix = self.edges.len();
        self.edges.push(GraphEdge { source, target, edge });
        ix
    }

    /// The number of nodes.
    pub fn node_count(&self) -> (r: usize)
        ensures
            r == self.nodes@.len(),
    {
        self.nodes.len()
    }

    /// A structurally equal copy of the graph, sharing no storage with the
    /// source.
    pub fn duplicate(&self) -> (r: ComponentGraph)
        ensures
            r.nodes@ == self.nodes@,
            r.edges@ == self.edges@,
    {
        let mut nodes: Vec<Node> = Vec::new();
        let mut i: usize = 0;
        while i < self.nodes.len()
            invariant
                i <= self.nodes@.len(),
                nodes@ == self.nodes@.take(i as int),
            decreases self.nodes@.len() - i,
        {
            nodes.push(duplicate_node(&self.nodes[i]));
            proof {
                assert(self.nodes@.take(i + 1 as int) =~= self.nodes@.take(i as int).push(
                    self.nodes@[i as int],
                ));
            }
            i += 1;
        }
        let mut edges: Vec<GraphEdge> = Vec::new();
        let mut j: usize = 0;
        while j < self.edges.len()
            invariant
                j <= self.edges@.len(),
                edges@ == self.edges@.take(j as int),
            decreases self.edges@.len() - j,
        {
            edges.push(duplicate_graph_edge(&self.edges[j]));
            proof {
                assert(self.edges@.take(j + 1 as int) =~= self.edges@.take(j as int).push(
                    self.edges@[j as int],
                ));
            }
            j += 1;
        }
        proof {
            assert(nodes@ =~= self.nodes@);
            assert(edges@ =~= self.edges@);
        }
        ComponentGraph { nodes, edges }
    }
}

/// A structurally equal copy of a node.
fn duplicate_node(n: &Node) -> (r: Node)
    ensures
        r == *n,
{
    match n {
        Node::Cell(c) => Node::Cell(
            CellNode { cell_type: c.cell_type, flags: c.flags, signals: c.signals },
        ),
        Node::ConnectorIn(c) => Node::ConnectorIn(
            ConnectorInNode { node_name: c.node_name.clone(), flags: c.flags },
        ),
        Node::ConnectorOut(c) => Node::ConnectorOut(
            ConnectorOutNode { to_instance_connector: c.to_instance_connector },
        ),
        Node::Component(c) => Node::Component(
            InstanceRefNode {
                node_name: c.node_name.clone(),
                component_name: c.component_name.clone(),
                instance_ix: c.instance_ix,
            },
        ),
    }
}

/// A structurally equal copy of an edge record.
fn duplicate_graph_edge(e: &GraphEdge) -> (r: GraphEdge)
    ensures
        r == *e,
{
    let edge = match &e.edge {
        Edge::Signal(s) => Edge::Signal(Signal { signal_bit: s.signal_bit }),
        Edge::Association => Edge::Association,
        Edge::Connection(c) => Edge::Connection(
            Connection { instance_connector_name: c.instance_connector_name.clone() },
        ),
    };
    GraphEdge { source: e.source, target: e.target, edge }
}

/// A named, immutable component template. Many instances may be created from
/// one component by copying its graph; the template itself lives in the
/// orchestrator's catalog.
#[derive(Debug, Clone)]
pub struct Component {
    pub name: String,
    pub graph: ComponentGraph,
}

impl Component {
    /// A fresh, empty component of the given name.
    pub fn new(name: String) -> (r: Component)
        ensures
            r.name == name,
            r.graph.nodes@.len() == 0,
            r.graph.edges@.len() == 0,
    {
        Component { name, graph: ComponentGraph::new() }
    }

    /// A structurally equal copy of the component.
    pub fn duplicate(&self) -> (r: Component)
        ensures
            r.name == self.name,
            r.graph.nodes@ == self.graph.nodes@,
            r.graph.edges@ == self.graph.edges@,
    {
        Component { name: self.name.clone(), graph: self.graph.duplicate() }
    }
}

} // verus!
