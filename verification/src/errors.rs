//! Errors of the engine.
//!
//! Every detectable error is a programming or graph-construction defect and
//! is reported eagerly; there is no soft-fail or retry layer.

use vstd::prelude::*;

verus! {

/// A fatal condition met while stepping an instance or resolving the live
/// instance graph. Variants carry the index of the offending node or edge so
/// that the defect can be identified.
#[derive(Debug, Clone)]
pub enum EngineError {
    /// A signal edge carries a bit outside the 32-bit pending-signal set of
    /// its target cell.
    SignalBitTooLarge { edge: usize },
    /// A signal edge terminates on a node kind that cannot receive signals.
    InvalidSignalTarget { node: usize },
    /// A connection edge leaves a node that fired; connection edges are
    /// structural and never carry a runtime signal.
    InvalidConnectionEdge { edge: usize },
    /// A node that cannot fire was found in the fired list.
    InvalidFiredNode { node: usize },
    /// A node that cannot be activated was found in the active batch.
    InvalidActiveNode { node: usize },
    /// A referenced component name is not in the orchestrator's catalog.
    ComponentNotFound { name: String },
    /// A connection edge names a connector that the child component lacks.
    ConnectorNotFound { name: String },
    /// An edge incident to a component-reference node is not a connection
    /// edge between a reference and a connector.
    UnexpectedRefEdge { edge: usize },
    /// A signal was addressed to the root instance, but no root component
    /// was registered.
    NoRootInstance,
    /// An instance-graph index does not name a live or pending instance.
    UnknownInstance { instance: usize },
    /// A routed connector index lies outside the target instance's graph.
    ConnectorOutOfRange { connector: usize },
    /// A cycle counter reached the machine limit and cannot advance.
    CycleLimit,
}

} // verus!
