//! A discrete-cycle signal-propagation engine for hierarchically composed
//! dataflow components.
//!
//! A [`component::Component`] is a static graph of cells and connectors. A
//! [`component_instance::ComponentInstance`] owns a private copy of that
//! graph and steps it forward in discrete cycles, propagating signals along
//! edges until quiescent. An [`orchestrator::Orchestrator`] composes many
//! instances into a live instance graph, lazily instantiating referenced
//! child components and routing signals across instance boundaries. Cell
//! bodies may compute on [`data::Value`] operand buffers.

pub mod component;
pub mod component_instance;
pub mod data;
pub mod errors;
pub mod orchestrator;
