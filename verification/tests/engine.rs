use cellflow::component::{CellNode, CellType, Component, ConnectorInNode, ConnectorOutNode, Edge,
    InstanceRefNode, Node, Signal};
use cellflow::component_instance::ComponentInstance;
use cellflow::errors::EngineError;
use cellflow::orchestrator::{InstanceConnectorRef, Orchestrator};
use cellflow::component::InstanceComponentIx;

#[test]
fn component_it_works() {
    let mut component = Component::new("AComponent".to_string());

    let cell_a = component.graph.add_node(Node::Cell(CellNode::new(CellType::Relay)));
    let cell_b = component.graph.add_node(Node::Cell(CellNode::new(CellType::Relay)));
    component.graph.add_edge(cell_a, cell_b, Edge::new_signal(0));
}

#[test]
fn parallel_quick_sort() {
    let _def = r#"
    #https://lalrpop.github.io/lalrpop/index.html
    #https://createlang.rs/intro.html
    #control flow graph https://vigusmao.github.io/manuscripts/structured_code_graphs.pdf
    #some example code at https://gist.github.com/wieslawsoltes/6592526

    const threshold: usize = 2;

    // can be exposed by any component that might mutate an array
    interface array_mutator {
      start: -> mut values: [u32];
      done: <-
    }

    fn swap(values: [u32], i: usize, j: usize) {
      let temp = values[i];
      values[i] = values[j];
      values[j] = temp;
    }

    fn insertion_sort(values: [u32])
    {
      for (let i = 1; i < values.len; i++) {
        let a = values[i];
        int j = i - 1;

        while (j >= 0 && values[j] > a) {
          values[j + 1] = values[j];
          j--;
        }
        values[j + 1] = a;
      }
    }

    fn partition(values: [u32]) {
      // pick a pivot element and move its value to end
      let pivot = values.len / 2;
      let pivotValue = values[pivot];
      swap(values, pivot, values.len - 1)
      pivot = 0;

      for (let i = 0; i < values.len - 1; i++) {
        if (values[i] >= pivotValue) {
          swap(values, pivot, i);
          pivot++;
        }
      }

      // move pivot value to its final location
      swap(values, pivot, values.len - 1);
      return pivot;
    }

    pub component quick_sort {
      pub con: array_mutator;

      on (con.start) {
        if (con.start.values.length <= threshold) {
          insertion_sort(con.start.values);
        }
        else {
          let pivot = partition(con.start.values);
          let quick_sort_1 = new quick_sort();
          let quick_sort_2 = new quick_sort();
          quick_sort_1.con.start(con.start.values[..pivot]);
          quick_sort_2.con.start(con.start.values[pivot + 1..]);
          // on [any|all|seq] ([...])
          on all (quick_sort_1.con.done, quick_sort_2.con.done) {
            return;
          }
        }
      }
    }
    "#;
}

#[test]
fn component_instance_it_works() {
    let mut component = Component::new("AComponent".to_string());

    let cell_a = component.graph.add_node(Node::Cell(CellNode::one_shot()));
    let cell_b = component.graph.add_node(Node::Cell(CellNode::relay()));
    let cell_c = component.graph.add_node(Node::Cell(CellNode::relay()));
    let cell_d = component.graph.add_node(Node::Cell(CellNode::relay()));
    component
        .graph
        .add_edge(cell_a, cell_b, Edge::Signal(Signal { signal_bit: 0 }));
    component.graph.add_edge(cell_b, cell_c, Edge::Association);
    component
        .graph
        .add_edge(cell_b, cell_d, Edge::Signal(Signal { signal_bit: 0 }));
    let init_cells = [cell_a];

    let mut instance = ComponentInstance::new("root_node".to_string(), &component, &init_cells);

    while instance.step().unwrap().is_active {}

    assert_eq!(instance.instance_cycle, 4);
}

#[test]
fn draining_run_matches_stepping() {
    let mut component = Component::new("Chain".to_string());
    let a = component.graph.add_node(Node::Cell(CellNode::one_shot()));
    let b = component.graph.add_node(Node::Cell(CellNode::relay()));
    component.graph.add_edge(a, b, Edge::new_signal(0));
    let init_cells = [a];

    let mut instance = ComponentInstance::new("chain".to_string(), &component, &init_cells);
    let events = instance.run().unwrap();

    assert!(events.is_empty());
    assert_eq!(instance.instance_cycle, 3);
    assert!(!instance.is_active());
}

#[test]
fn quiescent_step_counts_one_cycle() {
    let component = Component::new("Idle".to_string());
    let mut instance = ComponentInstance::new("idle".to_string(), &component, &[]);

    let outcome = instance.step().unwrap();

    assert!(!outcome.is_active);
    assert!(outcome.signaled_connectors.is_empty());
    assert_eq!(instance.instance_cycle, 1);
}

#[test]
fn staging_is_idempotent_across_two_sources() {
    // Two simultaneously firing cells both signal the same target; the
    // target must enter the activation batch exactly once.
    let mut component = Component::new("TwoSources".to_string());
    let a = component.graph.add_node(Node::Cell(CellNode::relay()));
    let b = component.graph.add_node(Node::Cell(CellNode::relay()));
    let c = component.graph.add_node(Node::Cell(CellNode::relay()));
    component.graph.add_edge(a, c, Edge::new_signal(0));
    component.graph.add_edge(b, c, Edge::new_signal(1));
    let init_cells = [a, b];

    let mut instance = ComponentInstance::new("dup".to_string(), &component, &init_cells);

    instance.step().unwrap(); // activates a and b
    instance.step().unwrap(); // propagates into c and activates it once

    assert_eq!(instance.active_nodes, vec![c]);
}

#[test]
fn association_staged_after_signal_sibling() {
    // A fired cell with a signal edge and an association edge to different
    // targets: the signal-staged sibling enters the batch first.
    let mut component = Component::new("Ordering".to_string());
    let x = component.graph.add_node(Node::Cell(CellNode::relay()));
    let t = component.graph.add_node(Node::Cell(CellNode::relay()));
    let s = component.graph.add_node(Node::Cell(CellNode::relay()));
    component.graph.add_edge(x, t, Edge::new_association());
    component.graph.add_edge(x, s, Edge::new_signal(0));
    let init_cells = [x];

    let mut instance = ComponentInstance::new("order".to_string(), &component, &init_cells);

    instance.step().unwrap(); // activates x
    instance.step().unwrap(); // stages s (signal) before t (association)

    assert_eq!(instance.active_nodes, vec![s, t]);
}

#[test]
fn oversized_signal_bit_is_fatal() {
    let mut component = Component::new("WideBit".to_string());
    let a = component.graph.add_node(Node::Cell(CellNode::relay()));
    let b = component.graph.add_node(Node::Cell(CellNode::relay()));
    component.graph.add_edge(a, b, Edge::new_signal(32));
    let init_cells = [a];

    let mut instance = ComponentInstance::new("wide".to_string(), &component, &init_cells);

    instance.step().unwrap();
    let r = instance.step();
    assert!(matches!(r, Err(EngineError::SignalBitTooLarge { .. })));
}

#[test]
fn signal_into_input_connector_is_fatal() {
    let mut component = Component::new("BadTarget".to_string());
    let a = component.graph.add_node(Node::Cell(CellNode::relay()));
    let ci = component
        .graph
        .add_node(Node::ConnectorIn(ConnectorInNode::new("in".to_string())));
    component.graph.add_edge(a, ci, Edge::new_signal(0));
    let init_cells = [a];

    let mut instance = ComponentInstance::new("bad".to_string(), &component, &init_cells);

    instance.step().unwrap();
    let r = instance.step();
    assert!(matches!(r, Err(EngineError::InvalidSignalTarget { .. })));
}

#[test]
fn connection_edge_from_fired_cell_is_fatal() {
    let mut component = Component::new("BadEdge".to_string());
    let a = component.graph.add_node(Node::Cell(CellNode::relay()));
    let b = component.graph.add_node(Node::Cell(CellNode::relay()));
    component.graph.add_edge(
        a,
        b,
        Edge::Connection(cellflow::component::Connection::new("in".to_string())),
    );
    let init_cells = [a];

    let mut instance = ComponentInstance::new("badedge".to_string(), &component, &init_cells);

    instance.step().unwrap();
    let r = instance.step();
    assert!(matches!(r, Err(EngineError::InvalidConnectionEdge { .. })));
}

#[test]
fn fired_output_connector_is_fatal() {
    let mut component = Component::new("BadFired".to_string());
    let co = component.graph.add_node(Node::ConnectorOut(ConnectorOutNode::new()));
    let mut instance = ComponentInstance::new("badfired".to_string(), &component, &[]);

    instance.signal_connector_in(co);
    let r = instance.step();
    assert!(matches!(r, Err(EngineError::InvalidFiredNode { .. })));
}

#[test]
fn orchestrator_it_works() {
    let mut component = Component::new("AComponent".to_string());

    let connector_in = component
        .graph
        .add_node(Node::ConnectorIn(ConnectorInNode::new("connector_in".to_string())));
    let cell_b = component.graph.add_node(Node::Cell(CellNode::relay()));
    let cell_c = component.graph.add_node(Node::Cell(CellNode::relay()));
    let cell_d = component.graph.add_node(Node::Cell(CellNode::relay()));
    component.graph.add_edge(connector_in, cell_b, Edge::new_signal(0));
    component.graph.add_edge(cell_b, cell_c, Edge::Association);
    component.graph.add_edge(cell_b, cell_d, Edge::new_signal(0));

    let mut orchestrator = Orchestrator::new();
    orchestrator.add_root_component(component);
    orchestrator.signal_root_instance_connector_in(connector_in).unwrap();
    orchestrator.run().unwrap();

    assert_eq!(orchestrator.clock_cycle, 3);
}

#[test]
fn it_works2() {
    // Component1 is instantiated by and connected from Component2
    let mut component_1 = Component::new("Component1".to_string());
    let connector_in_component_1 = component_1
        .graph
        .add_node(Node::ConnectorIn(ConnectorInNode::new("connector_in".to_string())));
    let cell_a_component_1 = component_1.graph.add_node(Node::Cell(CellNode::relay()));
    component_1
        .graph
        .add_edge(connector_in_component_1, cell_a_component_1, Edge::new_signal(0));

    let mut component_2 = Component::new("Component2".to_string());
    let connector_in_component_2 = component_2
        .graph
        .add_node(Node::ConnectorIn(ConnectorInNode::new("connector_in".to_string())));
    let cell_a_component_2 = component_2.graph.add_node(Node::Cell(CellNode::relay()));
    let connector_out_component_2 =
        component_2.graph.add_node(Node::ConnectorOut(ConnectorOutNode::new()));
    let instance_component_1 = component_2.graph.add_node(Node::Component(InstanceRefNode::new(
        "component_1".to_string(),
        component_1.name.clone(),
    )));

    component_2
        .graph
        .add_edge(connector_in_component_2, cell_a_component_2, Edge::new_signal(0));
    component_2
        .graph
        .add_edge(cell_a_component_2, connector_out_component_2, Edge::new_signal(0));
    component_2.graph.add_edge(
        connector_out_component_2,
        instance_component_1,
        Edge::Connection(cellflow::component::Connection::new("connector_in".to_string())),
    );

    let mut orchestrator = Orchestrator::new();
    orchestrator.add_root_component(component_2);
    orchestrator.add_component(component_1);
    orchestrator.signal_root_instance_connector_in(connector_in_component_2).unwrap();
    orchestrator.run().unwrap();

    assert_eq!(orchestrator.clock_cycle, 4);
}

#[test]
fn two_references_resolve_to_distinct_instances() {
    // A parent that references the same child component through two
    // distinct reference nodes gets two independent instances.
    let mut child = Component::new("Child".to_string());
    child
        .graph
        .add_node(Node::ConnectorIn(ConnectorInNode::new("in".to_string())));

    let mut parent = Component::new("Parent".to_string());
    let ci = parent
        .graph
        .add_node(Node::ConnectorIn(ConnectorInNode::new("start".to_string())));
    let co_a = parent.graph.add_node(Node::ConnectorOut(ConnectorOutNode::new()));
    let co_b = parent.graph.add_node(Node::ConnectorOut(ConnectorOutNode::new()));
    let ref_a = parent.graph.add_node(Node::Component(InstanceRefNode::new(
        "left".to_string(),
        "Child".to_string(),
    )));
    let ref_b = parent.graph.add_node(Node::Component(InstanceRefNode::new(
        "right".to_string(),
        "Child".to_string(),
    )));
    parent.graph.add_edge(
        co_a,
        ref_a,
        Edge::Connection(cellflow::component::Connection::new("in".to_string())),
    );
    parent.graph.add_edge(
        co_b,
        ref_b,
        Edge::Connection(cellflow::component::Connection::new("in".to_string())),
    );

    let mut orchestrator = Orchestrator::new();
    orchestrator.add_root_component(parent);
    orchestrator.add_component(child);
    orchestrator.signal_root_instance_connector_in(ci).unwrap();

    // The root and its two children.
    assert_eq!(orchestrator.instance_graph.nodes.len(), 3);
    assert_eq!(orchestrator.instance_graph.nodes[1].component_name, "Child");
    assert_eq!(orchestrator.instance_graph.nodes[2].component_name, "Child");

    let root = orchestrator.instance_graph.nodes[0].instance.as_ref().unwrap();
    let ix_a = match &root.component.graph.nodes[ref_a] {
        Node::Component(rf) => rf.instance_ix.unwrap(),
        _ => panic!("expected a reference node"),
    };
    let ix_b = match &root.component.graph.nodes[ref_b] {
        Node::Component(rf) => rf.instance_ix.unwrap(),
        _ => panic!("expected a reference node"),
    };
    assert_ne!(ix_a, ix_b);
}

#[test]
fn missing_root_component_is_reported() {
    let mut orchestrator = Orchestrator::new();
    let r = orchestrator.signal_root_instance_connector_in(0);
    assert!(matches!(r, Err(EngineError::NoRootInstance)));
}

#[test]
fn missing_child_component_is_reported() {
    let mut parent = Component::new("Parent".to_string());
    let ci = parent
        .graph
        .add_node(Node::ConnectorIn(ConnectorInNode::new("start".to_string())));
    let co = parent.graph.add_node(Node::ConnectorOut(ConnectorOutNode::new()));
    let rf = parent.graph.add_node(Node::Component(InstanceRefNode::new(
        "gone".to_string(),
        "Missing".to_string(),
    )));
    parent.graph.add_edge(
        co,
        rf,
        Edge::Connection(cellflow::component::Connection::new("in".to_string())),
    );

    let mut orchestrator = Orchestrator::new();
    orchestrator.add_root_component(parent);
    let r = orchestrator.signal_root_instance_connector_in(ci);
    assert!(matches!(r, Err(EngineError::ComponentNotFound { .. })));
}

#[test]
fn missing_child_connector_is_reported() {
    let mut child = Component::new("Child".to_string());
    child
        .graph
        .add_node(Node::ConnectorIn(ConnectorInNode::new("other".to_string())));

    let mut parent = Component::new("Parent".to_string());
    let ci = parent
        .graph
        .add_node(Node::ConnectorIn(ConnectorInNode::new("start".to_string())));
    let co = parent.graph.add_node(Node::ConnectorOut(ConnectorOutNode::new()));
    let rf = parent.graph.add_node(Node::Component(InstanceRefNode::new(
        "kid".to_string(),
        "Child".to_string(),
    )));
    parent.graph.add_edge(
        co,
        rf,
        Edge::Connection(cellflow::component::Connection::new("in".to_string())),
    );

    let mut orchestrator = Orchestrator::new();
    orchestrator.add_root_component(parent);
    orchestrator.add_component(child);
    let r = orchestrator.signal_root_instance_connector_in(ci);
    assert!(matches!(r, Err(EngineError::ConnectorNotFound { .. })));
}

#[test]
fn signal_edge_at_reference_is_reported() {
    let mut parent = Component::new("Parent".to_string());
    let ci = parent
        .graph
        .add_node(Node::ConnectorIn(ConnectorInNode::new("start".to_string())));
    let cell = parent.graph.add_node(Node::Cell(CellNode::relay()));
    let rf = parent.graph.add_node(Node::Component(InstanceRefNode::new(
        "kid".to_string(),
        "Child".to_string(),
    )));
    parent.graph.add_edge(cell, rf, Edge::new_signal(0));

    let mut orchestrator = Orchestrator::new();
    orchestrator.add_root_component(parent);
    let r = orchestrator.signal_root_instance_connector_in(ci);
    assert!(matches!(r, Err(EngineError::UnexpectedRefEdge { .. })));
}

#[test]
fn unknown_queued_instance_is_reported() {
    let mut orchestrator = Orchestrator::new();
    orchestrator.context.queue_active_instance(7);
    let r = orchestrator.run();
    assert!(matches!(r, Err(EngineError::UnknownInstance { instance: 7 })));
}

#[test]
fn out_of_range_connector_is_reported() {
    let mut component = Component::new("Solo".to_string());
    let ci = component
        .graph
        .add_node(Node::ConnectorIn(ConnectorInNode::new("in".to_string())));

    let mut orchestrator = Orchestrator::new();
    orchestrator.add_root_component(component);
    orchestrator.signal_root_instance_connector_in(ci).unwrap();

    let mut address = InstanceConnectorRef::InstanceConnectorIx(InstanceComponentIx {
        instance_ix: 0,
        component_ix: 9999,
    });
    let r = orchestrator.signal_instance_connector_in(&mut address);
    assert!(matches!(r, Err(EngineError::ConnectorOutOfRange { connector: 9999 })));
}

#[test]
fn run_on_empty_orchestrator_stops_after_one_cycle() {
    let mut orchestrator = Orchestrator::new();
    orchestrator.run().unwrap();
    assert_eq!(orchestrator.clock_cycle, 1);
}

#[test]
fn cell_signal_bits_accumulate_and_clear() {
    let mut cell = CellNode::relay();
    cell.set_signal(0);
    cell.set_signal(3);
    assert!(cell.get_signal(0));
    assert!(cell.get_signal(3));
    assert!(!cell.get_signal(1));
    assert_eq!(cell.get_signals(), 0b1001);
    cell.clear_signal(0);
    assert!(!cell.get_signal(0));
    assert_eq!(cell.get_signals(), 0b1000);
    cell.clear_signals();
    assert_eq!(cell.get_signals(), 0);
    assert_eq!(cell.get_type(), CellType::Relay);
}
