use stakhal::machine::{
    AppStateMachine, AppTransition, EnumDefinition, TrackedVariable, TransitionType, VariableScope,
};
use stakhal::state_graph::build_state_machine_graph;

fn transition(from: &str, to: &str, guard: &str, is_fault: bool) -> AppTransition {
    AppTransition {
        from: from.to_string(),
        to: to.to_string(),
        guard: guard.to_string(),
        label: guard.to_string(),
        is_fault,
        transition_type: TransitionType::Direct,
        line: 1,
    }
}

fn machine(initial: Option<&str>, states: &[&str], transitions: Vec<AppTransition>) -> AppStateMachine {
    AppStateMachine {
        id: "main.c::state".to_string(),
        display_name: "State".to_string(),
        enum_def: EnumDefinition {
            name: "State_t".to_string(),
            variants: states.iter().map(|s| s.to_string()).collect(),
            file_path: "main.c".to_string(),
            line: 1,
        },
        var: TrackedVariable {
            name: "state".to_string(),
            enum_type: "State_t".to_string(),
            scope: VariableScope::Global,
            initial_value: initial.map(|s| s.to_string()),
            file_path: "main.c".to_string(),
            line: 2,
        },
        states: states.iter().map(|s| s.to_string()).collect(),
        transitions,
        ambiguous_transitions: vec![],
    }
}

#[test]
fn state_graph_has_a_node_per_state() {
    let sm = machine(
        Some("IDLE"),
        &["IDLE", "CAL_START", "RUNNING", "FAULT_STATE"],
        vec![
            transition("IDLE", "CAL_START", "start", false),
            transition("CAL_START", "RUNNING", "done", false),
            transition("RUNNING", "FAULT_STATE", "err", false),
            transition("(any state)", "IDLE", "reset", false),
            transition("RUNNING", "RUNNING", "tick", false),
            transition("RUNNING", "IDLE", "stop", true),
            transition("RUNNING", "UNKNOWN", "odd", false),
        ],
    );
    let (g, map) = build_state_machine_graph(&sm);
    assert_eq!(g.node_count(), 4);
    assert_eq!(map.len(), 4);
    let idle = map[0].1;
    let node = &g[petgraph::stable_graph::NodeIndex::new(idle)];
    assert!(node.is_initial);
    assert_eq!(node.cluster, "INITIAL");
    let cal = &g[petgraph::stable_graph::NodeIndex::new(map[1].1)];
    assert_eq!(cal.cluster, "CALIBRATION");
    let fault = &g[petgraph::stable_graph::NodeIndex::new(map[3].1)];
    assert!(fault.is_fault);
    assert_eq!(fault.cluster, "FAULT");
    // Only the two ordinary transitions between named states are drawn.
    assert_eq!(g.edge_count(), 2);
    let guards: Vec<String> = g.edge_weights().map(|e| e.guard.clone()).collect();
    assert_eq!(guards, vec!["start".to_string(), "done".to_string()]);
}

#[test]
fn state_graph_defaults_initial_to_idle() {
    let sm = machine(None, &["IDLE", "GOING", "OPENING", "OTHER"], vec![]);
    let (g, map) = build_state_machine_graph(&sm);
    let clusters: Vec<String> = map
        .iter()
        .map(|(_, i)| g[petgraph::stable_graph::NodeIndex::new(*i)].cluster.clone())
        .collect();
    assert_eq!(clusters, vec!["INITIAL", "MOTION", "MECHANISM", "GENERAL"]);
    assert_eq!(g.edge_count(), 0);
}
