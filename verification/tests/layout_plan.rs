use stakhal::layout_plan::{lane_edges, plan_drawn_edges, plan_state_machine_layout};
use stakhal::machine::{
    AppStateMachine, AppTransition, EnumDefinition, TrackedVariable, TransitionType, VariableScope,
};

fn t(from: &str, to: &str, is_fault: bool) -> AppTransition {
    AppTransition {
        from: from.to_string(),
        to: to.to_string(),
        guard: String::new(),
        label: String::new(),
        is_fault,
        transition_type: TransitionType::Direct,
        line: 1,
    }
}

fn machine(states: &[&str], transitions: Vec<AppTransition>) -> AppStateMachine {
    AppStateMachine {
        id: "m".to_string(),
        display_name: "M".to_string(),
        enum_def: EnumDefinition {
            name: "S".to_string(),
            variants: states.iter().map(|s| s.to_string()).collect(),
            file_path: "main.c".to_string(),
            line: 1,
        },
        var: TrackedVariable {
            name: "s".to_string(),
            enum_type: "S".to_string(),
            scope: VariableScope::Global,
            initial_value: None,
            file_path: "main.c".to_string(),
            line: 1,
        },
        states: states.iter().map(|s| s.to_string()).collect(),
        transitions,
        ambiguous_transitions: vec![],
    }
}

#[test]
fn plan_counts_and_lanes() {
    let sm = machine(
        &["IDLE", "CAL_A", "CAL_B", "GOING", "HOLD", "FAULT"],
        vec![
            t("IDLE", "CAL_A", false),
            t("CAL_A", "CAL_B", false),
            t("CAL_B", "IDLE", false),
            t("IDLE", "GOING", false),
            t("GOING", "HOLD", false),
            t("HOLD", "HOLD", false),
            t("(any state)", "FAULT", true),
            t("GOING", "FAULT", true),
        ],
    );
    let plan = plan_state_machine_layout(&sm);
    assert_eq!(plan.entry_hub, "IDLE");
    assert_eq!(plan.incoming, vec![1, 1, 1, 1, 1, 2]);
    assert_eq!(plan.outgoing, vec![2, 1, 1, 2, 0, 0]);
    assert_eq!(plan.high_fan_in, vec![false, false, false, false, false, true]);
    assert_eq!(plan.collapsed_badges[3], vec!["FAULT".to_string()]);
    assert!(plan.collapsed_badges[0].is_empty());
    assert!(plan.exit_hubs.is_empty());
    let lanes: Vec<(String, Vec<String>)> = plan.lanes.iter().map(|l| (l.cluster.clone(), l.states.clone())).collect();
    assert_eq!(
        lanes,
        vec![
            ("CALIBRATION".to_string(), vec!["CAL_A".to_string(), "CAL_B".to_string()]),
            ("MOTION".to_string(), vec!["GOING".to_string(), "HOLD".to_string()]),
        ]
    );
    assert_eq!(plan.fault_states, vec!["FAULT".to_string()]);
}

#[test]
fn plan_finds_exit_hub() {
    let sm = machine(
        &["IDLE", "CAL_A", "OPENING", "RETURNED", "X"],
        vec![
            t("CAL_A", "RETURNED", false),
            t("RETURNED", "OPENING", false),
            t("OPENING", "RETURNED", false),
            t("RETURNED", "CAL_A", false),
            t("RETURNED", "IDLE", false),
        ],
    );
    let plan = plan_state_machine_layout(&sm);
    assert_eq!(plan.exit_hubs, vec!["RETURNED".to_string()]);
    let clusters: Vec<&str> = plan.lanes.iter().map(|l| l.cluster.as_str()).collect();
    assert_eq!(clusters, vec!["CALIBRATION", "MECHANISM", "GENERAL"]);
    assert_eq!(plan.lanes[2].states, vec!["X".to_string()]);
}

#[test]
fn plan_places_every_state() {
    let sm = machine(
        &["IDLE", "CAL_A", "OPENING", "RETURNED", "X", "MOTOR_FAULT"],
        vec![
            t("CAL_A", "RETURNED", false),
            t("RETURNED", "OPENING", false),
            t("OPENING", "RETURNED", false),
            t("RETURNED", "CAL_A", false),
            t("RETURNED", "IDLE", false),
            t("X", "MOTOR_FAULT", true),
        ],
    );
    let plan = plan_state_machine_layout(&sm);
    for s in &sm.states {
        let placed = *s == plan.entry_hub
            || plan.exit_hubs.contains(s)
            || plan.fault_states.contains(s)
            || plan.lanes.iter().any(|l| l.states.contains(s));
        assert!(placed, "{} has no place", s);
    }
    assert_eq!(plan.fault_states, vec!["MOTOR_FAULT".to_string()]);
}

#[test]
fn drawn_edges_need_both_ends_placed() {
    let sm = machine(
        &["IDLE", "CAL_A", "CAL_B", "GOING", "HOLD", "FAULT"],
        vec![
            t("IDLE", "CAL_A", false),
            t("CAL_A", "CAL_B", false),
            t("CAL_B", "IDLE", false),
            t("IDLE", "GOING", false),
            t("GOING", "HOLD", false),
            t("HOLD", "HOLD", false),
            t("(any state)", "FAULT", true),
            t("GOING", "FAULT", true),
        ],
    );
    let plan = plan_state_machine_layout(&sm);
    let drawn: Vec<Option<(bool, bool)>> = plan_drawn_edges(&sm, &plan)
        .iter()
        .map(|d| d.as_ref().map(|d| (d.high_fan_in, d.inter_cluster)))
        .collect();
    assert_eq!(
        drawn,
        vec![
            Some((false, true)),
            Some((false, false)),
            Some((false, true)),
            Some((false, true)),
            Some((false, false)),
            Some((false, false)),
            None,
            Some((true, true)),
        ]
    );
}

#[test]
fn lane_edges_join_states_of_the_lane() {
    let sm = machine(
        &["IDLE", "CAL_A", "CAL_B", "GOING"],
        vec![
            t("IDLE", "CAL_A", false),
            t("CAL_A", "CAL_B", false),
            t("CAL_B", "CAL_B", false),
            t("CAL_B", "CAL_A", false),
            t("CAL_A", "GOING", false),
        ],
    );
    let lane = vec!["CAL_A".to_string(), "CAL_B".to_string()];
    assert_eq!(lane_edges(&sm, &lane), vec![(1, 0, 1), (3, 1, 0)]);
}
