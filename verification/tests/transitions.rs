use stakhal::discovery::discover_state_machines_in_file;
use stakhal::machine::TransitionType;
use stakhal::transitions::extract_state_machine_transitions;

const SWITCH_SRC: &str = "typedef enum { ST_IDLE, ST_RUN, ST_FAULT } State;\n\
static State state = ST_IDLE;\n\
void tick(int go)\n\
{\n\
  switch (state) {\n\
    case ST_IDLE:\n\
      if (go) {\n\
        state = ST_RUN;\n\
      }\n\
      break;\n\
    case ST_RUN:\n\
      state = ST_IDLE;\n\
      break;\n\
    default:\n\
      break;\n\
  }\n\
}\n";

#[test]
fn switch_cases_give_direct_transitions() {
    let cands = discover_state_machines_in_file("main.c", SWITCH_SRC).expect("parses");
    assert_eq!(cands.len(), 1);
    let sm = extract_state_machine_transitions(&cands[0], SWITCH_SRC, &[]).expect("parses");
    assert_eq!(sm.id, "State_state");
    assert_eq!(sm.states, vec!["ST_IDLE", "ST_RUN", "ST_FAULT"]);
    assert_eq!(sm.transitions.len(), 2);
    let t0 = &sm.transitions[0];
    assert_eq!((t0.from.as_str(), t0.to.as_str(), t0.guard.as_str()), ("ST_IDLE", "ST_RUN", "go"));
    assert_eq!(t0.transition_type, TransitionType::Direct);
    assert_eq!(t0.line, 8);
    assert!(!t0.is_fault);
    let t1 = &sm.transitions[1];
    assert_eq!((t1.from.as_str(), t1.to.as_str(), t1.guard.as_str()), ("ST_RUN", "ST_IDLE", ""));
    assert_eq!(t1.line, 12);
    assert!(sm.ambiguous_transitions.is_empty());
}

const HELPER_SRC: &str = "typedef enum { M_OFF, M_ON } Mode;\n\
Mode mode = M_OFF;\n\
static void set_on(void) { mode = M_ON; }\n\
int main(void)\n\
{\n\
  while (1) {\n\
    if (mode == M_OFF) {\n\
      if (strcmp(cmd, \"ON\") == 0) {\n\
        set_on();\n\
      }\n\
      report_fault(\"boom\");\n\
    }\n\
  }\n\
}\n";

#[test]
fn helper_calls_and_fault_handlers_give_indirect_transitions() {
    let cands = discover_state_machines_in_file("main.c", HELPER_SRC).expect("parses");
    assert_eq!(cands.len(), 1);
    let sm = extract_state_machine_transitions(&cands[0], HELPER_SRC, &[]).expect("parses");
    assert_eq!(sm.transitions.len(), 2);
    let t0 = &sm.transitions[0];
    assert_eq!(t0.from, "M_OFF");
    assert_eq!(t0.to, "M_ON");
    assert_eq!(t0.guard, "strcmp(cmd, \"ON\") == 0 [set_on()]");
    assert_eq!(t0.label, "CMD: ON");
    assert_eq!(t0.line, 9);
    assert_eq!(t0.transition_type, TransitionType::IndirectHelper { helper_name: "set_on".to_string(), argument: None });
    let t1 = &sm.transitions[1];
    assert_eq!(t1.from, "M_OFF");
    assert_eq!(t1.to, "SYSTEM FAULT");
    assert_eq!(t1.guard, "report_fault: boom");
    assert_eq!(t1.label, "boom");
    assert!(t1.is_fault);
    assert_eq!(t1.transition_type, TransitionType::IndirectHelper {
        helper_name: "report_fault".to_string(),
        argument: Some("boom".to_string()),
    });
    assert_eq!(sm.states, vec!["M_OFF", "M_ON", "SYSTEM FAULT"]);
}

const AMBIGUOUS_SRC: &str = "typedef enum { A_X, A_Y } Ax;\n\
Ax ax;\n\
int main(void)\n\
{\n\
  ax = A_Y;\n\
  switch (ax) { case A_X: ax = A_Y; break; default: break; }\n\
}\n";

#[test]
fn unguarded_assignment_is_ambiguous() {
    let cands = discover_state_machines_in_file("main.c", AMBIGUOUS_SRC).expect("parses");
    assert_eq!(cands.len(), 1);
    let sm = extract_state_machine_transitions(&cands[0], AMBIGUOUS_SRC, &[]).expect("parses");
    assert_eq!(sm.ambiguous_transitions.len(), 1);
    let a = &sm.ambiguous_transitions[0];
    assert_eq!(a.target, "A_Y");
    assert_eq!(a.guard, "");
    assert_eq!(a.line, 5);
    assert_eq!(a.note, "Assignment to ax with no enclosing state check");
    assert_eq!(sm.transitions.len(), 1);
    assert_eq!(sm.transitions[0].from, "A_X");
    assert_eq!(sm.transitions[0].to, "A_Y");
    assert_eq!(sm.transitions[0].line, 6);
}

const DOOR_SRC: &str = "typedef enum { D_IDLE, D_OPEN } Door;\n\
Door door = D_IDLE;\n\
static void open_door(void) { door = D_OPEN; }\n\
int main(void)\n\
{\n\
  switch (door) { case D_IDLE: open_door(); break; default: break; }\n\
}\n";

const CMDS_SRC: &str = "static void cmd_open(void) { open_door(); }\n\
const Command table[] = { { \"OPEN\", cmd_open } };\n";

#[test]
fn command_handlers_in_other_files_give_event_transitions() {
    let cands = discover_state_machines_in_file("Core/Src/main.c", DOOR_SRC).expect("parses");
    assert_eq!(cands.len(), 1);
    let others = vec![("Core/Src/cmds.c".to_string(), CMDS_SRC.to_string())];
    let sm = extract_state_machine_transitions(&cands[0], DOOR_SRC, &others).expect("parses");
    assert_eq!(sm.transitions.len(), 2);
    let local = &sm.transitions[0];
    assert_eq!((local.from.as_str(), local.to.as_str()), ("D_IDLE", "D_OPEN"));
    assert_eq!(local.guard, "open_door()");
    let cross = &sm.transitions[1];
    assert_eq!(cross.from, "D_IDLE");
    assert_eq!(cross.to, "D_OPEN");
    assert_eq!(cross.guard, "CMD: OPEN");
    assert_eq!(cross.label, "CMD: OPEN");
    assert_eq!(cross.transition_type, TransitionType::EventTriggered);
    assert_eq!(cross.line, 1);
}

#[test]
fn unparsable_input_is_not_an_error_for_tree_sitter() {
    // tree-sitter recovers from syntax errors, so even broken C gives a tree.
    let cands = discover_state_machines_in_file("x.c", "int (((;").expect("parses");
    assert!(cands.is_empty());
}

#[test]
fn every_transition_stays_in_the_machine() {
    let sources = [SWITCH_SRC, HELPER_SRC, AMBIGUOUS_SRC, DOOR_SRC];
    for src in sources {
        let cands = discover_state_machines_in_file("main.c", src).expect("parses");
        for c in &cands {
            let others = vec![("cmds.c".to_string(), CMDS_SRC.to_string())];
            let sm = extract_state_machine_transitions(c, src, &others).expect("parses");
            let initial = c.var.initial_value.clone().unwrap_or_else(|| "IDLE".to_string());
            for t in &sm.transitions {
                assert!(sm.states.contains(&t.to), "{} not a state", t.to);
                assert!(
                    c.enum_def.variants.contains(&t.from) || t.from == "(any state)" || t.from == initial,
                    "{} is no source",
                    t.from
                );
            }
            for a in &sm.ambiguous_transitions {
                assert!(c.enum_def.variants.contains(&a.target));
            }
            for s in &sm.states {
                assert!(c.enum_def.variants.contains(s) || s == "SYSTEM FAULT");
            }
        }
    }
}
